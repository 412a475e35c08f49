//! The envelope that opens every message: what kind of message it is, which
//! method it belongs to, and the sequence id that pairs a reply with its
//! call.

use crate::binary::{binary_size_at, fits, read_binary_size};
use crate::bytes::{
    be32, be32_at, has_bytes, holds_at, i32_of_word, lemma_be32_at, lemma_be32_of_word,
    lemma_be_len, lemma_holds_concat, lemma_signed_roundtrip, push_be32, push_bytes, read_be32,
    signed_of, unsigned_of, word_of_i32,
};
use crate::compact::{compact_size_at, read_compact_size};
use crate::error::DecodeError;
use crate::text::{lemma_text_roundtrip, text_of_range};
use crate::value::MAX_SIZE;
use crate::varint::{
    lemma_pow128, lemma_varint_len, lemma_varint_roundtrip, push_varint, read_varint32, varint,
    varint32_at,
};
use vstd::prelude::*;
use vstd::utf8::{decode_utf8, encode_utf8, valid_utf8};

verus! {

/// The kind of a message.
#[derive(Clone, Copy, Debug, PartialEq, Eq, Structural)]
pub enum MessageKind {
    /// A call that awaits a reply.
    Call,
    /// The reply to a call: a result or a declared exception.
    Reply,
    /// The reply to a call that failed outside the method's contract.
    Exception,
    /// A call that awaits nothing.
    Oneway,
}

/// The envelope of a message.
#[derive(Debug, PartialEq, Eq)]
pub struct Envelope {
    pub kind: MessageKind,
    pub name: String,
    pub seq: i32,
}

/// The mathematical model of an [`Envelope`].
pub struct EnvelopeModel {
    pub kind: MessageKind,
    pub name: Seq<char>,
    pub seq: i32,
}

impl View for Envelope {
    type V = EnvelopeModel;

    open spec fn view(&self) -> EnvelopeModel {
        EnvelopeModel { kind: self.kind, name: self.name@, seq: self.seq }
    }
}

/// The number that stands for a message kind.
pub open spec fn kind_code(kind: MessageKind) -> u8 {
    match kind {
        MessageKind::Call => 1,
        MessageKind::Reply => 2,
        MessageKind::Exception => 3,
        MessageKind::Oneway => 4,
    }
}

/// The message kind that a number stands for, if any.
pub open spec fn kind_of_code(code: u8) -> Option<MessageKind> {
    if code == 1 {
        Some(MessageKind::Call)
    } else if code == 2 {
        Some(MessageKind::Reply)
    } else if code == 3 {
        Some(MessageKind::Exception)
    } else if code == 4 {
        Some(MessageKind::Oneway)
    } else {
        None
    }
}

/// Whether an envelope can be sent: the bytes of its name fit a length.
pub open spec fn envelope_wf(e: EnvelopeModel) -> bool {
    encode_utf8(e.name).len() <= MAX_SIZE
}

/// The envelope in the binary protocol: the version word with the kind in
/// its low byte, the name behind its length, the sequence id.
pub open spec fn binary_envelope(e: EnvelopeModel) -> Seq<u8> {
    seq![0x80u8, 0x01u8, 0x00u8, kind_code(e.kind)] + be32(encode_utf8(e.name).len() as int)
        + encode_utf8(e.name) + be32(e.seq as int)
}

/// The envelope in the compact protocol: the protocol id, the kind above the
/// version, the sequence id as an unsigned number, the name behind its
/// length.
pub open spec fn compact_envelope(e: EnvelopeModel) -> Seq<u8> {
    seq![0x82u8, (kind_code(e.kind) * 32 + 1) as u8] + varint(
        unsigned_of(e.seq as int, 0x1_0000_0000) as nat,
    ) + varint(encode_utf8(e.name).len()) + encode_utf8(e.name)
}

/// The string of `n` bytes at `pos`.
pub open spec fn text_at(bytes: Seq<u8>, pos: int, n: nat) -> Result<Seq<char>, DecodeError> {
    if !fits(bytes, pos, n as int) {
        Err(DecodeError::Truncated)
    } else if !valid_utf8(bytes.subrange(pos, pos + n)) {
        Err(DecodeError::InvalidUtf8)
    } else {
        Ok(decode_utf8(bytes.subrange(pos, pos + n)))
    }
}

/// The binary envelope at `pos`, and how many bytes it takes.
pub open spec fn binary_envelope_at(bytes: Seq<u8>, pos: int) -> Result<
    (EnvelopeModel, nat),
    DecodeError,
> {
    if !fits(bytes, pos, 4) {
        Err(DecodeError::Truncated)
    } else if bytes[pos] != 0x80 || bytes[pos + 1] != 0x01 {
        Err(DecodeError::BadVersion)
    } else {
        match kind_of_code(bytes[pos + 3]) {
            None => Err(DecodeError::BadMessageKind),
            Some(kind) => match binary_size_at(bytes, pos + 4) {
                Err(e) => Err(e),
                Ok(n) => match text_at(bytes, pos + 8, n) {
                    Err(e) => Err(e),
                    Ok(name) => if !fits(bytes, pos + 8 + n, 4) {
                        Err(DecodeError::Truncated)
                    } else {
                        Ok(
                            (
                                EnvelopeModel {
                                    kind,
                                    name,
                                    seq: signed_of(
                                        be32_at(bytes, pos + 8 + n),
                                        0x1_0000_0000,
                                    ) as i32,
                                },
                                12 + n,
                            ),
                        )
                    },
                },
            },
        }
    }
}

/// The compact envelope at `pos`, and how many bytes it takes.
pub open spec fn compact_envelope_at(bytes: Seq<u8>, pos: int) -> Result<
    (EnvelopeModel, nat),
    DecodeError,
> {
    if !fits(bytes, pos, 1) {
        Err(DecodeError::Truncated)
    } else if bytes[pos] != 0x82 {
        Err(DecodeError::BadVersion)
    } else if !fits(bytes, pos + 1, 1) {
        Err(DecodeError::Truncated)
    } else if bytes[pos + 1] % 32 != 1 {
        Err(DecodeError::BadVersion)
    } else {
        match kind_of_code(bytes[pos + 1] / 32) {
            None => Err(DecodeError::BadMessageKind),
            Some(kind) => match varint32_at(bytes, pos + 2) {
                Err(e) => Err(e),
                Ok((word, seq_len)) => match compact_size_at(bytes, pos + 2 + seq_len) {
                    Err(e) => Err(e),
                    Ok((n, size_len)) => match text_at(bytes, pos + 2 + seq_len + size_len, n) {
                        Err(e) => Err(e),
                        Ok(name) => Ok(
                            (
                                EnvelopeModel {
                                    kind,
                                    name,
                                    seq: signed_of(word as int, 0x1_0000_0000) as i32,
                                },
                                2 + seq_len + size_len + n,
                            ),
                        ),
                    },
                },
            },
        }
    }
}

/// The number that stands for a message kind.
pub fn code_of_kind(kind: MessageKind) -> (code: u8)
    ensures
        code == kind_code(kind),
{
    match kind {
        MessageKind::Call => 1,
        MessageKind::Reply => 2,
        MessageKind::Exception => 3,
        MessageKind::Oneway => 4,
    }
}

/// The message kind that a number stands for, if any.
pub fn kind_from_code(code: u8) -> (kind: Option<MessageKind>)
    ensures
        kind == kind_of_code(code),
{
    match code {
        1 => Some(MessageKind::Call),
        2 => Some(MessageKind::Reply),
        3 => Some(MessageKind::Exception),
        4 => Some(MessageKind::Oneway),
        _ => None,
    }
}

/// Appends an envelope in the binary protocol.
pub fn push_binary_envelope(out: &mut Vec<u8>, kind: MessageKind, name: &str, seq: i32)
    requires
        encode_utf8(name@).len() <= MAX_SIZE,
    ensures
        final(out)@ == old(out)@ + binary_envelope(EnvelopeModel { kind, name: name@, seq }),
{
    let text = name.as_bytes();
    out.push(0x80);
    out.push(0x01);
    out.push(0x00);
    out.push(code_of_kind(kind));
    push_be32(out, text.len() as u32);
    push_bytes(out, text);
    proof {
        lemma_be32_of_word(seq as int);
    }
    push_be32(out, word_of_i32(seq));
    assert(out@ =~= old(out)@ + binary_envelope(EnvelopeModel { kind, name: name@, seq }));
}

/// Appends an envelope in the compact protocol.
pub fn push_compact_envelope(out: &mut Vec<u8>, kind: MessageKind, name: &str, seq: i32)
    requires
        encode_utf8(name@).len() <= MAX_SIZE,
    ensures
        final(out)@ == old(out)@ + compact_envelope(EnvelopeModel { kind, name: name@, seq }),
{
    let text = name.as_bytes();
    out.push(0x82);
    out.push(code_of_kind(kind) * 32 + 1);
    push_varint(out, word_of_i32(seq) as u64);
    push_varint(out, text.len() as u64);
    push_bytes(out, text);
    assert(out@ =~= old(out)@ + compact_envelope(EnvelopeModel { kind, name: name@, seq }));
}

/// Reads the binary envelope at `pos`; with it comes the position behind
/// the envelope.
pub fn read_binary_envelope(bytes: &[u8], pos: usize) -> (r: Result<(Envelope, usize), DecodeError>)
    ensures
        match r {
            Ok((e, next)) => binary_envelope_at(bytes@, pos as int) == Ok::<
                (EnvelopeModel, nat),
                DecodeError,
            >((e@, (next - pos) as nat)) && pos < next <= bytes.len(),
            Err(e) => binary_envelope_at(bytes@, pos as int) == Err::<
                (EnvelopeModel, nat),
                DecodeError,
            >(e),
        },
{
    if !has_bytes(bytes, pos, 4) {
        return Err(DecodeError::Truncated);
    }
    if bytes[pos] != 0x80 || bytes[pos + 1] != 0x01 {
        return Err(DecodeError::BadVersion);
    }
    let kind = match kind_from_code(bytes[pos + 3]) {
        Some(kind) => kind,
        None => {
            return Err(DecodeError::BadMessageKind);
        },
    };
    let n = match read_binary_size(bytes, pos + 4) {
        Ok(n) => n,
        Err(e) => {
            return Err(e);
        },
    };
    if !has_bytes(bytes, pos + 8, n) {
        return Err(DecodeError::Truncated);
    }
    let name = match text_of_range(bytes, pos + 8, pos + 8 + n) {
        Ok(name) => name,
        Err(e) => {
            return Err(e);
        },
    };
    if !has_bytes(bytes, pos + 8 + n, 4) {
        return Err(DecodeError::Truncated);
    }
    let seq = i32_of_word(read_be32(bytes, pos + 8 + n));
    Ok((Envelope { kind, name, seq }, pos + 12 + n))
}

/// Reads the compact envelope at `pos`; with it comes the position behind
/// the envelope.
pub fn read_compact_envelope(bytes: &[u8], pos: usize) -> (r: Result<(Envelope, usize), DecodeError>)
    ensures
        match r {
            Ok((e, next)) => compact_envelope_at(bytes@, pos as int) == Ok::<
                (EnvelopeModel, nat),
                DecodeError,
            >((e@, (next - pos) as nat)) && pos < next <= bytes.len(),
            Err(e) => compact_envelope_at(bytes@, pos as int) == Err::<
                (EnvelopeModel, nat),
                DecodeError,
            >(e),
        },
{
    if !has_bytes(bytes, pos, 1) {
        return Err(DecodeError::Truncated);
    }
    if bytes[pos] != 0x82 {
        return Err(DecodeError::BadVersion);
    }
    if !has_bytes(bytes, pos + 1, 1) {
        return Err(DecodeError::Truncated);
    }
    if bytes[pos + 1] % 32 != 1 {
        return Err(DecodeError::BadVersion);
    }
    let kind = match kind_from_code(bytes[pos + 1] / 32) {
        Some(kind) => kind,
        None => {
            return Err(DecodeError::BadMessageKind);
        },
    };
    let (word, at) = match read_varint32(bytes, pos + 2) {
        Ok(r) => r,
        Err(e) => {
            return Err(e);
        },
    };
    let (n, from) = match read_compact_size(bytes, at) {
        Ok(r) => r,
        Err(e) => {
            return Err(e);
        },
    };
    if !has_bytes(bytes, from, n) {
        return Err(DecodeError::Truncated);
    }
    let name = match text_of_range(bytes, from, from + n) {
        Ok(name) => name,
        Err(e) => {
            return Err(e);
        },
    };
    Ok((Envelope { kind, name, seq: i32_of_word(word) }, from + n))
}

/// Every message kind is the kind of its own code.
pub proof fn lemma_kind_code(kind: MessageKind)
    ensures
        kind_of_code(kind_code(kind)) == Some(kind),
        1 <= kind_code(kind) <= 4,
{
}

/// Reading inverts writing for binary envelopes: where `bytes` holds the
/// envelope at `pos`, reading at `pos` yields it and stops behind it.
pub proof fn lemma_binary_envelope_roundtrip(e: EnvelopeModel, bytes: Seq<u8>, pos: int)
    requires
        envelope_wf(e),
        holds_at(bytes, pos, binary_envelope(e)),
    ensures
        binary_envelope_at(bytes, pos) == Ok::<(EnvelopeModel, nat), DecodeError>(
            (e, binary_envelope(e).len()),
        ),
{
    let head = seq![0x80u8, 0x01u8, 0x00u8, kind_code(e.kind)];
    let text = encode_utf8(e.name);
    let n = text.len();
    lemma_kind_code(e.kind);
    lemma_text_roundtrip(e.name);
    lemma_be_len(n as int);
    lemma_be_len(e.seq as int);
    lemma_holds_concat(bytes, pos, head + be32(n as int) + text, be32(e.seq as int));
    lemma_holds_concat(bytes, pos, head + be32(n as int), text);
    lemma_holds_concat(bytes, pos, head, be32(n as int));
    let start = bytes.subrange(pos, pos + 4);
    assert(start[0] == bytes[pos] && start[1] == bytes[pos + 1] && start[3] == bytes[pos + 3]);
    lemma_be32_at(bytes, pos + 4, n as int);
    vstd::arithmetic::div_mod::lemma_small_mod(n, 0x1_0000_0000);
    lemma_be32_at(bytes, pos + 8 + n, e.seq as int);
    lemma_signed_roundtrip(e.seq as int, 0x1_0000_0000);
}

/// Reading inverts writing for compact envelopes: where `bytes` holds the
/// envelope at `pos`, reading at `pos` yields it and stops behind it.
pub proof fn lemma_compact_envelope_roundtrip(e: EnvelopeModel, bytes: Seq<u8>, pos: int)
    requires
        envelope_wf(e),
        holds_at(bytes, pos, compact_envelope(e)),
    ensures
        compact_envelope_at(bytes, pos) == Ok::<(EnvelopeModel, nat), DecodeError>(
            (e, compact_envelope(e).len()),
        ),
{
    let head = seq![0x82u8, (kind_code(e.kind) * 32 + 1) as u8];
    let word = unsigned_of(e.seq as int, 0x1_0000_0000) as nat;
    let text = encode_utf8(e.name);
    let n = text.len();
    lemma_kind_code(e.kind);
    lemma_text_roundtrip(e.name);
    lemma_signed_roundtrip(e.seq as int, 0x1_0000_0000);
    lemma_holds_concat(bytes, pos, head + varint(word) + varint(n), text);
    lemma_holds_concat(bytes, pos, head + varint(word), varint(n));
    lemma_holds_concat(bytes, pos, head, varint(word));
    let start = bytes.subrange(pos, pos + 2);
    assert(start[0] == bytes[pos] && start[1] == bytes[pos + 1]);
    let code = kind_code(e.kind);
    assert((code * 32 + 1) % 32 == 1 && (code * 32 + 1) / 32 == code);
    lemma_pow128();
    lemma_varint_len(word, 5);
    lemma_varint_roundtrip(bytes, pos + 2, word, 5);
    lemma_varint_len(n, 5);
    lemma_varint_roundtrip(bytes, pos + 2 + varint(word).len(), n, 5);
}

} // verus!
