//! The choice between the two codecs, made once for a connection.

use crate::binary::{
    binary_decode, binary_decode_fields, binary_encode, decode_binary, decode_binary_fields,
    encode_binary, encode_binary_fields, lemma_binary_decoded, lemma_binary_decoded_fields,
    lemma_binary_roundtrip,
};
use crate::bytes::{holds_at, lemma_holds_concat};
use crate::compact::{
    compact_decode, compact_decode_fields, compact_encode, compact_exact, decode_compact,
    decode_compact_fields, encode_compact, encode_compact_fields, lemma_compact_decoded,
    lemma_compact_decoded_fields,
};
use crate::error::DecodeError;
use crate::logical::{equivalent, lemma_equivalent_reflexive};
use crate::message::{
    binary_envelope, binary_envelope_at, compact_envelope, compact_envelope_at, envelope_wf,
    lemma_binary_envelope_roundtrip, lemma_compact_envelope_roundtrip, push_binary_envelope,
    push_compact_envelope, read_binary_envelope, read_compact_envelope, Envelope, EnvelopeModel,
    MessageKind,
};
use crate::reading::{compact_reading, lemma_compact_decode_encode};
use crate::value::{fields_wf, view_fields, TType, Val, Value, MAX_SIZE};
use vstd::prelude::*;
use vstd::utf8::encode_utf8;

verus! {

/// Which codec a connection uses.
#[derive(Clone, Copy, Debug, PartialEq, Eq, Structural)]
pub enum Protocol {
    Binary,
    Compact,
}

impl Protocol {
    /// The encoding of a value.
    pub open spec fn encoding(self, v: Val) -> Seq<u8> {
        match self {
            Protocol::Binary => binary_encode(v),
            Protocol::Compact => compact_encode(v),
        }
    }

    /// The value of type `t` that starts at `pos`, and how many bytes it
    /// takes.
    pub open spec fn decoding(self, t: TType, bytes: Seq<u8>, pos: int) -> Result<
        (Val, nat),
        DecodeError,
    > {
        match self {
            Protocol::Binary => binary_decode(t, bytes, pos),
            Protocol::Compact => compact_decode(t, bytes, pos),
        }
    }

    /// Whether the encoding tells all of the value. The binary encoding
    /// always does; the compact encoding does not tell the types of an empty
    /// map.
    pub open spec fn exact(self, v: Val) -> bool {
        match self {
            Protocol::Binary => true,
            Protocol::Compact => compact_exact(v),
        }
    }

    /// The encoding of an envelope.
    pub open spec fn envelope(self, e: EnvelopeModel) -> Seq<u8> {
        match self {
            Protocol::Binary => binary_envelope(e),
            Protocol::Compact => compact_envelope(e),
        }
    }

    /// The envelope at `pos`, and how many bytes it takes.
    pub open spec fn envelope_at(self, bytes: Seq<u8>, pos: int) -> Result<
        (EnvelopeModel, nat),
        DecodeError,
    > {
        match self {
            Protocol::Binary => binary_envelope_at(bytes, pos),
            Protocol::Compact => compact_envelope_at(bytes, pos),
        }
    }

    /// A message: the envelope and, right behind it, the struct of the
    /// arguments or of the result.
    pub open spec fn message(self, e: EnvelopeModel, fields: Seq<(i16, Val)>) -> Seq<u8> {
        self.envelope(e) + self.encoding(Val::Struct(fields))
    }

    /// The message at `pos`: its envelope, the fields of its struct, and how
    /// many bytes it takes.
    pub open spec fn message_at(self, bytes: Seq<u8>, pos: int) -> Result<
        (EnvelopeModel, Seq<(i16, Val)>, nat),
        DecodeError,
    > {
        match self.envelope_at(bytes, pos) {
            Err(e) => Err(e),
            Ok((envelope, head)) => match self.fields_at(bytes, pos + head) {
                Err(e) => Err(e),
                Ok((fields, len)) => Ok((envelope, fields, head + len)),
            },
        }
    }

    /// The fields of the struct that starts at `pos`, and how many bytes the
    /// struct takes.
    pub open spec fn fields_at(self, bytes: Seq<u8>, pos: int) -> Result<
        (Seq<(i16, Val)>, nat),
        DecodeError,
    > {
        match self {
            Protocol::Binary => binary_decode_fields(bytes, pos),
            Protocol::Compact => compact_decode_fields(bytes, pos, 0),
        }
    }

    /// The value as the codec reads it back. The binary codec reads back
    /// what was written; the compact codec forgets the types of empty maps.
    pub open spec fn reading(self, v: Val) -> Val {
        match self {
            Protocol::Binary => v,
            Protocol::Compact => compact_reading(v),
        }
    }

    /// Decoding inverts encoding, in either protocol and for every
    /// well-formed value: where `bytes` holds the encoding of `v` at `pos`,
    /// decoding the type of `v` at `pos` takes exactly the bytes of the
    /// encoding, whatever follows, and yields a value that means the same
    /// as `v`, and that is `v` itself where the encoding tells all of `v`.
    pub proof fn lemma_roundtrip(self, v: Val, bytes: Seq<u8>, pos: int)
        requires
            v.wf(),
            holds_at(bytes, pos, self.encoding(v)),
        ensures
            self.decoding(v.ttype(), bytes, pos) == Ok::<(Val, nat), DecodeError>(
                (self.reading(v), self.encoding(v).len()),
            ),
            equivalent(self.reading(v), v),
            self.exact(v) ==> self.reading(v) == v,
    {
        match self {
            Protocol::Binary => {
                lemma_binary_roundtrip(v, bytes, pos);
                lemma_equivalent_reflexive(v);
            },
            Protocol::Compact => {
                lemma_compact_decode_encode(v, bytes, pos);
            },
        }
    }

    /// Whatever decodes is well-formed, in either protocol, so it can be
    /// encoded again: a value that is decoded as a `t` is a `t`, each of
    /// its containers holds elements of the type it declares, and it takes
    /// at least one byte and no byte beyond the input.
    pub proof fn lemma_decoded(self, t: TType, bytes: Seq<u8>, pos: int)
        requires
            0 <= pos,
        ensures
            self.decoding(t, bytes, pos) matches Ok((v, len)) ==> v.ttype() == t && v.wf() && 1
                <= len && pos + len <= bytes.len(),
            self.fields_at(bytes, pos) matches Ok((fields, len)) ==> fields_wf(fields) && 1 <= len
                && pos + len <= bytes.len(),
    {
        match self {
            Protocol::Binary => {
                lemma_binary_decoded(t, bytes, pos);
                lemma_binary_decoded_fields(bytes, pos);
            },
            Protocol::Compact => {
                lemma_compact_decoded(t, bytes, pos);
                lemma_compact_decoded_fields(bytes, pos, 0);
            },
        }
    }

    /// Decoding the encoding of a value, with nothing in front of it and
    /// anything behind it, yields a value that means the same, and the value
    /// itself where the encoding tells all of it.
    pub proof fn lemma_decode_encode(self, v: Val, rest: Seq<u8>)
        requires
            v.wf(),
        ensures
            self.decoding(v.ttype(), self.encoding(v) + rest, 0) == Ok::<(Val, nat), DecodeError>(
                (self.reading(v), self.encoding(v).len()),
            ),
            equivalent(self.reading(v), v),
            self.exact(v) ==> self.reading(v) == v,
    {
        let bytes = self.encoding(v) + rest;
        assert(bytes.subrange(0, self.encoding(v).len() as int) =~= self.encoding(v));
        self.lemma_roundtrip(v, bytes, 0);
    }

    /// Reading inverts writing for whole messages, in either protocol.
    pub proof fn lemma_message_roundtrip(
        self,
        e: EnvelopeModel,
        fields: Seq<(i16, Val)>,
        bytes: Seq<u8>,
        pos: int,
    )
        requires
            envelope_wf(e),
            Val::Struct(fields).wf(),
            self.exact(Val::Struct(fields)),
            holds_at(bytes, pos, self.message(e, fields)),
        ensures
            self.message_at(bytes, pos) == Ok::<(EnvelopeModel, Seq<(i16, Val)>, nat), DecodeError>(
                (e, fields, self.message(e, fields).len()),
            ),
    {
        let body = Val::Struct(fields);
        lemma_holds_concat(bytes, pos, self.envelope(e), self.encoding(body));
        match self {
            Protocol::Binary => lemma_binary_envelope_roundtrip(e, bytes, pos),
            Protocol::Compact => lemma_compact_envelope_roundtrip(e, bytes, pos),
        }
        self.lemma_roundtrip(body, bytes, pos + self.envelope(e).len());
    }

    /// Appends the encoding of `v`.
    pub fn encode(self, v: &Value, out: &mut Vec<u8>)
        requires
            v@.wf(),
        ensures
            final(out)@ == old(out)@ + self.encoding(v@),
    {
        match self {
            Protocol::Binary => encode_binary(v, out),
            Protocol::Compact => encode_compact(v, out),
        }
    }

    /// Appends the encoding of the struct with these fields.
    pub fn encode_fields(self, fields: &Vec<(i16, Value)>, out: &mut Vec<u8>)
        requires
            fields_wf(view_fields(fields)),
        ensures
            final(out)@ == old(out)@ + self.encoding(Val::Struct(view_fields(fields))),
    {
        match self {
            Protocol::Binary => encode_binary_fields(fields, out),
            Protocol::Compact => encode_compact_fields(fields, out),
        }
    }

    /// Reads the value of type `t` that starts at `pos`; with it comes the
    /// position behind the value.
    pub fn decode(self, t: TType, bytes: &[u8], pos: usize) -> (r: Result<
        (Value, usize),
        DecodeError,
    >)
        ensures
            match r {
                Ok((v, next)) => self.decoding(t, bytes@, pos as int) == Ok::<
                    (Val, nat),
                    DecodeError,
                >((v@, (next - pos) as nat)) && pos < next <= bytes.len() && v@.ttype() == t
                    && v@.wf(),
                Err(e) => self.decoding(t, bytes@, pos as int) == Err::<(Val, nat), DecodeError>(
                    e,
                ),
            },
    {
        proof {
            self.lemma_decoded(t, bytes@, pos as int);
        }
        match self {
            Protocol::Binary => decode_binary(t, bytes, pos),
            Protocol::Compact => decode_compact(t, bytes, pos),
        }
    }

    /// Passes over the value of type `t` that starts at `pos`, by the
    /// value's own structure: the position behind it, or the error that
    /// decoding it meets.
    pub fn skip(self, t: TType, bytes: &[u8], pos: usize) -> (r: Result<usize, DecodeError>)
        ensures
            match r {
                Ok(next) => self.decoding(t, bytes@, pos as int) matches Ok((_, len)) && next == pos
                    + len && pos < next <= bytes.len(),
                Err(e) => self.decoding(t, bytes@, pos as int) == Err::<(Val, nat), DecodeError>(
                    e,
                ),
            },
    {
        match self.decode(t, bytes, pos) {
            Ok((_, next)) => Ok(next),
            Err(e) => Err(e),
        }
    }

    /// Appends an envelope.
    pub fn push_envelope(self, out: &mut Vec<u8>, kind: MessageKind, name: &str, seq: i32)
        requires
            encode_utf8(name@).len() <= MAX_SIZE,
        ensures
            final(out)@ == old(out)@ + self.envelope(EnvelopeModel { kind, name: name@, seq }),
    {
        match self {
            Protocol::Binary => push_binary_envelope(out, kind, name, seq),
            Protocol::Compact => push_compact_envelope(out, kind, name, seq),
        }
    }

    /// Reads the envelope at `pos`; with it comes the position behind the
    /// envelope.
    pub fn read_envelope(self, bytes: &[u8], pos: usize) -> (r: Result<
        (Envelope, usize),
        DecodeError,
    >)
        ensures
            match r {
                Ok((e, next)) => self.envelope_at(bytes@, pos as int) == Ok::<
                    (EnvelopeModel, nat),
                    DecodeError,
                >((e@, (next - pos) as nat)) && pos < next <= bytes.len(),
                Err(e) => self.envelope_at(bytes@, pos as int) == Err::<
                    (EnvelopeModel, nat),
                    DecodeError,
                >(e),
            },
    {
        match self {
            Protocol::Binary => read_binary_envelope(bytes, pos),
            Protocol::Compact => read_compact_envelope(bytes, pos),
        }
    }

    /// Reads the message at `pos`: its envelope and the fields of its
    /// struct; with them comes the position behind the message.
    pub fn read_message(self, bytes: &[u8], pos: usize) -> (r: Result<
        (Envelope, Vec<(i16, Value)>, usize),
        DecodeError,
    >)
        ensures
            match r {
                Ok((e, fields, next)) => self.message_at(bytes@, pos as int) == Ok::<
                    (EnvelopeModel, Seq<(i16, Val)>, nat),
                    DecodeError,
                >((e@, view_fields(&fields), (next - pos) as nat)) && pos < next <= bytes.len()
                    && fields_wf(view_fields(&fields)),
                Err(e) => self.message_at(bytes@, pos as int) == Err::<
                    (EnvelopeModel, Seq<(i16, Val)>, nat),
                    DecodeError,
                >(e),
            },
    {
        let (envelope, at) = match self.read_envelope(bytes, pos) {
            Ok(r) => r,
            Err(e) => {
                return Err(e);
            },
        };
        match self.read_fields(bytes, at) {
            Err(e) => Err(e),
            Ok((fields, next)) => Ok((envelope, fields, next)),
        }
    }

    /// Reads the fields of the struct that starts at `pos`; with them comes
    /// the position behind the struct.
    pub fn read_fields(self, bytes: &[u8], pos: usize) -> (r: Result<
        (Vec<(i16, Value)>, usize),
        DecodeError,
    >)
        ensures
            match r {
                Ok((fields, next)) => self.fields_at(bytes@, pos as int) == Ok::<
                    (Seq<(i16, Val)>, nat),
                    DecodeError,
                >((view_fields(&fields), (next - pos) as nat)) && pos < next <= bytes.len()
                    && fields_wf(view_fields(&fields)),
                Err(e) => self.fields_at(bytes@, pos as int) == Err::<
                    (Seq<(i16, Val)>, nat),
                    DecodeError,
                >(e),
            },
    {
        proof {
            self.lemma_decoded(TType::Struct, bytes@, pos as int);
        }
        match self {
            Protocol::Binary => decode_binary_fields(bytes, pos),
            Protocol::Compact => decode_compact_fields(bytes, pos),
        }
    }
}

} // verus!
