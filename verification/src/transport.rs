//! The two transports: buffered, which passes the bytes on as they are, and
//! framed, which sends each flush as one frame behind a four-byte big-endian
//! length.
//!
//! Neither transport touches a socket. The writing side collects what is
//! written and hands out, on flush, the bytes that go on the wire. The
//! reading side is given the bytes that came from the wire and says how many
//! more it needs before a message can be read, so that whoever owns the
//! socket never reads past the end of a frame.

use crate::binary::fits;
use crate::bytes::{
    be32, be32_at, copy_range, has_bytes, holds_at, lemma_be32_at, lemma_be_len,
    lemma_holds_concat, push_be32, push_bytes, read_be32,
};
use crate::value::MAX_SIZE;
use vstd::prelude::*;

verus! {

/// Which transport a connection uses.
#[derive(Clone, Copy, Debug, PartialEq, Eq, Structural)]
pub enum TransportKind {
    Buffered,
    Framed,
}

/// A failure of the transport. Each is fatal to the connection.
#[derive(Clone, Copy, Debug, PartialEq, Eq, Structural)]
pub enum TransportError {
    /// The payload is longer than a frame's length can state.
    FrameTooLarge,
    /// A frame states a negative length.
    BadFrameSize,
    /// The stream ended inside a frame or inside a message.
    UnexpectedEnd,
    /// A frame ends before the message in it does.
    ShortFrame,
}

/// A payload as one frame.
pub open spec fn frame(payload: Seq<u8>) -> Seq<u8> {
    be32(payload.len() as int) + payload
}

/// What a flush of `payload` puts on the wire.
pub open spec fn wire_form(kind: TransportKind, payload: Seq<u8>) -> Seq<u8> {
    match kind {
        TransportKind::Buffered => payload,
        TransportKind::Framed => frame(payload),
    }
}

/// What can be said of the frame that starts at `pos`.
pub enum FrameStatus {
    /// The frame is not all there: so many bytes are missing.
    Missing(nat),
    /// The frame is there: its payload lies at `pos + 4` and is so long.
    Whole(nat),
    /// The frame states a negative length.
    Bad,
}

/// The state of the frame that starts at `pos`, where `bytes` is all that
/// has arrived.
pub open spec fn frame_status(bytes: Seq<u8>, pos: int) -> FrameStatus {
    if !fits(bytes, pos, 4) {
        FrameStatus::Missing((pos + 4 - bytes.len()) as nat)
    } else if be32_at(bytes, pos) >= 0x8000_0000 {
        FrameStatus::Bad
    } else if !fits(bytes, pos + 4, be32_at(bytes, pos)) {
        FrameStatus::Missing((pos + 4 + be32_at(bytes, pos) - bytes.len()) as nat)
    } else {
        FrameStatus::Whole(be32_at(bytes, pos) as nat)
    }
}

/// A frame on the wire is its payload behind four bytes, and reading it back
/// yields exactly the payload: where `bytes` holds the frame at `pos`, the
/// frame is whole with the payload's length, the payload lies behind the
/// four bytes, and nothing behind the frame is part of it.
pub proof fn lemma_frame_roundtrip(payload: Seq<u8>, bytes: Seq<u8>, pos: int)
    requires
        payload.len() <= MAX_SIZE,
        holds_at(bytes, pos, frame(payload)),
    ensures
        frame(payload).len() == 4 + payload.len(),
        frame_status(bytes, pos) == FrameStatus::Whole(payload.len()),
        bytes.subrange(pos + 4, pos + 4 + payload.len()) == payload,
{
    lemma_be_len(payload.len() as int);
    lemma_holds_concat(bytes, pos, be32(payload.len() as int), payload);
    lemma_be32_at(bytes, pos, payload.len() as int);
    vstd::arithmetic::div_mod::lemma_small_mod(payload.len(), 0x1_0000_0000);
}

/// The writing side of a transport.
#[derive(Debug)]
pub struct WriteTransport {
    kind: TransportKind,
    buffer: Vec<u8>,
}

impl WriteTransport {
    /// Which transport this is.
    pub closed spec fn kind(&self) -> TransportKind {
        self.kind
    }

    /// What was written and not flushed yet.
    pub closed spec fn pending(&self) -> Seq<u8> {
        self.buffer@
    }

    /// A transport with nothing written.
    pub fn new(kind: TransportKind) -> (t: WriteTransport)
        ensures
            t.kind() == kind,
            t.pending() == Seq::<u8>::empty(),
    {
        WriteTransport { kind, buffer: Vec::new() }
    }

    /// Which transport this is.
    pub fn kind_of(&self) -> (kind: TransportKind)
        ensures
            kind == self.kind(),
    {
        self.kind
    }

    /// Writes `bytes`: they are kept until the next flush.
    pub fn write(&mut self, bytes: &[u8])
        ensures
            final(self).kind() == old(self).kind(),
            final(self).pending() == old(self).pending() + bytes@,
    {
        push_bytes(&mut self.buffer, bytes);
    }

    /// How many bytes wait for the next flush.
    pub fn pending_len(&self) -> (n: usize)
        ensures
            n == self.pending().len(),
    {
        self.buffer.len()
    }

    /// Hands out what goes on the wire for all that was written since the
    /// last flush, and forgets it. A framed transport refuses a payload
    /// beyond 31 bits of length and keeps it.
    pub fn flush(&mut self) -> (r: Result<Vec<u8>, TransportError>)
        ensures
            final(self).kind() == old(self).kind(),
            match r {
                Ok(wire) => {
                    &&& wire@ == wire_form(old(self).kind(), old(self).pending())
                    &&& final(self).pending() == Seq::<u8>::empty()
                    &&& old(self).kind() == TransportKind::Framed ==> old(self).pending().len()
                        <= MAX_SIZE
                },
                Err(e) => {
                    &&& e == TransportError::FrameTooLarge
                    &&& old(self).kind() == TransportKind::Framed
                    &&& old(self).pending().len() > MAX_SIZE
                    &&& final(self).pending() == old(self).pending()
                },
            },
    {
        let mut wire: Vec<u8> = Vec::new();
        match self.kind {
            TransportKind::Buffered => {},
            TransportKind::Framed => {
                if self.buffer.len() > MAX_SIZE {
                    return Err(TransportError::FrameTooLarge);
                }
                push_be32(&mut wire, self.buffer.len() as u32);
            },
        }
        push_bytes(&mut wire, self.buffer.as_slice());
        self.buffer = Vec::new();
        assert(Seq::<u8>::empty() + old(self).pending() =~= old(self).pending());
        Ok(wire)
    }
}

/// What the reading side asks for next.
#[derive(Clone, Copy, Debug, PartialEq, Eq, Structural)]
pub enum Poll {
    /// So many more bytes, and not one more, before anything can be read.
    Need(usize),
    /// Nothing for now: a message may lie in `inbox[from..to]`. On a
    /// buffered transport the message may still run on behind `to`.
    Message(usize, usize),
}

/// The reading side of a transport.
#[derive(Debug)]
pub struct ReadTransport {
    kind: TransportKind,
    inbox: Vec<u8>,
}

impl ReadTransport {
    /// Which transport this is.
    pub closed spec fn kind(&self) -> TransportKind {
        self.kind
    }

    /// What has arrived and was not taken yet.
    pub closed spec fn arrived(&self) -> Seq<u8> {
        self.inbox@
    }

    /// A transport to which nothing has arrived.
    pub fn new(kind: TransportKind) -> (t: ReadTransport)
        ensures
            t.kind() == kind,
            t.arrived() == Seq::<u8>::empty(),
    {
        ReadTransport { kind, inbox: Vec::new() }
    }

    /// Which transport this is.
    pub fn kind_of(&self) -> (kind: TransportKind)
        ensures
            kind == self.kind(),
    {
        self.kind
    }

    /// Takes in bytes that came from the wire.
    pub fn supply(&mut self, bytes: &[u8])
        ensures
            final(self).kind() == old(self).kind(),
            final(self).arrived() == old(self).arrived() + bytes@,
    {
        push_bytes(&mut self.inbox, bytes);
    }

    /// What has arrived and was not taken yet.
    pub fn inbox(&self) -> (bytes: &[u8])
        ensures
            bytes@ == self.arrived(),
    {
        self.inbox.as_slice()
    }

    /// What to do next. A framed transport asks for the rest of the frame
    /// at the front until it is whole, then offers its payload; it fails on
    /// a negative length. A buffered transport asks for a byte while it has
    /// none, then offers all it has.
    pub fn poll(&self) -> (r: Result<Poll, TransportError>)
        ensures
            match self.kind() {
                TransportKind::Framed => match frame_status(self.arrived(), 0) {
                    FrameStatus::Missing(n) => r matches Ok(Poll::Need(k)) && k == n,
                    FrameStatus::Whole(n) => r matches Ok(Poll::Message(from, to)) && from == 4
                        && to == 4 + n && to <= self.arrived().len(),
                    FrameStatus::Bad => r == Err::<Poll, TransportError>(
                        TransportError::BadFrameSize,
                    ),
                },
                TransportKind::Buffered => if self.arrived().len() == 0 {
                    r == Ok::<Poll, TransportError>(Poll::Need(1))
                } else {
                    r matches Ok(Poll::Message(from, to)) && from == 0 && to
                        == self.arrived().len()
                },
            },
    {
        let bytes = self.inbox.as_slice();
        match self.kind {
            TransportKind::Buffered => {
                if bytes.len() == 0 {
                    Ok(Poll::Need(1))
                } else {
                    Ok(Poll::Message(0, bytes.len()))
                }
            },
            TransportKind::Framed => {
                if !has_bytes(bytes, 0, 4) {
                    return Ok(Poll::Need(4 - bytes.len()));
                }
                let n = read_be32(bytes, 0);
                if n >= 0x8000_0000 {
                    return Err(TransportError::BadFrameSize);
                }
                let n = n as usize;
                if !has_bytes(bytes, 4, n) {
                    return Ok(Poll::Need(n - (bytes.len() - 4)));
                }
                Ok(Poll::Message(4, 4 + n))
            },
        }
    }

    /// Forgets the first `n` bytes that arrived: the message in them was
    /// read.
    pub fn take(&mut self, n: usize)
        requires
            n <= old(self).arrived().len(),
        ensures
            final(self).kind() == old(self).kind(),
            final(self).arrived() == old(self).arrived().subrange(
                n as int,
                old(self).arrived().len() as int,
            ),
    {
        let rest = copy_range(self.inbox.as_slice(), n, self.inbox.len());
        self.inbox = rest;
    }

    /// What the end of the stream means here: nothing where no byte waits,
    /// else the stream ended inside a frame or a message.
    pub fn close(&self) -> (r: Result<(), TransportError>)
        ensures
            r is Ok <==> self.arrived().len() == 0,
            r matches Err(e) ==> e == TransportError::UnexpectedEnd,
    {
        if self.inbox.len() == 0 {
            Ok(())
        } else {
            Err(TransportError::UnexpectedEnd)
        }
    }
}

} // verus!
