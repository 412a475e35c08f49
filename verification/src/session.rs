//! One call from end to end, cut into the steps between which bytes move on
//! the wire: sending hands out what to write to the socket; receiving says,
//! from what has arrived so far, either how much to read next or what the
//! answer is. Whoever owns the socket runs the loop; every decision is made
//! here.

use crate::bytes::holds_at;
use crate::dispatch::{
    classify, lemma_reply_of_message, refusal, reply_at, CallError, Client, Method, MethodModel,
    Reply, ReplyModel,
};
use crate::message::{envelope_wf, EnvelopeModel, MessageKind};
use crate::error::DecodeError;
use crate::protocol::Protocol;
use crate::transport::{
    frame_status, lemma_frame_roundtrip, wire_form, FrameStatus, Poll, ReadTransport,
    TransportError, TransportKind, WriteTransport,
};
use crate::value::{view_fields, Val, Value, MAX_SIZE};
use vstd::prelude::*;
use vstd::slice::slice_subrange;

verus! {

/// Why a call came to nothing.
#[derive(Clone, Copy, Debug, PartialEq, Eq, Structural)]
pub enum Failure {
    Call(CallError),
    Transport(TransportError),
}

/// Where the reading of a reply stands.
#[derive(Debug, PartialEq, Eq)]
pub enum Progress {
    /// So many bytes are to be read, and not one more: the rest of a frame.
    Frame(usize),
    /// More is to be read, as much as comes, but a byte at least.
    More,
    /// The answer.
    Done(Reply),
}

/// The mathematical model of a [`Progress`].
pub enum ProgressModel {
    Frame(nat),
    More,
    Done(ReplyModel),
}

impl View for Progress {
    type V = ProgressModel;

    open spec fn view(&self) -> ProgressModel {
        match self {
            Progress::Frame(n) => ProgressModel::Frame(*n as nat),
            Progress::More => ProgressModel::More,
            Progress::Done(reply) => ProgressModel::Done(reply@),
        }
    }
}

/// Where the reading of the reply to the call of `method` under `seq`
/// stands when `arrived` is all that has come, and what is left of
/// `arrived` afterwards.
///
/// A framed transport waits until the frame at the front is whole, reads
/// the reply from the payload of that frame and from nothing else, and
/// drops the frame; so a reply that runs past its frame is a short frame,
/// and nothing of the next frame is seen. A buffered transport reads
/// the reply from all that has come; a reply that is not all there yet
/// asks for more, and what lies behind the reply is kept.
pub open spec fn reception(
    kind: TransportKind,
    protocol: Protocol,
    seq: i32,
    name: Seq<char>,
    method: MethodModel,
    arrived: Seq<u8>,
) -> Result<(ProgressModel, Seq<u8>), Failure> {
    match kind {
        TransportKind::Framed => match frame_status(arrived, 0) {
            FrameStatus::Missing(n) => Ok((ProgressModel::Frame(n), arrived)),
            FrameStatus::Bad => Err(Failure::Transport(TransportError::BadFrameSize)),
            FrameStatus::Whole(n) => match reply_at(
                protocol,
                seq,
                name,
                method,
                arrived.subrange(4, 4 + n as int),
                0,
            ) {
                Ok((reply, _)) => Ok(
                    (ProgressModel::Done(reply), arrived.subrange(4 + n as int, arrived.len() as int)),
                ),
                Err(e) => if e == CallError::Protocol(DecodeError::Truncated) {
                    Err(Failure::Transport(TransportError::ShortFrame))
                } else {
                    Err(Failure::Call(e))
                },
            },
        },
        TransportKind::Buffered => if arrived.len() == 0 {
            Ok((ProgressModel::More, arrived))
        } else {
            match reply_at(protocol, seq, name, method, arrived, 0) {
                Ok((reply, len)) => Ok(
                    (ProgressModel::Done(reply), arrived.subrange(len as int, arrived.len() as int)),
                ),
                Err(e) => if e == CallError::Protocol(DecodeError::Truncated) {
                    Ok((ProgressModel::More, arrived))
                } else {
                    Err(Failure::Call(e))
                },
            }
        },
    }
}

/// From end to end, over either transport and in either protocol: when all
/// that has arrived is what a flush puts on the wire for one message, a
/// reply or an exception that echoes the sequence id and the name of the
/// call, then the answer is what the fields of the message mean, and
/// nothing is left over.
pub proof fn lemma_reception_of_message(
    kind: TransportKind,
    protocol: Protocol,
    method: MethodModel,
    e: EnvelopeModel,
    fields: Seq<(i16, Val)>,
)
    requires
        envelope_wf(e),
        e.kind == MessageKind::Reply || e.kind == MessageKind::Exception,
        Val::Struct(fields).wf(),
        protocol.exact(Val::Struct(fields)),
        protocol.message(e, fields).len() <= MAX_SIZE,
    ensures
        reception(
            kind,
            protocol,
            e.seq,
            e.name,
            method,
            wire_form(kind, protocol.message(e, fields)),
        ) == (match (if e.kind == MessageKind::Exception {
            refusal(fields)
        } else {
            classify(fields, method)
        }) {
            Ok(reply) => Ok::<(ProgressModel, Seq<u8>), Failure>(
                (ProgressModel::Done(reply), Seq::<u8>::empty()),
            ),
            Err(e) => Err(Failure::Call(e)),
        }),
{
    let message = protocol.message(e, fields);
    let arrived = wire_form(kind, message);
    assert(message.len() >= 1) by {
        assert(protocol.envelope(e).len() >= 1);
    }
    assert(message.subrange(0, message.len() as int) =~= message);
    lemma_reply_of_message(protocol, e.seq, e.name, method, e, fields, message, 0);
    match kind {
        TransportKind::Buffered => {
            assert(arrived.subrange(message.len() as int, arrived.len() as int)
                =~= Seq::<u8>::empty());
        },
        TransportKind::Framed => {
            assert(arrived.subrange(0, arrived.len() as int) =~= arrived);
            lemma_frame_roundtrip(message, arrived, 0);
            assert(arrived.subrange(4 + message.len() as int, arrived.len() as int)
                =~= Seq::<u8>::empty());
        },
    }
}

/// Starts a call and flushes it: the result is what goes on the wire. A
/// call that cannot be sent changes nothing. A call that does not fit a
/// frame has taken its sequence id and stays in the transport.
pub fn send(
    client: &mut Client,
    writer: &mut WriteTransport,
    method: &str,
    args: &Vec<(i16, Value)>,
    oneway: bool,
) -> (r: Result<Vec<u8>, Failure>)
    ensures
        final(client).protocol() == old(client).protocol(),
        final(client).service() == old(client).service(),
        final(writer).kind() == old(writer).kind(),
        match r {
            Ok(wire) => {
                &&& old(client).sendable(method@, oneway, view_fields(args))
                &&& final(client).sequence() == crate::dispatch::next_seq(old(client).sequence())
                &&& wire@ == wire_form(
                    old(writer).kind(),
                    old(writer).pending() + old(client).call_message(
                        old(client).sequence(),
                        method@,
                        oneway,
                        view_fields(args),
                    ),
                )
                &&& final(writer).pending() == Seq::<u8>::empty()
            },
            Err(Failure::Call(e)) => {
                &&& e == CallError::Malformed
                &&& !old(client).sendable(method@, oneway, view_fields(args))
                &&& final(client).sequence() == old(client).sequence()
                &&& final(writer).pending() == old(writer).pending()
            },
            Err(Failure::Transport(e)) => {
                &&& e == TransportError::FrameTooLarge
                &&& old(client).sendable(method@, oneway, view_fields(args))
                &&& old(writer).kind() == TransportKind::Framed
                &&& final(writer).pending().len() > MAX_SIZE
                &&& final(client).sequence() == crate::dispatch::next_seq(old(client).sequence())
                &&& final(writer).pending() == old(writer).pending() + old(client).call_message(
                    old(client).sequence(),
                    method@,
                    oneway,
                    view_fields(args),
                )
            },
        },
{
    let message = match client.call(method, args, oneway) {
        Ok(message) => message,
        Err(e) => {
            return Err(Failure::Call(e));
        },
    };
    writer.write(message.as_slice());
    match writer.flush() {
        Ok(wire) => Ok(wire),
        Err(e) => Err(Failure::Transport(e)),
    }
}

/// What a call has come to once it is on the wire: a one-way call is done,
/// and done well, as soon as it is written, for no reply to it is ever
/// read; any other call awaits its reply.
pub fn sent(oneway: bool) -> (r: Option<Reply>)
    ensures
        oneway ==> (r matches Some(reply) && reply@ == ReplyModel::Void),
        !oneway ==> r is None,
{
    if oneway {
        Some(Reply::Void)
    } else {
        None
    }
}

/// What it means that the stream ended while a reply was awaited: the call
/// has failed on an unexpected end of the stream, whatever had arrived.
pub fn ended(reader: &ReadTransport) -> (f: Failure)
    ensures
        f == Failure::Transport(TransportError::UnexpectedEnd),
{
    Failure::Transport(TransportError::UnexpectedEnd)
}

/// Reads the reply to the last call of `client`, a call of `method`, as far
/// as what has arrived allows, and drops from the transport what was read.
pub fn receive(client: &Client, reader: &mut ReadTransport, method: &str, shape: &Method) -> (r:
    Result<Progress, Failure>)
    ensures
        final(reader).kind() == old(reader).kind(),
        match r {
            Ok(progress) => reception(
                old(reader).kind(),
                client.protocol(),
                client.sequence(),
                method@,
                shape@,
                old(reader).arrived(),
            ) == Ok::<(ProgressModel, Seq<u8>), Failure>((progress@, final(reader).arrived())),
            Err(e) => reception(
                old(reader).kind(),
                client.protocol(),
                client.sequence(),
                method@,
                shape@,
                old(reader).arrived(),
            ) == Err::<(ProgressModel, Seq<u8>), Failure>(e) && final(reader).arrived() == old(
                reader,
            ).arrived(),
        },
{
    let kind = reader.kind_of();
    match reader.poll() {
        Err(e) => Err(Failure::Transport(e)),
        Ok(Poll::Need(n)) => {
            match kind {
                TransportKind::Framed => {
                    Ok(Progress::Frame(n))
                },
                TransportKind::Buffered => {
                    Ok(Progress::More)
                },
            }
        },
        Ok(Poll::Message(from, to)) => {
            let inbox = reader.inbox();
            assert(inbox@.subrange(0, inbox@.len() as int) =~= inbox@);
            let outcome = client.reply(method, shape, slice_subrange(inbox, from, to));
            match outcome {
                Ok((reply, next)) => {
                    let used = match kind {
                        TransportKind::Framed => to,
                        TransportKind::Buffered => next,
                    };
                    reader.take(used);
                    Ok(Progress::Done(reply))
                },
                Err(e) => match kind {
                    TransportKind::Buffered => {
                        if e == CallError::Protocol(DecodeError::Truncated) {
                                    Ok(Progress::More)
                        } else {
                            Err(Failure::Call(e))
                        }
                    },
                    TransportKind::Framed => {
                        if e == CallError::Protocol(DecodeError::Truncated) {
                            Err(Failure::Transport(TransportError::ShortFrame))
                        } else {
                            Err(Failure::Call(e))
                        }
                    },
                },
            }
        },
    }
}

} // verus!
