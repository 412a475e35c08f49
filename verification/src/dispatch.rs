//! The client side of a call: what goes out for a call, and what a reply
//! means.
//!
//! A reply is a struct with at most one field that matters: field 0 holds
//! the result, field `n` the `n`-th exception that the method declares. A
//! declared exception is an answer like any other; only what breaks the
//! protocol is an error.

use crate::error::DecodeError;
use crate::bytes::holds_at;
use crate::declared::{texts_are_sound, texts_sound, view_declared, Decl, Declared};
use crate::message::{envelope_wf, EnvelopeModel, MessageKind};
use crate::multiplex::{name_on_wire, wire_name};
use crate::protocol::Protocol;
use crate::text::text_of_range;
use crate::value::{fields_wf, fields_well_formed, view_fields, Val, Value, MAX_SIZE};
use vstd::prelude::*;
use vstd::string::StringExecFns;
use vstd::utf8::{decode_utf8, encode_utf8, valid_utf8};

verus! {

/// Why a call failed outside the method's contract.
#[derive(Clone, Copy, Debug, PartialEq, Eq, Structural)]
pub enum ApplicationErrorKind {
    Unknown,
    UnknownMethod,
    InvalidMessageType,
    WrongMethodName,
    BadSequenceId,
    MissingResult,
    InternalError,
    ProtocolError,
    InvalidTransform,
    InvalidProtocol,
    UnsupportedClientType,
}

/// The kind that a number on the wire stands for; a number that stands for
/// none is taken as `Unknown`.
pub open spec fn error_kind(code: i32) -> ApplicationErrorKind {
    if code == 1 {
        ApplicationErrorKind::UnknownMethod
    } else if code == 2 {
        ApplicationErrorKind::InvalidMessageType
    } else if code == 3 {
        ApplicationErrorKind::WrongMethodName
    } else if code == 4 {
        ApplicationErrorKind::BadSequenceId
    } else if code == 5 {
        ApplicationErrorKind::MissingResult
    } else if code == 6 {
        ApplicationErrorKind::InternalError
    } else if code == 7 {
        ApplicationErrorKind::ProtocolError
    } else if code == 8 {
        ApplicationErrorKind::InvalidTransform
    } else if code == 9 {
        ApplicationErrorKind::InvalidProtocol
    } else if code == 10 {
        ApplicationErrorKind::UnsupportedClientType
    } else {
        ApplicationErrorKind::Unknown
    }
}

/// The kind that a number on the wire stands for.
pub fn error_kind_of(code: i32) -> (kind: ApplicationErrorKind)
    ensures
        kind == error_kind(code),
{
    match code {
        1 => ApplicationErrorKind::UnknownMethod,
        2 => ApplicationErrorKind::InvalidMessageType,
        3 => ApplicationErrorKind::WrongMethodName,
        4 => ApplicationErrorKind::BadSequenceId,
        5 => ApplicationErrorKind::MissingResult,
        6 => ApplicationErrorKind::InternalError,
        7 => ApplicationErrorKind::ProtocolError,
        8 => ApplicationErrorKind::InvalidTransform,
        9 => ApplicationErrorKind::InvalidProtocol,
        10 => ApplicationErrorKind::UnsupportedClientType,
        _ => ApplicationErrorKind::Unknown,
    }
}

/// What a method gives back: the value that it returns, if it returns one,
/// and the exceptions that it declares, each by where its strings are. The
/// `n`-th declared exception travels in field `n` of the reply.
#[derive(Debug, PartialEq, Eq)]
pub struct Method {
    pub returns: Option<Declared>,
    pub throws: Vec<Declared>,
}

/// The mathematical model of a [`Method`].
pub struct MethodModel {
    pub returns: Option<Decl>,
    pub throws: Seq<Decl>,
}

impl View for Method {
    type V = MethodModel;

    open spec fn view(&self) -> MethodModel {
        MethodModel {
            returns: match self.returns {
                Some(d) => Some(d@),
                None => None,
            },
            throws: view_declared(&self.throws),
        }
    }
}

/// What the remote side answered.
#[derive(Debug, PartialEq, Eq)]
pub enum Reply {
    /// The method ended and returns nothing.
    Void,
    /// The method returned this.
    Returned(Value),
    /// The method threw the exception that it declares under this number.
    Threw(i16, Value),
    /// The remote side could not run the method, and says why.
    Refused(ApplicationErrorKind, String),
}

/// The mathematical model of a [`Reply`].
pub enum ReplyModel {
    Void,
    Returned(Val),
    Threw(i16, Val),
    Refused(ApplicationErrorKind, Seq<char>),
}

impl View for Reply {
    type V = ReplyModel;

    open spec fn view(&self) -> ReplyModel {
        match self {
            Reply::Void => ReplyModel::Void,
            Reply::Returned(v) => ReplyModel::Returned(v@),
            Reply::Threw(n, v) => ReplyModel::Threw(*n, v@),
            Reply::Refused(kind, message) => ReplyModel::Refused(*kind, message@),
        }
    }
}

/// Why no answer could be had.
#[derive(Clone, Copy, Debug, PartialEq, Eq, Structural)]
pub enum CallError {
    /// The call cannot be sent: an argument holds an element of another
    /// type than its container declares or a length beyond 31 bits, or the
    /// method name is that long.
    Malformed,
    /// What came back cannot be decoded.
    Protocol(DecodeError),
    /// What came back is a message, but not the reply to this call.
    Application(ApplicationErrorKind),
}

/// The value of the last field with this id, if there is one.
pub open spec fn last_field(fields: Seq<(i16, Val)>, id: i16) -> Option<Val>
    decreases fields.len(),
{
    if fields.len() == 0 {
        None
    } else if fields.last().0 == id {
        Some(fields.last().1)
    } else {
        last_field(fields.drop_last(), id)
    }
}

/// The declared exception with the lowest number from `from` on that the
/// reply holds, if it holds one.
pub open spec fn first_thrown(fields: Seq<(i16, Val)>, from: int, declared: int) -> Option<
    (i16, Val),
>
    decreases declared - from + 1,
{
    if from > declared || from < 1 || from > i16::MAX {
        None
    } else {
        match last_field(fields, from as i16) {
            Some(v) => Some((from as i16, v)),
            None => first_thrown(fields, from + 1, declared),
        }
    }
}

/// What the fields of a reply mean for a method: its result where it
/// returns one and field 0 is there; else the declared exception of the
/// lowest number that is there; else nothing for a method that returns
/// nothing, and a missing result for one that does. A result or an
/// exception with a string that is not UTF-8 is a decoding error.
pub open spec fn classify(fields: Seq<(i16, Val)>, method: MethodModel) -> Result<
    ReplyModel,
    CallError,
> {
    if method.returns is Some && last_field(fields, 0) is Some {
        if texts_sound(last_field(fields, 0).unwrap(), method.returns.unwrap()) {
            Ok(ReplyModel::Returned(last_field(fields, 0).unwrap()))
        } else {
            Err(CallError::Protocol(DecodeError::InvalidUtf8))
        }
    } else {
        match first_thrown(fields, 1, method.throws.len() as int) {
            Some((n, v)) => if texts_sound(v, method.throws[n - 1]) {
                Ok(ReplyModel::Threw(n, v))
            } else {
                Err(CallError::Protocol(DecodeError::InvalidUtf8))
            },
            None => if method.returns is Some {
                Err(CallError::Application(ApplicationErrorKind::MissingResult))
            } else {
                Ok(ReplyModel::Void)
            },
        }
    }
}

/// The message of an application exception that brings none.
pub open spec fn default_refusal() -> Seq<char> {
    "general remote error"@
}

/// What the fields of an application exception say: the message in field 1
/// and the kind in field 2, each with its default where the field is
/// missing or of another type. A message that is not UTF-8 is an error.
pub open spec fn refusal(fields: Seq<(i16, Val)>) -> Result<ReplyModel, CallError> {
    let kind = match last_field(fields, 2) {
        Some(Val::I32(code)) => error_kind(code),
        _ => ApplicationErrorKind::Unknown,
    };
    match last_field(fields, 1) {
        Some(Val::Binary(b)) => if valid_utf8(b) {
            Ok(ReplyModel::Refused(kind, decode_utf8(b)))
        } else {
            Err(CallError::Protocol(DecodeError::InvalidUtf8))
        },
        _ => Ok(ReplyModel::Refused(kind, default_refusal())),
    }
}

/// What the message at `pos` means as the reply to the call of `method`
/// that went out under `seq`, and how many bytes the message takes.
///
/// The checks come in this order: the envelope must decode; its sequence id
/// must be that of the call; its name must be the method's; an exception
/// message is a refusal; any other kind but a reply is a wrong message type;
/// then the struct must decode, and its fields are classified.
#[verifier::opaque]
pub open spec fn reply_at(
    protocol: Protocol,
    seq: i32,
    name: Seq<char>,
    method: MethodModel,
    bytes: Seq<u8>,
    pos: int,
) -> Result<(ReplyModel, nat), CallError> {
    match protocol.envelope_at(bytes, pos) {
        Err(e) => Err(CallError::Protocol(e)),
        Ok((envelope, head)) => if envelope.seq != seq {
            Err(CallError::Application(ApplicationErrorKind::BadSequenceId))
        } else if envelope.name != name {
            Err(CallError::Application(ApplicationErrorKind::WrongMethodName))
        } else if envelope.kind != MessageKind::Exception && envelope.kind != MessageKind::Reply {
            Err(CallError::Application(ApplicationErrorKind::InvalidMessageType))
        } else {
            match protocol.fields_at(bytes, pos + head) {
                Err(e) => Err(CallError::Protocol(e)),
                Ok((fields, len)) => {
                    let meaning = if envelope.kind == MessageKind::Exception {
                        refusal(fields)
                    } else {
                        classify(fields, method)
                    };
                    match meaning {
                        Ok(reply) => Ok((reply, head + len)),
                        Err(e) => Err(e),
                    }
                },
            }
        },
    }
}

/// What a message means as the reply to a call, said of the message itself
/// and not of its bytes: where `bytes` holds at `pos` the message with
/// envelope `e` and fields `fields`, the reply to the call of `name` under
/// `seq` is a sequence error unless `e` echoes `seq`, else a wrong method
/// name unless `e` bears `name`, else what the fields mean: as a refusal in
/// an exception message, as result or declared exception in a reply, and a
/// wrong message type in anything else.
pub proof fn lemma_reply_of_message(
    protocol: Protocol,
    seq: i32,
    name: Seq<char>,
    method: MethodModel,
    e: EnvelopeModel,
    fields: Seq<(i16, Val)>,
    bytes: Seq<u8>,
    pos: int,
)
    requires
        envelope_wf(e),
        Val::Struct(fields).wf(),
        protocol.exact(Val::Struct(fields)),
        holds_at(bytes, pos, protocol.message(e, fields)),
    ensures
        reply_at(protocol, seq, name, method, bytes, pos) == (if e.seq != seq {
            Err::<(ReplyModel, nat), CallError>(
                CallError::Application(ApplicationErrorKind::BadSequenceId),
            )
        } else if e.name != name {
            Err(CallError::Application(ApplicationErrorKind::WrongMethodName))
        } else if e.kind == MessageKind::Exception {
            match refusal(fields) {
                Ok(reply) => Ok((reply, protocol.message(e, fields).len())),
                Err(e) => Err(e),
            }
        } else if e.kind == MessageKind::Reply {
            match classify(fields, method) {
                Ok(reply) => Ok((reply, protocol.message(e, fields).len())),
                Err(e) => Err(e),
            }
        } else {
            Err(CallError::Application(ApplicationErrorKind::InvalidMessageType))
        }),
{
    reveal(reply_at);
    protocol.lemma_message_roundtrip(e, fields, bytes, pos);
}

/// The sequence id that follows `seq`. Ids wrap around.
pub open spec fn next_seq(seq: i32) -> i32 {
    if seq == i32::MAX {
        i32::MIN
    } else {
        (seq + 1) as i32
    }
}

/// The index of the last field with this id, if there is one.
pub fn find_last_field(fields: &Vec<(i16, Value)>, id: i16) -> (r: Option<usize>)
    ensures
        match r {
            Some(i) => i < fields.len() && last_field(view_fields(fields), id) == Some(
                view_fields(fields)[i as int].1,
            ) && fields[i as int].0 == id,
            None => last_field(view_fields(fields), id) is None,
        },
{
    let ghost model = view_fields(fields);
    let mut i: usize = fields.len();
    assert(model.subrange(0, i as int) =~= model);
    while i > 0
        invariant
            i <= fields.len(),
            model == view_fields(fields),
            last_field(model, id) == last_field(model.subrange(0, i as int), id),
        decreases i,
    {
        let ghost part = model.subrange(0, i as int);
        assert(part.last() == model[i - 1]);
        assert(model[i - 1] == (fields[i - 1].0, fields[i - 1].1@));
        if fields[i - 1].0 == id {
            return Some(i - 1);
        }
        assert(part.drop_last() =~= model.subrange(0, i - 1));
        i -= 1;
    }
    None
}

/// What the fields of a reply mean for a method.
pub fn classify_fields(fields: Vec<(i16, Value)>, method: &Method) -> (r: Result<Reply, CallError>)
    ensures
        match r {
            Ok(reply) => classify(view_fields(&fields), method@) == Ok::<ReplyModel, CallError>(
                reply@,
            ),
            Err(e) => classify(view_fields(&fields), method@) == Err::<ReplyModel, CallError>(e),
        },
{
    let ghost model = view_fields(&fields);
    let ghost declared = method.throws.len() as int;
    let mut rest = fields;
    if let Some(d) = &method.returns {
        if let Some(i) = find_last_field(&rest, 0) {
            assert(model[i as int] == (rest[i as int].0, rest[i as int].1@));
            if !texts_are_sound(&rest[i].1, d) {
                return Err(CallError::Protocol(DecodeError::InvalidUtf8));
            }
            let (_, value) = rest.swap_remove(i);
            return Ok(Reply::Returned(value));
        }
    }
    let mut n: usize = 1;
    while n <= method.throws.len() && n <= 0x7FFF
        invariant
            1 <= n,
            declared == method.throws.len(),
            model == view_fields(&fields),
            model == view_fields(&rest),
            method.returns is Some ==> last_field(model, 0) is None,
            first_thrown(model, 1, declared) == first_thrown(model, n as int, declared),
        decreases method.throws.len() - n + 1,
    {
        if let Some(i) = find_last_field(&rest, n as i16) {
            assert(model[i as int] == (rest[i as int].0, rest[i as int].1@));
            assert(view_declared(&method.throws)[n - 1] == method.throws[n - 1]@);
            if !texts_are_sound(&rest[i].1, &method.throws[n - 1]) {
                return Err(CallError::Protocol(DecodeError::InvalidUtf8));
            }
            let (_, value) = rest.swap_remove(i);
            return Ok(Reply::Threw(n as i16, value));
        }
        n += 1;
    }
    if method.returns.is_some() {
        Err(CallError::Application(ApplicationErrorKind::MissingResult))
    } else {
        Ok(Reply::Void)
    }
}

/// What the fields of an application exception say.
pub fn refusal_of(fields: &Vec<(i16, Value)>) -> (r: Result<Reply, CallError>)
    ensures
        match r {
            Ok(reply) => refusal(view_fields(fields)) == Ok::<ReplyModel, CallError>(reply@),
            Err(e) => refusal(view_fields(fields)) == Err::<ReplyModel, CallError>(e),
        },
{
    let kind = match find_last_field(fields, 2) {
        Some(i) => match &fields[i].1 {
            Value::I32(code) => error_kind_of(*code),
            _ => ApplicationErrorKind::Unknown,
        },
        None => ApplicationErrorKind::Unknown,
    };
    match find_last_field(fields, 1) {
        Some(i) => match &fields[i].1 {
            Value::Binary(b) => {
                assert(b@.subrange(0, b@.len() as int) =~= b@);
                match text_of_range(b.as_slice(), 0, b.len()) {
                    Ok(message) => Ok(Reply::Refused(kind, message)),
                    Err(_) => Err(CallError::Protocol(DecodeError::InvalidUtf8)),
                }
            },
            _ => Ok(Reply::Refused(kind, String::from_str("general remote error"))),
        },
        None => Ok(Reply::Refused(kind, String::from_str("general remote error"))),
    }
}

/// The client side of one service on a connection.
#[derive(Debug)]
pub struct Client {
    protocol: Protocol,
    service: Option<String>,
    seq: i32,
}

impl Client {
    /// The codec of the connection.
    pub closed spec fn protocol(&self) -> Protocol {
        self.protocol
    }

    /// The name under which the service shares the connection, if it does.
    pub closed spec fn service(&self) -> Option<Seq<char>> {
        match self.service {
            Some(s) => Some(s@),
            None => None,
        }
    }

    /// The sequence id of the last call.
    pub closed spec fn sequence(&self) -> i32 {
        self.seq
    }

    /// Whether a call can be sent.
    pub open spec fn sendable(&self, method: Seq<char>, oneway: bool, args: Seq<(i16, Val)>) -> bool {
        &&& fields_wf(args)
        &&& encode_utf8(
            wire_name(
                self.service(),
                if oneway {
                    MessageKind::Oneway
                } else {
                    MessageKind::Call
                },
                method,
            ),
        ).len() <= MAX_SIZE
    }

    /// The message of the call that follows the call under `seq`.
    pub open spec fn call_message(
        &self,
        seq: i32,
        method: Seq<char>,
        oneway: bool,
        args: Seq<(i16, Val)>,
    ) -> Seq<u8> {
        let kind = if oneway {
            MessageKind::Oneway
        } else {
            MessageKind::Call
        };
        self.protocol().message(
            EnvelopeModel { kind, name: wire_name(self.service(), kind, method), seq: next_seq(seq) },
            args,
        )
    }

    /// A client that has made no call. With a service name, its calls are
    /// marked for that service.
    pub fn new(protocol: Protocol, service: Option<String>) -> (c: Client)
        ensures
            c.protocol() == protocol,
            c.service() == match service {
                Some(s) => Some(s@),
                None => None::<Seq<char>>,
            },
            c.sequence() == 0,
    {
        Client { protocol, service, seq: 0 }
    }

    /// A client whose last call went out under `seq`.
    pub fn resumed(protocol: Protocol, service: Option<String>, seq: i32) -> (c: Client)
        ensures
            c.protocol() == protocol,
            c.service() == match service {
                Some(s) => Some(s@),
                None => None::<Seq<char>>,
            },
            c.sequence() == seq,
    {
        Client { protocol, service, seq }
    }

    /// The sequence id of the last call.
    pub fn last_sequence(&self) -> (seq: i32)
        ensures
            seq == self.sequence(),
    {
        self.seq
    }

    /// Starts a call: takes the next sequence id and hands out the message
    /// to send. A call that cannot be sent is refused and changes nothing.
    pub fn call(&mut self, method: &str, args: &Vec<(i16, Value)>, oneway: bool) -> (r: Result<
        Vec<u8>,
        CallError,
    >)
        ensures
            final(self).protocol() == old(self).protocol(),
            final(self).service() == old(self).service(),
            match r {
                Ok(bytes) => {
                    &&& old(self).sendable(method@, oneway, view_fields(args))
                    &&& final(self).sequence() == next_seq(old(self).sequence())
                    &&& bytes@ == old(self).call_message(
                        old(self).sequence(),
                        method@,
                        oneway,
                        view_fields(args),
                    )
                },
                Err(e) => {
                    &&& e == CallError::Malformed
                    &&& !old(self).sendable(method@, oneway, view_fields(args))
                    &&& final(self).sequence() == old(self).sequence()
                },
            },
    {
        let kind = if oneway {
            MessageKind::Oneway
        } else {
            MessageKind::Call
        };
        let name = name_on_wire(&self.service, kind, method);
        if name.as_str().as_bytes().len() > MAX_SIZE || !fields_well_formed(args) {
            return Err(CallError::Malformed);
        }
        let seq = if self.seq == i32::MAX {
            i32::MIN
        } else {
            self.seq + 1
        };
        let mut bytes: Vec<u8> = Vec::new();
        self.protocol.push_envelope(&mut bytes, kind, name.as_str(), seq);
        self.protocol.encode_fields(args, &mut bytes);
        self.seq = seq;
        assert(bytes@ =~= old(self).call_message(
            old(self).sequence(),
            method@,
            oneway,
            view_fields(args),
        ));
        Ok(bytes)
    }

    /// Reads the reply to the last call, a call of `method`, from the
    /// message at the front of `bytes`; with the reply comes the position
    /// behind the message.
    pub fn reply(&self, method: &str, shape: &Method, bytes: &[u8]) -> (r: Result<
        (Reply, usize),
        CallError,
    >)
        ensures
            match r {
                Ok((reply, next)) => reply_at(
                    self.protocol(),
                    self.sequence(),
                    method@,
                    shape@,
                    bytes@,
                    0,
                ) == Ok::<(ReplyModel, nat), CallError>((reply@, next as nat)) && 0 < next
                    <= bytes.len(),
                Err(e) => reply_at(self.protocol(), self.sequence(), method@, shape@, bytes@, 0)
                    == Err::<(ReplyModel, nat), CallError>(e),
            },
    {
        reveal(reply_at);
        let (envelope, at) = match self.protocol.read_envelope(bytes, 0) {
            Ok(r) => r,
            Err(e) => {
                return Err(CallError::Protocol(e));
            },
        };
        if envelope.seq != self.seq {
            return Err(CallError::Application(ApplicationErrorKind::BadSequenceId));
        }
        if !same_text(envelope.name.as_str(), method) {
            return Err(CallError::Application(ApplicationErrorKind::WrongMethodName));
        }
        let refused = match envelope.kind {
            MessageKind::Exception => true,
            MessageKind::Reply => false,
            _ => {
                return Err(CallError::Application(ApplicationErrorKind::InvalidMessageType));
            },
        };
        let (fields, next) = match self.protocol.read_fields(bytes, at) {
            Ok(r) => r,
            Err(e) => {
                return Err(CallError::Protocol(e));
            },
        };
        let meaning = if refused {
            refusal_of(&fields)
        } else {
            classify_fields(fields, shape)
        };
        match meaning {
            Ok(reply) => Ok((reply, next)),
            Err(e) => Err(e),
        }
    }
}

/// Whether two strings are the same.
pub fn same_text(a: &str, b: &str) -> (r: bool)
    ensures
        r == (a@ == b@),
{
    let x = a.as_bytes();
    let y = b.as_bytes();
    proof {
        vstd::utf8::encode_utf8_decode_utf8(a@);
        vstd::utf8::encode_utf8_decode_utf8(b@);
    }
    crate::value::same_bytes(x, y)
}

} // verus!
