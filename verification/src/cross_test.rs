//! The cross-language test client: which stack to build for the names given
//! on the command line, and how an answer is judged against what the test
//! expects.

use crate::dispatch::{same_text, ApplicationErrorKind, CallError, Client, Reply, ReplyModel};
use crate::logical::equivalent;
use crate::protocol::Protocol;
use crate::session::Failure;
use crate::transport::TransportKind;
use crate::plan::{first_service, second_service, service_name};
use crate::value::{Val, Value};
use vstd::prelude::*;
use vstd::string::StringExecFns;

verus! {

/// The transport and protocol of a connection, and whether the connection
/// is shared by several services.
#[derive(Clone, Copy, Debug, PartialEq, Eq, Structural)]
pub struct Stack {
    pub transport: TransportKind,
    pub protocol: Protocol,
    pub multiplexed: bool,
}

/// A name on the command line that names nothing.
#[derive(Clone, Copy, Debug, PartialEq, Eq, Structural)]
pub enum ConfigError {
    UnsupportedTransport,
    UnsupportedProtocol,
}

/// The stack that the two names ask for: `buffered` or `framed`, and
/// `binary`, `compact`, or, on a shared connection, `multi` for binary and
/// `multic` for compact. The transport is looked at first.
pub open spec fn stack_of(transport: Seq<char>, protocol: Seq<char>) -> Result<Stack, ConfigError> {
    if transport != "buffered"@ && transport != "framed"@ {
        Err(ConfigError::UnsupportedTransport)
    } else {
        let transport = if transport == "buffered"@ {
            TransportKind::Buffered
        } else {
            TransportKind::Framed
        };
        if protocol == "binary"@ {
            Ok(Stack { transport, protocol: Protocol::Binary, multiplexed: false })
        } else if protocol == "multi"@ {
            Ok(Stack { transport, protocol: Protocol::Binary, multiplexed: true })
        } else if protocol == "compact"@ {
            Ok(Stack { transport, protocol: Protocol::Compact, multiplexed: false })
        } else if protocol == "multic"@ {
            Ok(Stack { transport, protocol: Protocol::Compact, multiplexed: true })
        } else {
            Err(ConfigError::UnsupportedProtocol)
        }
    }
}

/// The stack that the two names ask for.
pub fn build(transport: &str, protocol: &str) -> (r: Result<Stack, ConfigError>)
    ensures
        r == stack_of(transport@, protocol@),
{
    let transport = if same_text(transport, "buffered") {
        TransportKind::Buffered
    } else if same_text(transport, "framed") {
        TransportKind::Framed
    } else {
        return Err(ConfigError::UnsupportedTransport);
    };
    if same_text(protocol, "binary") {
        Ok(Stack { transport, protocol: Protocol::Binary, multiplexed: false })
    } else if same_text(protocol, "multi") {
        Ok(Stack { transport, protocol: Protocol::Binary, multiplexed: true })
    } else if same_text(protocol, "compact") {
        Ok(Stack { transport, protocol: Protocol::Compact, multiplexed: false })
    } else if same_text(protocol, "multic") {
        Ok(Stack { transport, protocol: Protocol::Compact, multiplexed: true })
    } else {
        Err(ConfigError::UnsupportedProtocol)
    }
}

/// What is said of a name that names nothing: which kind of name it was
/// meant to be, and the name.
pub open spec fn config_text(e: ConfigError, transport: Seq<char>, protocol: Seq<char>) -> Seq<
    char,
> {
    match e {
        ConfigError::UnsupportedTransport => "unsupported transport "@ + transport,
        ConfigError::UnsupportedProtocol => "unsupported protocol "@ + protocol,
    }
}

/// What is said of a name that names nothing.
pub fn config_message(e: ConfigError, transport: &str, protocol: &str) -> (message: String)
    ensures
        message@ == config_text(e, transport@, protocol@),
{
    match e {
        ConfigError::UnsupportedTransport => {
            let mut message = String::from_str("unsupported transport ");
            message.append(transport);
            message
        },
        ConfigError::UnsupportedProtocol => {
            let mut message = String::from_str("unsupported protocol ");
            message.append(protocol);
            message
        },
    }
}

/// The name under which a client shares the connection of a stack: its
/// service's name on a shared connection, none on any other.
pub open spec fn service_of(stack: Stack, second: bool) -> Option<Seq<char>> {
    if stack.multiplexed {
        Some(
            if second {
                second_service()
            } else {
                first_service()
            },
        )
    } else {
        None
    }
}

/// The client of a service on a connection of the stack, before its first
/// call. It bears its service's name exactly where the connection is
/// shared.
pub fn client_of(stack: Stack, second: bool) -> (c: Client)
    ensures
        c.protocol() == stack.protocol,
        c.sequence() == 0,
        c.service() == service_of(stack, second),
{
    if stack.multiplexed {
        Client::new(stack.protocol, Some(service_name(second)))
    } else {
        Client::new(stack.protocol, None)
    }
}

/// What the command line asks for, with the default for whatever it leaves
/// out.
#[derive(Debug, PartialEq, Eq)]
pub struct Options {
    pub host: String,
    pub port: u16,
    pub domain_socket: Option<String>,
    pub protocol: String,
    pub transport: String,
    pub testloops: u8,
}

impl Options {
    /// The options, each as given or else its default: host `127.0.0.1`,
    /// port 9090, protocol `binary`, transport `buffered`, one loop.
    pub fn resolve(
        host: Option<String>,
        port: Option<u16>,
        domain_socket: Option<String>,
        protocol: Option<String>,
        transport: Option<String>,
        testloops: Option<u8>,
    ) -> (o: Options)
        ensures
            o.host@ == (match host {
                Some(h) => h@,
                None => "127.0.0.1"@,
            }),
            o.port == (match port {
                Some(p) => p,
                None => 9090u16,
            }),
            o.domain_socket == domain_socket,
            o.protocol@ == (match protocol {
                Some(p) => p@,
                None => "binary"@,
            }),
            o.transport@ == (match transport {
                Some(t) => t@,
                None => "buffered"@,
            }),
            o.testloops == (match testloops {
                Some(n) => n,
                None => 1u8,
            }),
    {
        Options {
            host: match host {
                Some(h) => h,
                None => String::from_str("127.0.0.1"),
            },
            port: match port {
                Some(p) => p,
                None => 9090,
            },
            domain_socket,
            protocol: match protocol {
                Some(p) => p,
                None => String::from_str("binary"),
            },
            transport: match transport {
                Some(t) => t,
                None => String::from_str("buffered"),
            },
            testloops: match testloops {
                Some(n) => n,
                None => 1,
            },
        }
    }
}

/// What a test expects of a call.
#[derive(Debug, PartialEq, Eq)]
pub enum Expected {
    /// The call ends without an exception. Whatever else happens is passed
    /// on as it is.
    Nothing,
    /// The call returns a value equivalent to this one. Whatever else
    /// happens is passed on as it is.
    Returns(Value),
    /// The call returns a value equivalent to this one. Whatever else
    /// happens counts as an unexpected exception.
    ReturnsUnharmed(Value),
    /// The call ends without an exception, whatever it returns. Whatever
    /// else happens counts as an exception.
    Succeeds,
    /// The call throws the exception that the method declares under this
    /// number, equivalent to this one.
    Throws(i16, Value),
    /// The call ends in an application error, one that the remote side
    /// reports or one that the client finds in what came back.
    Refusal,
}

/// The mathematical model of an [`Expected`].
pub enum ExpectedModel {
    Nothing,
    Returns(Val),
    ReturnsUnharmed(Val),
    Succeeds,
    Throws(i16, Val),
    Refusal,
}

impl View for Expected {
    type V = ExpectedModel;

    open spec fn view(&self) -> ExpectedModel {
        match self {
            Expected::Nothing => ExpectedModel::Nothing,
            Expected::Returns(v) => ExpectedModel::Returns(v@),
            Expected::ReturnsUnharmed(v) => ExpectedModel::ReturnsUnharmed(v@),
            Expected::Succeeds => ExpectedModel::Succeeds,
            Expected::Throws(n, v) => ExpectedModel::Throws(*n, v@),
            Expected::Refusal => ExpectedModel::Refusal,
        }
    }
}

/// What came of a call in place of a value, whole.
#[derive(Debug, PartialEq, Eq)]
pub enum Cause {
    /// The call came to nothing.
    Broken(Failure),
    /// The method threw the exception that it declares under this number.
    Threw(i16, Value),
    /// The remote side refused the call, and said this.
    Refused(ApplicationErrorKind, String),
}

/// The mathematical model of a [`Cause`].
pub enum CauseModel {
    Broken(Failure),
    Threw(i16, Val),
    Refused(ApplicationErrorKind, Seq<char>),
}

impl View for Cause {
    type V = CauseModel;

    open spec fn view(&self) -> CauseModel {
        match self {
            Cause::Broken(f) => CauseModel::Broken(*f),
            Cause::Threw(n, v) => CauseModel::Threw(*n, v@),
            Cause::Refused(kind, message) => CauseModel::Refused(*kind, message@),
        }
    }
}

/// Why a test failed.
#[derive(Debug, PartialEq, Eq)]
pub enum TestFailure {
    /// What came in place of a value, passed on as it is.
    PassedOn(Cause),
    /// The value was to be the first of these and is the second; there is
    /// no second where nothing was returned.
    WrongValue(Value, Option<Value>),
    /// An exception was expected and none came.
    NoException,
    /// Another exception came than the expected one.
    WrongException,
    /// An exception came where the call was to end without one.
    ReceivedException,
    /// This came where a value was expected and nothing else.
    UnexpectedException(Cause),
}

/// The mathematical model of a [`TestFailure`].
pub enum TestFailureModel {
    PassedOn(CauseModel),
    WrongValue(Val, Option<Val>),
    NoException,
    WrongException,
    ReceivedException,
    UnexpectedException(CauseModel),
}

impl View for TestFailure {
    type V = TestFailureModel;

    open spec fn view(&self) -> TestFailureModel {
        match self {
            TestFailure::PassedOn(c) => TestFailureModel::PassedOn(c@),
            TestFailure::WrongValue(expected, actual) => TestFailureModel::WrongValue(
                expected@,
                match actual {
                    Some(v) => Some(v@),
                    None => None,
                },
            ),
            TestFailure::NoException => TestFailureModel::NoException,
            TestFailure::WrongException => TestFailureModel::WrongException,
            TestFailure::ReceivedException => TestFailureModel::ReceivedException,
            TestFailure::UnexpectedException(c) => TestFailureModel::UnexpectedException(c@),
        }
    }
}

/// What came of a call, as the test sees it: the value returned, if any, or
/// what came in its place.
pub open spec fn returned(outcome: Result<ReplyModel, Failure>) -> Result<Option<Val>, CauseModel> {
    match outcome {
        Ok(ReplyModel::Void) => Ok(None),
        Ok(ReplyModel::Returned(v)) => Ok(Some(v)),
        Ok(ReplyModel::Threw(n, v)) => Err(CauseModel::Threw(n, v)),
        Ok(ReplyModel::Refused(kind, message)) => Err(CauseModel::Refused(kind, message)),
        Err(f) => Err(CauseModel::Broken(f)),
    }
}

/// What came of a call, with what came in place of a value passed on as it
/// is.
pub open spec fn passed_on(outcome: Result<ReplyModel, Failure>) -> Result<
    Option<Val>,
    TestFailureModel,
> {
    match returned(outcome) {
        Ok(r) => Ok(r),
        Err(c) => Err(TestFailureModel::PassedOn(c)),
    }
}

/// The judgement on a value that was to be `expected`: fine where the two
/// are equivalent; else a wrong value, which names the expected value and
/// then the actual one; and any failure passed on.
pub open spec fn value_verdict(actual: Result<Option<Val>, TestFailureModel>, expected: Val)
    -> Result<(), TestFailureModel> {
    match actual {
        Ok(Some(v)) => if equivalent(v, expected) {
            Ok(())
        } else {
            Err(TestFailureModel::WrongValue(expected, Some(v)))
        },
        Ok(None) => Err(TestFailureModel::WrongValue(expected, None)),
        Err(e) => Err(e),
    }
}

/// Whether an outcome is an application error: a refusal by the remote
/// side, or a message that the client found not to be the reply to its
/// call.
pub open spec fn is_application_error(outcome: Result<ReplyModel, Failure>) -> bool {
    match outcome {
        Ok(ReplyModel::Refused(_, _)) => true,
        Err(Failure::Call(CallError::Application(_))) => true,
        _ => false,
    }
}

/// The judgement on the outcome of a call.
pub open spec fn verdict(expected: ExpectedModel, outcome: Result<ReplyModel, Failure>) -> Result<
    (),
    TestFailureModel,
> {
    match expected {
        ExpectedModel::Nothing => match passed_on(outcome) {
            Ok(_) => Ok(()),
            Err(e) => Err(e),
        },
        ExpectedModel::Returns(v) => value_verdict(passed_on(outcome), v),
        ExpectedModel::ReturnsUnharmed(v) => match returned(outcome) {
            Err(c) => Err(TestFailureModel::UnexpectedException(c)),
            Ok(r) => value_verdict(Ok(r), v),
        },
        ExpectedModel::Succeeds => match returned(outcome) {
            Ok(_) => Ok(()),
            Err(_) => Err(TestFailureModel::ReceivedException),
        },
        ExpectedModel::Throws(n, v) => match outcome {
            Ok(ReplyModel::Threw(m, x)) => if m != n {
                Err(TestFailureModel::WrongException)
            } else {
                value_verdict(Ok(Some(x)), v)
            },
            _ => Err(TestFailureModel::NoException),
        },
        ExpectedModel::Refusal => if is_application_error(outcome) {
            Ok(())
        } else {
            Err(TestFailureModel::NoException)
        },
    }
}

/// The view of an outcome.
pub open spec fn outcome_view(outcome: &Result<Reply, Failure>) -> Result<ReplyModel, Failure> {
    match outcome {
        Ok(reply) => Ok(reply@),
        Err(f) => Err(*f),
    }
}

/// The view of a value that may have been returned.
pub open spec fn actual_view(actual: &Result<Option<&Value>, TestFailure>) -> Result<
    Option<Val>,
    TestFailureModel,
> {
    match actual {
        Ok(Some(v)) => Ok(Some(v@)),
        Ok(None) => Ok(None),
        Err(e) => Err(e@),
    }
}

/// The view of a judgement.
pub open spec fn verdict_view(r: &Result<(), TestFailure>) -> Result<(), TestFailureModel> {
    match r {
        Ok(()) => Ok(()),
        Err(e) => Err(e@),
    }
}

/// What came of a call, as the test sees it.
pub fn returned_value(outcome: &Result<Reply, Failure>) -> (r: Result<Option<&Value>, Cause>)
    ensures
        match r {
            Ok(Some(v)) => returned(outcome_view(outcome)) == Ok::<Option<Val>, CauseModel>(
                Some(v@),
            ),
            Ok(None) => returned(outcome_view(outcome)) == Ok::<Option<Val>, CauseModel>(None),
            Err(c) => returned(outcome_view(outcome)) == Err::<Option<Val>, CauseModel>(c@),
        },
{
    match outcome {
        Ok(Reply::Void) => Ok(None),
        Ok(Reply::Returned(v)) => Ok(Some(v)),
        Ok(Reply::Threw(n, v)) => Err(Cause::Threw(*n, v.clone())),
        Ok(Reply::Refused(kind, message)) => Err(Cause::Refused(*kind, message.clone())),
        Err(f) => Err(Cause::Broken(*f)),
    }
}

/// What came of a call, with what came in place of a value passed on as it
/// is.
pub fn value_or_failure(outcome: &Result<Reply, Failure>) -> (r: Result<
    Option<&Value>,
    TestFailure,
>)
    ensures
        actual_view(&r) == passed_on(outcome_view(outcome)),
{
    match returned_value(outcome) {
        Ok(r) => Ok(r),
        Err(c) => Err(TestFailure::PassedOn(c)),
    }
}

/// Judges a value that was to be `expected`.
pub fn verify_expected_result(actual: Result<Option<&Value>, TestFailure>, expected: &Value) -> (r:
    Result<(), TestFailure>)
    ensures
        verdict_view(&r) == value_verdict(actual_view(&actual), expected@),
{
    match actual {
        Ok(Some(v)) => {
            if v.matches(expected) {
                Ok(())
            } else {
                Err(TestFailure::WrongValue(expected.clone(), Some(v.clone())))
            }
        },
        Ok(None) => Err(TestFailure::WrongValue(expected.clone(), None)),
        Err(e) => Err(e),
    }
}

/// Whether an outcome is an application error.
pub fn application_error(outcome: &Result<Reply, Failure>) -> (r: bool)
    ensures
        r == is_application_error(outcome_view(outcome)),
{
    match outcome {
        Ok(Reply::Refused(_, _)) => true,
        Err(Failure::Call(CallError::Application(_))) => true,
        _ => false,
    }
}

/// Judges the outcome of a call.
pub fn judge(expected: &Expected, outcome: &Result<Reply, Failure>) -> (r: Result<(), TestFailure>)
    ensures
        verdict_view(&r) == verdict(expected@, outcome_view(outcome)),
{
    match expected {
        Expected::Nothing => match value_or_failure(outcome) {
            Ok(_) => Ok(()),
            Err(e) => Err(e),
        },
        Expected::Returns(v) => verify_expected_result(value_or_failure(outcome), v),
        Expected::ReturnsUnharmed(v) => match returned_value(outcome) {
            Err(c) => Err(TestFailure::UnexpectedException(c)),
            Ok(r) => verify_expected_result(Ok(r), v),
        },
        Expected::Succeeds => match returned_value(outcome) {
            Ok(_) => Ok(()),
            Err(_) => Err(TestFailure::ReceivedException),
        },
        Expected::Throws(n, v) => match outcome {
            Ok(Reply::Threw(m, x)) => {
                if *m != *n {
                    Err(TestFailure::WrongException)
                } else {
                    verify_expected_result(Ok(Some(x)), v)
                }
            },
            _ => Err(TestFailure::NoException),
        },
        Expected::Refusal => {
            if application_error(outcome) {
                Ok(())
            } else {
                Err(TestFailure::NoException)
            }
        },
    }
}

} // verus!
