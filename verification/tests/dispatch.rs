use thrift_wire::cross_test::{
    application_error, build, client_of, config_message, judge, returned_value, value_or_failure,
    verify_expected_result, Cause, ConfigError, Expected, Options, Stack, TestFailure,
};
use thrift_wire::declared::{find_declared, texts_are_sound, Declared};
use thrift_wire::dispatch::{
    classify_fields, error_kind_of, refusal_of, ApplicationErrorKind, CallError, Client, Method,
    Reply,
};
use thrift_wire::error::DecodeError;
use thrift_wire::message::MessageKind;
use thrift_wire::multiplex::{multiplexed_name, name_on_wire};
use thrift_wire::plan::{make_xception, make_xtruct, next_step, service_name, step, STEPS};
use thrift_wire::protocol::Protocol;
use thrift_wire::session::{ended, receive, send, sent, Failure, Progress};
use thrift_wire::transport::{ReadTransport, TransportError, TransportKind, WriteTransport};
use thrift_wire::value::{TType, Value};

const PROTOCOLS: [Protocol; 2] = [Protocol::Binary, Protocol::Compact];
const TRANSPORTS: [TransportKind; 2] = [TransportKind::Buffered, TransportKind::Framed];

/// A method of which nothing is declared but whether it returns a value and
/// how many exceptions it throws.
fn shape(returns: bool, declared: usize) -> Method {
    Method {
        returns: if returns { Some(Declared::Opaque) } else { None },
        throws: (0..declared).map(|_| Declared::Opaque).collect(),
    }
}

fn message(
    protocol: Protocol,
    kind: MessageKind,
    name: &str,
    seq: i32,
    fields: Vec<(i16, Value)>,
) -> Vec<u8> {
    let mut out = Vec::new();
    protocol.push_envelope(&mut out, kind, name, seq);
    protocol.encode_fields(&fields, &mut out);
    out
}

fn on_wire(transport: TransportKind, payload: &[u8]) -> Vec<u8> {
    let mut writer = WriteTransport::new(transport);
    writer.write(payload);
    writer.flush().unwrap()
}

/// Plays the remote side: feeds `wire` to the reader in the portions it asks
/// for and returns what the call comes to.
fn converse(
    client: &Client,
    transport: TransportKind,
    method: &str,
    shape: &Method,
    wire: &[u8],
) -> Result<Reply, Failure> {
    let mut reader = ReadTransport::new(transport);
    let mut sent = 0;
    loop {
        match receive(client, &mut reader, method, shape)? {
            Progress::Done(reply) => {
                assert_eq!(sent, wire.len());
                assert_eq!(reader.close(), Ok(()));
                return Ok(reply);
            }
            Progress::Frame(n) => {
                assert!(sent + n <= wire.len(), "asked for bytes beyond the frame");
                let part = 1.max(n / 2);
                reader.supply(&wire[sent..sent + part]);
                sent += part;
            }
            Progress::More => {
                if sent == wire.len() {
                    reader.close().map_err(Failure::Transport)?;
                    panic!("asked for more with nothing pending");
                }
                reader.supply(&wire[sent..sent + 1]);
                sent += 1;
            }
        }
    }
}

#[test]
fn a_multiplexed_call_names_its_service() {
    assert_eq!(multiplexed_name("SecondService", "testString"), "SecondService:testString");
    let service = Some("SecondService".to_string());
    assert_eq!(
        name_on_wire(&service, MessageKind::Call, "testString"),
        "SecondService:testString"
    );
    assert_eq!(
        name_on_wire(&service, MessageKind::Oneway, "testString"),
        "SecondService:testString"
    );
    assert_eq!(name_on_wire(&service, MessageKind::Reply, "testString"), "testString");
    assert_eq!(name_on_wire(&service, MessageKind::Exception, "testString"), "testString");
    assert_eq!(name_on_wire(&None, MessageKind::Call, "testString"), "testString");
    for protocol in PROTOCOLS {
        let mut client = Client::new(protocol, service.clone());
        let bytes = client.call("testString", &vec![(1, Value::text("x"))], false).unwrap();
        let (envelope, fields, next) = protocol.read_message(&bytes, 0).unwrap();
        assert_eq!(envelope.name, "SecondService:testString");
        assert_eq!(envelope.kind, MessageKind::Call);
        assert_eq!(envelope.seq, 1);
        assert_eq!(fields, vec![(1, Value::text("x"))]);
        assert_eq!(next, bytes.len());
    }
}

#[test]
fn a_plain_call_bears_the_bare_method_name() {
    let mut client = Client::new(Protocol::Binary, None);
    let bytes = client.call("testVoid", &vec![], false).unwrap();
    assert_eq!(
        bytes,
        vec![
            0x80, 0x01, 0x00, 0x01, 0, 0, 0, 8, b't', b'e', b's', b't', b'V', b'o', b'i', b'd', 0,
            0, 0, 1, 0
        ]
    );
    let mut client = Client::new(Protocol::Compact, None);
    let bytes = client.call("testVoid", &vec![], true).unwrap();
    assert_eq!(
        bytes,
        vec![0x82, 0x81, 1, 8, b't', b'e', b's', b't', b'V', b'o', b'i', b'd', 0]
    );
}

#[test]
fn sequence_ids_count_up_and_wrap_around() {
    let mut client = Client::new(Protocol::Binary, None);
    assert_eq!(client.last_sequence(), 0);
    client.call("a", &vec![], false).unwrap();
    assert_eq!(client.last_sequence(), 1);
    client.call("a", &vec![], true).unwrap();
    assert_eq!(client.last_sequence(), 2);
    let mut client = Client::resumed(Protocol::Compact, None, i32::MAX);
    let bytes = client.call("a", &vec![], false).unwrap();
    assert_eq!(client.last_sequence(), i32::MIN);
    assert_eq!(bytes, vec![0x82, 0x21, 0x80, 0x80, 0x80, 0x80, 0x08, 1, b'a', 0]);
    let answer = message(Protocol::Compact, MessageKind::Reply, "a", i32::MIN, vec![]);
    assert_eq!(
        client.reply("a", &shape(false, 0), &answer),
        Ok((Reply::Void, answer.len()))
    );
}

#[test]
fn the_second_service_is_called_on_a_shared_connection_only() {
    let mut shared = Vec::new();
    let mut from = 0;
    while let Some((index, s)) = next_step(from, true) {
        assert_eq!(s, step(index).unwrap());
        shared.push(index);
        from = index + 1;
    }
    assert_eq!(shared, (0..STEPS).collect::<Vec<usize>>());
    let mut alone = Vec::new();
    let mut from = 0;
    while let Some((index, s)) = next_step(from, false) {
        assert!(!s.second);
        alone.push(index);
        from = index + 1;
    }
    assert_eq!(alone, (0..STEPS).filter(|i| *i != 14).collect::<Vec<usize>>());
    assert_eq!(next_step(14, false).unwrap().0, 15);
    assert_eq!(next_step(14, true).unwrap().0, 14);
    assert!(next_step(STEPS, true).is_none());
    assert!(next_step(usize::MAX, false).is_none());
}

#[test]
fn a_one_way_call_is_done_once_it_is_written() {
    assert_eq!(sent(true), Some(Reply::Void));
    assert_eq!(sent(false), None);
}

#[test]
fn services_have_their_names() {
    assert_eq!(service_name(false), "ThriftTest");
    assert_eq!(service_name(true), "SecondService");
}

#[test]
fn a_copy_is_the_same_value() {
    for index in 0..STEPS {
        let args = Value::Struct(step(index).unwrap().args);
        let copy = args.clone();
        assert_eq!(copy, args);
        assert!(copy.same(&args));
    }
}

#[test]
fn a_call_that_cannot_be_sent_changes_nothing() {
    let mut client = Client::new(Protocol::Binary, None);
    let bad = vec![(1, Value::ListOf(TType::I32, vec![Value::Bool(true)]))];
    assert_eq!(client.call("a", &bad, false), Err(CallError::Malformed));
    assert_eq!(client.last_sequence(), 0);
    let mut writer = WriteTransport::new(TransportKind::Framed);
    writer.write(&[1]);
    assert_eq!(
        send(&mut client, &mut writer, "a", &bad, false),
        Err(Failure::Call(CallError::Malformed))
    );
    assert_eq!(writer.pending_len(), 1);
}

#[test]
fn test_multi_end_to_end() {
    for protocol in PROTOCOLS {
        for transport in TRANSPORTS {
            let s = step(20).unwrap();
            assert_eq!(s.method, "testMulti");
            assert_eq!(
                s.args,
                vec![
                    (1, Value::I8(1)),
                    (2, Value::I32(-123948)),
                    (3, Value::I64(-19234123981)),
                    (
                        4,
                        Value::MapOf(
                            TType::I16,
                            TType::Binary,
                            vec![
                                (Value::I16(-148), Value::text("buzz")),
                                (Value::I16(1298), Value::text("fizz")),
                            ]
                        )
                    ),
                    (5, Value::I32(8)),
                    (6, Value::I16(81)),
                ]
            );
            let mut client = Client::new(protocol, None);
            let mut writer = WriteTransport::new(transport);
            let wire = send(&mut client, &mut writer, &s.method, &s.args, s.oneway).unwrap();
            let call = message(protocol, MessageKind::Call, "testMulti", 1, step(20).unwrap().args);
            assert_eq!(wire, on_wire(transport, &call));

            let answer = message(
                protocol,
                MessageKind::Reply,
                "testMulti",
                1,
                vec![(0, make_xtruct("Hello2", 1, -123948, -19234123981))],
            );
            let outcome = converse(&client, transport, &s.method, &s.shape, &on_wire(transport, &answer));
            let expected = Value::Struct(vec![
                (1, Value::text("Hello2")),
                (4, Value::I8(1)),
                (9, Value::I32(-123948)),
                (11, Value::I64(-19234123981)),
            ]);
            assert_eq!(outcome, Ok(Reply::Returned(expected)));
            assert_eq!(judge(&s.expected, &outcome), Ok(()));
        }
    }
}

#[test]
fn a_declared_exception_is_an_answer_and_no_error() {
    for protocol in PROTOCOLS {
        for transport in TRANSPORTS {
            let s = step(22).unwrap();
            assert_eq!(s.method, "testException");
            assert_eq!(s.args, vec![(1, Value::text("Xception"))]);
            assert_eq!(
                s.shape,
                Method {
                    returns: None,
                    throws: vec![Declared::Fields(vec![(2, Declared::Text)])],
                }
            );
            let mut client = Client::new(protocol, None);
            let mut writer = WriteTransport::new(transport);
            send(&mut client, &mut writer, &s.method, &s.args, s.oneway).unwrap();
            let answer = message(
                protocol,
                MessageKind::Reply,
                "testException",
                1,
                vec![(1, make_xception(1001, "Xception"))],
            );
            let outcome = converse(&client, transport, &s.method, &s.shape, &on_wire(transport, &answer));
            let x = Value::Struct(vec![(1, Value::I32(1001)), (2, Value::text("Xception"))]);
            assert_eq!(outcome, Ok(Reply::Threw(1, x)));
            assert_eq!(judge(&s.expected, &outcome), Ok(()));
            assert_eq!(judge(&Expected::Refusal, &outcome), Err(TestFailure::NoException));
            assert_eq!(
                judge(&Expected::Nothing, &outcome),
                Err(TestFailure::PassedOn(Cause::Threw(1, make_xception(1001, "Xception"))))
            );
        }
    }
}

#[test]
fn a_two_way_call_right_after_a_one_way_call_succeeds() {
    for protocol in PROTOCOLS {
        for transport in TRANSPORTS {
            let oneway = step(28).unwrap();
            let void = step(29).unwrap();
            assert!(oneway.oneway);
            assert_eq!(oneway.method, "testOneway");
            assert_eq!(oneway.args, vec![(1, Value::I32(1))]);
            assert!(!void.oneway);
            assert_eq!(void.method, "testVoid");

            let mut client = Client::new(protocol, None);
            let mut writer = WriteTransport::new(transport);
            let first = send(&mut client, &mut writer, &oneway.method, &oneway.args, true).unwrap();
            let sent = message(protocol, MessageKind::Oneway, "testOneway", 1, vec![(1, Value::I32(1))]);
            assert_eq!(first, on_wire(transport, &sent));
            let second = send(&mut client, &mut writer, &void.method, &void.args, false).unwrap();
            assert_eq!(
                second,
                on_wire(transport, &message(protocol, MessageKind::Call, "testVoid", 2, vec![]))
            );
            let answer = message(protocol, MessageKind::Reply, "testVoid", 2, vec![]);
            let outcome = converse(&client, transport, "testVoid", &void.shape, &on_wire(transport, &answer));
            assert_eq!(outcome, Ok(Reply::Void));
            assert_eq!(judge(&void.expected, &outcome), Ok(()));
        }
    }
}

#[test]
fn a_refusal_by_the_remote_side_is_told_apart_from_a_declared_exception() {
    for protocol in PROTOCOLS {
        for transport in TRANSPORTS {
            let s = step(23).unwrap();
            let mut client = Client::new(protocol, None);
            client.call(&s.method, &s.args, false).unwrap();
            let refusal = message(
                protocol,
                MessageKind::Exception,
                "testException",
                1,
                vec![(1, Value::text("no such luck")), (2, Value::I32(6))],
            );
            let outcome = converse(&client, transport, &s.method, &s.shape, &on_wire(transport, &refusal));
            assert_eq!(
                outcome,
                Ok(Reply::Refused(ApplicationErrorKind::InternalError, "no such luck".to_string()))
            );
            assert_eq!(judge(&s.expected, &outcome), Ok(()));
            assert_eq!(
                judge(&Expected::Nothing, &outcome),
                Err(TestFailure::PassedOn(Cause::Refused(
                    ApplicationErrorKind::InternalError,
                    "no such luck".to_string()
                )))
            );
            assert_eq!(
                judge(&Expected::Throws(1, make_xception(1001, "Xception")), &outcome),
                Err(TestFailure::NoException)
            );
        }
    }
}

#[test]
fn a_reply_under_another_sequence_id_is_a_desync() {
    for protocol in PROTOCOLS {
        let mut client = Client::new(protocol, None);
        client.call("testVoid", &vec![], false).unwrap();
        let shape = shape(false, 0);
        let wrong_seq = message(protocol, MessageKind::Reply, "testVoid", 2, vec![]);
        assert_eq!(
            client.reply("testVoid", &shape, &wrong_seq),
            Err(CallError::Application(ApplicationErrorKind::BadSequenceId))
        );
        let wrong_name = message(protocol, MessageKind::Reply, "testString", 1, vec![]);
        assert_eq!(
            client.reply("testVoid", &shape, &wrong_name),
            Err(CallError::Application(ApplicationErrorKind::WrongMethodName))
        );
        let wrong_kind = message(protocol, MessageKind::Call, "testVoid", 1, vec![]);
        assert_eq!(
            client.reply("testVoid", &shape, &wrong_kind),
            Err(CallError::Application(ApplicationErrorKind::InvalidMessageType))
        );
        let both = message(protocol, MessageKind::Call, "other", 7, vec![]);
        assert_eq!(
            client.reply("testVoid", &shape, &both),
            Err(CallError::Application(ApplicationErrorKind::BadSequenceId))
        );
        let right = message(protocol, MessageKind::Reply, "testVoid", 1, vec![]);
        assert_eq!(client.reply("testVoid", &shape, &right), Ok((Reply::Void, right.len())));
    }
}

#[test]
fn protocol_errors_in_a_reply() {
    let mut client = Client::new(Protocol::Binary, None);
    client.call("m", &vec![], false).unwrap();
    let shape = shape(true, 0);
    let p = |e| Err(CallError::Protocol(e));
    assert_eq!(client.reply("m", &shape, &[]), p(DecodeError::Truncated));
    assert_eq!(client.reply("m", &shape, &[0, 0, 0, 1]), p(DecodeError::BadVersion));
    assert_eq!(client.reply("m", &shape, &[0x80, 0x02, 0, 2]), p(DecodeError::BadVersion));
    assert_eq!(client.reply("m", &shape, &[0x80, 0x01, 0, 9]), p(DecodeError::BadMessageKind));
    assert_eq!(client.reply("m", &shape, &[0x80, 0x01, 0, 0]), p(DecodeError::BadMessageKind));
    assert_eq!(
        client.reply("m", &shape, &[0x80, 0x01, 0, 2, 0xFF, 0, 0, 0]),
        p(DecodeError::BadSize)
    );
    assert_eq!(
        client.reply("m", &shape, &[0x80, 0x01, 0, 2, 0, 0, 0, 1, 0xFF, 0, 0, 0, 1, 0]),
        p(DecodeError::InvalidUtf8)
    );
    assert_eq!(
        client.reply("m", &shape, &[0x80, 0x01, 0, 2, 0, 0, 0, 1, b'm', 0, 0, 0, 1]),
        p(DecodeError::Truncated)
    );
    assert_eq!(
        client.reply("m", &shape, &[0x80, 0x01, 0, 2, 0, 0, 0, 1, b'm', 0, 0, 0, 1, 1, 0, 0]),
        p(DecodeError::BadType)
    );
    assert_eq!(
        client.reply("m", &shape, &[0x80, 0x01, 0, 2, 0, 0, 0, 1, b'm', 0, 0, 0, 1, 0]),
        Err(CallError::Application(ApplicationErrorKind::MissingResult))
    );

    let mut client = Client::new(Protocol::Compact, None);
    client.call("m", &vec![], false).unwrap();
    assert_eq!(client.reply("m", &shape, &[0x80]), p(DecodeError::BadVersion));
    assert_eq!(client.reply("m", &shape, &[0x82]), p(DecodeError::Truncated));
    assert_eq!(client.reply("m", &shape, &[0x82, 0x42]), p(DecodeError::BadVersion));
    assert_eq!(client.reply("m", &shape, &[0x82, 0xA1]), p(DecodeError::BadMessageKind));
    assert_eq!(client.reply("m", &shape, &[0x82, 0x01]), p(DecodeError::BadMessageKind));
    assert_eq!(
        client.reply("m", &shape, &[0x82, 0x41, 1, 1, b'm', 0x05, 0, 2, 0]),
        Ok((Reply::Returned(Value::I32(1)), 9))
    );
    assert_eq!(
        client.reply("m", &shape, &[0x82, 0x41, 1, 1, b'm', 0x15, 2, 0]),
        Err(CallError::Application(ApplicationErrorKind::MissingResult))
    );
}

#[test]
fn a_reply_that_runs_past_its_frame_is_a_short_frame() {
    for protocol in PROTOCOLS {
        let mut client = Client::new(protocol, None);
        client.call("testI32", &vec![(1, Value::I32(5))], false).unwrap();
        let shape = shape(true, 0);
        let answer = message(protocol, MessageKind::Reply, "testI32", 1, vec![(0, Value::I32(5))]);
        let (head, tail) = answer.split_at(answer.len() - 2);
        let mut wire = on_wire(TransportKind::Framed, head);
        wire.extend_from_slice(&on_wire(TransportKind::Framed, tail));
        let mut reader = ReadTransport::new(TransportKind::Framed);
        reader.supply(&wire);
        assert_eq!(
            receive(&client, &mut reader, "testI32", &shape),
            Err(Failure::Transport(TransportError::ShortFrame))
        );
        assert_eq!(reader.inbox(), &wire[..]);

        let mut reader = ReadTransport::new(TransportKind::Buffered);
        reader.supply(head);
        assert_eq!(receive(&client, &mut reader, "testI32", &shape), Ok(Progress::More));
        reader.supply(tail);
        reader.supply(&[0x55]);
        assert_eq!(
            receive(&client, &mut reader, "testI32", &shape),
            Ok(Progress::Done(Reply::Returned(Value::I32(5))))
        );
        assert_eq!(reader.inbox(), &[0x55]);
        assert_eq!(reader.close(), Err(TransportError::UnexpectedEnd));
    }
}

#[test]
fn a_bad_frame_fails_the_call() {
    let mut client = Client::new(Protocol::Binary, None);
    client.call("m", &vec![], false).unwrap();
    let mut reader = ReadTransport::new(TransportKind::Framed);
    reader.supply(&[0xFF, 0xFF, 0xFF, 0xFF]);
    assert_eq!(
        receive(&client, &mut reader, "m", &shape(false, 0)),
        Err(Failure::Transport(TransportError::BadFrameSize))
    );
}

#[test]
fn reply_fields_are_classified() {
    let returns = &shape(true, 2);
    let void = &shape(false, 2);
    let f = |id: i16, n: i32| (id, Value::I32(n));
    assert_eq!(classify_fields(vec![f(0, 7)], returns), Ok(Reply::Returned(Value::I32(7))));
    assert_eq!(classify_fields(vec![f(0, 7), f(0, 8)], returns), Ok(Reply::Returned(Value::I32(8))));
    assert_eq!(classify_fields(vec![f(1, 7), f(0, 8)], returns), Ok(Reply::Returned(Value::I32(8))));
    assert_eq!(classify_fields(vec![f(2, 7), f(1, 8)], returns), Ok(Reply::Threw(1, Value::I32(8))));
    assert_eq!(classify_fields(vec![f(2, 7), f(9, 8)], returns), Ok(Reply::Threw(2, Value::I32(7))));
    assert_eq!(
        classify_fields(vec![f(3, 7), f(-1, 8)], returns),
        Err(CallError::Application(ApplicationErrorKind::MissingResult))
    );
    assert_eq!(
        classify_fields(vec![], returns),
        Err(CallError::Application(ApplicationErrorKind::MissingResult))
    );
    assert_eq!(classify_fields(vec![], void), Ok(Reply::Void));
    assert_eq!(classify_fields(vec![f(0, 7)], void), Ok(Reply::Void));
    assert_eq!(classify_fields(vec![f(0, 7), f(2, 1)], void), Ok(Reply::Threw(2, Value::I32(1))));
    assert_eq!(
        classify_fields(vec![f(1, 7)], &shape(false, 0)),
        Ok(Reply::Void)
    );
    assert_eq!(
        classify_fields(vec![f(i16::MAX, 7)], &shape(false, i16::MAX as usize)),
        Ok(Reply::Threw(i16::MAX, Value::I32(7)))
    );
    assert_eq!(
        classify_fields(vec![f(i16::MAX, 7)], &shape(false, 40_000)),
        Ok(Reply::Threw(i16::MAX, Value::I32(7)))
    );
    assert_eq!(classify_fields(vec![f(-1, 7)], &shape(false, 40_000)), Ok(Reply::Void));
}

#[test]
fn refusals_have_defaults() {
    assert_eq!(
        refusal_of(&vec![]),
        Ok(Reply::Refused(ApplicationErrorKind::Unknown, "general remote error".to_string()))
    );
    assert_eq!(
        refusal_of(&vec![(2, Value::I32(1)), (1, Value::text("what")), (3, Value::Bool(true))]),
        Ok(Reply::Refused(ApplicationErrorKind::UnknownMethod, "what".to_string()))
    );
    assert_eq!(
        refusal_of(&vec![(2, Value::I32(99))]),
        Ok(Reply::Refused(ApplicationErrorKind::Unknown, "general remote error".to_string()))
    );
    assert_eq!(
        refusal_of(&vec![(1, Value::Binary(vec![0xFF]))]),
        Err(CallError::Protocol(DecodeError::InvalidUtf8))
    );
    let kinds = [
        ApplicationErrorKind::Unknown,
        ApplicationErrorKind::UnknownMethod,
        ApplicationErrorKind::InvalidMessageType,
        ApplicationErrorKind::WrongMethodName,
        ApplicationErrorKind::BadSequenceId,
        ApplicationErrorKind::MissingResult,
        ApplicationErrorKind::InternalError,
        ApplicationErrorKind::ProtocolError,
        ApplicationErrorKind::InvalidTransform,
        ApplicationErrorKind::InvalidProtocol,
        ApplicationErrorKind::UnsupportedClientType,
    ];
    for (code, kind) in kinds.iter().enumerate() {
        assert_eq!(error_kind_of(code as i32), *kind);
    }
    assert_eq!(error_kind_of(11), ApplicationErrorKind::Unknown);
    assert_eq!(error_kind_of(-1), ApplicationErrorKind::Unknown);
}

#[test]
fn stacks_are_built_from_their_names() {
    let stack = |transport, protocol, multiplexed| Ok(Stack { transport, protocol, multiplexed });
    assert_eq!(build("buffered", "binary"), stack(TransportKind::Buffered, Protocol::Binary, false));
    assert_eq!(build("framed", "compact"), stack(TransportKind::Framed, Protocol::Compact, false));
    assert_eq!(build("framed", "multi"), stack(TransportKind::Framed, Protocol::Binary, true));
    assert_eq!(build("buffered", "multic"), stack(TransportKind::Buffered, Protocol::Compact, true));
    assert_eq!(build("zlib", "binary"), Err(ConfigError::UnsupportedTransport));
    assert_eq!(build("zlib", "json"), Err(ConfigError::UnsupportedTransport));
    assert_eq!(build("framed", "json"), Err(ConfigError::UnsupportedProtocol));
    assert_eq!(build("framed", "multix"), Err(ConfigError::UnsupportedProtocol));
    assert_eq!(build("Framed", "binary"), Err(ConfigError::UnsupportedTransport));
    assert_eq!(build("", ""), Err(ConfigError::UnsupportedTransport));
}

#[test]
fn options_fall_back_to_their_defaults() {
    let o = Options::resolve(None, None, None, None, None, None);
    assert_eq!(
        o,
        Options {
            host: "127.0.0.1".to_string(),
            port: 9090,
            domain_socket: None,
            protocol: "binary".to_string(),
            transport: "buffered".to_string(),
            testloops: 1,
        }
    );
    let o = Options::resolve(
        Some("example.org".to_string()),
        Some(9091),
        Some("/tmp/sock".to_string()),
        Some("multic".to_string()),
        Some("framed".to_string()),
        Some(3),
    );
    assert_eq!(o.host, "example.org");
    assert_eq!(o.port, 9091);
    assert_eq!(o.domain_socket, Some("/tmp/sock".to_string()));
    assert_eq!(o.protocol, "multic");
    assert_eq!(o.transport, "framed");
    assert_eq!(o.testloops, 3);
}

#[test]
fn the_plan_has_thirty_calls() {
    assert_eq!(STEPS, 30);
    let names: Vec<String> = (0..STEPS).map(|i| step(i).unwrap().method).collect();
    assert_eq!(
        names,
        [
            "testVoid", "testString", "testUuid", "testBool", "testBool", "testByte", "testI32",
            "testI64", "testDouble", "testTypedef", "testEnum", "testBinary", "testStruct",
            "testNest", "secondtestString", "testList", "testSet", "testMap", "testStringMap",
            "testMapMap", "testMulti", "testInsanity", "testException", "testException",
            "testException", "testMultiException", "testMultiException", "testMultiException",
            "testOneway", "testVoid"
        ]
    );
    assert!(step(STEPS).is_none());
    assert!(step(usize::MAX).is_none());
    for index in 0..STEPS {
        let s = step(index).unwrap();
        assert_eq!(s.second, index == 14);
        assert_eq!(s.oneway, index == 28);
        assert!(Value::Struct(s.args).is_well_formed());
    }
    assert_eq!(step(8).unwrap().args, vec![(1, Value::Double(42.42f64.to_bits()))]);
    assert_eq!(
        step(2).unwrap().args,
        vec![(
            1,
            Value::Uuid(uuid::Uuid::parse_str("00010203-0405-0607-0809-0a0b0c0d0e0f").unwrap().as_u128())
        )]
    );
    assert_eq!(step(7).unwrap().args, vec![(1, Value::I64(i64::MIN))]);
    assert_eq!(
        step(11).unwrap().args,
        vec![(1, Value::Binary(vec![0x77, 0x30, 0x30, 0x74, 0x21, 0x20, 0x52, 0x75, 0x73, 0x74]))]
    );
    assert_eq!(
        step(14).unwrap().expected,
        Expected::Returns(Value::text("testString(\"test_string\")"))
    );
}

#[test]
fn every_echo_of_the_plan_is_judged_fine_in_either_protocol() {
    for protocol in PROTOCOLS {
        for index in 0..STEPS {
            let s = step(index).unwrap();
            let answer = match step(index).unwrap().expected {
                Expected::Nothing | Expected::Succeeds => vec![],
                Expected::Returns(v) | Expected::ReturnsUnharmed(v) => vec![(0, v)],
                Expected::Throws(n, v) => vec![(n, v)],
                Expected::Refusal => continue,
            };
            let service = if s.second { Some(service_name(true)) } else { None };
            let mut client = Client::new(protocol, service);
            client.call(&s.method, &s.args, s.oneway).unwrap();
            let bytes = message(protocol, MessageKind::Reply, &s.method, 1, answer);
            let outcome = client.reply(&s.method, &s.shape, &bytes).map(|r| r.0).map_err(Failure::Call);
            assert_eq!(judge(&s.expected, &outcome), Ok(()), "step {}", index);
        }
    }
}

#[test]
fn values_are_judged_by_what_they_mean() {
    let expected = Value::SetOf(TType::I32, vec![Value::I32(1), Value::I32(2)]);
    let shuffled = Value::SetOf(TType::I32, vec![Value::I32(2), Value::I32(1)]);
    let other = Value::SetOf(TType::I32, vec![Value::I32(2), Value::I32(3)]);
    assert_eq!(verify_expected_result(Ok(Some(&shuffled)), &expected), Ok(()));
    assert_eq!(
        verify_expected_result(Ok(Some(&other)), &expected),
        Err(TestFailure::WrongValue(expected.clone(), Some(other.clone())))
    );
    assert_eq!(
        verify_expected_result(Ok(None), &expected),
        Err(TestFailure::WrongValue(expected.clone(), None))
    );
    assert_eq!(
        verify_expected_result(Err(TestFailure::NoException), &expected),
        Err(TestFailure::NoException)
    );
    let broken = Err(Failure::Transport(TransportError::UnexpectedEnd));
    assert_eq!(
        returned_value(&broken),
        Err(Cause::Broken(Failure::Transport(TransportError::UnexpectedEnd)))
    );
    assert_eq!(
        value_or_failure(&broken),
        Err(TestFailure::PassedOn(Cause::Broken(Failure::Transport(TransportError::UnexpectedEnd))))
    );
    assert_eq!(returned_value(&Ok(Reply::Void)), Ok(None));
    assert_eq!(returned_value(&Ok(Reply::Returned(Value::I8(1)))), Ok(Some(&Value::I8(1))));
    assert_eq!(
        returned_value(&Ok(Reply::Threw(2, Value::I8(1)))),
        Err(Cause::Threw(2, Value::I8(1)))
    );
    assert_eq!(
        returned_value(&Ok(Reply::Refused(ApplicationErrorKind::Unknown, "why".to_string()))),
        Err(Cause::Refused(ApplicationErrorKind::Unknown, "why".to_string()))
    );
}

#[test]
fn judgements() {
    let v = || Value::I32(1);
    let w = || Value::I32(2);
    let returned = |x| Ok(Reply::Returned(x));
    let threw = |n, x| Ok(Reply::Threw(n, x));
    let refused = || Ok(Reply::Refused(ApplicationErrorKind::UnknownMethod, "no".to_string()));
    let was_refused = || Cause::Refused(ApplicationErrorKind::UnknownMethod, "no".to_string());
    let truncated = Failure::Call(CallError::Protocol(DecodeError::Truncated));
    let broken = || Err(truncated);
    let wrong = |actual| Err(TestFailure::WrongValue(v(), actual));

    assert_eq!(judge(&Expected::Nothing, &Ok(Reply::Void)), Ok(()));
    assert_eq!(judge(&Expected::Nothing, &returned(v())), Ok(()));
    assert_eq!(
        judge(&Expected::Nothing, &broken()),
        Err(TestFailure::PassedOn(Cause::Broken(truncated)))
    );
    assert_eq!(judge(&Expected::Nothing, &refused()), Err(TestFailure::PassedOn(was_refused())));

    assert_eq!(judge(&Expected::Returns(v()), &returned(v())), Ok(()));
    assert_eq!(judge(&Expected::Returns(v()), &returned(w())), wrong(Some(w())));
    assert_eq!(judge(&Expected::Returns(v()), &Ok(Reply::Void)), wrong(None));
    assert_eq!(
        judge(&Expected::Returns(v()), &threw(1, w())),
        Err(TestFailure::PassedOn(Cause::Threw(1, w())))
    );
    assert_eq!(
        judge(&Expected::Returns(v()), &refused()),
        Err(TestFailure::PassedOn(was_refused()))
    );
    assert_eq!(
        judge(&Expected::Returns(v()), &broken()),
        Err(TestFailure::PassedOn(Cause::Broken(truncated)))
    );

    assert_eq!(judge(&Expected::ReturnsUnharmed(v()), &returned(v())), Ok(()));
    assert_eq!(judge(&Expected::ReturnsUnharmed(v()), &returned(w())), wrong(Some(w())));
    assert_eq!(
        judge(&Expected::ReturnsUnharmed(v()), &threw(1, w())),
        Err(TestFailure::UnexpectedException(Cause::Threw(1, w())))
    );
    assert_eq!(
        judge(&Expected::ReturnsUnharmed(v()), &refused()),
        Err(TestFailure::UnexpectedException(was_refused()))
    );
    assert_eq!(
        judge(&Expected::ReturnsUnharmed(v()), &broken()),
        Err(TestFailure::UnexpectedException(Cause::Broken(truncated)))
    );
    for outcome in [threw(1, v()), refused(), broken()] {
        assert_eq!(judge(&Expected::Succeeds, &outcome), Err(TestFailure::ReceivedException));
    }
    assert_eq!(judge(&Expected::Succeeds, &Ok(Reply::Void)), Ok(()));
    assert_eq!(judge(&Expected::Succeeds, &returned(v())), Ok(()));

    assert_eq!(judge(&Expected::Throws(1, v()), &threw(1, v())), Ok(()));
    assert_eq!(judge(&Expected::Throws(1, v()), &threw(1, w())), wrong(Some(w())));
    assert_eq!(judge(&Expected::Throws(1, v()), &threw(2, v())), Err(TestFailure::WrongException));
    for outcome in [Ok(Reply::Void), returned(v()), refused(), broken()] {
        assert_eq!(judge(&Expected::Throws(1, v()), &outcome), Err(TestFailure::NoException));
    }
}

#[test]
fn a_refusal_is_any_application_error() {
    let refused = Ok(Reply::Refused(ApplicationErrorKind::UnknownMethod, "no".to_string()));
    assert!(application_error(&refused));
    assert_eq!(judge(&Expected::Refusal, &refused), Ok(()));
    let kinds = [
        ApplicationErrorKind::BadSequenceId,
        ApplicationErrorKind::WrongMethodName,
        ApplicationErrorKind::InvalidMessageType,
        ApplicationErrorKind::MissingResult,
    ];
    for kind in kinds {
        let found = Err(Failure::Call(CallError::Application(kind)));
        assert!(application_error(&found));
        assert_eq!(judge(&Expected::Refusal, &found), Ok(()));
    }
    let others = [
        Ok(Reply::Void),
        Ok(Reply::Returned(Value::I32(1))),
        Ok(Reply::Threw(1, Value::I32(1))),
        Err(Failure::Call(CallError::Protocol(DecodeError::Truncated))),
        Err(Failure::Call(CallError::Malformed)),
        Err(Failure::Transport(TransportError::UnexpectedEnd)),
    ];
    for outcome in others {
        assert!(!application_error(&outcome));
        assert_eq!(judge(&Expected::Refusal, &outcome), Err(TestFailure::NoException));
    }
    // through the client: a reply under another sequence id passes the refusal step
    for protocol in PROTOCOLS {
        let s = step(23).unwrap();
        assert_eq!(s.expected, Expected::Refusal);
        let mut client = Client::new(protocol, None);
        client.call(&s.method, &s.args, false).unwrap();
        let stale = message(protocol, MessageKind::Reply, "testException", 7, vec![]);
        let outcome = client.reply(&s.method, &s.shape, &stale).map(|r| r.0).map_err(Failure::Call);
        assert_eq!(
            outcome,
            Err(Failure::Call(CallError::Application(ApplicationErrorKind::BadSequenceId)))
        );
        assert_eq!(judge(&s.expected, &outcome), Ok(()));
    }
}

#[test]
fn a_string_that_is_not_utf8_is_a_decoding_error() {
    for protocol in PROTOCOLS {
        let s = step(1).unwrap();
        assert_eq!(s.method, "testString");
        assert_eq!(s.shape, Method { returns: Some(Declared::Text), throws: vec![] });
        let mut client = Client::new(protocol, None);
        client.call(&s.method, &s.args, false).unwrap();
        let bad = message(
            protocol,
            MessageKind::Reply,
            "testString",
            1,
            vec![(0, Value::Binary(vec![b't', 0xFF, b'g']))],
        );
        assert_eq!(
            client.reply(&s.method, &s.shape, &bad),
            Err(CallError::Protocol(DecodeError::InvalidUtf8))
        );
        for transport in TRANSPORTS {
            let outcome = converse(&client, transport, &s.method, &s.shape, &on_wire(transport, &bad));
            assert_eq!(outcome, Err(Failure::Call(CallError::Protocol(DecodeError::InvalidUtf8))));
            assert_eq!(
                judge(&s.expected, &outcome),
                Err(TestFailure::PassedOn(Cause::Broken(Failure::Call(CallError::Protocol(
                    DecodeError::InvalidUtf8
                )))))
            );
        }

        // the same bytes are fine where a binary is declared
        let b = step(11).unwrap();
        assert_eq!(b.method, "testBinary");
        let mut client = Client::new(protocol, None);
        client.call(&b.method, &b.args, false).unwrap();
        let blob = message(
            protocol,
            MessageKind::Reply,
            "testBinary",
            1,
            vec![(0, Value::Binary(vec![b't', 0xFF, b'g']))],
        );
        let outcome = client.reply(&b.method, &b.shape, &blob).map(|r| r.0).map_err(Failure::Call);
        assert_eq!(outcome, Ok(Reply::Returned(Value::Binary(vec![b't', 0xFF, b'g']))));
        assert!(matches!(judge(&b.expected, &outcome), Err(TestFailure::WrongValue(_, _))));

        // a string deep inside the answer, and one inside a declared exception
        let s = step(21).unwrap();
        let mut client = Client::new(protocol, None);
        client.call(&s.method, &s.args, false).unwrap();
        let bad_xtruct = Value::Struct(vec![(1, Value::Binary(vec![0xC0, 0x80]))]);
        let insanity = Value::Struct(vec![(2, Value::ListOf(TType::Struct, vec![bad_xtruct]))]);
        let inner = Value::MapOf(TType::I32, TType::Struct, vec![(Value::I32(2), insanity)]);
        let answer = Value::MapOf(TType::I64, TType::MapOf, vec![(Value::I64(1), inner)]);
        let bytes = message(protocol, MessageKind::Reply, "testInsanity", 1, vec![(0, answer)]);
        assert_eq!(
            client.reply(&s.method, &s.shape, &bytes),
            Err(CallError::Protocol(DecodeError::InvalidUtf8))
        );
        let s = step(26).unwrap();
        let mut client = Client::new(protocol, None);
        client.call(&s.method, &s.args, false).unwrap();
        let thrown = Value::Struct(vec![(1, Value::I32(1001)), (2, Value::Binary(vec![0x80]))]);
        let bytes = message(protocol, MessageKind::Reply, "testMultiException", 1, vec![(1, thrown)]);
        assert_eq!(
            client.reply(&s.method, &s.shape, &bytes),
            Err(CallError::Protocol(DecodeError::InvalidUtf8))
        );
    }
}

#[test]
fn strings_are_looked_for_where_they_are_declared() {
    let bad = || Value::Binary(vec![0xFF]);
    let good = || Value::text("fine");
    assert!(texts_are_sound(&bad(), &Declared::Opaque));
    assert!(!texts_are_sound(&bad(), &Declared::Text));
    assert!(texts_are_sound(&good(), &Declared::Text));
    assert!(texts_are_sound(&Value::I32(1), &Declared::Text));
    let each = Declared::Elements(Box::new(Declared::Text));
    assert!(texts_are_sound(&Value::ListOf(TType::Binary, vec![good(), good()]), &each));
    assert!(!texts_are_sound(&Value::ListOf(TType::Binary, vec![good(), bad()]), &each));
    assert!(!texts_are_sound(&Value::SetOf(TType::Binary, vec![bad()]), &each));
    assert!(texts_are_sound(&bad(), &each));
    let keys = Declared::Entries(Box::new(Declared::Text), Box::new(Declared::Opaque));
    let values = Declared::Entries(Box::new(Declared::Opaque), Box::new(Declared::Text));
    let map = Value::MapOf(TType::Binary, TType::Binary, vec![(good(), bad())]);
    assert!(texts_are_sound(&map, &keys));
    assert!(!texts_are_sound(&map, &values));
    let fields = vec![(1, Declared::Opaque), (2, Declared::Text), (2, Declared::Opaque)];
    assert_eq!(find_declared(&fields, 2), Some(1));
    assert_eq!(find_declared(&fields, 1), Some(0));
    assert_eq!(find_declared(&fields, 3), None);
    let declared = Declared::Fields(fields);
    assert!(texts_are_sound(&Value::Struct(vec![(1, bad()), (3, bad()), (2, good())]), &declared));
    assert!(!texts_are_sound(&Value::Struct(vec![(1, good()), (2, bad())]), &declared));
    assert!(texts_are_sound(&Value::Struct(vec![]), &declared));
}

#[test]
fn a_name_that_names_nothing_is_said_so() {
    assert_eq!(
        config_message(ConfigError::UnsupportedTransport, "zlib", "json"),
        "unsupported transport zlib"
    );
    assert_eq!(
        config_message(ConfigError::UnsupportedProtocol, "zlib", "json"),
        "unsupported protocol json"
    );
    assert_eq!(config_message(ConfigError::UnsupportedProtocol, "", ""), "unsupported protocol ");
}

#[test]
fn a_client_bears_a_service_name_on_a_shared_connection_only() {
    for protocol in PROTOCOLS {
        for (multiplexed, second, name) in [
            (false, false, "testVoid"),
            (false, true, "testVoid"),
            (true, false, "ThriftTest:testVoid"),
            (true, true, "SecondService:testVoid"),
        ] {
            let stack = Stack { transport: TransportKind::Framed, protocol, multiplexed };
            let mut client = client_of(stack, second);
            assert_eq!(client.last_sequence(), 0);
            let bytes = client.call("testVoid", &vec![], false).unwrap();
            let (envelope, _, _) = protocol.read_message(&bytes, 0).unwrap();
            assert_eq!(envelope.name, name);
            assert_eq!(envelope.seq, 1);
        }
    }
}

#[test]
fn the_end_of_the_stream_fails_an_awaited_reply() {
    let mut reader = ReadTransport::new(TransportKind::Framed);
    assert_eq!(ended(&reader), Failure::Transport(TransportError::UnexpectedEnd));
    reader.supply(&[0, 0]);
    assert_eq!(ended(&reader), Failure::Transport(TransportError::UnexpectedEnd));
    let reader = ReadTransport::new(TransportKind::Buffered);
    assert_eq!(ended(&reader), Failure::Transport(TransportError::UnexpectedEnd));
}
