//! The codecs against the `thrift` crate: the same values must give
//! the same bytes, and each side must read what the other wrote.

use std::io::Write;
use thrift::protocol::{
    TBinaryInputProtocol, TBinaryOutputProtocol, TCompactInputProtocol, TCompactOutputProtocol,
    TFieldIdentifier, TInputProtocol, TListIdentifier, TMapIdentifier, TMessageIdentifier,
    TMessageType, TMultiplexedOutputProtocol, TOutputProtocol, TSetIdentifier, TStructIdentifier,
    TType as RefType,
};
use thrift::transport::{TBufferChannel, TFramedWriteTransport};
use thrift_wire::dispatch::Client;
use thrift_wire::message::{Envelope, MessageKind};
use thrift_wire::plan::{step, STEPS};
use thrift_wire::protocol::Protocol;
use thrift_wire::transport::{TransportKind, WriteTransport};
use thrift_wire::value::{TType, Value};

fn ref_type(t: TType) -> RefType {
    match t {
        TType::Stop => RefType::Stop,
        TType::Bool => RefType::Bool,
        TType::I8 => RefType::I08,
        TType::Double => RefType::Double,
        TType::I16 => RefType::I16,
        TType::I32 => RefType::I32,
        TType::I64 => RefType::I64,
        TType::Binary => RefType::String,
        TType::Struct => RefType::Struct,
        TType::MapOf => RefType::Map,
        TType::SetOf => RefType::Set,
        TType::ListOf => RefType::List,
        TType::Uuid => RefType::Uuid,
    }
}

fn own_type(t: RefType) -> TType {
    match t {
        RefType::Stop => TType::Stop,
        RefType::Bool => TType::Bool,
        RefType::I08 => TType::I8,
        RefType::Double => TType::Double,
        RefType::I16 => TType::I16,
        RefType::I32 => TType::I32,
        RefType::I64 => TType::I64,
        RefType::String => TType::Binary,
        RefType::Struct => TType::Struct,
        RefType::Map => TType::MapOf,
        RefType::Set => TType::SetOf,
        RefType::List => TType::ListOf,
        RefType::Uuid => TType::Uuid,
        other => panic!("no such type here: {}", other),
    }
}

fn write_fields(o: &mut dyn TOutputProtocol, fields: &[(i16, Value)]) {
    o.write_struct_begin(&TStructIdentifier::new("s")).unwrap();
    for (id, v) in fields {
        o.write_field_begin(&TFieldIdentifier::new("f", ref_type(v.ttype()), *id)).unwrap();
        write_value(o, v);
        o.write_field_end().unwrap();
    }
    o.write_field_stop().unwrap();
    o.write_struct_end().unwrap();
}

fn write_value(o: &mut dyn TOutputProtocol, v: &Value) {
    match v {
        Value::Bool(b) => o.write_bool(*b).unwrap(),
        Value::I8(x) => o.write_i8(*x).unwrap(),
        Value::I16(x) => o.write_i16(*x).unwrap(),
        Value::I32(x) => o.write_i32(*x).unwrap(),
        Value::I64(x) => o.write_i64(*x).unwrap(),
        Value::Double(bits) => o.write_double(f64::from_bits(*bits)).unwrap(),
        Value::Binary(b) => o.write_bytes(b).unwrap(),
        Value::Uuid(u) => o.write_uuid(&uuid::Uuid::from_u128(*u)).unwrap(),
        Value::ListOf(t, items) => {
            o.write_list_begin(&TListIdentifier::new(ref_type(*t), items.len() as i32)).unwrap();
            for item in items {
                write_value(o, item);
            }
            o.write_list_end().unwrap();
        }
        Value::SetOf(t, items) => {
            o.write_set_begin(&TSetIdentifier::new(ref_type(*t), items.len() as i32)).unwrap();
            for item in items {
                write_value(o, item);
            }
            o.write_set_end().unwrap();
        }
        Value::MapOf(k, w, entries) => {
            o.write_map_begin(&TMapIdentifier::new(
                ref_type(*k),
                ref_type(*w),
                entries.len() as i32,
            ))
            .unwrap();
            for (key, value) in entries {
                write_value(o, key);
                write_value(o, value);
            }
            o.write_map_end().unwrap();
        }
        Value::Struct(fields) => write_fields(o, fields),
    }
}

fn read_fields(i: &mut dyn TInputProtocol) -> Vec<(i16, Value)> {
    let mut fields = Vec::new();
    i.read_struct_begin().unwrap();
    loop {
        let field = i.read_field_begin().unwrap();
        if field.field_type == RefType::Stop {
            break;
        }
        let value = read_value(i, own_type(field.field_type));
        i.read_field_end().unwrap();
        fields.push((field.id.unwrap(), value));
    }
    i.read_struct_end().unwrap();
    fields
}

fn read_value(i: &mut dyn TInputProtocol, t: TType) -> Value {
    match t {
        TType::Stop => panic!("no value of the stop type"),
        TType::Bool => Value::Bool(i.read_bool().unwrap()),
        TType::I8 => Value::I8(i.read_i8().unwrap()),
        TType::I16 => Value::I16(i.read_i16().unwrap()),
        TType::I32 => Value::I32(i.read_i32().unwrap()),
        TType::I64 => Value::I64(i.read_i64().unwrap()),
        TType::Double => Value::Double(i.read_double().unwrap().to_bits()),
        TType::Binary => Value::Binary(i.read_bytes().unwrap()),
        TType::Uuid => Value::Uuid(i.read_uuid().unwrap().as_u128()),
        TType::ListOf => {
            let head = i.read_list_begin().unwrap();
            let t = own_type(head.element_type);
            let items = (0..head.size).map(|_| read_value(i, t)).collect();
            i.read_list_end().unwrap();
            Value::ListOf(t, items)
        }
        TType::SetOf => {
            let head = i.read_set_begin().unwrap();
            let t = own_type(head.element_type);
            let items = (0..head.size).map(|_| read_value(i, t)).collect();
            i.read_set_end().unwrap();
            Value::SetOf(t, items)
        }
        TType::MapOf => {
            let head = i.read_map_begin().unwrap();
            let k = head.key_type.map(own_type).unwrap_or(TType::Stop);
            let w = head.value_type.map(own_type).unwrap_or(TType::Stop);
            let mut entries = Vec::new();
            for _ in 0..head.size {
                let key = read_value(i, k);
                let value = read_value(i, w);
                entries.push((key, value));
            }
            i.read_map_end().unwrap();
            Value::MapOf(k, w, entries)
        }
        TType::Struct => Value::Struct(read_fields(i)),
    }
}

fn thrift_bytes(protocol: Protocol, fields: &[(i16, Value)]) -> Vec<u8> {
    let channel = TBufferChannel::with_capacity(0, 1 << 16);
    match protocol {
        Protocol::Binary => {
            write_fields(&mut TBinaryOutputProtocol::new(channel.clone(), true), fields)
        }
        Protocol::Compact => write_fields(&mut TCompactOutputProtocol::new(channel.clone()), fields),
    }
    channel.write_bytes()
}

fn thrift_read(protocol: Protocol, bytes: &[u8]) -> Vec<(i16, Value)> {
    let mut channel = TBufferChannel::with_capacity(1 << 16, 0);
    channel.set_readable_bytes(bytes);
    match protocol {
        Protocol::Binary => read_fields(&mut TBinaryInputProtocol::new(channel, true)),
        Protocol::Compact => read_fields(&mut TCompactInputProtocol::new(channel)),
    }
}

fn own_bytes(protocol: Protocol, fields: &Vec<(i16, Value)>) -> Vec<u8> {
    let mut out = Vec::new();
    protocol.encode_fields(fields, &mut out);
    out
}

fn all_structs() -> Vec<Vec<(i16, Value)>> {
    let mut all = Vec::new();
    for index in 0..STEPS {
        let s = step(index).unwrap();
        all.push(s.args);
        match s.expected {
            thrift_wire::cross_test::Expected::Returns(v)
            | thrift_wire::cross_test::Expected::ReturnsUnharmed(v) => all.push(vec![(0, v)]),
            thrift_wire::cross_test::Expected::Throws(n, v) => all.push(vec![(n, v)]),
            _ => {}
        }
    }
    all.push(vec![
        (1, Value::Bool(true)),
        (2, Value::Bool(false)),
        (3, Value::ListOf(TType::Bool, vec![Value::Bool(true), Value::Bool(false)])),
        (20, Value::I16(i16::MIN)),
        (19, Value::I16(i16::MAX)),
        (-5, Value::I32(i32::MIN)),
        (300, Value::I64(i64::MAX)),
        (301, Value::Double(f64::NAN.to_bits())),
        (310, Value::Double((-0.0f64).to_bits())),
        (
            311,
            Value::ListOf(TType::I64, (0..40).map(|n| Value::I64(n * 1_000_003 - 7)).collect()),
        ),
        (312, Value::SetOf(TType::Binary, vec![Value::Binary(vec![]), Value::Binary(vec![0; 200])])),
        (313, Value::Struct(vec![(7, Value::Struct(vec![(1, Value::Bool(true))]))])),
        (i16::MIN, Value::I8(127)),
        (i16::MAX, Value::I8(-128)),
    ]);
    all
}

#[test]
fn binary_bytes_are_those_of_the_thrift_crate() {
    for fields in all_structs() {
        assert_eq!(own_bytes(Protocol::Binary, &fields), thrift_bytes(Protocol::Binary, &fields));
    }
}

#[test]
fn compact_bytes_are_the_thrift_bytes() {
    for fields in all_structs() {
        assert_eq!(
            own_bytes(Protocol::Compact, &fields),
            thrift_bytes(Protocol::Compact, &fields)
        );
    }
}

#[test]
fn the_thrift_reads_what_was_written_here() {
    for fields in all_structs() {
        let bytes = own_bytes(Protocol::Binary, &fields);
        assert_eq!(thrift_read(Protocol::Binary, &bytes), fields);
    }
}

#[test]
fn what_the_thrift_crate_wrote_is_read_here() {
    for protocol in [Protocol::Binary, Protocol::Compact] {
        for fields in all_structs() {
            let bytes = thrift_bytes(protocol, &fields);
            let (read, next) = protocol.read_fields(&bytes, 0).unwrap();
            assert_eq!(next, bytes.len());
            assert!(Value::Struct(read).matches(&Value::Struct(fields)));
        }
    }
}

#[test]
fn the_thrift_reads_a_field_header_with_delta_fifteen() {
    let fields = vec![(1, Value::I32(5)), (16, Value::I32(6)), (32, Value::I32(7))];
    let bytes = own_bytes(Protocol::Compact, &fields);
    assert_eq!(bytes, vec![0x15, 0x0A, 0xF5, 0x0C, 0x05, 0x40, 0x0E, 0x00]);
    assert_eq!(thrift_read(Protocol::Compact, &bytes), fields);
}

#[test]
fn the_thrift_reads_compact_values_written_here() {
    for fields in all_structs() {
        let bytes = own_bytes(Protocol::Compact, &fields);
        let back = thrift_read(Protocol::Compact, &bytes);
        assert!(Value::Struct(back).matches(&Value::Struct(fields)));
    }
}

fn thrift_envelope(protocol: Protocol, name: &str, kind: TMessageType, seq: i32) -> Vec<u8> {
    let channel = TBufferChannel::with_capacity(0, 1 << 12);
    let id = TMessageIdentifier::new(name, kind, seq);
    match protocol {
        Protocol::Binary => TBinaryOutputProtocol::new(channel.clone(), true)
            .write_message_begin(&id)
            .unwrap(),
        Protocol::Compact => {
            TCompactOutputProtocol::new(channel.clone()).write_message_begin(&id).unwrap()
        }
    }
    channel.write_bytes()
}

#[test]
fn envelopes_are_the_thrift_envelopes() {
    let kinds = [
        (MessageKind::Call, TMessageType::Call),
        (MessageKind::Reply, TMessageType::Reply),
        (MessageKind::Exception, TMessageType::Exception),
        (MessageKind::Oneway, TMessageType::OneWay),
    ];
    for protocol in [Protocol::Binary, Protocol::Compact] {
        for (kind, ref_kind) in kinds {
            for seq in [0, 1, -1, 300, i32::MAX, i32::MIN] {
                for name in ["", "testVoid", "gr\u{fc}\u{df}e \u{4e16}\u{754c}"] {
                    let mut out = Vec::new();
                    protocol.push_envelope(&mut out, kind, name, seq);
                    assert_eq!(out, thrift_envelope(protocol, name, ref_kind, seq));
                    let (envelope, next) = protocol.read_envelope(&out, 0).unwrap();
                    assert_eq!(next, out.len());
                    assert_eq!(envelope, Envelope { kind, name: name.to_string(), seq });
                }
            }
        }
    }
}

#[test]
fn multiplexed_calls_are_those_of_the_thrift_crate() {
    for protocol in [Protocol::Binary, Protocol::Compact] {
        for (oneway, kind) in [(false, TMessageType::Call), (true, TMessageType::OneWay)] {
            let channel = TBufferChannel::with_capacity(0, 1 << 12);
            let args = vec![(1, Value::text("thing"))];
            let id = TMessageIdentifier::new("testString", kind, 1);
            match protocol {
                Protocol::Binary => {
                    let mut o = TMultiplexedOutputProtocol::new(
                        "SecondService",
                        TBinaryOutputProtocol::new(channel.clone(), true),
                    );
                    o.write_message_begin(&id).unwrap();
                    write_fields(&mut o, &args);
                    o.write_message_end().unwrap();
                }
                Protocol::Compact => {
                    let mut o = TMultiplexedOutputProtocol::new(
                        "SecondService",
                        TCompactOutputProtocol::new(channel.clone()),
                    );
                    o.write_message_begin(&id).unwrap();
                    write_fields(&mut o, &args);
                    o.write_message_end().unwrap();
                }
            }
            let mut client = Client::new(protocol, Some("SecondService".to_string()));
            let bytes = client.call("testString", &args, oneway).unwrap();
            assert_eq!(bytes, channel.write_bytes());
        }
    }
}

#[test]
fn frames_are_those_of_the_thrift_crate() {
    for payload in [vec![1u8], vec![0u8; 300], (0..=255u8).collect::<Vec<u8>>()] {
        let channel = TBufferChannel::with_capacity(0, 1 << 12);
        let mut theirs = TFramedWriteTransport::new(channel.clone());
        theirs.write_all(&payload[..3.min(payload.len())]).unwrap();
        theirs.write_all(&payload[3.min(payload.len())..]).unwrap();
        theirs.flush().unwrap();
        let mut own = WriteTransport::new(TransportKind::Framed);
        own.write(&payload[..3.min(payload.len())]);
        own.write(&payload[3.min(payload.len())..]);
        assert_eq!(own.flush().unwrap(), channel.write_bytes());
    }
}
