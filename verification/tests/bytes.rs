use thrift_wire::binary::{binary_tag_of, binary_type_of};
use thrift_wire::bytes::{
    copy_range, has_bytes, i16_of_word, i32_of_word, i64_of_word, i8_of_word, push_be128,
    push_be16, push_be32, push_be64, push_bytes, push_le64, read_be128, read_be16, read_be32,
    read_be64, read_le64, word_of_i16, word_of_i32, word_of_i64, word_of_i8,
};
use thrift_wire::compact::{compact_tag_of, compact_type_of};
use thrift_wire::dispatch::same_text;
use thrift_wire::message::{code_of_kind, kind_from_code, MessageKind};
use thrift_wire::text::{bytes_of_text, text_of_range};
use thrift_wire::value::TType;

const TYPES: [TType; 13] = [
    TType::Stop,
    TType::Bool,
    TType::I8,
    TType::Double,
    TType::I16,
    TType::I32,
    TType::I64,
    TType::Binary,
    TType::Struct,
    TType::MapOf,
    TType::SetOf,
    TType::ListOf,
    TType::Uuid,
];

#[test]
fn fixed_width_numbers_are_written_most_significant_byte_first() {
    let mut out = vec![0xEE];
    push_be16(&mut out, 0x0102);
    push_be32(&mut out, 0x0304_0506);
    push_be64(&mut out, 0x0708_090A_0B0C_0D0E);
    assert_eq!(out, vec![0xEE, 1, 2, 3, 4, 5, 6, 7, 8, 9, 10, 11, 12, 13, 14]);
    assert_eq!(read_be16(&out, 1), 0x0102);
    assert_eq!(read_be32(&out, 3), 0x0304_0506);
    assert_eq!(read_be64(&out, 7), 0x0708_090A_0B0C_0D0E);
    let mut out = Vec::new();
    push_be128(&mut out, 0x0001_0203_0405_0607_0809_0A0B_0C0D_0E0F);
    assert_eq!(out, (0..16).collect::<Vec<u8>>());
    assert_eq!(read_be128(&out, 0), 0x0001_0203_0405_0607_0809_0A0B_0C0D_0E0F);
    for v in [0u64, 1, 0xFF, 0x0123_4567_89AB_CDEF, u64::MAX] {
        let mut out = Vec::new();
        push_be64(&mut out, v);
        assert_eq!(out, v.to_be_bytes());
        assert_eq!(read_be64(&out, 0), v);
        let mut out = Vec::new();
        push_le64(&mut out, v);
        assert_eq!(out, v.to_le_bytes());
        assert_eq!(read_le64(&out, 0), v);
    }
    for v in [0u32, 1, 0x8000_0000, u32::MAX] {
        let mut out = Vec::new();
        push_be32(&mut out, v);
        assert_eq!(out, v.to_be_bytes());
    }
    for v in [0u128, 1, u128::MAX, 1 << 64, (1 << 64) - 1] {
        let mut out = Vec::new();
        push_be128(&mut out, v);
        assert_eq!(out, v.to_be_bytes());
        assert_eq!(read_be128(&out, 0), v);
    }
}

#[test]
fn signed_numbers_are_twos_complement_words() {
    assert_eq!(word_of_i8(-1), 0xFF);
    assert_eq!(word_of_i8(i8::MIN), 0x80);
    assert_eq!(word_of_i16(-2), 0xFFFE);
    assert_eq!(word_of_i32(i32::MIN), 0x8000_0000);
    assert_eq!(word_of_i64(-1), u64::MAX);
    assert_eq!(i8_of_word(0x80), i8::MIN);
    assert_eq!(i16_of_word(0xFFFE), -2);
    assert_eq!(i32_of_word(0x7FFF_FFFF), i32::MAX);
    assert_eq!(i64_of_word(0x8000_0000_0000_0000), i64::MIN);
    for v in [i8::MIN, -1, 0, 1, i8::MAX] {
        assert_eq!(word_of_i8(v), v as u8);
        assert_eq!(i8_of_word(v as u8), v);
    }
    for v in [i16::MIN, -1, 0, 1, i16::MAX] {
        assert_eq!(word_of_i16(v), v as u16);
        assert_eq!(i16_of_word(v as u16), v);
    }
    for v in [i32::MIN, -1, 0, 1, i32::MAX] {
        assert_eq!(word_of_i32(v), v as u32);
        assert_eq!(i32_of_word(v as u32), v);
    }
    for v in [i64::MIN, -1, 0, 1, i64::MAX] {
        assert_eq!(word_of_i64(v), v as u64);
        assert_eq!(i64_of_word(v as u64), v);
    }
}

#[test]
fn ranges_are_checked_and_copied() {
    let bytes = [1u8, 2, 3, 4];
    assert!(has_bytes(&bytes, 0, 4));
    assert!(has_bytes(&bytes, 4, 0));
    assert!(!has_bytes(&bytes, 1, 4));
    assert!(!has_bytes(&bytes, 5, 0));
    assert!(!has_bytes(&bytes, usize::MAX, 2));
    assert!(!has_bytes(&bytes, 2, usize::MAX));
    assert_eq!(copy_range(&bytes, 1, 3), vec![2, 3]);
    assert_eq!(copy_range(&bytes, 2, 2), Vec::<u8>::new());
    let mut out = vec![9];
    push_bytes(&mut out, &bytes);
    assert_eq!(out, vec![9, 1, 2, 3, 4]);
}

#[test]
fn every_type_is_the_type_of_its_tag() {
    let binary = [0u8, 2, 3, 4, 6, 8, 10, 11, 12, 13, 14, 15, 16];
    let compact = [0u8, 1, 3, 7, 4, 5, 6, 8, 12, 11, 10, 9, 13];
    for (i, t) in TYPES.iter().enumerate() {
        assert_eq!(binary_tag_of(*t), binary[i]);
        assert_eq!(binary_type_of(binary[i]), Some(*t));
        assert_eq!(compact_tag_of(*t), compact[i]);
        assert_eq!(compact_type_of(compact[i]), Some(*t));
    }
    assert_eq!(compact_type_of(2), Some(TType::Bool));
    for b in [1u8, 5, 7, 9, 17, 255] {
        assert_eq!(binary_type_of(b), None);
    }
    for b in [14u8, 15, 16, 255] {
        assert_eq!(compact_type_of(b), None);
    }
}

#[test]
fn every_message_kind_is_the_kind_of_its_code() {
    let kinds =
        [MessageKind::Call, MessageKind::Reply, MessageKind::Exception, MessageKind::Oneway];
    for (i, kind) in kinds.iter().enumerate() {
        assert_eq!(code_of_kind(*kind), i as u8 + 1);
        assert_eq!(kind_from_code(i as u8 + 1), Some(*kind));
    }
    assert_eq!(kind_from_code(0), None);
    assert_eq!(kind_from_code(5), None);
}

#[test]
fn text_is_utf8() {
    assert_eq!(bytes_of_text("a\u{e9}\u{4e16}\u{1F600}"), "a\u{e9}\u{4e16}\u{1F600}".as_bytes());
    let bytes = [b'x', 0xC3, 0xA9, b'y'];
    assert_eq!(text_of_range(&bytes, 1, 3), Ok("\u{e9}".to_string()));
    assert_eq!(text_of_range(&bytes, 0, 4), Ok("x\u{e9}y".to_string()));
    assert!(text_of_range(&bytes, 0, 2).is_err());
    assert!(text_of_range(&bytes, 2, 4).is_err());
    assert_eq!(text_of_range(&bytes, 2, 2), Ok(String::new()));
    assert!(same_text("abc", "abc"));
    assert!(!same_text("abc", "abd"));
    assert!(!same_text("abc", "ab"));
    assert!(same_text("", ""));
}
