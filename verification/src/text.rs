//! Strings on the wire: UTF-8 bytes behind a length.

use crate::bytes::copy_range;
use crate::error::DecodeError;
use crate::value::{Val, Value};
use vstd::prelude::*;
use vstd::utf8::{decode_utf8, encode_utf8, valid_utf8};

verus! {

/// `String::from_utf8` of the standard library: the string that the bytes
/// spell in UTF-8, or nothing where they are not UTF-8. The contract states
/// the library's documented behaviour over the UTF-8 definitions of vstd:
/// success exactly on valid UTF-8, and then the characters that the bytes
/// decode to.
#[verifier::external_body]
fn string_from_utf8(bytes: Vec<u8>) -> (r: Option<String>)
    ensures
        r is Some <==> valid_utf8(bytes@),
        r matches Some(s) ==> s@ == decode_utf8(bytes@),
{
    String::from_utf8(bytes).ok()
}

/// The bytes of a string.
pub fn bytes_of_text(s: &str) -> (r: Vec<u8>)
    ensures
        r@ == encode_utf8(s@),
{
    let b = s.as_bytes();
    let r = copy_range(b, 0, b.len());
    assert(b@.subrange(0, b@.len() as int) =~= b@);
    r
}

/// The string that `bytes[from..to]` spell.
pub fn text_of_range(bytes: &[u8], from: usize, to: usize) -> (r: Result<String, DecodeError>)
    requires
        from <= to <= bytes.len(),
    ensures
        match r {
            Ok(s) => valid_utf8(bytes@.subrange(from as int, to as int)) && s@ == decode_utf8(
                bytes@.subrange(from as int, to as int),
            ),
            Err(e) => e == DecodeError::InvalidUtf8 && !valid_utf8(
                bytes@.subrange(from as int, to as int),
            ),
        },
{
    match string_from_utf8(copy_range(bytes, from, to)) {
        Some(s) => Ok(s),
        None => Err(DecodeError::InvalidUtf8),
    }
}

/// A string takes at most four bytes for each of its characters.
pub proof fn lemma_text_len(chars: Seq<char>)
    ensures
        encode_utf8(chars).len() <= 4 * chars.len(),
    decreases chars.len(),
{
    if chars.len() > 0 {
        lemma_text_len(chars.drop_first());
    }
}

/// Reading back the bytes of a string gives the string.
pub proof fn lemma_text_roundtrip(chars: Seq<char>)
    ensures
        valid_utf8(encode_utf8(chars)),
        decode_utf8(encode_utf8(chars)) == chars,
{
    vstd::utf8::encode_utf8_valid_utf8(chars);
    vstd::utf8::encode_utf8_decode_utf8(chars);
}

impl Value {
    /// The value of a string.
    pub fn text(s: &str) -> (v: Value)
        ensures
            v@ == Val::Binary(encode_utf8(s@)),
    {
        Value::Binary(bytes_of_text(s))
    }

    /// The string that a value spells: `Ok` for a binary of valid UTF-8,
    /// `InvalidUtf8` for any other binary, `BadType` for a value that is no
    /// binary.
    pub fn as_text(&self) -> (r: Result<String, DecodeError>)
        ensures
            match r {
                Ok(s) => self@ matches Val::Binary(b) && valid_utf8(b) && s@ == decode_utf8(b),
                Err(e) => match self@ {
                    Val::Binary(b) => e == DecodeError::InvalidUtf8 && !valid_utf8(b),
                    _ => e == DecodeError::BadType,
                },
            },
    {
        match self {
            Value::Binary(b) => {
                assert(b@.subrange(0, b@.len() as int) =~= b@);
                text_of_range(b.as_slice(), 0, b.len())
            },
            _ => Err(DecodeError::BadType),
        }
    }
}

} // verus!
