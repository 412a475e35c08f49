//! Verified Thrift wire codecs, transport framing, service multiplexing and
//! client-side call dispatch.
//!
//! The library never touches a socket. It turns values into bytes and bytes
//! into values, and it decides: what goes on the wire for a call, how much
//! to read next, what an answer means. Every function states what it
//! computes over a mathematical model of its data, and the laws that tie
//! the functions together are proved beside them:
//!
//! * [`value`] holds the values that travel, [`logical`] says when two of
//!   them mean the same;
//! * [`bytes`], [`zigzag`] and [`varint`] are the integer encodings;
//! * [`binary`] and [`compact`] are the two codecs, [`reading`] says what
//!   comes back from the compact codec, [`protocol`] is the choice between
//!   the two;
//! * [`message`] is the envelope of a message, [`multiplex`] the naming of
//!   services that share a connection;
//! * [`transport`] is buffering and framing;
//! * [`declared`] says where the strings of a value are, [`dispatch`] is
//!   the client side of a call, [`session`] a call from end to end;
//! * [`plan`] and [`cross_test`] are the cross-language test: its calls and
//!   its judgements; [`ordering`] is the order in which it sends its sets
//!   and maps.

pub mod binary;
pub mod bytes;
pub mod compact;
pub mod cross_test;
pub mod declared;
pub mod dispatch;
pub mod error;
pub mod logical;
pub mod message;
pub mod multiplex;
pub mod ordering;
pub mod plan;
pub mod protocol;
pub mod reading;
pub mod session;
pub mod text;
pub mod transport;
pub mod value;
pub mod varint;
pub mod zigzag;
