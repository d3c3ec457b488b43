//! Reply values as the routing core reads them, and the decoding of a packed
//! frame into such a value.

use vstd::prelude::*;

verus! {

#[verifier::external_type_specification]
#[verifier::external_body]
pub struct ExValue(redis::Value);

/// A protocol value: what a node answers, and also what a packed command
/// decodes to (an array of bulk strings).
#[derive(Debug, PartialEq, Eq)]
pub enum Reply {
    /// The nil value.
    Nil,
    /// An integer.
    Int(i64),
    /// A bulk string: arbitrary bytes.
    Data(Vec<u8>),
    /// An array of values.
    Bulk(Vec<Reply>),
    /// A status line other than `OK`.
    Status(String),
    /// The status line `OK`.
    Okay,
}

/// What `redis::parse_redis_value` makes of a byte string: `None` where it
/// reports an error, and otherwise the value it returns, variant by variant.
pub uninterp spec fn decoded(bytes: Seq<u8>) -> Option<Reply>;

/// Turns a `redis::Value` into a `Reply`, each variant into the variant of
/// the same name with the same fields, arrays element by element. Nothing
/// is claimed of the result here; `decode` names it.
#[verifier::external_body]
fn reply_of_value(value: redis::Value) -> Reply {
    match value {
        redis::Value::Nil => Reply::Nil,
        redis::Value::Int(number) => Reply::Int(number),
        redis::Value::Data(bytes) => Reply::Data(bytes),
        redis::Value::Bulk(items) => Reply::Bulk(items.into_iter().map(reply_of_value).collect()),
        redis::Value::Status(line) => Reply::Status(line),
        redis::Value::Okay => Reply::Okay,
    }
}

/// Decodes one value from the front of `bytes` with
/// `redis::parse_redis_value`. The parser reads nothing but its argument, so
/// its outcome is a function of the bytes; the contract gives that function
/// the name `decoded` and claims nothing else of it.
#[verifier::external_body]
pub(crate) fn decode(bytes: &[u8]) -> (reply: Option<Reply>)
    ensures
        reply == decoded(bytes@),
{
    redis::parse_redis_value(bytes).ok().map(reply_of_value)
}

/// The first argument of a decoded command: the second element of the
/// array, provided that the value is an array of at least two elements and
/// that element is a bulk string.
pub open spec fn first_argument(reply: Option<Reply>) -> Option<Seq<u8>> {
    match reply {
        Some(Reply::Bulk(args)) => if args@.len() >= 2 {
            match args@[1] {
                Reply::Data(key) => Some(key@),
                _ => None,
            }
        } else {
            None
        },
        _ => None,
    }
}

/// Takes the first argument out of a decoded command.
pub fn take_first_argument(reply: Option<Reply>) -> (key: Option<Vec<u8>>)
    ensures
        match key {
            Some(bytes) => first_argument(reply) == Some(bytes@),
            None => first_argument(reply) is None,
        },
{
    match reply {
        Some(Reply::Bulk(mut args)) => {
            if args.len() >= 2 {
                match args.swap_remove(1) {
                    Reply::Data(key) => Some(key),
                    _ => None,
                }
            } else {
                None
            }
        },
        _ => None,
    }
}

} // verus!
