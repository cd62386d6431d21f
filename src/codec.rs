//! The stored form of a value in the embedded log: a tag byte, then the payload.
use vstd::prelude::*;
use vstd::utf8::{decode_utf8, encode_utf8, valid_utf8};

use crate::error::KvError;
use crate::pb::{Value, ValueView};

verus! {

broadcast use vstd::utf8::encode_utf8_decode_utf8;

/// The eight big-endian bytes of `x`.
pub open spec fn be64(x: u64) -> Seq<u8> {
    seq![
        (x >> 56u64) as u8,
        (x >> 48u64) as u8,
        (x >> 40u64) as u8,
        (x >> 32u64) as u8,
        (x >> 24u64) as u8,
        (x >> 16u64) as u8,
        (x >> 8u64) as u8,
        x as u8,
    ]
}

/// The integer whose big-endian bytes are `b[0..8]`.
pub open spec fn from_be64(b: Seq<u8>) -> u64 {
    ((b[0] as u64) << 56u64) | ((b[1] as u64) << 48u64) | ((b[2] as u64) << 40u64) | ((b[3] as u64)
        << 32u64) | ((b[4] as u64) << 24u64) | ((b[5] as u64) << 16u64) | ((b[6] as u64) << 8u64) | (
    b[7] as u64)
}

proof fn lemma_be64_round_trip(x: u64)
    ensures
        from_be64(be64(x)) == x,
{
    let b = be64(x);
    let (b0, b1, b2, b3, b4, b5, b6, b7) = (b[0], b[1], b[2], b[3], b[4], b[5], b[6], b[7]);
    assert(b0 == (x >> 56u64) as u8 && b1 == (x >> 48u64) as u8 && b2 == (x >> 40u64) as u8 && b3
        == (x >> 32u64) as u8 && b4 == (x >> 24u64) as u8 && b5 == (x >> 16u64) as u8 && b6 == (x
        >> 8u64) as u8 && b7 == x as u8);
    assert(((b0 as u64) << 56u64) | ((b1 as u64) << 48u64) | ((b2 as u64) << 40u64) | ((b3 as u64)
        << 32u64) | ((b4 as u64) << 24u64) | ((b5 as u64) << 16u64) | ((b6 as u64) << 8u64) | (
    b7 as u64) == x) by (bit_vector)
        requires
            b0 == (x >> 56u64) as u8 && b1 == (x >> 48u64) as u8 && b2 == (x >> 40u64) as u8 && b3
                == (x >> 32u64) as u8 && b4 == (x >> 24u64) as u8 && b5 == (x >> 16u64) as u8 && b6
                == (x >> 8u64) as u8 && b7 == x as u8,
    ;
}

pub fn push_be64(out: &mut Vec<u8>, x: u64)
    ensures
        final(out)@ == old(out)@ + be64(x),
{
    out.push((x >> 56u64) as u8);
    out.push((x >> 48u64) as u8);
    out.push((x >> 40u64) as u8);
    out.push((x >> 32u64) as u8);
    out.push((x >> 24u64) as u8);
    out.push((x >> 16u64) as u8);
    out.push((x >> 8u64) as u8);
    out.push(x as u8);
    assert(final(out)@ =~= old(out)@ + be64(x));
}

pub fn read_be64(b: &[u8], at: usize) -> (r: u64)
    requires
        at + 8 <= b@.len(),
    ensures
        r == from_be64(b@.subrange(at as int, at + 8)),
{
    ((b[at] as u64) << 56u64) | ((b[at + 1] as u64) << 48u64) | ((b[at + 2] as u64) << 40u64) | ((
    b[at + 3] as u64) << 32u64) | ((b[at + 4] as u64) << 24u64) | ((b[at + 5] as u64) << 16u64) | ((
    b[at + 6] as u64) << 8u64) | (b[at + 7] as u64)
}

pub const TAG_EMPTY: u8 = 0;
pub const TAG_STRING: u8 = 1;
pub const TAG_INTEGER: u8 = 2;
pub const TAG_FLOAT: u8 = 3;
pub const TAG_BOOL: u8 = 4;
pub const TAG_BINARY: u8 = 5;

/// The stored form of a value: a tag byte, then the payload.
pub open spec fn value_bytes(v: ValueView) -> Seq<u8> {
    match v {
        ValueView::Empty => seq![TAG_EMPTY],
        ValueView::String(s) => seq![TAG_STRING] + encode_utf8(s),
        ValueView::Integer(i) => seq![TAG_INTEGER] + be64(i as u64),
        ValueView::Float(f) => seq![TAG_FLOAT] + be64(f),
        ValueView::Bool(b) => seq![TAG_BOOL, if b { 1u8 } else { 0u8 }],
        ValueView::Binary(b) => seq![TAG_BINARY] + b,
    }
}

/// What a stored form reads back as; `None` for bytes that no value is stored as.
pub open spec fn value_of_bytes(b: Seq<u8>) -> Option<ValueView> {
    if b.len() == 0 {
        None
    } else {
        let rest = b.drop_first();
        if b[0] == TAG_EMPTY && rest.len() == 0 {
            Some(ValueView::Empty)
        } else if b[0] == TAG_STRING && valid_utf8(rest) {
            Some(ValueView::String(decode_utf8(rest)))
        } else if b[0] == TAG_INTEGER && rest.len() == 8 {
            Some(ValueView::Integer(from_be64(rest) as i64))
        } else if b[0] == TAG_FLOAT && rest.len() == 8 {
            Some(ValueView::Float(from_be64(rest)))
        } else if b[0] == TAG_BOOL && rest.len() == 1 && rest[0] <= 1 {
            Some(ValueView::Bool(rest[0] == 1))
        } else if b[0] == TAG_BINARY {
            Some(ValueView::Binary(rest))
        } else {
            None
        }
    }
}

/// Relies on std's `String::from_utf8`: it succeeds exactly on valid UTF-8 and then
/// holds the decoded characters.
#[verifier::external_body]
fn string_from_utf8(b: Vec<u8>) -> (r: Option<String>)
    ensures
        r matches Some(s) ==> valid_utf8(b@) && s@ == decode_utf8(b@),
        r is None ==> !valid_utf8(b@),
{
    String::from_utf8(b).ok()
}

/// The stored form of `v`.
pub fn encode_value(v: &Value) -> (r: Vec<u8>)
    ensures
        r@ == value_bytes(v@),
{
    let mut out: Vec<u8> = Vec::new();
    match v {
        Value::Empty => {
            out.push(TAG_EMPTY);
        },
        Value::String(s) => {
            out.push(TAG_STRING);
            let b = s.as_str().as_bytes();
            let mut i: usize = 0;
            while i < b.len()
                invariant
                    i <= b@.len(),
                    b@ == encode_utf8(s@),
                    out@ == seq![TAG_STRING] + b@.subrange(0, i as int),
                decreases b@.len() - i,
            {
                out.push(b[i]);
                i = i + 1;
                assert(out@ =~= seq![TAG_STRING] + b@.subrange(0, i as int));
            }
            assert(b@.subrange(0, b@.len() as int) =~= b@);
        },
        Value::Integer(x) => {
            out.push(TAG_INTEGER);
            push_be64(&mut out, *x as u64);
        },
        Value::Float(f) => {
            out.push(TAG_FLOAT);
            push_be64(&mut out, *f);
        },
        Value::Bool(x) => {
            out.push(TAG_BOOL);
            out.push(if *x { 1u8 } else { 0u8 });
        },
        Value::Binary(b) => {
            out.push(TAG_BINARY);
            let mut i: usize = 0;
            while i < b.len()
                invariant
                    i <= b@.len(),
                    out@ == seq![TAG_BINARY] + b@.subrange(0, i as int),
                decreases b@.len() - i,
            {
                out.push(b[i]);
                i = i + 1;
                assert(out@ =~= seq![TAG_BINARY] + b@.subrange(0, i as int));
            }
            assert(b@.subrange(0, b@.len() as int) =~= b@);
        },
    }
    assert(out@ =~= value_bytes(v@));
    out
}

/// Reads a value back from its stored form; bytes that hold no value give a `ConvertError`.
pub fn decode_value(b: &Vec<u8>) -> (r: Result<Value, KvError>)
    ensures
        r matches Ok(v) ==> value_of_bytes(b@) == Some(v@),
        r matches Err(e) ==> value_of_bytes(b@) is None && e is ConvertError,
{
    let n = b.len();
    if n == 0 {
        return Err(convert_error());
    }
    let tag = b[0];
    let ghost rest = b@.drop_first();
    if tag == TAG_EMPTY && n == 1 {
        Ok(Value::Empty)
    } else if tag == TAG_STRING {
        let mut tail: Vec<u8> = Vec::new();
        let mut i: usize = 1;
        while i < n
            invariant
                1 <= i <= n,
                n == b@.len(),
                tail@ == b@.subrange(1, i as int),
            decreases n - i,
        {
            tail.push(b[i]);
            i = i + 1;
            assert(tail@ =~= b@.subrange(1, i as int));
        }
        assert(tail@ =~= rest);
        match string_from_utf8(tail) {
            Some(s) => Ok(Value::String(s)),
            None => Err(convert_error()),
        }
    } else if tag == TAG_INTEGER && n == 9 {
        let x = read_be64(b.as_slice(), 1);
        assert(b@.subrange(1, 9) =~= rest);
        Ok(Value::Integer(x as i64))
    } else if tag == TAG_FLOAT && n == 9 {
        let x = read_be64(b.as_slice(), 1);
        assert(b@.subrange(1, 9) =~= rest);
        Ok(Value::Float(x))
    } else if tag == TAG_BOOL && n == 2 && b[1] <= 1 {
        Ok(Value::Bool(b[1] == 1))
    } else if tag == TAG_BINARY {
        let mut tail: Vec<u8> = Vec::new();
        let mut i: usize = 1;
        while i < n
            invariant
                1 <= i <= n,
                n == b@.len(),
                tail@ == b@.subrange(1, i as int),
            decreases n - i,
        {
            tail.push(b[i]);
            i = i + 1;
            assert(tail@ =~= b@.subrange(1, i as int));
        }
        assert(tail@ =~= rest);
        Ok(Value::Binary(tail))
    } else {
        Err(convert_error())
    }
}

fn convert_error() -> (e: KvError)
    ensures
        e is ConvertError,
{
    KvError::ConvertError(String::from_str("stored bytes"), String::from_str("Value"))
}

/// Reading back the stored form of any value gives that value.
pub proof fn lemma_value_round_trip(v: ValueView)
    ensures
        value_of_bytes(value_bytes(v)) == Some(v),
{
    let b = value_bytes(v);
    let rest = b.drop_first();
    match v {
        ValueView::Empty => {},
        ValueView::String(s) => {
            assert(rest =~= encode_utf8(s));
            vstd::utf8::encode_utf8_valid_utf8(s);
        },
        ValueView::Integer(i) => {
            assert(rest =~= be64(i as u64));
            lemma_be64_round_trip(i as u64);
            assert((i as u64) as i64 == i) by (bit_vector);
        },
        ValueView::Float(f) => {
            assert(rest =~= be64(f));
            lemma_be64_round_trip(f);
        },
        ValueView::Bool(x) => {},
        ValueView::Binary(x) => {
            assert(rest =~= x);
        },
    }
}

} // verus!
