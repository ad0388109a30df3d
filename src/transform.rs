use vstd::prelude::*;
use vstd::utf8::*;

use crate::error::UwuError;

verus! {

broadcast use {encode_utf8_decode_utf8, decode_utf8_encode_utf8, encode_utf8_valid_utf8};

/// What `uwuifier::uwuify_sse` makes of a byte string. The transform is
/// deterministic: its pseudo-random choices come from a fixed seed.
pub uninterp spec fn uwu_of(b: Seq<u8>) -> Seq<u8>;

/// `n` rounded up to a multiple of 16.
pub open spec fn round16(n: nat) -> nat {
    ((n + 15) / 16 * 16) as nat
}

/// The size of each scratch buffer for a span of `n` bytes: the transform's
/// worst-case expansion.
pub open spec fn capacity(n: nat) -> nat {
    round16(n) * 16
}

/// The outcome of transforming the text `t`.
pub open spec fn transform_model(t: Seq<char>) -> Result<Seq<char>, UwuError> {
    let b = encode_utf8(t);
    if capacity(b.len()) > usize::MAX {
        Err(UwuError::BufferBound)
    } else if valid_utf8(uwu_of(b)) {
        Ok(decode_utf8(uwu_of(b)))
    } else {
        Err(UwuError::NotUtf8)
    }
}

pub assume_specification[ uwuifier::round_up16 ](n: usize) -> (r: usize)
    requires
        n + 15 <= usize::MAX,
    ensures
        r == round16(n as nat),
;

/// Relies on `uwuifier::uwuify_sse`: with both buffers at least
/// `round_up16(len) * 16` bytes long (it asserts so), it returns the transformed
/// bytes as a prefix of the second buffer, as a function of the input alone.
/// It panics on a processor without SSE4.1, which no precondition can rule out.
#[verifier::external_body]
fn uwuify_bytes(b: &[u8], temp1: &mut Vec<u8>, temp2: &mut Vec<u8>) -> (r: Vec<u8>)
    requires
        old(temp1)@.len() >= capacity(b@.len()),
        old(temp2)@.len() >= capacity(b@.len()),
    ensures
        r@ == uwu_of(b@),
        r@.len() <= old(temp2)@.len(),
{
    uwuifier::uwuify_sse(b, temp1, temp2).to_vec()
}

/// Relies on `String::from_utf8`: it accepts exactly the valid UTF-8 byte
/// strings and keeps the characters they encode.
#[verifier::external_body]
fn string_from_utf8(v: Vec<u8>) -> (r: Option<String>)
    ensures
        match r {
            Some(s) => valid_utf8(v@) && s@ == decode_utf8(v@),
            None => !valid_utf8(v@),
        },
{
    String::from_utf8(v).ok()
}

/// The size of each scratch buffer for a span of `n` bytes, or `None` where it
/// does not fit in `usize`.
pub fn buffer_len(n: usize) -> (r: Option<usize>)
    ensures
        match r {
            Some(c) => c == capacity(n as nat),
            None => capacity(n as nat) > usize::MAX,
        },
{
    if n > usize::MAX - 15 {
        assert(capacity(n as nat) > usize::MAX) by (nonlinear_arith)
            requires
                n + 15 > usize::MAX,
                capacity(n as nat) == ((n + 15) / 16 * 16) as nat * 16,
        ;
        return None;
    }
    let r = uwuifier::round_up16(n);
    if r > usize::MAX / 16 {
        return None;
    }
    Some(r * 16)
}

/// Transforms one run of text. The transformed bytes never exceed the
/// scratch buffer that the span was given.
pub fn transform_text(s: &str) -> (r: Result<String, UwuError>)
    ensures
        match r {
            Ok(o) => transform_model(s@) == Ok::<Seq<char>, UwuError>(o@),
            Err(e) => transform_model(s@) == Err::<Seq<char>, UwuError>(e),
        },
        r is Ok ==> encode_utf8(r->Ok_0@).len() <= capacity(encode_utf8(s@).len()),
{
    let b = s.as_bytes();
    let cap = match buffer_len(b.len()) {
        Some(c) => c,
        None => return Err(UwuError::BufferBound),
    };
    let mut temp1: Vec<u8> = vec![0u8; cap];
    let mut temp2: Vec<u8> = vec![0u8; cap];
    let out = uwuify_bytes(b, &mut temp1, &mut temp2);
    match string_from_utf8(out) {
        Some(t) => Ok(t),
        None => Err(UwuError::NotUtf8),
    }
}

} // verus!
