use vstd::prelude::*;
use vstd::utf8::*;

use crate::book::{process, seq_outcome, seq_rewritten, BookItem};
use crate::error::UwuError;

verus! {

broadcast use encode_utf8_decode_utf8;

/// The preprocessor's name, as the host tool knows it.
pub const NAME: &'static str = "uwuify";

/// The one renderer name that the preprocessor declines.
pub const UNSUPPORTED_RENDERER: &'static str = "not-supported";

/// Whether two strings hold the same characters.
pub fn str_eq(a: &str, b: &str) -> (r: bool)
    ensures
        r == (a@ == b@),
{
    let x = a.as_bytes();
    let y = b.as_bytes();
    assert(x@ == encode_utf8(a@) && y@ == encode_utf8(b@));
    if x.len() != y.len() {
        assert(x@.len() != y@.len());
        return false;
    }
    let mut i: usize = 0;
    while i < x.len()
        invariant
            x@.len() == y@.len(),
            x@ == encode_utf8(a@),
            y@ == encode_utf8(b@),
            i <= x@.len(),
            forall|j: int| 0 <= j < i ==> x@[j] == y@[j],
        decreases x@.len() - i,
    {
        if x[i] != y[i] {
            assert(x@[i as int] != y@[i as int]);
            return false;
        }
        i = i + 1;
    }
    assert(x@ =~= y@);
    assert(decode_utf8(encode_utf8(a@)) == a@);
    assert(decode_utf8(encode_utf8(b@)) == b@);
    true
}

/// A preprocessor that rewrites the prose of every chapter in uwu speak.
pub struct UwUifier;

impl UwUifier {
    pub fn new() -> (r: UwUifier) {
        UwUifier
    }

    /// The name under which the host tool calls this preprocessor.
    pub fn name(&self) -> (r: &'static str)
        ensures
            r@ == NAME@,
    {
        NAME
    }

    /// Every renderer is supported but the one reserved name.
    pub fn supports_renderer(&self, renderer: &str) -> (r: bool)
        ensures
            r == (renderer@ != UNSUPPORTED_RENDERER@),
    {
        !str_eq(renderer, UNSUPPORTED_RENDERER)
    }

    /// Rewrites every chapter of the book in place, depth first and in order,
    /// and stops at the first failure, leaving the later items untouched.
    pub fn run(&self, sections: &mut Vec<BookItem>) -> (r: Result<(), UwuError>)
        ensures
            seq_rewritten(old(sections)@, final(sections)@),
            r == seq_outcome(old(sections)@),
    {
        let mut taken: Vec<BookItem> = Vec::new();
        std::mem::swap(sections, &mut taken);
        let (done, r) = process(taken);
        let mut done = done;
        std::mem::swap(sections, &mut done);
        r
    }
}

} // verus!
