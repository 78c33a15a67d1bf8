//! From 16-bit code points to text.
//!
//! Each code point becomes one `char`. A surrogate is no `char`, so a
//! sequence that holds one has no text.

use crate::name::NameError;
use vstd::prelude::*;

verus! {

/// `core::char::from_u32`: the `char` with the given number, or `None` where
/// the number is a surrogate or lies above `0x10FFFF`.
pub assume_specification[ core::char::from_u32 ](i: u32) -> (c: Option<char>)
    ensures
        c == if i < 0xD800 || 0xDFFF < i <= 0x10FFFF {
            Some(i as char)
        } else {
            None
        },
;

/// `String::push`: appends one `char` to the end of the string.
pub assume_specification[ String::push ](s: &mut String, ch: char)
    ensures
        final(s)@ == old(s)@.push(ch),
;

/// Whether a code point is a Unicode scalar value, that is no surrogate.
pub open spec fn is_scalar(point: u16) -> bool {
    point < 0xD800 || 0xDFFF < point
}

/// Whether every one of `points` is a scalar value.
pub open spec fn all_scalar(points: Seq<u16>) -> bool {
    forall|i: int| 0 <= i < points.len() ==> is_scalar(#[trigger] points[i])
}

/// The text that holds one `char` for each of `points`, in order.
pub open spec fn text_of(points: Seq<u16>) -> Result<Seq<char>, NameError> {
    if all_scalar(points) {
        Ok(Seq::new(points.len(), |i: int| points[i] as char))
    } else {
        Err(NameError::NotScalar)
    }
}

/// Whether `points` holds the backslash, the path separator.
pub open spec fn has_backslash(points: Seq<u16>) -> bool {
    exists|i: int| 0 <= i < points.len() && #[trigger] points[i] == 0x5C
}

/// Turns code points into text, one `char` for each.
pub fn code_points_to_string(points: &[u16]) -> (r: Result<String, NameError>)
    ensures
        match r {
            Ok(text) => text_of(points@) == Ok::<Seq<char>, NameError>(text@),
            Err(e) => text_of(points@) == Err::<Seq<char>, NameError>(e),
        },
{
    let mut text = String::new();
    let mut n: usize = 0;
    while n < points.len()
        invariant
            n <= points@.len(),
            all_scalar(points@.subrange(0, n as int)),
            text@ == Seq::new(n as nat, |i: int| points@[i] as char),
        decreases points@.len() - n,
    {
        match core::char::from_u32(points[n] as u32) {
            None => {
                assert(!is_scalar(points@[n as int]));
                return Err(NameError::NotScalar);
            },
            Some(ch) => {
                text.push(ch);
            },
        }
        n += 1;
        assert forall|i: int| 0 <= i < n implies is_scalar(
            #[trigger] points@.subrange(0, n as int)[i],
        ) by {
            if i < n - 1 {
                assert(points@.subrange(0, n - 1)[i] == points@[i]);
            }
        }
    }
    assert(points@.subrange(0, n as int) =~= points@);
    Ok(text)
}

/// Tells whether a backslash is among `points`.
pub fn contains_backslash(points: &[u16]) -> (found: bool)
    ensures
        found == has_backslash(points@),
{
    let mut n: usize = 0;
    while n < points.len()
        invariant
            n <= points@.len(),
            forall|i: int| 0 <= i < n ==> points@[i] != 0x5C,
        decreases points@.len() - n,
    {
        if points[n] == 0x5C {
            return true;
        }
        n += 1;
    }
    false
}

/// A text holds the backslash exactly where its code points do.
pub proof fn lemma_backslash_in_text(points: Seq<u16>)
    requires
        all_scalar(points),
    ensures
        text_of(points)->Ok_0.contains('\\') <==> has_backslash(points),
{
    let text = text_of(points)->Ok_0;
    if has_backslash(points) {
        let i = choose|i: int| 0 <= i < points.len() && #[trigger] points[i] == 0x5C;
        assert(text[i] == '\\');
    }
    if text.contains('\\') {
        let i = choose|i: int| 0 <= i < text.len() && text[i] == '\\';
        assert(is_scalar(points[i]));
        assert(points[i] == 0x5C);
    }
}

} // verus!
