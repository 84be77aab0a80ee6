//! `import`: the summary it prints.

use vstd::prelude::*;
use crate::text::{owned, push_char, take_chars};

verus! {

/// `s` cut to `max` chars with an ellipsis as the last one when cut (a
/// bare ellipsis when `max` is 0).
pub open spec fn clipped(s: Seq<char>, max: int) -> Seq<char> {
    if s.len() <= max {
        s
    } else {
        s.take(if max >= 1 { max - 1 } else { 0 }).push('…')
    }
}

pub fn truncate(s: &str, max: usize) -> (r: String)
    ensures
        r@ == clipped(s@, max as int),
{
    if s.unicode_len() <= max {
        return owned(s);
    }
    let keep = if max >= 1 {
        max - 1
    } else {
        0
    };
    let mut out = take_chars(s, keep);
    push_char(&mut out, '…');
    out
}

} // verus!
