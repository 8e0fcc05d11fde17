use vstd::prelude::*;
use crate::text::{chars_of, same_text};

verus! {

/// Whether a freshly sampled foreground window title differs from the one
/// stored, so that a change must be announced.
pub fn window_title_changed(stored: &str, sampled: &str) -> (r: bool)
    ensures
        r == (stored@ != sampled@),
{
    let a = chars_of(stored);
    let b = chars_of(sampled);
    !same_text(&a, &b)
}

} // verus!
