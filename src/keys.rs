use vstd::prelude::*;
use crate::text::{chars_of, same_text};

verus! {

/// A key the synthesis backend can press: a named control or modifier key,
/// or the key that types a character.
#[derive(Clone, Copy, Debug, PartialEq, Eq, Structural, Hash)]
pub enum KeyCode {
    Escape,
    Delete,
    Shift,
    Control,
    Alt,
    Meta,
    Unicode(char),
}

/// What `str::to_uppercase` gives for `s`.
pub uninterp spec fn upper_of(s: Seq<char>) -> Seq<char>;

/// What `str::to_lowercase` gives for `s`.
pub uninterp spec fn lower_of(s: Seq<char>) -> Seq<char>;

/// Relies on `str::to_uppercase`: the Unicode upper case of the text, which
/// depends on the characters alone.
#[verifier::external_body]
fn to_upper(s: &str) -> (r: String)
    ensures
        r@ == upper_of(s@),
{
    s.to_uppercase()
}

/// Relies on `str::to_lowercase`: the Unicode lower case of the text, which
/// depends on the characters alone.
#[verifier::external_body]
fn to_lower(s: &str) -> (r: String)
    ensures
        r@ == lower_of(s@),
{
    s.to_lowercase()
}

/// The key named by a key name whose upper case is `upper`: `ESC`, `DEL`,
/// `SHIFT`, `CTRL`, `ALT` and `META` name control keys; any other name
/// stands for the first character of `lower`, the lower case of `upper`.
/// Only an empty name names no key.
pub open spec fn key_code_spec(upper: Seq<char>, lower: Seq<char>) -> Option<KeyCode> {
    if upper == seq!['E', 'S', 'C'] {
        Some(KeyCode::Escape)
    } else if upper == seq!['D', 'E', 'L'] {
        Some(KeyCode::Delete)
    } else if upper == seq!['S', 'H', 'I', 'F', 'T'] {
        Some(KeyCode::Shift)
    } else if upper == seq!['C', 'T', 'R', 'L'] {
        Some(KeyCode::Control)
    } else if upper == seq!['A', 'L', 'T'] {
        Some(KeyCode::Alt)
    } else if upper == seq!['M', 'E', 'T', 'A'] {
        Some(KeyCode::Meta)
    } else if lower.len() > 0 {
        Some(KeyCode::Unicode(lower[0]))
    } else {
        None
    }
}

/// The key a symbolic key name stands for, compared case-insensitively.
pub open spec fn key_code_of(key: Seq<char>) -> Option<KeyCode> {
    key_code_spec(upper_of(key), lower_of(upper_of(key)))
}

/// Maps an upper-cased key name and its lower case to a key, as
/// [`key_code_spec`] says.
pub fn key_code_from(upper: &str, lower: &str) -> (r: Option<KeyCode>)
    ensures
        r == key_code_spec(upper@, lower@),
{
    let u = chars_of(upper);
    if same_text(&u, &vec!['E', 'S', 'C']) {
        Some(KeyCode::Escape)
    } else if same_text(&u, &vec!['D', 'E', 'L']) {
        Some(KeyCode::Delete)
    } else if same_text(&u, &vec!['S', 'H', 'I', 'F', 'T']) {
        Some(KeyCode::Shift)
    } else if same_text(&u, &vec!['C', 'T', 'R', 'L']) {
        Some(KeyCode::Control)
    } else if same_text(&u, &vec!['A', 'L', 'T']) {
        Some(KeyCode::Alt)
    } else if same_text(&u, &vec!['M', 'E', 'T', 'A']) {
        Some(KeyCode::Meta)
    } else if lower.unicode_len() > 0 {
        Some(KeyCode::Unicode(lower.get_char(0)))
    } else {
        None
    }
}

/// The key a symbolic key name stands for; see [`key_code_of`].
pub fn key_code(key: &str) -> (r: Option<KeyCode>)
    ensures
        r == key_code_of(key@),
{
    let upper = to_upper(key);
    let lower = to_lower(upper.as_str());
    key_code_from(upper.as_str(), lower.as_str())
}

} // verus!
