//! Small executable helpers over strings and characters.
//!
//! The rest of the crate states its contracts over `Seq<char>` views; the
//! functions here bridge those views to the executable `String` and `&str`
//! operations that the parser needs.

use vstd::prelude::*;

verus! {

/// The view of an optional owned string, as an optional character sequence.
pub open spec fn opt_view(o: Option<String>) -> Option<Seq<char>> {
    match o {
        Some(s) => Some(s@),
        None => None,
    }
}

/// Compare two string slices by contents.
pub fn str_eq(a: &str, b: &str) -> (r: bool)
    ensures
        r == (a@ == b@),
{
    let x: String = a.to_owned();
    let y: String = b.to_owned();
    x.eq(&y)
}

/// Compare two optional owned strings by contents.
pub fn opt_str_eq(a: &Option<String>, b: &Option<String>) -> (r: bool)
    ensures
        r == (opt_view(*a) == opt_view(*b)),
{
    match (a, b) {
        (Some(x), Some(y)) => x.eq(y),
        (None, None) => true,
        _ => {
            proof {
                assert(opt_view(*a) != opt_view(*b));
            }
            false
        },
    }
}

/// Compare two optional characters.
pub fn opt_char_eq(a: &Option<char>, b: &Option<char>) -> (r: bool)
    ensures
        r == (*a == *b),
{
    match (a, b) {
        (Some(x), Some(y)) => *x == *y,
        (None, None) => true,
        _ => false,
    }
}

/// Relies on `String::push`: appends the given character to the end of the
/// string.
#[verifier::external_body]
pub fn push_char(s: &mut String, c: char)
    ensures
        final(s)@ == old(s)@.push(c),
{
    s.push(c)
}

/// True when the string holds exactly the one given character.
pub fn str_is_char(key: &str, c: char) -> (r: bool)
    ensures
        r == (key@ == seq![c]),
{
    if key.unicode_len() == 1 {
        let k = key.get_char(0);
        if k == c {
            proof {
                assert(key@ =~= seq![c]);
            }
            true
        } else {
            proof {
                assert(key@ != seq![c]) by {
                    assert(key@[0] != seq![c][0]);
                }
            }
            false
        }
    } else {
        false
    }
}

} // verus!
