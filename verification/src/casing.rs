//! Unicode case mapping, relied upon from the standard library, and the
//! three per-word transforms that the conventions apply.

use vstd::prelude::*;

verus! {

/// The character sequence that `str::to_lowercase` returns for `s`.
pub uninterp spec fn lower_of(s: Seq<char>) -> Seq<char>;

/// The character sequence that `str::to_uppercase` returns for `s`.
pub uninterp spec fn upper_of(s: Seq<char>) -> Seq<char>;

/// The character sequence that `char::to_uppercase` yields for `c`.
pub uninterp spec fn char_upper_of(c: char) -> Seq<char>;

/// Whether `char::is_uppercase` holds of `c`.
pub uninterp spec fn is_upper(c: char) -> bool;

/// Relies on `char::is_uppercase`: whether the character has the
/// Unicode uppercase property, a function of the character alone.
pub assume_specification[ char::is_uppercase ](c: char) -> (r: bool)
    ensures
        r == is_upper(c),
;

/// Relies on `str::to_lowercase`: the Unicode lowercase mapping of the
/// string, a function of its characters alone; an empty string maps to
/// an empty string.
pub assume_specification[ str::to_lowercase ](s: &str) -> (r: String)
    ensures
        r@ == lower_of(s@),
        s@.len() == 0 ==> r@.len() == 0,
;

/// Relies on `str::to_uppercase`: the Unicode uppercase mapping of the
/// string, a function of its characters alone; an empty string maps to
/// an empty string.
pub assume_specification[ str::to_uppercase ](s: &str) -> (r: String)
    ensures
        r@ == upper_of(s@),
        s@.len() == 0 ==> r@.len() == 0,
;

/// Relies on `char::to_uppercase`: the Unicode uppercase mapping of one
/// character, collected into a string, a function of the character
/// alone.
#[verifier::external_body]
fn char_uppercase(c: char) -> (r: String)
    ensures
        r@ == char_upper_of(c),
{
    c.to_uppercase().to_string()
}

/// The per-word transform a convention applies to each detected word.
#[derive(Clone, Copy)]
pub enum Transform {
    Lower,
    Upper,
    Title,
}

/// Titlecase of a word: the uppercase mapping of its first character
/// followed by the lowercase mapping of the remainder; an empty word is
/// unchanged.
pub open spec fn title_of(w: Seq<char>) -> Seq<char> {
    if w.len() == 0 {
        w
    } else {
        char_upper_of(w[0]) + lower_of(w.subrange(1, w.len() as int))
    }
}

/// What `transform_word` returns for a word `w` under transform `t`.
pub open spec fn apply_transform(w: Seq<char>, t: Transform) -> Seq<char> {
    match t {
        Transform::Lower => lower_of(w),
        Transform::Upper => upper_of(w),
        Transform::Title => title_of(w),
    }
}

/// Lowercase every character of the word.
pub(crate) fn to_lowercase(s: &str) -> (r: String)
    ensures
        r@ == lower_of(s@),
        s@.len() == 0 ==> r@.len() == 0,
{
    s.to_lowercase()
}

/// Uppercase every character of the word.
pub(crate) fn to_uppercase(s: &str) -> (r: String)
    ensures
        r@ == upper_of(s@),
        s@.len() == 0 ==> r@.len() == 0,
{
    s.to_uppercase()
}

/// Uppercase the first character of the word and lowercase the rest; an
/// empty word stays empty.
pub(crate) fn to_titlecase(s: &str) -> (r: String)
    ensures
        r@ == title_of(s@),
        s@.len() == 0 ==> r@.len() == 0,
{
    let l = s.unicode_len();
    if l == 0 {
        String::new()
    } else {
        let fu = char_uppercase(s.get_char(0));
        let rl = s.substring_char(1, l).to_lowercase();
        fu.concat(rl.as_str())
    }
}

/// Apply the transform `t` to the word `w`.
pub(crate) fn transform_word(w: &str, t: Transform) -> (r: String)
    ensures
        r@ == apply_transform(w@, t),
        w@.len() == 0 ==> r@.len() == 0,
{
    match t {
        Transform::Lower => to_lowercase(w),
        Transform::Upper => to_uppercase(w),
        Transform::Title => to_titlecase(w),
    }
}

} // verus!
