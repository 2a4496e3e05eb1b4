//! Convert compound words or phrases between naming conventions:
//! camelCase, PascalCase, snake_case, kebab-case and their screaming,
//! title and lower space-separated variants.
//!
//! Words are separated by detecting the delimiters hyphen (`-`),
//! underscore (`_`) and space (` `), and by letter case changes.
//! Leading and trailing delimiter runs are preserved only within the
//! Snake family or within the Kebab family, never across them.

pub mod casing;
pub mod laws;
pub mod render;
pub mod scan;

use vstd::prelude::*;

use crate::casing::Transform;
use crate::render::{casbab, casbab_separate, casbab_wrap, joined, wrapped};
use crate::scan::words_of;

verus! {

/// What `camel` returns: the words of `s`, the first lowercased, the
/// rest titlecased, concatenated with no separator.
pub open spec fn camel_spec(s: Seq<char>) -> Seq<char> {
    joined(words_of(s), Transform::Lower, Transform::Title, Seq::empty())
}

/// What `pascal` returns: every word of `s` titlecased, concatenated
/// with no separator.
pub open spec fn pascal_spec(s: Seq<char>) -> Seq<char> {
    joined(words_of(s), Transform::Title, Transform::Title, Seq::empty())
}

/// What `snake` returns: every word of `s` lowercased, joined by `_`,
/// wrapped in the leading and trailing `_` runs of the raw input.
pub open spec fn snake_spec(s: Seq<char>) -> Seq<char> {
    wrapped(s, '_', Transform::Lower)
}

/// What `camel_snake` returns: every word titlecased, joined by `_`,
/// wrapped in the leading and trailing `_` runs of the raw input.
pub open spec fn camel_snake_spec(s: Seq<char>) -> Seq<char> {
    wrapped(s, '_', Transform::Title)
}

/// What `screaming_snake` returns: every word uppercased, joined by
/// `_`, wrapped in the leading and trailing `_` runs of the raw input.
pub open spec fn screaming_snake_spec(s: Seq<char>) -> Seq<char> {
    wrapped(s, '_', Transform::Upper)
}

/// What `kebab` returns: every word lowercased, joined by `-`, wrapped
/// in the leading and trailing `-` runs of the raw input.
pub open spec fn kebab_spec(s: Seq<char>) -> Seq<char> {
    wrapped(s, '-', Transform::Lower)
}

/// What `camel_kebab` returns: every word titlecased, joined by `-`,
/// wrapped in the leading and trailing `-` runs of the raw input.
pub open spec fn camel_kebab_spec(s: Seq<char>) -> Seq<char> {
    wrapped(s, '-', Transform::Title)
}

/// What `screaming_kebab` returns: every word uppercased, joined by
/// `-`, wrapped in the leading and trailing `-` runs of the raw input.
pub open spec fn screaming_kebab_spec(s: Seq<char>) -> Seq<char> {
    wrapped(s, '-', Transform::Upper)
}

/// What `lower` returns: every word lowercased, joined by one space.
pub open spec fn lower_spec(s: Seq<char>) -> Seq<char> {
    joined(words_of(s), Transform::Lower, Transform::Lower, seq![' '])
}

/// What `title` returns: every word titlecased, joined by one space.
pub open spec fn title_spec(s: Seq<char>) -> Seq<char> {
    joined(words_of(s), Transform::Title, Transform::Title, seq![' '])
}

/// What `screaming` returns: every word uppercased, joined by one
/// space.
pub open spec fn screaming_spec(s: Seq<char>) -> Seq<char> {
    joined(words_of(s), Transform::Upper, Transform::Upper, seq![' '])
}

/// *Camel* case is the practice of writing compound words
/// or phrases such that each word or abbreviation in the
/// middle of the phrase begins with a capital letter,
/// with no spaces or hyphens.
///
/// Example: `camelSnakeKebab`.
pub fn camel(s: &str) -> (r: String)
    ensures
        r@ == camel_spec(s@),
{
    casbab(s, Transform::Title, Transform::Lower)
}

/// *Pascal* case is a variant of Camel case writing where
/// the first letter of the first word is always capitalized.
///
/// Example: `CamelSnakeKebab`.
pub fn pascal(s: &str) -> (r: String)
    ensures
        r@ == pascal_spec(s@),
{
    casbab(s, Transform::Title, Transform::Title)
}

/// *Snake* case is the practice of writing compound words
/// or phrases in which the elements are separated with
/// one underscore character (_) and no spaces, with all
/// element letters lowercased within the compound.
///
/// Example: `camel_snake_kebab`.
pub fn snake(s: &str) -> (r: String)
    ensures
        r@ == snake_spec(s@),
{
    casbab_wrap(s, '_', Transform::Lower)
}

/// *Camel snake* case is a variant of Camel case with
/// each element's first letter uppercased.
///
/// Example: `Camel_Snake_Kebab`.
pub fn camel_snake(s: &str) -> (r: String)
    ensures
        r@ == camel_snake_spec(s@),
{
    casbab_wrap(s, '_', Transform::Title)
}

/// *Screaming snake* case is a variant of Snake case with
/// all letters uppercased.
///
/// Example: `CAMEL_SNAKE_KEBAB`.
pub fn screaming_snake(s: &str) -> (r: String)
    ensures
        r@ == screaming_snake_spec(s@),
{
    casbab_wrap(s, '_', Transform::Upper)
}

/// *Kebab* case is the practice of writing compound words
/// or phrases in which the elements are separated with
/// one hyphen character (-) and no spaces, with all
/// element letters lowercased within the compound.
///
/// Example: `camel-snake-kebab`.
pub fn kebab(s: &str) -> (r: String)
    ensures
        r@ == kebab_spec(s@),
{
    casbab_wrap(s, '-', Transform::Lower)
}

/// *Camel kebab* case is a variant of Kebab case with
/// each element's first letter uppercased.
///
/// Example: `Camel-Snake-Kebab`.
pub fn camel_kebab(s: &str) -> (r: String)
    ensures
        r@ == camel_kebab_spec(s@),
{
    casbab_wrap(s, '-', Transform::Title)
}

/// *Screaming kebab* case is a variant of Kebab case with
/// all letters uppercased.
///
/// Example: `CAMEL-SNAKE-KEBAB`.
pub fn screaming_kebab(s: &str) -> (r: String)
    ensures
        r@ == screaming_kebab_spec(s@),
{
    casbab_wrap(s, '-', Transform::Upper)
}

/// *Lower* is returning detected words, not in a compound
/// form, but separated by one space character with all
/// letters in lower case.
///
/// Example: `camel snake kebab`.
pub fn lower(s: &str) -> (r: String)
    ensures
        r@ == lower_spec(s@),
{
    casbab_separate(s, ' ', Transform::Lower)
}

/// *Title* is returning detected words, not in a compound
/// form, but separated by one space character with first
/// character in all letters in upper case and all other
/// letters in lower case.
///
/// Example: `Camel Snake Kebab`.
pub fn title(s: &str) -> (r: String)
    ensures
        r@ == title_spec(s@),
{
    casbab_separate(s, ' ', Transform::Title)
}

/// *Screaming* is returning detected words, not in a compound
/// form, but separated by one space character with all
/// letters in upper case.
///
/// Example: `CAMEL SNAKE KEBAB`.
pub fn screaming(s: &str) -> (r: String)
    ensures
        r@ == screaming_spec(s@),
{
    casbab_separate(s, ' ', Transform::Upper)
}

} // verus!
