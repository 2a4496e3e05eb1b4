//! The word-boundary scanner: splitting a phrase into words on
//! explicit delimiters and on letter-case transitions, and counting
//! leading and trailing delimiter runs.

use vstd::prelude::*;

use crate::casing::is_upper;

verus! {

/// The three characters that always separate words.
pub open spec fn is_delim(c: char) -> bool {
    c == '-' || c == '_' || c == ' '
}

/// One step at a time, the scan that finds the first word of `s`.
///
/// The scan walks `s` from position `i` keeping the start of the
/// current candidate word and three case-tracking values: whether the
/// previous character was lowercase (or case-less), whether it was
/// uppercase, and the position of the most recent uppercase character.
/// A word ends at a delimiter, at a lowercase-to-uppercase transition,
/// and at an uppercase-run-to-lowercase transition, where the split
/// falls before the run's last character (so an acronym keeps all but
/// the letter that starts the next word). The latter split is gated on
/// the last uppercase position being strictly positive: a run whose
/// last uppercase character stands at position 0 never triggers it.
///
/// The result is the pair (word, rest): the first word of `s` and the
/// unscanned remainder, both empty when `s` holds no word.
pub open spec fn first_word_from(
    s: Seq<char>,
    i: int,
    start: int,
    prev_lower: bool,
    prev_upper: bool,
    prev_upper_location: int,
) -> (Seq<char>, Seq<char>)
    decreases s.len() - i,
{
    if i < 0 || i >= s.len() {
        if start != s.len() {
            (s.subrange(start, s.len() as int), Seq::empty())
        } else {
            (Seq::empty(), Seq::empty())
        }
    } else {
        let c = s[i];
        if is_delim(c) {
            if start != i {
                (s.subrange(start, i), s.subrange(i, s.len() as int))
            } else {
                first_word_from(s, i + 1, i + 1, false, false, 0)
            }
        } else if is_upper(c) {
            if prev_lower && start != i {
                (s.subrange(start, i), s.subrange(i, s.len() as int))
            } else {
                first_word_from(s, i + 1, start, false, true, i)
            }
        } else {
            if prev_upper && prev_upper_location > 0 && start != prev_upper_location {
                (s.subrange(start, prev_upper_location), s.subrange(prev_upper_location, s.len() as int))
            } else if prev_upper && prev_upper_location > 0 {
                first_word_from(s, i + 1, prev_upper_location, true, false, 0)
            } else {
                first_word_from(s, i + 1, start, true, prev_upper, prev_upper_location)
            }
        }
    }
}

/// The first word of `s` and the remainder of `s` after it.
pub open spec fn first_word_spec(s: Seq<char>) -> (Seq<char>, Seq<char>) {
    first_word_from(s, 0, 0, false, false, 0)
}

/// The state the scan keeps is well formed: the candidate word starts
/// at or before the current position, and the recorded uppercase
/// position lies inside the candidate word when one is recorded.
pub open spec fn scan_state_inv(
    s: Seq<char>,
    i: int,
    start: int,
    prev_upper: bool,
    prev_upper_location: int,
) -> bool {
    &&& 0 <= start <= i <= s.len()
    &&& (prev_upper ==> start <= prev_upper_location < i)
    &&& (!prev_upper ==> prev_upper_location == 0)
}

/// From a well-formed state, the scan returns either two empty
/// sequences, or a non-empty word together with a remainder strictly
/// shorter than the whole input.
pub proof fn lemma_first_word_from_shape(
    s: Seq<char>,
    i: int,
    start: int,
    prev_lower: bool,
    prev_upper: bool,
    prev_upper_location: int,
)
    requires
        scan_state_inv(s, i, start, prev_upper, prev_upper_location),
    ensures
        ({
            let r = first_word_from(s, i, start, prev_lower, prev_upper, prev_upper_location);
            (r.0.len() == 0 && r.1.len() == 0) || (r.0.len() > 0 && r.1.len() < s.len())
        }),
    decreases s.len() - i,
{
    if i >= s.len() {
    } else {
        let c = s[i];
        if is_delim(c) {
            if start != i {
            } else {
                lemma_first_word_from_shape(s, i + 1, i + 1, false, false, 0);
            }
        } else if is_upper(c) {
            if prev_lower && start != i {
            } else {
                lemma_first_word_from_shape(s, i + 1, start, false, true, i);
            }
        } else {
            if prev_upper && prev_upper_location > 0 && start != prev_upper_location {
            } else if prev_upper && prev_upper_location > 0 {
                lemma_first_word_from_shape(s, i + 1, prev_upper_location, true, false, 0);
            } else {
                lemma_first_word_from_shape(s, i + 1, start, true, prev_upper, prev_upper_location);
            }
        }
    }
}

/// The words of `s`, in order: the first word, then the words of the
/// remainder, until a scan finds no word. The last branch bounds the
/// recursion and is never reached: a non-empty first word always
/// leaves a strictly shorter remainder (`lemma_words_of_unfold`).
pub open spec fn words_of(s: Seq<char>) -> Seq<Seq<char>>
    decreases s.len(),
{
    let w = first_word_spec(s).0;
    let rest = first_word_spec(s).1;
    if w.len() == 0 {
        Seq::empty()
    } else if rest.len() < s.len() {
        seq![w] + words_of(rest)
    } else {
        seq![w]
    }
}

/// Unfolding `words_of` one word at a time: an empty first word means
/// no words at all, and a non-empty first word stands in front of the
/// words of the strictly shorter remainder.
pub proof fn lemma_words_of_unfold(s: Seq<char>)
    ensures
        first_word_spec(s).0.len() == 0 ==> words_of(s) =~= Seq::<Seq<char>>::empty()
            && first_word_spec(s).1.len() == 0,
        first_word_spec(s).0.len() > 0 ==> first_word_spec(s).1.len() < s.len()
            && words_of(s) == seq![first_word_spec(s).0] + words_of(first_word_spec(s).1),
{
    lemma_first_word_from_shape(s, 0, 0, false, false, 0);
}

/// On a range made up entirely of delimiters, the scan finds no word:
/// from a state whose candidate is empty, it walks to the end and
/// returns two empty sequences.
proof fn lemma_scan_all_delim(s: Seq<char>, i: int)
    requires
        0 <= i <= s.len(),
        forall|k: int| i <= k < s.len() ==> is_delim(s[k]),
    ensures
        first_word_from(s, i, i, false, false, 0) == (Seq::<char>::empty(), Seq::<char>::empty()),
    decreases s.len() - i,
{
    if i < s.len() {
        lemma_scan_all_delim(s, i + 1);
    }
}

/// A string made up entirely of delimiters (or empty) holds no words.
pub proof fn lemma_words_of_all_delim(s: Seq<char>)
    requires
        forall|k: int| 0 <= k < s.len() ==> is_delim(s[k]),
    ensures
        words_of(s) == Seq::<Seq<char>>::empty(),
{
    lemma_scan_all_delim(s, 0);
}

/// Split the first word off `s`: return the word and the unscanned
/// remainder of `s` after it. Both are empty when `s` holds no word,
/// that is, when `s` is empty or all delimiters.
pub(crate) fn first_word<'a>(s: &'a str) -> (r: (&'a str, &'a str))
    ensures
        r.0@ == first_word_spec(s@).0,
        r.1@ == first_word_spec(s@).1,
{
    let l = s.unicode_len();
    let mut start: usize = 0;
    let mut prev_lower = false;
    let mut prev_upper = false;
    let mut prev_upper_location: usize = 0;
    let mut i: usize = 0;
    while i < l
        invariant
            l == s@.len(),
            scan_state_inv(s@, i as int, start as int, prev_upper, prev_upper_location as int),
            first_word_spec(s@) == first_word_from(
                s@,
                i as int,
                start as int,
                prev_lower,
                prev_upper,
                prev_upper_location as int,
            ),
        decreases l - i,
    {
        let c = s.get_char(i);
        if c == '-' || c == '_' || c == ' ' {
            if start != i {
                return (s.substring_char(start, i), s.substring_char(i, l));
            }
            start = i + 1;
            prev_lower = false;
            prev_upper = false;
            prev_upper_location = 0;
        } else if c.is_uppercase() {
            if prev_lower {
                if start != i {
                    return (s.substring_char(start, i), s.substring_char(i, l));
                }
                prev_lower = false;
            }
            prev_upper = true;
            prev_upper_location = i;
        } else {
            prev_lower = true;
            if prev_upper && prev_upper_location > 0 {
                if start != prev_upper_location {
                    return (
                        s.substring_char(start, prev_upper_location),
                        s.substring_char(prev_upper_location, l),
                    );
                }
                start = prev_upper_location;
                prev_upper = false;
                prev_upper_location = 0;
            }
        }
        i += 1;
    }
    if start != l {
        let w = s.substring_char(start, l);
        let e = s.substring_char(l, l);
        proof {
            assert(e@ =~= Seq::<char>::empty());
        }
        (w, e)
    } else {
        let e = s.substring_char(l, l);
        proof {
            assert(e@ =~= Seq::<char>::empty());
        }
        (e, e)
    }
}

/// Index of the first character at or after `i` that differs from `sub`,
/// or 0 when every character from `i` on matches (or the range is empty).
/// The 0 fallback (rather than the run length) for a string made up
/// entirely of `sub` is deliberate: the count is the index at which a
/// scan for a differing character stops, left at its initial value when
/// the scan finds none.
pub open spec fn leading_mismatch(s: Seq<char>, sub: char, i: int) -> int
    decreases s.len() - i,
{
    if i < 0 || i >= s.len() {
        0
    } else if s[i] != sub {
        i
    } else {
        leading_mismatch(s, sub, i + 1)
    }
}

/// Position from the end (0 = last character) of the first character,
/// scanning right to left from position `j`, that differs from `sub`;
/// 0 when no character differs. Mirrors `leading_mismatch` on the
/// reversed string.
pub open spec fn trailing_mismatch(s: Seq<char>, sub: char, j: int) -> int
    decreases s.len() - j,
{
    if j < 0 || j >= s.len() {
        0
    } else if s[s.len() - 1 - j] != sub {
        j
    } else {
        trailing_mismatch(s, sub, j + 1)
    }
}

/// Number of copies of `sub` re-emitted at the front of a wrapped result.
pub open spec fn head_count(s: Seq<char>, sub: char) -> int {
    leading_mismatch(s, sub, 0)
}

/// Number of copies of `sub` re-emitted at the back of a wrapped result.
pub open spec fn tail_count(s: Seq<char>, sub: char) -> int {
    trailing_mismatch(s, sub, 0)
}

/// Count the leading and trailing runs of the character `sub` in `s`:
/// the pair of indices (from the front, and from the back) at which the
/// first character differing from `sub` stands. When all characters
/// match, both counts fall back to 0.
pub(crate) fn head_tail_count(s: &str, sub: char) -> (r: (usize, usize))
    ensures
        r.0 == head_count(s@, sub),
        r.1 == tail_count(s@, sub),
{
    let l = s.unicode_len();
    let mut i: usize = 0;
    while i < l && s.get_char(i) == sub
        invariant
            l == s@.len(),
            i <= l,
            leading_mismatch(s@, sub, 0) == leading_mismatch(s@, sub, i as int),
        decreases l - i,
    {
        i += 1;
    }
    let head: usize = if i < l {
        i
    } else {
        0
    };
    let mut j: usize = 0;
    while j < l && s.get_char(l - 1 - j) == sub
        invariant
            l == s@.len(),
            j <= l,
            trailing_mismatch(s@, sub, 0) == trailing_mismatch(s@, sub, j as int),
        decreases l - j,
    {
        j += 1;
    }
    let tail: usize = if j < l {
        j
    } else {
        0
    };
    (head, tail)
}

} // verus!
