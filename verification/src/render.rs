//! The case renderer: join the scanned words of a phrase with a
//! convention's separator after applying its per-word transforms, and,
//! for the wrapping families, re-emit the leading and trailing
//! delimiter runs counted on the raw input.

use vstd::prelude::*;

use crate::casing::{apply_transform, transform_word, Transform};
use crate::scan::{
    first_word, first_word_spec, head_count, head_tail_count, lemma_words_of_unfold, tail_count,
    words_of,
};

verus! {

/// Relies on `String::push`: appends the character to the end of the
/// string.
pub assume_specification[ String::push ](s: &mut String, ch: char)
    ensures
        final(s)@ == old(s)@.push(ch),
;

/// The separator sequence a convention places between words: nothing,
/// or a single character.
pub open spec fn sep_seq(separator: Option<char>) -> Seq<char> {
    match separator {
        Option::None => Seq::empty(),
        Option::Some(c) => seq![c],
    }
}

/// The words `ws`, each passed through a transform (`first` for the
/// first word, `rest` for every other), joined by `sep`.
pub open spec fn joined(
    ws: Seq<Seq<char>>,
    first: Transform,
    rest: Transform,
    sep: Seq<char>,
) -> Seq<char>
    decreases ws.len(),
{
    if ws.len() == 0 {
        Seq::empty()
    } else if ws.len() == 1 {
        apply_transform(ws[0], first)
    } else {
        joined(ws.drop_last(), first, rest, sep) + sep + apply_transform(ws.last(), rest)
    }
}

/// `n` copies of the character `c` (none when `n` is not positive).
pub open spec fn char_repeat(c: char, n: int) -> Seq<char>
    decreases n,
{
    if n <= 0 {
        Seq::empty()
    } else {
        char_repeat(c, n - 1).push(c)
    }
}

/// The output of a wrapping family: the words of `s` transformed by
/// `t` and joined by `sep`, with the leading and trailing runs of
/// `sep` counted on the raw input re-emitted around the join.
pub open spec fn wrapped(s: Seq<char>, sep: char, t: Transform) -> Seq<char> {
    char_repeat(sep, head_count(s, sep)) + joined(words_of(s), t, t, seq![sep])
        + char_repeat(sep, tail_count(s, sep))
}

/// Scan `s` into words, transform each, and join them with the
/// separator (with nothing when `separator` is `None`). The first word
/// gets `transform_first_word`, every other word `transform`.
fn render_joined(
    s: &str,
    separator: Option<char>,
    transform_first_word: Transform,
    transform: Transform,
) -> (r: String)
    ensures
        r@ == joined(words_of(s@), transform_first_word, transform, sep_seq(separator)),
{
    let ghost sep = sep_seq(separator);
    let ghost ws = words_of(s@);
    let mut r = String::new();
    let first = first_word(s);
    let tw = transform_word(first.0, transform_first_word);
    r.append(tw.as_str());
    proof {
        lemma_words_of_unfold(s@);
    }
    let ghost mut taken: Seq<Seq<char>> = if first.0@.len() == 0 {
        Seq::empty()
    } else {
        seq![first.0@]
    };
    proof {
        if first.0@.len() == 0 {
            assert(r@ =~= Seq::<char>::empty());
        }
        assert(ws =~= taken + words_of(first.1@));
    }
    let mut cur: &str = first.1;
    let mut nx = first_word(cur);
    while nx.0.unicode_len() != 0
        invariant
            ws == words_of(s@),
            sep == sep_seq(separator),
            ws =~= taken + words_of(cur@),
            r@ == joined(taken, transform_first_word, transform, sep),
            nx.0@ == first_word_spec(cur@).0,
            nx.1@ == first_word_spec(cur@).1,
            taken.len() > 0 || cur@.len() == 0,
        decreases cur@.len(),
    {
        proof {
            lemma_words_of_unfold(cur@);
        }
        match separator {
            Option::Some(c) => r.push(c),
            Option::None => {},
        }
        let tw = transform_word(nx.0, transform);
        r.append(tw.as_str());
        proof {
            assert(taken.push(nx.0@).drop_last() =~= taken);
            assert(taken.push(nx.0@).last() == nx.0@);
            assert(r@ == joined(taken.push(nx.0@), transform_first_word, transform, sep));
            assert(ws =~= taken.push(nx.0@) + words_of(nx.1@));
            taken = taken.push(nx.0@);
        }
        cur = nx.1;
        nx = first_word(cur);
    }
    proof {
        lemma_words_of_unfold(cur@);
        assert(ws =~= taken);
    }
    r
}

/// Concatenate the transformed words of `s` with no separator:
/// `transform_first_word` for the first word, `transform` for the
/// rest.
pub(crate) fn casbab(s: &str, transform: Transform, transform_first_word: Transform) -> (r: String)
    ensures
        r@ == joined(words_of(s@), transform_first_word, transform, Seq::empty()),
{
    render_joined(s, None, transform_first_word, transform)
}

/// Join the words of `s`, each transformed by `transform`, with one
/// `separator` character between neighbouring words.
pub(crate) fn casbab_separate(s: &str, separator: char, transform: Transform) -> (r: String)
    ensures
        r@ == joined(words_of(s@), transform, transform, seq![separator]),
{
    render_joined(s, Some(separator), transform, transform)
}

/// Join the words of `s` as `casbab_separate` does, and wrap the
/// result in the leading and trailing runs of `separator` counted on
/// the raw input.
pub(crate) fn casbab_wrap(s: &str, separator: char, transform: Transform) -> (r: String)
    ensures
        r@ == wrapped(s@, separator, transform),
{
    let counts = head_tail_count(s, separator);
    let ghost mid = joined(words_of(s@), transform, transform, seq![separator]);
    let mut r = String::new();
    let mut k: usize = 0;
    while k < counts.0
        invariant
            r@ == char_repeat(separator, k as int),
            k <= counts.0,
        decreases counts.0 - k,
    {
        r.push(separator);
        k += 1;
    }
    let m = render_joined(s, Some(separator), transform, transform);
    r.append(m.as_str());
    let ghost front = char_repeat(separator, counts.0 as int) + mid;
    let mut k2: usize = 0;
    while k2 < counts.1
        invariant
            r@ == front + char_repeat(separator, k2 as int),
            k2 <= counts.1,
        decreases counts.1 - k2,
    {
        r.push(separator);
        proof {
            assert(r@ =~= front + char_repeat(separator, k2 + 1 as int));
        }
        k2 += 1;
    }
    proof {
        assert(r@ =~= char_repeat(separator, head_count(s@, separator)) + mid + char_repeat(
            separator,
            tail_count(s@, separator),
        ));
    }
    r
}

} // verus!
