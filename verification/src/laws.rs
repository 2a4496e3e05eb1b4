//! Properties that hold of the conversions as a whole: every
//! convention consumes the same scanned word sequence, and inputs
//! without words map to the empty string.

use vstd::prelude::*;

use crate::casing::{apply_transform, is_upper, Transform};
use crate::render::{char_repeat, joined, wrapped};
use crate::scan::{
    first_word_from, first_word_spec, head_count, is_delim, leading_mismatch,
    lemma_words_of_all_delim, lemma_words_of_unfold, tail_count, trailing_mismatch, words_of,
};
use crate::{
    camel_snake_spec, camel_spec, kebab_spec, lower_spec, pascal_spec, screaming_kebab_spec,
    screaming_snake_spec, screaming_spec, snake_spec, title_spec, camel_kebab_spec,
};

verus! {

/// The words of `ws` with the per-word transforms applied: `first` to
/// the word at position 0, `rest` to every other.
pub open spec fn transformed_words(
    ws: Seq<Seq<char>>,
    first: Transform,
    rest: Transform,
) -> Seq<Seq<char>> {
    ws.map(
        |i: int, w: Seq<char>|
            if i == 0 {
                apply_transform(w, first)
            } else {
                apply_transform(w, rest)
            },
    )
}

/// The pieces `ps` joined by `sep`, with nothing before the first
/// piece or after the last.
pub open spec fn sep_join(ps: Seq<Seq<char>>, sep: Seq<char>) -> Seq<char>
    decreases ps.len(),
{
    if ps.len() == 0 {
        Seq::empty()
    } else if ps.len() == 1 {
        ps[0]
    } else {
        sep_join(ps.drop_last(), sep) + sep + ps.last()
    }
}

/// A renderer's output is the separator-join of the transformed words,
/// one piece per word.
proof fn lemma_joined_as_sep_join(
    ws: Seq<Seq<char>>,
    first: Transform,
    rest: Transform,
    sep: Seq<char>,
)
    ensures
        joined(ws, first, rest, sep) == sep_join(transformed_words(ws, first, rest), sep),
    decreases ws.len(),
{
    let ps = transformed_words(ws, first, rest);
    if ws.len() <= 1 {
    } else {
        lemma_joined_as_sep_join(ws.drop_last(), first, rest, sep);
        assert(transformed_words(ws.drop_last(), first, rest) =~= ps.drop_last());
        assert(ps.last() == apply_transform(ws.last(), rest));
    }
}

/// Word-count invariance: whichever convention consumes the scan, its
/// output is the separator-join of exactly one transformed piece per
/// scanned word, so the number of pieces is `words_of(s).len()` for
/// every choice of transforms and separator.
pub proof fn lemma_word_count_invariance(
    s: Seq<char>,
    first: Transform,
    rest: Transform,
    sep: Seq<char>,
)
    ensures
        transformed_words(words_of(s), first, rest).len() == words_of(s).len(),
        joined(words_of(s), first, rest, sep) == sep_join(
            transformed_words(words_of(s), first, rest),
            sep,
        ),
{
    lemma_joined_as_sep_join(words_of(s), first, rest, sep);
}

/// A canonical word: non-empty and holding neither a delimiter nor an
/// uppercase character, so that a scan passes through it without
/// splitting it.
pub open spec fn canonical_word(w: Seq<char>) -> bool {
    w.len() > 0 && forall|j: int| 0 <= j < w.len() ==> !is_delim(w[j]) && !is_upper(w[j])
}

/// `char_repeat(c, n)` is `n` copies of `c`.
proof fn lemma_char_repeat_content(c: char, n: int)
    requires
        0 <= n,
    ensures
        char_repeat(c, n).len() == n,
        forall|i: int| 0 <= i < n ==> char_repeat(c, n)[i] == c,
    decreases n,
{
    if n > 0 {
        lemma_char_repeat_content(c, n - 1);
    }
}

/// Scanning from a position where the candidate word is still empty,
/// a run of delimiters is skipped without emitting anything.
proof fn lemma_scan_skip_delims(u: Seq<char>, j: int, p: int)
    requires
        0 <= j <= p <= u.len(),
        forall|k: int| j <= k < p ==> is_delim(u[k]),
    ensures
        first_word_from(u, j, j, false, false, 0) == first_word_from(u, p, p, false, false, 0),
    decreases p - j,
{
    if j < p {
        lemma_scan_skip_delims(u, j + 1, p);
    }
}

/// Scanning a run of canonical characters that reaches a delimiter (or
/// the end of the string) at position `m` emits the candidate that
/// began at `b` as one word, with the rest of the string from `m` on
/// as the remainder.
proof fn lemma_scan_canonical_run(u: Seq<char>, b: int, m: int, i: int, pl: bool)
    requires
        0 <= b <= i <= m <= u.len(),
        b < m,
        forall|j: int| i <= j < m ==> !is_delim(u[j]) && !is_upper(u[j]),
        m < u.len() ==> is_delim(u[m]),
    ensures
        first_word_from(u, i, b, pl, false, 0).0 == u.subrange(b, m),
        first_word_from(u, i, b, pl, false, 0).1 == u.subrange(m, u.len() as int),
    decreases m - i,
{
    if i < m {
        lemma_scan_canonical_run(u, b, m, i + 1, true);
    } else {
        if m == u.len() {
            assert(u.subrange(m, u.len() as int) =~= Seq::<char>::empty());
        }
    }
}

/// The pieces `ps` joined by `sep`, taken from the front: the first
/// piece, then `sep` before each further piece. The same sequence as
/// `sep_join`, in the form the scan consumes it.
spec fn join_front(ps: Seq<Seq<char>>, sep: Seq<char>) -> Seq<char>
    decreases ps.len(),
{
    if ps.len() == 0 {
        Seq::empty()
    } else if ps.len() == 1 {
        ps[0]
    } else {
        ps[0] + sep + join_front(ps.drop_first(), sep)
    }
}

/// `join_front` satisfies the from-the-back recursion of `sep_join`.
proof fn lemma_join_front_snoc(ps: Seq<Seq<char>>, sep: Seq<char>)
    requires
        ps.len() >= 2,
    ensures
        join_front(ps, sep) == join_front(ps.drop_last(), sep) + sep + ps.last(),
    decreases ps.len(),
{
    if ps.len() == 2 {
        assert(ps.drop_first().len() == 1);
        assert(ps.drop_last().len() == 1);
        assert(ps.drop_last()[0] == ps[0]);
        assert(ps.drop_first()[0] == ps[1]);
        assert(join_front(ps.drop_first(), sep) == ps[1]);
        assert(join_front(ps.drop_last(), sep) == ps[0]);
        assert(join_front(ps, sep) =~= join_front(ps.drop_last(), sep) + sep + ps.last());
    } else {
        let tail = ps.drop_first();
        lemma_join_front_snoc(tail, sep);
        assert(tail.drop_last() =~= ps.drop_last().drop_first());
        assert(tail.last() == ps.last());
        assert(ps.drop_last()[0] == ps[0]);
        assert(join_front(ps, sep) =~= ps[0] + sep + (join_front(tail.drop_last(), sep) + sep
            + tail.last()));
        assert(join_front(ps.drop_last(), sep) =~= ps[0] + sep + join_front(
            ps.drop_last().drop_first(),
            sep,
        ));
        assert(join_front(ps, sep) =~= join_front(ps.drop_last(), sep) + sep + ps.last());
    }
}

/// The two join orders agree.
proof fn lemma_sep_join_is_join_front(ps: Seq<Seq<char>>, sep: Seq<char>)
    ensures
        sep_join(ps, sep) == join_front(ps, sep),
    decreases ps.len(),
{
    if ps.len() >= 2 {
        lemma_sep_join_is_join_front(ps.drop_last(), sep);
        lemma_join_front_snoc(ps, sep);
    }
}

/// The join of non-empty words is non-empty, starts with the first
/// word's first character, and ends with the last word's last
/// character.
proof fn lemma_join_front_ends(ps: Seq<Seq<char>>, sep: Seq<char>)
    requires
        ps.len() > 0,
        forall|i: int| 0 <= i < ps.len() ==> ps[i].len() > 0,
    ensures
        join_front(ps, sep).len() > 0,
        join_front(ps, sep).first() == ps.first().first(),
        join_front(ps, sep).last() == ps.last().last(),
    decreases ps.len(),
{
    if ps.len() >= 2 {
        lemma_join_front_ends(ps.drop_first(), sep);
        assert(ps.drop_first().last() == ps.last());
        let j = join_front(ps, sep);
        let j2 = join_front(ps.drop_first(), sep);
        assert(j.last() == j2.last());
        assert(j.first() == ps[0][0]);
    }
}

/// Rescanning a join of canonical words between two delimiter runs
/// yields exactly those words: the scan skips the leading run, cuts
/// each word at the delimiter after it, and finds nothing in the
/// trailing run.
proof fn lemma_rescan_words(ws: Seq<Seq<char>>, sep: char, p: int, t: int)
    requires
        is_delim(sep),
        0 <= p,
        0 <= t,
        forall|i: int| 0 <= i < ws.len() ==> canonical_word(ws[i]),
    ensures
        words_of(char_repeat(sep, p) + join_front(ws, seq![sep]) + char_repeat(sep, t)) == ws,
    decreases ws.len(),
{
    lemma_char_repeat_content(sep, p);
    lemma_char_repeat_content(sep, t);
    let u = char_repeat(sep, p) + join_front(ws, seq![sep]) + char_repeat(sep, t);
    if ws.len() == 0 {
        assert(forall|k: int| 0 <= k < u.len() ==> is_delim(u[k]));
        lemma_words_of_all_delim(u);
        assert(words_of(u) =~= ws);
    } else {
        let w0 = ws[0];
        let m = p + w0.len();
        assert(forall|k: int| 0 <= k < p ==> is_delim(u[k]));
        assert(forall|j: int| p <= j < m ==> u[j] == w0[j - p] && !is_delim(u[j]) && !is_upper(
            u[j],
        ));
        if m < u.len() {
            assert(u[m] == sep);
        }
        lemma_scan_skip_delims(u, 0, p);
        lemma_scan_canonical_run(u, p, m, p, false);
        assert(first_word_spec(u).0 =~= w0);
        let rest = first_word_spec(u).1;
        assert(rest =~= u.subrange(m, u.len() as int));
        lemma_words_of_unfold(u);
        assert(words_of(u) == seq![first_word_spec(u).0] + words_of(rest));
        if ws.len() == 1 {
            lemma_rescan_words(Seq::<Seq<char>>::empty(), sep, t, 0);
            assert(rest =~= char_repeat(sep, t) + join_front(Seq::<Seq<char>>::empty(), seq![sep])
                + char_repeat(sep, 0));
            assert(words_of(rest) =~= Seq::<Seq<char>>::empty());
        } else {
            let tail = ws.drop_first();
            lemma_rescan_words(tail, sep, 1, t);
            lemma_char_repeat_content(sep, 1);
            let jt = join_front(tail, seq![sep]);
            assert(join_front(ws, seq![sep]) == w0 + seq![sep] + jt);
            assert(u.len() == p + w0.len() + 1 + jt.len() + t);
            assert(rest.len() == 1 + jt.len() + t);
            assert(forall|k: int| 0 <= k < jt.len() ==> u[m + 1 + k] == jt[k]);
            assert(rest =~= char_repeat(sep, 1) + jt + char_repeat(sep, t));
            assert(words_of(rest) == tail);
        }
        assert(words_of(u) =~= ws);
    }
}

/// When the characters before position `h` all equal `sub` and the
/// character at `h` differs, the leading scan stops exactly at `h`.
proof fn lemma_leading_mismatch_at(u: Seq<char>, sub: char, h: int, i: int)
    requires
        0 <= i <= h < u.len(),
        forall|k: int| i <= k < h ==> u[k] == sub,
        u[h] != sub,
    ensures
        leading_mismatch(u, sub, i) == h,
    decreases h - i,
{
    if i < h {
        lemma_leading_mismatch_at(u, sub, h, i + 1);
    }
}

/// When the last `t` characters all equal `sub` and the character
/// `t` positions before the end differs, the trailing scan stops
/// exactly at `t`.
proof fn lemma_trailing_mismatch_at(u: Seq<char>, sub: char, t: int, j: int)
    requires
        0 <= j <= t < u.len(),
        forall|k: int| u.len() - t <= k < u.len() - j ==> u[k] == sub,
        u[u.len() - 1 - t] != sub,
    ensures
        trailing_mismatch(u, sub, j) == t,
    decreases t - j,
{
    if j < t {
        lemma_trailing_mismatch_at(u, sub, t, j + 1);
    }
}

/// The structural half of idempotence within the Snake, Kebab and
/// space-separated families: when canonical words (non-empty, holding
/// no delimiter and no uppercase character) are joined by one
/// delimiter and wrapped in `h` leading and `t` trailing copies of it,
/// rescanning the result finds exactly those words again, and the
/// leading and trailing run counts of the result are exactly `h` and
/// `t`. A second conversion of such a result therefore rebuilds it
/// from the same words and the same runs, as soon as the per-word
/// transform maps each of those words to itself.
pub proof fn lemma_rescan_wrapped_join(ws: Seq<Seq<char>>, sep: char, h: int, t: int)
    requires
        is_delim(sep),
        0 <= h,
        0 <= t,
        ws.len() > 0,
        forall|i: int| 0 <= i < ws.len() ==> canonical_word(ws[i]),
    ensures
        words_of(char_repeat(sep, h) + sep_join(ws, seq![sep]) + char_repeat(sep, t)) == ws,
        head_count(char_repeat(sep, h) + sep_join(ws, seq![sep]) + char_repeat(sep, t), sep) == h,
        tail_count(char_repeat(sep, h) + sep_join(ws, seq![sep]) + char_repeat(sep, t), sep) == t,
{
    lemma_sep_join_is_join_front(ws, seq![sep]);
    lemma_rescan_words(ws, sep, h, t);
    lemma_char_repeat_content(sep, h);
    lemma_char_repeat_content(sep, t);
    assert(forall|i: int| 0 <= i < ws.len() ==> ws[i].len() > 0);
    lemma_join_front_ends(ws, seq![sep]);
    let j = join_front(ws, seq![sep]);
    let u = char_repeat(sep, h) + j + char_repeat(sep, t);
    assert(u.len() == h + j.len() + t);
    assert(u[h] == j.first());
    assert(j.first() == ws.first().first());
    assert(!is_delim(ws.first().first()));
    assert(forall|k: int| 0 <= k < h ==> u[k] == sep);
    lemma_leading_mismatch_at(u, sep, h, 0);
    assert(u[u.len() - 1 - t] == j.last());
    assert(!is_delim(ws.last().last()));
    assert(forall|k: int| u.len() - t <= k < u.len() ==> u[k] == sep);
    lemma_trailing_mismatch_at(u, sep, t, 0);
}

/// The leading scan stops somewhere inside the string, or at 0.
proof fn lemma_leading_mismatch_bounds(u: Seq<char>, sub: char, i: int)
    requires
        0 <= i,
    ensures
        0 <= leading_mismatch(u, sub, i) <= u.len(),
    decreases u.len() - i,
{
    if i < u.len() && u[i] == sub {
        lemma_leading_mismatch_bounds(u, sub, i + 1);
    }
}

/// The trailing scan stops somewhere inside the string, or at 0.
proof fn lemma_trailing_mismatch_bounds(u: Seq<char>, sub: char, j: int)
    requires
        0 <= j,
    ensures
        0 <= trailing_mismatch(u, sub, j) <= u.len(),
    decreases u.len() - j,
{
    if j < u.len() && u[u.len() - 1 - j] == sub {
        lemma_trailing_mismatch_bounds(u, sub, j + 1);
    }
}

/// Idempotence within the Snake and Kebab families: when the per-word
/// transform maps every scanned word of `s` to a canonical word
/// (non-empty, no delimiter, no uppercase character) and is idempotent
/// on those words, converting twice yields the same string as
/// converting once. With `t` the lowercase transform and `sep` the
/// family's delimiter this is the round trip of `snake` and of
/// `kebab`; an input with at least one word is required, since a
/// wrapped result built from no words at all can consist of the
/// delimiter alone, whose runs the counter's fallback then drops.
pub proof fn lemma_wrapped_idempotent(s: Seq<char>, sep: char, t: Transform)
    requires
        is_delim(sep),
        words_of(s).len() > 0,
        forall|i: int| 0 <= i < words_of(s).len() ==> canonical_word(
            apply_transform(#[trigger] words_of(s)[i], t),
        ),
        forall|i: int| 0 <= i < words_of(s).len() ==> apply_transform(
            apply_transform(#[trigger] words_of(s)[i], t),
            t,
        ) == apply_transform(words_of(s)[i], t),
    ensures
        wrapped(wrapped(s, sep, t), sep, t) == wrapped(s, sep, t),
{
    let ws = words_of(s);
    let tws = transformed_words(ws, t, t);
    let h = head_count(s, sep);
    let tc = tail_count(s, sep);
    lemma_leading_mismatch_bounds(s, sep, 0);
    lemma_trailing_mismatch_bounds(s, sep, 0);
    lemma_joined_as_sep_join(ws, t, t, seq![sep]);
    assert(forall|i: int| 0 <= i < tws.len() ==> #[trigger] tws[i] == apply_transform(
        ws[i],
        t,
    ));
    assert(forall|i: int| 0 <= i < tws.len() ==> canonical_word(#[trigger] tws[i]));
    lemma_rescan_wrapped_join(tws, sep, h, tc);
    let o = wrapped(s, sep, t);
    assert(o == char_repeat(sep, h) + sep_join(tws, seq![sep]) + char_repeat(sep, tc));
    assert(words_of(o) == tws);
    assert(head_count(o, sep) == h);
    assert(tail_count(o, sep) == tc);
    lemma_joined_as_sep_join(tws, t, t, seq![sep]);
    assert(transformed_words(tws, t, t) =~= tws);
    assert(joined(tws, t, t, seq![sep]) == sep_join(tws, seq![sep]));
    assert(wrapped(o, sep, t) == o);
}

/// Idempotence within the space-separated families: when the per-word
/// transform maps every scanned word of `s` to a canonical word and is
/// idempotent on those words, converting twice yields the same string
/// as converting once. With the lowercase transform this is the round
/// trip of `lower`; no wrapping is involved, so an input without words
/// is covered too.
pub proof fn lemma_separate_idempotent(s: Seq<char>, t: Transform)
    requires
        forall|i: int| 0 <= i < words_of(s).len() ==> canonical_word(
            apply_transform(#[trigger] words_of(s)[i], t),
        ),
        forall|i: int| 0 <= i < words_of(s).len() ==> apply_transform(
            apply_transform(#[trigger] words_of(s)[i], t),
            t,
        ) == apply_transform(words_of(s)[i], t),
    ensures
        joined(words_of(joined(words_of(s), t, t, seq![' '])), t, t, seq![' ']) == joined(
            words_of(s),
            t,
            t,
            seq![' '],
        ),
{
    let ws = words_of(s);
    let tws = transformed_words(ws, t, t);
    let o = joined(ws, t, t, seq![' ']);
    lemma_joined_as_sep_join(ws, t, t, seq![' ']);
    if ws.len() == 0 {
        assert(o =~= Seq::<char>::empty());
        assert(words_of(o) =~= Seq::<Seq<char>>::empty());
    } else {
        assert(forall|i: int| 0 <= i < tws.len() ==> #[trigger] tws[i] == apply_transform(
            ws[i],
            t,
        ));
        assert(forall|i: int| 0 <= i < tws.len() ==> canonical_word(#[trigger] tws[i]));
        lemma_rescan_wrapped_join(tws, ' ', 0, 0);
        assert(o =~= char_repeat(' ', 0) + sep_join(tws, seq![' ']) + char_repeat(' ', 0));
        assert(words_of(o) == tws);
        lemma_joined_as_sep_join(tws, t, t, seq![' ']);
        assert(transformed_words(tws, t, t) =~= tws);
    }
}

/// Empty or whitespace-only input: every one of the eleven conversions
/// maps a string made up entirely of spaces (the empty string among
/// them) to the empty string.
pub proof fn lemma_whitespace_only_input(s: Seq<char>)
    requires
        forall|i: int| 0 <= i < s.len() ==> s[i] == ' ',
    ensures
        camel_spec(s) == Seq::<char>::empty(),
        pascal_spec(s) == Seq::<char>::empty(),
        snake_spec(s) == Seq::<char>::empty(),
        camel_snake_spec(s) == Seq::<char>::empty(),
        screaming_snake_spec(s) == Seq::<char>::empty(),
        kebab_spec(s) == Seq::<char>::empty(),
        camel_kebab_spec(s) == Seq::<char>::empty(),
        screaming_kebab_spec(s) == Seq::<char>::empty(),
        lower_spec(s) == Seq::<char>::empty(),
        title_spec(s) == Seq::<char>::empty(),
        screaming_spec(s) == Seq::<char>::empty(),
{
    lemma_words_of_all_delim(s);
    assert(snake_spec(s) =~= Seq::<char>::empty());
    assert(camel_snake_spec(s) =~= Seq::<char>::empty());
    assert(screaming_snake_spec(s) =~= Seq::<char>::empty());
    assert(kebab_spec(s) =~= Seq::<char>::empty());
    assert(camel_kebab_spec(s) =~= Seq::<char>::empty());
    assert(screaming_kebab_spec(s) =~= Seq::<char>::empty());
}

} // verus!
