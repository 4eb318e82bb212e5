//! Local casual-mode formatting (no AI call): a deterministic rewrite to all
//! lowercase with no sentence-ending periods and no commas. Question marks,
//! exclamation points, apostrophes, decimals, ellipses, digit grouping and
//! dotted names like example.com survive.

use vstd::prelude::*;
use crate::text::{chars_of, is_space, is_whitespace, lowercase, push_char, to_lowercase};

verus! {

pub open spec fn is_ascii_digit(c: char) -> bool {
    '0' <= c && c <= '9'
}

/// Whether the character at `i` of `c` survives the casual rewrite: a dot
/// survives inside a run of dots or glued to a following non-space character;
/// a comma survives only between two ASCII digits; everything else survives.
pub open spec fn casual_keeps(c: Seq<char>, i: int) -> bool {
    if c[i] == '.' {
        (i > 0 && c[i - 1] == '.') || (i + 1 < c.len() && c[i + 1] == '.')
            || (i + 1 < c.len() && !is_space(c[i + 1]))
    } else if c[i] == ',' {
        i > 0 && is_ascii_digit(c[i - 1]) && i + 1 < c.len() && is_ascii_digit(c[i + 1])
    } else {
        true
    }
}

/// The characters among the first `n` of `c` that survive, in order.
pub open spec fn casual_prefix(c: Seq<char>, n: int) -> Seq<char>
    decreases n,
{
    if n <= 0 {
        Seq::empty()
    } else if casual_keeps(c, n - 1) {
        casual_prefix(c, n - 1).push(c[n - 1])
    } else {
        casual_prefix(c, n - 1)
    }
}

/// The casual rewrite of already lower-cased text.
pub open spec fn casual_filter(c: Seq<char>) -> Seq<char> {
    casual_prefix(c, c.len() as int)
}

/// Drops the sentence punctuation the casual style removes from text that is
/// already lower-cased.
pub fn drop_casual_punctuation(lowered: &str) -> (out: String)
    ensures
        out@ == casual_filter(lowered@),
{
    let chars = chars_of(lowered);
    let n = chars.len();
    let mut out = String::new();
    let mut i: usize = 0;
    while i < n
        invariant
            n == chars@.len(),
            chars@ == lowered@,
            i <= n,
            out@ == casual_prefix(chars@, i as int),
        decreases n - i,
    {
        let c = chars[i];
        let keep = if c == '.' {
            let in_run = (i > 0 && chars[i - 1] == '.') || (i + 1 < n && chars[i + 1] == '.');
            let glued = i + 1 < n && !is_whitespace(chars[i + 1]);
            in_run || glued
        } else if c == ',' {
            i > 0 && '0' <= chars[i - 1] && chars[i - 1] <= '9' && i + 1 < n && '0' <= chars[i + 1]
                && chars[i + 1] <= '9'
        } else {
            true
        };
        assert(keep == casual_keeps(chars@, i as int));
        if keep {
            push_char(&mut out, c);
        }
        i += 1;
    }
    out
}

/// Casual-mode rewrite: lower-case the text, then drop sentence-ending
/// periods and commas that are not digit grouping.
pub fn casualize(text: &str) -> (out: String)
    ensures
        out@ == casual_filter(lowercase(text@)),
{
    let lowered = to_lowercase(text);
    drop_casual_punctuation(lowered.as_str())
}

/// Every comma the casual rewrite keeps is digit grouping: in the result it
/// has an ASCII digit right before it and right after it.
pub proof fn lemma_kept_commas_group_digits(c: Seq<char>)
    ensures
        forall|j: int|
            0 <= j < casual_filter(c).len() && #[trigger] casual_filter(c)[j] == ',' ==> j > 0 && is_ascii_digit(
                casual_filter(c)[j - 1],
            ) && j + 1 < casual_filter(c).len() && is_ascii_digit(casual_filter(c)[j + 1]),
{
    lemma_casual_prefix_commas(c, c.len() as int);
}

proof fn lemma_casual_prefix_commas(c: Seq<char>, n: int)
    requires
        0 <= n <= c.len(),
    ensures
        ({
            let out = casual_prefix(c, n);
            &&& forall|j: int|
                0 <= j < out.len() && #[trigger] out[j] == ',' ==> j > 0 && is_ascii_digit(out[j - 1]) && (j + 1
                    < out.len() ==> is_ascii_digit(out[j + 1]))
            &&& out.len() > 0 && out.last() == ',' ==> n < c.len() && is_ascii_digit(c[n])
            &&& n > 0 && is_ascii_digit(c[n - 1]) ==> out.len() > 0 && out.last() == c[n - 1]
        }),
    decreases n,
{
    if n > 0 {
        lemma_casual_prefix_commas(c, n - 1);
        let out0 = casual_prefix(c, n - 1);
        let out = casual_prefix(c, n);
        let x = c[n - 1];
        if casual_keeps(c, n - 1) {
            assert(out == out0.push(x));
            assert forall|j: int| 0 <= j < out.len() && #[trigger] out[j] == ',' implies j > 0 && is_ascii_digit(
                out[j - 1],
            ) && (j + 1 < out.len() ==> is_ascii_digit(out[j + 1])) by {
                if j < out0.len() {
                    assert(out[j] == out0[j]);
                    assert(out[j - 1] == out0[j - 1]);
                    if j + 1 < out0.len() {
                        assert(out[j + 1] == out0[j + 1]);
                    } else if j + 1 == out0.len() + 0 && j + 1 < out.len() {
                        assert(out0.last() == ',');
                        assert(out[j + 1] == x);
                    }
                } else {
                    assert(x == ',');
                    assert(out[j - 1] == out0.last());
                }
            }
        } else {
            assert(out == out0);
        }
    }
}

/// `c` without its dots and commas.
pub open spec fn without_dots_commas(c: Seq<char>) -> Seq<char> {
    c.filter(|x: char| x != '.' && x != ',')
}

/// The casual rewrite removes nothing but dots and commas: every other
/// character of the lower-cased text survives, in order.
pub proof fn lemma_casual_only_drops_dots_and_commas(c: Seq<char>)
    ensures
        without_dots_commas(casual_filter(c)) == without_dots_commas(c),
{
    lemma_casual_prefix_filter(c, c.len() as int);
    assert(c.take(c.len() as int) =~= c);
}

proof fn lemma_casual_prefix_filter(c: Seq<char>, n: int)
    requires
        0 <= n <= c.len(),
    ensures
        without_dots_commas(casual_prefix(c, n)) == without_dots_commas(c.take(n)),
    decreases n,
{
    reveal_with_fuel(Seq::filter, 2);
    if n > 0 {
        lemma_casual_prefix_filter(c, n - 1);
        assert(c.take(n).drop_last() =~= c.take(n - 1));
        let f = |x: char| x != '.' && x != ',';
        c.take(n - 1).lemma_filter_push(c[n - 1], f);
        assert(c.take(n - 1).push(c[n - 1]) =~= c.take(n));
        if casual_keeps(c, n - 1) {
            casual_prefix(c, n - 1).lemma_filter_push(c[n - 1], f);
        }
    } else {
        assert(c.take(0) =~= Seq::<char>::empty());
    }
}

} // verus!
