//! What the text primitives do, said of the texts themselves.
use vstd::prelude::*;

use crate::text::{
    after_last, before_last, begins, ends, lex_less, trimmed, trimmed_end, trimmed_start,
    white_space, without_char, without_leading, without_suffixes, without_trailing,
};

verus! {

// ── trimming ───────────────────────────────────────────────────────────────

/// `s` from `i` up to `j` is `s` without the white space around it.
pub open spec fn trims_to(s: Seq<char>, i: int, j: int) -> bool {
    &&& 0 <= i <= j <= s.len()
    &&& forall|k: int| 0 <= k < i ==> white_space(#[trigger] s[k])
    &&& forall|k: int| j <= k < s.len() ==> white_space(#[trigger] s[k])
    &&& i < j ==> !white_space(s[i]) && !white_space(s[j - 1])
}

proof fn lemma_trimmed_start(s: Seq<char>) -> (i: int)
    ensures
        0 <= i <= s.len(),
        trimmed_start(s) == s.skip(i),
        forall|k: int| 0 <= k < i ==> white_space(#[trigger] s[k]),
        i < s.len() ==> !white_space(s[i]),
    decreases s.len(),
{
    if s.len() > 0 && white_space(s[0]) {
        let rest = s.drop_first();
        let i = lemma_trimmed_start(rest);
        assert(rest.skip(i) =~= s.skip(i + 1));
        assert forall|k: int| 0 <= k < i + 1 implies white_space(#[trigger] s[k]) by {
            if k > 0 {
                assert(rest[k - 1] == s[k]);
            }
        }
        i + 1
    } else {
        assert(s.skip(0) =~= s);
        0
    }
}

proof fn lemma_trimmed_end(s: Seq<char>) -> (j: int)
    ensures
        0 <= j <= s.len(),
        trimmed_end(s) == s.take(j),
        forall|k: int| j <= k < s.len() ==> white_space(#[trigger] s[k]),
        j > 0 ==> !white_space(s[j - 1]),
    decreases s.len(),
{
    if s.len() > 0 && white_space(s.last()) {
        let rest = s.drop_last();
        let j = lemma_trimmed_end(rest);
        assert(rest.take(j) =~= s.take(j));
        assert forall|k: int| j <= k < s.len() implies white_space(#[trigger] s[k]) by {
            if k < s.len() - 1 {
                assert(rest[k] == s[k]);
            }
        }
        j
    } else {
        assert(s.take(s.len() as int) =~= s);
        s.len() as int
    }
}

/// Trimming takes off the white space at both ends and nothing else.
pub proof fn law_trim(s: Seq<char>) -> (at: (int, int))
    ensures
        trims_to(s, at.0, at.1),
        trimmed(s) == s.subrange(at.0, at.1),
{
    let i = lemma_trimmed_start(s);
    let rest = s.skip(i);
    let j = lemma_trimmed_end(rest);
    assert(rest.take(j) =~= s.subrange(i, i + j));
    assert forall|k: int| i + j <= k < s.len() implies white_space(#[trigger] s[k]) by {
        assert(rest[k - i] == s[k]);
    }
    if j > 0 {
        assert(rest[j - 1] == s[i + j - 1]);
    }
    (i, i + j)
}

/// A trimmed text stays as it is.
pub proof fn law_trim_twice(s: Seq<char>)
    ensures
        trimmed(trimmed(s)) == trimmed(s),
{
    let (i, j) = law_trim(s);
    let t = trimmed(s);
    let (a, b) = law_trim(t);
    if t.len() > 0 {
        assert(t[0] == s[i] && t[t.len() - 1] == s[j - 1]);
        if a > 0 {
            assert(white_space(t[0]));
        }
        if b < t.len() {
            assert(white_space(t[t.len() - 1]));
        }
    }
    assert(t.subrange(a, b) =~= t);
}

// ── stripping ──────────────────────────────────────────────────────────────

/// Stripping leading characters takes off all of them, and nothing else.
pub proof fn law_strip_leading(s: Seq<char>, c: char) -> (n: int)
    ensures
        0 <= n <= s.len(),
        without_leading(s, c) == s.skip(n),
        forall|k: int| 0 <= k < n ==> (#[trigger] s[k]) == c,
        n < s.len() ==> s[n] != c,
    decreases s.len(),
{
    if s.len() > 0 && s[0] == c {
        let rest = s.drop_first();
        let n = law_strip_leading(rest, c);
        assert(rest.skip(n) =~= s.skip(n + 1));
        assert forall|k: int| 0 <= k < n + 1 implies (#[trigger] s[k]) == c by {
            if k > 0 {
                assert(rest[k - 1] == s[k]);
            }
        }
        n + 1
    } else {
        assert(s.skip(0) =~= s);
        0
    }
}

/// Stripping trailing characters takes off all of them, and nothing else.
pub proof fn law_strip_trailing(s: Seq<char>, c: char) -> (n: int)
    ensures
        0 <= n <= s.len(),
        without_trailing(s, c) == s.take(n),
        forall|k: int| n <= k < s.len() ==> (#[trigger] s[k]) == c,
        n > 0 ==> s[n - 1] != c,
    decreases s.len(),
{
    if s.len() > 0 && s.last() == c {
        let rest = s.drop_last();
        let n = law_strip_trailing(rest, c);
        assert(rest.take(n) =~= s.take(n));
        assert forall|k: int| n <= k < s.len() implies (#[trigger] s[k]) == c by {
            if k < s.len() - 1 {
                assert(rest[k] == s[k]);
            }
        }
        n
    } else {
        assert(s.take(s.len() as int) =~= s);
        s.len() as int
    }
}

/// `s` repeated `n` times.
pub open spec fn repeated(s: Seq<char>, n: nat) -> Seq<char>
    decreases n,
{
    if n == 0 {
        Seq::empty()
    } else {
        repeated(s, (n - 1) as nat) + s
    }
}

/// Stripping a suffix takes off every copy of it at the end, and nothing else.
pub proof fn law_strip_suffixes(s: Seq<char>, suffix: Seq<char>) -> (n: nat)
    requires
        suffix.len() > 0,
    ensures
        s == without_suffixes(s, suffix) + repeated(suffix, n),
        !ends(without_suffixes(s, suffix), suffix),
    decreases s.len(),
{
    if ends(s, suffix) {
        let rest = s.take(s.len() - suffix.len());
        let n = law_strip_suffixes(rest, suffix);
        let kept = without_suffixes(s, suffix);
        assert(s =~= rest + suffix);
        assert((kept + repeated(suffix, n)) + suffix =~= kept + repeated(suffix, n + 1));
        n + 1
    } else {
        assert(s =~= s + repeated(suffix, 0));
        0
    }
}

/// Removing a character leaves no copy of it, and leaves everything else as it is.
pub proof fn law_remove_char(a: Seq<char>, x: char, c: char)
    ensures
        without_char(Seq::empty(), c) == Seq::<char>::empty(),
        without_char(a.push(x), c) == if x == c {
            without_char(a, c)
        } else {
            without_char(a, c).push(x)
        },
        !without_char(a, c).contains(c),
{
    reveal(Seq::filter);
    assert(a.push(x).drop_last() =~= a);
    let keep = crate::text::other_than(c);
    assert forall|i: int| 0 <= i < without_char(a, c).len() implies without_char(a, c)[i] != c by {
        a.lemma_filter_pred(keep, i);
    }
}

// ── segments ───────────────────────────────────────────────────────────────

/// The last segment holds no separator, and what stands before it is either
/// nothing or ends in the separator.
pub proof fn law_last_segment(s: Seq<char>, c: char)
    ensures
        !after_last(s, c).contains(c),
        before_last(s, c) matches Some(head) ==> s == head + seq![c] + after_last(s, c),
        before_last(s, c) is None ==> after_last(s, c) == s && !s.contains(c),
    decreases s.len(),
{
    if s.len() > 0 && s.last() != c {
        let rest = s.drop_last();
        law_last_segment(rest, c);
        assert(s =~= rest.push(s.last()));
        if let Some(head) = before_last(s, c) {
            assert(s =~= head + seq![c] + after_last(s, c));
        }
        assert forall|i: int| 0 <= i < after_last(s, c).len() implies after_last(s, c)[i] != c by {
            if i < after_last(rest, c).len() {
                assert(after_last(rest, c).contains(after_last(rest, c)[i]));
            }
        }
    } else if s.len() > 0 {
        assert(s =~= s.drop_last() + seq![c] + after_last(s, c));
    }
}

/// A prefix is what stands at the beginning; a suffix is what stands at the end.
pub proof fn law_begins_and_ends(a: Seq<char>, b: Seq<char>, s: Seq<char>, p: Seq<char>)
    ensures
        begins(a + b, a),
        ends(a + b, b),
        begins(s, p) ==> s == p + s.skip(p.len() as int),
        ends(s, p) ==> s == s.take(s.len() - p.len()) + p,
{
    assert((a + b).take(a.len() as int) =~= a);
    assert((a + b).skip(a.len() as int) =~= b);
    if begins(s, p) {
        assert(s =~= p + s.skip(p.len() as int));
    }
    if ends(s, p) {
        assert(s =~= s.take(s.len() - p.len()) + p);
    }
}

/// Texts are ordered by the first character in which they differ, and a text that
/// only goes on comes later.
pub proof fn law_order(p: Seq<char>, x: char, y: char, a: Seq<char>, b: Seq<char>)
    ensures
        x as u32 != y as u32 ==> (lex_less(p.push(x) + a, p.push(y) + b) <==> (x as u32) < (y as u32)),
        lex_less(p, p.push(x) + a),
    decreases p.len(),
{
    if p.len() > 0 {
        law_order(p.drop_first(), x, y, a, b);
        assert((p.push(x) + a).drop_first() =~= p.drop_first().push(x) + a);
        assert((p.push(y) + b).drop_first() =~= p.drop_first().push(y) + b);
    }
}

/// Of the ASCII characters those from tab to carriage return and the blank are
/// white space; so is the no-break space; and no letter or digit is.
pub proof fn law_white_space(c: char)
    ensures
        (c as u32) < 128 ==> (white_space(c) <==> 9 <= c as u32 <= 13 || c as u32 == 32),
        c as u32 == 0xa0 ==> white_space(c),
        0xa0 < c as u32 && (c as u32) < 0x1680 ==> !white_space(c),
        c as u32 > 0x3000 ==> !white_space(c),
{
}

} // verus!
