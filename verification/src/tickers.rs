//! Ticker symbols in their comparison form.
use vstd::prelude::*;

use crate::text::chars_of;

verus! {

pub open spec fn ascii_upper_letter(c: char) -> bool {
    65 <= c as u32 <= 90
}

pub open spec fn ascii_lower_letter(c: char) -> bool {
    97 <= c as u32 <= 122
}

pub open spec fn ascii_alphanumeric(c: char) -> bool {
    crate::numbers::is_digit(c) || ascii_upper_letter(c) || ascii_lower_letter(c)
}

/// `char::to_ascii_uppercase`.
pub open spec fn upper_ascii(c: char) -> char {
    if ascii_lower_letter(c) {
        ((c as u32) - 32) as char
    } else {
        c
    }
}

/// `s` with its ASCII letters in upper case.
pub open spec fn uppercased(s: Seq<char>) -> Seq<char> {
    s.map_values(|c: char| upper_ascii(c))
}

pub open spec fn kept_in_tickers() -> spec_fn(char) -> bool {
    |c: char| ascii_alphanumeric(c)
}

/// The comparison form of a ticker: its ASCII letters and digits, in upper case.
pub open spec fn normalized(s: Seq<char>) -> Seq<char> {
    uppercased(s.filter(kept_in_tickers()))
}

/// The upper case of an ASCII letter; any other character as it is.
pub fn to_upper(c: char) -> (r: char)
    ensures
        r == upper_ascii(c),
{
    let u: u32 = c as u32;
    if 97 <= u && u <= 122 {
        ((u - 32) as u8) as char
    } else {
        c
    }
}

/// `str::to_ascii_uppercase`.
pub fn ascii_uppercase(s: &str) -> (r: String)
    ensures
        r@ == uppercased(s@),
{
    let v = chars_of(s);
    let mut out = String::new();
    let mut i: usize = 0;
    assert(uppercased(s@).take(0) =~= Seq::<char>::empty());
    while i < v.len()
        invariant
            v@ == s@,
            i <= v@.len(),
            out@ == uppercased(s@).take(i as int),
        decreases v.len() - i,
    {
        out.push(to_upper(v[i]));
        assert(uppercased(s@).take(i + 1) =~= uppercased(s@).take(i as int).push(
            upper_ascii(s@[i as int]),
        ));
        i += 1;
    }
    assert(uppercased(s@).take(s@.len() as int) =~= uppercased(s@));
    out
}

/// Normalises a ticker to bare uppercase alphanumerics, so that `BRK.B` and
/// EDGAR's `BRK-B` are the same symbol.
pub fn normalize_ticker(ticker: &str) -> (r: String)
    ensures
        r@ == normalized(ticker@),
{
    let v = chars_of(ticker);
    let mut out = String::new();
    let mut i: usize = 0;
    let ghost s = ticker@;
    let ghost keep = kept_in_tickers();
    proof {
        reveal(Seq::filter);
        assert(uppercased(s.take(0).filter(keep)) =~= Seq::<char>::empty());
    }
    while i < v.len()
        invariant
            v@ == s,
            keep == kept_in_tickers(),
            i <= v@.len(),
            out@ == uppercased(s.take(i as int).filter(keep)),
        decreases v.len() - i,
    {
        let c = v[i];
        let u: u32 = c as u32;
        proof {
            reveal(Seq::filter);
            assert(s.take(i + 1).drop_last() =~= s.take(i as int));
        }
        if (48 <= u && u <= 57) || (65 <= u && u <= 90) || (97 <= u && u <= 122) {
            out.push(to_upper(c));
            assert(uppercased(s.take(i as int).filter(keep).push(c)) =~= uppercased(
                s.take(i as int).filter(keep),
            ).push(upper_ascii(c)));
        }
        i += 1;
    }
    assert(s.take(s.len() as int) =~= s);
    out
}

/// A normalised ticker holds upper-case letters and digits only.
pub proof fn law_normalized_alphabet(s: Seq<char>, i: int)
    requires
        0 <= i < normalized(s).len(),
    ensures
        crate::numbers::is_digit(normalized(s)[i]) || ascii_upper_letter(normalized(s)[i]),
{
    let kept = s.filter(kept_in_tickers());
    s.lemma_filter_pred(kept_in_tickers(), i);
    let c = kept[i];
    assert(ascii_alphanumeric(c));
}

/// Normalising twice is the same as normalising once.
pub proof fn law_normalize_idempotent(s: Seq<char>)
    ensures
        normalized(normalized(s)) == normalized(s),
{
    let n = normalized(s);
    assert forall|i: int| 0 <= i < n.len() implies ascii_alphanumeric(#[trigger] n[i]) && upper_ascii(
        n[i],
    ) == n[i] by {
        law_normalized_alphabet(s, i);
    }
    lemma_filter_all(n, kept_in_tickers());
    assert(uppercased(n) =~= n);
}

/// Two tickers that differ only in characters other than ASCII letters and
/// digits are the same symbol: one such character can stand anywhere.
pub proof fn law_punctuation_is_ignored(a: Seq<char>, c: char, b: Seq<char>)
    requires
        !ascii_alphanumeric(c),
    ensures
        normalized(a + seq![c] + b) == normalized(a + b),
{
    let keep = kept_in_tickers();
    lemma_filter_concat(a + seq![c], b, keep);
    lemma_filter_concat(a, seq![c], keep);
    lemma_filter_concat(a, b, keep);
    assert(seq![c].filter(keep) =~= Seq::<char>::empty()) by {
        reveal(Seq::filter);
        assert(seq![c].drop_last() =~= Seq::<char>::empty());
        assert(Seq::<char>::empty().filter(keep) =~= Seq::<char>::empty());
    }
    assert(a.filter(keep) + Seq::<char>::empty() =~= a.filter(keep));
}

/// Filtering by what holds of every item changes nothing.
pub proof fn lemma_filter_all<A>(s: Seq<A>, keep: spec_fn(A) -> bool)
    requires
        forall|i: int| 0 <= i < s.len() ==> keep(#[trigger] s[i]),
    ensures
        s.filter(keep) == s,
    decreases s.len(),
{
    reveal(Seq::filter);
    if s.len() > 0 {
        lemma_filter_all(s.drop_last(), keep);
        assert(keep(s[s.len() - 1]));
        assert(s.drop_last().push(s.last()) =~= s);
    }
}

/// Filtering goes through concatenation.
pub proof fn lemma_filter_concat<A>(a: Seq<A>, b: Seq<A>, keep: spec_fn(A) -> bool)
    ensures
        (a + b).filter(keep) == a.filter(keep) + b.filter(keep),
    decreases b.len(),
{
    reveal(Seq::filter);
    if b.len() == 0 {
        assert(a + b =~= a);
        assert(a.filter(keep) + b.filter(keep) =~= a.filter(keep));
    } else {
        lemma_filter_concat(a, b.drop_last(), keep);
        assert((a + b).drop_last() =~= a + b.drop_last());
        assert((a.filter(keep) + b.drop_last().filter(keep)).push(b.last()) =~= a.filter(keep)
            + b.drop_last().filter(keep).push(b.last()));
    }
}

} // verus!
