//! Text primitives: the string operations the rest of the crate is built from,
//! each with its meaning as a function of character sequences.
use vstd::prelude::*;

verus! {

/// `String::push` appends one character at the end.
pub assume_specification[ String::push ](s: &mut String, c: char)
    ensures
        final(s)@ == old(s)@.push(c),
;

/// The characters of `s`, in order.
pub fn chars_of(s: &str) -> (r: Vec<char>)
    ensures
        r@ == s@,
{
    let mut out: Vec<char> = Vec::new();
    for c in it: s.chars()
        invariant
            it.seq() == s@,
            out@ == s@.take(it.index() as int),
    {
        out.push(c);
        assert(s@.take(it.index() + 1) =~= s@.take(it.index() as int).push(c));
    }
    assert(s@.take(s@.len() as int) =~= s@);
    out
}

/// Whether two strings hold the same characters.
pub fn same(a: &str, b: &str) -> (r: bool)
    ensures
        r == (a@ == b@),
{
    let x = a.as_bytes();
    let y = b.as_bytes();
    proof {
        vstd::utf8::encode_utf8_decode_utf8(a@);
        vstd::utf8::encode_utf8_decode_utf8(b@);
    }
    if x.len() != y.len() {
        return false;
    }
    let mut i: usize = 0;
    while i < x.len()
        invariant
            i <= x.len(),
            x@ == vstd::utf8::encode_utf8(a@),
            y@ == vstd::utf8::encode_utf8(b@),
            x@.len() == y@.len(),
            forall|j: int| 0 <= j < i ==> x@[j] == y@[j],
        decreases x.len() - i,
    {
        if x[i] != y[i] {
            return false;
        }
        i += 1;
    }
    assert(x@ =~= y@);
    true
}

/// The characters of `v` from `from` up to `to`, as a string.
pub fn slice_text(v: &Vec<char>, from: usize, to: usize) -> (r: String)
    requires
        from <= to <= v@.len(),
    ensures
        r@ == v@.subrange(from as int, to as int),
{
    let mut out = String::new();
    let mut i: usize = from;
    while i < to
        invariant
            from <= i <= to <= v@.len(),
            out@ == v@.subrange(from as int, i as int),
        decreases to - i,
    {
        out.push(v[i]);
        assert(v@.subrange(from as int, i + 1) =~= v@.subrange(from as int, i as int).push(
            v@[i as int],
        ));
        i += 1;
    }
    out
}

// ── order ──────────────────────────────────────────────────────────────────

/// Lexicographic order by code point: the order of `str`.
pub open spec fn lex_less(a: Seq<char>, b: Seq<char>) -> bool
    decreases a.len(),
{
    if b.len() == 0 {
        false
    } else if a.len() == 0 {
        true
    } else if a[0] != b[0] {
        (a[0] as u32) < (b[0] as u32)
    } else {
        lex_less(a.drop_first(), b.drop_first())
    }
}

/// Whether `a` comes strictly before `b`.
pub fn less(a: &str, b: &str) -> (r: bool)
    ensures
        r == lex_less(a@, b@),
{
    let x = chars_of(a);
    let y = chars_of(b);
    let mut i: usize = 0;
    assert(a@.skip(0) =~= a@);
    assert(b@.skip(0) =~= b@);
    while i < x.len() && i < y.len()
        invariant
            x@ == a@,
            y@ == b@,
            i <= x@.len(),
            i <= y@.len(),
            lex_less(a@, b@) == lex_less(a@.skip(i as int), b@.skip(i as int)),
        decreases x.len() - i,
    {
        assert(a@.skip(i as int).drop_first() =~= a@.skip(i + 1));
        assert(b@.skip(i as int).drop_first() =~= b@.skip(i + 1));
        if x[i] != y[i] {
            return (x[i] as u32) < (y[i] as u32);
        }
        i += 1;
    }
    i < y.len()
}

/// No string comes before itself.
pub proof fn lemma_lex_irreflexive(a: Seq<char>)
    ensures
        !lex_less(a, a),
    decreases a.len(),
{
    if a.len() > 0 {
        lemma_lex_irreflexive(a.drop_first());
    }
}

/// The order is transitive.
pub proof fn lemma_lex_transitive(a: Seq<char>, b: Seq<char>, c: Seq<char>)
    requires
        lex_less(a, b),
        lex_less(b, c),
    ensures
        lex_less(a, c),
    decreases a.len(),
{
    if a.len() > 0 && a[0] == b[0] && b[0] == c[0] {
        lemma_lex_transitive(a.drop_first(), b.drop_first(), c.drop_first());
    }
}

proof fn lemma_code_points_differ(x: char, y: char)
    requires
        x != y,
    ensures
        x as u32 != y as u32,
{
}

/// Of two different strings one comes first.
pub proof fn lemma_lex_total(a: Seq<char>, b: Seq<char>)
    ensures
        a == b || lex_less(a, b) || lex_less(b, a),
    decreases a.len(),
{
    if a.len() > 0 && b.len() > 0 && a[0] == b[0] {
        lemma_lex_total(a.drop_first(), b.drop_first());
        if a.drop_first() == b.drop_first() {
            assert(a =~= seq![a[0]] + a.drop_first());
            assert(b =~= seq![b[0]] + b.drop_first());
        }
    } else if a.len() == 0 && b.len() == 0 {
        assert(a =~= b);
    } else if a.len() > 0 && b.len() > 0 {
        lemma_code_points_differ(a[0], b[0]);
    }
}

// ── prefixes and suffixes ──────────────────────────────────────────────────

/// `s` begins with `p`.
pub open spec fn begins(s: Seq<char>, p: Seq<char>) -> bool {
    p.len() <= s.len() && s.take(p.len() as int) == p
}

/// `s` ends with `p`.
pub open spec fn ends(s: Seq<char>, p: Seq<char>) -> bool {
    p.len() <= s.len() && s.skip(s.len() - p.len()) == p
}

/// Whether `v` holds exactly the characters of `p` at position `at`.
fn holds_at(v: &Vec<char>, at: usize, p: &Vec<char>) -> (r: bool)
    requires
        at + p@.len() <= v@.len(),
    ensures
        r == (v@.subrange(at as int, at + p@.len()) == p@),
{
    let n: usize = v.len();
    let mut i: usize = 0;
    while i < p.len()
        invariant
            i <= p@.len(),
            n == v@.len(),
            at + p@.len() <= n,
            forall|j: int| 0 <= j < i ==> v@[at + j] == #[trigger] p@[j],
        decreases p.len() - i,
    {
        if v[at + i] != p[i] {
            assert(v@.subrange(at as int, at + p@.len())[i as int] != p@[i as int]);
            return false;
        }
        i += 1;
    }
    assert(v@.subrange(at as int, at + p@.len()) =~= p@);
    true
}

/// `str::starts_with` for a string pattern.
pub fn starts_with(s: &str, p: &str) -> (r: bool)
    ensures
        r == begins(s@, p@),
{
    let v = chars_of(s);
    let w = chars_of(p);
    if w.len() > v.len() {
        return false;
    }
    assert(s@.take(p@.len() as int) =~= s@.subrange(0, p@.len() as int));
    holds_at(&v, 0, &w)
}

/// `str::ends_with` for a string pattern.
pub fn ends_with(s: &str, p: &str) -> (r: bool)
    ensures
        r == ends(s@, p@),
{
    let v = chars_of(s);
    let w = chars_of(p);
    if w.len() > v.len() {
        return false;
    }
    let at: usize = v.len() - w.len();
    assert(s@.skip(s@.len() - p@.len()) =~= s@.subrange(at as int, at + p@.len()));
    holds_at(&v, at, &w)
}

/// `s` with every trailing `suffix` taken off.
pub open spec fn without_suffixes(s: Seq<char>, suffix: Seq<char>) -> Seq<char>
    decreases s.len(),
{
    if suffix.len() > 0 && ends(s, suffix) {
        without_suffixes(s.take(s.len() - suffix.len()), suffix)
    } else {
        s
    }
}

/// `str::trim_end_matches` for a string pattern.
pub fn strip_suffixes(s: &str, suffix: &str) -> (r: String)
    ensures
        r@ == without_suffixes(s@, suffix@),
{
    let v = chars_of(s);
    let w = chars_of(suffix);
    let mut end: usize = v.len();
    assert(s@.take(end as int) =~= s@);
    if w.len() == 0 {
        return slice_text(&v, 0, end);
    }
    while end >= w.len()
        invariant_except_break
            w@ == suffix@,
        invariant
            v@ == s@,
            w@ == suffix@,
            w@.len() > 0,
            end <= v@.len(),
            without_suffixes(s@, suffix@) == without_suffixes(s@.take(end as int), suffix@),
        ensures
            without_suffixes(s@, suffix@) == s@.take(end as int),
        decreases end,
    {
        let at: usize = end - w.len();
        let ghost cut = s@.take(end as int);
        assert(cut.skip(cut.len() - suffix@.len()) =~= v@.subrange(at as int, at + w@.len()));
        if !holds_at(&v, at, &w) {
            break;
        }
        assert(cut.take(cut.len() - suffix@.len()) =~= s@.take(at as int));
        end = at;
    }
    assert(s@.subrange(0, end as int) =~= s@.take(end as int));
    slice_text(&v, 0, end)
}

// ── trimming ───────────────────────────────────────────────────────────────

/// The characters with the Unicode `White_Space` property.
pub open spec fn white_space(c: char) -> bool {
    let u = c as u32;
    ||| 0x9 <= u <= 0xd
    ||| u == 0x20
    ||| u == 0x85
    ||| u == 0xa0
    ||| u == 0x1680
    ||| 0x2000 <= u <= 0x200a
    ||| u == 0x2028
    ||| u == 0x2029
    ||| u == 0x202f
    ||| u == 0x205f
    ||| u == 0x3000
}

fn is_white_space(c: char) -> (r: bool)
    ensures
        r == white_space(c),
{
    let u: u32 = c as u32;
    (0x9 <= u && u <= 0xd) || u == 0x20 || u == 0x85 || u == 0xa0 || u == 0x1680 || (0x2000 <= u
        && u <= 0x200a) || u == 0x2028 || u == 0x2029 || u == 0x202f || u == 0x205f || u == 0x3000
}

/// `s` without its leading white space.
pub open spec fn trimmed_start(s: Seq<char>) -> Seq<char>
    decreases s.len(),
{
    if s.len() > 0 && white_space(s[0]) {
        trimmed_start(s.drop_first())
    } else {
        s
    }
}

/// `s` without its trailing white space.
pub open spec fn trimmed_end(s: Seq<char>) -> Seq<char>
    decreases s.len(),
{
    if s.len() > 0 && white_space(s.last()) {
        trimmed_end(s.drop_last())
    } else {
        s
    }
}

/// `s` without white space at either end.
pub open spec fn trimmed(s: Seq<char>) -> Seq<char> {
    trimmed_end(trimmed_start(s))
}

/// `str::trim`.
pub fn trim(s: &str) -> (r: String)
    ensures
        r@ == trimmed(s@),
{
    let v = chars_of(s);
    let mut from: usize = 0;
    assert(s@.skip(0) =~= s@);
    while from < v.len() && is_white_space(v[from])
        invariant
            v@ == s@,
            from <= v@.len(),
            trimmed_start(s@) == trimmed_start(s@.skip(from as int)),
        decreases v.len() - from,
    {
        assert(s@.skip(from as int).drop_first() =~= s@.skip(from + 1));
        from += 1;
    }
    let mut to: usize = v.len();
    let ghost rest = s@.skip(from as int);
    assert(rest =~= s@.subrange(from as int, to as int));
    while to > from && is_white_space(v[to - 1])
        invariant
            v@ == s@,
            from <= to <= v@.len(),
            trimmed_end(rest) == trimmed_end(s@.subrange(from as int, to as int)),
        decreases to - from,
    {
        assert(s@.subrange(from as int, to as int).drop_last() =~= s@.subrange(
            from as int,
            to - 1,
        ));
        to -= 1;
    }
    slice_text(&v, from, to)
}

/// `s` without its leading `c`s.
pub open spec fn without_leading(s: Seq<char>, c: char) -> Seq<char>
    decreases s.len(),
{
    if s.len() > 0 && s[0] == c {
        without_leading(s.drop_first(), c)
    } else {
        s
    }
}

/// `str::trim_start_matches` for one character.
pub fn strip_leading(s: &str, c: char) -> (r: String)
    ensures
        r@ == without_leading(s@, c),
{
    let v = chars_of(s);
    let mut from: usize = 0;
    assert(s@.skip(0) =~= s@);
    while from < v.len() && v[from] == c
        invariant
            v@ == s@,
            from <= v@.len(),
            without_leading(s@, c) == without_leading(s@.skip(from as int), c),
        decreases v.len() - from,
    {
        assert(s@.skip(from as int).drop_first() =~= s@.skip(from + 1));
        from += 1;
    }
    assert(s@.skip(from as int) =~= s@.subrange(from as int, v@.len() as int));
    slice_text(&v, from, v.len())
}

/// `s` without its trailing `c`s.
pub open spec fn without_trailing(s: Seq<char>, c: char) -> Seq<char>
    decreases s.len(),
{
    if s.len() > 0 && s.last() == c {
        without_trailing(s.drop_last(), c)
    } else {
        s
    }
}

/// `str::trim_end_matches` for one character.
pub fn strip_trailing(s: &str, c: char) -> (r: String)
    ensures
        r@ == without_trailing(s@, c),
{
    let v = chars_of(s);
    let mut to: usize = v.len();
    assert(s@.subrange(0, to as int) =~= s@);
    while to > 0 && v[to - 1] == c
        invariant
            v@ == s@,
            to <= v@.len(),
            without_trailing(s@, c) == without_trailing(s@.subrange(0, to as int), c),
        decreases to,
    {
        assert(s@.subrange(0, to as int).drop_last() =~= s@.subrange(0, to - 1));
        to -= 1;
    }
    slice_text(&v, 0, to)
}

/// `s` without any `c`.
pub open spec fn without_char(s: Seq<char>, c: char) -> Seq<char> {
    s.filter(other_than(c))
}

/// Holds of every character but `c`.
pub open spec fn other_than(c: char) -> spec_fn(char) -> bool {
    |x: char| x != c
}

/// `str::replace` of one character by nothing.
pub fn remove_char(s: &str, c: char) -> (r: String)
    ensures
        r@ == without_char(s@, c),
{
    let v = chars_of(s);
    let mut out = String::new();
    let mut i: usize = 0;
    let ghost keep = other_than(c);
    assert(s@.take(0).filter(keep) =~= Seq::<char>::empty()) by {
        reveal(Seq::filter);
    }
    while i < v.len()
        invariant
            v@ == s@,
            i <= v@.len(),
            keep == other_than(c),
            out@ == s@.take(i as int).filter(keep),
        decreases v.len() - i,
    {
        proof {
            reveal(Seq::filter);
            assert(s@.take(i + 1).drop_last() =~= s@.take(i as int));
        }
        if v[i] != c {
            out.push(v[i]);
        }
        i += 1;
    }
    assert(s@.take(s@.len() as int) =~= s@);
    out
}

/// The part of `s` after its last `c`; all of `s` where there is none.
pub open spec fn after_last(s: Seq<char>, c: char) -> Seq<char>
    decreases s.len(),
{
    if s.len() == 0 || s.last() == c {
        Seq::empty()
    } else {
        after_last(s.drop_last(), c).push(s.last())
    }
}

/// What stands before the last `c` of `s`; `None` where there is none.
pub open spec fn before_last(s: Seq<char>, c: char) -> Option<Seq<char>>
    decreases s.len(),
{
    if s.len() == 0 {
        None
    } else if s.last() == c {
        Some(s.drop_last())
    } else {
        before_last(s.drop_last(), c)
    }
}

/// `s.rsplit(c).next()`.
pub fn last_segment(s: &str, c: char) -> (r: String)
    ensures
        r@ == after_last(s@, c),
{
    let v = chars_of(s);
    let mut from: usize = v.len();
    assert(s@.subrange(0, from as int) =~= s@);
    assert(s@.skip(from as int) =~= Seq::<char>::empty());
    assert(after_last(s@, c) + s@.skip(from as int) =~= after_last(s@, c));
    while from > 0 && v[from - 1] != c
        invariant
            v@ == s@,
            from <= v@.len(),
            after_last(s@, c) == after_last(s@.subrange(0, from as int), c) + s@.skip(
                from as int,
            ),
        decreases from,
    {
        let ghost head = s@.subrange(0, from as int);
        assert(head.drop_last() =~= s@.subrange(0, from - 1));
        assert(after_last(s@.subrange(0, from - 1), c).push(head.last()) + s@.skip(from as int)
            =~= after_last(s@.subrange(0, from - 1), c) + s@.skip(from - 1));
        from -= 1;
    }
    assert(after_last(s@.subrange(0, from as int), c) =~= Seq::<char>::empty());
    assert(s@.skip(from as int) =~= s@.subrange(from as int, v@.len() as int));
    slice_text(&v, from, v.len())
}

/// `s.rsplit_once(c)`, the first half.
pub fn head_before_last(s: &str, c: char) -> (r: Option<String>)
    ensures
        r is Some == before_last(s@, c) is Some,
        r matches Some(h) ==> h@ == before_last(s@, c)->0,
{
    let v = chars_of(s);
    let mut to: usize = v.len();
    assert(s@.subrange(0, to as int) =~= s@);
    while to > 0
        invariant
            v@ == s@,
            to <= v@.len(),
            before_last(s@, c) == before_last(s@.subrange(0, to as int), c),
        decreases to,
    {
        assert(s@.subrange(0, to as int).drop_last() =~= s@.subrange(0, to - 1));
        if v[to - 1] == c {
            return Some(slice_text(&v, 0, to - 1));
        }
        to -= 1;
    }
    None
}

} // verus!
