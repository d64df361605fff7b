//! Numbers as text: decimal notation, zero padding, and the two number grammars
//! that the data sources use.
use vstd::prelude::*;

use crate::text::chars_of;

verus! {

/// The character of the decimal digit `d`.
pub open spec fn digit_char(d: int) -> char {
    (48 + d) as char
}

/// `n` in decimal notation.
pub open spec fn digits(n: nat) -> Seq<char>
    decreases n,
{
    if n < 10 {
        seq![digit_char(n as int)]
    } else {
        digits(n / 10).push(digit_char((n % 10) as int))
    }
}

/// `n` in decimal notation, with a leading minus where it is negative.
pub open spec fn decimal(n: int) -> Seq<char> {
    if n < 0 {
        seq!['-'] + digits((-n) as nat)
    } else {
        digits(n as nat)
    }
}

/// `n` zeros.
pub open spec fn zeros(n: int) -> Seq<char> {
    Seq::new(
        if n < 0 {
            0
        } else {
            n as nat
        },
        |i: int| '0',
    )
}

/// `n` in decimal notation, filled up with zeros behind the sign to at least
/// `width` characters.
pub open spec fn zero_padded(n: int, width: int) -> Seq<char> {
    if n < 0 {
        let body = digits((-n) as nat);
        seq!['-'] + zeros(width - 1 - body.len()) + body
    } else {
        let body = digits(n as nat);
        zeros(width - body.len()) + body
    }
}

fn digit_of(d: u64) -> (r: char)
    requires
        d < 10,
    ensures
        r == digit_char(d as int),
{
    (48u8 + d as u8) as char
}

/// How many characters `digits` writes, and the notation itself.
fn digits_text(n: u64) -> (r: (String, usize))
    ensures
        r.0@ == digits(n as nat),
        r.1 == r.0@.len(),
        1 <= r.1 <= 20,
{
    let mut rest: u64 = n;
    let mut back: Vec<char> = Vec::new();
    while rest >= 10
        invariant
            digits(n as nat) == digits(rest as nat) + back@.reverse(),
            back@.len() < 20,
            (rest as int) * pow10(back@.len()) <= n,
        decreases rest,
    {
        let d: u64 = rest % 10;
        let ghost before = back@;
        back.push(digit_of(d));
        proof {
            assert(back@.reverse() =~= seq![digit_char(d as int)] + before.reverse());
            assert(digits(rest as nat) == digits((rest / 10) as nat).push(digit_char(d as int)));
            assert(digits((rest / 10) as nat).push(digit_char(d as int)) + before.reverse()
                =~= digits((rest / 10) as nat) + back@.reverse());
            lemma_pow10_step(rest as int, before.len());
            lemma_pow10_bound(before.len(), rest as int, n as int);
        }
        rest = rest / 10;
    }
    let mut out = String::new();
    out.push(digit_of(rest));
    assert(out@ =~= digits(rest as nat));
    let mut i: usize = back.len();
    assert(back@.reverse().take(0) =~= Seq::<char>::empty());
    while i > 0
        invariant
            i <= back@.len() < 20,
            out@ == digits(rest as nat) + back@.reverse().take(back@.len() - i),
            out@.len() == 1 + back@.len() - i,
        decreases i,
    {
        i -= 1;
        let ghost before = out@;
        out.push(back[i]);
        assert(back@.reverse()[back@.len() - i - 1] == back@[i as int]);
        assert(out@ =~= digits(rest as nat) + back@.reverse().take(back@.len() - i));
    }
    assert(back@.reverse().take(back@.len() as int) =~= back@.reverse());
    (out, 1 + back.len())
}

spec fn pow10(n: nat) -> int
    decreases n,
{
    if n == 0 {
        1
    } else {
        10 * pow10((n - 1) as nat)
    }
}

proof fn lemma_pow10_step(rest: int, k: nat)
    requires
        rest >= 0,
    ensures
        (rest / 10) * pow10(k + 1) <= rest * pow10(k),
{
    lemma_pow10_positive(k);
    let p = pow10(k);
    assert(pow10(k + 1) == 10 * p);
    assert((rest / 10) * (10 * p) <= rest * p) by (nonlinear_arith)
        requires
            rest >= 0,
            p > 0,
    ;
}

proof fn lemma_pow10_positive(k: nat)
    ensures
        pow10(k) > 0,
    decreases k,
{
    if k > 0 {
        lemma_pow10_positive((k - 1) as nat);
    }
}

/// A number below 2^64 has no more than nineteen digits behind its first.
proof fn lemma_pow10_bound(k: nat, rest: int, n: int)
    requires
        rest >= 10,
        rest * pow10(k) <= n,
        n <= u64::MAX,
        k < 20,
    ensures
        k + 1 < 20,
{
    if k == 19 {
        reveal_with_fuel(pow10, 20);
        assert(pow10(19) == 10_000_000_000_000_000_000int);
        assert(rest * 10_000_000_000_000_000_000int >= 100_000_000_000_000_000_000int)
            by (nonlinear_arith)
            requires
                rest >= 10,
        ;
    }
}

/// The size of `n` without its sign.
fn magnitude(n: i64) -> (r: u64)
    ensures
        r == (if n < 0 {
            -(n as int)
        } else {
            n as int
        }),
{
    if n < 0 {
        (-(n + 1)) as u64 + 1
    } else {
        n as u64
    }
}

/// `n` as `format!("{n}")` writes it.
pub fn decimal_text(n: i64) -> (r: String)
    ensures
        r@ == decimal(n as int),
{
    let body = digits_text(magnitude(n)).0;
    if n < 0 {
        let mut out = String::new();
        out.push('-');
        out.append(body.as_str());
        assert(out@ =~= decimal(n as int));
        out
    } else {
        body
    }
}

/// An unsigned number in decimal.
pub fn unsigned_text(n: u64) -> (r: String)
    ensures
        r@ == decimal(n as int),
{
    digits_text(n).0
}

/// `n` as `format!("{n:010}")` writes it.
pub fn ten_digits(n: i64) -> (r: String)
    ensures
        r@ == zero_padded(n as int, 10),
{
    let (body, len) = digits_text(magnitude(n));
    let mut out = String::new();
    let mut width: usize = 10;
    if n < 0 {
        out.push('-');
        width = 9;
    }
    let ghost sign = out@;
    let fill: usize = if len < width {
        width - len
    } else {
        0
    };
    let mut i: usize = 0;
    while i < fill
        invariant
            i <= fill,
            out@ == sign + zeros(i as int),
        decreases fill - i,
    {
        out.push('0');
        assert(zeros(i + 1) =~= zeros(i as int).push('0'));
        i += 1;
    }
    out.append(body.as_str());
    assert(out@ =~= zero_padded(n as int, 10));
    out
}

// ── integers ───────────────────────────────────────────────────────────────

pub open spec fn is_digit(c: char) -> bool {
    48 <= c as u32 <= 57
}

fn digit_value(c: char) -> (r: Option<u8>)
    ensures
        r is Some == is_digit(c),
        r matches Some(d) ==> d == c as u32 - 48 && d < 10,
{
    let u: u32 = c as u32;
    if 48 <= u && u <= 57 {
        Some((u - 48) as u8)
    } else {
        None
    }
}

pub open spec fn all_digits(s: Seq<char>) -> bool {
    forall|i: int| 0 <= i < s.len() ==> is_digit(#[trigger] s[i])
}

/// The number that a run of digits writes.
pub open spec fn value_of(s: Seq<char>) -> nat
    decreases s.len(),
{
    if s.len() == 0 {
        0
    } else {
        value_of(s.drop_last()) * 10 + (s.last() as u32 - 48) as nat
    }
}

/// The integer that `s` writes: an optional sign, then digits and nothing else.
pub open spec fn integer_value(s: Seq<char>) -> Option<int> {
    let negative = s.len() > 0 && s[0] == '-';
    let signed = s.len() > 0 && (s[0] == '-' || s[0] == '+');
    let body = if signed {
        s.skip(1)
    } else {
        s
    };
    if body.len() == 0 || !all_digits(body) {
        None
    } else if negative {
        Some(-(value_of(body) as int))
    } else {
        Some(value_of(body) as int)
    }
}

proof fn lemma_value_grows(s: Seq<char>, i: int)
    requires
        0 <= i <= s.len(),
        all_digits(s),
    ensures
        value_of(s.take(i)) <= value_of(s),
    decreases s.len() - i,
{
    if i == s.len() {
        assert(s.take(i) =~= s);
    } else {
        lemma_value_grows(s, i + 1);
        assert(s.take(i + 1).drop_last() =~= s.take(i));
        assert(is_digit(s[i]));
    }
}

/// `s.parse::<i64>().ok()`: the integer that `s` writes, where it fits.
pub fn parse_i64(s: &str) -> (r: Option<i64>)
    ensures
        r == (match integer_value(s@) {
            Some(v) if i64::MIN <= v <= i64::MAX => Some(v as i64),
            _ => None,
        }),
{
    let v = chars_of(s);
    let mut start: usize = 0;
    let mut negative = false;
    if v.len() > 0 && (v[0] == '-' || v[0] == '+') {
        negative = v[0] == '-';
        start = 1;
    }
    let ghost body = s@.skip(start as int);
    assert(start == 0 ==> body =~= s@);
    if start >= v.len() {
        return None;
    }
    let mut acc: u64 = 0;
    let mut i: usize = start;
    assert(body.take(0) =~= Seq::<char>::empty());
    while i < v.len()
        invariant
            v@ == s@,
            body == s@.skip(start as int),
            start <= i <= v@.len(),
            start < v@.len(),
            start <= 1,
            start == 0 ==> body == s@,
            (start == 1) == (s@[0] == '-' || s@[0] == '+'),
            negative == (s@[0] == '-'),
            forall|j: int| 0 <= j < i - start ==> is_digit(#[trigger] body[j]),
            acc == value_of(body.take(i - start)),
            acc <= 0x8000_0000_0000_0000,
        decreases v.len() - i,
    {
        assert(body[i - start] == v@[i as int]);
        match digit_value(v[i]) {
            None => {
                assert(!all_digits(body));
                return None;
            },
            Some(d) => {
                assert(body.take(i - start + 1).drop_last() =~= body.take(i - start));
                assert(value_of(body.take(i - start + 1)) == acc as nat * 10 + d as nat);
                if acc > 0x0ccc_cccc_cccc_cccc || acc * 10 + (d as u64) > 0x8000_0000_0000_0000 {
                    proof {
                        if all_digits(body) {
                            lemma_value_grows(body, i - start + 1);
                        }
                    }
                    return None;
                }
                acc = acc * 10 + (d as u64);
            },
        }
        i += 1;
    }
    assert(body.take(body.len() as int) =~= body);
    assert(all_digits(body));
    if negative {
        if acc == 0x8000_0000_0000_0000 {
            Some(i64::MIN)
        } else {
            Some(-(acc as i64))
        }
    } else if acc == 0x8000_0000_0000_0000 {
        None
    } else {
        Some(acc as i64)
    }
}

// ── decimal fractions ──────────────────────────────────────────────────────

/// How many digits `s` begins with.
pub open spec fn leading_digits(s: Seq<char>) -> nat
    decreases s.len(),
{
    if s.len() > 0 && is_digit(s[0]) {
        1 + leading_digits(s.drop_first())
    } else {
        0
    }
}

pub open spec fn is_sign(c: char) -> bool {
    c == '+' || c == '-'
}

pub open spec fn unsigned_part(s: Seq<char>) -> Seq<char> {
    if s.len() > 0 && is_sign(s[0]) {
        s.skip(1)
    } else {
        s
    }
}

/// Nothing, or an exponent: `e`, an optional sign, digits.
pub open spec fn is_exponent(s: Seq<char>) -> bool {
    ||| s.len() == 0
    ||| {
        let power = unsigned_part(s.skip(1));
        (s[0] == 'e' || s[0] == 'E') && power.len() > 0 && leading_digits(power) == power.len()
    }
}

/// Digits with an optional point (and a digit on one side of it at least), then
/// an optional exponent.
pub open spec fn is_fraction(s: Seq<char>) -> bool {
    let whole = leading_digits(s);
    let rest = s.skip(whole as int);
    if rest.len() > 0 && rest[0] == '.' {
        let after = rest.skip(1);
        let part = leading_digits(after);
        whole + part > 0 && is_exponent(after.skip(part as int))
    } else {
        whole > 0 && is_exponent(rest)
    }
}

pub open spec fn lower_ascii(c: char) -> char {
    if 65 <= c as u32 <= 90 {
        ((c as u32) + 32) as char
    } else {
        c
    }
}

/// The spelled-out values, in any case.
pub open spec fn is_special(s: Seq<char>) -> bool {
    let low = s.map_values(|c: char| lower_ascii(c));
    ||| low == "inf"@
    ||| low == "infinity"@
    ||| low == "nan"@
}

/// The texts that `str::parse` reads as a binary floating-point number.
pub open spec fn is_amount(s: Seq<char>) -> bool {
    let body = unsigned_part(s);
    is_special(body) || is_fraction(body)
}

fn count_digits(v: &Vec<char>, from: usize) -> (r: usize)
    requires
        from <= v@.len(),
    ensures
        from + r <= v@.len(),
        r == leading_digits(v@.skip(from as int)),
{
    let n: usize = v.len();
    let mut i: usize = from;
    while i < n && digit_value(v[i]).is_some()
        invariant
            n == v@.len(),
            from <= i <= n,
            leading_digits(v@.skip(from as int)) == (i - from) + leading_digits(
                v@.skip(i as int),
            ),
        decreases n - i,
    {
        assert(v@.skip(i as int).drop_first() =~= v@.skip(i + 1));
        i += 1;
    }
    i - from
}

fn skip_sign(v: &Vec<char>, from: usize) -> (r: usize)
    requires
        from <= v@.len(),
    ensures
        from <= r <= v@.len(),
        v@.skip(r as int) == unsigned_part(v@.skip(from as int)),
{
    if from < v.len() && (v[from] == '+' || v[from] == '-') {
        assert(v@.skip(from as int).skip(1) =~= v@.skip(from + 1));
        from + 1
    } else {
        from
    }
}

fn exponent_at(v: &Vec<char>, from: usize) -> (r: bool)
    requires
        from <= v@.len(),
    ensures
        r == is_exponent(v@.skip(from as int)),
{
    if from == v.len() {
        return true;
    }
    if v[from] != 'e' && v[from] != 'E' {
        return false;
    }
    assert(v@.skip(from as int).skip(1) =~= v@.skip(from + 1));
    let power: usize = skip_sign(v, from + 1);
    power < v.len() && count_digits(v, power) == v.len() - power
}

fn fraction_at(v: &Vec<char>, from: usize) -> (r: bool)
    requires
        from <= v@.len(),
    ensures
        r == is_fraction(v@.skip(from as int)),
{
    let whole: usize = count_digits(v, from);
    let n: usize = v.len();
    let rest: usize = from + whole;
    assert(v@.skip(from as int).skip(whole as int) =~= v@.skip(rest as int));
    if rest < n && v[rest] == '.' {
        assert(v@.skip(rest as int).skip(1) =~= v@.skip(rest + 1));
        let part: usize = count_digits(v, rest + 1);
        assert(v@.skip(rest + 1).skip(part as int) =~= v@.skip(rest + 1 + part));
        (whole > 0 || part > 0) && exponent_at(v, rest + 1 + part)
    } else {
        whole > 0 && exponent_at(v, rest)
    }
}

fn lowered(c: char) -> (r: char)
    ensures
        r == lower_ascii(c),
{
    let u: u32 = c as u32;
    if 65 <= u && u <= 90 {
        ((u + 32) as u8) as char
    } else {
        c
    }
}

fn special_at(v: &Vec<char>, from: usize) -> (r: bool)
    requires
        from <= v@.len(),
    ensures
        r == is_special(v@.skip(from as int)),
{
    let ghost body = v@.skip(from as int);
    let ghost low = body.map_values(|c: char| lower_ascii(c));
    let mut out = String::new();
    let mut i: usize = from;
    assert(low.take(0) =~= Seq::<char>::empty());
    while i < v.len()
        invariant
            body == v@.skip(from as int),
            low == body.map_values(|c: char| lower_ascii(c)),
            from <= i <= v@.len(),
            out@ == low.take(i - from),
        decreases v.len() - i,
    {
        out.push(lowered(v[i]));
        assert(low.take(i - from + 1) =~= low.take(i - from).push(lower_ascii(v@[i as int])));
        i += 1;
    }
    assert(low.take(low.len() as int) =~= low);
    crate::text::same(out.as_str(), "inf") || crate::text::same(out.as_str(), "infinity")
        || crate::text::same(out.as_str(), "nan")
}

/// Whether `s` is the text of a floating-point number.
pub fn amount_text(s: &str) -> (r: bool)
    ensures
        r == is_amount(s@),
{
    let v = chars_of(s);
    assert(v@.skip(0) =~= s@);
    let from: usize = skip_sign(&v, 0);
    special_at(&v, from) || fraction_at(&v, from)
}

} // verus!
