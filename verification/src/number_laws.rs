//! What the notations of numbers are: texts that read back as the number.
use vstd::prelude::*;

use crate::numbers::{
    all_digits, decimal, digit_char, digits, integer_value, is_amount, is_digit, is_exponent,
    is_fraction, is_sign, leading_digits, lower_ascii, unsigned_part, value_of, zero_padded, zeros,
};

verus! {

proof fn lemma_digit(d: int)
    requires
        0 <= d < 10,
    ensures
        digit_char(d) as u32 == 48 + d,
        is_digit(digit_char(d)),
        digit_char(d) != '-',
        digit_char(d) != '+',
        d > 0 ==> digit_char(d) != '0',
{
    assert(digit_char(0) == '0' && digit_char(1) == '1' && digit_char(2) == '2' && digit_char(3)
        == '3' && digit_char(4) == '4' && digit_char(5) == '5' && digit_char(6) == '6'
        && digit_char(7) == '7' && digit_char(8) == '8' && digit_char(9) == '9');
}

proof fn lemma_digits(n: nat)
    ensures
        value_of(digits(n)) == n,
        all_digits(digits(n)),
        digits(n).len() > 0,
        digits(n)[0] != '-' && digits(n)[0] != '+',
        n > 0 ==> digits(n)[0] != '0',
    decreases n,
{
    lemma_digit((n % 10) as int);
    if n >= 10 {
        lemma_digits(n / 10);
        let s = digits(n);
        let head = digits(n / 10);
        assert(s.drop_last() =~= head);
        assert(s[0] == head[0]);
        assert forall|i: int| 0 <= i < s.len() implies is_digit(#[trigger] s[i]) by {
            if i < head.len() {
                assert(is_digit(head[i]));
            }
        }
    } else {
        assert(digits(n).drop_last() =~= Seq::<char>::empty());
        assert(value_of(digits(n).drop_last()) == 0);
        assert(digits(n).last() == digit_char(n as int));
    }
}

/// A number in decimal notation reads back as itself, and has no zero before it.
pub proof fn law_decimal_reads_back(n: int)
    ensures
        integer_value(decimal(n)) == Some(n),
        n > 0 ==> decimal(n)[0] != '0',
        n < 0 ==> decimal(n)[0] == '-' && decimal(n)[1] != '0',
        n == 0 ==> decimal(n) == seq!['0'],
{
    if n < 0 {
        let body = digits((-n) as nat);
        lemma_digits((-n) as nat);
        assert(decimal(n).skip(1) =~= body);
        assert(decimal(n)[1] == body[0]);
    } else {
        lemma_digits(n as nat);
    }
    lemma_digit(0);
}

proof fn lemma_leading_zeros(k: int, s: Seq<char>)
    requires
        all_digits(s),
    ensures
        all_digits(zeros(k) + s),
        value_of(zeros(k) + s) == value_of(s),
    decreases s.len(),
{
    let t = zeros(k) + s;
    assert forall|i: int| 0 <= i < t.len() implies is_digit(#[trigger] t[i]) by {
        if i >= zeros(k).len() {
            assert(is_digit(s[i - zeros(k).len()]));
        }
    }
    if s.len() > 0 {
        assert forall|i: int| 0 <= i < s.drop_last().len() implies is_digit(
            #[trigger] s.drop_last()[i],
        ) by {
            assert(is_digit(s[i]));
        }
        lemma_leading_zeros(k, s.drop_last());
        assert(t.drop_last() =~= zeros(k) + s.drop_last());
    } else {
        assert(t =~= zeros(k));
        lemma_zeros(k);
    }
}

proof fn lemma_zeros(k: int)
    ensures
        value_of(zeros(k)) == 0,
    decreases k,
{
    if k > 0 {
        lemma_zeros(k - 1);
        assert(zeros(k).drop_last() =~= zeros(k - 1));
    } else {
        assert(zeros(k) =~= Seq::<char>::empty());
    }
}

/// A padded number reads back as itself, and is at least as wide as asked: exactly
/// as wide where the number itself is not wider.
pub proof fn law_padding_reads_back(n: int, width: int)
    requires
        width > 0,
    ensures
        integer_value(zero_padded(n, width)) == Some(n),
        zero_padded(n, width).len() == (if decimal(n).len() < width {
            width as nat
        } else {
            decimal(n).len()
        }),
{
    let body = digits(
        (if n < 0 {
            -n
        } else {
            n
        }) as nat,
    );
    lemma_digits(
        (if n < 0 {
            -n
        } else {
            n
        }) as nat,
    );
    if n < 0 {
        let k = width - 1 - body.len();
        lemma_leading_zeros(k, body);
        assert(zero_padded(n, width).skip(1) =~= zeros(k) + body);
        assert(zero_padded(n, width)[0] == '-');
    } else {
        let k = width - body.len();
        lemma_leading_zeros(k, body);
        let t = zero_padded(n, width);
        assert(is_digit(t[0]));
    }
}

/// A text is an integer exactly where it is a run of digits, with at most one sign
/// before it.
pub proof fn law_integer_texts(s: Seq<char>)
    requires
        s.len() > 0,
        all_digits(s),
    ensures
        integer_value(s) == Some(value_of(s) as int),
        integer_value(seq!['+'] + s) == Some(value_of(s) as int),
        integer_value(seq!['-'] + s) == Some(-(value_of(s) as int)),
{
    assert(is_digit(s[0]));
    assert((seq!['+'] + s).skip(1) =~= s);
    assert((seq!['-'] + s).skip(1) =~= s);
}

/// No other text is one.
pub proof fn law_no_other_integer(s: Seq<char>, i: int)
    requires
        0 <= i < s.len(),
        !is_digit(s[i]),
        i > 0 || (s[0] != '+' && s[0] != '-') || s.len() == 1,
    ensures
        integer_value(s) is None,
{
    let signed = s[0] == '-' || s[0] == '+';
    if signed {
        if s.len() > 1 {
            assert(s.skip(1)[i - 1] == s[i]);
        } else {
            assert(s.skip(1).len() == 0);
        }
    }
}

/// A digit behind a number multiplies it by ten and adds itself.
pub proof fn law_value_of_digits(s: Seq<char>, d: int)
    requires
        0 <= d < 10,
    ensures
        value_of(Seq::empty()) == 0,
        value_of(s.push(digit_char(d))) == 10 * value_of(s) + d,
{
    lemma_digit(d);
    assert(s.push(digit_char(d)).drop_last() =~= s);
}

// ── amounts ────────────────────────────────────────────────────────────────

/// A run of digits, and at least one.
pub open spec fn some_digits(s: Seq<char>) -> bool {
    s.len() > 0 && all_digits(s)
}

/// An exponent: the letter, then digits with at most one sign before them; or
/// nothing.
pub open spec fn exponent_text(s: Seq<char>) -> bool {
    ||| s.len() == 0
    ||| (s[0] == 'e' || s[0] == 'E') && (some_digits(s.skip(1)) || (s.len() > 1 && (s[1] == '+'
        || s[1] == '-') && some_digits(s.skip(2))))
}

/// `s` is written with the digits `a` before the point, `b` behind it, and the
/// exponent `exp`.
pub open spec fn written_as(
    s: Seq<char>,
    a: Seq<char>,
    point: bool,
    b: Seq<char>,
    exp: Seq<char>,
) -> bool {
    &&& all_digits(a)
    &&& all_digits(b)
    &&& a.len() + b.len() > 0
    &&& !point ==> b.len() == 0
    &&& exponent_text(exp)
    &&& s == a + (if point {
        seq!['.']
    } else {
        Seq::empty()
    }) + b + exp
}

proof fn lemma_leading(a: Seq<char>, rest: Seq<char>)
    requires
        all_digits(a),
        rest.len() > 0 ==> !is_digit(rest[0]),
    ensures
        leading_digits(a + rest) == a.len(),
        (a + rest).skip(a.len() as int) == rest,
    decreases a.len(),
{
    if a.len() > 0 {
        let t = a.drop_first();
        assert(is_digit(a[0]));
        assert forall|i: int| 0 <= i < t.len() implies is_digit(#[trigger] t[i]) by {
            assert(is_digit(a[i + 1]));
        }
        lemma_leading(t, rest);
        assert((a + rest).drop_first() =~= t + rest);
    } else {
        assert(a + rest =~= rest);
    }
    assert((a + rest).skip(a.len() as int) =~= rest);
}

proof fn lemma_leading_prefix(s: Seq<char>)
    ensures
        leading_digits(s) <= s.len(),
        all_digits(s.take(leading_digits(s) as int)),
        leading_digits(s) < s.len() ==> !is_digit(s[leading_digits(s) as int]),
    decreases s.len(),
{
    if s.len() > 0 && is_digit(s[0]) {
        let t = s.drop_first();
        lemma_leading_prefix(t);
        let n = leading_digits(s) as int;
        assert forall|i: int| 0 <= i < n implies is_digit(#[trigger] s.take(n)[i]) by {
            if i > 0 {
                assert(is_digit(t.take(n - 1)[i - 1]));
            }
        }
        if n < s.len() {
            assert(s[n] == t[n - 1]);
        }
    }
}

proof fn lemma_exponent(s: Seq<char>)
    ensures
        is_exponent(s) <==> exponent_text(s),
        exponent_text(s) && s.len() > 0 ==> !is_digit(s[0]) && s[0] != '.',
{
    if s.len() > 0 {
        let t = s.skip(1);
        let power = unsigned_part(t);
        lemma_leading_prefix(power);
        assert(power.take(power.len() as int) =~= power);
        if all_digits(power) {
            lemma_leading(power, Seq::empty());
            assert(power + Seq::<char>::empty() =~= power);
        }
        if t.len() > 0 && is_sign(t[0]) {
            assert(t.skip(1) =~= s.skip(2));
            assert(t[0] == s[1]);
            assert(!is_digit(t[0]));
            assert(!all_digits(t));
        } else if t.len() > 0 {
            assert(t[0] == s[1]);
        }
    }
}

proof fn lemma_fraction(s: Seq<char>, a: Seq<char>, point: bool, b: Seq<char>, exp: Seq<char>)
    requires
        written_as(s, a, point, b, exp),
    ensures
        is_fraction(s),
{
    lemma_exponent(exp);
    if point {
        let rest = seq!['.'] + b + exp;
        assert(s =~= a + rest);
        lemma_leading(a, rest);
        assert(rest.skip(1) =~= b + exp);
        lemma_leading(b, exp);
    } else {
        assert(s =~= a + exp);
        lemma_leading(a, exp);
    }
}

proof fn lemma_fraction_parts(s: Seq<char>) -> (w: (Seq<char>, bool, Seq<char>, Seq<char>))
    requires
        is_fraction(s),
    ensures
        written_as(s, w.0, w.1, w.2, w.3),
{
    lemma_leading_prefix(s);
    let whole = leading_digits(s) as int;
    let a = s.take(whole);
    let rest = s.skip(whole);
    if rest.len() > 0 && rest[0] == '.' {
        let after = rest.skip(1);
        lemma_leading_prefix(after);
        let part = leading_digits(after) as int;
        let b = after.take(part);
        let exp = after.skip(part);
        lemma_exponent(exp);
        assert(s =~= a + seq!['.'] + b + exp);
        (a, true, b, exp)
    } else {
        lemma_exponent(rest);
        assert(s =~= a + Seq::<char>::empty() + Seq::<char>::empty() + rest);
        (a, false, Seq::empty(), rest)
    }
}

/// The text without its sign.
pub open spec fn behind_sign(s: Seq<char>) -> Seq<char> {
    if s.len() > 0 && (s[0] == '+' || s[0] == '-') {
        s.skip(1)
    } else {
        s
    }
}

/// `s` is this word, in any case.
pub open spec fn spells(s: Seq<char>, word: Seq<char>) -> bool {
    s.len() == word.len() && forall|i: int|
        0 <= i < s.len() ==> lower_ascii(#[trigger] s[i]) == word[i]
}

/// `s` is digits with at most one point among them and perhaps an exponent.
pub open spec fn is_written(s: Seq<char>) -> bool {
    exists|a: Seq<char>, point: bool, b: Seq<char>, exp: Seq<char>| #[trigger]
        written_as(s, a, point, b, exp)
}

proof fn lemma_spells(s: Seq<char>, word: Seq<char>)
    ensures
        spells(s, word) <==> s.map_values(|c: char| lower_ascii(c)) == word,
{
    let low = s.map_values(|c: char| lower_ascii(c));
    if spells(s, word) {
        assert(low =~= word);
    }
    if low == word {
        assert forall|i: int| 0 <= i < s.len() implies lower_ascii(#[trigger] s[i]) == word[i] by {
            assert(low[i] == lower_ascii(s[i]));
        }
    }
}

/// A text writes an amount exactly where, behind at most one sign, it is digits with
/// at most one point among them and perhaps an exponent, or one of the words `inf`,
/// `infinity` and `nan` in any case.
pub proof fn law_amounts(s: Seq<char>)
    ensures
        is_amount(s) <==> is_written(behind_sign(s)) || spells(behind_sign(s), "inf"@) || spells(
            behind_sign(s),
            "infinity"@,
        ) || spells(behind_sign(s), "nan"@),
{
    let body = unsigned_part(s);
    assert(body == behind_sign(s));
    lemma_spells(body, "inf"@);
    lemma_spells(body, "infinity"@);
    lemma_spells(body, "nan"@);
    if is_fraction(body) {
        let (a, point, b, exp) = lemma_fraction_parts(body);
        assert(written_as(body, a, point, b, exp));
    }
    if is_written(body) {
        let (a, point, b, exp) = choose|a: Seq<char>, point: bool, b: Seq<char>, exp: Seq<char>|
            #[trigger] written_as(body, a, point, b, exp);
        lemma_fraction(body, a, point, b, exp);
    }
}

} // verus!
