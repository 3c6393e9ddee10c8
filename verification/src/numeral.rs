//! Decimal numerals as sequences of characters, and what they denote.

use vstd::prelude::*;

verus! {

/// Whether a character is one of the ten decimal digits.
pub open spec fn is_digit(c: char) -> bool {
    '0' <= c <= '9'
}

/// The number that a decimal digit stands for.
pub open spec fn digit_value(c: char) -> nat {
    (c as int - '0' as int) as nat
}

/// Whether every character of `s` is a decimal digit.
pub open spec fn all_digits(s: Seq<char>) -> bool {
    forall|i: int| 0 <= i < s.len() ==> is_digit(#[trigger] s[i])
}

/// The number that a run of decimal digits denotes, most significant digit
/// first. The empty run denotes zero.
pub open spec fn numeral_value(s: Seq<char>) -> nat
    decreases s.len(),
{
    if s.len() == 0 {
        0
    } else {
        numeral_value(s.drop_last()) * 10 + digit_value(s.last())
    }
}

/// Whether `s` is the one way to write its number: at least one digit, and
/// no leading zero except for zero itself.
pub open spec fn is_canonical(s: Seq<char>) -> bool {
    &&& s.len() >= 1
    &&& all_digits(s)
    &&& (s.len() > 1 ==> s[0] != '0')
}

/// Ten to the power `n`.
pub open spec fn pow10(n: nat) -> nat
    decreases n,
{
    if n == 0 {
        1
    } else {
        10 * pow10((n - 1) as nat)
    }
}

/// A run of `n` zero digits.
pub open spec fn zeros(n: nat) -> Seq<char> {
    Seq::new(n, |i: int| '0')
}

/// The canonical numeral of `n`.
pub open spec fn decimal_digits(n: nat) -> Seq<char>
    decreases n,
{
    if n < 10 {
        seq![digit_char(n)]
    } else {
        decimal_digits(n / 10).push(digit_char(n % 10))
    }
}

/// The digit that stands for a number below ten.
pub open spec fn digit_char(d: nat) -> char {
    (d + '0' as nat) as char
}

/// `n` written with exactly `width` digits, zeros in front. Only the lowest
/// `width` digits of `n` appear.
pub open spec fn fixed_digits(n: nat, width: nat) -> Seq<char>
    decreases width,
{
    if width == 0 {
        Seq::empty()
    } else {
        fixed_digits(n / 10, (width - 1) as nat).push(digit_char(n % 10))
    }
}

/// `s` without the zeros at its end.
pub open spec fn strip_trailing_zeros(s: Seq<char>) -> Seq<char>
    decreases s.len(),
{
    if s.len() > 0 && s.last() == '0' {
        strip_trailing_zeros(s.drop_last())
    } else {
        s
    }
}

/// Every power of ten is positive.
pub proof fn lemma_pow10_positive(n: nat)
    ensures
        pow10(n) > 0,
    decreases n,
{
    if n > 0 {
        lemma_pow10_positive((n - 1) as nat);
    }
}

/// Powers of ten multiply by adding their exponents.
pub proof fn lemma_pow10_add(a: nat, b: nat)
    ensures
        pow10(a + b) == pow10(a) * pow10(b),
    decreases b,
{
    if b == 0 {
        assert(pow10(a) * 1 == pow10(a));
    } else {
        lemma_pow10_add(a, (b - 1) as nat);
        assert(pow10(a + b) == 10 * pow10((a + b - 1) as nat));
        assert(10 * (pow10(a) * pow10((b - 1) as nat)) == pow10(a) * (10 * pow10((b - 1) as nat)))
            by (nonlinear_arith);
    }
}

/// A digit and its number determine each other.
pub proof fn lemma_digit_char_value(c: char)
    requires
        is_digit(c),
    ensures
        digit_value(c) < 10,
        digit_char(digit_value(c)) == c,
{
}

/// The digit of a number below ten is a digit with that number.
pub proof fn lemma_digit_value_char(d: nat)
    requires
        d < 10,
    ensures
        is_digit(digit_char(d)),
        digit_value(digit_char(d)) == d,
{
}

/// Writing two runs of digits one after the other shifts the first by the
/// length of the second.
pub proof fn lemma_value_concat(a: Seq<char>, b: Seq<char>)
    ensures
        numeral_value(a + b) == numeral_value(a) * pow10(b.len()) + numeral_value(b),
    decreases b.len(),
{
    if b.len() == 0 {
        assert(a + b =~= a);
        assert(numeral_value(a) * 1 == numeral_value(a));
    } else {
        let init = b.drop_last();
        assert((a + b).drop_last() =~= a + init);
        assert((a + b).last() == b.last());
        lemma_value_concat(a, init);
        let va = numeral_value(a);
        let p = pow10(init.len());
        let vi = numeral_value(init);
        let d = digit_value(b.last());
        assert(pow10(b.len()) == 10 * p);
        assert((va * p + vi) * 10 + d == va * (10 * p) + (vi * 10 + d)) by (nonlinear_arith);
    }
}

/// A run of `n` digits denotes a number below ten to the `n`.
pub proof fn lemma_value_bound(s: Seq<char>)
    requires
        all_digits(s),
    ensures
        numeral_value(s) < pow10(s.len()),
    decreases s.len(),
{
    if s.len() > 0 {
        let init = s.drop_last();
        assert(all_digits(init)) by {
            assert forall|i: int| 0 <= i < init.len() implies is_digit(#[trigger] init[i]) by {
                assert(init[i] == s[i]);
            }
        }
        lemma_value_bound(init);
        assert(is_digit(s[s.len() - 1]));
        assert(pow10(s.len()) == 10 * pow10(init.len()));
    }
}

/// A run of digits that does not start with zero denotes at least ten to
/// the power of its length less one.
pub proof fn lemma_value_lower_bound(s: Seq<char>)
    requires
        all_digits(s),
        s.len() >= 1,
        s[0] != '0',
    ensures
        numeral_value(s) >= pow10((s.len() - 1) as nat),
    decreases s.len(),
{
    let init = s.drop_last();
    if s.len() == 1 {
        assert(is_digit(s[0]));
        assert(init.len() == 0);
        assert(numeral_value(init) == 0);
    } else {
        assert(all_digits(init)) by {
            assert forall|i: int| 0 <= i < init.len() implies is_digit(#[trigger] init[i]) by {
                assert(init[i] == s[i]);
            }
        }
        assert(init[0] == s[0]);
        lemma_value_lower_bound(init);
        assert(pow10((s.len() - 1) as nat) == 10 * pow10((init.len() - 1) as nat));
    }
}

/// Zeros denote zero.
pub proof fn lemma_value_zeros(n: nat)
    ensures
        numeral_value(zeros(n)) == 0,
        all_digits(zeros(n)),
    decreases n,
{
    if n > 0 {
        assert(zeros(n).drop_last() =~= zeros((n - 1) as nat));
        lemma_value_zeros((n - 1) as nat);
    }
}

/// Writing the number of a run of digits with as many digits gives the run
/// back.
pub proof fn lemma_fixed_digits_of_value(s: Seq<char>)
    requires
        all_digits(s),
    ensures
        fixed_digits(numeral_value(s), s.len()) == s,
    decreases s.len(),
{
    if s.len() > 0 {
        let init = s.drop_last();
        assert(all_digits(init)) by {
            assert forall|i: int| 0 <= i < init.len() implies is_digit(#[trigger] init[i]) by {
                assert(init[i] == s[i]);
            }
        }
        lemma_fixed_digits_of_value(init);
        assert(is_digit(s[s.len() - 1]));
        lemma_digit_char_value(s.last());
        let v = numeral_value(s);
        assert(v / 10 == numeral_value(init));
        assert(v % 10 == digit_value(s.last()));
        assert(init.push(s.last()) =~= s);
    } else {
        assert(fixed_digits(numeral_value(s), 0) =~= s);
    }
}

/// The canonical numeral of the number of a canonical numeral is that
/// numeral: a number is written canonically in one way only.
pub proof fn lemma_decimal_digits_of_value(s: Seq<char>)
    requires
        is_canonical(s),
    ensures
        decimal_digits(numeral_value(s)) == s,
    decreases s.len(),
{
    let init = s.drop_last();
    assert(is_digit(s[s.len() - 1]));
    lemma_digit_char_value(s.last());
    if s.len() == 1 {
        assert(init.len() == 0);
        assert(numeral_value(init) == 0);
        assert(seq![s.last()] =~= s);
    } else {
        assert(all_digits(init)) by {
            assert forall|i: int| 0 <= i < init.len() implies is_digit(#[trigger] init[i]) by {
                assert(init[i] == s[i]);
            }
        }
        assert(init[0] == s[0]);
        lemma_value_lower_bound(init);
        lemma_pow10_positive((init.len() - 1) as nat);
        lemma_decimal_digits_of_value(init);
        let v = numeral_value(s);
        assert(v >= 10);
        assert(v / 10 == numeral_value(init));
        assert(v % 10 == digit_value(s.last()));
        assert(init.push(s.last()) =~= s);
    }
}

/// The canonical numeral of a number is canonical and denotes the number.
pub proof fn lemma_decimal_digits_canonical(n: nat)
    ensures
        is_canonical(decimal_digits(n)),
        numeral_value(decimal_digits(n)) == n,
        n > 0 ==> decimal_digits(n)[0] != '0',
    decreases n,
{
    if n < 10 {
        let s = seq![digit_char(n)];
        lemma_digit_value_char(n);
        assert(s.drop_last().len() == 0);
        assert(numeral_value(s.drop_last()) == 0);
        assert(s.last() == digit_char(n));
    } else {
        let init = decimal_digits(n / 10);
        let s = init.push(digit_char(n % 10));
        lemma_decimal_digits_canonical(n / 10);
        lemma_digit_value_char(n % 10);
        assert(s.drop_last() =~= init);
        assert(s.last() == digit_char(n % 10));
        assert(s[0] == init[0]);
        assert(all_digits(s)) by {
            assert forall|i: int| 0 <= i < s.len() implies is_digit(#[trigger] s[i]) by {
                if i < init.len() {
                    assert(s[i] == init[i]);
                }
            }
        }
    }
}

/// Zeros at the end of a run are stripped together with those of the run
/// before them.
pub proof fn lemma_strip_trailing_appended_zeros(s: Seq<char>, n: nat)
    ensures
        strip_trailing_zeros(s + zeros(n)) == strip_trailing_zeros(s),
    decreases n,
{
    if n == 0 {
        assert(s + zeros(0) =~= s);
    } else {
        let t = s + zeros(n);
        assert(t.last() == '0');
        assert(t.drop_last() =~= s + zeros((n - 1) as nat));
        lemma_strip_trailing_appended_zeros(s, (n - 1) as nat);
    }
}

/// Stripping the zeros at the end leaves the front of the run, and what is
/// gone was zeros.
pub proof fn lemma_strip_trailing_is_prefix(s: Seq<char>)
    ensures
        strip_trailing_zeros(s).len() <= s.len(),
        s == strip_trailing_zeros(s) + zeros((s.len() - strip_trailing_zeros(s).len()) as nat),
        strip_trailing_zeros(s).len() > 0 ==> strip_trailing_zeros(s).last() != '0',
    decreases s.len(),
{
    if s.len() > 0 && s.last() == '0' {
        let init = s.drop_last();
        lemma_strip_trailing_is_prefix(init);
        let t = strip_trailing_zeros(init);
        let z = (init.len() - t.len()) as nat;
        assert(s =~= init.push('0'));
        assert(zeros(z + 1) =~= zeros(z).push('0'));
        assert(t + zeros(z).push('0') =~= (t + zeros(z)).push('0'));
    } else {
        assert(s =~= s + zeros(0));
    }
}

/// Written with `width` digits, a number shows its remainder by ten to the
/// `width`.
pub proof fn lemma_fixed_digits(n: nat, width: nat)
    ensures
        fixed_digits(n, width).len() == width,
        all_digits(fixed_digits(n, width)),
        numeral_value(fixed_digits(n, width)) == n % pow10(width),
    decreases width,
{
    if width > 0 {
        let init = fixed_digits(n / 10, (width - 1) as nat);
        let s = init.push(digit_char(n % 10));
        lemma_fixed_digits(n / 10, (width - 1) as nat);
        lemma_digit_value_char(n % 10);
        assert(s.drop_last() =~= init);
        assert(s.last() == digit_char(n % 10));
        assert(all_digits(s)) by {
            assert forall|i: int| 0 <= i < s.len() implies is_digit(#[trigger] s[i]) by {
                if i < init.len() {
                    assert(s[i] == init[i]);
                }
            }
        }
        lemma_pow10_positive((width - 1) as nat);
        vstd::arithmetic::div_mod::lemma_mod_breakdown(
            n as int,
            10,
            pow10((width - 1) as nat) as int,
        );
    }
}

} // verus!
