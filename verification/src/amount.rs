//! Token amounts in smallest units, and their decimal notation with 18
//! fractional digits.

use vstd::prelude::*;
use vstd::string::*;
use vstd::arithmetic::div_mod::lemma_fundamental_div_mod_converse;
use crate::error::CoreError;
use crate::numeral::{
    all_digits, decimal_digits, fixed_digits, is_canonical, is_digit, numeral_value, pow10,
    strip_trailing_zeros, zeros, lemma_decimal_digits_canonical, lemma_decimal_digits_of_value,
    lemma_fixed_digits, lemma_fixed_digits_of_value, lemma_pow10_add, lemma_pow10_positive,
    lemma_strip_trailing_appended_zeros, lemma_strip_trailing_is_prefix, lemma_value_bound,
    lemma_value_concat, lemma_value_lower_bound, lemma_value_zeros,
};
use crate::word::{word_bound, Uint256};

verus! {

/// The number of fractional decimal digits of an amount.
pub const FRACTION_DIGITS: usize = 18;

/// The most fractional digits that are shown beside a whole part other than
/// zero.
pub const DISPLAY_DIGITS: usize = 4;

/// The place of the first decimal point in `s`, or the length of `s` where
/// it has none.
pub open spec fn point_index(s: Seq<char>) -> nat
    decreases s.len(),
{
    if s.len() == 0 || s[0] == '.' {
        0
    } else {
        1 + point_index(s.drop_first())
    }
}

/// What stands before the first decimal point.
pub open spec fn integer_part(s: Seq<char>) -> Seq<char> {
    s.take(point_index(s) as int)
}

/// What stands after the first decimal point; nothing where there is none.
pub open spec fn fraction_part(s: Seq<char>) -> Seq<char> {
    if point_index(s) < s.len() {
        s.skip(point_index(s) as int + 1)
    } else {
        Seq::empty()
    }
}

/// Whether `s` is a non-negative decimal number: one or more digits, and
/// then, if anything, a point and one or more digits. No sign, no exponent,
/// no blanks, and no point at either end.
pub open spec fn is_valid_amount(s: Seq<char>) -> bool {
    &&& integer_part(s).len() >= 1
    &&& all_digits(integer_part(s))
    &&& point_index(s) < s.len() ==> fraction_part(s).len() >= 1 && all_digits(fraction_part(s))
}

/// The amount that a valid decimal number stands for, in smallest units:
/// the number times ten to the 18th, rounded down to a whole number.
pub open spec fn amount_units(s: Seq<char>) -> nat {
    numeral_value(integer_part(s) + fraction_part(s)) * pow10(18) / pow10(fraction_part(s).len())
}

/// The 18 digits that a fraction comes to: zeros are added at the end of a
/// shorter one, and of a longer one the digits after the 18th are dropped.
pub open spec fn scaled_fraction(fraction: Seq<char>) -> Seq<char> {
    if fraction.len() >= 18 {
        fraction.take(18)
    } else {
        fraction + zeros((18 - fraction.len()) as nat)
    }
}

/// The fractional digits that are displayed for an amount: those of its 18
/// fractional digits that stand before the zeros at the end, and beside a
/// whole part other than zero no more than the first four of them.
pub open spec fn shown_fraction(units: nat) -> Seq<char> {
    let fraction = strip_trailing_zeros(fixed_digits(units % pow10(18), 18));
    if units / pow10(18) == 0 || fraction.len() <= 4 {
        fraction
    } else {
        fraction.take(4)
    }
}

/// The decimal text of an amount: the whole part, and the displayed
/// fractional digits after a point where there are any.
pub open spec fn format_units(units: nat) -> Seq<char> {
    let whole = decimal_digits(units / pow10(18));
    let fraction = shown_fraction(units);
    if fraction.len() == 0 {
        whole
    } else {
        whole + seq!['.'] + fraction
    }
}

/// The first point stands within the text or at its end, on a point where
/// within, and no point stands before it.
pub proof fn lemma_point_index(s: Seq<char>)
    ensures
        point_index(s) <= s.len(),
        point_index(s) < s.len() ==> s[point_index(s) as int] == '.',
        forall|i: int| 0 <= i < point_index(s) ==> s[i] != '.',
    decreases s.len(),
{
    if s.len() == 0 || s[0] == '.' {
    } else {
        let rest = s.drop_first();
        lemma_point_index(rest);
        assert forall|i: int| 0 <= i < point_index(s) implies s[i] != '.' by {
            if i > 0 {
                assert(s[i] == rest[i - 1]);
            }
        }
    }
}

/// A place with no point before it, which holds a point or is the end, is
/// the place of the first point.
pub proof fn lemma_point_index_is(s: Seq<char>, p: int)
    requires
        0 <= p <= s.len(),
        forall|i: int| 0 <= i < p ==> s[i] != '.',
        p == s.len() || s[p] == '.',
    ensures
        point_index(s) == p,
{
    lemma_point_index(s);
    let q = point_index(s) as int;
    if q < p {
        assert(s[q] == '.');
    } else if q > p {
        assert(s[p] == '.');
    }
}

/// A valid amount holds digits and at most one point, all of them ASCII.
pub proof fn lemma_valid_amount_is_ascii(s: Seq<char>)
    requires
        is_valid_amount(s),
    ensures
        vstd::utf8::is_ascii_chars(s),
{
    lemma_point_index(s);
    let p = point_index(s) as int;
    assert forall|i: int| 0 <= i < s.len() implies '\0' <= #[trigger] s[i] <= '\u{7f}' by {
        if i < p {
            assert(integer_part(s)[i] == s[i]);
            assert(is_digit(integer_part(s)[i]));
        } else if i > p {
            assert(fraction_part(s)[i - p - 1] == s[i]);
            assert(is_digit(fraction_part(s)[i - p - 1]));
        }
    }
}

/// Scaling a decimal number to 18 fractional digits and dropping the rest is
/// multiplying it by ten to the 18th and rounding down.
pub proof fn lemma_scaled_units(whole: Seq<char>, fraction: Seq<char>)
    requires
        all_digits(whole),
        all_digits(fraction),
    ensures
        numeral_value(whole + fraction) * pow10(18) / pow10(fraction.len()) == numeral_value(
            whole + scaled_fraction(fraction),
        ),
{
    let n = numeral_value(whole + fraction);
    let fl = fraction.len();
    lemma_pow10_positive(fl);
    if fl < 18 {
        let k = (18 - fl) as nat;
        lemma_pow10_add(fl, k);
        let pf = pow10(fl);
        let pk = pow10(k);
        assert(n * (pf * pk) == (n * pk) * pf + 0) by (nonlinear_arith);
        lemma_fundamental_div_mod_converse(
            (n * pow10(18)) as int,
            pf as int,
            (n * pk) as int,
            0,
        );
        assert(whole + (fraction + zeros(k)) =~= (whole + fraction) + zeros(k));
        lemma_value_concat(whole + fraction, zeros(k));
        lemma_value_zeros(k);
    } else {
        let k = (fl - 18) as nat;
        let head = fraction.take(18);
        let tail = fraction.skip(18);
        assert(whole + fraction =~= (whole + head) + tail);
        lemma_value_concat(whole + head, tail);
        assert(all_digits(tail)) by {
            assert forall|i: int| 0 <= i < tail.len() implies is_digit(#[trigger] tail[i]) by {
                assert(tail[i] == fraction[i + 18]);
            }
        }
        lemma_value_bound(tail);
        lemma_pow10_add(18, k);
        let m = numeral_value(whole + head);
        let r = numeral_value(tail);
        let p18 = pow10(18);
        let pk = pow10(k);
        lemma_pow10_positive(18);
        assert((m * pk + r) * p18 == m * (p18 * pk) + r * p18) by (nonlinear_arith);
        assert(r * p18 < p18 * pk) by (nonlinear_arith)
            requires
                r < pk,
                p18 > 0,
        ;
        lemma_fundamental_div_mod_converse(
            (n * p18) as int,
            pow10(fl) as int,
            m as int,
            (r * p18) as int,
        );
    }
}

/// Digits are ASCII.
pub proof fn lemma_digits_are_ascii(s: Seq<char>)
    requires
        all_digits(s),
    ensures
        vstd::utf8::is_ascii_chars(s),
{
    assert forall|i: int| 0 <= i < s.len() implies '\0' <= #[trigger] s[i] <= '\u{7f}' by {
        assert(is_digit(s[i]));
    }
}

/// Whether a byte is an ASCII decimal digit.
fn is_digit_byte(b: u8) -> (yes: bool)
    ensures
        yes == (48 <= b <= 57),
{
    b >= 48 && b <= 57
}

/// The number of digits at the start of `text[from..]`.
fn digit_run(text: &str, from: usize) -> (end: usize)
    requires
        text.is_ascii(),
        from <= text@.len(),
    ensures
        from <= end <= text@.len(),
        forall|i: int| from <= i < end ==> is_digit(#[trigger] text@[i]),
        end < text@.len() ==> !is_digit(text@[end as int]),
{
    let n: usize = text.unicode_len();
    let mut end: usize = from;
    let mut scanning: bool = true;
    while scanning && end < n
        invariant
            text.is_ascii(),
            n == text@.len(),
            from <= end <= n,
            forall|i: int| from <= i < end ==> is_digit(#[trigger] text@[i]),
            !scanning ==> end < n && !is_digit(text@[end as int]),
        decreases (n - end) + (if scanning { 1int } else { 0int }),
    {
        let b: u8 = text.get_ascii(end);
        if is_digit_byte(b) {
            end = end + 1;
        } else {
            scanning = false;
        }
    }
    end
}

/// The number of zeros at the end of `text[from..to]`.
fn trailing_zero_run(text: &str, from: usize, to: usize) -> (count: usize)
    requires
        text.is_ascii(),
        from <= to <= text@.len(),
    ensures
        count <= to - from,
        forall|i: int| to - count <= i < to ==> #[trigger] text@[i] == '0',
        count < to - from ==> text@[to - count - 1] != '0',
{
    let mut count: usize = 0;
    let mut scanning: bool = true;
    while scanning && count < to - from
        invariant
            text.is_ascii(),
            from <= to <= text@.len(),
            count <= to - from,
            forall|i: int| to - count <= i < to ==> #[trigger] text@[i] == '0',
            !scanning ==> count < to - from && text@[to - count - 1] != '0',
        decreases (to - from - count) + (if scanning { 1int } else { 0int }),
    {
        let b: u8 = text.get_ascii(to - count - 1);
        if b == 48 {
            count = count + 1;
        } else {
            scanning = false;
        }
    }
    count
}

/// The canonical numeral of the number that a run of digits denotes: the run
/// without its leading zeros, but for the last digit.
fn canonical_numeral(digits: &str) -> (numeral: String)
    requires
        all_digits(digits@),
        digits@.len() >= 1,
    ensures
        is_canonical(numeral@),
        numeral_value(numeral@) == numeral_value(digits@),
{
    proof {
        lemma_digits_are_ascii(digits@);
    }
    let n: usize = digits.unicode_len();
    let mut start: usize = 0;
    let mut scanning: bool = true;
    while scanning && start < n - 1
        invariant
            digits.is_ascii(),
            n == digits@.len(),
            n >= 1,
            start <= n - 1,
            forall|i: int| 0 <= i < start ==> #[trigger] digits@[i] == '0',
            !scanning ==> digits@[start as int] != '0',
        decreases (n - start) + (if scanning { 1int } else { 0int }),
    {
        let b: u8 = digits.get_ascii(start);
        if b == 48 {
            start = start + 1;
        } else {
            scanning = false;
        }
    }
    let kept: &str = digits.substring_ascii(start, n);
    proof {
        let lead = digits@.take(start as int);
        assert(lead =~= zeros(start as nat));
        assert(digits@ =~= lead + kept@);
        lemma_value_concat(lead, kept@);
        lemma_value_zeros(start as nat);
        assert(0 * pow10(kept@.len()) == 0);
        assert(all_digits(kept@)) by {
            assert forall|i: int| 0 <= i < kept@.len() implies is_digit(#[trigger] kept@[i]) by {
                assert(kept@[i] == digits@[i + start]);
            }
        }
        assert(kept@[0] == digits@[start as int]);
    }
    String::from_str(kept)
}

/// The text of an amount below one unit of the whole part: of a numeral `d`
/// of at most 18 digits that ends in exactly `z` zeros.
pub proof fn lemma_format_small(d: Seq<char>, z: nat)
    requires
        is_canonical(d),
        d.len() <= 18,
        z <= d.len(),
        forall|i: int| d.len() - z <= i < d.len() ==> #[trigger] d[i] == '0',
        z < d.len() ==> d[d.len() - z - 1] != '0',
    ensures
        z == d.len() ==> format_units(numeral_value(d)) == seq!['0'],
        z < d.len() ==> format_units(numeral_value(d)) == seq!['0', '.'] + zeros(
            (18 - d.len()) as nat,
        ) + d.take(d.len() - z),
{
    let v = numeral_value(d);
    let len = d.len();
    let pad = zeros((18 - len) as nat);
    lemma_value_bound(d);
    lemma_pow10_add(len, (18 - len) as nat);
    lemma_pow10_positive((18 - len) as nat);
    lemma_pow10_positive(len);
    assert(pow10(len) <= pow10(len) * pow10((18 - len) as nat)) by (nonlinear_arith)
        requires
            pow10((18 - len) as nat) >= 1,
    ;
    lemma_fundamental_div_mod_converse(v as int, pow10(18) as int, 0, v as int);
    assert(decimal_digits(0) =~= seq!['0']);
    let padded = pad + d;
    lemma_value_zeros((18 - len) as nat);
    assert(all_digits(padded)) by {
        assert forall|i: int| 0 <= i < padded.len() implies is_digit(#[trigger] padded[i]) by {
            if i >= pad.len() {
                assert(padded[i] == d[i - pad.len()]);
            }
        }
    }
    lemma_value_concat(pad, d);
    assert(0 * pow10(len) == 0);
    lemma_fixed_digits_of_value(padded);
    let t = d.take(len - z);
    assert(padded =~= (pad + t) + zeros(z));
    lemma_strip_trailing_appended_zeros(pad + t, z);
    if z == len {
        assert(pad + t =~= Seq::<char>::empty() + pad);
        lemma_strip_trailing_appended_zeros(Seq::<char>::empty(), (18 - len) as nat);
        assert(strip_trailing_zeros(Seq::<char>::empty()).len() == 0);
    } else {
        assert((pad + t).last() == d[len - z - 1]);
        assert(strip_trailing_zeros(pad + t) == pad + t);
        assert(seq!['0'] + seq!['.'] + (pad + t) =~= seq!['0', '.'] + pad + t);
    }
}

/// The text of an amount of one unit of the whole part or more: of a numeral
/// `d` of more than 18 digits whose last 18 end in exactly `z` zeros.
pub proof fn lemma_format_large(d: Seq<char>, z: nat)
    requires
        is_canonical(d),
        d.len() > 18,
        z <= 18,
        forall|i: int| d.len() - z <= i < d.len() ==> #[trigger] d[i] == '0',
        z < 18 ==> d[d.len() - z - 1] != '0',
    ensures
        z == 18 ==> format_units(numeral_value(d)) == d.take(d.len() - 18),
        z < 18 ==> format_units(numeral_value(d)) == d.take(d.len() - 18) + seq!['.']
            + d.subrange(
            d.len() - 18,
            d.len() - 18 + (if 18 - z <= 4 {
                18 - z
            } else {
                4
            }),
        ),
{
    let v = numeral_value(d);
    let len = d.len();
    let whole = d.take(len - 18);
    let fraction = d.skip(len - 18);
    assert(d =~= whole + fraction);
    lemma_value_concat(whole, fraction);
    assert(all_digits(whole)) by {
        assert forall|i: int| 0 <= i < whole.len() implies is_digit(#[trigger] whole[i]) by {
            assert(whole[i] == d[i]);
        }
    }
    assert(all_digits(fraction)) by {
        assert forall|i: int| 0 <= i < fraction.len() implies is_digit(#[trigger] fraction[i]) by {
            assert(fraction[i] == d[i + len - 18]);
        }
    }
    lemma_value_bound(fraction);
    lemma_pow10_positive(18);
    let w = numeral_value(whole);
    let f = numeral_value(fraction);
    lemma_fundamental_div_mod_converse(v as int, pow10(18) as int, w as int, f as int);
    assert(whole[0] == d[0]);
    lemma_decimal_digits_of_value(whole);
    lemma_value_lower_bound(whole);
    lemma_pow10_positive((whole.len() - 1) as nat);
    lemma_fixed_digits_of_value(fraction);
    let t = fraction.take(18 - z);
    assert(fraction =~= t + zeros(z));
    lemma_strip_trailing_appended_zeros(t, z);
    if z < 18 {
        assert(t.last() == d[len - z - 1]);
        assert(strip_trailing_zeros(t) == t);
        if 18 - z <= 4 {
            assert(t =~= d.subrange(len - 18, len - 18 + (18 - z)));
        } else {
            assert(t.take(4) =~= d.subrange(len - 18, len - 18 + 4));
        }
    } else {
        assert(strip_trailing_zeros(t) == t);
    }
}

/// A decimal number as it is displayed when nothing is cut: the whole part
/// as written, and the fraction without the zeros at its end, after a point
/// where any digit of it is left.
pub open spec fn normalized(s: Seq<char>) -> Seq<char> {
    let fraction = strip_trailing_zeros(fraction_part(s));
    if fraction.len() == 0 {
        integer_part(s)
    } else {
        integer_part(s) + seq!['.'] + fraction
    }
}

/// Reading a decimal number and displaying the amount gives the number
/// back, without the zeros at the end of its fraction.
///
/// This holds of a number whose whole part has no leading zeros and whose
/// fraction has at most 18 digits, provided nothing is cut for display: the
/// whole part is zero, or at most four fractional digits stand before the
/// zeros at the end.
pub proof fn lemma_format_parse_round_trip(s: Seq<char>)
    requires
        is_valid_amount(s),
        is_canonical(integer_part(s)),
        fraction_part(s).len() <= 18,
        numeral_value(integer_part(s)) == 0 || strip_trailing_zeros(fraction_part(s)).len() <= 4,
    ensures
        format_units(amount_units(s)) == normalized(s),
{
    let whole = integer_part(s);
    let fraction = fraction_part(s);
    let scaled = scaled_fraction(fraction);
    let k = (18 - fraction.len()) as nat;
    lemma_point_index(s);
    assert(all_digits(fraction));
    lemma_scaled_units(whole, fraction);
    lemma_value_concat(whole, scaled);
    lemma_value_zeros(k);
    assert(scaled =~= fraction + zeros(k));
    assert(all_digits(scaled)) by {
        assert forall|i: int| 0 <= i < scaled.len() implies is_digit(#[trigger] scaled[i]) by {
            if i < fraction.len() {
                assert(scaled[i] == fraction[i]);
            } else {
                assert(scaled[i] == zeros(k)[i - fraction.len()]);
            }
        }
    }
    lemma_value_bound(scaled);
    lemma_pow10_positive(18);
    let v = amount_units(s);
    let w = numeral_value(whole);
    let f = numeral_value(scaled);
    lemma_fundamental_div_mod_converse(v as int, pow10(18) as int, w as int, f as int);
    lemma_fixed_digits_of_value(scaled);
    lemma_strip_trailing_appended_zeros(fraction, k);
    lemma_decimal_digits_of_value(whole);
}

/// Fractional digits after the 18th do not count: whatever digits follow
/// them, the amount read is the same.
pub proof fn lemma_parse_drops_excess_digits(s: Seq<char>, excess: Seq<char>)
    requires
        is_valid_amount(s),
        fraction_part(s).len() >= 18,
        all_digits(excess),
    ensures
        is_valid_amount(s + excess),
        amount_units(s + excess) == amount_units(s),
{
    let t = s + excess;
    let p = point_index(s) as int;
    lemma_point_index(s);
    assert(t[p] == s[p]);
    assert forall|i: int| 0 <= i < p implies t[i] != '.' by {
        assert(t[i] == s[i]);
    }
    lemma_point_index_is(t, p);
    let whole = integer_part(s);
    let fraction = fraction_part(s);
    assert(integer_part(t) =~= whole);
    assert(fraction_part(t) =~= fraction + excess);
    assert(all_digits(fraction + excess)) by {
        assert forall|i: int| 0 <= i < (fraction + excess).len() implies is_digit(
            #[trigger] (fraction + excess)[i],
        ) by {
            if i < fraction.len() {
                assert((fraction + excess)[i] == fraction[i]);
            } else {
                assert((fraction + excess)[i] == excess[i - fraction.len()]);
            }
        }
    }
    lemma_scaled_units(whole, fraction);
    lemma_scaled_units(whole, fraction + excess);
    assert(scaled_fraction(fraction + excess) =~= scaled_fraction(fraction));
}

/// The amount read from a decimal number is never more than the number:
/// what is lost in reading is less than one smallest unit.
pub proof fn lemma_parse_rounds_down(s: Seq<char>)
    requires
        is_valid_amount(s),
    ensures
        amount_units(s) * pow10(fraction_part(s).len()) <= numeral_value(
            integer_part(s) + fraction_part(s),
        ) * pow10(18),
        numeral_value(integer_part(s) + fraction_part(s)) * pow10(18) < (amount_units(s) + 1)
            * pow10(fraction_part(s).len()),
{
    let x = (numeral_value(integer_part(s) + fraction_part(s)) * pow10(18)) as int;
    let d = pow10(fraction_part(s).len()) as int;
    lemma_pow10_positive(fraction_part(s).len());
    vstd::arithmetic::div_mod::lemma_fundamental_div_mod(x, d);
    vstd::arithmetic::div_mod::lemma_mod_bound(x, d);
    assert(d * (x / d) == (x / d) * d) by (nonlinear_arith);
    assert((x / d + 1) * d == (x / d) * d + d) by (nonlinear_arith);
}

/// Beside a whole part of one or more, no more than four fractional digits
/// are displayed, however many the amount has.
pub proof fn lemma_display_cap(units: nat)
    requires
        units >= pow10(18),
    ensures
        shown_fraction(units).len() <= 4,
        format_units(units).len() <= decimal_digits(units / pow10(18)).len() + 5,
        format_units(units).take(decimal_digits(units / pow10(18)).len() as int)
            == decimal_digits(units / pow10(18)),
{
    lemma_pow10_positive(18);
    vstd::arithmetic::div_mod::lemma_div_non_zero(units as int, pow10(18) as int);
    let whole = decimal_digits(units / pow10(18));
    let fraction = shown_fraction(units);
    if fraction.len() == 0 {
        assert(whole.take(whole.len() as int) =~= whole);
    } else {
        assert((whole + seq!['.'] + fraction).take(whole.len() as int) =~= whole);
    }
}

/// What is displayed never exceeds the amount: the text of an amount is a
/// valid decimal number, and reading it gives the amount or less.
pub proof fn lemma_display_never_exceeds(units: nat)
    ensures
        is_valid_amount(format_units(units)),
        amount_units(format_units(units)) <= units,
{
    let w = units / pow10(18);
    let r = units % pow10(18);
    let whole = decimal_digits(w);
    let all = fixed_digits(r, 18);
    let stripped = strip_trailing_zeros(all);
    let shown = shown_fraction(units);
    let text = format_units(units);
    lemma_pow10_positive(18);
    vstd::arithmetic::div_mod::lemma_fundamental_div_mod(units as int, pow10(18) as int);
    vstd::arithmetic::div_mod::lemma_mod_bound(units as int, pow10(18) as int);
    vstd::arithmetic::div_mod::lemma_mod_twice(units as int, pow10(18) as int);
    assert(pow10(18) * w == w * pow10(18)) by (nonlinear_arith);
    lemma_decimal_digits_canonical(w);
    lemma_fixed_digits(r, 18);
    lemma_strip_trailing_is_prefix(all);
    assert(shown =~= all.take(shown.len() as int));
    assert(all_digits(shown)) by {
        assert forall|i: int| 0 <= i < shown.len() implies is_digit(#[trigger] shown[i]) by {
            assert(shown[i] == all[i]);
        }
    }
    assert forall|i: int| 0 <= i < whole.len() implies text[i] != '.' by {
        assert(text[i] == whole[i]);
        assert(is_digit(whole[i]));
    }
    lemma_point_index_is(text, whole.len() as int);
    assert(integer_part(text) =~= whole);
    assert(fraction_part(text) =~= shown);
    lemma_scaled_units(whole, shown);
    let scaled = scaled_fraction(shown);
    let k = (18 - shown.len()) as nat;
    lemma_value_concat(whole, scaled);
    lemma_value_concat(shown, zeros(k));
    lemma_value_zeros(k);
    let rest = all.skip(shown.len() as int);
    assert(all =~= shown + rest);
    lemma_value_concat(shown, rest);
    assert(scaled =~= shown + zeros(k));
    assert(numeral_value(scaled) <= r);
}

/// A non-negative quantity of a token in its smallest unit, of any size. It
/// is read with 18 fractional decimal digits; which token it counts is for
/// the caller to know.
#[derive(Debug)]
pub struct FixedPointAmount {
    /// The canonical decimal numeral of the quantity.
    digits: String,
}

impl View for FixedPointAmount {
    type V = nat;

    closed spec fn view(&self) -> nat {
        numeral_value(self.digits@)
    }
}

impl FixedPointAmount {
    #[verifier::type_invariant]
    spec fn well_formed(self) -> bool {
        is_canonical(self.digits@)
    }

    /// The amount of nothing.
    pub fn zero() -> (amount: FixedPointAmount)
        ensures
            amount@ == 0,
    {
        let digits = String::from_str("0");
        proof {
            reveal_strlit("0");
            assert(digits@ =~= seq!['0']);
            assert(digits@.drop_last().len() == 0);
            assert(numeral_value(digits@.drop_last()) == 0);
        }
        FixedPointAmount { digits }
    }

    /// The amount that a word of the chain holds.
    pub fn from_word(word: &Uint256) -> (amount: FixedPointAmount)
        ensures
            amount@ == word@,
    {
        FixedPointAmount { digits: word.to_decimal() }
    }

    /// The amount as a word of the chain, where it fits in one.
    pub fn to_word(&self) -> (word: Option<Uint256>)
        ensures
            word is Some <==> self@ < word_bound(),
            word is Some ==> word->0@ == self@,
    {
        proof {
            use_type_invariant(self);
        }
        Uint256::from_decimal(self.digits.as_str())
    }

    /// The amount of a whole number of smallest units, written in decimal
    /// digits. `None` for text that is empty or holds anything but digits.
    pub fn from_unit_digits(text: &str) -> (amount: Option<FixedPointAmount>)
        ensures
            amount is Some <==> text@.len() >= 1 && all_digits(text@),
            amount is Some ==> amount->0@ == numeral_value(text@),
    {
        if !text.is_ascii() {
            proof {
                if all_digits(text@) {
                    lemma_digits_are_ascii(text@);
                }
            }
            return None;
        }
        let n: usize = text.unicode_len();
        if n == 0 || digit_run(text, 0) < n {
            return None;
        }
        Some(FixedPointAmount { digits: canonical_numeral(text) })
    }

    /// The number of smallest units in decimal digits, without leading
    /// zeros.
    pub fn unit_digits(&self) -> (text: String)
        ensures
            is_canonical(text@),
            numeral_value(text@) == self@,
    {
        proof {
            use_type_invariant(self);
        }
        self.digits.clone()
    }

    /// Whether two amounts are the same quantity.
    pub fn same_as(&self, other: &FixedPointAmount) -> (same: bool)
        ensures
            same == (self@ == other@),
    {
        proof {
            use_type_invariant(self);
            use_type_invariant(other);
            lemma_decimal_digits_of_value(self.digits@);
            lemma_decimal_digits_of_value(other.digits@);
        }
        self.digits == other.digits
    }
}

impl Clone for FixedPointAmount {
    fn clone(&self) -> (copy: FixedPointAmount)
        ensures
            copy@ == self@,
    {
        proof {
            use_type_invariant(self);
        }
        FixedPointAmount { digits: self.digits.clone() }
    }
}

/// Reads a decimal number as an amount with 18 fractional digits.
///
/// The text must be one or more digits, optionally followed by a point and
/// one or more digits. Fractional digits after the 18th are dropped, never
/// rounded up.
pub fn parse_decimal_to_units(input: &str) -> (result: Result<FixedPointAmount, CoreError>)
    ensures
        match result {
            Ok(amount) => is_valid_amount(input@) && amount@ == amount_units(input@),
            Err(e) => !is_valid_amount(input@) && e == CoreError::InvalidAmountFormat,
        },
{
    if !input.is_ascii() {
        proof {
            if is_valid_amount(input@) {
                lemma_valid_amount_is_ascii(input@);
            }
        }
        return Err(CoreError::InvalidAmountFormat);
    }
    let n: usize = input.unicode_len();
    let p: usize = digit_run(input, 0);
    proof {
        lemma_point_index(input@);
    }
    if p == 0 {
        proof {
            if n > 0 && input@[0] != '.' {
                assert(point_index(input@) >= 1);
                assert(integer_part(input@)[0] == input@[0]);
            }
        }
        return Err(CoreError::InvalidAmountFormat);
    }
    let mut fraction_start: usize = n;
    if p < n {
        let b: u8 = input.get_ascii(p);
        if b != 46 {
            proof {
                let q = point_index(input@) as int;
                if q < p {
                    assert(is_digit(input@[q]));
                }
                assert(q > p);
                assert(integer_part(input@)[p as int] == input@[p as int]);
            }
            return Err(CoreError::InvalidAmountFormat);
        }
        proof {
            assert forall|i: int| 0 <= i < p implies input@[i] != '.' by {
                assert(is_digit(input@[i]));
            }
            lemma_point_index_is(input@, p as int);
        }
        fraction_start = p + 1;
        let q: usize = digit_run(input, fraction_start);
        if q == fraction_start || q < n {
            proof {
                if fraction_start < n {
                    assert(fraction_part(input@)[q - fraction_start] == input@[q as int]);
                }
            }
            return Err(CoreError::InvalidAmountFormat);
        }
        proof {
            assert forall|i: int| 0 <= i < fraction_part(input@).len() implies is_digit(
                #[trigger] fraction_part(input@)[i],
            ) by {
                assert(fraction_part(input@)[i] == input@[i + fraction_start]);
            }
        }
    } else {
        proof {
            assert forall|i: int| 0 <= i < p implies input@[i] != '.' by {
                assert(is_digit(input@[i]));
            }
            lemma_point_index_is(input@, n as int);
        }
    }
    let ghost whole = integer_part(input@);
    let ghost fraction = fraction_part(input@);
    proof {
        assert(whole =~= input@.subrange(0, p as int));
        assert(fraction =~= input@.subrange(fraction_start as int, n as int));
        assert(all_digits(whole)) by {
            assert forall|i: int| 0 <= i < whole.len() implies is_digit(#[trigger] whole[i]) by {
                assert(whole[i] == input@[i]);
            }
        }
    }
    let fraction_len: usize = n - fraction_start;
    let kept: usize = if fraction_len < FRACTION_DIGITS {
        fraction_len
    } else {
        FRACTION_DIGITS
    };
    let mut digits: String = String::from_str(input.substring_ascii(0, p));
    digits.append(input.substring_ascii(fraction_start, fraction_start + kept));
    let mut filled: usize = kept;
    proof {
        assert(fraction.take(kept as int) =~= input@.subrange(
            fraction_start as int,
            fraction_start + kept,
        ));
        assert(digits@ =~= whole + fraction.take(kept as int) + zeros(0));
    }
    while filled < FRACTION_DIGITS
        invariant
            kept <= filled <= FRACTION_DIGITS,
            kept <= fraction.len(),
            digits@ == whole + fraction.take(kept as int) + zeros((filled - kept) as nat),
        decreases FRACTION_DIGITS - filled,
    {
        proof {
            reveal_strlit("0");
        }
        let ghost before = digits@;
        digits.append("0");
        filled = filled + 1;
        proof {
            assert(zeros((filled - kept) as nat) =~= zeros((filled - 1 - kept) as nat) + "0"@);
            assert(digits@ =~= whole + fraction.take(kept as int) + zeros((filled - kept) as nat));
        }
    }
    proof {
        if fraction.len() < 18 {
            assert(fraction.take(kept as int) =~= fraction);
        }
        assert(digits@ =~= whole + scaled_fraction(fraction));
        lemma_scaled_units(whole, fraction);
        lemma_value_zeros((18 - kept) as nat);
        assert(all_digits(digits@)) by {
            assert forall|i: int| 0 <= i < digits@.len() implies is_digit(#[trigger] digits@[i]) by {
                if i < whole.len() {
                    assert(digits@[i] == whole[i]);
                } else if i < whole.len() + kept {
                    assert(digits@[i] == fraction[i - whole.len()]);
                } else {
                    assert(digits@[i] == zeros((18 - kept) as nat)[i - whole.len() - kept]);
                }
            }
        }
    }
    Ok(FixedPointAmount { digits: canonical_numeral(digits.as_str()) })
}

/// Writes an amount as a decimal number for display.
///
/// Below one, every fractional digit up to the last that is not zero is
/// written after `0.`; zero is written `0`. From one on, the whole part is
/// followed by at most four fractional digits, and by none where the
/// fraction is zero. Nothing is rounded.
pub fn format_units_to_decimal(value: &FixedPointAmount) -> (text: String)
    ensures
        text@ == format_units(value@),
{
    proof {
        use_type_invariant(value);
        lemma_digits_are_ascii(value.digits@);
    }
    let digits: &str = value.digits.as_str();
    let len: usize = digits.unicode_len();
    if len <= FRACTION_DIGITS {
        let z: usize = trailing_zero_run(digits, 0, len);
        proof {
            lemma_format_small(digits@, z as nat);
        }
        if z == len {
            proof {
                reveal_strlit("0");
                assert("0"@ =~= seq!['0']);
            }
            return String::from_str("0");
        }
        let mut text: String = String::from_str("0.");
        let mut filled: usize = len;
        proof {
            reveal_strlit("0.");
            assert(text@ =~= seq!['0', '.'] + zeros(0));
        }
        while filled < FRACTION_DIGITS
            invariant
                len <= filled <= FRACTION_DIGITS,
                text@ == seq!['0', '.'] + zeros((filled - len) as nat),
            decreases FRACTION_DIGITS - filled,
        {
            proof {
                reveal_strlit("0");
            }
            text.append("0");
            filled = filled + 1;
            proof {
                assert(zeros((filled - len) as nat) =~= zeros((filled - 1 - len) as nat) + "0"@);
                assert(text@ =~= seq!['0', '.'] + zeros((filled - len) as nat));
            }
        }
        text.append(digits.substring_ascii(0, len - z));
        proof {
            assert(digits@.subrange(0, len - z) =~= digits@.take(len - z));
        }
        text
    } else {
        let split: usize = len - FRACTION_DIGITS;
        let z: usize = trailing_zero_run(digits, split, len);
        proof {
            lemma_format_large(digits@, z as nat);
            assert(digits@.subrange(0, split as int) =~= digits@.take(split as int));
        }
        let mut text: String = String::from_str(digits.substring_ascii(0, split));
        if z == FRACTION_DIGITS {
            return text;
        }
        let significant: usize = FRACTION_DIGITS - z;
        let shown: usize = if significant <= DISPLAY_DIGITS {
            significant
        } else {
            DISPLAY_DIGITS
        };
        proof {
            reveal_strlit(".");
            assert("."@ =~= seq!['.']);
        }
        text.append(".");
        text.append(digits.substring_ascii(split, split + shown));
        text
    }
}

/// Writes a word of the chain, read as an amount in smallest units, as a
/// decimal number for display.
pub fn format_ether(wei: &Uint256) -> (text: String)
    ensures
        text@ == format_units(wei@),
{
    let amount = FixedPointAmount::from_word(wei);
    format_units_to_decimal(&amount)
}

} // verus!
