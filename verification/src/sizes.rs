//! Sizes in bytes as text: reading a decimal number with a unit suffix,
//! and writing a byte count in the largest fitting binary unit.

use vstd::prelude::*;
use vstd::arithmetic::div_mod::{
    lemma_div_denominator, lemma_div_is_ordered_by_denominator, lemma_div_multiples_vanish_fancy,
    lemma_fundamental_div_mod,
};
use crate::text::{
    all_digits, decimal, digit_value, digits_value, find_char, find_from, is_digit, lowercase,
    push_decimal, slice_of, to_chars, trim, trimmed, unicode_lowercase,
};

verus! {

pub const KIB: u64 = 1024;

pub const MIB: u64 = 1024 * 1024;

pub const GIB: u64 = 1024 * 1024 * 1024;

pub const TIB: u64 = 1024 * 1024 * 1024 * 1024;

pub open spec fn pow10(k: nat) -> nat
    decreases k,
{
    if k == 0 {
        1
    } else {
        10 * pow10((k - 1) as nat)
    }
}

pub open spec fn pow1024(k: nat) -> nat
    decreases k,
{
    if k == 0 {
        1
    } else {
        1024 * pow1024((k - 1) as nat)
    }
}

/// The length of the unit suffix of a lowercase size text, and the bytes
/// that one of the unit holds: `kb`, `mb`, `gb` and `tb` are binary
/// multiples, `b` and no suffix mean bytes.
pub open spec fn unit_suffix(t: Seq<char>) -> (int, nat) {
    let n = t.len() as int;
    if n >= 2 && t[n - 1] == 'b' && t[n - 2] == 'k' {
        (2, KIB as nat)
    } else if n >= 2 && t[n - 1] == 'b' && t[n - 2] == 'm' {
        (2, MIB as nat)
    } else if n >= 2 && t[n - 1] == 'b' && t[n - 2] == 'g' {
        (2, GIB as nat)
    } else if n >= 2 && t[n - 1] == 'b' && t[n - 2] == 't' {
        (2, TIB as nat)
    } else if n >= 1 && t[n - 1] == 'b' {
        (1, 1)
    } else {
        (0, 1)
    }
}

/// The number part of a lowercase size text: what stands before the unit.
pub open spec fn number_part(t: Seq<char>) -> Seq<char> {
    t.take(t.len() - unit_suffix(t).0)
}

/// Where the digits begin: after an optional sign.
pub open spec fn digits_start(s: Seq<char>) -> int {
    if s.len() > 0 && (s[0] == '+' || s[0] == '-') {
        1
    } else {
        0
    }
}

/// The digits before the decimal point.
pub open spec fn whole_digits(s: Seq<char>) -> Seq<char> {
    s.subrange(digits_start(s), find_from(s, '.', digits_start(s)))
}

/// The digits after the decimal point; none without a point.
pub open spec fn fraction_digits(s: Seq<char>) -> Seq<char> {
    let dot = find_from(s, '.', digits_start(s));
    if dot < s.len() {
        s.subrange(dot + 1, s.len() as int)
    } else {
        Seq::empty()
    }
}

/// A decimal number: an optional sign, digits, and optionally a point
/// and more digits, with at least one digit in all.
pub open spec fn is_number(s: Seq<char>) -> bool {
    all_digits(whole_digits(s)) && all_digits(fraction_digits(s)) && whole_digits(s).len()
        + fraction_digits(s).len() > 0
}

/// `unit` times the fraction `0.frac[i..]`, rounded down. Going from the
/// last digit to the first, each digit adds its share of the unit and the
/// sum so far moves one decimal place down.
pub open spec fn fraction_scaled(frac: Seq<char>, unit: nat, i: int) -> nat
    decreases frac.len() - i,
{
    if i < 0 || i >= frac.len() {
        0
    } else {
        ((digit_value(frac[i]) * unit + fraction_scaled(frac, unit, i + 1)) / 10) as nat
    }
}

/// The number `s` times `unit`, rounded down to whole bytes; a negative
/// number gives 0.
pub open spec fn number_times(s: Seq<char>, unit: nat) -> nat {
    if s.len() > 0 && s[0] == '-' {
        0
    } else {
        digits_value(whole_digits(s)) * unit + fraction_scaled(fraction_digits(s), unit, 0)
    }
}

pub open spec fn saturated(v: nat) -> u64 {
    if v > u64::MAX {
        u64::MAX
    } else {
        v as u64
    }
}

/// What a lowercase size text without surrounding white space stands for,
/// held at `u64::MAX`; nothing if its number part is no number.
pub open spec fn size_value(t: Seq<char>) -> Option<u64> {
    let number = trimmed(number_part(t));
    if is_number(number) {
        Some(saturated(number_times(number, unit_suffix(t).1)))
    } else {
        None
    }
}

/// The value of the digits `frac[i..]` read as a numeral.
pub open spec fn tail_value(frac: Seq<char>, i: int) -> nat {
    digits_value(frac.skip(i))
}

/// A numeral is its first digit at its place plus the rest.
pub proof fn lemma_digits_value_front(s: Seq<char>)
    requires
        s.len() > 0,
        all_digits(s),
    ensures
        digits_value(s) == digit_value(s[0]) * pow10((s.len() - 1) as nat) + digits_value(
            s.skip(1),
        ),
    decreases s.len(),
{
    assert(is_digit(s.last()));
    assert(is_digit(s[0]));
    if s.len() == 1 {
        assert(s.drop_last() =~= Seq::<char>::empty());
        assert(s.skip(1) =~= Seq::<char>::empty());
        assert(digits_value(s.drop_last()) == 0);
        assert(digits_value(s.skip(1)) == 0);
        let q = pow10((s.len() - 1) as nat) as int;
        assert(q == 1);
        let d = digit_value(s[0]);
        assert(d * q == d) by (nonlinear_arith)
            requires
                q == 1,
        ;
        assert(s.last() == s[0]);
        assert(digits_value(s) == d);
    } else {
        let init = s.drop_last();
        assert(all_digits(init)) by {
            assert forall|i: int| 0 <= i < init.len() implies is_digit(#[trigger] init[i]) by {
                assert(init[i] == s[i]);
            }
        }
        lemma_digits_value_front(init);
        let tail = s.skip(1);
        assert(init.skip(1) =~= tail.drop_last());
        assert(tail.last() == s.last());
        assert(init[0] == s[0]);
        let p = pow10((s.len() - 2) as nat) as int;
        assert(pow10((s.len() - 1) as nat) == 10 * p);
        let d = digit_value(s[0]);
        let rest = digits_value(init.skip(1)) as int;
        let last = digit_value(s.last());
        assert(digits_value(init) == d * p + rest);
        assert(digits_value(s) == digits_value(init) * 10 + last);
        assert(digits_value(tail) == rest * 10 + last);
        let q = pow10((s.len() - 1) as nat) as int;
        assert((d * p + rest) * 10 == d * q + rest * 10) by (nonlinear_arith)
            requires
                q == 10 * p,
        ;
        assert(digits_value(s) == d * q + digits_value(tail));
    }
}

/// `fraction_scaled` is the fraction times the unit, rounded down:
/// the digits as a numeral, times the unit, over the power of ten of
/// their count.
pub proof fn lemma_fraction_scaled(frac: Seq<char>, unit: nat, i: int)
    requires
        all_digits(frac),
        0 <= i <= frac.len(),
    ensures
        fraction_scaled(frac, unit, i) == (tail_value(frac, i) * unit) / pow10(
            (frac.len() - i) as nat,
        ),
    decreases frac.len() - i,
{
    if i == frac.len() {
        assert(frac.skip(i) =~= Seq::<char>::empty());
        assert(tail_value(frac, i) == 0);
        assert(pow10(0) == 1);
        assert(fraction_scaled(frac, unit, i) == 0);
        assert(0 * unit == 0);
    } else {
        lemma_fraction_scaled(frac, unit, i + 1);
        let tail = frac.skip(i);
        assert(all_digits(tail)) by {
            assert forall|k: int| 0 <= k < tail.len() implies is_digit(#[trigger] tail[k]) by {
                assert(tail[k] == frac[i + k]);
            }
        }
        lemma_digits_value_front(tail);
        assert(tail.skip(1) =~= frac.skip(i + 1));
        assert(tail[0] == frac[i]);
        assert(is_digit(frac[i]));
        let p = pow10((frac.len() - i - 1) as nat) as int;
        lemma_pow10_positive((frac.len() - i - 1) as nat);
        assert(pow10((frac.len() - i) as nat) == 10 * p);
        let d = digit_value(frac[i]);
        let rest = tail_value(frac, i + 1) as int;
        assert(tail_value(frac, i) == d * p + rest);
        let a = d * unit;
        let b = rest * unit;
        assert(a >= 0 && b >= 0) by (nonlinear_arith)
            requires
                a == d * unit,
                b == rest * unit,
                d >= 0,
                rest >= 0,
                unit >= 0,
        ;
        let x = a * p + b;
        assert(tail_value(frac, i) * unit == x) by (nonlinear_arith)
            requires
                tail_value(frac, i) == d * p + rest,
                a == d * unit,
                b == rest * unit,
                x == a * p + b,
        ;
        assert(x >= 0) by (nonlinear_arith)
            requires
                x == a * p + b,
                a >= 0,
                b >= 0,
                p > 0,
        ;
        lemma_div_denominator(x, p, 10);
        assert(x / (p * 10) == (x / p) / 10);
        lemma_fundamental_div_mod(b, p);
        let k = a + b / p;
        assert(p * k + b % p == x) by (nonlinear_arith)
            requires
                b == p * (b / p) + b % p,
                k == a + b / p,
                x == a * p + b,
        ;
        lemma_div_multiples_vanish_fancy(k, b % p, p);
        assert(x / p == k);
        assert(fraction_scaled(frac, unit, i + 1) == b / p);
        assert(fraction_scaled(frac, unit, i) == (a + b / p) / 10);
        assert(p * 10 == 10 * p);
    }
}

pub proof fn lemma_pow10_positive(k: nat)
    ensures
        pow10(k) > 0,
    decreases k,
{
    if k > 0 {
        lemma_pow10_positive((k - 1) as nat);
    }
}

/// The decimal fraction in the number, times the unit, rounded down: the
/// sum that `number_times` adds to the whole part.
pub proof fn lemma_number_fraction(s: Seq<char>, unit: nat)
    requires
        is_number(s),
    ensures
        fraction_scaled(fraction_digits(s), unit, 0) == (digits_value(fraction_digits(s)) * unit)
            / pow10(fraction_digits(s).len()),
{
    let frac = fraction_digits(s);
    lemma_fraction_scaled(frac, unit, 0);
    assert(frac.skip(0) =~= frac);
}

pub(crate) fn is_digits(v: &Vec<char>) -> (r: bool)
    ensures
        r == all_digits(v@),
{
    let mut i: usize = 0;
    while i < v.len()
        invariant
            i <= v@.len(),
            forall|k: int| 0 <= k < i ==> is_digit(#[trigger] v@[k]),
        decreases v@.len() - i,
    {
        let c = v[i];
        if !('0' <= c && c <= '9') {
            return false;
        }
        i += 1;
    }
    true
}

fn digit_of(c: char) -> (d: u64)
    requires
        is_digit(c),
    ensures
        d == digit_value(c),
        d <= 9,
{
    (c as u32 - '0' as u32) as u64
}

/// The numeral `v`, or nothing if it is above `u64::MAX`.
pub(crate) fn whole_value(v: &Vec<char>) -> (r: Option<u64>)
    requires
        all_digits(v@),
    ensures
        match r {
            Some(n) => n == digits_value(v@),
            None => digits_value(v@) > u64::MAX,
        },
{
    let mut acc: u64 = 0;
    let mut i: usize = 0;
    assert(v@.take(0) =~= Seq::<char>::empty());
    while i < v.len()
        invariant
            all_digits(v@),
            i <= v@.len(),
            acc == digits_value(v@.take(i as int)),
        decreases v@.len() - i,
    {
        let d = digit_of(v[i]);
        assert(v@.take(i + 1).drop_last() =~= v@.take(i as int));
        assert(v@.take(i + 1).last() == v@[i as int]);
        let next: u128 = acc as u128 * 10 + d as u128;
        if next > u64::MAX as u128 {
            proof {
                lemma_digits_value_grows(v@, i + 1);
            }
            return None;
        }
        acc = next as u64;
        i += 1;
    }
    assert(v@.take(v@.len() as int) =~= v@);
    Some(acc)
}

/// A numeral is at least each of its leading numerals.
proof fn lemma_digits_value_grows(s: Seq<char>, n: int)
    requires
        all_digits(s),
        0 <= n <= s.len(),
    ensures
        digits_value(s.take(n)) <= digits_value(s),
    decreases s.len() - n,
{
    if n < s.len() {
        lemma_digits_value_grows(s, n + 1);
        assert(s.take(n + 1).drop_last() =~= s.take(n));
        assert(is_digit(s[n]));
        assert(s.take(n + 1).last() == s[n]);
    } else {
        assert(s.take(n) =~= s);
    }
}

/// `fraction_scaled` from the first digit.
fn scale_fraction(frac: &Vec<char>, unit: u64) -> (r: u64)
    requires
        all_digits(frac@),
        unit <= TIB,
    ensures
        r == fraction_scaled(frac@, unit as nat, 0),
        r <= unit,
{
    let mut acc: u64 = 0;
    let mut i: usize = frac.len();
    while i > 0
        invariant
            all_digits(frac@),
            unit <= TIB,
            i <= frac@.len(),
            acc == fraction_scaled(frac@, unit as nat, i as int),
            acc <= unit,
        decreases i,
    {
        i -= 1;
        let d = digit_of(frac[i]);
        assert(d * unit <= 9 * unit) by (nonlinear_arith)
            requires
                d <= 9,
                unit >= 0,
        ;
        acc = (d * unit + acc) / 10;
    }
    acc
}

/// Reads the number `s` and scales it by `unit`.
fn parse_number(s: &Vec<char>, unit: u64) -> (r: Option<u64>)
    requires
        1 <= unit <= TIB,
    ensures
        r == if is_number(s@) {
            Some(saturated(number_times(s@, unit as nat)))
        } else {
            None
        },
{
    let n = s.len();
    let start: usize = if n > 0 && (s[0] == '+' || s[0] == '-') {
        1
    } else {
        0
    };
    let dot = find_char(s, '.', start);
    let whole = slice_of(s, start, dot);
    let frac = if dot < n {
        slice_of(s, dot + 1, n)
    } else {
        let empty: Vec<char> = Vec::new();
        assert(empty@ =~= Seq::<char>::empty());
        empty
    };
    assert(whole@ == whole_digits(s@));
    assert(frac@ == fraction_digits(s@));
    if !is_digits(&whole) || !is_digits(&frac) || whole.len() + frac.len() == 0 {
        return None;
    }
    if n > 0 && s[0] == '-' {
        return Some(0);
    }
    let part = scale_fraction(&frac, unit);
    match whole_value(&whole) {
        None => {
            assert(digits_value(whole@) * unit >= digits_value(whole@)) by (nonlinear_arith)
                requires
                    unit >= 1,
            ;
            Some(u64::MAX)
        },
        Some(w) => {
            assert(w * unit <= 0xffff_ffff_ffff_ffff * 0x100_0000_0000) by (nonlinear_arith)
                requires
                    0 <= w <= 0xffff_ffff_ffff_ffff,
                    0 <= unit <= 0x100_0000_0000,
            ;
            let total: u128 = w as u128 * unit as u128 + part as u128;
            if total > u64::MAX as u128 {
                Some(u64::MAX)
            } else {
                Some(total as u64)
            }
        },
    }
}

/// Reads a lowercase size text without surrounding white space: on
/// success the bytes it stands for, else its number part.
pub fn parse_size_text(t: &Vec<char>) -> (r: Result<u64, Vec<char>>)
    ensures
        match r {
            Ok(v) => size_value(t@) == Some(v),
            Err(number) => size_value(t@) is None && number@ == number_part(t@),
        },
{
    let n = t.len();
    let mut cut: usize = 0;
    let mut unit: u64 = 1;
    if n >= 2 && t[n - 1] == 'b' && t[n - 2] == 'k' {
        cut = 2;
        unit = KIB;
    } else if n >= 2 && t[n - 1] == 'b' && t[n - 2] == 'm' {
        cut = 2;
        unit = MIB;
    } else if n >= 2 && t[n - 1] == 'b' && t[n - 2] == 'g' {
        cut = 2;
        unit = GIB;
    } else if n >= 2 && t[n - 1] == 'b' && t[n - 2] == 't' {
        cut = 2;
        unit = TIB;
    } else if n >= 1 && t[n - 1] == 'b' {
        cut = 1;
    }
    let number = slice_of(t, 0, n - cut);
    assert(number@ =~= number_part(t@));
    let digits = trim(&number);
    match parse_number(&digits, unit) {
        Some(v) => Ok(v),
        None => Err(number),
    }
}

/// The byte count that the size text `s` stands for: a decimal number
/// with an optional unit (`b`, `kb`, `mb`, `gb`, `tb`, in any case),
/// rounded down to whole bytes. On failure the number part that could not
/// be read.
pub fn read_size(s: &str) -> (r: Result<u64, Vec<char>>)
    ensures
        match r {
            Ok(v) => size_value(unicode_lowercase(trimmed(s@))) == Some(v),
            Err(number) => size_value(unicode_lowercase(trimmed(s@))) is None && number@
                == number_part(unicode_lowercase(trimmed(s@))),
        },
{
    let chars = to_chars(s);
    let stripped = trim(&chars);
    let text = crate::text::string_of(&stripped);
    let lowered = lowercase(text.as_str());
    let t = to_chars(lowered.as_str());
    parse_size_text(&t)
}

/// The index of the unit that `bytes` is written in: the largest one, up
/// to `max_index`, that `bytes` fills at least once.
pub open spec fn unit_index(bytes: nat, max_index: nat) -> nat
    decreases max_index,
{
    if max_index == 0 {
        0
    } else if bytes >= pow1024(max_index) {
        max_index
    } else {
        unit_index(bytes, (max_index - 1) as nat)
    }
}

/// `num / den` rounded to the nearest whole number, a tie to the even one.
pub open spec fn round_half_even(num: nat, den: nat) -> nat {
    let q = num / den;
    let r = num % den;
    if 2 * r < den {
        q
    } else if 2 * r > den {
        q + 1
    } else if q % 2 == 0 {
        q
    } else {
        q + 1
    }
}

pub open spec fn unit_name(index: nat) -> Seq<char> {
    if index == 0 {
        seq!['B']
    } else if index == 1 {
        seq!['K', 'B']
    } else if index == 2 {
        seq!['M', 'B']
    } else if index == 3 {
        seq!['G', 'B']
    } else if index == 4 {
        seq!['T', 'B']
    } else {
        seq!['P', 'B']
    }
}

/// `v` written with exactly `places` digits, zeros in front.
pub open spec fn fixed_digits(v: nat, places: nat) -> Seq<char>
    decreases places,
{
    if places == 0 {
        Seq::empty()
    } else {
        fixed_digits(v / 10, (places - 1) as nat).push(crate::text::digit_char((v % 10) as int))
    }
}

/// A byte count for reading: below 1024 the plain count and `B`; else the
/// count in its unit, rounded to `places` decimals, and the unit's name.
pub open spec fn size_text(bytes: u64, max_index: nat, places: nat) -> Seq<char> {
    let index = unit_index(bytes as nat, max_index);
    if index == 0 {
        decimal(bytes as nat) + seq![' ', 'B']
    } else {
        let scaled = round_half_even(bytes as nat * pow10(places), pow1024(index));
        decimal(scaled / pow10(places)) + seq!['.'] + fixed_digits(scaled % pow10(places), places)
            + seq![' '] + unit_name(index)
    }
}

fn power_of_1024(k: usize) -> (r: u64)
    requires
        k <= 5,
    ensures
        r == pow1024(k as nat),
        r >= 1,
        r <= 0x4_0000_0000_0000,
{
    reveal_with_fuel(pow1024, 7);
    if k == 0 {
        1
    } else if k == 1 {
        1024
    } else if k == 2 {
        1024 * 1024
    } else if k == 3 {
        1024 * 1024 * 1024
    } else if k == 4 {
        1024 * 1024 * 1024 * 1024
    } else {
        1024 * 1024 * 1024 * 1024 * 1024
    }
}

fn push_digit(s: &mut String, d: u64)
    requires
        d <= 9,
    ensures
        final(s)@ == old(s)@.push(crate::text::digit_char(d as int)),
{
    let c: char = if d == 0 {
        '0'
    } else if d == 1 {
        '1'
    } else if d == 2 {
        '2'
    } else if d == 3 {
        '3'
    } else if d == 4 {
        '4'
    } else if d == 5 {
        '5'
    } else if d == 6 {
        '6'
    } else if d == 7 {
        '7'
    } else if d == 8 {
        '8'
    } else {
        '9'
    };
    s.push(c);
}

/// Finds the unit that `bytes` is written in.
fn pick_unit(bytes: u64, max_index: usize) -> (index: usize)
    requires
        max_index <= 5,
    ensures
        index == unit_index(bytes as nat, max_index as nat),
        index <= max_index,
{
    let mut index: usize = max_index;
    while index > 0 && bytes < power_of_1024(index)
        invariant
            index <= max_index <= 5,
            unit_index(bytes as nat, max_index as nat) == unit_index(bytes as nat, index as nat),
        decreases index,
    {
        index -= 1;
    }
    index
}

/// `bytes` in the unit of index `index`, in steps of one over `scale`,
/// rounded to the nearest step.
fn scaled_amount(bytes: u64, index: usize, scale: u64) -> (r: u64)
    requires
        1 <= index <= 5,
        scale == 10 || scale == 100,
    ensures
        r == round_half_even(bytes as nat * scale as nat, pow1024(index as nat)),
{
    let den: u128 = power_of_1024(index) as u128;
    assert(bytes * scale <= 0xffff_ffff_ffff_ffff * 100) by (nonlinear_arith)
        requires
            0 <= bytes <= 0xffff_ffff_ffff_ffff,
            0 <= scale <= 100,
    ;
    let num: u128 = bytes as u128 * scale as u128;
    let q: u128 = num / den;
    let rem: u128 = num % den;
    assert(den >= 1024) by {
        reveal_with_fuel(pow1024, 7);
    }
    assert(q <= num / 1024) by {
        lemma_div_is_ordered_by_denominator(num as int, 1024, den as int);
    }
    let scaled: u128 = if 2 * rem < den {
        q
    } else if 2 * rem > den {
        q + 1
    } else if q % 2 == 0 {
        q
    } else {
        q + 1
    };
    scaled as u64
}

/// Writes `bytes` with units up to the one of index `max_index` and
/// `places` decimals.
pub fn format_scaled(bytes: u64, max_index: usize, places: usize) -> (r: String)
    requires
        1 <= max_index <= 5,
        1 <= places <= 2,
    ensures
        r@ == size_text(bytes, max_index as nat, places as nat),
{
    let index = pick_unit(bytes, max_index);
    let mut s = String::new();
    if index == 0 {
        push_decimal(&mut s, bytes);
        s.push(' ');
        s.push('B');
        assert(s@ =~= decimal(bytes as nat) + seq![' ', 'B']);
        return s;
    }
    let scale: u64 = if places == 1 {
        10
    } else {
        100
    };
    assert(scale == pow10(places as nat)) by {
        reveal_with_fuel(pow10, 3);
    }
    let scaled = scaled_amount(bytes, index, scale);
    let whole: u64 = scaled / scale;
    let part: u64 = scaled % scale;
    push_decimal(&mut s, whole);
    s.push('.');
    push_fixed(&mut s, part, places);
    s.push(' ');
    push_unit(&mut s, index);
    assert(s@ =~= decimal(whole as nat) + seq!['.'] + fixed_digits(part as nat, places as nat)
        + seq![' '] + unit_name(index as nat));
    s
}

/// Appends `v` with exactly `places` digits.
fn push_fixed(s: &mut String, v: u64, places: usize)
    requires
        1 <= places <= 2,
    ensures
        final(s)@ == old(s)@ + fixed_digits(v as nat, places as nat),
{
    reveal_with_fuel(fixed_digits, 3);
    if places == 2 {
        push_digit(s, v / 10 % 10);
    }
    push_digit(s, v % 10);
    proof {
        let frac = fixed_digits(v as nat, places as nat);
        if places == 1 {
            assert(frac =~= seq![crate::text::digit_char((v % 10) as int)]);
        } else {
            assert(frac =~= seq![
                crate::text::digit_char((v / 10 % 10) as int),
                crate::text::digit_char((v % 10) as int),
            ]);
        }
        assert(final(s)@ =~= old(s)@ + frac);
    }
}

/// Appends the name of the unit of index `index`.
fn push_unit(s: &mut String, index: usize)
    requires
        1 <= index <= 5,
    ensures
        final(s)@ == old(s)@ + unit_name(index as nat),
{
    if index == 1 {
        s.push('K');
    } else if index == 2 {
        s.push('M');
    } else if index == 3 {
        s.push('G');
    } else if index == 4 {
        s.push('T');
    } else {
        s.push('P');
    }
    s.push('B');
    assert(final(s)@ =~= old(s)@ + unit_name(index as nat));
}

/// A byte count for reading, in units up to `TB` with one decimal:
/// `100 B`, `1.5 KB`, `1.0 MB`.
pub fn format_file_size(bytes: u64) -> (r: String)
    ensures
        r@ == size_text(bytes, 4, 1),
{
    format_scaled(bytes, 4, 1)
}

} // verus!
