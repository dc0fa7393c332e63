//! Laws of numbers and sizes as text: what is shown can be read back.

use vstd::arithmetic::power2::{lemma_pow2_pos, lemma_pow2_unfold, pow2};
use vstd::prelude::*;

use crate::node::less;
use crate::text::{
    as_double, decimal, digit, double_step, half_even, size_text, two_decimals, unit_bytes,
    unit_name, unit_of,
};
use crate::tree::sat_add;

verus! {

/// Whether a character is a decimal digit.
pub open spec fn is_digit(c: char) -> bool {
    '0' as int <= c as int <= '9' as int
}

/// The number that decimal digits stand for, read from left to right.
pub open spec fn read_number(digits: Seq<char>) -> int
    decreases digits.len(),
{
    if digits.len() == 0 {
        0
    } else {
        10 * read_number(digits.drop_last()) + (digits.last() as int - '0' as int)
    }
}

/// A number in decimal can be read back, and begins with a zero only where it is
/// zero.
pub proof fn law_decimal_can_be_read_back(n: nat)
    ensures
        decimal(n).len() > 0,
        forall|i: int| 0 <= i < decimal(n).len() ==> is_digit(#[trigger] decimal(n)[i]),
        read_number(decimal(n)) == n,
        decimal(n)[0] == '0' <==> n == 0,
        n == 0 ==> decimal(n).len() == 1,
    decreases n,
{
    let t = decimal(n);
    if n < 10 {
        assert(t =~= seq![digit(n)]);
        assert(t.drop_last() =~= Seq::<char>::empty());
        reveal_with_fuel(read_number, 2);
        assert(digit(n) as int == '0' as int + n);
    } else {
        law_decimal_can_be_read_back(n / 10);
        assert(t.drop_last() =~= decimal(n / 10));
        assert(digit(n % 10) as int == '0' as int + n % 10);
        assert(t[0] == decimal(n / 10)[0]);
    }
}

/// Rounded division gives a nearest whole number, and the even one where two are
/// equally near.
pub proof fn law_rounding_is_to_the_nearest(n: nat, d: nat)
    requires
        d > 0,
    ensures
        -(d as int) <= 2 * (n - half_even(n, d) * d) <= d,
        (2 * (n - half_even(n, d) * d) == d || 2 * (n - half_even(n, d) * d) == -(d as int))
            ==> half_even(n, d) % 2 == 0,
{
    let (q, r) = ((n / d) as int, (n % d) as int);
    let (a, b) = (n as int, d as int);
    assert(a == q * b + r && 0 <= r < b) by (nonlinear_arith)
        requires
            b > 0,
            a >= 0,
            q == a / b,
            r == a % b,
    ;
    assert((q + 1) * b == q * b + b) by (nonlinear_arith);
}

/// Numbers below 2^53 are shown exactly; a larger one that lies between 2^(52+k)
/// and 2^(53+k) as the nearest multiple of 2^k, and the even one of two.
pub proof fn law_large_sizes_are_rounded(bytes: nat, k: nat)
    requires
        k > 0,
        pow2(52 + k) <= bytes < pow2(53 + k),
    ensures
        ({
            let step = pow2(k) as int;
            let q = as_double(bytes) as int / step;
            &&& as_double(bytes) == q * step
            &&& -step <= 2 * (bytes - q * step) <= step
            &&& (2 * (bytes - q * step) == step || 2 * (bytes - q * step) == -step) ==> q % 2 == 0
        }),
{
    lemma_step(bytes, k);
    lemma_pow2_pos(k);
    let step = pow2(k);
    law_rounding_is_to_the_nearest(bytes, step);
    let h = half_even(bytes, step);
    assert(bytes >= 0x20_0000_0000_0000) by {
        lemma_pow2_53();
        lemma_pow2_grows(53, 52 + k);
    }
    assert(as_double(bytes) == h * step);
    assert((h * step) as int / (step as int) == h) by (nonlinear_arith)
        requires
            step > 0,
    ;
}

/// Sizes below 2^53 are shown exactly.
pub proof fn law_ordinary_sizes_are_exact(bytes: nat)
    ensures
        bytes < 0x20_0000_0000_0000 ==> as_double(bytes) == bytes,
{
}

proof fn lemma_pow2_53()
    ensures
        pow2(53) == 0x20_0000_0000_0000,
{
    vstd::arithmetic::power2::lemma2_to64();
    vstd::arithmetic::power2::lemma2_to64_rest();
}

proof fn lemma_pow2_grows(a: nat, b: nat)
    requires
        a <= b,
    ensures
        pow2(a) <= pow2(b),
    decreases b,
{
    if a < b {
        lemma_pow2_grows(a, (b - 1) as nat);
        lemma_pow2_unfold(b);
    }
}

proof fn lemma_step(bytes: nat, k: nat)
    requires
        k > 0 ==> pow2(52 + k) <= bytes,
        bytes < pow2(53 + k),
    ensures
        double_step(bytes) == pow2(k),
    decreases k,
{
    lemma_pow2_53();
    if k == 0 {
        vstd::arithmetic::power2::lemma2_to64();
    } else {
        lemma_pow2_grows(53, 52 + k);
        lemma_pow2_unfold(53 + k);
        lemma_pow2_unfold(52 + k);
        lemma_pow2_unfold(k);
        assert(pow2(52 + k) == 2 * pow2((51 + k) as nat));
        assert(pow2(53 + k) == 2 * pow2((52 + k) as nat));
        lemma_step(bytes / 2, (k - 1) as nat);
    }
}

/// The number of hundredths that a text with two decimals stands for.
pub open spec fn read_hundredths(text: Seq<char>) -> int {
    let n = text.len();
    100 * read_number(text.take(n - 3)) + 10 * (text[n - 2] as int - '0' as int) + (text[n - 1] as int
        - '0' as int)
}

/// A number of hundredths can be read back from its text: digits, a point and two
/// more digits.
pub proof fn law_two_decimals_can_be_read_back(h: nat)
    ensures
        ({
            let t = two_decimals(h);
            let n = t.len();
            &&& n >= 4
            &&& t[n - 3] == '.'
            &&& is_digit(t[n - 2])
            &&& is_digit(t[n - 1])
            &&& forall|i: int| 0 <= i < n - 3 ==> is_digit(#[trigger] t[i])
            &&& t[0] == '0' ==> n == 4
            &&& read_hundredths(t) == h
        }),
{
    reveal_strlit(".");
    let whole = decimal(h / 100);
    let t = two_decimals(h);
    law_decimal_can_be_read_back(h / 100);
    assert(t.take(t.len() - 3) =~= whole);
    assert(h % 100 % 10 == h % 10);
    assert(digit(h % 100 / 10) as int == '0' as int + h % 100 / 10);
    assert(digit(h % 10) as int == '0' as int + h % 10);
}

/// A size below 1024 is shown in whole bytes.
pub proof fn law_small_sizes_are_whole(bytes: nat)
    requires
        bytes < 1024,
    ensures
        ({
            let t = size_text(bytes);
            let n = t.len();
            &&& n >= 3
            &&& t[n - 2] == ' '
            &&& t[n - 1] == 'B'
            &&& read_number(t.take(n - 2)) == bytes
            &&& forall|i: int| 0 <= i < n - 2 ==> is_digit(#[trigger] t[i])
            &&& t[0] == '0' ==> n == 3
        }),
{
    reveal_strlit(" ");
    reveal_strlit("B");
    law_decimal_can_be_read_back(bytes);
    let t = size_text(bytes);
    assert(t.take(t.len() - 2) =~= decimal(bytes));
    if t[0] == '0' {
        assert(decimal(bytes)[0] == '0');
    }
}

/// The letters of the units from kilobytes on.
pub open spec fn unit_letter(unit: int) -> char {
    if unit == 1 {
        'K'
    } else if unit == 2 {
        'M'
    } else if unit == 3 {
        'G'
    } else {
        'T'
    }
}

/// A size from 1024 on is shown in the largest unit of which it holds one, from
/// kilobytes to terabytes, as the nearest hundredth of that unit: the text can be
/// read back and is at most half a hundredth off what a double holds of the size.
pub proof fn law_large_sizes_have_two_decimals(bytes: nat, unit: int, per_unit: int)
    requires
        bytes >= 1024,
        unit == 1 && per_unit == 1024 && bytes < 1048576 || unit == 2 && per_unit == 1048576
            && 1048576 <= bytes < 1073741824 || unit == 3 && per_unit == 1073741824 && 1073741824
            <= bytes < 1099511627776 || unit == 4 && per_unit == 1099511627776 && 1099511627776
            <= bytes,
    ensures
        ({
            let t = size_text(bytes);
            let n = t.len();
            let h = read_hundredths(t.take(n - 3));
            &&& n >= 7
            &&& t[n - 3] == ' '
            &&& t[n - 2] == unit_letter(unit)
            &&& t[n - 1] == 'B'
            &&& t[n - 6] == '.'
            &&& forall|i: int| 0 <= i < n - 3 && i != n - 6 ==> is_digit(#[trigger] t[i])
            &&& -per_unit <= 2 * (100 * as_double(bytes) - h * per_unit) <= per_unit
            &&& (2 * (100 * as_double(bytes) - h * per_unit) == per_unit || 2 * (100 * as_double(
                bytes,
            ) - h * per_unit) == -per_unit) ==> h % 2 == 0
        }),
{
    reveal_strlit(" ");
    reveal_strlit("KB");
    reveal_strlit("MB");
    reveal_strlit("GB");
    reveal_strlit("TB");
    assert(unit_of(bytes) == unit);
    assert(unit_bytes(unit_of(bytes)) == per_unit);
    let scaled = as_double(bytes) * 100;
    let h = half_even(scaled, per_unit as nat);
    law_rounding_is_to_the_nearest(scaled, per_unit as nat);
    law_two_decimals_can_be_read_back(h);
    let number = two_decimals(h);
    let t = size_text(bytes);
    assert(t =~= number + " "@ + unit_name(unit as nat));
    assert(t.take(t.len() - 3) =~= number);
    assert forall|i: int| 0 <= i < t.len() - 3 && i != t.len() - 6 implies is_digit(
        #[trigger] t[i],
    ) by {
        assert(t[i] == number[i]);
    }
}

/// Taking off never goes below zero, and adding never above the largest value.
pub proof fn law_sums_and_differences_are_cut_off(a: u64, b: u64)
    ensures
        b <= a ==> less(a, b) == a - b,
        b > a ==> less(a, b) == 0,
        a + b <= u64::MAX ==> sat_add(a, b) == a + b,
        a + b > u64::MAX ==> sat_add(a, b) == u64::MAX,
{
}

} // verus!
