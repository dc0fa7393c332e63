//! Text for the front ends: numbers, sizes, clipped names and padded columns.

use vstd::prelude::*;
use vstd::string::{StrSliceExecFns, StringExecFns};
use vstd::utf8::encode_utf8;

verus! {

/// The value of a string that may be missing.
pub open spec fn text_view(text: Option<String>) -> Option<Seq<char>> {
    match text {
        Some(t) => Some(t@),
        None => None,
    }
}

/// The decimal digit `d`.
pub open spec fn digit(d: nat) -> char
    recommends
        d < 10,
{
    (('0' as u32) + d) as char
}

/// `n` in decimal.
pub open spec fn decimal(n: nat) -> Seq<char>
    decreases n,
{
    if n < 10 {
        seq![digit(n)]
    } else {
        decimal(n / 10).push(digit(n % 10))
    }
}

/// `n / d`, rounded to the nearest integer, and to the even one of two that are
/// equally near.
pub open spec fn half_even(n: nat, d: nat) -> nat
    recommends
        d > 0,
{
    let q = n / d;
    let r = n % d;
    if 2 * r > d || (2 * r == d && q % 2 == 1) {
        q + 1
    } else {
        q
    }
}

/// The distance between double precision numbers of the magnitude of `bytes`,
/// where that is at least one.
pub open spec fn double_step(bytes: nat) -> nat
    decreases bytes,
{
    if bytes < 0x20_0000_0000_0000 {
        1
    } else {
        2 * double_step(bytes / 2)
    }
}

/// `bytes` to the precision in which sizes are shown, that of a double: exact as
/// long as every whole number is one, and rounded to the nearest one above that.
pub open spec fn as_double(bytes: nat) -> nat {
    if bytes < 0x20_0000_0000_0000 {
        bytes
    } else {
        half_even(bytes, double_step(bytes)) * double_step(bytes)
    }
}

/// How many times `bytes` is divided by 1024 to be shown: as often as at least
/// one whole unit is left, and at most four times.
pub open spec fn unit_of(bytes: nat) -> nat {
    if bytes < 1024 {
        0
    } else if bytes < 1024 * 1024 {
        1
    } else if bytes < 1024 * 1024 * 1024 {
        2
    } else if bytes < 1024 * 1024 * 1024 * 1024 {
        3
    } else {
        4
    }
}

/// The bytes in one unit.
pub open spec fn unit_bytes(unit: nat) -> nat {
    if unit == 0 {
        1
    } else if unit == 1 {
        1024
    } else if unit == 2 {
        1024 * 1024
    } else if unit == 3 {
        1024 * 1024 * 1024
    } else {
        1024 * 1024 * 1024 * 1024
    }
}

/// The name of a unit.
pub open spec fn unit_name(unit: nat) -> Seq<char> {
    if unit == 0 {
        "B"@
    } else if unit == 1 {
        "KB"@
    } else if unit == 2 {
        "MB"@
    } else if unit == 3 {
        "GB"@
    } else {
        "TB"@
    }
}

/// A number of hundredths, with two decimals.
pub open spec fn two_decimals(hundredths: nat) -> Seq<char> {
    decimal(hundredths / 100) + "."@ + seq![
        digit(hundredths % 100 / 10),
        digit(hundredths % 10),
    ]
}

/// A size as it is shown: whole bytes below 1024, and above that two decimals
/// of the largest unit of which it holds one.
pub open spec fn size_text(bytes: nat) -> Seq<char> {
    let unit = unit_of(bytes);
    if unit == 0 {
        decimal(bytes) + " "@ + "B"@
    } else {
        two_decimals(half_even(as_double(bytes) * 100, unit_bytes(unit))) + " "@ + unit_name(unit)
    }
}

/// `n` spaces.
pub open spec fn spaces(n: nat) -> Seq<char> {
    Seq::new(n, |i: int| ' ')
}

/// `text` with spaces behind it up to `width` characters.
pub open spec fn padded_right(text: Seq<char>, width: nat) -> Seq<char> {
    if text.len() >= width {
        text
    } else {
        text + spaces((width - text.len()) as nat)
    }
}

/// `text` with spaces before it up to `width` characters.
pub open spec fn padded_left(text: Seq<char>, width: nat) -> Seq<char> {
    if text.len() >= width {
        text
    } else {
        spaces((width - text.len()) as nat) + text
    }
}

/// `name`, or its first `keep` characters and an ellipsis where it has more than `max`.
pub open spec fn clipped(name: Seq<char>, max: nat, keep: nat, ellipsis: Seq<char>) -> Seq<char>
    recommends
        keep <= max,
{
    if name.len() > max {
        name.take(keep as int) + ellipsis
    } else {
        name
    }
}

/// The one-character text of a decimal digit.
fn digit_text(d: u64) -> (r: &'static str)
    requires
        d < 10,
    ensures
        r@ == seq![digit(d as nat)],
{
    proof {
        reveal_strlit("0");
        reveal_strlit("1");
        reveal_strlit("2");
        reveal_strlit("3");
        reveal_strlit("4");
        reveal_strlit("5");
        reveal_strlit("6");
        reveal_strlit("7");
        reveal_strlit("8");
        reveal_strlit("9");
    }
    let r = match d {
        0 => "0",
        1 => "1",
        2 => "2",
        3 => "3",
        4 => "4",
        5 => "5",
        6 => "6",
        7 => "7",
        8 => "8",
        _ => "9",
    };
    assert(r@ =~= seq![digit(d as nat)]);
    r
}

/// `n` in decimal.
pub fn decimal_text(n: u64) -> (r: String)
    ensures
        r@ == decimal(n as nat),
    decreases n,
{
    if n < 10 {
        digit_text(n).to_owned()
    } else {
        let mut r = decimal_text(n / 10);
        r.append(digit_text(n % 10));
        assert(r@ =~= decimal(n as nat));
        r
    }
}

fn step_of(bytes: u64) -> (r: u64)
    ensures
        r == double_step(bytes as nat),
        r >= 1,
        r == 1 || 0x10_0000_0000_0000 * r <= bytes,
    decreases bytes,
{
    if bytes < 0x20_0000_0000_0000 {
        1
    } else {
        2 * step_of(bytes / 2)
    }
}

fn divide_half_even(n: u128, d: u128) -> (r: u128)
    requires
        0 < d < 0x1_0000_0000_0000_0000,
        n < 0x1_0000_0000_0000_0000_0000_0000,
    ensures
        r == half_even(n as nat, d as nat),
        r <= n / d + 1,
{
    let q = n / d;
    let r = n % d;
    if 2 * r > d || (2 * r == d && q % 2 == 1) {
        q + 1
    } else {
        q
    }
}

fn double_of(bytes: u64) -> (r: u128)
    ensures
        r == as_double(bytes as nat),
        r <= bytes + 0x1_0000_0000_0000_0000,
{
    if bytes < 0x20_0000_0000_0000 {
        return bytes as u128;
    }
    let step = step_of(bytes);
    let q = divide_half_even(bytes as u128, step as u128);
    proof {
        let (b, s) = (bytes as int, step as int);
        assert(b / s * s <= b) by (nonlinear_arith)
            requires
                s > 0,
                b >= 0,
        ;
        assert((b / s + 1) * s == b / s * s + s) by (nonlinear_arith);
        assert(q * s <= (b / s + 1) * s) by (nonlinear_arith)
            requires
                0 <= q <= b / s + 1,
                s > 0,
        ;
    }
    q * (step as u128)
}

/// A size as the front ends show it, such as `1.50 KB`.
pub fn format_size(bytes: u64) -> (r: String)
    ensures
        r@ == size_text(bytes as nat),
{
    let unit: u64 = if bytes < 1024 {
        0
    } else if bytes < 1024 * 1024 {
        1
    } else if bytes < 1024 * 1024 * 1024 {
        2
    } else if bytes < 1024 * 1024 * 1024 * 1024 {
        3
    } else {
        4
    };
    if unit == 0 {
        decimal_text(bytes).concat(" ").concat("B")
    } else {
        let per_unit: u128 = if unit == 1 {
            1024
        } else if unit == 2 {
            1024 * 1024
        } else if unit == 3 {
            1024 * 1024 * 1024
        } else {
            1024 * 1024 * 1024 * 1024
        };
        let name = if unit == 1 {
            "KB"
        } else if unit == 2 {
            "MB"
        } else if unit == 3 {
            "GB"
        } else {
            "TB"
        };
        let scaled = double_of(bytes) * 100;
        let hundredths = divide_half_even(scaled, per_unit);
        assert(scaled / per_unit < u64::MAX) by {
            if unit == 1 {
                assert(scaled / 1024 < u64::MAX);
            } else if unit == 2 {
                assert(scaled / 1048576 < u64::MAX);
            } else if unit == 3 {
                assert(scaled / 1073741824 < u64::MAX);
            } else {
                assert(scaled / 1099511627776 < u64::MAX);
            }
        }
        let h = hundredths as u64;
        let mut r = decimal_text(h / 100);
        r.append(".");
        r.append(digit_text(h % 100 / 10));
        r.append(digit_text(h % 10));
        assert(r@ =~= two_decimals(h as nat));
        r.concat(" ").concat(name)
    }
}

/// `n` spaces.
pub fn blank(n: usize) -> (r: String)
    ensures
        r@ == spaces(n as nat),
{
    proof {
        reveal_strlit(" ");
    }
    let mut r = String::new();
    let mut i: usize = 0;
    while i < n
        invariant
            i <= n,
            r@ =~= spaces(i as nat),
            " "@ =~= seq![' '],
        decreases n - i,
    {
        r.append(" ");
        i = i + 1;
    }
    r
}

/// `text` in a column of `width` characters, to the left.
pub fn pad_right(text: &str, width: usize) -> (r: String)
    ensures
        r@ == padded_right(text@, width as nat),
{
    let n = text.unicode_len();
    if n >= width {
        text.to_owned()
    } else {
        text.to_owned().concat(blank(width - n).as_str())
    }
}

/// `text` in a column of `width` characters, to the right.
pub fn pad_left(text: &str, width: usize) -> (r: String)
    ensures
        r@ == padded_left(text@, width as nat),
{
    let n = text.unicode_len();
    if n >= width {
        text.to_owned()
    } else {
        blank(width - n).concat(text)
    }
}

/// `name`, or its first `keep` characters and `ellipsis` where it has more than `max`.
pub fn clip(name: &str, max: usize, keep: usize, ellipsis: &str) -> (r: String)
    requires
        keep <= max,
    ensures
        r@ == clipped(name@, max as nat, keep as nat, ellipsis@),
{
    if name.unicode_len() > max {
        let head = name.substring_char(0, keep);
        assert(head@ =~= name@.take(keep as int));
        head.to_owned().concat(ellipsis)
    } else {
        name.to_owned()
    }
}

/// The bytes that `text` takes in UTF-8.
pub fn byte_len(text: &str) -> (r: usize)
    ensures
        r == encode_utf8(text@).len(),
{
    text.as_bytes().len()
}

} // verus!
