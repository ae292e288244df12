//! Amounts of data for the eye: scaled to a unit, with a fixed number of
//! decimal places.
//!
//! An amount is shown as a double precision number would be: it is first
//! rounded to the nearest such number, which changes it only from 2 to the
//! power of 53 on, and then to the decimal places, in both cases to even where
//! it lies in the middle.

use vstd::prelude::*;

use crate::decimal;
use crate::decimal::append_decimal;
use crate::scan;

verus! {

/// `n / d`, rounded to the nearest integer, and to the even one of two.
pub open spec fn half_even(n: int, d: int) -> int {
    let whole = n / d;
    let rest = n % d;
    if 2 * rest > d || (2 * rest == d && whole % 2 == 1) {
        whole + 1
    } else {
        whole
    }
}

/// The distance between double precision numbers of the size of `n`.
pub open spec fn double_unit(n: int) -> int
    decreases n,
{
    if n < 0x20_0000_0000_0000 {
        1
    } else {
        2 * double_unit(n / 2)
    }
}

/// The double precision number nearest to `n`.
pub open spec fn nearest_double(n: int) -> int {
    half_even(n, double_unit(n)) * double_unit(n)
}

/// `n` tenths with one decimal place.
pub open spec fn tenths_text(n: nat) -> Seq<char> {
    decimal::decimal(n / 10) + "."@ + seq![decimal::digit((n % 10) as int)]
}

/// `n` hundredths with two decimal places.
pub open spec fn hundredths_text(n: nat) -> Seq<char> {
    decimal::decimal(n / 100) + "."@ + seq![
        decimal::digit((n / 10 % 10) as int),
        decimal::digit((n % 10) as int),
    ]
}

/// A bandwidth in bytes per second, for the eye.
pub open spec fn bandwidth_text(bytes_per_sec: u64) -> Seq<char> {
    if bytes_per_sec < 1024 {
        decimal::decimal(bytes_per_sec as nat) + " B/s"@
    } else if bytes_per_sec < 0x10_0000 {
        tenths_text(half_even(nearest_double(bytes_per_sec as int) * 10, 1024) as nat) + " KB/s"@
    } else {
        tenths_text(half_even(nearest_double(bytes_per_sec as int) * 10, 0x10_0000) as nat)
            + " MB/s"@
    }
}

/// How many times an amount is scaled down by 1024: as often as that leaves at
/// least one, and four times at most.
pub open spec fn scale(amount: int) -> int {
    if amount < 0x400 {
        0
    } else if amount < 0x10_0000 {
        1
    } else if amount < 0x4000_0000 {
        2
    } else if amount < 0x100_0000_0000 {
        3
    } else {
        4
    }
}

/// What one of the unit is, at each scale.
pub open spec fn scale_size(scale: int) -> int {
    if scale == 0 {
        1
    } else if scale == 1 {
        0x400
    } else if scale == 2 {
        0x10_0000
    } else if scale == 3 {
        0x4000_0000
    } else {
        0x100_0000_0000
    }
}

/// The name of the unit at each scale.
pub open spec fn unit_name(scale: int, bits: bool) -> Seq<char> {
    if bits {
        if scale == 0 {
            "b"@
        } else if scale == 1 {
            "Kb"@
        } else if scale == 2 {
            "Mb"@
        } else if scale == 3 {
            "Gb"@
        } else {
            "Tb"@
        }
    } else {
        if scale == 0 {
            "B"@
        } else if scale == 1 {
            "KB"@
        } else if scale == 2 {
            "MB"@
        } else if scale == 3 {
            "GB"@
        } else {
            "TB"@
        }
    }
}

/// An amount in the unit of its scale.
pub open spec fn scaled_text(amount: int, bits: bool) -> Seq<char> {
    hundredths_text(half_even(amount * 100, scale_size(scale(amount))) as nat) + " "@ + unit_name(
        scale(amount),
        bits,
    )
}

/// A number of bytes, for the eye, in bytes or in bits.
pub open spec fn amount_text(value: u64, bits: bool) -> Seq<char> {
    scaled_text(
        nearest_double(value as int) * if bits {
            8int
        } else {
            1int
        },
        bits,
    )
}

fn round_half_even(n: u128, d: u128) -> (result: u128)
    requires
        0 < d <= 0x100_0000_0000,
        n <= 0xffff_ffff_ffff_ffff_ffff_ffff,
    ensures
        result == half_even(n as int, d as int),
        result <= n / d + 1,
{
    let whole: u128 = n / d;
    let rest: u128 = n % d;
    assert(whole <= n) by (nonlinear_arith)
        requires
            whole == n / d,
            d > 0,
    ;
    if 2 * rest > d || (2 * rest == d && whole % 2 == 1) {
        whole + 1
    } else {
        whole
    }
}

proof fn double_unit_is_small(n: int)
    requires
        0 <= n,
    ensures
        1 <= double_unit(n),
        n >= 0x20_0000_0000_0000 ==> double_unit(n) * 0x10_0000_0000_0000 <= n,
        n < 0x20_0000_0000_0000 ==> double_unit(n) == 1,
    decreases n,
{
    if n >= 0x20_0000_0000_0000 {
        double_unit_is_small(n / 2);
    }
}

/// The double precision number nearest to `n`.
pub fn as_double(n: u64) -> (result: u128)
    ensures
        result == nearest_double(n as int),
        result <= 0x1_0000_0000_0000_0000 + 0x1000,
{
    let mut unit: u128 = 1;
    let mut left: u64 = n;
    while left >= 0x20_0000_0000_0000
        invariant
            unit >= 1,
            unit * left <= n,
            unit * double_unit(left as int) == double_unit(n as int),
        decreases left,
    {
        let ghost earlier = left as int;
        let ghost step = double_unit(left as int / 2);
        assert(2 * unit * (left as int / 2) <= unit * left) by (nonlinear_arith)
            requires
                unit >= 1,
                left >= 0,
        ;
        assert(2 * unit * step == unit * (2 * step)) by (nonlinear_arith);
        assert(unit * 0x20_0000_0000_0000 <= unit * left) by (nonlinear_arith)
            requires
                unit >= 1,
                left >= 0x20_0000_0000_0000,
        ;
        left = left / 2;
        unit = 2 * unit;
    }
    proof {
        double_unit_is_small(n as int);
        assert(unit * 1 == unit) by (nonlinear_arith);
    }
    let count: u128 = round_half_even(n as u128, unit);
    proof {
        let whole = n as int / unit as int;
        assert(whole * unit <= n) by (nonlinear_arith)
            requires
                whole == n as int / unit as int,
                unit >= 1,
        ;
        assert(count * unit <= (whole + 1) * unit) by (nonlinear_arith)
            requires
                count <= whole + 1,
                unit >= 1,
        ;
        assert((whole + 1) * unit == whole * unit + unit) by (nonlinear_arith);
    }
    count * unit
}

fn append_digit(text: &mut String, n: u64)
    requires
        n < 10,
    ensures
        final(text)@ == old(text)@ + seq![decimal::digit(n as int)],
{
    append_decimal(text, n);
    assert(decimal::decimal(n as nat) =~= seq![decimal::digit(n as int)]);
}

fn append_tenths(text: &mut String, n: u64)
    ensures
        final(text)@ == old(text)@ + tenths_text(n as nat),
{
    append_decimal(text, n / 10);
    text.append(".");
    append_digit(text, n % 10);
    assert(text@ =~= old(text)@ + tenths_text(n as nat));
}

fn append_hundredths(text: &mut String, n: u64)
    ensures
        final(text)@ == old(text)@ + hundredths_text(n as nat),
{
    append_decimal(text, n / 100);
    text.append(".");
    append_digit(text, n / 10 % 10);
    append_digit(text, n % 10);
    assert(text@ =~= old(text)@ + hundredths_text(n as nat));
}

/// A bandwidth in bytes per second, for the eye.
pub fn format_bandwidth(bytes_per_sec: u64) -> (text: String)
    ensures
        text@ == bandwidth_text(bytes_per_sec),
{
    let mut text = String::new();
    if bytes_per_sec < 1024 {
        append_decimal(&mut text, bytes_per_sec);
        text.append(" B/s");
        assert(text@ =~= bandwidth_text(bytes_per_sec));
        return text;
    }
    let amount: u128 = as_double(bytes_per_sec);
    if bytes_per_sec < 0x10_0000 {
        assert(amount == bytes_per_sec);
        append_tenths(&mut text, round_half_even(amount * 10, 1024) as u64);
        text.append(" KB/s");
    } else {
        append_tenths(&mut text, round_half_even(amount * 10, 0x10_0000) as u64);
        text.append(" MB/s");
    }
    assert(text@ =~= bandwidth_text(bytes_per_sec));
    text
}

fn append_unit(text: &mut String, scale: u64, bits: bool)
    requires
        scale <= 4,
    ensures
        final(text)@ == old(text)@ + unit_name(scale as int, bits),
{
    let name = if bits {
        match scale {
            0 => "b",
            1 => "Kb",
            2 => "Mb",
            3 => "Gb",
            _ => "Tb",
        }
    } else {
        match scale {
            0 => "B",
            1 => "KB",
            2 => "MB",
            3 => "GB",
            _ => "TB",
        }
    };
    text.append(name);
}

/// An amount in the unit of its scale.
pub fn format_scaled(amount: u128, bits: bool) -> (text: String)
    requires
        amount <= 0x10_0000_0000_0000_0000,
    ensures
        text@ == scaled_text(amount as int, bits),
{
    let mut size: u128 = 1;
    let mut steps: u64 = 0;
    while amount / size >= 1024 && steps < 4
        invariant
            steps <= 4,
            size == scale_size(steps as int),
            steps == 0 || amount >= size,
        decreases 4 - steps,
    {
        size = size * 1024;
        steps += 1;
    }
    assert(steps == scale(amount as int));
    let mut text = String::new();
    let hundredths: u128 = round_half_even(amount * 100, size);
    assert(hundredths == half_even(amount as int * 100, size as int));
    assert((amount * 100) / (size as int) <= 0x1_0000_0000_0000) by {
        let n: int = amount as int * 100;
        assert(steps == 0 || steps == 1 || steps == 2 || steps == 3 || steps == 4);
        assert(n / 1 == n && n / 0x400 <= n && n / 0x10_0000 <= n);
    }
    append_hundredths(&mut text, hundredths as u64);
    text.append(" ");
    append_unit(&mut text, steps, bits);
    let ghost shown = hundredths_text(hundredths as nat);
    let ghost unit = unit_name(steps as int, bits);
    assert(text@ =~= shown + " "@ + unit);
    text
}

/// A number of bytes, for the eye, in bytes or in bits.
pub fn format_bytes_or_bits(value: u64, bits: bool) -> (text: String)
    ensures
        text@ == amount_text(value, bits),
{
    let amount: u128 = as_double(value);
    if bits {
        format_scaled(amount * 8, true)
    } else {
        format_scaled(amount, false)
    }
}

/// A number of bytes, for the eye.
pub fn format_bytes(value: u64) -> (text: String)
    ensures
        text@ == amount_text(value, false),
{
    format_bytes_or_bits(value, false)
}

/// Rounding never moves a value by more than half.
pub proof fn rounding_is_to_the_nearest(n: int, d: int)
    requires
        0 <= n,
        0 < d,
    ensures
        -d <= 2 * (half_even(n, d) * d - n) <= d,
{
    let whole = n / d;
    let rest = n % d;
    assert(whole * d + rest == n && 0 <= rest < d) by (nonlinear_arith)
        requires
            whole == n / d,
            rest == n % d,
            0 < d,
    ;
    assert((whole + 1) * d == whole * d + d) by (nonlinear_arith);
}

/// Up to 2 to the power of 53 no amount is changed before it is scaled.
pub proof fn moderate_amounts_are_exact(n: int)
    requires
        0 <= n < 0x20_0000_0000_0000,
    ensures
        nearest_double(n) == n,
{
    assert(double_unit(n) == 1);
}

/// Of two integers that are equally near, rounding takes the even one.
pub proof fn halves_go_to_the_even(n: int, d: int)
    requires
        0 <= n,
        0 < d,
        2 * (n % d) == d,
    ensures
        half_even(n, d) % 2 == 0,
{
}

/// A double precision number has fifty-three binary places: it is the nearest
/// multiple of a unit that goes at least two to the power of fifty-two times,
/// and less than twice as often, into the amount; smaller amounts have the unit
/// one.
pub proof fn doubles_have_fifty_three_places(n: int)
    requires
        0 <= n,
    ensures
        ({
            let unit = double_unit(n);
            &&& unit >= 1
            &&& n < 0x20_0000_0000_0000 ==> unit == 1
            &&& n >= 0x20_0000_0000_0000 ==> unit * 0x10_0000_0000_0000 <= n
            &&& n < unit * 0x20_0000_0000_0000
            &&& nearest_double(n) % unit == 0
            &&& -unit <= 2 * (nearest_double(n) - n) <= unit
        }),
{
    let unit = double_unit(n);
    double_unit_is_small(n);
    double_unit_is_large(n);
    rounding_is_to_the_nearest(n, unit);
    let count = half_even(n, unit);
    assert((count * unit) % unit == 0) by (nonlinear_arith)
        requires
            unit >= 1,
    ;
}

proof fn double_unit_is_large(n: int)
    requires
        0 <= n,
    ensures
        n < double_unit(n) * 0x20_0000_0000_0000,
    decreases n,
{
    if n >= 0x20_0000_0000_0000 {
        double_unit_is_large(n / 2);
    }
}

/// The decimal places read back: the point sets the whole from the rest, and
/// the rest is the tenths, or the hundredths with a nought before a single one.
pub proof fn decimal_places_read_back(n: nat)
    ensures
        scan::fields(tenths_text(n), '.') == seq![
            decimal::decimal(n / 10),
            decimal::decimal(n % 10),
        ],
        ({
            let parts = scan::fields(hundredths_text(n), '.');
            &&& parts.len() == 2
            &&& parts[0] == decimal::decimal(n / 100)
            &&& parts[1].len() == 2
            &&& decimal::parsed(parts[1], 10, 99) == Some((n % 100) as int)
        }),
{
    reveal_strlit(".");
    assert("."@ =~= seq!['.']);
    let tenth = seq![decimal::digit((n % 10) as int)];
    assert(decimal::decimal(n % 10) =~= tenth);
    decimal::decimal_is_digits(n / 10);
    decimal::decimal_is_digits(n % 10);
    scan::one_field(decimal::decimal(n / 10), '.');
    scan::one_more_field(decimal::decimal(n / 10), '.', tenth);
    assert(tenths_text(n) =~= decimal::decimal(n / 10) + seq!['.'] + tenth);
    assert(scan::fields(tenths_text(n), '.') =~= seq![
        decimal::decimal(n / 10),
        decimal::decimal(n % 10),
    ]);
    let first = decimal::digit((n / 10 % 10) as int);
    let second = decimal::digit((n % 10) as int);
    let rest = seq![first, second];
    decimal::decimal_is_digits(n / 100);
    scan::one_field(decimal::decimal(n / 100), '.');
    assert(!rest.contains('.'));
    scan::one_more_field(decimal::decimal(n / 100), '.', rest);
    assert(hundredths_text(n) =~= decimal::decimal(n / 100) + seq!['.'] + rest);
    let lead = seq![first];
    assert(decimal::decimal(n / 10 % 10) =~= lead);
    decimal::decimal_parses(n / 10 % 10, 99);
    decimal::digits_count_by_place(lead, second, 10, 99);
    assert(rest =~= lead.push(second));
    assert(n % 100 == (n / 10 % 10) * 10 + n % 10);
}

/// A bandwidth is shown in bytes below one kibibyte, and else in kibibytes, or
/// from one mebibyte on in mebibytes, to the nearest tenth.
pub proof fn bandwidths_are_shown_to_the_tenth(bytes: u64)
    requires
        bytes < 0x20_0000_0000_0000,
    ensures
        bytes < 1024 ==> bandwidth_text(bytes) == decimal::decimal(bytes as nat) + " B/s"@,
        1024 <= bytes < 1024 * 1024 ==> exists|n: nat|
            bandwidth_text(bytes) == #[trigger] tenths_text(n) + " KB/s"@ && -1024 <= 2 * (n * 1024
                - 10 * bytes) <= 1024,
        1024 * 1024 <= bytes ==> exists|n: nat|
            bandwidth_text(bytes) == #[trigger] tenths_text(n) + " MB/s"@ && -1024 * 1024 <= 2 * (n
                * 1024 * 1024 - 10 * bytes) <= 1024 * 1024,
{
    moderate_amounts_are_exact(bytes as int);
    if bytes >= 1024 && bytes < 0x10_0000 {
        let n = half_even(bytes as int * 10, 1024);
        rounding_is_to_the_nearest(bytes as int * 10, 1024);
        assert(bandwidth_text(bytes) == tenths_text(n as nat) + " KB/s"@);
    } else if bytes >= 0x10_0000 {
        let n = half_even(bytes as int * 10, 0x10_0000);
        rounding_is_to_the_nearest(bytes as int * 10, 0x10_0000);
        assert(bandwidth_text(bytes) == tenths_text(n as nat) + " MB/s"@);
    }
}

/// The units grow by 1024, and an amount is shown in the largest of the five
/// that does not exceed it.
pub proof fn units_grow_by_1024(amount: int, step: int)
    requires
        0 <= amount,
        0 <= step < 4,
    ensures
        scale_size(0) == 1,
        scale_size(step + 1) == 1024 * scale_size(step),
        0 <= scale(amount) <= 4,
        scale(amount) > 0 ==> scale_size(scale(amount)) <= amount,
        scale(amount) < 4 ==> amount < scale_size(scale(amount) + 1),
{
}

/// An amount is shown to the nearest hundredth of its unit, in bytes, or in
/// bits, of which there are eight to the byte.
pub proof fn amounts_are_shown_to_the_hundredth(value: u64, bits: bool)
    requires
        value < 0x20_0000_0000_0000,
    ensures
        ({
            let amount: int = if bits {
                8 * value
            } else {
                value as int
            };
            let size = scale_size(scale(amount));
            exists|n: nat|
                amount_text(value, bits) == #[trigger] hundredths_text(n) + " "@ + unit_name(
                    scale(amount),
                    bits,
                ) && -size <= 2 * (n * size - 100 * amount) <= size
        }),
{
    moderate_amounts_are_exact(value as int);
    let amount: int = if bits {
        8 * value
    } else {
        value as int
    };
    assert(nearest_double(value as int) * (if bits {
        8int
    } else {
        1int
    }) == amount);
    let size = scale_size(scale(amount));
    let n = half_even(amount * 100, size);
    rounding_is_to_the_nearest(amount * 100, size);
    assert(amount_text(value, bits) == hundredths_text(n as nat) + " "@ + unit_name(
        scale(amount),
        bits,
    ));
    assert((n as nat) * size == n * size);
}

/// The name of a unit says whether it is of bits or of bytes by its last
/// letter, and which one it is by what stands before.
pub proof fn unit_names_tell_units_apart(step: int, other: int, bits: bool)
    requires
        0 <= step <= 4,
        0 <= other <= 4,
    ensures
        unit_name(step, bits).len() > 0,
        unit_name(step, true).last() == 'b',
        unit_name(step, false).last() == 'B',
        unit_name(step, true).drop_last() == unit_name(step, false).drop_last(),
        unit_name(step, bits) == unit_name(other, bits) ==> step == other,
{
    reveal_strlit("b");
    reveal_strlit("Kb");
    reveal_strlit("Mb");
    reveal_strlit("Gb");
    reveal_strlit("Tb");
    reveal_strlit("B");
    reveal_strlit("KB");
    reveal_strlit("MB");
    reveal_strlit("GB");
    reveal_strlit("TB");
    assert(unit_name(step, true).drop_last() =~= unit_name(step, false).drop_last());
    if unit_name(step, bits) == unit_name(other, bits) {
        assert(unit_name(step, bits).len() == unit_name(other, bits).len());
        assert(unit_name(step, bits)[0] == unit_name(other, bits)[0]);
    }
}

} // verus!
