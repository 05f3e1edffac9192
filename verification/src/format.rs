//! Compact byte formatting.

use vstd::prelude::*;

use crate::text::{append_chars, decimal, decimal_chars, from_chars, to_chars};

verus! {

/// A quotient, rounded to the nearest integer; halfway between two, to the even one.
pub open spec fn rounded(n: nat, d: nat) -> nat {
    let q = n / d;
    let r = n % d;
    if 2 * r > d || (2 * r == d && q % 2 == 1) {
        q + 1
    } else {
        q
    }
}

/// The distance of double-precision numbers at `n`.
pub open spec fn double_spacing(n: nat) -> nat
    decreases n,
{
    if n < 0x20_0000_0000_0000 {
        1
    } else {
        2 * double_spacing(n / 2)
    }
}

/// The double-precision number that is nearest to `n`.
pub open spec fn nearest_double(n: nat) -> nat {
    rounded(n, double_spacing(n)) * double_spacing(n)
}

/// A number of tenths, with a decimal point.
pub open spec fn with_tenth(tenths: nat) -> Seq<char> {
    decimal(tenths / 10) + "."@ + decimal(tenths % 10)
}

/// A number of bytes as text: in full, or in the largest unit of which there is at least one. In
/// units of 1024 bytes it is rounded to the unit, in larger units to a tenth of the unit. The size
/// is taken in double precision.
pub open spec fn bytes_text(bytes: u64, show_bytes: bool) -> Seq<char> {
    let b = nearest_double(bytes as nat);
    if show_bytes {
        decimal(bytes as nat) + " B"@
    } else if bytes >= 0x4000_0000 {
        with_tenth(rounded(b * 10, 0x4000_0000)) + "G"@
    } else if bytes >= 0x10_0000 {
        with_tenth(rounded(b * 10, 0x10_0000)) + "M"@
    } else if bytes >= 0x400 {
        decimal(rounded(b, 0x400)) + "K"@
    } else {
        decimal(bytes as nat) + "B"@
    }
}

/// A quotient, rounded to the nearest integer.
fn round_quotient(n: u128, d: u128) -> (r: u128)
    requires
        0 < d <= 0x4000_0000,
    ensures
        r == rounded(n as nat, d as nat),
{
    let q: u128 = n / d;
    let r: u128 = n % d;
    if 2 * r > d || (2 * r == d && q % 2 == 1) {
        proof {
            if d == 1 {
                assert(n % 1 == 0);
            } else {
                assert(n / d < n || n == 0) by (nonlinear_arith)
                    requires
                        d > 1,
                ;
            }
        }
        q + 1
    } else {
        q
    }
}

proof fn lemma_spacing_bound(n: nat)
    requires
        n >= 0x10_0000_0000_0000,
    ensures
        double_spacing(n) * 0x10_0000_0000_0000 <= n,
    decreases n,
{
    if n >= 0x20_0000_0000_0000 {
        lemma_spacing_bound(n / 2);
    }
}

proof fn lemma_spacing_positive(n: nat)
    ensures
        double_spacing(n) >= 1,
    decreases n,
{
    if n >= 0x20_0000_0000_0000 {
        lemma_spacing_positive(n / 2);
    }
}

/// The distance of double-precision numbers at `n`.
fn spacing(n: u64) -> (r: u128)
    ensures
        r == double_spacing(n as nat),
        1 <= r <= 0x1000,
    decreases n,
{
    proof {
        lemma_spacing_positive(n as nat);
        if n >= 0x10_0000_0000_0000 {
            lemma_spacing_bound(n as nat);
        }
    }
    if n < 0x20_0000_0000_0000 {
        1
    } else {
        2 * spacing(n / 2)
    }
}

/// Rounding moves a size by half a unit at most.
pub proof fn rounded_is_nearest(n: nat, d: nat)
    requires
        d > 0,
    ensures
        2 * (rounded(n, d) * d) <= 2 * n + d,
        2 * n <= 2 * (rounded(n, d) * d) + d,
{
    let q = n / d;
    let r = n % d;
    assert(n == q * d + r) by {
        vstd::arithmetic::div_mod::lemma_fundamental_div_mod(n as int, d as int);
        assert(d * q == q * d) by (nonlinear_arith);
    }
    assert((q + 1) * d == q * d + d) by (nonlinear_arith);
}

/// The double-precision number that is nearest to a `u64`.
fn as_double(n: u64) -> (r: u128)
    ensures
        r == nearest_double(n as nat),
        r <= 0x2_0000_0000_0000_0000,
{
    let s: u128 = spacing(n);
    let q: u128 = round_quotient(n as u128, s);
    proof {
        rounded_is_nearest(n as nat, s as nat);
    }
    q * s
}

/// Compact byte formatting.
pub fn format_bytes(bytes: u64, show_bytes: bool) -> (r: String)
    ensures
        r@ == bytes_text(bytes, show_bytes),
{
    if show_bytes {
        return number_with_unit(bytes, " B");
    }
    let b: u128 = as_double(bytes);
    if bytes >= 0x4000_0000 {
        tenths_with_unit(b, 0x4000_0000, "G")
    } else if bytes >= 0x10_0000 {
        tenths_with_unit(b, 0x10_0000, "M")
    } else if bytes >= 0x400 {
        let n: u128 = round_quotient(b, 0x400);
        proof {
            rounded_is_nearest(b as nat, 0x400);
        }
        number_with_unit(n as u64, "K")
    } else {
        number_with_unit(bytes, "B")
    }
}

/// A number, followed by its unit.
fn number_with_unit(n: u64, unit: &str) -> (r: String)
    ensures
        r@ == decimal(n as nat) + unit@,
{
    let mut chars: Vec<char> = decimal_chars(n);
    append_chars(&mut chars, &to_chars(unit));
    from_chars(&chars)
}

/// A size in tenths of a unit, followed by the unit.
fn tenths_with_unit(b: u128, size: u128, unit: &str) -> (r: String)
    requires
        b <= 0x2_0000_0000_0000_0000,
        0x10_0000 <= size <= 0x4000_0000,
    ensures
        r@ == with_tenth(rounded((b * 10) as nat, size as nat)) + unit@,
{
    let tenths: u128 = round_quotient(b * 10, size);
    proof {
        rounded_is_nearest((b * 10) as nat, size as nat);
        assert(tenths <= 0xf_ffff_ffff_ffff) by (nonlinear_arith)
            requires
                2 * (tenths * size) <= 2 * (b * 10) + size,
                b <= 0x2_0000_0000_0000_0000,
                0x10_0000 <= size <= 0x4000_0000,
        ;
    }
    let t: u64 = tenths as u64;
    let mut chars: Vec<char> = decimal_chars(t / 10);
    append_chars(&mut chars, &to_chars("."));
    append_chars(&mut chars, &decimal_chars(t % 10));
    append_chars(&mut chars, &to_chars(unit));
    from_chars(&chars)
}

/// Below 8 PiB double precision takes sizes as they are.
pub proof fn small_sizes_are_exact(n: nat)
    requires
        n <= 0x20_0000_0000_0000,
    ensures
        nearest_double(n) == n,
{
    if n < 0x20_0000_0000_0000 {
        assert(n / 1 == n && n % 1 == 0);
        assert(rounded(n, 1) * 1 == n);
    } else {
        assert(double_spacing(0x10_0000_0000_0000) == 1);
        assert(double_spacing(n) == 2);
        assert(rounded(n, 2) * 2 == n);
    }
}

/// Sizes in full, and sizes below 1024 bytes, are the number itself.
pub proof fn small_sizes_are_told_in_full(bytes: u64)
    ensures
        bytes_text(bytes, true) == decimal(bytes as nat) + " B"@,
        bytes < 1024 ==> bytes_text(bytes, false) == decimal(bytes as nat) + "B"@,
{
}

/// A size from 1024 bytes on is told in whole units of 1024 bytes. The number is the nearest one;
/// of two that are as near it is the even one.
pub proof fn kilobytes_are_the_nearest(bytes: u64) -> (n: nat)
    requires
        1024 <= bytes < 1024 * 1024,
    ensures
        bytes_text(bytes, false) == decimal(n) + "K"@,
        2 * (n * 1024) <= 2 * bytes + 1024,
        2 * bytes <= 2 * (n * 1024) + 1024,
        2 * (n * 1024) == 2 * bytes + 1024 || 2 * bytes == 2 * (n * 1024) + 1024 ==> n % 2 == 0,
{
    small_sizes_are_exact(bytes as nat);
    rounded(bytes as nat, 1024)
}

/// A size from 1024 * 1024 bytes on is told in tenths of that unit, the nearest or the even one of
/// the two nearest.
pub proof fn megabytes_are_the_nearest(bytes: u64) -> (tenths: nat)
    requires
        1024 * 1024 <= bytes < 1024 * 1024 * 1024,
    ensures
        bytes_text(bytes, false) == decimal(tenths / 10) + "."@ + decimal(tenths % 10) + "M"@,
        2 * (tenths * 0x10_0000) <= 20 * bytes + 0x10_0000,
        20 * bytes <= 2 * (tenths * 0x10_0000) + 0x10_0000,
        2 * (tenths * 0x10_0000) == 20 * bytes + 0x10_0000 || 20 * bytes == 2 * (tenths * 0x10_0000)
            + 0x10_0000 ==> tenths % 2 == 0,
{
    small_sizes_are_exact(bytes as nat);
    rounded((bytes * 10) as nat, 0x10_0000)
}

/// A size from 1024 * 1024 * 1024 bytes on is told in tenths of that unit, the nearest or the even
/// one of the two nearest. Sizes above 8 PiB are taken to the nearest double-precision number
/// first.
pub proof fn gigabytes_are_the_nearest(bytes: u64) -> (tenths: nat)
    requires
        bytes >= 1024 * 1024 * 1024,
    ensures
        bytes_text(bytes, false) == decimal(tenths / 10) + "."@ + decimal(tenths % 10) + "G"@,
        ({
            let b = nearest_double(bytes as nat);
            &&& bytes <= 0x20_0000_0000_0000 ==> b == bytes
            &&& 2 * (tenths * 0x4000_0000) <= 20 * b + 0x4000_0000
            &&& 20 * b <= 2 * (tenths * 0x4000_0000) + 0x4000_0000
            &&& 2 * (tenths * 0x4000_0000) == 20 * b + 0x4000_0000 || 20 * b == 2 * (tenths
                * 0x4000_0000) + 0x4000_0000 ==> tenths % 2 == 0
        }),
{
    if bytes <= 0x20_0000_0000_0000 {
        small_sizes_are_exact(bytes as nat);
    }
    rounded((nearest_double(bytes as nat) * 10) as nat, 0x4000_0000)
}

/// A double-precision number that is nearest to a large size has 53 binary digits: it is a multiple
/// of a power of two that goes more than 2^52 times into the size, and no more than half of that
/// power away.
pub proof fn doubles_have_53_digits(n: nat)
    requires
        n >= 0x20_0000_0000_0000,
    ensures
        ({
            let s = double_spacing(n);
            let b = nearest_double(n);
            &&& s >= 2
            &&& s * 0x10_0000_0000_0000 <= n < s * 0x20_0000_0000_0000
            &&& b % s == 0
            &&& 2 * b <= 2 * n + s
            &&& 2 * n <= 2 * b + s
        }),
    decreases n,
{
    let s = double_spacing(n);
    lemma_spacing_bound(n);
    lemma_spacing_positive(n);
    rounded_is_nearest(n, s);
    assert(s >= 2) by {
        lemma_spacing_positive(n / 2);
    }
    assert(n < s * 0x20_0000_0000_0000) by {
        if n / 2 >= 0x20_0000_0000_0000 {
            doubles_have_53_digits(n / 2);
        } else {
            assert(double_spacing(n / 2) == 1);
        }
    }
    vstd::arithmetic::div_mod::lemma_mod_multiples_basic(rounded(n, s) as int, s as int);
}

} // verus!
