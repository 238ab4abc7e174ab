//! Human-readable sizes and clock times for the queue and details panel.

use crate::binary64::{rne, rne_u128, round53, round53_u128};
use crate::text::{decimal, fixed1, fixed2, push_char, push_decimal, push_fixed1, push_fixed2, push_two_digits, two_digits};
use vstd::prelude::*;

verus! {

/// Bytes in one gibibyte.
pub const GIB: u64 = 1024 * 1024 * 1024;

/// Bytes in one mebibyte.
pub const MIB: u64 = 1024 * 1024;

/// What `format_bytes` writes for `bytes`: gibibytes with two decimals from
/// 1 GiB up, mebibytes with one decimal from 1 MiB up, kibibytes with one
/// decimal below that. The quotient is the one a double holds (`bytes as f64`
/// rounds above 2^53), and the decimals are rounded half to even, as Rust's
/// `{:.N}` formatting rounds.
pub open spec fn bytes_text(bytes: nat) -> Seq<char> {
    if bytes >= GIB {
        fixed2(rne(round53(bytes) * 100, GIB as nat)) + " GB"@
    } else if bytes >= MIB {
        fixed1(rne(bytes * 10, MIB as nat)) + " MB"@
    } else {
        fixed1(rne(bytes * 10, 1024)) + " KB"@
    }
}

/// Converts a byte count into a short, readable size.
pub fn format_bytes(bytes: u64) -> (r: String)
    ensures
        r@ == bytes_text(bytes as nat),
{
    let mut text = String::new();
    if bytes >= GIB {
        let exact = round53_u128(bytes as u128);
        assert(exact * 100 < 0x1_0000_0000_0000_0000_0000_0000);
        let hundredths = rne_u128(exact * 100, GIB as u128);
        assert(hundredths < 0x1_0000_0000_0000_0000) by (nonlinear_arith)
            requires
                hundredths <= (exact * 100) / 0x4000_0000 + 1,
                exact <= 0x2_0000_0000_0000_0001;
        push_fixed2(&mut text, hundredths as u64);
        text.append(" GB");
    } else if bytes >= MIB {
        let tenths = rne_u128((bytes as u128) * 10, MIB as u128);
        assert(tenths < 0x1_0000_0000_0000_0000) by (nonlinear_arith)
            requires tenths <= (bytes * 10) / 0x10_0000 + 1, bytes < 0x4000_0000;
        push_fixed1(&mut text, tenths as u64);
        text.append(" MB");
    } else {
        let tenths = rne_u128((bytes as u128) * 10, 1024);
        assert(tenths < 0x1_0000_0000_0000_0000) by (nonlinear_arith)
            requires tenths <= (bytes * 10) / 1024 + 1, bytes < 0x10_0000;
        push_fixed1(&mut text, tenths as u64);
        text.append(" KB");
    }
    text
}

/// What `format_clock` writes: `H:MM:SS` from one hour up, `M:SS` below.
pub open spec fn clock_text(total_secs: nat) -> Seq<char> {
    let hours = total_secs / 3600;
    let minutes = (total_secs % 3600) / 60;
    let secs = total_secs % 60;
    if hours > 0 {
        decimal(hours) + seq![':'] + two_digits(minutes) + seq![':'] + two_digits(secs)
    } else {
        decimal(minutes) + seq![':'] + two_digits(secs)
    }
}

/// Writes a whole number of seconds as `H:MM:SS` or `M:SS`.
pub fn format_clock(total_secs: u64) -> (r: String)
    ensures
        r@ == clock_text(total_secs as nat),
{
    let hours = total_secs / 3600;
    let minutes = (total_secs % 3600) / 60;
    let secs = total_secs % 60;
    let mut text = String::new();
    if hours > 0 {
        push_decimal(&mut text, hours);
        push_char(&mut text, ':');
        push_two_digits(&mut text, minutes);
    } else {
        push_decimal(&mut text, minutes);
    }
    push_char(&mut text, ':');
    push_two_digits(&mut text, secs);
    text
}


/// The size text names the unit by the size (GB from 1073741824 bytes, MB
/// from 1048576, KB below) and shows the size in that unit to within half a
/// digit of the last decimal place (a hundredth of a GB, allowing for the
/// double's rounding of very large sizes; a tenth of an MB or KB).
pub proof fn size_text_shows_the_size(bytes: nat)
    requires
        bytes <= u64::MAX,
    ensures
        bytes >= 1073741824 ==> exists|h: nat|
            #[trigger] bytes_text(bytes) == fixed2(h) + " GB"@ && 2 * h * 1073741824 <= 200 * bytes + 2
                * 1073741824 && 200 * bytes <= 2 * h * 1073741824 + 2 * 1073741824,
        1048576 <= bytes < 1073741824 ==> exists|t: nat|
            #[trigger] bytes_text(bytes) == fixed1(t) + " MB"@ && 2 * t * 1048576 <= 20 * bytes + 1048576 && 20
                * bytes <= 2 * t * 1048576 + 1048576,
        bytes < 1048576 ==> exists|t: nat|
            #[trigger] bytes_text(bytes) == fixed1(t) + " KB"@ && 2 * t * 1024 <= 20 * bytes + 1024 && 20 * bytes
                <= 2 * t * 1024 + 1024,
{
    if bytes >= GIB {
        let x = round53(bytes);
        let h = rne(x * 100, GIB as nat);
        crate::binary64::lemma_round53_error(bytes);
        crate::binary64::lemma_round53_lower(bytes);
        lemma_rne_within(x * 100, GIB as nat);
        assert(2 * h * 1073741824 <= 200 * bytes + 2 * 1073741824 && 200 * bytes <= 2 * h * 1073741824 + 2
            * 1073741824) by (nonlinear_arith)
            requires
                2 * h * 1073741824 <= 2 * (x * 100) + 1073741824,
                2 * (x * 100) <= 2 * h * 1073741824 + 1073741824,
                0x20_0000_0000_0000 * x <= (0x20_0000_0000_0000 + 1) * bytes,
                0x20_0000_0000_0000 * x + bytes >= 0x20_0000_0000_0000 * bytes,
                bytes <= 0xFFFF_FFFF_FFFF_FFFF,
        ;
        assert(bytes_text(bytes) == fixed2(h) + " GB"@);
    } else if bytes >= MIB {
        let t = rne(bytes * 10, MIB as nat);
        lemma_rne_within(bytes * 10, MIB as nat);
        assert(bytes_text(bytes) == fixed1(t) + " MB"@);
    } else {
        let t = rne(bytes * 10, 1024);
        lemma_rne_within(bytes * 10, 1024);
        assert(bytes_text(bytes) == fixed1(t) + " KB"@);
    }
}

/// Rounding to the nearest multiple of `d` is off by at most half of `d`.
proof fn lemma_rne_within(n: nat, d: nat)
    requires
        d > 0,
    ensures
        2 * rne(n, d) * d <= 2 * n + d,
        2 * n <= 2 * rne(n, d) * d + d,
{
    vstd::arithmetic::div_mod::lemma_fundamental_div_mod(n as int, d as int);
    vstd::arithmetic::div_mod::lemma_mod_pos_bound(n as int, d as int);
    let q = n / d;
    let r = n % d;
    assert(n == d * q + r);
    assert(2 * rne(n, d) * d <= 2 * n + d && 2 * n <= 2 * rne(n, d) * d + d) by (nonlinear_arith)
        requires
            n == d * q + r,
            0 <= r < d,
            (rne(n, d) == q + 1 && 2 * r >= d) || (rne(n, d) == q && 2 * r <= d),
    ;
}

} // verus!
