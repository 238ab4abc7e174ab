//! Compression planning: output dimensions, size targets, and retries.

use crate::binary64::{
    excess_bits, two_53, f64_fraction, f64_le, f64_le_exec, f64_min, f64_quotient, f64_quotient_u32, lemma_excess_bits_bound,
    lemma_f64_le_total, lemma_f64_le_transitive, lemma_quotient_facts, lemma_round53_error, lemma_round53_monotone,
    lemma_quotient_at_least_one, lemma_quotient_at_least_two, lemma_quotient_lower, lemma_quotient_upper, lemma_round53_lower, lemma_round53_scale, lemma_round53_small, lemma_scaled_floor_at_most, pow2_u128,
    quotient_exp, round53,
    round53_parts, round53_u128, scaled_floor,
};
use crate::formatting::MIB;
use crate::models::{CompressionPlan, JobConfig, QualityStrategy};
use crate::text::{decimal, push_decimal};
use vstd::arithmetic::power2::*;
use vstd::prelude::*;

verus! {

/// `value` with its lowest bit cleared: the even number at or below it.
pub open spec fn even(value: nat) -> nat {
    (value - value % 2) as nat
}

/// `value.max(2)`.
pub open spec fn at_least_two(value: nat) -> nat {
    if value < 2 {
        2
    } else {
        value
    }
}

/// `value as u32` for a non-negative whole double: saturates at `u32::MAX`.
pub open spec fn saturate_u32(value: nat) -> nat {
    if value > u32::MAX {
        u32::MAX as nat
    } else {
        value
    }
}

/// The scale factor `(max_w / src_w).min(max_h / src_h).min(1.0)`, computed in doubles.
pub open spec fn scale_ratio(sw: nat, sh: nat, mw: nat, mh: nat) -> (nat, nat) {
    f64_min(f64_min(f64_quotient(mw, sw), f64_quotient(mh, sh)), (1, 0))
}

/// One side of a downscaled frame: `(side as f64 * ratio).floor() as u32`,
/// made even and at least 2, but never more than the side itself.
pub open spec fn scaled_side(side: nat, ratio: (nat, nat)) -> nat {
    let fitted = at_least_two(even(saturate_u32(scaled_floor(side, ratio))));
    if fitted > side {
        side
    } else {
        fitted
    }
}

/// The output frame for a `sw`x`sh` source under a `mw`x`mh` limit.
///
/// A source with a zero side takes the limit itself; a source inside the
/// limit keeps its size unchanged; a larger source is scaled by the
/// double-precision ratio above and floored, each side made even and at
/// least 2 but never enlarged.
pub open spec fn fitted_dimensions(sw: nat, sh: nat, mw: nat, mh: nat) -> (nat, nat) {
    if sw == 0 || sh == 0 {
        (at_least_two(mw), at_least_two(mh))
    } else if sw <= mw && sh <= mh {
        (sw, sh)
    } else {
        let ratio = scale_ratio(sw, sh, mw, mh);
        (scaled_side(sw, ratio), scaled_side(sh, ratio))
    }
}

/// Rounds a dimension down to an even number, as H.264 and H.265 require.
pub fn make_even(value: u32) -> (r: u32)
    ensures
        r == even(value as nat),
{
    value - value % 2
}

proof fn lemma_zero_quotient(b: nat)
    requires
        b > 0,
    ensures
        f64_quotient(0, b).0 == 0,
{
    let e = quotient_exp(0, b, 0);
    assert(0 * pow2(e) == 0);
}

proof fn lemma_zero_ratio(s: nat, e: nat)
    ensures
        scaled_floor(s, (0, e)) == 0,
        f64_le((0, e), (1, 0)),
{
    lemma_pow2_pos(e);
    assert(s * 0 == 0);
    assert(excess_bits(0) == 0);
    assert(pow2(0) == 1) by {
        lemma2_to64();
    }
    assert(round53(0) == 0);
}

/// One side of the downscaled frame.
fn scale_side(side: u32, m: u128, d: u128, Ghost(e): Ghost<nat>) -> (r: u32)
    requires
        m <= pow2(53),
        d == pow2(e),
    ensures
        r == scaled_side(side as nat, (m as nat, e)),
{
    proof {
        lemma2_to64_rest();
        lemma_pow2_pos(e);
        assert(side * m < 0x10_0000_0000_0000_0000_0000_0000) by (nonlinear_arith)
            requires side < 0x1_0000_0000u64, m <= 0x20_0000_0000_0000u64;
    }
    let product = (side as u128) * m;
    let floor = round53_u128(product) / d;
    let clamped: u32 = if floor > 0xFFFF_FFFF { 0xFFFF_FFFF } else { floor as u32 };
    let even_side = make_even(clamped);
    let fitted = if even_side < 2 {
        2
    } else {
        even_side
    };
    if fitted > side {
        side
    } else {
        fitted
    }
}

/// Returns dimensions that fit inside the selected maximum while preserving
/// aspect ratio. Smaller sources are returned unchanged, and no side of a
/// larger source is ever enlarged, so video is never upscaled.
pub fn fit_without_upscaling(source_width: u32, source_height: u32, max_width: u32, max_height: u32) -> (r: (u32, u32))
    ensures
        (r.0 as nat, r.1 as nat) == fitted_dimensions(
            source_width as nat,
            source_height as nat,
            max_width as nat,
            max_height as nat,
        ),
{
    if source_width == 0 || source_height == 0 {
        return (if max_width < 2 { 2 } else { max_width }, if max_height < 2 { 2 } else { max_height });
    }
    if source_width <= max_width && source_height <= max_height {
        return (source_width, source_height);
    }
    let ghost wq = f64_quotient(max_width as nat, source_width as nat);
    let ghost hq = f64_quotient(max_height as nat, source_height as nat);
    if max_width == 0 || max_height == 0 {
        if max_width == 0 {
            proof {
                lemma_zero_quotient(source_width as nat);
                assert(wq.0 * pow2(hq.1) == 0) by (nonlinear_arith)
                    requires wq.0 == 0;
                assert(f64_le(wq, hq));
                lemma_zero_ratio(source_width as nat, wq.1);
                lemma_zero_ratio(source_height as nat, wq.1);
            }
        } else {
            let width_quotient = f64_quotient_u32(max_width, source_width);
            proof {
                lemma_pow2_pos(52);
                lemma_pow2_pos(hq.1);
                lemma_zero_quotient(source_height as nat);
                lemma_zero_ratio(source_width as nat, hq.1);
                lemma_zero_ratio(source_height as nat, hq.1);
                assert(wq.0 * pow2(hq.1) > 0) by (nonlinear_arith)
                    requires wq.0 > 0, pow2(hq.1) > 0;
                assert(hq.0 * pow2(wq.1) == 0) by (nonlinear_arith)
                    requires hq.0 == 0;
                assert(!f64_le(wq, hq));
            }
        }
        return (if source_width < 2 { source_width } else { 2 }, if source_height < 2 { source_height } else { 2 });
    }
    let wq_exec = f64_quotient_u32(max_width, source_width);
    let hq_exec = f64_quotient_u32(max_height, source_height);
    let first = if f64_le_exec((wq_exec.0, wq_exec.1), (hq_exec.0, hq_exec.1)) { wq_exec } else { hq_exec };
    let ghost e_first = first.1 as nat;
    let ghost chosen = (first.0 as nat, e_first);
    proof {
        lemma_pow2_pos(e_first);
        assert(pow2(0) == 1) by {
            lemma2_to64();
        }
        assert(chosen == f64_min(wq, hq));
        assert(f64_le(chosen, (1, 0)) == (first.0 <= first.2)) by (nonlinear_arith)
            requires pow2(0) == 1, first.2 == pow2(e_first), chosen.0 == first.0, chosen.1 == e_first;
    }
    let (m, d, ghost_e) = if first.0 <= first.2 {
        (first.0, first.2, Ghost(e_first))
    } else {
        (1u128, 1u128, Ghost(0nat))
    };
    proof {
        lemma2_to64();
        lemma2_to64_rest();
    }
    assert((m as nat, ghost_e@) == scale_ratio(
        source_width as nat,
        source_height as nat,
        max_width as nat,
        max_height as nat,
    ));
    let w = scale_side(source_width, m, d, ghost_e);
    let h = scale_side(source_height, m, d, ghost_e);
    (w, h)
}

} // verus!

verus! {

/// The lowest video bitrate the planner ever asks the encoder for.
pub const MIN_VIDEO_BPS: u64 = 250_000;

/// `target_mib.saturating_mul(MIB)`: the size limit in bytes.
pub open spec fn target_bytes_of(target_mib: nat) -> nat {
    if target_mib * (MIB as nat) > u64::MAX {
        u64::MAX as nat
    } else {
        target_mib * (MIB as nat)
    }
}

/// The size limit in bytes for a target given in mebibytes.
pub fn target_bytes(target_mib: u64) -> (r: u64)
    ensures
        r == target_bytes_of(target_mib as nat),
{
    match target_mib.checked_mul(MIB) {
        Some(bytes) => bytes,
        None => u64::MAX,
    }
}

/// `value as u64` for a non-negative whole double: saturates at `u64::MAX`.
pub open spec fn saturate_u64(value: nat) -> nat {
    if value > u64::MAX {
        u64::MAX as nat
    } else {
        value
    }
}

/// The double nearest to 0.95, as a multiple of 2^-53.
pub open spec fn ninety_five_hundredths() -> nat {
    8556839292003942
}

/// `((bps as f64) * 0.95) as u64`.
pub open spec fn reduced_by_five_percent(bps: nat) -> nat {
    saturate_u64(round53(round53(bps) * ninety_five_hundredths()) / pow2(53))
}

/// `a.max(b)`.
pub open spec fn max_nat(a: nat, b: nat) -> nat {
    if a >= b {
        a
    } else {
        b
    }
}

/// The first-attempt bitrate for a strategy, from the size-derived bitrate
/// and the quality floor: Best Quality never goes below the floor, Smallest
/// File keeps a further 5% in reserve, and no strategy goes below
/// `MIN_VIDEO_BPS`.
pub open spec fn strategy_video_bps(strategy: QualityStrategy, target_video_bps: nat, quality_floor_bps: nat) -> nat {
    let chosen = match strategy {
        QualityStrategy::BestQuality => max_nat(target_video_bps, quality_floor_bps),
        QualityStrategy::SmallestFile => reduced_by_five_percent(target_video_bps),
        _ => target_video_bps,
    };
    max_nat(chosen, MIN_VIDEO_BPS as nat)
}

/// Applies the quality strategy to the size-derived bitrate.
pub fn choose_video_bps(strategy: QualityStrategy, target_video_bps: u64, quality_floor_bps: u64) -> (r: u64)
    ensures
        r == strategy_video_bps(strategy, target_video_bps as nat, quality_floor_bps as nat),
{
    let chosen = match strategy {
        QualityStrategy::BestQuality => if target_video_bps >= quality_floor_bps {
            target_video_bps
        } else {
            quality_floor_bps
        },
        QualityStrategy::SmallestFile => {
            proof {
                lemma2_to64();
                lemma2_to64_rest();
                lemma_pow2_adds(53, 0);
            }
            let exact = round53_u128(target_video_bps as u128);
            assert(exact * 8556839292003942 < 0x4000_0000_0000_0000_0000_0000_0000_0000) by (nonlinear_arith)
                requires exact <= 2 * target_video_bps + 1, target_video_bps < 0x1_0000_0000_0000_0000u128;
            let scaled = round53_u128(exact * 8556839292003942);
            let whole = scaled / 0x20_0000_0000_0000;
            if whole > 0xFFFF_FFFF_FFFF_FFFF {
                0xFFFF_FFFF_FFFF_FFFF
            } else {
                whole as u64
            }
        },
        _ => target_video_bps,
    };
    if chosen < MIN_VIDEO_BPS {
        MIN_VIDEO_BPS
    } else {
        chosen
    }
}

/// Best Quality never plans a lower bitrate than Balanced for the same size
/// budget, whatever floor either computes.
pub proof fn best_quality_never_below_balanced(target_video_bps: nat, best_floor: nat, balanced_floor: nat)
    ensures
        strategy_video_bps(QualityStrategy::BestQuality, target_video_bps, best_floor)
            >= strategy_video_bps(QualityStrategy::Balanced, target_video_bps, balanced_floor),
{
}

/// Keeping 95% of a bitrate, in doubles, never gives more than the bitrate.
proof fn lemma_five_percent_reduction_lowers(t: nat)
    ensures
        reduced_by_five_percent(t) <= t,
{
    let c: nat = 0x20_0000_0000_0000;
    let k = ninety_five_hundredths();
    let a = round53(t);
    lemma_round53_error(t);
    lemma_round53_error(a * k);
    let b = round53(a * k);
    assert(two_53() == c);
    assert(c * (c * b) <= c * ((c + 1) * (a * k))) by (nonlinear_arith)
        requires c * b <= (c + 1) * (a * k);
    assert(c * ((c + 1) * (a * k)) == ((c + 1) * k) * (c * a)) by (nonlinear_arith);
    assert(((c + 1) * k) * (c * a) <= ((c + 1) * k) * ((c + 1) * t)) by (nonlinear_arith)
        requires c * a <= (c + 1) * t;
    assert((c + 1) * k * (c + 1) <= c * c * c) by (nonlinear_arith)
        requires c == 0x20_0000_0000_0000, k == 8556839292003942nat;
    assert(b <= c * t) by (nonlinear_arith)
        requires
            c * (c * b) <= ((c + 1) * k) * ((c + 1) * t),
            (c + 1) * k * (c + 1) <= c * c * c,
            c == 0x20_0000_0000_0000,
    ;
    lemma2_to64_rest();
    vstd::arithmetic::div_mod::lemma_div_is_ordered(b as int, (t * c) as int, c as int);
    vstd::arithmetic::div_mod::lemma_div_by_multiple(t as int, c as int);
    assert(t * c == c * t) by (nonlinear_arith);
}

/// Smallest File never plans a higher bitrate than Balanced for the same size
/// budget, and Fastest Encode plans the same bitrate as Balanced, whatever
/// floor either computes.
pub proof fn strategies_order_bitrates(target_video_bps: nat, smaller_floor: nat, balanced_floor: nat)
    ensures
        strategy_video_bps(QualityStrategy::SmallestFile, target_video_bps, smaller_floor)
            <= strategy_video_bps(QualityStrategy::Balanced, target_video_bps, balanced_floor),
        strategy_video_bps(QualityStrategy::FastestEncode, target_video_bps, smaller_floor)
            == strategy_video_bps(QualityStrategy::Balanced, target_video_bps, balanced_floor),
{
    lemma_five_percent_reduction_lowers(target_video_bps);
}

/// Every planned bitrate is at least `MIN_VIDEO_BPS`, and Best Quality's is at
/// least its quality floor.
pub proof fn planned_bitrate_respects_minimums(strategy: QualityStrategy, target_video_bps: nat, quality_floor_bps: nat)
    ensures
        strategy_video_bps(strategy, target_video_bps, quality_floor_bps) >= MIN_VIDEO_BPS,
        strategy == QualityStrategy::BestQuality ==> strategy_video_bps(strategy, target_video_bps, quality_floor_bps)
            >= quality_floor_bps,
{
}

/// The smallest bitrate a retry may ask for under a strategy.
pub open spec fn retry_minimum(strategy: QualityStrategy, quality_floor_bps: nat) -> nat {
    if strategy == QualityStrategy::BestQuality {
        max_nat(quality_floor_bps, MIN_VIDEO_BPS as nat)
    } else {
        MIN_VIDEO_BPS as nat
    }
}

/// The double nearest to a strategy's retry safety buffer (0.94 for
/// Smallest File, 0.99 for Best Quality, 0.97 otherwise), as a multiple of 2^-53.
pub open spec fn strategy_buffer(strategy: QualityStrategy) -> nat {
    match strategy {
        QualityStrategy::SmallestFile => 8466767299456532,
        QualityStrategy::BestQuality => 8917127262193582,
        _ => 8736983277098762,
    }
}

/// `(previous as f64 * (target as f64 / measured as f64) * (buffer / 2^53)) as u64`
/// for a `target` below `measured`: every step rounded as doubles round.
pub open spec fn scaled_bitrate(previous: nat, measured: nat, target: nat, buffer: nat) -> nat {
    let correction = f64_quotient(round53(target), round53(measured));
    let corrected = round53(round53(previous) * correction.0);
    saturate_u64(round53(corrected * buffer) / pow2(correction.1 + 53))
}

/// The bitrate a retry starts from after an output of `measured` bytes:
/// the previous bitrate scaled by the measured overshoot
/// (`target / measured.max(1)`) and by the strategy's safety buffer.
pub open spec fn retry_proposal(
    previous_video_bps: nat,
    measured_output_bytes: nat,
    target_mib: nat,
    strategy: QualityStrategy,
) -> nat {
    scaled_bitrate(
        previous_video_bps,
        max_nat(measured_output_bytes, 1),
        target_bytes_of(target_mib),
        strategy_buffer(strategy),
    )
}

/// The retry decision after an encode measured `measured` bytes: none when
/// the output met the target; otherwise the proposal raised to the
/// strategy's minimum, unless that would not lower the bitrate by more than
/// 10 kbit/s.
pub open spec fn retry_decision(
    previous_video_bps: nat,
    measured_output_bytes: nat,
    target_mib: nat,
    strategy: QualityStrategy,
    quality_floor_bps: nat,
) -> Option<nat> {
    if measured_output_bytes <= target_bytes_of(target_mib) {
        None
    } else {
        let proposed = retry_proposal(previous_video_bps, measured_output_bytes, target_mib, strategy);
        let next = max_nat(proposed, retry_minimum(strategy, quality_floor_bps));
        let threshold = if previous_video_bps >= 10_000 { (previous_video_bps - 10_000) as nat } else { 0 };
        if next >= threshold {
            None
        } else {
            Some(next)
        }
    }
}

/// Scales `previous` by `target / measured` and by `buffer / 2^53`, in doubles.
fn scaled_retry_bitrate(previous: u64, measured: u64, target: u64, buffer: u128) -> (r: u64)
    requires
        target < measured,
        buffer < 0x20_0000_0000_0000,
    ensures
        r == scaled_bitrate(previous as nat, measured as nat, target as nat, buffer as nat),
{
    proof {
        lemma2_to64();
        lemma2_to64_rest();
    }
    let t = round53_u128(target as u128);
    let m = round53_u128(measured as u128);
    proof {
        lemma_round53_monotone(target as nat, measured as nat);
        lemma_round53_small(measured as nat);
    }
    if t == 0 {
        proof {
            lemma_zero_quotient(m as nat);
            let correction = f64_quotient(0, m as nat);
            assert(round53(previous as nat) * correction.0 == 0);
            assert(0 * (buffer as nat) == 0);
            lemma_pow2_pos(correction.1 + 53);
            assert(0nat / pow2(correction.1 + 53) == 0);
        }
        return 0;
    }
    let (m1, e1) = f64_fraction(t, m);
    let p = round53_u128(previous as u128);
    assert(p * m1 < 0x40_0000_0000_0000_0000_0000_0000_0000) by (nonlinear_arith)
        requires p <= 0x1_FFFF_FFFF_FFFF_FFFF, m1 <= 0x20_0000_0000_0000;
    let (q1, k1, d1) = round53_parts(p * m1);
    proof {
        lemma_pow2_adds(53, 65);
        lemma_pow2_adds(64, 1);
        lemma_excess_bits_bound((p * m1) as nat, 65);
    }
    assert(q1 * buffer < 0x400_0000_0000_0000_0000_0000_0000) by (nonlinear_arith)
        requires q1 <= 0x20_0000_0000_0000, buffer < 0x20_0000_0000_0000;
    let r2 = round53_u128(q1 * buffer);
    let s: u32 = e1 + 53 - k1;
    let whole: u128 = if s >= 128 {
        0
    } else {
        let scale = pow2_u128(s);
        proof {
            lemma_pow2_pos(s as nat);
        }
        r2 / scale
    };
    proof {
        let x = pow2(k1 as nat);
        let y = pow2(s as nat);
        lemma_round53_scale((q1 * buffer) as nat, k1 as nat);
        assert((q1 * buffer) * x == (q1 * d1) * buffer) by (nonlinear_arith)
            requires d1 == x;
        lemma_pow2_adds(s as nat, k1 as nat);
        assert((s + k1) as nat == e1 + 53);
        lemma_pow2_pos(k1 as nat);
        lemma_pow2_pos(s as nat);
        vstd::arithmetic::div_mod::lemma_div_multiples_vanish_quotient(x as int, r2 as int, y as int);
        assert(x * r2 == r2 * x && x * y == y * x) by (nonlinear_arith);
        if s >= 128 {
            lemma_pow2_adds(64, 44);
            lemma_pow2_strictly_increases(108, s as nat);
            vstd::arithmetic::div_mod::lemma_basic_div(r2 as int, y as int);
        }
    }
    if whole > 0xFFFF_FFFF_FFFF_FFFF {
        0xFFFF_FFFF_FFFF_FFFF
    } else {
        whole as u64
    }
}

/// Chooses a lower bitrate for another attempt after an oversized output.
///
/// FFmpeg's actual output can differ from the arithmetic estimate, especially
/// with hardware encoders. The measured output size gives a correction
/// factor for the next attempt.
pub fn retry_video_bitrate(
    previous_video_bps: u64,
    measured_output_bytes: u64,
    config: &JobConfig,
    quality_floor_bps: u64,
) -> (r: Option<u64>)
    ensures
        r == match retry_decision(
            previous_video_bps as nat,
            measured_output_bytes as nat,
            config.target_mib as nat,
            config.quality_strategy,
            quality_floor_bps as nat,
        ) {
            Some(n) => Some(n as u64),
            None => None::<u64>,
        },
        r matches Some(next) ==> next + 10_000 < previous_video_bps && next >= MIN_VIDEO_BPS,
        r matches Some(next) ==> (config.quality_strategy == QualityStrategy::BestQuality ==> next
            >= quality_floor_bps),
        measured_output_bytes <= target_bytes_of(config.target_mib as nat) ==> r is None,
{
    let target = target_bytes(config.target_mib);
    if measured_output_bytes <= target {
        return None;
    }
    let buffer: u128 = match config.quality_strategy {
        QualityStrategy::SmallestFile => 8466767299456532,
        QualityStrategy::BestQuality => 8917127262193582,
        _ => 8736983277098762,
    };
    let proposed = scaled_retry_bitrate(previous_video_bps, measured_output_bytes, target, buffer);
    let minimum = if config.quality_strategy == QualityStrategy::BestQuality {
        if quality_floor_bps >= MIN_VIDEO_BPS {
            quality_floor_bps
        } else {
            MIN_VIDEO_BPS
        }
    } else {
        MIN_VIDEO_BPS
    };
    let next = if proposed >= minimum {
        proposed
    } else {
        minimum
    };
    if next >= previous_video_bps.saturating_sub(10_000) {
        None
    } else {
        Some(next)
    }
}

/// `((bytes as f64 / MIB as f64).ceil()) as u64`: whole mebibytes, rounded up.
pub open spec fn mib_ceiling(bytes: nat) -> nat {
    ((round53(bytes) + MIB - 1) / (MIB as int)) as nat
}

/// Converts a byte count to whole mebibytes, rounding up.
pub fn bytes_to_mib(bytes: u64) -> (r: u64)
    ensures
        r == mib_ceiling(bytes as nat),
{
    let exact = round53_u128(bytes as u128);
    let mib = (exact + 0xF_FFFF) / 0x10_0000;
    assert(mib < 0x1_0000_0000_0000_0000) by (nonlinear_arith)
        requires mib == (exact + 0xF_FFFF) / 0x10_0000, exact <= 2 * bytes + 1, bytes < 0x1_0000_0000_0000_0000u128;
    mib as u64
}

/// The Compression Advisor's explanation for one video.
pub open spec fn advice_text(
    compression_required: bool,
    strategy: QualityStrategy,
    predicted_output_bytes: nat,
    target_mib: nat,
    aggressive: bool,
    suggested_minimum_bytes: nat,
    downscaled: bool,
    output_width: nat,
    output_height: nat,
) -> Seq<char> {
    if !compression_required {
        "The source already fits both limits. It can be skipped without re-encoding."@
    } else if strategy == QualityStrategy::BestQuality && predicted_output_bytes > target_bytes_of(target_mib) {
        "Best Quality protects the estimated quality floor. The result may be about "@ + decimal(
            mib_ceiling(predicted_output_bytes),
        ) + " MiB instead of "@ + decimal(target_mib) + " MiB."@
    } else if aggressive {
        "The requested size is aggressive for this duration and resolution. About "@ + decimal(
            mib_ceiling(suggested_minimum_bytes),
        ) + " MiB is suggested for better quality."@
    } else if downscaled {
        "The video will be downscaled to "@ + decimal(output_width) + "×"@ + decimal(output_height)
            + " before the target bitrate is applied."@
    } else {
        "The original resolution will be retained and bitrate will be reduced to meet the size goal."@
    }
}

/// Writes the Compression Advisor's explanation.
pub fn advisor_message(
    compression_required: bool,
    strategy: QualityStrategy,
    predicted_output_bytes: u64,
    target_mib: u64,
    aggressive: bool,
    suggested_minimum_bytes: u64,
    downscaled: bool,
    output_width: u32,
    output_height: u32,
) -> (r: String)
    ensures
        r@ == advice_text(
            compression_required,
            strategy,
            predicted_output_bytes as nat,
            target_mib as nat,
            aggressive,
            suggested_minimum_bytes as nat,
            downscaled,
            output_width as nat,
            output_height as nat,
        ),
{
    let mut text = String::new();
    if !compression_required {
        text.append("The source already fits both limits. It can be skipped without re-encoding.");
    } else if strategy == QualityStrategy::BestQuality && predicted_output_bytes > target_bytes(target_mib) {
        text.append("Best Quality protects the estimated quality floor. The result may be about ");
        push_decimal(&mut text, bytes_to_mib(predicted_output_bytes));
        text.append(" MiB instead of ");
        push_decimal(&mut text, target_mib);
        text.append(" MiB.");
    } else if aggressive {
        text.append("The requested size is aggressive for this duration and resolution. About ");
        push_decimal(&mut text, bytes_to_mib(suggested_minimum_bytes));
        text.append(" MiB is suggested for better quality.");
    } else if downscaled {
        text.append("The video will be downscaled to ");
        push_decimal(&mut text, output_width as u64);
        text.append("×");
        push_decimal(&mut text, output_height as u64);
        text.append(" before the target bitrate is applied.");
    } else {
        text.append(
            "The original resolution will be retained and bitrate will be reduced to meet the size goal.",
        );
    }
    assert(text@ =~= advice_text(
        compression_required,
        strategy,
        predicted_output_bytes as nat,
        target_mib as nat,
        aggressive,
        suggested_minimum_bytes as nat,
        downscaled,
        output_width as nat,
        output_height as nat,
    ));
    text
}

/// `1.15` as a double, `(m, e)` standing for `m / 2^e`.
pub open spec fn excellent_ratio() -> (nat, nat) {
    (5179139571476070, 52)
}

/// `0.85` as a double.
pub open spec fn good_ratio() -> (nat, nat) {
    (7656119366529843, 53)
}

/// `0.65` as a double.
pub open spec fn fair_ratio() -> (nat, nat) {
    (5854679515581645, 53)
}

/// Whether `video_bps as f64 / quality_floor_bps.max(1) as f64` is at least
/// the double `threshold`. (A quotient of 2^53 or more is held by
/// `f64_quotient` as the nearest whole number, which compares with a
/// threshold below 2 just as the double does.)
pub open spec fn ratio_reaches(video_bps: nat, quality_floor_bps: nat, threshold: (nat, nat)) -> bool {
    f64_le(threshold, f64_quotient(round53(video_bps), round53(max_nat(quality_floor_bps, 1))))
}

/// Whether the planned bitrate reaches `m / 2^e` times the quality floor,
/// compared as doubles, for a threshold of at most 2.
fn reaches_ratio(video_bps: u64, quality_floor_bps: u64, m: u128, e: u32) -> (r: bool)
    requires
        pow2(52) <= m <= pow2(53),
        52 <= e <= 53,
        f64_le((m as nat, e as nat), (2, 0)),
    ensures
        r == ratio_reaches(video_bps as nat, quality_floor_bps as nat, (m as nat, e as nat)),
{
    let floor = if quality_floor_bps < 1 {
        1
    } else {
        quality_floor_bps
    };
    let x = round53_u128(video_bps as u128);
    let y = round53_u128(floor as u128);
    proof {
        lemma_round53_small(floor as nat);
        lemma_round53_small(video_bps as nat);
        lemma2_to64();
        lemma2_to64_rest();
    }
    if x == 0 {
        proof {
            lemma_zero_quotient(y as nat);
            let k = f64_quotient(0, y as nat).1;
            lemma_pow2_pos(k);
            assert(m * pow2(k) > 0) by (nonlinear_arith)
                requires m > 0, pow2(k) > 0;
            assert(0 * pow2(e as nat) == 0);
            assert(max_nat(quality_floor_bps as nat, 1) == floor);
            assert(!f64_le((m as nat, e as nat), f64_quotient(0, y as nat)));
        }
        return false;
    }
    if x >= 2 * y {
        proof {
            lemma_quotient_at_least_two(x as nat, y as nat);
            lemma_f64_le_transitive((m as nat, e as nat), (2, 0), f64_quotient(x as nat, y as nat));
        }
        return true;
    }
    let q = f64_fraction(x, y);
    f64_le_exec((m, e), q)
}

/// The quality rating of a planned bitrate against the quality floor.
pub open spec fn rating(video_bps: nat, quality_floor_bps: nat) -> Seq<char> {
    if ratio_reaches(video_bps, quality_floor_bps, excellent_ratio()) {
        "Excellent"@
    } else if ratio_reaches(video_bps, quality_floor_bps, good_ratio()) {
        "Good"@
    } else if ratio_reaches(video_bps, quality_floor_bps, fair_ratio()) {
        "Fair"@
    } else {
        "Low"@
    }
}

/// Rates a planned bitrate by its ratio to the quality floor: Excellent from
/// 1.15, Good from 0.85, Fair from 0.65, Low below.
pub fn quality_label(video_bps: u64, quality_floor_bps: u64) -> (r: &'static str)
    ensures
        r@ == rating(video_bps as nat, quality_floor_bps as nat),
{
    proof {
        lemma2_to64();
        lemma2_to64_rest();
        lemma_pow2_unfold(53);
    }
    if reaches_ratio(video_bps, quality_floor_bps, 5179139571476070, 52) {
        "Excellent"
    } else if reaches_ratio(video_bps, quality_floor_bps, 7656119366529843, 53) {
        "Good"
    } else if reaches_ratio(video_bps, quality_floor_bps, 5854679515581645, 53) {
        "Fair"
    } else {
        "Low"
    }
}

/// Best Quality never plans a bitrate below its quality floor, so it always
/// rates its plan Good or Excellent.
pub proof fn best_quality_rates_good_or_better(target_video_bps: nat, quality_floor_bps: nat)
    ensures
        rating(strategy_video_bps(QualityStrategy::BestQuality, target_video_bps, quality_floor_bps), quality_floor_bps)
            == "Excellent"@ || rating(
            strategy_video_bps(QualityStrategy::BestQuality, target_video_bps, quality_floor_bps),
            quality_floor_bps,
        ) == "Good"@,
{
    let video_bps = strategy_video_bps(QualityStrategy::BestQuality, target_video_bps, quality_floor_bps);
    let floor = max_nat(quality_floor_bps, 1);
    lemma_round53_monotone(floor, video_bps);
    lemma_round53_small(floor);
    lemma_quotient_at_least_one(round53(video_bps), round53(floor));
    lemma2_to64();
    lemma2_to64_rest();
    lemma_f64_le_transitive(good_ratio(), (1, 0), f64_quotient(round53(video_bps), round53(floor)));
}

/// Whether a source exceeds the size limit or either side of the frame limit.
pub open spec fn needs_compression(source_bytes: nat, target_mib: nat, sw: nat, sh: nat, mw: nat, mh: nat) -> bool {
    source_bytes > target_bytes_of(target_mib) || sw > mw || sh > mh
}

/// A source needs compressing exactly when it is wider or taller than the
/// frame limit or larger than the size target (`target_mib` MiB, where that
/// fits in 64 bits): each exceeded limit alone makes it needed, and a source
/// within all three does not need it.
pub proof fn exceeding_a_limit_requires_compression(
    source_bytes: nat,
    target_mib: nat,
    sw: nat,
    sh: nat,
    mw: nat,
    mh: nat,
)
    requires
        source_bytes <= u64::MAX,
    ensures
        sw > mw ==> needs_compression(source_bytes, target_mib, sw, sh, mw, mh),
        sh > mh ==> needs_compression(source_bytes, target_mib, sw, sh, mw, mh),
        target_mib * 1048576 <= u64::MAX && source_bytes > target_mib * 1048576 ==> needs_compression(
            source_bytes,
            target_mib,
            sw,
            sh,
            mw,
            mh,
        ),
        sw <= mw && sh <= mh && source_bytes <= target_mib * 1048576 ==> !needs_compression(
            source_bytes,
            target_mib,
            sw,
            sh,
            mw,
            mh,
        ),
{
}

/// Completes a compression plan from the advisor's estimates.
///
/// The output frame comes from `fit_without_upscaling`; the source needs
/// compression when it is over the size target or either side of the frame
/// limit.
/// `video_bps`, the quality floor, and the predicted sizes are the estimates
/// made from the video's duration and frame rate; the rating and the advice
/// follow from them, the advice calling a bitrate under 0.65 times the floor
/// aggressive.
pub fn assemble_plan(
    source_width: u32,
    source_height: u32,
    source_bytes: u64,
    config: &JobConfig,
    video_bps: u64,
    predicted_output_bytes: u64,
    quality_floor_bps: u64,
    suggested_minimum_bytes: u64,
) -> (plan: CompressionPlan)
    ensures
        (plan.output_width as nat, plan.output_height as nat) == fitted_dimensions(
            source_width as nat,
            source_height as nat,
            config.max_width as nat,
            config.max_height as nat,
        ),
        source_width > config.max_width ==> plan.compression_required,
        source_height > config.max_height ==> plan.compression_required,
        config.target_mib * 1048576 <= u64::MAX && source_bytes > config.target_mib * 1048576
            ==> plan.compression_required,
        source_width <= config.max_width && source_height <= config.max_height && source_bytes
            <= config.target_mib * 1048576 ==> !plan.compression_required,
        plan.compression_required == needs_compression(
            source_bytes as nat,
            config.target_mib as nat,
            source_width as nat,
            source_height as nat,
            config.max_width as nat,
            config.max_height as nat,
        ),
        plan.message@ == advice_text(
            plan.compression_required,
            config.quality_strategy,
            predicted_output_bytes as nat,
            config.target_mib as nat,
            !ratio_reaches(video_bps as nat, quality_floor_bps as nat, fair_ratio()),
            suggested_minimum_bytes as nat,
            source_width > plan.output_width || source_height > plan.output_height,
            plan.output_width as nat,
            plan.output_height as nat,
        ),
        plan.video_bps == video_bps,
        plan.predicted_output_bytes == predicted_output_bytes,
        plan.quality_floor_bps == quality_floor_bps,
        plan.quality_label@ == rating(video_bps as nat, quality_floor_bps as nat),
{
    let (output_width, output_height) = fit_without_upscaling(
        source_width,
        source_height,
        config.max_width,
        config.max_height,
    );
    proof {
        lemma2_to64();
        lemma2_to64_rest();
        lemma_pow2_unfold(53);
    }
    let label = quality_label(video_bps, quality_floor_bps);
    let aggressive = !reaches_ratio(video_bps, quality_floor_bps, 5854679515581645, 53);
    let downscaled = source_width > output_width || source_height > output_height;
    let compression_required = source_bytes > target_bytes(config.target_mib) || source_width > config.max_width
        || source_height > config.max_height;
    let message = advisor_message(
        compression_required,
        config.quality_strategy,
        predicted_output_bytes,
        config.target_mib,
        aggressive,
        suggested_minimum_bytes,
        downscaled,
        output_width,
        output_height,
    );
    CompressionPlan {
        output_width,
        output_height,
        video_bps,
        predicted_output_bytes,
        quality_floor_bps,
        quality_label: label,
        message,
        compression_required,
    }
}

} // verus!

verus! {

/// A downscaled side of at least 2 pixels is even and at least 2: scaling by
/// a ratio of at most 1 never reaches past the side, so the cap never applies.
proof fn lemma_scaled_side_shape(side: nat, ratio: (nat, nat))
    requires
        2 <= side <= u32::MAX,
        ratio.0 <= pow2(ratio.1),
    ensures
        scaled_side(side, ratio) >= 2,
        scaled_side(side, ratio) % 2 == 0,
{
    lemma2_to64();
    lemma2_to64_rest();
    lemma_scaled_floor_at_most(side, ratio.0, ratio.1);
}

/// The ratio the planner scales by is never above 1.
proof fn lemma_ratio_at_most_one(sw: nat, sh: nat, mw: nat, mh: nat)
    ensures
        scale_ratio(sw, sh, mw, mh).0 <= pow2(scale_ratio(sw, sh, mw, mh).1),
{
    let x = f64_min(f64_quotient(mw, sw), f64_quotient(mh, sh));
    lemma2_to64();
    if f64_le(x, (1, 0)) {
        assert(x.0 * pow2(0) <= 1 * pow2(x.1));
        assert(x.0 <= pow2(x.1)) by (nonlinear_arith)
            requires x.0 * pow2(0) <= 1 * pow2(x.1), pow2(0) == 1;
    }
}

/// When a source larger than the limit is scaled down, every side of at
/// least 2 pixels comes out even and at least 2, as H.264 and H.265 need.
pub proof fn fitted_sides_are_even(sw: nat, sh: nat, mw: nat, mh: nat)
    requires
        0 < sw <= u32::MAX,
        0 < sh <= u32::MAX,
        !(sw <= mw && sh <= mh),
    ensures
        sw >= 2 ==> fitted_dimensions(sw, sh, mw, mh).0 >= 2 && fitted_dimensions(sw, sh, mw, mh).0 % 2 == 0,
        sh >= 2 ==> fitted_dimensions(sw, sh, mw, mh).1 >= 2 && fitted_dimensions(sw, sh, mw, mh).1 % 2 == 0,
{
    let ratio = scale_ratio(sw, sh, mw, mh);
    lemma_ratio_at_most_one(sw, sh, mw, mh);
    if sw >= 2 {
        lemma_scaled_side_shape(sw, ratio);
    }
    if sh >= 2 {
        lemma_scaled_side_shape(sh, ratio);
    }
}

/// A source inside the limit is returned unchanged.
pub proof fn sources_inside_the_limit_are_kept(sw: nat, sh: nat, mw: nat, mh: nat)
    requires
        0 < sw <= mw,
        0 < sh <= mh,
    ensures
        fitted_dimensions(sw, sh, mw, mh) == (sw, sh),
{
}

/// The planner never upscales: no output side is larger than the source side.
pub proof fn fitting_never_upscales(sw: nat, sh: nat, mw: nat, mh: nat)
    requires
        sw > 0,
        sh > 0,
    ensures
        fitted_dimensions(sw, sh, mw, mh).0 <= sw,
        fitted_dimensions(sw, sh, mw, mh).1 <= sh,
{
}

} // verus!

verus! {

/// Scaling a side by any double at most the double nearest to
/// `limit / side` never gives more than `limit`.
proof fn lemma_side_within_limit(side: nat, limit: nat, r: (nat, nat))
    requires
        1 <= side < 0x1_0000_0000,
        limit < 0x1_0000_0000,
        f64_le(r, f64_quotient(limit, side)),
    ensures
        scaled_floor(side, r) <= limit,
{
    let q = f64_quotient(limit, side);
    let x = pow2(q.1);
    let y = pow2(r.1);
    lemma_pow2_pos(q.1);
    lemma_pow2_pos(r.1);
    if limit == 0 {
        lemma_zero_quotient(side);
        assert(r.0 * x <= 0) by (nonlinear_arith)
            requires r.0 * x <= q.0 * y, q.0 == 0;
        assert(r.0 == 0) by (nonlinear_arith)
            requires r.0 * x <= 0, x > 0;
        lemma_zero_ratio(side, r.1);
    } else {
        lemma_quotient_facts(limit, side);
        let n = side * r.0;
        let rounded = round53(n);
        lemma_round53_error(n);
        lemma2_to64();
        lemma2_to64_rest();
        let c: nat = 0x20_0000_0000_0000;
        assert(n * x <= side * q.0 * y) by (nonlinear_arith)
            requires r.0 * x <= q.0 * y, n == side * r.0;
        assert(2 * c * rounded * x <= 2 * (c + 1) * n * x) by (nonlinear_arith)
            requires c * rounded <= (c + 1) * n, x > 0;
        assert(2 * (c + 1) * n * x <= 2 * (c + 1) * side * q.0 * y) by (nonlinear_arith)
            requires n * x <= side * q.0 * y;
        assert(2 * (c + 1) * side * q.0 * y <= (c + 1) * (2 * limit * x + side) * y) by (nonlinear_arith)
            requires 2 * q.0 * side <= 2 * limit * x + side, y > 0;
        assert((c + 1) * (2 * limit * x + side) < 2 * c * (limit + 1) * x) by (nonlinear_arith)
            requires
                0x10_0000_0000_0000 * side <= limit * x,
                limit < 0x1_0000_0000,
                c == 0x20_0000_0000_0000,
                x > 0,
        ;
        assert((c + 1) * (2 * limit * x + side) * y < 2 * c * (limit + 1) * x * y) by (nonlinear_arith)
            requires (c + 1) * (2 * limit * x + side) < 2 * c * (limit + 1) * x, y > 0;
        assert(rounded < (limit + 1) * y) by (nonlinear_arith)
            requires
                2 * c * rounded * x < 2 * c * (limit + 1) * x * y,
                c > 0,
                x > 0,
        ;
        assert(rounded / y <= limit) by (nonlinear_arith)
            requires rounded < (limit + 1) * y, y > 0;
    }
}

/// The planner's ratio is at most both side quotients.
proof fn lemma_ratio_below_quotients(sw: nat, sh: nat, mw: nat, mh: nat)
    ensures
        f64_le(scale_ratio(sw, sh, mw, mh), f64_quotient(mw, sw)),
        f64_le(scale_ratio(sw, sh, mw, mh), f64_quotient(mh, sh)),
{
    let wq = f64_quotient(mw, sw);
    let hq = f64_quotient(mh, sh);
    let smaller = f64_min(wq, hq);
    let r = scale_ratio(sw, sh, mw, mh);
    lemma_f64_le_total(wq, hq);
    lemma_f64_le_total(smaller, (1, 0));
    assert(f64_le(wq, wq)) by (nonlinear_arith);
    assert(f64_le(hq, hq)) by (nonlinear_arith);
    assert(f64_le(smaller, wq));
    assert(f64_le(smaller, hq));
    assert(f64_le(r, smaller)) by {
        if !f64_le(smaller, (1, 0)) {
            assert(r == (1nat, 0nat));
        } else {
            assert(f64_le(smaller, smaller)) by (nonlinear_arith);
        }
    }
    lemma_f64_le_transitive(r, smaller, wq);
    lemma_f64_le_transitive(r, smaller, hq);
}

/// The output frame fits inside the limit: each side is at most the
/// limit's side (or 2, the smallest side a downscaled frame is given), for
/// any source with two non-zero sides.
pub proof fn fitting_respects_the_limit(sw: nat, sh: nat, mw: nat, mh: nat)
    requires
        0 < sw <= u32::MAX,
        0 < sh <= u32::MAX,
        mw <= u32::MAX,
        mh <= u32::MAX,
    ensures
        fitted_dimensions(sw, sh, mw, mh).0 <= max_nat(mw, 2),
        fitted_dimensions(sw, sh, mw, mh).1 <= max_nat(mh, 2),
{
    if !(sw <= mw && sh <= mh) {
        let r = scale_ratio(sw, sh, mw, mh);
        lemma_ratio_below_quotients(sw, sh, mw, mh);
        lemma_side_within_limit(sw, mw, r);
        lemma_side_within_limit(sh, mh, r);
    }
}


/// A downscaled side falls short of `side * (a / b)` by less than 3, when the
/// double `(m, e)` it is scaled by is at least `(a / b) * (1 - 2^-53)`.
proof fn lemma_side_reaches(side: nat, m: nat, e: nat, a: nat, b: nat)
    requires
        1 <= side < 0x1_0000_0000,
        1 <= b,
        a <= b,
        m <= pow2(e),
        m * b * two_53() >= a * pow2(e) * (two_53() - 1),
    ensures
        (scaled_side(side, (m, e)) + 3) * b > side * a,
{
    let c: nat = 0x20_0000_0000_0000;
    let x = pow2(e);
    lemma_pow2_pos(e);
    lemma2_to64();
    lemma2_to64_rest();
    assert(two_53() == c);
    let n = side * m;
    let rounded = round53(n);
    lemma_round53_lower(n);
    lemma_scaled_floor_at_most(side, m, e);
    let f = rounded / x;
    vstd::arithmetic::div_mod::lemma_fundamental_div_mod(rounded as int, x as int);
    vstd::arithmetic::div_mod::lemma_mod_pos_bound(rounded as int, x as int);
    let rem = rounded % x;
    assert(rounded == x * f + rem);
    assert(rem < x);
    assert((f + 1) * x > rounded) by (nonlinear_arith)
        requires rounded == x * f + rem, rem < x;
    assert(c * ((f + 1) * x) > (c - 1) * n) by (nonlinear_arith)
        requires (f + 1) * x > rounded, c * rounded + n >= c * n, c > 1;
    assert((c - 1) * n * b * c >= (c - 1) * side * (a * x * (c - 1))) by (nonlinear_arith)
        requires n == side * m, m * b * c >= a * x * (c - 1), c > 1;
    assert((f + 1) * b * c * c * x > side * a * (c - 1) * (c - 1) * x) by (nonlinear_arith)
        requires
            c * ((f + 1) * x) > (c - 1) * n,
            (c - 1) * n * b * c >= (c - 1) * side * (a * x * (c - 1)),
            b >= 1,
            c > 1,
    ;
    assert((f + 1) * b * c * c > side * a * (c - 1) * (c - 1)) by (nonlinear_arith)
        requires (f + 1) * b * c * c * x > side * a * (c - 1) * (c - 1) * x, x > 0;
    assert(2 * c * side * a < c * c * b) by (nonlinear_arith)
        requires side < 0x1_0000_0000, a <= b, b >= 1, c == 0x20_0000_0000_0000;
    assert((f + 2) * b > side * a) by (nonlinear_arith)
        requires
            (f + 1) * b * c * c > side * a * (c - 1) * (c - 1),
            2 * c * side * a < c * c * b,
            c > 1,
    ;
    assert(scaled_floor(side, (m, e)) == f);
    let ev = even(f);
    let fitted = at_least_two(ev);
    if fitted > side {
        assert((side + 3) * b > side * a) by (nonlinear_arith)
            requires a <= b, b >= 1;
    } else {
        assert((fitted + 3) * b >= (f + 2) * b) by (nonlinear_arith)
            requires fitted + 1 >= f, b >= 1;
    }
}

/// The double ratio the planner scales by is at least the smaller exact
/// ratio `a / b` of the two limits to their sides, less a factor of 2^-53;
/// for a source outside the limit that ratio is below 1.
proof fn lemma_ratio_reaches(sw: nat, sh: nat, mw: nat, mh: nat, a: nat, b: nat)
    requires
        0 < sw < 0x1_0000_0000,
        0 < sh < 0x1_0000_0000,
        mw < 0x1_0000_0000,
        mh < 0x1_0000_0000,
        !(sw <= mw && sh <= mh),
        (a, b) == (if mw * sh <= mh * sw { (mw, sw) } else { (mh, sh) }),
    ensures
        a <= b,
        scale_ratio(sw, sh, mw, mh).0 * b * two_53() >= a * pow2(scale_ratio(sw, sh, mw, mh).1) * (two_53()
            - 1),
{
    let c: nat = 0x20_0000_0000_0000;
    lemma2_to64();
    lemma2_to64_rest();
    assert(two_53() == c);
    if mw * sh <= mh * sw {
        if mw > sw {
            assert(mh * sw > sw * sh) by (nonlinear_arith)
                requires mw * sh <= mh * sw, mw > sw, sh > 0;
            assert(mh > sh) by (nonlinear_arith)
                requires mh * sw > sw * sh, sw > 0;
        }
    } else {
        if mh > sh {
            assert(mw * sh > sh * sw) by (nonlinear_arith)
                requires mw * sh > mh * sw, mh > sh, sw > 0;
            assert(mw > sw) by (nonlinear_arith)
                requires mw * sh > sh * sw, sh > 0;
        }
    }
    let wq = f64_quotient(mw, sw);
    let hq = f64_quotient(mh, sh);
    lemma_quotient_lower(mw, sw);
    lemma_quotient_lower(mh, sh);
    let r = scale_ratio(sw, sh, mw, mh);
    let x = pow2(r.1);
    lemma_pow2_pos(r.1);
    if r == (1nat, 0nat) {
        assert(1 * b * c >= a * 1 * (c - 1)) by (nonlinear_arith)
            requires a <= b, c > 1;
    } else {
        assert(r == wq || r == hq);
        if r == wq {
            assert(r.0 * sw * c >= mw * x * (c - 1)) by (nonlinear_arith)
                requires r.0 * sw * c + mw * x >= mw * x * c;
            if a != mw || b != sw {
                assert(r.0 * sh * c * sw >= mh * x * (c - 1) * sw) by (nonlinear_arith)
                    requires r.0 * sw * c >= mw * x * (c - 1), mw * sh > mh * sw, c > 1;
                assert(r.0 * sh * c >= mh * x * (c - 1)) by (nonlinear_arith)
                    requires r.0 * sh * c * sw >= mh * x * (c - 1) * sw, sw > 0;
            }
        } else {
            assert(r.0 * sh * c >= mh * x * (c - 1)) by (nonlinear_arith)
                requires r.0 * sh * c + mh * x >= mh * x * c;
            if a != mh || b != sh {
                assert(r.0 * sw * c * sh >= mw * x * (c - 1) * sh) by (nonlinear_arith)
                    requires r.0 * sh * c >= mh * x * (c - 1), mw * sh <= mh * sw, c > 1;
                assert(r.0 * sw * c >= mw * x * (c - 1)) by (nonlinear_arith)
                    requires r.0 * sw * c * sh >= mw * x * (c - 1) * sh, sh > 0;
            }
        }
    }
}

/// A downscaled side exceeds `side * (a / b)` by less than 1 (unless it is
/// the 2-pixel minimum), when the double `(m, e)` it is scaled by is at most
/// `(a / b) * (1 + 2^-53)`.
proof fn lemma_side_within(side: nat, m: nat, e: nat, a: nat, b: nat)
    requires
        1 <= side < 0x1_0000_0000,
        1 <= b,
        a <= b,
        m * b * two_53() <= a * pow2(e) * (two_53() + 1),
    ensures
        scaled_side(side, (m, e)) <= 2 || scaled_side(side, (m, e)) * b < side * a + b,
{
    let c: nat = 0x20_0000_0000_0000;
    let x = pow2(e);
    lemma_pow2_pos(e);
    assert(two_53() == c);
    let n = side * m;
    let rounded = round53(n);
    lemma_round53_error(n);
    let f = rounded / x;
    vstd::arithmetic::div_mod::lemma_fundamental_div_mod(rounded as int, x as int);
    vstd::arithmetic::div_mod::lemma_mod_pos_bound(rounded as int, x as int);
    let rem = rounded % x;
    assert(rounded == x * f + rem);
    assert(f * x <= rounded) by (nonlinear_arith)
        requires rounded == x * f + rem, rem >= 0;
    assert(c * (f * x) <= (c + 1) * n) by (nonlinear_arith)
        requires f * x <= rounded, c * rounded <= (c + 1) * n, c > 0;
    assert((c + 1) * n * b * c <= (c + 1) * side * (a * x * (c + 1))) by (nonlinear_arith)
        requires n == side * m, m * b * c <= a * x * (c + 1);
    assert(f * b * c * c * x == (c * (f * x)) * (b * c)) by (nonlinear_arith);
    assert((c * (f * x)) * (b * c) <= ((c + 1) * n) * (b * c)) by (nonlinear_arith)
        requires c * (f * x) <= (c + 1) * n;
    assert(((c + 1) * n) * (b * c) == (c + 1) * n * b * c) by (nonlinear_arith);
    assert((c + 1) * side * (a * x * (c + 1)) == side * a * (c + 1) * (c + 1) * x) by (nonlinear_arith);
    assert(f * b * c * c <= side * a * (c + 1) * (c + 1)) by (nonlinear_arith)
        requires f * b * c * c * x <= side * a * (c + 1) * (c + 1) * x, x > 0;
    assert((2 * c + 1) * side * a < c * c * b) by (nonlinear_arith)
        requires side < 0x1_0000_0000, a <= b, b >= 1, c == 0x20_0000_0000_0000;
    assert(f * b < side * a + b) by (nonlinear_arith)
        requires
            f * b * c * c <= side * a * (c + 1) * (c + 1),
            (2 * c + 1) * side * a < c * c * b,
            c > 0,
    ;
    assert(scaled_floor(side, (m, e)) == f);
    let ev = even(f);
    let fitted = at_least_two(ev);
    if fitted <= side && fitted > 2 {
        assert(fitted * b <= f * b) by (nonlinear_arith)
            requires fitted <= f, b >= 1;
    }
    if fitted > side && fitted > 2 {
        assert(f * b < (side + 1) * b) by (nonlinear_arith)
            requires f * b < side * a + b, a <= b;
        assert(f <= side) by (nonlinear_arith)
            requires f * b < (side + 1) * b, b >= 1;
    }
}

/// The double ratio the planner scales by is at most the smaller exact
/// ratio `a / b` of the two limits to their sides, plus a factor of 2^-53.
proof fn lemma_ratio_within(sw: nat, sh: nat, mw: nat, mh: nat, a: nat, b: nat)
    requires
        0 < sw < 0x1_0000_0000,
        0 < sh < 0x1_0000_0000,
        mw < 0x1_0000_0000,
        mh < 0x1_0000_0000,
        (a, b) == (if mw * sh <= mh * sw { (mw, sw) } else { (mh, sh) }),
    ensures
        scale_ratio(sw, sh, mw, mh).0 * b * two_53() <= a * pow2(scale_ratio(sw, sh, mw, mh).1) * (two_53()
            + 1),
{
    let c: nat = 0x20_0000_0000_0000;
    lemma2_to64();
    lemma2_to64_rest();
    assert(two_53() == c);
    let q = if mw * sh <= mh * sw {
        f64_quotient(mw, sw)
    } else {
        f64_quotient(mh, sh)
    };
    lemma_quotient_upper(a, b);
    lemma_ratio_below_quotients(sw, sh, mw, mh);
    let r = scale_ratio(sw, sh, mw, mh);
    assert(f64_le(r, q));
    let x = pow2(r.1);
    let y = pow2(q.1);
    lemma_pow2_pos(r.1);
    lemma_pow2_pos(q.1);
    assert(r.0 * b * c * y <= a * x * (c + 1) * y) by (nonlinear_arith)
        requires r.0 * y <= q.0 * x, q.0 * b * c <= a * y * (c + 1), b >= 1, c > 0;
    assert(r.0 * b * c <= a * x * (c + 1)) by (nonlinear_arith)
        requires r.0 * b * c * y <= a * x * (c + 1) * y, y > 0;
}

/// `a.min(b)`.
pub open spec fn min_nat(a: nat, b: nat) -> nat {
    if a <= b {
        a
    } else {
        b
    }
}

/// The output frame keeps the source's aspect ratio: each side falls short
/// of the exact size `side * min(mw / sw, mh / sh, 1)` by less than 3 pixels
/// (one for the floor, one for the even rounding, one for the double
/// arithmetic). Multiplied through by `sw * sh`, the exact size of both sides
/// is `min(mw * sh, mh * sw, sw * sh)`.
pub proof fn fitting_keeps_the_aspect_ratio(sw: nat, sh: nat, mw: nat, mh: nat)
    requires
        0 < sw <= u32::MAX,
        0 < sh <= u32::MAX,
        mw <= u32::MAX,
        mh <= u32::MAX,
    ensures
        (fitted_dimensions(sw, sh, mw, mh).0 + 3) * sh > min_nat(min_nat(mw * sh, mh * sw), sw * sh),
        (fitted_dimensions(sw, sh, mw, mh).1 + 3) * sw > min_nat(min_nat(mw * sh, mh * sw), sw * sh),
        fitted_dimensions(sw, sh, mw, mh).0 <= 2 || fitted_dimensions(sw, sh, mw, mh).0 * sh < min_nat(
            min_nat(mw * sh, mh * sw),
            sw * sh,
        ) + sh,
        fitted_dimensions(sw, sh, mw, mh).1 <= 2 || fitted_dimensions(sw, sh, mw, mh).1 * sw < min_nat(
            min_nat(mw * sh, mh * sw),
            sw * sh,
        ) + sw,
{
    let bound = min_nat(min_nat(mw * sh, mh * sw), sw * sh);
    if sw <= mw && sh <= mh {
        assert((sw + 3) * sh > sw * sh) by (nonlinear_arith)
            requires sh > 0;
        assert((sh + 3) * sw > sw * sh) by (nonlinear_arith)
            requires sw > 0;
        assert(mw * sh >= sw * sh && mh * sw >= sw * sh) by (nonlinear_arith)
            requires sw <= mw, sh <= mh;
        assert(sh * sw == sw * sh) by (nonlinear_arith);
    } else {
        assert(min_nat(mw * sh, mh * sw) <= sw * sh) by (nonlinear_arith)
            requires !(sw <= mw && sh <= mh), sw > 0, sh > 0;
        let (a, b) = if mw * sh <= mh * sw {
            (mw, sw)
        } else {
            (mh, sh)
        };
        let r = scale_ratio(sw, sh, mw, mh);
        lemma_ratio_reaches(sw, sh, mw, mh, a, b);
        lemma_ratio_at_most_one(sw, sh, mw, mh);
        lemma_side_reaches(sw, r.0, r.1, a, b);
        lemma_side_reaches(sh, r.0, r.1, a, b);
        lemma_ratio_within(sw, sh, mw, mh, a, b);
        lemma_side_within(sw, r.0, r.1, a, b);
        lemma_side_within(sh, r.0, r.1, a, b);
        let (ow, oh) = fitted_dimensions(sw, sh, mw, mh);
        if mw * sh <= mh * sw {
            assert((ow + 3) * sh > mw * sh) by (nonlinear_arith)
                requires (ow + 3) * sw > sw * mw, sw > 0, sh > 0;
            assert((oh + 3) * sw > mw * sh) by (nonlinear_arith)
                requires (oh + 3) * sw > sh * mw;
            if ow > 2 {
                assert(ow * sh < mw * sh + sh) by (nonlinear_arith)
                    requires ow * sw < sw * mw + sw, sw > 0, sh > 0;
            }
            if oh > 2 {
                assert(oh * sw < mw * sh + sw) by (nonlinear_arith)
                    requires oh * sw < sh * mw + sw;
            }
        } else {
            assert((ow + 3) * sh > mh * sw) by (nonlinear_arith)
                requires (ow + 3) * sh > sw * mh;
            assert((oh + 3) * sw > mh * sw) by (nonlinear_arith)
                requires (oh + 3) * sh > sh * mh, sw > 0, sh > 0;
            if ow > 2 {
                assert(ow * sh < mh * sw + sh) by (nonlinear_arith)
                    requires ow * sh < sw * mh + sh;
            }
            if oh > 2 {
                assert(oh * sw < mh * sw + sw) by (nonlinear_arith)
                    requires oh * sh < sh * mh + sh, sw > 0, sh > 0;
            }
        }
    }
}

} // verus!
