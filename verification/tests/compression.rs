use video_squeezer::compression::{
    advisor_message, assemble_plan, bytes_to_mib, choose_video_bps, fit_without_upscaling, make_even, quality_label,
    retry_video_bitrate, target_bytes, MIN_VIDEO_BPS,
};
use video_squeezer::models::{Codec, EncoderMode, JobConfig, QualityStrategy};

const MIB: u64 = 1024 * 1024;

fn config(strategy: QualityStrategy) -> JobConfig {
    JobConfig {
        input: "input".to_owned(),
        output: "output".to_owned(),
        include_subdirectories: true,
        target_mib: 1_000,
        max_width: 1_280,
        max_height: 720,
        codec: Codec::H265,
        encoder_mode: EncoderMode::Auto,
        software_preset: "veryfast".to_owned(),
        audio_kbps: 128,
        jobs: 2,
        overwrite: false,
        make_contact_sheet: true,
        skip_compliant: true,
        use_hardware: true,
        quality_strategy: strategy,
        retry_missed_target: true,
        max_encode_attempts: 2,
    }
}

/// The frame fitting computed with doubles, step by step: sources inside the
/// limit are kept, and no side of a larger source is enlarged.
fn reference_fit(sw: u32, sh: u32, mw: u32, mh: u32) -> (u32, u32) {
    fn even(value: u32) -> u32 {
        value.saturating_sub(value % 2)
    }
    if sw == 0 || sh == 0 {
        return (mw.max(2), mh.max(2));
    }
    if sw <= mw && sh <= mh {
        return (sw, sh);
    }
    let ratio = (mw as f64 / sw as f64).min(mh as f64 / sh as f64).min(1.0);
    let w = even((sw as f64 * ratio).floor() as u32);
    let h = even((sh as f64 * ratio).floor() as u32);
    (w.max(2).min(sw), h.max(2).min(sh))
}

/// The retry rule computed with doubles, step by step.
fn reference_retry(previous: u64, measured: u64, config: &JobConfig, quality_floor: u64) -> Option<u64> {
    let target = config.target_mib.saturating_mul(MIB);
    if measured <= target {
        return None;
    }
    let correction = target as f64 / measured.max(1) as f64;
    let buffer = match config.quality_strategy {
        QualityStrategy::SmallestFile => 0.94,
        QualityStrategy::Balanced | QualityStrategy::FastestEncode => 0.97,
        QualityStrategy::BestQuality => 0.99,
    };
    let proposed = (previous as f64 * correction * buffer) as u64;
    let minimum = if config.quality_strategy == QualityStrategy::BestQuality {
        quality_floor.max(MIN_VIDEO_BPS)
    } else {
        MIN_VIDEO_BPS
    };
    let next = proposed.max(minimum);
    if next >= previous.saturating_sub(10_000) {
        None
    } else {
        Some(next)
    }
}

#[test]
fn never_upscales_small_video() {
    assert_eq!(fit_without_upscaling(640, 480, 1280, 720), (640, 480));
}

#[test]
fn downscales_four_k_to_fit_720p() {
    assert_eq!(fit_without_upscaling(3840, 2160, 1280, 720), (1280, 720));
}

#[test]
fn fitting_agrees_with_double_precision_arithmetic() {
    let limits = [(854, 480), (1280, 720), (1920, 1080), (3840, 2160), (0, 720), (1280, 0), (1, 1), (7, 3)];
    for (mw, mh) in limits {
        for sw in (1..4000).step_by(3) {
            for sh in [1u32, 2, 3, 479, 480, 481, 604, 719, 720, 721, 1079, 1080, 1081, 2160, 4321] {
                assert_eq!(fit_without_upscaling(sw, sh, mw, mh), reference_fit(sw, sh, mw, mh), "{sw}x{sh} in {mw}x{mh}");
            }
        }
    }
    let mut x: u64 = 0x2545_F491_4F6C_DD1D;
    for _ in 0..50_000 {
        x ^= x << 13;
        x ^= x >> 7;
        x ^= x << 17;
        let values = [(x >> 32) as u32, x as u32, (x >> 40) as u32, (x >> 48) as u32];
        let (sw, sh, mw, mh) = (values[0] >> (x % 24), values[1] >> ((x >> 8) % 24), values[2] % 5000, values[3] % 5000);
        assert_eq!(fit_without_upscaling(sw, sh, mw, mh), reference_fit(sw, sh, mw, mh), "{sw}x{sh} in {mw}x{mh}");
        if sw > 0 && sh > 0 {
            check_aspect(sw, sh, mw, mh);
        }
    }
    assert_eq!(fit_without_upscaling(2, 604, 854, 480), reference_fit(2, 604, 854, 480));
    assert_eq!(fit_without_upscaling(u32::MAX, u32::MAX, u32::MAX - 1, 1), reference_fit(u32::MAX, u32::MAX, u32::MAX - 1, 1));
}

/// Each side is within 3 pixels below and 1 pixel above the exact size
/// `side * min(mw / sw, mh / sh, 1)`, the 2-pixel minimum aside.
fn check_aspect(sw: u32, sh: u32, mw: u32, mh: u32) {
    let (ow, oh) = fit_without_upscaling(sw, sh, mw, mh);
    let (sw, sh, mw, mh, ow, oh) = (sw as u128, sh as u128, mw as u128, mh as u128, ow as u128, oh as u128);
    let exact = (mw * sh).min(mh * sw).min(sw * sh);
    assert!((ow + 3) * sh > exact && (oh + 3) * sw > exact, "{sw}x{sh} in {mw}x{mh}");
    assert!(ow <= 2 || ow * sh < exact + sh, "{sw}x{sh} in {mw}x{mh}");
    assert!(oh <= 2 || oh * sw < exact + sw, "{sw}x{sh} in {mw}x{mh}");
}

#[test]
fn fitting_keeps_the_aspect_ratio_on_common_frames() {
    assert_eq!(fit_without_upscaling(1920, 1080, 854, 480), (852, 480));
    for (sw, sh) in [(1920, 1080), (3840, 2160), (1080, 1920), (1440, 1080), (4096, 2160), (641, 481), (5, 9999)] {
        for (mw, mh) in [(854, 480), (1280, 720), (1920, 1080), (3840, 2160), (0, 720)] {
            check_aspect(sw, sh, mw, mh);
        }
    }
}

#[test]
fn zero_sized_sources_take_the_limit() {
    assert_eq!(fit_without_upscaling(0, 1080, 1280, 720), (1280, 720));
    assert_eq!(fit_without_upscaling(0, 0, 1, 0), (2, 2));
}

#[test]
fn sources_inside_the_limit_are_unchanged() {
    assert_eq!(fit_without_upscaling(641, 481, 1280, 720), (641, 481));
    assert_eq!(fit_without_upscaling(1, 1, 1280, 720), (1, 1));
    assert_eq!(fit_without_upscaling(1280, 720, 1280, 720), (1280, 720));
    // A one-pixel side of a larger source is never enlarged.
    assert_eq!(fit_without_upscaling(1, 10_000, 1280, 720), (1, 720));
    assert_eq!(fit_without_upscaling(3, 10_000, 1280, 0), (2, 2));
    assert_eq!(fit_without_upscaling(1, 10_000, 1280, 0), (1, 2));
}

#[test]
fn make_even_rounds_down() {
    assert_eq!(make_even(0), 0);
    assert_eq!(make_even(7), 6);
    assert_eq!(make_even(8), 8);
}

#[test]
fn retry_reduces_bitrate_after_oversized_output() {
    let config = config(QualityStrategy::Balanced);
    let next = retry_video_bitrate(2_000_000, 1_300 * MIB, &config, 1_000_000).unwrap();
    assert!(next < 2_000_000);
}

#[test]
fn retry_is_skipped_when_the_target_was_met_or_cannot_be_lowered() {
    let balanced = config(QualityStrategy::Balanced);
    assert_eq!(retry_video_bitrate(2_000_000, 1_000 * MIB, &balanced, 1_000_000), None);
    assert_eq!(retry_video_bitrate(2_000_000, 1_300 * MIB, &balanced, 1_000_000), Some(1_492_307));
    assert_eq!(retry_video_bitrate(260_000, 1_300 * MIB, &balanced, 1_000_000), None);
    assert_eq!(retry_video_bitrate(300_000, 13_000 * MIB, &balanced, 1_000_000), Some(MIN_VIDEO_BPS));
    let smallest = config(QualityStrategy::SmallestFile);
    assert_eq!(retry_video_bitrate(2_000_000, 1_300 * MIB, &smallest, 1_000_000), Some(1_446_153));
    let best = config(QualityStrategy::BestQuality);
    assert_eq!(retry_video_bitrate(2_000_000, 1_300 * MIB, &best, 1_000_000), Some(1_523_076));
    assert_eq!(retry_video_bitrate(2_000_000, 1_300 * MIB, &best, 1_800_000), Some(1_800_000));
    assert_eq!(retry_video_bitrate(2_000_000, 1_300 * MIB, &best, 1_995_000), None);
    assert_eq!(retry_video_bitrate(5_000, 1_300 * MIB, &balanced, 0), None);
    let mut nothing = config(QualityStrategy::Balanced);
    nothing.target_mib = 0;
    assert_eq!(retry_video_bitrate(2_000_000, 1, &nothing, 0), Some(MIN_VIDEO_BPS));
}

#[test]
fn retry_agrees_with_double_precision_arithmetic() {
    let strategies = [
        QualityStrategy::Balanced,
        QualityStrategy::BestQuality,
        QualityStrategy::SmallestFile,
        QualityStrategy::FastestEncode,
    ];
    let mut x: u64 = 0x9E37_79B9_7F4A_7C15;
    for i in 0..200_000u64 {
        x ^= x << 13;
        x ^= x >> 7;
        x ^= x << 17;
        let mut config = config(strategies[(i % 4) as usize]);
        config.target_mib = match i % 5 {
            0 => x >> 48,
            1 => x >> 20,
            2 => (x >> 40) % 5_000,
            3 => u64::MAX >> (x % 64),
            _ => 1_000,
        };
        let target = config.target_mib.saturating_mul(MIB);
        let measured = match i % 3 {
            0 => target.saturating_add(1 + (x >> 44)),
            1 => x.rotate_left(17) >> (x % 40),
            _ => target.saturating_add(target >> (x % 12)),
        };
        let previous = match i % 4 {
            0 => x.rotate_left(29) >> (x % 64),
            1 => 250_000 + (x >> 40),
            2 => u64::MAX - (x >> 50),
            _ => 2_000_000,
        };
        let floor = x.rotate_left(7) >> 38;
        assert_eq!(
            retry_video_bitrate(previous, measured, &config, floor),
            reference_retry(previous, measured, &config, floor),
            "{previous} {measured} {} {floor}",
            config.target_mib
        );
    }
}

#[test]
fn strategies_choose_the_first_bitrate() {
    assert_eq!(choose_video_bps(QualityStrategy::Balanced, 3_000_000, 5_000_000), 3_000_000);
    assert_eq!(choose_video_bps(QualityStrategy::FastestEncode, 3_000_000, 5_000_000), 3_000_000);
    assert_eq!(choose_video_bps(QualityStrategy::BestQuality, 3_000_000, 5_000_000), 5_000_000);
    assert_eq!(choose_video_bps(QualityStrategy::BestQuality, 6_000_000, 5_000_000), 6_000_000);
    assert_eq!(choose_video_bps(QualityStrategy::SmallestFile, 3_000_000, 5_000_000), 2_850_000);
    assert_eq!(choose_video_bps(QualityStrategy::Balanced, 10, 5), MIN_VIDEO_BPS);
    for bps in [0u64, 250_000, 263_157, 263_158, 3_000_000, 1 << 53, (1 << 53) + 3, u64::MAX] {
        let balanced = choose_video_bps(QualityStrategy::Balanced, bps, 0);
        assert!(choose_video_bps(QualityStrategy::SmallestFile, bps, 0) <= balanced);
        assert_eq!(choose_video_bps(QualityStrategy::FastestEncode, bps, 7), balanced);
    }
}

#[test]
fn smallest_file_reduction_agrees_with_doubles() {
    let mut x: u64 = 0x1234_5678_9ABC_DEF1;
    let mut samples: Vec<u64> = vec![0, 1, 20, 263_158, u64::MAX, u64::MAX - 1, 1 << 53, (1 << 53) + 1];
    for _ in 0..50_000 {
        x ^= x << 13;
        x ^= x >> 7;
        x ^= x << 17;
        samples.push(x >> (x % 64));
    }
    for bps in samples {
        let expected = (((bps as f64) * 0.95) as u64).max(MIN_VIDEO_BPS);
        assert_eq!(choose_video_bps(QualityStrategy::SmallestFile, bps, 0), expected, "bps = {bps}");
    }
}

#[test]
fn mebibytes_round_up_like_doubles() {
    assert_eq!(bytes_to_mib(0), 0);
    assert_eq!(bytes_to_mib(1), 1);
    assert_eq!(bytes_to_mib(MIB), 1);
    assert_eq!(bytes_to_mib(MIB + 1), 2);
    let mut x: u64 = 0x0DDB_1A5E_5BAD_5EED;
    for _ in 0..50_000 {
        x ^= x << 13;
        x ^= x >> 7;
        x ^= x << 17;
        let bytes = x >> (x % 64);
        assert_eq!(bytes_to_mib(bytes), (bytes as f64 / MIB as f64).ceil() as u64, "bytes = {bytes}");
    }
    assert_eq!(bytes_to_mib(u64::MAX), (u64::MAX as f64 / MIB as f64).ceil() as u64);
}

#[test]
fn target_bytes_saturate() {
    assert_eq!(target_bytes(1_000), 1_000 * MIB);
    assert_eq!(target_bytes(u64::MAX), u64::MAX);
}

#[test]
fn advisor_messages() {
    assert_eq!(
        advisor_message(false, QualityStrategy::Balanced, 0, 1_000, false, 0, false, 1280, 720),
        "The source already fits both limits. It can be skipped without re-encoding."
    );
    assert_eq!(
        advisor_message(true, QualityStrategy::BestQuality, 1_500 * MIB + 1, 1_000, false, 0, false, 1280, 720),
        "Best Quality protects the estimated quality floor. The result may be about 1501 MiB instead of 1000 MiB."
    );
    assert_eq!(
        advisor_message(true, QualityStrategy::Balanced, 0, 1_000, true, 2_048 * MIB, false, 1280, 720),
        "The requested size is aggressive for this duration and resolution. About 2048 MiB is suggested for better quality."
    );
    assert_eq!(
        advisor_message(true, QualityStrategy::Balanced, 0, 1_000, false, 0, true, 1280, 720),
        "The video will be downscaled to 1280×720 before the target bitrate is applied."
    );
    assert_eq!(
        advisor_message(true, QualityStrategy::Balanced, 0, 1_000, false, 0, false, 1280, 720),
        "The original resolution will be retained and bitrate will be reduced to meet the size goal."
    );
}

#[test]
fn plans_are_assembled_from_estimates() {
    let config = config(QualityStrategy::Balanced);
    let plan = assemble_plan(3840, 2160, 8_000_000_000, &config, 4_000_000, 900 * MIB, 2_000_000, 400 * MIB);
    assert_eq!((plan.output_width, plan.output_height), (1280, 720));
    assert!(plan.compression_required);
    assert_eq!(plan.video_bps, 4_000_000);
    assert_eq!(plan.quality_label, "Excellent");
    assert_eq!(plan.message, "The video will be downscaled to 1280×720 before the target bitrate is applied.");
    let small = assemble_plan(640, 480, 10 * MIB, &config, 1_800_000, 9 * MIB, 2_000_000, 4 * MIB);
    assert!(!small.compression_required);
    assert_eq!((small.output_width, small.output_height), (640, 480));
    let odd = assemble_plan(641, 480, 10 * MIB, &config, 1_800_000, 9 * MIB, 2_000_000, 4 * MIB);
    assert!(!odd.compression_required);
    assert_eq!((odd.output_width, odd.output_height), (641, 480));
    assert_eq!(odd.message, "The source already fits both limits. It can be skipped without re-encoding.");
    let wide = assemble_plan(1281, 720, 10 * MIB, &config, 1_800_000, 9 * MIB, 2_000_000, 4 * MIB);
    assert!(wide.compression_required);
    let heavy = assemble_plan(640, 480, 1_001 * MIB, &config, 1_800_000, 9 * MIB, 2_000_000, 4 * MIB);
    assert!(heavy.compression_required);
    assert_eq!(small.quality_label, "Good");
    let starved = assemble_plan(1280, 720, 3_000 * MIB, &config, 1_000_000, 900 * MIB, 2_000_000, 1_500 * MIB);
    assert_eq!(starved.quality_label, "Low");
    assert_eq!(
        starved.message,
        "The requested size is aggressive for this duration and resolution. About 1500 MiB is suggested for better quality."
    );
    let kept = assemble_plan(1280, 720, 3_000 * MIB, &config, 1_400_000, 900 * MIB, 2_000_000, 1_500 * MIB);
    assert_eq!(kept.quality_label, "Fair");
    assert_eq!(
        kept.message,
        "The original resolution will be retained and bitrate will be reduced to meet the size goal."
    );
}

/// The rating computed with doubles.
fn reference_label(video_bps: u64, quality_floor_bps: u64) -> &'static str {
    let ratio = video_bps as f64 / quality_floor_bps.max(1) as f64;
    if ratio >= 1.15 {
        "Excellent"
    } else if ratio >= 0.85 {
        "Good"
    } else if ratio >= 0.65 {
        "Fair"
    } else {
        "Low"
    }
}

#[test]
fn quality_ratings() {
    assert_eq!(quality_label(2_300_000, 2_000_000), "Excellent");
    assert_eq!(quality_label(2_299_999, 2_000_000), "Good");
    assert_eq!(quality_label(1_700_000, 2_000_000), "Good");
    assert_eq!(quality_label(1_699_999, 2_000_000), "Fair");
    assert_eq!(quality_label(1_300_000, 2_000_000), "Fair");
    assert_eq!(quality_label(1_299_999, 2_000_000), "Low");
    assert_eq!(quality_label(0, 0), "Low");
    assert_eq!(quality_label(1, 0), "Good");
    assert_eq!(quality_label(2, 0), "Excellent");
    assert_eq!(quality_label(u64::MAX, 1), "Excellent");
    assert_eq!(quality_label(u64::MAX, u64::MAX), "Good");
    let best = choose_video_bps(QualityStrategy::BestQuality, 1_000_000, 3_000_000);
    assert_eq!(quality_label(best, 3_000_000), "Good");
    let balanced = choose_video_bps(QualityStrategy::Balanced, 1_000_000, 3_000_000);
    assert_eq!(quality_label(balanced, 3_000_000), "Low");
}

#[test]
fn quality_ratings_agree_with_double_precision_arithmetic() {
    let mut x: u64 = 0xD1B5_4A32_D192_ED03;
    for i in 0..200_000u64 {
        x ^= x << 13;
        x ^= x >> 7;
        x ^= x << 17;
        let floor = match i % 3 {
            0 => x >> (x % 64),
            1 => 250_000 + (x >> 40),
            _ => x,
        };
        let scale = [1.15f64, 0.85, 0.65, 1.0, 2.0][(i % 5) as usize];
        let video = match i % 4 {
            0 => (floor as f64 * scale) as u64,
            1 => ((floor as f64 * scale) as u64).wrapping_add((x >> 60) as u64).wrapping_sub(8),
            2 => x.rotate_left(23) >> (x % 64),
            _ => floor.wrapping_add(x >> 62),
        };
        assert_eq!(quality_label(video, floor), reference_label(video, floor), "{video} / {floor}");
    }
    for floor in [1u64, 2, 3, 7, 20, 100, 1_000_000, 1 << 53, (1 << 53) + 1, u64::MAX] {
        for target in [0.65f64, 0.85, 1.15] {
            let center = (floor as f64 * target) as u64;
            for delta in 0..64u64 {
                let video = center.saturating_sub(32).saturating_add(delta);
                assert_eq!(quality_label(video, floor), reference_label(video, floor), "{video} / {floor}");
            }
        }
    }
}
