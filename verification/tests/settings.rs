use video_squeezer::models::{Codec, EncoderMode, QualityStrategy};
use video_squeezer::settings::{
    job_config_from_controls, normalize_preset, parse_audio_kbps, parse_codec, parse_encoder_mode, parse_max_resolution,
    parse_quality_strategy, resolve_concurrency, Controls, SettingsError,
};

fn controls() -> Controls {
    Controls {
        input_path: "/Users/me/Movies".to_owned(),
        input_is_folder: true,
        output_path: "/Users/me/Out".to_owned(),
        include_subdirectories: true,
        target_mib: 700,
        max_resolution: "1920x1080 (Full HD)".to_owned(),
        codec: "H.264 (AVC)".to_owned(),
        encoder: "Apple VideoToolbox".to_owned(),
        preset: "Very Fast".to_owned(),
        audio_bitrate: "160 kbps".to_owned(),
        auto_jobs: false,
        jobs: 3,
        logical_cpus: 8,
        overwrite_existing: false,
        generate_contact_sheet: true,
        skip_compliant: true,
        use_hardware: true,
        quality_strategy: "Best Quality".to_owned(),
        retry_missed_target: true,
        max_encode_attempts: 5,
    }
}

#[test]
fn controls_become_a_job() {
    let config = job_config_from_controls(&controls()).unwrap();
    assert_eq!(config.input, "/Users/me/Movies");
    assert_eq!(config.output, "/Users/me/Out");
    assert_eq!((config.max_width, config.max_height), (1920, 1080));
    assert_eq!(config.codec, Codec::H264);
    assert_eq!(config.encoder_mode, EncoderMode::VideoToolbox);
    assert_eq!(config.software_preset, "veryfast");
    assert_eq!(config.audio_kbps, 160);
    assert_eq!(config.jobs, 3);
    assert_eq!(config.quality_strategy, QualityStrategy::BestQuality);
    assert_eq!(config.max_encode_attempts, 3);
    assert_eq!(config.target_mib, 700);
}

#[test]
fn invalid_folders_are_reported() {
    let mut missing_input = controls();
    missing_input.input_is_folder = false;
    let error = job_config_from_controls(&missing_input).unwrap_err();
    assert_eq!(error, SettingsError::InvalidInputFolder);
    assert_eq!(error.message(), "Choose a valid input folder.");
    let mut missing_output = controls();
    missing_output.output_path = String::new();
    let error = job_config_from_controls(&missing_output).unwrap_err();
    assert_eq!(error, SettingsError::MissingOutputFolder);
    assert_eq!(error.message(), "Choose an output folder.");
}

#[test]
fn small_targets_and_attempts_are_raised() {
    let mut small = controls();
    small.target_mib = -4;
    small.max_encode_attempts = 0;
    let config = job_config_from_controls(&small).unwrap();
    assert_eq!(config.target_mib, 50);
    assert_eq!(config.max_encode_attempts, 1);
}

#[test]
fn control_labels_are_parsed() {
    assert_eq!(parse_max_resolution("854x480"), (854, 480));
    assert_eq!(parse_max_resolution("3840x2160 (4K)"), (3840, 2160));
    assert_eq!(parse_max_resolution("720p"), (1280, 720));
    assert_eq!(parse_codec("H.265 (HEVC)"), Codec::H265);
    assert_eq!(parse_codec("x264"), Codec::H264);
    assert_eq!(parse_encoder_mode("Software (CPU)"), EncoderMode::Software);
    assert_eq!(parse_encoder_mode("Automatic"), EncoderMode::Auto);
    assert_eq!(parse_quality_strategy("Smallest File"), QualityStrategy::SmallestFile);
    assert_eq!(parse_quality_strategy("Fastest Encode"), QualityStrategy::FastestEncode);
    assert_eq!(parse_quality_strategy("Balanced"), QualityStrategy::Balanced);
    assert_eq!(normalize_preset(" Very Slow "), "veryslow");
}

#[test]
fn audio_bitrates_parse_like_u32() {
    for label in [
        "128 kbps", "  96\tkbps", "+192 kbps", "-1 kbps", "kbps", "", "4294967295", "4294967296", "320kbps", "0",
        "\u{3000}64 kbps", "00256 x", "+", "1e3",
    ] {
        let expected = label.split_whitespace().next().and_then(|value| value.parse::<u32>().ok()).unwrap_or(128);
        assert_eq!(parse_audio_kbps(label), expected, "label {label:?}");
    }
}

#[test]
fn concurrency_is_clamped() {
    assert_eq!(resolve_concurrency(false, 40, 8, "Auto", true), 16);
    assert_eq!(resolve_concurrency(false, -3, 8, "Auto", true), 1);
    assert_eq!(resolve_concurrency(true, 0, 16, "Software (CPU)", true), 2);
    assert_eq!(resolve_concurrency(true, 0, 3, "Auto", false), 1);
    assert_eq!(resolve_concurrency(true, 0, 16, "Auto", true), 4);
    assert_eq!(resolve_concurrency(true, 0, 2, "Auto", true), 2);
}
