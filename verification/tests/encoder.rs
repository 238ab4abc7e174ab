use video_squeezer::encoder::{
    effective_software_preset, encode_arguments, hardware_encoder, lists_hardware_encoder, select_encoder_name,
    software_encoder, EncoderError,
};
use video_squeezer::models::{Codec, EncoderMode, JobConfig, QualityStrategy};

fn config(codec: Codec, mode: EncoderMode, use_hardware: bool) -> JobConfig {
    JobConfig {
        input: "input".to_owned(),
        output: "output".to_owned(),
        include_subdirectories: true,
        target_mib: 1_000,
        max_width: 1_280,
        max_height: 720,
        codec,
        encoder_mode: mode,
        software_preset: "veryfast".to_owned(),
        audio_kbps: 128,
        jobs: 2,
        overwrite: false,
        make_contact_sheet: true,
        skip_compliant: true,
        use_hardware,
        quality_strategy: QualityStrategy::Balanced,
        retry_missed_target: true,
        max_encode_attempts: 2,
    }
}

#[test]
fn auto_prefers_h264_videotoolbox_when_available() {
    let config = config(Codec::H264, EncoderMode::Auto, true);
    assert_eq!(select_encoder_name(&config, true).unwrap(), "h264_videotoolbox");
}

#[test]
fn auto_falls_back_to_software_when_hardware_is_missing() {
    let config = config(Codec::H265, EncoderMode::Auto, true);
    assert_eq!(select_encoder_name(&config, false).unwrap(), "libx265");
}

#[test]
fn hardware_toggle_can_force_software() {
    let config = config(Codec::H264, EncoderMode::Auto, false);
    assert_eq!(select_encoder_name(&config, true).unwrap(), "libx264");
}

#[test]
fn forced_videotoolbox_reports_missing_encoder() {
    let config = config(Codec::H265, EncoderMode::VideoToolbox, true);
    let error = select_encoder_name(&config, false).unwrap_err();
    assert!(error.message().contains("hevc_videotoolbox"));
}

#[test]
fn software_mode_and_forced_hardware() {
    assert_eq!(select_encoder_name(&config(Codec::H265, EncoderMode::Software, true), true).unwrap(), "libx265");
    assert_eq!(select_encoder_name(&config(Codec::H264, EncoderMode::VideoToolbox, true), true).unwrap(), "h264_videotoolbox");
    assert_eq!(
        select_encoder_name(&config(Codec::H264, EncoderMode::VideoToolbox, true), false),
        Err(EncoderError::MissingHardwareEncoder(Codec::H264))
    );
    assert_eq!(software_encoder(Codec::H264), "libx264");
    assert_eq!(hardware_encoder(Codec::H265), "hevc_videotoolbox");
}

#[test]
fn encoder_listing_search() {
    let listing = b" V....D h264_videotoolbox    VideoToolbox H.264 Encoder\n V....D libx264\n";
    assert!(lists_hardware_encoder(listing, Codec::H264));
    assert!(!lists_hardware_encoder(listing, Codec::H265));
    assert!(!lists_hardware_encoder(b"", Codec::H264));
    assert!(lists_hardware_encoder(b"\xff\xfehevc_videotoolbox", Codec::H265));
}

#[test]
fn fastest_encode_replaces_slow_presets() {
    let mut fast = config(Codec::H264, EncoderMode::Software, false);
    fast.quality_strategy = QualityStrategy::FastestEncode;
    fast.software_preset = "slow".to_owned();
    assert_eq!(effective_software_preset(&fast), "veryfast");
    fast.software_preset = "ultrafast".to_owned();
    assert_eq!(effective_software_preset(&fast), "ultrafast");
    let mut balanced = config(Codec::H264, EncoderMode::Software, false);
    balanced.software_preset = "slow".to_owned();
    assert_eq!(effective_software_preset(&balanced), "slow");
}

#[test]
fn encode_arguments_for_software_and_hardware() {
    let software = config(Codec::H264, EncoderMode::Software, false);
    let args = encode_arguments("libx264", 2_500_000, 1280, 720, &software);
    assert_eq!(
        args,
        vec![
            "-map", "0:v:0", "-map", "0:a:0?", "-vf", "scale=1280:720:force_divisible_by=2", "-c:v", "libx264",
            "-preset", "veryfast", "-b:v", "2500000", "-c:a", "aac", "-b:a", "128k", "-movflags", "+faststart",
            "-progress", "pipe:1", "-nostats",
        ]
    );
    let hardware = config(Codec::H265, EncoderMode::Auto, true);
    let args = encode_arguments("hevc_videotoolbox", 900_000, 854, 480, &hardware);
    assert_eq!(
        args,
        vec![
            "-map", "0:v:0", "-map", "0:a:0?", "-vf", "scale=854:480:force_divisible_by=2", "-c:v",
            "hevc_videotoolbox", "-b:v", "900000", "-allow_sw", "1", "-tag:v", "hvc1", "-c:a", "aac", "-b:a",
            "128k", "-movflags", "+faststart", "-progress", "pipe:1", "-nostats",
        ]
    );
}
