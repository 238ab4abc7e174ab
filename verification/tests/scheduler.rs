use video_squeezer::models::{Codec, EncoderMode, JobConfig, QualityStrategy};
use video_squeezer::scheduler::{
    choose_disposition, completion_message, maximum_attempts, next_encode_step, worker_count, AttemptOutcome, Disposition,
    EncodeStep,
};

fn config() -> JobConfig {
    JobConfig {
        input: "input".to_owned(),
        output: "output".to_owned(),
        include_subdirectories: true,
        target_mib: 1_000,
        max_width: 1_280,
        max_height: 720,
        codec: Codec::H265,
        encoder_mode: EncoderMode::Auto,
        software_preset: "veryfast".to_owned(),
        audio_kbps: 128,
        jobs: 2,
        overwrite: false,
        make_contact_sheet: true,
        skip_compliant: true,
        use_hardware: true,
        quality_strategy: QualityStrategy::SmallestFile,
        retry_missed_target: true,
        max_encode_attempts: 3,
    }
}

#[test]
fn worker_pool_size() {
    assert_eq!(worker_count(4, 2), 2);
    assert_eq!(worker_count(4, 0), 1);
    assert_eq!(worker_count(2, 10), 2);
}

const MIB: u64 = 1024 * 1024;

#[test]
fn attempt_budget() {
    let mut config = config();
    assert_eq!(maximum_attempts(&config), 3);
    config.max_encode_attempts = 0;
    assert_eq!(maximum_attempts(&config), 1);
    config.retry_missed_target = false;
    config.max_encode_attempts = 3;
    assert_eq!(maximum_attempts(&config), 1);
}

#[test]
fn encode_steps_after_each_outcome() {
    let mut config = config();
    let over = AttemptOutcome::Finished { size: 1_300 * MIB };
    let under = AttemptOutcome::Finished { size: 900 * MIB };
    assert_eq!(next_encode_step(1, 3, 2_000_000, &config, 1_000_000, AttemptOutcome::Failed), EncodeStep::Fail);
    assert_eq!(next_encode_step(1, 3, 2_000_000, &config, 1_000_000, AttemptOutcome::Cancelled), EncodeStep::Stop);
    assert_eq!(
        next_encode_step(1, 3, 2_000_000, &config, 1_000_000, over),
        EncodeStep::Retry { attempt: 2, video_bps: 1_446_153 }
    );
    assert_eq!(next_encode_step(3, 3, 2_000_000, &config, 1_000_000, over), EncodeStep::Promote { size: 1_300 * MIB });
    assert_eq!(next_encode_step(1, 3, 2_000_000, &config, 1_000_000, under), EncodeStep::Promote { size: 900 * MIB });
    // The minimum bitrate leaves no meaningful reduction below 260 kbit/s.
    assert_eq!(next_encode_step(1, 3, 260_000, &config, 1_000_000, over), EncodeStep::Promote { size: 1_300 * MIB });
    config.retry_missed_target = false;
    assert_eq!(next_encode_step(1, 3, 2_000_000, &config, 1_000_000, over), EncodeStep::Promote { size: 1_300 * MIB });
}

#[test]
fn dispositions() {
    let mut config = config();
    assert_eq!(choose_disposition(false, &config, false, true), Disposition::Skip { make_contact_sheet: true });
    assert_eq!(choose_disposition(false, &config, true, true), Disposition::Skip { make_contact_sheet: false });
    assert_eq!(choose_disposition(true, &config, false, true), Disposition::KeepExisting);
    assert_eq!(choose_disposition(true, &config, false, false), Disposition::Encode);
    config.overwrite = true;
    assert_eq!(choose_disposition(true, &config, false, true), Disposition::Encode);
    assert_eq!(choose_disposition(false, &config, true, true), Disposition::Skip { make_contact_sheet: true });
}

#[test]
fn completion_messages() {
    let config = config();
    assert_eq!(completion_message("libx265", false, &config, 2), "Encoded with libx265 in 2 attempt(s)");
    assert_eq!(
        completion_message("libx265", true, &config, 3),
        "Encoded with libx265; output exceeds the target under Smallest File strategy"
    );
}
