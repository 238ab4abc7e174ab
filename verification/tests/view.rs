use video_squeezer::models::FileState;
use video_squeezer::view::{
    advice_text, encoder_text, footer_center, footer_status, help_text, output_text, predicted_size_text, quality_text,
    queue_counts, resolution_text, starting_message,
};

#[test]
fn queue_summary_counts() {
    let states = vec![
        FileState::Queued,
        FileState::Processing,
        FileState::Completed,
        FileState::Skipped,
        FileState::Failed,
        FileState::Queued,
    ];
    let counts = queue_counts(&states);
    assert_eq!((counts.total, counts.completed, counts.processing, counts.remaining), (6, 2, 1, 2));
}

#[test]
fn footer_lines() {
    assert_eq!(footer_status(true, true, true), "Loading queue");
    assert_eq!(footer_status(false, true, true), "Encoding paused");
    assert_eq!(footer_status(false, true, false), "VideoToolbox hardware encoding active");
    assert_eq!(footer_status(false, false, false), "Ready");
    assert_eq!(footer_center(true, 3), "Reading video metadata…");
    assert_eq!(footer_center(false, 1), "1 file processing");
    assert_eq!(footer_center(false, 0), "0 files processing");
    assert_eq!(starting_message(1), "Starting 1 concurrent worker");
    assert_eq!(starting_message(4), "Starting 4 concurrent workers");
}

#[test]
fn queue_columns() {
    assert_eq!(output_text(Some(10 * 1024 * 1024), Some(1)), "10.0 MB");
    assert_eq!(output_text(None, Some(2048)), "~2.0 KB");
    assert_eq!(output_text(None, None), "—");
    assert_eq!(resolution_text(3840, 2160, Some(1280), Some(720)), "3840×2160 → 1280×720");
    assert_eq!(resolution_text(640, 480, Some(640), Some(480)), "640×480");
    assert_eq!(resolution_text(640, 480, None, Some(480)), "640×480");
}

#[test]
fn selected_file_lines() {
    assert_eq!(encoder_text(Some("hevc_videotoolbox")), "Encoding with hevc_videotoolbox (Hardware)");
    assert_eq!(encoder_text(Some("libx264")), "Encoding with libx264");
    assert_eq!(encoder_text(None), "Encoding with Awaiting encoder selection");
    assert_eq!(quality_text(""), "Not analyzed");
    assert_eq!(quality_text("Good"), "Good");
    assert_eq!(predicted_size_text(Some(3 * 1024 * 1024 * 1024)), "Estimated output: 3.00 GB");
    assert_eq!(predicted_size_text(None), "Estimated output unavailable");
    assert_eq!(advice_text(""), "Choose settings and refresh estimates to see compression advice.");
    assert_eq!(advice_text("Keep it."), "Keep it.");
}

#[test]
fn help_topics() {
    assert!(help_text("codec").starts_with("H.264 offers"));
    assert!(help_text("strategy").contains("Smallest File"));
    assert_eq!(help_text("nothing"), "");
}
