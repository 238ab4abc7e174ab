use video_squeezer::models::{FileState, QualityStrategy};

#[test]
fn every_state_has_a_display_label_and_icon() {
    let states = [
        FileState::Queued,
        FileState::Processing,
        FileState::Completed,
        FileState::Skipped,
        FileState::Failed,
        FileState::Cancelled,
    ];

    for state in states {
        assert!(!state.label().is_empty());
        assert!(!state.icon().is_empty());
    }
}

#[test]
fn state_labels_icons_and_colors() {
    assert_eq!(FileState::Queued.label(), "Queued");
    assert_eq!(FileState::Cancelled.label(), "Cancelled");
    assert_eq!(FileState::Completed.icon(), "✓");
    assert_eq!(FileState::Failed.icon(), "!");
    let color = FileState::Processing.color();
    assert_eq!((color.red, color.green, color.blue), (38, 112, 238));
    let color = FileState::Cancelled.color();
    assert_eq!((color.red, color.green, color.blue), (235, 144, 24));
}

#[test]
fn strategy_labels() {
    assert_eq!(QualityStrategy::Balanced.label(), "Balanced");
    assert_eq!(QualityStrategy::BestQuality.label(), "Best Quality");
    assert_eq!(QualityStrategy::SmallestFile.label(), "Smallest File");
    assert_eq!(QualityStrategy::FastestEncode.label(), "Fastest Encode");
}
