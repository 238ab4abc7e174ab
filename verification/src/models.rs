//! Shared data: codecs, encoder modes, strategies, queue states, job
//! settings, and compression plans.

use vstd::prelude::*;

verus! {

/// Video codec requested for newly encoded files.
#[derive(Debug, Clone, Copy, PartialEq, Eq, Structural)]
pub enum Codec {
    H264,
    H265,
}

/// Determines whether FFmpeg should use Apple hardware encoding or CPU encoding.
#[derive(Debug, Clone, Copy, PartialEq, Eq, Structural)]
pub enum EncoderMode {
    Auto,
    VideoToolbox,
    Software,
}

/// Describes how strongly the encoder should favor size, quality, or speed.
///
/// The target size and maximum resolution remain the primary constraints. This
/// strategy changes how aggressively the application responds when those goals
/// conflict with one another.
#[derive(Debug, Clone, Copy, PartialEq, Eq, Structural)]
pub enum QualityStrategy {
    /// Try to meet the requested size while retaining reasonable quality.
    Balanced,
    /// Protect a calculated quality floor, even when that may exceed the target.
    BestQuality,
    /// Favor staying below the target and allow a more aggressive retry.
    SmallestFile,
    /// Prefer hardware encoding and faster presets over compression efficiency.
    FastestEncode,
}

/// The human-readable name of a strategy.
pub open spec fn strategy_label(strategy: QualityStrategy) -> Seq<char> {
    match strategy {
        QualityStrategy::Balanced => "Balanced"@,
        QualityStrategy::BestQuality => "Best Quality"@,
        QualityStrategy::SmallestFile => "Smallest File"@,
        QualityStrategy::FastestEncode => "Fastest Encode"@,
    }
}

impl QualityStrategy {
    /// Human-readable name used in status messages and documentation.
    pub fn label(self) -> (r: &'static str)
        ensures
            r@ == strategy_label(self),
    {
        match self {
            QualityStrategy::Balanced => "Balanced",
            QualityStrategy::BestQuality => "Best Quality",
            QualityStrategy::SmallestFile => "Smallest File",
            QualityStrategy::FastestEncode => "Fastest Encode",
        }
    }
}

/// Lifecycle state for one video in the processing queue.
#[derive(Debug, Clone, Copy, PartialEq, Eq, Structural)]
pub enum FileState {
    Queued,
    Processing,
    Completed,
    Skipped,
    Failed,
    Cancelled,
}

/// The label shown for a queue state.
pub open spec fn state_label(state: FileState) -> Seq<char> {
    match state {
        FileState::Queued => "Queued"@,
        FileState::Processing => "Processing"@,
        FileState::Completed => "Completed"@,
        FileState::Skipped => "Skipped"@,
        FileState::Failed => "Failed"@,
        FileState::Cancelled => "Cancelled"@,
    }
}

/// The symbol shown beside a queue state.
pub open spec fn state_icon(state: FileState) -> Seq<char> {
    match state {
        FileState::Queued => "◷"@,
        FileState::Processing => "▶"@,
        FileState::Completed => "✓"@,
        FileState::Skipped => "↷"@,
        FileState::Failed => "!"@,
        FileState::Cancelled => "■"@,
    }
}

/// An opaque 8-bit RGB color.
#[derive(Debug, Clone, Copy, PartialEq, Eq, Structural)]
pub struct StatusColor {
    pub red: u8,
    pub green: u8,
    pub blue: u8,
}

/// The color of a queue state, as red, green, and blue.
pub open spec fn state_rgb(state: FileState) -> (u8, u8, u8) {
    match state {
        FileState::Queued => (132, 139, 150),
        FileState::Processing => (38, 112, 238),
        FileState::Completed => (49, 169, 82),
        FileState::Skipped => (128, 76, 204),
        FileState::Failed => (211, 66, 66),
        FileState::Cancelled => (235, 144, 24),
    }
}

impl FileState {
    /// Human-readable label displayed in the queue.
    pub fn label(&self) -> (r: &'static str)
        ensures
            r@ == state_label(*self),
            r@.len() > 0,
    {
        proof {
            reveal_strlit("Queued");
            reveal_strlit("Processing");
            reveal_strlit("Completed");
            reveal_strlit("Skipped");
            reveal_strlit("Failed");
            reveal_strlit("Cancelled");
        }
        match self {
            FileState::Queued => "Queued",
            FileState::Processing => "Processing",
            FileState::Completed => "Completed",
            FileState::Skipped => "Skipped",
            FileState::Failed => "Failed",
            FileState::Cancelled => "Cancelled",
        }
    }

    /// Compact symbol displayed beside the status label.
    pub fn icon(&self) -> (r: &'static str)
        ensures
            r@ == state_icon(*self),
            r@.len() > 0,
    {
        proof {
            reveal_strlit("◷");
            reveal_strlit("▶");
            reveal_strlit("✓");
            reveal_strlit("↷");
            reveal_strlit("!");
            reveal_strlit("■");
        }
        match self {
            FileState::Queued => "◷",
            FileState::Processing => "▶",
            FileState::Completed => "✓",
            FileState::Skipped => "↷",
            FileState::Failed => "!",
            FileState::Cancelled => "■",
        }
    }

    /// Status color used by the queue row.
    pub fn color(&self) -> (r: StatusColor)
        ensures
            (r.red, r.green, r.blue) == state_rgb(*self),
    {
        match self {
            FileState::Queued => StatusColor { red: 132, green: 139, blue: 150 },
            FileState::Processing => StatusColor { red: 38, green: 112, blue: 238 },
            FileState::Completed => StatusColor { red: 49, green: 169, blue: 82 },
            FileState::Skipped => StatusColor { red: 128, green: 76, blue: 204 },
            FileState::Failed => StatusColor { red: 211, green: 66, blue: 66 },
            FileState::Cancelled => StatusColor { red: 235, green: 144, blue: 24 },
        }
    }
}

/// A validated snapshot of the settings that worker threads read.
///
/// The GUI itself is not thread-safe, so workers never read controls directly.
/// Folders are held as text. The size margin, a fraction, is kept beside this
/// snapshot by the application, which does the floating-point budget arithmetic.
#[derive(Debug, Clone)]
pub struct JobConfig {
    pub input: String,
    pub output: String,
    pub include_subdirectories: bool,
    pub target_mib: u64,
    pub max_width: u32,
    pub max_height: u32,
    pub codec: Codec,
    pub encoder_mode: EncoderMode,
    pub software_preset: String,
    pub audio_kbps: u32,
    pub jobs: usize,
    pub overwrite: bool,
    pub make_contact_sheet: bool,
    pub skip_compliant: bool,
    pub use_hardware: bool,
    pub quality_strategy: QualityStrategy,
    pub retry_missed_target: bool,
    pub max_encode_attempts: usize,
}

/// The result produced by the Compression Advisor for one video.
#[derive(Debug, Clone)]
pub struct CompressionPlan {
    /// Output dimensions after applying the maximum resolution without upscaling.
    pub output_width: u32,
    pub output_height: u32,
    /// Video bitrate used for the first encoding attempt.
    pub video_bps: u64,
    /// Estimated file size produced by the selected bitrate.
    pub predicted_output_bytes: u64,
    /// Heuristic bitrate below which visible quality loss becomes more likely.
    pub quality_floor_bps: u64,
    /// Friendly quality description displayed by the GUI.
    pub quality_label: &'static str,
    /// Detailed explanation of the trade-off for this video.
    pub message: String,
    /// Whether the source exceeds either the size or resolution constraint.
    pub compression_required: bool,
}

} // verus!
