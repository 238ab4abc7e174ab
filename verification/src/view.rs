//! The text and counts shown by the window: queue columns, summary counts,
//! footer, selected-file details, and help.

use crate::formatting::{bytes_text, format_bytes};
use crate::models::FileState;
use crate::text::{contains_text, decimal, occurs_in, push_decimal};
use vstd::prelude::*;

verus! {

/// The help text for a settings topic; empty for an unknown topic.
pub open spec fn help(topic: Seq<char>) -> Seq<char> {
    if topic == "codec"@ {
        "H.264 offers the broadest playback compatibility. H.265 usually produces smaller files at similar quality."@
    } else if topic == "encoder"@ {
        "Auto uses Apple VideoToolbox when available and falls back to software encoding."@
    } else if topic == "preset"@ {
        "Faster presets reduce encoding time. Slower presets improve compression efficiency but take longer."@
    } else if topic == "audio"@ {
        "128 kbps AAC is a good default for most video. Higher values preserve more audio detail but reduce the video bitrate budget."@
    } else if topic == "strategy"@ {
        "Balanced targets the requested size. Best Quality protects a calculated bitrate floor and may exceed the target. Smallest File uses a larger safety buffer. Fastest Encode favors hardware and faster software presets."@
    } else {
        ""@
    }
}

/// The help text shown for a settings topic.
pub fn help_text(topic: &str) -> (r: &'static str)
    ensures
        r@ == help(topic@),
{
    let topic = topic.to_owned();
    if crate::text::spells(&topic, "codec") {
        "H.264 offers the broadest playback compatibility. H.265 usually produces smaller files at similar quality."
    } else if crate::text::spells(&topic, "encoder") {
        "Auto uses Apple VideoToolbox when available and falls back to software encoding."
    } else if crate::text::spells(&topic, "preset") {
        "Faster presets reduce encoding time. Slower presets improve compression efficiency but take longer."
    } else if crate::text::spells(&topic, "audio") {
        "128 kbps AAC is a good default for most video. Higher values preserve more audio detail but reduce the video bitrate budget."
    } else if crate::text::spells(&topic, "strategy") {
        "Balanced targets the requested size. Best Quality protects a calculated bitrate floor and may exceed the target. Smallest File uses a larger safety buffer. Fastest Encode favors hardware and faster software presets."
    } else {
        ""
    }
}

/// How many of `states` satisfy `pred`.
pub open spec fn count_matching(states: Seq<FileState>, pred: spec_fn(FileState) -> bool) -> nat
    decreases states.len(),
{
    if states.len() == 0 {
        0
    } else {
        count_matching(states.drop_last(), pred) + if pred(states.last()) {
            1nat
        } else {
            0nat
        }
    }
}

/// Completed and skipped rows count as finished.
pub open spec fn is_finished(state: FileState) -> bool {
    state == FileState::Completed || state == FileState::Skipped
}

/// The summary counts of the queue.
#[derive(Debug, Clone, Copy, PartialEq, Eq, Structural)]
pub struct QueueCounts {
    pub total: usize,
    pub completed: usize,
    pub processing: usize,
    pub remaining: usize,
}

/// The summary counts never add up to more than the queue holds.
pub proof fn counts_within_total(states: Seq<FileState>)
    ensures
        count_matching(states, |s: FileState| is_finished(s)) + count_matching(
            states,
            |s: FileState| s == FileState::Processing,
        ) + count_matching(states, |s: FileState| s == FileState::Queued) <= states.len(),
    decreases states.len(),
{
    if states.len() > 0 {
        counts_within_total(states.drop_last());
    }
}

/// Counts the finished (completed or skipped), processing, and queued rows.
pub fn queue_counts(states: &Vec<FileState>) -> (r: QueueCounts)
    ensures
        r.total == states.len(),
        r.completed == count_matching(states@, |s: FileState| is_finished(s)),
        r.processing == count_matching(states@, |s: FileState| s == FileState::Processing),
        r.remaining == count_matching(states@, |s: FileState| s == FileState::Queued),
{
    let mut completed: usize = 0;
    let mut processing: usize = 0;
    let mut remaining: usize = 0;
    let mut i: usize = 0;
    while i < states.len()
        invariant
            i <= states.len(),
            completed == count_matching(states@.take(i as int), |s: FileState| is_finished(s)),
            processing == count_matching(states@.take(i as int), |s: FileState| s == FileState::Processing),
            remaining == count_matching(states@.take(i as int), |s: FileState| s == FileState::Queued),
        decreases states.len() - i,
    {
        proof {
            assert(states@.take(i + 1).drop_last() =~= states@.take(i as int));
            counts_within_total(states@.take(i as int));
        }
        let state = states[i];
        if state == FileState::Completed || state == FileState::Skipped {
            completed = completed + 1;
        } else if state == FileState::Processing {
            processing = processing + 1;
        } else if state == FileState::Queued {
            remaining = remaining + 1;
        }
        i = i + 1;
    }
    assert(states@.take(states.len() as int) =~= states@);
    QueueCounts { total: states.len(), completed, processing, remaining }
}

/// The footer status for the scanning, running, and paused flags.
pub open spec fn footer_status_text(scanning: bool, running: bool, paused: bool) -> Seq<char> {
    if scanning {
        "Loading queue"@
    } else if running {
        if paused {
            "Encoding paused"@
        } else {
            "VideoToolbox hardware encoding active"@
        }
    } else {
        "Ready"@
    }
}

/// The footer status line.
pub fn footer_status(scanning: bool, running: bool, paused: bool) -> (r: &'static str)
    ensures
        r@ == footer_status_text(scanning, running, paused),
{
    if scanning {
        "Loading queue"
    } else if running {
        if paused {
            "Encoding paused"
        } else {
            "VideoToolbox hardware encoding active"
        }
    } else {
        "Ready"
    }
}

/// The footer's middle line.
pub open spec fn footer_center_text(scanning: bool, processing: nat) -> Seq<char> {
    if scanning {
        "Reading video metadata…"@
    } else if processing == 1 {
        "1 file processing"@
    } else {
        decimal(processing) + " files processing"@
    }
}

/// The footer's middle line: scanning progress or how many files are processing.
pub fn footer_center(scanning: bool, processing: usize) -> (r: String)
    ensures
        r@ == footer_center_text(scanning, processing as nat),
{
    if scanning {
        "Reading video metadata…".to_owned()
    } else if processing == 1 {
        "1 file processing".to_owned()
    } else {
        let mut text = String::new();
        push_decimal(&mut text, processing as u64);
        text.append(" files processing");
        assert(text@ =~= footer_center_text(scanning, processing as nat));
        text
    }
}

/// The message shown when a run starts with `jobs` workers.
pub open spec fn starting_text(jobs: nat) -> Seq<char> {
    "Starting "@ + decimal(jobs) + " concurrent worker"@ + if jobs == 1 {
        ""@
    } else {
        "s"@
    }
}

/// Announces how many concurrent workers a run starts.
pub fn starting_message(jobs: usize) -> (r: String)
    ensures
        r@ == starting_text(jobs as nat),
{
    let mut text = "Starting ".to_owned();
    push_decimal(&mut text, jobs as u64);
    text.append(" concurrent worker");
    if jobs == 1 {
        text.append("");
    } else {
        text.append("s");
    }
    text
}

/// The output column: the measured size, else `~` and the predicted size, else a dash.
pub open spec fn output_column(output_bytes: Option<u64>, predicted_output_bytes: Option<u64>) -> Seq<char> {
    match output_bytes {
        Some(bytes) => bytes_text(bytes as nat),
        None => match predicted_output_bytes {
            Some(bytes) => "~"@ + bytes_text(bytes as nat),
            None => "—"@,
        },
    }
}

/// The queue's output-size column.
pub fn output_text(output_bytes: Option<u64>, predicted_output_bytes: Option<u64>) -> (r: String)
    ensures
        r@ == output_column(output_bytes, predicted_output_bytes),
{
    match output_bytes {
        Some(bytes) => format_bytes(bytes),
        None => match predicted_output_bytes {
            Some(bytes) => {
                let mut text = "~".to_owned();
                text.append(format_bytes(bytes).as_str());
                text
            },
            None => "—".to_owned(),
        },
    }
}

/// `{w}×{h}`.
pub open spec fn frame_text(width: nat, height: nat) -> Seq<char> {
    decimal(width) + "×"@ + decimal(height)
}

/// The resolution column: the source frame, followed by the planned frame when they differ.
pub open spec fn resolution_column(
    width: nat,
    height: nat,
    planned_width: Option<u32>,
    planned_height: Option<u32>,
) -> Seq<char> {
    match (planned_width, planned_height) {
        (Some(pw), Some(ph)) => if pw != width || ph != height {
            frame_text(width, height) + " → "@ + frame_text(pw as nat, ph as nat)
        } else {
            frame_text(width, height)
        },
        _ => frame_text(width, height),
    }
}

fn push_frame(text: &mut String, width: u32, height: u32)
    ensures
        final(text)@ == old(text)@ + frame_text(width as nat, height as nat),
{
    push_decimal(text, width as u64);
    text.append("×");
    push_decimal(text, height as u64);
    assert(final(text)@ =~= old(text)@ + frame_text(width as nat, height as nat));
}

/// The queue's resolution column.
pub fn resolution_text(width: u32, height: u32, planned_width: Option<u32>, planned_height: Option<u32>) -> (r: String)
    ensures
        r@ == resolution_column(width as nat, height as nat, planned_width, planned_height),
{
    let mut text = String::new();
    push_frame(&mut text, width, height);
    match (planned_width, planned_height) {
        (Some(pw), Some(ph)) => {
            if pw != width || ph != height {
                text.append(" → ");
                push_frame(&mut text, pw, ph);
            }
        },
        _ => {},
    }
    assert(text@ =~= resolution_column(width as nat, height as nat, planned_width, planned_height));
    text
}

/// The encoder line of the selected file.
pub open spec fn encoder_line(encoder: Option<Seq<char>>) -> Seq<char> {
    let name = match encoder {
        Some(name) => name,
        None => "Awaiting encoder selection"@,
    };
    if occurs_in(name, "videotoolbox"@) {
        "Encoding with "@ + name + " (Hardware)"@
    } else {
        "Encoding with "@ + name
    }
}

/// Describes the selected file's encoder, marking VideoToolbox as hardware.
pub fn encoder_text(encoder: Option<&str>) -> (r: String)
    ensures
        r@ == encoder_line(
            match encoder {
                Some(name) => Some(name@),
                None => None,
            },
        ),
{
    let name = match encoder {
        Some(name) => name,
        None => "Awaiting encoder selection",
    };
    let mut text = "Encoding with ".to_owned();
    text.append(name);
    if contains_text(name, "videotoolbox") {
        text.append(" (Hardware)");
    }
    text
}

/// The quality line of the selected file.
pub open spec fn quality_line(label: Seq<char>) -> Seq<char> {
    if label.len() == 0 {
        "Not analyzed"@
    } else {
        label
    }
}

/// The selected file's quality rating, or a note that it has none yet.
pub fn quality_text(label: &str) -> (r: String)
    ensures
        r@ == quality_line(label@),
{
    if label.is_empty() {
        "Not analyzed".to_owned()
    } else {
        label.to_owned()
    }
}

/// The predicted-size line of the selected file.
pub open spec fn predicted_size_line(predicted_output_bytes: Option<u64>) -> Seq<char> {
    match predicted_output_bytes {
        Some(bytes) => "Estimated output: "@ + bytes_text(bytes as nat),
        None => "Estimated output unavailable"@,
    }
}

/// The selected file's predicted output size.
pub fn predicted_size_text(predicted_output_bytes: Option<u64>) -> (r: String)
    ensures
        r@ == predicted_size_line(predicted_output_bytes),
{
    match predicted_output_bytes {
        Some(bytes) => {
            let mut text = "Estimated output: ".to_owned();
            text.append(format_bytes(bytes).as_str());
            text
        },
        None => "Estimated output unavailable".to_owned(),
    }
}

/// The advice line of the selected file.
pub open spec fn advice_line(advice: Seq<char>) -> Seq<char> {
    if advice.len() == 0 {
        "Choose settings and refresh estimates to see compression advice."@
    } else {
        advice
    }
}

/// The selected file's compression advice, or a hint to ask for it.
pub fn advice_text(advice: &str) -> (r: String)
    ensures
        r@ == advice_line(advice@),
{
    if advice.is_empty() {
        "Choose settings and refresh estimates to see compression advice.".to_owned()
    } else {
        advice.to_owned()
    }
}

} // verus!
