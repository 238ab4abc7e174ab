//! The decisions a worker makes while it processes the queue.

use crate::compression::{retry_decision, retry_video_bitrate, target_bytes, target_bytes_of};
use crate::models::{strategy_label, JobConfig};
use crate::text::{decimal, push_decimal};
use vstd::prelude::*;

verus! {

/// `jobs.min(row_count.max(1))`: one worker per job slot, never more workers
/// than rows (but at least one).
pub open spec fn worker_total(jobs: nat, row_count: nat) -> nat {
    let rows = if row_count < 1 {
        1
    } else {
        row_count
    };
    if jobs <= rows {
        jobs
    } else {
        rows
    }
}

/// How many workers the pool starts for a queue of `row_count` rows.
pub fn worker_count(jobs: usize, row_count: usize) -> (r: usize)
    ensures
        r == worker_total(jobs as nat, row_count as nat),
        r <= jobs,
        r <= row_count || r <= 1,
        row_count >= 1 ==> r == if jobs <= row_count { jobs } else { row_count },
        row_count == 0 ==> r == if jobs == 0 { 0usize } else { 1usize },
{
    let rows = if row_count < 1 {
        1
    } else {
        row_count
    };
    if jobs <= rows {
        jobs
    } else {
        rows
    }
}

/// The number of encode attempts: the configured maximum (at least one)
/// when retries are on, one otherwise.
pub open spec fn attempt_budget(retry_missed_target: bool, max_encode_attempts: nat) -> nat {
    if retry_missed_target {
        if max_encode_attempts < 1 {
            1
        } else {
            max_encode_attempts
        }
    } else {
        1
    }
}

/// How many times one video may be encoded.
pub fn maximum_attempts(config: &JobConfig) -> (r: usize)
    ensures
        r == attempt_budget(config.retry_missed_target, config.max_encode_attempts as nat),
        r >= 1,
        !config.retry_missed_target ==> r == 1,
        config.retry_missed_target && config.max_encode_attempts >= 1 ==> r == config.max_encode_attempts,
        config.retry_missed_target && config.max_encode_attempts == 0 ==> r == 1,
{
    if config.retry_missed_target {
        if config.max_encode_attempts < 1 {
            1
        } else {
            config.max_encode_attempts
        }
    } else {
        1
    }
}

/// Whether an encode that produced `size` bytes at attempt `attempt` may be
/// followed by another: attempts remain, the output missed the target, and
/// retries are on.
pub open spec fn may_retry(attempt: nat, maximum: nat, size: nat, target_limit: nat, retry_missed_target: bool) -> bool {
    attempt < maximum && size > target_limit && retry_missed_target
}

/// What a worker does with a planned video before encoding.
#[derive(Debug, Clone, Copy, PartialEq, Eq, Structural)]
pub enum Disposition {
    /// The source already fits; it is skipped, with a contact sheet when asked for.
    Skip { make_contact_sheet: bool },
    /// A finished output exists and overwriting is off; it is kept.
    KeepExisting,
    /// The video is encoded.
    Encode,
}

/// The disposition of a video: a compliant source is skipped when skipping
/// is on (making a contact sheet when sheets are on and either overwriting is
/// on or no sheet exists yet); otherwise an existing output is kept unless
/// overwriting is on; otherwise the video is encoded.
pub open spec fn disposition_of(
    compression_required: bool,
    skip_compliant: bool,
    make_contact_sheet: bool,
    overwrite: bool,
    contact_sheet_exists: bool,
    output_exists: bool,
) -> Disposition {
    if !compression_required && skip_compliant {
        Disposition::Skip { make_contact_sheet: make_contact_sheet && (overwrite || !contact_sheet_exists) }
    } else if output_exists && !overwrite {
        Disposition::KeepExisting
    } else {
        Disposition::Encode
    }
}

/// Decides whether to skip, keep an existing output, or encode.
pub fn choose_disposition(
    compression_required: bool,
    config: &JobConfig,
    contact_sheet_exists: bool,
    output_exists: bool,
) -> (r: Disposition)
    ensures
        r == disposition_of(
            compression_required,
            config.skip_compliant,
            config.make_contact_sheet,
            config.overwrite,
            contact_sheet_exists,
            output_exists,
        ),
        r is Skip ==> config.skip_compliant && !compression_required,
        r matches Disposition::Skip { make_contact_sheet } && make_contact_sheet ==> config.make_contact_sheet,
        r is KeepExisting ==> output_exists && !config.overwrite,
        r is Encode ==> compression_required || !config.skip_compliant,
{
    if !compression_required && config.skip_compliant {
        Disposition::Skip {
            make_contact_sheet: config.make_contact_sheet && (config.overwrite || !contact_sheet_exists),
        }
    } else if output_exists && !config.overwrite {
        Disposition::KeepExisting
    } else {
        Disposition::Encode
    }
}

/// A video is skipped only when skipping compliant files is on and it needs
/// no compression; with skipping off, or when it needs compressing, it is
/// encoded unless a finished output is kept (one exists and overwriting is
/// off); a contact sheet is made for a skipped video only when sheets are on.
pub proof fn skipping_needs_the_setting_and_a_compliant_source(
    compression_required: bool,
    skip_compliant: bool,
    make_contact_sheet: bool,
    overwrite: bool,
    contact_sheet_exists: bool,
    output_exists: bool,
)
    ensures
        disposition_of(
            compression_required,
            skip_compliant,
            make_contact_sheet,
            overwrite,
            contact_sheet_exists,
            output_exists,
        ) is Skip <==> (skip_compliant && !compression_required),
        (!skip_compliant || compression_required) ==> disposition_of(
            compression_required,
            skip_compliant,
            make_contact_sheet,
            overwrite,
            contact_sheet_exists,
            output_exists,
        ) == (if output_exists && !overwrite {
            Disposition::KeepExisting
        } else {
            Disposition::Encode
        }),
        disposition_of(
            compression_required,
            skip_compliant,
            make_contact_sheet,
            overwrite,
            contact_sheet_exists,
            output_exists,
        ) matches Disposition::Skip { make_contact_sheet: sheet } && sheet ==> make_contact_sheet,
{
}

/// An existing output is never replaced while overwriting is off.
pub proof fn existing_output_kept_without_overwrite(
    compression_required: bool,
    skip_compliant: bool,
    make_contact_sheet: bool,
    contact_sheet_exists: bool,
)
    ensures
        disposition_of(
            compression_required,
            skip_compliant,
            make_contact_sheet,
            false,
            contact_sheet_exists,
            true,
        ) != Disposition::Encode,
{
}

/// The message of a finished encode.
pub open spec fn completion_text(encoder: Seq<char>, over_target: bool, strategy_name: Seq<char>, attempts: nat) -> Seq<char> {
    if over_target {
        "Encoded with "@ + encoder + "; output exceeds the target under "@ + strategy_name + " strategy"@
    } else {
        "Encoded with "@ + encoder + " in "@ + decimal(attempts) + " attempt(s)"@
    }
}

/// Reports a finished encode: the encoder and attempt count, or a note that
/// the output is still over the target under the chosen strategy.
pub fn completion_message(encoder: &str, over_target: bool, config: &JobConfig, attempts: usize) -> (r: String)
    ensures
        r@ == completion_text(encoder@, over_target, strategy_label(config.quality_strategy), attempts as nat),
{
    let mut text = "Encoded with ".to_owned();
    text.append(encoder);
    if over_target {
        text.append("; output exceeds the target under ");
        text.append(config.quality_strategy.label());
        text.append(" strategy");
    } else {
        text.append(" in ");
        push_decimal(&mut text, attempts as u64);
        text.append(" attempt(s)");
    }
    assert(text@ =~= completion_text(encoder@, over_target, strategy_label(config.quality_strategy), attempts as nat));
    text
}

} // verus!

verus! {

/// How one FFmpeg attempt ended.
#[derive(Debug, Clone, Copy, PartialEq, Eq, Structural)]
pub enum AttemptOutcome {
    /// FFmpeg could not run or exited with an error.
    Failed,
    /// The run was cancelled; its partial output has been removed.
    Cancelled,
    /// FFmpeg succeeded and wrote `size` bytes.
    Finished { size: u64 },
}

/// What the worker does after an attempt.
#[derive(Debug, Clone, Copy, PartialEq, Eq, Structural)]
pub enum EncodeStep {
    /// Report the failure on the queue row.
    Fail,
    /// Stop without touching the outputs.
    Stop,
    /// Encode again: attempt number `attempt` at `video_bps`.
    Retry { attempt: usize, video_bps: u64 },
    /// Promote the partial output (of `size` bytes) to the final name.
    Promote { size: u64 },
}

/// The step after attempt `attempt` of at most `maximum`, run at
/// `video_bps`: failures fail and cancellations stop; a finished attempt
/// is retried at a lower bitrate when attempts remain, its output missed the
/// target, retries are on, and the retry rule offers a lower bitrate;
/// otherwise its output is promoted.
pub open spec fn encode_step(
    attempt: nat,
    maximum: nat,
    video_bps: nat,
    config: JobConfig,
    quality_floor_bps: nat,
    outcome: AttemptOutcome,
) -> EncodeStep {
    match outcome {
        AttemptOutcome::Failed => EncodeStep::Fail,
        AttemptOutcome::Cancelled => EncodeStep::Stop,
        AttemptOutcome::Finished { size } => {
            if may_retry(
                attempt,
                maximum,
                size as nat,
                target_bytes_of(config.target_mib as nat),
                config.retry_missed_target,
            ) {
                match retry_decision(
                    video_bps,
                    size as nat,
                    config.target_mib as nat,
                    config.quality_strategy,
                    quality_floor_bps,
                ) {
                    Some(next) => EncodeStep::Retry { attempt: (attempt + 1) as usize, video_bps: next as u64 },
                    None => EncodeStep::Promote { size },
                }
            } else {
                EncodeStep::Promote { size }
            }
        },
    }
}

/// Decides what follows an encode attempt.
pub fn next_encode_step(
    attempt: usize,
    maximum: usize,
    video_bps: u64,
    config: &JobConfig,
    quality_floor_bps: u64,
    outcome: AttemptOutcome,
) -> (r: EncodeStep)
    ensures
        r == encode_step(attempt as nat, maximum as nat, video_bps as nat, *config, quality_floor_bps as nat, outcome),
{
    match outcome {
        AttemptOutcome::Failed => EncodeStep::Fail,
        AttemptOutcome::Cancelled => EncodeStep::Stop,
        AttemptOutcome::Finished { size } => {
            let target_limit = target_bytes(config.target_mib);
            if attempt < maximum && size > target_limit && config.retry_missed_target {
                match retry_video_bitrate(video_bps, size, config, quality_floor_bps) {
                    Some(next) => EncodeStep::Retry { attempt: attempt + 1, video_bps: next },
                    None => EncodeStep::Promote { size },
                }
            } else {
                EncodeStep::Promote { size }
            }
        },
    }
}

/// A partial output is promoted only after FFmpeg finished successfully, and
/// with the size it measured; a failed or cancelled attempt is never
/// promoted and never retried.
pub proof fn promotion_only_after_success(
    attempt: nat,
    maximum: nat,
    video_bps: nat,
    config: JobConfig,
    quality_floor_bps: nat,
    outcome: AttemptOutcome,
)
    ensures
        encode_step(attempt, maximum, video_bps, config, quality_floor_bps, outcome) matches EncodeStep::Promote { size }
            ==> outcome matches AttemptOutcome::Finished { size: measured } && measured == size,
        outcome == AttemptOutcome::Cancelled ==> encode_step(attempt, maximum, video_bps, config, quality_floor_bps, outcome)
            == EncodeStep::Stop,
        outcome == AttemptOutcome::Failed ==> encode_step(attempt, maximum, video_bps, config, quality_floor_bps, outcome)
            == EncodeStep::Fail,
{
}

/// A retry comes only after an attempt whose output missed the target, with
/// retries on and attempts left; it is numbered one higher, stays within
/// the attempt budget, and asks for a bitrate more than 10 kbit/s lower, so
/// the attempts of one video end.
pub proof fn retries_are_bounded_and_lower(
    attempt: nat,
    maximum: nat,
    video_bps: nat,
    config: JobConfig,
    quality_floor_bps: nat,
    outcome: AttemptOutcome,
)
    requires
        attempt < usize::MAX,
        video_bps <= u64::MAX,
    ensures
        encode_step(attempt, maximum, video_bps, config, quality_floor_bps, outcome) matches EncodeStep::Retry {
            attempt: next_attempt,
            video_bps: next_bps,
        } ==> {
            &&& outcome matches AttemptOutcome::Finished { size }
            &&& size > target_bytes_of(config.target_mib as nat)
            &&& config.retry_missed_target
            &&& next_attempt == attempt + 1
            &&& next_attempt <= maximum
            &&& next_bps + 10_000 < video_bps
        },
{
}

} // verus!
