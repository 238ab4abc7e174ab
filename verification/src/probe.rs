//! Reading FFprobe's report: which stream describes the video, and where
//! its duration and frame rate are written.

use crate::text::spells;
use vstd::prelude::*;

verus! {

/// One stream of FFprobe's report, as far as the planner reads it.
#[derive(Debug)]
pub struct ProbeStream {
    pub codec_type: Option<String>,
    pub width: Option<u32>,
    pub height: Option<u32>,
    pub duration: Option<String>,
    pub avg_frame_rate: Option<String>,
    pub r_frame_rate: Option<String>,
}

/// What the report says of the video: the frame size (0 where absent), the
/// duration text, and the frame-rate text when there is one.
#[derive(Debug)]
pub struct StreamFacts {
    pub width: u32,
    pub height: u32,
    pub duration: String,
    pub frame_rate: Option<String>,
}

/// Why a report describes no usable video.
#[derive(Debug, Clone, Copy, PartialEq, Eq, Structural)]
pub enum ProbeError {
    /// No stream is a video stream.
    NoVideoStream,
    /// Neither the video stream nor the container gives a duration.
    NoDuration,
}

/// The text of a probe error.
pub open spec fn probe_error_text(error: ProbeError) -> Seq<char> {
    match error {
        ProbeError::NoVideoStream => "no video stream found"@,
        ProbeError::NoDuration => "duration is unavailable"@,
    }
}

impl ProbeError {
    /// The message shown for this error.
    pub fn message(&self) -> (r: &'static str)
        ensures
            r@ == probe_error_text(*self),
    {
        match self {
            ProbeError::NoVideoStream => "no video stream found",
            ProbeError::NoDuration => "duration is unavailable",
        }
    }
}

/// Whether a stream's type is `video`.
pub open spec fn is_video_stream(stream: ProbeStream) -> bool {
    match stream.codec_type {
        Some(kind) => kind@ == "video"@,
        None => false,
    }
}

/// Whether `i` is the position of the first video stream.
pub open spec fn first_video_at(streams: Seq<ProbeStream>, i: int) -> bool {
    &&& 0 <= i < streams.len()
    &&& is_video_stream(streams[i])
    &&& forall|j: int| 0 <= j < i ==> !is_video_stream(#[trigger] streams[j])
}

/// The facts read from the video stream: the stream's own duration, else the
/// container's; the average frame rate, else the base frame rate.
pub open spec fn stream_facts(stream: ProbeStream, format_duration: Option<String>) -> Result<StreamFacts, ProbeError> {
    let duration = match stream.duration {
        Some(text) => Some(text),
        None => format_duration,
    };
    match duration {
        None => Err(ProbeError::NoDuration),
        Some(text) => Ok(
            StreamFacts {
                width: match stream.width {
                    Some(w) => w,
                    None => 0,
                },
                height: match stream.height {
                    Some(h) => h,
                    None => 0,
                },
                duration: text,
                frame_rate: match stream.avg_frame_rate {
                    Some(rate) => Some(rate),
                    None => stream.r_frame_rate,
                },
            },
        ),
    }
}

/// Finds the first video stream of a report and reads its facts.
pub fn video_stream_facts(streams: Vec<ProbeStream>, format_duration: Option<String>) -> (r: Result<
    StreamFacts,
    ProbeError,
>)
    ensures
        (forall|i: int| 0 <= i < streams.len() ==> !is_video_stream(#[trigger] streams@[i])) ==> r
            == Err::<StreamFacts, ProbeError>(ProbeError::NoVideoStream),
        forall|i: int| first_video_at(streams@, i) ==> r == stream_facts(#[trigger] streams@[i], format_duration),
{
    let mut streams = streams;
    let ghost all = streams@;
    let mut i: usize = 0;
    while i < streams.len()
        invariant
            streams@ == all,
            i <= streams.len(),
            forall|j: int| 0 <= j < i ==> !is_video_stream(#[trigger] all[j]),
        ensures
            streams@ == all,
            i <= streams.len(),
            forall|j: int| 0 <= j < i ==> !is_video_stream(#[trigger] all[j]),
            i < streams.len() ==> is_video_stream(all[i as int]),
        decreases streams.len() - i,
    {
        let found = match &streams[i].codec_type {
            Some(kind) => spells(kind, "video"),
            None => false,
        };
        if found {
            break;
        }
        i = i + 1;
    }
    if i == streams.len() {
        return Err(ProbeError::NoVideoStream);
    }
    assert(is_video_stream(all[i as int]));
    assert forall|k: int| first_video_at(all, k) implies k == i by {
        if k < i {
            assert(!is_video_stream(all[k]));
        } else if k > i {
            assert(!is_video_stream(all[i as int]));
        }
    }
    let stream = streams.swap_remove(i);
    let duration = match stream.duration {
        Some(text) => Some(text),
        None => format_duration,
    };
    match duration {
        None => Err(ProbeError::NoDuration),
        Some(text) => Ok(
            StreamFacts {
                width: match stream.width {
                    Some(w) => w,
                    None => 0,
                },
                height: match stream.height {
                    Some(h) => h,
                    None => 0,
                },
                duration: text,
                frame_rate: match stream.avg_frame_rate {
                    Some(rate) => Some(rate),
                    None => stream.r_frame_rate,
                },
            },
        ),
    }
}

} // verus!
