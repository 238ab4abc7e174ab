use video_squeezer::probe::{video_stream_facts, ProbeError, ProbeStream};

fn stream(kind: Option<&str>, duration: Option<&str>, avg: Option<&str>, base: Option<&str>) -> ProbeStream {
    ProbeStream {
        codec_type: kind.map(str::to_owned),
        width: Some(1920),
        height: Some(1080),
        duration: duration.map(str::to_owned),
        avg_frame_rate: avg.map(str::to_owned),
        r_frame_rate: base.map(str::to_owned),
    }
}

#[test]
fn the_first_video_stream_is_read() {
    let mut second = stream(Some("video"), Some("20.0"), None, Some("25/1"));
    second.width = Some(640);
    let streams = vec![
        stream(Some("audio"), Some("99.0"), None, None),
        stream(Some("video"), Some("12.5"), Some("24000/1001"), Some("24/1")),
        second,
    ];
    let facts = video_stream_facts(streams, Some("13.0".to_owned())).unwrap();
    assert_eq!((facts.width, facts.height), (1920, 1080));
    assert_eq!(facts.duration, "12.5");
    assert_eq!(facts.frame_rate.as_deref(), Some("24000/1001"));
}

#[test]
fn missing_fields_fall_back() {
    let mut bare = stream(Some("video"), None, None, Some("30/1"));
    bare.width = None;
    bare.height = None;
    let facts = video_stream_facts(vec![bare], Some("61.2".to_owned())).unwrap();
    assert_eq!((facts.width, facts.height), (0, 0));
    assert_eq!(facts.duration, "61.2");
    assert_eq!(facts.frame_rate.as_deref(), Some("30/1"));

    let facts = video_stream_facts(vec![stream(Some("video"), Some("5"), None, None)], None).unwrap();
    assert_eq!(facts.frame_rate, None);
}

#[test]
fn reports_without_a_usable_video_are_refused() {
    let streams = vec![stream(Some("audio"), Some("1"), None, None), stream(None, Some("1"), None, None)];
    assert_eq!(video_stream_facts(streams, Some("1".to_owned())).unwrap_err(), ProbeError::NoVideoStream);
    assert_eq!(video_stream_facts(Vec::new(), None).unwrap_err(), ProbeError::NoVideoStream);
    let streams = vec![stream(Some("Video"), Some("1"), None, None)];
    assert_eq!(video_stream_facts(streams, None).unwrap_err(), ProbeError::NoVideoStream);
    let streams = vec![stream(Some("video"), None, None, None)];
    assert_eq!(video_stream_facts(streams, None).unwrap_err(), ProbeError::NoDuration);
    assert_eq!(ProbeError::NoVideoStream.message(), "no video stream found");
    assert_eq!(ProbeError::NoDuration.message(), "duration is unavailable");
}
