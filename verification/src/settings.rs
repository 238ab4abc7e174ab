//! Turning the settings controls into a validated job configuration.

use crate::models::{Codec, EncoderMode, JobConfig, QualityStrategy};
use crate::paths::{ascii_lower, lower_char};
use crate::text::{chars_of, contains_text, occurs_in, push_char};
use vstd::prelude::*;

verus! {

/// Whether `text` begins with `prefix` (`str::starts_with`).
pub open spec fn starts_with(text: Seq<char>, prefix: Seq<char>) -> bool {
    prefix.len() <= text.len() && text.take(prefix.len() as int) == prefix
}

/// Whether `text` begins with `prefix`.
pub fn text_starts_with(text: &str, prefix: &str) -> (r: bool)
    ensures
        r == starts_with(text@, prefix@),
{
    let t = chars_of(text);
    let p = chars_of(prefix);
    if p.len() > t.len() {
        return false;
    }
    let mut i: usize = 0;
    while i < p.len()
        invariant
            p.len() <= t.len(),
            i <= p.len(),
            t@ == text@,
            p@ == prefix@,
            forall|j: int| 0 <= j < i ==> t@[j] == p@[j],
        decreases p.len() - i,
    {
        if t[i] != p[i] {
            assert(t@.take(p.len() as int)[i as int] != p@[i as int]);
            return false;
        }
        i = i + 1;
    }
    assert(t@.take(p.len() as int) =~= p@);
    true
}

/// The frame limit named by the resolution control; 1280x720 unless it names another.
pub open spec fn resolution_choice(label: Seq<char>) -> (u32, u32) {
    if starts_with(label, "854x480"@) {
        (854, 480)
    } else if starts_with(label, "1920x1080"@) {
        (1920, 1080)
    } else if starts_with(label, "3840x2160"@) {
        (3840, 2160)
    } else {
        (1280, 720)
    }
}

/// Reads the maximum-resolution control.
pub fn parse_max_resolution(label: &str) -> (r: (u32, u32))
    ensures
        r == resolution_choice(label@),
{
    if text_starts_with(label, "854x480") {
        (854, 480)
    } else if text_starts_with(label, "1920x1080") {
        (1920, 1080)
    } else if text_starts_with(label, "3840x2160") {
        (3840, 2160)
    } else {
        (1280, 720)
    }
}

/// The codec named by the codec control: H.264 when it mentions `264`.
pub open spec fn codec_choice(label: Seq<char>) -> Codec {
    if occurs_in(label, "264"@) {
        Codec::H264
    } else {
        Codec::H265
    }
}

/// Reads the codec control.
pub fn parse_codec(label: &str) -> (r: Codec)
    ensures
        r == codec_choice(label@),
{
    if contains_text(label, "264") {
        Codec::H264
    } else {
        Codec::H265
    }
}

/// The encoder mode named by the encoder control.
pub open spec fn encoder_mode_choice(label: Seq<char>) -> EncoderMode {
    if starts_with(label, "Apple"@) {
        EncoderMode::VideoToolbox
    } else if starts_with(label, "Software"@) {
        EncoderMode::Software
    } else {
        EncoderMode::Auto
    }
}

/// Reads the encoder control.
pub fn parse_encoder_mode(label: &str) -> (r: EncoderMode)
    ensures
        r == encoder_mode_choice(label@),
{
    if text_starts_with(label, "Apple") {
        EncoderMode::VideoToolbox
    } else if text_starts_with(label, "Software") {
        EncoderMode::Software
    } else {
        EncoderMode::Auto
    }
}

/// The strategy named by the strategy control.
pub open spec fn strategy_choice(label: Seq<char>) -> QualityStrategy {
    if starts_with(label, "Best"@) {
        QualityStrategy::BestQuality
    } else if starts_with(label, "Smallest"@) {
        QualityStrategy::SmallestFile
    } else if starts_with(label, "Fastest"@) {
        QualityStrategy::FastestEncode
    } else {
        QualityStrategy::Balanced
    }
}

/// Reads the quality-strategy control.
pub fn parse_quality_strategy(label: &str) -> (r: QualityStrategy)
    ensures
        r == strategy_choice(label@),
{
    if text_starts_with(label, "Best") {
        QualityStrategy::BestQuality
    } else if text_starts_with(label, "Smallest") {
        QualityStrategy::SmallestFile
    } else if text_starts_with(label, "Fastest") {
        QualityStrategy::FastestEncode
    } else {
        QualityStrategy::Balanced
    }
}

/// The preset control lower-cased (ASCII) with its spaces removed.
pub open spec fn preset_text(label: Seq<char>) -> Seq<char>
    decreases label.len(),
{
    if label.len() == 0 {
        seq![]
    } else if label.last() == ' ' {
        preset_text(label.drop_last())
    } else {
        preset_text(label.drop_last()).push(ascii_lower(label.last()))
    }
}

/// Reads the preset control: `label.to_ascii_lowercase().replace(' ', "")`.
pub fn normalize_preset(label: &str) -> (r: String)
    ensures
        r@ == preset_text(label@),
{
    let chars = chars_of(label);
    let mut text = String::new();
    let mut i: usize = 0;
    while i < chars.len()
        invariant
            i <= chars.len(),
            chars@ == label@,
            text@ == preset_text(chars@.take(i as int)),
        decreases chars.len() - i,
    {
        let c = chars[i];
        assert(chars@.take(i + 1).drop_last() =~= chars@.take(i as int));
        if c != ' ' {
            let lowered = lower_char(c);
            push_char(&mut text, lowered);
        }
        i = i + 1;
    }
    assert(chars@.take(chars.len() as int) =~= chars@);
    text
}

/// `c.is_whitespace()`: the Unicode White_Space characters.
pub open spec fn is_white_space(c: char) -> bool {
    ('\u{9}' <= c && c <= '\u{d}') || c == ' ' || c == '\u{85}' || c == '\u{a0}' || c
        == '\u{1680}' || ('\u{2000}' <= c && c <= '\u{200a}') || c == '\u{2028}' || c == '\u{2029}'
        || c == '\u{202f}' || c == '\u{205f}' || c == '\u{3000}'
}

/// `c.is_whitespace()`.
pub fn white_space(c: char) -> (r: bool)
    ensures
        r == is_white_space(c),
{
    ('\u{9}' <= c && c <= '\u{d}') || c == ' ' || c == '\u{85}' || c == '\u{a0}' || c
        == '\u{1680}' || ('\u{2000}' <= c && c <= '\u{200a}') || c == '\u{2028}' || c == '\u{2029}'
        || c == '\u{202f}' || c == '\u{205f}' || c == '\u{3000}'
}

/// The length of the run of leading white space in `s`.
pub open spec fn leading_space(s: Seq<char>) -> nat
    decreases s.len(),
{
    if s.len() > 0 && is_white_space(s[0]) {
        1 + leading_space(s.drop_first())
    } else {
        0
    }
}

/// The leading run of non-white-space characters of `s`.
pub open spec fn leading_word(s: Seq<char>) -> Seq<char>
    decreases s.len(),
{
    if s.len() > 0 && !is_white_space(s[0]) {
        seq![s[0]] + leading_word(s.drop_first())
    } else {
        seq![]
    }
}

/// The first white-space separated word of `s` (`s.split_whitespace().next()`),
/// empty when there is none.
pub open spec fn first_word(s: Seq<char>) -> Seq<char> {
    leading_word(s.skip(leading_space(s) as int))
}

/// Whether `c` is an ASCII digit.
pub open spec fn is_digit(c: char) -> bool {
    '0' <= c && c <= '9'
}

/// The value of a run of ASCII digits.
pub open spec fn digits_value(d: Seq<char>) -> nat
    decreases d.len(),
{
    if d.len() == 0 {
        0
    } else {
        digits_value(d.drop_last()) * 10 + ((d.last() as int) - 48) as nat
    }
}

/// `word.parse::<u32>().ok()`: an optional `+`, then one or more ASCII
/// digits whose value fits in 32 bits.
pub open spec fn parsed_u32(word: Seq<char>) -> Option<nat> {
    let digits = unsigned_digits(word);
    if digits.len() > 0 && all_digits(digits) && digits_value(digits) <= u32::MAX {
        Some(digits_value(digits))
    } else {
        None
    }
}

/// A word without its leading `+`, if it has one.
pub open spec fn unsigned_digits(word: Seq<char>) -> Seq<char> {
    if word.len() > 0 && word[0] == '+' {
        word.drop_first()
    } else {
        word
    }
}

/// Whether every character of `d` is an ASCII digit.
pub open spec fn all_digits(d: Seq<char>) -> bool {
    forall|i: int| 0 <= i < d.len() ==> is_digit(#[trigger] d[i])
}

/// The audio bitrate named by the audio control: the number that starts it,
/// or 128 kbit/s when it does not start with one.
pub open spec fn audio_choice(label: Seq<char>) -> nat {
    match parsed_u32(first_word(label)) {
        Some(kbps) => kbps,
        None => 128,
    }
}

proof fn lemma_leading_space(s: Seq<char>, i: int)
    requires
        0 <= i <= s.len(),
        forall|j: int| 0 <= j < i ==> is_white_space(#[trigger] s[j]),
        i == s.len() || !is_white_space(s[i]),
    ensures
        leading_space(s) == i,
    decreases i,
{
    if i > 0 {
        assert forall|j: int| 0 <= j < i - 1 implies is_white_space(#[trigger] s.drop_first()[j]) by {
            assert(s.drop_first()[j] == s[j + 1]);
        }
        lemma_leading_space(s.drop_first(), i - 1);
    }
}

proof fn lemma_leading_word(s: Seq<char>, i: int)
    requires
        0 <= i <= s.len(),
        forall|j: int| 0 <= j < i ==> !is_white_space(#[trigger] s[j]),
        i == s.len() || is_white_space(s[i]),
    ensures
        leading_word(s) == s.take(i),
    decreases i,
{
    if i > 0 {
        assert forall|j: int| 0 <= j < i - 1 implies !is_white_space(#[trigger] s.drop_first()[j]) by {
            assert(s.drop_first()[j] == s[j + 1]);
        }
        lemma_leading_word(s.drop_first(), i - 1);
        assert(seq![s[0]] + s.drop_first().take(i - 1) =~= s.take(i));
    } else {
        assert(s.take(0) =~= seq![]);
    }
}

/// Reads the audio-bitrate control, e.g. `128 kbps`.
pub fn parse_audio_kbps(label: &str) -> (r: u32)
    ensures
        r == audio_choice(label@),
{
    let chars = chars_of(label);
    let mut start: usize = 0;
    while start < chars.len() && white_space(chars[start])
        invariant
            start <= chars.len(),
            forall|j: int| 0 <= j < start ==> is_white_space(#[trigger] chars@[j]),
        decreases chars.len() - start,
    {
        start = start + 1;
    }
    proof {
        lemma_leading_space(chars@, start as int);
    }
    let ghost rest = chars@.skip(start as int);
    let mut end: usize = start;
    while end < chars.len() && !white_space(chars[end])
        invariant
            start <= end <= chars.len(),
            rest == chars@.skip(start as int),
            forall|j: int| start <= j < end ==> !is_white_space(#[trigger] chars@[j]),
        decreases chars.len() - end,
    {
        end = end + 1;
    }
    proof {
        assert forall|j: int| 0 <= j < end - start implies !is_white_space(#[trigger] rest[j]) by {
            assert(rest[j] == chars@[start + j]);
        }
        if end < chars.len() {
            assert(rest[end - start] == chars@[end as int]);
        }
        lemma_leading_word(rest, end - start);
    }
    let ghost word = chars@.subrange(start as int, end as int);
    assert(word =~= first_word(label@));
    // Skip an optional plus sign.
    let mut first = start;
    if first < end && chars[first] == '+' {
        first = first + 1;
    }
    let ghost digits = chars@.subrange(first as int, end as int);
    assert(digits =~= unsigned_digits(word));
    if first == end {
        return 128;
    }
    let mut value: u64 = 0;
    let mut i = first;
    while i < end
        invariant
            first <= i <= end <= chars.len(),
            chars@ == label@,
            start <= first,
            digits == chars@.subrange(first as int, end as int),
            word == first_word(label@),
            word == chars@.subrange(start as int, end as int),
            digits == unsigned_digits(word),
            digits.len() > 0,
            forall|j: int| first <= j < i ==> is_digit(#[trigger] chars@[j]),
            value == digits_value(chars@.subrange(first as int, i as int)),
            value <= u32::MAX,
        decreases end - i,
    {
        let c = chars[i];
        if !('0' <= c && c <= '9') {
            assert(!is_digit(digits[i - first]));
            assert(!all_digits(digits));
            return 128;
        }
        let code = c as u8;
        assert(code == c as int);
        let d = (code - 48) as u64;
        assert(chars@.subrange(first as int, i + 1).last() == c);
        assert(chars@.subrange(first as int, i + 1).drop_last() =~= chars@.subrange(first as int, i as int));
        let next = value * 10 + d;
        if next > 0xFFFF_FFFF {
            proof {
                assert(chars@.subrange(first as int, i + 1) =~= digits.take(i + 1 - first));
                if all_digits(digits) {
                    lemma_digits_grow(digits, (i + 1 - first) as int);
                    assert(digits_value(digits.take(i + 1 - first)) == next);
                }
                assert(parsed_u32(word) is None);
            }
            return 128;
        }
        value = next;
        i = i + 1;
    }
    assert(chars@.subrange(first as int, end as int) == digits);
    assert forall|j: int| 0 <= j < digits.len() implies is_digit(#[trigger] digits[j]) by {
        assert(digits[j] == chars@[first + j]);
    }
    value as u32
}

/// A run of digits is worth at least any of its prefixes.
proof fn lemma_digits_grow(d: Seq<char>, k: int)
    requires
        0 <= k <= d.len(),
        forall|j: int| 0 <= j < d.len() ==> is_digit(#[trigger] d[j]),
    ensures
        digits_value(d) >= digits_value(d.take(k)),
    decreases d.len(),
{
    if k < d.len() {
        assert(d.drop_last().take(k) =~= d.take(k));
        assert forall|j: int| 0 <= j < d.drop_last().len() implies is_digit(#[trigger] d.drop_last()[j]) by {
            assert(d.drop_last()[j] == d[j]);
        }
        lemma_digits_grow(d.drop_last(), k);
    } else {
        assert(d.take(k) =~= d);
    }
}

} // verus!

verus! {

/// `value.clamp(low, high)`.
pub open spec fn clamp(value: int, low: int, high: int) -> int {
    if value < low {
        low
    } else if value > high {
        high
    } else {
        value
    }
}

/// The worker count: the manual value held to 1..=16, or, automatically,
/// a quarter of the logical CPUs held to 1..=2 when software encoding is
/// forced and half of them held to 2..=4 otherwise.
pub open spec fn concurrency(
    auto_jobs: bool,
    manual_jobs: int,
    logical_cpus: nat,
    encoder_label: Seq<char>,
    use_hardware: bool,
) -> nat {
    if !auto_jobs {
        clamp(manual_jobs, 1, 16) as nat
    } else if starts_with(encoder_label, "Software"@) || !use_hardware {
        clamp(logical_cpus as int / 4, 1, 2) as nat
    } else {
        clamp(logical_cpus as int / 2, 2, 4) as nat
    }
}

/// Chooses a conservative automatic worker count or returns the manual value.
pub fn resolve_concurrency(
    auto_jobs: bool,
    manual_jobs: i32,
    logical_cpus: usize,
    encoder_label: &str,
    use_hardware: bool,
) -> (r: usize)
    ensures
        r == concurrency(auto_jobs, manual_jobs as int, logical_cpus as nat, encoder_label@, use_hardware),
        1 <= r <= 16,
{
    if !auto_jobs {
        return if manual_jobs < 1 {
            1
        } else if manual_jobs > 16 {
            16
        } else {
            manual_jobs as usize
        };
    }
    let software_forced = text_starts_with(encoder_label, "Software") || !use_hardware;
    if software_forced {
        let quarter = logical_cpus / 4;
        if quarter < 1 {
            1
        } else if quarter > 2 {
            2
        } else {
            quarter
        }
    } else {
        let half = logical_cpus / 2;
        if half < 2 {
            2
        } else if half > 4 {
            4
        } else {
            half
        }
    }
}

/// The settings controls, read as plain values.
pub struct Controls {
    /// The input folder field.
    pub input_path: String,
    /// Whether the input folder field names an existing folder.
    pub input_is_folder: bool,
    /// The output folder field.
    pub output_path: String,
    pub include_subdirectories: bool,
    pub target_mib: i32,
    pub max_resolution: String,
    pub codec: String,
    pub encoder: String,
    pub preset: String,
    pub audio_bitrate: String,
    pub auto_jobs: bool,
    pub jobs: i32,
    /// The machine's logical CPU count.
    pub logical_cpus: usize,
    pub overwrite_existing: bool,
    pub generate_contact_sheet: bool,
    pub skip_compliant: bool,
    pub use_hardware: bool,
    pub quality_strategy: String,
    pub retry_missed_target: bool,
    pub max_encode_attempts: i32,
}

/// Why the controls do not make a job.
#[derive(Debug, Clone, Copy, PartialEq, Eq, Structural)]
pub enum SettingsError {
    /// The input field does not name a folder.
    InvalidInputFolder,
    /// The output field is empty.
    MissingOutputFolder,
}

/// The message shown for a settings error.
pub open spec fn settings_error_text(error: SettingsError) -> Seq<char> {
    match error {
        SettingsError::InvalidInputFolder => "Choose a valid input folder."@,
        SettingsError::MissingOutputFolder => "Choose an output folder."@,
    }
}

impl SettingsError {
    /// The message shown for this error.
    pub fn message(&self) -> (r: &'static str)
        ensures
            r@ == settings_error_text(*self),
    {
        match self {
            SettingsError::InvalidInputFolder => "Choose a valid input folder.",
            SettingsError::MissingOutputFolder => "Choose an output folder.",
        }
    }
}

/// The job a valid set of controls describes.
pub open spec fn configured_from(config: JobConfig, controls: Controls) -> bool {
    &&& config.input@ == controls.input_path@
    &&& config.output@ == controls.output_path@
    &&& config.include_subdirectories == controls.include_subdirectories
    &&& config.target_mib == (if controls.target_mib < 50 { 50 } else { controls.target_mib as int })
    &&& (config.max_width, config.max_height) == resolution_choice(controls.max_resolution@)
    &&& config.codec == codec_choice(controls.codec@)
    &&& config.encoder_mode == encoder_mode_choice(controls.encoder@)
    &&& config.software_preset@ == preset_text(controls.preset@)
    &&& config.audio_kbps == audio_choice(controls.audio_bitrate@)
    &&& config.jobs == concurrency(
        controls.auto_jobs,
        controls.jobs as int,
        controls.logical_cpus as nat,
        controls.encoder@,
        controls.use_hardware,
    )
    &&& config.overwrite == controls.overwrite_existing
    &&& config.make_contact_sheet == controls.generate_contact_sheet
    &&& config.skip_compliant == controls.skip_compliant
    &&& config.use_hardware == controls.use_hardware
    &&& config.quality_strategy == strategy_choice(controls.quality_strategy@)
    &&& config.retry_missed_target == controls.retry_missed_target
    &&& config.max_encode_attempts == clamp(controls.max_encode_attempts as int, 1, 3)
}

/// Reads the controls and produces an immutable job configuration.
///
/// The input must be an existing folder and the output field must not be
/// empty; the target size is at least 50 MiB and the attempt count 1..=3.
pub fn job_config_from_controls(controls: &Controls) -> (r: Result<JobConfig, SettingsError>)
    ensures
        !controls.input_is_folder ==> r == Err::<JobConfig, SettingsError>(
            SettingsError::InvalidInputFolder,
        ),
        controls.input_is_folder && controls.output_path@.len() == 0 ==> r == Err::<
            JobConfig,
            SettingsError,
        >(SettingsError::MissingOutputFolder),
        controls.input_is_folder && controls.output_path@.len() > 0 ==> (r matches Ok(config)
            && configured_from(config, *controls)),
{
    if !controls.input_is_folder {
        return Err(SettingsError::InvalidInputFolder);
    }
    if controls.output_path.as_str().is_empty() {
        return Err(SettingsError::MissingOutputFolder);
    }
    let (max_width, max_height) = parse_max_resolution(controls.max_resolution.as_str());
    let target_mib: u64 = if controls.target_mib < 50 {
        50
    } else {
        controls.target_mib as u64
    };
    let max_encode_attempts: usize = if controls.max_encode_attempts < 1 {
        1
    } else if controls.max_encode_attempts > 3 {
        3
    } else {
        controls.max_encode_attempts as usize
    };
    Ok(JobConfig {
        input: controls.input_path.clone(),
        output: controls.output_path.clone(),
        include_subdirectories: controls.include_subdirectories,
        target_mib,
        max_width,
        max_height,
        codec: parse_codec(controls.codec.as_str()),
        encoder_mode: parse_encoder_mode(controls.encoder.as_str()),
        software_preset: normalize_preset(controls.preset.as_str()),
        audio_kbps: parse_audio_kbps(controls.audio_bitrate.as_str()),
        jobs: resolve_concurrency(
            controls.auto_jobs,
            controls.jobs,
            controls.logical_cpus,
            controls.encoder.as_str(),
            controls.use_hardware,
        ),
        overwrite: controls.overwrite_existing,
        make_contact_sheet: controls.generate_contact_sheet,
        skip_compliant: controls.skip_compliant,
        use_hardware: controls.use_hardware,
        quality_strategy: parse_quality_strategy(controls.quality_strategy.as_str()),
        retry_missed_target: controls.retry_missed_target,
        max_encode_attempts,
    })
}

} // verus!

verus! {

/// A job made from the controls always targets at least 50 MiB, allows one
/// to three encode attempts, and runs one to sixteen workers.
pub proof fn configured_jobs_are_bounded(config: JobConfig, controls: Controls)
    requires
        configured_from(config, controls),
    ensures
        config.target_mib >= 50,
        1 <= config.max_encode_attempts <= 3,
        1 <= config.jobs <= 16,
{
}

} // verus!
