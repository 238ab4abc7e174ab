//! FFmpeg encoder selection and the encoder's command-line arguments.

use crate::models::{Codec, EncoderMode, JobConfig, QualityStrategy};
use crate::text::{chars_of, contains_text, decimal, digit_char, occurs_at, occurs_in, spells};
use vstd::prelude::*;

verus! {

/// The software encoder for a codec.
pub open spec fn software_encoder_name(codec: Codec) -> Seq<char> {
    match codec {
        Codec::H264 => "libx264"@,
        Codec::H265 => "libx265"@,
    }
}

/// The Apple VideoToolbox encoder for a codec.
pub open spec fn hardware_encoder_name(codec: Codec) -> Seq<char> {
    match codec {
        Codec::H264 => "h264_videotoolbox"@,
        Codec::H265 => "hevc_videotoolbox"@,
    }
}

/// Returns the software encoder corresponding to the requested codec.
pub fn software_encoder(codec: Codec) -> (r: &'static str)
    ensures
        r@ == software_encoder_name(codec),
{
    match codec {
        Codec::H264 => "libx264",
        Codec::H265 => "libx265",
    }
}

/// Returns the Apple VideoToolbox encoder corresponding to the requested codec.
pub fn hardware_encoder(codec: Codec) -> (r: &'static str)
    ensures
        r@ == hardware_encoder_name(codec),
{
    match codec {
        Codec::H264 => "h264_videotoolbox",
        Codec::H265 => "hevc_videotoolbox",
    }
}

/// Why no encoder could be selected.
#[derive(Debug, Clone, Copy, PartialEq, Eq, Structural)]
pub enum EncoderError {
    /// VideoToolbox was required, but the installed FFmpeg lacks this encoder.
    MissingHardwareEncoder(Codec),
}

/// The text of an encoder error.
pub open spec fn encoder_error_text(error: EncoderError) -> Seq<char> {
    match error {
        EncoderError::MissingHardwareEncoder(codec) => "FFmpeg does not provide "@
            + hardware_encoder_name(codec),
    }
}

impl EncoderError {
    /// The message shown for this error.
    pub fn message(&self) -> (r: String)
        ensures
            r@ == encoder_error_text(*self),
    {
        match self {
            EncoderError::MissingHardwareEncoder(codec) => {
                let mut text = "FFmpeg does not provide ".to_owned();
                text.append(hardware_encoder(*codec));
                text
            },
        }
    }
}

/// The encoder choice: software when hardware use is off or Software mode is
/// chosen; VideoToolbox when it is forced and present (an error when it is
/// forced and absent); in Auto mode, VideoToolbox when present and software
/// otherwise.
pub open spec fn encoder_choice(
    codec: Codec,
    mode: EncoderMode,
    use_hardware: bool,
    hardware_available: bool,
) -> Result<Seq<char>, EncoderError> {
    if !use_hardware || mode == EncoderMode::Software {
        Ok(software_encoder_name(codec))
    } else if mode == EncoderMode::VideoToolbox {
        if hardware_available {
            Ok(hardware_encoder_name(codec))
        } else {
            Err(EncoderError::MissingHardwareEncoder(codec))
        }
    } else if hardware_available {
        Ok(hardware_encoder_name(codec))
    } else {
        Ok(software_encoder_name(codec))
    }
}

/// Makes the encoder-selection decision without launching an external process.
///
/// `hardware_available` says whether the installed FFmpeg lists the matching
/// VideoToolbox encoder.
pub fn select_encoder_name(config: &JobConfig, hardware_available: bool) -> (r: Result<&'static str, EncoderError>)
    ensures
        match r {
            Ok(name) => encoder_choice(config.codec, config.encoder_mode, config.use_hardware, hardware_available) == Ok::<Seq<char>, EncoderError>(name@),
            Err(e) => encoder_choice(config.codec, config.encoder_mode, config.use_hardware, hardware_available) == Err::<Seq<char>, EncoderError>(e),
        },
        config.use_hardware && config.encoder_mode != EncoderMode::Software && hardware_available ==> (r matches Ok(
            name,
        ) && name@ == hardware_encoder_name(config.codec)),
        config.use_hardware && config.encoder_mode == EncoderMode::Auto && !hardware_available ==> (r matches Ok(
            name,
        ) && name@ == software_encoder_name(config.codec)),
        (!config.use_hardware || config.encoder_mode == EncoderMode::Software) ==> (r matches Ok(name) && name@
            == software_encoder_name(config.codec)),
        r is Err <==> (config.use_hardware && config.encoder_mode == EncoderMode::VideoToolbox
            && !hardware_available),
{
    let software = software_encoder(config.codec);
    let hardware = hardware_encoder(config.codec);
    if !config.use_hardware || config.encoder_mode == EncoderMode::Software {
        return Ok(software);
    }
    match config.encoder_mode {
        EncoderMode::Software => Ok(software),
        EncoderMode::VideoToolbox => {
            if hardware_available {
                Ok(hardware)
            } else {
                Err(EncoderError::MissingHardwareEncoder(config.codec))
            }
        },
        EncoderMode::Auto => Ok(
            if hardware_available {
                hardware
            } else {
                software
            },
        ),
    }
}

/// The encoder never uses VideoToolbox when hardware use is off or Software
/// mode is chosen, fails only when VideoToolbox is forced and absent, and
/// always encodes the requested codec.
pub proof fn encoder_choice_honours_settings(
    codec: Codec,
    mode: EncoderMode,
    use_hardware: bool,
    hardware_available: bool,
)
    ensures
        (!use_hardware || mode == EncoderMode::Software) ==> encoder_choice(
            codec,
            mode,
            use_hardware,
            hardware_available,
        ) == Ok::<Seq<char>, EncoderError>(software_encoder_name(codec)),
        encoder_choice(codec, mode, use_hardware, hardware_available) is Err <==> (use_hardware
            && mode == EncoderMode::VideoToolbox && !hardware_available),
        encoder_choice(codec, mode, use_hardware, hardware_available) matches Ok(name) ==> (name
            == software_encoder_name(codec) || name == hardware_encoder_name(codec)),
{
}

/// The encoder for each setting, by name: with hardware use on and the
/// VideoToolbox encoder available, Auto and VideoToolbox modes pick
/// `h264_videotoolbox` for H.264 and `hevc_videotoolbox` for H.265; with it
/// unavailable Auto falls back to `libx264` / `libx265` and VideoToolbox mode
/// fails naming the codec; with hardware use off or Software mode, the
/// software encoder is picked.
pub proof fn encoder_names_for_each_setting(
    codec: Codec,
    mode: EncoderMode,
    use_hardware: bool,
    hardware_available: bool,
)
    ensures
        use_hardware && mode != EncoderMode::Software && hardware_available ==> encoder_choice(
            codec,
            mode,
            use_hardware,
            hardware_available,
        ) == Ok::<Seq<char>, EncoderError>(
            if codec == Codec::H264 {
                "h264_videotoolbox"@
            } else {
                "hevc_videotoolbox"@
            },
        ),
        use_hardware && mode == EncoderMode::Auto && !hardware_available ==> encoder_choice(
            codec,
            mode,
            use_hardware,
            hardware_available,
        ) == Ok::<Seq<char>, EncoderError>(
            if codec == Codec::H264 {
                "libx264"@
            } else {
                "libx265"@
            },
        ),
        use_hardware && mode == EncoderMode::VideoToolbox && !hardware_available ==> encoder_choice(
            codec,
            mode,
            use_hardware,
            hardware_available,
        ) == Err::<Seq<char>, EncoderError>(EncoderError::MissingHardwareEncoder(codec)),
        (!use_hardware || mode == EncoderMode::Software) ==> encoder_choice(
            codec,
            mode,
            use_hardware,
            hardware_available,
        ) == Ok::<Seq<char>, EncoderError>(
            if codec == Codec::H264 {
                "libx264"@
            } else {
                "libx265"@
            },
        ),
{
}

/// The bytes of an ASCII name.
pub open spec fn ascii_bytes(name: Seq<char>) -> Seq<u8> {
    name.map_values(|c: char| c as u8)
}

/// Whether FFmpeg's `-encoders` listing names the VideoToolbox encoder for
/// `codec`: a byte-for-byte search for the (ASCII) encoder name, which finds
/// it exactly where a search of the listing decoded as UTF-8 would.
pub fn lists_hardware_encoder(listing: &[u8], codec: Codec) -> (r: bool)
    ensures
        r == occurs_in(listing@, ascii_bytes(hardware_encoder_name(codec))),
{
    let name = chars_of(hardware_encoder(codec));
    let ghost needle = ascii_bytes(name@);
    if name.len() > listing.len() {
        assert(!occurs_in(listing@, needle)) by {
            if occurs_in(listing@, needle) {
                let at = choose|at: int| occurs_at(listing@, needle, at);
            }
        }
        return false;
    }
    let mut at: usize = 0;
    while at <= listing.len() - name.len()
        invariant
            needle == ascii_bytes(name@),
            name@ == hardware_encoder_name(codec),
            name.len() <= listing.len(),
            at <= listing.len() - name.len() + 1,
            forall|k: int| 0 <= k < at ==> !occurs_at(listing@, needle, k),
        decreases listing.len() - at,
    {
        let mut j: usize = 0;
        let mut matched = true;
        while j < name.len()
            invariant
                needle == ascii_bytes(name@),
                at + name.len() <= listing.len(),
                j <= name.len(),
                matched ==> forall|i: int| 0 <= i < j ==> listing@[at + i] == needle[i],
                !matched ==> !occurs_at(listing@, needle, at as int),
            decreases name.len() - j,
        {
            if listing[at + j] != #[verifier::truncate] (name[j] as u8) {
                matched = false;
            }
            j = j + 1;
        }
        if matched {
            assert(occurs_at(listing@, needle, at as int));
            return true;
        }
        at = at + 1;
    }
    assert(!occurs_in(listing@, needle)) by {
        if occurs_in(listing@, needle) {
            let k = choose|k: int| occurs_at(listing@, needle, k);
            assert(!occurs_at(listing@, needle, k));
        }
    }
    false
}

/// Whether a software preset is one of the fast ones.
pub open spec fn is_fast_preset(preset: Seq<char>) -> bool {
    preset == "ultrafast"@ || preset == "superfast"@ || preset == "veryfast"@
}

/// The preset handed to a software encoder: Fastest Encode replaces any slow
/// preset with `veryfast`; other strategies keep the chosen one.
pub open spec fn effective_preset(strategy: QualityStrategy, preset: Seq<char>) -> Seq<char> {
    if strategy == QualityStrategy::FastestEncode && !is_fast_preset(preset) {
        "veryfast"@
    } else {
        preset
    }
}

/// Fastest Encode should not accidentally use a slow software preset.
pub fn effective_software_preset(config: &JobConfig) -> (r: &str)
    ensures
        r@ == effective_preset(config.quality_strategy, config.software_preset@),
{
    let preset = &config.software_preset;
    if config.quality_strategy == QualityStrategy::FastestEncode && !(spells(preset, "ultrafast")
        || spells(preset, "superfast") || spells(preset, "veryfast")) {
        "veryfast"
    } else {
        preset.as_str()
    }
}

/// Under Fastest Encode the software preset is always a fast one.
pub proof fn fastest_encode_uses_fast_preset(preset: Seq<char>)
    ensures
        is_fast_preset(effective_preset(QualityStrategy::FastestEncode, preset)),
{
}

/// `{text}k`.
pub open spec fn kilobits(kbps: nat) -> Seq<char> {
    decimal(kbps) + "k"@
}

/// `scale={w}:{h}:force_divisible_by=2`.
pub open spec fn scale_filter_text(width: nat, height: nat) -> Seq<char> {
    "scale="@ + decimal(width) + ":"@ + decimal(height) + ":force_divisible_by=2"@
}

/// The arguments that set the encoder's rate control: a VideoToolbox
/// encoder gets the bitrate, permission to fall back to software, and for
/// H.265 the `hvc1` tag; a software encoder gets its preset and the bitrate.
pub open spec fn rate_arguments(encoder: Seq<char>, video_bps: nat, config: JobConfig) -> Seq<Seq<char>> {
    if occurs_in(encoder, "videotoolbox"@) {
        seq!["-b:v"@, decimal(video_bps), "-allow_sw"@, "1"@] + if config.codec == Codec::H265 {
            seq!["-tag:v"@, "hvc1"@]
        } else {
            seq![]
        }
    } else {
        seq![
            "-preset"@,
            effective_preset(config.quality_strategy, config.software_preset@),
            "-b:v"@,
            decimal(video_bps),
        ]
    }
}

/// The FFmpeg arguments that follow the input file and precede the output
/// file of one encode attempt.
pub open spec fn encode_argument_list(
    encoder: Seq<char>,
    video_bps: nat,
    output_width: nat,
    output_height: nat,
    config: JobConfig,
) -> Seq<Seq<char>> {
    seq![
        "-map"@,
        "0:v:0"@,
        "-map"@,
        "0:a:0?"@,
        "-vf"@,
        scale_filter_text(output_width, output_height),
        "-c:v"@,
        encoder,
    ] + rate_arguments(encoder, video_bps, config) + seq![
        "-c:a"@,
        "aac"@,
        "-b:a"@,
        kilobits(config.audio_kbps as nat),
        "-movflags"@,
        "+faststart"@,
        "-progress"@,
        "pipe:1"@,
        "-nostats"@,
    ]
}

/// A decimal numeral starts with a digit.
proof fn lemma_decimal_starts_with_digit(n: nat)
    ensures
        decimal(n).len() >= 1,
        '0' <= decimal(n)[0] <= '9',
    decreases n,
{
    if n >= 10 {
        lemma_decimal_starts_with_digit(n / 10);
    }
}

/// The `hvc1` tag (which marks a stream as HEVC for Apple players) follows
/// the rate arguments only for H.265 on a VideoToolbox encoder. For H.264
/// the list has its 21 items with the audio codec right after the four rate
/// arguments, and with a VideoToolbox encoder no item is `-tag:v` or `hvc1`;
/// for H.265 on VideoToolbox the list has 23 items with `-tag:v hvc1` at
/// positions 12 and 13; a software encoder is never tagged.
pub proof fn hvc1_tag_only_for_hevc_hardware(
    encoder: Seq<char>,
    video_bps: nat,
    output_width: nat,
    output_height: nat,
    config: JobConfig,
)
    ensures
        config.codec == Codec::H264 ==> encode_argument_list(encoder, video_bps, output_width, output_height, config).len()
            == 21 && encode_argument_list(encoder, video_bps, output_width, output_height, config)[12] == "-c:a"@,
        config.codec == Codec::H264 && occurs_in(encoder, "videotoolbox"@) ==> forall|i: int|
            0 <= i < 21 ==> #[trigger] encode_argument_list(
                encoder,
                video_bps,
                output_width,
                output_height,
                config,
            )[i] != "-tag:v"@ && encode_argument_list(encoder, video_bps, output_width, output_height, config)[i]
                != "hvc1"@,
        config.codec == Codec::H265 && occurs_in(encoder, "videotoolbox"@) ==> encode_argument_list(
            encoder,
            video_bps,
            output_width,
            output_height,
            config,
        ).len() == 23 && encode_argument_list(encoder, video_bps, output_width, output_height, config)[12]
            == "-tag:v"@ && encode_argument_list(encoder, video_bps, output_width, output_height, config)[13]
            == "hvc1"@,
        !occurs_in(encoder, "videotoolbox"@) ==> encode_argument_list(
            encoder,
            video_bps,
            output_width,
            output_height,
            config,
        ).len() == 21 && encode_argument_list(encoder, video_bps, output_width, output_height, config)[12]
            == "-c:a"@,
{
    let list = encode_argument_list(encoder, video_bps, output_width, output_height, config);
    let scale = scale_filter_text(output_width, output_height);
    let bps = decimal(video_bps);
    let audio = kilobits(config.audio_kbps as nat);
    if occurs_in(encoder, "videotoolbox"@) {
        if config.codec == Codec::H264 {
            let items = seq![
                "-map"@,
                "0:v:0"@,
                "-map"@,
                "0:a:0?"@,
                "-vf"@,
                scale,
                "-c:v"@,
                encoder,
                "-b:v"@,
                bps,
                "-allow_sw"@,
                "1"@,
                "-c:a"@,
                "aac"@,
                "-b:a"@,
                audio,
                "-movflags"@,
                "+faststart"@,
                "-progress"@,
                "pipe:1"@,
                "-nostats"@,
            ];
            assert(list =~= items);
            reveal_strlit("-tag:v");
            reveal_strlit("hvc1");
            reveal_strlit("-map");
            reveal_strlit("0:v:0");
            reveal_strlit("0:a:0?");
            reveal_strlit("-vf");
            reveal_strlit("scale=");
            reveal_strlit("-c:v");
            reveal_strlit("-b:v");
            reveal_strlit("-allow_sw");
            reveal_strlit("1");
            reveal_strlit("-c:a");
            reveal_strlit("aac");
            reveal_strlit("-b:a");
            reveal_strlit("-movflags");
            reveal_strlit("+faststart");
            reveal_strlit("-progress");
            reveal_strlit("pipe:1");
            reveal_strlit("-nostats");
            reveal_strlit("videotoolbox");
            lemma_decimal_starts_with_digit(video_bps);
            lemma_decimal_starts_with_digit(config.audio_kbps as nat);
            assert(scale[0] == 's');
            assert(audio[0] == decimal(config.audio_kbps as nat)[0]);
            let at = choose|at: int| occurs_at(encoder, "videotoolbox"@, at);
            assert(encoder.len() >= 12);
            assert forall|i: int| 0 <= i < 21 implies #[trigger] list[i] != "-tag:v"@ && list[i] != "hvc1"@ by {
                if i == 5 {
                    assert(list[i][0] != "-tag:v"@[0]);
                    assert(list[i][0] != "hvc1"@[0]);
                } else if i == 9 {
                    assert(list[i][0] != "-tag:v"@[0]);
                    assert(list[i][0] != "hvc1"@[0]);
                } else if i == 15 {
                    assert(list[i][0] != "-tag:v"@[0]);
                    assert(list[i][0] != "hvc1"@[0]);
                } else if i == 7 {
                    assert(list[i].len() != "-tag:v"@.len());
                    assert(list[i].len() != "hvc1"@.len());
                } else {
                    assert(list[i].len() != "-tag:v"@.len() || list[i][0] != '-' || list[i][1] != 't');
                    assert(list[i].len() != "hvc1"@.len() || list[i][0] != 'h');
                }
            }
        }
    }
}

/// Builds a one-element argument from a literal.
fn arg(text: &str) -> (r: String)
    ensures
        r@ == text@,
{
    text.to_owned()
}

/// Builds the FFmpeg arguments for one encode attempt (after `-i <input>`,
/// before the partial output path).
pub fn encode_arguments(
    encoder: &str,
    video_bps: u64,
    output_width: u32,
    output_height: u32,
    config: &JobConfig,
) -> (r: Vec<String>)
    ensures
        r.deep_view() == encode_argument_list(
            encoder@,
            video_bps as nat,
            output_width as nat,
            output_height as nat,
            *config,
        ),
        config.codec == Codec::H264 ==> r.len() == 21 && r@[12]@ == "-c:a"@,
        config.codec == Codec::H265 && occurs_in(encoder@, "videotoolbox"@) ==> r.len() == 23 && r@[12]@
            == "-tag:v"@ && r@[13]@ == "hvc1"@,
{
    proof {
        hvc1_tag_only_for_hevc_hardware(encoder@, video_bps as nat, output_width as nat, output_height as nat, *config);
    }
    let mut args: Vec<String> = Vec::new();
    args.push(arg("-map"));
    args.push(arg("0:v:0"));
    args.push(arg("-map"));
    args.push(arg("0:a:0?"));
    args.push(arg("-vf"));
    let mut scale = arg("scale=");
    crate::text::push_decimal(&mut scale, output_width as u64);
    scale.append(":");
    crate::text::push_decimal(&mut scale, output_height as u64);
    scale.append(":force_divisible_by=2");
    args.push(scale);
    args.push(arg("-c:v"));
    args.push(arg(encoder));
    let ghost head = args.deep_view();
    if contains_text(encoder, "videotoolbox") {
        args.push(arg("-b:v"));
        args.push(crate::text::decimal_string(video_bps));
        args.push(arg("-allow_sw"));
        args.push(arg("1"));
        if config.codec == Codec::H265 {
            args.push(arg("-tag:v"));
            args.push(arg("hvc1"));
        }
    } else {
        let preset = effective_software_preset(config);
        args.push(arg("-preset"));
        args.push(arg(preset));
        args.push(arg("-b:v"));
        args.push(crate::text::decimal_string(video_bps));
    }
    let ghost middle = args.deep_view();
    args.push(arg("-c:a"));
    args.push(arg("aac"));
    args.push(arg("-b:a"));
    let mut audio = crate::text::decimal_string(config.audio_kbps as u64);
    audio.append("k");
    args.push(audio);
    args.push(arg("-movflags"));
    args.push(arg("+faststart"));
    args.push(arg("-progress"));
    args.push(arg("pipe:1"));
    args.push(arg("-nostats"));
    assert(args.deep_view() =~= encode_argument_list(
        encoder@,
        video_bps as nat,
        output_width as nat,
        output_height as nat,
        *config,
    ));
    args
}

} // verus!
