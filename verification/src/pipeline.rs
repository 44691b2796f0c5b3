//! Command lines of the capture and encoding processes. Arguments are passed as they stand,
//! never through a shell.

use crate::alac::PCM_BYTES;
use crate::failure::Failure;
use crate::media::{access_unit, all_nonempty, owned, VideoEncoder, VideoFrame};
use crate::settings::{VideoConfig, VideoQuality};
use crate::text::{
    decimal, decimal_text, push_decimal, push_owned, push_signed, push_text, signed_decimal, texts,
};
use vstd::prelude::*;
use vstd::string::*;

verus! {

/// Where the pictures come from.
#[derive(Clone, Copy)]
pub enum Source<'a> {
    Screen(SharedScreen),
    /// A generated picture; the given description, or a moving test card.
    Synthetic(Option<&'a str>),
}

/// Command lines for one video stream, and the size of its pictures.
pub struct VideoCapture {
    /// The capture process, where a screen is shared.
    pub capture: Option<Vec<String>>,
    /// The encoder's arguments up to the render device, which follows them where one is used.
    pub encoder_start: Vec<String>,
    /// The encoder's remaining arguments.
    pub encoder_rest: Vec<String>,
    pub width: u32,
    pub height: u32,
}

/// A shared screen: the descriptor of the capture service and the node to read there.
#[derive(Clone, Copy)]
pub struct SharedScreen {
    pub descriptor: i32,
    pub node: u32,
}

/// Rate limiting first, then conversion and scaling in one step.
pub open spec fn filter_words(config: VideoConfig) -> Seq<Seq<char>> {
    seq![
        "videorate"@,
        "!"@,
        "video/x-raw,framerate="@ + decimal(config.fps as nat) + "/1"@,
        "!"@,
        "videoconvertscale"@,
        "add-borders=true"@,
        "!"@,
        "video/x-raw,format=I420,width="@ + decimal(config.width as nat) + ",height="@ + decimal(
            config.height as nat,
        ) + ",framerate="@ + decimal(config.fps as nat) + "/1"@,
    ]
}

/// The filters between a shared screen and the encoder.
pub fn screen_video_filters(config: VideoConfig) -> (r: [String; 8])
    ensures
        texts(r@) == filter_words(config),
{
    let mut rate = "video/x-raw,framerate=".to_owned();
    push_decimal(&mut rate, config.fps as u64);
    rate.append("/1");
    let mut format = "video/x-raw,format=I420,width=".to_owned();
    push_decimal(&mut format, config.width as u64);
    format.append(",height=");
    push_decimal(&mut format, config.height as u64);
    format.append(",framerate=");
    push_decimal(&mut format, config.fps as u64);
    format.append("/1");
    let r = [
        "videorate".to_owned(),
        "!".to_owned(),
        rate,
        "!".to_owned(),
        "videoconvertscale".to_owned(),
        "add-borders=true".to_owned(),
        "!".to_owned(),
        format,
    ];
    assert(texts(r@) =~= filter_words(config));
    r
}

/// The arguments of the screen capture process.
pub open spec fn capture_words(descriptor: int, node: nat, config: VideoConfig) -> Seq<Seq<char>> {
    seq![
        "-q"@,
        "pipewiresrc"@,
        "fd="@ + signed_decimal(descriptor),
        "path="@ + decimal(node),
        "do-timestamp=true"@,
        "keepalive-time="@ + decimal((1000int / config.fps as int) as nat),
        "!"@,
        "queue"@,
        "max-size-buffers=1"@,
        "max-size-bytes=0"@,
        "max-size-time=0"@,
        "leaky=downstream"@,
        "!"@,
    ] + filter_words(config) + seq!["!"@, "y4menc"@, "!"@, "fdsink"@, "fd=1"@, "sync=false"@]
}

fn capture_arguments(descriptor: i32, node: u32, config: VideoConfig) -> (r: Vec<String>)
    requires
        config.fps > 0,
    ensures
        texts(r@) == capture_words(descriptor as int, node as nat, config),
{
    let mut fd = "fd=".to_owned();
    push_signed(&mut fd, descriptor);
    let mut path = "path=".to_owned();
    push_decimal(&mut path, node as u64);
    let mut keepalive = "keepalive-time=".to_owned();
    push_decimal(&mut keepalive, (1000 / config.fps) as u64);
    let mut r: Vec<String> = Vec::new();
    push_text(&mut r, "-q");
    push_text(&mut r, "pipewiresrc");
    push_owned(&mut r, fd);
    push_owned(&mut r, path);
    push_text(&mut r, "do-timestamp=true");
    push_owned(&mut r, keepalive);
    push_text(&mut r, "!");
    push_text(&mut r, "queue");
    push_text(&mut r, "max-size-buffers=1");
    push_text(&mut r, "max-size-bytes=0");
    push_text(&mut r, "max-size-time=0");
    push_text(&mut r, "leaky=downstream");
    push_text(&mut r, "!");
    let filters = screen_video_filters(config);
    let ghost before = texts(r@);
    let mut at: usize = 0;
    while at < 8
        invariant
            at <= 8,
            texts(filters@) == filter_words(config),
            texts(r@) == before + filter_words(config).take(at as int),
        decreases 8 - at,
    {
        assert(texts(filters@)[at as int] == filters@[at as int]@);
        push_text(&mut r, filters[at].as_str());
        assert(texts(r@) =~= before + filter_words(config).take(at + 1));
        at = at + 1;
    }
    assert(filter_words(config).take(8) == filter_words(config));
    push_text(&mut r, "!");
    push_text(&mut r, "y4menc");
    push_text(&mut r, "!");
    push_text(&mut r, "fdsink");
    push_text(&mut r, "fd=1");
    push_text(&mut r, "sync=false");
    assert(texts(r@) =~= capture_words(descriptor as int, node as nat, config));
    r
}

/// The encoder's arguments up to the render device.
pub open spec fn encoder_start_words(encoder: VideoEncoder) -> Seq<Seq<char>> {
    let quiet = seq!["-hide_banner"@, "-loglevel"@, "error"@, "-nostdin"@];
    match encoder {
        VideoEncoder::Software => quiet,
        VideoEncoder::Vaapi(_) => quiet + seq!["-vaapi_device"@],
    }
}

/// The moving test card at the configured size and rate.
pub open spec fn test_card(config: VideoConfig) -> Seq<char> {
    "testsrc2=size="@ + decimal(config.width as nat) + "x"@ + decimal(config.height as nat)
        + ":rate="@ + decimal(config.fps as nat)
}

/// Where the encoder reads from.
pub open spec fn input_words(source: Source, config: VideoConfig) -> Seq<Seq<char>> {
    match source {
        Source::Screen(_) => seq![
            "-probesize"@,
            "32"@,
            "-analyzeduration"@,
            "1"@,
            "-f"@,
            "yuv4mpegpipe"@,
            "-i"@,
            "pipe:0"@,
        ],
        Source::Synthetic(description) => seq![
            "-re"@,
            "-f"@,
            "lavfi"@,
            "-i"@,
            match description {
                Some(text) => text@,
                None => test_card(config),
            },
        ],
    }
}

/// Codec settings: constant quality in software, three quarters of the bit rate cap in hardware.
pub open spec fn codec_words(encoder: VideoEncoder, config: VideoConfig) -> Seq<Seq<char>> {
    match encoder {
        VideoEncoder::Software => seq![
            "-c:v"@,
            "libx264"@,
            "-preset"@,
            config.preset@,
            "-tune"@,
            "zerolatency"@,
            "-pix_fmt"@,
            "yuv420p"@,
            "-crf"@,
            decimal(config.crf as nat),
            "-x264-params"@,
            "aud=1:repeat-headers=1:scenecut=0"@,
        ],
        VideoEncoder::Vaapi(_) => seq![
            "-vf"@,
            "format=nv12,hwupload"@,
            "-c:v"@,
            "h264_vaapi"@,
            "-rc_mode"@,
            "VBR"@,
            "-b:v"@,
            decimal((config.max_kbps * 3 / 4) as nat) + "k"@,
            "-async_depth"@,
            "1"@,
            "-aud"@,
            "1"@,
        ],
    }
}

/// Rate limits, keyframe interval and the two outputs: packet lengths and the packets.
pub open spec fn output_words(config: VideoConfig, metadata: int) -> Seq<Seq<char>> {
    seq![
        "-an"@,
        "-profile:v"@,
        "main"@,
        "-maxrate"@,
        decimal(config.max_kbps as nat) + "k"@,
        "-bufsize"@,
        decimal(config.buffer_kbps as nat) + "k"@,
        "-g"@,
        decimal(config.fps as nat),
        "-bf"@,
        "0"@,
        "-map"@,
        "0:v:0"@,
        "-f"@,
        "tee"@,
        "[f=framecrc:flush_packets=1]pipe:"@ + signed_decimal(metadata)
            + "|[f=h264:flush_packets=1]pipe:1"@,
    ]
}

fn push_kilobits(list: &mut Vec<String>, rate: u32)
    ensures
        texts(final(list)@) == texts(old(list)@).push(decimal(rate as nat) + "k"@),
{
    let mut text = decimal_text(rate as u64);
    text.append("k");
    push_owned(list, text);
}

fn push_codec(list: &mut Vec<String>, encoder: &VideoEncoder, config: VideoConfig)
    requires
        *encoder is Vaapi ==> config.max_kbps * 3 <= u32::MAX,
    ensures
        texts(final(list)@) == texts(old(list)@) + codec_words(*encoder, config),
{
    match encoder {
        VideoEncoder::Software => {
            push_text(list, "-c:v");
            push_text(list, "libx264");
            push_text(list, "-preset");
            push_text(list, config.preset);
            push_text(list, "-tune");
            push_text(list, "zerolatency");
            push_text(list, "-pix_fmt");
            push_text(list, "yuv420p");
            push_text(list, "-crf");
            push_owned(list, decimal_text(config.crf as u64));
            push_text(list, "-x264-params");
            push_text(list, "aud=1:repeat-headers=1:scenecut=0");
        },
        VideoEncoder::Vaapi(_) => {
            push_text(list, "-vf");
            push_text(list, "format=nv12,hwupload");
            push_text(list, "-c:v");
            push_text(list, "h264_vaapi");
            push_text(list, "-rc_mode");
            push_text(list, "VBR");
            push_text(list, "-b:v");
            push_kilobits(list, config.max_kbps * 3 / 4);
            push_text(list, "-async_depth");
            push_text(list, "1");
            push_text(list, "-aud");
            push_text(list, "1");
        },
    }
    assert(texts(list@) =~= texts(old(list)@) + codec_words(*encoder, config));
}

fn push_output(list: &mut Vec<String>, config: VideoConfig, metadata: i32)
    ensures
        texts(final(list)@) == texts(old(list)@) + output_words(config, metadata as int),
{
    let mut outputs = "[f=framecrc:flush_packets=1]pipe:".to_owned();
    push_signed(&mut outputs, metadata);
    outputs.append("|[f=h264:flush_packets=1]pipe:1");
    push_text(list, "-an");
    push_text(list, "-profile:v");
    push_text(list, "main");
    push_text(list, "-maxrate");
    push_kilobits(list, config.max_kbps);
    push_text(list, "-bufsize");
    push_kilobits(list, config.buffer_kbps);
    push_text(list, "-g");
    push_owned(list, decimal_text(config.fps as u64));
    push_text(list, "-bf");
    push_text(list, "0");
    push_text(list, "-map");
    push_text(list, "0:v:0");
    push_text(list, "-f");
    push_text(list, "tee");
    push_owned(list, outputs);
    assert(texts(list@) =~= texts(old(list)@) + output_words(config, metadata as int));
}

fn push_input(list: &mut Vec<String>, source: Source, config: VideoConfig)
    ensures
        texts(final(list)@) == texts(old(list)@) + input_words(source, config),
{
    match source {
        Source::Screen(_) => {
            push_text(list, "-probesize");
            push_text(list, "32");
            push_text(list, "-analyzeduration");
            push_text(list, "1");
            push_text(list, "-f");
            push_text(list, "yuv4mpegpipe");
            push_text(list, "-i");
            push_text(list, "pipe:0");
        },
        Source::Synthetic(description) => {
            push_text(list, "-re");
            push_text(list, "-f");
            push_text(list, "lavfi");
            push_text(list, "-i");
            match description {
                Some(text) => {
                    push_text(list, text);
                },
                None => {
                    let mut card = "testsrc2=size=".to_owned();
                    push_decimal(&mut card, config.width as u64);
                    card.append("x");
                    push_decimal(&mut card, config.height as u64);
                    card.append(":rate=");
                    push_decimal(&mut card, config.fps as u64);
                    push_owned(list, card);
                },
            }
        },
    }
    assert(texts(list@) =~= texts(old(list)@) + input_words(source, config));
}

/// What a stream with these settings is refused for.
pub open spec fn refusal(config: VideoConfig) -> Option<Failure> {
    if !config.valid_dimensions() {
        Some(Failure::VideoDimensions)
    } else if !config.valid_encoding() {
        Some(Failure::VideoEncoding)
    } else {
        None
    }
}

/// The settings leave room to compute the hardware encoder's target.
pub open spec fn within_limits(config: VideoConfig, encoder: VideoEncoder) -> bool {
    encoder is Vaapi && refusal(config) is None ==> config.max_kbps * 3 <= u32::MAX
}

impl VideoCapture {
    /// The processes are those of a stream with the given settings.
    pub open spec fn runs(
        self,
        source: Source,
        config: VideoConfig,
        encoder: VideoEncoder,
        metadata: int,
    ) -> bool {
        &&& match source {
            Source::Screen(screen) => self.capture matches Some(words) && texts(words@)
                == capture_words(screen.descriptor as int, screen.node as nat, config),
            Source::Synthetic(_) => self.capture is None,
        }
        &&& texts(self.encoder_start@) == encoder_start_words(encoder)
        &&& texts(self.encoder_rest@) == input_words(source, config) + codec_words(encoder, config)
            + output_words(config, metadata)
        &&& self.width == config.width
        &&& self.height == config.height
    }

    /// Plans a stream in the efficient preset at another size, encoded in software.
    pub fn start(screen: Option<SharedScreen>, width: u32, height: u32, metadata: i32) -> (r: Result<
        VideoCapture,
        Failure,
    >)
        ensures
            ({
                let config = VideoConfig { width, height, ..VideoQuality::Efficient.preset() };
                match refusal(config) {
                    Some(failure) => r matches Err(error) && error == failure,
                    None => r matches Ok(capture) && capture.runs(
                        chosen(screen),
                        config,
                        VideoEncoder::Software,
                        metadata as int,
                    ),
                }
            }),
    {
        let mut config = VideoQuality::Efficient.config();
        config.width = width;
        config.height = height;
        Self::start_config(screen, config, metadata)
    }

    /// Plans a stream that is encoded in software.
    pub fn start_config(screen: Option<SharedScreen>, config: VideoConfig, metadata: i32) -> (r:
        Result<VideoCapture, Failure>)
        ensures
            match refusal(config) {
                Some(failure) => r matches Err(error) && error == failure,
                None => r matches Ok(capture) && capture.runs(
                    chosen(screen),
                    config,
                    VideoEncoder::Software,
                    metadata as int,
                ),
            },
    {
        Self::start_with_encoder(screen, config, &VideoEncoder::Software, metadata)
    }

    /// Plans a stream of a shared screen, or of a test card where none is shared.
    pub fn start_with_encoder(
        screen: Option<SharedScreen>,
        config: VideoConfig,
        encoder: &VideoEncoder,
        metadata: i32,
    ) -> (r: Result<VideoCapture, Failure>)
        requires
            within_limits(config, *encoder),
        ensures
            match refusal(config) {
                Some(failure) => r matches Err(error) && error == failure,
                None => r matches Ok(capture) && capture.runs(
                    chosen(screen),
                    config,
                    *encoder,
                    metadata as int,
                ),
            },
    {
        match screen {
            Some(screen) => Self::start_pipeline(config, Source::Screen(screen), encoder, metadata),
            None => Self::start_pipeline(config, Source::Synthetic(None), encoder, metadata),
        }
    }

    /// Plans a stream, where its settings are valid. `metadata` is the descriptor on which the
    /// encoder tells packet lengths.
    pub fn start_pipeline(
        config: VideoConfig,
        source: Source,
        encoder: &VideoEncoder,
        metadata: i32,
    ) -> (r: Result<VideoCapture, Failure>)
        requires
            within_limits(config, *encoder),
        ensures
            match refusal(config) {
                Some(failure) => r matches Err(error) && error == failure,
                None => r matches Ok(capture) && capture.runs(
                    source,
                    config,
                    *encoder,
                    metadata as int,
                ),
            },
    {
        match config.validate() {
            Ok(()) => {},
            Err(error) => {
                return Err(error);
            },
        }
        let capture = match source {
            Source::Screen(screen) => Some(
                capture_arguments(screen.descriptor, screen.node, config),
            ),
            Source::Synthetic(_) => None,
        };
        let mut encoder_start: Vec<String> = Vec::new();
        push_text(&mut encoder_start, "-hide_banner");
        push_text(&mut encoder_start, "-loglevel");
        push_text(&mut encoder_start, "error");
        push_text(&mut encoder_start, "-nostdin");
        match encoder {
            VideoEncoder::Software => {},
            VideoEncoder::Vaapi(_) => {
                push_text(&mut encoder_start, "-vaapi_device");
            },
        }
        assert(texts(encoder_start@) =~= encoder_start_words(*encoder));
        let mut encoder_rest: Vec<String> = Vec::new();
        push_input(&mut encoder_rest, source, config);
        push_codec(&mut encoder_rest, encoder, config);
        push_output(&mut encoder_rest, config, metadata);
        assert(texts(encoder_rest@) =~= input_words(source, config) + codec_words(*encoder, config)
            + output_words(config, metadata as int));
        Ok(
            VideoCapture {
                capture,
                encoder_start,
                encoder_rest,
                width: config.width,
                height: config.height,
            },
        )
    }

    /// The units of an encoded packet, each on its own.
    pub fn frame(packet: Vec<u8>) -> (r: Result<Vec<Vec<u8>>, Failure>)
        ensures
            match access_unit(packet@) {
                Ok(units) => r matches Ok(parts) && owned(parts@) == units && all_nonempty(units),
                Err(failure) => r matches Err(error) && error == failure,
            },
    {
        match VideoFrame::from_packet(packet) {
            Ok(frame) => Ok(frame.to_units()),
            Err(failure) => Err(failure),
        }
    }
}

/// The source of a stream: a shared screen, or a test card where none is shared.
pub open spec fn chosen(screen: Option<SharedScreen>) -> Source<'static> {
    match screen {
        Some(screen) => Source::Screen(screen),
        None => Source::Synthetic(None),
    }
}

/// The hardware encoder aims at three quarters of the bit rate cap, and never above it.
pub proof fn hardware_target_is_below_cap(config: VideoConfig)
    ensures
        config.max_kbps * 3 / 4 <= config.max_kbps,
        4 * (config.max_kbps * 3 / 4) <= 3 * config.max_kbps < 4 * (config.max_kbps * 3 / 4) + 4,
{
}

/// The arguments of the system audio capture process: the monitor of the default output, as
/// 16-bit stereo at 44.1 kHz.
pub open spec fn audio_words() -> Seq<Seq<char>> {
    seq![
        "--record"@,
        "--raw"@,
        "--rate"@,
        "44100"@,
        "--channels"@,
        "2"@,
        "--format"@,
        "s16"@,
        "--latency"@,
        "20ms"@,
        "--properties"@,
        "{ stream.capture.sink = true node.name = spielab-audio }"@,
        "-"@,
    ]
}

/// The command line of the system audio capture, and how many bytes one block has.
pub struct AudioCapture {
    pub arguments: Vec<String>,
    pub block: usize,
}

impl AudioCapture {
    pub fn start() -> (r: Self)
        ensures
            texts(r.arguments@) == audio_words(),
            r.block == PCM_BYTES,
    {
        AudioCapture { arguments: audio_arguments(), block: PCM_BYTES }
    }
}

fn audio_arguments() -> (r: Vec<String>)
    ensures
        texts(r@) == audio_words(),
{
    let mut r: Vec<String> = Vec::new();
    push_text(&mut r, "--record");
    push_text(&mut r, "--raw");
    push_text(&mut r, "--rate");
    push_text(&mut r, "44100");
    push_text(&mut r, "--channels");
    push_text(&mut r, "2");
    push_text(&mut r, "--format");
    push_text(&mut r, "s16");
    push_text(&mut r, "--latency");
    push_text(&mut r, "20ms");
    push_text(&mut r, "--properties");
    push_text(&mut r, "{ stream.capture.sink = true node.name = spielab-audio }");
    push_text(&mut r, "-");
    assert(texts(r@) =~= audio_words());
    r
}

/// A word of a command line is directly followed by another.
pub open spec fn has_pair(words: Seq<Seq<char>>, first: Seq<char>, second: Seq<char>) -> bool {
    exists|i: int|
        0 <= i < words.len() - 1 && #[trigger] words[i] == first && words[i + 1] == second
}

/// A word is directly followed by a number of kilobits.
pub open spec fn has_rate(words: Seq<Seq<char>>, first: Seq<char>, kbps: nat) -> bool {
    has_pair(words, first, decimal(kbps) + "k"@)
}

/// Whatever is captured and however it is encoded, the encoder is held to the bit rate, the buffer
/// and one keyframe a second of the settings, without frames that depend on later ones, and writes
/// packet lengths to the descriptor that they are read from.
pub proof fn encoders_keep_to_the_settings(
    capture: VideoCapture,
    source: Source,
    config: VideoConfig,
    encoder: VideoEncoder,
    metadata: int,
)
    requires
        capture.runs(source, config, encoder, metadata),
    ensures
        ({
            let words = texts(capture.encoder_rest@);
            &&& has_rate(words, "-maxrate"@, config.max_kbps as nat)
            &&& has_rate(words, "-bufsize"@, config.buffer_kbps as nat)
            &&& has_pair(words, "-g"@, decimal(config.fps as nat))
            &&& has_pair(words, "-bf"@, "0"@)
            &&& has_pair(
                words,
                "tee"@,
                "[f=framecrc:flush_packets=1]pipe:"@ + signed_decimal(metadata)
                    + "|[f=h264:flush_packets=1]pipe:1"@,
            )
            &&& match encoder {
                VideoEncoder::Software => {
                    &&& has_pair(words, "-c:v"@, "libx264"@)
                    &&& has_pair(words, "-crf"@, decimal(config.crf as nat))
                    &&& has_pair(words, "-preset"@, config.preset@)
                    &&& has_pair(words, "-tune"@, "zerolatency"@)
                    &&& texts(capture.encoder_start@).last() != "-vaapi_device"@
                },
                VideoEncoder::Vaapi(_) => {
                    &&& has_pair(words, "-c:v"@, "h264_vaapi"@)
                    &&& exists|target: nat|
                        {
                            &&& #[trigger] has_rate(words, "-b:v"@, target)
                            &&& 4 * target <= 3 * config.max_kbps < 4 * target + 4
                        }
                    &&& texts(capture.encoder_start@).last() == "-vaapi_device"@
                },
            }
            &&& capture.width == config.width
            &&& capture.height == config.height
        }),
{
    let words = texts(capture.encoder_rest@);
    let input = input_words(source, config).len() as int;
    let codec = input + 12;
    assert(codec_words(encoder, config).len() == 12);
    assert(words[codec + 3] == "-maxrate"@);
    assert(words[codec + 5] == "-bufsize"@);
    assert(words[codec + 7] == "-g"@);
    assert(words[codec + 9] == "-bf"@);
    assert(words[codec + 14] == "tee"@);
    match encoder {
        VideoEncoder::Software => {
            assert(words[input] == "-c:v"@);
            assert(words[input + 2] == "-preset"@);
            assert(words[input + 4] == "-tune"@);
            assert(words[input + 8] == "-crf"@);
            reveal_strlit("-vaapi_device");
            reveal_strlit("-nostdin");
            assert("-vaapi_device"@.len() != "-nostdin"@.len());
        },
        VideoEncoder::Vaapi(_) => {
            assert(words[input + 2] == "-c:v"@);
            assert(words[input + 6] == "-b:v"@);
            assert(has_rate(words, "-b:v"@, (config.max_kbps * 3 / 4) as nat));
        },
    }
}

/// A shared screen is read from the node that was shared, over the descriptor that was opened, at
/// the rate and in the size of the settings, and the encoder reads what is captured; where none is
/// shared, it reads a picture that is made up in that size and at that rate.
pub proof fn captures_keep_to_the_settings(
    capture: VideoCapture,
    source: Source,
    config: VideoConfig,
    encoder: VideoEncoder,
    metadata: int,
)
    requires
        capture.runs(source, config, encoder, metadata),
    ensures
        ({
            let words = texts(capture.encoder_rest@);
            match source {
                Source::Screen(screen) => {
                    &&& has_pair(words, "-i"@, "pipe:0"@)
                    &&& capture.capture matches Some(arguments) && {
                        let capturing = texts(arguments@);
                        &&& has_pair(
                            capturing,
                            "fd="@ + signed_decimal(screen.descriptor as int),
                            "path="@ + decimal(screen.node as nat),
                        )
                        &&& capturing.contains(
                            "video/x-raw,framerate="@ + decimal(config.fps as nat) + "/1"@,
                        )
                        &&& capturing.contains(
                            "video/x-raw,format=I420,width="@ + decimal(config.width as nat)
                                + ",height="@ + decimal(config.height as nat) + ",framerate="@
                                + decimal(config.fps as nat) + "/1"@,
                        )
                        &&& has_pair(capturing, "fdsink"@, "fd=1"@)
                    }
                },
                Source::Synthetic(Some(description)) => capture.capture is None && has_pair(
                    words,
                    "-i"@,
                    description@,
                ),
                Source::Synthetic(None) => capture.capture is None && has_pair(
                    words,
                    "-i"@,
                    "testsrc2=size="@ + decimal(config.width as nat) + "x"@ + decimal(
                        config.height as nat,
                    ) + ":rate="@ + decimal(config.fps as nat),
                ),
            }
        }),
{
    let words = texts(capture.encoder_rest@);
    match source {
        Source::Screen(screen) => {
            let capturing = texts(capture.capture->0@);
            assert(words[6] == "-i"@);
            assert(capturing[2] == "fd="@ + signed_decimal(screen.descriptor as int));
            assert(capturing[15] == "video/x-raw,framerate="@ + decimal(config.fps as nat)
                + "/1"@);
            assert(capturing[20] == "video/x-raw,format=I420,width="@ + decimal(
                config.width as nat,
            ) + ",height="@ + decimal(config.height as nat) + ",framerate="@ + decimal(
                config.fps as nat,
            ) + "/1"@);
            assert(capturing[24] == "fdsink"@);
        },
        Source::Synthetic(_) => {
            assert(words[3] == "-i"@);
        },
    }
}

/// System audio is captured in the very form that is sent: blocks of as many bytes as 352 pairs of
/// 16-bit samples take, 44100 pairs a second.
pub proof fn sound_is_captured_as_it_is_sent()
    ensures
        has_pair(audio_words(), "--rate"@, decimal(crate::packets::AUDIO_RATE as nat)),
        has_pair(audio_words(), "--channels"@, "2"@),
        has_pair(audio_words(), "--format"@, "s16"@),
        PCM_BYTES == 2 * 2 * crate::mirror::PACKET_SAMPLES,
{
    let words = audio_words();
    assert(words[2] == "--rate"@);
    assert(words[4] == "--channels"@);
    assert(words[6] == "--format"@);
    reveal_strlit("44100");
    reveal_with_fuel(decimal, 6);
    assert("44100"@ =~= decimal(44100));
}

/// Where the screen does not change, its last picture is captured again once in the time of a frame,
/// in whole milliseconds.
pub proof fn still_screens_are_captured_at_the_rate(descriptor: int, node: nat, config: VideoConfig)
    requires
        config.fps > 0,
    ensures
        exists|millis: nat|
            {
                &&& capture_words(descriptor, node, config).contains(
                    "keepalive-time="@ + #[trigger] decimal(millis),
                )
                &&& millis * config.fps <= 1000 < (millis + 1) * config.fps
            },
{
    let millis = (1000int / config.fps as int) as nat;
    let words = capture_words(descriptor, node, config);
    assert(words[5] == "keepalive-time="@ + decimal(millis));
    assert(millis * config.fps <= 1000 < (millis + 1) * config.fps) by (nonlinear_arith)
        requires
            config.fps > 0,
            millis == 1000int / config.fps as int,
    ;
}

} // verus!
