use spielab::alac::PCM_BYTES;
use spielab::bytes::{push_be, push_le, same_bytes};
use spielab::failure::Failure;
use spielab::identity::{positive_id, short_id};
use spielab::media::{is_render_node, EncoderSearch, VideoEncoder};
use spielab::options::{latency_option, quality_option, source_option, OptionError, Subject};
use spielab::pairing::{
    check_status, rejection, stream_keys, CredentialStore, Credentials, Exchange, Handshake,
};
use spielab::pipeline::{
    screen_video_filters, AudioCapture, SharedScreen, Source, VideoCapture,
};
use spielab::settings::{CaptureMode, LatencyMode, VideoConfig, VideoQuality};
use spielab::text::{
    chars_of, decimal_text, eq_ignore_case, lines, parse_unsigned, push_signed, split, trim,
};

#[test]
fn presets_are_capped_and_valid() {
    let caps: Vec<(u32, u32, u32, u32)> = VideoQuality::ALL
        .iter()
        .map(|quality| {
            let config = quality.config();
            assert_eq!(config.validate(), Ok(()));
            (config.width, config.height, config.fps, config.max_kbps)
        })
        .collect();
    assert_eq!(
        caps,
        vec![
            (1280, 720, 30, 8000),
            (1920, 1080, 30, 20000),
            (1920, 1080, 60, 30000)
        ]
    );
    assert_eq!(VideoQuality::default().label(), "1080p / 30");
    assert_eq!(LatencyMode::default().millis(), 50);
    assert_eq!(LatencyMode::ALL.map(|mode| mode.millis()), [50, 100, 500]);
    assert_eq!(CaptureMode::default().label(), "Screen or window");
}

#[test]
fn invalid_settings_are_refused() {
    let valid = VideoQuality::High.config();
    for (width, height) in [(0, 2), (2, 0), (3842, 2), (2, 2162), (3, 2), (2, 3)] {
        let config = VideoConfig {
            width,
            height,
            ..valid
        };
        assert_eq!(config.validate(), Err(Failure::VideoDimensions));
    }
    for config in [
        VideoConfig { fps: 0, ..valid },
        VideoConfig { fps: 61, ..valid },
        VideoConfig { crf: 52, ..valid },
        VideoConfig {
            max_kbps: 0,
            ..valid
        },
        VideoConfig {
            buffer_kbps: 0,
            ..valid
        },
    ] {
        assert_eq!(config.validate(), Err(Failure::VideoEncoding));
    }
}

#[test]
fn software_pipelines_have_their_arguments() {
    let capture = VideoCapture::start(None, 320, 240, 9).ok().unwrap();
    assert!(capture.capture.is_none());
    assert_eq!(
        capture.encoder_start,
        ["-hide_banner", "-loglevel", "error", "-nostdin"]
    );
    assert_eq!(
        capture.encoder_rest.join(" "),
        "-re -f lavfi -i testsrc2=size=320x240:rate=30 -c:v libx264 -preset ultrafast \
         -tune zerolatency -pix_fmt yuv420p -crf 23 -x264-params \
         aud=1:repeat-headers=1:scenecut=0 -an -profile:v main -maxrate 8000k -bufsize 2000k \
         -g 30 -bf 0 -map 0:v:0 -f tee \
         [f=framecrc:flush_packets=1]pipe:9|[f=h264:flush_packets=1]pipe:1"
    );
    assert_eq!((capture.width, capture.height), (320, 240));
    assert_eq!(
        VideoCapture::start(None, 321, 240, 9).err(),
        Some(Failure::VideoDimensions)
    );
}

#[test]
fn hardware_pipelines_capture_screens() {
    let encoder = VideoEncoder::Vaapi("/dev/dri/renderD128".into());
    let screen = SharedScreen {
        descriptor: 5,
        node: 77,
    };
    let config = VideoQuality::Smooth.config();
    let capture =
        VideoCapture::start_with_encoder(Some(screen), config, &encoder, 3).ok().unwrap();
    assert_eq!(
        capture.capture.unwrap().join(" "),
        "-q pipewiresrc fd=5 path=77 do-timestamp=true keepalive-time=16 ! queue \
         max-size-buffers=1 max-size-bytes=0 max-size-time=0 leaky=downstream ! videorate ! \
         video/x-raw,framerate=60/1 ! videoconvertscale add-borders=true ! \
         video/x-raw,format=I420,width=1920,height=1080,framerate=60/1 ! y4menc ! fdsink fd=1 \
         sync=false"
    );
    assert_eq!(capture.encoder_start.last().unwrap(), "-vaapi_device");
    let rest = capture.encoder_rest.join(" ");
    assert!(rest.starts_with("-probesize 32 -analyzeduration 1 -f yuv4mpegpipe -i pipe:0 -vf"));
    assert!(rest.contains("-b:v 22500k"));
    let card = VideoCapture::start_pipeline(config, Source::Synthetic(Some("color")), &encoder, 3)
        .ok()
        .unwrap();
    assert_eq!(card.encoder_rest[4], "color");
    assert_eq!(screen_video_filters(config)[2], "video/x-raw,framerate=60/1");
    let audio = AudioCapture::start();
    assert_eq!(audio.block, PCM_BYTES);
    assert_eq!(audio.arguments[3], "44100");
}

#[test]
fn encoded_packets_are_taken_apart() {
    assert_eq!(
        VideoCapture::frame(vec![0, 0, 1, 0x67, 1, 0, 0, 0, 1, 0x65]),
        Ok(vec![vec![0x67, 1], vec![0x65]])
    );
    assert_eq!(VideoCapture::frame(vec![1]), Err(Failure::NotAnnexB));
    assert_eq!(
        VideoCapture::frame(vec![1, 0, 0, 1, 0x65]),
        Err(Failure::LeadingData)
    );
    assert_eq!(VideoCapture::frame(vec![0, 0, 1]), Err(Failure::EmptyUnit));
    assert_eq!(
        VideoCapture::frame(vec![0, 0, 1, 9, 0xf0]),
        Err(Failure::NoUnits)
    );
}

#[test]
fn encoders_are_probed_in_order() {
    let complete = vec![vec![0x67], vec![0x68], vec![0x65]];
    let later = vec![vec![0x41]];
    assert_eq!(VideoEncoder::probe(0, &complete), Ok(false));
    assert_eq!(
        VideoEncoder::probe(0, &later),
        Err(Failure::NoInitialKeyframe)
    );
    assert_eq!(VideoEncoder::probe(1, &later), Ok(false));
    assert_eq!(VideoEncoder::probe(2, &later), Ok(true));
    assert_eq!(
        VideoEncoder::probe(2, &vec![vec![0x67]]),
        Err(Failure::NoPicture)
    );
    assert_eq!(VideoEncoder::detect(0), EncoderSearch::Software);
    let search = VideoEncoder::detect(2);
    assert_eq!(search, EncoderSearch::Probe(0));
    assert_eq!(search.next(2, false), EncoderSearch::Probe(1));
    assert_eq!(search.next(2, false).next(2, true), EncoderSearch::Hardware(1));
    assert_eq!(search.next(2, false).next(2, false), EncoderSearch::Software);
    assert_eq!(search.next(2, true).next(2, false), EncoderSearch::Hardware(0));
    assert!(is_render_node("renderD128"));
    assert!(!is_render_node("card0"));
}

#[test]
fn handshakes_need_every_exchange() {
    let mut pairing = Handshake::pair("0123").unwrap();
    for exchange in [
        Exchange::SetupStart,
        Exchange::SetupProof,
        Exchange::SetupIdentity,
        Exchange::VerifyStart,
        Exchange::VerifyProof,
        Exchange::Confirm,
    ] {
        assert_eq!(pairing, Handshake::Next(exchange));
        assert_eq!(pairing.next(false), Handshake::Failed);
        pairing = pairing.next(true);
    }
    assert_eq!(pairing, Handshake::Authenticated);
    assert_eq!(Handshake::Failed.next(true), Handshake::Failed);
    assert_eq!(Handshake::pair("12"), Err(Failure::Pin));
    assert_eq!(Handshake::verify(), Handshake::Next(Exchange::VerifyStart));
}

#[test]
fn identities_are_kept_per_receiver() {
    assert_eq!(CredentialStore::file_name("AA:BB:0C"), "AABB0C.json");
    assert_ne!(
        CredentialStore::file_name("AA:BB:0C:11:22:33"),
        CredentialStore::file_name("AA:BB:0C:11:22:34")
    );
    assert_eq!(CredentialStore::temporary_extension("x"), "x.tmp");
    let kept = Credentials::from_pairing("id".into(), [1; 32], Some([2; 32])).ok().unwrap();
    assert_eq!((kept.seed, kept.receiver_key), ([1; 32], [2; 32]));
    assert_eq!(
        Credentials::from_pairing("id".into(), [1; 32], None).err(),
        Some(Failure::NoReceiverKey)
    );
    let mut write = [0; 32];
    write[15] = 15;
    write[16] = 16;
    let keys = stream_keys(&write, &[3; 32]);
    assert_eq!((keys.key[15], keys.iv), (15, [3; 16]));
}

#[test]
fn statuses_outside_success_are_refused() {
    assert_eq!(check_status(200), Ok(()));
    assert_eq!(check_status(299), Ok(()));
    assert_eq!(check_status(199), Err(Failure::Rejected));
    assert_eq!(check_status(300), Err(Failure::Rejected));
    assert_eq!(
        rejection("/feedback", 470),
        "Receiver rejected /feedback: status 470"
    );
}

#[test]
fn failures_have_messages() {
    assert_eq!(Failure::Pin.message(), "Enter the four digits displayed on Apple TV");
    assert_eq!(Failure::VideoDimensions.message(), "Invalid video dimensions");
    assert_eq!(Failure::NoScreen.message(), "Choose a screen first");
}

#[test]
fn identifiers_fit_signed_numbers() {
    assert_eq!(positive_id(u64::MAX), i64::MAX as u64);
    assert_eq!(positive_id(5), 5);
    assert_eq!(short_id("0123456789abcdef"), "0123456789ab");
}

#[test]
fn numbers_are_written_and_read() {
    assert_eq!(decimal_text(0), "0");
    assert_eq!(decimal_text(u64::MAX), "18446744073709551615");
    let mut text = String::new();
    push_signed(&mut text, i32::MIN);
    assert_eq!(text, "-2147483648");
    for number in [0, 9, 10, 1234567890, u64::MAX] {
        assert_eq!(
            parse_unsigned(&chars_of(&decimal_text(number)), u64::MAX),
            Some(number)
        );
    }
    for wrong in ["", "+", "-1", "1 ", "18446744073709551616", "１"] {
        assert_eq!(parse_unsigned(&chars_of(wrong), u64::MAX), None);
    }
    assert_eq!(parse_unsigned(&chars_of("+0010"), 10), Some(10));
    assert_eq!(parse_unsigned(&chars_of("11"), 10), None);
}

#[test]
fn texts_are_taken_apart() {
    assert_eq!(trim(&chars_of(" \t a b\u{3000}\n")), &['a', ' ', 'b']);
    let line = chars_of("a,,b");
    let parts: Vec<usize> = split(&line, ',').iter().map(|part| part.len()).collect();
    assert_eq!(parts, vec![1, 0, 1]);
    let block = chars_of("one\r\ntwo\n\nlast\r");
    let found: Vec<String> = lines(&block)
        .iter()
        .map(|line| line.iter().collect::<String>())
        .collect();
    assert_eq!(found, vec!["one", "two", "", "last\r"]);
    assert!(eq_ignore_case(&chars_of("CSEQ"), &chars_of("cSeq")));
    assert!(!eq_ignore_case(&chars_of("Ä"), &chars_of("ä")));
}

#[test]
fn integers_are_laid_out_in_both_orders() {
    let mut out = vec![];
    push_le(&mut out, 0x0102_0304, 4);
    push_be(&mut out, 0x0102_0304, 4);
    push_be(&mut out, 0x0102_0304, 2);
    assert_eq!(out, vec![4, 3, 2, 1, 1, 2, 3, 4, 3, 4]);
    assert!(same_bytes(&[1, 2], &[1, 2]));
    assert!(!same_bytes(&[1, 2], &[1]));
    assert!(!same_bytes(&[1, 2], &[1, 3]));
}

fn words(arguments: &[&str]) -> Vec<String> {
    arguments.iter().map(|argument| argument.to_string()).collect()
}

#[test]
fn options_are_read_from_the_command_line() {
    let plain = words(&["mirror", "Living Room"]);
    assert_eq!(source_option(&plain), Ok(Subject::Screen(CaptureMode::Mirror)));
    assert_eq!(quality_option(&plain), Ok(VideoQuality::High));
    assert_eq!(latency_option(&plain), Ok(LatencyMode::Interactive));
    let chosen = words(&["mirror", "TV", "--extend", "--quality=1080p60", "--latency=50"]);
    assert_eq!(source_option(&chosen), Ok(Subject::Screen(CaptureMode::Extend)));
    assert_eq!(quality_option(&chosen), Ok(VideoQuality::Smooth));
    assert_eq!(latency_option(&chosen), Ok(LatencyMode::Interactive));
    let tested = words(&["mirror", "TV", "--test", "--quality=720p30", "--latency=100", "--latency=5"]);
    assert_eq!(source_option(&tested), Ok(Subject::TestCard));
    assert_eq!(quality_option(&tested), Ok(VideoQuality::Efficient));
    assert_eq!(latency_option(&tested), Ok(LatencyMode::Responsive));
    assert_eq!(quality_option(&words(&["--quality=1080p30"])), Ok(VideoQuality::High));
    assert_eq!(latency_option(&words(&["--latency=500"])), Ok(LatencyMode::Buffered));
    let wrong = words(&["mirror", "TV", "--test", "--extend", "--quality=4k", "--latency="]);
    assert_eq!(source_option(&wrong), Err(OptionError::BothSources));
    assert_eq!(
        OptionError::BothSources.message(),
        "Use --test or --extend, not both"
    );
    assert_eq!(quality_option(&wrong).unwrap_err().message(), "Unknown quality: 4k");
    assert_eq!(latency_option(&wrong).unwrap_err().message(), "Unknown latency: ");
}
