use spielab::backend::{Command, Event, Outcome, Step, Work, Worker};
use spielab::capture::ScreenCapture;
use spielab::devices::{sort_by_name, Device};
use spielab::settings::{CaptureMode, LatencyMode, VideoQuality};

fn device(key: u64, name: &str) -> Device {
    Device {
        key,
        name: name.into(),
        hardware_address: "AA:BB:CC:DD:EE:FF".into(),
        features: 0,
    }
}

fn screen() -> ScreenCapture {
    ScreenCapture {
        node_id: 3,
        size: Some((64, 48)),
        mode: CaptureMode::Mirror,
    }
}

fn told(step: &Step) -> Vec<String> {
    step.events
        .iter()
        .map(|event| match event {
            Event::Devices(devices) => format!(
                "devices {}",
                devices
                    .iter()
                    .map(|device| format!("{}{}", device.name, device.key))
                    .collect::<Vec<_>>()
                    .join(",")
            ),
            Event::Busy(text) => format!("busy {text}"),
            Event::PinRequired(name) => format!("pin {name}"),
            Event::Authenticated(name) => format!("authenticated {name}"),
            Event::ScreenSelected { size, mode } => format!("screen {size:?} {mode:?}"),
            Event::VirtualSupport(supported) => format!("virtual {supported}"),
            Event::EncoderSelected(label) => format!("encoder {label}"),
            Event::Streaming(frames) => format!("streaming {frames}"),
            Event::Disconnected => "disconnected".to_string(),
            Event::Error(message) => format!("error {message}"),
        })
        .collect()
}

fn connected() -> Worker {
    let mut worker = Worker::new();
    worker.execute(Command::Connect(Box::new(device(1, "TV"))));
    worker.resume(Outcome::Done);
    worker.resume(Outcome::Answer(true));
    worker.resume(Outcome::Done);
    let step = worker.resume(Outcome::Done);
    assert_eq!(told(&step), vec!["authenticated TV"]);
    worker
}

#[test]
fn discovery_lists_devices_by_name() {
    let mut worker = Worker::new();
    let step = worker.execute(Command::Discover);
    assert_eq!(told(&step), vec!["busy Looking for AirPlay receivers…"]);
    assert!(matches!(step.work, Work::QueryVirtual));
    let step = worker.resume(Outcome::Answer(true));
    assert_eq!(told(&step), vec!["virtual true"]);
    assert!(matches!(step.work, Work::Scan));
    let step = worker.resume(Outcome::Devices(vec![
        device(1, "b"),
        device(2, "ä"),
        device(3, "a"),
        device(4, "b"),
        device(5, "B"),
        device(6, ""),
        device(7, "ab"),
    ]));
    assert_eq!(told(&step), vec!["devices 6,B5,a3,ab7,b1,b4,ä2"]);
    assert!(worker.is_idle());
}

#[test]
fn sorting_agrees_with_byte_order() {
    let names = ["z", "", "€", "aa", "a", "\u{10000}", "Z", "é", "a"];
    let sorted = sort_by_name(
        names
            .iter()
            .enumerate()
            .map(|(key, name)| device(key as u64, name))
            .collect(),
    );
    let mut expected: Vec<(usize, &str)> = names.iter().copied().enumerate().collect();
    expected.sort_by(|a, b| a.1.cmp(b.1));
    let found: Vec<(usize, &str)> = sorted
        .iter()
        .map(|device| (device.key as usize, device.name.as_str()))
        .collect();
    assert_eq!(found, expected);
}

#[test]
fn unknown_receivers_ask_for_a_code() {
    let mut worker = Worker::new();
    let step = worker.execute(Command::Connect(Box::new(device(9, "TV"))));
    assert!(matches!(
        step.work,
        Work::Reset {
            screen: false,
            session: false,
            drain: false
        }
    ));
    let step = worker.resume(Outcome::Done);
    assert_eq!(told(&step), vec!["busy Connecting to TV…"]);
    assert!(matches!(&step.work, Work::LoadIdentity(file) if file == "AABBCCDDEEFF.json"));
    assert!(matches!(worker.resume(Outcome::Answer(false)).work, Work::Open(9)));
    assert!(matches!(worker.resume(Outcome::Done).work, Work::RequestPin));
    let step = worker.resume(Outcome::Done);
    assert_eq!(told(&step), vec!["pin TV"]);
    let step = worker.execute(Command::Pair("0123".into()));
    assert_eq!(told(&step), vec!["busy Verifying Apple TV code…"]);
    assert!(matches!(&step.work, Work::Pair(pin) if pin == "0123"));
    let step = worker.resume(Outcome::Done);
    assert!(matches!(&step.work, Work::SaveIdentity(file) if file == "AABBCCDDEEFF.json"));
    assert_eq!(told(&worker.resume(Outcome::Done)), vec!["authenticated TV"]);
}

#[test]
fn failed_verification_uses_a_new_connection() {
    let mut worker = Worker::new();
    worker.execute(Command::Connect(Box::new(device(9, "TV"))));
    worker.resume(Outcome::Done);
    worker.resume(Outcome::Answer(true));
    assert!(matches!(worker.resume(Outcome::Done).work, Work::Verify));
    let step = worker.resume(Outcome::Failed("no".into()));
    assert!(step.events.is_empty());
    assert!(matches!(step.work, Work::Close));
    assert!(matches!(worker.resume(Outcome::Done).work, Work::Open(9)));
    assert!(matches!(worker.resume(Outcome::Done).work, Work::RequestPin));
    assert_eq!(told(&worker.resume(Outcome::Done)), vec!["pin TV"]);
}

#[test]
fn commands_out_of_order_are_refused() {
    let mut worker = Worker::new();
    let step = worker.execute(Command::Pair("0123".into()));
    assert_eq!(told(&step), vec!["busy Verifying Apple TV code…"]);
    assert_eq!(
        told(&worker.resume(Outcome::Done)),
        vec!["error Select a receiver first"]
    );
    worker.execute(Command::StartMirroring(
        VideoQuality::High,
        LatencyMode::Interactive,
    ));
    assert_eq!(
        told(&worker.resume(Outcome::Done)),
        vec!["error Connect to Apple TV first"]
    );
    let mut worker = connected();
    worker.execute(Command::StartMirroring(
        VideoQuality::High,
        LatencyMode::Interactive,
    ));
    assert_eq!(
        told(&worker.resume(Outcome::Done)),
        vec!["error Choose a screen first"]
    );
}

#[test]
fn sharing_runs_from_choice_to_failure() {
    let mut worker = connected();
    let step = worker.execute(Command::ChooseScreen(CaptureMode::Extend));
    assert!(matches!(step.work, Work::SelectScreen(CaptureMode::Extend)));
    let step = worker.resume(Outcome::Screen(screen()));
    assert_eq!(told(&step), vec!["screen Some((64, 48)) Mirror"]);
    let step = worker.execute(Command::ChooseScreen(CaptureMode::Mirror));
    assert_eq!(
        told(&step),
        vec!["busy Single-click one screen or window, then press Share…"]
    );
    assert!(matches!(step.work, Work::CloseScreen));
    assert!(matches!(
        worker.resume(Outcome::Done).work,
        Work::SelectScreen(CaptureMode::Mirror)
    ));
    worker.resume(Outcome::Screen(screen()));
    let step = worker.execute(Command::StartMirroring(
        VideoQuality::Smooth,
        LatencyMode::Buffered,
    ));
    assert_eq!(
        told(&step),
        vec!["busy Starting desktop and system audio sharing…"]
    );
    assert!(matches!(
        step.work,
        Work::DetectEncoder(VideoQuality::Smooth)
    ));
    let step = worker.resume(Outcome::Encoder("Software H.264".into()));
    assert_eq!(told(&step), vec!["encoder Software H.264"]);
    assert!(matches!(
        step.work,
        Work::Setup(VideoQuality::Smooth, LatencyMode::Buffered)
    ));
    assert!(matches!(
        worker.resume(Outcome::Done).work,
        Work::StartCapture(VideoQuality::Smooth)
    ));
    assert!(matches!(worker.resume(Outcome::Done).work, Work::Stream));
    assert_eq!(told(&worker.resume(Outcome::Progress(1))), vec!["streaming 1"]);
    assert!(told(&worker.resume(Outcome::Progress(30))).is_empty());
    let step = worker.resume(Outcome::Failed("lost".into()));
    assert!(matches!(
        step.work,
        Work::Reset {
            screen: true,
            session: true,
            drain: false
        }
    ));
    assert_eq!(told(&worker.resume(Outcome::Done)), vec!["error lost"]);
    assert!(worker.is_idle());
}

#[test]
fn cancelling_resets_and_disconnects() {
    let mut worker = connected();
    worker.execute(Command::ChooseScreen(CaptureMode::Mirror));
    let step = worker.cancel();
    assert!(matches!(
        step.work,
        Work::Reset {
            screen: false,
            session: true,
            drain: true
        }
    ));
    assert_eq!(told(&worker.resume(Outcome::Done)), vec!["disconnected"]);
    assert!(matches!(worker.resume(Outcome::Done).work, Work::Idle));
}

#[test]
fn outcomes_of_other_work_fail_the_command() {
    let mut worker = Worker::new();
    worker.execute(Command::Discover);
    worker.resume(Outcome::Progress(3));
    assert_eq!(
        told(&worker.resume(Outcome::Done)),
        vec!["error AirPlay worker lost track of its work"]
    );
}
