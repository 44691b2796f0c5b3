//! The session worker: what each command does, one piece of outside work at a time.

use crate::capture::ScreenCapture;
use crate::devices::{
    by_name, device_views, listing_keeps_devices, sort_by_name, Device, DeviceView,
};
use crate::failure::Failure;
use crate::pairing::CredentialStore;
use crate::settings::{CaptureMode, LatencyMode, VideoQuality};
use vstd::prelude::*;
use vstd::string::*;

verus! {

pub enum Command {
    Discover,
    Connect(Box<Device>),
    Pair(String),
    ChooseScreen(CaptureMode),
    StartMirroring(VideoQuality, LatencyMode),
}

pub enum CommandView {
    Discover,
    Connect(DeviceView),
    Pair(Seq<char>),
    ChooseScreen(CaptureMode),
    StartMirroring(VideoQuality, LatencyMode),
}

impl Command {
    pub open spec fn view(self) -> CommandView {
        match self {
            Command::Discover => CommandView::Discover,
            Command::Connect(device) => CommandView::Connect((*device)@),
            Command::Pair(pin) => CommandView::Pair(pin@),
            Command::ChooseScreen(mode) => CommandView::ChooseScreen(mode),
            Command::StartMirroring(quality, latency) => CommandView::StartMirroring(
                quality,
                latency,
            ),
        }
    }
}

pub enum Event {
    Devices(Vec<Device>),
    Busy(String),
    PinRequired(String),
    Authenticated(String),
    ScreenSelected { size: Option<(i32, i32)>, mode: CaptureMode },
    VirtualSupport(bool),
    EncoderSelected(String),
    Streaming(u64),
    Disconnected,
    Error(String),
}

#[verifier::ext_equal]
pub enum EventView {
    Devices(Seq<DeviceView>),
    Busy(Seq<char>),
    PinRequired(Seq<char>),
    Authenticated(Seq<char>),
    ScreenSelected { size: Option<(i32, i32)>, mode: CaptureMode },
    VirtualSupport(bool),
    EncoderSelected(Seq<char>),
    Streaming(u64),
    Disconnected,
    Error(Seq<char>),
}

impl Event {
    pub open spec fn view(self) -> EventView {
        match self {
            Event::Devices(devices) => EventView::Devices(device_views(devices@)),
            Event::Busy(status) => EventView::Busy(status@),
            Event::PinRequired(name) => EventView::PinRequired(name@),
            Event::Authenticated(name) => EventView::Authenticated(name@),
            Event::ScreenSelected { size, mode } => EventView::ScreenSelected { size, mode },
            Event::VirtualSupport(supported) => EventView::VirtualSupport(supported),
            Event::EncoderSelected(label) => EventView::EncoderSelected(label@),
            Event::Streaming(frames) => EventView::Streaming(frames),
            Event::Disconnected => EventView::Disconnected,
            Event::Error(message) => EventView::Error(message@),
        }
    }
}

pub open spec fn event_views(events: Seq<Event>) -> Seq<EventView> {
    events.map_values(|event: Event| event.view())
}

/// Work that the worker asks to be done outside.
pub enum Work {
    /// Wait for a command.
    Idle,
    /// Ask whether the desktop can be extended.
    QueryVirtual,
    /// Look for receivers.
    Scan,
    /// Close the chosen screen and the session, where there are any; a session also stops
    /// mirroring. Commands that wait are dropped where `drain` is set. None of it can fail.
    Reset { screen: bool, session: bool, drain: bool },
    /// Read the saved identity from the named file.
    LoadIdentity(String),
    /// Open a connection to the device with this key.
    Open(u64),
    /// Verify the loaded identity on the open connection.
    Verify,
    /// Close the open connection.
    Close,
    /// Ask the receiver to show a code.
    RequestPin,
    /// Pair with the code on the session's connection.
    Pair(String),
    /// Write the new identity to the named file.
    SaveIdentity(String),
    /// Close the screen that was chosen before.
    CloseScreen,
    /// Let the user choose a screen.
    SelectScreen(CaptureMode),
    /// Find a working encoder.
    DetectEncoder(VideoQuality),
    /// Negotiate a stream.
    Setup(VideoQuality, LatencyMode),
    /// Start to capture video and audio.
    StartCapture(VideoQuality),
    /// Run the stream and tell its progress.
    Stream,
}

pub enum WorkView {
    Idle,
    QueryVirtual,
    Scan,
    Reset { screen: bool, session: bool, drain: bool },
    LoadIdentity(Seq<char>),
    Open(u64),
    Verify,
    Close,
    RequestPin,
    Pair(Seq<char>),
    SaveIdentity(Seq<char>),
    CloseScreen,
    SelectScreen(CaptureMode),
    DetectEncoder(VideoQuality),
    Setup(VideoQuality, LatencyMode),
    StartCapture(VideoQuality),
    Stream,
}

impl Work {
    pub open spec fn view(self) -> WorkView {
        match self {
            Work::Idle => WorkView::Idle,
            Work::QueryVirtual => WorkView::QueryVirtual,
            Work::Scan => WorkView::Scan,
            Work::Reset { screen, session, drain } => WorkView::Reset { screen, session, drain },
            Work::LoadIdentity(file) => WorkView::LoadIdentity(file@),
            Work::Open(key) => WorkView::Open(key),
            Work::Verify => WorkView::Verify,
            Work::Close => WorkView::Close,
            Work::RequestPin => WorkView::RequestPin,
            Work::Pair(pin) => WorkView::Pair(pin@),
            Work::SaveIdentity(file) => WorkView::SaveIdentity(file@),
            Work::CloseScreen => WorkView::CloseScreen,
            Work::SelectScreen(mode) => WorkView::SelectScreen(mode),
            Work::DetectEncoder(quality) => WorkView::DetectEncoder(quality),
            Work::Setup(quality, latency) => WorkView::Setup(quality, latency),
            Work::StartCapture(quality) => WorkView::StartCapture(quality),
            Work::Stream => WorkView::Stream,
        }
    }
}

/// How outside work went.
pub enum Outcome {
    Done,
    Failed(String),
    /// The answer to a yes-or-no question: extension is supported, an identity is saved.
    Answer(bool),
    Devices(Vec<Device>),
    Screen(ScreenCapture),
    Encoder(String),
    Progress(u64),
}

pub enum OutcomeView {
    Done,
    Failed(Seq<char>),
    Answer(bool),
    Devices(Seq<DeviceView>),
    Screen(ScreenCapture),
    Encoder(Seq<char>),
    Progress(u64),
}

impl Outcome {
    pub open spec fn view(self) -> OutcomeView {
        match self {
            Outcome::Done => OutcomeView::Done,
            Outcome::Failed(message) => OutcomeView::Failed(message@),
            Outcome::Answer(answer) => OutcomeView::Answer(answer),
            Outcome::Devices(devices) => OutcomeView::Devices(device_views(devices@)),
            Outcome::Screen(screen) => OutcomeView::Screen(screen),
            Outcome::Encoder(label) => OutcomeView::Encoder(label@),
            Outcome::Progress(frames) => OutcomeView::Progress(frames),
        }
    }
}

/// Why a reset was made.
pub enum Ending {
    Failed(String),
    Cancelled,
}

/// What the worker waits for.
pub enum Task {
    Virtual,
    Scan,
    Clear(Device),
    Load(Device),
    Open(Device, bool),
    Verify(Device),
    Close(Device),
    Reopen(Device),
    Pin(Device),
    Pair,
    Save,
    CloseScreen(CaptureMode),
    Select,
    Detect(VideoQuality, LatencyMode),
    Setup(VideoQuality),
    Capture,
    Stream(bool),
    End(Ending),
}

pub enum TaskView {
    Virtual,
    Scan,
    Clear(DeviceView),
    Load(DeviceView),
    Open(DeviceView, bool),
    Verify(DeviceView),
    Close(DeviceView),
    Reopen(DeviceView),
    Pin(DeviceView),
    Pair,
    Save,
    CloseScreen(CaptureMode),
    Select,
    Detect(VideoQuality, LatencyMode),
    Setup(VideoQuality),
    Capture,
    Stream(bool),
    EndFailed(Seq<char>),
    EndCancelled,
}

impl Task {
    pub open spec fn view(self) -> TaskView {
        match self {
            Task::Virtual => TaskView::Virtual,
            Task::Scan => TaskView::Scan,
            Task::Clear(device) => TaskView::Clear(device@),
            Task::Load(device) => TaskView::Load(device@),
            Task::Open(device, saved) => TaskView::Open(device@, saved),
            Task::Verify(device) => TaskView::Verify(device@),
            Task::Close(device) => TaskView::Close(device@),
            Task::Reopen(device) => TaskView::Reopen(device@),
            Task::Pin(device) => TaskView::Pin(device@),
            Task::Pair => TaskView::Pair,
            Task::Save => TaskView::Save,
            Task::CloseScreen(mode) => TaskView::CloseScreen(mode),
            Task::Select => TaskView::Select,
            Task::Detect(quality, latency) => TaskView::Detect(quality, latency),
            Task::Setup(quality) => TaskView::Setup(quality),
            Task::Capture => TaskView::Capture,
            Task::Stream(told) => TaskView::Stream(told),
            Task::End(Ending::Failed(message)) => TaskView::EndFailed(message@),
            Task::End(Ending::Cancelled) => TaskView::EndCancelled,
        }
    }
}

/// The events to pass on, in order, and the work to do next.
pub struct Step {
    pub events: Vec<Event>,
    pub work: Work,
}

#[verifier::ext_equal]
pub struct StepView {
    pub events: Seq<EventView>,
    pub work: WorkView,
}

impl Step {
    pub open spec fn view(self) -> StepView {
        StepView { events: event_views(self.events@), work: self.work.view() }
    }
}

fn silent(work: Work) -> (r: Step)
    ensures
        r.view() == (StepView { events: Seq::empty(), work: work.view() }),
{
    let r = Step { events: Vec::new(), work };
    assert(r.view().events =~= Seq::empty());
    r
}

fn telling(event: Event, work: Work) -> (r: Step)
    ensures
        r.view() == (StepView { events: seq![event.view()], work: work.view() }),
{
    let mut events: Vec<Event> = Vec::new();
    events.push(event);
    let r = Step { events, work };
    assert(r.view().events =~= seq![event.view()]);
    r
}

/// What the worker remembers.
pub struct WorkerView {
    pub session: Option<DeviceView>,
    pub screen: Option<ScreenCapture>,
    pub authenticated: bool,
    pub task: Option<TaskView>,
}

/// The session worker. It does one command at a time.
pub struct Worker {
    session: Option<Device>,
    screen: Option<ScreenCapture>,
    authenticated: bool,
    task: Option<Task>,
}

impl View for Worker {
    type V = WorkerView;

    closed spec fn view(&self) -> WorkerView {
        WorkerView {
            session: match self.session {
                None => None,
                Some(device) => Some(device@),
            },
            screen: self.screen,
            authenticated: self.authenticated,
            task: match self.task {
                None => None,
                Some(task) => Some(task.view()),
            },
        }
    }
}

/// The file of a device's identity.
pub open spec fn identity_file(device: DeviceView) -> Seq<char> {
    CredentialStore::name_for(device.hardware_address)
}

/// What the user is told while a screen is being chosen.
pub open spec fn choosing_text(mode: CaptureMode) -> Seq<char> {
    match mode {
        CaptureMode::Mirror => "Single-click one screen or window, then press Share…"@,
        CaptureMode::Extend => "Single-click the virtual monitor, then press Share (avoid double-clicking)…"@,
    }
}

fn choosing(mode: CaptureMode) -> (r: String)
    ensures
        r@ == choosing_text(mode),
{
    match mode {
        CaptureMode::Mirror => "Single-click one screen or window, then press Share…".to_owned(),
        CaptureMode::Extend => {
            "Single-click the virtual monitor, then press Share (avoid double-clicking)…".to_owned()
        },
    }
}

/// What the user is told while a connection is made.
pub open spec fn connecting_text(name: Seq<char>) -> Seq<char> {
    "Connecting to "@ + name + "…"@
}

fn connecting(name: &str) -> (r: String)
    ensures
        r@ == connecting_text(name@),
{
    let mut r = "Connecting to ".to_owned();
    r.append(name);
    r.append("…");
    r
}

impl WorkerView {
    pub open spec fn idle(self) -> bool {
        self.task is None
    }

    /// A failed or cancelled command is being cleared away.
    pub open spec fn ending(self) -> bool {
        match self.task {
            Some(TaskView::EndFailed(_)) => true,
            Some(TaskView::EndCancelled) => true,
            _ => false,
        }
    }

    /// Goes on to wait for `task`.
    pub open spec fn doing(self, task: TaskView, events: Seq<EventView>, work: WorkView) -> (
        WorkerView,
        StepView,
    ) {
        (WorkerView { task: Some(task), ..self }, StepView { events, work })
    }

    /// The command is done.
    pub open spec fn done(self, events: Seq<EventView>) -> (WorkerView, StepView) {
        (WorkerView { task: None, ..self }, StepView { events, work: WorkView::Idle })
    }

    /// Forgets the session and the screen, and asks for both to be closed.
    pub open spec fn reset(self, task: TaskView, drain: bool) -> (WorkerView, StepView) {
        (
            WorkerView {
                session: None,
                screen: None,
                authenticated: false,
                task: Some(task),
            },
            StepView {
                events: Seq::empty(),
                work: WorkView::Reset {
                    screen: self.screen is Some,
                    session: self.session is Some,
                    drain,
                },
            },
        )
    }

    /// The command failed: everything is reset, and the failure told after that.
    pub open spec fn fail(self, message: Seq<char>) -> (WorkerView, StepView) {
        self.reset(TaskView::EndFailed(message), false)
    }

    /// Begins a command.
    pub open spec fn execute(self, command: CommandView) -> (WorkerView, StepView) {
        match command {
            CommandView::Discover => self.doing(
                TaskView::Virtual,
                seq![EventView::Busy("Looking for AirPlay receivers…"@)],
                WorkView::QueryVirtual,
            ),
            CommandView::Connect(device) => self.reset(TaskView::Clear(device), false),
            CommandView::Pair(pin) => {
                let busy = seq![EventView::Busy("Verifying Apple TV code…"@)];
                if self.session is None {
                    let (next, step) = self.fail(Failure::NoReceiver.text());
                    (next, StepView { events: busy, ..step })
                } else {
                    self.doing(TaskView::Pair, busy, WorkView::Pair(pin))
                }
            },
            CommandView::ChooseScreen(mode) => {
                let busy = seq![EventView::Busy(choosing_text(mode))];
                if self.screen is Some {
                    WorkerView { screen: None, ..self }.doing(
                        TaskView::CloseScreen(mode),
                        busy,
                        WorkView::CloseScreen,
                    )
                } else {
                    self.doing(TaskView::Select, busy, WorkView::SelectScreen(mode))
                }
            },
            CommandView::StartMirroring(quality, latency) => if !self.authenticated {
                self.fail(Failure::NotConnected.text())
            } else if self.screen is None {
                self.fail(Failure::NoScreen.text())
            } else {
                self.doing(
                    TaskView::Detect(quality, latency),
                    seq![EventView::Busy("Starting desktop and system audio sharing…"@)],
                    WorkView::DetectEncoder(quality),
                )
            },
        }
    }

    /// Goes on after outside work.
    pub open spec fn resume(self, outcome: OutcomeView) -> (WorkerView, StepView) {
        match self.task {
            None => (self, StepView { events: Seq::empty(), work: WorkView::Idle }),
            Some(task) => match (task, outcome) {
                (TaskView::EndFailed(message), _) => self.done(seq![EventView::Error(message)]),
                (TaskView::EndCancelled, _) => self.done(seq![EventView::Disconnected]),
                (TaskView::Virtual, OutcomeView::Answer(supported)) => self.doing(
                    TaskView::Scan,
                    seq![EventView::VirtualSupport(supported)],
                    WorkView::Scan,
                ),
                (TaskView::Scan, OutcomeView::Devices(devices)) => self.done(
                    seq![EventView::Devices(by_name(devices))],
                ),
                (TaskView::Clear(device), _) => self.doing(
                    TaskView::Load(device),
                    seq![EventView::Busy(connecting_text(device.name))],
                    WorkView::LoadIdentity(identity_file(device)),
                ),
                (TaskView::Load(device), OutcomeView::Answer(saved)) => self.doing(
                    TaskView::Open(device, saved),
                    Seq::empty(),
                    WorkView::Open(device.key),
                ),
                (TaskView::Open(device, saved), OutcomeView::Done) => if saved {
                    self.doing(TaskView::Verify(device), Seq::empty(), WorkView::Verify)
                } else {
                    self.doing(TaskView::Pin(device), Seq::empty(), WorkView::RequestPin)
                },
                (TaskView::Verify(device), OutcomeView::Done) => WorkerView {
                    session: Some(device),
                    authenticated: true,
                    ..self
                }.done(seq![EventView::Authenticated(device.name)]),
                (TaskView::Verify(device), OutcomeView::Failed(_)) => self.doing(
                    TaskView::Close(device),
                    Seq::empty(),
                    WorkView::Close,
                ),
                (TaskView::Close(device), OutcomeView::Done) => self.doing(
                    TaskView::Reopen(device),
                    Seq::empty(),
                    WorkView::Open(device.key),
                ),
                (TaskView::Reopen(device), OutcomeView::Done) => self.doing(
                    TaskView::Pin(device),
                    Seq::empty(),
                    WorkView::RequestPin,
                ),
                (TaskView::Pin(device), OutcomeView::Done) => WorkerView {
                    session: Some(device),
                    ..self
                }.done(seq![EventView::PinRequired(device.name)]),
                (TaskView::Pair, OutcomeView::Done) => match self.session {
                    Some(device) => self.doing(
                        TaskView::Save,
                        Seq::empty(),
                        WorkView::SaveIdentity(identity_file(device)),
                    ),
                    None => self.fail(Failure::NoReceiver.text()),
                },
                (TaskView::Save, OutcomeView::Done) => match self.session {
                    Some(device) => WorkerView { authenticated: true, ..self }.done(
                        seq![EventView::Authenticated(device.name)],
                    ),
                    None => self.fail(Failure::NoReceiver.text()),
                },
                (TaskView::CloseScreen(mode), OutcomeView::Done) => self.doing(
                    TaskView::Select,
                    Seq::empty(),
                    WorkView::SelectScreen(mode),
                ),
                (TaskView::Select, OutcomeView::Screen(screen)) => WorkerView {
                    screen: Some(screen),
                    ..self
                }.done(
                    seq![EventView::ScreenSelected { size: screen.size, mode: screen.mode }],
                ),
                (TaskView::Detect(quality, latency), OutcomeView::Encoder(label)) => {
                    let told = seq![EventView::EncoderSelected(label)];
                    if self.session is None {
                        let (next, step) = self.fail(Failure::NotConnected.text());
                        (next, StepView { events: told, ..step })
                    } else {
                        self.doing(
                            TaskView::Setup(quality),
                            told,
                            WorkView::Setup(quality, latency),
                        )
                    }
                },
                (TaskView::Setup(quality), OutcomeView::Done) => self.doing(
                    TaskView::Capture,
                    Seq::empty(),
                    WorkView::StartCapture(quality),
                ),
                (TaskView::Capture, OutcomeView::Done) => self.doing(
                    TaskView::Stream(false),
                    Seq::empty(),
                    WorkView::Stream,
                ),
                (TaskView::Stream(told), OutcomeView::Progress(frames)) => self.doing(
                    TaskView::Stream(true),
                    if told {
                        Seq::empty()
                    } else {
                        seq![EventView::Streaming(frames)]
                    },
                    WorkView::Stream,
                ),
                (TaskView::Stream(_), OutcomeView::Done) => self.done(Seq::empty()),
                (_, OutcomeView::Failed(message)) => self.fail(message),
                (_, _) => self.fail(Failure::LostTrack.text()),
            },
        }
    }

    /// Gives up whatever is being done.
    pub open spec fn cancel(self) -> (WorkerView, StepView) {
        self.reset(TaskView::EndCancelled, true)
    }
}

impl Worker {
    pub fn new() -> (r: Self)
        ensures
            r@ == (WorkerView { session: None, screen: None, authenticated: false, task: None }),
    {
        Worker { session: None, screen: None, authenticated: false, task: None }
    }

    fn reset(&mut self, task: Task, drain: bool) -> (r: Step)
        ensures
            (final(self)@, r.view()) == old(self)@.reset(task.view(), drain),
    {
        let work = Work::Reset {
            screen: self.screen.is_some(),
            session: self.session.is_some(),
            drain,
        };
        self.session = None;
        self.screen = None;
        self.authenticated = false;
        self.task = Some(task);
        silent(work)
    }

    fn fail(&mut self, message: String) -> (r: Step)
        ensures
            (final(self)@, r.view()) == old(self)@.fail(message@),
    {
        self.reset(Task::End(Ending::Failed(message)), false)
    }

    fn done(&mut self, event: Event) -> (r: Step)
        ensures
            (final(self)@, r.view()) == old(self)@.done(seq![event.view()]),
    {
        self.task = None;
        telling(event, Work::Idle)
    }

    fn doing(&mut self, task: Task, work: Work) -> (r: Step)
        ensures
            (final(self)@, r.view()) == old(self)@.doing(task.view(), Seq::empty(), work.view()),
    {
        self.task = Some(task);
        silent(work)
    }

    fn doing_after(&mut self, event: Event, task: Task, work: Work) -> (r: Step)
        ensures
            (final(self)@, r.view()) == old(self)@.doing(
                task.view(),
                seq![event.view()],
                work.view(),
            ),
    {
        self.task = Some(task);
        telling(event, work)
    }

    /// Begins a command.
    pub fn execute(&mut self, command: Command) -> (r: Step)
        requires
            old(self)@.idle(),
        ensures
            (final(self)@, r.view()) == old(self)@.execute(command.view()),
    {
        match command {
            Command::Discover => self.doing_after(
                Event::Busy("Looking for AirPlay receivers…".to_owned()),
                Task::Virtual,
                Work::QueryVirtual,
            ),
            Command::Connect(device) => self.reset(Task::Clear(*device), false),
            Command::Pair(pin) => {
                let busy = Event::Busy("Verifying Apple TV code…".to_owned());
                if self.session.is_none() {
                    let step = self.fail(Failure::NoReceiver.message().to_owned());
                    telling(busy, step.work)
                } else {
                    self.doing_after(busy, Task::Pair, Work::Pair(pin))
                }
            },
            Command::ChooseScreen(mode) => {
                let busy = Event::Busy(choosing(mode));
                if self.screen.is_some() {
                    self.screen = None;
                    self.doing_after(busy, Task::CloseScreen(mode), Work::CloseScreen)
                } else {
                    self.doing_after(busy, Task::Select, Work::SelectScreen(mode))
                }
            },
            Command::StartMirroring(quality, latency) => {
                if !self.authenticated {
                    self.fail(Failure::NotConnected.message().to_owned())
                } else if self.screen.is_none() {
                    self.fail(Failure::NoScreen.message().to_owned())
                } else {
                    self.doing_after(
                        Event::Busy("Starting desktop and system audio sharing…".to_owned()),
                        Task::Detect(quality, latency),
                        Work::DetectEncoder(quality),
                    )
                }
            },
        }
    }

    /// Goes on after outside work.
    pub fn resume(&mut self, outcome: Outcome) -> (r: Step)
        ensures
            (final(self)@, r.view()) == old(self)@.resume(outcome.view()),
    {
        let task = match self.task.take() {
            None => {
                return silent(Work::Idle);
            },
            Some(task) => task,
        };
        match (task, outcome) {
            (Task::End(Ending::Failed(message)), _) => self.done(Event::Error(message)),
            (Task::End(Ending::Cancelled), _) => self.done(Event::Disconnected),
            (Task::Virtual, Outcome::Answer(supported)) => self.doing_after(
                Event::VirtualSupport(supported),
                Task::Scan,
                Work::Scan,
            ),
            (Task::Scan, Outcome::Devices(devices)) => self.done(
                Event::Devices(sort_by_name(devices)),
            ),
            (Task::Clear(device), _) => {
                let file = CredentialStore::file_name(device.hardware_address.as_str());
                self.doing_after(
                    Event::Busy(connecting(device.name.as_str())),
                    Task::Load(device),
                    Work::LoadIdentity(file),
                )
            },
            (Task::Load(device), Outcome::Answer(saved)) => {
                let key = device.key;
                self.doing(Task::Open(device, saved), Work::Open(key))
            },
            (Task::Open(device, saved), Outcome::Done) => {
                if saved {
                    self.doing(Task::Verify(device), Work::Verify)
                } else {
                    self.doing(Task::Pin(device), Work::RequestPin)
                }
            },
            (Task::Verify(device), Outcome::Done) => {
                let name = device.name.clone();
                self.session = Some(device);
                self.authenticated = true;
                self.done(Event::Authenticated(name))
            },
            (Task::Verify(device), Outcome::Failed(_)) => self.doing(
                Task::Close(device),
                Work::Close,
            ),
            (Task::Close(device), Outcome::Done) => {
                let key = device.key;
                self.doing(Task::Reopen(device), Work::Open(key))
            },
            (Task::Reopen(device), Outcome::Done) => self.doing(
                Task::Pin(device),
                Work::RequestPin,
            ),
            (Task::Pin(device), Outcome::Done) => {
                let name = device.name.clone();
                self.session = Some(device);
                self.done(Event::PinRequired(name))
            },
            (Task::Pair, Outcome::Done) => {
                let file = match &self.session {
                    None => None,
                    Some(device) => Some(
                        CredentialStore::file_name(device.hardware_address.as_str()),
                    ),
                };
                match file {
                    Some(file) => self.doing(Task::Save, Work::SaveIdentity(file)),
                    None => self.fail(Failure::NoReceiver.message().to_owned()),
                }
            },
            (Task::Save, Outcome::Done) => {
                let name = match &self.session {
                    None => None,
                    Some(device) => Some(device.name.clone()),
                };
                match name {
                    Some(name) => {
                        self.authenticated = true;
                        self.done(Event::Authenticated(name))
                    },
                    None => self.fail(Failure::NoReceiver.message().to_owned()),
                }
            },
            (Task::CloseScreen(mode), Outcome::Done) => self.doing(
                Task::Select,
                Work::SelectScreen(mode),
            ),
            (Task::Select, Outcome::Screen(screen)) => {
                self.screen = Some(screen);
                self.done(Event::ScreenSelected { size: screen.size, mode: screen.mode })
            },
            (Task::Detect(quality, latency), Outcome::Encoder(label)) => {
                let told = Event::EncoderSelected(label);
                if self.session.is_none() {
                    let step = self.fail(Failure::NotConnected.message().to_owned());
                    telling(told, step.work)
                } else {
                    self.doing_after(told, Task::Setup(quality), Work::Setup(quality, latency))
                }
            },
            (Task::Setup(quality), Outcome::Done) => self.doing(
                Task::Capture,
                Work::StartCapture(quality),
            ),
            (Task::Capture, Outcome::Done) => self.doing(Task::Stream(false), Work::Stream),
            (Task::Stream(told), Outcome::Progress(frames)) => {
                if told {
                    self.doing(Task::Stream(true), Work::Stream)
                } else {
                    self.doing_after(Event::Streaming(frames), Task::Stream(true), Work::Stream)
                }
            },
            (Task::Stream(_), Outcome::Done) => {
                self.task = None;
                silent(Work::Idle)
            },
            (_, Outcome::Failed(message)) => self.fail(message),
            (_, _) => self.fail(Failure::LostTrack.message().to_owned()),
        }
    }

    /// Gives up whatever is being done, and drops the commands that wait.
    pub fn cancel(&mut self) -> (r: Step)
        requires
            !old(self)@.ending(),
        ensures
            (final(self)@, r.view()) == old(self)@.cancel(),
    {
        self.reset(Task::End(Ending::Cancelled), true)
    }

    /// Whether a failed or cancelled command is being cleared away.
    pub fn is_ending(&self) -> (r: bool)
        ensures
            r == self@.ending(),
    {
        match &self.task {
            Some(Task::End(_)) => true,
            _ => false,
        }
    }

    /// Whether a command can begin.
    pub fn is_idle(&self) -> (r: bool)
        ensures
            r == self@.idle(),
    {
        self.task.is_none()
    }
}

/// A stream is being started or runs.
pub open spec fn mirrors(task: TaskView) -> bool {
    match task {
        TaskView::Detect(_, _) => true,
        TaskView::Setup(_) => true,
        TaskView::Capture => true,
        TaskView::Stream(_) => true,
        _ => false,
    }
}

/// Authentication belongs to a session; a stream needs authentication and a screen; a failed or
/// cancelled command has left nothing behind.
pub open spec fn well_formed(worker: WorkerView) -> bool {
    &&& worker.authenticated ==> worker.session is Some
    &&& worker.task matches Some(task) ==> mirrors(task) ==> worker.authenticated
        && worker.screen is Some
    &&& worker.task matches Some(TaskView::Pair) ==> worker.session is Some
    &&& worker.task matches Some(TaskView::Save) ==> worker.session is Some
    &&& worker.ending() ==> worker.session is None && worker.screen is None
}

/// Every step keeps the worker well formed.
pub proof fn steps_keep_worker_well_formed(
    worker: WorkerView,
    command: CommandView,
    outcome: OutcomeView,
)
    requires
        well_formed(worker),
    ensures
        well_formed(worker.execute(command).0),
        well_formed(worker.resume(outcome).0),
        well_formed(worker.cancel().0),
{
}

/// Work that belongs to a stream.
pub open spec fn is_stream_work(work: WorkView) -> bool {
    work is Setup || work is StartCapture || work is Stream
}

/// Mirroring is only ever worked on for an authenticated session with a chosen screen.
pub proof fn streams_need_authentication_and_screen(
    worker: WorkerView,
    command: CommandView,
    outcome: OutcomeView,
)
    requires
        well_formed(worker),
    ensures
        !is_stream_work(worker.execute(command).1.work),
        is_stream_work(worker.resume(outcome).1.work) ==> worker.authenticated && worker.session
            is Some && worker.screen is Some,
{
}

/// Capture starts only once the receiver has finished negotiation.
pub proof fn capture_starts_after_setup(worker: WorkerView, outcome: OutcomeView)
    requires
        worker.resume(outcome).1.work is StartCapture,
    ensures
        worker.task matches Some(TaskView::Setup(_)),
        outcome is Done,
{
}

/// The connection of a failed verification is closed before another is opened, and a code is
/// asked for only on the new one.
pub proof fn failed_verification_reopens_connection(
    worker: WorkerView,
    device: DeviceView,
    message: Seq<char>,
)
    requires
        worker.task == Some(TaskView::Verify(device)),
    ensures
        ({
            let (closing, step) = worker.resume(OutcomeView::Failed(message));
            let (opening, next) = closing.resume(OutcomeView::Done);
            let (asking, last) = opening.resume(OutcomeView::Done);
            &&& step.work == WorkView::Close
            &&& next.work == WorkView::Open(device.key)
            &&& last.work == WorkView::RequestPin
            &&& !closing.authenticated || worker.authenticated
            &&& step.events.len() == 0 && next.events.len() == 0 && last.events.len() == 0
        }),
{
}

/// A device counts as authenticated only after its identity was verified or a code accepted and
/// saved.
pub proof fn authentication_is_earned(worker: WorkerView, outcome: OutcomeView)
    requires
        !worker.authenticated,
        worker.resume(outcome).0.authenticated,
    ensures
        worker.task matches Some(TaskView::Verify(_)) || worker.task == Some(TaskView::Save),
        outcome is Done,
{
}

/// Whatever fails is cleared away: the next step tells of the failure, and nothing is connected
/// or chosen any more.
pub proof fn failures_clear_everything(
    worker: WorkerView,
    message: Seq<char>,
    outcome: OutcomeView,
)
    ensures
        ({
            let (failed, step) = worker.fail(message);
            let (after, last) = failed.resume(outcome);
            &&& after == (WorkerView {
                session: None,
                screen: None,
                authenticated: false,
                task: None,
            })
            &&& last.events == seq![EventView::Error(message)]
            &&& step.work == (WorkView::Reset {
                screen: worker.screen is Some,
                session: worker.session is Some,
                drain: false,
            })
        }),
{
}

/// A cancelled worker ends disconnected, whatever it was doing.
pub proof fn cancelling_disconnects(worker: WorkerView, outcome: OutcomeView)
    ensures
        worker.cancel().0.resume(outcome) == (
            WorkerView { session: None, screen: None, authenticated: false, task: None },
            (StepView { events: seq![EventView::Disconnected], work: WorkView::Idle }),
        ),
{
}

/// The interface is told of a running stream once, however often progress is made.
pub proof fn streaming_is_told_once(worker: WorkerView, first: u64, later: u64)
    requires
        worker.task == Some(TaskView::Stream(false)),
    ensures
        ({
            let (running, step) = worker.resume(OutcomeView::Progress(first));
            let (again, quiet) = running.resume(OutcomeView::Progress(later));
            &&& step.events == seq![EventView::Streaming(first)]
            &&& quiet.events.len() == 0
            &&& again == running
        }),
{
}

/// Where a command has led the worker, after the outcomes of all the work that it asked for so far.
pub open spec fn course(worker: WorkerView, command: CommandView, outcomes: Seq<OutcomeView>) -> (
    WorkerView,
    StepView,
)
    decreases outcomes.len(),
{
    if outcomes.len() == 0 {
        worker.execute(command)
    } else {
        course(worker, command, outcomes.drop_last()).0.resume(outcomes.last())
    }
}

/// Everything that a command has told the interface so far.
pub open spec fn told(worker: WorkerView, command: CommandView, outcomes: Seq<OutcomeView>) -> Seq<
    EventView,
>
    decreases outcomes.len(),
{
    let now = course(worker, command, outcomes).1.events;
    if outcomes.len() == 0 {
        now
    } else {
        told(worker, command, outcomes.drop_last()) + now
    }
}

/// The worker asks for this work once it has these outcomes.
pub open spec fn asks_for(
    worker: WorkerView,
    command: CommandView,
    outcomes: Seq<OutcomeView>,
    work: WorkView,
) -> bool {
    course(worker, command, outcomes).1.work == work
}

proof fn lemma_course(worker: WorkerView, command: CommandView, outcomes: Seq<OutcomeView>, next: OutcomeView)
    ensures
        course(worker, command, outcomes.push(next)) == course(
            worker,
            command,
            outcomes,
        ).0.resume(next),
        told(worker, command, outcomes.push(next)) == told(worker, command, outcomes) + course(
            worker,
            command,
            outcomes,
        ).0.resume(next).1.events,
{
    assert(outcomes.push(next).drop_last() =~= outcomes);
}

/// Connecting to a receiver closes what was connected before, looks for the identity saved for that
/// receiver, and opens a connection to it. Where the identity is verified, the receiver is
/// authenticated and its name told.
pub proof fn known_receivers_are_verified(worker: WorkerView, device: DeviceView, cleared: OutcomeView)
    ensures
        ({
            let command = CommandView::Connect(device);
            let empty = Seq::<OutcomeView>::empty();
            let one = empty.push(cleared);
            let two = one.push(OutcomeView::Answer(true));
            let three = two.push(OutcomeView::Done);
            let four = three.push(OutcomeView::Done);
            let end = course(worker, command, four).0;
            &&& asks_for(
                worker,
                command,
                empty,
                WorkView::Reset {
                    screen: worker.screen is Some,
                    session: worker.session is Some,
                    drain: false,
                },
            )
            &&& asks_for(
                worker,
                command,
                one,
                WorkView::LoadIdentity(CredentialStore::name_for(device.hardware_address)),
            )
            &&& asks_for(worker, command, two, WorkView::Open(device.key))
            &&& asks_for(worker, command, three, WorkView::Verify)
            &&& end == (WorkerView {
                session: Some(device),
                screen: None,
                authenticated: true,
                task: None,
            })
            &&& told(worker, command, four) == seq![
                EventView::Busy("Connecting to "@ + device.name + "…"@),
                EventView::Authenticated(device.name),
            ]
        }),
{
    let command = CommandView::Connect(device);
    let empty = Seq::<OutcomeView>::empty();
    let one = empty.push(cleared);
    let two = one.push(OutcomeView::Answer(true));
    let three = two.push(OutcomeView::Done);
    lemma_course(worker, command, empty, cleared);
    lemma_course(worker, command, one, OutcomeView::Answer(true));
    lemma_course(worker, command, two, OutcomeView::Done);
    lemma_course(worker, command, three, OutcomeView::Done);
    assert(told(worker, command, three.push(OutcomeView::Done)) =~= seq![
        EventView::Busy("Connecting to "@ + device.name + "…"@),
        EventView::Authenticated(device.name),
    ]);
}

/// A receiver without a saved identity is asked for its code. The code that the user enters is
/// handed on as it is; once it is accepted, the new identity is saved for the same receiver, and
/// only then is it authenticated.
pub proof fn new_receivers_are_paired(
    worker: WorkerView,
    device: DeviceView,
    cleared: OutcomeView,
    pin: Seq<char>,
)
    ensures
        ({
            let command = CommandView::Connect(device);
            let empty = Seq::<OutcomeView>::empty();
            let three = empty.push(cleared).push(OutcomeView::Answer(false)).push(
                OutcomeView::Done,
            );
            let four = three.push(OutcomeView::Done);
            let waiting = course(worker, command, four).0;
            let pair = CommandView::Pair(pin);
            let one = empty.push(OutcomeView::Done);
            let two = one.push(OutcomeView::Done);
            &&& asks_for(worker, command, three, WorkView::RequestPin)
            &&& waiting == (WorkerView {
                session: Some(device),
                screen: None,
                authenticated: false,
                task: None,
            })
            &&& told(worker, command, four).last() == EventView::PinRequired(device.name)
            &&& asks_for(waiting, pair, empty, WorkView::Pair(pin))
            &&& asks_for(
                waiting,
                pair,
                one,
                WorkView::SaveIdentity(CredentialStore::name_for(device.hardware_address)),
            )
            &&& !course(waiting, pair, one).0.authenticated
            &&& course(waiting, pair, two).0 == (WorkerView { authenticated: true, ..waiting })
            &&& told(waiting, pair, two).last() == EventView::Authenticated(device.name)
        }),
{
    let command = CommandView::Connect(device);
    let empty = Seq::<OutcomeView>::empty();
    let first = empty.push(cleared);
    let second = first.push(OutcomeView::Answer(false));
    let three = second.push(OutcomeView::Done);
    lemma_course(worker, command, empty, cleared);
    lemma_course(worker, command, first, OutcomeView::Answer(false));
    lemma_course(worker, command, second, OutcomeView::Done);
    lemma_course(worker, command, three, OutcomeView::Done);
    let waiting = course(worker, command, three.push(OutcomeView::Done)).0;
    let pair = CommandView::Pair(pin);
    lemma_course(waiting, pair, empty, OutcomeView::Done);
    lemma_course(waiting, pair, empty.push(OutcomeView::Done), OutcomeView::Done);
}

/// Sharing tests the encoders for the chosen quality, sets the stream up with the chosen quality
/// and latency, captures in that quality and then runs. The interface is told which encoder was
/// picked. The session, the screen and the authentication stay as they are.
pub proof fn sharing_keeps_to_the_choices(
    worker: WorkerView,
    quality: VideoQuality,
    latency: LatencyMode,
    label: Seq<char>,
)
    requires
        worker.authenticated,
        worker.session is Some,
        worker.screen is Some,
    ensures
        ({
            let command = CommandView::StartMirroring(quality, latency);
            let empty = Seq::<OutcomeView>::empty();
            let one = empty.push(OutcomeView::Encoder(label));
            let two = one.push(OutcomeView::Done);
            let three = two.push(OutcomeView::Done);
            let running = course(worker, command, three).0;
            &&& asks_for(worker, command, empty, WorkView::DetectEncoder(quality))
            &&& asks_for(worker, command, one, WorkView::Setup(quality, latency))
            &&& asks_for(worker, command, two, WorkView::StartCapture(quality))
            &&& asks_for(worker, command, three, WorkView::Stream)
            &&& told(worker, command, three).contains(EventView::EncoderSelected(label))
            &&& running == (WorkerView { task: running.task, ..worker })
        }),
{
    let command = CommandView::StartMirroring(quality, latency);
    let empty = Seq::<OutcomeView>::empty();
    let one = empty.push(OutcomeView::Encoder(label));
    let two = one.push(OutcomeView::Done);
    lemma_course(worker, command, empty, OutcomeView::Encoder(label));
    lemma_course(worker, command, one, OutcomeView::Done);
    lemma_course(worker, command, two, OutcomeView::Done);
    assert(told(worker, command, two.push(OutcomeView::Done))[1] == EventView::EncoderSelected(
        label,
    ));
}

/// Choosing a screen closes one that was chosen before, then asks for one in the chosen mode. The
/// worker keeps the screen that came back, and tells its size and mode.
pub proof fn the_chosen_screen_is_kept(worker: WorkerView, mode: CaptureMode, screen: ScreenCapture)
    ensures
        ({
            let command = CommandView::ChooseScreen(mode);
            let empty = Seq::<OutcomeView>::empty();
            let before = if worker.screen is Some {
                empty.push(OutcomeView::Done)
            } else {
                empty
            };
            let after = before.push(OutcomeView::Screen(screen));
            &&& worker.screen is Some ==> asks_for(worker, command, empty, WorkView::CloseScreen)
            &&& asks_for(worker, command, before, WorkView::SelectScreen(mode))
            &&& course(worker, command, after).0 == (WorkerView {
                screen: Some(screen),
                task: None,
                ..worker
            })
            &&& told(worker, command, after).last() == (EventView::ScreenSelected {
                size: screen.size,
                mode: screen.mode,
            })
        }),
{
    let command = CommandView::ChooseScreen(mode);
    let empty = Seq::<OutcomeView>::empty();
    lemma_course(worker, command, empty, OutcomeView::Done);
    lemma_course(worker, command, empty.push(OutcomeView::Done), OutcomeView::Screen(screen));
    lemma_course(worker, command, empty, OutcomeView::Screen(screen));
}

/// Looking for receivers tells whether the desktop can be extended and lists every receiver that
/// was found, and changes nothing else.
pub proof fn discovery_lists_what_was_found(
    worker: WorkerView,
    supported: bool,
    devices: Seq<DeviceView>,
)
    ensures
        ({
            let command = CommandView::Discover;
            let empty = Seq::<OutcomeView>::empty();
            let one = empty.push(OutcomeView::Answer(supported));
            let two = one.push(OutcomeView::Devices(devices));
            let events = told(worker, command, two);
            &&& asks_for(worker, command, empty, WorkView::QueryVirtual)
            &&& asks_for(worker, command, one, WorkView::Scan)
            &&& course(worker, command, two).0 == (WorkerView { task: None, ..worker })
            &&& events.contains(EventView::VirtualSupport(supported))
            &&& events.last() matches EventView::Devices(listed) && listed.to_multiset()
                == devices.to_multiset()
        }),
{
    let command = CommandView::Discover;
    let empty = Seq::<OutcomeView>::empty();
    let one = empty.push(OutcomeView::Answer(supported));
    lemma_course(worker, command, empty, OutcomeView::Answer(supported));
    lemma_course(worker, command, one, OutcomeView::Devices(devices));
    listing_keeps_devices(devices);
    assert(told(worker, command, one.push(OutcomeView::Devices(devices)))[1]
        == EventView::VirtualSupport(supported));
}

/// Work that fails is told with its own reason, after everything was closed; only a failed
/// verification goes on, to ask for a code.
pub proof fn failed_work_is_told(worker: WorkerView, message: Seq<char>, cleared: OutcomeView)
    requires
        worker.task matches Some(task) && !(task is Verify) && !(task is Clear),
        !worker.ending(),
    ensures
        ({
            let (failed, step) = worker.resume(OutcomeView::Failed(message));
            let (after, last) = failed.resume(cleared);
            &&& step.work == (WorkView::Reset {
                screen: worker.screen is Some,
                session: worker.session is Some,
                drain: false,
            })
            &&& step.events.len() == 0
            &&& last.events == seq![EventView::Error(message)]
            &&& after.idle() && after.session is None && after.screen is None
                && !after.authenticated
        }),
{
}

/// Cancelling closes whatever is connected or chosen and drops the commands that wait, and tells
/// nothing until that is done.
pub proof fn cancelling_closes_everything(worker: WorkerView)
    ensures
        worker.cancel().1 == (StepView {
            events: Seq::empty(),
            work: WorkView::Reset {
                screen: worker.screen is Some,
                session: worker.session is Some,
                drain: true,
            },
        }),
        worker.cancel().0.session is None,
        worker.cancel().0.screen is None,
        !worker.cancel().0.authenticated,
{
}

/// A command that comes too early is refused with its reason: a code without a receiver, sharing
/// without authentication or without a screen.
pub proof fn commands_out_of_turn_are_refused(
    worker: WorkerView,
    pin: Seq<char>,
    quality: VideoQuality,
    latency: LatencyMode,
    cleared: OutcomeView,
)
    ensures
        worker.session is None ==> worker.execute(CommandView::Pair(pin)).0.resume(
            cleared,
        ).1.events == seq![EventView::Error(Failure::NoReceiver.text())],
        !worker.authenticated ==> worker.execute(
            CommandView::StartMirroring(quality, latency),
        ).0.resume(cleared).1.events == seq![EventView::Error(Failure::NotConnected.text())],
        worker.authenticated && worker.screen is None ==> worker.execute(
            CommandView::StartMirroring(quality, latency),
        ).0.resume(cleared).1.events == seq![EventView::Error(Failure::NoScreen.text())],
{
}

} // verus!
