//! The window's state: what events, keys and clicks do to it.

use crate::backend::{Command, CommandView, Event, EventView};
use crate::devices::{device_views, Device, DeviceView};
use crate::failure::Failure;
use crate::settings::{CaptureMode, LatencyMode, VideoQuality};
use crate::text::{
    chars_of, decimal, digit_char, is_digits, push_decimal, push_signed, same_text, signed_decimal,
    text_of,
};
use vstd::prelude::*;
use vstd::string::*;

verus! {

#[derive(Clone, Copy, Debug, PartialEq, Eq, Structural)]
pub enum Page {
    Connection,
    Sharing,
    Settings,
}

/// Something that can be clicked.
#[derive(Clone, Copy, Debug, PartialEq, Eq, Structural)]
pub enum Control {
    /// Goes to a page of the navigation.
    Page(Page),
    /// Stops whatever is going on.
    Stop,
    /// Goes from the connection page to the sharing page.
    Continue,
    Digit(u8),
    ClearPin,
    Backspace,
    Authorize,
    Refresh,
    /// Connects to a device of the list.
    Device(usize),
    Choose(CaptureMode),
    Quality(VideoQuality),
    Latency(LatencyMode),
    Start,
    DarkMode,
}

/// What a key or a click asks for.
pub struct Reaction {
    /// Cancel what the worker does.
    pub disconnect: bool,
    /// Hand a command to the worker.
    pub command: Option<Command>,
    /// Save this appearance: whether it is the dark one.
    pub save: Option<bool>,
}

pub struct ReactionView {
    pub disconnect: bool,
    pub command: Option<CommandView>,
    pub save: Option<bool>,
}

impl Reaction {
    pub open spec fn view(self) -> ReactionView {
        ReactionView {
            disconnect: self.disconnect,
            command: match self.command {
                None => None,
                Some(command) => Some(command.view()),
            },
            save: self.save,
        }
    }
}

/// Nothing is asked for.
pub open spec fn nothing() -> ReactionView {
    ReactionView { disconnect: false, command: None, save: None }
}

/// A command is handed to the worker.
pub open spec fn asks(command: CommandView) -> ReactionView {
    ReactionView { disconnect: false, command: Some(command), save: None }
}

fn no_reaction() -> (r: Reaction)
    ensures
        r.view() == nothing(),
{
    Reaction { disconnect: false, command: None, save: None }
}

fn commanding(command: Command) -> (r: Reaction)
    ensures
        r.view() == asks(command.view()),
{
    Reaction { disconnect: false, command: Some(command), save: None }
}

/// The state of the window.
pub struct InterfaceView {
    pub page: Page,
    pub dark_mode: bool,
    pub devices: Seq<DeviceView>,
    pub status: Seq<char>,
    pub receiver: Option<Seq<char>>,
    pub pin_required: bool,
    pub pin: Seq<u8>,
    pub busy: bool,
    pub discovering: bool,
    pub authenticated: bool,
    pub streaming: bool,
    pub screen: Option<Seq<char>>,
    pub quality: VideoQuality,
    pub latency: LatencyMode,
    pub encoder: Seq<char>,
    pub capture_mode: CaptureMode,
    pub virtual_supported: Option<bool>,
    pub error: bool,
}

/// The window.
pub struct Spielab {
    pub page: Page,
    pub dark_mode: bool,
    pub devices: Vec<Device>,
    pub status: String,
    pub receiver: Option<String>,
    pub pin_required: bool,
    /// The digits entered so far, as numbers.
    pub pin: Vec<u8>,
    pub busy: bool,
    pub discovering: bool,
    pub authenticated: bool,
    pub streaming: bool,
    pub screen: Option<String>,
    pub quality: VideoQuality,
    pub latency: LatencyMode,
    pub encoder: String,
    pub capture_mode: CaptureMode,
    pub virtual_supported: Option<bool>,
    pub error: bool,
}

impl View for Spielab {
    type V = InterfaceView;

    open spec fn view(&self) -> InterfaceView {
        InterfaceView {
            page: self.page,
            dark_mode: self.dark_mode,
            devices: device_views(self.devices@),
            status: self.status@,
            receiver: text_of(self.receiver),
            pin_required: self.pin_required,
            pin: self.pin@,
            busy: self.busy,
            discovering: self.discovering,
            authenticated: self.authenticated,
            streaming: self.streaming,
            screen: text_of(self.screen),
            quality: self.quality,
            latency: self.latency,
            encoder: self.encoder@,
            capture_mode: self.capture_mode,
            virtual_supported: self.virtual_supported,
            error: self.error,
        }
    }
}

/// Entered digits as text.
pub open spec fn pin_text(pin: Seq<u8>) -> Seq<char> {
    pin.map_values(|digit: u8| digit_char(digit as nat))
}

/// Every entered digit is one, and there are no more than a code has.
pub open spec fn valid_pin(pin: Seq<u8>) -> bool {
    pin.len() <= 4 && forall|i: int| 0 <= i < pin.len() ==> #[trigger] pin[i] < 10
}

fn write_pin(pin: &Vec<u8>) -> (r: String)
    requires
        valid_pin(pin@),
    ensures
        r@ == pin_text(pin@),
{
    let mut r = String::new();
    let mut at: usize = 0;
    assert(r@ =~= pin_text(pin@.take(0)));
    while at < pin.len()
        invariant
            at <= pin@.len(),
            valid_pin(pin@),
            r@ == pin_text(pin@.take(at as int)),
        decreases pin@.len() - at,
    {
        assert(pin@[at as int] < 10);
        push_decimal(&mut r, pin[at] as u64);
        assert(decimal(pin@[at as int] as nat) =~= seq![digit_char(pin@[at as int] as nat)]);
        assert(pin_text(pin@.take(at + 1)) =~= pin_text(pin@.take(at as int)) + seq![
            digit_char(pin@[at as int] as nat),
        ]);
        at = at + 1;
    }
    assert(pin@.take(at as int) =~= pin@);
    r
}

/// The name of the receiver, where one is known.
pub open spec fn receiver_text(receiver: Option<Seq<char>>) -> Seq<char> {
    match receiver {
        Some(name) => name,
        None => "Apple TV"@,
    }
}

/// What is said of a chosen screen.
pub open spec fn screen_text(size: Option<(i32, i32)>, mode: CaptureMode) -> Seq<char> {
    match size {
        Some(size) => mode.label_text() + " · "@ + signed_decimal(size.0 as int) + " × "@
            + signed_decimal(size.1 as int),
        None => mode.label_text(),
    }
}

fn describe_screen(size: Option<(i32, i32)>, mode: CaptureMode) -> (r: String)
    ensures
        r@ == screen_text(size, mode),
{
    let mut r = mode.label().to_owned();
    if let Some(size) = size {
        r.append(" · ");
        push_signed(&mut r, size.0);
        r.append(" × ");
        push_signed(&mut r, size.1);
    }
    r
}

/// What is said once a screen is chosen.
pub open spec fn selected_text(mode: CaptureMode) -> Seq<char> {
    match mode {
        CaptureMode::Mirror => "Screen selected. Start sharing to send your desktop and system audio."@,
        CaptureMode::Extend => "Extended display created. Move windows onto it, then start sharing. Arrange it in your desktop’s Display Settings."@,
    }
}

/// What is said once the search for receivers ends.
pub open spec fn found_text(count: nat) -> Seq<char> {
    if count == 0 {
        "No receivers found. Check that Apple TV is awake and on the same network."@
    } else {
        decimal(count) + " AirPlay receiver(s) found"@
    }
}

fn found_status(count: usize) -> (r: String)
    ensures
        r@ == found_text(count as nat),
{
    if count == 0 {
        "No receivers found. Check that Apple TV is awake and on the same network.".to_owned()
    } else {
        let mut status = String::new();
        push_decimal(&mut status, count as u64);
        status.append(" AirPlay receiver(s) found");
        assert(status@ =~= found_text(count as nat));
        status
    }
}

impl InterfaceView {
    /// Back to the state without a receiver.
    pub open spec fn reset(self, status: Seq<char>) -> InterfaceView {
        InterfaceView {
            status,
            receiver: None,
            authenticated: false,
            streaming: false,
            discovering: false,
            pin_required: false,
            pin: Seq::empty(),
            screen: None,
            page: if self.page == Page::Sharing {
                Page::Connection
            } else {
                self.page
            },
            ..self
        }
    }

    /// The worker has answered: it is not busy, and what went wrong before is over.
    pub open spec fn settled(self, still_discovering: bool) -> InterfaceView {
        InterfaceView {
            busy: false,
            error: false,
            discovering: still_discovering && self.discovering,
            ..self
        }
    }

    pub open spec fn showing_pin(self, name: Seq<char>) -> InterfaceView {
        InterfaceView {
            status: "Enter the four-digit code shown on "@ + name,
            receiver: Some(name),
            pin_required: true,
            pin: Seq::empty(),
            ..self
        }
    }

    pub open spec fn showing_authenticated(self, name: Seq<char>) -> InterfaceView {
        InterfaceView {
            status: "Authenticated with "@ + name,
            receiver: Some(name),
            authenticated: true,
            page: Page::Sharing,
            pin_required: false,
            pin: Seq::empty(),
            ..self
        }
    }

    pub open spec fn showing_screen(
        self,
        size: Option<(i32, i32)>,
        mode: CaptureMode,
    ) -> InterfaceView {
        InterfaceView {
            capture_mode: mode,
            screen: Some(screen_text(size, mode)),
            status: selected_text(mode),
            ..self
        }
    }

    pub open spec fn showing_stream(self) -> InterfaceView {
        InterfaceView {
            streaming: true,
            busy: true,
            status: "Sharing to "@ + receiver_text(self.receiver) + " · System audio included"@,
            ..self
        }
    }

    /// The window after an event from the worker.
    pub open spec fn after(self, event: EventView) -> InterfaceView {
        match event {
            EventView::EncoderSelected(encoder) => InterfaceView { encoder, ..self },
            EventView::VirtualSupport(supported) => InterfaceView {
                virtual_supported: Some(supported),
                ..self
            },
            EventView::Devices(devices) => InterfaceView {
                status: found_text(devices.len()),
                devices,
                ..self.settled(false)
            },
            EventView::Busy(status) => InterfaceView { status, busy: true, ..self.settled(true) },
            EventView::PinRequired(name) => self.settled(false).showing_pin(name),
            EventView::Authenticated(name) => self.settled(false).showing_authenticated(name),
            EventView::ScreenSelected { size, mode } => self.settled(false).showing_screen(
                size,
                mode,
            ),
            EventView::Streaming(_) => self.settled(false).showing_stream(),
            EventView::Disconnected => self.settled(false).reset("Disconnected"@),
            EventView::Error(message) => InterfaceView {
                error: true,
                ..self.settled(false).reset(message)
            },
        }
    }

    /// The window after the worker took a command or not.
    pub open spec fn sent(self, discovering: bool, accepted: bool) -> InterfaceView {
        if accepted {
            InterfaceView {
                busy: true,
                discovering,
                error: false,
                status: if discovering {
                    "Looking for AirPlay receivers…"@
                } else {
                    self.status
                },
                ..self
            }
        } else {
            InterfaceView {
                discovering: false,
                status: Failure::WorkerUnavailable.text(),
                error: true,
                ..self
            }
        }
    }

    /// The window after a digit was entered.
    pub open spec fn with_digit(self, digit: u8) -> InterfaceView {
        if self.pin_required && !self.busy && self.pin.len() < 4 && digit < 10 {
            InterfaceView { pin: self.pin.push(digit), ..self }
        } else {
            self
        }
    }

    /// The window without the digit entered last.
    pub open spec fn without_digit(self) -> InterfaceView {
        if self.pin.len() > 0 {
            InterfaceView { pin: self.pin.drop_last(), ..self }
        } else {
            self
        }
    }

    /// The window after the code was handed to the worker.
    pub open spec fn authorizing(self) -> (InterfaceView, ReactionView) {
        (
            InterfaceView { pin: Seq::empty(), ..self },
            asks(CommandView::Pair(pin_text(self.pin))),
        )
    }

    /// The window after a key, and what it asks for.
    pub open spec fn key(self, key: Seq<char>) -> (InterfaceView, ReactionView) {
        let reaction = ReactionView { disconnect: key == "escape"@, ..nothing() };
        if !self.pin_required || self.busy || self.page != Page::Connection {
            (self, reaction)
        } else if key == "backspace"@ {
            (self.without_digit(), reaction)
        } else if key == "enter"@ && self.pin.len() == 4 {
            self.authorizing()
        } else if key.len() == 1 && '0' <= key[0] <= '9' {
            (self.with_digit((key[0] as u8 - '0' as u8) as u8), reaction)
        } else {
            (self, reaction)
        }
    }

    /// The window after a click, and what it asks for.
    pub open spec fn click(self, control: Control) -> (InterfaceView, ReactionView) {
        match control {
            Control::Page(page) => if page != Page::Sharing || self.authenticated {
                (InterfaceView { page, ..self }, nothing())
            } else {
                (self, nothing())
            },
            Control::Stop => if self.busy || self.authenticated || self.pin_required {
                (
                    InterfaceView { status: "Disconnecting…"@, busy: true, ..self },
                    ReactionView { disconnect: true, ..nothing() },
                )
            } else {
                (self, nothing())
            },
            Control::Continue => (InterfaceView { page: Page::Sharing, ..self }, nothing()),
            Control::Digit(digit) => (self.with_digit(digit), nothing()),
            Control::ClearPin => if self.busy {
                (self, nothing())
            } else {
                (InterfaceView { pin: Seq::empty(), ..self }, nothing())
            },
            Control::Backspace => if self.busy {
                (self, nothing())
            } else {
                (self.without_digit(), nothing())
            },
            Control::Authorize => if !self.busy && self.pin.len() == 4 {
                self.authorizing()
            } else {
                (self, nothing())
            },
            Control::Refresh => if !self.busy {
                (self, asks(CommandView::Discover))
            } else {
                (self, nothing())
            },
            Control::Device(index) => if !self.busy && !self.authenticated && index
                < self.devices.len() {
                let device = self.devices[index as int];
                (
                    InterfaceView { receiver: Some(device.name), ..self },
                    asks(CommandView::Connect(device)),
                )
            } else {
                (self, nothing())
            },
            Control::Choose(mode) => if self.authenticated && !self.busy && (mode
                == CaptureMode::Mirror || self.virtual_supported == Some(true)) {
                (self, asks(CommandView::ChooseScreen(mode)))
            } else {
                (self, nothing())
            },
            Control::Quality(quality) => if !self.busy {
                (InterfaceView { quality, ..self }, nothing())
            } else {
                (self, nothing())
            },
            Control::Latency(latency) => if !self.busy {
                (InterfaceView { latency, ..self }, nothing())
            } else {
                (self, nothing())
            },
            Control::Start => if self.authenticated && !self.busy && self.screen is Some {
                (self, asks(CommandView::StartMirroring(self.quality, self.latency)))
            } else {
                (self, nothing())
            },
            Control::DarkMode => (
                self.toggled(),
                ReactionView { save: Some(!self.dark_mode), ..nothing() },
            ),
        }
    }

    /// The window in the other appearance.
    pub open spec fn toggled(self) -> InterfaceView {
        InterfaceView { dark_mode: !self.dark_mode, ..self }
    }

    /// The window after its appearance could not be saved.
    pub open spec fn save_failed(self, reason: Seq<char>) -> InterfaceView {
        InterfaceView { status: "Could not save appearance: "@ + reason, error: true, ..self }
    }
}

/// The window when it opens: dark unless a light one was saved.
pub open spec fn opened(dark_mode: Option<bool>) -> InterfaceView {
    InterfaceView {
        page: Page::Connection,
        dark_mode: match dark_mode {
            Some(dark) => dark,
            None => true,
        },
        devices: Seq::empty(),
        status: "Looking for AirPlay receivers…"@,
        receiver: None,
        pin_required: false,
        pin: Seq::empty(),
        busy: true,
        discovering: true,
        authenticated: false,
        streaming: false,
        screen: None,
        quality: VideoQuality::High,
        latency: LatencyMode::Interactive,
        encoder: "Automatic encoder"@,
        capture_mode: CaptureMode::Mirror,
        virtual_supported: None,
        error: false,
    }
}

impl Spielab {
    pub fn new(dark_mode: Option<bool>) -> (r: Self)
        ensures
            r@ == opened(dark_mode),
    {
        let r = Spielab {
            page: Page::Connection,
            dark_mode: match dark_mode {
                Some(dark) => dark,
                None => true,
            },
            devices: Vec::new(),
            status: "Looking for AirPlay receivers…".to_owned(),
            receiver: None,
            pin_required: false,
            pin: Vec::new(),
            busy: true,
            discovering: true,
            authenticated: false,
            streaming: false,
            screen: None,
            quality: VideoQuality::default(),
            latency: LatencyMode::default(),
            encoder: "Automatic encoder".to_owned(),
            capture_mode: CaptureMode::Mirror,
            virtual_supported: None,
            error: false,
        };
        assert(r@.devices =~= Seq::empty());
        assert(r@.pin =~= Seq::empty());
        r
    }

    fn clear_pin(&mut self)
        ensures
            final(self)@ == (InterfaceView { pin: Seq::empty(), ..old(self)@ }),
    {
        self.pin = Vec::new();
        assert(self@.pin =~= Seq::empty());
    }

    pub fn reset(&mut self, status: String)
        ensures
            final(self)@ == old(self)@.reset(status@),
    {
        self.status = status;
        self.receiver = None;
        self.authenticated = false;
        self.streaming = false;
        self.discovering = false;
        self.pin_required = false;
        self.clear_pin();
        self.screen = None;
        if self.page == Page::Sharing {
            self.page = Page::Connection;
        }
    }

    fn settle(&mut self, still_discovering: bool)
        ensures
            final(self)@ == old(self)@.settled(still_discovering),
    {
        self.busy = false;
        self.error = false;
        if !still_discovering {
            self.discovering = false;
        }
    }

    fn show_pin(&mut self, name: String)
        ensures
            final(self)@ == old(self)@.showing_pin(name@),
    {
        let mut status = "Enter the four-digit code shown on ".to_owned();
        status.append(name.as_str());
        self.status = status;
        self.receiver = Some(name);
        self.pin_required = true;
        self.clear_pin();
    }

    fn show_authenticated(&mut self, name: String)
        ensures
            final(self)@ == old(self)@.showing_authenticated(name@),
    {
        let mut status = "Authenticated with ".to_owned();
        status.append(name.as_str());
        self.status = status;
        self.receiver = Some(name);
        self.authenticated = true;
        self.page = Page::Sharing;
        self.pin_required = false;
        self.clear_pin();
    }

    fn show_screen(&mut self, size: Option<(i32, i32)>, mode: CaptureMode)
        ensures
            final(self)@ == old(self)@.showing_screen(size, mode),
    {
        self.capture_mode = mode;
        self.screen = Some(describe_screen(size, mode));
        self.status =
        match mode {
            CaptureMode::Mirror => "Screen selected. Start sharing to send your desktop and system audio.".to_owned(),
            CaptureMode::Extend => "Extended display created. Move windows onto it, then start sharing. Arrange it in your desktop’s Display Settings.".to_owned(),
        };
    }

    fn show_streaming(&mut self)
        ensures
            final(self)@ == old(self)@.showing_stream(),
    {
        self.streaming = true;
        self.busy = true;
        let mut status = "Sharing to ".to_owned();
        match &self.receiver {
            Some(name) => {
                status.append(name.as_str());
            },
            None => {
                status.append("Apple TV");
            },
        }
        status.append(" · System audio included");
        self.status = status;
    }

    fn show_devices(&mut self, devices: Vec<Device>)
        ensures
            final(self)@ == old(self)@.after(EventView::Devices(device_views(devices@))),
    {
        self.settle(false);
        self.status = found_status(devices.len());
        self.devices = devices;
    }

    fn show_busy(&mut self, status: String)
        ensures
            final(self)@ == old(self)@.after(EventView::Busy(status@)),
    {
        self.settle(true);
        self.status = status;
        self.busy = true;
    }

    fn show_error(&mut self, message: String)
        ensures
            final(self)@ == old(self)@.after(EventView::Error(message@)),
    {
        self.settle(false);
        self.reset(message);
        self.error = true;
    }

    /// Takes in an event from the worker.
    pub fn event(&mut self, event: Event)
        ensures
            final(self)@ == old(self)@.after(event.view()),
    {
        match event {
            Event::EncoderSelected(encoder) => {
                self.encoder = encoder;
            },
            Event::VirtualSupport(supported) => {
                self.virtual_supported = Some(supported);
            },
            Event::Devices(devices) => {
                self.show_devices(devices);
            },
            Event::Busy(status) => {
                self.show_busy(status);
            },
            Event::PinRequired(name) => {
                self.settle(false);
                self.show_pin(name);
            },
            Event::Authenticated(name) => {
                self.settle(false);
                self.show_authenticated(name);
            },
            Event::ScreenSelected { size, mode } => {
                self.settle(false);
                self.show_screen(size, mode);
            },
            Event::Streaming(_) => {
                self.settle(false);
                self.show_streaming();
            },
            Event::Disconnected => {
                self.settle(false);
                self.reset("Disconnected".to_owned());
            },
            Event::Error(message) => {
                self.show_error(message);
            },
        }
    }

    /// Takes in whether the worker took a command.
    pub fn sent(&mut self, discovering: bool, accepted: bool)
        ensures
            final(self)@ == old(self)@.sent(discovering, accepted),
    {
        if accepted {
            self.busy = true;
            self.discovering = discovering;
            self.error = false;
            if discovering {
                self.status = "Looking for AirPlay receivers…".to_owned();
            }
        } else {
            self.discovering = false;
            self.status = Failure::WorkerUnavailable.message().to_owned();
            self.error = true;
        }
    }

    /// Switches between the dark and the light appearance.
    pub fn toggle_dark_mode(&mut self)
        ensures
            final(self)@ == old(self)@.toggled(),
    {
        self.dark_mode = !self.dark_mode;
    }

    /// Takes in that the appearance could not be saved.
    pub fn appearance_not_saved(&mut self, reason: &str)
        ensures
            final(self)@ == old(self)@.save_failed(reason@),
    {
        let mut status = "Could not save appearance: ".to_owned();
        status.append(reason);
        self.status = status;
        self.error = true;
    }

    /// Enters a digit of the code.
    pub fn digit(&mut self, digit: u8)
        ensures
            final(self)@ == old(self)@.with_digit(digit),
    {
        if self.pin_required && !self.busy && self.pin.len() < 4 && digit < 10 {
            self.pin.push(digit);
        }
    }

    /// Takes back the digit entered last.
    fn backspace(&mut self)
        ensures
            final(self)@ == old(self)@.without_digit(),
    {
        let digit = self.pin.pop();
        assert(old(self)@.pin.len() > 0 ==> self@.pin =~= old(self)@.pin.drop_last());
        assert(old(self)@.pin.len() == 0 ==> self@.pin =~= old(self)@.pin);
    }

    fn authorize(&mut self) -> (r: Reaction)
        requires
            valid_pin(old(self)@.pin),
        ensures
            (final(self)@, r.view()) == old(self)@.authorizing(),
    {
        let pin = write_pin(&self.pin);
        self.clear_pin();
        commanding(Command::Pair(pin))
    }

    /// Takes in a key.
    pub fn key(&mut self, key: &str) -> (r: Reaction)
        requires
            valid_pin(old(self)@.pin),
        ensures
            (final(self)@, r.view()) == old(self)@.key(key@),
    {
        proof {
            reveal_strlit("escape");
            reveal_strlit("enter");
            reveal_strlit("backspace");
        }
        let mut reaction = no_reaction();
        if same_text(key, "escape") {
            reaction.disconnect = true;
        }
        if !self.pin_required || self.busy || self.page != Page::Connection {
            return reaction;
        }
        if same_text(key, "backspace") {
            self.backspace();
        } else if same_text(key, "enter") && self.pin.len() == 4 {
            return self.authorize();
        } else {
            let chars = chars_of(key);
            if chars.len() == 1 && '0' <= chars[0] && chars[0] <= '9' {
                self.digit(chars[0] as u8 - '0' as u8);
            }
        }
        reaction
    }

    /// Takes in a click.
    pub fn click(&mut self, control: Control) -> (r: Reaction)
        requires
            valid_pin(old(self)@.pin),
        ensures
            (final(self)@, r.view()) == old(self)@.click(control),
    {
        match control {
            Control::Page(page) => {
                if page != Page::Sharing || self.authenticated {
                    self.page = page;
                }
                no_reaction()
            },
            Control::Stop => {
                let mut reaction = no_reaction();
                if self.busy || self.authenticated || self.pin_required {
                    self.status = "Disconnecting…".to_owned();
                    self.busy = true;
                    reaction.disconnect = true;
                }
                reaction
            },
            Control::Continue => {
                self.page = Page::Sharing;
                no_reaction()
            },
            Control::Digit(digit) => {
                self.digit(digit);
                no_reaction()
            },
            Control::ClearPin => {
                if !self.busy {
                    self.clear_pin();
                }
                no_reaction()
            },
            Control::Backspace => {
                if !self.busy {
                    self.backspace();
                }
                no_reaction()
            },
            Control::Authorize => {
                if !self.busy && self.pin.len() == 4 {
                    self.authorize()
                } else {
                    no_reaction()
                }
            },
            Control::Refresh => {
                if !self.busy {
                    commanding(Command::Discover)
                } else {
                    no_reaction()
                }
            },
            Control::Device(index) => {
                if !self.busy && !self.authenticated && index < self.devices.len() {
                    let device = self.devices[index].copy();
                    self.receiver = Some(device.name.clone());
                    commanding(Command::Connect(Box::new(device)))
                } else {
                    no_reaction()
                }
            },
            Control::Choose(mode) => {
                let supported = match self.virtual_supported {
                    Some(supported) => supported,
                    None => false,
                };
                if self.authenticated && !self.busy && (mode == CaptureMode::Mirror || supported) {
                    commanding(Command::ChooseScreen(mode))
                } else {
                    no_reaction()
                }
            },
            Control::Quality(quality) => {
                if !self.busy {
                    self.quality = quality;
                }
                no_reaction()
            },
            Control::Latency(latency) => {
                if !self.busy {
                    self.latency = latency;
                }
                no_reaction()
            },
            Control::Start => {
                if self.authenticated && !self.busy && self.screen.is_some() {
                    commanding(Command::StartMirroring(self.quality, self.latency))
                } else {
                    no_reaction()
                }
            },
            Control::DarkMode => {
                self.toggle_dark_mode();
                let mut reaction = no_reaction();
                reaction.save = Some(self.dark_mode);
                reaction
            },
        }
    }
}

/// The sharing page is only shown to an authenticated session, which has a named receiver; a
/// code has at most four digits.
pub open spec fn well_formed(window: InterfaceView) -> bool {
    &&& window.page == Page::Sharing ==> window.authenticated
    &&& window.authenticated ==> window.receiver is Some
    &&& valid_pin(window.pin)
}

/// A control that the window can offer in its state: the way on to sharing only to an
/// authenticated session.
pub open spec fn offered(window: InterfaceView, control: Control) -> bool {
    match control {
        Control::Continue => window.authenticated,
        _ => true,
    }
}

/// Whatever happens, the window stays well formed.
pub proof fn window_stays_well_formed(
    window: InterfaceView,
    event: EventView,
    key: Seq<char>,
    control: Control,
    discovering: bool,
    accepted: bool,
)
    requires
        well_formed(window),
        offered(window, control),
    ensures
        well_formed(window.after(event)),
        well_formed(window.key(key).0),
        well_formed(window.click(control).0),
        well_formed(window.sent(discovering, accepted)),
{
}

/// A new window is well formed.
pub proof fn windows_open_well_formed(dark_mode: Option<bool>)
    ensures
        well_formed(opened(dark_mode)),
{
}

/// Every code that is handed to the worker has exactly four digits, and is not kept.
pub proof fn codes_have_four_digits(window: InterfaceView, key: Seq<char>, control: Control)
    requires
        well_formed(window),
    ensures
        window.key(key).1.command matches Some(CommandView::Pair(pin)) ==> pin.len() == 4
            && is_digits(pin) && window.key(key).0.pin.len() == 0,
        window.click(control).1.command matches Some(CommandView::Pair(pin)) ==> pin.len() == 4
            && is_digits(pin) && window.click(control).0.pin.len() == 0,
{
    let pin = pin_text(window.pin);
    assert forall|i: int| 0 <= i < pin.len() implies '0' <= #[trigger] pin[i] <= '9' by {
        assert(window.pin[i] < 10);
    }
}

/// Sharing is only asked for by an authenticated, idle window with a chosen screen, and with the
/// settings that it shows; a screen is only chosen by an authenticated one.
pub proof fn sharing_needs_authorization(window: InterfaceView, control: Control)
    ensures
        window.click(control).1.command matches Some(CommandView::StartMirroring(quality, latency))
            ==> window.authenticated && !window.busy && window.screen is Some && quality
            == window.quality && latency == window.latency,
        window.click(control).1.command matches Some(CommandView::ChooseScreen(mode))
            ==> window.authenticated && !window.busy && (mode == CaptureMode::Extend
            ==> window.virtual_supported == Some(true)),
{
}

/// Escape stops the session in every state, and so does the stop button while anything goes on.
pub proof fn sessions_can_always_be_stopped(window: InterfaceView)
    ensures
        window.key("escape"@).1.disconnect,
        window.busy || window.authenticated || window.pin_required ==> window.click(
            Control::Stop,
        ).1.disconnect,
{
    reveal_strlit("escape");
    reveal_strlit("enter");
    assert("escape"@.len() == 6);
    assert("enter"@.len() == 5);
}

/// The settings can be reached in every state, and going there changes nothing else.
pub proof fn settings_are_always_reachable(window: InterfaceView)
    ensures
        window.click(Control::Page(Page::Settings)) == (
            (InterfaceView { page: Page::Settings, ..window }),
            nothing(),
        ),
{
}

/// While the worker is busy no click hands it another command.
pub proof fn busy_windows_send_nothing(window: InterfaceView, control: Control, key: Seq<char>)
    requires
        window.busy,
    ensures
        window.click(control).1.command is None,
        window.key(key).1.command is None,
{
}

/// Events never change what the user has set.
pub proof fn events_keep_settings(window: InterfaceView, event: EventView)
    ensures
        window.after(event).quality == window.quality,
        window.after(event).latency == window.latency,
        window.after(event).dark_mode == window.dark_mode,
{
}

/// A window that opens with the appearance that an earlier one asked to save looks as that one
/// did, and only the switch asks for it.
pub proof fn saved_appearance_comes_back(window: InterfaceView, control: Control)
    ensures
        match window.click(control).1.save {
            None => control != Control::DarkMode && window.click(control).0.dark_mode
                == window.dark_mode,
            Some(dark) => control == Control::DarkMode && opened(Some(dark)).dark_mode
                == window.click(control).0.dark_mode,
        },
{
}

/// Switching twice gives the window back as it was; where saving fails, the window keeps the
/// appearance that was switched to, tells so and changes nothing else.
pub proof fn appearance_is_kept(window: InterfaceView, reason: Seq<char>)
    ensures
        window.toggled().dark_mode != window.dark_mode,
        window.toggled().toggled() == window,
        window.save_failed(reason).dark_mode == window.dark_mode,
        window.save_failed(reason).error,
        window == (InterfaceView {
            status: window.status,
            error: window.error,
            ..window.save_failed(reason)
        }),
{
}

/// Losing the session leaves nothing of it on the window, whatever was shown.
pub proof fn disconnection_clears_session(window: InterfaceView, message: Seq<char>)
    ensures
        ({
            let lost = window.after(EventView::Disconnected);
            let failed = window.after(EventView::Error(message));
            &&& !lost.authenticated && !lost.streaming && !lost.busy && lost.screen is None
            &&& lost.receiver is None && lost.page != Page::Sharing && !lost.error
            &&& failed == (InterfaceView { status: message, error: true, ..lost })
        }),
{
}

/// A code can be entered.
pub open spec fn takes_code(window: InterfaceView) -> bool {
    window.pin_required && !window.busy && window.page == Page::Connection
}

/// The window after keys were typed, one after the other.
pub open spec fn typed(window: InterfaceView, keys: Seq<char>) -> InterfaceView
    decreases keys.len(),
{
    if keys.len() == 0 {
        window
    } else {
        typed(window, keys.drop_last()).key(seq![keys.last()]).0
    }
}

proof fn lemma_digit_key(c: char)
    requires
        '0' <= c <= '9',
    ensures
        (c as u8 - '0' as u8) < 10,
        digit_char((c as u8 - '0' as u8) as nat) == c,
{
}

proof fn lemma_typed(window: InterfaceView, code: Seq<char>)
    requires
        takes_code(window),
        window.pin.len() == 0,
        code.len() <= 4,
        forall|i: int| 0 <= i < code.len() ==> '0' <= #[trigger] code[i] <= '9',
    ensures
        typed(window, code) == (InterfaceView { pin: typed(window, code).pin, ..window }),
        pin_text(typed(window, code).pin) == code,
    decreases code.len(),
{
    if code.len() > 0 {
        let earlier = code.drop_last();
        lemma_typed(window, earlier);
        let before = typed(window, earlier);
        let last = code.last();
        assert(last == code[code.len() - 1]);
        lemma_digit_key(last);
        reveal_strlit("backspace");
        reveal_strlit("enter");
        assert(seq![last].len() == 1);
        assert(pin_text(before.pin).len() == before.pin.len());
        let digit = (last as u8 - '0' as u8) as u8;
        assert(typed(window, code).pin == before.pin.push(digit));
        assert(pin_text(before.pin.push(digit)) =~= pin_text(before.pin).push(last));
        assert(earlier.push(last) =~= code);
    } else {
        assert(pin_text(window.pin) =~= code);
    }
}

/// The code that is typed is the code that the receiver gets, digit for digit and in order, whether
/// it is confirmed by a key or by a click; what was typed is gone then.
pub proof fn typed_codes_are_handed_on(window: InterfaceView, code: Seq<char>)
    requires
        takes_code(window),
        window.pin.len() == 0,
        code.len() == 4,
        forall|i: int| 0 <= i < code.len() ==> '0' <= #[trigger] code[i] <= '9',
    ensures
        ({
            let (after, reaction) = typed(window, code).key("enter"@);
            &&& reaction.command == Some(CommandView::Pair(code))
            &&& !reaction.disconnect
            &&& after == window
            &&& typed(window, code).click(Control::Authorize) == (after, reaction)
        }),
{
    lemma_typed(window, code);
    reveal_strlit("backspace");
    reveal_strlit("enter");
    assert("enter"@.len() != "backspace"@.len());
    let full = typed(window, code);
    assert(pin_text(full.pin).len() == full.pin.len());
    assert(window.pin =~= Seq::empty());
}

/// A digit can be clicked as well as typed, and backspace takes back the digit entered last.
pub proof fn clicked_digits_are_typed_digits(window: InterfaceView, digit: u8)
    requires
        takes_code(window),
        digit < 10,
    ensures
        window.click(Control::Digit(digit)).0 == window.key(seq![digit_char(digit as nat)]).0,
        window.pin.len() < 4 ==> {
            let more = window.click(Control::Digit(digit)).0;
            &&& more.pin.last() == digit
            &&& more.click(Control::Backspace).0 == window
            &&& more.key("backspace"@).0 == window
        },
        window.pin.len() >= 4 ==> window.click(Control::Digit(digit)).0 == window,
{
    let c = digit_char(digit as nat);
    reveal_strlit("backspace");
    reveal_strlit("enter");
    lemma_digit_key(c);
    assert(seq![c].len() == 1 && seq![c][0] == c);
    assert((c as u8 - '0' as u8) == digit);
    assert(window.pin.push(digit).drop_last() =~= window.pin);
}

/// Sharing starts with the quality and the latency that were clicked last.
pub proof fn sharing_starts_with_the_choices(
    window: InterfaceView,
    quality: VideoQuality,
    latency: LatencyMode,
)
    requires
        window.authenticated,
        !window.busy,
        window.screen is Some,
    ensures
        ({
            let chosen = window.click(Control::Quality(quality)).0.click(
                Control::Latency(latency),
            ).0;
            &&& chosen.click(Control::Start).1.command == Some(
                CommandView::StartMirroring(quality, latency),
            )
            &&& chosen == (InterfaceView { quality, latency, ..window })
        }),
{
}

/// A click on a device of the list connects to that very device and shows its name.
pub proof fn clicked_devices_are_connected(window: InterfaceView, index: usize)
    requires
        !window.busy,
        !window.authenticated,
        index < window.devices.len(),
    ensures
        ({
            let (after, reaction) = window.click(Control::Device(index));
            &&& reaction.command == Some(CommandView::Connect(window.devices[index as int]))
            &&& after == (InterfaceView {
                receiver: Some(window.devices[index as int].name),
                ..window
            })
        }),
{
}

/// A screen is chosen in the mode that was clicked; extending only where the desktop can.
pub proof fn clicked_sources_are_chosen(window: InterfaceView, mode: CaptureMode)
    requires
        window.authenticated,
        !window.busy,
    ensures
        window.click(Control::Choose(mode)).0 == window,
        window.click(Control::Choose(mode)).1.command == (if mode == CaptureMode::Mirror
            || window.virtual_supported == Some(true) {
            Some(CommandView::ChooseScreen(mode))
        } else {
            None
        }),
{
}

/// What the worker tells is what the window shows: its message, the receiver, the devices, the
/// screen and the encoder; and whether it is still at work.
pub proof fn events_are_shown(window: InterfaceView, event: EventView)
    ensures
        ({
            let after = window.after(event);
            match event {
                EventView::EncoderSelected(encoder) => after == (InterfaceView {
                    encoder,
                    ..window
                }),
                EventView::VirtualSupport(supported) => after == (InterfaceView {
                    virtual_supported: Some(supported),
                    ..window
                }),
                EventView::Busy(status) => after.busy && after.status == status && !after.error
                    && after.discovering == window.discovering,
                EventView::Devices(devices) => {
                    &&& !after.busy && !after.discovering && !after.error
                    &&& after.devices == devices
                    &&& devices.len() > 0 ==> after.status.take(
                        decimal(devices.len()).len() as int,
                    ) == decimal(devices.len())
                },
                EventView::PinRequired(name) => {
                    &&& !after.busy && after.pin_required && after.pin.len() == 0
                    &&& after.receiver == Some(name)
                    &&& after.status == "Enter the four-digit code shown on "@ + name
                },
                EventView::Authenticated(name) => {
                    &&& !after.busy && after.authenticated && !after.pin_required
                    &&& after.receiver == Some(name)
                    &&& after.page == Page::Sharing
                },
                EventView::ScreenSelected { size, mode } => {
                    &&& !after.busy
                    &&& after.capture_mode == mode
                    &&& after.screen == Some(
                        match size {
                            None => mode.label_text(),
                            Some(size) => mode.label_text() + " · "@ + signed_decimal(
                                size.0 as int,
                            ) + " × "@ + signed_decimal(size.1 as int),
                        },
                    )
                },
                EventView::Streaming(_) => after.busy && after.streaming && after.receiver
                    == window.receiver && after.screen == window.screen,
                EventView::Disconnected => !after.busy && !after.error && after.status
                    == "Disconnected"@,
                EventView::Error(message) => !after.busy && after.error && after.status == message,
            }
        }),
{
    if let EventView::Devices(devices) = event {
        let count = decimal(devices.len());
        if devices.len() > 0 {
            assert(window.after(event).status.take(count.len() as int) =~= count);
        }
    }
}

/// Escape asks to disconnect in every state, and no other key does.
pub proof fn escape_always_disconnects(window: InterfaceView, key: Seq<char>)
    ensures
        window.key(key).1.disconnect <==> key == "escape"@,
        key == "escape"@ ==> window.key(key).0 == window && window.key(key).1.command is None,
{
    reveal_strlit("escape");
    reveal_strlit("enter");
    reveal_strlit("backspace");
    assert("escape"@.len() != "enter"@.len());
    assert("escape"@.len() != "backspace"@.len());
}

/// A command that the worker takes makes the window busy; one that it does not take is told, and
/// the window can go on.
pub proof fn commands_are_taken_or_refused(window: InterfaceView, discovering: bool)
    ensures
        ({
            let taken = window.sent(discovering, true);
            &&& taken.busy && !taken.error
            &&& taken.discovering == discovering
            &&& taken == (InterfaceView {
                busy: true,
                discovering,
                error: false,
                status: taken.status,
                ..window
            })
        }),
        ({
            let refused = window.sent(discovering, false);
            &&& refused.error && !refused.discovering
            &&& refused.status == Failure::WorkerUnavailable.text()
            &&& refused == (InterfaceView {
                error: true,
                discovering: false,
                status: refused.status,
                ..window
            })
        }),
{
}

} // verus!
