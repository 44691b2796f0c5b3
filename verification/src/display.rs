//! What the window shows: pages of cards, texts and buttons, for every state.

use crate::backend::CommandView;
use crate::interface::{
    nothing, offered, receiver_text, valid_pin, Control, InterfaceView, Page, Spielab,
};
use crate::settings::{CaptureMode, LatencyMode, VideoQuality};
use crate::text::decimal;
use vstd::prelude::*;
use vstd::string::*;

verus! {

/// Colours, as red, green and blue bytes.
#[derive(Clone, Copy, Debug, PartialEq, Eq, Structural)]
pub struct Theme {
    pub background: u32,
    pub panel: u32,
    pub text: u32,
    pub muted: u32,
    pub border: u32,
    pub button: u32,
    pub hover: u32,
    pub accent: u32,
    pub danger: u32,
}

impl Theme {
    /// The dark and the light palette.
    pub open spec fn palette(dark: bool) -> Theme {
        if dark {
            Theme {
                background: 0x101817,
                panel: 0x1a2522,
                text: 0xedf5ef,
                muted: 0xa1b5a9,
                border: 0x34473e,
                button: 0x283d32,
                hover: 0x365340,
                accent: 0x9ee4b1,
                danger: 0xa73443,
            }
        } else {
            Theme {
                background: 0xf3f6f3,
                panel: 0xffffff,
                text: 0x192c20,
                muted: 0x526859,
                border: 0xcdd9d0,
                button: 0xe2eee5,
                hover: 0xd1e5d6,
                accent: 0x206838,
                danger: 0xb3273a,
            }
        }
    }

    pub fn new(dark: bool) -> (r: Self)
        ensures
            r == Theme::palette(dark),
    {
        if dark {
            Theme {
                background: 0x101817,
                panel: 0x1a2522,
                text: 0xedf5ef,
                muted: 0xa1b5a9,
                border: 0x34473e,
                button: 0x283d32,
                hover: 0x365340,
                accent: 0x9ee4b1,
                danger: 0xa73443,
            }
        } else {
            Theme {
                background: 0xf3f6f3,
                panel: 0xffffff,
                text: 0x192c20,
                muted: 0x526859,
                border: 0xcdd9d0,
                button: 0xe2eee5,
                hover: 0xd1e5d6,
                accent: 0x206838,
                danger: 0xb3273a,
            }
        }
    }

    /// The colour of a button's label: the accent where it is the current choice, else by whether
    /// it can be clicked.
    pub fn label_color(&self, enabled: bool, selected: bool) -> (r: u32)
        ensures
            r == (if selected {
                self.accent
            } else if enabled {
                self.text
            } else {
                self.muted
            }),
    {
        if selected {
            self.accent
        } else if enabled {
            self.text
        } else {
            self.muted
        }
    }

    /// The colour of a button's edge: the accent where it is the current choice, or stands out.
    pub fn edge_color(&self, selected: bool, prominent: bool) -> (r: u32)
        ensures
            r == (if selected || prominent {
                self.accent
            } else {
                self.border
            }),
    {
        if selected || prominent {
            self.accent
        } else {
            self.border
        }
    }
}

/// How a text is set. A hint is muted, with room above and below it.
#[derive(Clone, Copy, Debug, PartialEq, Eq, Structural)]
pub enum Style {
    Plain,
    Small,
    Muted,
    Hint,
    SmallMuted,
    Large,
    Huge,
    Accent,
}

/// A button. `detail` is a small text at its end, `selected` marks the current choice, `prominent`
/// a large label and an edge that stands out, `spinner` a sign that something goes on.
pub struct Button {
    pub label: String,
    pub detail: String,
    pub control: Control,
    pub enabled: bool,
    pub selected: bool,
    pub prominent: bool,
    pub spinner: bool,
}

#[verifier::ext_equal]
pub struct ButtonView {
    pub label: Seq<char>,
    pub detail: Seq<char>,
    pub control: Control,
    pub enabled: bool,
    pub selected: bool,
    pub prominent: bool,
    pub spinner: bool,
}

impl Button {
    pub open spec fn view(self) -> ButtonView {
        ButtonView {
            label: self.label@,
            detail: self.detail@,
            control: self.control,
            enabled: self.enabled,
            selected: self.selected,
            prominent: self.prominent,
            spinner: self.spinner,
        }
    }
}

pub open spec fn button_views(buttons: Seq<Button>) -> Seq<ButtonView> {
    buttons.map_values(|button: Button| button.view())
}

/// A switch with its title, a note, its state and its colours.
#[derive(Clone, Copy, Debug, PartialEq, Eq, Structural)]
pub struct Switch {
    pub control: Control,
    pub on: bool,
    pub border: u32,
    pub background: u32,
    pub knob: u32,
}

/// A part of a card.
pub enum Element {
    Text(Style, String),
    Buttons(Vec<Button>),
    Switch(Switch),
}

#[verifier::ext_equal]
pub enum ElementView {
    Text(Style, Seq<char>),
    Buttons(Seq<ButtonView>),
    Switch(Switch),
}

impl Element {
    pub open spec fn view(self) -> ElementView {
        match self {
            Element::Text(style, text) => ElementView::Text(style, text@),
            Element::Buttons(buttons) => ElementView::Buttons(button_views(buttons@)),
            Element::Switch(switch) => ElementView::Switch(switch),
        }
    }
}

pub open spec fn element_views(elements: Seq<Element>) -> Seq<ElementView> {
    elements.map_values(|element: Element| element.view())
}

/// A framed part of a page.
pub struct Card {
    pub title: String,
    pub description: String,
    pub elements: Vec<Element>,
}

#[verifier::ext_equal]
pub struct CardView {
    pub title: Seq<char>,
    pub description: Seq<char>,
    pub elements: Seq<ElementView>,
}

impl Card {
    pub open spec fn view(self) -> CardView {
        CardView {
            title: self.title@,
            description: self.description@,
            elements: element_views(self.elements@),
        }
    }
}

pub open spec fn card_views(cards: Seq<Card>) -> Seq<CardView> {
    cards.map_values(|card: Card| card.view())
}

/// A page: cards, and what stands below them.
pub struct Content {
    pub cards: Vec<Card>,
    pub footer: Vec<Element>,
}

#[verifier::ext_equal]
pub struct ContentView {
    pub cards: Seq<CardView>,
    pub footer: Seq<ElementView>,
}

impl Content {
    pub open spec fn view(self) -> ContentView {
        ContentView { cards: card_views(self.cards@), footer: element_views(self.footer@) }
    }
}

/// A plain button.
pub open spec fn plain(label: Seq<char>, control: Control, enabled: bool) -> ButtonView {
    ButtonView {
        label,
        detail: Seq::empty(),
        control,
        enabled,
        selected: false,
        prominent: false,
        spinner: false,
    }
}

fn button(label: &str, control: Control, enabled: bool) -> (r: Button)
    ensures
        r.view() == plain(label@, control, enabled),
{
    let r = Button {
        label: label.to_owned(),
        detail: String::new(),
        control,
        enabled,
        selected: false,
        prominent: false,
        spinner: false,
    };
    assert(r.view().detail =~= Seq::empty());
    r
}

fn push_button(buttons: &mut Vec<Button>, button: Button)
    ensures
        button_views(final(buttons)@) == button_views(old(buttons)@).push(button.view()),
{
    buttons.push(button);
    assert(button_views(buttons@) =~= button_views(old(buttons)@).push(button.view()));
}

fn push_element(elements: &mut Vec<Element>, element: Element)
    ensures
        element_views(final(elements)@) == element_views(old(elements)@).push(element.view()),
{
    elements.push(element);
    assert(element_views(elements@) =~= element_views(old(elements)@).push(element.view()));
}

/// A row of one button.
fn alone(button: Button) -> (r: Element)
    ensures
        r.view() == ElementView::Buttons(seq![button.view()]),
{
    let mut buttons: Vec<Button> = Vec::new();
    push_button(&mut buttons, button);
    assert(button_views(buttons@) =~= seq![button.view()]);
    Element::Buttons(buttons)
}

fn line(style: Style, text: &str) -> (r: Element)
    ensures
        r.view() == ElementView::Text(style, text@),
{
    Element::Text(style, text.to_owned())
}

fn card(title: &str, description: &str, elements: Vec<Element>) -> (r: Card)
    ensures
        r.view() == (CardView {
            title: title@,
            description: description@,
            elements: element_views(elements@),
        }),
{
    Card { title: title.to_owned(), description: description.to_owned(), elements }
}

/// A page of one card.
fn single_card(card: Card) -> (r: Content)
    ensures
        r.view() == (ContentView { cards: seq![card.view()], footer: Seq::empty() }),
{
    let mut cards: Vec<Card> = Vec::new();
    cards.push(card);
    let r = Content { cards, footer: Vec::new() };
    assert(r.view().cards =~= seq![card.view()]);
    assert(r.view().footer =~= Seq::empty());
    r
}

/// `text`, `count` times.
pub open spec fn repeated(text: Seq<char>, count: nat) -> Seq<char>
    decreases count,
{
    if count == 0 {
        Seq::empty()
    } else {
        repeated(text, (count - 1) as nat) + text
    }
}

fn push_repeated(out: &mut String, text: &str, count: usize)
    ensures
        final(out)@ == old(out)@ + repeated(text@, count as nat),
    decreases count,
{
    if count > 0 {
        push_repeated(out, text, count - 1);
        out.append(text);
    }
    assert(out@ =~= old(out)@ + repeated(text@, count as nat));
}

/// The places of a code, filled and empty.
pub open spec fn pin_dots(entered: nat) -> Seq<char> {
    repeated("● "@, entered) + repeated("○ "@, (4 - entered) as nat)
}

fn dots(entered: usize) -> (r: String)
    requires
        entered <= 4,
    ensures
        r@ == pin_dots(entered as nat),
{
    let mut r = String::new();
    push_repeated(&mut r, "● ", entered);
    push_repeated(&mut r, "○ ", 4 - entered);
    assert(r@ =~= pin_dots(entered as nat));
    r
}

fn row(first: Button, second: Button, third: Button) -> (r: Element)
    ensures
        r.view() == ElementView::Buttons(seq![first.view(), second.view(), third.view()]),
{
    let mut buttons: Vec<Button> = Vec::new();
    push_button(&mut buttons, first);
    push_button(&mut buttons, second);
    push_button(&mut buttons, third);
    assert(button_views(buttons@) =~= seq![first.view(), second.view(), third.view()]);
    Element::Buttons(buttons)
}

/// The card of a connected receiver.
pub open spec fn connected_card(window: InterfaceView) -> CardView {
    CardView {
        title: "You're connected"@,
        description: receiver_text(window.receiver),
        elements: seq![
            ElementView::Buttons(seq![plain("Continue to sharing →"@, Control::Continue, true)]),
        ],
    }
}

/// The card on which a code is entered.
pub open spec fn pairing_card(window: InterfaceView) -> CardView {
    let idle = !window.busy;
    CardView {
        title: "Authorize Apple TV"@,
        description: "Enter the four-digit code shown on your TV. You can use your keyboard."@,
        elements: seq![
            ElementView::Text(Style::Huge, pin_dots(window.pin.len())),
            ElementView::Buttons(
                seq![
                    plain("1"@, Control::Digit(1), idle),
                    plain("2"@, Control::Digit(2), idle),
                    plain("3"@, Control::Digit(3), idle),
                ],
            ),
            ElementView::Buttons(
                seq![
                    plain("4"@, Control::Digit(4), idle),
                    plain("5"@, Control::Digit(5), idle),
                    plain("6"@, Control::Digit(6), idle),
                ],
            ),
            ElementView::Buttons(
                seq![
                    plain("7"@, Control::Digit(7), idle),
                    plain("8"@, Control::Digit(8), idle),
                    plain("9"@, Control::Digit(9), idle),
                ],
            ),
            ElementView::Buttons(
                seq![
                    plain("Clear"@, Control::ClearPin, idle),
                    plain("0"@, Control::Digit(0), idle),
                    plain("⌫"@, Control::Backspace, idle),
                ],
            ),
            ElementView::Buttons(
                seq![
                    plain(
                        "Authorize and continue →"@,
                        Control::Authorize,
                        idle && window.pin.len() == 4,
                    ),
                ],
            ),
        ],
    }
}

/// The button of device number `index` of the list.
pub open spec fn device_button(window: InterfaceView, index: int) -> ButtonView {
    ButtonView {
        label: window.devices[index].name,
        detail: "Connect →"@,
        control: Control::Device(index as usize),
        enabled: !window.busy,
        selected: false,
        prominent: false,
        spinner: false,
    }
}

/// The button that looks for receivers again.
pub open spec fn refresh_button(window: InterfaceView) -> ButtonView {
    ButtonView {
        label: if window.discovering {
            "Looking for TVs…"@
        } else {
            "Refresh devices"@
        },
        detail: Seq::empty(),
        control: Control::Refresh,
        enabled: !window.busy,
        selected: false,
        prominent: false,
        spinner: window.discovering,
    }
}

/// What stands above the list of devices.
pub open spec fn device_head(window: InterfaceView) -> Seq<ElementView> {
    let refresh = seq![ElementView::Buttons(seq![refresh_button(window)])];
    if window.devices.len() == 0 {
        refresh.push(
            ElementView::Text(
                Style::Hint,
                "Keep Apple TV awake and connected to the same network."@,
            ),
        )
    } else {
        refresh
    }
}

/// The card on which a device is chosen.
pub open spec fn device_card(window: InterfaceView) -> CardView {
    CardView {
        title: "Connect your Apple TV"@,
        description: "Choose a TV to authorize. Sharing options appear once you're connected."@,
        elements: device_head(window) + Seq::new(
            window.devices.len(),
            |i: int| ElementView::Buttons(seq![device_button(window, i)]),
        ),
    }
}

/// The connection page.
pub open spec fn connection_content(window: InterfaceView) -> ContentView {
    ContentView {
        cards: seq![
            if window.authenticated {
                connected_card(window)
            } else if window.pin_required {
                pairing_card(window)
            } else {
                device_card(window)
            },
        ],
        footer: Seq::empty(),
    }
}

/// The card of a running stream.
pub open spec fn streaming_card(window: InterfaceView) -> CardView {
    CardView {
        title: "You're sharing"@,
        description: receiver_text(window.receiver),
        elements: seq![
            ElementView::Text(
                Style::Large,
                match window.screen {
                    Some(screen) => screen,
                    None => Seq::empty(),
                },
            ),
            ElementView::Text(
                Style::Muted,
                window.quality.label_text() + " · System audio on"@,
            ),
            ElementView::Text(Style::Small, "Use Disconnect at the top right to stop sharing."@),
        ],
    }
}

/// What is said of extended displays.
pub open spec fn virtual_note(supported: Option<bool>) -> Seq<char> {
    match supported {
        Some(true) => "Extended display adds a separate desktop for windows you move onto your TV."@,
        Some(false) => "Extended display isn't supported by this desktop."@,
        None => "Checking extended-display support…"@,
    }
}

/// The card on which a screen is chosen.
pub open spec fn source_card(window: InterfaceView) -> CardView {
    let idle = !window.busy;
    let offer = seq![
        ElementView::Buttons(
            seq![
                plain("Screen or window"@, Control::Choose(CaptureMode::Mirror), idle),
                plain(
                    "Extended display"@,
                    Control::Choose(CaptureMode::Extend),
                    idle && window.virtual_supported == Some(true),
                ),
            ],
        ),
        ElementView::Text(Style::SmallMuted, virtual_note(window.virtual_supported)),
    ];
    CardView {
        title: "1. Choose what to share"@,
        description: "Single-click one source in the desktop dialog, then press Share."@,
        elements: match window.screen {
            None => offer,
            Some(screen) => offer.push(ElementView::Text(Style::Accent, "Selected: "@ + screen)),
        },
    }
}

pub open spec fn quality_button(window: InterfaceView, quality: VideoQuality) -> ButtonView {
    ButtonView {
        selected: window.quality == quality,
        ..plain(quality.label_text(), Control::Quality(quality), !window.busy)
    }
}

pub open spec fn latency_button(window: InterfaceView, latency: LatencyMode) -> ButtonView {
    ButtonView {
        selected: window.latency == latency,
        ..plain(latency.label_text(), Control::Latency(latency), !window.busy)
    }
}

/// The card on which quality and latency are set.
pub open spec fn tuning_card(window: InterfaceView) -> CardView {
    CardView {
        title: "2. Tune your stream"@,
        description: "Choose picture quality and responsiveness before sharing."@,
        elements: seq![
            ElementView::Text(Style::Small, "Video quality"@),
            ElementView::Buttons(
                seq![
                    quality_button(window, VideoQuality::Efficient),
                    quality_button(window, VideoQuality::High),
                    quality_button(window, VideoQuality::Smooth),
                ],
            ),
            ElementView::Text(Style::SmallMuted, window.quality.description_text()),
            ElementView::Text(Style::Small, "Playback buffer"@),
            ElementView::Buttons(
                seq![
                    latency_button(window, LatencyMode::Interactive),
                    latency_button(window, LatencyMode::Responsive),
                    latency_button(window, LatencyMode::Buffered),
                ],
            ),
            ElementView::Text(
                Style::SmallMuted,
                "Lower feels faster. Increase the buffer if playback stutters."@,
            ),
        ],
    }
}

/// The button that starts sharing.
pub open spec fn start_button(window: InterfaceView) -> ButtonView {
    ButtonView {
        prominent: true,
        ..plain(
            if window.busy {
                "Preparing sharing…"@
            } else {
                "Start sharing →"@
            },
            Control::Start,
            !window.busy && window.screen is Some,
        )
    }
}

/// The sharing page: without a session it is the connection page.
pub open spec fn sharing_content(window: InterfaceView) -> ContentView {
    if !window.authenticated {
        connection_content(window)
    } else if window.streaming {
        ContentView { cards: seq![streaming_card(window)], footer: Seq::empty() }
    } else {
        ContentView {
            cards: seq![source_card(window), tuning_card(window)],
            footer: seq![
                ElementView::Buttons(seq![start_button(window)]),
                ElementView::Text(Style::SmallMuted, "System audio is included automatically."@),
            ],
        }
    }
}

/// The switch of the appearance.
pub open spec fn dark_switch(dark: bool, theme: Theme) -> Switch {
    Switch {
        control: Control::DarkMode,
        on: dark,
        border: if dark {
            theme.accent
        } else {
            theme.border
        },
        background: if dark {
            theme.accent
        } else {
            theme.button
        },
        knob: if dark {
            theme.background
        } else {
            theme.panel
        },
    }
}

/// The settings page.
pub open spec fn settings_content(window: InterfaceView) -> ContentView {
    ContentView {
        cards: seq![
            CardView {
                title: "Appearance"@,
                description: "Make Spielab comfortable for your workspace."@,
                elements: seq![
                    ElementView::Text(Style::Plain, "Dark mode"@),
                    ElementView::Text(Style::SmallMuted, "Saved for your next visit."@),
                    ElementView::Switch(
                        dark_switch(window.dark_mode, Theme::palette(window.dark_mode)),
                    ),
                ],
            },
        ],
        footer: Seq::empty(),
    }
}

pub open spec fn page_label(page: Page) -> Seq<char> {
    match page {
        Page::Connection => "Connection"@,
        Page::Sharing => "Sharing"@,
        Page::Settings => "Settings"@,
    }
}

pub open spec fn page_id(page: Page) -> Seq<char> {
    match page {
        Page::Connection => "connection-page"@,
        Page::Sharing => "sharing-page"@,
        Page::Settings => "settings-page"@,
    }
}

pub open spec fn page_button(window: InterfaceView, page: Page) -> ButtonView {
    ButtonView {
        selected: window.page == page,
        ..plain(
            page_label(page),
            Control::Page(page),
            page != Page::Sharing || window.authenticated,
        )
    }
}

/// The button that stops whatever is going on.
pub open spec fn stop_button(window: InterfaceView) -> ButtonView {
    plain(
        if window.authenticated {
            "Disconnect"@
        } else {
            "Cancel"@
        },
        Control::Stop,
        window.busy || window.authenticated || window.pin_required,
    )
}

/// The whole window.
pub struct Frame {
    pub theme: Theme,
    pub status: String,
    pub status_color: u32,
    pub stop: Button,
    pub stop_theme: Theme,
    pub navigation: Vec<Button>,
    pub page_id: &'static str,
    pub content: Content,
}

/// The page that is shown.
pub open spec fn page_content(window: InterfaceView) -> ContentView {
    match window.page {
        Page::Connection => connection_content(window),
        Page::Sharing => sharing_content(window),
        Page::Settings => settings_content(window),
    }
}

impl Spielab {
    fn device_page(&self) -> (r: Card)
        ensures
            r.view() == device_card(self@),
    {
        let ghost window = self@;
        let idle = !self.busy;
        let mut elements: Vec<Element> = Vec::new();
        let mut refresh = button(
            if self.discovering {
                "Looking for TVs…"
            } else {
                "Refresh devices"
            },
            Control::Refresh,
            idle,
        );
        refresh.spinner = self.discovering;
        push_element(&mut elements, alone(refresh));
        if self.devices.len() == 0 {
            push_element(
                &mut elements,
                line(Style::Hint, "Keep Apple TV awake and connected to the same network."),
            );
        }
        let ghost head = element_views(elements@);
        assert(head =~= device_head(window));
        let mut at: usize = 0;
        assert(head + Seq::new(
            0,
            |i: int| ElementView::Buttons(seq![device_button(window, i)]),
        ) =~= head);
        while at < self.devices.len()
            invariant
                at <= self.devices@.len(),
                window == self@,
                idle == !window.busy,
                element_views(elements@) == head + Seq::new(
                    at as nat,
                    |i: int| ElementView::Buttons(seq![device_button(window, i)]),
                ),
            decreases self.devices@.len() - at,
        {
            let mut entry = button(self.devices[at].name.as_str(), Control::Device(at), idle);
            entry.detail = "Connect →".to_owned();
            assert(window.devices[at as int] == self.devices@[at as int]@);
            assert(entry.view() =~= device_button(window, at as int));
            push_element(&mut elements, alone(entry));
            assert(element_views(elements@) =~= head + Seq::new(
                (at + 1) as nat,
                |i: int| ElementView::Buttons(seq![device_button(window, i)]),
            ));
            at = at + 1;
        }
        card(
            "Connect your Apple TV",
            "Choose a TV to authorize. Sharing options appear once you're connected.",
            elements,
        )
    }

    fn pairing_page(&self) -> (r: Card)
        requires
            valid_pin(self@.pin),
        ensures
            r.view() == pairing_card(self@),
    {
        let idle = !self.busy;
        let mut elements: Vec<Element> = Vec::new();
        push_element(&mut elements, Element::Text(Style::Huge, dots(self.pin.len())));
        push_element(
            &mut elements,
            row(
                button("1", Control::Digit(1), idle),
                button("2", Control::Digit(2), idle),
                button("3", Control::Digit(3), idle),
            ),
        );
        push_element(
            &mut elements,
            row(
                button("4", Control::Digit(4), idle),
                button("5", Control::Digit(5), idle),
                button("6", Control::Digit(6), idle),
            ),
        );
        push_element(
            &mut elements,
            row(
                button("7", Control::Digit(7), idle),
                button("8", Control::Digit(8), idle),
                button("9", Control::Digit(9), idle),
            ),
        );
        push_element(
            &mut elements,
            row(
                button("Clear", Control::ClearPin, idle),
                button("0", Control::Digit(0), idle),
                button("⌫", Control::Backspace, idle),
            ),
        );
        push_element(
            &mut elements,
            alone(
                button(
                    "Authorize and continue →",
                    Control::Authorize,
                    idle && self.pin.len() == 4,
                ),
            ),
        );
        assert(element_views(elements@) =~= pairing_card(self@).elements);
        card(
            "Authorize Apple TV",
            "Enter the four-digit code shown on your TV. You can use your keyboard.",
            elements,
        )
    }

    fn receiver_name(&self) -> (r: &str)
        ensures
            r@ == receiver_text(self@.receiver),
    {
        match &self.receiver {
            Some(name) => name.as_str(),
            None => "Apple TV",
        }
    }

    /// The page on which a receiver is chosen and authorized.
    pub fn connection_page(&self) -> (r: Content)
        requires
            valid_pin(self@.pin),
        ensures
            r.view() == connection_content(self@),
    {
        if self.authenticated {
            let mut elements: Vec<Element> = Vec::new();
            push_element(
                &mut elements,
                alone(button("Continue to sharing →", Control::Continue, true)),
            );
            assert(element_views(elements@) =~= connected_card(self@).elements);
            return single_card(card("You're connected", self.receiver_name(), elements));
        }
        if self.pin_required {
            return single_card(self.pairing_page());
        }
        single_card(self.device_page())
    }

    fn streaming_page(&self) -> (r: Card)
        ensures
            r.view() == streaming_card(self@),
    {
        let mut elements: Vec<Element> = Vec::new();
        let screen = match &self.screen {
            Some(screen) => screen.clone(),
            None => String::new(),
        };
        proof {
            if self@.screen is None {
                assert(screen@ =~= Seq::empty());
            }
        }
        push_element(&mut elements, Element::Text(Style::Large, screen));
        let mut quality = self.quality.label().to_owned();
        quality.append(" · System audio on");
        push_element(&mut elements, Element::Text(Style::Muted, quality));
        push_element(
            &mut elements,
            line(Style::Small, "Use Disconnect at the top right to stop sharing."),
        );
        assert(element_views(elements@) =~= streaming_card(self@).elements);
        card("You're sharing", self.receiver_name(), elements)
    }

    fn source_page(&self) -> (r: Card)
        ensures
            r.view() == source_card(self@),
    {
        let idle = !self.busy;
        let supported = match self.virtual_supported {
            Some(supported) => supported,
            None => false,
        };
        let mut buttons: Vec<Button> = Vec::new();
        push_button(
            &mut buttons,
            button("Screen or window", Control::Choose(CaptureMode::Mirror), idle),
        );
        push_button(
            &mut buttons,
            button("Extended display", Control::Choose(CaptureMode::Extend), idle && supported),
        );
        assert(button_views(buttons@) =~= seq![
            plain("Screen or window"@, Control::Choose(CaptureMode::Mirror), idle),
            plain("Extended display"@, Control::Choose(CaptureMode::Extend), idle && supported),
        ]);
        let mut elements: Vec<Element> = Vec::new();
        push_element(&mut elements, Element::Buttons(buttons));
        push_element(
            &mut elements,
            line(
                Style::SmallMuted,
                match self.virtual_supported {
                    Some(true) => "Extended display adds a separate desktop for windows you move onto your TV.",
                    Some(false) => "Extended display isn't supported by this desktop.",
                    None => "Checking extended-display support…",
                },
            ),
        );
        if let Some(screen) = &self.screen {
            let mut selected = "Selected: ".to_owned();
            selected.append(screen.as_str());
            push_element(&mut elements, Element::Text(Style::Accent, selected));
        }
        assert(element_views(elements@) =~= source_card(self@).elements);
        card(
            "1. Choose what to share",
            "Single-click one source in the desktop dialog, then press Share.",
            elements,
        )
    }

    fn quality_choice(&self, quality: VideoQuality) -> (r: Button)
        ensures
            r.view() == quality_button(self@, quality),
    {
        let mut choice = button(quality.label(), Control::Quality(quality), !self.busy);
        choice.selected = self.quality == quality;
        choice
    }

    fn latency_choice(&self, latency: LatencyMode) -> (r: Button)
        ensures
            r.view() == latency_button(self@, latency),
    {
        let mut choice = button(latency.label(), Control::Latency(latency), !self.busy);
        choice.selected = self.latency == latency;
        choice
    }

    fn tuning_page(&self) -> (r: Card)
        ensures
            r.view() == tuning_card(self@),
    {
        let mut elements: Vec<Element> = Vec::new();
        push_element(&mut elements, line(Style::Small, "Video quality"));
        push_element(
            &mut elements,
            row(
                self.quality_choice(VideoQuality::Efficient),
                self.quality_choice(VideoQuality::High),
                self.quality_choice(VideoQuality::Smooth),
            ),
        );
        push_element(&mut elements, line(Style::SmallMuted, self.quality.description()));
        push_element(&mut elements, line(Style::Small, "Playback buffer"));
        push_element(
            &mut elements,
            row(
                self.latency_choice(LatencyMode::Interactive),
                self.latency_choice(LatencyMode::Responsive),
                self.latency_choice(LatencyMode::Buffered),
            ),
        );
        push_element(
            &mut elements,
            line(
                Style::SmallMuted,
                "Lower feels faster. Increase the buffer if playback stutters.",
            ),
        );
        assert(element_views(elements@) =~= tuning_card(self@).elements);
        card(
            "2. Tune your stream",
            "Choose picture quality and responsiveness before sharing.",
            elements,
        )
    }

    /// The page on which a screen is chosen and sharing started.
    pub fn sharing_page(&self) -> (r: Content)
        requires
            valid_pin(self@.pin),
        ensures
            r.view() == sharing_content(self@),
    {
        if !self.authenticated {
            return self.connection_page();
        }
        if self.streaming {
            return single_card(self.streaming_page());
        }
        let mut cards: Vec<Card> = Vec::new();
        cards.push(self.source_page());
        cards.push(self.tuning_page());
        let mut start = button(
            if self.busy {
                "Preparing sharing…"
            } else {
                "Start sharing →"
            },
            Control::Start,
            !self.busy && self.screen.is_some(),
        );
        start.prominent = true;
        let mut footer: Vec<Element> = Vec::new();
        push_element(&mut footer, alone(start));
        push_element(
            &mut footer,
            line(Style::SmallMuted, "System audio is included automatically."),
        );
        assert(card_views(cards@) =~= sharing_content(self@).cards);
        assert(element_views(footer@) =~= sharing_content(self@).footer);
        Content { cards, footer }
    }

    /// The page of the appearance.
    pub fn settings_page(&self) -> (r: Content)
        ensures
            r.view() == settings_content(self@),
    {
        let theme = Theme::new(self.dark_mode);
        let switch = Switch {
            control: Control::DarkMode,
            on: self.dark_mode,
            border: if self.dark_mode {
                theme.accent
            } else {
                theme.border
            },
            background: if self.dark_mode {
                theme.accent
            } else {
                theme.button
            },
            knob: if self.dark_mode {
                theme.background
            } else {
                theme.panel
            },
        };
        let mut elements: Vec<Element> = Vec::new();
        push_element(&mut elements, line(Style::Plain, "Dark mode"));
        push_element(&mut elements, line(Style::SmallMuted, "Saved for your next visit."));
        push_element(&mut elements, Element::Switch(switch));
        assert(element_views(elements@) =~= settings_content(self@).cards[0].elements);
        single_card(card("Appearance", "Make Spielab comfortable for your workspace.", elements))
    }

    fn page_choice(&self, page: Page) -> (r: Button)
        ensures
            r.view() == page_button(self@, page),
    {
        let mut choice = button(
            match page {
                Page::Connection => "Connection",
                Page::Sharing => "Sharing",
                Page::Settings => "Settings",
            },
            Control::Page(page),
            page != Page::Sharing || self.authenticated,
        );
        choice.selected = self.page == page;
        choice
    }

    /// The whole window.
    pub fn render(&self) -> (r: Frame)
        requires
            valid_pin(self@.pin),
        ensures
            ({
                let theme = Theme::palette(self@.dark_mode);
                &&& r.theme == theme
                &&& r.status@ == self@.status
                &&& r.status_color == (if self@.error {
                    theme.danger
                } else {
                    theme.muted
                })
                &&& r.stop.view() == stop_button(self@)
                &&& r.stop_theme == (Theme {
                    button: theme.danger,
                    hover: 0x8f2433,
                    text: 0xffffff,
                    border: theme.danger,
                    ..theme
                })
                &&& button_views(r.navigation@) == seq![
                    page_button(self@, Page::Connection),
                    page_button(self@, Page::Sharing),
                    page_button(self@, Page::Settings),
                ]
                &&& r.page_id@ == page_id(self@.page)
                &&& r.content.view() == page_content(self@)
            }),
    {
        let theme = Theme::new(self.dark_mode);
        let mut navigation: Vec<Button> = Vec::new();
        push_button(&mut navigation, self.page_choice(Page::Connection));
        push_button(&mut navigation, self.page_choice(Page::Sharing));
        push_button(&mut navigation, self.page_choice(Page::Settings));
        assert(button_views(navigation@) =~= seq![
            page_button(self@, Page::Connection),
            page_button(self@, Page::Sharing),
            page_button(self@, Page::Settings),
        ]);
        let content = match self.page {
            Page::Connection => self.connection_page(),
            Page::Sharing => self.sharing_page(),
            Page::Settings => self.settings_page(),
        };
        Frame {
            theme,
            status: self.status.clone(),
            status_color: if self.error {
                theme.danger
            } else {
                theme.muted
            },
            stop: button(
                if self.authenticated {
                    "Disconnect"
                } else {
                    "Cancel"
                },
                Control::Stop,
                self.busy || self.authenticated || self.pin_required,
            ),
            stop_theme: Theme {
                button: theme.danger,
                hover: 0x8f2433,
                text: 0xffffff,
                border: theme.danger,
                ..theme
            },
            navigation,
            page_id: match self.page {
                Page::Connection => "connection-page",
                Page::Sharing => "sharing-page",
                Page::Settings => "settings-page",
            },
            content,
        }
    }
}

/// A button that can be trusted: it is one that the window may offer, and while it is greyed out
/// a click on it does nothing.
pub open spec fn honest(window: InterfaceView, button: ButtonView) -> bool {
    &&& offered(window, button.control)
    &&& !button.enabled ==> window.click(button.control) == (window, nothing())
}

/// Every button of an element can be trusted.
pub open spec fn honest_element(window: InterfaceView, element: ElementView) -> bool {
    match element {
        ElementView::Buttons(buttons) => forall|i: int|
            0 <= i < buttons.len() ==> honest(window, #[trigger] buttons[i]),
        _ => true,
    }
}

pub open spec fn honest_elements(window: InterfaceView, elements: Seq<ElementView>) -> bool {
    forall|i: int| 0 <= i < elements.len() ==> honest_element(window, #[trigger] elements[i])
}

/// Every button of a page can be trusted.
pub open spec fn honest_content(window: InterfaceView, content: ContentView) -> bool {
    &&& forall|i: int|
        0 <= i < content.cards.len() ==> honest_elements(
            window,
            (#[trigger] content.cards[i]).elements,
        )
    &&& honest_elements(window, content.footer)
}

/// In every state, a greyed-out button of the window does nothing when it is clicked, and no
/// button is shown that the state does not allow.
pub proof fn shown_buttons_are_honest(window: InterfaceView)
    ensures
        honest_content(window, page_content(window)),
        honest(window, stop_button(window)),
        honest(window, page_button(window, Page::Connection)),
        honest(window, page_button(window, Page::Sharing)),
        honest(window, page_button(window, Page::Settings)),
{
    lemma_connection_honest(window);
    lemma_options_honest(window);
}

proof fn lemma_connection_honest(window: InterfaceView)
    ensures
        honest_content(window, connection_content(window)),
{
    if window.authenticated {
        assert(honest_elements(window, connected_card(window).elements));
    } else if window.pin_required {
        assert(honest_elements(window, pairing_card(window).elements));
    } else {
        assert(honest_elements(window, device_head(window)));
        assert forall|i: int| 0 <= i < device_card(window).elements.len() implies honest_element(
            window,
            #[trigger] device_card(window).elements[i],
        ) by {
            let head = device_head(window).len();
            if i < head {
                assert(device_card(window).elements[i] == device_head(window)[i]);
            } else {
                assert(device_card(window).elements[i] == ElementView::Buttons(
                    seq![device_button(window, i - head)],
                ));
                assert(honest(window, device_button(window, i - head)));
            }
        }
    }
}

proof fn lemma_options_honest(window: InterfaceView)
    ensures
        window.authenticated && !window.streaming ==> honest_content(
            window,
            sharing_content(window),
        ),
{
    assert(honest_elements(window, source_card(window).elements));
    assert(honest_elements(window, tuning_card(window).elements));
    assert(honest(window, start_button(window)));
}

/// The card with the choices of a stream offers every quality and every latency by its label, and
/// marks exactly the one that is chosen.
pub proof fn choices_are_marked(window: InterfaceView, quality: VideoQuality, latency: LatencyMode)
    ensures
        ({
            let elements = tuning_card(window).elements;
            &&& elements[1] matches ElementView::Buttons(buttons) && exists|i: int|
                {
                    &&& 0 <= i < buttons.len()
                    &&& (#[trigger] buttons[i]).label == quality.label_text()
                    &&& buttons[i].control == Control::Quality(quality)
                    &&& buttons[i].selected <==> window.quality == quality
                    &&& buttons[i].enabled <==> !window.busy
                }
            &&& elements[4] matches ElementView::Buttons(buttons) && exists|i: int|
                {
                    &&& 0 <= i < buttons.len()
                    &&& (#[trigger] buttons[i]).label == latency.label_text()
                    &&& buttons[i].control == Control::Latency(latency)
                    &&& buttons[i].selected <==> window.latency == latency
                    &&& buttons[i].enabled <==> !window.busy
                }
            &&& elements[2] == ElementView::Text(
                Style::SmallMuted,
                window.quality.description_text(),
            )
        }),
{
    let elements = tuning_card(window).elements;
    let qualities = elements[1]->Buttons_0;
    let latencies = elements[4]->Buttons_0;
    match quality {
        VideoQuality::Efficient => assert(qualities[0] == quality_button(window, quality)),
        VideoQuality::High => assert(qualities[1] == quality_button(window, quality)),
        VideoQuality::Smooth => assert(qualities[2] == quality_button(window, quality)),
    }
    match latency {
        LatencyMode::Interactive => assert(latencies[0] == latency_button(window, latency)),
        LatencyMode::Responsive => assert(latencies[1] == latency_button(window, latency)),
        LatencyMode::Buffered => assert(latencies[2] == latency_button(window, latency)),
    }
}

/// Every device of the list has its own button, in order and under its name, and a click on it
/// connects to that device.
pub proof fn devices_are_listed(window: InterfaceView, index: int)
    requires
        !window.authenticated,
        !window.pin_required,
        0 <= index < window.devices.len() <= usize::MAX,
    ensures
        ({
            let elements = connection_content(window).cards[0].elements;
            let first = elements.len() - window.devices.len();
            &&& elements[first + index] matches ElementView::Buttons(buttons) && {
                &&& buttons.len() == 1
                &&& buttons[0].label == window.devices[index].name
                &&& buttons[0].enabled <==> !window.busy
                &&& buttons[0].enabled ==> window.click(buttons[0].control).1.command == Some(
                    CommandView::Connect(window.devices[index]),
                )
            }
        }),
{
    let head = device_head(window).len();
    assert(device_card(window).elements[head + index] == ElementView::Buttons(
        seq![device_button(window, index)],
    ));
}

/// As many of the four places of a code are filled as digits were entered.
pub proof fn places_show_the_digits_entered(entered: nat, i: int)
    requires
        entered <= 4,
        0 <= i < 4,
    ensures
        pin_dots(entered).len() == 8,
        pin_dots(entered)[2 * i] == (if i < entered {
            '●'
        } else {
            '○'
        }),
{
    reveal_strlit("● ");
    reveal_strlit("○ ");
    reveal_with_fuel(repeated, 5);
}

/// The card for the code has a key for every digit, which enters that digit.
pub proof fn every_digit_has_its_key(window: InterfaceView, digit: u8)
    requires
        digit < 10,
    ensures
        exists|row: int, column: int|
            {
                &&& 1 <= row <= 4
                &&& 0 <= column < 3
                &&& #[trigger] pairing_key(window, row, column).label == decimal(digit as nat)
                &&& pairing_key(window, row, column).control == Control::Digit(digit)
            },
{
    reveal_strlit("0");
    reveal_strlit("1");
    reveal_strlit("2");
    reveal_strlit("3");
    reveal_strlit("4");
    reveal_strlit("5");
    reveal_strlit("6");
    reveal_strlit("7");
    reveal_strlit("8");
    reveal_strlit("9");
    let row: int = if digit == 0 {
        4
    } else {
        (digit as int - 1) / 3 + 1
    };
    let column: int = if digit == 0 {
        1
    } else {
        (digit as int - 1) % 3
    };
    let key = pairing_key(window, row, column);
    assert(key.control == Control::Digit(digit));
    assert(key.label =~= decimal(digit as nat));
}

/// A key of the card for the code, by its row and column.
pub open spec fn pairing_key(window: InterfaceView, row: int, column: int) -> ButtonView {
    pairing_card(window).elements[row]->Buttons_0[column]
}

/// What was chosen is shown: before sharing starts and while it goes on.
pub proof fn the_choice_is_shown(window: InterfaceView, screen: Seq<char>)
    requires
        window.authenticated,
        window.screen == Some(screen),
    ensures
        ({
            let content = sharing_content(window);
            if window.streaming {
                &&& content.cards.len() == 1
                &&& content.cards[0].elements[0] == ElementView::Text(Style::Large, screen)
                &&& content.cards[0].elements[1] == ElementView::Text(
                    Style::Muted,
                    window.quality.label_text() + " · System audio on"@,
                )
            } else {
                &&& content.cards[0].elements.last() == ElementView::Text(
                    Style::Accent,
                    "Selected: "@ + screen,
                )
                &&& content.footer[0] matches ElementView::Buttons(buttons) && {
                    &&& buttons.len() == 1
                    &&& buttons[0].enabled <==> !window.busy
                    &&& buttons[0].enabled ==> window.click(buttons[0].control).1.command == Some(
                        CommandView::StartMirroring(window.quality, window.latency),
                    )
                }
            }
        }),
{
}

/// The page that is shown is the one that was asked for; the sharing page asks a window without a
/// session to connect first.
pub proof fn the_page_asked_for_is_shown(window: InterfaceView, page: Page)
    requires
        page != Page::Sharing || window.authenticated,
    ensures
        ({
            let after = window.click(page_button(window, page).control).0;
            &&& after == (InterfaceView { page, ..window })
            &&& page_button(after, page).selected
            &&& page == Page::Settings ==> page_content(after) == settings_content(after)
            &&& page == Page::Connection ==> page_content(after) == connection_content(after)
            &&& page == Page::Sharing ==> page_content(after) == sharing_content(after)
        }),
        !window.authenticated ==> sharing_content(window) == connection_content(window),
{
}

} // verus!
