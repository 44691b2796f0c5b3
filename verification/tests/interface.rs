use spielab::backend::{Command, Event};
use spielab::devices::Device;
use spielab::display::{Button, Content, Element, Style, Theme};
use spielab::interface::{Control, Page, Spielab};
use spielab::settings::{CaptureMode, LatencyMode, VideoQuality};

fn device(name: &str) -> Device {
    Device {
        key: 7,
        name: name.into(),
        hardware_address: "00:11".into(),
        features: 0,
    }
}

fn buttons(content: &Content) -> Vec<&Button> {
    let cards = content.cards.iter().flat_map(|card| card.elements.iter());
    cards
        .chain(content.footer.iter())
        .filter_map(|element| match element {
            Element::Buttons(buttons) => Some(buttons.iter()),
            _ => None,
        })
        .flatten()
        .collect()
}

fn texts(content: &Content) -> Vec<(Style, &str)> {
    let cards = content.cards.iter().flat_map(|card| card.elements.iter());
    cards
        .chain(content.footer.iter())
        .filter_map(|element| match element {
            Element::Text(style, text) => Some((*style, text.as_str())),
            _ => None,
        })
        .collect()
}

fn labels(content: &Content) -> Vec<(&str, bool)> {
    buttons(content)
        .iter()
        .map(|button| (button.label.as_str(), button.enabled))
        .collect()
}

fn pairing() -> Spielab {
    let mut window = Spielab::new(None);
    window.event(Event::PinRequired("TV".into()));
    window
}

fn sharing() -> Spielab {
    let mut window = Spielab::new(Some(false));
    window.event(Event::Authenticated("TV".into()));
    window
}

#[test]
fn windows_open_dark_and_searching() {
    let window = Spielab::new(None);
    assert!(window.dark_mode && window.busy && window.discovering);
    assert_eq!(window.status, "Looking for AirPlay receivers…");
    assert!(!Spielab::new(Some(false)).dark_mode);
    let frame = window.render();
    assert_eq!(frame.theme, Theme::new(true));
    assert_eq!(frame.page_id, "connection-page");
    assert_eq!(
        labels(&frame.content),
        vec![("Looking for TVs…", false)]
    );
    assert!(buttons(&frame.content)[0].spinner);
    assert_eq!((frame.stop.label.as_str(), frame.stop.enabled), ("Cancel", true));
    let names: Vec<(&str, bool, bool)> = frame
        .navigation
        .iter()
        .map(|button| (button.label.as_str(), button.enabled, button.selected))
        .collect();
    assert_eq!(
        names,
        vec![
            ("Connection", true, true),
            ("Sharing", false, false),
            ("Settings", true, false)
        ]
    );
}

#[test]
fn device_lists_are_counted() {
    let mut window = Spielab::new(None);
    window.event(Event::Devices(vec![]));
    assert_eq!(
        window.status,
        "No receivers found. Check that Apple TV is awake and on the same network."
    );
    assert_eq!(
        texts(&window.connection_page()),
        vec![(
            Style::Hint,
            "Keep Apple TV awake and connected to the same network."
        )]
    );
    window.event(Event::Devices(vec![device("A"), device("B")]));
    assert_eq!(window.status, "2 AirPlay receiver(s) found");
    assert_eq!(
        labels(&window.connection_page()),
        vec![("Refresh devices", true), ("A", true), ("B", true)]
    );
    let reaction = window.click(Control::Device(1));
    assert!(matches!(reaction.command, Some(Command::Connect(device)) if device.name == "B"));
    assert_eq!(window.receiver.as_deref(), Some("B"));
    assert!(window.click(Control::Device(2)).command.is_none());
    window.sent(false, true);
    assert!(window.busy && !window.discovering);
    assert!(window.click(Control::Device(0)).command.is_none());
    assert!(window.click(Control::Refresh).command.is_none());
}

#[test]
fn codes_are_entered_by_keys_and_clicks() {
    let mut window = pairing();
    assert_eq!(window.status, "Enter the four-digit code shown on TV");
    for key in ["0", "a", "1", "10", "backspace", "2"] {
        assert!(window.key(key).command.is_none());
    }
    assert_eq!(window.pin, vec![0, 2]);
    assert_eq!(texts(&window.connection_page())[0], (Style::Huge, "● ● ○ ○ "));
    assert!(window.key("enter").command.is_none());
    window.click(Control::Digit(3));
    window.click(Control::Digit(10));
    window.click(Control::Digit(4));
    window.click(Control::Digit(5));
    assert_eq!(window.pin, vec![0, 2, 3, 4]);
    let page = window.connection_page();
    assert_eq!(
        *labels(&page).last().unwrap(),
        ("Authorize and continue →", true)
    );
    let reaction = window.key("enter");
    assert!(matches!(reaction.command, Some(Command::Pair(pin)) if pin == "0234"));
    assert!(window.pin.is_empty());
    for digit in [9, 8, 7, 6] {
        window.click(Control::Digit(digit));
    }
    window.click(Control::Backspace);
    assert!(window.click(Control::Authorize).command.is_none());
    window.click(Control::Digit(1));
    let reaction = window.click(Control::Authorize);
    assert!(matches!(reaction.command, Some(Command::Pair(pin)) if pin == "9871"));
    window.click(Control::Digit(1));
    window.click(Control::ClearPin);
    assert!(window.pin.is_empty());
    window.sent(false, true);
    window.click(Control::Digit(1));
    assert!(window.pin.is_empty());
}

#[test]
fn escape_disconnects_everywhere() {
    for mut window in [Spielab::new(None), pairing(), sharing()] {
        assert!(window.key("escape").disconnect);
    }
    let mut idle = Spielab::new(None);
    idle.event(Event::Disconnected);
    assert!(!idle.click(Control::Stop).disconnect);
    let mut window = sharing();
    assert!(window.click(Control::Stop).disconnect);
    assert_eq!(window.status, "Disconnecting…");
    assert!(window.busy);
}

#[test]
fn sharing_offers_sources_and_settings() {
    let mut window = sharing();
    assert_eq!(window.status, "Authenticated with TV");
    assert!(window.page == Page::Sharing);
    let page = window.sharing_page();
    assert_eq!(
        labels(&page),
        vec![
            ("Screen or window", true),
            ("Extended display", false),
            ("720p / 30", true),
            ("1080p / 30", true),
            ("1080p / 60", true),
            ("Interactive · 50 ms", true),
            ("Responsive · 100 ms", true),
            ("Buffered · 500 ms", true),
            ("Start sharing →", false),
        ]
    );
    let selected: Vec<&str> = buttons(&page)
        .iter()
        .filter(|button| button.selected)
        .map(|button| button.label.as_str())
        .collect();
    assert_eq!(selected, vec!["1080p / 30", "Interactive · 50 ms"]);
    let start = *buttons(&page).last().unwrap();
    assert!(start.prominent && !start.selected && !start.enabled);
    let theme = window.render().theme;
    assert_eq!(theme.edge_color(start.selected, start.prominent), theme.accent);
    assert_eq!(theme.label_color(start.enabled, start.selected), theme.muted);
    assert!(window.click(Control::Choose(CaptureMode::Extend)).command.is_none());
    window.event(Event::VirtualSupport(true));
    assert!(matches!(
        window.click(Control::Choose(CaptureMode::Extend)).command,
        Some(Command::ChooseScreen(CaptureMode::Extend))
    ));
    assert!(window.click(Control::Start).command.is_none());
    window.event(Event::ScreenSelected {
        size: Some((1920, -1)),
        mode: CaptureMode::Mirror,
    });
    assert_eq!(window.screen.as_deref(), Some("Screen or window · 1920 × -1"));
    assert!(texts(&window.sharing_page())
        .contains(&(Style::Accent, "Selected: Screen or window · 1920 × -1")));
    window.click(Control::Quality(VideoQuality::Smooth));
    window.click(Control::Latency(LatencyMode::Buffered));
    assert!(matches!(
        window.click(Control::Start).command,
        Some(Command::StartMirroring(
            VideoQuality::Smooth,
            LatencyMode::Buffered
        ))
    ));
}

#[test]
fn streaming_is_shown_and_cleared() {
    let mut window = sharing();
    window.event(Event::ScreenSelected {
        size: None,
        mode: CaptureMode::Extend,
    });
    window.event(Event::EncoderSelected("GPU".into()));
    assert_eq!(window.encoder, "GPU");
    window.event(Event::Streaming(1));
    assert_eq!(window.status, "Sharing to TV · System audio included");
    assert!(window.streaming && window.busy);
    assert_eq!(
        texts(&window.sharing_page()),
        vec![
            (Style::Large, "Extended display"),
            (Style::Muted, "1080p / 30 · System audio on"),
            (
                Style::Small,
                "Use Disconnect at the top right to stop sharing."
            ),
        ]
    );
    window.event(Event::Error("lost".into()));
    assert_eq!(window.status, "lost");
    assert!(window.error && !window.authenticated && !window.streaming);
    assert!(window.page == Page::Connection && window.screen.is_none());
    assert_eq!(window.render().status_color, Theme::new(false).danger);
    window.event(Event::Busy("wait".into()));
    assert!(window.busy && !window.error);
}

#[test]
fn connected_receivers_lead_on_to_sharing() {
    let mut window = sharing();
    window.click(Control::Page(Page::Connection));
    let page = window.connection_page();
    assert_eq!(page.cards[0].description, "TV");
    assert_eq!(labels(&page), vec![("Continue to sharing →", true)]);
    window.click(Control::Continue);
    assert!(window.page == Page::Sharing);
    let mut stranger = Spielab::new(None);
    stranger.click(Control::Page(Page::Sharing));
    assert!(stranger.page == Page::Connection);
    stranger.click(Control::Page(Page::Settings));
    assert!(stranger.page == Page::Settings);
}

#[test]
fn appearance_is_switched_and_saved() {
    let mut window = Spielab::new(None);
    let reaction = window.click(Control::DarkMode);
    assert_eq!(reaction.save, Some(false));
    assert!(!window.dark_mode);
    assert!(!Spielab::new(reaction.save).dark_mode);
    let page = window.settings_page();
    match &page.cards[0].elements[2] {
        Element::Switch(switch) => {
            let theme = Theme::new(false);
            assert!(!switch.on);
            assert_eq!(
                (switch.border, switch.background, switch.knob),
                (theme.border, theme.button, theme.panel)
            );
        }
        _ => panic!("expected the switch"),
    }
    window.appearance_not_saved("disk full");
    assert_eq!(window.status, "Could not save appearance: disk full");
    assert!(window.error && !window.dark_mode);
    let reaction = window.click(Control::DarkMode);
    assert_eq!(reaction.save, Some(true));
    assert!(window.dark_mode && Spielab::new(reaction.save).dark_mode);
    window.toggle_dark_mode();
    window.toggle_dark_mode();
    assert!(window.dark_mode);
}

#[test]
fn refused_commands_are_told() {
    let mut window = Spielab::new(None);
    window.sent(true, false);
    assert_eq!(window.status, "AirPlay worker is busy or has stopped");
    assert!(window.error && !window.discovering);
    window.sent(true, true);
    assert_eq!(window.status, "Looking for AirPlay receivers…");
    assert!(window.discovering && !window.error);
}

#[test]
fn greyed_out_buttons_do_nothing() {
    let mut busy = sharing();
    busy.event(Event::Busy("wait".into()));
    for mut window in [Spielab::new(None), busy] {
        let content = window.render().content;
        for button in buttons(&content) {
            if !button.enabled {
                let reaction = window.click(button.control);
                assert!(reaction.command.is_none() && !reaction.disconnect && reaction.save.is_none());
            }
        }
    }
}

#[test]
fn colours_follow_the_state_of_a_button() {
    let theme = Theme::new(true);
    assert_eq!(theme.accent, 0x9ee4b1);
    assert_eq!(theme.label_color(true, false), theme.text);
    assert_eq!(theme.label_color(false, false), theme.muted);
    assert_eq!(theme.label_color(false, true), theme.accent);
    assert_eq!(theme.edge_color(false, false), theme.border);
    assert_eq!(theme.edge_color(true, false), theme.accent);
    assert_eq!(theme.edge_color(false, true), theme.accent);
    let frame = Spielab::new(None).render();
    assert_eq!(frame.stop_theme.hover, 0x8f2433);
    assert_eq!(frame.stop_theme.button, theme.danger);
}
