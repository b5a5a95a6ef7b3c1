//! Cards, menus, wrapped text and the status light.
use voicebox::portal::PortalOutcome;
use voicebox::scene::{scene, Element, Figure, Font, Point, Sweep};
use voicebox::screens::{
    cancel_notice, configure_menu, erase_confirmed, erase_notice, hotspot_failed_notice,
    join_progress, last_page, on_configure_touch, on_idle_event, on_settings_touch, opens_portal,
    portal_exit, setting_entries, setup_reason, step_volume, written_notice, ConfigureAction,
    IdleAction, IdleEvent, PortalExit, Screen,
};
use voicebox::settings::{Field, Settings, Store};
use voicebox::touch::TouchEvent;
use voicebox::ui::{
    led_color, led_of, menu_row_at, menu_row_top, row_zone, Battery, Color, MenuRow, NoticeColor,
    RowZone, SettingEntry, UiState,
};
use voicebox::wrap::wrap;

fn labels(elements: &[Element<String>]) -> Vec<&str> {
    let mut found = Vec::new();
    for e in elements {
        if let Element::Label { text, .. } = e {
            found.push(text.as_str());
        }
    }
    found
}

fn notice_parts(state: &UiState) -> (&str, &str, NoticeColor) {
    match state {
        UiState::Notice { title, body, color } => (title, body, *color),
        _ => panic!("no notice"),
    }
}

#[test]
fn rows_and_taps_agree() {
    assert_eq!(menu_row_top(0), 58);
    assert_eq!(menu_row_top(2), 150);
    assert_eq!(menu_row_at(120, 58, 3), Some(0));
    assert_eq!(menu_row_at(120, 97, 3), Some(0));
    assert_eq!(menu_row_at(120, 98, 3), None);
    assert_eq!(menu_row_at(120, 104, 3), Some(1));
    assert_eq!(menu_row_at(44, 189, 3), Some(2));
    assert_eq!(menu_row_at(196, 189, 3), Some(2));
    assert_eq!(menu_row_at(43, 189, 3), None);
    assert_eq!(menu_row_at(197, 189, 3), None);
    assert_eq!(menu_row_at(120, 190, 3), None);
    assert_eq!(menu_row_at(120, 196, 3), None);
    assert_eq!(menu_row_at(120, 196, 4), Some(3));
    assert_eq!(menu_row_at(120, 57, 3), None);
    assert_eq!(menu_row_at(120, -1000, 3), None);
    assert_eq!(menu_row_at(120, 60, 0), None);
}

#[test]
fn zones_of_a_row() {
    assert_eq!(row_zone(85), RowZone::Decrement);
    assert_eq!(row_zone(86), RowZone::Body);
    assert_eq!(row_zone(154), RowZone::Body);
    assert_eq!(row_zone(155), RowZone::Increment);
    for x in -20..260 {
        let mirrored = row_zone(240 - x);
        match row_zone(x) {
            RowZone::Decrement => assert_eq!(mirrored, RowZone::Increment),
            RowZone::Body => assert_eq!(mirrored, RowZone::Body),
            RowZone::Increment => assert_eq!(mirrored, RowZone::Decrement),
        }
    }
}

#[test]
fn menu_row_kinds() {
    let a = MenuRow::action("go");
    assert_eq!((a.label.as_str(), a.value.is_none(), a.stepper, a.danger), ("go", true, false, false));
    let d = MenuRow::danger("no");
    assert_eq!((d.label.as_str(), d.value.is_none(), d.stepper, d.danger), ("no", true, false, true));
    let s = MenuRow::stepper("volume", "80");
    assert_eq!((s.value.as_deref(), s.stepper, s.danger), (Some("80"), true, false));
}

#[test]
fn light_follows_the_state() {
    assert_eq!(led_of(Color::White), (255, 255, 255));
    assert_eq!(led_of(Color::Blue), (32, 80, 255));
    assert_eq!(led_of(Color::Green), (32, 161, 98));
    let idle = UiState::Idle { wifi_ok: true, exchanges: 0, battery: None };
    assert_eq!(led_color(&idle), (0, 0, 0));
    assert_eq!(led_color(&UiState::Boot { step: "", progress: 0 }), led_of(Color::Blue));
    assert_eq!(led_color(&UiState::Listening { level: 3 }), led_of(Color::Blue));
    assert_eq!(led_color(&UiState::Thinking { tool: None }), led_of(Color::Purple));
    assert_eq!(led_color(&UiState::Speaking { snippet: String::new() }), led_of(Color::Green));
    assert_eq!(led_color(&UiState::Error(String::new())), led_of(Color::Red));
    assert_eq!(led_color(&configure_menu(&Settings::unconfigured())), (0, 0, 0));
    assert_eq!(led_color(&UiState::Settings { entries: Vec::new(), offset: 0 }), (0, 0, 0));
    let portal = UiState::Portal { ap_ssid: String::new(), url: String::new(), clients: 0 };
    assert_eq!(led_color(&portal), led_of(Color::Amber));
    for (kind, color) in [
        (NoticeColor::Info, Color::Blue),
        (NoticeColor::Warn, Color::Amber),
        (NoticeColor::Good, Color::Green),
    ] {
        let state = UiState::Notice { title: String::new(), body: String::new(), color: kind };
        assert_eq!(led_color(&state), led_of(color));
        assert_eq!(kind.color(), color);
    }
}

#[test]
fn text_wraps_at_words() {
    assert_eq!(wrap("one two three", 7, 3), ["one two", "three"]);
    assert_eq!(wrap("  one\n\ttwo  ", 20, 3), ["one two"]);
    assert_eq!(wrap("abcdefghij", 4, 5), ["abcd", "efgh", "ij"]);
    assert_eq!(wrap("a abcdefgh", 4, 5), ["a", "abcd", "efgh"]);
    assert!(wrap("   ", 4, 5).is_empty());
    assert!(wrap("", 4, 5).is_empty());
    assert_eq!(wrap("abc", 3, 1), ["abc"]);
}

#[test]
fn text_that_is_cut_is_marked() {
    assert_eq!(wrap("one two three four", 7, 1), ["one tw~"]);
    assert_eq!(wrap("one two three four", 9, 1), ["one two~"]);
    assert_eq!(wrap("abcdefghij", 4, 2), ["abcd", "efg~"]);
    assert_eq!(wrap("a b c", 1, 2), ["a", "~"]);
    assert_eq!(wrap("ab", 0, 3), ["", "", "~"]);
    assert_eq!(wrap("\u{e9}\u{e9}\u{e9}\u{e9}", 3, 1), ["\u{e9}\u{e9}~"]);
    for max_lines in 1..6 {
        for max_chars in 1..12 {
            let lines = wrap("the quick brown fox jumps over it", max_chars, max_lines);
            assert!(lines.len() <= max_lines);
            assert!(lines.iter().all(|l| l.chars().count() <= max_chars));
        }
    }
}

#[test]
fn boot_card_has_an_arc_once_it_moves() {
    let still = scene(&UiState::Boot { step: "display", progress: 0 }, 0);
    let moving = scene(&UiState::Boot { step: "display", progress: 45 }, 0);
    assert_eq!(moving.len(), still.len() + 1);
    match &moving[1] {
        Element::Figure { figure: Figure::Arc { start_degrees, sweep, diameter, .. }, ink } => {
            assert_eq!((*start_degrees, *sweep, *diameter), (90, Sweep::ClockwisePercent(45), 232));
            assert_eq!((ink.stroke, ink.stroke_width), (Some(Color::Blue), 5));
        }
        _ => panic!("no arc"),
    }
    assert_eq!(labels(&moving), ["starting up", "display"]);
}

#[test]
fn thinking_card_turns() {
    for (tick, degrees) in [(0u32, 0u32), (1, 24), (14, 336), (15, 0), (16, 24), (u32::MAX, 0)] {
        let s = scene(&UiState::Thinking { tool: None }, tick);
        match &s[1] {
            Element::Figure { figure: Figure::Arc { start_degrees, sweep, .. }, .. } => {
                assert_eq!((*start_degrees, *sweep), (degrees, Sweep::Degrees(90)));
            }
            _ => panic!("no arc"),
        }
    }
    let s = scene(&UiState::Thinking { tool: Some("searching".to_string()) }, 0);
    assert_eq!(labels(&s), ["...", "searching", "swipe to cancel"]);
}

#[test]
fn idle_card_counts_exchanges() {
    let card = |exchanges, battery| UiState::Idle { wifi_ok: false, exchanges, battery };
    assert_eq!(labels(&scene(&card(0, None), 0)), ["tap to talk"]);
    assert_eq!(labels(&scene(&card(1, None), 0)), ["1 exchange", "tap to talk"]);
    assert_eq!(labels(&scene(&card(12, None), 0)), ["12 exchanges", "tap to talk"]);
    let charged = Some(Battery { percent: 130, charging: true });
    assert_eq!(labels(&scene(&card(0, charged), 0)), ["tap to talk", "100%"]);
}

fn battery_bar(percent: u8, charging: bool) -> (u32, Option<Color>) {
    let state = UiState::Idle {
        wifi_ok: true,
        exchanges: 0,
        battery: Some(Battery { percent, charging }),
    };
    for e in scene(&state, 0) {
        if let Element::Figure { figure: Figure::Rect { corner, width, height }, ink } = e {
            if corner == (Point { x: 75, y: 33 }) && height == 7 {
                return (width, ink.fill);
            }
        }
    }
    (0, None)
}

#[test]
fn battery_gauge() {
    assert_eq!(battery_bar(100, false), (16, Some(Color::Green)));
    assert_eq!(battery_bar(50, false), (8, Some(Color::Green)));
    assert_eq!(battery_bar(49, false), (7, Some(Color::Amber)));
    assert_eq!(battery_bar(20, false), (3, Some(Color::Amber)));
    assert_eq!(battery_bar(19, false), (3, Some(Color::Red)));
    assert_eq!(battery_bar(1, false), (1, Some(Color::Red)));
    assert_eq!(battery_bar(0, false), (0, None));
    assert_eq!(battery_bar(1, true), (1, Some(Color::Green)));
}

#[test]
fn microphone_glyph() {
    let s = scene(&UiState::Listening { level: 0 }, 0);
    let mut rects = Vec::new();
    for e in &s {
        if let Element::Figure { figure: Figure::Rect { corner, width, height }, .. } = e {
            rects.push((corner.x, corner.y, *width, *height));
        }
    }
    assert_eq!(rects, [(94, 80, 54, 27), (118, 128, 5, 20), (104, 148, 33, 5)]);
}

#[test]
fn level_ring_grows_with_the_voice() {
    for (level, diameter) in [(0u8, 110u32), (1, 122), (5, 170), (10, 230), (200, 230)] {
        let s = scene(&UiState::Listening { level }, 0);
        match &s[0] {
            Element::Figure { figure: Figure::Circle { diameter: d, .. }, .. } => {
                assert_eq!(*d, diameter);
            }
            _ => panic!("no ring"),
        }
    }
}

#[test]
fn settings_card_pages() {
    let entries: Vec<SettingEntry> = (0..4)
        .map(|i| SettingEntry {
            label: format!("label {i}"),
            value: format!("value {i}"),
            placeholder: i == 3,
        })
        .collect();
    let first = scene(&UiState::Settings { entries: entries.clone(), offset: 0 }, 0);
    assert_eq!(
        labels(&first),
        [
            "Settings", "label 0", "value 0", "label 1", "value 1", "label 2", "value 2",
            "1-3 of 4", "swipe up/down"
        ]
    );
    let second = scene(&UiState::Settings { entries, offset: 3 }, 0);
    assert_eq!(
        labels(&second),
        ["Settings", "label 3", "value 3", "4-4 of 4", "swipe up/down"]
    );
    let lines = |s: &[Element<String>]| {
        s.iter()
            .filter(|e| matches!(e, Element::Figure { figure: Figure::Line { .. }, .. }))
            .count()
    };
    assert_eq!(lines(&first), 3);
    assert_eq!(lines(&second), 0);
    let none = scene(&UiState::Settings { entries: Vec::new(), offset: 0 }, 0);
    assert_eq!(labels(&none), ["Settings", "swipe up/down"]);
}

#[test]
fn menu_card_labels() {
    let mut settings = Settings::unconfigured();
    settings.volume = 45;
    let s = scene(&configure_menu(&settings), 0);
    assert_eq!(
        labels(&s),
        ["Configure", "Wi-Fi Setup", "-", "+", "volume", "45", "Erase Settings"]
    );
    let bold = s.iter().filter(|e| matches!(e, Element::Label { font: Font::Bold, .. })).count();
    assert_eq!(bold, 6);
}

#[test]
fn speaking_card_centres_its_lines() {
    let s = scene(&UiState::Speaking { snippet: "one ".repeat(20) }, 0);
    let mut ys = Vec::new();
    for e in &s {
        if let Element::Label { at, .. } = e {
            ys.push(at.y);
        }
    }
    assert_eq!(ys, [108, 120, 132]);
}

#[test]
fn portal_and_notice_cards() {
    let portal = |clients| UiState::Portal {
        ap_ssid: "net".to_string(),
        url: "http://x".to_string(),
        clients,
    };
    assert_eq!(
        labels(&scene(&portal(0), 0)),
        [
            "Wi-Fi Setup", "join this network:", "net", "then browse to:", "http://x",
            "waiting for device", "tap to cancel"
        ]
    );
    assert_eq!(labels(&scene(&portal(2), 0))[5], "device connected");
    assert_eq!(labels(&scene(&cancel_notice(), 0)), ["Cancelled", "nothing sent"]);
    assert_eq!(labels(&scene(&UiState::Error("oh no".to_string()), 0)), ["!", "oh no"]);
}

#[test]
fn setting_entries_hide_secrets() {
    let mut a = Settings::unconfigured();
    a.set(Field::WifiSsid, "home".to_string());
    a.set(Field::WifiPassword, "hunter2".to_string());
    let mut b = a.clone();
    b.set(Field::WifiPassword, "something much longer".to_string());
    let ea = setting_entries(&a, true);
    let eb = setting_entries(&b, true);
    assert_eq!(ea.len(), 11);
    for (x, y) in ea.iter().zip(&eb) {
        assert_eq!((&x.label, &x.value, x.placeholder), (&y.label, &y.value, y.placeholder));
    }
    assert_eq!((ea[0].value.as_str(), ea[0].placeholder), ("home", false));
    assert_eq!((ea[1].value.as_str(), ea[1].placeholder), ("********", false));
    assert_eq!((ea[2].value.as_str(), ea[2].placeholder), ("not set", true));
    assert_eq!((ea[9].label.as_str(), ea[9].value.as_str()), ("Speaker volume", "82"));
    assert_eq!((ea[10].value.as_str(), ea[10].placeholder), ("saved on device", false));
    let fresh = setting_entries(&Settings::unconfigured(), false);
    assert_eq!((fresh[10].value.as_str(), fresh[10].placeholder), ("not configured", true));
}

#[test]
fn paging_through_the_settings() {
    assert_eq!(last_page(0), 0);
    assert_eq!(last_page(3), 0);
    assert_eq!(last_page(4), 3);
    assert_eq!(last_page(11), 9);
    assert_eq!(on_settings_touch(TouchEvent::SwipeUp, 0, 11), (Screen::Settings, 3));
    assert_eq!(on_settings_touch(TouchEvent::SwipeUp, 9, 11), (Screen::Settings, 9));
    assert_eq!(on_settings_touch(TouchEvent::SwipeDown, 3, 11), (Screen::Settings, 0));
    assert_eq!(on_settings_touch(TouchEvent::SwipeDown, 0, 11), (Screen::Settings, 0));
    assert_eq!(on_settings_touch(TouchEvent::SwipeRight, 3, 11), (Screen::Configure, 3));
    assert_eq!(on_settings_touch(TouchEvent::SwipeLeft, 3, 11), (Screen::Settings, 3));
    assert_eq!(on_settings_touch(TouchEvent::Tap { x: 1, y: 1 }, 3, 11), (Screen::Settings, 3));
}

#[test]
fn volume_steps() {
    assert_eq!(step_volume(82, RowZone::Increment), 87);
    assert_eq!(step_volume(82, RowZone::Decrement), 77);
    assert_eq!(step_volume(82, RowZone::Body), 82);
    assert_eq!(step_volume(98, RowZone::Increment), 100);
    assert_eq!(step_volume(3, RowZone::Decrement), 0);
    assert_eq!(step_volume(250, RowZone::Body), 100);
    for v in 0..=95 {
        assert_eq!(step_volume(step_volume(v, RowZone::Increment), RowZone::Decrement), v);
    }
}

#[test]
fn touches_on_the_configure_card() {
    let at = |x, y| TouchEvent::Tap { x, y };
    assert_eq!(on_configure_touch(at(120, 70), 50), ConfigureAction::OpenPortal);
    assert_eq!(on_configure_touch(at(50, 110), 50), ConfigureAction::SetVolume(45));
    assert_eq!(on_configure_touch(at(190, 110), 50), ConfigureAction::SetVolume(55));
    assert_eq!(on_configure_touch(at(120, 110), 50), ConfigureAction::Stay);
    assert_eq!(on_configure_touch(at(190, 110), 100), ConfigureAction::Stay);
    assert_eq!(on_configure_touch(at(120, 160), 50), ConfigureAction::ConfirmErase);
    assert_eq!(on_configure_touch(at(120, 10), 50), ConfigureAction::Stay);
    assert_eq!(on_configure_touch(at(10, 70), 50), ConfigureAction::Stay);
    assert_eq!(on_configure_touch(TouchEvent::SwipeLeft, 50), ConfigureAction::OpenSettings);
    assert_eq!(on_configure_touch(TouchEvent::SwipeRight, 50), ConfigureAction::Back);
    assert_eq!(on_configure_touch(TouchEvent::SwipeUp, 50), ConfigureAction::Stay);
    assert!(erase_confirmed(Some(at(1, 1))));
    assert!(!erase_confirmed(Some(TouchEvent::SwipeLeft)));
    assert!(!erase_confirmed(None));
}

#[test]
fn events_on_the_assistant_card() {
    let tap = IdleEvent::Touch(TouchEvent::Tap { x: 5, y: 5 });
    assert_eq!(on_idle_event(tap), IdleAction::StartListening);
    assert_eq!(on_idle_event(IdleEvent::Touch(TouchEvent::SwipeLeft)), IdleAction::OpenConfigure);
    for swipe in [TouchEvent::SwipeRight, TouchEvent::SwipeUp, TouchEvent::SwipeDown] {
        assert_eq!(on_idle_event(IdleEvent::Touch(swipe)), IdleAction::Stay);
    }
    assert_eq!(on_idle_event(IdleEvent::Button), IdleAction::NewChat);
    assert_eq!(on_idle_event(IdleEvent::Timeout), IdleAction::CountIdle);
}

#[test]
fn starting_up() {
    assert_eq!(join_progress(0), 60);
    assert_eq!(join_progress(24), 79);
    assert_eq!(join_progress(49), 98);
    assert_eq!(setup_reason(true, true), None);
    assert_eq!(
        setup_reason(false, true),
        Some("nothing is configured yet - starting the setup hotspot")
    );
    assert_eq!(
        setup_reason(true, false),
        Some("could not join the saved network - starting the setup hotspot")
    );
    assert!(opens_portal(true, true));
    assert!(!opens_portal(true, false));
    assert!(!opens_portal(false, true));
}

#[test]
fn leaving_the_portal() {
    let settings = Settings::unconfigured();
    let store = Store { offset: 0x9000, size: 0x6000 };
    match portal_exit(&PortalOutcome::Saved(settings.clone()), Some(store), 4096) {
        PortalExit::Write(plan) => assert_eq!((plan.erase_from, plan.erase_to), (0x9000, 0xA000)),
        PortalExit::Tell(_) => panic!("not written"),
    }
    let told = |exit| match exit {
        PortalExit::Tell(state) => state,
        PortalExit::Write(_) => panic!("written"),
    };
    let tiny = Store { offset: 0, size: 64 };
    let failed = told(portal_exit(&PortalOutcome::Saved(settings.clone()), Some(tiny), 4096));
    assert_eq!(notice_parts(&failed), ("Save Failed", "restarting", NoticeColor::Warn));
    let nowhere = told(portal_exit(&PortalOutcome::Saved(settings), None, 4096));
    assert_eq!(
        notice_parts(&nowhere),
        ("Not Saved", "no storage partition - restarting", NoticeColor::Warn)
    );
    let cancelled = told(portal_exit(&PortalOutcome::Cancelled, Some(store), 4096));
    assert_eq!(notice_parts(&cancelled), ("Cancelled", "restarting", NoticeColor::Info));
    assert_eq!(notice_parts(&written_notice(true)), ("Saved", "restarting", NoticeColor::Good));
    assert_eq!(notice_parts(&written_notice(false)).0, "Save Failed");
    assert_eq!(notice_parts(&erase_notice()).0, "Erase?");
    assert_eq!(notice_parts(&hotspot_failed_notice()).0, "Hotspot Failed");
}

#[test]
fn drawn_rows_can_be_tapped() {
    let elements = scene(&configure_menu(&Settings::unconfigured()), 0);
    let mut boxes = Vec::new();
    for e in &elements {
        if let Element::Figure { figure: Figure::Rounded { corner, width, height, .. }, .. } = e {
            boxes.push((corner.x, corner.y, *width as i32, *height as i32));
        }
    }
    assert_eq!(boxes, [(44, 58, 152, 40), (44, 104, 152, 40), (44, 150, 152, 40)]);
    for y in 0..240 {
        for x in 0..240 {
            let drawn = boxes
                .iter()
                .position(|b| b.0 <= x && x < b.0 + b.2 && b.1 <= y && y < b.1 + b.3);
            if x != 196 {
                assert_eq!(menu_row_at(x, y, 3), drawn);
            }
        }
    }
    for e in &elements {
        if let Element::Label { text, at, .. } = e {
            match text.as_str() {
                "-" => assert_eq!(row_zone(at.x), RowZone::Decrement),
                "+" => assert_eq!(row_zone(at.x), RowZone::Increment),
                _ => {}
            }
        }
    }
}

#[test]
fn every_entry_is_a_few_swipes_away() {
    for count in 1..12 {
        let mut offset = 0;
        for i in 0..count {
            if i >= offset + 3 {
                offset = on_settings_touch(TouchEvent::SwipeUp, offset, count).1;
            }
            assert!(offset <= i && i < offset + 3);
            assert_eq!(offset % 3, 0);
        }
    }
}

#[test]
fn no_lines_show_nothing() {
    assert!(wrap("a b", 1, 0).is_empty());
    assert!(wrap("a b", 0, 0).is_empty());
    assert!(wrap("", 5, 0).is_empty());
}
