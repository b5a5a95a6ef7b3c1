//! Touches, the cards they lead to, and frames.
use voicebox::frames::{FrameClock, SPINNER_FRAME_MS};
use voicebox::screens::{Cards, ConfigureAction, Screen};
use voicebox::touch::{
    abandons_turn, classify, Cst816d, Gesture, TouchEvent, TouchPoint, TouchStep, TouchTracker,
    CST816D_ADDR,
};

fn at(x: u16, y: u16) -> TouchPoint {
    TouchPoint { x, y, gesture: Gesture::NoGesture }
}

#[test]
fn short_travel_is_a_tap() {
    assert_eq!(classify(at(100, 100), at(139, 61)), TouchEvent::Tap { x: 139, y: 61 });
    assert_eq!(classify(at(5, 6), at(5, 6)), TouchEvent::Tap { x: 5, y: 6 });
}

#[test]
fn longer_axis_decides() {
    assert_eq!(classify(at(100, 100), at(140, 100)), TouchEvent::SwipeRight);
    assert_eq!(classify(at(140, 100), at(100, 100)), TouchEvent::SwipeLeft);
    assert_eq!(classify(at(100, 100), at(100, 140)), TouchEvent::SwipeDown);
    assert_eq!(classify(at(100, 140), at(100, 100)), TouchEvent::SwipeUp);
    assert_eq!(classify(at(0, 0), at(50, 50)), TouchEvent::SwipeRight);
    assert_eq!(classify(at(0, 0), at(50, 51)), TouchEvent::SwipeDown);
    assert_eq!(classify(at(u16::MAX, 0), at(0, 9)), TouchEvent::SwipeLeft);
}

#[test]
fn reversed_swipes() {
    for (a, b) in [(at(0, 0), at(90, 10)), (at(20, 200), at(30, 20)), (at(0, 0), at(60, 60))] {
        let (there, back) = (classify(a, b), classify(b, a));
        match there {
            TouchEvent::SwipeLeft => assert_eq!(back, TouchEvent::SwipeRight),
            TouchEvent::SwipeRight => assert_eq!(back, TouchEvent::SwipeLeft),
            TouchEvent::SwipeUp => assert_eq!(back, TouchEvent::SwipeDown),
            TouchEvent::SwipeDown => assert_eq!(back, TouchEvent::SwipeUp),
            TouchEvent::Tap { .. } => panic!("a tap"),
        }
    }
}

#[test]
fn gestures_by_number() {
    for (number, gesture) in [
        (0x00, Gesture::NoGesture),
        (0x01, Gesture::SlideDown),
        (0x02, Gesture::SlideUp),
        (0x03, Gesture::SlideLeft),
        (0x04, Gesture::SlideRight),
        (0x05, Gesture::SingleClick),
        (0x0B, Gesture::DoubleClick),
        (0x0C, Gesture::LongPress),
        (0x06, Gesture::Unknown(6)),
        (0xFF, Gesture::Unknown(255)),
    ] {
        assert_eq!(Gesture::from(number), gesture);
    }
}

#[test]
fn controller_reports() {
    let dev = Cst816d::new((), CST816D_ADDR, Ok::<u8, &str>(0xB6)).ok().unwrap();
    assert_eq!(dev.addr, 0x15);
    assert_eq!(Cst816d::new((), 0x15, Err::<u8, &str>("bus")).err(), Some("bus"));
    assert_eq!(
        dev.read(Ok::<[u8; 7], &str>([3, 1, 0xF1, 0x02, 0x80, 0xEF, 0])),
        Ok(Some(TouchPoint { x: 0x102, y: 0xEF, gesture: Gesture::SlideLeft }))
    );
    assert_eq!(dev.read(Ok::<[u8; 7], &str>([0, 0, 0, 9, 0, 9, 0])), Ok(None));
    assert_eq!(dev.read(Ok::<[u8; 7], &str>([0, 2, 0, 9, 0, 9, 0])), Ok(None));
    assert_eq!(dev.read(Ok::<[u8; 7], &str>([0xFF; 7])), Ok(None));
    assert_eq!(dev.read(Err("nak")), Err("nak"));
}

fn over(step: TouchStep) -> Option<TouchEvent> {
    match step {
        TouchStep::Over(event) => event,
        TouchStep::KeepPolling => panic!("still polling"),
    }
}

#[test]
fn touch_is_tracked_until_the_finger_lifts() {
    let mut t = TouchTracker::new();
    assert_eq!(over(t.on_read(Ok::<_, ()>(None))), None);
    for x in [10, 60, 30, 120] {
        assert!(matches!(t.on_read(Ok::<_, ()>(Some(at(x, 50)))), TouchStep::KeepPolling));
    }
    assert_eq!(over(t.on_read(Ok::<_, ()>(None))), Some(TouchEvent::SwipeRight));
    assert_eq!(over(t.on_read(Ok::<_, ()>(None))), None);
    t.on_read(Ok::<_, ()>(Some(at(7, 7))));
    assert_eq!(over(t.on_read(Err(()))), None);
    assert_eq!(over(t.on_read(Ok::<_, ()>(None))), None);
}

#[test]
fn swipes_abandon_a_turn() {
    assert!(abandons_turn(TouchEvent::SwipeUp));
    assert!(abandons_turn(TouchEvent::SwipeLeft));
    assert!(!abandons_turn(TouchEvent::Tap { x: 1, y: 2 }));
}

#[test]
fn changes_are_saved_on_the_way_out() {
    let mut c = Cards::new(false);
    assert_eq!(c.screen, Screen::Assistant);
    c.screen = Screen::Configure;
    assert!(!c.must_save(ConfigureAction::Back));
    c.on_configure(ConfigureAction::SetVolume(50), false);
    assert!(!c.must_save(ConfigureAction::OpenPortal));
    assert!(c.must_save(ConfigureAction::Back));
    c.offset = 6;
    c.on_configure(ConfigureAction::OpenSettings, false);
    assert_eq!(
        c,
        Cards { screen: Screen::Settings, offset: 0, dirty: true, from_flash: false }
    );
    c.screen = Screen::Configure;
    c.on_configure(ConfigureAction::Stay, true);
    assert!(c.dirty);
    c.on_configure(ConfigureAction::Back, true);
    assert_eq!(
        c,
        Cards { screen: Screen::Assistant, offset: 0, dirty: false, from_flash: true }
    );
    // Nothing to save is nothing saved.
    let mut d = Cards::new(false);
    d.on_configure(ConfigureAction::Back, true);
    assert!(!d.from_flash);
}

#[test]
fn pages_stay_in_range() {
    let mut c = Cards::new(true);
    c.offset = 9;
    c.clamp(11);
    assert_eq!(c.offset, 9);
    c.clamp(4);
    assert_eq!(c.offset, 3);
    c.clamp(0);
    assert_eq!(c.offset, 0);
}

#[test]
fn frames_come_when_they_are_due() {
    let mut clock = FrameClock::new(u32::MAX, 1000);
    assert!(clock.is_due(1000));
    assert!(!clock.is_due(999));
    clock.advance(1005, SPINNER_FRAME_MS);
    assert_eq!((clock.tick, clock.due_ms), (0, 1125));
    assert!(!clock.is_due(1124));
    clock.advance(2000, 50);
    assert_eq!((clock.tick, clock.due_ms), (1, 2050));
}
