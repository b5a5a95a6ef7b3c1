//! Scenes drawn into a real frame buffer, and what is sent of it.
use voicebox::diff::{flush_changed, Window, FRAME_BYTES};
use voicebox::draw::{paint, render};
use voicebox::scene::{Element, Figure, Font, Ink, Point};
use voicebox::ui::{menu_row_at, Battery, Color, MenuRow, NoticeColor, SettingEntry, UiState};

const GREY: u16 = 12 * 2048 + 24 * 32 + 12;
const WHITE: u16 = 0xFFFF;

fn pixel(frame: &[u8], x: usize, y: usize) -> u16 {
    let at = (y * 240 + x) * 2;
    u16::from(frame[at]) * 256 + u16::from(frame[at + 1])
}

fn blank() -> Vec<u8> {
    vec![0u8; FRAME_BYTES]
}

fn fill(color: Color) -> Ink {
    Ink { fill: Some(color), stroke: None, stroke_width: 0 }
}

fn drawn(figure: Figure, ink: Ink) -> Vec<u8> {
    let mut frame = blank();
    let elements = vec![Element::Figure { figure, ink }];
    assert_eq!(paint(&mut frame, &elements, 0), 1);
    frame
}

/// How many pixels have a colour.
fn count(frame: &[u8], color: u16) -> usize {
    (0..240 * 240).filter(|i| pixel(frame, i % 240, i / 240) == color).count()
}

#[test]
fn idle_card_shows_ring_and_microphone() {
    let mut frame = vec![0xAAu8; FRAME_BYTES];
    let state = UiState::Idle { wifi_ok: true, exchanges: 0, battery: None };
    let (elements, stop) = render(&mut frame, &state, 0);
    assert_eq!(stop, elements.len());
    // Ring at three o'clock, in the dim grey.
    assert_eq!(pixel(&frame, 120 + 115, 120), 4 * 2048 + 8 * 32 + 4);
    // Body of the microphone.
    assert_eq!(pixel(&frame, 120, 100), GREY);
    // Corner: cleared.
    assert_eq!(pixel(&frame, 0, 0), 0);
    assert_eq!(paint(&mut frame, &elements, stop), stop);
}

#[test]
fn clearing_stops_at_the_panel() {
    let mut frame = vec![0xAAu8; FRAME_BYTES + 3];
    render(&mut frame, &UiState::Speaking { snippet: String::new() }, 0);
    assert_eq!(frame[FRAME_BYTES..], [0xAA; 3]);
    assert_eq!(pixel(&frame, 120, 120), 0);
}

#[test]
fn rectangles_are_exact() {
    let figure = Figure::Rect { corner: Point { x: 10, y: 20 }, width: 3, height: 2 };
    let frame = drawn(figure, fill(Color::White));
    assert_eq!(count(&frame, WHITE), 6);
    assert_eq!(pixel(&frame, 10, 20), WHITE);
    assert_eq!(pixel(&frame, 12, 21), WHITE);
    assert_eq!(pixel(&frame, 13, 21), 0);
}

#[test]
fn rectangles_are_cut_at_the_edge() {
    let figure = Figure::Rect { corner: Point { x: -2, y: 238 }, width: 5, height: 9 };
    let frame = drawn(figure, fill(Color::White));
    assert_eq!(count(&frame, WHITE), 6);
    assert_eq!(pixel(&frame, 0, 238), WHITE);
    assert_eq!(pixel(&frame, 2, 239), WHITE);
    assert_eq!(pixel(&frame, 3, 239), 0);
    let ink = Ink { fill: None, stroke: Some(Color::White), stroke_width: 0 };
    assert_eq!(count(&drawn(figure, ink), WHITE), 0);
}

#[test]
fn circles_lie_right_of_their_centre() {
    let figure = Figure::Circle { center: Point { x: 100, y: 100 }, diameter: 54 };
    let frame = drawn(figure, fill(Color::White));
    assert_eq!(pixel(&frame, 127, 100), WHITE);
    assert_eq!(pixel(&frame, 128, 100), 0);
    assert_eq!(pixel(&frame, 74, 100), WHITE);
    assert_eq!(pixel(&frame, 73, 100), 0);
}

#[test]
fn outlines_leave_the_inside_alone() {
    let figure = Figure::Circle { center: Point { x: 120, y: 120 }, diameter: 232 };
    let ink = Ink { fill: None, stroke: Some(Color::White), stroke_width: 5 };
    let frame = drawn(figure, ink);
    assert_eq!(pixel(&frame, 120, 120), 0);
    assert_eq!(pixel(&frame, 120, 5), WHITE);
}

#[test]
fn rounded_corners_are_cut() {
    let figure = Figure::Rounded {
        corner: Point { x: 44, y: 58 },
        width: 152,
        height: 40,
        radius: 8,
    };
    let ink = Ink { fill: Some(Color::Grey), stroke: Some(Color::White), stroke_width: 1 };
    let frame = drawn(figure, ink);
    assert_eq!(pixel(&frame, 44, 58), 0);
    assert_eq!(pixel(&frame, 120, 78), GREY);
    assert_eq!(pixel(&frame, 120, 58), WHITE);
    assert_eq!(pixel(&frame, 195, 78), WHITE);
    assert_eq!(pixel(&frame, 196, 78), 0);
}

#[test]
fn triangles_and_lines() {
    let figure = Figure::Triangle {
        a: Point { x: 10, y: 10 },
        b: Point { x: 30, y: 10 },
        c: Point { x: 10, y: 30 },
    };
    let frame = drawn(figure, fill(Color::White));
    assert_eq!(pixel(&frame, 12, 12), WHITE);
    assert_eq!(pixel(&frame, 29, 29), 0);
    let figure = Figure::Line { from: Point { x: 44, y: 88 }, to: Point { x: 196, y: 88 } };
    let ink = Ink { fill: None, stroke: Some(Color::White), stroke_width: 1 };
    let frame = drawn(figure, ink);
    assert_eq!(count(&frame, WHITE), 153);
    assert_eq!(pixel(&frame, 196, 88), WHITE);
}

#[test]
fn labels_are_centred() {
    for (font, width) in [(Font::Small, 6), (Font::Bold, 9)] {
        let mut frame = blank();
        let elements = vec![Element::Label {
            text: "HHHH".to_string(),
            at: Point { x: 120, y: 120 },
            font,
            color: Color::White,
        }];
        paint(&mut frame, &elements, 0);
        let columns: Vec<usize> =
            (0..240).filter(|&x| (0..240).any(|y| pixel(&frame, x, y) == WHITE)).collect();
        let (first, last) = (columns[0], columns[columns.len() - 1]);
        assert!(first >= 120 - 2 * width && last <= 120 + 2 * width);
        assert!(last - first > 3 * width);
    }
}

#[test]
fn arcs_are_left_to_the_caller() {
    let mut frame = blank();
    let state = UiState::Thinking { tool: None };
    let (elements, stop) = render(&mut frame, &state, 3);
    assert_eq!(stop, 1);
    assert!(matches!(
        elements[stop],
        Element::Figure { figure: Figure::Arc { start_degrees: 72, .. }, .. }
    ));
    // The dots in the middle come behind the arc.
    assert_eq!(count(&frame, WHITE), 0);
    assert_eq!(paint(&mut frame, &elements, stop + 1), elements.len());
    assert!(count(&frame, WHITE) > 0);
}

#[test]
fn everything_visible_is_inside_the_bezel() {
    let long = "WWWW WWWWWWWW ".repeat(60);
    let states = [
        UiState::Speaking { snippet: long.clone() },
        UiState::Error(long.clone()),
        UiState::Notice { title: "W".repeat(22), body: long.clone(), color: NoticeColor::Warn },
        UiState::Portal { ap_ssid: long.clone(), url: long.clone(), clients: 1 },
        UiState::Idle {
            wifi_ok: true,
            exchanges: usize::MAX,
            battery: Some(Battery { percent: 100, charging: true }),
        },
        UiState::Listening { level: 10 },
        UiState::Menu {
            title: "Configure",
            rows: vec![
                MenuRow::action("Wi-Fi Setup"),
                MenuRow::stepper("volume", "100"),
                MenuRow::danger("Erase Settings"),
            ],
        },
        UiState::Settings {
            entries: (0..11)
                .map(|_| SettingEntry {
                    label: "W".repeat(24),
                    value: long.clone(),
                    placeholder: false,
                })
                .collect(),
            offset: 6,
        },
    ];
    for state in &states {
        let mut frame = blank();
        let (elements, stop) = render(&mut frame, state, 0);
        assert_eq!(stop, elements.len());
        for y in 0..240i32 {
            for x in 0..240i32 {
                let (dx, dy) = (x - 120, y - 120);
                // The ring is five pixels wide, and follows a radius of 116.
                if dx * dx + dy * dy > 119 * 119 {
                    assert_eq!(pixel(&frame, x as usize, y as usize), 0, "{x} {y}");
                }
            }
        }
    }
}

#[test]
fn row_boxes_paint_only_their_rows() {
    let figure = Figure::Rounded {
        corner: Point { x: 44, y: 104 },
        width: 152,
        height: 40,
        radius: 8,
    };
    for stroke_width in [0, 1] {
        let ink = Ink { fill: Some(Color::White), stroke: Some(Color::White), stroke_width };
        let frame = drawn(figure, ink);
        for y in 0..240 {
            for x in 0..240 {
                if pixel(&frame, x, y) != 0 {
                    assert_eq!(menu_row_at(x as i32, y as i32, 3), Some(1));
                }
            }
        }
        assert_eq!(pixel(&frame, 120, 104), WHITE);
    }
}

// ---------- Sending what changed ----------

/// A panel once the windows were sent to it.
fn send(panel: &mut [u8], frame: &[u8], windows: &[Window]) {
    for w in windows {
        let (from, to) = w.bytes();
        let bytes = &frame[from..to];
        let row = usize::from(w.width) * 2;
        for (i, line) in bytes.chunks(row).enumerate() {
            let at = (usize::from(w.y) + i) * 480 + usize::from(w.x) * 2;
            panel[at..at + row].copy_from_slice(line);
        }
    }
}

#[test]
fn nothing_changed_is_nothing_sent() {
    let mut prev = vec![7u8; FRAME_BYTES];
    let frame = prev.clone();
    assert!(flush_changed(&mut prev, &frame).is_empty());
}

#[test]
fn changed_stretches_are_sent() {
    let mut prev = blank();
    let mut frame = blank();
    // Row 2: pixels 10 and 13; row 3: the last pixel.
    frame[2 * 480 + 10 * 2] = 1;
    frame[2 * 480 + 13 * 2 + 1] = 1;
    frame[4 * 480 - 1] = 1;
    let windows = flush_changed(&mut prev, &frame);
    assert_eq!(
        windows,
        [
            Window { x: 10, y: 2, width: 4, height: 1 },
            Window { x: 238, y: 3, width: 2, height: 1 },
        ]
    );
    assert_eq!(prev, frame);
    assert_eq!(windows[0].bytes(), (980, 988));
}

#[test]
fn many_changes_are_one_transfer() {
    let whole = [Window { x: 0, y: 0, width: 240, height: 240 }];
    let mut prev = blank();
    let mut frame = blank();
    for word in 0..9600 {
        frame[word * 4] = 1;
    }
    assert_eq!(flush_changed(&mut prev, &frame), whole);
    assert_eq!(prev, frame);
    let mut prev = blank();
    frame[0] = 0;
    let windows = flush_changed(&mut prev, &frame);
    assert_eq!(windows.len(), 80);
    assert_eq!(windows[0], Window { x: 2, y: 0, width: 238, height: 1 });
}

#[test]
fn unknown_layouts_are_one_transfer() {
    let mut prev = vec![0u8; 10];
    let frame = blank();
    assert_eq!(
        flush_changed(&mut prev, &frame),
        [Window { x: 0, y: 0, width: 240, height: 240 }]
    );
    assert_eq!(prev, [0; 10]);
}

#[test]
fn panel_follows_the_frames() {
    let states = [
        UiState::Boot { step: "display", progress: 0 },
        UiState::Listening { level: 2 },
        UiState::Listening { level: 3 },
        UiState::Speaking { snippet: "Hello there.".to_string() },
        UiState::Speaking { snippet: "How are you?".to_string() },
    ];
    let mut panel = blank();
    let mut prev = blank();
    for state in &states {
        let mut frame = blank();
        render(&mut frame, state, 0);
        let windows = flush_changed(&mut prev, &frame);
        send(&mut panel, &frame, &windows);
        assert_eq!(panel, frame);
    }
}
