//! What each state of the interface is made of: a list of figures and labels,
//! drawn in order.
use crate::text::decimal_text;
use crate::ui::{
    menu_row_top, Battery, Color, MenuRow, SettingEntry, UiState, MENU_ROW_H, MENU_STEP_ZONE,
    MENU_X0, MENU_X1, SETTINGS_PAGE_ROWS, SETTINGS_ROW_H, SETTINGS_TOP,
};
use crate::wrap::wrap;
use vstd::prelude::*;

verus! {

/// Width and height of the panel.
pub const PANEL: i32 = 240;

/// Middle of the panel, on both axes.
pub const MIDDLE: i32 = 120;

/// Diameter of the ring around the panel.
pub const RING: u32 = 232;

/// Vertical distance of two lines of small text.
pub const LINE_H: i32 = 12;

/// The most characters a label may have.
pub const MAX_LABEL: usize = 0x0400_0000;

/// Vertical centre of the two badges either side of the page dots.
pub const BADGE_Y: i32 = 36;

/// Left edge of the battery's body.
pub const BATT_X: i32 = 73;

/// Horizontal centre of the network dot.
pub const WIFI_DOT_X: i32 = 156;

/// Cards in the swipe stack: the assistant, the configure actions and the
/// settings list.
pub const CARD_COUNT: usize = 3;

#[derive(Debug, Clone, Copy, PartialEq, Eq, Structural)]
pub struct Point {
    pub x: i32,
    pub y: i32,
}

/// How far an arc goes.
#[derive(Debug, Clone, Copy, PartialEq, Eq, Structural)]
pub enum Sweep {
    /// This many degrees, counter-clockwise.
    Degrees(u32),
    /// This percentage of a full turn, clockwise.
    ClockwisePercent(u8),
}

#[derive(Debug, Clone, Copy, PartialEq, Eq, Structural)]
pub enum Figure {
    Circle { center: Point, diameter: u32 },
    Rect { corner: Point, width: u32, height: u32 },
    Rounded { corner: Point, width: u32, height: u32, radius: u32 },
    Triangle { a: Point, b: Point, c: Point },
    Line { from: Point, to: Point },
    Arc { center: Point, diameter: u32, start_degrees: u32, sweep: Sweep },
}

/// How a figure is drawn.
#[derive(Debug, Clone, Copy)]
pub struct Ink {
    pub fill: Option<Color>,
    pub stroke: Option<Color>,
    pub stroke_width: u32,
}

#[derive(Debug, Clone, Copy, PartialEq, Eq, Structural)]
pub enum Font {
    /// Six pixels wide, ten high.
    Small,
    /// Nine pixels wide, fifteen high, bold.
    Bold,
}

/// One thing to draw. A label is centred on its point.
pub enum Element<T> {
    Figure { figure: Figure, ink: Ink },
    Label { text: T, at: Point, font: Font, color: Color },
}

/// What an element shows.
pub open spec fn shown(e: Element<String>) -> Element<Seq<char>> {
    match e {
        Element::Figure { figure, ink } => Element::Figure { figure, ink },
        Element::Label { text, at, font, color } => Element::Label { text: text@, at, font, color },
    }
}

/// What a list of elements shows.
pub open spec fn shows(v: Seq<Element<String>>) -> Seq<Element<Seq<char>>> {
    Seq::new(v.len(), |i: int| shown(v[i]))
}

/// Whether `p` holds of every element.
pub open spec fn every(
    s: Seq<Element<Seq<char>>>,
    p: spec_fn(Element<Seq<char>>) -> bool,
) -> bool {
    forall|i: int| 0 <= i < s.len() ==> p(#[trigger] s[i])
}

/// What holds of every element of two lists holds of every element of both.
pub broadcast proof fn lemma_every_concat(
    a: Seq<Element<Seq<char>>>,
    b: Seq<Element<Seq<char>>>,
    p: spec_fn(Element<Seq<char>>) -> bool,
)
    requires
        every(a, p),
        every(b, p),
    ensures
        #[trigger] every(a + b, p),
{
    assert forall|i: int| 0 <= i < (a + b).len() implies p(#[trigger] (a + b)[i]) by {
        if i < a.len() {
            assert((a + b)[i] == a[i]);
        } else {
            assert((a + b)[i] == b[i - a.len()]);
        }
    }
}

// ---------- The pieces, as they should be ----------
pub open spec fn solid(color: Color) -> Ink {
    Ink { fill: Some(color), stroke: None, stroke_width: 0 }
}

pub open spec fn outline(color: Color, width: u32) -> Ink {
    Ink { fill: None, stroke: Some(color), stroke_width: width }
}

pub open spec fn pt(x: int, y: int) -> Point {
    Point { x: x as i32, y: y as i32 }
}

pub open spec fn disc(x: int, y: int, diameter: u32, color: Color) -> Element<Seq<char>> {
    Element::Figure { figure: Figure::Circle { center: pt(x, y), diameter }, ink: solid(color) }
}

pub open spec fn bar(x: int, y: int, width: int, height: int, color: Color) -> Element<Seq<char>> {
    Element::Figure {
        figure: Figure::Rect { corner: pt(x, y), width: width as u32, height: height as u32 },
        ink: solid(color),
    }
}

pub open spec fn caption(text: Seq<char>, x: int, y: int, font: Font, color: Color) -> Element<
    Seq<char>,
> {
    Element::Label { text, at: pt(x, y), font, color }
}

pub open spec fn circle_outline(diameter: u32, color: Color) -> Element<Seq<char>> {
    Element::Figure {
        figure: Figure::Circle { center: pt(120, 120), diameter },
        ink: outline(color, 5),
    }
}

/// The ring around a card.
pub open spec fn the_ring(color: Color) -> Seq<Element<Seq<char>>> {
    seq![circle_outline(RING, color)]
}

/// The line of small text near the bottom.
pub open spec fn the_status(text: Seq<char>, color: Color) -> Seq<Element<Seq<char>>> {
    seq![caption(text, 120, 206, Font::Small, color)]
}

/// Wrapped small text, the block centred on `center_y`.
pub open spec fn the_block(
    text: Seq<char>,
    center_y: int,
    max_chars: nat,
    max_lines: nat,
    color: Color,
) -> Seq<Element<Seq<char>>> {
    let lines = crate::wrap::wrapped(text, max_chars, max_lines);
    let start = center_y - (lines.len() - 1) * 12 / 2;
    Seq::new(lines.len(), |i: int| caption(lines[i], 120, start + i * 12, Font::Small, color))
}

/// The microphone: the yoke as a ring with its upper half cut away, the stand,
/// the base, and the body over the cuts.
pub open spec fn the_mic(color: Color) -> Seq<Element<Seq<char>>> {
    seq![
        disc(120, 106, 54, color),
        disc(120, 106, 44, Color::Background),
        bar(94, 80, 54, 27, Color::Background),
        bar(118, 128, 5, 20, color),
        bar(104, 148, 33, 5, color),
        Element::Figure {
            figure: Figure::Rounded { corner: pt(110, 84), width: 22, height: 38, radius: 11 },
            ink: solid(color),
        },
    ]
}

pub open spec fn the_wifi_dot(ok: bool) -> Seq<Element<Seq<char>>> {
    seq![disc(156, 36, 5, if ok { Color::Green } else { Color::Red })]
}

pub open spec fn battery_percent(b: Battery) -> int {
    if b.percent <= 100 {
        b.percent as int
    } else {
        100
    }
}

/// Green while charging and down to half, amber down to a fifth, red below.
pub open spec fn battery_color(b: Battery) -> Color {
    if b.charging || b.percent >= 50 {
        Color::Green
    } else if b.percent >= 20 {
        Color::Amber
    } else {
        Color::Red
    }
}

/// Columns of the fill bar: a sixteenth per column, but one at least unless the
/// battery is empty.
pub open spec fn battery_fill(b: Battery) -> int {
    let columns = 16 * battery_percent(b) / 100;
    if columns == 0 && b.percent > 0 {
        1
    } else {
        columns
    }
}

/// The battery: outline, nub, fill bar, bolt while charging, and the number.
pub open spec fn the_battery(b: Battery) -> Seq<Element<Seq<char>>> {
    let color = battery_color(b);
    seq![
        Element::Figure {
            figure: Figure::Rect { corner: pt(73, 31), width: 20, height: 11 },
            ink: outline(color, 1),
        },
        bar(93, 34, 2, 5, color),
    ] + (if battery_fill(b) > 0 {
        seq![bar(75, 33, battery_fill(b), 7, color)]
    } else {
        Seq::empty()
    }) + (if b.charging {
        seq![
            Element::Figure {
                figure: Figure::Triangle { a: pt(85, 33), b: pt(80, 37), c: pt(84, 37) },
                ink: solid(Color::White),
            },
            Element::Figure {
                figure: Figure::Triangle { a: pt(81, 39), b: pt(86, 35), c: pt(82, 35) },
                ink: solid(Color::White),
            },
        ]
    } else {
        Seq::empty()
    }) + seq![
        caption(
            crate::text::decimal(battery_percent(b) as nat) + "%"@,
            83,
            50,
            Font::Small,
            Color::Grey,
        ),
    ]
}

/// One dot per card, the current one white.
pub open spec fn the_dots(active: int) -> Seq<Element<Seq<char>>> {
    Seq::new(
        3,
        |i: int|
            disc(
                106 + i * 14,
                20,
                6,
                if i == active {
                    Color::White
                } else {
                    Color::Grey
                },
            ),
    )
}

/// One row of a menu, at place `i`.
pub open spec fn the_row(row: MenuRow, i: int) -> Seq<Element<Seq<char>>> {
    let top = crate::ui::row_top(i);
    let mid = top + 20;
    let text = if row.danger {
        Color::Red
    } else {
        Color::White
    };
    seq![
        Element::Figure {
            figure: Figure::Rounded { corner: pt(44, top), width: 152, height: 40, radius: 8 },
            ink: (Ink {
                fill: Some(Color::RowBackground),
                stroke: Some(
                    if row.danger {
                        Color::Red
                    } else {
                        Color::Grey
                    },
                ),
                stroke_width: 1,
            }),
        },
    ] + (match row.value {
        None => seq![caption(row.label@, 120, mid, Font::Bold, text)],
        Some(value) => (if row.stepper {
            seq![
                caption("-"@, 65, mid, Font::Bold, Color::Blue),
                caption("+"@, 175, mid, Font::Bold, Color::Blue),
            ]
        } else {
            Seq::empty()
        }) + seq![
            caption(row.label@, 120, mid - 8, Font::Small, Color::Grey),
            caption(value@, 120, mid + 8, Font::Bold, text),
        ],
    })
}

/// The first `n` rows of a menu.
pub open spec fn the_rows(rows: Seq<MenuRow>, n: nat) -> Seq<Element<Seq<char>>>
    decreases n,
{
    if n == 0 {
        Seq::empty()
    } else {
        the_rows(rows, (n - 1) as nat) + the_row(rows[n - 1], n - 1)
    }
}

pub open spec fn the_menu(title: Seq<char>, rows: Seq<MenuRow>) -> Seq<Element<Seq<char>>> {
    the_ring(Color::Dim) + seq![caption(title, 120, 34, Font::Bold, Color::White)] + the_rows(
        rows,
        rows.len(),
    ) + the_dots(1)
}

/// One entry of the settings card, in slot `slot`: label, value, and a rule
/// unless it is the last entry of all.
pub open spec fn the_entry(entry: SettingEntry, slot: int, last: bool) -> Seq<
    Element<Seq<char>>,
> {
    let top = 50 + slot * 40;
    seq![caption(entry.label@, 120, top + 7, Font::Small, Color::Grey)] + the_block(
        entry.value@,
        top + 23,
        28,
        2,
        if entry.placeholder {
            Color::Amber
        } else {
            Color::White
        },
    ) + (if last {
        Seq::empty()
    } else {
        seq![
            Element::Figure {
                figure: Figure::Line { from: pt(44, top + 38), to: pt(196, top + 38) },
                ink: outline(Color::Dim, 1),
            },
        ]
    })
}

/// The first `n` visible entries of the settings card.
pub open spec fn the_entries(entries: Seq<SettingEntry>, offset: int, n: nat) -> Seq<
    Element<Seq<char>>,
>
    decreases n,
{
    if n == 0 {
        Seq::empty()
    } else {
        the_entries(entries, offset, (n - 1) as nat) + the_entry(
            entries[offset + n - 1],
            n - 1,
            offset + n == entries.len(),
        )
    }
}

/// One past the last visible entry.
pub open spec fn last_visible(count: int, offset: int) -> int {
    if count < offset + 3 {
        count
    } else {
        offset + 3
    }
}

pub open spec fn the_settings(entries: Seq<SettingEntry>, offset: int) -> Seq<
    Element<Seq<char>>,
> {
    let end = last_visible(entries.len() as int, offset);
    the_ring(Color::Dim) + seq![caption("Settings"@, 120, 32, Font::Bold, Color::White)]
        + the_entries(
        entries,
        offset,
        if end < offset {
            0
        } else {
            (end - offset) as nat
        },
    ) + (if entries.len() > 0 {
        seq![
            caption(
                crate::text::decimal((offset + 1) as nat) + "-"@ + crate::text::decimal(end as nat)
                    + " of "@ + crate::text::decimal(entries.len()),
                120,
                184,
                Font::Small,
                Color::Grey,
            ),
        ]
    } else {
        Seq::empty()
    }) + the_status("swipe up/down"@, Color::Grey) + the_dots(2)
}

/// Diameter of the ring that follows the microphone's level.
pub open spec fn level_ring(level: u8) -> int {
    let grown = 110 + (if level <= 10 {
        level as int
    } else {
        10
    }) * 12;
    if grown <= 232 {
        grown
    } else {
        232
    }
}

/// What a state looks like at an animation tick.
pub open spec fn scene_of(state: UiState, tick: u32) -> Seq<Element<Seq<char>>> {
    match state {
        UiState::Boot { step, progress } => the_ring(Color::Dim) + (if progress > 0 {
            seq![
                Element::Figure {
                    figure: Figure::Arc {
                        center: pt(120, 120),
                        diameter: RING,
                        start_degrees: 90,
                        sweep: Sweep::ClockwisePercent(
                            if progress <= 100 {
                                progress
                            } else {
                                100
                            },
                        ),
                    },
                    ink: outline(Color::Blue, 5),
                },
            ]
        } else {
            Seq::empty()
        }) + seq![caption("starting up"@, 120, 120, Font::Bold, Color::White)] + the_block(
            step@,
            146,
            28,
            2,
            Color::Grey,
        ),
        UiState::Idle { wifi_ok, exchanges, battery } => the_ring(Color::Dim) + the_mic(
            Color::Grey,
        ) + (if exchanges > 0 {
            seq![
                caption(
                    crate::text::decimal(exchanges as nat) + " exchange"@ + (if exchanges == 1 {
                        Seq::empty()
                    } else {
                        "s"@
                    }),
                    120,
                    172,
                    Font::Small,
                    Color::Dim,
                ),
            ]
        } else {
            Seq::empty()
        }) + the_status("tap to talk"@, Color::Grey) + (match battery {
            Some(b) => the_battery(b),
            None => Seq::empty(),
        }) + the_wifi_dot(wifi_ok) + the_dots(0),
        UiState::Listening { level } => seq![circle_outline(level_ring(level) as u32, Color::Blue)]
            + the_mic(Color::White) + the_block("listening..."@, 190, 26, 1, Color::Blue)
            + the_status("tap send / swipe cancel"@, Color::Grey),
        UiState::Thinking { tool } => the_ring(Color::Purple) + seq![
            Element::Figure {
                figure: Figure::Arc {
                    center: pt(120, 120),
                    diameter: RING,
                    start_degrees: ((tick * 24) % 360) as u32,
                    sweep: Sweep::Degrees(90),
                },
                ink: outline(Color::White, 5),
            },
            caption("..."@, 120, 120, Font::Bold, Color::White),
        ] + the_block(
            match tool {
                Some(name) => name@,
                None => "thinking..."@,
            },
            190,
            26,
            1,
            Color::Purple,
        ) + the_status("swipe to cancel"@, Color::Grey),
        UiState::Speaking { snippet } => the_ring(Color::Green) + the_block(
            snippet@,
            120,
            30,
            11,
            Color::White,
        ),
        UiState::Error(message) => the_ring(Color::Red) + seq![
            caption("!"@, 120, 120, Font::Bold, Color::Red),
        ] + the_block(message@, 188, 22, 2, Color::Red),
        UiState::Menu { title, rows } => the_menu(title@, rows@),
        UiState::Settings { entries, offset } => the_settings(entries@, offset as int),
        UiState::Portal { ap_ssid, url, clients } => the_ring(Color::Amber) + seq![
            caption("Wi-Fi Setup"@, 120, 46, Font::Bold, Color::Amber),
        ] + the_block("join this network:"@, 78, 28, 1, Color::Grey) + the_block(
            ap_ssid@,
            96,
            26,
            1,
            Color::White,
        ) + the_block("then browse to:"@, 124, 28, 1, Color::Grey) + the_block(
            url@,
            142,
            26,
            1,
            Color::White,
        ) + (if clients > 0 {
            the_block("device connected"@, 172, 28, 1, Color::Green)
        } else {
            the_block("waiting for device"@, 172, 28, 1, Color::Grey)
        }) + the_status("tap to cancel"@, Color::Grey),
        UiState::Notice { title, body, color } => the_ring(color.tone()) + seq![
            caption(title@, 120, 94, Font::Bold, color.tone()),
        ] + the_block(body@, 132, 28, 4, Color::White),
    }
}

/// Whether the labels of a state are short enough to draw, and its rows few
/// enough to place.
pub open spec fn drawable(state: UiState) -> bool {
    match state {
        UiState::Menu { title, rows } => {
            &&& title@.len() <= MAX_LABEL
            &&& rows@.len() <= 0x80_0000
            &&& forall|i: int| #![trigger rows@[i]] 0 <= i < rows@.len() ==> row_fits(rows@[i])
        },
        UiState::Settings { entries, offset } => {
            &&& offset + 3 <= usize::MAX
            &&& forall|i: int|
                #![trigger entries@[i]]
                0 <= i < entries@.len() ==> entries@[i].label@.len() <= MAX_LABEL
        },
        UiState::Notice { title, .. } => title@.len() <= MAX_LABEL,
        _ => true,
    }
}

pub open spec fn row_fits(row: MenuRow) -> bool {
    &&& row.label@.len() <= MAX_LABEL
    &&& row.value matches Some(value) ==> value@.len() <= MAX_LABEL
}

// ---------- Menus and taps ----------
/// Left and top edge, width and height of a rounded box.
pub open spec fn box_of(e: Element<Seq<char>>) -> Option<(int, int, int, int)> {
    match e {
        Element::Figure { figure: Figure::Rounded { corner, width, height, .. }, .. } => Some(
            (corner.x as int, corner.y as int, width as int, height as int),
        ),
        _ => None,
    }
}

/// Where menu row `i` is drawn.
pub open spec fn row_box(i: int) -> (int, int, int, int) {
    (MENU_X0 as int, crate::ui::row_top(i), MENU_X1 - MENU_X0, MENU_ROW_H as int)
}

/// Whether a point lies in a box.
pub open spec fn in_box(b: (int, int, int, int), x: int, y: int) -> bool {
    b.0 <= x < b.0 + b.2 && b.1 <= y < b.1 + b.3
}

/// Whether menu row `i` has its box among some elements.
pub open spec fn has_row_box(elements: Seq<Element<Seq<char>>>, i: int) -> bool {
    exists|k: int| 0 <= k < elements.len() && #[trigger] box_of(elements[k]) == Some(row_box(i))
}

/// Whether an element is the box of one of `n` menu rows, with a border of a
/// pixel, if it is a box at all.
pub open spec fn boxes_a_row(e: Element<Seq<char>>, n: int) -> bool {
    box_of(e) is Some ==> e->ink.stroke_width == 1 && exists|i: int|
        0 <= i < n && box_of(e) == Some(#[trigger] row_box(i))
}

proof fn lemma_row_boxes(rows: Seq<MenuRow>, n: nat)
    requires
        n <= rows.len() <= 0x80_0000,
    ensures
        forall|i: int| 0 <= i < n ==> #[trigger] has_row_box(the_rows(rows, n), i),
        forall|k: int|
            0 <= k < the_rows(rows, n).len() ==> boxes_a_row(
                #[trigger] the_rows(rows, n)[k],
                n as int,
            ),
    decreases n,
{
    if n > 0 {
        lemma_row_boxes(rows, (n - 1) as nat);
        let before = the_rows(rows, (n - 1) as nat);
        let row = the_row(rows[n - 1], n - 1);
        let all = the_rows(rows, n);
        assert forall|i: int| 0 <= i < n implies #[trigger] has_row_box(all, i) by {
            if i < n - 1 {
                assert(has_row_box(before, i));
                let k = choose|k: int|
                    0 <= k < before.len() && #[trigger] box_of(before[k]) == Some(row_box(i));
                assert(box_of(all[k]) == Some(row_box(i)));
            } else {
                assert(box_of(all[before.len() as int]) == Some(row_box(i)));
            }
        }
        assert forall|k: int| 0 <= k < all.len() implies boxes_a_row(
            #[trigger] all[k],
            n as int,
        ) by {
            if k < before.len() {
                assert(boxes_a_row(before[k], n - 1));
            } else if k == before.len() {
                assert(box_of(all[k]) == Some(row_box(n - 1)));
            } else {
                assert(all[k] == row[k - before.len()]);
            }
        }
    }
}

/// The rows that are drawn are the rows that can be tapped: each row has its box
/// and there are no others, and a point lies in a box exactly if it lies on that
/// row. At the right edge a tap reaches one pixel further.
pub proof fn drawn_rows_are_the_tappable_rows(state: UiState, tick: u32, x: int, y: int)
    requires
        drawable(state),
        state is Menu,
    ensures
        forall|i: int|
            0 <= i < state->rows@.len() ==> #[trigger] has_row_box(scene_of(state, tick), i),
        forall|k: int|
            0 <= k < scene_of(state, tick).len() ==> boxes_a_row(
                #[trigger] scene_of(state, tick)[k],
                state->rows@.len() as int,
            ),
        forall|i: int|
            in_box(#[trigger] row_box(i), x, y) <==> crate::ui::on_row(x, y, i) && x != MENU_X1,
{
    let rows = state->rows@;
    lemma_row_boxes(rows, rows.len());
    let all = scene_of(state, tick);
    let boxes = the_rows(rows, rows.len());
    assert(all == the_menu(state->Menu_title@, rows));
    assert forall|i: int| 0 <= i < rows.len() implies #[trigger] has_row_box(all, i) by {
        assert(has_row_box(boxes, i));
        let k = choose|k: int|
            0 <= k < boxes.len() && #[trigger] box_of(boxes[k]) == Some(row_box(i));
        assert(box_of(all[k + 2]) == Some(row_box(i)));
    }
    assert forall|k: int| 0 <= k < all.len() implies boxes_a_row(
        #[trigger] all[k],
        rows.len() as int,
    ) by {
        if 2 <= k < 2 + boxes.len() {
            assert(all[k] == boxes[k - 2]);
        }
    }
}

/// What is pressed is what is seen: the signs of a stepper stand inside the zones
/// that they stand for, over the whole width of their glyphs.
pub proof fn stepper_signs_stand_in_their_zones(row: MenuRow, i: int, x: int)
    requires
        row.value is Some,
        row.stepper,
    ensures
        the_row(row, i)[1] matches Element::Label { text, at, font, .. } && text == "-"@ && font
            is Bold && (at.x - 5 <= x <= at.x + 5 ==> crate::ui::zone_at(x) is Decrement && MENU_X0
            <= x),
        the_row(row, i)[2] matches Element::Label { text, at, font, .. } && text == "+"@ && font
            is Bold && (at.x - 5 <= x <= at.x + 5 ==> crate::ui::zone_at(x) is Increment && x
            <= MENU_X1),
{
}

// ---------- Building a scene ----------
fn filled(color: Color) -> (ink: Ink)
    ensures
        ink == solid(color),
{
    Ink { fill: Some(color), stroke: None, stroke_width: 0 }
}

fn stroked(color: Color, width: u32) -> (ink: Ink)
    ensures
        ink == outline(color, width),
{
    Ink { fill: None, stroke: Some(color), stroke_width: width }
}

/// Adds a figure.
fn figure(out: &mut Vec<Element<String>>, figure: Figure, ink: Ink)
    ensures
        shows(final(out)@) == shows(old(out)@).push(Element::Figure { figure, ink }),
{
    out.push(Element::Figure { figure, ink });
    assert(shows(out@) =~= shows(old(out)@).push(Element::Figure { figure, ink }));
}

/// Adds a label.
fn label(out: &mut Vec<Element<String>>, text: &str, x: i32, y: i32, font: Font, color: Color)
    ensures
        shows(final(out)@) == shows(old(out)@).push(caption(text@, x as int, y as int, font, color)),
{
    out.push(Element::Label { text: text.to_owned(), at: Point { x, y }, font, color });
    assert(shows(out@) =~= shows(old(out)@).push(
        caption(text@, x as int, y as int, font, color),
    ));
}

/// Adds a filled circle.
fn dot(out: &mut Vec<Element<String>>, x: i32, y: i32, diameter: u32, color: Color)
    ensures
        shows(final(out)@) == shows(old(out)@).push(disc(x as int, y as int, diameter, color)),
{
    figure(out, Figure::Circle { center: Point { x, y }, diameter }, filled(color));
}

/// Adds a filled rectangle.
fn block(out: &mut Vec<Element<String>>, x: i32, y: i32, width: u32, height: u32, color: Color)
    ensures
        shows(final(out)@) == shows(old(out)@).push(
            bar(x as int, y as int, width as int, height as int, color),
        ),
{
    figure(out, Figure::Rect { corner: Point { x, y }, width, height }, filled(color));
}

/// The ring around a card.
fn ring(out: &mut Vec<Element<String>>, color: Color)
    ensures
        shows(final(out)@) == shows(old(out)@) + the_ring(color),
{
    figure(
        out,
        Figure::Circle { center: Point { x: MIDDLE, y: MIDDLE }, diameter: RING },
        stroked(color, 5),
    );
    assert(shows(out@) =~= shows(old(out)@) + the_ring(color));
}

/// The line of small text near the bottom.
fn status_text(out: &mut Vec<Element<String>>, text: &str, color: Color)
    ensures
        shows(final(out)@) == shows(old(out)@) + the_status(text@, color),
{
    label(out, text, MIDDLE, PANEL - 34, Font::Small, color);
    assert(shows(out@) =~= shows(old(out)@) + the_status(text@, color));
}

/// The word in the middle.
fn big_label(out: &mut Vec<Element<String>>, text: &str, color: Color)
    ensures
        shows(final(out)@) == shows(old(out)@) + seq![caption(text@, 120, 120, Font::Bold, color)],
{
    label(out, text, MIDDLE, MIDDLE, Font::Bold, color);
    assert(shows(out@) =~= shows(old(out)@) + seq![caption(text@, 120, 120, Font::Bold, color)]);
}

/// Wrapped text, the block vertically centred on `center_y`.
fn wrapped_text(
    out: &mut Vec<Element<String>>,
    text: &str,
    center_y: i32,
    max_chars: usize,
    max_lines: usize,
    color: Color,
)
    requires
        0 < max_chars,
        0 < max_lines <= 1000,
        -10_000 <= center_y <= 10_000,
    ensures
        shows(final(out)@) == shows(old(out)@) + the_block(
            text@,
            center_y as int,
            max_chars as nat,
            max_lines as nat,
            color,
        ),
{
    let lines = wrap(text, max_chars, max_lines);
    proof {
        crate::wrap::wrapped_text_fits(text@, max_chars as nat, max_lines as nat);
    }
    let ghost ls = crate::wrap::wrapped(text@, max_chars as nat, max_lines as nat);
    let ghost all = the_block(
        text@,
        center_y as int,
        max_chars as nat,
        max_lines as nat,
        color,
    );
    assert(lines@.len() == ls.len());
    if lines.len() == 0 {
        assert(shows(out@) =~= shows(old(out)@) + all);
        return ;
    }
    let start: i32 = center_y - (lines.len() as i32 - 1) * LINE_H / 2;
    let mut i: usize = 0;
    assert(shows(out@) =~= shows(old(out)@) + all.take(0));
    while i < lines.len()
        invariant
            i <= lines@.len() <= 1000,
            ls == crate::text::texts(lines@),
            -20_000 <= start <= 20_000,
            start == center_y - (ls.len() - 1) * 12 / 2,
            all == Seq::new(
                ls.len(),
                |k: int| caption(ls[k], 120, start + k * 12, Font::Small, color),
            ),
            shows(out@) == shows(old(out)@) + all.take(i as int),
        decreases lines@.len() - i,
    {
        label(out, &lines[i], MIDDLE, start + i as i32 * LINE_H, Font::Small, color);
        assert(all.take(i + 1) =~= all.take(i as int).push(all[i as int]));
        assert(shows(out@) =~= shows(old(out)@) + all.take(i + 1));
        i += 1;
    }
    assert(all.take(all.len() as int) =~= all);
}

/// The upper left corner of a box of the given size centred on a point. An even
/// size has no middle pixel: the box then lies one further right and down.
pub open spec fn corner_about(center: int, size: int) -> int {
    center - (size - 1) / 2
}

/// The upper left corner of a box centred on a point, along one axis.
fn corner(center: i32, size: u32) -> (c: i32)
    requires
        -10_000 <= center <= 10_000,
        0 < size <= 10_000,
    ensures
        c == corner_about(center as int, size as int),
{
    center - (size as i32 - 1) / 2
}

/// The microphone.
fn draw_mic(out: &mut Vec<Element<String>>, color: Color)
    ensures
        shows(final(out)@) == shows(old(out)@) + the_mic(color),
{
    let yoke_y: i32 = MIDDLE - 14;
    let outer: u32 = 54;
    let inner: u32 = 44;
    let stroke: i32 = (outer as i32 - inner as i32) / 2;
    dot(out, MIDDLE, yoke_y, outer, color);
    dot(out, MIDDLE, yoke_y, inner, Color::Background);
    block(
        out,
        corner(MIDDLE, outer),
        corner(yoke_y, outer),
        outer,
        outer / 2,
        Color::Background,
    );
    let yoke_bottom: i32 = yoke_y + inner as i32 / 2;
    let base_y: i32 = yoke_y + 42;
    block(
        out,
        MIDDLE - stroke / 2,
        yoke_bottom,
        stroke as u32,
        (base_y - yoke_bottom) as u32,
        color,
    );
    block(out, MIDDLE - 16, base_y, 33, stroke as u32, color);
    figure(
        out,
        Figure::Rounded {
            corner: Point { x: corner(MIDDLE, 22), y: corner(MIDDLE - 18, 38) },
            width: 22,
            height: 38,
            radius: 11,
        },
        filled(color),
    );
    assert(shows(out@) =~= shows(old(out)@) + the_mic(color));
}

/// The network badge.
fn draw_wifi_dot(out: &mut Vec<Element<String>>, ok: bool)
    ensures
        shows(final(out)@) == shows(old(out)@) + the_wifi_dot(ok),
{
    let color = if ok {
        Color::Green
    } else {
        Color::Red
    };
    dot(out, WIFI_DOT_X, BADGE_Y, 5, color);
    assert(shows(out@) =~= shows(old(out)@) + the_wifi_dot(ok));
}

/// The battery badge.
fn draw_battery(out: &mut Vec<Element<String>>, batt: Battery)
    ensures
        shows(final(out)@) == shows(old(out)@) + the_battery(batt),
{
    let pct: i32 = if batt.percent <= 100 {
        batt.percent as i32
    } else {
        100
    };
    let color = if batt.charging {
        Color::Green
    } else if pct >= 50 {
        Color::Green
    } else if pct >= 20 {
        Color::Amber
    } else {
        Color::Red
    };
    figure(
        out,
        Figure::Rect { corner: Point { x: BATT_X, y: BADGE_Y - 5 }, width: 20, height: 11 },
        stroked(color, 1),
    );
    block(out, BATT_X + 20, BADGE_Y - 2, 2, 5, color);
    let columns: i32 = 16 * pct / 100;
    let fill: i32 = if columns == 0 && pct > 0 {
        1
    } else {
        columns
    };
    if fill > 0 {
        block(out, BATT_X + 2, BADGE_Y - 3, fill as u32, 7, color);
    }
    if batt.charging {
        figure(
            out,
            Figure::Triangle {
                a: Point { x: BATT_X + 12, y: BADGE_Y - 3 },
                b: Point { x: BATT_X + 7, y: BADGE_Y + 1 },
                c: Point { x: BATT_X + 11, y: BADGE_Y + 1 },
            },
            filled(Color::White),
        );
        figure(
            out,
            Figure::Triangle {
                a: Point { x: BATT_X + 8, y: BADGE_Y + 3 },
                b: Point { x: BATT_X + 13, y: BADGE_Y - 1 },
                c: Point { x: BATT_X + 9, y: BADGE_Y - 1 },
            },
            filled(Color::White),
        );
    }
    let mut text = decimal_text(pct as u64);
    text.append("%");
    label(out, &text, BATT_X + 10, BADGE_Y + 14, Font::Small, Color::Grey);
    assert(shows(out@) =~= shows(old(out)@) + the_battery(batt));
}

/// The page indicator along the top.
fn page_dots(out: &mut Vec<Element<String>>, active: usize)
    ensures
        shows(final(out)@) == shows(old(out)@) + the_dots(active as int),
{
    let left: i32 = MIDDLE - (CARD_COUNT as i32 - 1) * 14 / 2;
    let mut i: usize = 0;
    assert(shows(out@) =~= shows(old(out)@) + the_dots(active as int).take(0));
    while i < CARD_COUNT
        invariant
            i <= 3,
            left == 106,
            shows(out@) == shows(old(out)@) + the_dots(active as int).take(i as int),
        decreases 3 - i,
    {
        let color = if i == active {
            Color::White
        } else {
            Color::Grey
        };
        dot(out, left + i as i32 * 14, 20, 6, color);
        assert(the_dots(active as int).take(i + 1) =~= the_dots(active as int).take(i as int).push(
            the_dots(active as int)[i as int],
        ));
        assert(shows(out@) =~= shows(old(out)@) + the_dots(active as int).take(i + 1));
        i += 1;
    }
    assert(the_dots(active as int).take(3) =~= the_dots(active as int));
}

/// One row of a menu.
fn draw_row(out: &mut Vec<Element<String>>, row: &MenuRow, i: usize)
    requires
        i < 0x80_0000,
    ensures
        shows(final(out)@) == shows(old(out)@) + the_row(*row, i as int),
{
    let top: i32 = menu_row_top(i);
    let accent = if row.danger {
        Color::Red
    } else {
        Color::Grey
    };
    figure(
        out,
        Figure::Rounded {
            corner: Point { x: MENU_X0, y: top },
            width: (MENU_X1 - MENU_X0) as u32,
            height: MENU_ROW_H as u32,
            radius: 8,
        },
        Ink { fill: Some(Color::RowBackground), stroke: Some(accent), stroke_width: 1 },
    );
    let mid: i32 = top + MENU_ROW_H / 2;
    let text_color = if row.danger {
        Color::Red
    } else {
        Color::White
    };
    match &row.value {
        Some(value) => {
            if row.stepper {
                label(out, "-", MENU_X0 + MENU_STEP_ZONE / 2, mid, Font::Bold, Color::Blue);
                label(out, "+", MENU_X1 - MENU_STEP_ZONE / 2, mid, Font::Bold, Color::Blue);
            }
            label(out, &row.label, MIDDLE, mid - 8, Font::Small, Color::Grey);
            label(out, value, MIDDLE, mid + 8, Font::Bold, text_color);
        },
        None => {
            label(out, &row.label, MIDDLE, mid, Font::Bold, text_color);
        },
    }
    assert(shows(out@) =~= shows(old(out)@) + the_row(*row, i as int));
}

/// A menu card.
fn draw_menu(out: &mut Vec<Element<String>>, title: &str, rows: &Vec<MenuRow>)
    requires
        rows@.len() <= 0x80_0000,
    ensures
        shows(final(out)@) == shows(old(out)@) + the_menu(title@, rows@),
{
    ring(out, Color::Dim);
    label(out, title, MIDDLE, 34, Font::Bold, Color::White);
    let ghost head = shows(out@);
    let mut i: usize = 0;
    assert(head + the_rows(rows@, 0) =~= head);
    while i < rows.len()
        invariant
            i <= rows@.len() <= 0x80_0000,
            shows(out@) == head + the_rows(rows@, i as nat),
        decreases rows@.len() - i,
    {
        draw_row(out, &rows[i], i);
        i += 1;
        assert(shows(out@) =~= head + the_rows(rows@, i as nat));
    }
    page_dots(out, 1);
    assert(shows(out@) =~= shows(old(out)@) + the_menu(title@, rows@));
}

/// One entry of the settings card.
fn draw_entry(out: &mut Vec<Element<String>>, entry: &SettingEntry, slot: usize, last: bool)
    requires
        slot < 3,
    ensures
        shows(final(out)@) == shows(old(out)@) + the_entry(*entry, slot as int, last),
{
    let top: i32 = SETTINGS_TOP + slot as i32 * SETTINGS_ROW_H;
    label(out, &entry.label, MIDDLE, top + 7, Font::Small, Color::Grey);
    let color = if entry.placeholder {
        Color::Amber
    } else {
        Color::White
    };
    wrapped_text(out, &entry.value, top + 23, 28, 2, color);
    if !last {
        let y: i32 = top + SETTINGS_ROW_H - 2;
        figure(
            out,
            Figure::Line { from: Point { x: 44, y }, to: Point { x: 196, y } },
            stroked(Color::Dim, 1),
        );
    }
    assert(shows(out@) =~= shows(old(out)@) + the_entry(*entry, slot as int, last));
}

/// The settings card.
fn draw_settings(out: &mut Vec<Element<String>>, entries: &Vec<SettingEntry>, offset: usize)
    requires
        offset + 3 <= usize::MAX,
    ensures
        shows(final(out)@) == shows(old(out)@) + the_settings(entries@, offset as int),
{
    ring(out, Color::Dim);
    label(out, "Settings", MIDDLE, 32, Font::Bold, Color::White);
    let ghost head = shows(out@);
    let end: usize = if entries.len() < offset + SETTINGS_PAGE_ROWS {
        entries.len()
    } else {
        offset + SETTINGS_PAGE_ROWS
    };
    let mut slot: usize = 0;
    assert(head + the_entries(entries@, offset as int, 0) =~= head);
    while offset + slot < end
        invariant
            offset + 3 <= usize::MAX,
            end == last_visible(entries@.len() as int, offset as int),
            slot <= 3,
            slot > 0 ==> offset + slot <= end,
            shows(out@) == head + the_entries(entries@, offset as int, slot as nat),
        decreases end - offset - slot,
    {
        let index: usize = offset + slot;
        draw_entry(out, &entries[index], slot, index + 1 >= entries.len());
        slot += 1;
        assert(shows(out@) =~= head + the_entries(entries@, offset as int, slot as nat));
    }
    let ghost listed = shows(out@);
    if entries.len() > 0 {
        let mut counter = decimal_text(offset as u64 + 1);
        counter.append("-");
        counter.append(&decimal_text(end as u64));
        counter.append(" of ");
        counter.append(&decimal_text(entries.len() as u64));
        label(out, &counter, MIDDLE, 184, Font::Small, Color::Grey);
    }
    status_text(out, "swipe up/down", Color::Grey);
    page_dots(out, 2);
    assert(shows(out@) =~= shows(old(out)@) + the_settings(entries@, offset as int));
}

/// An arc along the ring.
fn arc(out: &mut Vec<Element<String>>, start_degrees: u32, sweep: Sweep, color: Color)
    ensures
        shows(final(out)@) == shows(old(out)@).push(
            Element::Figure {
                figure: Figure::Arc { center: pt(120, 120), diameter: RING, start_degrees, sweep },
                ink: outline(color, 5),
            },
        ),
{
    figure(
        out,
        Figure::Arc {
            center: Point { x: MIDDLE, y: MIDDLE },
            diameter: RING,
            start_degrees,
            sweep,
        },
        stroked(color, 5),
    );
}

/// How a state looks at an animation tick: everything on its card, in drawing
/// order, on a cleared panel.
pub fn scene(state: &UiState, anim_tick: u32) -> (out: Vec<Element<String>>)
    requires
        drawable(*state),
    ensures
        shows(out@) == scene_of(*state, anim_tick),
{
    let mut out: Vec<Element<String>> = Vec::new();
    assert(shows(out@) =~= Seq::<Element<Seq<char>>>::empty());
    match state {
        UiState::Boot { step, progress } => {
            ring(&mut out, Color::Dim);
            let percent: u8 = if *progress <= 100 {
                *progress
            } else {
                100
            };
            if percent > 0 {
                arc(&mut out, 90, Sweep::ClockwisePercent(percent), Color::Blue);
            }
            big_label(&mut out, "starting up", Color::White);
            wrapped_text(&mut out, step, MIDDLE + 26, 28, 2, Color::Grey);
        },
        UiState::Idle { wifi_ok, exchanges, battery } => {
            ring(&mut out, Color::Dim);
            draw_mic(&mut out, Color::Grey);
            if *exchanges > 0 {
                let mut text = decimal_text(*exchanges as u64);
                text.append(" exchange");
                if *exchanges != 1 {
                    text.append("s");
                }
                label(&mut out, &text, MIDDLE, 172, Font::Small, Color::Dim);
            }
            status_text(&mut out, "tap to talk", Color::Grey);
            if let Some(batt) = battery {
                draw_battery(&mut out, *batt);
            }
            draw_wifi_dot(&mut out, *wifi_ok);
            page_dots(&mut out, 0);
        },
        UiState::Listening { level } => {
            let level: u32 = if *level <= 10 {
                *level as u32
            } else {
                10
            };
            let grown: u32 = 110 + level * 12;
            let diameter: u32 = if grown <= RING {
                grown
            } else {
                RING
            };
            figure(
                &mut out,
                Figure::Circle { center: Point { x: MIDDLE, y: MIDDLE }, diameter },
                stroked(Color::Blue, 5),
            );
            draw_mic(&mut out, Color::White);
            wrapped_text(&mut out, "listening...", PANEL - 50, 26, 1, Color::Blue);
            status_text(&mut out, "tap send / swipe cancel", Color::Grey);
        },
        UiState::Thinking { tool } => {
            ring(&mut out, Color::Purple);
            let angle: u32 = anim_tick % 15 * 24;
            assert(angle == (anim_tick * 24) % 360);
            arc(&mut out, angle, Sweep::Degrees(90), Color::White);
            big_label(&mut out, "...", Color::White);
            let text: &str = match tool {
                Some(name) => name.as_str(),
                None => "thinking...",
            };
            wrapped_text(&mut out, text, PANEL - 50, 26, 1, Color::Purple);
            status_text(&mut out, "swipe to cancel", Color::Grey);
        },
        UiState::Speaking { snippet } => {
            ring(&mut out, Color::Green);
            wrapped_text(&mut out, snippet, MIDDLE, 30, 11, Color::White);
        },
        UiState::Error(message) => {
            ring(&mut out, Color::Red);
            big_label(&mut out, "!", Color::Red);
            wrapped_text(&mut out, message, PANEL - 52, 22, 2, Color::Red);
        },
        UiState::Menu { title, rows } => {
            draw_menu(&mut out, title, rows);
        },
        UiState::Settings { entries, offset } => {
            draw_settings(&mut out, entries, *offset);
        },
        UiState::Portal { ap_ssid, url, clients } => {
            ring(&mut out, Color::Amber);
            label(&mut out, "Wi-Fi Setup", MIDDLE, 46, Font::Bold, Color::Amber);
            wrapped_text(&mut out, "join this network:", 78, 28, 1, Color::Grey);
            wrapped_text(&mut out, ap_ssid, 96, 26, 1, Color::White);
            wrapped_text(&mut out, "then browse to:", 124, 28, 1, Color::Grey);
            wrapped_text(&mut out, url, 142, 26, 1, Color::White);
            let status = if *clients > 0 {
                "device connected"
            } else {
                "waiting for device"
            };
            let color = if *clients > 0 {
                Color::Green
            } else {
                Color::Grey
            };
            wrapped_text(&mut out, status, 172, 28, 1, color);
            status_text(&mut out, "tap to cancel", Color::Grey);
        },
        UiState::Notice { title, body, color } => {
            let tone = color.color();
            ring(&mut out, tone);
            label(&mut out, title, MIDDLE, MIDDLE - 26, Font::Bold, tone);
            wrapped_text(&mut out, body, MIDDLE + 12, 28, 4, Color::White);
        },
    }
    assert(shows(out@) =~= scene_of(*state, anim_tick));
    out
}

// ---------- What can be read ----------
/// The texts of some labels.
pub open spec fn label_texts(labels: Seq<Element<Seq<char>>>) -> Seq<Seq<char>> {
    Seq::new(labels.len(), |i: int| labels[i]->text)
}

/// Whether some elements read as a text, from top to bottom: they are labels of
/// one colour in small type below each other, at equal distances, centred on a
/// point; the upper ones hold the earlier parts of the text; and together they
/// hold all of it but whitespace, or as many lines as there may be of its
/// beginning and a mark.
pub open spec fn reads_as(
    labels: Seq<Element<Seq<char>>>,
    text: Seq<char>,
    center_y: int,
    max_lines: int,
    color: Color,
) -> bool {
    let lines = label_texts(labels);
    &&& forall|i: int|
        0 <= i < labels.len() ==> (#[trigger] labels[i] matches Element::Label {
            at,
            font,
            color: c,
            ..
        } && at.x == 120 && font == Font::Small && c == color)
    &&& forall|i: int, j: int|
        0 <= i < j < labels.len() ==> (#[trigger] labels[j])->at.y - (
        #[trigger] labels[i])->at.y == 12 * (j - i)
    &&& labels.len() > 0 ==> labels[0]->at.y + labels.last()->at.y == 2 * center_y
    &&& {
        ||| crate::wrap::all_glyphs(lines) == crate::wrap::glyphs(text)
        ||| {
            &&& lines.len() == max_lines
            &&& lines.last().len() > 0 && lines.last().last() == '~'
            &&& crate::wrap::all_glyphs(
                lines.drop_last().push(lines.last().drop_last()),
            ).is_prefix_of(crate::wrap::glyphs(text))
        }
    }
}

/// Blocks of text read from top to bottom, and their lines are those of the
/// wrapped text.
pub proof fn blocks_read_from_top_to_bottom(
    text: Seq<char>,
    center_y: int,
    max_chars: nat,
    max_lines: nat,
    color: Color,
)
    requires
        0 < max_chars,
        0 < max_lines <= 1000,
        -10_000 <= center_y <= 10_000,
    ensures
        reads_as(
            the_block(text, center_y, max_chars, max_lines, color),
            text,
            center_y,
            max_lines as int,
            color,
        ),
        label_texts(the_block(text, center_y, max_chars, max_lines, color))
            == crate::wrap::wrapped(text, max_chars, max_lines),
{
    let block = the_block(text, center_y, max_chars, max_lines, color);
    let lines = crate::wrap::wrapped(text, max_chars, max_lines);
    crate::wrap::wrapped_text_fits(text, max_chars, max_lines);
    assert(label_texts(block) =~= lines);
    crate::wrap::wrapping_loses_nothing_unmarked(text, max_chars, max_lines);
    if lines.len() < max_lines {
        crate::wrap::unfilled_blocks_show_everything(text, max_chars, max_lines);
    }
}

/// Whether a block of text can be read somewhere in a scene.
pub open spec fn shows_block(
    s: Seq<Element<Seq<char>>>,
    text: Seq<char>,
    center_y: int,
    max_chars: nat,
    max_lines: nat,
    color: Color,
) -> bool {
    exists|from: int, to: int|
        0 <= from <= to <= s.len() && reads_as(
            #[trigger] s.subrange(from, to),
            text,
            center_y,
            max_lines as int,
            color,
        ) && label_texts(s.subrange(from, to)) == crate::wrap::wrapped(text, max_chars, max_lines)
}

/// Whether a label stands somewhere in a scene.
pub open spec fn shows_label(
    s: Seq<Element<Seq<char>>>,
    text: Seq<char>,
    x: int,
    y: int,
    font: Font,
) -> bool {
    exists|k: int|
        0 <= k < s.len() && (#[trigger] s[k] matches Element::Label { text: t, at, font: f, .. }
            && t == text && at.x == x && at.y == y && f == font)
}

broadcast proof fn lemma_shows_label_concat(
    a: Seq<Element<Seq<char>>>,
    b: Seq<Element<Seq<char>>>,
    text: Seq<char>,
    x: int,
    y: int,
    font: Font,
)
    ensures
        shows_label(a, text, x, y, font) || shows_label(b, text, x, y, font)
            ==> #[trigger] shows_label(a + b, text, x, y, font),
{
    if shows_label(a, text, x, y, font) {
        let k = choose|k: int|
            0 <= k < a.len() && (#[trigger] a[k] matches Element::Label {
                text: t,
                at,
                font: f,
                ..
            } && t == text && at.x == x && at.y == y && f == font);
        assert((a + b)[k] == a[k]);
    } else if shows_label(b, text, x, y, font) {
        let k = choose|k: int|
            0 <= k < b.len() && (#[trigger] b[k] matches Element::Label {
                text: t,
                at,
                font: f,
                ..
            } && t == text && at.x == x && at.y == y && f == font);
        assert((a + b)[a.len() + k] == b[k]);
    }
}

broadcast proof fn lemma_shows_block_concat(
    a: Seq<Element<Seq<char>>>,
    b: Seq<Element<Seq<char>>>,
    text: Seq<char>,
    center_y: int,
    max_chars: nat,
    max_lines: nat,
    color: Color,
)
    ensures
        shows_block(a, text, center_y, max_chars, max_lines, color) || shows_block(
            b,
            text,
            center_y,
            max_chars,
            max_lines,
            color,
        ) ==> #[trigger] shows_block(a + b, text, center_y, max_chars, max_lines, color),
{
    if shows_block(a, text, center_y, max_chars, max_lines, color) {
        let (from, to) = choose|from: int, to: int|
            0 <= from <= to <= a.len() && reads_as(
                #[trigger] a.subrange(from, to),
                text,
                center_y,
                max_lines as int,
                color,
            ) && label_texts(a.subrange(from, to)) == crate::wrap::wrapped(
                text,
                max_chars,
                max_lines,
            );
        assert((a + b).subrange(from, to) =~= a.subrange(from, to));
    } else if shows_block(b, text, center_y, max_chars, max_lines, color) {
        let (from, to) = choose|from: int, to: int|
            0 <= from <= to <= b.len() && reads_as(
                #[trigger] b.subrange(from, to),
                text,
                center_y,
                max_lines as int,
                color,
            ) && label_texts(b.subrange(from, to)) == crate::wrap::wrapped(
                text,
                max_chars,
                max_lines,
            );
        assert((a + b).subrange(a.len() + from, a.len() + to) =~= b.subrange(from, to));
    }
}

broadcast proof fn lemma_block_shows(
    text: Seq<char>,
    center_y: int,
    max_chars: nat,
    max_lines: nat,
    color: Color,
)
    requires
        0 < max_chars,
        0 < max_lines <= 1000,
        -10_000 <= center_y <= 10_000,
    ensures
        #[trigger] shows_block(
            the_block(text, center_y, max_chars, max_lines, color),
            text,
            center_y,
            max_chars,
            max_lines,
            color,
        ),
{
    let block = the_block(text, center_y, max_chars, max_lines, color);
    blocks_read_from_top_to_bottom(text, center_y, max_chars, max_lines, color);
    assert(block.subrange(0, block.len() as int) =~= block);
}

broadcast proof fn lemma_status_shows(text: Seq<char>, color: Color)
    ensures
        #[trigger] shows_label(the_status(text, color), text, 120, 206, Font::Small),
{
    let s = the_status(text, color);
    assert(s[0] == caption(text, 120, 206, Font::Small, color));
}

proof fn lemma_caption_shows(text: Seq<char>, x: int, y: int, font: Font, color: Color)
    requires
        -10_000 <= x <= 10_000,
        -10_000 <= y <= 10_000,
    ensures
        shows_label(seq![caption(text, x, y, font, color)], text, x, y, font),
{
    let s = seq![caption(text, x, y, font, color)];
    assert(s[0] == caption(text, x, y, font, color));
}

/// Every state shows what it has to say, where it belongs and in full, as far as
/// there is room: the step of the start, the tool at work, the caption, the
/// error, the network to join and where to browse, and the text of a notice.
pub proof fn states_show_their_texts(state: UiState, tick: u32)
    ensures
        match state {
            UiState::Boot { step, .. } => {
                let s = scene_of(state, tick);
                shows_label(s, "starting up"@, 120, 120, Font::Bold) && shows_block(
                    s,
                    step@,
                    146,
                    28,
                    2,
                    Color::Grey,
                )
            },
            UiState::Idle { .. } => shows_label(
                scene_of(state, tick),
                "tap to talk"@,
                120,
                206,
                Font::Small,
            ),
            UiState::Listening { .. } => {
                let s = scene_of(state, tick);
                shows_block(s, "listening..."@, 190, 26, 1, Color::Blue) && shows_label(
                    s,
                    "tap send / swipe cancel"@,
                    120,
                    206,
                    Font::Small,
                )
            },
            UiState::Thinking { tool } => {
                let s = scene_of(state, tick);
                &&& tool matches Some(name) ==> shows_block(s, name@, 190, 26, 1, Color::Purple)
                &&& tool is None ==> shows_block(s, "thinking..."@, 190, 26, 1, Color::Purple)
                &&& shows_label(s, "swipe to cancel"@, 120, 206, Font::Small)
            },
            UiState::Speaking { snippet } => shows_block(
                scene_of(state, tick),
                snippet@,
                120,
                30,
                11,
                Color::White,
            ),
            UiState::Error(message) => {
                let s = scene_of(state, tick);
                shows_label(s, "!"@, 120, 120, Font::Bold) && shows_block(
                    s,
                    message@,
                    188,
                    22,
                    2,
                    Color::Red,
                )
            },
            UiState::Portal { ap_ssid, url, clients } => {
                let s = scene_of(state, tick);
                &&& shows_block(s, ap_ssid@, 96, 26, 1, Color::White)
                &&& shows_block(s, url@, 142, 26, 1, Color::White)
                &&& clients > 0 ==> shows_block(s, "device connected"@, 172, 28, 1, Color::Green)
                &&& clients == 0 ==> shows_block(s, "waiting for device"@, 172, 28, 1, Color::Grey)
                &&& shows_label(s, "tap to cancel"@, 120, 206, Font::Small)
            },
            UiState::Notice { title, body, .. } => {
                let s = scene_of(state, tick);
                shows_label(s, title@, 120, 94, Font::Bold) && shows_block(
                    s,
                    body@,
                    132,
                    28,
                    4,
                    Color::White,
                )
            },
            _ => true,
        },
{
    broadcast use {
        lemma_shows_label_concat,
        lemma_shows_block_concat,
        lemma_block_shows,
        lemma_status_shows,
    };

    match state {
        UiState::Boot { .. } => {
            lemma_caption_shows("starting up"@, 120, 120, Font::Bold, Color::White);
        },
        UiState::Thinking { .. } => {},
        UiState::Error(_) => {
            lemma_caption_shows("!"@, 120, 120, Font::Bold, Color::Red);
        },
        UiState::Notice { title, color, .. } => {
            lemma_caption_shows(title@, 120, 94, Font::Bold, color.tone());
        },
        _ => {},
    }
}

/// A caption that is being spoken stands alone on its card, inside the ring.
pub proof fn spoken_captions_stand_alone(state: UiState, tick: u32)
    requires
        state is Speaking,
    ensures
        scene_of(state, tick).len() > 0,
        scene_of(state, tick)[0] is Figure,
        reads_as(scene_of(state, tick).skip(1), state->snippet@, 120, 11, Color::White),
{
    let block = the_block(state->snippet@, 120, 30, 11, Color::White);
    blocks_read_from_top_to_bottom(state->snippet@, 120, 30, 11, Color::White);
    assert(scene_of(state, tick).skip(1) =~= block);
}

/// The three dots along the top stand for the three cards, from left to right at
/// equal distances about the middle, and exactly that of the card that is shown
/// is white: the first for the assistant, the second for the menu, the third for
/// the settings.
pub proof fn dots_tell_the_card(state: UiState, tick: u32)
    requires
        state is Idle || state is Menu || state is Settings,
    ensures
        ({
            let s = scene_of(state, tick);
            let dots = s.skip(s.len() - 3);
            let card = if state is Idle {
                0int
            } else if state is Menu {
                1
            } else {
                2
            };
            &&& s.len() >= 3
            &&& forall|i: int|
                0 <= i < 3 ==> (#[trigger] dots[i] matches Element::Figure {
                    figure: Figure::Circle { center, diameter },
                    ink,
                } && diameter == 6 && center.y == 20 && center.x == 120 + 14 * (i - 1) && ink.fill
                    == Some(
                    if i == card {
                        Color::White
                    } else {
                        Color::Grey
                    },
                ))
        }),
{
    let s = scene_of(state, tick);
    let card = if state is Idle {
        0int
    } else if state is Menu {
        1
    } else {
        2
    };
    assert(s.skip(s.len() - 3) =~= the_dots(card));
}

/// The battery's bar shows its charge in sixteenths, rounded down, but a little of
/// it as long as there is any; its colour warns below a half and below a fifth,
/// unless it is charging; and the number is the charge.
pub proof fn battery_shows_its_charge(b: Battery)
    requires
        b.percent <= 100,
    ensures
        ({
            let fill = battery_fill(b);
            &&& b.percent == 0 ==> fill == 0
            &&& 0 < b.percent < 7 ==> fill == 1
            &&& b.percent >= 7 ==> fill * 100 <= 16 * b.percent < (fill + 1) * 100
        }),
        b.charging || b.percent >= 50 ==> battery_color(b) == Color::Green,
        !b.charging && 20 <= b.percent < 50 ==> battery_color(b) == Color::Amber,
        !b.charging && b.percent < 20 ==> battery_color(b) == Color::Red,
        shows_label(
            the_battery(b),
            crate::text::decimal(b.percent as nat) + "%"@,
            83,
            50,
            Font::Small,
        ),
        battery_fill(b) > 0 ==> (the_battery(b)[2] matches Element::Figure {
            figure: Figure::Rect { width, .. },
            ink,
        } && width == battery_fill(b) && ink.fill == Some(battery_color(b))),
{
    broadcast use lemma_shows_label_concat;

    let text = crate::text::decimal(b.percent as nat) + "%"@;
    lemma_caption_shows(text, 83, 50, Font::Small, Color::Grey);
}

/// A charge beyond full is shown as full.
pub proof fn overfull_batteries_are_full(b: Battery)
    requires
        b.percent > 100,
    ensures
        the_battery(b) == the_battery(Battery { percent: 100, ..b }),
{
    assert(the_battery(b) =~= the_battery(Battery { percent: 100, ..b }));
}

/// The ring around the microphone grows with the level, twelve pixels a step from
/// a hundred and ten on, and never past the edge.
pub proof fn the_level_ring_grows(level: u8, tick: u32)
    ensures
        scene_of(UiState::Listening { level }, tick)[0] matches Element::Figure {
            figure: Figure::Circle { center, diameter },
            ..
        } && center.x == 120 && center.y == 120 && diameter == 110 + 12 * (if level <= 10 {
            level as int
        } else {
            10
        }) && diameter <= 232,
{
}

/// While it thinks, a quarter of the ring turns, by a fifteenth of a turn per
/// tick.
pub proof fn the_spinner_turns(tool: Option<String>, tick: u32)
    requires
        tick < u32::MAX,
    ensures
        ({
            let now = scene_of(UiState::Thinking { tool }, tick)[1];
            let next = scene_of(UiState::Thinking { tool }, (tick + 1) as u32)[1];
            match (now, next) {
                (
                    Element::Figure { figure: Figure::Arc { start_degrees: a, sweep: s, .. }, .. },
                    Element::Figure { figure: Figure::Arc { start_degrees: b, sweep: t, .. }, .. },
                ) => a < 360 && b < 360 && (b == a + 24 || b == a + 24 - 360) && s
                    == Sweep::Degrees(90) && t == s,
                _ => false,
            }
        }),
        scene_of(UiState::Thinking { tool }, 0)[1] matches Element::Figure {
            figure: Figure::Arc { start_degrees, .. },
            ..
        } && start_degrees == 0,
{
}

/// The start is shown as part of the ring: as many percent of it as are done, and
/// none at first.
pub proof fn the_start_fills_the_ring(step: &'static str, progress: u8, tick: u32)
    ensures
        ({
            let e = scene_of(UiState::Boot { step, progress }, tick)[1];
            &&& progress == 0 ==> e is Label
            &&& progress > 0 ==> (e matches Element::Figure {
                figure: Figure::Arc { start_degrees, sweep, .. },
                ..
            } && start_degrees == 90 && sweep == Sweep::ClockwisePercent(
                if progress <= 100 {
                    progress
                } else {
                    100
                },
            ))
        }),
{
}

proof fn lemma_rows_show(rows: Seq<MenuRow>, n: nat, i: int)
    requires
        0 <= i < n <= rows.len() <= 0x80_0000,
    ensures
        ({
            let s = the_rows(rows, n);
            let mid = 78 + 46 * i;
            match rows[i].value {
                None => shows_label(s, rows[i].label@, 120, mid, Font::Bold),
                Some(value) => shows_label(s, rows[i].label@, 120, mid - 8, Font::Small)
                    && shows_label(s, value@, 120, mid + 8, Font::Bold),
            }
        }),
    decreases n,
{
    broadcast use lemma_shows_label_concat;

    if i < n - 1 {
        lemma_rows_show(rows, (n - 1) as nat, i);
    } else {
        let r = the_row(rows[i], i);
        let mid = 78 + 46 * i;
        match rows[i].value {
            None => {
                assert(r[1] matches Element::Label { .. });
                assert(shows_label(r, rows[i].label@, 120, mid, Font::Bold));
            },
            Some(value) => {
                let k = r.len() - 2;
                assert(r[k] matches Element::Label { .. });
                assert(r[k + 1] matches Element::Label { .. });
                assert(shows_label(r, rows[i].label@, 120, mid - 8, Font::Small));
                assert(shows_label(r, value@, 120, mid + 8, Font::Bold));
            },
        }
    }
}

/// A menu shows its title, and the text of every row inside that row: what it does,
/// or above its value what the value is.
pub proof fn menus_show_their_rows(state: UiState, tick: u32, i: int)
    requires
        drawable(state),
        state is Menu,
        0 <= i < state->rows@.len(),
    ensures
        ({
            let s = scene_of(state, tick);
            let row = state->rows@[i];
            let mid = crate::ui::row_top(i) + 20;
            &&& shows_label(s, state->Menu_title@, 120, 34, Font::Bold)
            &&& crate::ui::on_row(120, mid - 8, i) && crate::ui::on_row(120, mid + 8, i)
            &&& match row.value {
                None => shows_label(s, row.label@, 120, mid, Font::Bold),
                Some(value) => shows_label(s, row.label@, 120, mid - 8, Font::Small)
                    && shows_label(s, value@, 120, mid + 8, Font::Bold),
            }
        }),
{
    broadcast use lemma_shows_label_concat;

    let rows = state->rows@;
    let s = scene_of(state, tick);
    assert(s == the_menu(state->Menu_title@, rows));
    lemma_rows_show(rows, rows.len(), i);
    lemma_caption_shows(state->Menu_title@, 120, 34, Font::Bold, Color::White);
}

proof fn lemma_entries_show(entries: Seq<SettingEntry>, offset: int, n: nat, slot: int)
    requires
        0 <= slot < n <= 3,
    ensures
        ({
            let s = the_entries(entries, offset, n);
            let entry = entries[offset + slot];
            shows_label(s, entry.label@, 120, 57 + 40 * slot, Font::Small) && shows_block(
                s,
                entry.value@,
                73 + 40 * slot,
                28,
                2,
                if entry.placeholder {
                    Color::Amber
                } else {
                    Color::White
                },
            )
        }),
    decreases n,
{
    broadcast use {lemma_shows_label_concat, lemma_shows_block_concat, lemma_block_shows};

    if slot < n - 1 {
        lemma_entries_show(entries, offset, (n - 1) as nat, slot);
    } else {
        let entry = entries[offset + slot];
        lemma_caption_shows(entry.label@, 120, 57 + 40 * slot, Font::Small, Color::Grey);
    }
}

/// The settings card shows three entries from its offset on, as far as there are
/// any, below each other and each value below its label, stand-ins in amber; and
/// which of how many they are.
pub proof fn settings_show_a_page_of_entries(state: UiState, tick: u32, slot: int)
    requires
        state is Settings,
        0 <= slot < 3,
        state->offset + slot < state->entries@.len(),
    ensures
        ({
            let s = scene_of(state, tick);
            let entries = state->entries@;
            let offset = state->offset as int;
            let entry = entries[offset + slot];
            let end = if offset + 3 <= entries.len() {
                offset + 3
            } else {
                entries.len() as int
            };
            &&& shows_label(s, entry.label@, 120, 57 + 40 * slot, Font::Small)
            &&& shows_block(
                s,
                entry.value@,
                73 + 40 * slot,
                28,
                2,
                if entry.placeholder {
                    Color::Amber
                } else {
                    Color::White
                },
            )
            &&& shows_label(
                s,
                crate::text::decimal((offset + 1) as nat) + "-"@ + crate::text::decimal(end as nat)
                    + " of "@ + crate::text::decimal(entries.len()),
                120,
                184,
                Font::Small,
            )
        }),
{
    broadcast use {lemma_shows_label_concat, lemma_shows_block_concat};

    let entries = state->entries@;
    let offset = state->offset as int;
    let end = last_visible(entries.len() as int, offset);
    let n = (end - offset) as nat;
    lemma_entries_show(entries, offset, n, slot);
    let counter = crate::text::decimal((offset + 1) as nat) + "-"@ + crate::text::decimal(
        end as nat,
    ) + " of "@ + crate::text::decimal(entries.len());
    lemma_caption_shows(counter, 120, 184, Font::Small, Color::Grey);
    assert(scene_of(state, tick) == the_settings(entries, offset));
}

} // verus!
