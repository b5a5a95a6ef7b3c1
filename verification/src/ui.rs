//! The round-display interface: what it can show, where its rows are, and which
//! colours it uses.
//!
//! Everything is laid out inside the inscribed circle of the panel: the bezel
//! clips the corners, so nothing past a radius of 116 from the centre can be
//! seen.
use vstd::prelude::*;

verus! {

// ---------- Menu geometry ----------
/// Left edge of a menu row.
pub const MENU_X0: i32 = 44;

/// Right edge of a menu row.
pub const MENU_X1: i32 = 196;

/// Height of a menu row.
pub const MENU_ROW_H: i32 = 40;

/// Space between two menu rows.
pub const MENU_ROW_GAP: i32 = 6;

/// Top edge of the first menu row.
pub const MENU_TOP: i32 = 58;

/// Width of the tap zones at each end of a row that has a stepper.
pub const MENU_STEP_ZONE: i32 = 42;

/// Top edge of menu row `i`.
pub open spec fn row_top(i: int) -> int {
    MENU_TOP + i * (MENU_ROW_H + MENU_ROW_GAP)
}

/// Top edge of menu row `i`.
pub fn menu_row_top(i: usize) -> (top: i32)
    requires
        row_top(i as int) <= i32::MAX,
    ensures
        top == row_top(i as int),
{
    MENU_TOP + i as i32 * (MENU_ROW_H + MENU_ROW_GAP)
}

/// Whether the point `(x, y)` lies on menu row `i`.
pub open spec fn on_row(x: int, y: int, i: int) -> bool {
    MENU_X0 <= x <= MENU_X1 && row_top(i) <= y < row_top(i) + MENU_ROW_H
}

/// Which of `row_count` menu rows, if any, contains the point `(x, y)`.
pub fn menu_row_at(x: i32, y: i32, row_count: usize) -> (r: Option<usize>)
    ensures
        match r {
            Some(i) => i < row_count && on_row(x as int, y as int, i as int),
            None => forall|i: int| 0 <= i < row_count ==> !on_row(x as int, y as int, i),
        },
{
    if x < MENU_X0 || x > MENU_X1 || y < MENU_TOP {
        return None;
    }
    let pitch: i32 = MENU_ROW_H + MENU_ROW_GAP;
    let below: i32 = y - MENU_TOP;
    let i: usize = (below / pitch) as usize;
    if i < row_count && below % pitch < MENU_ROW_H {
        Some(i)
    } else {
        None
    }
}

/// A point lies on one menu row at most.
pub proof fn menu_rows_are_disjoint(x: int, y: int, i: int, j: int)
    requires
        on_row(x, y, i),
        on_row(x, y, j),
    ensures
        i == j,
{
}

/// Where in a row a tap landed, for rows that have a stepper.
#[derive(Debug, Clone, Copy, PartialEq, Eq, Structural)]
pub enum RowZone {
    Decrement,
    Body,
    Increment,
}

/// The zone of a row at `x`.
pub open spec fn zone_at(x: int) -> RowZone {
    if x < MENU_X0 + MENU_STEP_ZONE {
        RowZone::Decrement
    } else if x > MENU_X1 - MENU_STEP_ZONE {
        RowZone::Increment
    } else {
        RowZone::Body
    }
}

/// The zone of a row at `x`.
pub fn row_zone(x: i32) -> (zone: RowZone)
    ensures
        zone == zone_at(x as int),
{
    if x < MENU_X0 + MENU_STEP_ZONE {
        RowZone::Decrement
    } else if x > MENU_X1 - MENU_STEP_ZONE {
        RowZone::Increment
    } else {
        RowZone::Body
    }
}

/// The end zones mirror each other about the middle of the row.
pub proof fn step_zones_mirror(x: int)
    ensures
        zone_at(x) is Decrement <==> zone_at(MENU_X0 + MENU_X1 - x) is Increment,
{
}

/// One line of a menu. A stepper row shows a value between two tap zones.
#[derive(Clone)]
pub struct MenuRow {
    pub label: String,
    pub value: Option<String>,
    pub stepper: bool,
    pub danger: bool,
}

impl MenuRow {
    /// A row that does something.
    pub fn action(label: &str) -> (row: MenuRow)
        ensures
            row.label@ == label@,
            row.value is None,
            !row.stepper,
            !row.danger,
    {
        MenuRow { label: label.to_owned(), value: None, stepper: false, danger: false }
    }

    /// A row that does something that cannot be undone.
    pub fn danger(label: &str) -> (row: MenuRow)
        ensures
            row.label@ == label@,
            row.value is None,
            !row.stepper,
            row.danger,
    {
        MenuRow { label: label.to_owned(), value: None, stepper: false, danger: true }
    }

    /// A row that shows a value and steps it.
    pub fn stepper(label: &str, value: &str) -> (row: MenuRow)
        ensures
            row.label@ == label@,
            row.value matches Some(v) && v@ == value@,
            row.stepper,
            !row.danger,
    {
        MenuRow {
            label: label.to_owned(),
            value: Some(value.to_owned()),
            stepper: true,
            danger: false,
        }
    }
}

// ---------- Settings-list geometry ----------
/// Entries visible at once on the settings card.
pub const SETTINGS_PAGE_ROWS: usize = 3;

/// Top edge of the first entry.
pub const SETTINGS_TOP: i32 = 50;

/// Height of an entry.
pub const SETTINGS_ROW_H: i32 = 40;

/// One line of the read-only settings card: what the setting is, and what it is
/// set to. A placeholder is a stand-in for a value that is not there.
#[derive(Clone)]
pub struct SettingEntry {
    pub label: String,
    pub value: String,
    pub placeholder: bool,
}

// ---------- States ----------
/// What the interface shows.
#[derive(Clone)]
pub enum UiState {
    /// From the moment the display is alive until touch is accepted.
    Boot { step: &'static str, progress: u8 },
    Idle {
        wifi_ok: bool,
        /// Completed exchanges that are still remembered.
        exchanges: usize,
        /// Absent until the battery has been measured.
        battery: Option<Battery>,
    },
    /// `level` is 0 to 10, after the loudness of the microphone.
    Listening { level: u8 },
    Thinking { tool: Option<String> },
    Speaking { snippet: String },
    Error(String),
    Menu { title: &'static str, rows: Vec<MenuRow> },
    /// What the device is configured with, from entry `offset` on.
    Settings { entries: Vec<SettingEntry>, offset: usize },
    /// The setup network is up; what to join and where to browse.
    Portal { ap_ssid: String, url: String, clients: u8 },
    Notice { title: String, body: String, color: NoticeColor },
}

#[derive(Debug, Clone, Copy, PartialEq, Eq, Structural)]
pub enum NoticeColor {
    Info,
    Warn,
    Good,
}

/// What the battery gauge shows.
#[derive(Debug, Clone, Copy, PartialEq, Eq, Structural)]
pub struct Battery {
    pub percent: u8,
    pub charging: bool,
}

// ---------- Colours ----------
/// The palette.
#[derive(Debug, Clone, Copy, PartialEq, Eq, Structural)]
pub enum Color {
    Background,
    Dim,
    Blue,
    Purple,
    Green,
    Red,
    Amber,
    White,
    Grey,
    RowBackground,
}

impl Color {
    /// Red, green and blue, in 5, 6 and 5 bits.
    pub open spec fn channels(self) -> (u8, u8, u8) {
        match self {
            Color::Background => (0, 0, 0),
            Color::Dim => (4, 8, 4),
            Color::Blue => (4, 20, 31),
            Color::Purple => (18, 8, 28),
            Color::Green => (4, 40, 12),
            Color::Red => (28, 4, 4),
            Color::Amber => (31, 40, 0),
            Color::White => (31, 63, 31),
            Color::Grey => (12, 24, 12),
            Color::RowBackground => (3, 6, 5),
        }
    }

    /// Red, green and blue, in 5, 6 and 5 bits.
    pub fn rgb(self) -> (c: (u8, u8, u8))
        ensures
            c == self.channels(),
            c.0 <= 31,
            c.1 <= 63,
            c.2 <= 31,
    {
        match self {
            Color::Background => (0, 0, 0),
            Color::Dim => (4, 8, 4),
            Color::Blue => (4, 20, 31),
            Color::Purple => (18, 8, 28),
            Color::Green => (4, 40, 12),
            Color::Red => (28, 4, 4),
            Color::Amber => (31, 40, 0),
            Color::White => (31, 63, 31),
            Color::Grey => (12, 24, 12),
            Color::RowBackground => (3, 6, 5),
        }
    }
}

/// A screen colour in the eight bits per channel of the status light: each
/// channel scaled by its own maximum.
pub open spec fn led_channels(color: Color) -> (int, int, int) {
    let (r, g, b) = color.channels();
    (r * 255 / 31, g * 255 / 63, b * 255 / 31)
}

/// Widens a screen colour to the eight bits per channel of the status light.
pub fn led_of(color: Color) -> (c: (u8, u8, u8))
    ensures
        (c.0 as int, c.1 as int, c.2 as int) == led_channels(color),
{
    let (r, g, b) = color.rgb();
    (
        (r as u16 * 255 / 31) as u8,
        (g as u16 * 255 / 63) as u8,
        (b as u16 * 255 / 31) as u8,
    )
}

impl NoticeColor {
    /// The colour a notice is drawn in.
    pub open spec fn tone(self) -> Color {
        match self {
            NoticeColor::Info => Color::Blue,
            NoticeColor::Warn => Color::Amber,
            NoticeColor::Good => Color::Green,
        }
    }

    /// The colour a notice is drawn in.
    pub fn color(self) -> (c: Color)
        ensures
            c == self.tone(),
    {
        match self {
            NoticeColor::Info => Color::Blue,
            NoticeColor::Warn => Color::Amber,
            NoticeColor::Good => Color::Green,
        }
    }
}

/// The colour that a state reads as. Idling and browsing the cards is no
/// activity and has none.
pub open spec fn accent(state: UiState) -> Option<Color> {
    match state {
        UiState::Idle { .. } | UiState::Menu { .. } | UiState::Settings { .. } => None,
        UiState::Boot { .. } | UiState::Listening { .. } => Some(Color::Blue),
        UiState::Thinking { .. } => Some(Color::Purple),
        UiState::Speaking { .. } => Some(Color::Green),
        UiState::Error(_) => Some(Color::Red),
        UiState::Portal { .. } => Some(Color::Amber),
        UiState::Notice { color, .. } => Some(color.tone()),
    }
}

/// The status light for a state: its colour, or dark.
pub fn led_color(state: &UiState) -> (c: (u8, u8, u8))
    ensures
        (c.0 as int, c.1 as int, c.2 as int) == (match accent(*state) {
            Some(color) => led_channels(color),
            None => (0, 0, 0),
        }),
{
    match state {
        UiState::Idle { .. } | UiState::Menu { .. } | UiState::Settings { .. } => (0, 0, 0),
        UiState::Boot { .. } => led_of(Color::Blue),
        UiState::Listening { .. } => led_of(Color::Blue),
        UiState::Thinking { .. } => led_of(Color::Purple),
        UiState::Speaking { .. } => led_of(Color::Green),
        UiState::Error(_) => led_of(Color::Red),
        UiState::Portal { .. } => led_of(Color::Amber),
        UiState::Notice { color, .. } => led_of(color.color()),
    }
}

/// Where a row reacts: rows are forty pixels high and six apart, from 58 down,
/// and reach from 44 to 196; their outer 42 pixels are the step zones, the left
/// one down and the right one up.
pub proof fn rows_react_where_they_are(x: int, y: int, i: int)
    ensures
        on_row(x, y, i) <==> 44 <= x <= 196 && 58 + 46 * i <= y < 98 + 46 * i,
        zone_at(x) is Decrement <==> x < 86,
        zone_at(x) is Increment <==> x > 154,
        zone_at(x) is Body <==> 86 <= x <= 154,
{
}

/// No two colours of the palette look the same.
pub proof fn colors_are_distinct(a: Color, b: Color)
    requires
        a.channels() == b.channels(),
    ensures
        a == b,
{
}

/// Colours look like their names: black and white are the ends of the scale, the
/// greys are even, and each hue has most of what it is called after.
pub proof fn colors_look_like_their_names()
    ensures
        Color::Background.channels() == (0u8, 0u8, 0u8),
        Color::White.channels() == (31u8, 63u8, 31u8),
        forall|c: Color| #![trigger c.channels()] ({
            let (r, g, b) = c.channels();
            &&& r <= 31 && g <= 63 && b <= 31
            &&& c is Grey || c is Dim ==> r == b && g == 2 * r && 0 < r < 31
            &&& c is Red ==> 2 * r > 6 * g && r > 6 * b
            &&& c is Green ==> g > 4 * r && g > 2 * b
            &&& c is Blue ==> b > 7 * r && 2 * b > 3 * g
            &&& c is Purple ==> b > r && r > g
            &&& c is Amber ==> b == 0 && r == 31 && g == 40
        }),
        Color::Dim.channels().0 < Color::Grey.channels().0,
{
}

/// The status light has a state's colour at full scale: each channel keeps its
/// share of the most that it can have, rounded down.
pub proof fn the_light_keeps_the_proportions(color: Color)
    ensures
        ({
            let (r, g, b) = color.channels();
            let (lr, lg, lb) = led_channels(color);
            &&& lr * 31 <= r * 255 < (lr + 1) * 31
            &&& lg * 63 <= g * 255 < (lg + 1) * 63
            &&& lb * 31 <= b * 255 < (lb + 1) * 31
        }),
{
    let (r, g, b) = color.channels();
}

/// States are told apart by their colour: blue at the start and while it listens,
/// purple while it thinks, green while it speaks, red for an error, amber in the
/// setup, that of the notice in a notice, and none while nothing goes on.
pub proof fn states_have_their_colors(state: UiState)
    ensures
        state is Boot || state is Listening ==> accent(state) == Some(Color::Blue),
        state is Thinking ==> accent(state) == Some(Color::Purple),
        state is Speaking ==> accent(state) == Some(Color::Green),
        state is Error ==> accent(state) == Some(Color::Red),
        state is Portal ==> accent(state) == Some(Color::Amber),
        state is Idle || state is Menu || state is Settings ==> accent(state) is None,
        state matches UiState::Notice { color, .. } ==> {
            &&& color is Info ==> accent(state) == Some(Color::Blue)
            &&& color is Warn ==> accent(state) == Some(Color::Amber)
            &&& color is Good ==> accent(state) == Some(Color::Green)
        },
{
}

} // verus!
