//! The bezel clips the panel to a circle. Nothing the interface shows strays
//! past it.
use crate::scene::{Element, Figure, Font};
use crate::ui::{Color, MenuRow, SettingEntry, UiState};
use vstd::prelude::*;

verus! {

/// Radius of what can be seen.
pub const REACH: i32 = 116;

/// Whether a point can be seen.
pub open spec fn point_inside(x: int, y: int) -> bool {
    (x - 120) * (x - 120) + (y - 120) * (y - 120) <= REACH * REACH
}

/// Whether all of a box can be seen.
pub open spec fn box_inside(left: int, top: int, right: int, bottom: int) -> bool {
    &&& point_inside(left, top)
    &&& point_inside(right, top)
    &&& point_inside(left, bottom)
    &&& point_inside(right, bottom)
}

/// Whether all of a circle can be seen.
pub open spec fn disc_inside(x: int, y: int, diameter: int) -> bool {
    &&& diameter <= 2 * REACH
    &&& 4 * ((x - 120) * (x - 120) + (y - 120) * (y - 120)) <= (2 * REACH - diameter) * (2 * REACH
        - diameter)
}

/// Half the width of a label, rounded up.
pub open spec fn half_width(text: Seq<char>, font: Font) -> int {
    match font {
        Font::Small => text.len() * 3int,
        Font::Bold => (text.len() * 9int + 1) / 2,
    }
}

/// Half the height of a label, rounded up.
pub open spec fn half_height(font: Font) -> int {
    match font {
        Font::Small => 5,
        Font::Bold => 8,
    }
}

/// Whether all of an element can be seen. An outline is taken as the line that it
/// follows, without its width.
pub open spec fn inside(e: Element<Seq<char>>) -> bool {
    match e {
        Element::Figure { figure, .. } => match figure {
            Figure::Circle { center, diameter } | Figure::Arc { center, diameter, .. } =>
                disc_inside(center.x as int, center.y as int, diameter as int),
            Figure::Rect { corner, width, height } | Figure::Rounded {
                corner,
                width,
                height,
                ..
            } => box_inside(
                corner.x as int,
                corner.y as int,
                corner.x + width,
                corner.y + height,
            ),
            Figure::Triangle { a, b, c } => {
                &&& point_inside(a.x as int, a.y as int)
                &&& point_inside(b.x as int, b.y as int)
                &&& point_inside(c.x as int, c.y as int)
            },
            Figure::Line { from, to } => {
                &&& point_inside(from.x as int, from.y as int)
                &&& point_inside(to.x as int, to.y as int)
            },
        },
        Element::Label { text, at, font, .. } => box_inside(
            at.x - half_width(text, font),
            at.y - half_height(font),
            at.x + half_width(text, font),
            at.y + half_height(font),
        ),
    }
}

/// Whether all of a scene can be seen.
pub open spec fn all_inside(s: Seq<Element<Seq<char>>>) -> bool {
    crate::scene::every(s, |e: Element<Seq<char>>| inside(e))
}

/// Whether the texts of a state that are drawn on one line are short enough for
/// that line, and its rows few enough for the panel.
pub open spec fn presentable(state: UiState) -> bool {
    match state {
        UiState::Menu { title, rows } => {
            &&& title@.len() <= 12
            &&& rows@.len() <= 3
            &&& forall|i: int| #![trigger rows@[i]] 0 <= i < rows@.len() ==> row_short(rows@[i])
        },
        UiState::Settings { entries, offset } => {
            &&& entries@.len() <= 999
            &&& offset <= 999
            &&& forall|i: int|
                #![trigger entries@[i]]
                0 <= i < entries@.len() ==> entries@[i].label@.len() <= 24
        },
        UiState::Notice { title, .. } => title@.len() <= 22,
        _ => true,
    }
}

pub open spec fn row_short(row: MenuRow) -> bool {
    &&& row.label@.len() <= 16
    &&& row.value matches Some(value) ==> value@.len() <= 16
}

/// A point near enough to the middle, along both axes, can be seen.
proof fn lemma_point(x: int, y: int, a: int, b: int)
    requires
        -a <= x - 120 <= a,
        -b <= y - 120 <= b,
        a * a + b * b <= 13456,
    ensures
        point_inside(x, y),
{
    let dx = x - 120;
    let dy = y - 120;
    assert(dx * dx <= a * a) by (nonlinear_arith)
        requires
            -a <= dx <= a,
    ;
    assert(dy * dy <= b * b) by (nonlinear_arith)
        requires
            -b <= dy <= b,
    ;
    assert(REACH * REACH == 13456) by (nonlinear_arith)
        requires
            REACH == 116,
    ;
}

/// A box near enough to the middle can be seen.
proof fn lemma_box(left: int, top: int, right: int, bottom: int, a: int, b: int)
    requires
        120 - a <= left <= 120 + a,
        120 - a <= right <= 120 + a,
        120 - b <= top <= 120 + b,
        120 - b <= bottom <= 120 + b,
        a * a + b * b <= 13456,
    ensures
        box_inside(left, top, right, bottom),
{
    lemma_point(left, top, a, b);
    lemma_point(right, top, a, b);
    lemma_point(left, bottom, a, b);
    lemma_point(right, bottom, a, b);
}

/// A circle near enough to the middle can be seen.
proof fn lemma_disc(x: int, y: int, diameter: int, a: int, b: int)
    requires
        -a <= x - 120 <= a,
        -b <= y - 120 <= b,
        diameter <= 232,
        4 * (a * a + b * b) <= (232 - diameter) * (232 - diameter),
    ensures
        disc_inside(x, y, diameter),
{
    let dx = x - 120;
    let dy = y - 120;
    assert(dx * dx <= a * a) by (nonlinear_arith)
        requires
            -a <= dx <= a,
    ;
    assert(dy * dy <= b * b) by (nonlinear_arith)
        requires
            -b <= dy <= b,
    ;
}

/// A label on the vertical axis can be seen if it is short enough for its
/// height.
proof fn lemma_label(text: Seq<char>, y: int, font: Font, color: Color, a: int, b: int)
    requires
        0 <= y <= 240,
        half_width(text, font) <= a,
        120 - b <= y - half_height(font),
        y + half_height(font) <= 120 + b,
        a * a + b * b <= 13456,
    ensures
        inside(crate::scene::caption(text, 120, y, font, color)),
        all_inside(seq![crate::scene::caption(text, 120, y, font, color)]),
{
    lemma_box(
        120 - half_width(text, font),
        y - half_height(font),
        120 + half_width(text, font),
        y + half_height(font),
        a,
        b,
    );
}

/// Wrapped text can be seen if its widest line could be at its outermost place.
proof fn lemma_block(
    text: Seq<char>,
    center_y: int,
    max_chars: nat,
    max_lines: nat,
    color: Color,
    a: int,
    b: int,
)
    requires
        0 < max_chars,
        0 < max_lines,
        3 * max_chars <= a,
        120 - b <= center_y - 6 * (max_lines - 1) - 5,
        center_y + 6 * (max_lines - 1) + 5 <= 120 + b,
        0 <= a,
        0 <= b <= 116,
        a * a + b * b <= 13456,
    ensures
        all_inside(crate::scene::the_block(text, center_y, max_chars, max_lines, color)),
{
    crate::wrap::wrapped_text_fits(text, max_chars, max_lines);
    let lines = crate::wrap::wrapped(text, max_chars, max_lines);
    let all = crate::scene::the_block(text, center_y, max_chars, max_lines, color);
    let start = center_y - (lines.len() - 1) * 12 / 2;
    assert forall|i: int| 0 <= i < all.len() implies inside(#[trigger] all[i]) by {
        let y = start + i * 12;
        assert(lines[i].len() <= max_chars);
        lemma_label(lines[i], y, Font::Small, color, a, b);
        assert(all[i] == crate::scene::caption(lines[i], 120, y, Font::Small, color));
    }
}

proof fn lemma_rings(color: Color, level: u8)
    ensures
        all_inside(crate::scene::the_ring(color)),
        all_inside(
            seq![crate::scene::circle_outline(crate::scene::level_ring(level) as u32, color)],
        ),
        disc_inside(120, 120, 232),
{
    let d = crate::scene::level_ring(level);
    let spare = 232 - d;
    assert(0 <= spare * spare) by (nonlinear_arith);
    lemma_disc(120, 120, d, 0, 0);
    lemma_disc(120, 120, 232, 0, 0);
}

proof fn lemma_mic(color: Color)
    ensures
        all_inside(crate::scene::the_mic(color)),
{
    lemma_disc(120, 106, 54, 0, 14);
    lemma_disc(120, 106, 44, 0, 14);
    lemma_box(94, 80, 148, 107, 40, 40);
    lemma_box(118, 128, 123, 148, 40, 40);
    lemma_box(104, 148, 137, 153, 40, 40);
    lemma_box(110, 84, 132, 122, 40, 40);
}

proof fn lemma_badges(ok: bool)
    ensures
        all_inside(crate::scene::the_wifi_dot(ok)),
        all_inside(crate::scene::the_dots(0)),
        all_inside(crate::scene::the_dots(1)),
        all_inside(crate::scene::the_dots(2)),
{
    lemma_disc(156, 36, 5, 36, 84);
    lemma_disc(106, 20, 6, 14, 100);
    lemma_disc(120, 20, 6, 14, 100);
    lemma_disc(134, 20, 6, 14, 100);
    assert forall|active: int, i: int| 0 <= i < 3 implies inside(
        #[trigger] crate::scene::the_dots(active)[i],
    ) by {
        assert(i == 0 || i == 1 || i == 2);
    }
}

proof fn lemma_battery(b: crate::ui::Battery)
    ensures
        all_inside(crate::scene::the_battery(b)),
{
    broadcast use crate::scene::lemma_every_concat;

    reveal_strlit("%");
    let pct = crate::scene::battery_percent(b);
    assert(vstd::arithmetic::power::pow(10, 3) == 1000) by {
        reveal_with_fuel(vstd::arithmetic::power::pow, 4);
    }
    crate::text::lemma_decimal_len(pct as nat, 3);
    let text = crate::text::decimal(pct as nat) + "%"@;
    lemma_box(73, 31, 93, 42, 47, 89);
    lemma_box(93, 34, 95, 39, 47, 89);
    let fill = crate::scene::battery_fill(b);
    lemma_box(75, 33, 75 + fill, 40, 47, 89);
    lemma_point(85, 33, 47, 89);
    lemma_point(80, 37, 47, 89);
    lemma_point(84, 37, 47, 89);
    lemma_point(81, 39, 47, 89);
    lemma_point(86, 35, 47, 89);
    lemma_point(82, 35, 47, 89);
    lemma_box(83 - half_width(text, Font::Small), 45, 83 + half_width(text, Font::Small), 55, 49, 75);
}

proof fn lemma_rows(rows: Seq<MenuRow>, n: nat)
    requires
        n <= rows.len() <= 3,
        forall|i: int| #![trigger rows[i]] 0 <= i < rows.len() ==> row_short(rows[i]),
    ensures
        all_inside(crate::scene::the_rows(rows, n)),
    decreases n,
{
    broadcast use crate::scene::lemma_every_concat;

    if n > 0 {
        lemma_rows(rows, (n - 1) as nat);
        reveal_strlit("-");
        reveal_strlit("+");
        let row = rows[n - 1];
        assert(row_short(row));
        let top = crate::ui::row_top(n - 1);
        let mid = top + 20;
        let text = if row.danger {
            Color::Red
        } else {
            Color::White
        };
        lemma_box(44, top, 196, top + 40, 76, 70);
        lemma_box(60, mid - 8, 70, mid + 8, 76, 70);
        lemma_box(170, mid - 8, 180, mid + 8, 76, 70);
        lemma_label(row.label@, mid, Font::Bold, text, 72, 70);
        lemma_label(row.label@, mid - 8, Font::Small, Color::Grey, 72, 70);
        if let Some(value) = row.value {
            lemma_label(value@, mid + 8, Font::Bold, text, 72, 70);
        }
        assert(all_inside(crate::scene::the_row(row, n - 1)));
    }
}

proof fn lemma_entries(entries: Seq<SettingEntry>, offset: int, n: nat)
    requires
        0 <= offset,
        n <= 3,
        n > 0 ==> offset + n <= entries.len(),
        forall|i: int|
            #![trigger entries[i]]
            0 <= i < entries.len() ==> entries[i].label@.len() <= 24,
    ensures
        all_inside(crate::scene::the_entries(entries, offset, n)),
    decreases n,
{
    broadcast use crate::scene::lemma_every_concat;

    if n > 0 {
        lemma_entries(entries, offset, (n - 1) as nat);
        let entry = entries[offset + n - 1];
        let top = 50 + (n - 1) * 40;
        lemma_label(entry.label@, top + 7, Font::Small, Color::Grey, 72, 70);
        lemma_block(entry.value@, top + 23, 28, 2, Color::Amber, 84, 70);
        lemma_block(entry.value@, top + 23, 28, 2, Color::White, 84, 70);
        lemma_point(44, top + 38, 76, 70);
        lemma_point(196, top + 38, 76, 70);
        assert(all_inside(crate::scene::the_entry(entry, n - 1, offset + n == entries.len())));
    }
}

/// Nothing that a state shows is hidden by the bezel, whatever the texts that
/// are wrapped, as long as those drawn on one line are short.
pub proof fn everything_is_inside_the_bezel(state: UiState, tick: u32)
    requires
        presentable(state),
    ensures
        all_inside(crate::scene::scene_of(state, tick)),
{
    broadcast use crate::scene::lemma_every_concat;

    match state {
        UiState::Boot { step, progress } => {
            reveal_strlit("starting up");
            lemma_rings(Color::Dim, 0);
            lemma_label("starting up"@, 120, Font::Bold, Color::White, 84, 70);
            lemma_block(step@, 146, 28, 2, Color::Grey, 84, 70);
        },
        UiState::Idle { wifi_ok, exchanges, battery } => {
            reveal_strlit("tap to talk");
            reveal_strlit(" exchange");
            reveal_strlit("s");
            lemma_rings(Color::Dim, 0);
            lemma_mic(Color::Grey);
            lemma_badges(wifi_ok);
            crate::text::lemma_decimal_u64(exchanges as u64);
            let count = crate::text::decimal(exchanges as nat) + " exchange"@ + (if exchanges
                == 1 {
                Seq::empty()
            } else {
                "s"@
            });
            lemma_label(count, 172, Font::Small, Color::Dim, 90, 57);
            lemma_label("tap to talk"@, 206, Font::Small, Color::Grey, 69, 91);
            if let Some(b) = battery {
                lemma_battery(b);
            }
        },
        UiState::Listening { level } => {
            reveal_strlit("tap send / swipe cancel");
            lemma_rings(Color::Blue, level);
            lemma_mic(Color::White);
            lemma_label("tap send / swipe cancel"@, 206, Font::Small, Color::Grey, 69, 91);
            lemma_block("listening..."@, 190, 26, 1, Color::Blue, 78, 75);
        },
        UiState::Thinking { tool } => {
            reveal_strlit("...");
            reveal_strlit("swipe to cancel");
            lemma_rings(Color::Purple, 0);
            lemma_label("..."@, 120, Font::Bold, Color::White, 84, 70);
            lemma_label("swipe to cancel"@, 206, Font::Small, Color::Grey, 69, 91);
            lemma_block(
                match tool {
                    Some(name) => name@,
                    None => "thinking..."@,
                },
                190,
                26,
                1,
                Color::Purple,
                78,
                75,
            );
        },
        UiState::Speaking { snippet } => {
            lemma_rings(Color::Green, 0);
            lemma_block(snippet@, 120, 30, 11, Color::White, 90, 65);
        },
        UiState::Error(message) => {
            reveal_strlit("!");
            lemma_rings(Color::Red, 0);
            lemma_label("!"@, 120, Font::Bold, Color::Red, 84, 70);
            lemma_block(message@, 188, 22, 2, Color::Red, 66, 79);
        },
        UiState::Menu { title, rows } => {
            lemma_rings(Color::Dim, 0);
            lemma_badges(true);
            lemma_label(title@, 34, Font::Bold, Color::White, 54, 94);
            lemma_rows(rows@, rows@.len());
        },
        UiState::Settings { entries, offset } => {
            reveal_strlit("Settings");
            reveal_strlit("swipe up/down");
            reveal_strlit("-");
            reveal_strlit(" of ");
            let end = crate::scene::last_visible(entries@.len() as int, offset as int);
            lemma_rings(Color::Dim, 0);
            lemma_badges(true);
            lemma_label("Settings"@, 32, Font::Bold, Color::White, 54, 96);
            lemma_label("swipe up/down"@, 206, Font::Small, Color::Grey, 69, 91);
            assert(vstd::arithmetic::power::pow(10, 4) == 10_000) by {
                reveal_with_fuel(vstd::arithmetic::power::pow, 5);
            }
            crate::text::lemma_decimal_len((offset + 1) as nat, 4);
            crate::text::lemma_decimal_len(end as nat, 4);
            crate::text::lemma_decimal_len(entries@.len(), 4);
            let counter = crate::text::decimal((offset + 1) as nat) + "-"@ + crate::text::decimal(
                end as nat,
            ) + " of "@ + crate::text::decimal(entries@.len());
            lemma_label(counter, 184, Font::Small, Color::Grey, 60, 70);
            lemma_entries(
                entries@,
                offset as int,
                if end < offset {
                    0
                } else {
                    (end - offset) as nat
                },
            );
        },
        UiState::Portal { ap_ssid, url, clients } => {
            reveal_strlit("Wi-Fi Setup");
            reveal_strlit("tap to cancel");
            lemma_rings(Color::Amber, 0);
            lemma_label("Wi-Fi Setup"@, 46, Font::Bold, Color::Amber, 54, 94);
            lemma_label("tap to cancel"@, 206, Font::Small, Color::Grey, 69, 91);
            lemma_block("join this network:"@, 78, 28, 1, Color::Grey, 84, 70);
            lemma_block(ap_ssid@, 96, 26, 1, Color::White, 84, 70);
            lemma_block("then browse to:"@, 124, 28, 1, Color::Grey, 84, 70);
            lemma_block(url@, 142, 26, 1, Color::White, 84, 70);
            lemma_block("device connected"@, 172, 28, 1, Color::Green, 84, 70);
            lemma_block("waiting for device"@, 172, 28, 1, Color::Grey, 84, 70);
        },
        UiState::Notice { title, body, color } => {
            lemma_rings(color.tone(), 0);
            lemma_label(title@, 94, Font::Bold, color.tone(), 99, 40);
            lemma_block(body@, 132, 28, 4, Color::White, 84, 70);
        },
    }
}

/// Whether an element is a circle or an arc drawn in a colour.
pub open spec fn is_ring_of(e: Element<Seq<char>>, color: Color) -> bool {
    e matches Element::Figure { figure: Figure::Circle { .. } | Figure::Arc { .. }, ink }
        && ink.stroke == Some(color)
}

/// The light and the ring never drift apart: a state that has a colour is drawn
/// with a ring or an arc of that colour. (At the very start of booting the arc
/// has no length yet.)
pub proof fn ring_matches_light(state: UiState, tick: u32, color: Color)
    requires
        crate::ui::accent(state) == Some(color),
        !(state matches UiState::Boot { progress, .. } && progress == 0),
    ensures
        exists|i: int|
            0 <= i < crate::scene::scene_of(state, tick).len() && is_ring_of(
                #[trigger] crate::scene::scene_of(state, tick)[i],
                color,
            ),
{
    let s = crate::scene::scene_of(state, tick);
    if state is Boot {
        assert(is_ring_of(s[1], color));
    } else {
        assert(is_ring_of(s[0], color));
    }
}

} // verus!
