//! Drawing a scene into a frame: a byte buffer of two bytes per pixel, row by
//! row, most significant byte first.
//!
//! Shapes and glyphs are rasterised by `embedded-graphics`, into the
//! `RawFrameBuf` of `lcd-async`. Angles there are floating-point numbers, so
//! an arc is left to the caller.
use crate::diff::FRAME_BYTES;
use crate::scene::{scene, Element, Figure, Font, Ink, Point};
use crate::ui::{Color, UiState};
use embedded_graphics::mono_font::ascii::{FONT_6X10, FONT_9X15_BOLD};
use embedded_graphics::mono_font::MonoTextStyle;
use embedded_graphics::pixelcolor::raw::RawU16;
use embedded_graphics::pixelcolor::Rgb565;
use embedded_graphics::prelude::{DrawTarget, Drawable, Primitive, Size};
use embedded_graphics::primitives::{
    Circle, CornerRadii, Line, PrimitiveStyle, Rectangle, RoundedRectangle, Triangle,
};
use embedded_graphics::text::{Alignment, Baseline, Text, TextStyleBuilder};
use lcd_async::raw_framebuf::RawFrameBuf;
use vstd::prelude::*;

verus! {

/// Pixels per row.
pub const FRAME_WIDTH: usize = 240;

/// Rows.
pub const FRAME_HEIGHT: usize = 240;

/// A colour as it stands in a frame.
pub open spec fn raw565(color: Color) -> u16 {
    let (r, g, b) = color.channels();
    (r * 2048 + g * 32 + b) as u16
}

/// A colour as it stands in a frame.
fn raw(color: Color) -> (n: u16)
    ensures
        n == raw565(color),
{
    let (r, g, b) = color.rgb();
    r as u16 * 2048 + g as u16 * 32 + b as u16
}

/// A frame of one colour: its first `bytes` bytes hold `color` in every pixel.
pub open spec fn flooded(frame: Seq<u8>, bytes: int, color: u16) -> Seq<u8> {
    Seq::new(
        frame.len(),
        |i: int|
            if i >= bytes {
                frame[i]
            } else if i % 2 == 0 {
                (color / 256) as u8
            } else {
                (color % 256) as u8
            },
    )
}

/// The two bytes of a pixel, in a frame with rows of `width` pixels.
pub open spec fn pixel(frame: Seq<u8>, width: int, x: int, y: int) -> (u8, u8) {
    (frame[2 * (y * width + x)], frame[2 * (y * width + x) + 1])
}

/// Whether two frames show the same on the panel outside a box.
pub open spec fn same_outside(
    before: Seq<u8>,
    after: Seq<u8>,
    panel: (usize, usize),
    b: (int, int, int, int),
) -> bool {
    forall|x: int, y: int|
        0 <= x < panel.0 && 0 <= y < panel.1 && !crate::scene::in_box(b, x, y)
            ==> #[trigger] pixel(after, panel.0 as int, x, y) == pixel(
            before,
            panel.0 as int,
            x,
            y,
        )
}

/// A frame with a box of one colour on its panel: every pixel of the panel that
/// lies in the box takes `color`, and all else stays.
pub open spec fn box_filled(
    frame: Seq<u8>,
    panel: (usize, usize),
    b: (int, int, int, int),
    color: u16,
) -> Seq<u8> {
    Seq::new(
        frame.len(),
        |i: int|
            if i >= panel.0 * panel.1 * 2 || !crate::scene::in_box(
                b,
                i / 2 % (panel.0 as int),
                i / 2 / (panel.0 as int),
            ) {
                frame[i]
            } else if i % 2 == 0 {
                (color / 256) as u8
            } else {
                (color % 256) as u8
            },
    )
}

/// A frame with a rectangle that has no border: filled, or left alone.
pub open spec fn plain_rectangle(
    frame: Seq<u8>,
    panel: (usize, usize),
    corner: (i32, i32),
    size: (u32, u32),
    fill: Option<u16>,
) -> Seq<u8> {
    match fill {
        Some(color) => box_filled(
            frame,
            panel,
            (corner.0 as int, corner.1 as int, size.0 as int, size.1 as int),
            color,
        ),
        None => frame,
    }
}

/// The frame once a `Circle` was drawn into it.
pub uninterp spec fn circle_drawn(
    frame: Seq<u8>,
    panel: (usize, usize),
    center: (i32, i32),
    diameter: u32,
    ink: (Option<u16>, Option<u16>, u32),
) -> Seq<u8>;

/// The frame once a `Rectangle` was drawn into it.
pub uninterp spec fn rectangle_drawn(
    frame: Seq<u8>,
    panel: (usize, usize),
    corner: (i32, i32),
    size: (u32, u32),
    ink: (Option<u16>, Option<u16>, u32),
) -> Seq<u8>;

/// The frame once a `RoundedRectangle` was drawn into it.
pub uninterp spec fn rounded_drawn(
    frame: Seq<u8>,
    panel: (usize, usize),
    corner: (i32, i32),
    size: (u32, u32),
    radius: u32,
    ink: (Option<u16>, Option<u16>, u32),
) -> Seq<u8>;

/// The frame once a `Triangle` was drawn into it.
pub uninterp spec fn triangle_drawn(
    frame: Seq<u8>,
    panel: (usize, usize),
    a: (i32, i32),
    b: (i32, i32),
    c: (i32, i32),
    ink: (Option<u16>, Option<u16>, u32),
) -> Seq<u8>;

/// The frame once a `Line` was drawn into it.
pub uninterp spec fn line_drawn(
    frame: Seq<u8>,
    panel: (usize, usize),
    from: (i32, i32),
    to: (i32, i32),
    ink: (Option<u16>, Option<u16>, u32),
) -> Seq<u8>;

/// The frame once a `Text` was drawn into it.
pub uninterp spec fn text_drawn(
    frame: Seq<u8>,
    panel: (usize, usize),
    text: Seq<char>,
    at: (i32, i32),
    font: usize,
    color: u16,
) -> Seq<u8>;

/// `RawFrameBuf::clear`: every pixel of the panel takes the colour, and what
/// the buffer holds beyond the panel stays.
#[verifier::external_body]
fn clear_frame(frame: &mut [u8], panel: (usize, usize), color: u16)
    requires
        panel.0 * panel.1 * 2 <= old(frame)@.len(),
    ensures
        final(frame)@ == flooded(old(frame)@, panel.0 * panel.1 * 2, color),
{
    let mut target = RawFrameBuf::<Rgb565, _>::new(&mut frame[..], panel.0, panel.1);
    target.clear(Rgb565::from(RawU16::new(color))).ok();
}

/// `Circle::with_center`, drawn in a `PrimitiveStyle` of fill colour, stroke
/// colour and stroke width. What it does to the frame has the name
/// `circle_drawn`; the buffer keeps its length.
#[verifier::external_body]
fn draw_circle(
    frame: &mut [u8],
    panel: (usize, usize),
    center: (i32, i32),
    diameter: u32,
    ink: (Option<u16>, Option<u16>, u32),
)
    requires
        panel.0 * panel.1 * 2 <= old(frame)@.len(),
        panel.0 <= 1_000,
        panel.1 <= 1_000,
        -10_000 <= center.0 <= 10_000,
        -10_000 <= center.1 <= 10_000,
        diameter <= 1_000,
        ink.2 <= 100,
    ensures
        final(frame)@ == circle_drawn(old(frame)@, panel, center, diameter, ink),
        final(frame)@.len() == old(frame)@.len(),
{
    let mut target = RawFrameBuf::<Rgb565, _>::new(&mut frame[..], panel.0, panel.1);
    let mut style = PrimitiveStyle::<Rgb565>::new();
    style.fill_color = ink.0.map(RawU16::new).map(Rgb565::from);
    style.stroke_color = ink.1.map(RawU16::new).map(Rgb565::from);
    style.stroke_width = ink.2;
    Circle::with_center(center.into(), diameter).into_styled(style).draw(&mut target).ok();
}

/// `Rectangle::new`, drawn in a `PrimitiveStyle` of fill colour, stroke colour
/// and stroke width. What it does to the frame has the name `rectangle_drawn`;
/// the buffer keeps its length. With a stroke width of 0, exactly the pixels of
/// the panel that lie in the rectangle take the fill colour, if there is one.
#[verifier::external_body]
fn draw_rectangle(
    frame: &mut [u8],
    panel: (usize, usize),
    corner: (i32, i32),
    size: (u32, u32),
    ink: (Option<u16>, Option<u16>, u32),
)
    requires
        panel.0 * panel.1 * 2 <= old(frame)@.len(),
        panel.0 <= 1_000,
        panel.1 <= 1_000,
        -10_000 <= corner.0 <= 10_000,
        -10_000 <= corner.1 <= 10_000,
        size.0 <= 1_000,
        size.1 <= 1_000,
        ink.2 <= 100,
    ensures
        final(frame)@ == rectangle_drawn(old(frame)@, panel, corner, size, ink),
        final(frame)@.len() == old(frame)@.len(),
        ink.2 == 0 ==> final(frame)@ == plain_rectangle(old(frame)@, panel, corner, size, ink.0),
{
    let mut target = RawFrameBuf::<Rgb565, _>::new(&mut frame[..], panel.0, panel.1);
    let mut style = PrimitiveStyle::<Rgb565>::new();
    style.fill_color = ink.0.map(RawU16::new).map(Rgb565::from);
    style.stroke_color = ink.1.map(RawU16::new).map(Rgb565::from);
    style.stroke_width = ink.2;
    Rectangle::new(corner.into(), size.into()).into_styled(style).draw(&mut target).ok();
}

/// `RoundedRectangle::new` with four equal corners, drawn in a `PrimitiveStyle`
/// of fill colour, stroke colour and stroke width. What it does to the frame
/// has the name `rounded_drawn`; the buffer keeps its length. With a stroke of a
/// pixel at most, nothing outside the rectangle changes.
#[verifier::external_body]
fn draw_rounded(
    frame: &mut [u8],
    panel: (usize, usize),
    corner: (i32, i32),
    size: (u32, u32),
    radius: u32,
    ink: (Option<u16>, Option<u16>, u32),
)
    requires
        panel.0 * panel.1 * 2 <= old(frame)@.len(),
        panel.0 <= 1_000,
        panel.1 <= 1_000,
        -10_000 <= corner.0 <= 10_000,
        -0x2000_0000 <= corner.1 <= 0x2000_0000,
        2 * radius <= size.0 <= 1_000,
        2 * radius <= size.1 <= 1_000,
        ink.2 <= 100,
    ensures
        final(frame)@ == rounded_drawn(old(frame)@, panel, corner, size, radius, ink),
        final(frame)@.len() == old(frame)@.len(),
        ink.2 <= 1 ==> same_outside(
            old(frame)@,
            final(frame)@,
            panel,
            (corner.0 as int, corner.1 as int, size.0 as int, size.1 as int),
        ),
{
    let mut target = RawFrameBuf::<Rgb565, _>::new(&mut frame[..], panel.0, panel.1);
    let mut style = PrimitiveStyle::<Rgb565>::new();
    style.fill_color = ink.0.map(RawU16::new).map(Rgb565::from);
    style.stroke_color = ink.1.map(RawU16::new).map(Rgb565::from);
    style.stroke_width = ink.2;
    let corners = CornerRadii::new(Size::new(radius, radius));
    let shape = RoundedRectangle::new(Rectangle::new(corner.into(), size.into()), corners);
    shape.into_styled(style).draw(&mut target).ok();
}

/// `Triangle::new`, drawn in a `PrimitiveStyle` of fill colour, stroke colour
/// and stroke width. What it does to the frame has the name `triangle_drawn`;
/// the buffer keeps its length. The rasteriser multiplies the sides with each
/// other in 32 bits, so only small triangles are drawn.
#[verifier::external_body]
fn draw_triangle(
    frame: &mut [u8],
    panel: (usize, usize),
    a: (i32, i32),
    b: (i32, i32),
    c: (i32, i32),
    ink: (Option<u16>, Option<u16>, u32),
)
    requires
        panel.0 * panel.1 * 2 <= old(frame)@.len(),
        panel.0 <= 1_000,
        panel.1 <= 1_000,
        within(a, 1_000),
        within(b, 1_000),
        within(c, 1_000),
        close_by(a, b),
        close_by(b, c),
        close_by(c, a),
        ink.2 <= 1,
    ensures
        final(frame)@ == triangle_drawn(old(frame)@, panel, a, b, c, ink),
        final(frame)@.len() == old(frame)@.len(),
{
    let mut target = RawFrameBuf::<Rgb565, _>::new(&mut frame[..], panel.0, panel.1);
    let mut style = PrimitiveStyle::<Rgb565>::new();
    style.fill_color = ink.0.map(RawU16::new).map(Rgb565::from);
    style.stroke_color = ink.1.map(RawU16::new).map(Rgb565::from);
    style.stroke_width = ink.2;
    Triangle::new(a.into(), b.into(), c.into()).into_styled(style).draw(&mut target).ok();
}

/// `Line::new`, drawn in a `PrimitiveStyle` of fill colour, stroke colour and
/// stroke width. What it does to the frame has the name `line_drawn`; the
/// buffer keeps its length. The rasteriser multiplies the squares of length and
/// width in 32 bits, so only thin lines are drawn.
#[verifier::external_body]
fn draw_line(
    frame: &mut [u8],
    panel: (usize, usize),
    from: (i32, i32),
    to: (i32, i32),
    ink: (Option<u16>, Option<u16>, u32),
)
    requires
        panel.0 * panel.1 * 2 <= old(frame)@.len(),
        panel.0 <= 1_000,
        panel.1 <= 1_000,
        within(from, 1_000),
        within(to, 1_000),
        ink.2 <= 5,
    ensures
        final(frame)@ == line_drawn(old(frame)@, panel, from, to, ink),
        final(frame)@.len() == old(frame)@.len(),
{
    let mut target = RawFrameBuf::<Rgb565, _>::new(&mut frame[..], panel.0, panel.1);
    let mut style = PrimitiveStyle::<Rgb565>::new();
    style.fill_color = ink.0.map(RawU16::new).map(Rgb565::from);
    style.stroke_color = ink.1.map(RawU16::new).map(Rgb565::from);
    style.stroke_width = ink.2;
    Line::new(from.into(), to.into()).into_styled(style).draw(&mut target).ok();
}

/// `Text::with_text_style`, drawn in one of two fonts (`FONT_6X10` is number 0,
/// `FONT_9X15_BOLD` number 1), centred on the point both ways. What it does to
/// the frame has the name `text_drawn`; the buffer keeps its length.
#[verifier::external_body]
fn draw_text(
    frame: &mut [u8],
    panel: (usize, usize),
    text: &str,
    at: (i32, i32),
    font: usize,
    color: u16,
)
    requires
        panel.0 * panel.1 * 2 <= old(frame)@.len(),
        panel.0 <= 1_000,
        panel.1 <= 1_000,
        text@.len() <= 0x0400_0000,
        -10_000 <= at.0 <= 10_000,
        -0x2000_0000 <= at.1 <= 0x2000_0000,
        font < 2,
    ensures
        final(frame)@ == text_drawn(old(frame)@, panel, text@, at, font, color),
        final(frame)@.len() == old(frame)@.len(),
{
    let mut target = RawFrameBuf::<Rgb565, _>::new(&mut frame[..], panel.0, panel.1);
    let fonts = [&FONT_6X10, &FONT_9X15_BOLD];
    let style = MonoTextStyle::new(fonts[font], Rgb565::from(RawU16::new(color)));
    let centred = TextStyleBuilder::new().alignment(Alignment::Center).baseline(Baseline::Middle);
    Text::with_text_style(text, at.into(), style, centred.build()).draw(&mut target).ok();
}

// ---------- What drawing a scene does ----------
pub open spec fn within(p: (i32, i32), limit: int) -> bool {
    -limit <= p.0 <= limit && -limit <= p.1 <= limit
}

/// Whether two corners are close enough to each other for a triangle.
pub open spec fn close_by(p: (i32, i32), q: (i32, i32)) -> bool {
    -100 <= p.0 - q.0 <= 100 && -100 <= p.1 - q.1 <= 100
}

pub open spec fn xy(p: Point) -> (i32, i32) {
    (p.x, p.y)
}

/// An ink as it is handed to the rasteriser.
pub open spec fn raw_ink(ink: Ink) -> (Option<u16>, Option<u16>, u32) {
    (
        match ink.fill {
            Some(c) => Some(raw565(c)),
            None => None,
        },
        match ink.stroke {
            Some(c) => Some(raw565(c)),
            None => None,
        },
        ink.stroke_width,
    )
}

/// The number of a font.
pub open spec fn font_number(font: Font) -> usize {
    match font {
        Font::Small => 0,
        Font::Bold => 1,
    }
}

pub open spec fn is_arc(e: Element<Seq<char>>) -> bool {
    e matches Element::Figure { figure: Figure::Arc { .. }, .. }
}

/// The frame once one element was drawn. An arc is left to the caller.
pub open spec fn drawn(frame: Seq<u8>, e: Element<Seq<char>>) -> Seq<u8> {
    let panel = (FRAME_WIDTH, FRAME_HEIGHT);
    match e {
        Element::Figure { figure, ink } => match figure {
            Figure::Circle { center, diameter } => circle_drawn(
                frame,
                panel,
                xy(center),
                diameter,
                raw_ink(ink),
            ),
            Figure::Rect { corner, width, height } => if ink.stroke_width == 0 {
                plain_rectangle(frame, panel, xy(corner), (width, height), raw_ink(ink).0)
            } else {
                rectangle_drawn(frame, panel, xy(corner), (width, height), raw_ink(ink))
            },
            Figure::Rounded { corner, width, height, radius } => rounded_drawn(
                frame,
                panel,
                xy(corner),
                (width, height),
                radius,
                raw_ink(ink),
            ),
            Figure::Triangle { a, b, c } => triangle_drawn(
                frame,
                panel,
                xy(a),
                xy(b),
                xy(c),
                raw_ink(ink),
            ),
            Figure::Line { from, to } => line_drawn(frame, panel, xy(from), xy(to), raw_ink(ink)),
            Figure::Arc { .. } => frame,
        },
        Element::Label { text, at, font, color } => text_drawn(
            frame,
            panel,
            text,
            xy(at),
            font_number(font),
            raw565(color),
        ),
    }
}

/// The frame once the elements from `from` up to `to` were drawn in order.
pub open spec fn all_drawn(
    frame: Seq<u8>,
    scene: Seq<Element<Seq<char>>>,
    from: int,
    to: int,
) -> Seq<u8>
    decreases to - from,
{
    if to <= from {
        frame
    } else {
        drawn(all_drawn(frame, scene, from, to - 1), scene[to - 1])
    }
}

/// Whether drawing an element leaves alone what lies outside its box, if it is a
/// box with a border of a pixel at most.
pub open spec fn stays_in_box(before: Seq<u8>, after: Seq<u8>, e: Element<Seq<char>>) -> bool {
    crate::scene::box_of(e) is Some && e->ink.stroke_width <= 1 ==> same_outside(
        before,
        after,
        (FRAME_WIDTH, FRAME_HEIGHT),
        crate::scene::box_of(e)->0,
    )
}

/// Whether element `k` of a scene that is drawn from `from` on stays in its box.
pub open spec fn step_stays_in_box(
    frame: Seq<u8>,
    scene: Seq<Element<Seq<char>>>,
    from: int,
    k: int,
) -> bool {
    stays_in_box(
        all_drawn(frame, scene, from, k),
        all_drawn(frame, scene, from, k + 1),
        scene[k],
    )
}

/// Whether the elements from `from` up to `to` stay in their boxes as they are
/// drawn.
pub open spec fn all_stay_in_box(
    frame: Seq<u8>,
    scene: Seq<Element<Seq<char>>>,
    from: int,
    to: int,
) -> bool {
    forall|k: int| from <= k < to ==> #[trigger] step_stays_in_box(frame, scene, from, k)
}

/// Whether a pixel changes as element `k` of a scene is drawn.
pub open spec fn paints(
    frame: Seq<u8>,
    scene: Seq<Element<Seq<char>>>,
    k: int,
    x: int,
    y: int,
) -> bool {
    pixel(all_drawn(frame, scene, 0, k + 1), FRAME_WIDTH as int, x, y) != pixel(
        all_drawn(frame, scene, 0, k),
        FRAME_WIDTH as int,
        x,
        y,
    )
}

/// Whether what the boxes of a menu paint can be tapped: each is the box of one
/// of `count` rows, and every pixel that it changes lies on that row.
pub open spec fn painted_rows_can_be_tapped(
    frame: Seq<u8>,
    scene: Seq<Element<Seq<char>>>,
    count: int,
) -> bool {
    forall|k: int, x: int, y: int|
        0 <= k < scene.len() && crate::scene::box_of(scene[k]) is Some && 0 <= x < FRAME_WIDTH
            && 0 <= y < FRAME_HEIGHT && #[trigger] paints(frame, scene, k, x, y) ==> exists|i: int|
            0 <= i < count && crate::scene::box_of(scene[k]) == Some(
                #[trigger] crate::scene::row_box(i),
            ) && crate::ui::on_row(x, y, i)
}

/// Whether an element lies within what can be drawn.
pub open spec fn placeable(e: Element<Seq<char>>) -> bool {
    match e {
        Element::Figure { figure, ink } => {
            &&& ink.stroke_width <= 100
            &&& match figure {
                Figure::Circle { center, diameter } => within(xy(center), 10_000) && diameter
                    <= 1_000,
                Figure::Rect { corner, width, height } => within(xy(corner), 10_000) && width
                    <= 1_000 && height <= 1_000,
                Figure::Rounded { corner, width, height, radius } => {
                    &&& -10_000 <= corner.x <= 10_000
                    &&& -0x2000_0000 <= corner.y <= 0x2000_0000
                    &&& 2 * radius <= width <= 1_000
                    &&& 2 * radius <= height <= 1_000
                },
                Figure::Triangle { a, b, c } => {
                    &&& within(xy(a), 1_000) && within(xy(b), 1_000) && within(xy(c), 1_000)
                    &&& close_by(xy(a), xy(b)) && close_by(xy(b), xy(c)) && close_by(xy(c), xy(a))
                    &&& ink.stroke_width <= 1
                },
                Figure::Line { from, to } => within(xy(from), 1_000) && within(xy(to), 1_000)
                    && ink.stroke_width <= 5,
                Figure::Arc { .. } => true,
            }
        },
        Element::Label { text, at, .. } => {
            &&& text.len() <= 0x0400_0000
            &&& -10_000 <= at.x <= 10_000
            &&& -0x2000_0000 <= at.y <= 0x2000_0000
        },
    }
}

/// An ink as it is handed to the rasteriser.
fn ink_parts(ink: Ink) -> (r: (Option<u16>, Option<u16>, u32))
    ensures
        r == raw_ink(ink),
{
    let fill = match ink.fill {
        Some(c) => Some(raw(c)),
        None => None,
    };
    let stroke = match ink.stroke {
        Some(c) => Some(raw(c)),
        None => None,
    };
    (fill, stroke, ink.stroke_width)
}

/// Draws one element, unless it is an arc. Returns whether it was drawn.
fn draw_element(frame: &mut [u8], e: &Element<String>) -> (done: bool)
    requires
        old(frame)@.len() >= FRAME_BYTES,
        placeable(crate::scene::shown(*e)),
    ensures
        final(frame)@ == drawn(old(frame)@, crate::scene::shown(*e)),
        final(frame)@.len() == old(frame)@.len(),
        stays_in_box(old(frame)@, final(frame)@, crate::scene::shown(*e)),
        done == !is_arc(crate::scene::shown(*e)),
{
    let panel: (usize, usize) = (FRAME_WIDTH, FRAME_HEIGHT);
    assert(panel.0 * panel.1 * 2 == FRAME_BYTES) by (nonlinear_arith)
        requires
            panel.0 == 240,
            panel.1 == 240,
    ;
    match e {
        Element::Figure { figure, ink } => {
            let ink = ink_parts(*ink);
            match figure {
                Figure::Circle { center, diameter } => {
                    draw_circle(frame, panel, (center.x, center.y), *diameter, ink);
                },
                Figure::Rect { corner, width, height } => {
                    draw_rectangle(frame, panel, (corner.x, corner.y), (*width, *height), ink);
                },
                Figure::Rounded { corner, width, height, radius } => {
                    draw_rounded(
                        frame,
                        panel,
                        (corner.x, corner.y),
                        (*width, *height),
                        *radius,
                        ink,
                    );
                },
                Figure::Triangle { a, b, c } => {
                    draw_triangle(frame, panel, (a.x, a.y), (b.x, b.y), (c.x, c.y), ink);
                },
                Figure::Line { from, to } => {
                    draw_line(frame, panel, (from.x, from.y), (to.x, to.y), ink);
                },
                Figure::Arc { .. } => {
                    return false;
                },
            }
        },
        Element::Label { text, at, font, color } => {
            let number: usize = match font {
                Font::Small => 0,
                Font::Bold => 1,
            };
            draw_text(frame, panel, text, (at.x, at.y), number, raw(*color));
        },
    }
    true
}

/// Draws elements from `from` on, up to the next arc. Returns where it stopped:
/// the place of that arc, or the end.
pub fn paint(frame: &mut [u8], elements: &Vec<Element<String>>, from: usize) -> (stop: usize)
    requires
        old(frame)@.len() >= FRAME_BYTES,
        from <= elements@.len(),
        forall|i: int|
            #![trigger elements@[i]]
            0 <= i < elements@.len() ==> placeable(crate::scene::shown(elements@[i])),
    ensures
        from <= stop <= elements@.len(),
        stop < elements@.len() ==> is_arc(crate::scene::shown(elements@[stop as int])),
        forall|i: int|
            #![trigger elements@[i]]
            from <= i < stop ==> !is_arc(crate::scene::shown(elements@[i])),
        final(frame)@ == all_drawn(
            old(frame)@,
            crate::scene::shows(elements@),
            from as int,
            stop as int,
        ),
        final(frame)@.len() == old(frame)@.len(),
        all_stay_in_box(old(frame)@, crate::scene::shows(elements@), from as int, stop as int),
{
    let mut i: usize = from;
    while i < elements.len()
        invariant
            from <= i <= elements@.len(),
            frame@.len() == old(frame)@.len() >= FRAME_BYTES,
            forall|k: int|
                #![trigger elements@[k]]
                0 <= k < elements@.len() ==> placeable(crate::scene::shown(elements@[k])),
            forall|k: int|
                #![trigger elements@[k]]
                from <= k < i ==> !is_arc(crate::scene::shown(elements@[k])),
            frame@ == all_drawn(
                old(frame)@,
                crate::scene::shows(elements@),
                from as int,
                i as int,
            ),
            all_stay_in_box(old(frame)@, crate::scene::shows(elements@), from as int, i as int),
        decreases elements@.len() - i,
    {
        if !draw_element(frame, &elements[i]) {
            return i;
        }
        assert(crate::scene::shows(elements@)[i as int] == crate::scene::shown(
            elements@[i as int],
        ));
        assert(step_stays_in_box(
            old(frame)@,
            crate::scene::shows(elements@),
            from as int,
            i as int,
        ));
        i += 1;
    }
    i
}

pub open spec fn all_placeable(s: Seq<Element<Seq<char>>>) -> bool {
    crate::scene::every(s, |e: Element<Seq<char>>| placeable(e))
}

proof fn lemma_block_placeable(
    text: Seq<char>,
    center_y: int,
    max_chars: nat,
    max_lines: nat,
    color: Color,
)
    requires
        0 < max_chars <= 100,
        0 < max_lines <= 100,
        0 <= center_y <= 1_000,
    ensures
        all_placeable(crate::scene::the_block(text, center_y, max_chars, max_lines, color)),
{
    crate::wrap::wrapped_text_fits(text, max_chars, max_lines);
}

proof fn lemma_rows_placeable(rows: Seq<crate::ui::MenuRow>, n: nat)
    requires
        n <= rows.len() <= 0x80_0000,
        forall|i: int|
            #![trigger rows[i]]
            0 <= i < rows.len() ==> crate::scene::row_fits(rows[i]),
    ensures
        all_placeable(crate::scene::the_rows(rows, n)),
    decreases n,
{
    if n > 0 {
        lemma_rows_placeable(rows, (n - 1) as nat);
        let row = crate::scene::the_row(rows[n - 1], n - 1);
        assert(all_placeable(row)) by {
            reveal_strlit("-");
            reveal_strlit("+");
            assert(crate::scene::row_fits(rows[n - 1]));
        }
        crate::scene::lemma_every_concat(
            crate::scene::the_rows(rows, (n - 1) as nat),
            row,
            |e: Element<Seq<char>>| placeable(e),
        );
    }
}

proof fn lemma_entries_placeable(entries: Seq<crate::ui::SettingEntry>, offset: int, n: nat)
    requires
        0 <= offset,
        n <= 3,
        n > 0 ==> offset + n <= entries.len(),
        forall|i: int|
            #![trigger entries[i]]
            0 <= i < entries.len() ==> entries[i].label@.len() <= crate::scene::MAX_LABEL,
    ensures
        all_placeable(crate::scene::the_entries(entries, offset, n)),
    decreases n,
{
    broadcast use crate::scene::lemma_every_concat;

    if n > 0 {
        lemma_entries_placeable(entries, offset, (n - 1) as nat);
        let entry = entries[offset + n - 1];
        let top = 50 + (n - 1) * 40;
        lemma_block_placeable(entry.value@, top + 23, 28, 2, Color::Amber);
        lemma_block_placeable(entry.value@, top + 23, 28, 2, Color::White);
        let head = seq![
            crate::scene::caption(entry.label@, 120, top + 7, Font::Small, Color::Grey),
        ];
        assert(all_placeable(head));
        assert(all_placeable(
            crate::scene::the_entry(entry, n - 1, offset + n == entries.len()),
        ));
    }
}

proof fn lemma_pieces_placeable(color: Color, active: int)
    requires
        0 <= active < 3,
    ensures
        all_placeable(crate::scene::the_ring(color)),
        all_placeable(crate::scene::the_mic(color)),
        all_placeable(crate::scene::the_dots(active)),
{
}

proof fn lemma_label_placeable(text: Seq<char>, y: int, font: Font, color: Color)
    requires
        text.len() <= crate::scene::MAX_LABEL,
        0 <= y <= 1_000,
    ensures
        all_placeable(seq![crate::scene::caption(text, 120, y, font, color)]),
{
}

/// Everything that can be shown can be drawn.
pub proof fn scenes_are_placeable(state: UiState, tick: u32)
    requires
        crate::scene::drawable(state),
    ensures
        all_placeable(crate::scene::scene_of(state, tick)),
{
    broadcast use crate::scene::lemma_every_concat;

    match state {
        UiState::Boot { step, progress } => {
            reveal_strlit("starting up");
            lemma_pieces_placeable(Color::Dim, 0);
            lemma_label_placeable("starting up"@, 120, Font::Bold, Color::White);
            lemma_block_placeable(step@, 146, 28, 2, Color::Grey);
        },
        UiState::Idle { wifi_ok, exchanges, battery } => {
            reveal_strlit("tap to talk");
            reveal_strlit(" exchange");
            reveal_strlit("s");
            reveal_strlit("%");
            lemma_pieces_placeable(Color::Dim, 0);
            lemma_pieces_placeable(Color::Grey, 0);
            crate::text::lemma_decimal_u64(exchanges as u64);
            lemma_label_placeable("tap to talk"@, 206, Font::Small, Color::Grey);
            if let Some(b) = battery {
                crate::text::lemma_decimal_u64(crate::scene::battery_percent(b) as u64);
                assert(all_placeable(crate::scene::the_battery(b)));
            }
            assert(all_placeable(crate::scene::the_wifi_dot(wifi_ok)));
        },
        UiState::Listening { level } => {
            reveal_strlit("tap send / swipe cancel");
            lemma_pieces_placeable(Color::White, 0);
            lemma_label_placeable("tap send / swipe cancel"@, 206, Font::Small, Color::Grey);
            lemma_block_placeable("listening..."@, 190, 26, 1, Color::Blue);
        },
        UiState::Thinking { tool } => {
            reveal_strlit("...");
            reveal_strlit("swipe to cancel");
            lemma_pieces_placeable(Color::Purple, 0);
            lemma_label_placeable("swipe to cancel"@, 206, Font::Small, Color::Grey);
            lemma_block_placeable(
                match tool {
                    Some(name) => name@,
                    None => "thinking..."@,
                },
                190,
                26,
                1,
                Color::Purple,
            );
        },
        UiState::Speaking { snippet } => {
            lemma_pieces_placeable(Color::Green, 0);
            lemma_block_placeable(snippet@, 120, 30, 11, Color::White);
        },
        UiState::Error(message) => {
            reveal_strlit("!");
            lemma_pieces_placeable(Color::Red, 0);
            lemma_label_placeable("!"@, 120, Font::Bold, Color::Red);
            lemma_block_placeable(message@, 188, 22, 2, Color::Red);
        },
        UiState::Menu { title, rows } => {
            lemma_pieces_placeable(Color::Dim, 1);
            lemma_label_placeable(title@, 34, Font::Bold, Color::White);
            lemma_rows_placeable(rows@, rows@.len());
        },
        UiState::Settings { entries, offset } => {
            reveal_strlit("Settings");
            reveal_strlit("swipe up/down");
            reveal_strlit("-");
            reveal_strlit(" of ");
            let end = crate::scene::last_visible(entries@.len() as int, offset as int);
            lemma_pieces_placeable(Color::Dim, 2);
            lemma_label_placeable("Settings"@, 32, Font::Bold, Color::White);
            lemma_label_placeable("swipe up/down"@, 206, Font::Small, Color::Grey);
            crate::text::lemma_decimal_u64((offset + 1) as u64);
            crate::text::lemma_decimal_u64(end as u64);
            crate::text::lemma_decimal_u64(entries.len() as u64);
            lemma_entries_placeable(
                entries@,
                offset as int,
                if end < offset {
                    0
                } else {
                    (end - offset) as nat
                },
            );
        },
        UiState::Portal { ap_ssid, url, clients } => {
            reveal_strlit("Wi-Fi Setup");
            reveal_strlit("tap to cancel");
            lemma_pieces_placeable(Color::Amber, 0);
            lemma_label_placeable("Wi-Fi Setup"@, 46, Font::Bold, Color::Amber);
            lemma_label_placeable("tap to cancel"@, 206, Font::Small, Color::Grey);
            lemma_block_placeable("join this network:"@, 78, 28, 1, Color::Grey);
            lemma_block_placeable(ap_ssid@, 96, 26, 1, Color::White);
            lemma_block_placeable("then browse to:"@, 124, 28, 1, Color::Grey);
            lemma_block_placeable(url@, 142, 26, 1, Color::White);
            lemma_block_placeable("device connected"@, 172, 28, 1, Color::Green);
            lemma_block_placeable("waiting for device"@, 172, 28, 1, Color::Grey);
        },
        UiState::Notice { title, body, color } => {
            lemma_pieces_placeable(color.tone(), 0);
            lemma_label_placeable(title@, 94, Font::Bold, color.tone());
            lemma_block_placeable(body@, 132, 28, 4, Color::White);
        },
    }
}

proof fn lemma_rows_without_arc(rows: Seq<crate::ui::MenuRow>, n: nat)
    requires
        n <= rows.len(),
    ensures
        forall|k: int|
            0 <= k < crate::scene::the_rows(rows, n).len() ==> !is_arc(
                #[trigger] crate::scene::the_rows(rows, n)[k],
            ),
    decreases n,
{
    if n > 0 {
        lemma_rows_without_arc(rows, (n - 1) as nat);
        let before = crate::scene::the_rows(rows, (n - 1) as nat);
        let row = crate::scene::the_row(rows[n - 1], n - 1);
        let all = crate::scene::the_rows(rows, n);
        assert forall|k: int| 0 <= k < all.len() implies !is_arc(#[trigger] all[k]) by {
            if k < before.len() {
                assert(all[k] == before[k]);
            } else {
                assert(all[k] == row[k - before.len()]);
            }
        }
    }
}

/// A menu is drawn to its end.
proof fn lemma_no_arc_in_a_menu(state: UiState, tick: u32)
    requires
        state is Menu,
    ensures
        forall|k: int|
            0 <= k < crate::scene::scene_of(state, tick).len() ==> !is_arc(
                #[trigger] crate::scene::scene_of(state, tick)[k],
            ),
{
    lemma_rows_without_arc(state->rows@, state->rows@.len());
}

proof fn lemma_painted_rows(frame: Seq<u8>, state: UiState, tick: u32)
    requires
        crate::scene::drawable(state),
        state is Menu,
        all_stay_in_box(
            frame,
            crate::scene::scene_of(state, tick),
            0,
            crate::scene::scene_of(state, tick).len() as int,
        ),
    ensures
        painted_rows_can_be_tapped(
            frame,
            crate::scene::scene_of(state, tick),
            state->rows@.len() as int,
        ),
{
    let all = crate::scene::scene_of(state, tick);
    let count = state->rows@.len() as int;
    assert forall|k: int, x: int, y: int|
        0 <= k < all.len() && crate::scene::box_of(all[k]) is Some && 0 <= x < FRAME_WIDTH && 0 <= y
            < FRAME_HEIGHT && #[trigger] paints(frame, all, k, x, y) implies exists|i: int|
        0 <= i < count && crate::scene::box_of(all[k]) == Some(#[trigger] crate::scene::row_box(i))
            && crate::ui::on_row(x, y, i) by {
        crate::scene::drawn_rows_are_the_tappable_rows(state, tick, x, y);
        assert(crate::scene::boxes_a_row(all[k], count));
        let i = choose|i: int|
            0 <= i < count && crate::scene::box_of(all[k]) == Some(
                #[trigger] crate::scene::row_box(i),
            );
        assert(step_stays_in_box(frame, all, 0, k));
        let before = all_drawn(frame, all, 0, k);
        let after = all_drawn(frame, all, 0, k + 1);
        let panel = (FRAME_WIDTH, FRAME_HEIGHT);
        assert(same_outside(before, after, panel, crate::scene::row_box(i)));
        if !crate::scene::in_box(crate::scene::row_box(i), x, y) {
            assert(pixel(after, panel.0 as int, x, y) == pixel(before, panel.0 as int, x, y));
        }
    }
}

/// Draws a state into `frame`, on a cleared panel, up to its first arc. Returns
/// the scene and where drawing stopped; `paint` goes on from there once the
/// arc is drawn. Every pixel that the box of a menu row paints can be tapped as
/// that row.
pub fn render(frame: &mut [u8], state: &UiState, anim_tick: u32) -> (r: (
    Vec<Element<String>>,
    usize,
))
    requires
        old(frame)@.len() >= FRAME_BYTES,
        crate::scene::drawable(*state),
    ensures
        crate::scene::shows(r.0@) == crate::scene::scene_of(*state, anim_tick),
        forall|i: int|
            #![trigger r.0@[i]]
            0 <= i < r.0@.len() ==> placeable(crate::scene::shown(r.0@[i])),
        r.1 <= r.0@.len(),
        r.1 < r.0@.len() ==> is_arc(crate::scene::scene_of(*state, anim_tick)[r.1 as int]),
        forall|i: int|
            #![trigger crate::scene::scene_of(*state, anim_tick)[i]]
            0 <= i < r.1 ==> !is_arc(crate::scene::scene_of(*state, anim_tick)[i]),
        final(frame)@ == all_drawn(
            flooded(old(frame)@, FRAME_BYTES as int, raw565(Color::Background)),
            crate::scene::scene_of(*state, anim_tick),
            0,
            r.1 as int,
        ),
        final(frame)@.len() == old(frame)@.len(),
        state is Menu ==> r.1 == r.0@.len() && painted_rows_can_be_tapped(
            flooded(old(frame)@, FRAME_BYTES as int, raw565(Color::Background)),
            crate::scene::scene_of(*state, anim_tick),
            state->rows@.len() as int,
        ),
{
    let elements = scene(state, anim_tick);
    clear_frame(frame, (FRAME_WIDTH, FRAME_HEIGHT), raw(Color::Background));
    proof {
        let all = crate::scene::scene_of(*state, anim_tick);
        scenes_are_placeable(*state, anim_tick);
        assert forall|i: int| #![trigger elements@[i]] 0 <= i < elements@.len() implies placeable(
            crate::scene::shown(elements@[i]),
        ) by {
            assert(all[i] == crate::scene::shown(elements@[i]));
        }
    }
    let stop = paint(frame, &elements, 0);
    proof {
        let all = crate::scene::scene_of(*state, anim_tick);
        assert forall|i: int| #![trigger all[i]] 0 <= i < stop implies !is_arc(all[i]) by {
            assert(all[i] == crate::scene::shown(elements@[i]));
        }
        if stop < elements@.len() {
            assert(all[stop as int] == crate::scene::shown(elements@[stop as int]));
        }
        if state is Menu {
            lemma_no_arc_in_a_menu(*state, anim_tick);
            lemma_painted_rows(
                flooded(old(frame)@, FRAME_BYTES as int, raw565(Color::Background)),
                *state,
                anim_tick,
            );
        }
    }
    (elements, stop)
}

/// A colour stands in a frame with its channels side by side: five bits of red, six
/// of green and five of blue, from the top.
pub proof fn colors_stand_in_565(color: Color)
    ensures
        ({
            let (r, g, b) = color.channels();
            let n = raw565(color);
            n / 2048 == r && n / 32 % 64 == g && n % 32 == b
        }),
{
}

/// Elements are drawn in order, each over those before it: drawing some and then
/// the rest is drawing them all, and one more comes on top.
pub proof fn elements_are_drawn_in_order(
    frame: Seq<u8>,
    scene: Seq<Element<Seq<char>>>,
    from: int,
    mid: int,
    to: int,
)
    requires
        from <= mid <= to,
    ensures
        all_drawn(all_drawn(frame, scene, from, mid), scene, mid, to) == all_drawn(
            frame,
            scene,
            from,
            to,
        ),
        all_drawn(frame, scene, mid, mid) == frame,
        all_drawn(frame, scene, from, to + 1) == drawn(all_drawn(frame, scene, from, to), scene[to]),
    decreases to - mid,
{
    if mid < to {
        elements_are_drawn_in_order(frame, scene, from, mid, to - 1);
    }
}

} // verus!
