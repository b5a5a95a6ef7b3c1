//! Sending only what changed on the display.
//!
//! A frame is compared, four bytes at a time, with a copy of what the panel
//! shows. Where little changed, only the changed stretches of each row are
//! sent; where nothing changed, nothing is; and past a third of the panel one
//! transfer of the whole frame is cheaper than many small ones.
use vstd::prelude::*;

verus! {

/// Bytes in one frame.
pub const FRAME_BYTES: usize = 115_200;

/// Changed bytes at which one full transfer is sent instead.
pub const FULL_FLUSH_THRESHOLD: usize = 38_400;

/// Rows of the panel.
pub const ROWS: usize = 240;

/// Words of four bytes per row.
pub const ROW_WORDS: usize = 120;

/// Words per frame.
pub const FRAME_WORDS: usize = 28_800;

/// A part of the panel to send: pixels `x..x + width` of rows `y..y + height`.
#[derive(Debug, Clone, Copy, PartialEq, Eq, Structural)]
pub struct Window {
    pub x: u16,
    pub y: u16,
    pub width: u16,
    pub height: u16,
}

/// The whole panel.
pub open spec fn whole() -> Window {
    Window { x: 0, y: 0, width: 240, height: 240 }
}

/// Whether the `k`th word of two frames differs.
pub open spec fn differs(prev: Seq<u8>, frame: Seq<u8>, k: int) -> bool {
    ||| prev[4 * k] != frame[4 * k]
    ||| prev[4 * k + 1] != frame[4 * k + 1]
    ||| prev[4 * k + 2] != frame[4 * k + 2]
    ||| prev[4 * k + 3] != frame[4 * k + 3]
}

/// How many of the first `n` words differ.
pub open spec fn changed(prev: Seq<u8>, frame: Seq<u8>, n: nat) -> nat
    decreases n,
{
    if n == 0 {
        0
    } else {
        changed(prev, frame, (n - 1) as nat) + if differs(prev, frame, n - 1) {
            1nat
        } else {
            0
        }
    }
}

/// Whether words `start..end` are a longest stretch of changed words of row `y`.
pub open spec fn is_run(prev: Seq<u8>, frame: Seq<u8>, y: int, start: int, end: int) -> bool {
    &&& 0 <= y < ROWS
    &&& 0 <= start < end <= ROW_WORDS
    &&& forall|i: int|
        start <= i < end ==> #[trigger] differs(prev, frame, word_at(y, i))
    &&& start > 0 ==> !differs(prev, frame, word_at(y, start - 1))
    &&& end < ROW_WORDS ==> !differs(prev, frame, word_at(y, end))
}

/// The number of word `i` of row `y`.
pub open spec fn word_at(y: int, i: int) -> int {
    y * 120 + i
}

/// The window of words `start..end` of row `y`: two pixels to a word.
pub open spec fn run_window(y: int, start: int, end: int) -> Window {
    Window {
        x: (2 * start) as u16,
        y: y as u16,
        width: (2 * (end - start)) as u16,
        height: 1,
    }
}

/// The word at which a window begins.
pub open spec fn first_word(w: Window) -> int {
    w.x as int / 2
}

/// One past the word at which a window ends.
pub open spec fn end_word(w: Window) -> int {
    (w.x + w.width) / 2
}

/// Whether a window holds a longest stretch of changed words, and nothing else.
pub open spec fn is_run_window(prev: Seq<u8>, frame: Seq<u8>, w: Window) -> bool {
    &&& is_run(prev, frame, w.y as int, first_word(w), end_word(w))
    &&& w == run_window(w.y as int, first_word(w), end_word(w))
}

/// Whether a window stands ahead of another, row by row and left to right.
pub open spec fn ahead(a: Window, b: Window) -> bool {
    a.y < b.y || (a.y == b.y && end_word(a) <= first_word(b))
}

/// Whether the windows are all the longest stretches of changed words, each
/// once, in order.
pub open spec fn is_run_list(prev: Seq<u8>, frame: Seq<u8>, ws: Seq<Window>) -> bool {
    &&& forall|i: int| 0 <= i < ws.len() ==> is_run_window(prev, frame, #[trigger] ws[i])
    &&& forall|i: int, j: int| 0 <= i < j < ws.len() ==> ahead(#[trigger] ws[i], #[trigger] ws[j])
    &&& forall|y: int, start: int, end: int| #[trigger]
        is_run(prev, frame, y, start, end) ==> ws.contains(run_window(y, start, end))
}

/// Whether word `k` of two frames differs.
fn word_differs(prev: &[u8], frame: &[u8], k: usize) -> (r: bool)
    requires
        prev@.len() == FRAME_BYTES,
        frame@.len() == FRAME_BYTES,
        k < FRAME_WORDS,
    ensures
        r == differs(prev@, frame@, k as int),
{
    let b: usize = 4 * k;
    prev[b] != frame[b] || prev[b + 1] != frame[b + 1] || prev[b + 2] != frame[b + 2] || prev[b
        + 3] != frame[b + 3]
}

/// How many words of two frames differ.
fn count_changed(prev: &[u8], frame: &[u8]) -> (n: usize)
    requires
        prev@.len() == FRAME_BYTES,
        frame@.len() == FRAME_BYTES,
    ensures
        n == changed(prev@, frame@, FRAME_WORDS as nat),
        n <= FRAME_WORDS,
{
    let mut n: usize = 0;
    let mut k: usize = 0;
    while k < FRAME_WORDS
        invariant
            prev@.len() == FRAME_BYTES,
            frame@.len() == FRAME_BYTES,
            n <= k <= FRAME_WORDS,
            n == changed(prev@, frame@, k as nat),
        decreases FRAME_WORDS - k,
    {
        if word_differs(prev, frame, k) {
            n += 1;
        }
        k += 1;
    }
    n
}

/// The window of words `start..end` of row `y`.
fn run_of(y: usize, start: usize, end: usize) -> (w: Window)
    requires
        y < ROWS,
        start < end <= ROW_WORDS,
    ensures
        w == run_window(y as int, start as int, end as int),
        w.y == y,
        first_word(w) == start,
        end_word(w) == end,
{
    Window { x: (start * 2) as u16, y: y as u16, width: ((end - start) * 2) as u16, height: 1 }
}

/// What is known of the windows found once `words` words of row `y`, and all
/// rows above it, were scanned, with a stretch open since `open`.
spec fn scanned(
    prev: Seq<u8>,
    frame: Seq<u8>,
    ws: Seq<Window>,
    y: int,
    words: int,
    open: int,
) -> bool {
    &&& forall|i: int| 0 <= i < ws.len() ==> is_run_window(prev, frame, #[trigger] ws[i])
    &&& forall|i: int, j: int| 0 <= i < j < ws.len() ==> ahead(#[trigger] ws[i], #[trigger] ws[j])
    &&& forall|i: int|
        0 <= i < ws.len() ==> (#[trigger] ws[i]).y < y || (ws[i].y == y && end_word(ws[i])
            <= open)
    &&& forall|r: int, start: int, end: int| #[trigger]
        is_run(prev, frame, r, start, end) && (r < y || (r == y && end < words))
            ==> ws.contains(run_window(r, start, end))
}

/// A new window at the end keeps all windows.
proof fn lemma_push_keeps(ws: Seq<Window>, w: Window)
    ensures
        forall|v: Window| ws.contains(v) ==> #[trigger] ws.push(w).contains(v),
        ws.push(w).contains(w),
{
    assert forall|v: Window| ws.contains(v) implies #[trigger] ws.push(w).contains(v) by {
        let i = ws.index_of(v);
        assert(ws.push(w)[i] == v);
    }
    assert(ws.push(w)[ws.len() as int] == w);
}

/// Closing the open stretch lists the one run that ends there.
proof fn lemma_close(prev: Seq<u8>, frame: Seq<u8>, ws: Seq<Window>, y: int, start: int, end: int)
    requires
        scanned(prev, frame, ws, y, end, start),
        is_run(prev, frame, y, start, end),
    ensures
        scanned(prev, frame, ws.push(run_window(y, start, end)), y, end + 1, end),
{
    let w = run_window(y, start, end);
    lemma_push_keeps(ws, w);
    assert(first_word(w) == start && end_word(w) == end);
    assert forall|r: int, s: int, e: int| #[trigger]
        is_run(prev, frame, r, s, e) && (r < y || (r == y && e < end + 1)) implies ws.push(
        w,
    ).contains(run_window(r, s, e)) by {
        if r == y && e == end {
            if s < start {
                assert(differs(prev, frame, word_at(y, start - 1)));
            } else if s > start {
                assert(differs(prev, frame, word_at(y, s - 1)));
            }
        }
    }
}

/// The changed stretches of row `y`, appended to those of the rows above.
fn row_runs(prev: &[u8], frame: &[u8], y: usize, ws: &mut Vec<Window>)
    requires
        prev@.len() == FRAME_BYTES,
        frame@.len() == FRAME_BYTES,
        y < ROWS,
        scanned(prev@, frame@, old(ws)@, y as int, 0, 0),
    ensures
        scanned(prev@, frame@, final(ws)@, y + 1, 0, 0),
{
    let mut open: Option<usize> = None;
    let mut i: usize = 0;
    while i < ROW_WORDS
        invariant
            prev@.len() == FRAME_BYTES,
            frame@.len() == FRAME_BYTES,
            y < ROWS,
            i <= ROW_WORDS,
            match open {
                Some(start) => {
                    &&& start < i
                    &&& scanned(prev@, frame@, ws@, y as int, i as int, start as int)
                    &&& forall|j: int|
                        start <= j < i ==> #[trigger] differs(prev@, frame@, word_at(y as int, j))
                    &&& start > 0 ==> !differs(prev@, frame@, word_at(y as int, start - 1))
                },
                None => {
                    &&& scanned(prev@, frame@, ws@, y as int, i as int, i as int)
                    &&& i > 0 ==> !differs(prev@, frame@, word_at(y as int, i - 1))
                },
            },
        decreases ROW_WORDS - i,
    {
        let k: usize = y * ROW_WORDS + i;
        assert(k == word_at(y as int, i as int));
        if word_differs(prev, frame, k) {
            if open.is_none() {
                open = Some(i);
            }
        } else {
            match open {
                Some(start) => {
                    proof {
                        assert(is_run(prev@, frame@, y as int, start as int, i as int));
                        lemma_close(prev@, frame@, ws@, y as int, start as int, i as int);
                    }
                    ws.push(run_of(y, start, i));
                    open = None;
                },
                None => {
                    assert forall|r: int, s: int, e: int| #[trigger]
                        is_run(prev@, frame@, r, s, e) && (r < y || (r == y && e < i
                            + 1)) implies ws@.contains(run_window(r, s, e)) by {
                        if r == y && e == i {
                            assert(differs(prev@, frame@, word_at(y as int, e - 1)));
                        }
                    }
                },
            }
        }
        i += 1;
    }
    match open {
        Some(start) => {
            proof {
                assert(is_run(prev@, frame@, y as int, start as int, 120));
                lemma_close(prev@, frame@, ws@, y as int, start as int, 120);
            }
            ws.push(run_of(y, start, ROW_WORDS));
        },
        None => {
            assert forall|r: int, s: int, e: int| #[trigger]
                is_run(prev@, frame@, r, s, e) && r <= y implies ws@.contains(
                run_window(r, s, e),
            ) by {
                if r == y && e == 120 {
                    assert(differs(prev@, frame@, word_at(y as int, e - 1)));
                }
            }
        },
    }
}

/// Whether `ws` are the windows to send where the panel shows `prev`: none if
/// nothing changed, all of the panel if much did, and otherwise each stretch of
/// words that changed.
pub open spec fn flushes(prev: Seq<u8>, frame: Seq<u8>, ws: Seq<Window>) -> bool {
    let n = changed(prev, frame, FRAME_WORDS as nat);
    if n == 0 {
        ws.len() == 0
    } else if 4 * n >= FULL_FLUSH_THRESHOLD {
        ws == seq![whole()]
    } else {
        is_run_list(prev, frame, ws)
    }
}

/// What to send so that the panel, which shows `prev`, shows `frame`; and
/// `prev` is brought up to date. Buffers that are not one frame long get one
/// full transfer, and `prev` is left alone.
pub fn flush_changed(prev: &mut [u8], frame: &[u8]) -> (r: Vec<Window>)
    ensures
        if old(prev)@.len() != FRAME_BYTES || frame@.len() != FRAME_BYTES {
            r@ == seq![whole()] && final(prev)@ == old(prev)@
        } else {
            &&& final(prev)@ == frame@
            &&& flushes(old(prev)@, frame@, r@)
        },
{
    let mut windows: Vec<Window> = Vec::new();
    if prev.len() != FRAME_BYTES || frame.len() != FRAME_BYTES {
        windows.push(Window { x: 0, y: 0, width: 240, height: 240 });
        assert(windows@ =~= seq![whole()]);
        return windows;
    }
    let n: usize = count_changed(prev, frame);
    if n == 0 {
        proof {
            lemma_none_changed(prev@, frame@, FRAME_WORDS as nat);
        }
        assert(prev@ =~= frame@) by {
            assert forall|b: int| 0 <= b < FRAME_BYTES implies prev@[b] == frame@[b] by {
                assert(!differs(prev@, frame@, b / 4));
            }
        }
        return windows;
    }
    if 4 * n >= FULL_FLUSH_THRESHOLD {
        windows.push(Window { x: 0, y: 0, width: 240, height: 240 });
        assert(windows@ =~= seq![whole()]);
    } else {
        let mut y: usize = 0;
        while y < ROWS
            invariant
                prev@ == old(prev)@,
                prev@.len() == FRAME_BYTES,
                frame@.len() == FRAME_BYTES,
                y <= ROWS,
                scanned(prev@, frame@, windows@, y as int, 0, 0),
            decreases ROWS - y,
        {
            row_runs(prev, frame, y, &mut windows);
            y += 1;
        }
        assert(is_run_list(prev@, frame@, windows@));
    }
    crate::bytes::copy_at(prev, 0, frame);
    assert(prev@ =~= frame@);
    windows
}

/// With no changed word, no word differs.
proof fn lemma_none_changed(prev: Seq<u8>, frame: Seq<u8>, n: nat)
    requires
        changed(prev, frame, n) == 0,
    ensures
        forall|k: int| 0 <= k < n ==> !#[trigger] differs(prev, frame, k),
    decreases n,
{
    if n > 0 {
        lemma_none_changed(prev, frame, (n - 1) as nat);
    }
}

// ---------- What the panel shows afterwards ----------
/// Whether byte `b` of a frame lies in a window.
pub open spec fn covers(w: Window, b: int) -> bool {
    let x = b / 2 % 240;
    let y = b / 480;
    w.x <= x < w.x + w.width && w.y <= y < w.y + w.height
}

/// A panel once the part of `frame` that lies in a window was sent to it.
pub open spec fn sent(panel: Seq<u8>, frame: Seq<u8>, w: Window) -> Seq<u8> {
    Seq::new(
        panel.len(),
        |b: int|
            if covers(w, b) {
                frame[b]
            } else {
                panel[b]
            },
    )
}

/// A panel once several windows were sent to it.
pub open spec fn all_sent(panel: Seq<u8>, frame: Seq<u8>, ws: Seq<Window>) -> Seq<u8>
    decreases ws.len(),
{
    if ws.len() == 0 {
        panel
    } else {
        sent(all_sent(panel, frame, ws.drop_last()), frame, ws.last())
    }
}

/// A byte is the new one if a window covers it, and the old one if none does.
proof fn lemma_all_sent(panel: Seq<u8>, frame: Seq<u8>, ws: Seq<Window>, b: int)
    requires
        0 <= b < panel.len(),
    ensures
        all_sent(panel, frame, ws).len() == panel.len(),
        all_sent(panel, frame, ws)[b] == frame[b] || all_sent(panel, frame, ws)[b] == panel[b],
        (exists|i: int| 0 <= i < ws.len() && covers(#[trigger] ws[i], b)) ==> all_sent(
            panel,
            frame,
            ws,
        )[b] == frame[b],
    decreases ws.len(),
{
    if ws.len() > 0 {
        lemma_all_sent(panel, frame, ws.drop_last(), b);
        if exists|i: int| 0 <= i < ws.len() && covers(#[trigger] ws[i], b) {
            let i = choose|i: int| 0 <= i < ws.len() && covers(#[trigger] ws[i], b);
            if i < ws.len() - 1 {
                assert(covers(ws.drop_last()[i], b));
            }
        }
    }
}

/// Where the stretch of changed words around word `i` of row `y` begins.
proof fn lemma_run_start(prev: Seq<u8>, frame: Seq<u8>, y: int, i: int) -> (start: int)
    requires
        0 <= i < ROW_WORDS,
        differs(prev, frame, word_at(y, i)),
    ensures
        0 <= start <= i,
        forall|j: int| start <= j <= i ==> #[trigger] differs(prev, frame, word_at(y, j)),
        start > 0 ==> !differs(prev, frame, word_at(y, start - 1)),
    decreases i,
{
    if i > 0 && differs(prev, frame, word_at(y, i - 1)) {
        lemma_run_start(prev, frame, y, i - 1)
    } else {
        i
    }
}

/// Where the stretch of changed words around word `i` of row `y` ends.
proof fn lemma_run_end(prev: Seq<u8>, frame: Seq<u8>, y: int, i: int) -> (end: int)
    requires
        0 <= i < ROW_WORDS,
        differs(prev, frame, word_at(y, i)),
    ensures
        i < end <= ROW_WORDS,
        forall|j: int| i <= j < end ==> #[trigger] differs(prev, frame, word_at(y, j)),
        end < ROW_WORDS ==> !differs(prev, frame, word_at(y, end)),
    decreases ROW_WORDS - i,
{
    if i + 1 < ROW_WORDS && differs(prev, frame, word_at(y, i + 1)) {
        lemma_run_end(prev, frame, y, i + 1)
    } else {
        i + 1
    }
}

/// Every changed byte lies in one of the windows of a run list.
proof fn lemma_changed_byte_is_covered(prev: Seq<u8>, frame: Seq<u8>, ws: Seq<Window>, b: int)
    requires
        is_run_list(prev, frame, ws),
        0 <= b < FRAME_BYTES,
        prev[b] != frame[b],
    ensures
        exists|i: int| 0 <= i < ws.len() && covers(#[trigger] ws[i], b),
{
    let k = b / 4;
    let y = b / 480;
    let i = k - y * 120;
    assert(k == word_at(y, i));
    assert(b == 4 * k || b == 4 * k + 1 || b == 4 * k + 2 || b == 4 * k + 3);
    assert(differs(prev, frame, word_at(y, i)));
    let start = lemma_run_start(prev, frame, y, i);
    let end = lemma_run_end(prev, frame, y, i);
    assert(is_run(prev, frame, y, start, end));
    let w = run_window(y, start, end);
    assert(ws.contains(w));
    let at = ws.index_of(w);
    assert(covers(ws[at], b));
}

/// Whatever the strategy, a panel that showed `prev` shows `frame` once the
/// windows of a flush were sent.
pub proof fn panel_shows_the_frame(prev: Seq<u8>, frame: Seq<u8>, ws: Seq<Window>)
    requires
        prev.len() == FRAME_BYTES,
        frame.len() == FRAME_BYTES,
        flushes(prev, frame, ws),
    ensures
        all_sent(prev, frame, ws) == frame,
{
    let after = all_sent(prev, frame, ws);
    let n = changed(prev, frame, FRAME_WORDS as nat);
    assert forall|b: int| 0 <= b < FRAME_BYTES implies after[b] == frame[b] by {
        lemma_all_sent(prev, frame, ws, b);
        if n == 0 {
            lemma_none_changed(prev, frame, FRAME_WORDS as nat);
            assert(!differs(prev, frame, b / 4));
        } else if 4 * n >= FULL_FLUSH_THRESHOLD {
            assert(covers(ws[0], b));
        } else if prev[b] != frame[b] {
            lemma_changed_byte_is_covered(prev, frame, ws, b);
        }
    }
    lemma_all_sent(prev, frame, ws, 0);
    assert(after =~= frame);
}

impl Window {
    /// Where the bytes of a window of full rows, or of one part of a row, stand
    /// in a frame.
    pub open spec fn range(self) -> (int, int) {
        let from = (self.y * 240 + self.x) * 2;
        (from, from + self.width * self.height * 2)
    }

    /// The bytes of a frame to send for this window.
    pub fn bytes(&self) -> (r: (usize, usize))
        requires
            self.x <= 240,
            self.y <= 240,
            self.width <= 240,
            self.height <= 240,
        ensures
            (r.0 as int, r.1 as int) == self.range(),
    {
        let from: usize = (self.y as usize * 240 + self.x as usize) * 2;
        assert(self.width * self.height <= 240 * 240) by (nonlinear_arith)
            requires
                self.width <= 240,
                self.height <= 240,
        ;
        (from, from + self.width as usize * self.height as usize * 2)
    }
}

/// The bytes that a flush sends for a window are those that the window covers.
pub proof fn window_bytes_are_what_it_covers(w: Window, b: int)
    requires
        w == whole() || (w.height == 1 && w.y < 240 && w.x + w.width <= 240),
        0 <= b < FRAME_BYTES,
    ensures
        covers(w, b) <==> w.range().0 <= b < w.range().1,
{
    if w == whole() {
        assert(w.width * w.height == 57600) by (nonlinear_arith)
            requires
                w.width == 240,
                w.height == 240,
        ;
    } else {
        assert(w.width * w.height == w.width) by (nonlinear_arith)
            requires
                w.height == 1,
        ;
    }
}

/// Only what changed is sent. A panel that shows the frame already is sent nothing;
/// where less than a third of it changed, every byte that is sent belongs to four
/// of which at least one changed, and none is sent twice; beyond that, one
/// transfer of all of it is.
pub proof fn only_changes_are_sent(prev: Seq<u8>, frame: Seq<u8>, ws: Seq<Window>)
    requires
        prev.len() == FRAME_BYTES,
        frame.len() == FRAME_BYTES,
        flushes(prev, frame, ws),
    ensures
        prev == frame ==> ws.len() == 0,
        4 * changed(prev, frame, 28_800) < 38_400 ==> {
            &&& forall|i: int, b: int|
                0 <= i < ws.len() && 0 <= b < FRAME_BYTES && #[trigger] covers(ws[i], b) ==> exists|
                    c: int,
                | b / 4 * 4 <= c < b / 4 * 4 + 4 && #[trigger] prev[c] != frame[c]
            &&& forall|i: int, j: int, b: int|
                0 <= i < j < ws.len() && 0 <= b < FRAME_BYTES ==> !(#[trigger] covers(ws[i], b)
                    && #[trigger] covers(ws[j], b))
        },
        4 * changed(prev, frame, 28_800) >= 38_400 ==> ws.len() == 1 && forall|b: int|
            0 <= b < FRAME_BYTES ==> #[trigger] covers(ws[0], b),
{
    let n = changed(prev, frame, 28_800);
    if prev == frame {
        lemma_same_is_unchanged(prev, 28_800);
    }
    if n > 0 && 4 * n < 38_400 {
        assert forall|i: int, b: int|
            0 <= i < ws.len() && 0 <= b < FRAME_BYTES && #[trigger] covers(
                ws[i],
                b,
            ) implies exists|c: int|
            b / 4 * 4 <= c < b / 4 * 4 + 4 && #[trigger] prev[c] != frame[c] by {
            let w = ws[i];
            assert(is_run_window(prev, frame, w));
            let y = w.y as int;
            let k = b % 480 / 4;
            assert(b / 480 == y);
            assert(first_word(w) <= k < end_word(w));
            assert(word_at(y, k) == b / 4);
            assert(differs(prev, frame, word_at(y, k)));
            let c = b / 4 * 4;
            assert(prev[c] != frame[c] || prev[c + 1] != frame[c + 1] || prev[c + 2] != frame[c + 2]
                || prev[c + 3] != frame[c + 3]);
        }
        assert forall|i: int, j: int, b: int|
            0 <= i < j < ws.len() && 0 <= b < FRAME_BYTES implies !(#[trigger] covers(ws[i], b)
            && #[trigger] covers(ws[j], b)) by {
            assert(ahead(ws[i], ws[j]));
            assert(is_run_window(prev, frame, ws[i]));
            assert(is_run_window(prev, frame, ws[j]));
        }
    }
}

proof fn lemma_same_is_unchanged(frame: Seq<u8>, n: nat)
    ensures
        changed(frame, frame, n) == 0,
    decreases n,
{
    if n > 0 {
        lemma_same_is_unchanged(frame, (n - 1) as nat);
    }
}

/// What changed is counted in words of four bytes, each once if any of its bytes
/// did.
pub proof fn changes_are_counted_in_words(prev: Seq<u8>, frame: Seq<u8>, n: nat, at: int)
    requires
        at == 4 * n,
        at + 4 <= prev.len(),
        at + 4 <= frame.len(),
    ensures
        changed(prev, frame, 0) == 0,
        changed(prev, frame, n + 1) == changed(prev, frame, n) + (if prev.subrange(at, at + 4)
            == frame.subrange(at, at + 4) {
            0int
        } else {
            1
        }),
{
    let a = prev.subrange(at, at + 4);
    let b = frame.subrange(at, at + 4);
    assert(a[0] == prev[at] && b[0] == frame[at]);
    assert(a[1] == prev[at + 1] && b[1] == frame[at + 1]);
    assert(a[2] == prev[at + 2] && b[2] == frame[at + 2]);
    assert(a[3] == prev[at + 3] && b[3] == frame[at + 3]);
    if !differs(prev, frame, n as int) {
        assert(a =~= b);
    }
}

} // verus!
