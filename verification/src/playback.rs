//! Playing a clip while it is still being downloaded.
//!
//! The speaker drains at a fixed rate and cannot be slowed down. So playback
//! begins only once the clip is projected to finish downloading before it
//! finishes playing, and a shortfall is padded with silence.
use crate::bytes::copy_at;
use crate::captions::Captions;
use vstd::prelude::*;
use vstd::slice::slice_subrange;

verus! {

/// Bytes that the speaker plays per second.
pub const DRAIN_BYTES_PER_SEC: u64 = 48_000;

/// Audio to have before the first sample is played.
pub const TTS_PREBUFFER_BYTES: usize = 48_000;

/// How far behind its average rate a download may fall.
pub const TTS_START_MARGIN_MS: u64 = 2_000;

/// Bytes of audio per byte of text, roughly.
pub const TTS_BYTES_PER_CHAR: usize = 2_900;

/// How long a clip is: what the server says of the body, without what stands
/// ahead of the audio; else what the clip says of itself; else a guess from the
/// length of the text. Never nothing.
pub open spec fn expected_pcm(
    content_length: Option<usize>,
    data_start: int,
    stated: Option<usize>,
    text_bytes: int,
) -> int {
    let n = if content_length matches Some(cl) && cl > data_start {
        content_length->0 - data_start
    } else if stated is Some {
        stated->0 as int
    } else {
        text_bytes * TTS_BYTES_PER_CHAR
    };
    if n < 1 {
        1
    } else {
        n
    }
}

/// How long a clip is, as far as can be told before it is complete.
pub fn estimate_pcm(
    content_length: Option<usize>,
    data_start: usize,
    stated: Option<usize>,
    text_bytes: usize,
) -> (n: usize)
    requires
        text_bytes * TTS_BYTES_PER_CHAR <= usize::MAX,
    ensures
        n == expected_pcm(content_length, data_start as int, stated, text_bytes as int),
        n >= 1,
{
    let body: usize = match content_length {
        Some(cl) => if cl > data_start {
            cl - data_start
        } else {
            0
        },
        None => 0,
    };
    let n: usize = if body > 0 {
        body
    } else {
        match stated {
            Some(len) => len,
            None => text_bytes * TTS_BYTES_PER_CHAR,
        }
    };
    if n < 1 {
        1
    } else {
        n
    }
}

pub open spec fn at_least_one(n: int) -> int {
    if n < 1 {
        1
    } else {
        n
    }
}

pub open spec fn not_below_zero(n: int) -> int {
    if n < 0 {
        0
    } else {
        n
    }
}

/// Bytes per second that a download has managed, one at least.
pub open spec fn rate(clip_len: int, elapsed_ms: int) -> int {
    at_least_one(clip_len * 1000 / at_least_one(elapsed_ms))
}

/// Milliseconds until the rest is there, at the rate so far.
pub open spec fn download_ms(clip_len: int, data_start: int, total_pcm: int, elapsed_ms: int) -> int {
    not_below_zero(data_start + total_pcm - clip_len) * 1000 / rate(clip_len, elapsed_ms)
}

/// Milliseconds that what is still to come plays.
pub open spec fn playback_ms(clip_len: int, data_start: int, total_pcm: int) -> int {
    not_below_zero(total_pcm - not_below_zero(clip_len - data_start)) * 1000 / 48_000
}

/// Whether playback may begin: there is enough to begin with, and the rest is
/// projected to arrive in time.
pub open spec fn may_start(
    clip_len: int,
    data_start: int,
    total_pcm: int,
    elapsed_ms: int,
) -> bool {
    &&& clip_len >= TTS_PREBUFFER_BYTES
    &&& download_ms(clip_len, data_start, total_pcm, elapsed_ms) + TTS_START_MARGIN_MS
        <= playback_ms(clip_len, data_start, total_pcm)
}

/// Whether playback may begin, `elapsed_ms` into the download.
pub fn ready_to_play(
    clip_len: usize,
    data_start: usize,
    total_pcm: usize,
    elapsed_ms: u64,
) -> (r: bool)
    ensures
        r == may_start(
            clip_len as int,
            data_start as int,
            total_pcm as int,
            elapsed_ms as int,
        ),
{
    if clip_len < TTS_PREBUFFER_BYTES {
        return false;
    }
    let ms: u128 = if elapsed_ms < 1 {
        1
    } else {
        elapsed_ms as u128
    };
    let measured: u128 = clip_len as u128 * 1000 / ms;
    let rate: u128 = if measured < 1 {
        1
    } else {
        measured
    };
    let end: u128 = data_start as u128 + total_pcm as u128;
    let left_to_get: u128 = if end < clip_len as u128 {
        0
    } else {
        end - clip_len as u128
    };
    let have: usize = if clip_len < data_start {
        0
    } else {
        clip_len - data_start
    };
    let left_to_play: u128 = if total_pcm < have {
        0
    } else {
        (total_pcm - have) as u128
    };
    let download: u128 = left_to_get * 1000 / rate;
    let playback: u128 = left_to_play * 1000 / DRAIN_BYTES_PER_SEC as u128;
    assert(download <= left_to_get * 1000) by (nonlinear_arith)
        requires
            rate >= 1,
            download == left_to_get * 1000 / (rate as int),
    ;
    download + TTS_START_MARGIN_MS as u128 <= playback
}

/// A clip that arrives no faster than it plays is not begun before it is
/// complete.
pub proof fn slow_downloads_are_waited_for(
    clip_len: int,
    data_start: int,
    total_pcm: int,
    elapsed_ms: int,
)
    requires
        0 <= data_start <= clip_len < data_start + total_pcm,
        elapsed_ms >= 1,
        clip_len * 1000 <= 48_000 * elapsed_ms,
    ensures
        !may_start(clip_len, data_start, total_pcm, elapsed_ms),
{
    let r = rate(clip_len, elapsed_ms);
    let left = data_start + total_pcm - clip_len;
    assert(clip_len * 1000 / elapsed_ms <= 48_000) by (nonlinear_arith)
        requires
            clip_len * 1000 <= 48_000 * elapsed_ms,
            elapsed_ms >= 1,
    ;
    assert(left * 1000 / r >= left * 1000 / 48_000) by (nonlinear_arith)
        requires
            1 <= r <= 48_000,
            left >= 0,
    ;
    assert(not_below_zero(total_pcm - not_below_zero(clip_len - data_start)) == left);
}

// ---------- Blocks ----------
/// `n` rounded down to a whole number of words.
pub open spec fn whole_words(n: int) -> int {
    n / 4 * 4
}

/// `n` zero bytes.
pub open spec fn silence(n: int) -> Seq<u8> {
    Seq::new(n as nat, |i: int| 0u8)
}

/// One block for the speaker.
#[derive(Debug, Clone, Copy, PartialEq, Eq, Structural)]
pub struct Block {
    /// Bytes of the buffer to play.
    pub end: usize,
    /// Where in the clip the next block begins.
    pub pos: usize,
    /// Whether silence had to stand in for audio that had not arrived.
    pub starved: bool,
}

/// How much of the clip the next block takes: as much as there is and fits; in
/// whole words while more is to come.
pub open spec fn taken(room: int, available: int, finished: bool) -> int {
    let n = if whole_words(room) < available {
        whole_words(room)
    } else {
        available
    };
    if finished {
        n
    } else {
        whole_words(n)
    }
}

/// How long the next block is: a full one while more is to come, and then what
/// is left, up to a whole number of words.
pub open spec fn block_len(room: int, available: int, finished: bool) -> int {
    if finished {
        (taken(room, available, finished) + 3) / 4 * 4
    } else {
        whole_words(room)
    }
}

/// Fills `tx` with the next block of `clip` from `pos` on; `finished` says that
/// no more of the clip is to come. Nothing is left to do once all of a finished
/// clip was played.
pub fn stage(tx: &mut [u8], clip: &[u8], pos: usize, finished: bool) -> (r: Option<Block>)
    requires
        pos <= clip@.len(),
    ensures
        final(tx)@.len() == old(tx)@.len(),
        r is None <==> finished && pos == clip@.len(),
        r is None ==> final(tx)@ == old(tx)@,
        r matches Some(b) ==> {
            let room = old(tx)@.len() as int;
            let available = clip@.len() - pos;
            let n = taken(room, available, finished);
            &&& b.end == block_len(room, available, finished)
            &&& b.pos == pos + n
            &&& b.starved == (!finished && n < whole_words(room))
            &&& b.end <= room
            &&& final(tx)@.take(b.end as int) == clip@.subrange(pos as int, pos + n) + silence(
                b.end - n,
            )
        },
{
    let room: usize = tx.len();
    let block: usize = room / 4 * 4;
    let available: usize = clip.len() - pos;
    if available == 0 && finished {
        return None;
    }
    let fit: usize = if block < available {
        block
    } else {
        available
    };
    let n: usize = if finished {
        fit
    } else {
        fit / 4 * 4
    };
    let end: usize = if finished {
        if n % 4 == 0 {
            n
        } else {
            n / 4 * 4 + 4
        }
    } else {
        block
    };
    copy_at(tx, 0, slice_subrange(clip, pos, pos + n));
    let ghost audio = clip@.subrange(pos as int, pos + n);
    let mut i: usize = n;
    while i < end
        invariant
            n <= i <= end <= tx@.len() == room,
            audio.len() == n,
            tx@.take(i as int) =~= audio + silence(i - n),
        decreases end - i,
    {
        let ghost before = tx@.take(i as int);
        tx[i] = 0;
        assert(tx@.take(i + 1) =~= before.push(0));
        assert(audio + silence(i + 1 - n) =~= (audio + silence(i - n)).push(0));
        i += 1;
    }
    Some(Block { end, pos: pos + n, starved: !finished && n < block })
}

/// Blocks are whole words, and what they take of the clip is too, so that no
/// sample is torn apart. Only the very last block may be short or end in padding;
/// any other is full, with silence where audio has not arrived.
pub proof fn samples_are_never_torn(room: int, available: int, finished: bool)
    requires
        room >= 0,
        available >= 0,
    ensures
        ({
            let n = taken(room, available, finished);
            let len = block_len(room, available, finished);
            let last = finished && n == available;
            &&& len % 4 == 0
            &&& 0 <= n <= len <= room
            &&& !last ==> n % 4 == 0 && len == whole_words(room)
            &&& finished ==> len - n < 4
        }),
{
}

/// What the first blocks of a finished clip play: as many as are asked for, one
/// after the other.
pub open spec fn played(clip: Seq<u8>, pos: int, room: int, blocks: nat) -> Seq<u8>
    decreases blocks,
{
    if blocks == 0 || pos >= clip.len() {
        Seq::empty()
    } else {
        let n = taken(room, clip.len() - pos, true);
        clip.subrange(pos, pos + n) + silence(block_len(room, clip.len() - pos, true) - n) + played(
            clip,
            pos + n,
            room,
            (blocks - 1) as nat,
        )
    }
}

/// All of a finished clip is played, in order and without a gap; only its very
/// end is padded, by less than a word.
pub proof fn the_whole_clip_is_played(clip: Seq<u8>, pos: int, room: int, blocks: nat)
    requires
        0 <= pos <= clip.len(),
        room >= 4,
        blocks >= clip.len() - pos,
    ensures
        ({
            let out = played(clip, pos, room, blocks);
            &&& out.take(clip.len() - pos) == clip.skip(pos)
            &&& clip.len() - pos <= out.len() < clip.len() - pos + 4
            &&& forall|i: int| clip.len() - pos <= i < out.len() ==> out[i] == 0
        }),
    decreases blocks,
{
    let out = played(clip, pos, room, blocks);
    if pos < clip.len() {
        let n = taken(room, clip.len() - pos, true);
        assert(n > 0);
        the_whole_clip_is_played(clip, pos + n, room, (blocks - 1) as nat);
        let rest = played(clip, pos + n, room, (blocks - 1) as nat);
        if pos + n < clip.len() {
            assert(n % 4 == 0);
            assert(out =~= clip.subrange(pos, pos + n) + rest);
            assert(out.take(clip.len() - pos) =~= clip.subrange(pos, pos + n) + rest.take(
                clip.len() - (pos + n),
            ));
            assert(clip.skip(pos) =~= clip.subrange(pos, pos + n) + clip.skip(pos + n));
        } else {
            assert(rest =~= Seq::<u8>::empty());
            assert(out.take(clip.len() - pos) =~= clip.skip(pos));
        }
    } else {
        assert(out.take(0) =~= clip.skip(pos));
    }
}

// ---------- A clip from the first byte to the last ----------
/// A clip as far as it was downloaded.
pub struct Clip {
    pub bytes: Vec<u8>,
    /// Whether no more is to come.
    pub finished: bool,
    /// Where the audio begins and how long it is expected to be, once there was
    /// enough of the clip to tell.
    pub plan: Option<(usize, usize)>,
}

/// What one read of a download brought.
pub enum DownloadEvent<'a> {
    /// More of the clip.
    Data(&'a [u8]),
    /// The end, an error, or nothing for too long: no more is to come.
    Over,
}

/// Where the audio of a clip begins: behind the head of the data chunk, or past
/// the end where there is none.
pub open spec fn audio_start(clip: Seq<u8>) -> int {
    match crate::wav::chunk_from(clip, 12, crate::wav::ID_DATA@) {
        Some(at) => at + 8,
        None => clip.len() as int,
    }
}

/// The length that a clip states of its audio.
pub open spec fn stated_len(clip: Seq<u8>) -> Option<usize> {
    match crate::wav::chunk_from(clip, 12, crate::wav::ID_DATA@) {
        Some(at) => {
            let n = crate::bytes::le32_at(clip, at + 4);
            if n == 0 || n == 0xFFFF_FFFF {
                None
            } else {
                Some(n as usize)
            }
        },
        None => None,
    }
}

impl Clip {
    /// The plan, made anew if there is none yet.
    pub open spec fn planned(self, content_length: Option<usize>, text_bytes: int) -> (int, int) {
        match self.plan {
            Some((start, total)) => (start as int, total as int),
            None => (
                audio_start(self.bytes@),
                expected_pcm(
                    content_length,
                    audio_start(self.bytes@),
                    stated_len(self.bytes@),
                    text_bytes,
                ),
            ),
        }
    }

    /// Where playback begins.
    pub open spec fn start(self) -> int {
        match self.plan {
            Some((start, _)) => start as int,
            None => audio_start(self.bytes@),
        }
    }

    /// How much audio there is to play, as far as is known when playback
    /// begins.
    pub open spec fn total(self) -> int {
        at_least_one(
            if self.finished {
                self.bytes@.len() - self.start()
            } else {
                match self.plan {
                    Some((_, total)) => total as int,
                    None => 1,
                }
            },
        )
    }

    /// A plan begins within what was downloaded.
    pub open spec fn valid(self) -> bool {
        self.plan matches Some((start, total)) ==> start <= self.bytes@.len() && total >= 1
    }

    /// Nothing yet.
    pub fn new() -> (c: Clip)
        ensures
            c.bytes@ == Seq::<u8>::empty(),
            !c.finished,
            c.plan is None,
            c.valid(),
    {
        Clip { bytes: Vec::new(), finished: false, plan: None }
    }

    /// Takes in what one read brought.
    pub fn on_read(&mut self, event: DownloadEvent<'_>)
        requires
            old(self).valid(),
        ensures
            final(self).valid(),
            final(self).plan == old(self).plan,
            match event {
                DownloadEvent::Data(more) => {
                    &&& final(self).bytes@ == old(self).bytes@ + more@
                    &&& final(self).finished == old(self).finished
                },
                DownloadEvent::Over => {
                    &&& final(self).bytes@ == old(self).bytes@
                    &&& final(self).finished
                },
            },
    {
        match event {
            DownloadEvent::Data(more) => {
                crate::bytes::append(&mut self.bytes, more);
            },
            DownloadEvent::Over => {
                self.finished = true;
            },
        }
    }

    /// Whether to stop waiting, `elapsed_ms` into the download: the clip is
    /// complete, or playback may begin. The plan is made as soon as there is
    /// enough of the clip, and kept.
    pub fn enough(
        &mut self,
        content_length: Option<usize>,
        text_bytes: usize,
        elapsed_ms: u64,
    ) -> (r: bool)
        requires
            old(self).valid(),
            text_bytes * TTS_BYTES_PER_CHAR <= usize::MAX,
        ensures
            final(self).valid(),
            final(self).bytes@ == old(self).bytes@,
            final(self).finished == old(self).finished,
            ({
                let (start, total) = old(self).planned(content_length, text_bytes as int);
                let judged = !old(self).finished && old(self).bytes@.len() >= TTS_PREBUFFER_BYTES;
                &&& r == (old(self).finished || (judged && may_start(
                    old(self).bytes@.len() as int,
                    start,
                    total,
                    elapsed_ms as int,
                )))
                &&& judged ==> final(self).plan == Some((start as usize, total as usize))
                &&& !judged ==> final(self).plan == old(self).plan
            }),
    {
        if self.finished {
            return true;
        }
        if self.bytes.len() < TTS_PREBUFFER_BYTES {
            return false;
        }
        let (start, total) = match self.plan {
            Some((start, total)) => (start, total),
            None => {
                let start: usize = crate::wav::find_data_chunk(&self.bytes);
                let stated = crate::wav::data_chunk_len(&self.bytes);
                (start, estimate_pcm(content_length, start, stated, text_bytes))
            },
        };
        self.plan = Some((start, total));
        ready_to_play(self.bytes.len(), start, total, elapsed_ms)
    }

    /// Begins playback: where the audio begins and how much there is to play.
    /// Nothing if there is no audio.
    pub fn begin(&self) -> (r: Option<(usize, usize)>)
        requires
            self.valid(),
        ensures
            match r {
                Some((start, total)) => {
                    &&& start == self.start() < self.bytes@.len()
                    &&& total == self.total()
                    &&& total >= 1
                },
                None => self.start() >= self.bytes@.len(),
            },
    {
        let start: usize = match self.plan {
            Some((start, _)) => start,
            None => crate::wav::find_data_chunk(&self.bytes),
        };
        if self.bytes.len() <= start {
            return None;
        }
        let total: usize = if self.finished {
            self.bytes.len() - start
        } else {
            match self.plan {
                Some((_, total)) => total,
                None => 1,
            }
        };
        Some((start, total))
    }
}

/// Playback in progress.
#[derive(Debug, Clone, Copy, PartialEq, Eq, Structural)]
pub struct Player {
    /// Where the audio begins.
    pub start: usize,
    /// How much there is to play.
    pub total: usize,
    /// What was played already.
    pub pos: usize,
    /// The caption on screen.
    pub seg: usize,
}

/// One step of playback.
#[derive(Debug, Clone, Copy, PartialEq, Eq, Structural)]
pub struct Step {
    /// Bytes of the buffer to play.
    pub end: usize,
    /// Whether a new caption is to be shown.
    pub redraw: bool,
    /// Whether silence had to stand in for audio that had not arrived.
    pub starved: bool,
}

impl Player {
    pub open spec fn valid(self, clip: Clip, captions: Captions) -> bool {
        &&& captions.valid()
        &&& self.total >= 1
        &&& self.start <= self.pos <= clip.bytes@.len()
        &&& self.seg < captions.segments@.len()
    }

    /// Playback about to begin, with the first caption on screen.
    pub fn new(start: usize, total: usize) -> (p: Player)
        ensures
            p == (Player { start, total, pos: start, seg: 0 }),
    {
        Player { start, total, pos: start, seg: 0 }
    }

    /// Fills `tx` with the next block and moves the captions along. Nothing once
    /// all was played.
    pub fn next(&mut self, tx: &mut [u8], clip: &Clip, captions: &Captions) -> (r: Option<Step>)
        requires
            old(self).valid(*clip, *captions),
        ensures
            final(self).valid(*clip, *captions),
            final(tx)@.len() == old(tx)@.len(),
            final(self).start == old(self).start,
            final(self).total == old(self).total,
            r is None <==> clip.finished && old(self).pos == clip.bytes@.len(),
            r is None ==> *final(self) == *old(self) && final(tx)@ == old(tx)@,
            r matches Some(step) ==> {
                let room = old(tx)@.len() as int;
                let available = clip.bytes@.len() - old(self).pos;
                let n = taken(room, available, clip.finished);
                let said = captions.spoken_part(
                    final(self).pos - old(self).start,
                    old(self).total as int,
                );
                &&& step.end == block_len(room, available, clip.finished) <= room
                &&& final(self).pos == old(self).pos + n
                &&& step.starved == (!clip.finished && n < whole_words(room))
                &&& final(tx)@.take(step.end as int) == clip.bytes@.subrange(
                    old(self).pos as int,
                    old(self).pos + n,
                ) + silence(step.end - n)
                &&& step.redraw == (final(self).seg != old(self).seg)
                &&& captions.moves_to(old(self).seg as int, final(self).seg as int, said)
            },
    {
        match stage(tx, &clip.bytes, self.pos, clip.finished) {
            Some(block) => {
                self.pos = block.pos;
                let said: usize = captions.spoken(self.pos - self.start, self.total);
                let seg: usize = captions.advance(self.seg, said);
                let redraw = seg != self.seg;
                self.seg = seg;
                Some(Step { end: block.end, redraw, starved: block.starved })
            },
            None => None,
        }
    }
}

// ---------- The light while speaking ----------
/// How bright the light is at a tick, out of 255: it rises and falls over twelve
/// ticks, and never goes below 90.
pub open spec fn brightness(tick: int) -> int {
    let phase = tick % 12;
    let rise = if phase < 6 {
        phase
    } else {
        12 - phase
    };
    90 + 165 * rise / 6
}

/// A channel of the light, dimmed.
pub open spec fn dimmed(c: u8, tick: int) -> int {
    c * brightness(tick) / 255
}

/// The colour of the breathing light at a tick.
pub fn pulse(rgb: (u8, u8, u8), tick: u32) -> (r: (u8, u8, u8))
    ensures
        r.0 == dimmed(rgb.0, tick as int),
        r.1 == dimmed(rgb.1, tick as int),
        r.2 == dimmed(rgb.2, tick as int),
{
    let phase: u32 = tick % 12;
    let rise: u32 = if phase < 6 {
        phase
    } else {
        12 - phase
    };
    let scale: u32 = 90 + 165 * rise / 6;
    (dim(rgb.0, scale), dim(rgb.1, scale), dim(rgb.2, scale))
}

fn dim(c: u8, scale: u32) -> (d: u8)
    requires
        scale <= 255,
    ensures
        d == c * scale / 255,
{
    assert(c * scale <= 255 * 255) by (nonlinear_arith)
        requires
            c <= 255,
            scale <= 255,
    ;
    (c as u32 * scale / 255) as u8
}

/// The light breathes but never goes out, and never shines brighter than its
/// colour.
pub proof fn light_never_goes_out(c: u8, tick: int)
    requires
        tick >= 0,
    ensures
        c >= 3 ==> dimmed(c, tick) >= 1,
        dimmed(c, tick) <= c,
        dimmed(c, tick + 12) == dimmed(c, tick),
{
    let b = brightness(tick);
    assert(90 <= b <= 255);
    assert(c * b >= 90 * c && c * b <= 255 * c) by (nonlinear_arith)
        requires
            90 <= b <= 255,
            c >= 0,
    ;
}

/// All that has arrived and fits is played at once, but for what is left of a word
/// while more is to come.
pub proof fn nothing_that_arrived_is_held_back(room: int, available: int, finished: bool)
    requires
        room >= 0,
        available >= 0,
    ensures
        ({
            let n = taken(room, available, finished);
            &&& n <= available && n <= room
            &&& room - n < 4 || available - n < 4
            &&& finished ==> room - n < 4 || available == n
        }),
{
}

/// How long a clip is expected to be: what the server says, without what stands
/// ahead of the audio; what the clip says, if the server says nothing of use; and
/// 2900 bytes for each byte of text if neither does.
pub proof fn clips_are_as_long_as_they_say(
    content_length: Option<usize>,
    data_start: int,
    stated: Option<usize>,
    text_bytes: int,
)
    requires
        data_start >= 0,
        text_bytes >= 0,
    ensures
        ({
            let n = expected_pcm(content_length, data_start, stated, text_bytes);
            &&& content_length is Some && content_length->0 > data_start ==> data_start + n
                == content_length->0
            &&& (content_length is None || content_length->0 <= data_start) && stated is Some
                && stated->0 > 0 ==> n == stated->0
            &&& (content_length is None || content_length->0 <= data_start) && stated is None
                && text_bytes > 0 ==> n == 2900 * text_bytes
            &&& n >= 1
        }),
{
}

/// Playback begins with a second of audio at least, and only if the rest, at the
/// rate so far, is there two seconds before it is needed. The times are whole
/// milliseconds, rounded down, and the rate whole bytes per second.
pub proof fn playback_begins_in_time(
    clip_len: int,
    data_start: int,
    total_pcm: int,
    elapsed_ms: int,
)
    requires
        0 <= data_start <= clip_len <= data_start + total_pcm,
        elapsed_ms >= 1,
        clip_len * 1000 >= elapsed_ms,
    ensures
        ({
            let left = data_start + total_pcm - clip_len;
            let r = rate(clip_len, elapsed_ms);
            let wait = download_ms(clip_len, data_start, total_pcm, elapsed_ms);
            let last = playback_ms(clip_len, data_start, total_pcm);
            &&& r >= 1 && r * elapsed_ms <= clip_len * 1000 < (r + 1) * elapsed_ms
            &&& wait * r <= left * 1000 < (wait + 1) * r
            &&& last * 48 <= left < (last + 1) * 48
            &&& may_start(clip_len, data_start, total_pcm, elapsed_ms) <==> clip_len >= 48_000
                && wait + 2000 <= last
        }),
{
    let left = data_start + total_pcm - clip_len;
    let r = rate(clip_len, elapsed_ms);
    let q = clip_len * 1000 / elapsed_ms;
    lemma_floor(clip_len * 1000, elapsed_ms);
    assert(q >= 1) by (nonlinear_arith)
        requires
            (q + 1) * elapsed_ms > clip_len * 1000,
            clip_len * 1000 >= elapsed_ms,
            elapsed_ms >= 1,
    ;
    assert(r == q);
    lemma_floor(left * 1000, r);
    assert(not_below_zero(data_start + total_pcm - clip_len) == left);
    assert(not_below_zero(total_pcm - not_below_zero(clip_len - data_start)) == left);
}

proof fn lemma_floor(x: int, d: int)
    requires
        d > 0,
    ensures
        (x / d) * d <= x < (x / d + 1) * d,
{
    let q = x / d;
    vstd::arithmetic::div_mod::lemma_fundamental_div_mod(x, d);
    vstd::arithmetic::div_mod::lemma_mod_bound(x, d);
    assert(d * q == q * d) by (nonlinear_arith);
    assert((q + 1) * d == q * d + d) by (nonlinear_arith);
}

/// The light breathes evenly: from about a third of its colour at the first of
/// twelve ticks up to all of it at the seventh, and back the same way.
pub proof fn the_light_breathes_evenly(tick: int)
    requires
        0 <= tick < 6,
    ensures
        brightness(0) == 90,
        brightness(6) == 255,
        brightness(tick) < brightness(tick + 1) <= brightness(tick) + 28,
        brightness(12 - tick) == brightness(tick),
        brightness(tick + 12) == brightness(tick),
{
}

/// A dimmed channel keeps its share of the brightness, rounded down.
pub proof fn dimming_keeps_the_proportions(c: u8, tick: int)
    ensures
        dimmed(c, tick) * 255 <= c * brightness(tick) < (dimmed(c, tick) + 1) * 255,
{
    lemma_floor(c * brightness(tick), 255);
}

} // verus!
