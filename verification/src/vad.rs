//! Voice activity: when a recording is over.
//!
//! The first chunks of a recording set the noise floor of the room. From then
//! on a chunk is speech, silence or neither, and the turn ends with enough
//! silence after speech, or with none at all for too long.
use crate::bytes::append;
use crate::touch::TouchEvent;
use vstd::prelude::*;
use vstd::slice::slice_subrange;

verus! {

/// Chunks that set the noise floor.
pub const VAD_CALIBRATION_CHUNKS: usize = 4;

/// The least level that can be speech, however quiet the room is.
pub const VAD_MIN_SPEECH_LEVEL: u32 = 60;

/// Chunks of silence after speech that end the turn.
pub const VAD_HANG_CHUNKS: usize = 9;

/// Chunks without speech after which the turn is given up.
pub const VAD_NO_SPEECH_CHUNKS: usize = 70;

/// The loudest level a chunk can have.
pub const MAX_LEVEL: u32 = 32_768;

/// The least audio worth transcribing, in bytes: half a second.
pub const MIN_RECORDING_BYTES: usize = 24_000;

/// Why a recording ended.
#[derive(Debug, Clone, Copy, PartialEq, Eq, Structural)]
pub enum StopReason {
    MaxDuration,
    Silence,
    NothingHeard,
    Tap,
    Cancelled,
}

/// A recording in progress.
#[derive(Debug, Clone, Copy, PartialEq, Eq, Structural)]
pub struct Listener {
    /// The loudest calibration chunk.
    pub noise_floor: u32,
    /// Chunks taken in.
    pub chunk_index: usize,
    /// Whether anything was loud enough to be speech.
    pub speech_started: bool,
    /// Silent chunks in a row.
    pub quiet_run: usize,
    /// What the level ring shows, 0 to 10.
    pub level_ui: u8,
    /// The loudest chunk since calibration.
    pub peak_level: u32,
}

pub open spec fn larger(a: int, b: int) -> int {
    if a >= b {
        a
    } else {
        b
    }
}

/// From this level on a chunk is speech.
pub open spec fn speech_gate(noise_floor: u32) -> int {
    larger(noise_floor * 3, 60)
}

/// Up to this level a chunk is silence.
pub open spec fn silence_gate(noise_floor: u32) -> int {
    larger(noise_floor * 2, 30)
}

impl Listener {
    pub open spec fn valid(self) -> bool {
        &&& self.noise_floor <= MAX_LEVEL
        &&& self.quiet_run <= self.chunk_index
        &&& self.level_ui <= 10
    }

    pub open spec fn calibrating(self) -> bool {
        self.chunk_index < VAD_CALIBRATION_CHUNKS
    }

    /// Silent chunks in a row, with one more chunk of the given level. Between
    /// the two gates a chunk is neither, and holds the turn open.
    pub open spec fn quiet_after(self, level: u32) -> int {
        if level < speech_gate(self.noise_floor) && level <= silence_gate(self.noise_floor) {
            self.quiet_run + 1
        } else {
            0
        }
    }

    pub open spec fn speech_after(self, level: u32) -> bool {
        self.speech_started || level >= speech_gate(self.noise_floor)
    }

    /// Why the recording ends with a chunk of the given level, if it does.
    pub open spec fn stop_after(self, level: u32) -> Option<StopReason> {
        if self.calibrating() {
            None
        } else if self.speech_after(level) && self.quiet_after(level) >= VAD_HANG_CHUNKS {
            Some(StopReason::Silence)
        } else if !self.speech_after(level) && self.chunk_index >= VAD_NO_SPEECH_CHUNKS {
            Some(StopReason::NothingHeard)
        } else {
            None
        }
    }

    /// The recording with one more chunk of the given level.
    pub open spec fn after(self, level: u32) -> Listener {
        let next = (self.chunk_index + 1) as usize;
        if self.calibrating() {
            Listener {
                noise_floor: larger(self.noise_floor as int, level as int) as u32,
                chunk_index: next,
                ..self
            }
        } else {
            let shown = level * 10 / speech_gate(self.noise_floor);
            Listener {
                noise_floor: self.noise_floor,
                chunk_index: if self.stop_after(level) is Some {
                    self.chunk_index
                } else {
                    next
                },
                speech_started: self.speech_after(level),
                quiet_run: self.quiet_after(level) as usize,
                level_ui: (if shown <= 10 {
                    shown
                } else {
                    10
                }) as u8,
                peak_level: larger(self.peak_level as int, level as int) as u32,
            }
        }
    }

    /// A recording about to begin.
    pub fn new() -> (l: Listener)
        ensures
            l == (Listener {
                noise_floor: 0,
                chunk_index: 0,
                speech_started: false,
                quiet_run: 0,
                level_ui: 0,
                peak_level: 0,
            }),
            l.valid(),
    {
        Listener {
            noise_floor: 0,
            chunk_index: 0,
            speech_started: false,
            quiet_run: 0,
            level_ui: 0,
            peak_level: 0,
        }
    }

    /// The level from which a chunk is speech.
    pub fn gate(&self) -> (g: u32)
        requires
            self.noise_floor <= MAX_LEVEL,
        ensures
            g == speech_gate(self.noise_floor),
    {
        let scaled: u32 = self.noise_floor * 3;
        if scaled >= VAD_MIN_SPEECH_LEVEL {
            scaled
        } else {
            VAD_MIN_SPEECH_LEVEL
        }
    }

    /// Takes in one more chunk. Returns why the recording is over, if it is.
    pub fn on_chunk(&mut self, level: u32) -> (stop: Option<StopReason>)
        requires
            old(self).valid(),
            old(self).chunk_index < usize::MAX,
            level <= MAX_LEVEL,
        ensures
            *final(self) == old(self).after(level),
            stop == old(self).stop_after(level),
            final(self).valid() || stop is Some,
    {
        if self.chunk_index < VAD_CALIBRATION_CHUNKS {
            if level > self.noise_floor {
                self.noise_floor = level;
            }
        } else {
            let speech: u32 = self.gate();
            let doubled: u32 = self.noise_floor * 2;
            let silence: u32 = if doubled >= VAD_MIN_SPEECH_LEVEL / 2 {
                doubled
            } else {
                VAD_MIN_SPEECH_LEVEL / 2
            };
            let shown: u32 = level * 10 / speech;
            self.level_ui = if shown <= 10 {
                shown as u8
            } else {
                10
            };
            if level > self.peak_level {
                self.peak_level = level;
            }
            if level >= speech {
                self.speech_started = true;
                self.quiet_run = 0;
            } else if level <= silence {
                self.quiet_run += 1;
            } else {
                self.quiet_run = 0;
            }
            if self.speech_started && self.quiet_run >= VAD_HANG_CHUNKS {
                return Some(StopReason::Silence);
            }
            if !self.speech_started && self.chunk_index >= VAD_NO_SPEECH_CHUNKS {
                return Some(StopReason::NothingHeard);
            }
        }
        self.chunk_index += 1;
        None
    }
}

/// What a touch does to a recording: a tap sends it, a swipe throws it away.
pub fn on_touch(event: TouchEvent) -> (stop: StopReason)
    ensures
        stop == (if event is Tap {
            StopReason::Tap
        } else {
            StopReason::Cancelled
        }),
{
    match event {
        TouchEvent::Tap { .. } => StopReason::Tap,
        _ => StopReason::Cancelled,
    }
}

/// Adds a chunk to a recording, without its first sample: that is a leftover of
/// the transfer before.
pub fn record(pcm: &mut Vec<u8>, chunk: &[u8])
    requires
        chunk@.len() >= 2,
    ensures
        final(pcm)@ == old(pcm)@ + chunk@.skip(2),
{
    append(pcm, slice_subrange(chunk, 2, chunk.len()));
    assert(chunk@.skip(2) =~= chunk@.subrange(2, chunk@.len() as int));
}

/// What a recording that has ended is good for.
#[derive(Debug, Clone, Copy, PartialEq, Eq, Structural)]
pub enum Recording {
    /// Thrown away.
    Cancelled,
    /// Too short, or nothing but the room.
    NothingHeard,
    /// To be transcribed.
    Usable,
}

/// What a recording that has ended is good for.
pub fn judge(stop: StopReason, pcm_bytes: usize, speech_started: bool) -> (r: Recording)
    ensures
        r == (if stop == StopReason::Cancelled {
            Recording::Cancelled
        } else if pcm_bytes < MIN_RECORDING_BYTES || !speech_started {
            Recording::NothingHeard
        } else {
            Recording::Usable
        }),
{
    if stop == StopReason::Cancelled {
        Recording::Cancelled
    } else if pcm_bytes < MIN_RECORDING_BYTES || !speech_started {
        Recording::NothingHeard
    } else {
        Recording::Usable
    }
}

// ---------- What holds of every recording ----------
/// Why a recording ends within the given chunks, if it does.
pub open spec fn outcome(l: Listener, levels: Seq<u32>) -> Option<StopReason>
    decreases levels.len(),
{
    if levels.len() == 0 {
        None
    } else if l.stop_after(levels[0]) is Some {
        l.stop_after(levels[0])
    } else {
        outcome(l.after(levels[0]), levels.drop_first())
    }
}

/// No chunk is both speech and silence.
pub proof fn gates_do_not_overlap(noise_floor: u32)
    ensures
        silence_gate(noise_floor) < speech_gate(noise_floor),
{
}

/// A recording never ends while the noise floor is being set, and the floor
/// stays as it is afterwards.
pub proof fn calibration_is_undisturbed(l: Listener, level: u32)
    ensures
        l.calibrating() ==> l.stop_after(level) is None,
        !l.calibrating() ==> l.after(level).noise_floor == l.noise_floor,
{
}

/// Once something was said, silence ends the turn: nine silent chunks in a row
/// do, less those that were silent already.
pub proof fn silence_after_speech_ends_the_turn(l: Listener, levels: Seq<u32>)
    requires
        l.valid(),
        !l.calibrating(),
        l.chunk_index + levels.len() <= usize::MAX,
        l.speech_started,
        levels.len() + l.quiet_run >= VAD_HANG_CHUNKS,
        levels.len() > 0,
        forall|i: int| 0 <= i < levels.len() ==> #[trigger] levels[i] <= silence_gate(
            l.noise_floor,
        ),
    ensures
        outcome(l, levels) == Some(StopReason::Silence),
    decreases levels.len(),
{
    gates_do_not_overlap(l.noise_floor);
    assert(levels[0] <= silence_gate(l.noise_floor));
    if l.stop_after(levels[0]) is None {
        let m = l.after(levels[0]);
        let rest = levels.drop_first();
        assert forall|i: int| 0 <= i < rest.len() implies #[trigger] rest[i] <= silence_gate(
            m.noise_floor,
        ) by {
            assert(rest[i] == levels[i + 1]);
        }
        silence_after_speech_ends_the_turn(m, rest);
    }
}

/// A turn in which nothing is said does not go on for ever: it is given up by
/// the chunk that follows the seventieth.
pub proof fn turns_without_speech_are_given_up(l: Listener, levels: Seq<u32>)
    requires
        l.valid(),
        !l.calibrating(),
        !l.speech_started,
        l.chunk_index <= VAD_NO_SPEECH_CHUNKS,
        l.chunk_index + levels.len() > VAD_NO_SPEECH_CHUNKS,
        forall|i: int| 0 <= i < levels.len() ==> #[trigger] levels[i] < speech_gate(l.noise_floor),
    ensures
        outcome(l, levels) == Some(StopReason::NothingHeard),
    decreases levels.len(),
{
    assert(levels[0] < speech_gate(l.noise_floor));
    if l.stop_after(levels[0]) is None {
        let m = l.after(levels[0]);
        let rest = levels.drop_first();
        assert forall|i: int| 0 <= i < rest.len() implies #[trigger] rest[i] < speech_gate(
            m.noise_floor,
        ) by {
            assert(rest[i] == levels[i + 1]);
        }
        turns_without_speech_are_given_up(m, rest);
    }
}

/// The recording once it has taken in the given chunks.
pub open spec fn heard(l: Listener, levels: Seq<u32>) -> Listener
    decreases levels.len(),
{
    if levels.len() == 0 {
        l
    } else {
        heard(l, levels.drop_last()).after(levels.last())
    }
}

/// Whether a level is no louder than twice some chunk of the room, or than 30.
pub open spec fn room_quiet(room: Seq<u32>, level: u32) -> bool {
    level <= 30 || exists|j: int| 0 <= j < room.len() && level <= 2 * #[trigger] room[j]
}

/// Whether a level is at least three times every chunk of the room, and at
/// least 60.
pub open spec fn stands_out(room: Seq<u32>, level: u32) -> bool {
    level >= 60 && forall|j: int| 0 <= j < room.len() ==> level >= 3 * #[trigger] room[j]
}

/// Whether a recording is about to begin.
pub open spec fn at_start(l: Listener) -> bool {
    l.noise_floor == 0 && l.chunk_index == 0 && !l.speech_started && l.quiet_run == 0
        && l.level_ui == 0 && l.peak_level == 0
}

proof fn lemma_after_room(l: Listener, room: Seq<u32>)
    requires
        at_start(l),
        room.len() <= 4,
    ensures
        ({
            let m = heard(l, room);
            &&& m.chunk_index == room.len()
            &&& !m.speech_started && m.quiet_run == 0 && m.level_ui == 0 && m.peak_level == 0
            &&& forall|j: int| 0 <= j < room.len() ==> #[trigger] room[j] <= m.noise_floor
            &&& m.noise_floor == 0 || exists|j: int|
                0 <= j < room.len() && #[trigger] room[j] == m.noise_floor
        }),
    decreases room.len(),
{
    if room.len() > 0 {
        let t = room.drop_last();
        lemma_after_room(l, t);
        let m = heard(l, t);
        let n = heard(l, room);
        assert forall|j: int| 0 <= j < room.len() implies #[trigger] room[j] <= n.noise_floor by {
            if j < t.len() {
                assert(t[j] == room[j]);
            }
        }
        if n.noise_floor != 0 {
            if room.last() >= m.noise_floor {
                assert(room[room.len() - 1] == n.noise_floor);
            } else {
                let j = choose|j: int| 0 <= j < t.len() && #[trigger] t[j] == m.noise_floor;
                assert(room[j] == n.noise_floor);
            }
        }
    }
}

/// The first four chunks set the noise floor, to the loudest of them, and do
/// nothing else: the recording goes on, and nothing counts as said or shown.
pub proof fn the_room_sets_the_floor(l: Listener, room: Seq<u32>)
    requires
        at_start(l),
        room.len() == 4,
    ensures
        outcome(l, room) is None,
        ({
            let m = heard(l, room);
            &&& forall|j: int| 0 <= j < 4 ==> #[trigger] room[j] <= m.noise_floor
            &&& exists|j: int| 0 <= j < 4 && #[trigger] room[j] == m.noise_floor
            &&& !m.speech_started && m.quiet_run == 0 && m.level_ui == 0 && m.peak_level == 0
        }),
{
    lemma_after_room(l, room);
    let m = heard(l, room);
    if m.noise_floor == 0 {
        assert(room[0] <= m.noise_floor);
    }
    lemma_no_stop_in_room(l, room);
}

proof fn lemma_no_stop_in_room(l: Listener, room: Seq<u32>)
    requires
        l.chunk_index + room.len() <= 4,
    ensures
        outcome(l, room) is None,
    decreases room.len(),
{
    if room.len() > 0 {
        lemma_no_stop_in_room(l.after(room[0]), room.drop_first());
    }
}

/// A recording that goes on after some chunks is judged by those that follow.
proof fn lemma_outcome_concat(l: Listener, a: Seq<u32>, b: Seq<u32>)
    requires
        outcome(l, a) is None,
    ensures
        outcome(l, a + b) == outcome(heard(l, a), b),
    decreases a.len(),
{
    if a.len() == 0 {
        assert(a + b =~= b);
    } else {
        let t = a.drop_first();
        lemma_outcome_concat(l.after(a[0]), t, b);
        assert((a + b).drop_first() =~= t + b);
        lemma_heard_first(l, a);
    }
}

proof fn lemma_heard_first(l: Listener, a: Seq<u32>)
    requires
        a.len() > 0,
    ensures
        heard(l, a) == heard(l.after(a[0]), a.drop_first()),
    decreases a.len(),
{
    if a.len() == 1 {
        reveal_with_fuel(heard, 2);
        assert(a.drop_last() =~= Seq::<u32>::empty());
        assert(a.drop_first() =~= Seq::<u32>::empty());
    } else {
        lemma_heard_first(l, a.drop_last());
        assert(a.drop_last().drop_first() =~= a.drop_first().drop_last());
    }
}

/// What a recording knows after calibration and some chunks that did not end it.
proof fn lemma_heard_on(m: Listener, levels: Seq<u32>, room: Seq<u32>)
    requires
        outcome(m, levels) is None,
        m.chunk_index == 4,
        room.len() == 4,
        !m.speech_started,
        m.quiet_run == 0,
        m.peak_level == 0,
        m.level_ui <= 10,
        m.noise_floor <= MAX_LEVEL,
        forall|j: int| 0 <= j < 4 ==> #[trigger] room[j] <= m.noise_floor,
        exists|j: int| 0 <= j < 4 && #[trigger] room[j] == m.noise_floor,
        levels.len() + 4 <= usize::MAX,
    ensures
        ({
            let n = heard(m, levels);
            &&& n.noise_floor == m.noise_floor
            &&& n.chunk_index == 4 + levels.len()
            &&& n.quiet_run <= levels.len()
            &&& n.level_ui <= 10
            &&& n.speech_started <==> exists|k: int|
                0 <= k < levels.len() && stands_out(room, #[trigger] levels[k])
            &&& n.speech_started ==> n.quiet_run < 9
            &&& !n.speech_started ==> levels.len() < 67
            &&& forall|k: int|
                levels.len() - n.quiet_run <= k < levels.len() ==> room_quiet(
                    room,
                    #[trigger] levels[k],
                )
            &&& n.quiet_run < levels.len() ==> !room_quiet(
                room,
                levels[levels.len() - n.quiet_run - 1],
            )
            &&& forall|k: int| 0 <= k < levels.len() ==> #[trigger] levels[k] <= n.peak_level
            &&& n.peak_level == 0 || exists|k: int|
                0 <= k < levels.len() && #[trigger] levels[k] == n.peak_level
        }),
    decreases levels.len(),
{
    if levels.len() > 0 {
        let t = levels.drop_last();
        let c = levels.last();
        assert(t + seq![c] =~= levels);
        lemma_outcome_prefix(m, t, seq![c]);
        lemma_heard_on(m, t, room);
        lemma_outcome_concat(m, t, seq![c]);
        let n = heard(m, t);
        let o = heard(m, levels);
        reveal_with_fuel(outcome, 2);
        assert(seq![c].drop_first() =~= Seq::<u32>::empty());
        assert(n.stop_after(c) is None);
        lemma_gates(room, n.noise_floor, c);
        the_ring_follows_the_level(n, c);
        assert(levels[levels.len() - 1] == c);
        assert forall|k: int| 0 <= k < t.len() implies t[k] == levels[k] by {}
        assert(o.speech_started <==> exists|k: int|
            0 <= k < levels.len() && stands_out(room, #[trigger] levels[k])) by {
            if n.speech_started {
                let k = choose|k: int| 0 <= k < t.len() && stands_out(room, #[trigger] t[k]);
                assert(stands_out(room, levels[k]));
            }
            if exists|k: int| 0 <= k < levels.len() && stands_out(room, #[trigger] levels[k]) {
                let k = choose|k: int|
                    0 <= k < levels.len() && stands_out(room, #[trigger] levels[k]);
                if k < t.len() {
                    assert(stands_out(room, t[k]));
                }
            }
        }
        assert forall|k: int|
            levels.len() - o.quiet_run <= k < levels.len() implies room_quiet(
            room,
            #[trigger] levels[k],
        ) by {
            if k < t.len() {
                assert(room_quiet(room, t[k]));
            }
        }
        assert forall|k: int| 0 <= k < levels.len() implies #[trigger] levels[k] <= o.peak_level by {
            if k < t.len() {
                assert(t[k] <= n.peak_level);
            }
        }
        if o.peak_level != 0 && c < n.peak_level {
            let k = choose|k: int| 0 <= k < t.len() && #[trigger] t[k] == n.peak_level;
            assert(levels[k] == o.peak_level);
        }
    }
}

/// The gates, seen from the room.
proof fn lemma_gates(room: Seq<u32>, floor: u32, level: u32)
    requires
        forall|j: int| 0 <= j < room.len() ==> #[trigger] room[j] <= floor,
        exists|j: int| 0 <= j < room.len() && #[trigger] room[j] == floor,
    ensures
        stands_out(room, level) <==> level >= speech_gate(floor),
        room_quiet(room, level) <==> level <= silence_gate(floor),
{
    let j = choose|j: int| 0 <= j < room.len() && #[trigger] room[j] == floor;
    if stands_out(room, level) {
        assert(level >= 3 * room[j]);
    }
    if level <= 2 * floor {
        assert(level <= 2 * room[j]);
    }
}

proof fn lemma_outcome_prefix(l: Listener, a: Seq<u32>, b: Seq<u32>)
    requires
        outcome(l, a + b) is None,
    ensures
        outcome(l, a) is None,
    decreases a.len(),
{
    if a.len() > 0 {
        assert((a + b).drop_first() =~= a.drop_first() + b);
        lemma_outcome_prefix(l.after(a[0]), a.drop_first(), b);
    }
}

/// Falling silent ends the turn, however noisy the room: once a chunk stood out
/// from the room, nine chunks in a row that are no louder than twice the loudest
/// of the four that came first end the recording, if nothing did before.
pub proof fn falling_silent_ends_the_turn(
    l: Listener,
    room: Seq<u32>,
    speech: Seq<u32>,
    quiet: Seq<u32>,
    k: int,
)
    requires
        at_start(l),
        room.len() == 4,
        forall|j: int| 0 <= j < 4 ==> #[trigger] room[j] <= MAX_LEVEL,
        outcome(l, room + speech) is None,
        0 <= k < speech.len(),
        stands_out(room, speech[k]),
        quiet.len() == 9,
        forall|i: int| 0 <= i < 9 ==> room_quiet(room, #[trigger] quiet[i]),
        13 + speech.len() <= usize::MAX,
    ensures
        outcome(l, room + speech + quiet) == Some(StopReason::Silence),
{
    the_room_sets_the_floor(l, room);
    lemma_after_room(l, room);
    let m = heard(l, room);
    lemma_outcome_concat(l, room, speech);
    lemma_heard_on(m, speech, room);
    let n = heard(m, speech);
    assert(room + speech + quiet =~= room + (speech + quiet));
    lemma_outcome_concat(l, room, speech + quiet);
    lemma_outcome_concat(m, speech, quiet);
    assert forall|i: int| 0 <= i < quiet.len() implies #[trigger] quiet[i] <= silence_gate(
        n.noise_floor,
    ) by {
        lemma_gates(room, n.noise_floor, quiet[i]);
        assert(room_quiet(room, quiet[i]));
    }
    silence_after_speech_ends_the_turn(n, quiet);
}

/// A recording ends only when its time has come. It ends in silence if something
/// stood out from the room and the last nine chunks were all quiet; it is given
/// up with the seventy-first chunk if nothing ever stood out; and it goes on
/// otherwise.
pub proof fn recordings_end_when_they_should(
    l: Listener,
    room: Seq<u32>,
    levels: Seq<u32>,
    level: u32,
)
    requires
        at_start(l),
        room.len() == 4,
        forall|j: int| 0 <= j < 4 ==> #[trigger] room[j] <= MAX_LEVEL,
        outcome(l, room + levels) is None,
        5 + levels.len() <= usize::MAX,
    ensures
        ({
            let all = levels.push(level);
            let spoke = exists|k: int| 0 <= k < all.len() && stands_out(room, #[trigger] all[k]);
            let fell_silent = all.len() >= 9 && forall|k: int|
                all.len() - 9 <= k < all.len() ==> room_quiet(room, #[trigger] all[k]);
            outcome(l, room + all) == (if spoke && fell_silent {
                Some(StopReason::Silence)
            } else if !spoke && 4 + all.len() == 71 {
                Some(StopReason::NothingHeard)
            } else {
                None
            })
        }),
{
    let all = levels.push(level);
    the_room_sets_the_floor(l, room);
    lemma_after_room(l, room);
    let m = heard(l, room);
    lemma_outcome_concat(l, room, levels);
    lemma_heard_on(m, levels, room);
    let n = heard(m, levels);
    assert(all =~= levels + seq![level]);
    lemma_outcome_concat(l, room, all);
    lemma_outcome_concat(m, levels, seq![level]);
    reveal_with_fuel(outcome, 2);
    assert(seq![level].drop_first() =~= Seq::<u32>::empty());
    assert(outcome(l, room + all) == n.stop_after(level));
    lemma_gates(room, n.noise_floor, level);
    assert(all[all.len() - 1] == level);
    let spoke = exists|k: int| 0 <= k < all.len() && stands_out(room, #[trigger] all[k]);
    assert(spoke == n.speech_after(level)) by {
        if n.speech_started {
            let k = choose|k: int| 0 <= k < levels.len() && stands_out(room, #[trigger] levels[k]);
            assert(stands_out(room, all[k]));
        }
        if spoke {
            let k = choose|k: int| 0 <= k < all.len() && stands_out(room, #[trigger] all[k]);
            if k < levels.len() {
                assert(stands_out(room, levels[k]));
            }
        }
    }
    let fell_silent = all.len() >= 9 && forall|k: int|
        all.len() - 9 <= k < all.len() ==> room_quiet(room, #[trigger] all[k]);
    if n.quiet_after(level) >= 9 {
        assert forall|k: int| all.len() - 9 <= k < all.len() implies room_quiet(
            room,
            #[trigger] all[k],
        ) by {
            if k < levels.len() {
                assert(room_quiet(room, levels[k]));
            }
        }
    } else if fell_silent {
        assert(room_quiet(room, all[all.len() - 1]));
        let k = levels.len() - n.quiet_run - 1;
        assert(room_quiet(room, all[k]));
        assert(levels[k] == all[k]);
    }
}

/// The ring shows how close a chunk comes to speech, in tenths of the level from
/// which it stands out, and never more than ten; the peak is the loudest chunk
/// since the room was measured.
pub proof fn the_ring_follows_the_level(l: Listener, level: u32)
    requires
        l.chunk_index >= 4,
    ensures
        ({
            let gate = if l.noise_floor * 3 >= 60 {
                l.noise_floor * 3
            } else {
                60
            };
            let shown = l.after(level).level_ui;
            &&& shown <= 10
            &&& shown == 10 <==> level >= gate
            &&& shown < 10 ==> shown * gate <= 10 * level < (shown + 1) * gate
        }),
        l.after(level).peak_level >= level,
        l.after(level).peak_level >= l.peak_level,
        l.after(level).peak_level == level || l.after(level).peak_level == l.peak_level,
{
    let gate = speech_gate(l.noise_floor);
    let q = level * 10 / gate;
    vstd::arithmetic::div_mod::lemma_fundamental_div_mod((level * 10) as int, gate);
    vstd::arithmetic::div_mod::lemma_mod_bound((level * 10) as int, gate);
    assert(gate * q == q * gate) by (nonlinear_arith);
    assert((q + 1) * gate == q * gate + gate) by (nonlinear_arith);
    assert(q >= 0) by (nonlinear_arith)
        requires
            q * gate + gate > 0,
            gate > 0,
    ;
    if level >= gate {
        assert(q >= 10) by (nonlinear_arith)
            requires
                level >= gate,
                (q + 1) * gate > level * 10,
                gate > 0,
        ;
    } else {
        assert(q < 10) by (nonlinear_arith)
            requires
                level < gate,
                q * gate <= level * 10,
                gate > 0,
        ;
    }
}

} // verus!
