//! The test tone: a pure sine, for hearing the output with nothing else in the
//! way.
use vstd::prelude::*;

verus! {

/// One cycle of a sine.
pub const SINE: [i16; 64] = [
    0, 1960, 3902, 5806, 7654, 9428, 11111, 12688, 14142, 15460, 16629, 17638, 18478, 19139, 19616,
    19904, 20000, 19904, 19616, 19139, 18478, 17638, 16629, 15460, 14142, 12688, 11111, 9428, 7654,
    5806, 3902, 1960, 0, -1960, -3902, -5806, -7654, -9428, -11111, -12688, -14142, -15460, -16629,
    -17638, -18478, -19139, -19616, -19904, -20000, -19904, -19616, -19139, -18478, -17638, -16629,
    -15460, -14142, -12688, -11111, -9428, -7654, -5806, -3902, -1960,
];

/// Bytes of one cycle.
pub const CYCLE_BYTES: usize = 128;

/// Bytes that the speaker plays per second.
pub const BYTES_PER_SEC: u64 = 48_000;

/// Bytes of the tone in one write: as many whole cycles as were asked for and fit
/// the buffer, one at least.
pub open spec fn tone_block(block_bytes: int, room: int) -> int {
    let most = if block_bytes < room {
        block_bytes
    } else {
        room
    };
    if most < 128 {
        128
    } else {
        most / 128 * 128
    }
}

/// The first byte of a sample.
pub open spec fn low_byte(v: i16) -> u8 {
    (if v < 0 {
        v + 65536
    } else {
        v as int
    } % 256) as u8
}

/// The second byte of a sample.
pub open spec fn high_byte(v: i16) -> u8 {
    (if v < 0 {
        v + 65536
    } else {
        v as int
    } / 256) as u8
}

/// Byte `b` of a tone that never ends.
pub open spec fn tone_byte(b: int) -> u8 {
    let v = SINE@[b / 2 % 64];
    if b % 2 == 0 {
        low_byte(v)
    } else {
        high_byte(v)
    }
}

/// How a tone is played.
#[derive(Debug, Clone, Copy, PartialEq, Eq, Structural)]
pub struct TonePlan {
    /// Bytes per write.
    pub block: usize,
    /// Writes.
    pub blocks: u64,
    /// Milliseconds that they play.
    pub expected_ms: u64,
}

/// Fills `tx` with the tone, in a block of about `block_bytes`, to be written
/// again and again for `secs` seconds.
pub fn prepare_tone(tx: &mut [u8], block_bytes: usize, secs: u32) -> (p: TonePlan)
    requires
        old(tx)@.len() >= 128,
    ensures
        final(tx)@.len() == old(tx)@.len(),
        p.block == tone_block(block_bytes as int, old(tx)@.len() as int),
        p.blocks == (if secs * BYTES_PER_SEC / (p.block as int) < 1 {
            1
        } else {
            secs * BYTES_PER_SEC / (p.block as int)
        }),
        p.expected_ms == p.blocks * p.block * 1000 / (BYTES_PER_SEC as int),
        forall|b: int|
            0 <= b < p.block ==> #[trigger] final(tx)@[b] == tone_byte(b),
        forall|b: int|
            p.block <= b < final(tx)@.len() ==> #[trigger] final(tx)@[b] == old(tx)@[b],
{
    let room: usize = tx.len();
    let most: usize = if block_bytes < room {
        block_bytes
    } else {
        room
    };
    let block: usize = if most < 128 {
        128
    } else {
        most / 128 * 128
    };
    let samples: usize = block / 2;
    let mut i: usize = 0;
    while i < samples
        invariant
            i <= samples,
            2 * samples == block <= room == tx@.len() == old(tx)@.len(),
            forall|b: int| 0 <= b < 2 * i ==> #[trigger] tx@[b] == tone_byte(b),
            forall|b: int| 2 * i <= b < tx@.len() ==> #[trigger] tx@[b] == old(tx)@[b],
        decreases samples - i,
    {
        let v: i16 = SINE[i % 64];
        let n: u16 = if v < 0 {
            (v as i32 + 65536) as u16
        } else {
            v as u16
        };
        tx[2 * i] = (n % 256) as u8;
        tx[2 * i + 1] = (n / 256) as u8;
        i += 1;
    }
    let bytes: u64 = secs as u64 * BYTES_PER_SEC;
    let fit: u64 = bytes / block as u64;
    let blocks: u64 = if fit < 1 {
        1
    } else {
        fit
    };
    assert(fit * block <= bytes) by (nonlinear_arith)
        requires
            block > 0,
            fit == bytes / (block as u64),
    ;
    assert(blocks * block <= u64::MAX) by (nonlinear_arith)
        requires
            blocks == fit || blocks == 1,
            fit * block <= bytes,
            bytes <= u64::MAX,
            block <= u64::MAX,
    ;
    let expected: u128 = blocks as u128 * block as u128 * 1000 / BYTES_PER_SEC as u128;
    TonePlan { block, blocks, expected_ms: expected as u64 }
}

/// A block can be repeated without a seam: what is heard, block after block, is
/// the tone that never ends.
pub proof fn tone_has_no_seam(block_bytes: int, room: int, repeat: int, b: int)
    requires
        0 <= block_bytes,
        128 <= room,
        repeat >= 0,
        0 <= b < tone_block(block_bytes, room),
    ensures
        tone_byte(repeat * tone_block(block_bytes, room) + b) == tone_byte(b),
{
    let block = tone_block(block_bytes, room);
    let cycles = block / 128;
    let k = repeat * cycles;
    assert(repeat * block == 128 * k) by (nonlinear_arith)
        requires
            block == 128 * cycles,
            k == repeat * cycles,
    ;
    let at = repeat * block + b;
    assert(at / 2 == 64 * k + b / 2);
    assert((64 * k + b / 2) % 64 == (b / 2) % 64);
}

/// The second half of the sine is the first one upside down, so a cycle adds up
/// to silence.
pub proof fn sine_is_balanced(i: int)
    requires
        0 <= i < 32,
    ensures
        SINE@[i + 32] == -SINE@[i],
{
}

/// The tone is a sine: it starts from silence, rises for a quarter of a cycle, each
/// step smaller than the one before, and falls the same way.
pub proof fn the_tone_is_a_sine(i: int)
    requires
        0 <= i < 16,
    ensures
        SINE@[0] == 0,
        SINE@[16] == 20_000,
        SINE@[i] < SINE@[i + 1],
        i > 0 ==> SINE@[i + 1] - SINE@[i] < SINE@[i] - SINE@[i - 1],
        SINE@[32 - i] == SINE@[i],
{
}

/// A block is whole cycles, as many as were asked for and fit, one at least.
pub proof fn tones_are_whole_cycles(block_bytes: int, room: int)
    requires
        0 <= block_bytes,
        128 <= room,
    ensures
        ({
            let n = tone_block(block_bytes, room);
            &&& n % 128 == 0 && 128 <= n <= room
            &&& n <= block_bytes || n == 128
            &&& n + 128 > block_bytes || n + 128 > room
        }),
{
}

} // verus!
