//! CRC-32 (IEEE 802.3), bit-serial.
use vstd::prelude::*;

verus! {

/// The reflected generator polynomial.
pub const POLYNOMIAL: u32 = 0xEDB8_8320;

/// The register after one more message bit has been shifted in.
pub open spec fn crc_bit(reg: u32, bit: bool) -> u32 {
    if ((reg & 1) == 1) != bit {
        (reg >> 1) ^ 0xEDB8_8320u32
    } else {
        reg >> 1
    }
}

/// Bit `k` of `byte`, counted from the least significant.
pub open spec fn bit_of(byte: u8, k: nat) -> bool {
    ((byte as u32) >> (k as u32)) & 1 == 1
}

/// The register after the low `k` bits of `byte`, least significant first.
pub open spec fn crc_bits(reg: u32, byte: u8, k: nat) -> u32
    decreases k,
{
    if k == 0 {
        reg
    } else {
        crc_bit(crc_bits(reg, byte, (k - 1) as nat), bit_of(byte, (k - 1) as nat))
    }
}

/// The register after all of `data`, starting from all ones.
pub open spec fn crc_register(data: Seq<u8>) -> u32
    decreases data.len(),
{
    if data.len() == 0 {
        0xFFFF_FFFF
    } else {
        crc_bits(crc_register(data.drop_last()), data.last(), 8)
    }
}

/// The checksum of `data`: the register, complemented.
pub open spec fn crc32_of(data: Seq<u8>) -> u32 {
    !crc_register(data)
}

/// Adding a whole byte to the register and then shifting is the same as
/// shifting the byte in bit by bit.
proof fn lemma_shift(reg: u32, x: u32)
    ensures
        (if (reg ^ x) & 1 == 1 {
            ((reg ^ x) >> 1) ^ 0xEDB8_8320u32
        } else {
            (reg ^ x) >> 1
        }) == crc_bit(reg, x & 1 == 1) ^ (x >> 1),
{
    assert((if (reg ^ x) & 1 == 1 {
        ((reg ^ x) >> 1) ^ 0xEDB8_8320u32
    } else {
        (reg ^ x) >> 1
    }) == (if ((reg & 1) == 1) != (x & 1 == 1) {
        (reg >> 1) ^ 0xEDB8_8320u32
    } else {
        reg >> 1
    }) ^ (x >> 1)) by (bit_vector);
}

/// The checksum of `data`.
pub fn crc32(data: &[u8]) -> (crc: u32)
    ensures
        crc == crc32_of(data@),
{
    let mut crc: u32 = 0xFFFF_FFFF;
    let mut i: usize = 0;
    while i < data.len()
        invariant
            i <= data@.len(),
            crc == crc_register(data@.take(i as int)),
        decreases data@.len() - i,
    {
        let byte: u8 = data[i];
        let ghost start = crc;
        crc = crc ^ (byte as u32);
        let mut k: u32 = 0;
        assert((byte as u32) >> 0u32 == byte as u32) by (bit_vector);
        while k < 8
            invariant
                k <= 8,
                crc == crc_bits(start, byte, k as nat) ^ ((byte as u32) >> k),
            decreases 8 - k,
        {
            proof {
                lemma_shift(crc_bits(start, byte, k as nat), (byte as u32) >> k);
                assert(((byte as u32) >> k) >> 1 == (byte as u32) >> ((k + 1) as u32))
                    by (bit_vector)
                    requires
                        k < 8,
                ;
            }
            crc = if crc & 1 == 1 {
                (crc >> 1) ^ POLYNOMIAL
            } else {
                crc >> 1
            };
            k += 1;
        }
        proof {
            let done = crc_bits(start, byte, 8);
            assert(done ^ ((byte as u32) >> 8u32) == done) by (bit_vector);
            assert(data@.take(i + 1).drop_last() =~= data@.take(i as int));
        }
        i += 1;
    }
    assert(data@.take(data@.len() as int) =~= data@);
    !crc
}

/// Two registers that agree after the same bit agreed before it.
proof fn lemma_crc_bit_injective(a: u32, b: u32, bit: bool)
    requires
        crc_bit(a, bit) == crc_bit(b, bit),
    ensures
        a == b,
{
    assert(a == b) by (bit_vector)
        requires
            (if ((a & 1) == 1) != bit {
                (a >> 1) ^ 0xEDB8_8320u32
            } else {
                a >> 1
            }) == (if ((b & 1) == 1) != bit {
                (b >> 1) ^ 0xEDB8_8320u32
            } else {
                b >> 1
            }),
    ;
}

/// Two registers that agree after the same bits agreed before them.
proof fn lemma_crc_bits_injective(a: u32, b: u32, byte: u8, k: nat)
    requires
        crc_bits(a, byte, k) == crc_bits(b, byte, k),
    ensures
        a == b,
    decreases k,
{
    if k > 0 {
        let j = (k - 1) as nat;
        lemma_crc_bit_injective(crc_bits(a, byte, j), crc_bits(b, byte, j), bit_of(byte, j));
        lemma_crc_bits_injective(a, b, byte, j);
    }
}

/// From one register, different bytes lead to different registers.
proof fn lemma_crc_byte_distinct(reg: u32, x: u8, y: u8)
    requires
        crc_bits(reg, x, 8) == crc_bits(reg, y, 8),
    ensures
        x == y,
{
    lemma_byte_as_shifts(reg, x, 8);
    lemma_byte_as_shifts(reg, y, 8);
    let a = reg ^ (x as u32);
    let b = reg ^ (y as u32);
    let wx = x as u32;
    let wy = y as u32;
    assert(wx >> 8u32 == 0) by (bit_vector)
        requires
            wx < 256,
    ;
    assert(wy >> 8u32 == 0) by (bit_vector)
        requires
            wy < 256,
    ;
    let ra = crc_bits(reg, x, 8);
    let rb = crc_bits(reg, y, 8);
    assert(ra ^ 0u32 == ra) by (bit_vector);
    assert(rb ^ 0u32 == rb) by (bit_vector);
    lemma_crc_bits_injective(a, b, 0, 8);
    assert(wx == wy) by (bit_vector)
        requires
            reg ^ wx == reg ^ wy,
    ;
}

/// Shifting in `k` bits of `byte` differs from shifting `k` zero bits into
/// the register with the byte already added only by the bits not yet shifted.
proof fn lemma_byte_as_shifts(reg: u32, byte: u8, k: nat)
    requires
        k <= 8,
    ensures
        crc_bits(reg ^ (byte as u32), 0, k) == crc_bits(reg, byte, k) ^ ((byte as u32) >> (k as u32)),
    decreases k,
{
    let w = byte as u32;
    if k == 0 {
        assert(w >> 0u32 == w) by (bit_vector);
    } else {
        let j = (k - 1) as nat;
        let jw = j as u32;
        lemma_byte_as_shifts(reg, byte, j);
        lemma_shift(crc_bits(reg, byte, j), w >> jw);
        assert(0u32 >> jw == 0) by (bit_vector);
        assert(0u32 & 1 == 0) by (bit_vector);
        assert((w >> jw) >> 1 == w >> ((jw + 1) as u32)) by (bit_vector)
            requires
                jw < 8,
        ;
    }
}

/// Registers that differ still differ after the same further bytes.
proof fn lemma_crc_tail_distinct(a: Seq<u8>, b: Seq<u8>, tail: Seq<u8>)
    requires
        crc_register(a) != crc_register(b),
    ensures
        crc_register(a + tail) != crc_register(b + tail),
    decreases tail.len(),
{
    if tail.len() == 0 {
        assert(a + tail =~= a);
        assert(b + tail =~= b);
    } else {
        lemma_crc_tail_distinct(a, b, tail.drop_last());
        assert((a + tail).drop_last() =~= a + tail.drop_last());
        assert((b + tail).drop_last() =~= b + tail.drop_last());
        if crc_register(a + tail) == crc_register(b + tail) {
            lemma_crc_bits_injective(
                crc_register(a + tail.drop_last()),
                crc_register(b + tail.drop_last()),
                tail.last(),
                8,
            );
        }
    }
}

/// Changing any one byte of a message changes its checksum.
pub proof fn crc_detects_any_changed_byte(data: Seq<u8>, at: int, byte: u8)
    requires
        0 <= at < data.len(),
        byte != data[at],
    ensures
        crc32_of(data.update(at, byte)) != crc32_of(data),
{
    let head = data.take(at);
    let tail = data.skip(at + 1);
    let a = head.push(data[at]);
    let b = head.push(byte);
    assert(a.drop_last() =~= head);
    assert(b.drop_last() =~= head);
    if crc_register(a) == crc_register(b) {
        lemma_crc_byte_distinct(crc_register(head), data[at], byte);
    }
    lemma_crc_tail_distinct(a, b, tail);
    assert(a + tail =~= data);
    assert(b + tail =~= data.update(at, byte));
    let x = crc_register(data);
    let y = crc_register(data.update(at, byte));
    assert(!x != !y) by (bit_vector)
        requires
            x != y,
    ;
}

} // verus!
