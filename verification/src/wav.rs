//! WAV framing of 16-bit mono audio.
use crate::bytes::{append, append_le16, append_le32, read_le16, read_le32};
use vstd::prelude::*;

verus! {

/// `RIFF`
pub const ID_RIFF: [u8; 4] = [0x52, 0x49, 0x46, 0x46];

/// `WAVE`
pub const ID_WAVE: [u8; 4] = [0x57, 0x41, 0x56, 0x45];

/// `fmt `
pub const ID_FMT: [u8; 4] = [0x66, 0x6D, 0x74, 0x20];

/// `data`
pub const ID_DATA: [u8; 4] = [0x64, 0x61, 0x74, 0x61];

/// The header of `pcm_len` bytes of 16-bit mono audio. Lengths are 32 bits
/// wide, and wrap around beyond that.
pub open spec fn header(pcm_len: nat, sample_rate: nat) -> Seq<u8> {
    ID_RIFF@ + crate::bytes::le32(36 + pcm_len) + ID_WAVE@ + ID_FMT@ + crate::bytes::le32(16)
        + crate::bytes::le16(1) + crate::bytes::le16(1) + crate::bytes::le32(sample_rate)
        + crate::bytes::le32(2 * sample_rate) + crate::bytes::le16(2) + crate::bytes::le16(16)
        + ID_DATA@ + crate::bytes::le32(pcm_len)
}

/// The bytes of `n`, modulo 2^32, as a header stores them.
fn append_len(out: &mut Vec<u8>, n: u64)
    ensures
        final(out)@ == old(out)@ + crate::bytes::le32(n as nat),
{
    out.push((n % 256) as u8);
    out.push((n / 256 % 256) as u8);
    out.push((n / 65536 % 256) as u8);
    out.push((n / 16777216 % 256) as u8);
    assert(out@ =~= old(out)@ + crate::bytes::le32(n as nat));
}

/// The header as bytes.
fn header_bytes(pcm_len: usize, sample_rate: u32) -> (h: Vec<u8>)
    requires
        sample_rate * 2 <= u32::MAX,
        36 + pcm_len <= usize::MAX,
    ensures
        h@ == header(pcm_len as nat, sample_rate as nat),
        h@.len() == 44,
{
    let mut h: Vec<u8> = Vec::new();
    append(&mut h, &ID_RIFF);
    append_len(&mut h, (36 + pcm_len) as u64);
    append(&mut h, &ID_WAVE);
    append(&mut h, &ID_FMT);
    append_le32(&mut h, 16);
    append_le16(&mut h, 1);
    append_le16(&mut h, 1);
    append_le32(&mut h, sample_rate);
    append_le32(&mut h, sample_rate * 2);
    append_le16(&mut h, 2);
    append_le16(&mut h, 16);
    append(&mut h, &ID_DATA);
    append_len(&mut h, pcm_len as u64);
    assert(h@ =~= header(pcm_len as nat, sample_rate as nat));
    h
}

/// The header of `pcm_len` bytes of audio at `sample_rate`.
pub fn build_wav_header(pcm_len: usize, sample_rate: u32) -> (h: [u8; 44])
    requires
        sample_rate * 2 <= u32::MAX,
        36 + pcm_len <= usize::MAX,
    ensures
        h@ == header(pcm_len as nat, sample_rate as nat),
{
    let bytes = header_bytes(pcm_len, sample_rate);
    let mut h: [u8; 44] = [0; 44];
    let mut i: usize = 0;
    while i < 44
        invariant
            i <= 44,
            bytes@.len() == 44,
            h@.len() == 44,
            forall|j: int| 0 <= j < i ==> h@[j] == bytes@[j],
        decreases 44 - i,
    {
        h[i] = bytes[i];
        i += 1;
    }
    assert(h@ =~= bytes@);
    h
}

/// A header and the audio behind it.
pub fn wav_bytes(pcm: &[u8], sample_rate: u32) -> (out: Vec<u8>)
    requires
        sample_rate * 2 <= u32::MAX,
        44 + pcm@.len() <= usize::MAX,
    ensures
        out@ == header(pcm@.len(), sample_rate as nat) + pcm@,
{
    let mut out = header_bytes(pcm.len(), sample_rate);
    append(&mut out, pcm);
    out
}

// ---------- Reading ----------
/// Whether the chunk at `at` has the given id.
pub open spec fn is_chunk(wav: Seq<u8>, at: int, id: Seq<u8>) -> bool {
    wav.subrange(at, at + 4) == id
}

/// The place of the first chunk with the given id, at or behind `at`: chunks
/// follow each other, each with an id, a length, and as many bytes, one more if
/// they are odd.
pub open spec fn chunk_from(wav: Seq<u8>, at: int, id: Seq<u8>) -> Option<int>
    decreases
            if at <= wav.len() {
                wav.len() - at
            } else {
                0
            },
{
    if at < 0 || at + 8 > wav.len() {
        None
    } else if is_chunk(wav, at, id) {
        Some(at)
    } else {
        chunk_from(wav, at + 8 + next_even(crate::bytes::le32_at(wav, at + 4) as int), id)
    }
}

pub open spec fn next_even(n: int) -> int {
    (n + 1) / 2 * 2
}

/// The place of the first chunk with the given id.
fn find_chunk(wav: &[u8], id: &[u8; 4]) -> (r: Option<usize>)
    ensures
        match r {
            Some(at) => chunk_from(wav@, 12, id@) == Some(at as int) && 12 <= at && at + 8
                <= wav@.len(),
            None => chunk_from(wav@, 12, id@) is None,
        },
{
    let total: usize = wav.len();
    if total < 20 {
        return None;
    }
    let mut at: usize = 12;
    while total - at >= 8
        invariant
            20 <= total == wav@.len(),
            12 <= at <= total,
            id@.len() == 4,
            chunk_from(wav@, 12, id@) == chunk_from(wav@, at as int, id@),
        decreases total - at,
    {
        assert(wav@.subrange(at as int, at + 4) =~= seq![
            wav@[at as int],
            wav@[at + 1],
            wav@[at + 2],
            wav@[at + 3],
        ]);
        if wav[at] == id[0] && wav[at + 1] == id[1] && wav[at + 2] == id[2] && wav[at + 3]
            == id[3] {
            assert(wav@.subrange(at as int, at + 4) =~= id@);
            return Some(at);
        }
        assert(wav@.subrange(at as int, at + 4) != id@) by {
            let s = wav@.subrange(at as int, at + 4);
            assert(s == id@ ==> s[0] == id@[0] && s[1] == id@[1] && s[2] == id@[2] && s[3]
                == id@[3]);
        }
        let len: u64 = read_le32(wav, at + 4) as u64;
        let step: u64 = 8 + (len + 1) / 2 * 2;
        if step > (total - at) as u64 {
            assert(chunk_from(wav@, at + step as int, id@) is None);
            return None;
        }
        at = at + step as usize;
    }
    None
}

/// Where the audio begins: behind the head of the data chunk, or past the end
/// where there is none.
pub fn find_data_chunk(wav: &[u8]) -> (start: usize)
    ensures
        start == (match chunk_from(wav@, 12, ID_DATA@) {
            Some(at) => at + 8,
            None => wav@.len() as int,
        }),
        start <= wav@.len(),
{
    let total: usize = wav.len();
    match find_chunk(wav, &ID_DATA) {
        Some(at) => at + 8,
        None => total,
    }
}

/// The length that the data chunk states, unless it is one of the two that
/// stand in while the length is not known yet: none at all, and the largest.
pub fn data_chunk_len(wav: &[u8]) -> (r: Option<usize>)
    ensures
        r == (match chunk_from(wav@, 12, ID_DATA@) {
            Some(at) => {
                let n = crate::bytes::le32_at(wav@, at + 4);
                if n == 0 || n == 0xFFFF_FFFF {
                    None::<usize>
                } else {
                    Some(n as usize)
                }
            },
            None => None::<usize>,
        }),
{
    let total: usize = wav.len();
    match find_chunk(wav, &ID_DATA) {
        Some(at) => {
            assert(at + 8 <= total);
            let n: u32 = read_le32(wav, at + 4);
            if n == 0 || n == 0xFFFF_FFFF {
                None
            } else {
                Some(n as usize)
            }
        },
        None => None,
    }
}

/// What a format chunk says: coding, channels, samples per second, and bits per
/// sample.
pub fn parse_fmt(wav: &[u8]) -> (r: Option<(u16, u16, u32, u16)>)
    ensures
        r is Some <==> (chunk_from(wav@, 12, ID_FMT@) matches Some(at) && at + 24 <= wav@.len()),
        r matches Some(f) ==> {
            let at = chunk_from(wav@, 12, ID_FMT@)->0;
            &&& f.0 == crate::bytes::le16_at(wav@, at + 8)
            &&& f.1 == crate::bytes::le16_at(wav@, at + 10)
            &&& f.2 == crate::bytes::le32_at(wav@, at + 12)
            &&& f.3 == crate::bytes::le16_at(wav@, at + 22)
        },
{
    match find_chunk(wav, &ID_FMT) {
        Some(at) => {
            if wav.len() - at < 24 {
                return None;
            }
            Some(
                (
                    read_le16(wav, at + 8),
                    read_le16(wav, at + 10),
                    read_le32(wav, at + 12),
                    read_le16(wav, at + 22),
                ),
            )
        },
        None => None,
    }
}

/// What was written is what is read: the audio begins behind the header, has
/// the length it was given, and the format says what it is.
pub proof fn written_audio_reads_back(pcm: Seq<u8>, sample_rate: nat)
    requires
        36 + pcm.len() < 0xFFFF_FFFF,
        2 * sample_rate < 0x1_0000_0000,
    ensures
        ({
            let wav = header(pcm.len(), sample_rate) + pcm;
            &&& chunk_from(wav, 12, ID_DATA@) == Some(36int)
            &&& wav.skip(44) == pcm
            &&& crate::bytes::le32_at(wav, 40) == pcm.len()
            &&& chunk_from(wav, 12, ID_FMT@) == Some(12int)
            &&& crate::bytes::le16_at(wav, 20) == 1
            &&& crate::bytes::le16_at(wav, 22) == 1
            &&& crate::bytes::le32_at(wav, 24) == sample_rate
            &&& crate::bytes::le16_at(wav, 34) == 16
        }),
{
    let wav = header(pcm.len(), sample_rate) + pcm;
    assert(ID_RIFF@.len() == 4 && ID_WAVE@.len() == 4 && ID_FMT@.len() == 4 && ID_DATA@.len()
        == 4);
    assert(wav.subrange(12, 16) =~= ID_FMT@);
    assert(wav.subrange(16, 20) =~= crate::bytes::le32(16));
    crate::bytes::lemma_le32(16, wav, 16);
    assert(wav.subrange(20, 22) =~= crate::bytes::le16(1));
    crate::bytes::lemma_le16(1, wav, 20);
    assert(wav.subrange(22, 24) =~= crate::bytes::le16(1));
    crate::bytes::lemma_le16(1, wav, 22);
    assert(wav.subrange(24, 28) =~= crate::bytes::le32(sample_rate));
    crate::bytes::lemma_le32(sample_rate, wav, 24);
    assert(wav.subrange(34, 36) =~= crate::bytes::le16(16));
    crate::bytes::lemma_le16(16, wav, 34);
    assert(wav.subrange(36, 40) =~= ID_DATA@);
    assert(wav.subrange(40, 44) =~= crate::bytes::le32(pcm.len()));
    crate::bytes::lemma_le32(pcm.len(), wav, 40);
    assert(wav.skip(44) =~= pcm);
    assert(ID_FMT@[0] == 0x66 && ID_DATA@[0] == 0x64);
    assert(chunk_from(wav, 36, ID_DATA@) == Some(36int));
    assert(chunk_from(wav, 12, ID_DATA@) == chunk_from(wav, 36, ID_DATA@));
}

/// A header is that of a sound file: the marks that are known by, the length of all
/// that follows, and the speed in bytes, of two bytes a sample.
pub proof fn headers_are_those_of_a_sound_file(pcm_len: nat, sample_rate: nat)
    requires
        36 + pcm_len < 0xFFFF_FFFF,
        2 * sample_rate < 0x1_0000_0000,
    ensures
        ({
            let h = header(pcm_len, sample_rate);
            &&& h.len() == 44
            &&& h[0] == 'R' as int && h[1] == 'I' as int && h[2] == 'F' as int && h[3] == 'F' as int
            &&& crate::bytes::le32_at(h, 4) == 36 + pcm_len
            &&& h[8] == 'W' as int && h[9] == 'A' as int && h[10] == 'V' as int && h[11]
                == 'E' as int
            &&& h[12] == 'f' as int && h[13] == 'm' as int && h[14] == 't' as int && h[15]
                == ' ' as int
            &&& crate::bytes::le32_at(h, 16) == 16
            &&& crate::bytes::le32_at(h, 28) == 2 * sample_rate
            &&& crate::bytes::le16_at(h, 32) == 2
            &&& h[36] == 'd' as int && h[37] == 'a' as int && h[38] == 't' as int && h[39]
                == 'a' as int
            &&& crate::bytes::le32_at(h, 40) == pcm_len
        }),
{
    let h = header(pcm_len, sample_rate);
    assert(ID_RIFF@.len() == 4 && ID_WAVE@.len() == 4 && ID_FMT@.len() == 4 && ID_DATA@.len()
        == 4);
    assert(ID_RIFF@[0] == 0x52 && ID_RIFF@[1] == 0x49 && ID_RIFF@[2] == 0x46 && ID_RIFF@[3]
        == 0x46);
    assert(ID_WAVE@[0] == 0x57 && ID_WAVE@[1] == 0x41 && ID_WAVE@[2] == 0x56 && ID_WAVE@[3]
        == 0x45);
    assert(ID_FMT@[0] == 0x66 && ID_FMT@[1] == 0x6D && ID_FMT@[2] == 0x74 && ID_FMT@[3] == 0x20);
    assert(ID_DATA@[0] == 0x64 && ID_DATA@[1] == 0x61 && ID_DATA@[2] == 0x74 && ID_DATA@[3]
        == 0x61);
    assert(h.subrange(4, 8) =~= crate::bytes::le32(36 + pcm_len));
    crate::bytes::lemma_le32(36 + pcm_len, h, 4);
    assert(h.subrange(16, 20) =~= crate::bytes::le32(16));
    crate::bytes::lemma_le32(16, h, 16);
    assert(h.subrange(28, 32) =~= crate::bytes::le32(2 * sample_rate));
    crate::bytes::lemma_le32(2 * sample_rate, h, 28);
    assert(h.subrange(32, 34) =~= crate::bytes::le16(2));
    crate::bytes::lemma_le16(2, h, 32);
    assert(h.subrange(40, 44) =~= crate::bytes::le32(pcm_len));
    crate::bytes::lemma_le32(pcm_len, h, 40);
}

/// A chunk is found behind others, whatever they hold: each is passed over by the
/// length that it states, and the odd byte that an odd length leaves.
pub proof fn chunks_are_found_behind_others(wav: Seq<u8>, at: int, id: Seq<u8>)
    requires
        0 <= at,
        at + 8 <= wav.len(),
    ensures
        wav.subrange(at, at + 4) == id ==> chunk_from(wav, at, id) == Some(at),
        wav.subrange(at, at + 4) != id ==> ({
            let n = crate::bytes::le32_at(wav, at + 4) as int;
            let next = at + 8 + n + n % 2;
            chunk_from(wav, at, id) == (if next + 8 <= wav.len() {
                chunk_from(wav, next, id)
            } else {
                None
            })
        }),
{
}

} // verus!
