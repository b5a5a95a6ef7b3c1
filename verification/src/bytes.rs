//! Byte sequences: little-endian integers, copying and searching.
use vstd::prelude::*;
use vstd::slice::slice_subrange;

verus! {

/// The two little-endian bytes of `n`, modulo 2^16.
pub open spec fn le16(n: nat) -> Seq<u8> {
    seq![(n % 256) as u8, (n / 256 % 256) as u8]
}

/// The four little-endian bytes of `n`, modulo 2^32.
pub open spec fn le32(n: nat) -> Seq<u8> {
    seq![
        (n % 256) as u8,
        (n / 256 % 256) as u8,
        (n / 65536 % 256) as u8,
        (n / 16777216 % 256) as u8,
    ]
}

/// The integer whose little-endian bytes stand at `at`.
pub open spec fn le16_at(b: Seq<u8>, at: int) -> nat {
    b[at] as nat + 256 * b[at + 1] as nat
}

/// The integer whose little-endian bytes stand at `at`.
pub open spec fn le32_at(b: Seq<u8>, at: int) -> nat {
    b[at] as nat + 256 * b[at + 1] as nat + 65536 * b[at + 2] as nat + 16777216 * b[at + 3] as nat
}

/// Reading back what `le16` wrote gives the integer.
pub proof fn lemma_le16(n: nat, b: Seq<u8>, at: int)
    requires
        n < 65536,
        0 <= at,
        at + 2 <= b.len(),
        b.subrange(at, at + 2) == le16(n),
    ensures
        le16_at(b, at) == n,
{
    assert(b.subrange(at, at + 2)[0] == b[at]);
    assert(b.subrange(at, at + 2)[1] == b[at + 1]);
}

/// Reading back what `le32` wrote gives the integer.
pub proof fn lemma_le32(n: nat, b: Seq<u8>, at: int)
    requires
        n < 0x1_0000_0000,
        0 <= at,
        at + 4 <= b.len(),
        b.subrange(at, at + 4) == le32(n),
    ensures
        le32_at(b, at) == n,
{
    assert(b.subrange(at, at + 4)[0] == b[at]);
    assert(b.subrange(at, at + 4)[1] == b[at + 1]);
    assert(b.subrange(at, at + 4)[2] == b[at + 2]);
    assert(b.subrange(at, at + 4)[3] == b[at + 3]);
    assert(n / 65536 == n / 256 / 256);
    assert(n / 16777216 == n / 256 / 256 / 256);
}

/// Appends `more` to `out`.
pub fn append(out: &mut Vec<u8>, more: &[u8])
    ensures
        final(out)@ == old(out)@ + more@,
{
    out.extend_from_slice(more);
    assert(out@ =~= old(out)@ + more@);
}

/// Appends the UTF-8 bytes of `more` to `out`.
pub fn append_text(out: &mut Vec<u8>, more: &str)
    ensures
        final(out)@ == old(out)@ + vstd::utf8::encode_utf8(more@),
{
    append(out, more.as_bytes());
}

/// Appends the two little-endian bytes of `n`.
pub fn append_le16(out: &mut Vec<u8>, n: u16)
    ensures
        final(out)@ == old(out)@ + le16(n as nat),
{
    out.push((n % 256) as u8);
    out.push((n / 256) as u8);
    assert(out@ =~= old(out)@ + le16(n as nat));
}

/// Appends the four little-endian bytes of `n`.
pub fn append_le32(out: &mut Vec<u8>, n: u32)
    ensures
        final(out)@ == old(out)@ + le32(n as nat),
{
    out.push((n % 256) as u8);
    out.push((n / 256 % 256) as u8);
    out.push((n / 65536 % 256) as u8);
    out.push((n / 16777216) as u8);
    assert(out@ =~= old(out)@ + le32(n as nat));
}

/// Reads two little-endian bytes.
pub fn read_le16(b: &[u8], at: usize) -> (n: u16)
    requires
        at + 2 <= b@.len(),
    ensures
        n == le16_at(b@, at as int),
{
    b[at] as u16 + 256 * b[at + 1] as u16
}

/// Reads four little-endian bytes.
pub fn read_le32(b: &[u8], at: usize) -> (n: u32)
    requires
        at + 4 <= b@.len(),
    ensures
        n == le32_at(b@, at as int),
{
    b[at] as u32 + 256 * b[at + 1] as u32 + 65536 * b[at + 2] as u32 + 16777216 * b[at + 3] as u32
}

/// Overwrites `out[at..]` with `from`.
pub fn copy_at(out: &mut [u8], at: usize, from: &[u8])
    requires
        at + from@.len() <= old(out)@.len(),
    ensures
        final(out)@ == old(out)@.take(at as int) + from@ + old(out)@.skip(at + from@.len()),
{
    let ghost before = out@;
    let total: usize = out.len();
    let mut i: usize = 0;
    while i < from.len()
        invariant
            i <= from@.len(),
            at + from@.len() <= total == before.len(),
            out@ =~= before.take(at as int) + from@.take(i as int) + before.skip(at + i),
        decreases from@.len() - i,
    {
        out[at + i] = from[i];
        i += 1;
    }
    assert(from@.take(from@.len() as int) =~= from@);
}

/// Whether two byte strings are equal.
pub fn same_bytes(a: &[u8], b: &[u8]) -> (same: bool)
    ensures
        same == (a@ == b@),
{
    if a.len() != b.len() {
        return false;
    }
    let mut i: usize = 0;
    while i < a.len()
        invariant
            i <= a@.len() == b@.len(),
            forall|j: int| 0 <= j < i ==> a@[j] == b@[j],
        decreases a@.len() - i,
    {
        if a[i] != b[i] {
            return false;
        }
        i += 1;
    }
    assert(a@ =~= b@);
    true
}

/// Whether `needle` stands in `haystack` at `at`.
pub open spec fn occurs_at(haystack: Seq<u8>, needle: Seq<u8>, at: int) -> bool {
    &&& 0 <= at
    &&& at + needle.len() <= haystack.len()
    &&& haystack.subrange(at, at + needle.len()) == needle
}

/// The first place at which `needle` stands in `haystack`.
pub fn find(haystack: &[u8], needle: &[u8]) -> (r: Option<usize>)
    requires
        needle@.len() > 0,
    ensures
        match r {
            Some(p) => occurs_at(haystack@, needle@, p as int) && forall|q: int|
                0 <= q < p ==> !occurs_at(haystack@, needle@, q),
            None => forall|q: int| !occurs_at(haystack@, needle@, q),
        },
{
    let n: usize = needle.len();
    if haystack.len() < n {
        return None;
    }
    let last: usize = haystack.len() - n;
    let mut at: usize = 0;
    while at <= last
        invariant
            n == needle@.len() > 0,
            last + n == haystack@.len() == haystack.len(),
            at <= last + 1,
            forall|q: int| 0 <= q < at ==> !occurs_at(haystack@, needle@, q),
        decreases last + 1 - at,
    {
        if same_bytes(slice_subrange(haystack, at, at + n), needle) {
            return Some(at);
        }
        at += 1;
    }
    None
}

} // verus!
