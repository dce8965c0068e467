//! Little-endian integer encoding and byte-vector helpers shared by the
//! binary formats of the library (GLB containers, ZIP records, 3TZ indexes).
use vstd::prelude::*;

verus! {

/// Value of the two bytes of `s` at `i`, little-endian.
pub open spec fn le16_at(s: Seq<u8>, i: int) -> int {
    s[i] as int + 256 * (s[i + 1] as int)
}

/// Value of the four bytes of `s` at `i`, little-endian.
pub open spec fn le32_at(s: Seq<u8>, i: int) -> int {
    le16_at(s, i) + 65536 * le16_at(s, i + 2)
}

/// Value of the eight bytes of `s` at `i`, little-endian.
pub open spec fn le64_at(s: Seq<u8>, i: int) -> int {
    le32_at(s, i) + 4294967296 * le32_at(s, i + 4)
}

/// The four bytes of `v`, least significant first.
pub open spec fn le32_bytes(v: u32) -> Seq<u8> {
    seq![
        (v % 256) as u8,
        ((v / 256) % 256) as u8,
        ((v / 65536) % 256) as u8,
        (v / 16777216) as u8,
    ]
}

pub proof fn lemma_le16_bounds(s: Seq<u8>, i: int)
    requires
        0 <= i,
        i + 2 <= s.len(),
    ensures
        0 <= le16_at(s, i) < 65536,
{
}

pub proof fn lemma_le32_bounds(s: Seq<u8>, i: int)
    requires
        0 <= i,
        i + 4 <= s.len(),
    ensures
        0 <= le32_at(s, i) <= u32::MAX,
{
    lemma_le16_bounds(s, i);
    lemma_le16_bounds(s, i + 2);
}

pub proof fn lemma_le64_bounds(s: Seq<u8>, i: int)
    requires
        0 <= i,
        i + 8 <= s.len(),
    ensures
        0 <= le64_at(s, i) <= u64::MAX,
{
    lemma_le32_bounds(s, i);
    lemma_le32_bounds(s, i + 4);
}

/// Decoding the encoding of a `u32` gives it back.
pub proof fn lemma_le32_roundtrip(v: u32)
    ensures
        le32_at(le32_bytes(v), 0) == v,
{
    let s = le32_bytes(v);
    assert(s[0] == v % 256);
    assert(s[1] == (v / 256) % 256);
    assert(s[2] == (v / 65536) % 256);
    assert(s[3] == v / 16777216);
    assert((v % 256) + 256 * ((v / 256) % 256) + 65536 * (((v / 65536) % 256) + 256 * (v
        / 16777216)) == v) by (nonlinear_arith);
}

/// Bytes that spell `le32_bytes(v)` decode to `v`.
pub proof fn lemma_le32_decode_at(s: Seq<u8>, i: int, v: u32)
    requires
        0 <= i,
        i + 4 <= s.len(),
        s.subrange(i, i + 4) == le32_bytes(v),
    ensures
        le32_at(s, i) == v,
{
    lemma_le32_roundtrip(v);
    let t = le32_bytes(v);
    assert(s[i] == s.subrange(i, i + 4)[0]);
    assert(s[i + 1] == s.subrange(i, i + 4)[1]);
    assert(s[i + 2] == s.subrange(i, i + 4)[2]);
    assert(s[i + 3] == s.subrange(i, i + 4)[3]);
}

/// The two-byte value determines the bytes.
pub proof fn lemma_le16_injective(s: Seq<u8>, i: int, t: Seq<u8>, j: int)
    requires
        0 <= i,
        i + 2 <= s.len(),
        0 <= j,
        j + 2 <= t.len(),
        le16_at(s, i) == le16_at(t, j),
    ensures
        s[i] == t[j],
        s[i + 1] == t[j + 1],
{
    let a = s[i] as int;
    let b = s[i + 1] as int;
    let c = t[j] as int;
    let d = t[j + 1] as int;
    assert(b == d && a == c) by (nonlinear_arith)
        requires
            a + 256 * b == c + 256 * d,
            0 <= a < 256,
            0 <= c < 256,
    ;
}

/// The four-byte value determines the two halves.
pub proof fn lemma_le32_halves(s: Seq<u8>, i: int, t: Seq<u8>, j: int)
    requires
        0 <= i,
        i + 4 <= s.len(),
        0 <= j,
        j + 4 <= t.len(),
        le32_at(s, i) == le32_at(t, j),
    ensures
        le16_at(s, i) == le16_at(t, j),
        le16_at(s, i + 2) == le16_at(t, j + 2),
{
    lemma_le16_bounds(s, i);
    lemma_le16_bounds(t, j);
    let a = le16_at(s, i);
    let b = le16_at(s, i + 2);
    let c = le16_at(t, j);
    let d = le16_at(t, j + 2);
    assert(a + 65536 * b == c + 65536 * d);
    assert(b == d && a == c) by (nonlinear_arith)
        requires
            a + 65536 * b == c + 65536 * d,
            0 <= a < 65536,
            0 <= c < 65536,
    ;
}

/// The eight-byte value determines the bytes.
pub proof fn lemma_le64_injective(s: Seq<u8>, i: int, t: Seq<u8>, j: int)
    requires
        0 <= i,
        i + 8 <= s.len(),
        0 <= j,
        j + 8 <= t.len(),
        le64_at(s, i) == le64_at(t, j),
    ensures
        s.subrange(i, i + 8) == t.subrange(j, j + 8),
{
    lemma_le32_bounds(s, i);
    lemma_le32_bounds(t, j);
    let a = le32_at(s, i);
    let b = le32_at(s, i + 4);
    let c = le32_at(t, j);
    let d = le32_at(t, j + 4);
    assert(a + 4294967296 * b == c + 4294967296 * d);
    assert(b == d && a == c) by (nonlinear_arith)
        requires
            a + 4294967296 * b == c + 4294967296 * d,
            0 <= a < 4294967296,
            0 <= c < 4294967296,
    ;
    lemma_le32_halves(s, i, t, j);
    lemma_le32_halves(s, i + 4, t, j + 4);
    lemma_le16_injective(s, i, t, j);
    lemma_le16_injective(s, i + 2, t, j + 2);
    lemma_le16_injective(s, i + 4, t, j + 4);
    lemma_le16_injective(s, i + 6, t, j + 6);
    assert(s.subrange(i, i + 8) =~= t.subrange(j, j + 8));
}

/// Reads the little-endian `u16` at `i`.
pub fn read_u16_le(s: &[u8], i: usize) -> (r: u16)
    requires
        i + 2 <= s@.len(),
    ensures
        r == le16_at(s@, i as int),
{
    s[i] as u16 + (s[i + 1] as u16) * 256
}

/// Reads the little-endian `u32` at `i`.
pub fn read_u32_le(s: &[u8], i: usize) -> (r: u32)
    requires
        i + 4 <= s@.len(),
    ensures
        r == le32_at(s@, i as int),
{
    let _n = s.len();
    let lo = read_u16_le(s, i);
    let hi = read_u16_le(s, i + 2);
    lo as u32 + (hi as u32) * 65536
}

/// Reads the little-endian `u64` at `i`.
pub fn read_u64_le(s: &[u8], i: usize) -> (r: u64)
    requires
        i + 8 <= s@.len(),
    ensures
        r == le64_at(s@, i as int),
{
    let _n = s.len();
    let lo = read_u32_le(s, i);
    let hi = read_u32_le(s, i + 4);
    lo as u64 + (hi as u64) * 4294967296
}

/// Appends the four little-endian bytes of `v`.
pub fn push_u32_le(out: &mut Vec<u8>, v: u32)
    ensures
        final(out)@ == old(out)@ + le32_bytes(v),
{
    out.push((v % 256) as u8);
    out.push(((v / 256) % 256) as u8);
    out.push(((v / 65536) % 256) as u8);
    out.push((v / 16777216) as u8);
    assert(final(out)@ =~= old(out)@ + le32_bytes(v));
}

/// Appends all of `s`.
pub fn push_all(out: &mut Vec<u8>, s: &[u8])
    ensures
        final(out)@ == old(out)@ + s@,
{
    let ghost start = out@;
    let mut i: usize = 0;
    while i < s.len()
        invariant
            i <= s@.len(),
            out@ == start + s@.subrange(0, i as int),
        decreases s@.len() - i,
    {
        out.push(s[i]);
        i = i + 1;
        assert(out@ =~= start + s@.subrange(0, i as int));
    }
    assert(s@.subrange(0, s@.len() as int) =~= s@);
}

/// Appends `n` copies of `b`.
pub fn push_repeat(out: &mut Vec<u8>, b: u8, n: usize)
    ensures
        final(out)@ == old(out)@ + Seq::new(n as nat, |_i: int| b),
{
    let ghost start = out@;
    let mut i: usize = 0;
    while i < n
        invariant
            i <= n,
            out@ == start + Seq::new(i as nat, |_i: int| b),
        decreases n - i,
    {
        out.push(b);
        i = i + 1;
        assert(out@ =~= start + Seq::new(i as nat, |_i: int| b));
    }
}

/// A copy of `s[i..j]`.
pub fn copy_range(s: &[u8], i: usize, j: usize) -> (r: Vec<u8>)
    requires
        i <= j <= s@.len(),
    ensures
        r@ == s@.subrange(i as int, j as int),
{
    vstd::slice::slice_to_vec(vstd::slice::slice_subrange(s, i, j))
}

/// Whether the bytes of `s` at `i` equal `pat`.
pub open spec fn bytes_at(s: Seq<u8>, i: int, pat: Seq<u8>) -> bool {
    0 <= i && i + pat.len() <= s.len() && s.subrange(i, i + pat.len()) == pat
}

/// Tests `bytes_at`.
pub fn has_bytes_at(s: &[u8], i: usize, pat: &[u8]) -> (r: bool)
    ensures
        r == bytes_at(s@, i as int, pat@),
{
    if i > s.len() || pat.len() > s.len() - i {
        return false;
    }
    let mut k: usize = 0;
    while k < pat.len()
        invariant
            i + pat@.len() <= s@.len(),
            s@.len() == s.len(),
            k <= pat@.len(),
            forall|m: int| 0 <= m < k ==> s@[i + m] == pat@[m],
        decreases pat@.len() - k,
    {
        if s[i + k] != pat[k] {
            assert(s@.subrange(i as int, i + pat@.len())[k as int] != pat@[k as int]);
            return false;
        }
        k = k + 1;
    }
    assert(s@.subrange(i as int, i + pat@.len()) =~= pat@);
    true
}

} // verus!
