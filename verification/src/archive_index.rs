//! The index of a 3TZ archive: entries sorted by the MD5 of their path,
//! each giving the offset of the entry's local file header.
use vstd::prelude::*;
use core::cmp::Ordering;
use crate::bytes_le::{le64_at, read_u64_le, lemma_le64_bounds, lemma_le64_injective};

verus! {

/// One index entry: the MD5 of an entry's path and the offset of its
/// local file header.
#[derive(Clone, Copy, Debug, PartialEq, Eq)]
pub struct IndexEntry {
    pub path_md5: [u8; 16],
    pub offset: u64,
}

/// A 3TZ archive index.
pub struct ArchiveIndex {
    pub entries: Vec<IndexEntry>,
}

/// The sort key of a path hash: its first eight bytes read as a
/// little-endian `u64`, then its last eight.
pub open spec fn md5_key(m: Seq<u8>) -> int {
    le64_at(m, 0) * 18446744073709551616 + le64_at(m, 8)
}

/// Whether entries are in ascending key order.
pub open spec fn sorted_by_md5(e: Seq<IndexEntry>) -> bool {
    forall|i: int, j: int|
        0 <= i <= j < e.len() ==> md5_key(#[trigger] e[i].path_md5@) <= md5_key(
            #[trigger] e[j].path_md5@,
        )
}

/// Two hashes with the same key are the same hash.
pub proof fn lemma_md5_key_injective(a: Seq<u8>, b: Seq<u8>)
    requires
        a.len() == 16,
        b.len() == 16,
        md5_key(a) == md5_key(b),
    ensures
        a == b,
{
    lemma_le64_bounds(a, 0);
    lemma_le64_bounds(a, 8);
    lemma_le64_bounds(b, 0);
    lemma_le64_bounds(b, 8);
    let ah = le64_at(a, 0);
    let al = le64_at(a, 8);
    let bh = le64_at(b, 0);
    let bl = le64_at(b, 8);
    assert(ah == bh && al == bl) by (nonlinear_arith)
        requires
            ah * 18446744073709551616 + al == bh * 18446744073709551616 + bl,
            0 <= al < 18446744073709551616,
            0 <= bl < 18446744073709551616,
    ;
    lemma_le64_injective(a, 0, b, 0);
    lemma_le64_injective(a, 8, b, 8);
    assert(a =~= a.subrange(0, 8) + a.subrange(8, 16));
    assert(b =~= b.subrange(0, 8) + b.subrange(8, 16));
}

/// The two halves of a hash, as read for ordering.
fn md5_halves(m: &[u8; 16]) -> (r: (u64, u64))
    ensures
        r.0 == le64_at(m@, 0),
        r.1 == le64_at(m@, 8),
        md5_key(m@) == r.0 * 18446744073709551616 + r.1,
{
    let s = m.as_slice();
    (read_u64_le(s, 0), read_u64_le(s, 8))
}

proof fn lemma_key_order(ah: u64, al: u64, bh: u64, bl: u64)
    ensures
        ah < bh ==> ah * 18446744073709551616 + al < bh * 18446744073709551616 + bl,
        ah > bh ==> ah * 18446744073709551616 + al > bh * 18446744073709551616 + bl,
{
    assert(ah < bh ==> ah * 18446744073709551616 + al < bh * 18446744073709551616 + bl)
        by (nonlinear_arith)
        requires
            0 <= al < 18446744073709551616,
            0 <= bl < 18446744073709551616,
    ;
    assert(ah > bh ==> ah * 18446744073709551616 + al > bh * 18446744073709551616 + bl)
        by (nonlinear_arith)
        requires
            0 <= al < 18446744073709551616,
            0 <= bl < 18446744073709551616,
    ;
}

/// Whether the key of `a` is greater than that of `b`.
fn md5_greater(a: &[u8; 16], b: &[u8; 16]) -> (r: bool)
    ensures
        r == (md5_key(a@) > md5_key(b@)),
{
    let (hi_a, lo_a) = md5_halves(a);
    let (hi_b, lo_b) = md5_halves(b);
    proof {
        lemma_le64_bounds(a@, 8);
        lemma_le64_bounds(b@, 8);
        lemma_key_order(hi_a, lo_a, hi_b, lo_b);
    }
    hi_a > hi_b || (hi_a == hi_b && lo_a > lo_b)
}

/// Sorts entries by the key of their path hash (insertion sort, equal keys
/// in their original order).
fn sort_by_md5(entries: &mut Vec<IndexEntry>)
    ensures
        final(entries)@.to_multiset() == old(entries)@.to_multiset(),
        sorted_by_md5(final(entries)@),
{
    broadcast use vstd::seq_lib::group_to_multiset_ensures;

    let ghost input = entries@;
    let mut out: Vec<IndexEntry> = Vec::new();
    let mut i: usize = 0;
    assert(input.take(0) =~= Seq::<IndexEntry>::empty());
    while i < entries.len()
        invariant
            entries@ == input,
            i <= input.len(),
            out@.to_multiset() == input.take(i as int).to_multiset(),
            sorted_by_md5(out@),
        decreases input.len() - i,
    {
        let e = entries[i];
        let mut p: usize = out.len();
        while p > 0 && md5_greater(&out[p - 1].path_md5, &e.path_md5)
            invariant
                p <= out@.len(),
                sorted_by_md5(out@),
                forall|m: int|
                    p <= m < out@.len() ==> md5_key(#[trigger] out@[m].path_md5@) > md5_key(
                        e.path_md5@,
                    ),
            decreases p,
        {
            p = p - 1;
        }
        let ghost before = out@;
        proof {
            assert forall|m: int| 0 <= m < p implies md5_key(#[trigger] before[m].path_md5@)
                <= md5_key(e.path_md5@) by {
                assert(md5_key(before[m].path_md5@) <= md5_key(before[p - 1].path_md5@));
            }
        }
        out.insert(p, e);
        proof {
            vstd::seq_lib::to_multiset_insert(before, p as int, e);
            assert(input.take(i + 1) =~= input.take(i as int).push(e));
            input.take(i as int).to_multiset_ensures();
            assert(input.take(i + 1).to_multiset() =~= input.take(i as int).to_multiset().insert(e));
            assert(out@.to_multiset() =~= before.to_multiset().insert(e));
            before.insert_ensures(p as int, e);
            let o = out@;
            assert forall|a: int, b: int| 0 <= a <= b < o.len() implies md5_key(
                #[trigger] o[a].path_md5@,
            ) <= md5_key(#[trigger] o[b].path_md5@) by {
                if b < p {
                    assert(o[a] == before[a] && o[b] == before[b]);
                } else if b == p {
                    if a < p {
                        assert(o[a] == before[a]);
                    }
                } else if a < p {
                    assert(o[a] == before[a] && o[b] == before[b - 1]);
                } else if a == p {
                    assert(o[b] == before[b - 1]);
                } else {
                    assert(o[a] == before[a - 1] && o[b] == before[b - 1]);
                }
            }
        }
        i = i + 1;
    }
    assert(input.take(input.len() as int) =~= input);
    *entries = out;
}

/// Entry `i` of `e`.
pub open spec fn entry_at(e: Seq<IndexEntry>, i: usize) -> IndexEntry {
    e[i as int]
}

/// A byte of `s`, or 0 past its end.
pub open spec fn byte_or_zero(s: Seq<u8>, i: int) -> u8 {
    if 0 <= i < s.len() {
        s[i]
    } else {
        0
    }
}

/// `n` bytes of `s` from `start`, zero past its end.
pub open spec fn zero_padded(s: Seq<u8>, start: int, n: nat) -> Seq<u8> {
    Seq::new(n, |k: int| byte_or_zero(s, start + k))
}

/// Number of 24-byte records needed to hold `n` bytes.
pub open spec fn record_count(n: nat) -> nat {
    ((n + 23) / 24) as nat
}

/// Entry `k` of a raw index: 16 hash bytes then a little-endian `u64`
/// offset, the last record zero-padded.
pub open spec fn raw_entry(raw: Seq<u8>, k: int) -> (Seq<u8>, int) {
    (zero_padded(raw, 24 * k, 16), le64_at(zero_padded(raw, 24 * k + 16, 8), 0))
}

fn get_or_zero(s: &[u8], i: usize) -> (r: u8)
    ensures
        r == byte_or_zero(s@, i as int),
{
    if i < s.len() {
        s[i]
    } else {
        0
    }
}

fn read_record(raw: &[u8], k: usize) -> (r: IndexEntry)
    requires
        24 * k + 24 <= usize::MAX,
    ensures
        (r.path_md5@, r.offset as int) == raw_entry(raw@, k as int),
{
    let b = 24 * k;
    let mut md5 = [0u8; 16];
    let mut i: usize = 0;
    while i < 16
        invariant
            b == 24 * k,
            b + 24 <= usize::MAX,
            i <= 16,
            forall|m: int| 0 <= m < i ==> md5@[m] == byte_or_zero(raw@, b + m),
        decreases 16 - i,
    {
        let v = get_or_zero(raw, b + i);
        md5[i] = v;
        i = i + 1;
    }
    assert(md5@ =~= zero_padded(raw@, b as int, 16));
    let mut off = [0u8; 8];
    let mut j: usize = 0;
    while j < 8
        invariant
            b == 24 * k,
            b + 24 <= usize::MAX,
            j <= 8,
            forall|m: int| 0 <= m < j ==> off@[m] == byte_or_zero(raw@, b + 16 + m),
        decreases 8 - j,
    {
        let v = get_or_zero(raw, b + 16 + j);
        off[j] = v;
        j = j + 1;
    }
    assert(off@ =~= zero_padded(raw@, b + 16, 8));
    let offset = read_u64_le(off.as_slice(), 0);
    IndexEntry { path_md5: md5, offset }
}

impl ArchiveIndex {
    /// The MD5 digest of a path (its UTF-8 bytes), the key under which the
    /// path is indexed.
    #[verifier::external_body]
    pub fn hash_path(path: &str) -> (r: [u8; 16])
        ensures
            r@ == md5_digest(path@),
    {
        md5::compute(path).0
    }

    /// Orders two path hashes by their key: the first eight bytes as a
    /// little-endian `u64`, then the last eight.
    pub fn md5_compare(a: &[u8; 16], b: &[u8; 16]) -> (r: Ordering)
        ensures
            (r == Ordering::Less) == (md5_key(a@) < md5_key(b@)),
            (r == Ordering::Equal) == (md5_key(a@) == md5_key(b@)),
            (r == Ordering::Greater) == (md5_key(a@) > md5_key(b@)),
    {
        let (hi_a, lo_a) = md5_halves(a);
        let (hi_b, lo_b) = md5_halves(b);
        proof {
            lemma_le64_bounds(a@, 8);
            lemma_le64_bounds(b@, 8);
            lemma_key_order(hi_a, lo_a, hi_b, lo_b);
        }
        if hi_a != hi_b {
            if hi_a < hi_b {
                Ordering::Less
            } else {
                Ordering::Greater
            }
        } else if lo_a < lo_b {
            Ordering::Less
        } else if lo_a > lo_b {
            Ordering::Greater
        } else {
            Ordering::Equal
        }
    }

    /// An index holding `entries` sorted by path hash.
    pub fn from_unsorted_entries(entries: Vec<IndexEntry>) -> (r: Self)
        ensures
            r.entries@.to_multiset() == entries@.to_multiset(),
            sorted_by_md5(r.entries@),
    {
        let mut entries = entries;
        sort_by_md5(&mut entries);
        Self { entries }
    }

    /// The index stored in an archive: consecutive 24-byte records, each 16
    /// hash bytes then a little-endian `u64` offset; a short last record is
    /// completed with zeros. The records are taken in file order, which the
    /// format keeps sorted.
    pub fn from_raw_bytes(raw_bytes: &[u8]) -> (r: Self)
        requires
            raw_bytes@.len() <= isize::MAX,
        ensures
            r.entries@.len() == record_count(raw_bytes@.len()),
            forall|k: int|
                0 <= k < r.entries@.len() ==> (#[trigger] r.entries@[k].path_md5@, r.entries@[
                    k
                ].offset as int) == raw_entry(raw_bytes@, k),
    {
        let n = raw_bytes.len();
        let count = n / 24 + if n % 24 != 0 {
            1
        } else {
            0
        };
        assert(count == record_count(n as nat));
        let mut entries: Vec<IndexEntry> = Vec::new();
        let mut k: usize = 0;
        while k < count
            invariant
                n == raw_bytes@.len(),
                n <= isize::MAX,
                count == record_count(n as nat),
                k <= count,
                entries@.len() == k,
                forall|m: int|
                    0 <= m < k ==> (#[trigger] entries@[m].path_md5@, entries@[m].offset as int)
                        == raw_entry(raw_bytes@, m),
            decreases count - k,
        {
            assert(24 * k + 24 <= n + 23);
            let e = read_record(raw_bytes, k);
            entries.push(e);
            k = k + 1;
        }
        Self { entries }
    }

    /// The offset recorded for a path hash. A result is always an offset
    /// recorded for that hash; when the entries are sorted, `None` means
    /// no entry has it.
    pub fn find_offset(&self, path_md5: &[u8; 16]) -> (r: Option<u64>)
        ensures
            r matches Some(o) ==> exists|i: int|
                0 <= i < self.entries@.len() && #[trigger] self.entries@[i].path_md5@
                    == path_md5@ && self.entries@[i].offset == o,
            r is None && sorted_by_md5(self.entries@) ==> forall|i: int|
                0 <= i < self.entries@.len() ==> #[trigger] self.entries@[i].path_md5@
                    != path_md5@,
    {
        let n = self.entries.len();
        let mut lo: usize = 0;
        let mut hi: usize = n;
        while lo < hi
            invariant
                n == self.entries@.len(),
                lo <= hi <= n,
                sorted_by_md5(self.entries@) ==> forall|i: int|
                    0 <= i < lo ==> md5_key(#[trigger] self.entries@[i].path_md5@) < md5_key(
                        path_md5@,
                    ),
                sorted_by_md5(self.entries@) ==> forall|i: int|
                    hi <= i < n ==> md5_key(#[trigger] self.entries@[i].path_md5@) > md5_key(
                        path_md5@,
                    ),
            decreases hi - lo,
        {
            let mid = lo + (hi - lo) / 2;
            let c = Self::md5_compare(&self.entries[mid].path_md5, path_md5);
            match c {
                Ordering::Less => {
                    lo = mid + 1;
                },
                Ordering::Greater => {
                    hi = mid;
                },
                Ordering::Equal => {
                    proof {
                        lemma_md5_key_injective(entry_at(self.entries@, mid).path_md5@, path_md5@);
                    }
                    return Some(self.entries[mid].offset);
                },
            }
        }
        proof {
            assert forall|i: int|
                0 <= i < self.entries@.len() && sorted_by_md5(
                    self.entries@,
                ) implies #[trigger] self.entries@[i].path_md5@ != path_md5@ by {
                if self.entries@[i].path_md5@ == path_md5@ {
                    assert(md5_key(self.entries@[i].path_md5@) == md5_key(path_md5@));
                }
            }
        }
        None
    }
}

/// The MD5 digest of a text's UTF-8 bytes.
pub uninterp spec fn md5_digest(text: Seq<char>) -> Seq<u8>;

} // verus!
