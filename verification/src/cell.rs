//! S2 cell identifiers held as their 64-bit ids, and the cell arithmetic the
//! tile paths are built from. The cell operations are those of the `s2`
//! crate.
use vstd::prelude::*;
use vstd::std_specs::bits::u64_trailing_zeros;
use vstd::arithmetic::div_mod::{
    lemma_div_denominator, lemma_fundamental_div_mod, lemma_mod_breakdown, lemma_mod_pos_bound,
};

verus! {

/// The hex digit for `d` in `0..16`, lower case.
pub open spec fn hex_char(d: int) -> char {
    if d < 10 {
        (('0' as int) + d) as char
    } else {
        (('a' as int) + d - 10) as char
    }
}

/// `16^k`.
pub open spec fn pow16(k: nat) -> int
    decreases k,
{
    if k == 0 {
        1
    } else {
        16 * pow16((k - 1) as nat)
    }
}

/// The 16 hex digits of `id`, most significant first.
pub open spec fn hex16(id: u64) -> Seq<char> {
    Seq::new(16, |i: int| hex_char((id as int / pow16((15 - i) as nat)) % 16))
}

/// `s` without its trailing `'0'` characters.
pub open spec fn trim_trailing_zeros(s: Seq<char>) -> Seq<char>
    decreases s.len(),
{
    if s.len() > 0 && s.last() == '0' {
        trim_trailing_zeros(s.drop_last())
    } else {
        s
    }
}

/// The token of a cell id: `"X"` for 0, otherwise its 16 hex digits with
/// the trailing zeros removed.
pub open spec fn spec_cell_token(id: u64) -> Seq<char> {
    if id == 0 {
        "X"@
    } else {
        trim_trailing_zeros(hex16(id))
    }
}

proof fn lemma_pow16_facts(k: nat)
    ensures
        pow16(k) > 0,
        pow16(k + 1) == pow16(k) * 16,
    decreases k,
{
    if k > 0 {
        lemma_pow16_facts((k - 1) as nat);
    }
}

proof fn lemma_pow16_16()
    ensures
        pow16(16) == 0x1_0000_0000_0000_0000int,
{
    reveal_with_fuel(pow16, 17);
}

/// A hex digit character reads back as its digit, and is no `'+'`.
proof fn lemma_hex_char_value(d: int)
    requires
        0 <= d < 16,
    ensures
        hex_digit_value(hex_char(d)) == Some(d),
        hex_char(d) != '+',
        hex_char(d) == '0' <==> d == 0,
{
}

/// The first `n` of the 16 hex digits of `id` read as the value of `id`
/// without its last `16 - n` digits.
proof fn lemma_hex16_prefix_value(id: u64, n: int)
    requires
        0 <= n <= 16,
    ensures
        hex_digits_value(hex16(id).take(n)) == Some(id as int / pow16((16 - n) as nat)),
    decreases n,
{
    if n == 0 {
        lemma_pow16_16();
        assert(hex16(id).take(0) =~= Seq::<char>::empty());
    } else {
        lemma_hex16_prefix_value(id, n - 1);
        let t = hex16(id).take(n);
        assert(t.drop_last() =~= hex16(id).take(n - 1));
        let p = pow16((16 - n) as nat);
        lemma_pow16_facts((16 - n) as nat);
        let q = id as int / p;
        lemma_mod_pos_bound(q, 16);
        lemma_hex_char_value(q % 16);
        assert(t.last() == hex_char(q % 16));
        lemma_div_denominator(id as int, p, 16);
        lemma_fundamental_div_mod(q, 16);
        assert(id as int / pow16((16 - (n - 1)) as nat) == q / 16);
    }
}

/// When the last `m` hex digits of `id` are `'0'`, `16^m` divides `id`.
proof fn lemma_hex16_zero_tail(id: u64, m: int)
    requires
        0 <= m <= 16,
        forall|k: int| 16 - m <= k < 16 ==> #[trigger] hex16(id)[k] == '0',
    ensures
        id as int % pow16(m as nat) == 0,
    decreases m,
{
    if m > 0 {
        lemma_hex16_zero_tail(id, m - 1);
        let p = pow16((m - 1) as nat);
        lemma_pow16_facts((m - 1) as nat);
        let q = id as int / p;
        lemma_mod_pos_bound(q, 16);
        lemma_hex_char_value(q % 16);
        assert(hex16(id)[16 - m] == hex_char(q % 16));
        lemma_mod_breakdown(id as int, p, 16);
    }
}

/// Trimming trailing zeros keeps a prefix and drops only `'0'`s.
proof fn lemma_trim_trailing_zeros(s: Seq<char>)
    ensures
        trim_trailing_zeros(s).len() <= s.len(),
        trim_trailing_zeros(s) == s.take(trim_trailing_zeros(s).len() as int),
        forall|k: int| trim_trailing_zeros(s).len() <= k < s.len() ==> #[trigger] s[k] == '0',
    decreases s.len(),
{
    if s.len() > 0 && s.last() == '0' {
        lemma_trim_trailing_zeros(s.drop_last());
        let r = trim_trailing_zeros(s.drop_last());
        assert(s.take(r.len() as int) =~= s.drop_last().take(r.len() as int));
        assert forall|k: int| r.len() <= k < s.len() implies #[trigger] s[k] == '0' by {
            if k < s.len() - 1 {
                assert(s.drop_last()[k] == s[k]);
            }
        }
    } else {
        assert(s.take(s.len() as int) =~= s);
    }
}

/// A cell's token reads back as the cell: the id `CellID::from_token`
/// reads from what `CellID::to_token` writes is the id itself, for every
/// id (0, written `"X"`, reads back as 0).
pub proof fn lemma_token_roundtrip(id: u64)
    ensures
        cell_id_of_token(spec_cell_token(id)) == id,
{
    if id == 0 {
        reveal_strlit("X");
        let x = "X"@;
        assert(x.drop_last().len() == 0);
        assert(hex_digits_value(x) is None);
    } else {
        let s = hex16(id);
        let t = trim_trailing_zeros(s);
        lemma_trim_trailing_zeros(s);
        let n = t.len() as int;
        lemma_pow16_16();
        lemma_hex16_zero_tail(id, 16 - n);
        if n == 0 {
            assert(id as int % pow16(16) == id);
            assert(false);
        }
        lemma_hex16_prefix_value(id, n);
        let p = pow16((16 - n) as nat);
        lemma_pow16_facts((16 - n) as nat);
        let v = id as int / p;
        lemma_pow16_facts(15);
        lemma_mod_pos_bound(id as int / pow16(15), 16);
        lemma_hex_char_value((id as int / pow16(15)) % 16);
        assert(t[0] == s[0]);
        assert(t[0] != '+');
        lemma_fundamental_div_mod(id as int, p);
        assert(v * p == id) by (nonlinear_arith)
            requires
                id == p * v + 0,
        ;
        assert(0 <= v <= id) by (nonlinear_arith)
            requires
                v * p == id,
                p > 0,
                id > 0,
        ;
        if n == 16 {
            assert(pow16(0) == 1);
            assert(v == id);
        }
    }
}

/// The cube face of a cell: its top three bits.
pub open spec fn spec_cell_face(id: u64) -> u8 {
    (id >> 61u64) as u8
}

/// The subdivision level of a cell, from the position of its lowest set
/// bit.
pub open spec fn spec_cell_level(id: u64) -> int {
    30 - u64_trailing_zeros(id) / 2
}

/// The lowest set bit of a cell id at `level`.
pub open spec fn lsb_for_level(level: u64) -> u64 {
    (1u64 << (2 * (30 - level)) as u64) as u64
}

/// The ancestor of a cell at `level`.
pub open spec fn spec_cell_parent(id: u64, level: u64) -> u64 {
    (id & !((lsb_for_level(level) - 1) as u64)) | lsb_for_level(level)
}

/// The value of a hex digit of either case, if `c` is one.
pub open spec fn hex_digit_value(c: char) -> Option<int> {
    if '0' <= c && c <= '9' {
        Some(c as int - '0' as int)
    } else if 'a' <= c && c <= 'f' {
        Some(c as int - 'a' as int + 10)
    } else if 'A' <= c && c <= 'F' {
        Some(c as int - 'A' as int + 10)
    } else {
        None
    }
}

/// The value of hex digits, most significant first, if all of them are
/// digits.
pub open spec fn hex_digits_value(d: Seq<char>) -> Option<int>
    decreases d.len(),
{
    if d.len() == 0 {
        Some(0)
    } else {
        match (hex_digits_value(d.drop_last()), hex_digit_value(d.last())) {
            (Some(v), Some(x)) => Some(16 * v + x),
            _ => None,
        }
    }
}

/// What `u64::from_str_radix(s, 16)` reads: an optional `+` and then at
/// least one hex digit and nothing else, of a value that fits a `u64`.
pub open spec fn parse_hex_u64(s: Seq<char>) -> Option<u64> {
    let digits = if s.len() > 0 && s[0] == '+' {
        s.skip(1)
    } else {
        s
    };
    if digits.len() == 0 {
        None
    } else {
        match hex_digits_value(digits) {
            Some(v) => if v <= u64::MAX {
                Some(v as u64)
            } else {
                None
            },
            None => None,
        }
    }
}

/// The cell id that `CellID::from_token` reads from a token: its hex value,
/// moved up to the top of the id when the token is shorter than 16
/// characters (the shift keeps the low 64 bits), and 0 for a token that is
/// not hex.
pub open spec fn cell_id_of_token(token: Seq<char>) -> u64 {
    match parse_hex_u64(token) {
        None => 0,
        Some(v) => if token.len() < 16 {
            ((v as int * pow16((16 - token.len()) as nat)) % 0x1_0000_0000_0000_0000int) as u64
        } else {
            v
        },
    }
}

/// The lowest set bit of a cell id.
pub open spec fn cell_lsb(id: u64) -> u64 {
    id & ((!id + 1) as u64)
}

/// The four children of a cell, in curve order.
pub open spec fn spec_cell_children(id: u64) -> Seq<u64> {
    let lsb = cell_lsb(id);
    let ch0 = (id - lsb + lsb / 4) as u64;
    let step = lsb / 2;
    seq![ch0, (ch0 + step) as u64, (ch0 + 2 * step) as u64, (ch0 + 3 * step) as u64]
}

/// `(face, i, j, orientation)` of a cell as the `s2` crate computes them.
pub uninterp spec fn cell_face_ij_orientation(id: u64) -> (u8, i32, i32, u8);

/// Whether any cell of a union, once normalized by the `s2` crate,
/// intersects a cell.
pub uninterp spec fn cell_union_intersects(cells: Seq<u64>, id: u64) -> bool;

/// The leaf cell at `(i, j)` on `face`, as `CellID::from_face_ij`
/// computes it.
pub uninterp spec fn cell_of_face_ij(face: u8, i: i32, j: i32) -> u64;

/// `CellID::to_token`: the cell's token.
#[verifier::external_body]
pub(crate) fn cell_token(id: u64) -> (r: String)
    ensures
        r@ == spec_cell_token(id),
{
    s2::cellid::CellID(id).to_token()
}

/// `CellID::from_token`: the cell id a token names.
#[verifier::external_body]
pub(crate) fn cell_from_token(token: &str) -> (r: u64)
    ensures
        r == cell_id_of_token(token@),
{
    s2::cellid::CellID::from_token(token).0
}

/// `CellID::from_face_ij`: the leaf cell at `(i, j)` on `face`. The crate
/// places the face in the top bits and doubles the result, which overflows
/// from face 8 on.
#[verifier::external_body]
pub(crate) fn cell_from_face_ij(face: u8, i: i32, j: i32) -> (r: u64)
    requires
        face < 8,
    ensures
        r == cell_of_face_ij(face, i, j),
{
    s2::cellid::CellID::from_face_ij(face, i, j).0
}

/// Whether the `s2` crate can take the lowest set bit of `id` (it negates
/// the id as an `i64`, which overflows for 2^63) and the range of leaves
/// below it (it subtracts one from that bit, which overflows for 0).
pub open spec fn cell_range_ok(id: u64) -> bool {
    id != 0 && id != 0x8000_0000_0000_0000u64
}

/// `CellID::children`: the four children of a cell. The crate negates the
/// id as an `i64` to find its lowest set bit, so 2^63 is left out.
#[verifier::external_body]
pub(crate) fn cell_children(id: u64) -> (r: [u64; 4])
    requires
        id != 0x8000_0000_0000_0000u64,
    ensures
        r@ == spec_cell_children(id),
{
    s2::cellid::CellID(id).children().map(|c| c.0)
}

/// `CellID::face`: the cube face of a cell.
#[verifier::external_body]
pub(crate) fn cell_face(id: u64) -> (r: u8)
    ensures
        r == spec_cell_face(id),
{
    s2::cellid::CellID(id).face()
}

/// `CellID::level`: the level of a cell. The crate subtracts half the
/// number of trailing zero bits from 30, so that number must not exceed 61.
#[verifier::external_body]
pub(crate) fn cell_level(id: u64) -> (r: u64)
    requires
        u64_trailing_zeros(id) <= 61,
    ensures
        r == spec_cell_level(id),
{
    s2::cellid::CellID(id).level()
}

/// `CellID::parent`: the ancestor of a cell at a level no deeper than 30.
#[verifier::external_body]
pub(crate) fn cell_parent(id: u64, level: u64) -> (r: u64)
    requires
        level <= 30,
    ensures
        r == spec_cell_parent(id, level),
{
    s2::cellid::CellID(id).parent(level).0
}

/// `CellID::face_ij_orientation` of a cell. The crate takes the id's
/// lowest set bit, so 2^63 is left out.
#[verifier::external_body]
pub(crate) fn cell_face_ij(id: u64) -> (r: (u8, i32, i32, u8))
    requires
        id != 0x8000_0000_0000_0000u64,
    ensures
        r == cell_face_ij_orientation(id),
{
    s2::cellid::CellID(id).face_ij_orientation()
}

/// `CellUnion::intersects_cellid` on the union of `cells` after
/// `CellUnion::normalize`. Both compare the ranges of leaves below cells,
/// so every cell and `id` must have one the crate can compute.
#[verifier::external_body]
pub(crate) fn union_intersects(cells: &[u64], id: u64) -> (r: bool)
    requires
        forall|k: int| 0 <= k < cells@.len() ==> cell_range_ok(#[trigger] cells@[k]),
        cell_range_ok(id),
    ensures
        r == cell_union_intersects(cells@, id),
{
    let mut union = s2::cellunion::CellUnion(cells.iter().map(|c| s2::cellid::CellID(*c)).collect());
    union.normalize();
    union.intersects_cellid(&s2::cellid::CellID(id))
}

/// The column or row of a cell at its level from a leaf coordinate.
pub open spec fn grid_coordinate(leaf: i32, level: int) -> i32 {
    ((leaf as u64) >> (30 - level) as u64) as i32
}

/// `(face, level, col, row)` of a cell: the column and row are the cell's
/// position in the grid of its level on its face.
pub open spec fn spec_face_level_col_row(id: u64) -> (u8, i32, i32, i32) {
    let level = spec_cell_level(id);
    let ij = cell_face_ij_orientation(id);
    (spec_cell_face(id), level as i32, grid_coordinate(ij.1, level), grid_coordinate(ij.2, level))
}

/// An id with at most 61 trailing zero bits is neither 0 nor 2^63.
pub proof fn lemma_range_ok_of_level(id: u64)
    requires
        u64_trailing_zeros(id) <= 61,
    ensures
        cell_range_ok(id),
{
    broadcast use vstd::std_specs::bits::axiom_u64_trailing_zeros;

    let t = u64_trailing_zeros(id) as u64;
    assert((id >> t) & 1u64 == 1u64);
    assert(t <= 61 && (id >> t) & 1u64 == 1u64 ==> id != 0 && id != 0x8000_0000_0000_0000u64)
        by (bit_vector);
}

/// The leaf coordinate of a tile's lower corner: column or row `c` at
/// `level` shifted up to leaf level, as an `i32` shift does it.
pub open spec fn leaf_coordinate(c: i32, level: int) -> i32 {
    ((c as u32) << ((30 - level) as u32)) as i32
}

/// The cell of the tile at `face/level/col/row`: the leaf cell at the
/// tile's lower corner, taken up to `level`.
pub open spec fn spec_cell_at(face: u8, level: i32, col: i32, row: i32) -> u64 {
    spec_cell_parent(
        cell_of_face_ij(face, leaf_coordinate(col, level as int), leaf_coordinate(row, level as int)),
        level as u64,
    )
}

/// The cell of the tile at `face/level/col/row`.
pub fn cell_id_from_face_level_col_row(face: u8, level: i32, col: i32, row: i32) -> (r: u64)
    requires
        face < 8,
        0 <= level <= 30,
    ensures
        r == spec_cell_at(face, level, col, row),
{
    let shift = (30 - level) as u32;
    let i = ((col as u32) << shift) as i32;
    let j = ((row as u32) << shift) as i32;
    let leaf = cell_from_face_ij(face, i, j);
    cell_parent(leaf, level as u64)
}

/// `(face, level, col, row)` of a cell.
pub fn face_level_col_row_from_cell_id(id: u64) -> (r: (u8, i32, i32, i32))
    requires
        u64_trailing_zeros(id) <= 61,
    ensures
        r == spec_face_level_col_row(id),
{
    proof {
        lemma_range_ok_of_level(id);
    }
    let face = cell_face(id);
    let level = cell_level(id);
    let (_, i, j, _orientation) = cell_face_ij(id);
    let col = ((i as u64) >> (30 - level)) as i32;
    let row = ((j as u64) >> (30 - level)) as i32;
    (face, level as i32, col, row)
}

} // verus!
