//! Range reads of a resource: clamping a request to the resource, and the
//! block-cached reader that serves a range from fixed-size blocks.
use vstd::prelude::*;
use crate::bytes_le::push_all;
use crate::text::{push_decimal_u64, string_push, decimal_digits};

verus! {

/// The smaller of two numbers.
pub open spec fn min(a: int, b: int) -> int {
    if a < b {
        a
    } else {
        b
    }
}

/// `(offset, length)` of a read of the last `length` bytes of a resource of
/// `size` bytes: the whole resource when it is shorter.
pub fn read_from_end_range(length: u64, size: u64) -> (r: (u64, u64))
    ensures
        r.1 == min(length as int, size as int),
        r.0 == size - r.1,
{
    let actual = if length < size {
        length
    } else {
        size
    };
    (size - actual, actual)
}

/// How many bytes a read of `length` bytes at `offset` gets from a
/// resource of `size` bytes: none for an empty read or one at or past the
/// end, otherwise the request cut at the end.
pub fn clamp_read_length(offset: u64, length: u64, size: u64) -> (r: Option<u64>)
    ensures
        r is None <==> (length == 0 || offset >= size),
        r matches Some(l) ==> l == min(length as int, size - offset) && l > 0,
{
    if length == 0 || offset >= size {
        None
    } else if length < size - offset {
        Some(length)
    } else {
        Some(size - offset)
    }
}

/// The HTTP `Range` header value for `length` bytes at `offset`; ranges are
/// inclusive.
pub open spec fn spec_range_header(offset: u64, length: u64) -> Seq<char> {
    "bytes="@ + decimal_digits(offset as nat) + seq!['-'] + decimal_digits(
        (offset + length - 1) as nat,
    )
}

/// The HTTP `Range` header value for `length` bytes at `offset`.
pub fn range_header(offset: u64, length: u64) -> (r: String)
    requires
        length > 0,
        offset + length - 1 <= u64::MAX,
    ensures
        r@ == spec_range_header(offset, length),
{
    let mut out = String::new();
    crate::text::push_str(&mut out, "bytes=");
    push_decimal_u64(&mut out, offset);
    string_push(&mut out, '-');
    push_decimal_u64(&mut out, offset + (length - 1));
    out
}

/// Why a remote object cannot be read.
#[derive(Clone, Copy, Debug, PartialEq, Eq, Structural)]
pub enum ObjectSizeError {
    /// The object is empty or its length is unknown.
    EmptyOrMissingLength,
}

/// The size of a remote object from the content length of its metadata:
/// a missing length counts as 0, a negative one is taken modulo 2^64, and
/// an empty object cannot be read.
pub fn object_size(content_length: Option<i64>) -> (r: Result<u64, ObjectSizeError>)
    ensures
        match content_length {
            None => r == Err::<u64, ObjectSizeError>(ObjectSizeError::EmptyOrMissingLength),
            Some(n) => if n == 0 {
                r == Err::<u64, ObjectSizeError>(ObjectSizeError::EmptyOrMissingLength)
            } else if n > 0 {
                r == Ok::<u64, ObjectSizeError>(n as u64)
            } else {
                r == Ok::<u64, ObjectSizeError>((n + 18446744073709551616) as u64)
            },
        },
{
    let n: i64 = match content_length {
        Some(n) => n,
        None => 0,
    };
    if n == 0 {
        Err(ObjectSizeError::EmptyOrMissingLength)
    } else if n > 0 {
        Ok(n as u64)
    } else {
        let m: u64 = (-(n as i128) - 1) as u64;
        Ok(u64::MAX - m)
    }
}

/// Block `k` of a resource cut in blocks of `bs` bytes: empty past the end,
/// shorter at the end.
pub open spec fn file_block(file: Seq<u8>, k: int, bs: int) -> Seq<u8> {
    if k * bs >= file.len() {
        Seq::empty()
    } else {
        file.subrange(k * bs, min((k + 1) * bs, file.len() as int))
    }
}

/// `(offset, length)` to fetch for block `block_index`: none when the
/// block starts at or past the end of the resource.
pub fn block_fetch_range(block_index: u64, block_size: u64, file_size: u64) -> (r: Option<
    (u64, u64),
>)
    requires
        block_index * block_size <= u64::MAX,
    ensures
        r is None <==> block_index * block_size >= file_size,
        r matches Some((o, l)) ==> o == block_index * block_size && l == min(
            block_size as int,
            file_size - o,
        ),
{
    let fetch_offset = block_index * block_size;
    if fetch_offset >= file_size {
        return None;
    }
    let remaining = file_size - fetch_offset;
    let len = if block_size < remaining {
        block_size
    } else {
        remaining
    };
    Some((fetch_offset, len))
}

/// The first and last block a read of `length` bytes at `offset` touches;
/// none for an empty read.
pub fn block_span(offset: u64, length: u64, block_size: u64) -> (r: Option<(u64, u64)>)
    requires
        block_size > 0,
        length == 0 || offset + length - 1 <= u64::MAX,
    ensures
        r is None <==> length == 0,
        r matches Some((s, e)) ==> s as int == offset as int / block_size as int && e as int == (
        offset + length - 1) / (block_size as int) && s <= e,
{
    if length == 0 {
        return None;
    }
    let s = offset / block_size;
    let e = (offset + (length - 1)) / block_size;
    proof {
        lemma_div_monotone(offset as int, offset + length - 1, block_size as int);
    }
    Some((s, e))
}

proof fn lemma_div_monotone(a: int, b: int, d: int)
    requires
        0 <= a <= b,
        d > 0,
    ensures
        a / d <= b / d,
{
    assert(a / d <= b / d) by (nonlinear_arith)
        requires
            0 <= a <= b,
            d > 0,
    ;
}

/// The bytes a block-cached read assembles: from each block in turn, what
/// it holds from the current offset on, up to the bytes still wanted,
/// stopping at the first block that gives nothing.
pub open spec fn spec_assemble(cur: int, rem: int, bs: int, blocks: Seq<Seq<u8>>) -> Seq<u8>
    decreases blocks.len(),
{
    if blocks.len() == 0 {
        Seq::empty()
    } else {
        let b = blocks[0];
        let bo = cur % bs;
        let avail = if b.len() > bo {
            b.len() - bo
        } else {
            0
        };
        let take = min(rem, avail);
        if take <= 0 {
            Seq::empty()
        } else {
            b.subrange(bo, bo + take) + spec_assemble(cur + take, rem - take, bs, blocks.drop_first())
        }
    }
}

/// The blocks as byte sequences.
pub open spec fn blocks_view(blocks: Seq<Vec<u8>>) -> Seq<Seq<u8>> {
    blocks.map_values(|b: Vec<u8>| b@)
}

/// Assembles the answer to a read of `length` bytes at `offset` from the
/// blocks it touches, in order. A block that is short (the resource ended)
/// ends the answer early.
pub fn assemble_blocks(offset: u64, length: u64, block_size: u64, blocks: &[Vec<u8>]) -> (r:
    Vec<u8>)
    requires
        block_size > 0,
        offset + length <= u64::MAX,
    ensures
        r@ == spec_assemble(offset as int, length as int, block_size as int, blocks_view(blocks@)),
{
    let mut result: Vec<u8> = Vec::new();
    let mut cur = offset;
    let mut rem = length;
    let mut t: usize = 0;
    let ghost bv = blocks_view(blocks@);
    assert(bv.skip(0) =~= bv);
    assert(result@ + spec_assemble(offset as int, length as int, block_size as int, bv)
        =~= spec_assemble(offset as int, length as int, block_size as int, bv));
    while t < blocks.len()
        invariant
            block_size > 0,
            offset + length <= u64::MAX,
            bv == blocks_view(blocks@),
            t <= blocks@.len(),
            cur + rem == offset + length,
            cur >= offset,
            result@ + spec_assemble(cur as int, rem as int, block_size as int, bv.skip(t as int))
                == spec_assemble(offset as int, length as int, block_size as int, bv),
        decreases blocks@.len() - t,
    {
        let block = &blocks[t];
        let ghost rest = bv.skip(t as int);
        assert(rest[0] == block@);
        assert(rest.drop_first() =~= bv.skip(t + 1));
        let block_offset = cur % block_size;
        let available: u64 = if (block.len() as u64) > block_offset {
            block.len() as u64 - block_offset
        } else {
            0
        };
        let take = if rem < available {
            rem
        } else {
            available
        };
        if take == 0 {
            proof {
                assert(spec_assemble(cur as int, rem as int, block_size as int, rest)
                    =~= Seq::<u8>::empty());
            }
            assert(result@ =~= result@ + Seq::<u8>::empty());
            return result;
        }
        let piece = vstd::slice::slice_subrange(
            block.as_slice(),
            block_offset as usize,
            (block_offset + take) as usize,
        );
        let ghost before = result@;
        push_all(&mut result, piece);
        assert(result@ + spec_assemble(
            cur + take,
            rem - take,
            block_size as int,
            bv.skip(t + 1),
        ) =~= before + (block@.subrange(block_offset as int, block_offset + take)
            + spec_assemble(cur + take, rem - take, block_size as int, rest.drop_first())));
        cur = cur + take;
        rem = rem - take;
        t = t + 1;
    }
    assert(bv.skip(t as int).len() == 0);
    assert(result@ =~= result@ + Seq::<u8>::empty());
    result
}

proof fn lemma_block_facts(cur: int, k: int, bs: int, len: int)
    requires
        bs > 0,
        k >= 0,
        k * bs <= cur < (k + 1) * bs,
    ensures
        cur % bs == cur - k * bs,
        (k + 1) * bs == k * bs + bs,
{
    assert(cur % bs == cur - k * bs) by (nonlinear_arith)
        requires
            bs > 0,
            k * bs <= cur < (k + 1) * bs,
    ;
    assert((k + 1) * bs == k * bs + bs) by (nonlinear_arith);
}

proof fn lemma_more_blocks(k: int, n: int, bs: int, x: int)
    requires
        bs > 0,
        (k + n) * bs >= x,
        x > (k + 1) * bs,
    ensures
        n >= 2,
{
    assert(n >= 2) by (nonlinear_arith)
        requires
            bs > 0,
            (k + n) * bs >= x,
            x > (k + 1) * bs,
    ;
}

/// Assembling blocks that start at block `k`, cover the read, and are the
/// resource's own blocks gives the bytes of the resource in the read.
proof fn lemma_assemble_file(file: Seq<u8>, cur: int, rem: int, bs: int, k: int, blocks: Seq<Seq<u8>>)
    requires
        bs > 0,
        k >= 0,
        rem > 0,
        k * bs <= cur < (k + 1) * bs,
        blocks.len() >= 1,
        (k + blocks.len()) * bs >= cur + rem,
        forall|t: int| 0 <= t < blocks.len() ==> #[trigger] blocks[t] == file_block(file, k + t, bs),
    ensures
        spec_assemble(cur, rem, bs, blocks) == file.subrange(
            min(cur, file.len() as int),
            min(cur + rem, file.len() as int),
        ),
    decreases blocks.len(),
{
    let len = file.len() as int;
    lemma_block_facts(cur, k, bs, len);
    let b = blocks[0];
    assert(b == file_block(file, k, bs));
    if k * bs >= len {
        assert(b.len() == 0);
        assert(file.subrange(len, len) =~= Seq::<u8>::empty());
    } else {
        let end = min((k + 1) * bs, len);
        assert(b == file.subrange(k * bs, end));
        let bo = cur - k * bs;
        let avail = if b.len() > bo {
            b.len() - bo
        } else {
            0
        };
        let take = min(rem, avail);
        if take <= 0 {
            assert(cur >= len);
            assert(file.subrange(len, len) =~= Seq::<u8>::empty());
        } else {
            assert(b.subrange(bo, bo + take) =~= file.subrange(cur, cur + take));
            let rest = blocks.drop_first();
            if take == rem {
                if rest.len() > 0 {
                    let b1 = rest[0];
                    assert(b1 == file_block(file, k + 1, bs));
                    assert(spec_assemble(cur + take, 0, bs, rest) =~= Seq::<u8>::empty());
                } else {
                    assert(spec_assemble(cur + take, 0, bs, rest) =~= Seq::<u8>::empty());
                }
                assert(file.subrange(cur, cur + rem) + Seq::<u8>::empty() =~= file.subrange(
                    cur,
                    cur + rem,
                ));
            } else if (k + 1) * bs <= len {
                // The read continues at the start of the next block.
                assert(cur + take == (k + 1) * bs);
                lemma_more_blocks(k, blocks.len() as int, bs, cur + rem);
                assert forall|t: int| 0 <= t < rest.len() implies #[trigger] rest[t]
                    == file_block(file, (k + 1) + t, bs) by {
                    assert(rest[t] == blocks[t + 1]);
                }
                assert((k + 1 + rest.len()) * bs == (k + blocks.len()) * bs);
                assert((k + 2) * bs == (k + 1) * bs + bs) by (nonlinear_arith);
                lemma_assemble_file(file, cur + take, rem - take, bs, k + 1, rest);
                assert(file.subrange(cur, cur + take) + file.subrange(
                    cur + take,
                    min(cur + rem, len),
                ) =~= file.subrange(cur, min(cur + rem, len)));
            } else {
                // The resource ends inside this block: later blocks are empty.
                assert(cur + take == len);
                if rest.len() > 0 {
                    assert(rest[0] == file_block(file, k + 1, bs));
                    assert((k + 1) * bs >= len);
                    assert(rest[0].len() == 0);
                    assert(spec_assemble(cur + take, rem - take, bs, rest) =~= Seq::<u8>::empty());
                } else {
                    assert(spec_assemble(cur + take, rem - take, bs, rest) =~= Seq::<u8>::empty());
                }
                assert(file.subrange(cur, len) + Seq::<u8>::empty() =~= file.subrange(cur, len));
            }
        }
    }
}

/// A block-cached read gives the bytes of the resource: when the blocks
/// handed to `assemble_blocks` are the blocks from `offset / block_size` to
/// `(offset + length - 1) / block_size`, each as the resource holds it,
/// the result is the resource's bytes from `offset`, `length` of them or
/// up to its end.
pub proof fn lemma_cached_read_is_file_range(
    file: Seq<u8>,
    offset: u64,
    length: u64,
    block_size: u64,
    blocks: Seq<Seq<u8>>,
)
    requires
        block_size > 0,
        length > 0,
        offset + length <= u64::MAX,
        blocks.len() == (offset + length - 1) / (block_size as int) - offset as int / (
        block_size as int) + 1,
        forall|t: int|
            0 <= t < blocks.len() ==> #[trigger] blocks[t] == file_block(
                file,
                offset as int / (block_size as int) + t,
                block_size as int,
            ),
    ensures
        spec_assemble(offset as int, length as int, block_size as int, blocks) == file.subrange(
            min(offset as int, file.len() as int),
            min(offset + length, file.len() as int),
        ),
{
    let bs = block_size as int;
    let k: int = offset as int / bs;
    let e: int = (offset + length - 1) / bs;
    assert(k * bs <= offset < (k + 1) * bs && (e + 1) * bs >= offset + length && k >= 0)
        by (nonlinear_arith)
        requires
            bs > 0,
            k == offset as int / bs,
            e == (offset + length - 1) / bs,
            offset >= 0,
            length > 0,
    ;
    lemma_div_monotone(offset as int, offset + length - 1, bs);
    assert(k + blocks.len() == e + 1);
    lemma_assemble_file(file, offset as int, length as int, bs, k, blocks);
}

} // verus!
