//! The GLB (binary glTF) container: a 12-byte header followed by
//! length-prefixed chunks, the first JSON chunk holding the document and the
//! first BIN chunk holding the embedded buffer.
use vstd::prelude::*;
use crate::bytes_le::{
    le32_at, le32_bytes, read_u32_le, copy_range, has_bytes_at, push_u32_le, push_all, push_repeat,
    lemma_le32_decode_at,
};

verus! {

/// `b"glTF"`, the magic number that opens every GLB file.
pub open spec fn glb_magic() -> Seq<u8> {
    seq![0x67u8, 0x6cu8, 0x54u8, 0x46u8]
}

/// `b"JSON"`, the type of the document chunk.
pub open spec fn json_chunk_type() -> Seq<u8> {
    seq![0x4au8, 0x53u8, 0x4fu8, 0x4eu8]
}

/// `b"BIN\0"`, the type of the binary buffer chunk.
pub open spec fn bin_chunk_type() -> Seq<u8> {
    seq![0x42u8, 0x49u8, 0x4eu8, 0x00u8]
}

/// The chunks of a GLB container.
pub struct GlbChunks {
    /// Payload of the first JSON chunk.
    pub json: Vec<u8>,
    /// Payload of the first BIN chunk, if any.
    pub bin: Option<Vec<u8>>,
    /// Every other chunk, in file order, with its type.
    pub extra: Vec<([u8; 4], Vec<u8>)>,
}

/// Chunks gathered so far while walking a container.
pub struct ChunkAcc {
    pub json: Option<Seq<u8>>,
    pub bin: Option<Seq<u8>>,
    pub extra: Seq<(Seq<u8>, Seq<u8>)>,
}

/// Why a byte sequence is not a GLB container.
#[derive(Clone, Copy, Debug, PartialEq, Eq, Structural)]
pub enum GlbError {
    /// Fewer than 12 bytes: no room for the header.
    TooSmall,
    /// The first four bytes are not `glTF`.
    InvalidMagic,
    /// The header names a version other than 2.
    UnsupportedVersion(u32),
    /// A chunk claims more payload than the bytes that follow it.
    ChunkOverrun,
    /// A chunk length that is not a multiple of 4.
    UnalignedChunk,
    /// No JSON chunk.
    MissingJson,
}

pub open spec fn opt_view(o: Option<Vec<u8>>) -> Option<Seq<u8>> {
    match o {
        Some(v) => Some(v@),
        None => None,
    }
}

pub open spec fn extra_view(e: Seq<([u8; 4], Vec<u8>)>) -> Seq<(Seq<u8>, Seq<u8>)> {
    e.map_values(|c: ([u8; 4], Vec<u8>)| (c.0@, c.1@))
}

impl GlbChunks {
    pub open spec fn acc(&self) -> ChunkAcc {
        ChunkAcc { json: Some(self.json@), bin: opt_view(self.bin), extra: extra_view(self.extra@) }
    }
}

/// Files a chunk: the first JSON and the first BIN chunk are kept apart,
/// everything else goes to the extras.
pub open spec fn add_chunk(acc: ChunkAcc, ty: Seq<u8>, payload: Seq<u8>) -> ChunkAcc {
    if ty == json_chunk_type() && acc.json is None {
        ChunkAcc { json: Some(payload), ..acc }
    } else if ty == bin_chunk_type() && acc.bin is None {
        ChunkAcc { bin: Some(payload), ..acc }
    } else {
        ChunkAcc { extra: acc.extra.push((ty, payload)), ..acc }
    }
}

/// Walks the chunk area: while at least 8 bytes remain, a chunk is a
/// little-endian `u32` length, a 4-byte type and that many payload bytes.
pub open spec fn parse_chunks(data: Seq<u8>, acc: ChunkAcc) -> Result<ChunkAcc, GlbError>
    decreases data.len(),
{
    if data.len() < 8 {
        Ok(acc)
    } else {
        let len = le32_at(data, 0);
        let rest = data.skip(8);
        if rest.len() < len {
            Err(GlbError::ChunkOverrun)
        } else if len % 4 != 0 {
            Err(GlbError::UnalignedChunk)
        } else {
            parse_chunks(rest.skip(len), add_chunk(acc, data.subrange(4, 8), rest.take(len)))
        }
    }
}

pub open spec fn empty_acc() -> ChunkAcc {
    ChunkAcc { json: None, bin: None, extra: Seq::empty() }
}

/// What `extract_glb_chunks` makes of `data`.
pub open spec fn spec_extract_glb(data: Seq<u8>) -> Result<ChunkAcc, GlbError> {
    if data.len() < 12 {
        Err(GlbError::TooSmall)
    } else if data.subrange(0, 4) != glb_magic() {
        Err(GlbError::InvalidMagic)
    } else if le32_at(data, 4) != 2 {
        Err(GlbError::UnsupportedVersion(le32_at(data, 4) as u32))
    } else {
        match parse_chunks(data.skip(12), empty_acc()) {
            Err(e) => Err(e),
            Ok(acc) => if acc.json is None {
                Err(GlbError::MissingJson)
            } else {
                Ok(acc)
            },
        }
    }
}

fn magic() -> (r: [u8; 4])
    ensures
        r@ == glb_magic(),
{
    let r = [0x67u8, 0x6cu8, 0x54u8, 0x46u8];
    assert(r@ =~= glb_magic());
    r
}

fn json_type() -> (r: [u8; 4])
    ensures
        r@ == json_chunk_type(),
{
    let r = [0x4au8, 0x53u8, 0x4fu8, 0x4eu8];
    assert(r@ =~= json_chunk_type());
    r
}

fn bin_type() -> (r: [u8; 4])
    ensures
        r@ == bin_chunk_type(),
{
    let r = [0x42u8, 0x49u8, 0x4eu8, 0x00u8];
    assert(r@ =~= bin_chunk_type());
    r
}

/// Splits a GLB container into its JSON chunk, its BIN chunk and the other
/// chunks. The length field of the header is not checked.
pub fn extract_glb_chunks(data: &[u8]) -> (r: Result<GlbChunks, GlbError>)
    ensures
        match r {
            Ok(chunks) => spec_extract_glb(data@) == Ok::<ChunkAcc, GlbError>(chunks.acc()),
            Err(e) => spec_extract_glb(data@) == Err::<ChunkAcc, GlbError>(e),
        },
{
    let n = data.len();
    if n < 12 {
        return Err(GlbError::TooSmall);
    }
    let m = magic();
    if !has_bytes_at(data, 0, m.as_slice()) {
        return Err(GlbError::InvalidMagic);
    }
    let version = read_u32_le(data, 4);
    if version != 2 {
        return Err(GlbError::UnsupportedVersion(version));
    }
    let jt = json_type();
    let bt = bin_type();
    let mut json: Option<Vec<u8>> = None;
    let mut bin: Option<Vec<u8>> = None;
    let mut extra: Vec<([u8; 4], Vec<u8>)> = Vec::new();
    let mut pos: usize = 12;
    assert(extra_view(extra@) =~= Seq::<(Seq<u8>, Seq<u8>)>::empty());
    while n - pos >= 8
        invariant
            n == data@.len(),
            12 <= pos <= n,
            data@.subrange(0, 4) == glb_magic(),
            le32_at(data@, 4) == 2,
            jt@ == json_chunk_type(),
            bt@ == bin_chunk_type(),
            parse_chunks(data@.skip(12), empty_acc()) == parse_chunks(
                data@.skip(pos as int),
                ChunkAcc { json: opt_view(json), bin: opt_view(bin), extra: extra_view(extra@) },
            ),
        decreases n - pos,
    {
        let ghost rest0 = data@.skip(pos as int);
        let ghost acc0 = ChunkAcc {
            json: opt_view(json),
            bin: opt_view(bin),
            extra: extra_view(extra@),
        };
        let chunk_len = read_u32_le(data, pos) as usize;
        assert(rest0[0] == data@[pos as int]);
        assert(rest0[1] == data@[pos + 1]);
        assert(rest0[2] == data@[pos + 2]);
        assert(rest0[3] == data@[pos + 3]);
        assert(le32_at(rest0, 0) == le32_at(data@, pos as int));
        let ty: [u8; 4] = [data[pos + 4], data[pos + 5], data[pos + 6], data[pos + 7]];
        assert(ty@ =~= rest0.subrange(4, 8));
        let start = pos + 8;
        assert(rest0.skip(8).len() == n - start);
        if n - start < chunk_len {
            assert(parse_chunks(rest0, acc0) == Err::<ChunkAcc, GlbError>(GlbError::ChunkOverrun));
            return Err(GlbError::ChunkOverrun);
        }
        if chunk_len % 4 != 0 {
            assert(parse_chunks(rest0, acc0) == Err::<ChunkAcc, GlbError>(GlbError::UnalignedChunk));
            return Err(GlbError::UnalignedChunk);
        }
        let payload = copy_range(data, start, start + chunk_len);
        let ghost rest = rest0.skip(8);
        assert(payload@ =~= rest.take(chunk_len as int));
        assert(rest.skip(chunk_len as int) =~= data@.skip(start + chunk_len));
        let is_json = has_bytes_at(ty.as_slice(), 0, jt.as_slice());
        let is_bin = has_bytes_at(ty.as_slice(), 0, bt.as_slice());
        assert(is_json == (ty@ == json_chunk_type())) by {
            assert(ty@.subrange(0, 4) =~= ty@);
        }
        assert(is_bin == (ty@ == bin_chunk_type())) by {
            assert(ty@.subrange(0, 4) =~= ty@);
        }
        if is_json && json.is_none() {
            json = Some(payload);
        } else if is_bin && bin.is_none() {
            bin = Some(payload);
        } else {
            let ghost old_extra = extra@;
            extra.push((ty, payload));
            assert(extra_view(extra@) =~= extra_view(old_extra).push((ty@, payload@)));
        }
        pos = start + chunk_len;
    }
    assert(data@.skip(pos as int).len() < 8);
    match json {
        None => Err(GlbError::MissingJson),
        Some(j) => Ok(GlbChunks { json: j, bin, extra }),
    }
}

/// Bytes of padding that bring a length of `n` to a multiple of 4.
pub open spec fn pad4(n: int) -> int {
    (4 - n % 4) % 4
}

/// `n` copies of `b`.
pub open spec fn fill(b: u8, n: int) -> Seq<u8> {
    Seq::new(n as nat, |_i: int| b)
}

/// A length written to a 32-bit field (the field keeps the low 32 bits).
pub open spec fn len32(n: int) -> u32 {
    (n % 4294967296) as u32
}

/// A JSON chunk padded with spaces to a multiple of 4 bytes.
pub open spec fn padded_json(json: Seq<u8>) -> Seq<u8> {
    json + fill(0x20u8, pad4(json.len() as int))
}

/// A BIN chunk padded with zeros to a multiple of 4 bytes.
pub open spec fn padded_bin(bin: Seq<u8>) -> Seq<u8> {
    bin + fill(0u8, pad4(bin.len() as int))
}

/// A whole chunk: length, type, payload.
pub open spec fn chunk_bytes(ty: Seq<u8>, payload: Seq<u8>) -> Seq<u8> {
    le32_bytes(len32(payload.len() as int)) + ty + payload
}

/// The value of the header's total-length field: the whole container, that
/// is 12 header bytes, the JSON chunk and, when there is one, the BIN chunk
/// (8 bytes of chunk header and its padded payload, also when that payload
/// is empty).
pub open spec fn glb_total_len(json: Seq<u8>, bin: Option<Seq<u8>>) -> int {
    let jcl = padded_json(json).len() as int;
    12 + 8 + jcl + match bin {
        Some(b) => 8 + padded_bin(b).len() as int,
        None => 0,
    }
}

/// The container `create_glb` writes: header, the JSON chunk padded with
/// spaces, then, when there is one, the BIN chunk padded with zeros.
pub open spec fn spec_create_glb(json: Seq<u8>, bin: Option<Seq<u8>>) -> Seq<u8> {
    glb_magic() + le32_bytes(2) + le32_bytes(len32(glb_total_len(json, bin))) + chunk_bytes(
        json_chunk_type(),
        padded_json(json),
    ) + match bin {
        Some(b) => chunk_bytes(bin_chunk_type(), padded_bin(b)),
        None => Seq::empty(),
    }
}

/// Appends one chunk: its length (payload plus padding), its type, its
/// payload and the padding.
fn push_chunk(buf: &mut Vec<u8>, ty: &[u8; 4], payload: &[u8], pad_byte: u8, pad: usize)
    requires
        payload@.len() + pad <= usize::MAX,
    ensures
        final(buf)@ == old(buf)@ + chunk_bytes(ty@, payload@ + fill(pad_byte, pad as int)),
{
    let chunk_len = payload.len() + pad;
    push_u32_le(buf, (chunk_len as u64 % 4294967296) as u32);
    push_all(buf, ty.as_slice());
    push_all(buf, payload);
    push_repeat(buf, pad_byte, pad);
    let ghost p = payload@ + fill(pad_byte, pad as int);
    assert(p.len() == chunk_len);
    assert(final(buf)@ =~= old(buf)@ + chunk_bytes(ty@, p));
}

/// Frames an already serialized glTF JSON document and an optional binary
/// buffer as a GLB container.
pub fn create_glb(json: &[u8], bin: Option<&[u8]>) -> (r: Vec<u8>)
    requires
        json@.len() + 64 <= usize::MAX,
        bin matches Some(b) ==> json@.len() + b@.len() + 64 <= usize::MAX,
    ensures
        r@ == spec_create_glb(json@, match bin {
            Some(b) => Some(b@),
            None => None,
        }),
        r@.len() == glb_total_len(json@, match bin {
            Some(b) => Some(b@),
            None => None,
        }),
        r@.len() % 4 == 0,
        le32_at(r@, 8) == len32(r@.len() as int),
{
    let json_padding = (4 - json.len() % 4) % 4;
    let json_chunk_len = json.len() + json_padding;
    let (bin_padding, bin_chunk_len) = match bin {
        Some(b) => {
            let p = (4 - b.len() % 4) % 4;
            (p, b.len() + p)
        },
        None => (0, 0),
    };
    let mut total_length = 12 + 8 + json_chunk_len;
    if bin.is_some() {
        total_length = total_length + 8 + bin_chunk_len;
    }
    let ghost binv = match bin {
        Some(b) => Some(b@),
        None => None::<Seq<u8>>,
    };
    assert(total_length == glb_total_len(json@, binv));
    let mut buf: Vec<u8> = Vec::new();
    let m = magic();
    push_all(&mut buf, m.as_slice());
    push_u32_le(&mut buf, 2);
    push_u32_le(&mut buf, (total_length as u64 % 4294967296) as u32);
    let ghost header = buf@;
    assert(header =~= glb_magic() + le32_bytes(2) + le32_bytes(len32(glb_total_len(json@, binv))));
    let jt = json_type();
    push_chunk(&mut buf, &jt, json, 0x20u8, json_padding);
    let ghost head = buf@;
    match bin {
        Some(b) => {
            let bt = bin_type();
            push_chunk(&mut buf, &bt, b, 0u8, bin_padding);
            assert(buf@ =~= header + chunk_bytes(json_chunk_type(), padded_json(json@))
                + chunk_bytes(bin_chunk_type(), padded_bin(b@)));
        },
        None => {
            assert(buf@ =~= header + chunk_bytes(json_chunk_type(), padded_json(json@))
                + Seq::<u8>::empty());
        },
    }
    proof {
        lemma_create_glb_len(json@, binv);
    }
    buf
}

/// Padding brings a length to a multiple of 4.
proof fn lemma_pad4(n: int)
    requires
        0 <= n,
    ensures
        0 <= pad4(n) < 4,
        (n + pad4(n)) % 4 == 0,
{
}

proof fn lemma_glb_body_len(json: Seq<u8>, bin: Option<Seq<u8>>)
    ensures
        glb_body(json, bin).len() + 12 == glb_total_len(json, bin),
        glb_total_len(json, bin) % 4 == 0,
{
    let pj = padded_json(json);
    lemma_pad4(json.len() as int);
    assert(pj.len() == json.len() + pad4(json.len() as int));
    if let Some(b) = bin {
        lemma_pad4(b.len() as int);
        assert(padded_bin(b).len() == b.len() + pad4(b.len() as int));
    }
}

/// What `create_glb` writes is as long as its total-length field says
/// (modulo 2^32), and a multiple of 4 bytes.
pub proof fn lemma_create_glb_len(json: Seq<u8>, bin: Option<Seq<u8>>)
    ensures
        spec_create_glb(json, bin).len() == glb_total_len(json, bin),
        glb_total_len(json, bin) % 4 == 0,
        le32_at(spec_create_glb(json, bin), 8) == len32(glb_total_len(json, bin)),
{
    let t = len32(glb_total_len(json, bin));
    let header = glb_magic() + le32_bytes(2) + le32_bytes(t);
    let data = spec_create_glb(json, bin);
    assert(data =~= header + glb_body(json, bin));
    lemma_glb_body_len(json, bin);
    assert(data.subrange(8, 12) =~= le32_bytes(t));
    lemma_le32_decode_at(data, 8, t);
}

#[verifier::spinoff_prover]
proof fn lemma_chunk_step(ty: Seq<u8>, payload: Seq<u8>, tail: Seq<u8>, acc: ChunkAcc)
    requires
        ty.len() == 4,
        payload.len() < 4294967296,
        payload.len() % 4 == 0,
    ensures
        parse_chunks(chunk_bytes(ty, payload) + tail, acc) == parse_chunks(
            tail,
            add_chunk(acc, ty, payload),
        ),
{
    let data = chunk_bytes(ty, payload) + tail;
    let len = payload.len() as int;
    assert(len32(len) == len);
    assert(data.subrange(0, 4) =~= le32_bytes(len32(len)));
    lemma_le32_decode_at(data, 0, len32(len));
    assert(data.subrange(4, 8) =~= ty);
    let rest = data.skip(8);
    assert(rest =~= payload + tail);
    assert(rest.take(len) =~= payload);
    assert(rest.skip(len) =~= tail);
}

proof fn lemma_header(json: Seq<u8>, bin: Option<Seq<u8>>, rest: Seq<u8>)
    ensures
        ({
            let data = glb_magic() + le32_bytes(2) + le32_bytes(len32(glb_total_len(json, bin)))
                + rest;
            &&& data.len() >= 12
            &&& data.subrange(0, 4) == glb_magic()
            &&& le32_at(data, 4) == 2
            &&& data.skip(12) == rest
        }),
{
    let data = glb_magic() + le32_bytes(2) + le32_bytes(len32(glb_total_len(json, bin))) + rest;
    assert(data.subrange(0, 4) =~= glb_magic());
    assert(data.subrange(4, 8) =~= le32_bytes(2));
    lemma_le32_decode_at(data, 4, 2);
    assert(data.skip(12) =~= rest);
}

/// The chunks that follow the header in what `create_glb` writes.
pub open spec fn glb_body(json: Seq<u8>, bin: Option<Seq<u8>>) -> Seq<u8> {
    chunk_bytes(json_chunk_type(), padded_json(json)) + match bin {
        Some(b) => chunk_bytes(bin_chunk_type(), padded_bin(b)),
        None => Seq::empty(),
    }
}

/// What reading back a container written by `create_glb` gives.
pub open spec fn glb_roundtrip_chunks(json: Seq<u8>, bin: Option<Seq<u8>>) -> ChunkAcc {
    ChunkAcc {
        json: Some(padded_json(json)),
        bin: match bin {
            Some(b) => Some(padded_bin(b)),
            None => None,
        },
        extra: Seq::empty(),
    }
}

/// The BIN chunk is filed as the binary buffer when no BIN chunk came
/// before it.
#[verifier::spinoff_prover]
proof fn lemma_bin_chunk_filed(json: Seq<u8>, b: Seq<u8>)
    ensures
        add_chunk(
            ChunkAcc { json: Some(padded_json(json)), bin: None, extra: Seq::empty() },
            bin_chunk_type(),
            padded_bin(b),
        ) == glb_roundtrip_chunks(json, Some(b)),
{
    assert(bin_chunk_type()[0] != json_chunk_type()[0]);
}

#[verifier::spinoff_prover]
proof fn lemma_bin_tail(json: Seq<u8>, bin: Option<Seq<u8>>)
    requires
        bin matches Some(b) ==> b.len() + 3 < 4294967296,
    ensures
        parse_chunks(
            match bin {
                Some(b) => chunk_bytes(bin_chunk_type(), padded_bin(b)),
                None => Seq::empty(),
            },
            ChunkAcc { json: Some(padded_json(json)), bin: None, extra: Seq::empty() },
        ) == Ok::<ChunkAcc, GlbError>(glb_roundtrip_chunks(json, bin)),
{
    let acc1 = ChunkAcc { json: Some(padded_json(json)), bin: None, extra: Seq::empty() };
    if let Some(b) = bin {
        let pb = padded_bin(b);
        lemma_pad4(b.len() as int);
        assert(pb.len() % 4 == 0);
        let c2 = chunk_bytes(bin_chunk_type(), pb);
        assert(c2 =~= c2 + Seq::<u8>::empty());
        lemma_chunk_step(bin_chunk_type(), pb, Seq::<u8>::empty(), acc1);
        lemma_bin_chunk_filed(json, b);
        assert(parse_chunks(Seq::<u8>::empty(), glb_roundtrip_chunks(json, bin)) == Ok::<
            ChunkAcc,
            GlbError,
        >(glb_roundtrip_chunks(json, bin)));
    }
}

/// The first JSON chunk is filed as the document.
#[verifier::spinoff_prover]
proof fn lemma_json_chunk_filed(json: Seq<u8>)
    ensures
        add_chunk(empty_acc(), json_chunk_type(), padded_json(json)) == (ChunkAcc {
            json: Some(padded_json(json)),
            bin: None,
            extra: Seq::empty(),
        }),
{
}

#[verifier::spinoff_prover]
proof fn lemma_body(json: Seq<u8>, bin: Option<Seq<u8>>)
    requires
        json.len() + 3 < 4294967296,
        bin matches Some(b) ==> b.len() + 3 < 4294967296,
    ensures
        parse_chunks(glb_body(json, bin), empty_acc()) == Ok::<ChunkAcc, GlbError>(
            glb_roundtrip_chunks(json, bin),
        ),
{
    let pj = padded_json(json);
    let c2 = match bin {
        Some(b) => chunk_bytes(bin_chunk_type(), padded_bin(b)),
        None => Seq::<u8>::empty(),
    };
    lemma_pad4(json.len() as int);
    assert(pj.len() % 4 == 0);
    assert(glb_body(json, bin) == chunk_bytes(json_chunk_type(), pj) + c2);
    lemma_chunk_step(json_chunk_type(), pj, c2, empty_acc());
    lemma_json_chunk_filed(json);
    lemma_bin_tail(json, bin);
}

/// Chunks are padded to whole words without touching their payload: the
/// JSON chunk is the document followed by fewer than four spaces, the BIN
/// chunk the buffer followed by fewer than four zeros.
pub proof fn lemma_chunk_padding(json: Seq<u8>, bin: Seq<u8>)
    ensures
        padded_json(json).len() % 4 == 0,
        json.len() <= padded_json(json).len() < json.len() + 4,
        padded_json(json).subrange(0, json.len() as int) == json,
        forall|k: int| json.len() <= k < padded_json(json).len() ==> #[trigger] padded_json(json)[k] == 0x20u8,
        padded_bin(bin).len() % 4 == 0,
        bin.len() <= padded_bin(bin).len() < bin.len() + 4,
        padded_bin(bin).subrange(0, bin.len() as int) == bin,
        forall|k: int| bin.len() <= k < padded_bin(bin).len() ==> #[trigger] padded_bin(bin)[k] == 0u8,
{
    lemma_pad4(json.len() as int);
    lemma_pad4(bin.len() as int);
    assert(padded_json(json).subrange(0, json.len() as int) =~= json);
    assert(padded_bin(bin).subrange(0, bin.len() as int) =~= bin);
}

/// A container written by `create_glb` reads back, through
/// `extract_glb_chunks`, as its JSON padded with spaces, its binary buffer
/// padded with zeros, and no other chunk.
pub proof fn lemma_glb_roundtrip(json: Seq<u8>, bin: Option<Seq<u8>>)
    requires
        json.len() + 3 < 4294967296,
        bin matches Some(b) ==> b.len() + 3 < 4294967296,
    ensures
        spec_extract_glb(spec_create_glb(json, bin)) == Ok::<ChunkAcc, GlbError>(
            glb_roundtrip_chunks(json, bin),
        ),
        spec_create_glb(json, bin).take(4) == glb_magic(),
{
    let header = glb_magic() + le32_bytes(2) + le32_bytes(len32(glb_total_len(json, bin)));
    assert(spec_create_glb(json, bin) =~= header + glb_body(json, bin));
    lemma_header(json, bin, glb_body(json, bin));
    lemma_body(json, bin);
    assert(spec_create_glb(json, bin).take(4) =~= spec_create_glb(json, bin).subrange(0, 4));
}

} // verus!
