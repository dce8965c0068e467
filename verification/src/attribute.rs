//! Vertex attribute data: reading an accessor's elements out of a document's
//! buffers, and packing attribute data back into one binary buffer.
use vstd::prelude::*;
use crate::bytes_le::{copy_range, push_all, push_repeat};
use crate::gltf_constants::{ComponentType, Target, Type};
use crate::gltf_types::{AccessorIndex, BufferIndex, BufferView, BufferViewIndex, ValidationError};

verus! {

/// A typed view into a buffer view (the fields that locate and shape the
/// data; bounds are not read).
#[derive(Debug)]
pub struct Accessor {
    pub buffer_view: Option<BufferViewIndex>,
    /// Offset relative to the start of the buffer view.
    pub byte_offset: Option<u32>,
    pub component_type: ComponentType,
    pub normalized: bool,
    /// Number of elements.
    pub count: u32,
    /// Scalar, vector or matrix.
    pub element_type: Type,
    pub name: Option<String>,
}

impl Accessor {
    /// Checks the accessor against its schema: at least one element, then
    /// the checks of `validate_accessor`.
    pub fn validate(&self) -> (r: Result<(), ValidationError>)
        ensures
            self.count < 1 ==> r == Err::<(), ValidationError>(ValidationError::Range),
            self.count >= 1 ==> r is Ok,
    {
        if self.count < 1 {
            return Err(ValidationError::Range);
        }
        validate_accessor(self)
    }

    /// The offset into the buffer view, 0 when undefined.
    pub fn byte_offset(&self) -> (r: u32)
        ensures
            r == opt_or_zero(self.byte_offset),
    {
        match self.byte_offset {
            Some(o) => o,
            None => 0,
        }
    }
}

/// The accessor checks beyond its fields' own: none is made yet (an offset
/// without a buffer view, an offset that is not a multiple of the component
/// size, bounds of the wrong length all pass).
pub fn validate_accessor(_accessor: &Accessor) -> (r: Result<(), ValidationError>)
    ensures
        r is Ok,
{
    Ok(())
}

/// A buffer of binary data; `data` holds its bytes once they are inlined.
#[derive(Debug)]
pub struct Buffer {
    pub data: Vec<u8>,
    pub uri: Option<String>,
    pub byte_length: u32,
    pub name: Option<String>,
}

/// Tightly packed attribute data with its layout.
#[derive(Debug)]
pub struct Attribute {
    pub component_type: ComponentType,
    pub normalized: bool,
    pub element_type: Type,
    pub data: Vec<u8>,
    pub count: u32,
}

/// Why an accessor's data cannot be read.
#[derive(Clone, Copy, Debug, PartialEq, Eq, Structural)]
pub enum AttributeError {
    InvalidAccessorIndex,
    /// The accessor has no buffer view.
    NoBufferView,
    InvalidBufferViewIndex,
    InvalidBufferIndex,
    /// The buffer is referenced by URI and its bytes were never loaded.
    BufferNotInlined,
    /// The element type has no known component count.
    UnknownType,
    /// The component type has no known size.
    UnknownComponentType,
    /// The data reaches past the end of the buffer.
    OutOfBounds,
}

/// The value of an optional offset, 0 when undefined.
pub open spec fn opt_or_zero(o: Option<u32>) -> int {
    match o {
        Some(v) => v as int,
        None => 0,
    }
}

/// `count` elements of `elem` bytes, the first at `start` and each next one
/// `stride` bytes further on, concatenated.
pub open spec fn strided_bytes(data: Seq<u8>, start: int, stride: int, elem: int, count: nat) -> Seq<
    u8,
>
    decreases count,
{
    if count == 0 {
        Seq::empty()
    } else {
        let k = count - 1;
        strided_bytes(data, start, stride, elem, k as nat) + data.subrange(
            start + k * stride,
            start + k * stride + elem,
        )
    }
}

/// Whether every element a read touches lies in the buffer: the whole run
/// for packed data, the last element for interleaved data.
pub open spec fn read_in_bounds(len: int, start: int, stride: int, elem: int, count: int) -> bool {
    if stride == 0 {
        start + count * elem <= len
    } else {
        count == 0 || start + (count - 1) * stride + elem <= len
    }
}

/// The bytes of an accessor's elements, packed tightly, or why they cannot
/// be read. Packed data (no stride) is one run; interleaved data is read
/// element by element.
pub open spec fn spec_attribute_bytes(
    accessors: Seq<Accessor>,
    views: Seq<BufferView>,
    buffers: Seq<Buffer>,
    idx: AccessorIndex,
) -> Result<Seq<u8>, AttributeError> {
    if idx.0 >= accessors.len() {
        Err(AttributeError::InvalidAccessorIndex)
    } else {
        let acc = accessors[idx.0 as int];
        match acc.buffer_view {
            None => Err(AttributeError::NoBufferView),
            Some(vi) => if vi.0 >= views.len() {
                Err(AttributeError::InvalidBufferViewIndex)
            } else {
                let view = views[vi.0 as int];
                if view.buffer.0 >= buffers.len() {
                    Err(AttributeError::InvalidBufferIndex)
                } else {
                    let buf = buffers[view.buffer.0 as int];
                    if buf.data@.len() == 0 && buf.uri is Some {
                        Err(AttributeError::BufferNotInlined)
                    } else if acc.element_type.spec_component_count() is None {
                        Err(AttributeError::UnknownType)
                    } else if acc.component_type.spec_byte_size() is None {
                        Err(AttributeError::UnknownComponentType)
                    } else {
                        let start = opt_or_zero(acc.byte_offset) + opt_or_zero(view.byte_offset);
                        let stride = opt_or_zero(view.byte_stride);
                        let elem = acc.element_type.spec_component_count().unwrap()
                            * acc.component_type.spec_byte_size().unwrap();
                        let count = acc.count as int;
                        let data = buf.data@;
                        if !read_in_bounds(data.len() as int, start, stride, elem, count) {
                            Err(AttributeError::OutOfBounds)
                        } else if stride == 0 {
                            Ok(data.subrange(start, start + count * elem))
                        } else {
                            Ok(strided_bytes(data, start, stride, elem, count as nat))
                        }
                    }
                }
            },
        }
    }
}

impl Type {
    /// A copy of this type.
    pub fn duplicate(&self) -> (r: Type)
        ensures
            r == *self,
    {
        match self {
            Type::Scalar => Type::Scalar,
            Type::Vec2 => Type::Vec2,
            Type::Vec3 => Type::Vec3,
            Type::Vec4 => Type::Vec4,
            Type::Mat2 => Type::Mat2,
            Type::Mat3 => Type::Mat3,
            Type::Mat4 => Type::Mat4,
            Type::Other(s) => Type::Other(s.clone()),
        }
    }
}

proof fn lemma_element_before_last(start: int, stride: int, elem: int, k: int, count: int)
    requires
        0 <= k < count,
        stride >= 0,
    ensures
        start + k * stride + elem <= start + (count - 1) * stride + elem,
{
    assert(k * stride <= (count - 1) * stride) by (nonlinear_arith)
        requires
            0 <= k <= count - 1,
            stride >= 0,
    ;
}

/// Gathers `count` elements of `elem` bytes spaced `stride` bytes apart.
fn gather_strided(data: &[u8], start: u64, stride: u64, elem: u64, count: u64) -> (r: Vec<u8>)
    requires
        count > 0,
        stride > 0,
        start + (count - 1) * stride + elem <= data@.len(),
    ensures
        r@ == strided_bytes(data@, start as int, stride as int, elem as int, count as nat),
{
    let mut out: Vec<u8> = Vec::new();
    let mut k: u64 = 0;
    let mut pos: u64 = start;
    let n: usize = data.len();
    while k < count
        invariant
            n == data@.len(),
            0 < count,
            stride > 0,
            k <= count,
            start + (count - 1) * stride + elem <= data@.len(),
            k < count ==> pos == start + k * stride,
            out@ == strided_bytes(data@, start as int, stride as int, elem as int, k as nat),
        decreases count - k,
    {
        proof {
            lemma_element_before_last(start as int, stride as int, elem as int, k as int, count as int);
        }
        let piece = vstd::slice::slice_subrange(data, pos as usize, (pos + elem) as usize);
        push_all(&mut out, piece);
        proof {
            assert(strided_bytes(data@, start as int, stride as int, elem as int, (k + 1) as nat)
                == strided_bytes(data@, start as int, stride as int, elem as int, k as nat)
                + data@.subrange(start + k * stride, start + k * stride + elem));
        }
        k = k + 1;
        if k < count {
            proof {
                lemma_element_before_last(start as int, stride as int, elem as int, k as int, count as int);
                assert(k * stride == (k - 1) * stride + stride) by (nonlinear_arith);
            }
            pos = pos + stride;
        }
    }
    out
}

/// Reads accessor `idx` out of the document's buffers into a tightly
/// packed attribute. Interleaved data (a buffer view with a stride) is
/// gathered element by element.
pub fn extract_attribute(
    accessors: &[Accessor],
    views: &[BufferView],
    buffers: &[Buffer],
    idx: AccessorIndex,
) -> (r: Result<Attribute, AttributeError>)
    ensures
        r is Err <==> spec_attribute_bytes(accessors@, views@, buffers@, idx) is Err,
        r matches Err(e) ==> spec_attribute_bytes(accessors@, views@, buffers@, idx) == Err::<
            Seq<u8>,
            AttributeError,
        >(e),
        r matches Ok(a) ==> {
            &&& spec_attribute_bytes(accessors@, views@, buffers@, idx) == Ok::<
                Seq<u8>,
                AttributeError,
            >(a.data@)
            &&& a.component_type == accessors@[idx.0 as int].component_type
            &&& a.normalized == accessors@[idx.0 as int].normalized
            &&& a.element_type == accessors@[idx.0 as int].element_type
            &&& a.count == accessors@[idx.0 as int].count
        },
{
    if idx.0 as usize >= accessors.len() {
        return Err(AttributeError::InvalidAccessorIndex);
    }
    let acc = &accessors[idx.0 as usize];
    let vi = match acc.buffer_view {
        Some(vi) => vi,
        None => {
            return Err(AttributeError::NoBufferView);
        },
    };
    if vi.0 as usize >= views.len() {
        return Err(AttributeError::InvalidBufferViewIndex);
    }
    let view = &views[vi.0 as usize];
    if view.buffer.0 as usize >= buffers.len() {
        return Err(AttributeError::InvalidBufferIndex);
    }
    let buf = &buffers[view.buffer.0 as usize];
    if buf.data.len() == 0 && buf.uri.is_some() {
        return Err(AttributeError::BufferNotInlined);
    }
    let component_count: u64 = match acc.element_type.component_count() {
        Some(c) => c as u64,
        None => {
            return Err(AttributeError::UnknownType);
        },
    };
    let component_size: u64 = match acc.component_type.byte_size() {
        Some(b) => b as u64,
        None => {
            return Err(AttributeError::UnknownComponentType);
        },
    };
    let start: u64 = acc.byte_offset() as u64 + view.byte_offset() as u64;
    let stride: u64 = match view.byte_stride {
        Some(s) => s as u64,
        None => 0,
    };
    assert(component_count * component_size <= 64) by (nonlinear_arith)
        requires
            component_count <= 16,
            component_size <= 4,
    ;
    let elem: u64 = component_count * component_size;
    let count: u64 = acc.count as u64;
    let len: u64 = buf.data.len() as u64;
    let ghost g_start = opt_or_zero(acc.byte_offset) + opt_or_zero(view.byte_offset);
    assert(start == g_start);
    let data = if stride == 0 {
        assert(count * elem <= 0xffff_ffff * 64) by (nonlinear_arith)
            requires
                count <= 0xffff_ffff,
                elem <= 64,
        ;
        let total = count * elem;
        if start > len || total > len - start {
            return Err(AttributeError::OutOfBounds);
        }
        copy_range(buf.data.as_slice(), start as usize, (start + total) as usize)
    } else if count == 0 {
        Vec::new()
    } else {
        assert((count - 1) * stride <= 0xffff_ffff * 0xffff_ffff) by (nonlinear_arith)
            requires
                count - 1 <= 0xffff_ffff,
                stride <= 0xffff_ffff,
        ;
        let reach = (count - 1) * stride;
        if start > len || reach > len - start || elem > len - start - reach {
            return Err(AttributeError::OutOfBounds);
        }
        gather_strided(buf.data.as_slice(), start, stride, elem, count)
    };
    Ok(
        Attribute {
            component_type: acc.component_type,
            normalized: acc.normalized,
            element_type: acc.element_type.duplicate(),
            data,
            count: acc.count,
        },
    )
}

/// `len` rounded up to the next multiple of `alignment`.
pub open spec fn spec_aligned(len: int, alignment: int) -> int {
    if len % alignment == 0 {
        len
    } else {
        len + (alignment - len % alignment)
    }
}

pub(crate) proof fn lemma_aligned(len: int, a: int)
    requires
        len >= 0,
        a > 0,
    ensures
        spec_aligned(len, a) % a == 0,
        len <= spec_aligned(len, a) < len + a,
{
    let r = len % a;
    assert(0 <= r < a) by (nonlinear_arith)
        requires
            a > 0,
            r == len % a,
    ;
    if r != 0 {
        assert((len + (a - r)) % a == 0) by (nonlinear_arith)
            requires
                a > 0,
                r == len % a,
        ;
    }
}

/// Rounds `current_len` up to a multiple of `alignment`: the least multiple
/// of `alignment` that is at least `current_len`.
pub fn align_length_to_multiple_of(current_len: usize, alignment: usize) -> (r: usize)
    requires
        alignment > 0,
        spec_aligned(current_len as int, alignment as int) <= usize::MAX,
    ensures
        r == spec_aligned(current_len as int, alignment as int),
        r % alignment == 0,
        current_len <= r < current_len + alignment,
{
    proof {
        lemma_aligned(current_len as int, alignment as int);
    }
    let rem = current_len % alignment;
    if rem == 0 {
        current_len
    } else {
        current_len + (alignment - rem)
    }
}

/// The buffer view that describes `len` packed bytes at `offset` of the
/// first buffer.
pub open spec fn packed_view(offset: int, len: int, target: Option<Target>) -> BufferView {
    BufferView {
        buffer: BufferIndex(0),
        byte_offset: Some(offset as u32),
        byte_length: len as u32,
        byte_stride: None,
        target,
        name: None,
    }
}

/// `n` zero bytes.
pub open spec fn zeros(n: int) -> Seq<u8> {
    Seq::new(n as nat, |i: int| 0u8)
}

/// One binary buffer being filled with attribute and image data, and the
/// buffer views that describe what was put in it.
pub struct BufferPacker {
    pub buffer: Vec<u8>,
    pub views: Vec<BufferView>,
}

impl BufferPacker {
    /// An empty buffer with no views.
    pub fn new() -> (r: Self)
        ensures
            r.buffer@ == Seq::<u8>::empty(),
            r.views@ == Seq::<BufferView>::empty(),
    {
        BufferPacker { buffer: Vec::new(), views: Vec::new() }
    }

    /// Appends an attribute's data at the next offset that is a multiple of
    /// its component size (the gap is zero filled) and records a tightly
    /// packed buffer view for it; returns that view's index.
    pub fn push_attribute(&mut self, attribute: &Attribute, target: Target) -> (r: BufferViewIndex)
        requires
            attribute.component_type.spec_byte_size() is Some,
            old(self).views@.len() < u32::MAX,
            spec_aligned(
                old(self).buffer@.len() as int,
                attribute.component_type.spec_byte_size().unwrap() as int,
            ) + attribute.data@.len() <= u32::MAX,
        ensures
            ({
                let start = spec_aligned(
                    old(self).buffer@.len() as int,
                    attribute.component_type.spec_byte_size().unwrap() as int,
                );
                &&& final(self).buffer@ == old(self).buffer@ + zeros(start - old(self).buffer@.len())
                    + attribute.data@
                &&& final(self).views@ == old(self).views@.push(
                    packed_view(start, attribute.data@.len() as int, Some(target)),
                )
            }),
            r == BufferViewIndex(old(self).views@.len() as u32),
    {
        let alignment: usize = match attribute.component_type.byte_size() {
            Some(b) => b as usize,
            None => 1,
        };
        let old_len = self.buffer.len();
        let start = align_length_to_multiple_of(old_len, alignment);
        push_repeat(&mut self.buffer, 0u8, start - old_len);
        push_all(&mut self.buffer, attribute.data.as_slice());
        let view = BufferView {
            buffer: BufferIndex(0),
            byte_offset: Some(start as u32),
            byte_length: attribute.data.len() as u32,
            byte_stride: None,
            target: Some(target),
            name: None,
        };
        let index = BufferViewIndex(self.views.len() as u32);
        self.views.push(view);
        assert(zeros(start - old_len) =~= Seq::new((start - old_len) as nat, |i: int| 0u8));
        index
    }

    /// Appends image bytes right after what the buffer holds and records a
    /// buffer view for them; returns that view's index.
    pub fn push_image(&mut self, bytes: &[u8]) -> (r: BufferViewIndex)
        requires
            old(self).views@.len() < u32::MAX,
            old(self).buffer@.len() + bytes@.len() <= u32::MAX,
        ensures
            final(self).buffer@ == old(self).buffer@ + bytes@,
            final(self).views@ == old(self).views@.push(
                packed_view(old(self).buffer@.len() as int, bytes@.len() as int, None),
            ),
            r == BufferViewIndex(old(self).views@.len() as u32),
    {
        let start = self.buffer.len();
        push_all(&mut self.buffer, bytes);
        let view = BufferView {
            buffer: BufferIndex(0),
            byte_offset: Some(start as u32),
            byte_length: bytes.len() as u32,
            byte_stride: None,
            target: None,
            name: None,
        };
        let index = BufferViewIndex(self.views.len() as u32);
        self.views.push(view);
        index
    }
}

/// Packed attribute data reads back unchanged: when a buffer view made by
/// `push_attribute` is read through an accessor of the same layout with no
/// offset of its own, from a buffer that still starts with what was packed,
/// `extract_attribute` gives exactly the attribute's bytes.
pub proof fn lemma_packed_attribute_reads_back(
    accessors: Seq<Accessor>,
    views: Seq<BufferView>,
    buffers: Seq<Buffer>,
    idx: AccessorIndex,
    before: Seq<u8>,
    data: Seq<u8>,
    target: Target,
)
    requires
        idx.0 < accessors.len(),
        accessors[idx.0 as int].byte_offset is None,
        accessors[idx.0 as int].component_type.spec_byte_size() is Some,
        accessors[idx.0 as int].element_type.spec_component_count() is Some,
        accessors[idx.0 as int].count * (accessors[idx.0 as int].element_type.spec_component_count().unwrap()
            * accessors[idx.0 as int].component_type.spec_byte_size().unwrap()) == data.len(),
        accessors[idx.0 as int].buffer_view matches Some(v) && v.0 < views.len() && views[v.0 as int]
            == packed_view(
            spec_aligned(
                before.len() as int,
                accessors[idx.0 as int].component_type.spec_byte_size().unwrap() as int,
            ),
            data.len() as int,
            Some(target),
        ),
        spec_aligned(
            before.len() as int,
            accessors[idx.0 as int].component_type.spec_byte_size().unwrap() as int,
        ) + data.len() <= u32::MAX,
        buffers.len() >= 1,
        buffers[0].uri is None,
        (before + zeros(
            spec_aligned(
                before.len() as int,
                accessors[idx.0 as int].component_type.spec_byte_size().unwrap() as int,
            ) - before.len(),
        ) + data).is_prefix_of(buffers[0].data@),
    ensures
        spec_attribute_bytes(accessors, views, buffers, idx) == Ok::<Seq<u8>, AttributeError>(data),
{
    let acc = accessors[idx.0 as int];
    let bs = acc.component_type.spec_byte_size().unwrap() as int;
    lemma_aligned(before.len() as int, bs);
    let start = spec_aligned(before.len() as int, bs);
    let packed = before + zeros(start - before.len()) + data;
    let buf = buffers[0].data@;
    assert(packed.len() == start + data.len());
    assert(buf.subrange(start, start + data.len()) =~= data) by {
        assert forall|i: int| 0 <= i < data.len() implies buf.subrange(start, start + data.len())[i]
            == data[i] by {
            assert(buf[start + i] == packed[start + i]);
        }
    }
    assert(opt_or_zero(Some(start as u32)) == start);
}

} // verus!
