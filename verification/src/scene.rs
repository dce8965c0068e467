//! The owned scene model that documents are converted into for combining:
//! samplers with their defaults made explicit, images that own their bytes,
//! attribute keys, and index buffers promoted to 32 bits.
use vstd::prelude::*;
use crate::attribute::{
    extract_attribute, opt_or_zero, spec_attribute_bytes, Accessor, Attribute, AttributeError,
    Buffer,
};
use crate::bytes_le::{
    copy_range, le16_at, le32_at, le32_bytes, push_all, push_u32_le, read_u16_le, read_u32_le,
};
use crate::text::str_equal;
use crate::gltf_constants::{ComponentType, MagFilter, MimeType, MinFilter, Mode, Type, WrapMode};
use crate::gltf_types::{AccessorIndex, BufferView, MaterialIndex, Mesh, Primitive};
use crate::semantic::Semantic;

verus! {

/// A texture sampler with its wrapping modes made explicit.
#[derive(Debug)]
pub struct Sampler {
    pub mag_filter: Option<MagFilter>,
    pub min_filter: Option<MinFilter>,
    pub wrap_s: WrapMode,
    pub wrap_t: WrapMode,
    pub name: Option<String>,
}

/// Where an image's bytes come from.
#[derive(Debug)]
pub enum ImageSource {
    Uri(String, Option<MimeType>),
    Data(Vec<u8>, MimeType),
}

/// An image that owns its bytes or names its URI.
#[derive(Debug)]
pub struct Image {
    pub source: ImageSource,
    pub name: Option<String>,
}

/// What makes attributes combinable: the same semantic and layout.
#[derive(Debug)]
pub struct AttributeKey {
    pub semantic: Semantic,
    pub component_type: ComponentType,
    pub element_type: Type,
    pub normalized: bool,
}

/// A copy of an optional string.
pub fn copy_opt_string(o: &Option<String>) -> (r: Option<String>)
    ensures
        r == *o,
{
    match o {
        Some(s) => Some(s.clone()),
        None => None,
    }
}

impl MimeType {
    /// A copy of this media type.
    pub fn duplicate(&self) -> (r: MimeType)
        ensures
            r == *self,
    {
        match self {
            MimeType::Jpeg => MimeType::Jpeg,
            MimeType::Png => MimeType::Png,
            MimeType::Other(s) => MimeType::Other(s.clone()),
        }
    }
}

impl Semantic {
    /// A copy of this semantic.
    pub fn duplicate(&self) -> (r: Semantic)
        ensures
            r == *self,
    {
        match self {
            Semantic::Position => Semantic::Position,
            Semantic::Normal => Semantic::Normal,
            Semantic::Tangent => Semantic::Tangent,
            Semantic::TexCoord(n) => Semantic::TexCoord(*n),
            Semantic::Color(n) => Semantic::Color(*n),
            Semantic::Joints(n) => Semantic::Joints(*n),
            Semantic::Weights(n) => Semantic::Weights(*n),
            Semantic::Custom(s) => Semantic::Custom(s.clone()),
        }
    }
}

impl AttributeKey {
    /// The key of an attribute under a semantic.
    pub fn new(semantic: &Semantic, attribute: &Attribute) -> (r: AttributeKey)
        ensures
            r.semantic == *semantic,
            r.component_type == attribute.component_type,
            r.element_type == attribute.element_type,
            r.normalized == attribute.normalized,
    {
        AttributeKey {
            semantic: semantic.duplicate(),
            component_type: attribute.component_type,
            element_type: attribute.element_type.duplicate(),
            normalized: attribute.normalized,
        }
    }
}

/// The sampler used where a texture names none: no filters, repeating in
/// both directions.
pub fn default_sampler() -> (r: Sampler)
    ensures
        r.mag_filter is None,
        r.min_filter is None,
        r.wrap_s == WrapMode::Repeat,
        r.wrap_t == WrapMode::Repeat,
        r.name is None,
{
    Sampler {
        mag_filter: None,
        min_filter: None,
        wrap_s: WrapMode::Repeat,
        wrap_t: WrapMode::Repeat,
        name: None,
    }
}

/// A document sampler with its wrapping defaults (`Repeat`) filled in.
pub fn build_sampler(raw: &crate::gltf_types::Sampler) -> (r: Sampler)
    ensures
        r.mag_filter == raw.mag_filter,
        r.min_filter == raw.min_filter,
        r.wrap_s == match raw.wrap_s {
            Some(w) => w,
            None => WrapMode::Repeat,
        },
        r.wrap_t == match raw.wrap_t {
            Some(w) => w,
            None => WrapMode::Repeat,
        },
        r.name == raw.name,
{
    Sampler {
        name: copy_opt_string(&raw.name),
        mag_filter: raw.mag_filter,
        min_filter: raw.min_filter,
        wrap_s: raw.wrap_s(),
        wrap_t: raw.wrap_t(),
    }
}

/// Why an image's bytes cannot be had.
#[derive(Clone, Copy, Debug, PartialEq, Eq, Structural)]
pub enum ImageError {
    InvalidBufferViewIndex,
    InvalidBufferIndex,
    /// The buffer view reaches past the end of its buffer.
    OutOfBounds,
    /// An image read from a buffer view must name its media type.
    MissingMimeType,
    /// Neither a URI nor a buffer view.
    NoSource,
}

/// What `build_image` gives: a URI image as it stands, or the bytes of its
/// buffer view with its media type.
pub open spec fn spec_image_source(
    raw: crate::gltf_types::Image,
    views: Seq<BufferView>,
    buffers: Seq<Buffer>,
) -> Result<Option<Seq<u8>>, ImageError> {
    match raw.uri {
        Some(_) => Ok(None),
        None => match raw.buffer_view {
            None => Err(ImageError::NoSource),
            Some(vi) => if vi.0 >= views.len() {
                Err(ImageError::InvalidBufferViewIndex)
            } else if views[vi.0 as int].buffer.0 >= buffers.len() {
                Err(ImageError::InvalidBufferIndex)
            } else {
                let view = views[vi.0 as int];
                let data = buffers[view.buffer.0 as int].data@;
                let start = opt_or_zero(view.byte_offset);
                if start + view.byte_length > data.len() {
                    Err(ImageError::OutOfBounds)
                } else if raw.mime_type is None {
                    Err(ImageError::MissingMimeType)
                } else {
                    Ok(Some(data.subrange(start, start + view.byte_length)))
                }
            },
        },
    }
}

/// Converts a document image: one with a URI keeps it (and its media type,
/// if any); one in a buffer view gets that view's bytes and must name its
/// media type.
pub fn build_image(raw: &crate::gltf_types::Image, views: &[BufferView], buffers: &[Buffer]) -> (r:
    Result<Image, ImageError>)
    ensures
        match (r, spec_image_source(*raw, views@, buffers@)) {
            (Ok(img), Ok(None)) => img.name == raw.name && (img.source matches ImageSource::Uri(u, m)
                && Some(u) == raw.uri && m == raw.mime_type),
            (Ok(img), Ok(Some(bytes))) => img.name == raw.name && (img.source matches ImageSource::Data(
                d,
                m,
            ) && d@ == bytes && Some(m) == raw.mime_type),
            (Err(e), Err(f)) => e == f,
            _ => false,
        },
{
    let source = match &raw.uri {
        Some(uri) => {
            let mime = match &raw.mime_type {
                Some(m) => Some(m.duplicate()),
                None => None,
            };
            ImageSource::Uri(uri.clone(), mime)
        },
        None => match raw.buffer_view {
            None => {
                return Err(ImageError::NoSource);
            },
            Some(vi) => {
                if vi.0 as usize >= views.len() {
                    return Err(ImageError::InvalidBufferViewIndex);
                }
                let view = &views[vi.0 as usize];
                if view.buffer.0 as usize >= buffers.len() {
                    return Err(ImageError::InvalidBufferIndex);
                }
                let data = &buffers[view.buffer.0 as usize].data;
                let start = view.byte_offset() as u64;
                let end = start + view.byte_length as u64;
                if end > data.len() as u64 {
                    return Err(ImageError::OutOfBounds);
                }
                let mime = match &raw.mime_type {
                    Some(m) => m.duplicate(),
                    None => {
                        return Err(ImageError::MissingMimeType);
                    },
                };
                ImageSource::Data(copy_range(data.as_slice(), start as usize, end as usize), mime)
            },
        },
    };
    Ok(Image { source, name: copy_opt_string(&raw.name) })
}

/// Why indices cannot be appended.
#[derive(Clone, Copy, Debug, PartialEq, Eq, Structural)]
pub enum IndexError {
    /// Indices must be unsigned integers.
    NotUnsigned,
    /// An index plus the vertex offset does not fit in 32 bits.
    Overflow,
}

/// The index values an index attribute holds, by component type (little
/// endian); empty for a type that is not an unsigned integer.
pub open spec fn index_values(data: Seq<u8>, ct: ComponentType) -> Seq<int> {
    match ct {
        ComponentType::UnsignedByte => Seq::new(data.len(), |k: int| data[k] as int),
        ComponentType::UnsignedShort => Seq::new(data.len() / 2, |k: int| le16_at(data, 2 * k)),
        ComponentType::UnsignedInt => Seq::new(data.len() / 4, |k: int| le32_at(data, 4 * k)),
        _ => Seq::empty(),
    }
}

/// The little-endian bytes of each value plus `offset`, in order.
pub open spec fn promoted_bytes(values: Seq<int>, offset: int) -> Seq<u8>
    decreases values.len(),
{
    if values.len() == 0 {
        Seq::empty()
    } else {
        promoted_bytes(values.drop_last(), offset) + le32_bytes((values.last() + offset) as u32)
    }
}

/// Reads index `k` of an index attribute.
fn index_at(data: &[u8], ct: ComponentType, k: usize) -> (r: u32)
    requires
        ct is UnsignedByte || ct is UnsignedShort || ct is UnsignedInt,
        k < index_values(data@, ct).len(),
    ensures
        r == index_values(data@, ct)[k as int],
{
    let _len = data.len();
    match ct {
        ComponentType::UnsignedByte => data[k] as u32,
        ComponentType::UnsignedShort => {
            assert(2 * k + 2 <= data@.len()) by (nonlinear_arith)
                requires
                    k < data@.len() / 2,
            ;
            read_u16_le(data, 2 * k) as u32
        },
        _ => {
            assert(4 * k + 4 <= data@.len()) by (nonlinear_arith)
                requires
                    k < data@.len() / 4,
            ;
            read_u32_le(data, 4 * k)
        },
    }
}

/// Appends an index attribute to a 32-bit index buffer, each index moved
/// up by `vertex_offset`. Nothing is written when an index would overflow
/// or the indices are not unsigned integers.
pub fn append_indices(dst: &mut Vec<u8>, src: &Attribute, vertex_offset: u32) -> (r: Result<
    (),
    IndexError,
>)
    requires
        src.component_type is UnsignedShort ==> src.data@.len() % 2 == 0,
        src.component_type is UnsignedInt ==> src.data@.len() % 4 == 0,
    ensures
        !(src.component_type is UnsignedByte || src.component_type is UnsignedShort
            || src.component_type is UnsignedInt) ==> r == Err::<(), IndexError>(
            IndexError::NotUnsigned,
        ) && final(dst)@ == old(dst)@,
        (src.component_type is UnsignedByte || src.component_type is UnsignedShort
            || src.component_type is UnsignedInt) ==> {
            let values = index_values(src.data@, src.component_type);
            if exists|k: int| 0 <= k < values.len() && values[k] + vertex_offset > u32::MAX {
                r == Err::<(), IndexError>(IndexError::Overflow) && final(dst)@ == old(dst)@
            } else {
                r is Ok && final(dst)@ == old(dst)@ + promoted_bytes(values, vertex_offset as int)
            }
        },
{
    let ct = src.component_type;
    let unsigned = match ct {
        ComponentType::UnsignedByte | ComponentType::UnsignedShort | ComponentType::UnsignedInt => true,
        _ => false,
    };
    if !unsigned {
        return Err(IndexError::NotUnsigned);
    }
    let data = src.data.as_slice();
    let n: usize = match ct {
        ComponentType::UnsignedByte => data.len(),
        ComponentType::UnsignedShort => data.len() / 2,
        _ => data.len() / 4,
    };
    let ghost values = index_values(src.data@, ct);
    let ghost before = dst@;
    assert(n == values.len());
    let mut k: usize = 0;
    while k < n
        invariant
            dst@ == before,
            ct == src.component_type,
            ct is UnsignedByte || ct is UnsignedShort || ct is UnsignedInt,
            data@ == src.data@,
            values == index_values(data@, ct),
            n == values.len(),
            k <= n,
            forall|m: int| 0 <= m < k ==> values[m] + vertex_offset <= u32::MAX,
        decreases n - k,
    {
        let v = index_at(data, ct, k);
        if v > u32::MAX - vertex_offset {
            return Err(IndexError::Overflow);
        }
        k = k + 1;
    }
    let ghost start = dst@;
    let mut k: usize = 0;
    while k < n
        invariant
            ct is UnsignedByte || ct is UnsignedShort || ct is UnsignedInt,
            data@ == src.data@,
            values == index_values(data@, ct),
            n == values.len(),
            k <= n,
            forall|m: int| 0 <= m < n ==> values[m] + vertex_offset <= u32::MAX,
            dst@ == start + promoted_bytes(values.take(k as int), vertex_offset as int),
        decreases n - k,
    {
        let v = index_at(data, ct, k);
        push_u32_le(dst, v + vertex_offset);
        assert(values.take(k + 1).drop_last() =~= values.take(k as int));
        k = k + 1;
    }
    assert(values.take(n as int) =~= values);
    Ok(())
}

/// Whether two semantics are the same.
pub fn semantic_eq(a: &Semantic, b: &Semantic) -> (r: bool)
    ensures
        r == (a@ == b@),
{
    match (a, b) {
        (Semantic::Position, Semantic::Position) => true,
        (Semantic::Normal, Semantic::Normal) => true,
        (Semantic::Tangent, Semantic::Tangent) => true,
        (Semantic::TexCoord(x), Semantic::TexCoord(y)) => *x == *y,
        (Semantic::Color(x), Semantic::Color(y)) => *x == *y,
        (Semantic::Joints(x), Semantic::Joints(y)) => *x == *y,
        (Semantic::Weights(x), Semantic::Weights(y)) => *x == *y,
        (Semantic::Custom(x), Semantic::Custom(y)) => str_equal(x.as_str(), y.as_str()),
        _ => false,
    }
}

/// The first position in `attrs` whose semantic is `s`.
pub open spec fn find_semantic(attrs: Seq<(Semantic, Attribute)>, s: Semantic) -> Option<int>
    decreases attrs.len(),
{
    if attrs.len() == 0 {
        None
    } else {
        match find_semantic(attrs.drop_last(), s) {
            Some(k) => Some(k),
            None => if attrs.last().0@ == s@ {
                Some(attrs.len() - 1)
            } else {
                None
            },
        }
    }
}

proof fn lemma_find_semantic(attrs: Seq<(Semantic, Attribute)>, s: Semantic)
    ensures
        find_semantic(attrs, s) matches Some(k) ==> 0 <= k < attrs.len() && attrs[k].0@ == s@,
        find_semantic(attrs, s) is None ==> forall|k: int|
            0 <= k < attrs.len() ==> (#[trigger] attrs[k]).0@ != s@,
    decreases attrs.len(),
{
    if attrs.len() > 0 {
        let d = attrs.drop_last();
        lemma_find_semantic(d, s);
        if find_semantic(attrs, s) is None {
            assert forall|k: int| 0 <= k < attrs.len() implies (#[trigger] attrs[k]).0@ != s@ by {
                if k < d.len() {
                    assert(d[k] == attrs[k]);
                } else {
                    assert(attrs[k] == attrs.last());
                }
            }
        }
    }
}

/// Why a primitive cannot be appended to a builder.
#[derive(Clone, Copy, Debug, PartialEq, Eq, Structural)]
pub enum AppendError {
    /// The primitive has no attributes.
    NoAttributes,
    /// The primitive lacks an attribute the builder collects.
    MissingAttribute,
    /// The primitive's attributes disagree on the number of vertices.
    InconsistentVertexCount,
    /// The indices cannot be appended.
    Indices(IndexError),
    /// The vertex or index count no longer fits in 32 bits.
    CountOverflow,
}

/// Accumulates the primitives that share one attribute layout, material
/// and mode into one primitive: an attribute buffer per semantic and a
/// 32-bit index buffer.
#[derive(Debug)]
pub struct PrimitiveBuilder {
    /// The semantic of each attribute buffer.
    pub semantics: Vec<Semantic>,
    pub attribute_buffers: Vec<Vec<u8>>,
    pub index_buffer: Vec<u8>,
    pub vertex_count: u32,
    pub index_count: u32,
}

/// Whether a primitive's attributes hold every collected semantic, each
/// with `count` vertices.
pub open spec fn attributes_fit(
    semantics: Seq<Semantic>,
    attrs: Seq<(Semantic, Attribute)>,
    count: u32,
) -> bool {
    forall|k: int|
        0 <= k < semantics.len() ==> (find_semantic(attrs, #[trigger] semantics[k]) matches Some(
            i,
        ) && attrs[i].1.count == count)
}

/// The error met when checking, semantic by semantic in the builder's
/// order, that each is present among the attributes with `count`
/// vertices; `None` when all are.
pub open spec fn fit_error(
    semantics: Seq<Semantic>,
    attrs: Seq<(Semantic, Attribute)>,
    count: u32,
) -> Option<AppendError>
    decreases semantics.len(),
{
    if semantics.len() == 0 {
        None
    } else {
        match fit_error(semantics.drop_last(), attrs, count) {
            Some(e) => Some(e),
            None => match find_semantic(attrs, semantics.last()) {
                None => Some(AppendError::MissingAttribute),
                Some(i) => if attrs[i].1.count != count {
                    Some(AppendError::InconsistentVertexCount)
                } else {
                    None
                },
            },
        }
    }
}

/// An error met in a prefix of the semantics is the error of the whole.
proof fn lemma_fit_error_prefix(
    semantics: Seq<Semantic>,
    attrs: Seq<(Semantic, Attribute)>,
    count: u32,
    i: int,
)
    requires
        0 <= i <= semantics.len(),
        fit_error(semantics.take(i), attrs, count) is Some,
    ensures
        fit_error(semantics, attrs, count) == fit_error(semantics.take(i), attrs, count),
    decreases semantics.len() - i,
{
    if i < semantics.len() {
        assert(semantics.take(i + 1).drop_last() =~= semantics.take(i));
        lemma_fit_error_prefix(semantics, attrs, count, i + 1);
    } else {
        assert(semantics.take(i) =~= semantics);
    }
}

/// Why an index attribute cannot be appended at `offset`, if it cannot.
pub open spec fn index_error(idx: Attribute, offset: u32) -> Option<IndexError> {
    let ct = idx.component_type;
    let values = index_values(idx.data@, ct);
    if !(ct is UnsignedByte || ct is UnsignedShort || ct is UnsignedInt) {
        Some(IndexError::NotUnsigned)
    } else if exists|k: int| 0 <= k < values.len() && values[k] + offset > u32::MAX {
        Some(IndexError::Overflow)
    } else {
        None
    }
}

/// What appending a primitive to a builder answers: `NoAttributes` for a
/// primitive without attributes, then the first missing or inconsistent
/// attribute, then an index error, then a count that no longer fits in 32
/// bits; otherwise success.
pub open spec fn append_outcome(
    b: BuilderView,
    attributes: Seq<(Semantic, Attribute)>,
    indices: Option<&Attribute>,
) -> Result<(), AppendError> {
    if attributes.len() == 0 {
        Err(AppendError::NoAttributes)
    } else {
        let count = attributes[0].1.count;
        match fit_error(b.semantics, attributes, count) {
            Some(e) => Err(e),
            None => match indices {
                Some(idx) => match index_error(*idx, b.vertex_count) {
                    Some(e) => Err(AppendError::Indices(e)),
                    None => if idx.count + b.index_count > u32::MAX || count + b.vertex_count
                        > u32::MAX {
                        Err(AppendError::CountOverflow)
                    } else {
                        Ok(())
                    },
                },
                None => if count + b.vertex_count > u32::MAX {
                    Err(AppendError::CountOverflow)
                } else {
                    Ok(())
                },
            },
        }
    }
}

/// A builder as a mathematical value: the semantic and bytes of each
/// attribute buffer, the index bytes and the two counts.
pub struct BuilderView {
    pub semantics: Seq<Semantic>,
    pub buffers: Seq<Seq<u8>>,
    pub index_buffer: Seq<u8>,
    pub vertex_count: u32,
    pub index_count: u32,
}

impl View for PrimitiveBuilder {
    type V = BuilderView;

    open spec fn view(&self) -> BuilderView {
        BuilderView {
            semantics: self.semantics@,
            buffers: self.attribute_buffers@.map_values(|b: Vec<u8>| b@),
            index_buffer: self.index_buffer@,
            vertex_count: self.vertex_count,
            index_count: self.index_count,
        }
    }
}

/// A builder that has collected nothing yet for the given semantics.
pub open spec fn empty_builder(semantics: Seq<Semantic>) -> BuilderView {
    BuilderView {
        semantics,
        buffers: Seq::new(semantics.len(), |k: int| Seq::<u8>::empty()),
        index_buffer: Seq::empty(),
        vertex_count: 0,
        index_count: 0,
    }
}

/// What a successful append of a primitive (its attributes and indices)
/// makes of a builder: each buffer grows by the data of the attribute with
/// its semantic, the vertex count by the primitive's, and the indices,
/// moved up by the vertices already collected, are added as 32-bit values.
pub open spec fn appended(
    old: BuilderView,
    new: BuilderView,
    attributes: Seq<(Semantic, Attribute)>,
    indices: Option<&Attribute>,
) -> bool {
    let count = attributes[0].1.count;
    &&& attributes.len() > 0
    &&& attributes_fit(old.semantics, attributes, count)
    &&& new.semantics == old.semantics
    &&& new.buffers.len() == old.buffers.len()
    &&& forall|k: int|
        0 <= k < old.semantics.len() ==> #[trigger] new.buffers[k] == old.buffers[k]
            + attributes[find_semantic(attributes, old.semantics[k]).unwrap()].1.data@
    &&& new.vertex_count == old.vertex_count + count
    &&& match indices {
        None => new.index_buffer == old.index_buffer && new.index_count == old.index_count,
        Some(idx) => new.index_buffer == old.index_buffer + promoted_bytes(
            index_values(idx.data@, idx.component_type),
            old.vertex_count as int,
        ) && new.index_count == old.index_count + idx.count,
    }
}

/// Whether `key` is the key of `attribute` under `semantic`.
pub open spec fn is_key_of(key: AttributeKey, semantic: Semantic, attribute: Attribute) -> bool {
    &&& key.semantic == semantic
    &&& key.component_type == attribute.component_type
    &&& key.element_type == attribute.element_type
    &&& key.normalized == attribute.normalized
}

impl PrimitiveBuilder {
    /// The keys of a primitive's attributes, in the attributes' order (for
    /// attributes kept by semantic, the order of their semantics).
    pub fn attributes_key(attrs: &[(Semantic, Attribute)]) -> (r: Vec<AttributeKey>)
        ensures
            r@.len() == attrs@.len(),
            forall|k: int| 0 <= k < attrs@.len() ==> is_key_of(#[trigger] r@[k], attrs@[k].0, attrs@[k].1),
    {
        let mut keys: Vec<AttributeKey> = Vec::new();
        let mut k: usize = 0;
        while k < attrs.len()
            invariant
                k <= attrs@.len(),
                keys@.len() == k,
                forall|m: int| 0 <= m < k ==> is_key_of(#[trigger] keys@[m], attrs@[m].0, attrs@[m].1),
            decreases attrs@.len() - k,
        {
            keys.push(AttributeKey::new(&attrs[k].0, &attrs[k].1));
            k = k + 1;
        }
        keys
    }

    /// An empty builder with one buffer for each key's semantic.
    pub fn new(keys: &[AttributeKey]) -> (r: PrimitiveBuilder)
        ensures
            r.semantics@.len() == keys@.len(),
            r.attribute_buffers@.len() == keys@.len(),
            forall|k: int|
                0 <= k < keys@.len() ==> #[trigger] r.semantics@[k] == keys@[k].semantic
                    && r.attribute_buffers@[k]@.len() == 0,
            r.index_buffer@.len() == 0,
            r.vertex_count == 0,
            r.index_count == 0,
            r@ == empty_builder(r.semantics@),
    {
        let mut semantics: Vec<Semantic> = Vec::new();
        let mut buffers: Vec<Vec<u8>> = Vec::new();
        let mut k: usize = 0;
        while k < keys.len()
            invariant
                k <= keys@.len(),
                semantics@.len() == k,
                buffers@.len() == k,
                forall|m: int|
                    0 <= m < k ==> #[trigger] semantics@[m] == keys@[m].semantic
                        && buffers@[m]@.len() == 0,
            decreases keys@.len() - k,
        {
            semantics.push(keys[k].semantic.duplicate());
            buffers.push(Vec::new());
            k = k + 1;
        }
        let r = PrimitiveBuilder {
            semantics,
            attribute_buffers: buffers,
            index_buffer: Vec::new(),
            vertex_count: 0,
            index_count: 0,
        };
        proof {
            assert forall|k: int| 0 <= k < r@.buffers.len() implies #[trigger] r@.buffers[k]
                == Seq::<u8>::empty() by {
                assert(r.semantics@[k] == keys@[k].semantic);
                assert(r@.buffers[k] =~= Seq::<u8>::empty());
            }
            assert(r@.buffers =~= empty_builder(r.semantics@).buffers);
            assert(r@.index_buffer =~= Seq::<u8>::empty());
        }
        r
    }

    /// Appends a primitive, given by its attributes in key order (with
    /// positions, normals and tangents already in the builder's frame) and
    /// its indices. The vertex count is that of the first attribute; the
    /// indices are moved up by the vertices already collected. On an error
    /// the builder is left as it was.
    pub fn append(&mut self, attributes: &[(Semantic, Attribute)], indices: Option<&Attribute>) -> (r:
        Result<(), AppendError>)
        requires
            old(self).semantics@.len() == old(self).attribute_buffers@.len(),
            indices matches Some(idx) ==> (idx.component_type is UnsignedShort ==> idx.data@.len() % 2
                == 0) && (idx.component_type is UnsignedInt ==> idx.data@.len() % 4 == 0),
        ensures
            r == append_outcome(old(self)@, attributes@, indices),
            r is Err ==> *final(self) == *old(self),
            r is Ok ==> appended(old(self)@, final(self)@, attributes@, indices),
    {
        if attributes.len() == 0 {
            return Err(AppendError::NoAttributes);
        }
        let count = attributes[0].1.count;
        let n = self.semantics.len();
        let mut sources: Vec<usize> = Vec::new();
        let mut k: usize = 0;
        while k < n
            invariant
                n == self.semantics@.len(),
                k <= n,
                sources@.len() == k,
                attributes@.len() > 0,
                count == attributes@[0].1.count,
                forall|m: int|
                    0 <= m < k ==> find_semantic(attributes@, #[trigger] self.semantics@[m])
                        == Some(sources@[m] as int) && sources@[m] < attributes@.len()
                        && attributes@[sources@[m] as int].1.count == count,
                fit_error(self.semantics@.take(k as int), attributes@, count) is None,
            decreases n - k,
        {
            assert(self.semantics@.take(k + 1).drop_last() =~= self.semantics@.take(k as int));
            assert(self.semantics@.take(k + 1).last() == self.semantics@[k as int]);
            proof {
                lemma_find_semantic(attributes@, self.semantics@[k as int]);
            }
            let mut i: usize = 0;
            let mut found = false;
            while i < attributes.len() && !found
                invariant
                    k < self.semantics@.len(),
                    i <= attributes@.len(),
                    found ==> i > 0 && attributes@[i - 1].0@ == self.semantics@[k as int]@
                        && find_semantic(attributes@.take(i as int), self.semantics@[k as int])
                        == Some(i - 1),
                    !found ==> find_semantic(attributes@.take(i as int), self.semantics@[k as int])
                        is None,
                decreases attributes@.len() - i + if found {
                    0int
                } else {
                    1int
                },
            {
                assert(attributes@.take(i + 1).drop_last() =~= attributes@.take(i as int));
                if semantic_eq(&attributes[i].0, &self.semantics[k]) {
                    found = true;
                }
                i = i + 1;
            }
            if !found {
                proof {
                    assert(attributes@.take(attributes@.len() as int) =~= attributes@);
                    lemma_fit_error_prefix(self.semantics@, attributes@, count, k + 1);
                }
                return Err(AppendError::MissingAttribute);
            }
            proof {
                lemma_find_prefix(attributes@, i as int, i - 1, self.semantics@[k as int]);
            }
            if attributes[i - 1].1.count != count {
                proof {
                    lemma_fit_error_prefix(self.semantics@, attributes@, count, k + 1);
                }
                return Err(AppendError::InconsistentVertexCount);
            }
            sources.push(i - 1);
            k = k + 1;
        }
        assert(self.semantics@.take(n as int) =~= self.semantics@);
        let mut new_indices: Vec<u8> = Vec::new();
        let mut added_indices: u32 = 0;
        match indices {
            Some(idx) => {
                match append_indices(&mut new_indices, idx, self.vertex_count) {
                    Ok(()) => {},
                    Err(e) => {
                        return Err(AppendError::Indices(e));
                    },
                }
                if idx.count > u32::MAX - self.index_count {
                    return Err(AppendError::CountOverflow);
                }
                added_indices = idx.count;
            },
            None => {},
        }
        if count > u32::MAX - self.vertex_count {
            return Err(AppendError::CountOverflow);
        }
        assert forall|m: int| 0 <= m < n implies #[trigger] sources@[m] < attributes@.len() by {
            assert(find_semantic(attributes@, self.semantics@[m]) == Some(sources@[m] as int));
        }
        let ghost old_buffers = self.attribute_buffers@;
        let ghost old_semantics = self.semantics@;
        let ghost old_index = self.index_buffer@;
        let ghost old_vertex_count = self.vertex_count;
        let ghost old_index_count = self.index_count;
        let mut j: usize = 0;
        while j < n
            invariant
                self.semantics@ == old_semantics,
                self.index_buffer@ == old_index,
                self.vertex_count == old_vertex_count,
                self.index_count == old_index_count,
                n == self.semantics@.len(),
                n == old_buffers.len(),
                self.attribute_buffers@.len() == n,
                sources@.len() == n,
                j <= n,
                forall|m: int| 0 <= m < n ==> #[trigger] sources@[m] < attributes@.len(),
                forall|m: int|
                    0 <= m < j ==> (#[trigger] self.attribute_buffers@[m])@ == old_buffers[m]@
                        + attributes@[sources@[m] as int].1.data@,
                forall|m: int| j <= m < n ==> #[trigger] self.attribute_buffers@[m] == old_buffers[m],
            decreases n - j,
        {
            let mut b = self.attribute_buffers.remove(j);
            push_all(&mut b, attributes[sources[j]].1.data.as_slice());
            self.attribute_buffers.insert(j, b);
            j = j + 1;
        }
        push_all(&mut self.index_buffer, new_indices.as_slice());
        self.index_count = self.index_count + added_indices;
        self.vertex_count = self.vertex_count + count;
        proof {
            assert forall|k: int| 0 <= k < old_semantics.len() implies #[trigger] self@.buffers[k]
                == old_buffers.map_values(|b: Vec<u8>| b@)[k] + attributes@[find_semantic(
                attributes@,
                old_semantics[k],
            ).unwrap()].1.data@ by {
                assert(find_semantic(attributes@, old_semantics[k]) == Some(sources@[k] as int));
            }
        }
        Ok(())
    }

    /// The accumulated primitive: for each key, in the keys' order, an
    /// attribute over all collected vertices whose bytes are the buffer
    /// collected for the key's semantic, and, when the primitive is
    /// indexed, the 32-bit indices. Every key's semantic must have a
    /// buffer.
    pub fn to_primitive(&self, keys: &[AttributeKey], indexed: bool) -> (r: (
        Vec<(Semantic, Attribute)>,
        Option<Attribute>,
    ))
        requires
            self.semantics@.len() == self.attribute_buffers@.len(),
            forall|k: int|
                0 <= k < keys@.len() ==> semantic_index(self.semantics@, (#[trigger] keys@[k]).semantic)
                    is Some,
        ensures
            r.0@.len() == keys@.len(),
            forall|k: int|
                0 <= k < keys@.len() ==> {
                    &&& (#[trigger] r.0@[k]).0 == keys@[k].semantic
                    &&& r.0@[k].1.component_type == keys@[k].component_type
                    &&& r.0@[k].1.element_type == keys@[k].element_type
                    &&& r.0@[k].1.normalized == keys@[k].normalized
                    &&& r.0@[k].1.count == self.vertex_count
                    &&& r.0@[k].1.data@ == self.attribute_buffers@[semantic_index(
                        self.semantics@,
                        keys@[k].semantic,
                    ).unwrap()]@
                },
            indexed ==> (r.1 matches Some(a) && a.component_type == ComponentType::UnsignedInt
                && a.element_type == Type::Scalar && !a.normalized && a.count == self.index_count
                && a.data@ == self.index_buffer@),
            !indexed ==> r.1 is None,
    {
        let mut attrs: Vec<(Semantic, Attribute)> = Vec::new();
        let mut k: usize = 0;
        while k < keys.len()
            invariant
                self.semantics@.len() == self.attribute_buffers@.len(),
                forall|k: int|
                    0 <= k < keys@.len() ==> semantic_index(
                        self.semantics@,
                        (#[trigger] keys@[k]).semantic,
                    ) is Some,
                k <= keys@.len(),
                attrs@.len() == k,
                forall|m: int|
                    0 <= m < k ==> {
                        &&& (#[trigger] attrs@[m]).0 == keys@[m].semantic
                        &&& attrs@[m].1.component_type == keys@[m].component_type
                        &&& attrs@[m].1.element_type == keys@[m].element_type
                        &&& attrs@[m].1.normalized == keys@[m].normalized
                        &&& attrs@[m].1.count == self.vertex_count
                        &&& attrs@[m].1.data@ == self.attribute_buffers@[semantic_index(
                            self.semantics@,
                            keys@[m].semantic,
                        ).unwrap()]@
                    },
            decreases keys@.len() - k,
        {
            let key = &keys[k];
            let at = match position_of_semantic(&self.semantics, &key.semantic) {
                Some(j) => j,
                None => {
                    assert(semantic_index(self.semantics@, keys@[k as int].semantic) is Some);
                    return (attrs, None);
                },
            };
            proof {
                lemma_semantic_index_bounds(self.semantics@, keys@[k as int].semantic);
            }
            let data = vstd::slice::slice_to_vec(self.attribute_buffers[at].as_slice());
            attrs.push(
                (
                    key.semantic.duplicate(),
                    Attribute {
                        component_type: key.component_type,
                        count: self.vertex_count,
                        data,
                        normalized: key.normalized,
                        element_type: key.element_type.duplicate(),
                    },
                ),
            );
            k = k + 1;
        }
        let indices = if indexed {
            Some(
                Attribute {
                    component_type: ComponentType::UnsignedInt,
                    count: self.index_count,
                    data: vstd::slice::slice_to_vec(self.index_buffer.as_slice()),
                    normalized: false,
                    element_type: Type::Scalar,
                },
            )
        } else {
            None
        };
        (attrs, indices)
    }
}

/// The position of the first of `semantics` equal to `s`, if any.
pub open spec fn semantic_index(semantics: Seq<Semantic>, s: Semantic) -> Option<int>
    decreases semantics.len(),
{
    if semantics.len() == 0 {
        None
    } else {
        match semantic_index(semantics.drop_last(), s) {
            Some(k) => Some(k),
            None => if semantics.last()@ == s@ {
                Some(semantics.len() - 1)
            } else {
                None
            },
        }
    }
}

proof fn lemma_semantic_index_prefix(semantics: Seq<Semantic>, s: Semantic, i: int)
    requires
        0 <= i <= semantics.len(),
        semantic_index(semantics.take(i), s) is Some,
    ensures
        semantic_index(semantics, s) == semantic_index(semantics.take(i), s),
    decreases semantics.len() - i,
{
    if i < semantics.len() {
        assert(semantics.take(i + 1).drop_last() =~= semantics.take(i));
        lemma_semantic_index_prefix(semantics, s, i + 1);
    } else {
        assert(semantics.take(i) =~= semantics);
    }
}

/// A semantic that occurs has a first position, at or before any of its
/// occurrences.
pub proof fn lemma_semantic_index_found(semantics: Seq<Semantic>, s: Semantic, k: int)
    requires
        0 <= k < semantics.len(),
        semantics[k]@ == s@,
    ensures
        semantic_index(semantics, s) matches Some(j) && 0 <= j <= k && semantics[j]@ == s@,
    decreases semantics.len(),
{
    if k < semantics.len() - 1 {
        lemma_semantic_index_found(semantics.drop_last(), s, k);
    } else if let Some(j) = semantic_index(semantics.drop_last(), s) {
        lemma_semantic_index_bounds(semantics.drop_last(), s);
    }
}

proof fn lemma_semantic_index_bounds(semantics: Seq<Semantic>, s: Semantic)
    ensures
        semantic_index(semantics, s) matches Some(j) ==> 0 <= j < semantics.len() && semantics[j]@
            == s@,
    decreases semantics.len(),
{
    if semantics.len() > 0 {
        lemma_semantic_index_bounds(semantics.drop_last(), s);
    }
}

/// The position of the first of `semantics` equal to `s`.
fn position_of_semantic(semantics: &Vec<Semantic>, s: &Semantic) -> (r: Option<usize>)
    ensures
        match r {
            Some(i) => semantic_index(semantics@, *s) == Some(i as int),
            None => semantic_index(semantics@, *s) is None,
        },
{
    let mut i: usize = 0;
    while i < semantics.len()
        invariant
            i <= semantics@.len(),
            semantic_index(semantics@.take(i as int), *s) is None,
        decreases semantics@.len() - i,
    {
        assert(semantics@.take(i + 1).drop_last() =~= semantics@.take(i as int));
        if semantic_eq(&semantics[i], s) {
            proof {
                lemma_semantic_index_prefix(semantics@, *s, i + 1);
            }
            return Some(i);
        }
        i = i + 1;
    }
    assert(semantics@.take(i as int) =~= semantics@);
    None
}

/// A first match in a prefix stays the first match of the whole list.
proof fn lemma_find_prefix(attrs: Seq<(Semantic, Attribute)>, i: int, j: int, s: Semantic)
    requires
        0 <= i <= attrs.len(),
        find_semantic(attrs.take(i), s) == Some(j),
    ensures
        find_semantic(attrs, s) == Some(j),
    decreases attrs.len() - i,
{
    if i < attrs.len() {
        let next = attrs.take(i + 1);
        assert(next.drop_last() =~= attrs.take(i));
        assert(find_semantic(next, s) == Some(j));
        lemma_find_prefix(attrs, i + 1, j, s);
    } else {
        assert(attrs.take(i) =~= attrs);
    }
}

/// A document primitive with its accessors read into attributes.
#[derive(Debug)]
pub struct PrimitiveData {
    pub attributes: Vec<(Semantic, Attribute)>,
    pub indices: Option<Attribute>,
    pub material: Option<MaterialIndex>,
    pub mode: Mode,
}

/// A document mesh with its primitives read.
#[derive(Debug)]
pub struct MeshData {
    pub name: Option<String>,
    pub primitives: Vec<PrimitiveData>,
}

/// Why a document primitive cannot be read.
#[derive(Clone, Copy, Debug, PartialEq, Eq, Structural)]
pub enum PrimitiveError {
    /// An attribute's accessor cannot be read.
    Attribute(AttributeError),
    /// The indices' accessor cannot be read.
    Indices(AttributeError),
    /// The material index is not an index into the materials.
    InvalidMaterialIndex,
}

/// Whether `a` is what `extract_attribute` reads for accessor `idx`.
pub open spec fn is_attribute_of(
    accessors: Seq<Accessor>,
    views: Seq<BufferView>,
    buffers: Seq<Buffer>,
    idx: AccessorIndex,
    a: Attribute,
) -> bool {
    &&& spec_attribute_bytes(accessors, views, buffers, idx) == Ok::<Seq<u8>, AttributeError>(a.data@)
    &&& a.component_type == accessors[idx.0 as int].component_type
    &&& a.normalized == accessors[idx.0 as int].normalized
    &&& a.element_type == accessors[idx.0 as int].element_type
    &&& a.count == accessors[idx.0 as int].count
}

/// The error of the first attribute, in order, whose accessor cannot be
/// read.
pub open spec fn first_attribute_error(
    attrs: Seq<(Semantic, AccessorIndex)>,
    accessors: Seq<Accessor>,
    views: Seq<BufferView>,
    buffers: Seq<Buffer>,
) -> Option<AttributeError>
    decreases attrs.len(),
{
    if attrs.len() == 0 {
        None
    } else {
        match first_attribute_error(attrs.drop_last(), accessors, views, buffers) {
            Some(e) => Some(e),
            None => match spec_attribute_bytes(accessors, views, buffers, attrs.last().1) {
                Err(e) => Some(e),
                Ok(_) => None,
            },
        }
    }
}

/// An error met in a prefix of the attributes is the error of the whole.
proof fn lemma_first_attribute_error_prefix(
    attrs: Seq<(Semantic, AccessorIndex)>,
    accessors: Seq<Accessor>,
    views: Seq<BufferView>,
    buffers: Seq<Buffer>,
    i: int,
)
    requires
        0 <= i <= attrs.len(),
        first_attribute_error(attrs.take(i), accessors, views, buffers) is Some,
    ensures
        first_attribute_error(attrs, accessors, views, buffers) == first_attribute_error(
            attrs.take(i),
            accessors,
            views,
            buffers,
        ),
    decreases attrs.len() - i,
{
    if i < attrs.len() {
        assert(attrs.take(i + 1).drop_last() =~= attrs.take(i));
        lemma_first_attribute_error_prefix(attrs, accessors, views, buffers, i + 1);
    } else {
        assert(attrs.take(i) =~= attrs);
    }
}

/// Why a primitive cannot be read: the first unreadable attribute, then
/// unreadable indices, then a material index out of range.
pub open spec fn primitive_error(
    raw: Primitive,
    accessors: Seq<Accessor>,
    views: Seq<BufferView>,
    buffers: Seq<Buffer>,
    material_count: usize,
) -> Option<PrimitiveError> {
    let material_error = match raw.material {
        Some(m) => if m.0 >= material_count {
            Some(PrimitiveError::InvalidMaterialIndex)
        } else {
            None
        },
        None => None,
    };
    match first_attribute_error(raw.attributes@, accessors, views, buffers) {
        Some(e) => Some(PrimitiveError::Attribute(e)),
        None => match raw.indices {
            Some(i) => match spec_attribute_bytes(accessors, views, buffers, i) {
                Err(e) => Some(PrimitiveError::Indices(e)),
                Ok(_) => material_error,
            },
            None => material_error,
        },
    }
}

/// Whether `p` is what `build_primitive` reads for `raw`.
pub open spec fn is_primitive_data_of(
    raw: Primitive,
    accessors: Seq<Accessor>,
    views: Seq<BufferView>,
    buffers: Seq<Buffer>,
    p: PrimitiveData,
) -> bool {
    &&& p.attributes@.len() == raw.attributes@.len()
    &&& forall|k: int|
        0 <= k < raw.attributes@.len() ==> (#[trigger] p.attributes@[k]).0 == raw.attributes@[k].0
            && is_attribute_of(accessors, views, buffers, raw.attributes@[k].1, p.attributes@[k].1)
    &&& match (raw.indices, p.indices) {
        (None, None) => true,
        (Some(i), Some(a)) => is_attribute_of(accessors, views, buffers, i, a),
        _ => false,
    }
    &&& p.material == raw.material
    &&& p.mode == raw.spec_mode()
}

/// Reads a document primitive: each attribute's accessor, in order, then
/// the indices' accessor, and checks its material index against
/// `material_count`; its mode is made explicit.
pub fn build_primitive(
    raw: &Primitive,
    accessors: &[Accessor],
    views: &[BufferView],
    buffers: &[Buffer],
    material_count: usize,
) -> (r: Result<PrimitiveData, PrimitiveError>)
    ensures
        r is Err <==> primitive_error(*raw, accessors@, views@, buffers@, material_count) is Some,
        r matches Err(e) ==> primitive_error(*raw, accessors@, views@, buffers@, material_count)
            == Some(e),
        r matches Ok(p) ==> is_primitive_data_of(*raw, accessors@, views@, buffers@, p),
{
    let n = raw.attributes.len();
    let mut attributes: Vec<(Semantic, Attribute)> = Vec::new();
    let mut k: usize = 0;
    while k < n
        invariant
            n == raw.attributes@.len(),
            k <= n,
            attributes@.len() == k,
            first_attribute_error(raw.attributes@.take(k as int), accessors@, views@, buffers@)
                is None,
            forall|m: int|
                0 <= m < k ==> (#[trigger] attributes@[m]).0 == raw.attributes@[m].0
                    && is_attribute_of(
                    accessors@,
                    views@,
                    buffers@,
                    raw.attributes@[m].1,
                    attributes@[m].1,
                ),
        decreases n - k,
    {
        assert(raw.attributes@.take(k + 1).drop_last() =~= raw.attributes@.take(k as int));
        assert(raw.attributes@.take(k + 1).last() == raw.attributes@[k as int]);
        match extract_attribute(accessors, views, buffers, raw.attributes[k].1) {
            Ok(a) => {
                attributes.push((raw.attributes[k].0.duplicate(), a));
            },
            Err(e) => {
                proof {
                    lemma_first_attribute_error_prefix(
                        raw.attributes@,
                        accessors@,
                        views@,
                        buffers@,
                        k + 1,
                    );
                }
                return Err(PrimitiveError::Attribute(e));
            },
        }
        k = k + 1;
    }
    assert(raw.attributes@.take(n as int) =~= raw.attributes@);
    let indices = match raw.indices {
        Some(i) => match extract_attribute(accessors, views, buffers, i) {
            Ok(a) => Some(a),
            Err(e) => {
                return Err(PrimitiveError::Indices(e));
            },
        },
        None => None,
    };
    match raw.material {
        Some(m) => {
            if m.0 as usize >= material_count {
                return Err(PrimitiveError::InvalidMaterialIndex);
            }
        },
        None => {},
    }
    Ok(PrimitiveData { attributes, indices, material: raw.material, mode: raw.mode() })
}

/// The error of the first primitive, in order, that cannot be read.
pub open spec fn first_primitive_error(
    prims: Seq<Primitive>,
    accessors: Seq<Accessor>,
    views: Seq<BufferView>,
    buffers: Seq<Buffer>,
    material_count: usize,
) -> Option<PrimitiveError>
    decreases prims.len(),
{
    if prims.len() == 0 {
        None
    } else {
        match first_primitive_error(prims.drop_last(), accessors, views, buffers, material_count) {
            Some(e) => Some(e),
            None => primitive_error(prims.last(), accessors, views, buffers, material_count),
        }
    }
}

/// An error met in a prefix of the primitives is the error of the whole.
proof fn lemma_first_primitive_error_prefix(
    prims: Seq<Primitive>,
    accessors: Seq<Accessor>,
    views: Seq<BufferView>,
    buffers: Seq<Buffer>,
    material_count: usize,
    i: int,
)
    requires
        0 <= i <= prims.len(),
        first_primitive_error(prims.take(i), accessors, views, buffers, material_count) is Some,
    ensures
        first_primitive_error(prims, accessors, views, buffers, material_count)
            == first_primitive_error(prims.take(i), accessors, views, buffers, material_count),
    decreases prims.len() - i,
{
    if i < prims.len() {
        assert(prims.take(i + 1).drop_last() =~= prims.take(i));
        lemma_first_primitive_error_prefix(prims, accessors, views, buffers, material_count, i + 1);
    } else {
        assert(prims.take(i) =~= prims);
    }
}

/// Reads a document mesh: each of its primitives, in order, as
/// `build_primitive` does; the first that cannot be read fails the mesh.
pub fn build_mesh(
    raw: &Mesh,
    accessors: &[Accessor],
    views: &[BufferView],
    buffers: &[Buffer],
    material_count: usize,
) -> (r: Result<MeshData, PrimitiveError>)
    ensures
        r is Err <==> first_primitive_error(
            raw.primitives@,
            accessors@,
            views@,
            buffers@,
            material_count,
        ) is Some,
        r matches Err(e) ==> first_primitive_error(
            raw.primitives@,
            accessors@,
            views@,
            buffers@,
            material_count,
        ) == Some(e),
        r matches Ok(m) ==> {
            &&& m.name == raw.name
            &&& m.primitives@.len() == raw.primitives@.len()
            &&& forall|k: int|
                0 <= k < raw.primitives@.len() ==> is_primitive_data_of(
                    raw.primitives@[k],
                    accessors@,
                    views@,
                    buffers@,
                    #[trigger] m.primitives@[k],
                )
        },
{
    let n = raw.primitives.len();
    let mut primitives: Vec<PrimitiveData> = Vec::new();
    let mut k: usize = 0;
    while k < n
        invariant
            n == raw.primitives@.len(),
            k <= n,
            primitives@.len() == k,
            first_primitive_error(
                raw.primitives@.take(k as int),
                accessors@,
                views@,
                buffers@,
                material_count,
            ) is None,
            forall|m: int|
                0 <= m < k ==> is_primitive_data_of(
                    raw.primitives@[m],
                    accessors@,
                    views@,
                    buffers@,
                    #[trigger] primitives@[m],
                ),
        decreases n - k,
    {
        assert(raw.primitives@.take(k + 1).drop_last() =~= raw.primitives@.take(k as int));
        assert(raw.primitives@.take(k + 1).last() == raw.primitives@[k as int]);
        match build_primitive(&raw.primitives[k], accessors, views, buffers, material_count) {
            Ok(p) => {
                primitives.push(p);
            },
            Err(e) => {
                proof {
                    lemma_first_primitive_error_prefix(
                        raw.primitives@,
                        accessors@,
                        views@,
                        buffers@,
                        material_count,
                        k + 1,
                    );
                }
                return Err(e);
            },
        }
        k = k + 1;
    }
    assert(raw.primitives@.take(n as int) =~= raw.primitives@);
    Ok(MeshData { name: copy_opt_string(&raw.name), primitives })
}

} // verus!
