//! Writing the scene model back into document records: each attribute
//! becomes tightly packed bytes in the one binary buffer, a buffer view of
//! them and an accessor of that view; each primitive becomes a record of
//! accessor indices.
use vstd::prelude::*;
use crate::attribute::{
    lemma_packed_attribute_reads_back, packed_view, spec_aligned, spec_attribute_bytes, zeros,
    Accessor, Attribute, AttributeError, Buffer, BufferPacker,
};
use crate::gltf_constants::{Mode, Target, WrapMode};
use crate::gltf_types::{
    AccessorIndex, BufferView, BufferViewIndex, ImageIndex, MaterialIndex, Mesh, MeshIndex,
    Primitive, SamplerIndex, Texture, TextureIndex,
};
use crate::scene::{
    copy_opt_string, first_attribute_error, is_primitive_data_of, primitive_error, semantic_eq,
    spec_image_source, Image, ImageError, ImageSource, PrimitiveData, Sampler,
};
use crate::semantic::Semantic;

verus! {

/// What a writer has written: the buffer's bytes, the buffer views, the
/// accessors, and the images, samplers and textures with the key each was
/// written for.
pub struct WriterState {
    pub buffer: Seq<u8>,
    pub views: Seq<BufferView>,
    pub accessors: Seq<Accessor>,
    pub images: Seq<crate::gltf_types::Image>,
    pub image_keys: Seq<u64>,
    pub samplers: Seq<crate::gltf_types::Sampler>,
    pub sampler_keys: Seq<u64>,
    pub textures: Seq<Texture>,
    pub texture_keys: Seq<u64>,
    pub meshes: Seq<Mesh>,
}

impl WriterState {
    /// Each written image, sampler and texture has its key, and no key
    /// occurs twice.
    pub open spec fn wf(&self) -> bool {
        &&& self.image_keys.len() == self.images.len()
        &&& self.sampler_keys.len() == self.samplers.len()
        &&& self.texture_keys.len() == self.textures.len()
        &&& self.image_keys.no_duplicates()
        &&& self.sampler_keys.no_duplicates()
        &&& self.texture_keys.no_duplicates()
    }
}

/// The accessor written for an attribute whose bytes are buffer view
/// `view`: the attribute's layout, with no offset of its own.
pub open spec fn packed_accessor(view: BufferViewIndex, a: Attribute) -> Accessor {
    Accessor {
        buffer_view: Some(view),
        byte_offset: None,
        component_type: a.component_type,
        normalized: a.normalized,
        count: a.count,
        element_type: a.element_type,
        name: None,
    }
}

/// Writing one attribute: its bytes at the next offset that is a multiple
/// of its component size (the gap zero filled), a view of them with
/// `target`, and an accessor of that view.
pub open spec fn write_step(s: WriterState, a: Attribute, target: Target) -> WriterState {
    let start = spec_aligned(s.buffer.len() as int, a.component_type.spec_byte_size().unwrap() as int);
    WriterState {
        buffer: s.buffer + zeros(start - s.buffer.len()) + a.data@,
        views: s.views.push(packed_view(start, a.data@.len() as int, Some(target))),
        accessors: s.accessors.push(packed_accessor(BufferViewIndex(s.views.len() as u32), a)),
        ..s
    }
}

/// The record written for an image, whose bytes (if it holds them) go
/// right after the buffer's in a view of their own.
pub open spec fn image_record(s: WriterState, img: Image) -> crate::gltf_types::Image {
    match img.source {
        ImageSource::Data(_, mime) => crate::gltf_types::Image {
            uri: None,
            mime_type: Some(mime),
            buffer_view: Some(BufferViewIndex(s.views.len() as u32)),
            name: img.name,
        },
        ImageSource::Uri(u, mime) => crate::gltf_types::Image {
            uri: Some(u),
            mime_type: mime,
            buffer_view: None,
            name: img.name,
        },
    }
}

/// Writing an image under `key`.
pub open spec fn write_image(s: WriterState, key: u64, img: Image) -> WriterState {
    let record = image_record(s, img);
    match img.source {
        ImageSource::Data(bytes, _) => WriterState {
            buffer: s.buffer + bytes@,
            views: s.views.push(packed_view(s.buffer.len() as int, bytes@.len() as int, None)),
            images: s.images.push(record),
            image_keys: s.image_keys.push(key),
            ..s
        },
        ImageSource::Uri(_, _) => WriterState {
            images: s.images.push(record),
            image_keys: s.image_keys.push(key),
            ..s
        },
    }
}

/// The record written for a sampler: its filters, name, and both wrapping
/// modes made explicit.
pub open spec fn sampler_record(smp: Sampler) -> crate::gltf_types::Sampler {
    crate::gltf_types::Sampler {
        mag_filter: smp.mag_filter,
        min_filter: smp.min_filter,
        wrap_s: Some(smp.wrap_s),
        wrap_t: Some(smp.wrap_t),
        name: smp.name,
    }
}

/// Writing attributes in turn.
pub open spec fn write_all(
    s: WriterState,
    attrs: Seq<(Semantic, Attribute)>,
    target: Target,
) -> WriterState
    decreases attrs.len(),
{
    if attrs.len() == 0 {
        s
    } else {
        write_step(write_all(s, attrs.drop_last(), target), attrs.last().1, target)
    }
}

/// The most bytes that writing the attributes adds to the buffer: each
/// one's data and up to 3 bytes of alignment.
pub open spec fn room(attrs: Seq<(Semantic, Attribute)>) -> int
    decreases attrs.len(),
{
    if attrs.len() == 0 {
        0
    } else {
        room(attrs.drop_last()) + 3 + attrs.last().1.data@.len()
    }
}

/// Whether a `POSITION` attribute holds no vertex.
pub open spec fn has_empty_positions(attrs: Seq<(Semantic, Attribute)>) -> bool {
    exists|k: int| 0 <= k < attrs.len() && (#[trigger] attrs[k]).0 is Position && attrs[k].1.data@.len() == 0
}

/// The attribute an optional reference points at.
pub open spec fn opt_attribute(a: Option<&Attribute>) -> Option<Attribute> {
    match a {
        Some(x) => Some(*x),
        None => None,
    }
}

/// Writing a primitive's attributes (array buffer views) and then its
/// indices (an element array buffer view).
pub open spec fn write_primitive(
    s: WriterState,
    attrs: Seq<(Semantic, Attribute)>,
    indices: Option<Attribute>,
) -> WriterState {
    let written = write_all(s, attrs, Target::ArrayBuffer);
    match indices {
        None => written,
        Some(i) => write_step(written, i, Target::ElementArrayBuffer),
    }
}

/// Whether `rec` is the record written for a primitive when the writer
/// held `s`: the accessors written for its attributes, in order, then the
/// one for its indices, and its material and mode.
pub open spec fn is_primitive_record(
    s: WriterState,
    attrs: Seq<(Semantic, Attribute)>,
    indexed: bool,
    material: Option<MaterialIndex>,
    mode: Mode,
    rec: Primitive,
) -> bool {
    &&& rec.attributes@.len() == attrs.len()
    &&& forall|k: int|
        0 <= k < attrs.len() ==> #[trigger] rec.attributes@[k] == (
            attrs[k].0,
            AccessorIndex((s.accessors.len() + k) as u32),
        )
    &&& rec.indices == if indexed {
        Some(AccessorIndex((s.accessors.len() + attrs.len()) as u32))
    } else {
        None
    }
    &&& rec.material == material
    &&& rec.mode == Some(mode)
}

/// Whether a primitive can be written: every component size is known and
/// positions come in whole `VEC3` floats.
pub open spec fn writable(attrs: Seq<(Semantic, Attribute)>, indices: Option<Attribute>) -> bool {
    &&& forall|k: int|
        0 <= k < attrs.len() ==> (#[trigger] attrs[k]).1.component_type.spec_byte_size() is Some
    &&& forall|k: int|
        0 <= k < attrs.len() && (#[trigger] attrs[k]).0 is Position ==> attrs[k].1.data@.len() % 12
            == 0
    &&& indices matches Some(i) ==> i.component_type.spec_byte_size() is Some
}

/// The most bytes that writing a primitive adds to the buffer.
pub open spec fn primitive_room(attrs: Seq<(Semantic, Attribute)>, indices: Option<Attribute>) -> int {
    room(attrs) + match indices {
        Some(i) => 3 + i.data@.len(),
        None => 0,
    }
}

/// The number of accessors (and views) written for a primitive.
pub open spec fn primitive_records(attrs: Seq<(Semantic, Attribute)>, indices: Option<Attribute>) -> int {
    attrs.len() + if indices is Some {
        1int
    } else {
        0
    }
}

/// Writing primitives in turn.
pub open spec fn write_primitives(s: WriterState, prims: Seq<PrimitiveData>) -> WriterState
    decreases prims.len(),
{
    if prims.len() == 0 {
        s
    } else {
        write_primitive(
            write_primitives(s, prims.drop_last()),
            prims.last().attributes@,
            prims.last().indices,
        )
    }
}

/// The most bytes that writing primitives adds to the buffer.
pub open spec fn primitives_room(prims: Seq<PrimitiveData>) -> int
    decreases prims.len(),
{
    if prims.len() == 0 {
        0
    } else {
        primitives_room(prims.drop_last()) + primitive_room(
            prims.last().attributes@,
            prims.last().indices,
        )
    }
}

/// The number of accessors written for primitives.
pub open spec fn primitives_records(prims: Seq<PrimitiveData>) -> int
    decreases prims.len(),
{
    if prims.len() == 0 {
        0
    } else {
        primitives_records(prims.drop_last()) + primitive_records(
            prims.last().attributes@,
            prims.last().indices,
        )
    }
}

/// Why a primitive cannot be written.
#[derive(Clone, Copy, Debug, PartialEq, Eq, Structural)]
pub enum WriteError {
    /// The `POSITION` attribute has no vertex (its bounds would be empty).
    EmptyPositions,
    /// A mesh must have at least one primitive.
    NoPrimitives,
}

/// Accumulates the binary buffer, buffer views and accessors of a document
/// being written.
pub struct DocumentWriter {
    pub packer: BufferPacker,
    pub accessors: Vec<Accessor>,
    pub images: Vec<crate::gltf_types::Image>,
    pub image_keys: Vec<u64>,
    pub samplers: Vec<crate::gltf_types::Sampler>,
    pub sampler_keys: Vec<u64>,
    pub textures: Vec<Texture>,
    pub texture_keys: Vec<u64>,
    pub meshes: Vec<Mesh>,
}

impl View for DocumentWriter {
    type V = WriterState;

    open spec fn view(&self) -> WriterState {
        WriterState {
            buffer: self.packer.buffer@,
            views: self.packer.views@,
            accessors: self.accessors@,
            images: self.images@,
            image_keys: self.image_keys@,
            samplers: self.samplers@,
            sampler_keys: self.sampler_keys@,
            textures: self.textures@,
            texture_keys: self.texture_keys@,
            meshes: self.meshes@,
        }
    }
}

/// The position of `key` among `keys`, if it is there.
fn find_key(keys: &Vec<u64>, key: u64) -> (r: Option<usize>)
    ensures
        match r {
            Some(i) => i < keys@.len() && keys@[i as int] == key,
            None => !keys@.contains(key),
        },
{
    let mut i: usize = 0;
    while i < keys.len()
        invariant
            i <= keys@.len(),
            forall|m: int| 0 <= m < i ==> keys@[m] != key,
        decreases keys@.len() - i,
    {
        if keys[i] == key {
            return Some(i);
        }
        i = i + 1;
    }
    None
}

/// Writing attributes adds one view and one accessor each, and at most
/// `room` bytes.
proof fn lemma_write_all_sizes(s: WriterState, attrs: Seq<(Semantic, Attribute)>, target: Target)
    requires
        forall|k: int| 0 <= k < attrs.len() ==> (#[trigger] attrs[k]).1.component_type.spec_byte_size() is Some,
    ensures
        write_all(s, attrs, target).views.len() == s.views.len() + attrs.len(),
        write_all(s, attrs, target).accessors.len() == s.accessors.len() + attrs.len(),
        s.buffer.len() <= write_all(s, attrs, target).buffer.len() <= s.buffer.len() + room(attrs),
        room(attrs) >= 0,
    decreases attrs.len(),
{
    if attrs.len() > 0 {
        let d = attrs.drop_last();
        assert forall|k: int| 0 <= k < d.len() implies (#[trigger] d[k]).1.component_type.spec_byte_size() is Some by {
            assert(d[k] == attrs[k]);
        }
        lemma_write_all_sizes(s, d, target);
        let before = write_all(s, d, target);
        let a = attrs.last().1;
        assert(a == attrs[attrs.len() - 1].1);
        let bs = a.component_type.spec_byte_size().unwrap() as int;
        assert(1 <= bs <= 4);
        crate::attribute::lemma_aligned(before.buffer.len() as int, bs);
    }
}

impl DocumentWriter {
    /// A writer that has written nothing.
    pub fn new() -> (r: DocumentWriter)
        ensures
            r@.wf(),
            r@.buffer == Seq::<u8>::empty(),
            r@.views == Seq::<BufferView>::empty(),
            r@.accessors == Seq::<Accessor>::empty(),
            r@.images.len() == 0,
            r@.samplers.len() == 0,
            r@.textures.len() == 0,
            r@.meshes.len() == 0,
    {
        let r = DocumentWriter {
            packer: BufferPacker::new(),
            accessors: Vec::new(),
            images: Vec::new(),
            image_keys: Vec::new(),
            samplers: Vec::new(),
            sampler_keys: Vec::new(),
            textures: Vec::new(),
            texture_keys: Vec::new(),
            meshes: Vec::new(),
        };
        proof {
            assert(r@.image_keys =~= Seq::<u64>::empty());
            assert(r@.sampler_keys =~= Seq::<u64>::empty());
            assert(r@.texture_keys =~= Seq::<u64>::empty());
        }
        r
    }

    /// Writes a mesh: each of its primitives in order, as `primitive`
    /// does, then the mesh record naming them; returns the mesh's index. A
    /// primitive with an empty `POSITION` attribute, or a mesh without
    /// primitives, is refused and nothing is written.
    pub fn mesh(&mut self, primitives: &[PrimitiveData], name: &Option<String>) -> (r: Result<
        MeshIndex,
        WriteError,
    >)
        requires
            forall|k: int|
                0 <= k < primitives@.len() ==> writable(
                    (#[trigger] primitives@[k]).attributes@,
                    primitives@[k].indices,
                ),
            old(self)@.meshes.len() < u32::MAX,
            old(self)@.views.len() + primitives_records(primitives@) + 1 < u32::MAX,
            old(self)@.accessors.len() + primitives_records(primitives@) + 1 < u32::MAX,
            old(self)@.buffer.len() + primitives_room(primitives@) <= u32::MAX,
        ensures
            (exists|k: int|
                0 <= k < primitives@.len() && has_empty_positions(
                    (#[trigger] primitives@[k]).attributes@,
                )) ==> r == Err::<MeshIndex, WriteError>(WriteError::EmptyPositions)
                && final(self)@ == old(self)@,
            primitives@.len() == 0 ==> r == Err::<MeshIndex, WriteError>(WriteError::NoPrimitives)
                && final(self)@ == old(self)@,
            primitives@.len() > 0 && (forall|k: int|
                0 <= k < primitives@.len() ==> !has_empty_positions(
                    (#[trigger] primitives@[k]).attributes@,
                )) ==> {
                let written = write_primitives(old(self)@, primitives@);
                let m = final(self)@.meshes.last();
                &&& r == Ok::<MeshIndex, WriteError>(MeshIndex(old(self)@.meshes.len() as u32))
                &&& final(self)@ == WriterState { meshes: written.meshes.push(m), ..written }
                &&& m.name == *name
                &&& m.primitives@.len() == primitives@.len()
                &&& forall|k: int|
                    0 <= k < primitives@.len() ==> is_primitive_record(
                        write_primitives(old(self)@, primitives@.take(k)),
                        primitives@[k].attributes@,
                        primitives@[k].indices is Some,
                        primitives@[k].material,
                        primitives@[k].mode,
                        #[trigger] m.primitives@[k],
                    )
            },
    {
        let n = primitives.len();
        let mut k: usize = 0;
        while k < n
            invariant
                n == primitives@.len(),
                k <= n,
                forall|j: int| 0 <= j < k ==> !has_empty_positions((#[trigger] primitives@[j]).attributes@),
            decreases n - k,
        {
            let attrs = primitives[k].attributes.as_slice();
            let mut a: usize = 0;
            while a < attrs.len()
                invariant
                    n == primitives@.len(),
                    k < n,
                    attrs@ == primitives@[k as int].attributes@,
                    a <= attrs@.len(),
                    forall|m: int|
                        0 <= m < a ==> !((#[trigger] attrs@[m]).0 is Position && attrs@[m].1.data@.len()
                            == 0),
                decreases attrs@.len() - a,
            {
                if semantic_eq(&attrs[a].0, &Semantic::Position) && attrs[a].1.data.len() == 0 {
                    assert(has_empty_positions(primitives@[k as int].attributes@)) by {
                        assert(attrs@[a as int] == primitives@[k as int].attributes@[a as int]);
                    }
                    return Err(WriteError::EmptyPositions);
                }
                a = a + 1;
            }
            k = k + 1;
        }
        if n == 0 {
            return Err(WriteError::NoPrimitives);
        }
        let ghost start = self@;
        proof {
            lemma_write_primitives_sizes(start, primitives@);
        }
        let mut records: Vec<Primitive> = Vec::new();
        let mut k: usize = 0;
        while k < n
            invariant
                n == primitives@.len(),
                k <= n,
                forall|j: int|
                    0 <= j < n ==> writable((#[trigger] primitives@[j]).attributes@, primitives@[j].indices),
                forall|j: int| 0 <= j < n ==> !has_empty_positions((#[trigger] primitives@[j]).attributes@),
                start.views.len() + primitives_records(primitives@) + 1 < u32::MAX,
                start.accessors.len() + primitives_records(primitives@) + 1 < u32::MAX,
                start.buffer.len() + primitives_room(primitives@) <= u32::MAX,
                self@ == write_primitives(start, primitives@.take(k as int)),
                records@.len() == k,
                forall|j: int|
                    0 <= j < k ==> is_primitive_record(
                        write_primitives(start, primitives@.take(j)),
                        primitives@[j].attributes@,
                        primitives@[j].indices is Some,
                        primitives@[j].material,
                        primitives@[j].mode,
                        #[trigger] records@[j],
                    ),
            decreases n - k,
        {
            let ghost prefix = primitives@.take(k as int);
            assert(primitives@.take(k + 1).drop_last() =~= prefix);
            assert(primitives@.take(k + 1).last() == primitives@[k as int]);
            proof {
                assert forall|j: int| 0 <= j < prefix.len() implies writable(
                    (#[trigger] prefix[j]).attributes@,
                    prefix[j].indices,
                ) by {
                    assert(prefix[j] == primitives@[j]);
                }
                lemma_write_primitives_sizes(start, prefix);
                lemma_primitives_prefix(primitives@, k + 1);
                lemma_write_primitive_sizes(
                    self@,
                    primitives@[k as int].attributes@,
                    primitives@[k as int].indices,
                );
            }
            let p = &primitives[k];
            let indices = match &p.indices {
                Some(i) => Some(i),
                None => None,
            };
            assert(opt_attribute(indices) == p.indices);
            match self.primitive(p.attributes.as_slice(), indices, p.material, p.mode) {
                Ok(rec) => {
                    records.push(rec);
                },
                Err(e) => {
                    proof {
                        assert(false);
                    }
                    return Err(e);
                },
            }
            k = k + 1;
        }
        assert(primitives@.take(n as int) =~= primitives@);
        let index = MeshIndex(self.meshes.len() as u32);
        let ghost written = self@;
        self.meshes.push(Mesh { primitives: records, name: copy_opt_string(name) });
        proof {
            assert(self@.meshes =~= written.meshes.push(self@.meshes.last()));
        }
        Ok(index)
    }

    /// Writes the image known by `key`, once: an image already written
    /// under `key` gives its index again. Bytes held by the image go into
    /// the buffer with a view of their own.
    pub fn image(&mut self, key: u64, image: &Image) -> (r: ImageIndex)
        requires
            old(self)@.wf(),
            old(self)@.views.len() < u32::MAX,
            old(self)@.images.len() < u32::MAX,
            image.source matches ImageSource::Data(b, _) ==> old(self)@.buffer.len() + b@.len() <= u32::MAX,
        ensures
            final(self)@.wf(),
            old(self)@.image_keys.contains(key) ==> final(self)@ == old(self)@ && r.0
                < old(self)@.images.len() && old(self)@.image_keys[r.0 as int] == key,
            !old(self)@.image_keys.contains(key) ==> final(self)@ == write_image(
                old(self)@,
                key,
                *image,
            ) && r == ImageIndex(old(self)@.images.len() as u32),
    {
        match find_key(&self.image_keys, key) {
            Some(i) => {
                return ImageIndex(i as u32);
            },
            None => {},
        }
        let ghost before = self@;
        let index = ImageIndex(self.images.len() as u32);
        let record = match &image.source {
            ImageSource::Data(bytes, mime) => {
                let view = self.packer.push_image(bytes.as_slice());
                crate::gltf_types::Image {
                    uri: None,
                    mime_type: Some(mime.duplicate()),
                    buffer_view: Some(view),
                    name: copy_opt_string(&image.name),
                }
            },
            ImageSource::Uri(u, mime) => crate::gltf_types::Image {
                uri: Some(u.clone()),
                mime_type: match mime {
                    Some(m) => Some(m.duplicate()),
                    None => None,
                },
                buffer_view: None,
                name: copy_opt_string(&image.name),
            },
        };
        self.images.push(record);
        self.image_keys.push(key);
        proof {
            let expected = write_image(before, key, *image);
            assert(self@.buffer =~= expected.buffer);
            assert(self@.views =~= expected.views);
            assert(self@.images =~= expected.images);
            assert(self@.image_keys =~= expected.image_keys);
            assert(self@.image_keys.no_duplicates()) by {
                assert forall|a: int, b: int|
                    0 <= a < self@.image_keys.len() && 0 <= b < self@.image_keys.len() && a != b
                        implies self@.image_keys[a] != self@.image_keys[b] by {
                    if a < before.image_keys.len() && b < before.image_keys.len() {
                    } else if a < before.image_keys.len() {
                        assert(before.image_keys.contains(before.image_keys[a]));
                    } else {
                        assert(before.image_keys.contains(before.image_keys[b]));
                    }
                }
            }
        }
        index
    }

    /// Writes the sampler known by `key`, once, with both wrapping modes
    /// made explicit; a sampler already written under `key` gives its index
    /// again.
    pub fn sampler(&mut self, key: u64, sampler: &Sampler) -> (r: SamplerIndex)
        requires
            old(self)@.wf(),
            old(self)@.samplers.len() < u32::MAX,
        ensures
            final(self)@.wf(),
            old(self)@.sampler_keys.contains(key) ==> final(self)@ == old(self)@ && r.0
                < old(self)@.samplers.len() && old(self)@.sampler_keys[r.0 as int] == key,
            !old(self)@.sampler_keys.contains(key) ==> final(self)@ == (WriterState {
                samplers: old(self)@.samplers.push(sampler_record(*sampler)),
                sampler_keys: old(self)@.sampler_keys.push(key),
                ..old(self)@
            }) && r == SamplerIndex(old(self)@.samplers.len() as u32),
            !old(self)@.sampler_keys.contains(key) ==> {
                let rec = final(self)@.samplers[r.0 as int];
                &&& rec.wrap_s == Some(sampler.wrap_s)
                &&& rec.wrap_t == Some(sampler.wrap_t)
                &&& rec.mag_filter == sampler.mag_filter
                &&& rec.min_filter == sampler.min_filter
                &&& rec.name == sampler.name
            },
    {
        match find_key(&self.sampler_keys, key) {
            Some(i) => {
                return SamplerIndex(i as u32);
            },
            None => {},
        }
        let ghost before = self@;
        let index = SamplerIndex(self.samplers.len() as u32);
        self.samplers.push(
            crate::gltf_types::Sampler {
                mag_filter: sampler.mag_filter,
                min_filter: sampler.min_filter,
                wrap_s: Some(sampler.wrap_s),
                wrap_t: Some(sampler.wrap_t),
                name: copy_opt_string(&sampler.name),
            },
        );
        self.sampler_keys.push(key);
        proof {
            assert(self@.samplers =~= before.samplers.push(sampler_record(*sampler)));
            assert(self@.sampler_keys =~= before.sampler_keys.push(key));
            assert(self@.sampler_keys.no_duplicates()) by {
                assert forall|a: int, b: int|
                    0 <= a < self@.sampler_keys.len() && 0 <= b < self@.sampler_keys.len() && a != b
                        implies self@.sampler_keys[a] != self@.sampler_keys[b] by {
                    if a < before.sampler_keys.len() && b < before.sampler_keys.len() {
                    } else if a < before.sampler_keys.len() {
                        assert(before.sampler_keys.contains(before.sampler_keys[a]));
                    } else {
                        assert(before.sampler_keys.contains(before.sampler_keys[b]));
                    }
                }
            }
        }
        index
    }

    /// Writes the texture known by `key`, once, naming its sampler and
    /// image as written; a texture already written under `key` gives its
    /// index again.
    pub fn texture(
        &mut self,
        key: u64,
        sampler: SamplerIndex,
        source: Option<ImageIndex>,
        name: &Option<String>,
    ) -> (r: TextureIndex)
        requires
            old(self)@.wf(),
            old(self)@.textures.len() < u32::MAX,
        ensures
            final(self)@.wf(),
            old(self)@.texture_keys.contains(key) ==> final(self)@ == old(self)@ && r.0
                < old(self)@.textures.len() && old(self)@.texture_keys[r.0 as int] == key,
            !old(self)@.texture_keys.contains(key) ==> final(self)@ == (WriterState {
                textures: old(self)@.textures.push(
                    Texture { sampler: Some(sampler), source, name: *name },
                ),
                texture_keys: old(self)@.texture_keys.push(key),
                ..old(self)@
            }) && r == TextureIndex(old(self)@.textures.len() as u32),
    {
        match find_key(&self.texture_keys, key) {
            Some(i) => {
                return TextureIndex(i as u32);
            },
            None => {},
        }
        let ghost before = self@;
        let index = TextureIndex(self.textures.len() as u32);
        self.textures.push(Texture { sampler: Some(sampler), source, name: copy_opt_string(name) });
        self.texture_keys.push(key);
        proof {
            assert(self@.textures =~= before.textures.push(
                Texture { sampler: Some(sampler), source, name: *name },
            ));
            assert(self@.texture_keys =~= before.texture_keys.push(key));
            assert(self@.texture_keys.no_duplicates()) by {
                assert forall|a: int, b: int|
                    0 <= a < self@.texture_keys.len() && 0 <= b < self@.texture_keys.len() && a != b
                        implies self@.texture_keys[a] != self@.texture_keys[b] by {
                    if a < before.texture_keys.len() && b < before.texture_keys.len() {
                    } else if a < before.texture_keys.len() {
                        assert(before.texture_keys.contains(before.texture_keys[a]));
                    } else {
                        assert(before.texture_keys.contains(before.texture_keys[b]));
                    }
                }
            }
        }
        index
    }

    /// Writes an attribute: its bytes, a tightly packed buffer view with
    /// `target`, and an accessor of that view; returns the accessor's
    /// index.
    pub fn accessor(&mut self, attribute: &Attribute, target: Target) -> (r: AccessorIndex)
        requires
            attribute.component_type.spec_byte_size() is Some,
            old(self)@.views.len() < u32::MAX,
            old(self)@.accessors.len() < u32::MAX,
            spec_aligned(
                old(self)@.buffer.len() as int,
                attribute.component_type.spec_byte_size().unwrap() as int,
            ) + attribute.data@.len() <= u32::MAX,
        ensures
            final(self)@ == write_step(old(self)@, *attribute, target),
            r == AccessorIndex(old(self)@.accessors.len() as u32),
    {
        let ghost before = self@;
        let view = self.packer.push_attribute(attribute, target);
        let index = AccessorIndex(self.accessors.len() as u32);
        self.accessors.push(
            Accessor {
                buffer_view: Some(view),
                byte_offset: None,
                component_type: attribute.component_type,
                normalized: attribute.normalized,
                count: attribute.count,
                element_type: attribute.element_type.duplicate(),
                name: None,
            },
        );
        proof {
            let expected = write_step(before, *attribute, target);
            assert(self@.buffer =~= expected.buffer);
            assert(self@.views =~= expected.views);
            assert(self@.accessors =~= expected.accessors);
        }
        index
    }

    /// Writes a primitive: an accessor for each attribute in order (array
    /// buffer views), then one for the indices (element array buffer
    /// view); the record names them, the material and the mode. A
    /// `POSITION` attribute with no vertex is refused and nothing is
    /// written.
    pub fn primitive(
        &mut self,
        attributes: &[(Semantic, Attribute)],
        indices: Option<&Attribute>,
        material: Option<MaterialIndex>,
        mode: Mode,
    ) -> (r: Result<Primitive, WriteError>)
        requires
            writable(attributes@, opt_attribute(indices)),
            old(self)@.views.len() + attributes@.len() + 1 < u32::MAX,
            old(self)@.accessors.len() + attributes@.len() + 1 < u32::MAX,
            old(self)@.buffer.len() + primitive_room(attributes@, opt_attribute(indices)) <= u32::MAX,
        ensures
            has_empty_positions(attributes@) ==> r == Err::<Primitive, WriteError>(
                WriteError::EmptyPositions,
            ) && final(self)@ == old(self)@,
            !has_empty_positions(attributes@) ==> (r matches Ok(p) && final(self)@ == write_primitive(
                old(self)@,
                attributes@,
                opt_attribute(indices),
            ) && is_primitive_record(old(self)@, attributes@, indices is Some, material, mode, p)),
    {
        let n = attributes.len();
        let mut k: usize = 0;
        while k < n
            invariant
                n == attributes@.len(),
                k <= n,
                forall|m: int|
                    0 <= m < k ==> !((#[trigger] attributes@[m]).0 is Position && attributes@[m].1.data@.len()
                        == 0),
            decreases n - k,
        {
            if semantic_eq(&attributes[k].0, &Semantic::Position) && attributes[k].1.data.len() == 0 {
                return Err(WriteError::EmptyPositions);
            }
            k = k + 1;
        }
        let ghost start = self@;
        let base = self.accessors.len();
        let mut records: Vec<(Semantic, AccessorIndex)> = Vec::new();
        let mut k: usize = 0;
        while k < n
            invariant
                n == attributes@.len(),
                k <= n,
                base == start.accessors.len(),
                forall|m: int|
                    0 <= m < attributes@.len() ==> (#[trigger] attributes@[m]).1.component_type.spec_byte_size() is Some,
                start.views.len() + attributes@.len() + 1 < u32::MAX,
                start.accessors.len() + attributes@.len() + 1 < u32::MAX,
                start.buffer.len() + room(attributes@) <= u32::MAX,
                self@ == write_all(start, attributes@.take(k as int), Target::ArrayBuffer),
                records@.len() == k,
                forall|m: int|
                    0 <= m < k ==> #[trigger] records@[m] == (
                        attributes@[m].0,
                        AccessorIndex((base + m) as u32),
                    ),
            decreases n - k,
        {
            let ghost prefix = attributes@.take(k as int);
            assert(attributes@.take(k + 1).drop_last() =~= prefix);
            assert(attributes@.take(k + 1).last() == attributes@[k as int]);
            proof {
                lemma_write_all_sizes(start, prefix, Target::ArrayBuffer);
                lemma_room_prefix(attributes@, k + 1);
                assert(forall|m: int| 0 <= m < prefix.len() ==> #[trigger] prefix[m] == attributes@[m]);
            }
            let index = self.accessor(&attributes[k].1, Target::ArrayBuffer);
            records.push((attributes[k].0.duplicate(), index));
            k = k + 1;
        }
        assert(attributes@.take(n as int) =~= attributes@);
        proof {
            lemma_write_all_sizes(start, attributes@, Target::ArrayBuffer);
        }
        let index_record = match indices {
            Some(i) => Some(self.accessor(i, Target::ElementArrayBuffer)),
            None => None,
        };
        Ok(
            Primitive {
                attributes: records,
                indices: index_record,
                material,
                mode: Some(mode),
            },
        )
    }
}


/// Writing a primitive adds its records to the views and accessors and at
/// most its room to the buffer.
proof fn lemma_write_primitive_sizes(
    s: WriterState,
    attrs: Seq<(Semantic, Attribute)>,
    indices: Option<Attribute>,
)
    requires
        writable(attrs, indices),
    ensures
        write_primitive(s, attrs, indices).views.len() == s.views.len() + primitive_records(attrs, indices),
        write_primitive(s, attrs, indices).accessors.len() == s.accessors.len() + primitive_records(
            attrs,
            indices,
        ),
        s.buffer.len() <= write_primitive(s, attrs, indices).buffer.len() <= s.buffer.len()
            + primitive_room(attrs, indices),
        primitive_room(attrs, indices) >= 0,
        write_primitive(s, attrs, indices).meshes == s.meshes,
{
    lemma_write_all_sizes(s, attrs, Target::ArrayBuffer);
    lemma_write_all_keeps_meshes(s, attrs, Target::ArrayBuffer);
    match indices {
        Some(i) => {
            let w = write_all(s, attrs, Target::ArrayBuffer);
            let bs = i.component_type.spec_byte_size().unwrap() as int;
            assert(1 <= bs <= 4);
            crate::attribute::lemma_aligned(w.buffer.len() as int, bs);
        },
        None => {},
    }
}

/// Writing attributes leaves the meshes as they are.
proof fn lemma_write_all_keeps_meshes(s: WriterState, attrs: Seq<(Semantic, Attribute)>, target: Target)
    ensures
        write_all(s, attrs, target).meshes == s.meshes,
    decreases attrs.len(),
{
    if attrs.len() > 0 {
        lemma_write_all_keeps_meshes(s, attrs.drop_last(), target);
    }
}

/// Writing primitives adds their records to the views and accessors and
/// at most their room to the buffer.
proof fn lemma_write_primitives_sizes(s: WriterState, prims: Seq<PrimitiveData>)
    requires
        forall|k: int| 0 <= k < prims.len() ==> writable((#[trigger] prims[k]).attributes@, prims[k].indices),
    ensures
        write_primitives(s, prims).views.len() == s.views.len() + primitives_records(prims),
        write_primitives(s, prims).accessors.len() == s.accessors.len() + primitives_records(prims),
        s.buffer.len() <= write_primitives(s, prims).buffer.len() <= s.buffer.len() + primitives_room(
            prims,
        ),
        primitives_room(prims) >= 0,
        primitives_records(prims) >= 0,
        write_primitives(s, prims).meshes == s.meshes,
    decreases prims.len(),
{
    if prims.len() > 0 {
        let d = prims.drop_last();
        assert forall|k: int| 0 <= k < d.len() implies writable((#[trigger] d[k]).attributes@, d[k].indices) by {
            assert(d[k] == prims[k]);
        }
        lemma_write_primitives_sizes(s, d);
        assert(prims.last() == prims[prims.len() - 1]);
        lemma_write_primitive_sizes(write_primitives(s, d), prims.last().attributes@, prims.last().indices);
    }
}

/// The room and records of a prefix of the primitives are at most those of
/// all of them.
proof fn lemma_primitives_prefix(prims: Seq<PrimitiveData>, i: int)
    requires
        0 <= i <= prims.len(),
        forall|k: int| 0 <= k < prims.len() ==> writable((#[trigger] prims[k]).attributes@, prims[k].indices),
    ensures
        primitives_room(prims.take(i)) <= primitives_room(prims),
        primitives_records(prims.take(i)) <= primitives_records(prims),
    decreases prims.len() - i,
{
    if i < prims.len() {
        assert(prims.take(i + 1).drop_last() =~= prims.take(i));
        assert(prims.take(i + 1).last() == prims[i]);
        lemma_write_primitive_sizes(
            WriterState {
                buffer: Seq::empty(),
                views: Seq::empty(),
                accessors: Seq::empty(),
                images: Seq::empty(),
                image_keys: Seq::empty(),
                samplers: Seq::empty(),
                sampler_keys: Seq::empty(),
                textures: Seq::empty(),
                texture_keys: Seq::empty(),
                meshes: Seq::empty(),
            },
            prims[i].attributes@,
            prims[i].indices,
        );
        lemma_primitives_prefix(prims, i + 1);
    } else {
        assert(prims.take(i) =~= prims);
    }
}

/// The room of a prefix is at most the room of the whole.
proof fn lemma_room_prefix(attrs: Seq<(Semantic, Attribute)>, i: int)
    requires
        0 <= i <= attrs.len(),
    ensures
        room(attrs.take(i)) <= room(attrs),
    decreases attrs.len() - i,
{
    if i < attrs.len() {
        assert(attrs.take(i + 1).drop_last() =~= attrs.take(i));
        lemma_room_prefix(attrs, i + 1);
    } else {
        assert(attrs.take(i) =~= attrs);
    }
}

/// What a writer writes reads back: the accessor written for an attribute
/// whose count and layout match its bytes gives back exactly those bytes
/// through `extract_attribute`, from a first buffer that starts with what
/// the writer had written by then.
pub proof fn lemma_written_accessor_reads_back(
    before: WriterState,
    a: Attribute,
    target: Target,
    buffers: Seq<Buffer>,
)
    requires
        a.component_type.spec_byte_size() is Some,
        a.element_type.spec_component_count() is Some,
        a.count * (a.element_type.spec_component_count().unwrap()
            * a.component_type.spec_byte_size().unwrap()) == a.data@.len(),
        before.views.len() < u32::MAX,
        before.accessors.len() < u32::MAX,
        spec_aligned(before.buffer.len() as int, a.component_type.spec_byte_size().unwrap() as int)
            + a.data@.len() <= u32::MAX,
        buffers.len() >= 1,
        buffers[0].uri is None,
        write_step(before, a, target).buffer.is_prefix_of(buffers[0].data@),
    ensures
        ({
            let after = write_step(before, a, target);
            spec_attribute_bytes(
                after.accessors,
                after.views,
                buffers,
                AccessorIndex(before.accessors.len() as u32),
            ) == Ok::<Seq<u8>, AttributeError>(a.data@)
        }),
{
    let after = write_step(before, a, target);
    let idx = AccessorIndex(before.accessors.len() as u32);
    assert(after.accessors[idx.0 as int] == packed_accessor(BufferViewIndex(before.views.len() as u32), a));
    lemma_packed_attribute_reads_back(after.accessors, after.views, buffers, idx, before.buffer, a.data@, target);
}

/// Writing more keeps what was written: the bytes, views and accessors
/// written for a prefix of the attributes stay in place.
proof fn lemma_write_all_extends(
    s: WriterState,
    attrs: Seq<(Semantic, Attribute)>,
    target: Target,
    i: int,
)
    requires
        0 <= i <= attrs.len(),
    ensures
        write_all(s, attrs.take(i), target).buffer.is_prefix_of(write_all(s, attrs, target).buffer),
        write_all(s, attrs.take(i), target).views.is_prefix_of(write_all(s, attrs, target).views),
        write_all(s, attrs.take(i), target).accessors.is_prefix_of(
            write_all(s, attrs, target).accessors,
        ),
    decreases attrs.len() - i,
{
    if i < attrs.len() {
        lemma_write_all_extends(s, attrs, target, i + 1);
        assert(attrs.take(i + 1).drop_last() =~= attrs.take(i));
        let a = write_all(s, attrs.take(i), target);
        let b = write_all(s, attrs.take(i + 1), target);
        assert(a.buffer.is_prefix_of(b.buffer));
        assert(a.views.is_prefix_of(b.views));
        assert(a.accessors.is_prefix_of(b.accessors));
    } else {
        assert(attrs.take(i) =~= attrs);
    }
}

/// Reading an accessor looks only at its own record and its view: more
/// records after them change nothing of what it reads.
pub proof fn lemma_attribute_bytes_extend(
    accessors: Seq<Accessor>,
    views: Seq<BufferView>,
    more_accessors: Seq<Accessor>,
    more_views: Seq<BufferView>,
    buffers: Seq<Buffer>,
    idx: AccessorIndex,
)
    requires
        accessors.is_prefix_of(more_accessors),
        views.is_prefix_of(more_views),
        idx.0 < accessors.len(),
        accessors[idx.0 as int].buffer_view matches Some(v) && v.0 < views.len(),
    ensures
        spec_attribute_bytes(more_accessors, more_views, buffers, idx) == spec_attribute_bytes(
            accessors,
            views,
            buffers,
            idx,
        ),
{
    assert(more_accessors[idx.0 as int] == accessors[idx.0 as int]);
    let v = accessors[idx.0 as int].buffer_view.unwrap();
    assert(more_views[v.0 as int] == views[v.0 as int]);
}

/// Whether an attribute's count and layout match its bytes.
pub open spec fn layout_matches(a: Attribute) -> bool {
    &&& a.component_type.spec_byte_size() is Some
    &&& a.element_type.spec_component_count() is Some
    &&& a.count * (a.element_type.spec_component_count().unwrap()
        * a.component_type.spec_byte_size().unwrap()) == a.data@.len()
}

/// Attributes written in turn read back: after writing attributes whose
/// counts and layouts match their bytes, the accessor written for each
/// gives back exactly its bytes through `extract_attribute`, from a first
/// buffer that starts with what was written.
pub proof fn lemma_written_attributes_read_back(
    s: WriterState,
    attrs: Seq<(Semantic, Attribute)>,
    target: Target,
    buffers: Seq<Buffer>,
)
    requires
        forall|k: int| 0 <= k < attrs.len() ==> layout_matches(#[trigger] attrs[k].1),
        s.views.len() + attrs.len() < u32::MAX,
        s.accessors.len() + attrs.len() < u32::MAX,
        s.buffer.len() + room(attrs) <= u32::MAX,
        buffers.len() >= 1,
        buffers[0].uri is None,
        write_all(s, attrs, target).buffer.is_prefix_of(buffers[0].data@),
    ensures
        forall|k: int|
            0 <= k < attrs.len() ==> spec_attribute_bytes(
                write_all(s, attrs, target).accessors,
                write_all(s, attrs, target).views,
                buffers,
                AccessorIndex((s.accessors.len() + k) as u32),
            ) == Ok::<Seq<u8>, AttributeError>((#[trigger] attrs[k]).1.data@),
{
    let after = write_all(s, attrs, target);
    assert forall|k: int| 0 <= k < attrs.len() implies spec_attribute_bytes(
        after.accessors,
        after.views,
        buffers,
        AccessorIndex((s.accessors.len() + k) as u32),
    ) == Ok::<Seq<u8>, AttributeError>((#[trigger] attrs[k]).1.data@) by {
        let prefix = attrs.take(k);
        let pre = write_all(s, prefix, target);
        let a = attrs[k].1;
        assert(layout_matches(a));
        assert(attrs.take(k + 1).drop_last() =~= prefix);
        assert(attrs.take(k + 1).last() == attrs[k]);
        let step = write_all(s, attrs.take(k + 1), target);
        assert(step == write_step(pre, a, target));
        assert forall|m: int| 0 <= m < prefix.len() implies (#[trigger] prefix[m]).1.component_type.spec_byte_size() is Some by {
            assert(prefix[m] == attrs[m]);
            assert(layout_matches(attrs[m].1));
        }
        lemma_write_all_sizes(s, prefix, target);
        lemma_room_prefix(attrs, k + 1);
        lemma_write_all_extends(s, attrs, target, k + 1);
        assert(step.buffer.is_prefix_of(buffers[0].data@));
        lemma_written_accessor_reads_back(pre, a, target, buffers);
        let idx = AccessorIndex(pre.accessors.len() as u32);
        assert(pre.accessors.len() == s.accessors.len() + k);
        lemma_attribute_bytes_extend(step.accessors, step.views, after.accessors, after.views, buffers, idx);
    }
}

/// A written image reads back: from its record, the written views and a
/// first buffer that starts with the written buffer, `build_image` finds
/// a URI image's URI, or exactly the bytes the image held.
pub proof fn lemma_written_image_reads_back(s: WriterState, key: u64, img: Image, buffers: Seq<Buffer>)
    requires
        s.views.len() < u32::MAX,
        img.source matches ImageSource::Data(b, _) ==> s.buffer.len() + b@.len() <= u32::MAX,
        buffers.len() >= 1,
        write_image(s, key, img).buffer.is_prefix_of(buffers[0].data@),
    ensures
        spec_image_source(image_record(s, img), write_image(s, key, img).views, buffers) == match img.source {
            ImageSource::Uri(_, _) => Ok::<Option<Seq<u8>>, ImageError>(None),
            ImageSource::Data(b, _) => Ok::<Option<Seq<u8>>, ImageError>(Some(b@)),
        },
{
    match img.source {
        ImageSource::Data(b, _) => {
            let after = write_image(s, key, img);
            let view = after.views[s.views.len() as int];
            assert(view == packed_view(s.buffer.len() as int, b@.len() as int, None));
            let data = buffers[0].data@;
            let start = s.buffer.len() as int;
            assert(data.subrange(start, start + b@.len()) =~= b@) by {
                assert forall|i: int| 0 <= i < b@.len() implies data.subrange(start, start + b@.len())[i]
                    == b@[i] by {
                    assert(data[start + i] == after.buffer[start + i]);
                }
            }
        },
        ImageSource::Uri(_, _) => {},
    }
}

/// An image is written once per key: after writing it under a new key the
/// key is known, and only at the index it was written at, so a second
/// `image` call with that key gives that index back and writes nothing;
/// a held image's bytes go unpadded at the end of the buffer with a view
/// of exactly them.
pub proof fn lemma_image_written_once(s: WriterState, key: u64, img: Image)
    requires
        s.wf(),
        !s.image_keys.contains(key),
    ensures
        write_image(s, key, img).wf(),
        write_image(s, key, img).image_keys.contains(key),
        forall|j: int|
            0 <= j < write_image(s, key, img).image_keys.len() && #[trigger] write_image(
                s,
                key,
                img,
            ).image_keys[j] == key ==> j == s.images.len(),
        write_image(s, key, img).images.len() == s.images.len() + 1,
        img.source matches ImageSource::Data(b, _) ==> {
            &&& write_image(s, key, img).buffer == s.buffer + b@
            &&& write_image(s, key, img).views == s.views.push(
                packed_view(s.buffer.len() as int, b@.len() as int, None),
            )
        },
{
    let t = write_image(s, key, img);
    assert(t.image_keys == s.image_keys.push(key));
    assert(t.image_keys[s.images.len() as int] == key);
    assert forall|j: int| 0 <= j < t.image_keys.len() && #[trigger] t.image_keys[j] == key implies j
        == s.images.len() by {
        if j < s.images.len() {
            assert(s.image_keys[j] == key);
        }
    }
    assert forall|m: int, n: int| 0 <= m < n < t.image_keys.len() implies t.image_keys[m]
        != t.image_keys[n] by {
        if n == s.images.len() {
            assert(s.image_keys[m] == t.image_keys[m]);
        } else {
            assert(s.image_keys[m] == t.image_keys[m] && s.image_keys[n] == t.image_keys[n]);
        }
    }
}

/// An image's record keeps what the image says of itself: its name, and
/// either its URI and media type, or, for an image that holds its bytes,
/// its media type and the view written right after the views so far.
pub proof fn lemma_image_record_keeps_image(s: WriterState, img: Image)
    ensures
        image_record(s, img).name == img.name,
        img.source matches ImageSource::Data(_, m) ==> image_record(s, img).mime_type == Some(m)
            && image_record(s, img).uri is None && image_record(s, img).buffer_view == Some(
            BufferViewIndex(s.views.len() as u32),
        ),
        img.source matches ImageSource::Uri(u, m) ==> image_record(s, img).uri == Some(u)
            && image_record(s, img).mime_type == m && image_record(s, img).buffer_view is None,
{
}

/// A sampler is written as it is: the record keeps each wrapping mode on
/// its own axis and the filters and name, so reading the record back (an
/// absent wrapping mode read as repeat) gives the sampler again.
pub proof fn lemma_written_sampler_reads_back(smp: Sampler)
    ensures
        sampler_record(smp).wrap_s == Some(smp.wrap_s),
        sampler_record(smp).wrap_t == Some(smp.wrap_t),
        sampler_record(smp).mag_filter == smp.mag_filter,
        sampler_record(smp).min_filter == smp.min_filter,
        sampler_record(smp).name == smp.name,
        (Sampler {
            mag_filter: sampler_record(smp).mag_filter,
            min_filter: sampler_record(smp).min_filter,
            wrap_s: match sampler_record(smp).wrap_s {
                Some(w) => w,
                None => WrapMode::Repeat,
            },
            wrap_t: match sampler_record(smp).wrap_t {
                Some(w) => w,
                None => WrapMode::Repeat,
            },
            name: sampler_record(smp).name,
        }) == smp,
{
}

/// No attribute error is met when every accessor can be read.
proof fn lemma_no_attribute_error(
    attrs: Seq<(Semantic, AccessorIndex)>,
    accessors: Seq<Accessor>,
    views: Seq<BufferView>,
    buffers: Seq<Buffer>,
)
    requires
        forall|k: int|
            0 <= k < attrs.len() ==> spec_attribute_bytes(accessors, views, buffers, (#[trigger] attrs[k]).1) is Ok,
    ensures
        first_attribute_error(attrs, accessors, views, buffers) is None,
    decreases attrs.len(),
{
    if attrs.len() > 0 {
        let d = attrs.drop_last();
        assert forall|k: int| 0 <= k < d.len() implies spec_attribute_bytes(accessors, views, buffers, (#[trigger] d[k]).1) is Ok by {
            assert(d[k] == attrs[k]);
        }
        lemma_no_attribute_error(d, accessors, views, buffers);
        assert(attrs.last() == attrs[attrs.len() - 1]);
    }
}

/// The accessor written for attribute `k` among attributes written in
/// turn: the `k`-th one after those already there, of the `k`-th view
/// after those already there.
proof fn lemma_written_accessor_at(
    s: WriterState,
    attrs: Seq<(Semantic, Attribute)>,
    target: Target,
    k: int,
)
    requires
        0 <= k < attrs.len(),
        forall|m: int| 0 <= m < attrs.len() ==> (#[trigger] attrs[m]).1.component_type.spec_byte_size() is Some,
    ensures
        write_all(s, attrs, target).accessors[s.accessors.len() + k] == packed_accessor(
            BufferViewIndex((s.views.len() + k) as u32),
            attrs[k].1,
        ),
        s.views.len() + k < write_all(s, attrs, target).views.len(),
{
    let prefix = attrs.take(k);
    assert(attrs.take(k + 1).drop_last() =~= prefix);
    assert(attrs.take(k + 1).last() == attrs[k]);
    assert forall|m: int| 0 <= m < prefix.len() implies (#[trigger] prefix[m]).1.component_type.spec_byte_size() is Some by {
        assert(prefix[m] == attrs[m]);
    }
    lemma_write_all_sizes(s, prefix, target);
    lemma_write_all_sizes(s, attrs, target);
    lemma_write_all_extends(s, attrs, target, k + 1);
    let step = write_all(s, attrs.take(k + 1), target);
    assert(step.accessors[s.accessors.len() + k] == packed_accessor(
        BufferViewIndex((s.views.len() + k) as u32),
        attrs[k].1,
    ));
}

/// A written primitive reads back: reading the record written for a
/// primitive whose attributes and indices have counts and layouts that
/// match their bytes, with the written accessors and views and a first
/// buffer that starts with the written buffer, meets no error (given a
/// material index below `material_count`) and gives back the primitive:
/// each attribute's semantic, layout and bytes, its indices, material and
/// mode.
pub proof fn lemma_written_primitive_reads_back(
    s: WriterState,
    p: PrimitiveData,
    rec: Primitive,
    buffers: Seq<Buffer>,
    material_count: usize,
)
    requires
        writable(p.attributes@, p.indices),
        forall|k: int| 0 <= k < p.attributes@.len() ==> layout_matches((#[trigger] p.attributes@[k]).1),
        p.indices matches Some(i) ==> layout_matches(i),
        s.views.len() + primitive_records(p.attributes@, p.indices) < u32::MAX,
        s.accessors.len() + primitive_records(p.attributes@, p.indices) < u32::MAX,
        s.buffer.len() + primitive_room(p.attributes@, p.indices) <= u32::MAX,
        is_primitive_record(s, p.attributes@, p.indices is Some, p.material, p.mode, rec),
        buffers.len() >= 1,
        buffers[0].uri is None,
        write_primitive(s, p.attributes@, p.indices).buffer.is_prefix_of(buffers[0].data@),
        p.material matches Some(m) ==> m.0 < material_count,
    ensures
        primitive_error(
            rec,
            write_primitive(s, p.attributes@, p.indices).accessors,
            write_primitive(s, p.attributes@, p.indices).views,
            buffers,
            material_count,
        ) is None,
        is_primitive_data_of(
            rec,
            write_primitive(s, p.attributes@, p.indices).accessors,
            write_primitive(s, p.attributes@, p.indices).views,
            buffers,
            p,
        ),
{
    let attrs = p.attributes@;
    let written = write_all(s, attrs, Target::ArrayBuffer);
    let after = write_primitive(s, attrs, p.indices);
    lemma_write_all_sizes(s, attrs, Target::ArrayBuffer);
    assert(written.buffer.is_prefix_of(buffers[0].data@)) by {
        assert(written.buffer.is_prefix_of(after.buffer));
    }
    lemma_written_attributes_read_back(s, attrs, Target::ArrayBuffer, buffers);
    assert forall|k: int| 0 <= k < attrs.len() implies {
        &&& spec_attribute_bytes(after.accessors, after.views, buffers, (#[trigger] rec.attributes@[k]).1)
            == Ok::<Seq<u8>, AttributeError>(attrs[k].1.data@)
        &&& after.accessors[rec.attributes@[k].1.0 as int] == packed_accessor(
            BufferViewIndex((s.views.len() + k) as u32),
            attrs[k].1,
        )
    } by {
        let idx = AccessorIndex((s.accessors.len() + k) as u32);
        assert(rec.attributes@[k] == (attrs[k].0, idx));
        lemma_written_accessor_at(s, attrs, Target::ArrayBuffer, k);
        assert(spec_attribute_bytes(written.accessors, written.views, buffers, idx) == Ok::<
            Seq<u8>,
            AttributeError,
        >(attrs[k].1.data@));
        match p.indices {
            Some(i) => {
                assert(written.accessors.is_prefix_of(after.accessors));
                assert(written.views.is_prefix_of(after.views));
                lemma_attribute_bytes_extend(
                    written.accessors,
                    written.views,
                    after.accessors,
                    after.views,
                    buffers,
                    idx,
                );
            },
            None => {},
        }
    }
    lemma_no_attribute_error(rec.attributes@, after.accessors, after.views, buffers);
    match p.indices {
        Some(i) => {
            lemma_written_accessor_reads_back(written, i, Target::ElementArrayBuffer, buffers);
        },
        None => {},
    }
}

} // verus!
