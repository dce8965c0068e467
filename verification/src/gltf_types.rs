//! glTF document records that hold no floating-point data, their defaults
//! and their validation rules.
use vstd::prelude::*;
use crate::gltf_constants::{AlphaMode, MagFilter, MimeType, MinFilter, Mode, Target, WrapMode};
use crate::semantic::Semantic;

verus! {

/// Position of an accessor in its document array.
#[derive(Clone, Copy, PartialEq, Eq, Hash, Debug, Structural)]
pub struct AccessorIndex(pub u32);

/// Position of an animation in its document array.
#[derive(Clone, Copy, PartialEq, Eq, Hash, Debug, Structural)]
pub struct AnimationIndex(pub u32);

/// Position of a buffer in its document array.
#[derive(Clone, Copy, PartialEq, Eq, Hash, Debug, Structural)]
pub struct BufferIndex(pub u32);

/// Position of a buffer view in its document array.
#[derive(Clone, Copy, PartialEq, Eq, Hash, Debug, Structural)]
pub struct BufferViewIndex(pub u32);

/// Position of a camera in its document array.
#[derive(Clone, Copy, PartialEq, Eq, Hash, Debug, Structural)]
pub struct CameraIndex(pub u32);

/// Position of an image in its document array.
#[derive(Clone, Copy, PartialEq, Eq, Hash, Debug, Structural)]
pub struct ImageIndex(pub u32);

/// Position of a material in its document array.
#[derive(Clone, Copy, PartialEq, Eq, Hash, Debug, Structural)]
pub struct MaterialIndex(pub u32);

/// Position of a mesh in its document array.
#[derive(Clone, Copy, PartialEq, Eq, Hash, Debug, Structural)]
pub struct MeshIndex(pub u32);

/// Position of a node in its document array.
#[derive(Clone, Copy, PartialEq, Eq, Hash, Debug, Structural)]
pub struct NodeIndex(pub u32);

/// Position of a sampler in its document array.
#[derive(Clone, Copy, PartialEq, Eq, Hash, Debug, Structural)]
pub struct SamplerIndex(pub u32);

/// Position of a scene in its document array.
#[derive(Clone, Copy, PartialEq, Eq, Hash, Debug, Structural)]
pub struct SceneIndex(pub u32);

/// Position of a skin in its document array.
#[derive(Clone, Copy, PartialEq, Eq, Hash, Debug, Structural)]
pub struct SkinIndex(pub u32);

/// Position of a texture in its document array.
#[derive(Clone, Copy, PartialEq, Eq, Hash, Debug, Structural)]
pub struct TextureIndex(pub u32);

/// Metadata about the glTF asset.
#[derive(Clone, Debug)]
pub struct Asset {
    pub copyright: Option<String>,
    pub generator: Option<String>,
    /// The glTF version the asset targets; must not be empty.
    pub version: String,
    pub min_version: Option<String>,
}

impl Default for Asset {
    fn default() -> (r: Self)
        ensures
            r.copyright is None,
            r.generator is None,
            r.version@ == "2.0"@,
            r.min_version is None,
    {
        Asset { copyright: None, generator: None, version: "2.0".to_owned(), min_version: None }
    }
}

impl Asset {
    /// Checks the asset against its schema: the version must not be empty.
    pub fn validate(&self) -> (r: Result<(), ValidationError>)
        ensures
            r is Ok <==> self.version@.len() > 0,
            r matches Err(e) ==> e == ValidationError::Length,
    {
        if self.version.as_str().is_empty() {
            Err(ValidationError::Length)
        } else {
            Ok(())
        }
    }
}

/// A camera (no properties are read).
#[derive(Clone, Debug, Default)]
pub struct Camera {}

/// A view into a buffer.
#[derive(Clone, Debug)]
pub struct BufferView {
    pub buffer: BufferIndex,
    pub byte_offset: Option<u32>,
    /// Length in bytes; must be at least 1.
    pub byte_length: u32,
    /// Stride in bytes between vertex attributes; when defined, a multiple
    /// of 4 in the range 4 to 254 (so at most 252).
    pub byte_stride: Option<u32>,
    pub target: Option<Target>,
    pub name: Option<String>,
}

impl BufferView {
    /// The offset into the buffer, 0 when undefined.
    pub fn byte_offset(&self) -> (r: u32)
        ensures
            r == match self.byte_offset {
                Some(o) => o,
                None => 0,
            },
    {
        match self.byte_offset {
            Some(o) => o,
            None => 0,
        }
    }

    /// Checks the buffer view against its schema: a positive length and,
    /// when a stride is defined, a valid stride.
    pub fn validate(&self) -> (r: Result<(), ValidationError>)
        ensures
            self.byte_length < 1 ==> r == Err::<(), ValidationError>(ValidationError::Range),
            self.byte_length >= 1 ==> r == match self.byte_stride {
                Some(s) => spec_validate_byte_stride(s),
                None => Ok(()),
            },
    {
        if self.byte_length < 1 {
            return Err(ValidationError::Range);
        }
        match self.byte_stride {
            Some(s) => validate_byte_stride(s),
            None => Ok(()),
        }
    }
}

/// What `validate_byte_stride` reports: a stride must be a multiple of 4
/// and lie between 4 and 254.
pub open spec fn spec_validate_byte_stride(value: u32) -> Result<(), ValidationError> {
    if value % 4 != 0 {
        Err(ValidationError::InvalidByteStrideMultiple)
    } else if !(4 <= value <= 254) {
        Err(ValidationError::InvalidByteStrideRange)
    } else {
        Ok(())
    }
}

/// Checks a buffer view stride: a multiple of 4, between 4 and 254.
pub fn validate_byte_stride(value: u32) -> (r: Result<(), ValidationError>)
    ensures
        r == spec_validate_byte_stride(value),
{
    if value % 4 != 0 {
        Err(ValidationError::InvalidByteStrideMultiple)
    } else if !(4 <= value && value <= 254) {
        Err(ValidationError::InvalidByteStrideRange)
    } else {
        Ok(())
    }
}

/// An image, referenced by URI or stored in a buffer view.
#[derive(Debug, Default)]
pub struct Image {
    pub uri: Option<String>,
    pub mime_type: Option<MimeType>,
    pub buffer_view: Option<BufferViewIndex>,
    pub name: Option<String>,
}

/// A texture sampler.
#[derive(Clone, Debug, Default)]
pub struct Sampler {
    pub mag_filter: Option<MagFilter>,
    pub min_filter: Option<MinFilter>,
    pub wrap_s: Option<WrapMode>,
    pub wrap_t: Option<WrapMode>,
    pub name: Option<String>,
}

impl Sampler {
    /// The wrapping along S, `Repeat` when undefined.
    pub fn wrap_s(&self) -> (r: WrapMode)
        ensures
            r == match self.wrap_s {
                Some(w) => w,
                None => WrapMode::Repeat,
            },
    {
        match self.wrap_s {
            Some(w) => w,
            None => WrapMode::Repeat,
        }
    }

    /// The wrapping along T, `Repeat` when undefined.
    pub fn wrap_t(&self) -> (r: WrapMode)
        ensures
            r == match self.wrap_t {
                Some(w) => w,
                None => WrapMode::Repeat,
            },
    {
        match self.wrap_t {
            Some(w) => w,
            None => WrapMode::Repeat,
        }
    }
}

/// A texture: the image it samples and the sampler it samples it with.
#[derive(Debug, Default)]
pub struct Texture {
    pub sampler: Option<SamplerIndex>,
    pub source: Option<ImageIndex>,
    pub name: Option<String>,
}

/// A reference to a texture and the set of texture coordinates it uses.
#[derive(Debug)]
pub struct TextureInfo {
    pub index: TextureIndex,
    pub tex_coord: Option<u32>,
}

impl TextureInfo {
    /// The texture coordinate set, 0 when undefined.
    pub fn tex_coord(&self) -> (r: u32)
        ensures
            r == match self.tex_coord {
                Some(t) => t,
                None => 0,
            },
    {
        match self.tex_coord {
            Some(t) => t,
            None => 0,
        }
    }
}

/// A material's normal texture (its scale is a float and is not held
/// here).
#[derive(Debug)]
pub struct NormalTextureInfo {
    pub index: TextureIndex,
    pub tex_coord: Option<u32>,
}

impl NormalTextureInfo {
    /// The texture coordinate set, 0 when undefined.
    pub fn tex_coord(&self) -> (r: u32)
        ensures
            r == match self.tex_coord {
                Some(t) => t,
                None => 0,
            },
    {
        match self.tex_coord {
            Some(t) => t,
            None => 0,
        }
    }
}

/// A material's occlusion texture (its strength is a float and is not
/// held here).
#[derive(Debug)]
pub struct OcclusionTextureInfo {
    pub index: TextureIndex,
    pub tex_coord: Option<u32>,
}

impl OcclusionTextureInfo {
    /// The texture coordinate set, 0 when undefined.
    pub fn tex_coord(&self) -> (r: u32)
        ensures
            r == match self.tex_coord {
                Some(t) => t,
                None => 0,
            },
    {
        match self.tex_coord {
            Some(t) => t,
            None => 0,
        }
    }
}

/// Geometry to be rendered with a material: the accessor of each
/// attribute (in semantic order, each semantic once), of the indices, and
/// the topology.
#[derive(Debug, Default)]
pub struct Primitive {
    pub attributes: Vec<(Semantic, AccessorIndex)>,
    pub indices: Option<AccessorIndex>,
    pub material: Option<MaterialIndex>,
    pub mode: Option<Mode>,
}

impl Primitive {
    /// The topology, `Triangles` when undefined.
    pub open spec fn spec_mode(&self) -> Mode {
        match self.mode {
            Some(m) => m,
            None => Mode::Triangles,
        }
    }

    /// The topology, `Triangles` when undefined.
    pub fn mode(&self) -> (r: Mode)
        ensures
            r == self.spec_mode(),
    {
        match self.mode {
            Some(m) => m,
            None => Mode::Triangles,
        }
    }

    /// Checks the primitive against its schema: at least one attribute.
    pub fn validate(&self) -> (r: Result<(), ValidationError>)
        ensures
            r is Ok <==> self.attributes@.len() >= 1,
            r matches Err(e) ==> e == ValidationError::Length,
    {
        if self.attributes.len() < 1 {
            Err(ValidationError::Length)
        } else {
            Ok(())
        }
    }
}

/// A set of primitives rendered together.
#[derive(Debug, Default)]
pub struct Mesh {
    pub primitives: Vec<Primitive>,
    pub name: Option<String>,
}

impl Mesh {
    /// Checks the mesh against its schema: at least one primitive.
    pub fn validate(&self) -> (r: Result<(), ValidationError>)
        ensures
            r is Ok <==> self.primitives@.len() >= 1,
            r matches Err(e) ==> e == ValidationError::Length,
    {
        if self.primitives.len() < 1 {
            Err(ValidationError::Length)
        } else {
            Ok(())
        }
    }
}

/// Why a glTF record breaks its schema.
#[derive(Clone, Copy, Debug, PartialEq, Eq, Structural)]
pub enum ValidationError {
    /// A number below its minimum.
    Range,
    /// A text or array shorter than its minimum.
    Length,
    /// A buffer view stride that is not a multiple of 4.
    InvalidByteStrideMultiple,
    /// A buffer view stride outside 4..=254.
    InvalidByteStrideRange,
    /// The same id twice in an array of ids.
    DuplicateId,
    /// A default scene that is not an index into the scenes.
    InvalidSceneIndex,
}

impl ValidationError {
    /// The code of an error.
    pub open spec fn spec_code(&self) -> Seq<char> {
        match self {
            ValidationError::Range => "range"@,
            ValidationError::Length => "length"@,
            ValidationError::InvalidByteStrideMultiple => "INVALID_BYTE_STRIDE"@,
            ValidationError::InvalidByteStrideRange => "INVALID_BYTE_STRIDE"@,
            ValidationError::DuplicateId => "DUPLICATE_ID"@,
            ValidationError::InvalidSceneIndex => "INVALID_SCENE_INDEX"@,
        }
    }

    /// The message of an error.
    pub open spec fn spec_message(&self) -> Seq<char> {
        match self {
            ValidationError::Range => "Value is below its minimum"@,
            ValidationError::Length => "Value is shorter than its minimum"@,
            ValidationError::InvalidByteStrideMultiple => "BufferView::byteStride must be a multiple of 4"@,
            ValidationError::InvalidByteStrideRange => "BufferView::byteStride must between 4 and 254"@,
            ValidationError::DuplicateId => "Ids in this array must be unique"@,
            ValidationError::InvalidSceneIndex => "model.scene must be a valid index into model.scenes"@,
        }
    }

    /// The error code.
    pub fn code(&self) -> (r: &'static str)
        ensures
            r@ == self.spec_code(),
    {
        match self {
            ValidationError::Range => "range",
            ValidationError::Length => "length",
            ValidationError::InvalidByteStrideMultiple => "INVALID_BYTE_STRIDE",
            ValidationError::InvalidByteStrideRange => "INVALID_BYTE_STRIDE",
            ValidationError::DuplicateId => "DUPLICATE_ID",
            ValidationError::InvalidSceneIndex => "INVALID_SCENE_INDEX",
        }
    }

    /// The human-readable message.
    pub fn message(&self) -> (r: &'static str)
        ensures
            r@ == self.spec_message(),
    {
        match self {
            ValidationError::Range => "Value is below its minimum",
            ValidationError::Length => "Value is shorter than its minimum",
            ValidationError::InvalidByteStrideMultiple => "BufferView::byteStride must be a multiple of 4",
            ValidationError::InvalidByteStrideRange => "BufferView::byteStride must between 4 and 254",
            ValidationError::DuplicateId => "Ids in this array must be unique",
            ValidationError::InvalidSceneIndex => "model.scene must be a valid index into model.scenes",
        }
    }
}

/// The alpha mode of a material that does not name one.
pub fn default_alpha_mode() -> (r: AlphaMode)
    ensures
        r == AlphaMode::Opaque,
{
    AlphaMode::Opaque
}

/// Whether an alpha mode is the default one.
pub fn is_default_alpha_mode(value: &AlphaMode) -> (r: bool)
    ensures
        r == (*value == AlphaMode::Opaque),
{
    match value {
        AlphaMode::Opaque => true,
        _ => false,
    }
}

/// Whether a flag is unset (used to leave `false` flags out of documents).
pub fn is_false(b: &bool) -> (r: bool)
    ensures
        r == !*b,
{
    !*b
}

/// Whether no id occurs twice.
pub open spec fn ids_unique(items: Seq<NodeIndex>) -> bool {
    forall|i: int, j: int| 0 <= i < j < items.len() ==> items[i] != items[j]
}

/// Checks that no id occurs twice in a list of node ids.
pub fn validate_unique_ids(items: &[NodeIndex]) -> (r: Result<(), ValidationError>)
    ensures
        r is Ok <==> ids_unique(items@),
        r matches Err(e) ==> e == ValidationError::DuplicateId,
{
    let n = items.len();
    let mut i: usize = 0;
    while i < n
        invariant
            n == items@.len(),
            i <= n,
            forall|a: int, b: int| 0 <= a < b < n && a < i ==> items@[a] != items@[b],
        decreases n - i,
    {
        let mut j: usize = i + 1;
        while j < n
            invariant
                n == items@.len(),
                i < n,
                i < j <= n,
                forall|a: int, b: int| 0 <= a < b < n && a < i ==> items@[a] != items@[b],
                forall|b: int| i < b < j ==> items@[i as int] != items@[b],
            decreases n - j,
        {
            if items[i].0 == items[j].0 {
                return Err(ValidationError::DuplicateId);
            }
            j = j + 1;
        }
        i = i + 1;
    }
    Ok(())
}

/// Checks a document's default scene: when it names one, the index must
/// be below `scene_count`.
pub fn validate_model(scene: Option<SceneIndex>, scene_count: usize) -> (r: Result<
    (),
    ValidationError,
>)
    ensures
        r is Ok <==> match scene {
            Some(s) => s.0 < scene_count,
            None => true,
        },
        r matches Err(e) ==> e == ValidationError::InvalidSceneIndex,
{
    match scene {
        Some(s) => if s.0 as usize >= scene_count {
            Err(ValidationError::InvalidSceneIndex)
        } else {
            Ok(())
        },
        None => Ok(()),
    }
}

} // verus!
