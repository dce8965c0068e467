//! glTF 2.0 enumerations. Each keeps the values the specification names and
//! an `Other` variant for any other value found in a document, so that
//! reading and writing a document never loses a value.
use vstd::prelude::*;
use crate::text::str_equal;

verus! {
/// The wrapping of texture coordinates.
#[derive(Clone, Copy, Debug, PartialEq, Eq, Hash, PartialOrd, Ord, Structural)]
pub enum WrapMode {
    ClampToEdge,
    MirroredRepeat,
    Repeat,
    Other(u32),
}

impl WrapMode {
    /// The number this value stands for.
    pub open spec fn spec_int(self) -> u32 {
        match self {
            WrapMode::ClampToEdge => 33071,
            WrapMode::MirroredRepeat => 33648,
            WrapMode::Repeat => 10497,
            WrapMode::Other(n) => n,
        }
    }

    /// The value a number stands for.
    pub open spec fn spec_from_int(n: u32) -> Self {
        if n == 33071 {
            WrapMode::ClampToEdge
        } else if n == 33648 {
            WrapMode::MirroredRepeat
        } else if n == 10497 {
            WrapMode::Repeat
        } else {
            WrapMode::Other(n)
        }
    }

    /// Whether this value is the one its number reads back as (an `Other`
    /// holding a named number is not).
    pub open spec fn is_canonical(self) -> bool {
        Self::spec_from_int(self.spec_int()) == self
    }

    /// The number this value stands for.
    pub fn as_int(self) -> (r: u32)
        ensures
            r == self.spec_int(),
    {
        match self {
            WrapMode::ClampToEdge => 33071,
            WrapMode::MirroredRepeat => 33648,
            WrapMode::Repeat => 10497,
            WrapMode::Other(n) => n,
        }
    }

    /// The value a number stands for.
    pub fn from_int(n: u32) -> (r: Self)
        ensures
            r == Self::spec_from_int(n),
    {
        if n == 33071 {
            WrapMode::ClampToEdge
        } else if n == 33648 {
            WrapMode::MirroredRepeat
        } else if n == 10497 {
            WrapMode::Repeat
        } else {
            WrapMode::Other(n)
        }
    }

    /// Every number reads back as itself.
    pub proof fn lemma_int_roundtrip(n: u32)
        ensures
            Self::spec_from_int(n).spec_int() == n,
    {
    }

    /// Every named value, and every `Other` that holds an unnamed number,
    /// reads back from its number as itself.
    pub proof fn lemma_value_roundtrip(v: Self)
        requires
            !(v matches WrapMode::Other(n) && (n == 33071 || n == 33648 || n == 10497)),
        ensures
            Self::spec_from_int(v.spec_int()) == v,
    {
    }
}

/// The magnification filter of a sampler.
#[derive(Clone, Copy, Debug, PartialEq, Eq, Hash, PartialOrd, Ord, Structural)]
pub enum MagFilter {
    Nearest,
    Linear,
    Other(u32),
}

impl MagFilter {
    /// The number this value stands for.
    pub open spec fn spec_int(self) -> u32 {
        match self {
            MagFilter::Nearest => 9728,
            MagFilter::Linear => 9729,
            MagFilter::Other(n) => n,
        }
    }

    /// The value a number stands for.
    pub open spec fn spec_from_int(n: u32) -> Self {
        if n == 9728 {
            MagFilter::Nearest
        } else if n == 9729 {
            MagFilter::Linear
        } else {
            MagFilter::Other(n)
        }
    }

    /// Whether this value is the one its number reads back as (an `Other`
    /// holding a named number is not).
    pub open spec fn is_canonical(self) -> bool {
        Self::spec_from_int(self.spec_int()) == self
    }

    /// The number this value stands for.
    pub fn as_int(self) -> (r: u32)
        ensures
            r == self.spec_int(),
    {
        match self {
            MagFilter::Nearest => 9728,
            MagFilter::Linear => 9729,
            MagFilter::Other(n) => n,
        }
    }

    /// The value a number stands for.
    pub fn from_int(n: u32) -> (r: Self)
        ensures
            r == Self::spec_from_int(n),
    {
        if n == 9728 {
            MagFilter::Nearest
        } else if n == 9729 {
            MagFilter::Linear
        } else {
            MagFilter::Other(n)
        }
    }

    /// Every number reads back as itself.
    pub proof fn lemma_int_roundtrip(n: u32)
        ensures
            Self::spec_from_int(n).spec_int() == n,
    {
    }

    /// Every named value, and every `Other` that holds an unnamed number,
    /// reads back from its number as itself.
    pub proof fn lemma_value_roundtrip(v: Self)
        requires
            !(v matches MagFilter::Other(n) && (n == 9728 || n == 9729)),
        ensures
            Self::spec_from_int(v.spec_int()) == v,
    {
    }
}

/// The minification filter of a sampler.
#[derive(Clone, Copy, Debug, PartialEq, Eq, Hash, PartialOrd, Ord, Structural)]
pub enum MinFilter {
    Nearest,
    Linear,
    NearestMipmapNearest,
    LinearMipmapNearest,
    NearestMipmapLinear,
    LinearMipmapLinear,
    Other(u32),
}

impl MinFilter {
    /// The number this value stands for.
    pub open spec fn spec_int(self) -> u32 {
        match self {
            MinFilter::Nearest => 9728,
            MinFilter::Linear => 9729,
            MinFilter::NearestMipmapNearest => 9984,
            MinFilter::LinearMipmapNearest => 9985,
            MinFilter::NearestMipmapLinear => 9986,
            MinFilter::LinearMipmapLinear => 9987,
            MinFilter::Other(n) => n,
        }
    }

    /// The value a number stands for.
    pub open spec fn spec_from_int(n: u32) -> Self {
        if n == 9728 {
            MinFilter::Nearest
        } else if n == 9729 {
            MinFilter::Linear
        } else if n == 9984 {
            MinFilter::NearestMipmapNearest
        } else if n == 9985 {
            MinFilter::LinearMipmapNearest
        } else if n == 9986 {
            MinFilter::NearestMipmapLinear
        } else if n == 9987 {
            MinFilter::LinearMipmapLinear
        } else {
            MinFilter::Other(n)
        }
    }

    /// Whether this value is the one its number reads back as (an `Other`
    /// holding a named number is not).
    pub open spec fn is_canonical(self) -> bool {
        Self::spec_from_int(self.spec_int()) == self
    }

    /// The number this value stands for.
    pub fn as_int(self) -> (r: u32)
        ensures
            r == self.spec_int(),
    {
        match self {
            MinFilter::Nearest => 9728,
            MinFilter::Linear => 9729,
            MinFilter::NearestMipmapNearest => 9984,
            MinFilter::LinearMipmapNearest => 9985,
            MinFilter::NearestMipmapLinear => 9986,
            MinFilter::LinearMipmapLinear => 9987,
            MinFilter::Other(n) => n,
        }
    }

    /// The value a number stands for.
    pub fn from_int(n: u32) -> (r: Self)
        ensures
            r == Self::spec_from_int(n),
    {
        if n == 9728 {
            MinFilter::Nearest
        } else if n == 9729 {
            MinFilter::Linear
        } else if n == 9984 {
            MinFilter::NearestMipmapNearest
        } else if n == 9985 {
            MinFilter::LinearMipmapNearest
        } else if n == 9986 {
            MinFilter::NearestMipmapLinear
        } else if n == 9987 {
            MinFilter::LinearMipmapLinear
        } else {
            MinFilter::Other(n)
        }
    }

    /// Every number reads back as itself.
    pub proof fn lemma_int_roundtrip(n: u32)
        ensures
            Self::spec_from_int(n).spec_int() == n,
    {
    }

    /// Every named value, and every `Other` that holds an unnamed number,
    /// reads back from its number as itself.
    pub proof fn lemma_value_roundtrip(v: Self)
        requires
            !(v matches MinFilter::Other(n) && (n == 9728 || n == 9729 || n == 9984 || n == 9985 || n == 9986 || n == 9987)),
        ensures
            Self::spec_from_int(v.spec_int()) == v,
    {
    }
}

/// The datatype of an accessor's components.
#[derive(Clone, Copy, Debug, PartialEq, Eq, Hash, PartialOrd, Ord, Structural)]
pub enum ComponentType {
    Byte,
    UnsignedByte,
    Short,
    UnsignedShort,
    UnsignedInt,
    Float,
    Other(u32),
}

impl ComponentType {
    /// The number this value stands for.
    pub open spec fn spec_int(self) -> u32 {
        match self {
            ComponentType::Byte => 5120,
            ComponentType::UnsignedByte => 5121,
            ComponentType::Short => 5122,
            ComponentType::UnsignedShort => 5123,
            ComponentType::UnsignedInt => 5125,
            ComponentType::Float => 5126,
            ComponentType::Other(n) => n,
        }
    }

    /// The value a number stands for.
    pub open spec fn spec_from_int(n: u32) -> Self {
        if n == 5120 {
            ComponentType::Byte
        } else if n == 5121 {
            ComponentType::UnsignedByte
        } else if n == 5122 {
            ComponentType::Short
        } else if n == 5123 {
            ComponentType::UnsignedShort
        } else if n == 5125 {
            ComponentType::UnsignedInt
        } else if n == 5126 {
            ComponentType::Float
        } else {
            ComponentType::Other(n)
        }
    }

    /// Whether this value is the one its number reads back as (an `Other`
    /// holding a named number is not).
    pub open spec fn is_canonical(self) -> bool {
        Self::spec_from_int(self.spec_int()) == self
    }

    /// The number this value stands for.
    pub fn as_int(self) -> (r: u32)
        ensures
            r == self.spec_int(),
    {
        match self {
            ComponentType::Byte => 5120,
            ComponentType::UnsignedByte => 5121,
            ComponentType::Short => 5122,
            ComponentType::UnsignedShort => 5123,
            ComponentType::UnsignedInt => 5125,
            ComponentType::Float => 5126,
            ComponentType::Other(n) => n,
        }
    }

    /// The value a number stands for.
    pub fn from_int(n: u32) -> (r: Self)
        ensures
            r == Self::spec_from_int(n),
    {
        if n == 5120 {
            ComponentType::Byte
        } else if n == 5121 {
            ComponentType::UnsignedByte
        } else if n == 5122 {
            ComponentType::Short
        } else if n == 5123 {
            ComponentType::UnsignedShort
        } else if n == 5125 {
            ComponentType::UnsignedInt
        } else if n == 5126 {
            ComponentType::Float
        } else {
            ComponentType::Other(n)
        }
    }

    /// Every number reads back as itself.
    pub proof fn lemma_int_roundtrip(n: u32)
        ensures
            Self::spec_from_int(n).spec_int() == n,
    {
    }

    /// Every named value, and every `Other` that holds an unnamed number,
    /// reads back from its number as itself.
    pub proof fn lemma_value_roundtrip(v: Self)
        requires
            !(v matches ComponentType::Other(n) && (n == 5120 || n == 5121 || n == 5122 || n == 5123 || n == 5125 || n == 5126)),
        ensures
            Self::spec_from_int(v.spec_int()) == v,
    {
    }
}

/// The topology of a primitive.
#[derive(Clone, Copy, Debug, PartialEq, Eq, Hash, PartialOrd, Ord, Structural)]
pub enum Mode {
    Points,
    Lines,
    LineLoop,
    LineStrip,
    Triangles,
    TriangleStrip,
    TriangleFan,
    Other(u32),
}

impl Mode {
    /// The number this value stands for.
    pub open spec fn spec_int(self) -> u32 {
        match self {
            Mode::Points => 0,
            Mode::Lines => 1,
            Mode::LineLoop => 2,
            Mode::LineStrip => 3,
            Mode::Triangles => 4,
            Mode::TriangleStrip => 5,
            Mode::TriangleFan => 6,
            Mode::Other(n) => n,
        }
    }

    /// The value a number stands for.
    pub open spec fn spec_from_int(n: u32) -> Self {
        if n == 0 {
            Mode::Points
        } else if n == 1 {
            Mode::Lines
        } else if n == 2 {
            Mode::LineLoop
        } else if n == 3 {
            Mode::LineStrip
        } else if n == 4 {
            Mode::Triangles
        } else if n == 5 {
            Mode::TriangleStrip
        } else if n == 6 {
            Mode::TriangleFan
        } else {
            Mode::Other(n)
        }
    }

    /// Whether this value is the one its number reads back as (an `Other`
    /// holding a named number is not).
    pub open spec fn is_canonical(self) -> bool {
        Self::spec_from_int(self.spec_int()) == self
    }

    /// The number this value stands for.
    pub fn as_int(self) -> (r: u32)
        ensures
            r == self.spec_int(),
    {
        match self {
            Mode::Points => 0,
            Mode::Lines => 1,
            Mode::LineLoop => 2,
            Mode::LineStrip => 3,
            Mode::Triangles => 4,
            Mode::TriangleStrip => 5,
            Mode::TriangleFan => 6,
            Mode::Other(n) => n,
        }
    }

    /// The value a number stands for.
    pub fn from_int(n: u32) -> (r: Self)
        ensures
            r == Self::spec_from_int(n),
    {
        if n == 0 {
            Mode::Points
        } else if n == 1 {
            Mode::Lines
        } else if n == 2 {
            Mode::LineLoop
        } else if n == 3 {
            Mode::LineStrip
        } else if n == 4 {
            Mode::Triangles
        } else if n == 5 {
            Mode::TriangleStrip
        } else if n == 6 {
            Mode::TriangleFan
        } else {
            Mode::Other(n)
        }
    }

    /// Every number reads back as itself.
    pub proof fn lemma_int_roundtrip(n: u32)
        ensures
            Self::spec_from_int(n).spec_int() == n,
    {
    }

    /// Every named value, and every `Other` that holds an unnamed number,
    /// reads back from its number as itself.
    pub proof fn lemma_value_roundtrip(v: Self)
        requires
            !(v matches Mode::Other(n) && (n == 0 || n == 1 || n == 2 || n == 3 || n == 4 || n == 5 || n == 6)),
        ensures
            Self::spec_from_int(v.spec_int()) == v,
    {
    }
}

/// The intended GPU buffer of a buffer view.
#[derive(Clone, Copy, Debug, PartialEq, Eq, Hash, PartialOrd, Ord, Structural)]
pub enum Target {
    ArrayBuffer,
    ElementArrayBuffer,
    Other(u32),
}

impl Target {
    /// The number this value stands for.
    pub open spec fn spec_int(self) -> u32 {
        match self {
            Target::ArrayBuffer => 34962,
            Target::ElementArrayBuffer => 34963,
            Target::Other(n) => n,
        }
    }

    /// The value a number stands for.
    pub open spec fn spec_from_int(n: u32) -> Self {
        if n == 34962 {
            Target::ArrayBuffer
        } else if n == 34963 {
            Target::ElementArrayBuffer
        } else {
            Target::Other(n)
        }
    }

    /// Whether this value is the one its number reads back as (an `Other`
    /// holding a named number is not).
    pub open spec fn is_canonical(self) -> bool {
        Self::spec_from_int(self.spec_int()) == self
    }

    /// The number this value stands for.
    pub fn as_int(self) -> (r: u32)
        ensures
            r == self.spec_int(),
    {
        match self {
            Target::ArrayBuffer => 34962,
            Target::ElementArrayBuffer => 34963,
            Target::Other(n) => n,
        }
    }

    /// The value a number stands for.
    pub fn from_int(n: u32) -> (r: Self)
        ensures
            r == Self::spec_from_int(n),
    {
        if n == 34962 {
            Target::ArrayBuffer
        } else if n == 34963 {
            Target::ElementArrayBuffer
        } else {
            Target::Other(n)
        }
    }

    /// Every number reads back as itself.
    pub proof fn lemma_int_roundtrip(n: u32)
        ensures
            Self::spec_from_int(n).spec_int() == n,
    {
    }

    /// Every named value, and every `Other` that holds an unnamed number,
    /// reads back from its number as itself.
    pub proof fn lemma_value_roundtrip(v: Self)
        requires
            !(v matches Target::Other(n) && (n == 34962 || n == 34963)),
        ensures
            Self::spec_from_int(v.spec_int()) == v,
    {
    }
}

/// Whether an accessor's elements are scalars, vectors or matrices.
#[derive(Clone, Debug, PartialEq, Eq, Hash, PartialOrd, Ord)]
pub enum Type {
    Scalar,
    Vec2,
    Vec3,
    Vec4,
    Mat2,
    Mat3,
    Mat4,
    Other(String),
}

impl Type {
    /// The text this value stands for.
    pub open spec fn spec_str(&self) -> Seq<char> {
        match self {
            Type::Scalar => "SCALAR"@,
            Type::Vec2 => "VEC2"@,
            Type::Vec3 => "VEC3"@,
            Type::Vec4 => "VEC4"@,
            Type::Mat2 => "MAT2"@,
            Type::Mat3 => "MAT3"@,
            Type::Mat4 => "MAT4"@,
            Type::Other(s) => s@,
        }
    }

    /// The value a text stands for (its `Other` holds the text).
    pub open spec fn spec_from_str(s: Seq<char>) -> Seq<char> {
        s
    }

    /// Whether the value has a name in the specification.
    pub open spec fn is_named(s: Seq<char>) -> bool {
        s == "SCALAR"@ || s == "VEC2"@ || s == "VEC3"@ || s == "VEC4"@ || s == "MAT2"@ || s == "MAT3"@ || s == "MAT4"@
    }

    /// The text this value stands for.
    pub fn as_str(&self) -> (r: &str)
        ensures
            r@ == self.spec_str(),
    {
        match self {
            Type::Scalar => "SCALAR",
            Type::Vec2 => "VEC2",
            Type::Vec3 => "VEC3",
            Type::Vec4 => "VEC4",
            Type::Mat2 => "MAT2",
            Type::Mat3 => "MAT3",
            Type::Mat4 => "MAT4",
            Type::Other(s) => s.as_str(),
        }
    }

    /// The value a text stands for: the named value whose text it is, or
    /// an `Other` holding it.
    pub fn from_str_open(s: &str) -> (r: Self)
        ensures
            r.spec_str() == s@,
            s@ == "SCALAR"@ <==> r == Type::Scalar,
            s@ == "VEC2"@ <==> r == Type::Vec2,
            s@ == "VEC3"@ <==> r == Type::Vec3,
            s@ == "VEC4"@ <==> r == Type::Vec4,
            s@ == "MAT2"@ <==> r == Type::Mat2,
            s@ == "MAT3"@ <==> r == Type::Mat3,
            s@ == "MAT4"@ <==> r == Type::Mat4,
            r is Other <==> !Self::is_named(s@),
    {
        proof {
            reveal_strlit("SCALAR");
            reveal_strlit("VEC2");
            reveal_strlit("VEC3");
            reveal_strlit("VEC4");
            reveal_strlit("MAT2");
            reveal_strlit("MAT3");
            reveal_strlit("MAT4");
            assert("SCALAR"@.len() != "VEC2"@.len());
            assert("SCALAR"@.len() != "VEC3"@.len());
            assert("SCALAR"@.len() != "VEC4"@.len());
            assert("SCALAR"@.len() != "MAT2"@.len());
            assert("SCALAR"@.len() != "MAT3"@.len());
            assert("SCALAR"@.len() != "MAT4"@.len());
            assert("VEC2"@[3] != "VEC3"@[3]);
            assert("VEC2"@[3] != "VEC4"@[3]);
            assert("VEC2"@[0] != "MAT2"@[0]);
            assert("VEC2"@[0] != "MAT3"@[0]);
            assert("VEC2"@[0] != "MAT4"@[0]);
            assert("VEC3"@[3] != "VEC4"@[3]);
            assert("VEC3"@[0] != "MAT2"@[0]);
            assert("VEC3"@[0] != "MAT3"@[0]);
            assert("VEC3"@[0] != "MAT4"@[0]);
            assert("VEC4"@[0] != "MAT2"@[0]);
            assert("VEC4"@[0] != "MAT3"@[0]);
            assert("VEC4"@[0] != "MAT4"@[0]);
            assert("MAT2"@[3] != "MAT3"@[3]);
            assert("MAT2"@[3] != "MAT4"@[3]);
            assert("MAT3"@[3] != "MAT4"@[3]);
        }
        if str_equal(s, "SCALAR") {
            return Type::Scalar;
        }
        if str_equal(s, "VEC2") {
            return Type::Vec2;
        }
        if str_equal(s, "VEC3") {
            return Type::Vec3;
        }
        if str_equal(s, "VEC4") {
            return Type::Vec4;
        }
        if str_equal(s, "MAT2") {
            return Type::Mat2;
        }
        if str_equal(s, "MAT3") {
            return Type::Mat3;
        }
        if str_equal(s, "MAT4") {
            return Type::Mat4;
        }
        Type::Other(s.to_owned())
    }
}

/// The media type of an image.
#[derive(Clone, Debug, PartialEq, Eq, Hash, PartialOrd, Ord)]
pub enum MimeType {
    Jpeg,
    Png,
    Other(String),
}

impl MimeType {
    /// The text this value stands for.
    pub open spec fn spec_str(&self) -> Seq<char> {
        match self {
            MimeType::Jpeg => "image/jpeg"@,
            MimeType::Png => "image/png"@,
            MimeType::Other(s) => s@,
        }
    }

    /// The value a text stands for (its `Other` holds the text).
    pub open spec fn spec_from_str(s: Seq<char>) -> Seq<char> {
        s
    }

    /// Whether the value has a name in the specification.
    pub open spec fn is_named(s: Seq<char>) -> bool {
        s == "image/jpeg"@ || s == "image/png"@
    }

    /// The text this value stands for.
    pub fn as_str(&self) -> (r: &str)
        ensures
            r@ == self.spec_str(),
    {
        match self {
            MimeType::Jpeg => "image/jpeg",
            MimeType::Png => "image/png",
            MimeType::Other(s) => s.as_str(),
        }
    }

    /// The value a text stands for: the named value whose text it is, or
    /// an `Other` holding it.
    pub fn from_str_open(s: &str) -> (r: Self)
        ensures
            r.spec_str() == s@,
            s@ == "image/jpeg"@ <==> r == MimeType::Jpeg,
            s@ == "image/png"@ <==> r == MimeType::Png,
            r is Other <==> !Self::is_named(s@),
    {
        proof {
            reveal_strlit("image/jpeg");
            reveal_strlit("image/png");
            assert("image/jpeg"@.len() != "image/png"@.len());
        }
        if str_equal(s, "image/jpeg") {
            return MimeType::Jpeg;
        }
        if str_equal(s, "image/png") {
            return MimeType::Png;
        }
        MimeType::Other(s.to_owned())
    }
}

/// How the alpha channel of a material is interpreted.
#[derive(Clone, Debug, PartialEq, Eq, Hash, PartialOrd, Ord)]
pub enum AlphaMode {
    Opaque,
    Mask,
    Blend,
    Other(String),
}

impl AlphaMode {
    /// The text this value stands for.
    pub open spec fn spec_str(&self) -> Seq<char> {
        match self {
            AlphaMode::Opaque => "OPAQUE"@,
            AlphaMode::Mask => "MASK"@,
            AlphaMode::Blend => "BLEND"@,
            AlphaMode::Other(s) => s@,
        }
    }

    /// The value a text stands for (its `Other` holds the text).
    pub open spec fn spec_from_str(s: Seq<char>) -> Seq<char> {
        s
    }

    /// Whether the value has a name in the specification.
    pub open spec fn is_named(s: Seq<char>) -> bool {
        s == "OPAQUE"@ || s == "MASK"@ || s == "BLEND"@
    }

    /// The text this value stands for.
    pub fn as_str(&self) -> (r: &str)
        ensures
            r@ == self.spec_str(),
    {
        match self {
            AlphaMode::Opaque => "OPAQUE",
            AlphaMode::Mask => "MASK",
            AlphaMode::Blend => "BLEND",
            AlphaMode::Other(s) => s.as_str(),
        }
    }

    /// The value a text stands for: the named value whose text it is, or
    /// an `Other` holding it.
    pub fn from_str_open(s: &str) -> (r: Self)
        ensures
            r.spec_str() == s@,
            s@ == "OPAQUE"@ <==> r == AlphaMode::Opaque,
            s@ == "MASK"@ <==> r == AlphaMode::Mask,
            s@ == "BLEND"@ <==> r == AlphaMode::Blend,
            r is Other <==> !Self::is_named(s@),
    {
        proof {
            reveal_strlit("OPAQUE");
            reveal_strlit("MASK");
            reveal_strlit("BLEND");
            assert("OPAQUE"@.len() != "MASK"@.len());
            assert("OPAQUE"@.len() != "BLEND"@.len());
            assert("MASK"@.len() != "BLEND"@.len());
        }
        if str_equal(s, "OPAQUE") {
            return AlphaMode::Opaque;
        }
        if str_equal(s, "MASK") {
            return AlphaMode::Mask;
        }
        if str_equal(s, "BLEND") {
            return AlphaMode::Blend;
        }
        AlphaMode::Other(s.to_owned())
    }
}

impl ComponentType {
    /// Size in bytes of one component; `None` for an unknown datatype.
    pub open spec fn spec_byte_size(&self) -> Option<u8> {
        match self {
            ComponentType::Byte | ComponentType::UnsignedByte => Some(1),
            ComponentType::Short | ComponentType::UnsignedShort => Some(2),
            ComponentType::UnsignedInt => Some(4),
            ComponentType::Float => Some(4),
            ComponentType::Other(_) => None,
        }
    }

    /// Size in bytes of one component; `None` for an unknown datatype.
    pub fn byte_size(&self) -> (r: Option<u8>)
        ensures
            r == self.spec_byte_size(),
    {
        match self {
            ComponentType::Byte | ComponentType::UnsignedByte => Some(1),
            ComponentType::Short | ComponentType::UnsignedShort => Some(2),
            ComponentType::UnsignedInt => Some(4),
            ComponentType::Float => Some(4),
            ComponentType::Other(_) => None,
        }
    }
}

impl Type {
    /// Number of components in one element; `None` for an unknown type.
    pub open spec fn spec_component_count(&self) -> Option<u8> {
        match self {
            Type::Scalar => Some(1),
            Type::Vec2 => Some(2),
            Type::Vec3 => Some(3),
            Type::Vec4 => Some(4),
            Type::Mat2 => Some(4),
            Type::Mat3 => Some(9),
            Type::Mat4 => Some(16),
            Type::Other(_) => None,
        }
    }

    /// Number of components in one element; `None` for an unknown type.
    pub fn component_count(&self) -> (r: Option<u8>)
        ensures
            r == self.spec_component_count(),
    {
        match self {
            Type::Scalar => Some(1),
            Type::Vec2 => Some(2),
            Type::Vec3 => Some(3),
            Type::Vec4 => Some(4),
            Type::Mat2 => Some(4),
            Type::Mat3 => Some(9),
            Type::Mat4 => Some(16),
            Type::Other(_) => None,
        }
    }
}

impl Default for AlphaMode {
    fn default() -> (r: Self)
        ensures
            r == AlphaMode::Opaque,
    {
        AlphaMode::Opaque
    }
}

} // verus!
