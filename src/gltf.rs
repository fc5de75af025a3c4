//! The vocabulary of the interchange document that meshes are exported to:
//! index types, enumerations and the numbers and names that stand for them.

use vstd::prelude::*;

verus! {

/// A position in the document's list of that kind.
#[derive(Clone, Copy, Debug, PartialEq, Eq, Structural)]
pub struct AccessorIndex(pub usize);

/// A position in the document's list of that kind.
#[derive(Clone, Copy, Debug, PartialEq, Eq, Structural)]
pub struct BufferIndex(pub usize);

/// A position in the document's list of that kind.
#[derive(Clone, Copy, Debug, PartialEq, Eq, Structural)]
pub struct BufferViewIndex(pub usize);

/// A position in the document's list of that kind.
#[derive(Clone, Copy, Debug, PartialEq, Eq, Structural)]
pub struct ImageIndex(pub usize);

/// A position in the document's list of that kind.
#[derive(Clone, Copy, Debug, PartialEq, Eq, Structural)]
pub struct MaterialIndex(pub usize);

/// A position in the document's list of that kind.
#[derive(Clone, Copy, Debug, PartialEq, Eq, Structural)]
pub struct MeshIndex(pub usize);

/// A position in the document's list of that kind.
#[derive(Clone, Copy, Debug, PartialEq, Eq, Structural)]
pub struct NodeIndex(pub usize);

/// A position in the document's list of that kind.
#[derive(Clone, Copy, Debug, PartialEq, Eq, Structural)]
pub struct SamplerIndex(pub usize);

/// A position in the document's list of that kind.
#[derive(Clone, Copy, Debug, PartialEq, Eq, Structural)]
pub struct SceneIndex(pub usize);

/// A position in the document's list of that kind.
#[derive(Clone, Copy, Debug, PartialEq, Eq, Structural)]
pub struct SkinIndex(pub usize);

/// A position in the document's list of that kind.
#[derive(Clone, Copy, Debug, PartialEq, Eq, Structural)]
pub struct TextureIndex(pub usize);

#[derive(Clone, Copy, Debug, PartialEq, Eq, Structural)]
pub enum AccessorComponentType {
    Byte,
    UnsignedByte,
    Short,
    UnsignedShort,
    UnsignedInt,
    Float,
}

impl AccessorComponentType {
    /// The number that stands for the component type in a document.
    pub fn code(&self) -> (r: u32)
        ensures
            r == match *self {
                AccessorComponentType::Byte => 5120u32,
                AccessorComponentType::UnsignedByte => 5121,
                AccessorComponentType::Short => 5122,
                AccessorComponentType::UnsignedShort => 5123,
                AccessorComponentType::UnsignedInt => 5125,
                AccessorComponentType::Float => 5126,
            },
    {
        match self {
            AccessorComponentType::Byte => 5120,
            AccessorComponentType::UnsignedByte => 5121,
            AccessorComponentType::Short => 5122,
            AccessorComponentType::UnsignedShort => 5123,
            AccessorComponentType::UnsignedInt => 5125,
            AccessorComponentType::Float => 5126,
        }
    }
}

#[derive(Clone, Copy, Debug, PartialEq, Eq, Structural)]
pub enum AccessorType {
    Scalar,
    Vec2,
    Vec3,
    Vec4,
    Mat2,
    Mat3,
    Mat4,
}

impl AccessorType {
    /// The name that stands for the element type in a document.
    pub fn name(&self) -> (r: &'static str)
        ensures
            r@ == match *self {
                AccessorType::Scalar => "SCALAR"@,
                AccessorType::Vec2 => "VEC2"@,
                AccessorType::Vec3 => "VEC3"@,
                AccessorType::Vec4 => "VEC4"@,
                AccessorType::Mat2 => "MAT2"@,
                AccessorType::Mat3 => "MAT3"@,
                AccessorType::Mat4 => "MAT4"@,
            },
    {
        match self {
            AccessorType::Scalar => "SCALAR",
            AccessorType::Vec2 => "VEC2",
            AccessorType::Vec3 => "VEC3",
            AccessorType::Vec4 => "VEC4",
            AccessorType::Mat2 => "MAT2",
            AccessorType::Mat3 => "MAT3",
            AccessorType::Mat4 => "MAT4",
        }
    }
}

/// A vertex attribute of a mesh primitive; the numbered ones carry their set.
#[derive(Clone, Copy, Debug, PartialEq, Eq, Structural)]
pub enum MeshAttribute {
    Position,
    Normal,
    Tangent,
    Texcoord(usize),
    Color(usize),
    Joints(usize),
    Weights(usize),
}

#[derive(Clone, Copy, Debug, PartialEq, Eq, Structural)]
pub enum MeshPrimitiveMode {
    Points,
    Lines,
    LineLoop,
    LineStrip,
    Triangles,
    TriangleStrip,
    TriangleFan,
}

impl MeshPrimitiveMode {
    /// The number that stands for the mode in a document.
    pub fn code(&self) -> (r: u8)
        ensures
            r == match *self {
                MeshPrimitiveMode::Points => 0u8,
                MeshPrimitiveMode::Lines => 1,
                MeshPrimitiveMode::LineLoop => 2,
                MeshPrimitiveMode::LineStrip => 3,
                MeshPrimitiveMode::Triangles => 4,
                MeshPrimitiveMode::TriangleStrip => 5,
                MeshPrimitiveMode::TriangleFan => 6,
            },
    {
        match self {
            MeshPrimitiveMode::Points => 0,
            MeshPrimitiveMode::Lines => 1,
            MeshPrimitiveMode::LineLoop => 2,
            MeshPrimitiveMode::LineStrip => 3,
            MeshPrimitiveMode::Triangles => 4,
            MeshPrimitiveMode::TriangleStrip => 5,
            MeshPrimitiveMode::TriangleFan => 6,
        }
    }
}

#[derive(Clone, Copy, Debug, PartialEq, Eq, Structural)]
pub enum SamplerMagFilter {
    Nearest,
    Linear,
}

impl SamplerMagFilter {
    pub fn code(&self) -> (r: u32)
        ensures
            r == match *self {
                SamplerMagFilter::Nearest => 9728u32,
                SamplerMagFilter::Linear => 9729,
            },
    {
        match self {
            SamplerMagFilter::Nearest => 9728,
            SamplerMagFilter::Linear => 9729,
        }
    }
}

#[derive(Clone, Copy, Debug, PartialEq, Eq, Structural)]
pub enum SamplerMinFilter {
    Nearest,
    Linear,
    NearestMipmapNearest,
    LinearMipmapNearest,
    NearestMipmapLinear,
    LinearMipmapLinear,
}

impl SamplerMinFilter {
    pub fn code(&self) -> (r: u32)
        ensures
            r == match *self {
                SamplerMinFilter::Nearest => 9728u32,
                SamplerMinFilter::Linear => 9729,
                SamplerMinFilter::NearestMipmapNearest => 9984,
                SamplerMinFilter::LinearMipmapNearest => 9985,
                SamplerMinFilter::NearestMipmapLinear => 9986,
                SamplerMinFilter::LinearMipmapLinear => 9987,
            },
    {
        match self {
            SamplerMinFilter::Nearest => 9728,
            SamplerMinFilter::Linear => 9729,
            SamplerMinFilter::NearestMipmapNearest => 9984,
            SamplerMinFilter::LinearMipmapNearest => 9985,
            SamplerMinFilter::NearestMipmapLinear => 9986,
            SamplerMinFilter::LinearMipmapLinear => 9987,
        }
    }
}

#[derive(Clone, Copy, Debug, PartialEq, Eq, Structural)]
pub enum SamplerWrap {
    ClampToEdge,
    MirroredRepeat,
    Repeat,
}

impl SamplerWrap {
    pub fn code(&self) -> (r: u32)
        ensures
            r == match *self {
                SamplerWrap::ClampToEdge => 33071u32,
                SamplerWrap::MirroredRepeat => 33648,
                SamplerWrap::Repeat => 10497,
            },
    {
        match self {
            SamplerWrap::ClampToEdge => 33071,
            SamplerWrap::MirroredRepeat => 33648,
            SamplerWrap::Repeat => 10497,
        }
    }
}

/// The format version a document declares.
#[derive(Clone, Copy, Debug, PartialEq, Eq, Structural)]
pub struct Version;

impl Version {
    pub fn name(&self) -> (r: &'static str)
        ensures
            r@ == "2.0"@,
    {
        "2.0"
    }
}

pub struct Asset {
    pub version: Version,
}

pub struct Buffer {
    pub byte_length: usize,
    pub uri: String,
}

pub struct BufferView {
    pub buffer: BufferIndex,
    pub byte_offset: usize,
    pub byte_length: usize,
    pub byte_stride: Option<usize>,
}

pub struct Image {
    pub uri: Option<String>,
    pub mime_type: Option<String>,
    pub buffer_view: Option<BufferViewIndex>,
}

pub struct MeshPrimitive {
    pub mode: MeshPrimitiveMode,
    pub indices: AccessorIndex,
    pub attributes: Vec<(MeshAttribute, AccessorIndex)>,
    pub material: Option<MaterialIndex>,
}

pub struct Mesh {
    pub primitives: Vec<MeshPrimitive>,
}

pub struct Sampler {
    pub mag_filter: SamplerMagFilter,
    pub min_filter: SamplerMinFilter,
    pub wrap_s: SamplerWrap,
    pub wrap_t: SamplerWrap,
}

pub struct Scene {
    pub name: String,
    pub nodes: Vec<NodeIndex>,
}

pub struct Skin {
    pub inverse_bind_matrices: Option<AccessorIndex>,
    pub skeleton: Option<NodeIndex>,
    pub joints: Vec<NodeIndex>,
}

pub struct Texture {
    pub sampler: Option<SamplerIndex>,
    pub source: Option<ImageIndex>,
}

pub struct TextureInfo {
    pub index: TextureIndex,
    pub tex_coord: Option<usize>,
}

} // verus!
