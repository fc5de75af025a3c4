//! The errors that decoding can end in.

use vstd::prelude::*;

verus! {

/// Which field of a record held a value that the decoder does not accept.
#[derive(Clone, Copy, Debug, PartialEq, Eq, Structural)]
pub enum Field {
    ArchiveVersion,
    ArchiveReserved,
    Compression,
    FileEntryFlags,
    GameCode,
    MakerCode,
    DiscId,
    DiscVersion,
    ModelMagic,
    ModelVersion,
    ModelSections,
    MaterialOffsets,
    SurfaceMaterial,
    CharacterSetVersion,
    AnimationResourceVersion,
    CharacterVersion,
    AnimationSetVersion,
    AnimationSetCount,
    StateDatabaseTag,
    ParmKind,
    MetaAnimationKind,
    MetaAnimationDepth,
    MetaTransitionKind,
    PrimitiveType,
    VertexCount,
    PaletteShape,
    Skeleton,
}

/// The ways in which decoding a resource can fail.
#[derive(Clone, Copy, Debug, PartialEq, Eq, Structural)]
pub enum Error {
    /// The reader ran past the end of its bytes.
    Truncated,
    /// A string held a byte of 0x80 or above.
    NonAsciiByte,
    /// A magic number, version, tag or opcode held an unexpected value.
    UnexpectedFormat { context: Field, value: u32 },
    /// A compressed resource did not inflate to its declared size.
    CorruptArchive,
    /// A recognised pixel or vertex format that is not implemented.
    UnsupportedFormat,
    /// No resource or entry with the requested id.
    MissingResource,
    /// The vertex counts of a skin's groups do not add up to its declared total.
    InconsistentSkin,
    /// A surface needs more distinct vertices than a 16-bit index can address.
    IndexOverflow,
}

} // verus!
