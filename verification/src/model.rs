//! Data model for the property tree held by a GVAS save file.
//!
//! Every value carries enough information to re-serialize itself exactly as
//! it appeared on the wire; properties whose type tag the decoder does not
//! recognize are kept as opaque byte blobs together with the tag that
//! introduced them.

use vstd::prelude::*;

verus! {

/// A length-prefixed string as stored in a GVAS stream.
///
/// A positive length prefix introduces UTF-8 code units followed by one NUL
/// byte; a negative prefix introduces UTF-16LE code units followed by one NUL
/// unit; a zero prefix is an empty string with no payload at all.  The three
/// cases are kept apart so that re-encoding reproduces the original bytes:
/// `Empty` and `Utf8` of an empty vector serialize differently.
#[derive(Clone, Debug, PartialEq, Eq)]
pub enum GvasString {
    Empty,
    Utf8(Vec<u8>),
    Utf16(Vec<u16>),
}

/// A 16-byte GUID, stored as raw bytes with no byte swapping.
#[derive(Clone, Debug, PartialEq, Eq)]
pub struct Guid {
    pub bytes: Vec<u8>,
}

/// The property type tags the decoder understands structurally.
#[derive(Clone, Copy, Debug, PartialEq, Eq, Structural)]
pub enum TagKind {
    Int8,
    Int16,
    Int32,
    Int64,
    Byte,
    UInt16,
    UInt32,
    UInt64,
    Float,
    Double,
    Boolean,
    Str,
    NameStr,
    ObjectRef,
    Enumeration,
    Structure,
    ArrayOf,
    SetOf,
    MapOf,
    Text,
}

/// A fixed-width or string-valued payload.  Floating-point payloads are kept
/// as their IEEE-754 bit patterns, which is exactly what the wire holds.
#[derive(Clone, Debug, PartialEq, Eq)]
pub enum PrimitiveValue {
    Int8(i8),
    Int16(i16),
    Int32(i32),
    Int64(i64),
    Byte(u8),
    UInt16(u16),
    UInt32(u32),
    UInt64(u64),
    Float32 { bits: u32 },
    Float64 { bits: u64 },
    Bool(bool),
    Str(GvasString),
    Name(GvasString),
}

/// The tag block of a property whose payload is carried verbatim.  The
/// descriptor strings are kept exactly as read so that re-encoding is
/// byte-identical.
#[derive(Clone, Debug, PartialEq, Eq)]
pub enum RawTag {
    /// A type name the decoder does not recognize at all.
    Other { name: GvasString },
    Structure { stype: GvasString, guid: Guid },
    ArrayOf { elem: GvasString },
    SetOf { elem: GvasString },
    MapOf { ktag: GvasString, vtag: GvasString },
    Enumeration { etype: GvasString },
}

/// One key/value pair of a decoded map property.
#[derive(Debug, PartialEq, Eq)]
pub struct MapPair {
    pub key: PropertyValue,
    pub value: PropertyValue,
}

/// One decoded property value.
#[derive(Debug, PartialEq, Eq)]
pub enum PropertyValue {
    Scalar(PrimitiveValue),
    /// An object path reference, carried as an opaque string.
    Object(GvasString),
    Enum { etype: GvasString, value: GvasString },
    /// A localized-text payload: a flags word, a history discriminator and
    /// the strings attached to it.
    Text { flags: u32, variant: u8, strings: Vec<GvasString> },
    Struct { stype: GvasString, guid: Guid, fields: PropertyMap },
    Array { elem: TagKind, items: Vec<PropertyValue> },
    SetOf { elem: TagKind, items: Vec<PropertyValue> },
    MapOf { ktag: TagKind, vtag: TagKind, pairs: Vec<MapPair> },
    /// A payload kept as raw bytes: either its type tag is unknown, or its
    /// declared length did not match its structural content.
    Opaque { tag: RawTag, bytes: Vec<u8> },
}

/// One named property.
#[derive(Debug, PartialEq, Eq)]
pub struct Entry {
    pub name: GvasString,
    pub value: PropertyValue,
}

/// An insertion-ordered association of property names to values.  On-stream
/// order is semantically meaningful, so entries are kept as a sequence.
#[derive(Debug, PartialEq, Eq)]
pub struct PropertyMap {
    pub entries: Vec<Entry>,
}

/// Engine version metadata from the save-file header.
#[derive(Clone, Debug, PartialEq, Eq)]
pub struct EngineVersion {
    pub major: u16,
    pub minor: u16,
    pub patch: u16,
    pub changelist: u32,
    pub branch: GvasString,
}

/// One custom-format version record: a GUID and a version number.
#[derive(Clone, Debug, PartialEq, Eq)]
pub struct CustomVersion {
    pub guid: Guid,
    pub version: u32,
}

/// A fully decoded save file: header metadata plus the root property map.
#[derive(Debug, PartialEq, Eq)]
pub struct SaveFile {
    pub save_game_version: u32,
    pub package_version: u32,
    pub engine: EngineVersion,
    pub custom_versions: Vec<CustomVersion>,
    pub root: PropertyMap,
}

} // verus!
