//! The wire format of a GVAS stream, as specification functions.
//!
//! `enc_save` is the byte image of a whole save file; the decoder's central
//! guarantee is that every value it returns re-encodes, through these
//! functions, to exactly the bytes it consumed.

use vstd::prelude::*;
use crate::model::{
    CustomVersion, Entry, GvasString, Guid, MapPair, PrimitiveValue, PropertyValue, RawTag, SaveFile,
    TagKind,
};

verus! {

/// Little-endian byte image of a 16-bit value.
pub open spec fn le16(v: u16) -> Seq<u8> {
    seq![(v & 0xff) as u8, ((v >> 8) & 0xff) as u8]
}

/// Little-endian byte image of a 32-bit value.
pub open spec fn le32(v: u32) -> Seq<u8> {
    seq![
        (v & 0xff) as u8,
        ((v >> 8) & 0xff) as u8,
        ((v >> 16) & 0xff) as u8,
        ((v >> 24) & 0xff) as u8,
    ]
}

/// Little-endian byte image of a 64-bit value.
pub open spec fn le64(v: u64) -> Seq<u8> {
    seq![
        (v & 0xff) as u8,
        ((v >> 8) & 0xff) as u8,
        ((v >> 16) & 0xff) as u8,
        ((v >> 24) & 0xff) as u8,
        ((v >> 32) & 0xff) as u8,
        ((v >> 40) & 0xff) as u8,
        ((v >> 48) & 0xff) as u8,
        ((v >> 56) & 0xff) as u8,
    ]
}

/// The unsigned bit pattern of a signed byte.
pub open spec fn u8_of_i8(v: i8) -> u8 {
    if v >= 0 { v as u8 } else { (v + 256) as u8 }
}

/// The unsigned bit pattern of a signed 16-bit value.
pub open spec fn u16_of_i16(v: i16) -> u16 {
    if v >= 0 { v as u16 } else { (v + 0x10000) as u16 }
}

/// The unsigned bit pattern of a signed 32-bit value.
pub open spec fn u32_of_i32(v: i32) -> u32 {
    if v >= 0 { v as u32 } else { (v + 0x1_0000_0000) as u32 }
}

/// The unsigned bit pattern of a signed 64-bit value.
pub open spec fn u64_of_i64(v: i64) -> u64 {
    if v >= 0 { v as u64 } else { (v + 0x1_0000_0000_0000_0000) as u64 }
}

/// The signed reading of a byte.
pub open spec fn i8_of_u8(v: u8) -> i8 {
    if v < 0x80 { v as i8 } else { (v - 256) as i8 }
}

/// The signed reading of a 16-bit pattern.
pub open spec fn i16_of_u16(v: u16) -> i16 {
    if v < 0x8000 { v as i16 } else { (v - 0x10000) as i16 }
}

/// The signed reading of a 32-bit pattern.
pub open spec fn i32_of_u32(v: u32) -> i32 {
    if v < 0x8000_0000 { v as i32 } else { (v - 0x1_0000_0000) as i32 }
}

/// The signed reading of a 64-bit pattern.
pub open spec fn i64_of_u64(v: u64) -> i64 {
    if v < 0x8000_0000_0000_0000 { v as i64 } else { (v - 0x1_0000_0000_0000_0000) as i64 }
}

/// The UTF-16LE byte image of a sequence of code units.
pub open spec fn utf16_bytes(u: Seq<u16>) -> Seq<u8>
    decreases u.len(),
{
    if u.len() == 0 {
        Seq::empty()
    } else {
        le16(u[0]) + utf16_bytes(u.drop_first())
    }
}

/// The byte image of a UTF-8 string: signed positive length prefix counting
/// the content bytes plus one trailing NUL, then the content, then the NUL.
pub open spec fn enc_str_utf8(b: Seq<u8>) -> Seq<u8> {
    le32((b.len() + 1) as u32) + b + seq![0u8]
}

/// The byte image of a UTF-16LE string: a negative length prefix whose
/// magnitude counts the code units plus one trailing NUL unit.
pub open spec fn enc_str_utf16(u: Seq<u16>) -> Seq<u8> {
    le32((0x1_0000_0000 - (u.len() + 1)) as u32) + utf16_bytes(u) + seq![0u8, 0u8]
}

/// The byte image of a length-prefixed string.
pub open spec fn enc_str(s: GvasString) -> Seq<u8> {
    match s {
        GvasString::Empty => le32(0),
        GvasString::Utf8(b) => enc_str_utf8(b@),
        GvasString::Utf16(u) => enc_str_utf16(u@),
    }
}

/// The bytes of the property-stream terminator name.
pub open spec fn none_name() -> Seq<u8> {
    seq![78u8, 111u8, 110u8, 101u8]
}

/// Whether a name is the stream terminator.
pub open spec fn is_none_name(s: GvasString) -> bool {
    s matches GvasString::Utf8(b) && b@ == none_name()
}

/// The byte image of the stream terminator.
pub open spec fn sentinel() -> Seq<u8> {
    enc_str_utf8(none_name())
}

/// The on-stream name of each recognized type tag, as bytes.
pub open spec fn tag_name(k: TagKind) -> Seq<u8> {
    match k {
        TagKind::Int8 => seq![73u8, 110u8, 116u8, 56u8, 80u8, 114u8, 111u8, 112u8, 101u8, 114u8, 116u8, 121u8],
        TagKind::Int16 => seq![73u8, 110u8, 116u8, 49u8, 54u8, 80u8, 114u8, 111u8, 112u8, 101u8, 114u8, 116u8, 121u8],
        TagKind::Int32 => seq![73u8, 110u8, 116u8, 80u8, 114u8, 111u8, 112u8, 101u8, 114u8, 116u8, 121u8],
        TagKind::Int64 => seq![73u8, 110u8, 116u8, 54u8, 52u8, 80u8, 114u8, 111u8, 112u8, 101u8, 114u8, 116u8, 121u8],
        TagKind::Byte => seq![66u8, 121u8, 116u8, 101u8, 80u8, 114u8, 111u8, 112u8, 101u8, 114u8, 116u8, 121u8],
        TagKind::UInt16 => seq![85u8, 73u8, 110u8, 116u8, 49u8, 54u8, 80u8, 114u8, 111u8, 112u8, 101u8, 114u8, 116u8, 121u8],
        TagKind::UInt32 => seq![85u8, 73u8, 110u8, 116u8, 51u8, 50u8, 80u8, 114u8, 111u8, 112u8, 101u8, 114u8, 116u8, 121u8],
        TagKind::UInt64 => seq![85u8, 73u8, 110u8, 116u8, 54u8, 52u8, 80u8, 114u8, 111u8, 112u8, 101u8, 114u8, 116u8, 121u8],
        TagKind::Float => seq![70u8, 108u8, 111u8, 97u8, 116u8, 80u8, 114u8, 111u8, 112u8, 101u8, 114u8, 116u8, 121u8],
        TagKind::Double => seq![68u8, 111u8, 117u8, 98u8, 108u8, 101u8, 80u8, 114u8, 111u8, 112u8, 101u8, 114u8, 116u8, 121u8],
        TagKind::Boolean => seq![66u8, 111u8, 111u8, 108u8, 80u8, 114u8, 111u8, 112u8, 101u8, 114u8, 116u8, 121u8],
        TagKind::Str => seq![83u8, 116u8, 114u8, 80u8, 114u8, 111u8, 112u8, 101u8, 114u8, 116u8, 121u8],
        TagKind::NameStr => seq![78u8, 97u8, 109u8, 101u8, 80u8, 114u8, 111u8, 112u8, 101u8, 114u8, 116u8, 121u8],
        TagKind::ObjectRef => seq![79u8, 98u8, 106u8, 101u8, 99u8, 116u8, 80u8, 114u8, 111u8, 112u8, 101u8, 114u8, 116u8, 121u8],
        TagKind::Enumeration => seq![69u8, 110u8, 117u8, 109u8, 80u8, 114u8, 111u8, 112u8, 101u8, 114u8, 116u8, 121u8],
        TagKind::Structure => seq![83u8, 116u8, 114u8, 117u8, 99u8, 116u8, 80u8, 114u8, 111u8, 112u8, 101u8, 114u8, 116u8, 121u8],
        TagKind::ArrayOf => seq![65u8, 114u8, 114u8, 97u8, 121u8, 80u8, 114u8, 111u8, 112u8, 101u8, 114u8, 116u8, 121u8],
        TagKind::SetOf => seq![83u8, 101u8, 116u8, 80u8, 114u8, 111u8, 112u8, 101u8, 114u8, 116u8, 121u8],
        TagKind::MapOf => seq![77u8, 97u8, 112u8, 80u8, 114u8, 111u8, 112u8, 101u8, 114u8, 116u8, 121u8],
        TagKind::Text => seq![84u8, 101u8, 120u8, 116u8, 80u8, 114u8, 111u8, 112u8, 101u8, 114u8, 116u8, 121u8],
    }
}

/// Builds the byte string of a recognized type tag.
pub fn tag_name_vec(k: TagKind) -> (r: Vec<u8>)
    ensures
        r@ == tag_name(k),
{
    let r: Vec<u8> = match k {
        TagKind::Int8 => vec![73u8, 110u8, 116u8, 56u8, 80u8, 114u8, 111u8, 112u8, 101u8, 114u8, 116u8, 121u8],
        TagKind::Int16 => vec![73u8, 110u8, 116u8, 49u8, 54u8, 80u8, 114u8, 111u8, 112u8, 101u8, 114u8, 116u8, 121u8],
        TagKind::Int32 => vec![73u8, 110u8, 116u8, 80u8, 114u8, 111u8, 112u8, 101u8, 114u8, 116u8, 121u8],
        TagKind::Int64 => vec![73u8, 110u8, 116u8, 54u8, 52u8, 80u8, 114u8, 111u8, 112u8, 101u8, 114u8, 116u8, 121u8],
        TagKind::Byte => vec![66u8, 121u8, 116u8, 101u8, 80u8, 114u8, 111u8, 112u8, 101u8, 114u8, 116u8, 121u8],
        TagKind::UInt16 => vec![85u8, 73u8, 110u8, 116u8, 49u8, 54u8, 80u8, 114u8, 111u8, 112u8, 101u8, 114u8, 116u8, 121u8],
        TagKind::UInt32 => vec![85u8, 73u8, 110u8, 116u8, 51u8, 50u8, 80u8, 114u8, 111u8, 112u8, 101u8, 114u8, 116u8, 121u8],
        TagKind::UInt64 => vec![85u8, 73u8, 110u8, 116u8, 54u8, 52u8, 80u8, 114u8, 111u8, 112u8, 101u8, 114u8, 116u8, 121u8],
        TagKind::Float => vec![70u8, 108u8, 111u8, 97u8, 116u8, 80u8, 114u8, 111u8, 112u8, 101u8, 114u8, 116u8, 121u8],
        TagKind::Double => vec![68u8, 111u8, 117u8, 98u8, 108u8, 101u8, 80u8, 114u8, 111u8, 112u8, 101u8, 114u8, 116u8, 121u8],
        TagKind::Boolean => vec![66u8, 111u8, 111u8, 108u8, 80u8, 114u8, 111u8, 112u8, 101u8, 114u8, 116u8, 121u8],
        TagKind::Str => vec![83u8, 116u8, 114u8, 80u8, 114u8, 111u8, 112u8, 101u8, 114u8, 116u8, 121u8],
        TagKind::NameStr => vec![78u8, 97u8, 109u8, 101u8, 80u8, 114u8, 111u8, 112u8, 101u8, 114u8, 116u8, 121u8],
        TagKind::ObjectRef => vec![79u8, 98u8, 106u8, 101u8, 99u8, 116u8, 80u8, 114u8, 111u8, 112u8, 101u8, 114u8, 116u8, 121u8],
        TagKind::Enumeration => vec![69u8, 110u8, 117u8, 109u8, 80u8, 114u8, 111u8, 112u8, 101u8, 114u8, 116u8, 121u8],
        TagKind::Structure => vec![83u8, 116u8, 114u8, 117u8, 99u8, 116u8, 80u8, 114u8, 111u8, 112u8, 101u8, 114u8, 116u8, 121u8],
        TagKind::ArrayOf => vec![65u8, 114u8, 114u8, 97u8, 121u8, 80u8, 114u8, 111u8, 112u8, 101u8, 114u8, 116u8, 121u8],
        TagKind::SetOf => vec![83u8, 101u8, 116u8, 80u8, 114u8, 111u8, 112u8, 101u8, 114u8, 116u8, 121u8],
        TagKind::MapOf => vec![77u8, 97u8, 112u8, 80u8, 114u8, 111u8, 112u8, 101u8, 114u8, 116u8, 121u8],
        TagKind::Text => vec![84u8, 101u8, 120u8, 116u8, 80u8, 114u8, 111u8, 112u8, 101u8, 114u8, 116u8, 121u8],
    };
    proof {
        assert(r@ =~= tag_name(k));
    }
    r
}

/// The tag under which a scalar payload is serialized.
pub open spec fn scalar_kind(p: PrimitiveValue) -> TagKind {
    match p {
        PrimitiveValue::Int8(_) => TagKind::Int8,
        PrimitiveValue::Int16(_) => TagKind::Int16,
        PrimitiveValue::Int32(_) => TagKind::Int32,
        PrimitiveValue::Int64(_) => TagKind::Int64,
        PrimitiveValue::Byte(_) => TagKind::Byte,
        PrimitiveValue::UInt16(_) => TagKind::UInt16,
        PrimitiveValue::UInt32(_) => TagKind::UInt32,
        PrimitiveValue::UInt64(_) => TagKind::UInt64,
        PrimitiveValue::Float32 { .. } => TagKind::Float,
        PrimitiveValue::Float64 { .. } => TagKind::Double,
        PrimitiveValue::Bool(_) => TagKind::Boolean,
        PrimitiveValue::Str(_) => TagKind::Str,
        PrimitiveValue::Name(_) => TagKind::NameStr,
    }
}

/// The payload bytes of a scalar.
pub open spec fn enc_scalar(p: PrimitiveValue) -> Seq<u8> {
    match p {
        PrimitiveValue::Int8(v) => seq![u8_of_i8(v)],
        PrimitiveValue::Int16(v) => le16(u16_of_i16(v)),
        PrimitiveValue::Int32(v) => le32(u32_of_i32(v)),
        PrimitiveValue::Int64(v) => le64(u64_of_i64(v)),
        PrimitiveValue::Byte(v) => seq![v],
        PrimitiveValue::UInt16(v) => le16(v),
        PrimitiveValue::UInt32(v) => le32(v),
        PrimitiveValue::UInt64(v) => le64(v),
        PrimitiveValue::Float32 { bits } => le32(bits),
        PrimitiveValue::Float64 { bits } => le64(bits),
        PrimitiveValue::Bool(v) => seq![if v { 1u8 } else { 0u8 }],
        PrimitiveValue::Str(s) => enc_str(s),
        PrimitiveValue::Name(s) => enc_str(s),
    }
}

/// The byte image of the strings attached to a text payload, in order.
pub open spec fn enc_str_list(s: Seq<GvasString>) -> Seq<u8>
    decreases s.len(),
{
    if s.len() == 0 {
        Seq::empty()
    } else {
        enc_str(s[0]) + enc_str_list(s.drop_first())
    }
}

/// The bare byte image of one collection element of the given element kind.
/// Struct elements carry their own struct type name, length and GUID;
/// every other permitted element kind is a naked scalar or string.
pub open spec fn enc_item(k: TagKind, v: PropertyValue) -> Seq<u8>
    decreases v, 1int,
{
    match v {
        PropertyValue::Struct { stype, guid, fields } => enc_str(stype) + le64(
            enc_stream(fields.entries@).len() as u64,
        ) + guid.bytes@ + enc_stream(fields.entries@),
        PropertyValue::Scalar(p) => enc_scalar(p),
        PropertyValue::Object(s) => enc_str(s),
        _ => Seq::empty(),
    }
}

/// The concatenated bare images of a sequence of collection elements.
pub open spec fn enc_items(k: TagKind, items: Seq<PropertyValue>) -> Seq<u8>
    decreases items, 0int,
{
    if items.len() == 0 {
        Seq::empty()
    } else {
        enc_item(k, items[0]) + enc_items(k, items.drop_first())
    }
}

/// The concatenated bare images of a sequence of map entries: each key
/// immediately followed by its value.
pub open spec fn enc_pairs(ktag: TagKind, vtag: TagKind, pairs: Seq<MapPair>) -> Seq<u8>
    decreases pairs, 0int,
{
    if pairs.len() == 0 {
        Seq::empty()
    } else {
        enc_item(ktag, pairs[0].key) + enc_item(vtag, pairs[0].value) + enc_pairs(
            ktag,
            vtag,
            pairs.drop_first(),
        )
    }
}

/// The declared-length payload of a property value.
pub open spec fn enc_value_payload(v: PropertyValue) -> Seq<u8>
    decreases v, 1int,
{
    match v {
        PropertyValue::Scalar(p) => enc_scalar(p),
        PropertyValue::Object(s) => enc_str(s),
        PropertyValue::Enum { etype: _, value } => enc_str(value),
        PropertyValue::Text { flags, variant, strings } => le32(flags) + seq![variant] + le32(
            strings@.len() as u32,
        ) + enc_str_list(strings@),
        PropertyValue::Struct { stype: _, guid: _, fields } => enc_stream(fields.entries@),
        PropertyValue::Array { elem, items } => le32(items@.len() as u32) + enc_items(
            elem,
            items@,
        ),
        PropertyValue::SetOf { elem, items } => le32(items@.len() as u32) + enc_items(
            elem,
            items@,
        ),
        PropertyValue::MapOf { ktag, vtag, pairs } => le32(pairs@.len() as u32) + enc_pairs(
            ktag,
            vtag,
            pairs@,
        ),
        PropertyValue::Opaque { tag: _, bytes } => bytes@,
    }
}

/// The tag block of a property: its type-name string and, for compound
/// types, the descriptor strings that precede the declared length.
pub open spec fn enc_head(v: PropertyValue) -> Seq<u8> {
    match v {
        PropertyValue::Scalar(p) => enc_str_utf8(tag_name(scalar_kind(p))),
        PropertyValue::Object(_) => enc_str_utf8(tag_name(TagKind::ObjectRef)),
        PropertyValue::Enum { etype, value: _ } => enc_str_utf8(tag_name(TagKind::Enumeration))
            + enc_str(etype),
        PropertyValue::Text { .. } => enc_str_utf8(tag_name(TagKind::Text)),
        PropertyValue::Struct { stype, .. } => enc_str_utf8(tag_name(TagKind::Structure))
            + enc_str(stype),
        PropertyValue::Array { elem, .. } => enc_str_utf8(tag_name(TagKind::ArrayOf))
            + enc_str_utf8(tag_name(elem)),
        PropertyValue::SetOf { elem, .. } => enc_str_utf8(tag_name(TagKind::SetOf))
            + enc_str_utf8(tag_name(elem)),
        PropertyValue::MapOf { ktag, vtag, .. } => enc_str_utf8(tag_name(TagKind::MapOf))
            + enc_str_utf8(tag_name(ktag)) + enc_str_utf8(tag_name(vtag)),
        PropertyValue::Opaque { tag, .. } => match tag {
            RawTag::Other { name } => enc_str(name),
            RawTag::Structure { stype, .. } => enc_str_utf8(tag_name(TagKind::Structure))
                + enc_str(stype),
            RawTag::ArrayOf { elem } => enc_str_utf8(tag_name(TagKind::ArrayOf)) + enc_str(elem),
            RawTag::SetOf { elem } => enc_str_utf8(tag_name(TagKind::SetOf)) + enc_str(elem),
            RawTag::MapOf { ktag, vtag } => enc_str_utf8(tag_name(TagKind::MapOf)) + enc_str(ktag)
                + enc_str(vtag),
            RawTag::Enumeration { etype } => enc_str_utf8(tag_name(TagKind::Enumeration))
                + enc_str(etype),
        },
    }
}

/// The bytes standing between a property's declared length and its payload:
/// only struct properties carry anything there (their GUID).
pub open spec fn enc_mid(v: PropertyValue) -> Seq<u8> {
    match v {
        PropertyValue::Struct { guid, .. } => guid.bytes@,
        PropertyValue::Opaque { tag: RawTag::Structure { guid, .. }, .. } => guid.bytes@,
        _ => Seq::empty(),
    }
}

/// The full byte image of a property after its name: tag block, declared
/// payload length, GUID where applicable, then the payload.
pub open spec fn enc_body(v: PropertyValue) -> Seq<u8>
    decreases v, 2int,
{
    enc_head(v) + le64(enc_value_payload(v).len() as u64) + enc_mid(v) + enc_value_payload(v)
}

/// The byte image of one named property.
pub open spec fn enc_entry(e: Entry) -> Seq<u8>
    decreases e, 0int,
{
    enc_str(e.name) + enc_body(e.value)
}

/// The concatenated images of a sequence of properties, without terminator.
pub open spec fn enc_entry_list(s: Seq<Entry>) -> Seq<u8>
    decreases s, 0int,
{
    if s.len() == 0 {
        Seq::empty()
    } else {
        enc_entry(s[0]) + enc_entry_list(s.drop_first())
    }
}

/// The byte image of a property stream: the properties in order, closed by
/// the terminator name.
pub open spec fn enc_stream(s: Seq<Entry>) -> Seq<u8>
    decreases s, 1int,
{
    enc_entry_list(s) + sentinel()
}

/// Whether a tag kind is a fixed-width or string scalar.
pub open spec fn is_scalar_kind(k: TagKind) -> bool {
    match k {
        TagKind::ObjectRef | TagKind::Enumeration | TagKind::Structure | TagKind::ArrayOf
            | TagKind::SetOf | TagKind::MapOf | TagKind::Text => false,
        _ => true,
    }
}

/// Whether a tag kind may describe the elements of an array, set or map.
pub open spec fn elem_kind_ok(k: TagKind) -> bool {
    is_scalar_kind(k) || k == TagKind::ObjectRef || k == TagKind::Structure
}

/// Whether a value fits a collection's declared element kind.
pub open spec fn item_matches(k: TagKind, v: PropertyValue) -> bool {
    if k == TagKind::Structure {
        v is Struct
    } else if k == TagKind::ObjectRef {
        v is Object
    } else {
        v matches PropertyValue::Scalar(p) && scalar_kind(p) == k
    }
}

/// Well-formed string: its length prefix fits a signed 32-bit value.
pub open spec fn wf_str(s: GvasString) -> bool {
    match s {
        GvasString::Empty => true,
        GvasString::Utf8(b) => b@.len() + 1 <= 0x7fff_ffff,
        GvasString::Utf16(u) => u@.len() + 1 <= 0x7fff_ffff,
    }
}

/// Well-formed GUID: exactly 16 bytes.
pub open spec fn wf_guid(g: Guid) -> bool {
    g.bytes@.len() == 16
}

/// Well-formed scalar: any strings it holds are well-formed.
pub open spec fn wf_scalar(p: PrimitiveValue) -> bool {
    match p {
        PrimitiveValue::Str(s) => wf_str(s),
        PrimitiveValue::Name(s) => wf_str(s),
        _ => true,
    }
}

/// Well-formed collection element: well-formed, of the declared kind, and
/// for struct elements with a payload short enough for its length field.
pub open spec fn wf_item(k: TagKind, v: PropertyValue) -> bool
    decreases v, 1int,
{
    &&& wf_value(v)
    &&& item_matches(k, v)
    &&& enc_value_payload(v).len() <= 0xffff_ffff_ffff_ffff
}

/// Well-formed opaque tag block: its strings and GUID are well-formed.
pub open spec fn wf_rawtag(t: RawTag) -> bool {
    match t {
        RawTag::Other { name } => wf_str(name),
        RawTag::Structure { stype, guid } => wf_str(stype) && wf_guid(guid),
        RawTag::ArrayOf { elem } => wf_str(elem),
        RawTag::SetOf { elem } => wf_str(elem),
        RawTag::MapOf { ktag, vtag } => wf_str(ktag) && wf_str(vtag),
        RawTag::Enumeration { etype } => wf_str(etype),
    }
}

/// Well-formed property value: every embedded string, GUID, count and
/// length field is within the bounds the wire format can express, and
/// collection elements match their declared element kind.
pub open spec fn wf_value(v: PropertyValue) -> bool
    decreases v, 0int,
{
    match v {
        PropertyValue::Scalar(p) => wf_scalar(p),
        PropertyValue::Object(s) => wf_str(s),
        PropertyValue::Enum { etype, value } => wf_str(etype) && wf_str(value),
        PropertyValue::Text { flags: _, variant: _, strings } => strings@.len() <= 0xffff_ffff
            && forall|i: int| 0 <= i < strings@.len() ==> wf_str(#[trigger] strings@[i]),
        PropertyValue::Struct { stype, guid, fields } => wf_str(stype) && wf_guid(guid)
            && wf_entries(fields.entries@),
        PropertyValue::Array { elem, items } => elem_kind_ok(elem) && items@.len() <= 0xffff_ffff
            && forall|i: int| 0 <= i < items@.len() ==> wf_item(elem, #[trigger] items@[i]),
        PropertyValue::SetOf { elem, items } => elem_kind_ok(elem) && items@.len() <= 0xffff_ffff
            && forall|i: int| 0 <= i < items@.len() ==> wf_item(elem, #[trigger] items@[i]),
        PropertyValue::MapOf { ktag, vtag, pairs } => elem_kind_ok(ktag) && elem_kind_ok(vtag)
            && pairs@.len() <= 0xffff_ffff && forall|i: int|
            0 <= i < pairs@.len() ==> wf_item(ktag, (#[trigger] pairs@[i]).key) && wf_item(
                vtag,
                pairs@[i].value,
            ),
        PropertyValue::Opaque { tag, bytes } => wf_rawtag(tag) && bytes@.len()
            <= 0xffff_ffff_ffff_ffff,
    }
}

/// Well-formed named property: the name is a well-formed string other than
/// the terminator, and the payload fits its 64-bit length field.
pub open spec fn wf_entry(e: Entry) -> bool
    decreases e, 0int,
{
    &&& wf_str(e.name)
    &&& !is_none_name(e.name)
    &&& wf_value(e.value)
    &&& enc_value_payload(e.value).len() <= 0xffff_ffff_ffff_ffff
}

/// Well-formed property sequence.
pub open spec fn wf_entries(s: Seq<Entry>) -> bool
    decreases s, 1int,
{
    forall|i: int| 0 <= i < s.len() ==> wf_entry(#[trigger] s[i])
}

/// The magic bytes opening every GVAS file.
pub open spec fn magic() -> Seq<u8> {
    seq![71u8, 86u8, 65u8, 83u8]
}

/// The byte image of the custom-format version list, without its count.
pub open spec fn enc_custom_versions(s: Seq<CustomVersion>) -> Seq<u8>
    decreases s.len(),
{
    if s.len() == 0 {
        Seq::empty()
    } else {
        s[0].guid.bytes@ + le32(s[0].version) + enc_custom_versions(s.drop_first())
    }
}

/// The byte image of the save-file header, up to the root property stream.
pub open spec fn enc_header(sf: SaveFile) -> Seq<u8> {
    magic() + le32(sf.save_game_version) + le32(sf.package_version) + le16(sf.engine.major) + le16(
        sf.engine.minor,
    ) + le16(sf.engine.patch) + le32(sf.engine.changelist) + enc_str(sf.engine.branch) + le32(
        sf.custom_versions@.len() as u32,
    ) + enc_custom_versions(sf.custom_versions@)
}

/// The byte image of a whole save file.
pub open spec fn enc_save(sf: SaveFile) -> Seq<u8> {
    enc_header(sf) + enc_stream(sf.root.entries@)
}

/// Well-formed save file.
pub open spec fn wf_save(sf: SaveFile) -> bool {
    &&& wf_str(sf.engine.branch)
    &&& sf.custom_versions@.len() <= 0xffff_ffff
    &&& forall|i: int|
        0 <= i < sf.custom_versions@.len() ==> wf_guid((#[trigger] sf.custom_versions@[i]).guid)
    &&& wf_entries(sf.root.entries@)
}

/// `enc_str_list` distributes over appending one string.
pub proof fn lemma_str_list_push(s: Seq<GvasString>, x: GvasString)
    ensures
        enc_str_list(s.push(x)) == enc_str_list(s) + enc_str(x),
    decreases s.len(),
{
    if s.len() == 0 {
        assert(s.push(x).drop_first() =~= s);
        assert(s.push(x)[0] == x);
        assert(enc_str(x) + Seq::<u8>::empty() =~= enc_str(x));
        assert(Seq::<u8>::empty() + enc_str(x) =~= enc_str(x));
    } else {
        lemma_str_list_push(s.drop_first(), x);
        assert(s.push(x).drop_first() =~= s.drop_first().push(x));
        assert(s.push(x)[0] == s[0]);
        assert(enc_str(s[0]) + (enc_str_list(s.drop_first()) + enc_str(x)) =~= (enc_str(s[0])
            + enc_str_list(s.drop_first())) + enc_str(x));
    }
}

/// `enc_items` distributes over appending one element.
pub proof fn lemma_items_push(k: TagKind, s: Seq<PropertyValue>, v: PropertyValue)
    ensures
        enc_items(k, s.push(v)) == enc_items(k, s) + enc_item(k, v),
    decreases s.len(),
{
    if s.len() == 0 {
        assert(s.push(v).drop_first() =~= s);
        assert(s.push(v)[0] == v);
        assert(enc_item(k, v) + Seq::<u8>::empty() =~= enc_item(k, v));
        assert(Seq::<u8>::empty() + enc_item(k, v) =~= enc_item(k, v));
    } else {
        lemma_items_push(k, s.drop_first(), v);
        assert(s.push(v).drop_first() =~= s.drop_first().push(v));
        assert(s.push(v)[0] == s[0]);
        assert(enc_item(k, s[0]) + (enc_items(k, s.drop_first()) + enc_item(k, v)) =~= (enc_item(
            k,
            s[0],
        ) + enc_items(k, s.drop_first())) + enc_item(k, v));
    }
}

/// `enc_pairs` distributes over appending one pair.
pub proof fn lemma_pairs_push(ktag: TagKind, vtag: TagKind, s: Seq<MapPair>, p: MapPair)
    ensures
        enc_pairs(ktag, vtag, s.push(p)) == enc_pairs(ktag, vtag, s) + enc_item(ktag, p.key)
            + enc_item(vtag, p.value),
    decreases s.len(),
{
    if s.len() == 0 {
        assert(s.push(p).drop_first() =~= s);
        assert(s.push(p)[0] == p);
        assert(enc_item(ktag, p.key) + enc_item(vtag, p.value) + Seq::<u8>::empty() =~= enc_item(
            ktag,
            p.key,
        ) + enc_item(vtag, p.value));
        assert(Seq::<u8>::empty() + enc_item(ktag, p.key) + enc_item(vtag, p.value) =~= enc_item(
            ktag,
            p.key,
        ) + enc_item(vtag, p.value));
    } else {
        lemma_pairs_push(ktag, vtag, s.drop_first(), p);
        assert(s.push(p).drop_first() =~= s.drop_first().push(p));
        assert(s.push(p)[0] == s[0]);
        assert(enc_item(ktag, s[0].key) + enc_item(vtag, s[0].value) + (enc_pairs(
            ktag,
            vtag,
            s.drop_first(),
        ) + enc_item(ktag, p.key) + enc_item(vtag, p.value)) =~= (enc_item(ktag, s[0].key)
            + enc_item(vtag, s[0].value) + enc_pairs(ktag, vtag, s.drop_first())) + enc_item(
            ktag,
            p.key,
        ) + enc_item(vtag, p.value));
    }
}

/// `enc_entry_list` distributes over appending one property.
pub proof fn lemma_entry_list_push(s: Seq<Entry>, e: Entry)
    ensures
        enc_entry_list(s.push(e)) == enc_entry_list(s) + enc_entry(e),
    decreases s.len(),
{
    if s.len() == 0 {
        assert(s.push(e).drop_first() =~= s);
        assert(s.push(e)[0] == e);
        assert(enc_entry(e) + Seq::<u8>::empty() =~= enc_entry(e));
        assert(Seq::<u8>::empty() + enc_entry(e) =~= enc_entry(e));
    } else {
        lemma_entry_list_push(s.drop_first(), e);
        assert(s.push(e).drop_first() =~= s.drop_first().push(e));
        assert(s.push(e)[0] == s[0]);
        assert(enc_entry(s[0]) + (enc_entry_list(s.drop_first()) + enc_entry(e)) =~= (enc_entry(
            s[0],
        ) + enc_entry_list(s.drop_first())) + enc_entry(e));
    }
}

/// `enc_custom_versions` distributes over appending one record.
pub proof fn lemma_custom_versions_push(s: Seq<CustomVersion>, c: CustomVersion)
    ensures
        enc_custom_versions(s.push(c)) == enc_custom_versions(s) + c.guid.bytes@ + le32(c.version),
    decreases s.len(),
{
    if s.len() == 0 {
        assert(s.push(c).drop_first() =~= s);
        assert(s.push(c)[0] == c);
        assert(c.guid.bytes@ + le32(c.version) + Seq::<u8>::empty() =~= c.guid.bytes@ + le32(
            c.version,
        ));
        assert(Seq::<u8>::empty() + c.guid.bytes@ + le32(c.version) =~= c.guid.bytes@ + le32(
            c.version,
        ));
    } else {
        lemma_custom_versions_push(s.drop_first(), c);
        assert(s.push(c).drop_first() =~= s.drop_first().push(c));
        assert(s.push(c)[0] == s[0]);
        assert(s[0].guid.bytes@ + le32(s[0].version) + (enc_custom_versions(s.drop_first())
            + c.guid.bytes@ + le32(c.version)) =~= (s[0].guid.bytes@ + le32(s[0].version)
            + enc_custom_versions(s.drop_first())) + c.guid.bytes@ + le32(c.version));
    }
}

/// The tag kind of a scalar, computed at run time.
pub fn scalar_kind_exec(p: &PrimitiveValue) -> (r: TagKind)
    ensures
        r == scalar_kind(*p),
{
    match p {
        PrimitiveValue::Int8(_) => TagKind::Int8,
        PrimitiveValue::Int16(_) => TagKind::Int16,
        PrimitiveValue::Int32(_) => TagKind::Int32,
        PrimitiveValue::Int64(_) => TagKind::Int64,
        PrimitiveValue::Byte(_) => TagKind::Byte,
        PrimitiveValue::UInt16(_) => TagKind::UInt16,
        PrimitiveValue::UInt32(_) => TagKind::UInt32,
        PrimitiveValue::UInt64(_) => TagKind::UInt64,
        PrimitiveValue::Float32 { .. } => TagKind::Float,
        PrimitiveValue::Float64 { .. } => TagKind::Double,
        PrimitiveValue::Bool(_) => TagKind::Boolean,
        PrimitiveValue::Str(_) => TagKind::Str,
        PrimitiveValue::Name(_) => TagKind::NameStr,
    }
}

/// Whether two strings hold the same encoding and code units.
pub open spec fn same_string(a: GvasString, b: GvasString) -> bool {
    match (a, b) {
        (GvasString::Empty, GvasString::Empty) => true,
        (GvasString::Utf8(x), GvasString::Utf8(y)) => x@ == y@,
        (GvasString::Utf16(x), GvasString::Utf16(y)) => x@ == y@,
        _ => false,
    }
}

/// The 32-bit length word that opens a string's byte image.
pub open spec fn str_len_word(s: GvasString) -> u32 {
    match s {
        GvasString::Empty => 0,
        GvasString::Utf8(b) => (b@.len() + 1) as u32,
        GvasString::Utf16(u) => (0x1_0000_0000 - (u@.len() + 1)) as u32,
    }
}

/// Whether a well-formed string's byte image sits at `pos`, wholly inside
/// the window ending at `end`.
pub open spec fn str_prefix_at(b: Seq<u8>, pos: int, end: int, s: GvasString) -> bool {
    &&& wf_str(s)
    &&& pos + enc_str(s).len() <= end
    &&& b.subrange(pos, pos + enc_str(s).len()) == enc_str(s)
}

/// Distinct tag kinds have distinct on-stream names.
#[verifier::rlimit(100)]
#[verifier::spinoff_prover]
pub proof fn lemma_tag_names_distinct(k1: TagKind, k2: TagKind)
    requires
        tag_name(k1) == tag_name(k2),
    ensures
        k1 == k2,
{
}

/// Whether a UTF-8 string image with the given content bytes sits at
/// `pos`, wholly inside the window ending at `end`.
pub open spec fn utf8_prefix_at(b: Seq<u8>, pos: int, end: int, bs: Seq<u8>) -> bool {
    &&& bs.len() + 1 <= 0x7fff_ffff
    &&& pos + enc_str_utf8(bs).len() <= end
    &&& b.subrange(pos, pos + enc_str_utf8(bs).len() as int) == enc_str_utf8(bs)
}

} // verus!
