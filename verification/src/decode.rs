//! Property stream decoder: a single forward pass over a byte window.
//!
//! Soundness is built into every contract: whatever a decode function
//! returns re-encodes to exactly the bytes it consumed.  Failures inside a
//! declared-length payload are never fatal: the property is demoted to an
//! opaque blob carrying the raw payload bytes, so unknown or malformed
//! content still round-trips.  Fatal errors arise only outside payloads: a
//! declared length or count that runs past the window, or a malformed
//! string.

use vstd::prelude::*;
use crate::model::{Entry, GvasString, Guid, MapPair, PrimitiveValue, PropertyValue, RawTag, TagKind};
use crate::prim::{bytes_eq, copy_range, i16_from_u16, i32_from_u32, i64_from_u64, i8_from_u8, lemma_split, read_guid, read_str, read_u16, read_u32, read_u64, read_u8, DecodeError};
use crate::wire::{elem_kind_ok, enc_body, enc_entry, enc_entry_list, enc_item, enc_items, enc_pairs, enc_scalar, enc_str, enc_str_list, enc_str_utf8, enc_stream, enc_value_payload, is_none_name, lemma_entry_list_push, lemma_items_push, lemma_pairs_push, lemma_str_list_push, none_name, scalar_kind, sentinel, tag_name, tag_name_vec, wf_entries, wf_entry, wf_guid, wf_item, wf_scalar, wf_str, wf_value};

verus! {

/// A non-fatal observation made while decoding, reported alongside the
/// decoded tree.
#[derive(Debug, PartialEq, Eq)]
pub enum Warning {
    /// A property carried a type tag the decoder does not recognize; its
    /// payload was kept as raw bytes.  `tag` is the unrecognized name.
    UnknownTypeTag { name: GvasString, tag: GvasString },
    /// A property's declared length or content did not match its
    /// structure; its payload was kept as raw bytes of the declared
    /// length.
    LengthMismatch { name: GvasString, declared: u64 },
    /// Two properties in one stream carry the same name; names are meant
    /// to be unique within a map's scope.  Lookups and edits reach the
    /// first occurrence; both re-encode in place.
    DuplicateName { name: GvasString },
}

/// One step of walking a property stream: either the terminator or a
/// decoded property.
#[derive(Debug, PartialEq, Eq)]
pub enum EntryStep {
    End,
    Prop(Entry),
}

/// The tag context of a property whose payload is about to be decoded.
pub enum TagCtx {
    ScalarT(TagKind),
    EnumT { etype: GvasString },
    TextT,
    StructT { stype: GvasString, guid: Guid },
    ArrayT { elem: TagKind },
    SetT { elem: TagKind },
    MapT { ktag: TagKind, vtag: TagKind },
}

/// Well-formedness of a tag context.
pub open spec fn ctx_wf(c: TagCtx) -> bool {
    match c {
        TagCtx::ScalarT(k) => crate::wire::is_scalar_kind(k) || k == TagKind::ObjectRef,
        TagCtx::EnumT { etype } => wf_str(etype),
        TagCtx::TextT => true,
        TagCtx::StructT { stype, guid } => wf_str(stype) && wf_guid(guid),
        TagCtx::ArrayT { elem } => elem_kind_ok(elem),
        TagCtx::SetT { elem } => elem_kind_ok(elem),
        TagCtx::MapT { ktag, vtag } => elem_kind_ok(ktag) && elem_kind_ok(vtag),
    }
}

/// Whether a decoded value carries exactly the given tag context.
pub open spec fn ctx_matches(c: TagCtx, v: PropertyValue) -> bool {
    match c {
        TagCtx::ScalarT(k) => if k == TagKind::ObjectRef {
            v is Object
        } else {
            v matches PropertyValue::Scalar(p) && scalar_kind(p) == k
        },
        TagCtx::EnumT { etype } => v matches PropertyValue::Enum { etype: e2, .. } && e2 == etype,
        TagCtx::TextT => v is Text,
        TagCtx::StructT { stype, guid } => v matches PropertyValue::Struct {
            stype: s2,
            guid: g2,
            ..
        } && s2 == stype && g2 == guid,
        TagCtx::ArrayT { elem } => v matches PropertyValue::Array { elem: e2, .. } && e2 == elem,
        TagCtx::SetT { elem } => v matches PropertyValue::SetOf { elem: e2, .. } && e2 == elem,
        TagCtx::MapT { ktag, vtag } => v matches PropertyValue::MapOf {
            ktag: k2,
            vtag: v2,
            ..
        } && k2 == ktag && v2 == vtag,
    }
}

/// Classifies a type-name byte string against the recognized tags.
fn kind_of_bytes(b: &Vec<u8>) -> (r: Option<TagKind>)
    ensures
        r matches Some(k) ==> b@ == tag_name(k),
        r is None ==> forall|k: TagKind| b@ != #[trigger] tag_name(k),
{
    if bytes_eq(b, &tag_name_vec(TagKind::Int8)) {
        return Some(TagKind::Int8);
    }
    if bytes_eq(b, &tag_name_vec(TagKind::Int16)) {
        return Some(TagKind::Int16);
    }
    if bytes_eq(b, &tag_name_vec(TagKind::Int32)) {
        return Some(TagKind::Int32);
    }
    if bytes_eq(b, &tag_name_vec(TagKind::Int64)) {
        return Some(TagKind::Int64);
    }
    if bytes_eq(b, &tag_name_vec(TagKind::Byte)) {
        return Some(TagKind::Byte);
    }
    if bytes_eq(b, &tag_name_vec(TagKind::UInt16)) {
        return Some(TagKind::UInt16);
    }
    if bytes_eq(b, &tag_name_vec(TagKind::UInt32)) {
        return Some(TagKind::UInt32);
    }
    if bytes_eq(b, &tag_name_vec(TagKind::UInt64)) {
        return Some(TagKind::UInt64);
    }
    if bytes_eq(b, &tag_name_vec(TagKind::Float)) {
        return Some(TagKind::Float);
    }
    if bytes_eq(b, &tag_name_vec(TagKind::Double)) {
        return Some(TagKind::Double);
    }
    if bytes_eq(b, &tag_name_vec(TagKind::Boolean)) {
        return Some(TagKind::Boolean);
    }
    if bytes_eq(b, &tag_name_vec(TagKind::Str)) {
        return Some(TagKind::Str);
    }
    if bytes_eq(b, &tag_name_vec(TagKind::NameStr)) {
        return Some(TagKind::NameStr);
    }
    if bytes_eq(b, &tag_name_vec(TagKind::ObjectRef)) {
        return Some(TagKind::ObjectRef);
    }
    if bytes_eq(b, &tag_name_vec(TagKind::Enumeration)) {
        return Some(TagKind::Enumeration);
    }
    if bytes_eq(b, &tag_name_vec(TagKind::Structure)) {
        return Some(TagKind::Structure);
    }
    if bytes_eq(b, &tag_name_vec(TagKind::ArrayOf)) {
        return Some(TagKind::ArrayOf);
    }
    if bytes_eq(b, &tag_name_vec(TagKind::SetOf)) {
        return Some(TagKind::SetOf);
    }
    if bytes_eq(b, &tag_name_vec(TagKind::MapOf)) {
        return Some(TagKind::MapOf);
    }
    if bytes_eq(b, &tag_name_vec(TagKind::Text)) {
        return Some(TagKind::Text);
    }
    None
}

/// Classifies a type-name string; only UTF-8 names can match a tag.
fn kind_of_str(s: &GvasString) -> (r: Option<TagKind>)
    ensures
        r matches Some(k) ==> s matches GvasString::Utf8(b) && b@ == tag_name(k),
        r is None ==> unknown_tag(*s),
{
    match s {
        GvasString::Utf8(b) => kind_of_bytes(b),
        _ => None,
    }
}

/// Whether a tag kind may stand as a collection element kind.
pub(crate) fn is_elem_kind(k: TagKind) -> (r: bool)
    ensures
        r == elem_kind_ok(k),
{
    match k {
        TagKind::Enumeration | TagKind::ArrayOf | TagKind::SetOf | TagKind::MapOf
            | TagKind::Text => false,
        _ => true,
    }
}

/// Whether a decoded name is the stream terminator.
pub(crate) fn is_terminator(s: &GvasString) -> (r: bool)
    ensures
        r == is_none_name(*s),
{
    match s {
        GvasString::Utf8(b) => {
            let nv: Vec<u8> = vec![78u8, 111u8, 110u8, 101u8];
            proof {
                assert(nv@ =~= none_name());
            }
            bytes_eq(b, &nv)
        },
        _ => false,
    }
}

/// Decodes one bare scalar of the given kind.  Returns the value and the
/// position after it; any failure is reported as `None`.
fn decode_scalar(buf: &Vec<u8>, pos: usize, end: usize, k: TagKind) -> (r: Option<
    (PrimitiveValue, usize),
>)
    requires
        pos <= end <= buf@.len(),
    ensures
        r matches Some(t) ==> pos < t.1 <= end && wf_scalar(t.0) && scalar_kind(t.0) == k
            && buf@.subrange(pos as int, t.1 as int) == enc_scalar(t.0),
        forall|p0: PrimitiveValue|
            (scalar_kind(p0) == k && wf_scalar(p0) && end - pos == enc_scalar(p0).len()
                && buf@.subrange(pos as int, end as int) == #[trigger] enc_scalar(p0)) ==> (
            r matches Some(t) && t.1 == end),
{
    match k {
        TagKind::Int8 => {
            match read_u8(buf, pos, end) {
                Ok((b, p2)) => Some((PrimitiveValue::Int8(i8_from_u8(b)), p2)),
                Err(_) => None,
            }
        },
        TagKind::Int16 => {
            match read_u16(buf, pos, end) {
                Ok((v, p2)) => Some((PrimitiveValue::Int16(i16_from_u16(v)), p2)),
                Err(_) => None,
            }
        },
        TagKind::Int32 => {
            match read_u32(buf, pos, end) {
                Ok((v, p2)) => Some((PrimitiveValue::Int32(i32_from_u32(v)), p2)),
                Err(_) => None,
            }
        },
        TagKind::Int64 => {
            match read_u64(buf, pos, end) {
                Ok((v, p2)) => Some((PrimitiveValue::Int64(i64_from_u64(v)), p2)),
                Err(_) => None,
            }
        },
        TagKind::Byte => {
            match read_u8(buf, pos, end) {
                Ok((b, p2)) => Some((PrimitiveValue::Byte(b), p2)),
                Err(_) => None,
            }
        },
        TagKind::UInt16 => {
            match read_u16(buf, pos, end) {
                Ok((v, p2)) => Some((PrimitiveValue::UInt16(v), p2)),
                Err(_) => None,
            }
        },
        TagKind::UInt32 => {
            match read_u32(buf, pos, end) {
                Ok((v, p2)) => Some((PrimitiveValue::UInt32(v), p2)),
                Err(_) => None,
            }
        },
        TagKind::UInt64 => {
            match read_u64(buf, pos, end) {
                Ok((v, p2)) => Some((PrimitiveValue::UInt64(v), p2)),
                Err(_) => None,
            }
        },
        TagKind::Float => {
            match read_u32(buf, pos, end) {
                Ok((v, p2)) => Some((PrimitiveValue::Float32 { bits: v }, p2)),
                Err(_) => None,
            }
        },
        TagKind::Double => {
            match read_u64(buf, pos, end) {
                Ok((v, p2)) => Some((PrimitiveValue::Float64 { bits: v }, p2)),
                Err(_) => None,
            }
        },
        TagKind::Boolean => {
            match read_u8(buf, pos, end) {
                Ok((b, p2)) => {
                    if b == 0 {
                        Some((PrimitiveValue::Bool(false), p2))
                    } else if b == 1 {
                        Some((PrimitiveValue::Bool(true), p2))
                    } else {
                        proof {
                            assert forall|p0: PrimitiveValue|
                                !(scalar_kind(p0) == k && wf_scalar(p0) && end - pos
                                    == enc_scalar(p0).len() && buf@.subrange(
                                    pos as int,
                                    end as int,
                                ) == enc_scalar(p0)) by {
                                if scalar_kind(p0) == k && wf_scalar(p0) && end - pos
                                    == enc_scalar(p0).len() && buf@.subrange(
                                    pos as int,
                                    end as int,
                                ) == enc_scalar(p0) {
                                    assert(buf@.subrange(pos as int, end as int)[0]
                                        == enc_scalar(p0)[0]);
                                    assert(buf@.subrange(pos as int, p2 as int)[0] == seq![b][0]);
                                }
                            }
                        }
                        None
                    }
                },
                Err(_) => None,
            }
        },
        TagKind::Str => {
            match read_str(buf, pos, end) {
                Ok((s, p2)) => {
                    proof {
                        assert forall|p0: PrimitiveValue|
                            scalar_kind(p0) == k && wf_scalar(p0) && end - pos == enc_scalar(
                                p0,
                            ).len() && buf@.subrange(pos as int, end as int) == enc_scalar(
                                p0,
                            ) implies p2 == end by {
                            match p0 {
                                PrimitiveValue::Str(s0) => {
                                    let w = buf@.subrange(pos as int, end as int);
                                    assert forall|i: int|
                                        0 <= i < enc_str(s).len() implies w[i] == enc_str(s)[i]
                                        by {
                                        assert(buf@.subrange(pos as int, p2 as int)[i]
                                            == enc_str(s)[i]);
                                    }
                                    assert(w.subrange(0, enc_str(s).len() as int) =~= enc_str(
                                        s,
                                    ));
                                    assert(w.subrange(0, enc_str(s0).len() as int) =~= w);
                                    crate::prim::lemma_str_prefix_det(s, s0, w);
                                },
                                _ => {},
                            }
                        }
                    }
                    Some((PrimitiveValue::Str(s), p2))
                },
                Err(_) => {
                    proof {
                        assert forall|p0: PrimitiveValue|
                            !(scalar_kind(p0) == k && wf_scalar(p0) && end - pos == enc_scalar(
                                p0,
                            ).len() && buf@.subrange(pos as int, end as int) == enc_scalar(
                                p0,
                            )) by {
                            if scalar_kind(p0) == k && wf_scalar(p0) && end - pos == enc_scalar(
                                p0,
                            ).len() && buf@.subrange(pos as int, end as int) == enc_scalar(p0) {
                                match p0 {
                                    PrimitiveValue::Str(s0) => {
                                        assert(crate::wire::str_prefix_at(
                                            buf@,
                                            pos as int,
                                            end as int,
                                            s0,
                                        ));
                                        assert(false);
                                    },
                                    _ => {},
                                }
                            }
                        }
                    }
                    None
                },
            }
        },
        TagKind::NameStr => {
            match read_str(buf, pos, end) {
                Ok((s, p2)) => {
                    proof {
                        assert forall|p0: PrimitiveValue|
                            scalar_kind(p0) == k && wf_scalar(p0) && end - pos == enc_scalar(
                                p0,
                            ).len() && buf@.subrange(pos as int, end as int) == enc_scalar(
                                p0,
                            ) implies p2 == end by {
                            match p0 {
                                PrimitiveValue::Name(s0) => {
                                    let w = buf@.subrange(pos as int, end as int);
                                    assert forall|i: int|
                                        0 <= i < enc_str(s).len() implies w[i] == enc_str(s)[i]
                                        by {
                                        assert(buf@.subrange(pos as int, p2 as int)[i]
                                            == enc_str(s)[i]);
                                    }
                                    assert(w.subrange(0, enc_str(s).len() as int) =~= enc_str(
                                        s,
                                    ));
                                    assert(w.subrange(0, enc_str(s0).len() as int) =~= w);
                                    crate::prim::lemma_str_prefix_det(s, s0, w);
                                },
                                _ => {},
                            }
                        }
                    }
                    Some((PrimitiveValue::Name(s), p2))
                },
                Err(_) => {
                    proof {
                        assert forall|p0: PrimitiveValue|
                            !(scalar_kind(p0) == k && wf_scalar(p0) && end - pos == enc_scalar(
                                p0,
                            ).len() && buf@.subrange(pos as int, end as int) == enc_scalar(
                                p0,
                            )) by {
                            if scalar_kind(p0) == k && wf_scalar(p0) && end - pos == enc_scalar(
                                p0,
                            ).len() && buf@.subrange(pos as int, end as int) == enc_scalar(p0) {
                                match p0 {
                                    PrimitiveValue::Name(s0) => {
                                        assert(crate::wire::str_prefix_at(
                                            buf@,
                                            pos as int,
                                            end as int,
                                            s0,
                                        ));
                                        assert(false);
                                    },
                                    _ => {},
                                }
                            }
                        }
                    }
                    None
                },
            }
        },
        _ => None,
    }
}

/// Decodes one bare collection element of the given element kind.
fn decode_item(
    buf: &Vec<u8>,
    pos: usize,
    end: usize,
    k: TagKind,
    warns: &mut Vec<Warning>,
) -> (r: Option<(PropertyValue, usize)>)
    requires
        pos <= end <= buf@.len(),
        elem_kind_ok(k),
    ensures
        r matches Some(t) ==> pos < t.1 <= end && wf_item(k, t.0) && buf@.subrange(
            pos as int,
            t.1 as int,
        ) == enc_item(k, t.0),
    decreases end - pos, 3int,
{
    if matches!(k, TagKind::Structure) {
        let (stype, p1) = match read_str(buf, pos, end) {
            Ok(t) => t,
            Err(_) => {
                return None;
            },
        };
        let (len, p2) = match read_u64(buf, p1, end) {
            Ok(t) => t,
            Err(_) => {
                return None;
            },
        };
        let (guid, p3) = match read_guid(buf, p2, end) {
            Ok(t) => t,
            Err(_) => {
                return None;
            },
        };
        if len > (end - p3) as u64 {
            return None;
        }
        let n = len as usize;
        let pend = p3 + n;
        let (entries, p4) = match decode_stream(buf, p3, pend, warns) {
            Ok(t) => t,
            Err(_) => {
                return None;
            },
        };
        if p4 != pend {
            return None;
        }
        let v = PropertyValue::Struct { stype, guid, fields: crate::model::PropertyMap { entries } };
        proof {
            lemma_split(buf@, pos as int, p1 as int, p4 as int);
            lemma_split(buf@, p1 as int, p2 as int, p4 as int);
            lemma_split(buf@, p2 as int, p3 as int, p4 as int);
            assert(buf@.subrange(pos as int, p4 as int) =~= enc_item(k, v));
        }
        Some((v, p4))
    } else if matches!(k, TagKind::ObjectRef) {
        match read_str(buf, pos, end) {
            Ok((s, p2)) => Some((PropertyValue::Object(s), p2)),
            Err(_) => None,
        }
    } else {
        match decode_scalar(buf, pos, end, k) {
            Some((p, p2)) => Some((PropertyValue::Scalar(p), p2)),
            None => None,
        }
    }
}

/// Decodes a property stream (entries until the terminator) inside a
/// window.  Returns the entries and the position just after the
/// terminator; any failure, including one of the nested fatal kind, is
/// reported as `None` so that the enclosing payload can be demoted.
pub(crate) fn decode_stream(
    buf: &Vec<u8>,
    pos: usize,
    end: usize,
    warns: &mut Vec<Warning>,
) -> (r: Result<(Vec<Entry>, usize), DecodeError>)
    requires
        pos <= end <= buf@.len(),
    ensures
        r matches Ok(t) ==> pos < t.1 <= end && wf_entries(t.0@) && buf@.subrange(
            pos as int,
            t.1 as int,
        ) == enc_stream(t.0@),
        end == pos + 9 && buf@.subrange(pos as int, end as int) == sentinel() ==> r is Ok,
        r matches Err(e) ==> e is TruncatedStream || e is InvalidEncoding,
    decreases end - pos, 1int,
{
    let mut entries: Vec<Entry> = Vec::new();
    let mut p = pos;
    loop
        invariant
            pos <= p <= end <= buf@.len(),
            wf_entries(entries@),
            buf@.subrange(pos as int, p as int) == enc_entry_list(entries@),
            end == pos + 9 && buf@.subrange(pos as int, end as int) == sentinel() ==> p == pos,
        decreases end - p,
    {
        let step = match decode_entry(buf, p, end, warns) {
            Ok(t) => t,
            Err(e) => {
                return Err(e);
            },
        };
        match step {
            (EntryStep::End, p2) => {
                proof {
                    lemma_split(buf@, pos as int, p as int, p2 as int);
                    assert(buf@.subrange(pos as int, p2 as int) == enc_stream(entries@));
                }
                return Ok((entries, p2));
            },
            (EntryStep::Prop(e), p2) => {
                let dup_count = entries.len();
                let mut di: usize = 0;
                while di < dup_count
                    invariant
                        0 <= di <= dup_count,
                        dup_count <= entries@.len(),
                    decreases dup_count - di,
                {
                    if crate::prim::strings_equal(&entries[di].name, &e.name) {
                        warns.push(Warning::DuplicateName { name: e.name.clone() });
                        di = dup_count;
                    } else {
                        di = di + 1;
                    }
                }
                proof {
                    lemma_entry_list_push(entries@, e);
                    lemma_split(buf@, pos as int, p as int, p2 as int);
                    assert(entries@.push(e) =~= entries@ + seq![e]);
                }
                entries.push(e);
                proof {
                    assert(buf@.subrange(pos as int, p2 as int) == enc_entry_list(entries@));
                }
                p = p2;
            },
        }
    }
}

/// Decodes the payload of a property whose tag context is already parsed.
/// On success the whole window is consumed; `Err` hands the context back
/// so the caller can demote the property to an opaque blob.
fn decode_value(
    buf: &Vec<u8>,
    pos: usize,
    end: usize,
    ctx: TagCtx,
    warns: &mut Vec<Warning>,
) -> (r: Result<PropertyValue, TagCtx>)
    requires
        pos <= end <= buf@.len(),
        ctx_wf(ctx),
    ensures
        r matches Ok(v) ==> wf_value(v) && ctx_matches(ctx, v) && buf@.subrange(
            pos as int,
            end as int,
        ) == enc_value_payload(v),
        r matches Err(c) ==> c == ctx,
        forall|p0: PrimitiveValue|
            (ctx == TagCtx::ScalarT(scalar_kind(p0)) && wf_scalar(p0) && end - pos == enc_scalar(
                p0,
            ).len() && buf@.subrange(pos as int, end as int) == #[trigger] enc_scalar(p0)) ==> r
                is Ok,
    decreases end - pos, 2int,
{
    proof {
        assert forall|p0: PrimitiveValue| scalar_kind(p0) != TagKind::ObjectRef by {}
    }
    match ctx {
        TagCtx::ScalarT(k) => {
            if matches!(k, TagKind::ObjectRef) {
                match read_str(buf, pos, end) {
                    Ok((s, p2)) => {
                        if p2 == end {
                            Ok(PropertyValue::Object(s))
                        } else {
                            Err(TagCtx::ScalarT(k))
                        }
                    },
                    Err(_) => Err(TagCtx::ScalarT(k)),
                }
            } else {
                match decode_scalar(buf, pos, end, k) {
                    Some((p, p2)) => {
                        if p2 == end {
                            Ok(PropertyValue::Scalar(p))
                        } else {
                            Err(TagCtx::ScalarT(k))
                        }
                    },
                    None => Err(TagCtx::ScalarT(k)),
                }
            }
        },
        TagCtx::EnumT { etype } => {
            match read_str(buf, pos, end) {
                Ok((value, p2)) => {
                    if p2 == end {
                        Ok(PropertyValue::Enum { etype, value })
                    } else {
                        Err(TagCtx::EnumT { etype })
                    }
                },
                Err(_) => Err(TagCtx::EnumT { etype }),
            }
        },
        TagCtx::TextT => {
            decode_text(buf, pos, end)
        },
        TagCtx::StructT { stype, guid } => {
            match decode_stream(buf, pos, end, warns) {
                Ok((entries, p2)) => {
                    if p2 == end {
                        Ok(
                            PropertyValue::Struct {
                                stype,
                                guid,
                                fields: crate::model::PropertyMap { entries },
                            },
                        )
                    } else {
                        Err(TagCtx::StructT { stype, guid })
                    }
                },
                Err(_) => Err(TagCtx::StructT { stype, guid }),
            }
        },
        TagCtx::ArrayT { elem } => {
            match decode_elements(buf, pos, end, elem, warns) {
                Some(items) => Ok(PropertyValue::Array { elem, items }),
                None => Err(TagCtx::ArrayT { elem }),
            }
        },
        TagCtx::SetT { elem } => {
            match decode_elements(buf, pos, end, elem, warns) {
                Some(items) => Ok(PropertyValue::SetOf { elem, items }),
                None => Err(TagCtx::SetT { elem }),
            }
        },
        TagCtx::MapT { ktag, vtag } => {
            match decode_map_pairs(buf, pos, end, ktag, vtag, warns) {
                Some(pairs) => Ok(PropertyValue::MapOf { ktag, vtag, pairs }),
                None => Err(TagCtx::MapT { ktag, vtag }),
            }
        },
    }
}

/// Decodes a text payload: flags word, history discriminator, string count
/// and the strings themselves, consuming the whole window.
fn decode_text(buf: &Vec<u8>, pos: usize, end: usize) -> (r: Result<PropertyValue, TagCtx>)
    requires
        pos <= end <= buf@.len(),
    ensures
        r matches Ok(v) ==> wf_value(v) && ctx_matches(TagCtx::TextT, v) && buf@.subrange(
            pos as int,
            end as int,
        ) == enc_value_payload(v),
        r matches Err(c) ==> c == TagCtx::TextT,
{
    let (flags, p1) = match read_u32(buf, pos, end) {
        Ok(t) => t,
        Err(_) => {
            return Err(TagCtx::TextT);
        },
    };
    let (variant, p2) = match read_u8(buf, p1, end) {
        Ok(t) => t,
        Err(_) => {
            return Err(TagCtx::TextT);
        },
    };
    let (count, p3) = match read_u32(buf, p2, end) {
        Ok(t) => t,
        Err(_) => {
            return Err(TagCtx::TextT);
        },
    };
    let mut strings: Vec<GvasString> = Vec::new();
    let mut p = p3;
    let mut i: u32 = 0;
    while i < count
        invariant
            pos <= p3 <= p <= end <= buf@.len(),
            0 <= i <= count,
            strings@.len() == i,
            forall|j: int| 0 <= j < strings@.len() ==> wf_str(#[trigger] strings@[j]),
            buf@.subrange(p3 as int, p as int) == enc_str_list(strings@),
        decreases count - i,
    {
        let (s, pn) = match read_str(buf, p, end) {
            Ok(t) => t,
            Err(_) => {
                return Err(TagCtx::TextT);
            },
        };
        proof {
            lemma_str_list_push(strings@, s);
            lemma_split(buf@, p3 as int, p as int, pn as int);
        }
        strings.push(s);
        p = pn;
        i = i + 1;
    }
    if p != end {
        return Err(TagCtx::TextT);
    }
    let v = PropertyValue::Text { flags, variant, strings };
    proof {
        lemma_split(buf@, pos as int, p1 as int, end as int);
        lemma_split(buf@, p1 as int, p2 as int, end as int);
        lemma_split(buf@, p2 as int, p3 as int, end as int);
        assert(buf@.subrange(p1 as int, p2 as int) =~= seq![variant]);
        assert(buf@.subrange(pos as int, end as int) == enc_value_payload(v));
    }
    Ok(v)
}

/// Decodes an element count and that many bare elements, consuming the
/// whole window.
fn decode_elements(
    buf: &Vec<u8>,
    pos: usize,
    end: usize,
    k: TagKind,
    warns: &mut Vec<Warning>,
) -> (r: Option<Vec<PropertyValue>>)
    requires
        pos <= end <= buf@.len(),
        elem_kind_ok(k),
    ensures
        r matches Some(items) ==> items@.len() <= 0xffff_ffff && (forall|j: int|
            0 <= j < items@.len() ==> wf_item(k, #[trigger] items@[j])) && buf@.subrange(
            pos as int,
            end as int,
        ) == crate::wire::le32(items@.len() as u32) + enc_items(k, items@),
    decreases end - pos, 1int,
{
    let (count, p0) = match read_u32(buf, pos, end) {
        Ok(t) => t,
        Err(_) => {
            return None;
        },
    };
    let mut items: Vec<PropertyValue> = Vec::new();
    let mut p = p0;
    let mut i: u32 = 0;
    while i < count
        invariant
            pos < p0 <= p <= end <= buf@.len(),
            0 <= i <= count,
            items@.len() == i,
            elem_kind_ok(k),
            forall|j: int| 0 <= j < items@.len() ==> wf_item(k, #[trigger] items@[j]),
            buf@.subrange(p0 as int, p as int) == enc_items(k, items@),
        decreases count - i,
    {
        let (v, pn) = match decode_item(buf, p, end, k, warns) {
            Some(t) => t,
            None => {
                return None;
            },
        };
        proof {
            lemma_items_push(k, items@, v);
            lemma_split(buf@, p0 as int, p as int, pn as int);
        }
        items.push(v);
        p = pn;
        i = i + 1;
    }
    if p != end {
        return None;
    }
    proof {
        lemma_split(buf@, pos as int, p0 as int, end as int);
        assert(items@.len() == count);
        assert(buf@.subrange(pos as int, end as int) == crate::wire::le32(items@.len() as u32)
            + enc_items(k, items@));
    }
    Some(items)
}

/// Decodes an entry count and that many bare key/value pairs, consuming
/// the whole window.
fn decode_map_pairs(
    buf: &Vec<u8>,
    pos: usize,
    end: usize,
    ktag: TagKind,
    vtag: TagKind,
    warns: &mut Vec<Warning>,
) -> (r: Option<Vec<MapPair>>)
    requires
        pos <= end <= buf@.len(),
        elem_kind_ok(ktag),
        elem_kind_ok(vtag),
    ensures
        r matches Some(pairs) ==> pairs@.len() <= 0xffff_ffff && (forall|j: int|
            0 <= j < pairs@.len() ==> wf_item(ktag, (#[trigger] pairs@[j]).key) && wf_item(
                vtag,
                pairs@[j].value,
            )) && buf@.subrange(pos as int, end as int) == crate::wire::le32(
            pairs@.len() as u32,
        ) + enc_pairs(ktag, vtag, pairs@),
    decreases end - pos, 1int,
{
    let (count, p0) = match read_u32(buf, pos, end) {
        Ok(t) => t,
        Err(_) => {
            return None;
        },
    };
    let mut pairs: Vec<MapPair> = Vec::new();
    let mut p = p0;
    let mut i: u32 = 0;
    while i < count
        invariant
            pos < p0 <= p <= end <= buf@.len(),
            0 <= i <= count,
            pairs@.len() == i,
            elem_kind_ok(ktag) && elem_kind_ok(vtag),
            forall|j: int|
                0 <= j < pairs@.len() ==> wf_item(ktag, (#[trigger] pairs@[j]).key) && wf_item(
                    vtag,
                    pairs@[j].value,
                ),
            buf@.subrange(p0 as int, p as int) == enc_pairs(ktag, vtag, pairs@),
        decreases count - i,
    {
        let (kv, pk) = match decode_item(buf, p, end, ktag, warns) {
            Some(t) => t,
            None => {
                return None;
            },
        };
        let (vv, pn) = match decode_item(buf, pk, end, vtag, warns) {
            Some(t) => t,
            None => {
                return None;
            },
        };
        let pair = MapPair { key: kv, value: vv };
        proof {
            lemma_pairs_push(ktag, vtag, pairs@, pair);
            lemma_split(buf@, p as int, pk as int, pn as int);
            lemma_split(buf@, p0 as int, p as int, pn as int);
        }
        pairs.push(pair);
        p = pn;
        i = i + 1;
    }
    if p != end {
        return None;
    }
    proof {
        lemma_split(buf@, pos as int, p0 as int, end as int);
        assert(pairs@.len() == count);
        assert(buf@.subrange(pos as int, end as int) == crate::wire::le32(pairs@.len() as u32)
            + enc_pairs(ktag, vtag, pairs@));
    }
    Some(pairs)
}

/// Whether a type-name string is the UTF-8 spelling of a recognized tag.
pub open spec fn tag_spelled(tstr: GvasString, k: TagKind) -> bool {
    tstr matches GvasString::Utf8(b) && b@ == tag_name(k)
}

/// What every property-body decoder guarantees on success: the tag string
/// already consumed, followed by the bytes of this call, re-encode the
/// returned value's body exactly.
pub open spec fn body_post(
    buf: Seq<u8>,
    p2: int,
    end: int,
    tstr: GvasString,
    t: (PropertyValue, usize),
) -> bool {
    &&& p2 < t.1 <= end
    &&& wf_value(t.0)
    &&& enc_value_payload(t.0).len() <= 0xffff_ffff_ffff_ffff
    &&& enc_str(tstr) + buf.subrange(p2, t.1 as int) == enc_body(t.0)
}

/// Whether a type-name string matches no recognized tag.
pub open spec fn unknown_tag(s: GvasString) -> bool {
    forall|k: TagKind| !(s matches GvasString::Utf8(b) && b@ == #[trigger] tag_name(k))
}

/// Whether the window opens, at `pos`, with the byte image of a
/// well-formed property whose type tag matches no recognized kind.
pub open spec fn opaque_record_at(b: Seq<u8>, pos: int, end: int, e0: Entry) -> bool {
    &&& wf_entry(e0)
    &&& e0.value matches PropertyValue::Opaque { tag: RawTag::Other { name: tn }, .. }
        && unknown_tag(tn)
    &&& pos + enc_entry(e0).len() <= end
    &&& b.subrange(pos, pos + enc_entry(e0).len() as int) == enc_entry(e0)
}

/// Whether the window opens, at `pos`, with the byte image of a
/// well-formed scalar property.
pub open spec fn scalar_record_at(b: Seq<u8>, pos: int, end: int, e0: Entry) -> bool {
    &&& wf_entry(e0)
    &&& e0.value is Scalar
    &&& pos + enc_entry(e0).len() <= end
    &&& b.subrange(pos, pos + enc_entry(e0).len() as int) == enc_entry(e0)
}

/// The byte layout of a scalar property: name, its kind's tag string,
/// 64-bit payload length, then the scalar payload.
pub proof fn lemma_scalar_layout(e0: Entry)
    ensures
        e0.value matches PropertyValue::Scalar(p0) ==> ({
            let la = enc_str(e0.name).len() as int;
            let lt = enc_str_utf8(tag_name(scalar_kind(p0))).len() as int;
            &&& tag_name(scalar_kind(p0)).len() + 1 <= 0x7fff_ffff
            &&& enc_entry(e0).len() == la + lt + 8 + enc_scalar(p0).len()
            &&& enc_entry(e0).subrange(0, la) == enc_str(e0.name)
            &&& enc_entry(e0).subrange(la, la + lt) == enc_str_utf8(tag_name(scalar_kind(p0)))
            &&& enc_entry(e0).subrange(la + lt, la + lt + 8) == crate::wire::le64(
                enc_scalar(p0).len() as u64,
            )
            &&& enc_entry(e0).subrange(la + lt + 8, la + lt + 8 + enc_scalar(p0).len() as int)
                == enc_scalar(p0)
        }),
{
    match e0.value {
        PropertyValue::Scalar(p0) => {
            let la = enc_str(e0.name).len() as int;
            let lt = enc_str_utf8(tag_name(scalar_kind(p0))).len() as int;
            assert(tag_name(scalar_kind(p0)).len() <= 14);
            assert(enc_value_payload(e0.value) == enc_scalar(p0));
            assert(crate::wire::enc_mid(e0.value) == Seq::<u8>::empty());
            assert(crate::wire::enc_head(e0.value) == enc_str_utf8(tag_name(scalar_kind(p0))));
            assert(enc_entry(e0).subrange(0, la) =~= enc_str(e0.name));
            assert(enc_entry(e0).subrange(la, la + lt) =~= enc_str_utf8(tag_name(scalar_kind(
                p0,
            ))));
            assert(enc_entry(e0).subrange(la + lt, la + lt + 8) =~= crate::wire::le64(
                enc_scalar(p0).len() as u64,
            ));
            assert(enc_entry(e0).subrange(la + lt + 8, la + lt + 8 + enc_scalar(p0).len() as int)
                =~= enc_scalar(p0));
        },
        _ => {},
    }
}

/// The byte layout of an unknown-tag opaque property: name, tag string,
/// 64-bit length, then the raw payload.
pub proof fn lemma_opaque_layout(e0: Entry)
    ensures
        e0.value matches PropertyValue::Opaque { tag: RawTag::Other { name: tn }, bytes } ==> ({
            let la = enc_str(e0.name).len() as int;
            let lt = enc_str(tn).len() as int;
            &&& enc_entry(e0).len() == la + lt + 8 + bytes@.len()
            &&& enc_entry(e0).subrange(0, la) == enc_str(e0.name)
            &&& enc_entry(e0).subrange(la, la + lt) == enc_str(tn)
            &&& enc_entry(e0).subrange(la + lt, la + lt + 8) == crate::wire::le64(
                bytes@.len() as u64,
            )
        }),
{
    match e0.value {
        PropertyValue::Opaque { tag: RawTag::Other { name: tn }, bytes } => {
            let la = enc_str(e0.name).len() as int;
            let lt = enc_str(tn).len() as int;
            assert(enc_value_payload(e0.value) == bytes@);
            assert(crate::wire::enc_mid(e0.value) == Seq::<u8>::empty());
            assert(crate::wire::enc_head(e0.value) == enc_str(tn));
            assert(enc_entry(e0).subrange(0, la) =~= enc_str(e0.name));
            assert(enc_entry(e0).subrange(la, la + lt) =~= enc_str(tn));
            assert(enc_entry(e0).subrange(la + lt, la + lt + 8) =~= crate::wire::le64(
                bytes@.len() as u64,
            ));
        },
        _ => {},
    }
}

/// Decodes the body of a property whose type tag is unrecognized: the
/// declared length, then that many raw bytes, kept verbatim.
fn body_unknown(
    buf: &Vec<u8>,
    p2: usize,
    end: usize,
    tstr: GvasString,
    name: &GvasString,
    warns: &mut Vec<Warning>,
) -> (r: Result<(PropertyValue, usize), DecodeError>)
    requires
        p2 <= end <= buf@.len(),
        wf_str(tstr),
    ensures
        r matches Ok(t) ==> body_post(buf@, p2 as int, end as int, tstr, t),
        r matches Err(e) ==> e is TruncatedStream || e is InvalidEncoding,
        forall|l0: u64|
            p2 + 8 <= end && buf@.subrange(p2 as int, p2 + 8) == #[trigger] crate::wire::le64(l0)
                && p2 + 8 + l0 <= end ==> (r matches Ok(t) && t.1 == p2 + 8 + l0),
{
    let (len, p3) = match read_u64(buf, p2, end) {
        Ok(t) => t,
        Err(e) => {
            return Err(e);
        },
    };
    if len > (end - p3) as u64 {
        proof {
            assert forall|l0: u64|
                !(p2 + 8 <= end && buf@.subrange(p2 as int, p2 + 8) == crate::wire::le64(l0)
                    && p2 + 8 + l0 <= end) by {
                if p2 + 8 <= end && buf@.subrange(p2 as int, p2 + 8) == crate::wire::le64(l0)
                    && p2 + 8 + l0 <= end {
                    crate::prim::lemma_le64_inj(l0, len);
                }
            }
        }
        return Err(DecodeError::TruncatedStream { offset: p3 });
    }
    proof {
        assert forall|l0: u64|
            p2 + 8 <= end && buf@.subrange(p2 as int, p2 + 8) == crate::wire::le64(l0) && p2 + 8
                + l0 <= end implies p3 + len == p2 + 8 + l0 by {
            crate::prim::lemma_le64_inj(l0, len);
        }
    }
    warns.push(Warning::UnknownTypeTag { name: name.clone(), tag: tstr.clone() });
    let n = len as usize;
    let p4 = p3 + n;
    let bytes = copy_range(buf, p3, p4);
    let v = PropertyValue::Opaque { tag: RawTag::Other { name: tstr }, bytes };
    proof {
        lemma_split(buf@, p2 as int, p3 as int, p4 as int);
        assert(enc_str(tstr) + buf@.subrange(p2 as int, p4 as int) =~= enc_body(v));
    }
    Ok((v, p4))
}

/// Decodes the body of a struct property: struct type name, declared
/// length, GUID, then a nested property stream filling the length exactly;
/// a stream that does not fill it demotes the property to raw bytes.
fn body_struct(
    buf: &Vec<u8>,
    p2: usize,
    end: usize,
    tstr: GvasString,
    name: &GvasString,
    warns: &mut Vec<Warning>,
) -> (r: Result<(PropertyValue, usize), DecodeError>)
    requires
        p2 <= end <= buf@.len(),
        tag_spelled(tstr, TagKind::Structure),
    ensures
        r matches Ok(t) ==> body_post(buf@, p2 as int, end as int, tstr, t),
        r matches Err(e) ==> e is TruncatedStream || e is InvalidEncoding,
    decreases end - p2, 9int,
{
    let (stype, p3) = match read_str(buf, p2, end) {
        Ok(t) => t,
        Err(e) => {
            return Err(e);
        },
    };
    let (len, p4) = match read_u64(buf, p3, end) {
        Ok(t) => t,
        Err(e) => {
            return Err(e);
        },
    };
    let (guid, p5) = match read_guid(buf, p4, end) {
        Ok(t) => t,
        Err(e) => {
            return Err(e);
        },
    };
    if len > (end - p5) as u64 {
        return Err(DecodeError::TruncatedStream { offset: p5 });
    }
    let n = len as usize;
    let pend = p5 + n;
    let value = match decode_value(buf, p5, pend, TagCtx::StructT { stype, guid }, warns) {
        Ok(v) => v,
        Err(c) => {
            warns.push(Warning::LengthMismatch { name: name.clone(), declared: len });
            let bytes = copy_range(buf, p5, pend);
            match c {
                TagCtx::StructT { stype, guid } => PropertyValue::Opaque {
                    tag: RawTag::Structure { stype, guid },
                    bytes,
                },
                _ => {
                    proof {
                        assert(false);
                    }
                    PropertyValue::Opaque { tag: RawTag::Other { name: tstr }, bytes }
                },
            }
        },
    };
    proof {
        lemma_split(buf@, p2 as int, p3 as int, pend as int);
        lemma_split(buf@, p3 as int, p4 as int, pend as int);
        lemma_split(buf@, p4 as int, p5 as int, pend as int);
        assert(enc_str(tstr) + buf@.subrange(p2 as int, pend as int) =~= enc_body(value));
    }
    Ok((value, pend))
}

/// Decodes the body of an array or set property: element type name,
/// declared length, then a count and the bare elements; an unknown element
/// kind or a malformed element list is kept as raw bytes.
#[verifier::rlimit(100)]
#[verifier::spinoff_prover]
fn body_collection(
    buf: &Vec<u8>,
    p2: usize,
    end: usize,
    tstr: GvasString,
    name: &GvasString,
    is_array: bool,
    warns: &mut Vec<Warning>,
) -> (r: Result<(PropertyValue, usize), DecodeError>)
    requires
        p2 <= end <= buf@.len(),
        is_array ==> tag_spelled(tstr, TagKind::ArrayOf),
        !is_array ==> tag_spelled(tstr, TagKind::SetOf),
    ensures
        r matches Ok(t) ==> body_post(buf@, p2 as int, end as int, tstr, t),
        r matches Err(e) ==> e is TruncatedStream || e is InvalidEncoding,
    decreases end - p2, 9int,
{
    let (dstr, p3) = match read_str(buf, p2, end) {
        Ok(t) => t,
        Err(e) => {
            return Err(e);
        },
    };
    let (len, p4) = match read_u64(buf, p3, end) {
        Ok(t) => t,
        Err(e) => {
            return Err(e);
        },
    };
    if len > (end - p4) as u64 {
        return Err(DecodeError::TruncatedStream { offset: p4 });
    }
    let n = len as usize;
    let pend = p4 + n;
    let elem_kind = match kind_of_str(&dstr) {
        Some(ek) => if is_elem_kind(ek) {
            Some(ek)
        } else {
            None
        },
        None => None,
    };
    let value = match elem_kind {
        None => {
            warns.push(Warning::UnknownTypeTag { name: name.clone(), tag: dstr.clone() });
            let bytes = copy_range(buf, p4, pend);
            if is_array {
                PropertyValue::Opaque { tag: RawTag::ArrayOf { elem: dstr }, bytes }
            } else {
                PropertyValue::Opaque { tag: RawTag::SetOf { elem: dstr }, bytes }
            }
        },
        Some(ek) => {
            let ctx = if is_array {
                TagCtx::ArrayT { elem: ek }
            } else {
                TagCtx::SetT { elem: ek }
            };
            match decode_value(buf, p4, pend, ctx, warns) {
                Ok(v) => v,
                Err(_) => {
                    warns.push(Warning::LengthMismatch { name: name.clone(), declared: len });
                    let bytes = copy_range(buf, p4, pend);
                    if is_array {
                        PropertyValue::Opaque { tag: RawTag::ArrayOf { elem: dstr }, bytes }
                    } else {
                        PropertyValue::Opaque { tag: RawTag::SetOf { elem: dstr }, bytes }
                    }
                },
            }
        },
    };
    proof {
        lemma_split(buf@, p2 as int, p3 as int, pend as int);
        lemma_split(buf@, p3 as int, p4 as int, pend as int);
        assert(enc_str(tstr) + buf@.subrange(p2 as int, pend as int) =~= enc_body(value));
    }
    Ok((value, pend))
}

/// Decodes the body of a map property: key and value type names, declared
/// length, then a count and the bare key/value pairs.
#[verifier::rlimit(100)]
#[verifier::spinoff_prover]
fn body_map(
    buf: &Vec<u8>,
    p2: usize,
    end: usize,
    tstr: GvasString,
    name: &GvasString,
    warns: &mut Vec<Warning>,
) -> (r: Result<(PropertyValue, usize), DecodeError>)
    requires
        p2 <= end <= buf@.len(),
        tag_spelled(tstr, TagKind::MapOf),
    ensures
        r matches Ok(t) ==> body_post(buf@, p2 as int, end as int, tstr, t),
        r matches Err(e) ==> e is TruncatedStream || e is InvalidEncoding,
    decreases end - p2, 9int,
{
    let (kstr, p3) = match read_str(buf, p2, end) {
        Ok(t) => t,
        Err(e) => {
            return Err(e);
        },
    };
    let (vstr, p4) = match read_str(buf, p3, end) {
        Ok(t) => t,
        Err(e) => {
            return Err(e);
        },
    };
    let (len, p5) = match read_u64(buf, p4, end) {
        Ok(t) => t,
        Err(e) => {
            return Err(e);
        },
    };
    if len > (end - p5) as u64 {
        return Err(DecodeError::TruncatedStream { offset: p5 });
    }
    let n = len as usize;
    let pend = p5 + n;
    let kk = match kind_of_str(&kstr) {
        Some(x) => if is_elem_kind(x) {
            Some(x)
        } else {
            None
        },
        None => None,
    };
    let vk = match kind_of_str(&vstr) {
        Some(x) => if is_elem_kind(x) {
            Some(x)
        } else {
            None
        },
        None => None,
    };
    let value = match (kk, vk) {
        (Some(kt), Some(vt)) => {
            match decode_value(buf, p5, pend, TagCtx::MapT { ktag: kt, vtag: vt }, warns) {
                Ok(v) => v,
                Err(_) => {
                    warns.push(Warning::LengthMismatch { name: name.clone(), declared: len });
                    let bytes = copy_range(buf, p5, pend);
                    PropertyValue::Opaque { tag: RawTag::MapOf { ktag: kstr, vtag: vstr }, bytes }
                },
            }
        },
        _ => {
            let bad = if matches!(kk, None) { kstr.clone() } else { vstr.clone() };
            warns.push(Warning::UnknownTypeTag { name: name.clone(), tag: bad });
            let bytes = copy_range(buf, p5, pend);
            PropertyValue::Opaque { tag: RawTag::MapOf { ktag: kstr, vtag: vstr }, bytes }
        },
    };
    proof {
        lemma_split(buf@, p2 as int, p3 as int, pend as int);
        lemma_split(buf@, p3 as int, p4 as int, pend as int);
        lemma_split(buf@, p4 as int, p5 as int, pend as int);
        assert(enc_str(tstr) + buf@.subrange(p2 as int, pend as int) =~= enc_body(value));
    }
    Ok((value, pend))
}

/// Decodes the body of an enum property: enum type name, declared length,
/// then the selected value name filling the length exactly.
fn body_enum(
    buf: &Vec<u8>,
    p2: usize,
    end: usize,
    tstr: GvasString,
    name: &GvasString,
    warns: &mut Vec<Warning>,
) -> (r: Result<(PropertyValue, usize), DecodeError>)
    requires
        p2 <= end <= buf@.len(),
        tag_spelled(tstr, TagKind::Enumeration),
    ensures
        r matches Ok(t) ==> body_post(buf@, p2 as int, end as int, tstr, t),
        r matches Err(e) ==> e is TruncatedStream || e is InvalidEncoding,
    decreases end - p2, 9int,
{
    let (etype, p3) = match read_str(buf, p2, end) {
        Ok(t) => t,
        Err(e) => {
            return Err(e);
        },
    };
    let (len, p4) = match read_u64(buf, p3, end) {
        Ok(t) => t,
        Err(e) => {
            return Err(e);
        },
    };
    if len > (end - p4) as u64 {
        return Err(DecodeError::TruncatedStream { offset: p4 });
    }
    let n = len as usize;
    let pend = p4 + n;
    let value = match decode_value(buf, p4, pend, TagCtx::EnumT { etype }, warns) {
        Ok(v) => v,
        Err(c) => {
            warns.push(Warning::LengthMismatch { name: name.clone(), declared: len });
            let bytes = copy_range(buf, p4, pend);
            match c {
                TagCtx::EnumT { etype } => PropertyValue::Opaque {
                    tag: RawTag::Enumeration { etype },
                    bytes,
                },
                _ => {
                    proof {
                        assert(false);
                    }
                    PropertyValue::Opaque { tag: RawTag::Other { name: tstr }, bytes }
                },
            }
        },
    };
    proof {
        lemma_split(buf@, p2 as int, p3 as int, pend as int);
        lemma_split(buf@, p3 as int, p4 as int, pend as int);
        assert(enc_str(tstr) + buf@.subrange(p2 as int, pend as int) =~= enc_body(value));
    }
    Ok((value, pend))
}

/// Decodes the body of a scalar, object-reference or text property: the
/// declared length, then the payload filling it exactly.
fn body_plain(
    buf: &Vec<u8>,
    p2: usize,
    end: usize,
    tstr: GvasString,
    name: &GvasString,
    k: TagKind,
    warns: &mut Vec<Warning>,
) -> (r: Result<(PropertyValue, usize), DecodeError>)
    requires
        p2 <= end <= buf@.len(),
        tag_spelled(tstr, k),
        crate::wire::is_scalar_kind(k) || k == TagKind::ObjectRef || k == TagKind::Text,
    ensures
        r matches Ok(t) ==> body_post(buf@, p2 as int, end as int, tstr, t),
        r matches Err(e) ==> e is TruncatedStream || e is InvalidEncoding,
        forall|p0: PrimitiveValue|
            (scalar_kind(p0) == k && wf_scalar(p0) && p2 + 8 <= end && buf@.subrange(
                p2 as int,
                p2 + 8,
            ) == crate::wire::le64(enc_scalar(p0).len() as u64) && p2 + 8 + enc_scalar(
                p0,
            ).len() <= end && buf@.subrange(p2 + 8, p2 + 8 + enc_scalar(p0).len() as int)
                == #[trigger] enc_scalar(p0)) ==> (r matches Ok(t) && t.1 == p2 + 8 + enc_scalar(
                p0,
            ).len() && (t.0 matches PropertyValue::Scalar(pv) && scalar_kind(pv) == k
                && enc_scalar(pv) == enc_scalar(p0))),
    decreases end - p2, 9int,
{
    let (len, p3) = match read_u64(buf, p2, end) {
        Ok(t) => t,
        Err(e) => {
            return Err(e);
        },
    };
    proof {
        assert forall|p0: PrimitiveValue|
            buf@.subrange(p2 as int, p2 + 8) == crate::wire::le64(
                enc_scalar(p0).len() as u64,
            ) && enc_scalar(p0).len() <= 0xffff_ffff_ffff_ffff implies len == enc_scalar(
            p0,
        ).len() by {
            crate::prim::lemma_le64_inj(len, enc_scalar(p0).len() as u64);
        }
    }
    if len > (end - p3) as u64 {
        return Err(DecodeError::TruncatedStream { offset: p3 });
    }
    let n = len as usize;
    let pend = p3 + n;
    let ctx = if matches!(k, TagKind::Text) {
        TagCtx::TextT
    } else {
        TagCtx::ScalarT(k)
    };
    let value = match decode_value(buf, p3, pend, ctx, warns) {
        Ok(v) => v,
        Err(_) => {
            warns.push(Warning::LengthMismatch { name: name.clone(), declared: len });
            let bytes = copy_range(buf, p3, pend);
            PropertyValue::Opaque { tag: RawTag::Other { name: tstr }, bytes }
        },
    };
    proof {
        lemma_split(buf@, p2 as int, p3 as int, pend as int);
        assert(enc_str(tstr) + buf@.subrange(p2 as int, pend as int) =~= enc_body(value));
    }
    Ok((value, pend))
}

/// Decodes one step of a property stream: the terminator, or one named
/// property.  A type tag the decoder does not recognize, or a payload
/// whose structure does not fill its declared length, demotes the property
/// to an opaque blob of the declared length; only a length that runs past
/// the window, or a malformed name, tag or descriptor string, is fatal.
#[verifier::rlimit(100)]
#[verifier::spinoff_prover]
fn decode_entry(buf: &Vec<u8>, pos: usize, end: usize, warns: &mut Vec<Warning>) -> (r: Result<
    (EntryStep, usize),
    DecodeError,
>)
    requires
        pos <= end <= buf@.len(),
    ensures
        r matches Ok(t) ==> pos < t.1 <= end && (t.0 is End ==> buf@.subrange(
            pos as int,
            t.1 as int,
        ) == sentinel()) && (t.0 matches EntryStep::Prop(e) ==> wf_entry(e) && buf@.subrange(
            pos as int,
            t.1 as int,
        ) == enc_entry(e)),
        end == pos + 9 && buf@.subrange(pos as int, end as int) == sentinel() ==> (r matches Ok(
            t,
        ) && t.0 is End && t.1 == pos + 9),
        r matches Err(e) ==> e is TruncatedStream || e is InvalidEncoding,
        forall|e0: Entry|
            #[trigger] opaque_record_at(buf@, pos as int, end as int, e0) ==> (r matches Ok(t)
                && t.0 is Prop && t.1 == pos + enc_entry(e0).len()),
        forall|e0: Entry|
            #[trigger] scalar_record_at(buf@, pos as int, end as int, e0) ==> (r matches Ok(t)
                && t.1 == pos + enc_entry(e0).len() && (t.0 matches EntryStep::Prop(e2) && (
            e0.value matches PropertyValue::Scalar(p0) ==> (e2.value matches
            PropertyValue::Scalar(pv) && scalar_kind(pv) == scalar_kind(p0) && enc_scalar(pv)
                == enc_scalar(p0))))),
    decreases end - pos, 0int,
{
    let nv0: Vec<u8> = vec![78u8, 111u8, 110u8, 101u8];
    let ghost wit = GvasString::Utf8(nv0);
    proof {
        assert(nv0@ =~= none_name());
        assert(enc_str(wit) == sentinel());
        crate::prim::lemma_enc_str_shape(wit);
    }
    let (name, p1) = match read_str(buf, pos, end) {
        Ok(t) => t,
        Err(e) => {
            proof {
                if end == pos + 9 && buf@.subrange(pos as int, end as int) == sentinel() {
                    assert(buf@.subrange(pos as int, pos + enc_str(wit).len()) == enc_str(wit));
                    assert(crate::wire::str_prefix_at(buf@, pos as int, end as int, wit));
                    assert(false);
                }
                assert forall|e0: Entry| !opaque_record_at(
                    buf@,
                    pos as int,
                    end as int,
                    e0,
                ) by {
                    if opaque_record_at(buf@, pos as int, end as int, e0) {
                        lemma_opaque_layout(e0);
                        crate::prim::lemma_sub_prefix(
                            buf@,
                            pos as int,
                            enc_entry(e0),
                            0,
                            enc_str(e0.name),
                        );
                        assert(crate::wire::str_prefix_at(buf@, pos as int, end as int, e0.name));
                        assert(false);
                    }
                }
                assert forall|e0: Entry| !scalar_record_at(
                    buf@,
                    pos as int,
                    end as int,
                    e0,
                ) by {
                    if scalar_record_at(buf@, pos as int, end as int, e0) {
                        lemma_scalar_layout(e0);
                        crate::prim::lemma_sub_prefix(
                            buf@,
                            pos as int,
                            enc_entry(e0),
                            0,
                            enc_str(e0.name),
                        );
                        assert(crate::wire::str_prefix_at(buf@, pos as int, end as int, e0.name));
                        assert(false);
                    }
                }
            }
            return Err(e);
        },
    };
    proof {
        if end == pos + 9 && buf@.subrange(pos as int, end as int) == sentinel() {
            let w = buf@.subrange(pos as int, end as int);
            assert forall|i: int| 0 <= i < enc_str(name).len() implies w[i] == enc_str(name)[i]
                by {
                assert(buf@.subrange(pos as int, p1 as int)[i] == enc_str(name)[i]);
            }
            assert(w.subrange(0, enc_str(name).len() as int) =~= enc_str(name));
            assert(w.subrange(0, enc_str(wit).len() as int) =~= enc_str(wit));
            crate::prim::lemma_str_prefix_det(name, wit, w);
            assert(is_none_name(name));
            assert(p1 == pos + 9);
        }
        assert forall|e0: Entry|
            opaque_record_at(buf@, pos as int, end as int, e0) implies (crate::wire::same_string(
                name,
                e0.name,
            ) && !is_none_name(name) && p1 == pos + enc_str(e0.name).len()) by {
            lemma_opaque_layout(e0);
            crate::prim::lemma_sub_prefix(buf@, pos as int, enc_entry(e0), 0, enc_str(e0.name));
            let w = buf@.subrange(pos as int, end as int);
            assert forall|i: int| 0 <= i < enc_str(name).len() implies w[i] == enc_str(name)[i]
                by {
                assert(buf@.subrange(pos as int, p1 as int)[i] == enc_str(name)[i]);
            }
            assert forall|i: int| 0 <= i < enc_str(e0.name).len() implies w[i] == enc_str(
                e0.name,
            )[i] by {
                assert(buf@.subrange(pos as int, pos + enc_str(e0.name).len() as int)[i]
                    == enc_str(e0.name)[i]);
            }
            assert(w.subrange(0, enc_str(name).len() as int) =~= enc_str(name));
            assert(w.subrange(0, enc_str(e0.name).len() as int) =~= enc_str(e0.name));
            crate::prim::lemma_str_prefix_det(name, e0.name, w);
            assert(!is_none_name(e0.name));
            match (name, e0.name) {
                (GvasString::Utf8(x), GvasString::Utf8(y)) => {
                    assert(x@ == y@);
                },
                _ => {},
            }
        }
        assert forall|e0: Entry|
            scalar_record_at(buf@, pos as int, end as int, e0) implies (!is_none_name(name)
                && p1 == pos + enc_str(e0.name).len()) by {
            lemma_scalar_layout(e0);
            crate::prim::lemma_sub_prefix(buf@, pos as int, enc_entry(e0), 0, enc_str(e0.name));
            let w = buf@.subrange(pos as int, end as int);
            assert forall|i: int| 0 <= i < enc_str(name).len() implies w[i] == enc_str(name)[i]
                by {
                assert(buf@.subrange(pos as int, p1 as int)[i] == enc_str(name)[i]);
            }
            assert forall|i: int| 0 <= i < enc_str(e0.name).len() implies w[i] == enc_str(
                e0.name,
            )[i] by {
                assert(buf@.subrange(pos as int, pos + enc_str(e0.name).len() as int)[i]
                    == enc_str(e0.name)[i]);
            }
            assert(w.subrange(0, enc_str(name).len() as int) =~= enc_str(name));
            assert(w.subrange(0, enc_str(e0.name).len() as int) =~= enc_str(e0.name));
            crate::prim::lemma_str_prefix_det(name, e0.name, w);
            assert(!is_none_name(e0.name));
            match (name, e0.name) {
                (GvasString::Utf8(x), GvasString::Utf8(y)) => {
                    assert(x@ == y@);
                },
                _ => {},
            }
        }
    }
    if is_terminator(&name) {
        proof {
            assert(enc_str(name) == sentinel());
            assert forall|e0: Entry| !opaque_record_at(buf@, pos as int, end as int, e0) by {}
            assert forall|e0: Entry| !scalar_record_at(buf@, pos as int, end as int, e0) by {}
        }
        return Ok((EntryStep::End, p1));
    }
    let (tstr, p2) = match read_str(buf, p1, end) {
        Ok(t) => t,
        Err(e) => {
            proof {
                assert forall|e0: Entry| !opaque_record_at(
                    buf@,
                    pos as int,
                    end as int,
                    e0,
                ) by {
                    if opaque_record_at(buf@, pos as int, end as int, e0) {
                        lemma_opaque_layout(e0);
                        match e0.value {
                            PropertyValue::Opaque {
                                tag: RawTag::Other { name: tn },
                                bytes,
                            } => {
                                crate::prim::lemma_sub_prefix(
                                    buf@,
                                    pos as int,
                                    enc_entry(e0),
                                    enc_str(e0.name).len() as int,
                                    enc_str(tn),
                                );
                                assert(crate::wire::str_prefix_at(
                                    buf@,
                                    p1 as int,
                                    end as int,
                                    tn,
                                ));
                                assert(false);
                            },
                            _ => {},
                        }
                    }
                }
                assert forall|e0: Entry| !scalar_record_at(
                    buf@,
                    pos as int,
                    end as int,
                    e0,
                ) by {
                    if scalar_record_at(buf@, pos as int, end as int, e0) {
                        lemma_scalar_layout(e0);
                        match e0.value {
                            PropertyValue::Scalar(p0) => {
                                crate::prim::lemma_sub_prefix(
                                    buf@,
                                    pos as int,
                                    enc_entry(e0),
                                    enc_str(e0.name).len() as int,
                                    enc_str_utf8(tag_name(scalar_kind(p0))),
                                );
                                assert(crate::wire::utf8_prefix_at(
                                    buf@,
                                    p1 as int,
                                    end as int,
                                    tag_name(scalar_kind(p0)),
                                ));
                                assert(false);
                            },
                            _ => {},
                        }
                    }
                }
            }
            return Err(e);
        },
    };
    proof {
        assert forall|e0: Entry|
            opaque_record_at(buf@, pos as int, end as int, e0) implies (
            e0.value matches PropertyValue::Opaque { tag: RawTag::Other { name: tn }, bytes }
                ==> crate::wire::same_string(tstr, tn) && p2 == p1 + enc_str(tn).len()
                && buf@.subrange(p2 as int, p2 + 8) == crate::wire::le64(bytes@.len() as u64)
                && p2 + 8 + bytes@.len() <= end && pos + enc_entry(e0).len() == p2 + 8
                + bytes@.len()) by {
            lemma_opaque_layout(e0);
            match e0.value {
                PropertyValue::Opaque { tag: RawTag::Other { name: tn }, bytes } => {
                    let la = enc_str(e0.name).len() as int;
                    let lt = enc_str(tn).len() as int;
                    crate::prim::lemma_sub_prefix(buf@, pos as int, enc_entry(e0), la, enc_str(
                        tn,
                    ));
                    let w2 = buf@.subrange(p1 as int, end as int);
                    assert forall|i: int| 0 <= i < enc_str(tstr).len() implies w2[i] == enc_str(
                        tstr,
                    )[i] by {
                        assert(buf@.subrange(p1 as int, p2 as int)[i] == enc_str(tstr)[i]);
                    }
                    assert forall|i: int| 0 <= i < lt implies w2[i] == enc_str(tn)[i] by {
                        assert(buf@.subrange(p1 as int, p1 + lt)[i] == enc_str(tn)[i]);
                    }
                    assert(w2.subrange(0, enc_str(tstr).len() as int) =~= enc_str(tstr));
                    assert(w2.subrange(0, lt) =~= enc_str(tn));
                    crate::prim::lemma_str_prefix_det(tstr, tn, w2);
                    crate::prim::lemma_sub_prefix(
                        buf@,
                        pos as int,
                        enc_entry(e0),
                        la + lt,
                        crate::wire::le64(bytes@.len() as u64),
                    );
                },
                _ => {},
            }
        }
        assert forall|e0: Entry|
            scalar_record_at(buf@, pos as int, end as int, e0) implies (
            e0.value matches PropertyValue::Scalar(p0) ==> (tstr matches GvasString::Utf8(tb)
                && tb@ == tag_name(scalar_kind(p0))) && p2 == p1 + enc_str_utf8(tag_name(
                scalar_kind(p0),
            )).len() && buf@.subrange(p2 as int, p2 + 8) == crate::wire::le64(
                enc_scalar(p0).len() as u64,
            ) && buf@.subrange(p2 + 8, p2 + 8 + enc_scalar(p0).len() as int) == enc_scalar(p0)
                && p2 + 8 + enc_scalar(p0).len() <= end && pos + enc_entry(e0).len() == p2 + 8
                + enc_scalar(p0).len()) by {
            lemma_scalar_layout(e0);
            match e0.value {
                PropertyValue::Scalar(p0) => {
                    let la = enc_str(e0.name).len() as int;
                    let bs = tag_name(scalar_kind(p0));
                    let lt = enc_str_utf8(bs).len() as int;
                    crate::prim::lemma_sub_prefix(buf@, pos as int, enc_entry(e0), la,
                        enc_str_utf8(bs));
                    let w2 = buf@.subrange(p1 as int, end as int);
                    assert forall|i: int| 0 <= i < enc_str(tstr).len() implies w2[i] == enc_str(
                        tstr,
                    )[i] by {
                        assert(buf@.subrange(p1 as int, p2 as int)[i] == enc_str(tstr)[i]);
                    }
                    assert forall|i: int| 0 <= i < lt implies w2[i] == enc_str_utf8(bs)[i] by {
                        assert(buf@.subrange(p1 as int, p1 + lt)[i] == enc_str_utf8(bs)[i]);
                    }
                    assert(w2.subrange(0, enc_str(tstr).len() as int) =~= enc_str(tstr));
                    assert(w2.subrange(0, lt) =~= enc_str_utf8(bs));
                    crate::prim::lemma_str_prefix_det_utf8(tstr, bs, w2);
                    crate::prim::lemma_sub_prefix(buf@, pos as int, enc_entry(e0), la + lt,
                        crate::wire::le64(enc_scalar(p0).len() as u64));
                    crate::prim::lemma_sub_prefix(buf@, pos as int, enc_entry(e0), la + lt + 8,
                        enc_scalar(p0));
                },
                _ => {},
            }
        }
    }
    let un = kind_of_str(&tstr);
    let body = match un {
        None => body_unknown(buf, p2, end, tstr, &name, warns),
        Some(k) => {
            if matches!(k, TagKind::Structure) {
                body_struct(buf, p2, end, tstr, &name, warns)
            } else if matches!(k, TagKind::ArrayOf) {
                body_collection(buf, p2, end, tstr, &name, true, warns)
            } else if matches!(k, TagKind::SetOf) {
                body_collection(buf, p2, end, tstr, &name, false, warns)
            } else if matches!(k, TagKind::MapOf) {
                body_map(buf, p2, end, tstr, &name, warns)
            } else if matches!(k, TagKind::Enumeration) {
                body_enum(buf, p2, end, tstr, &name, warns)
            } else {
                body_plain(buf, p2, end, tstr, &name, k, warns)
            }
        },
    };
    let (value, pend) = match body {
        Ok(t) => t,
        Err(e) => {
            proof {
                assert forall|e0: Entry| !opaque_record_at(
                    buf@,
                    pos as int,
                    end as int,
                    e0,
                ) by {
                    if opaque_record_at(buf@, pos as int, end as int, e0) {
                        match e0.value {
                            PropertyValue::Opaque {
                                tag: RawTag::Other { name: tn },
                                bytes,
                            } => {
                                match un {
                                    Some(k2) => {
                                        assert(!(tn matches GvasString::Utf8(b2) && b2@
                                            == tag_name(k2)));
                                        assert(false);
                                    },
                                    None => {
                                        assert(false);
                                    },
                                }
                            },
                            _ => {},
                        }
                    }
                }
                assert forall|e0: Entry| !scalar_record_at(
                    buf@,
                    pos as int,
                    end as int,
                    e0,
                ) by {
                    if scalar_record_at(buf@, pos as int, end as int, e0) {
                        match e0.value {
                            PropertyValue::Scalar(p0) => {
                                assert(crate::wire::is_scalar_kind(scalar_kind(p0)));
                                match un {
                                    Some(k2) => {
                                        crate::wire::lemma_tag_names_distinct(
                                            k2,
                                            scalar_kind(p0),
                                        );
                                        assert(false);
                                    },
                                    None => {
                                        assert(false);
                                    },
                                }
                            },
                            _ => {},
                        }
                    }
                }
            }
            return Err(e);
        },
    };
    let e = Entry { name, value };
    proof {
        lemma_split(buf@, pos as int, p1 as int, pend as int);
        lemma_split(buf@, p1 as int, p2 as int, pend as int);
        assert(buf@.subrange(pos as int, pend as int) =~= enc_entry(e));
        assert forall|e0: Entry|
            opaque_record_at(buf@, pos as int, end as int, e0) implies pend == pos + enc_entry(
                e0,
            ).len() by {
            match e0.value {
                PropertyValue::Opaque { tag: RawTag::Other { name: tn }, bytes } => {
                    match un {
                        Some(k2) => {
                            assert(!(tn matches GvasString::Utf8(b2) && b2@ == tag_name(k2)));
                            assert(false);
                        },
                        None => {},
                    }
                },
                _ => {},
            }
        }
        assert forall|e0: Entry|
            scalar_record_at(buf@, pos as int, end as int, e0) implies (pend == pos + enc_entry(
                e0,
            ).len() && (e0.value matches PropertyValue::Scalar(p0) ==> (value matches
            PropertyValue::Scalar(pv) && scalar_kind(pv) == scalar_kind(p0) && enc_scalar(pv)
                == enc_scalar(p0)))) by {
            match e0.value {
                PropertyValue::Scalar(p0) => {
                    assert(crate::wire::is_scalar_kind(scalar_kind(p0)));
                    match un {
                        Some(k2) => {
                            crate::wire::lemma_tag_names_distinct(k2, scalar_kind(p0));
                            assert(k2 == scalar_kind(p0));
                        },
                        None => {
                            assert(false);
                        },
                    }
                },
                _ => {},
            }
        }
    }
    Ok((EntryStep::Prop(e), pend))
}

} // verus!
