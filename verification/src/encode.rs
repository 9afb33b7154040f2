//! Property stream encoder: serializes a property tree back to bytes.
//!
//! Every function appends exactly the byte image that the wire
//! specification assigns to its argument, so encoding a decoded tree
//! reproduces the decoded bytes.  Payload lengths are computed by a
//! two-pass scheme: the payload is serialized into a scratch buffer, its
//! length written, then the scratch bytes are appended.

use vstd::prelude::*;
use crate::model::{Entry, GvasString, PrimitiveValue, PropertyValue, RawTag, SaveFile, TagKind};
use crate::prim::{push_bytes, push_str, push_u16, push_u32, push_u64, push_u8, u16_from_i16, u32_from_i32, u64_from_i64, u8_from_i8};
use crate::wire::{enc_body, enc_custom_versions, enc_entry, enc_entry_list, enc_head, enc_item, enc_items, enc_mid, enc_pairs, enc_save, enc_scalar, enc_str_list, enc_str_utf8, enc_stream, enc_value_payload, lemma_custom_versions_push, lemma_entry_list_push, lemma_items_push, lemma_pairs_push, lemma_str_list_push, magic, none_name, sentinel, tag_name, tag_name_vec, wf_entries, wf_entry, wf_item, wf_save, wf_scalar, wf_value};

verus! {

/// Appends a recognized type tag as a length-prefixed string.
fn push_tag(out: &mut Vec<u8>, k: TagKind)
    ensures
        final(out)@ == old(out)@ + enc_str_utf8(tag_name(k)),
{
    let nv = tag_name_vec(k);
    push_str(out, &GvasString::Utf8(nv));
}

/// Appends the terminator name that closes every property stream.
fn push_sentinel(out: &mut Vec<u8>)
    ensures
        final(out)@ == old(out)@ + sentinel(),
{
    let nv: Vec<u8> = vec![78u8, 111u8, 110u8, 101u8];
    proof {
        assert(nv@ =~= none_name());
    }
    push_str(out, &GvasString::Utf8(nv));
}

/// Appends the payload bytes of a scalar.
fn write_scalar(out: &mut Vec<u8>, p: &PrimitiveValue)
    requires
        wf_scalar(*p),
    ensures
        final(out)@ == old(out)@ + enc_scalar(*p),
{
    match p {
        PrimitiveValue::Int8(v) => {
            push_u8(out, u8_from_i8(*v));
        },
        PrimitiveValue::Int16(v) => {
            push_u16(out, u16_from_i16(*v));
        },
        PrimitiveValue::Int32(v) => {
            push_u32(out, u32_from_i32(*v));
        },
        PrimitiveValue::Int64(v) => {
            push_u64(out, u64_from_i64(*v));
        },
        PrimitiveValue::Byte(v) => {
            push_u8(out, *v);
        },
        PrimitiveValue::UInt16(v) => {
            push_u16(out, *v);
        },
        PrimitiveValue::UInt32(v) => {
            push_u32(out, *v);
        },
        PrimitiveValue::UInt64(v) => {
            push_u64(out, *v);
        },
        PrimitiveValue::Float32 { bits } => {
            push_u32(out, *bits);
        },
        PrimitiveValue::Float64 { bits } => {
            push_u64(out, *bits);
        },
        PrimitiveValue::Bool(v) => {
            push_u8(out, if *v { 1u8 } else { 0u8 });
        },
        PrimitiveValue::Str(s) => {
            push_str(out, s);
        },
        PrimitiveValue::Name(s) => {
            push_str(out, s);
        },
    }
}

/// Appends a property's tag block: its type name and descriptor strings.
fn write_head(out: &mut Vec<u8>, v: &PropertyValue)
    requires
        wf_value(*v),
    ensures
        final(out)@ == old(out)@ + enc_head(*v),
{
    match v {
        PropertyValue::Scalar(p) => {
            push_tag(out, crate::wire::scalar_kind_exec(p));
        },
        PropertyValue::Object(_) => {
            push_tag(out, TagKind::ObjectRef);
        },
        PropertyValue::Enum { etype, value: _ } => {
            push_tag(out, TagKind::Enumeration);
            push_str(out, etype);
        },
        PropertyValue::Text { .. } => {
            push_tag(out, TagKind::Text);
        },
        PropertyValue::Struct { stype, .. } => {
            push_tag(out, TagKind::Structure);
            push_str(out, stype);
        },
        PropertyValue::Array { elem, .. } => {
            push_tag(out, TagKind::ArrayOf);
            push_tag(out, *elem);
        },
        PropertyValue::SetOf { elem, .. } => {
            push_tag(out, TagKind::SetOf);
            push_tag(out, *elem);
        },
        PropertyValue::MapOf { ktag, vtag, .. } => {
            push_tag(out, TagKind::MapOf);
            push_tag(out, *ktag);
            push_tag(out, *vtag);
        },
        PropertyValue::Opaque { tag, .. } => {
            match tag {
                RawTag::Other { name } => {
                    push_str(out, name);
                },
                RawTag::Structure { stype, .. } => {
                    push_tag(out, TagKind::Structure);
                    push_str(out, stype);
                },
                RawTag::ArrayOf { elem } => {
                    push_tag(out, TagKind::ArrayOf);
                    push_str(out, elem);
                },
                RawTag::SetOf { elem } => {
                    push_tag(out, TagKind::SetOf);
                    push_str(out, elem);
                },
                RawTag::MapOf { ktag, vtag } => {
                    push_tag(out, TagKind::MapOf);
                    push_str(out, ktag);
                    push_str(out, vtag);
                },
                RawTag::Enumeration { etype } => {
                    push_tag(out, TagKind::Enumeration);
                    push_str(out, etype);
                },
            }
        },
    }
    proof {
        assert(out@ =~= old(out)@ + enc_head(*v));
    }
}

/// Appends the bare image of one collection element.
fn write_item(out: &mut Vec<u8>, k: TagKind, v: &PropertyValue)
    requires
        wf_item(k, *v),
    ensures
        final(out)@ == old(out)@ + enc_item(k, *v),
    decreases *v, 1int,
{
    match v {
        PropertyValue::Struct { stype, guid, fields } => {
            push_str(out, stype);
            let mut scratch: Vec<u8> = Vec::new();
            write_stream(&mut scratch, &fields.entries);
            push_u64(out, scratch.len() as u64);
            push_bytes(out, &guid.bytes);
            push_bytes(out, &scratch);
            proof {
                assert(out@ =~= old(out)@ + enc_item(k, *v));
            }
        },
        PropertyValue::Scalar(p) => {
            write_scalar(out, p);
        },
        PropertyValue::Object(s) => {
            push_str(out, s);
        },
        _ => {
            proof {
                assert(false);
            }
        },
    }
}

/// Appends a property stream: every entry in order, then the terminator.
fn write_stream(out: &mut Vec<u8>, entries: &Vec<Entry>)
    requires
        wf_entries(entries@),
    ensures
        final(out)@ == old(out)@ + enc_stream(entries@),
    decreases entries, 0int,
{
    let n = entries.len();
    let mut i: usize = 0;
    while i < n
        invariant
            0 <= i <= n,
            n == entries@.len(),
            wf_entries(entries@),
            out@ == old(out)@ + enc_entry_list(entries@.subrange(0, i as int)),
        decreases n - i,
    {
        proof {
            lemma_entry_list_push(entries@.subrange(0, i as int), entries@[i as int]);
            assert(entries@.subrange(0, i + 1) =~= entries@.subrange(0, i as int).push(
                entries@[i as int],
            ));
        }
        write_entry(out, &entries[i]);
        proof {
            assert(out@ =~= old(out)@ + enc_entry_list(entries@.subrange(0, i + 1)));
        }
        i = i + 1;
    }
    push_sentinel(out);
    proof {
        assert(entries@.subrange(0, n as int) =~= entries@);
        assert(out@ =~= old(out)@ + enc_stream(entries@));
    }
}

/// Appends one named property.
fn write_entry(out: &mut Vec<u8>, e: &Entry)
    requires
        wf_entry(*e),
    ensures
        final(out)@ == old(out)@ + enc_entry(*e),
    decreases *e, 0int,
{
    push_str(out, &e.name);
    write_body(out, &e.value);
    proof {
        assert(out@ =~= old(out)@ + enc_entry(*e));
    }
}

/// Appends a property's body: tag block, declared length, GUID where the
/// type carries one, then the payload.
fn write_body(out: &mut Vec<u8>, v: &PropertyValue)
    requires
        wf_value(*v),
        enc_value_payload(*v).len() <= 0xffff_ffff_ffff_ffff,
    ensures
        final(out)@ == old(out)@ + enc_body(*v),
    decreases *v, 2int,
{
    write_head(out, v);
    let mut scratch: Vec<u8> = Vec::new();
    write_payload(&mut scratch, v);
    push_u64(out, scratch.len() as u64);
    match v {
        PropertyValue::Struct { guid, .. } => {
            push_bytes(out, &guid.bytes);
        },
        PropertyValue::Opaque { tag: RawTag::Structure { guid, .. }, .. } => {
            push_bytes(out, &guid.bytes);
        },
        _ => {},
    }
    push_bytes(out, &scratch);
    proof {
        assert(out@ =~= old(out)@ + enc_head(*v) + le64_of_len(*v) + enc_mid(*v)
            + enc_value_payload(*v));
        assert(out@ =~= old(out)@ + enc_body(*v));
    }
}

/// The length field of a property body, as bytes.
pub open spec fn le64_of_len(v: PropertyValue) -> Seq<u8> {
    crate::wire::le64(enc_value_payload(v).len() as u64)
}

/// Appends a property's declared-length payload.
fn write_payload(out: &mut Vec<u8>, v: &PropertyValue)
    requires
        wf_value(*v),
    ensures
        final(out)@ == old(out)@ + enc_value_payload(*v),
    decreases *v, 0int,
{
    match v {
        PropertyValue::Scalar(p) => {
            write_scalar(out, p);
        },
        PropertyValue::Object(s) => {
            push_str(out, s);
        },
        PropertyValue::Enum { etype: _, value } => {
            push_str(out, value);
        },
        PropertyValue::Text { flags, variant, strings } => {
            push_u32(out, *flags);
            push_u8(out, *variant);
            push_u32(out, strings.len() as u32);
            let n = strings.len();
            let mut i: usize = 0;
            while i < n
                invariant
                    0 <= i <= n,
                    n == strings@.len(),
                    forall|j: int| 0 <= j < n ==> crate::wire::wf_str(#[trigger] strings@[j]),
                    out@ == old(out)@ + crate::wire::le32(*flags) + seq![*variant]
                        + crate::wire::le32(n as u32) + enc_str_list(
                        strings@.subrange(0, i as int),
                    ),
                decreases n - i,
            {
                proof {
                    lemma_str_list_push(strings@.subrange(0, i as int), strings@[i as int]);
                    assert(strings@.subrange(0, i + 1) =~= strings@.subrange(0, i as int).push(
                        strings@[i as int],
                    ));
                }
                push_str(out, &strings[i]);
                proof {
                    assert(out@ =~= old(out)@ + crate::wire::le32(*flags) + seq![*variant]
                        + crate::wire::le32(n as u32) + enc_str_list(
                        strings@.subrange(0, i + 1),
                    ));
                }
                i = i + 1;
            }
            proof {
                assert(strings@.subrange(0, n as int) =~= strings@);
                assert(out@ =~= old(out)@ + enc_value_payload(*v));
            }
        },
        PropertyValue::Struct { stype: _, guid: _, fields } => {
            write_stream(out, &fields.entries);
        },
        PropertyValue::Array { elem, items } => {
            write_elements(out, *elem, items);
        },
        PropertyValue::SetOf { elem, items } => {
            write_elements(out, *elem, items);
        },
        PropertyValue::MapOf { ktag, vtag, pairs } => {
            write_pairs(out, *ktag, *vtag, pairs);
        },
        PropertyValue::Opaque { tag: _, bytes } => {
            push_bytes(out, bytes);
        },
    }
}

/// Appends an entry count and the bare images of a map's key/value pairs.
fn write_pairs(out: &mut Vec<u8>, ktag: TagKind, vtag: TagKind, pairs: &Vec<crate::model::MapPair>)
    requires
        pairs@.len() <= 0xffff_ffff,
        forall|j: int|
            0 <= j < pairs@.len() ==> wf_item(ktag, (#[trigger] pairs@[j]).key) && wf_item(
                vtag,
                pairs@[j].value,
            ),
    ensures
        final(out)@ == old(out)@ + crate::wire::le32(pairs@.len() as u32) + enc_pairs(
            ktag,
            vtag,
            pairs@,
        ),
    decreases pairs, 0int,
{
    push_u32(out, pairs.len() as u32);
    let n = pairs.len();
    let mut i: usize = 0;
    while i < n
        invariant
            0 <= i <= n,
            n == pairs@.len(),
            forall|j: int|
                0 <= j < n ==> wf_item(ktag, (#[trigger] pairs@[j]).key) && wf_item(
                    vtag,
                    pairs@[j].value,
                ),
            out@ == old(out)@ + crate::wire::le32(n as u32) + enc_pairs(
                ktag,
                vtag,
                pairs@.subrange(0, i as int),
            ),
        decreases n - i,
    {
        proof {
            lemma_pairs_push(ktag, vtag, pairs@.subrange(0, i as int), pairs@[i as int]);
            assert(pairs@.subrange(0, i + 1) =~= pairs@.subrange(0, i as int).push(
                pairs@[i as int],
            ));
        }
        write_item(out, ktag, &pairs[i].key);
        write_item(out, vtag, &pairs[i].value);
        proof {
            assert(out@ =~= old(out)@ + crate::wire::le32(n as u32) + enc_pairs(
                ktag,
                vtag,
                pairs@.subrange(0, i + 1),
            ));
        }
        i = i + 1;
    }
    proof {
        assert(pairs@.subrange(0, n as int) =~= pairs@);
    }
}

/// Appends an element count and the bare images of the elements.
fn write_elements(out: &mut Vec<u8>, k: TagKind, items: &Vec<PropertyValue>)
    requires
        items@.len() <= 0xffff_ffff,
        forall|j: int| 0 <= j < items@.len() ==> wf_item(k, #[trigger] items@[j]),
    ensures
        final(out)@ == old(out)@ + crate::wire::le32(items@.len() as u32) + enc_items(k, items@),
    decreases items, 0int,
{
    push_u32(out, items.len() as u32);
    let n = items.len();
    let mut i: usize = 0;
    while i < n
        invariant
            0 <= i <= n,
            n == items@.len(),
            forall|j: int| 0 <= j < n ==> wf_item(k, #[trigger] items@[j]),
            out@ == old(out)@ + crate::wire::le32(n as u32) + enc_items(
                k,
                items@.subrange(0, i as int),
            ),
        decreases n - i,
    {
        proof {
            lemma_items_push(k, items@.subrange(0, i as int), items@[i as int]);
            assert(items@.subrange(0, i + 1) =~= items@.subrange(0, i as int).push(
                items@[i as int],
            ));
        }
        write_item(out, k, &items[i]);
        proof {
            assert(out@ =~= old(out)@ + crate::wire::le32(n as u32) + enc_items(
                k,
                items@.subrange(0, i + 1),
            ));
        }
        i = i + 1;
    }
    proof {
        assert(items@.subrange(0, n as int) =~= items@);
    }
}

/// Serializes a whole save file: header, version records, root stream.
pub fn write_save(sf: &SaveFile) -> (r: Vec<u8>)
    requires
        wf_save(*sf),
    ensures
        r@ == enc_save(*sf),
{
    let mut out: Vec<u8> = Vec::new();
    let mg: Vec<u8> = vec![71u8, 86u8, 65u8, 83u8];
    proof {
        assert(mg@ =~= magic());
    }
    push_bytes(&mut out, &mg);
    push_u32(&mut out, sf.save_game_version);
    push_u32(&mut out, sf.package_version);
    push_u16(&mut out, sf.engine.major);
    push_u16(&mut out, sf.engine.minor);
    push_u16(&mut out, sf.engine.patch);
    push_u32(&mut out, sf.engine.changelist);
    push_str(&mut out, &sf.engine.branch);
    push_u32(&mut out, sf.custom_versions.len() as u32);
    let ghost header_pre = out@;
    let n = sf.custom_versions.len();
    let mut i: usize = 0;
    while i < n
        invariant
            0 <= i <= n,
            n == sf.custom_versions@.len(),
            forall|j: int|
                0 <= j < n ==> crate::wire::wf_guid((#[trigger] sf.custom_versions@[j]).guid),
            out@ == header_pre + enc_custom_versions(sf.custom_versions@.subrange(0, i as int)),
        decreases n - i,
    {
        proof {
            lemma_custom_versions_push(
                sf.custom_versions@.subrange(0, i as int),
                sf.custom_versions@[i as int],
            );
            assert(sf.custom_versions@.subrange(0, i + 1) =~= sf.custom_versions@.subrange(
                0,
                i as int,
            ).push(sf.custom_versions@[i as int]));
        }
        push_bytes(&mut out, &sf.custom_versions[i].guid.bytes);
        push_u32(&mut out, sf.custom_versions[i].version);
        proof {
            assert(out@ =~= header_pre + enc_custom_versions(
                sf.custom_versions@.subrange(0, i + 1),
            ));
        }
        i = i + 1;
    }
    proof {
        assert(sf.custom_versions@.subrange(0, n as int) =~= sf.custom_versions@);
    }
    write_stream(&mut out, &sf.root.entries);
    proof {
        assert(out@ =~= enc_save(*sf));
    }
    out
}

/// Serializes a payload into a scratch buffer and reports its length,
/// witnessing that the payload fits in memory and hence in a 64-bit
/// length field.
pub(crate) fn measure_payload(v: &PropertyValue) -> (n: usize)
    requires
        wf_value(*v),
    ensures
        n == enc_value_payload(*v).len(),
{
    let mut scratch: Vec<u8> = Vec::new();
    write_payload(&mut scratch, v);
    scratch.len()
}

} // verus!
