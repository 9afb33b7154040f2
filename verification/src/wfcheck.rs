//! Run-time well-formedness check for property values supplied by a
//! caller, mirroring the specification-level predicates.  The decoder
//! only ever produces well-formed values; this check guards values built
//! by hand before they are spliced into a file.

use vstd::prelude::*;
use crate::decode::{is_elem_kind, is_terminator};
use crate::model::{Entry, GvasString, Guid, PrimitiveValue, PropertyValue, RawTag, TagKind};
use crate::wire::{enc_value_payload, item_matches, wf_entries, wf_entry, wf_guid, wf_item, wf_rawtag, wf_scalar, wf_str, wf_value};

verus! {

/// Whether a string's length prefix fits the wire format.
pub fn is_wf_str(s: &GvasString) -> (r: bool)
    ensures
        r == wf_str(*s),
{
    match s {
        GvasString::Empty => true,
        GvasString::Utf8(b) => b.len() <= 0x7fff_fffe,
        GvasString::Utf16(u) => u.len() <= 0x7fff_fffe,
    }
}

/// Whether a GUID holds exactly 16 bytes.
pub fn is_wf_guid(g: &Guid) -> (r: bool)
    ensures
        r == wf_guid(*g),
{
    g.bytes.len() == 16
}

/// Whether a scalar's strings are well-formed.
pub fn is_wf_scalar(p: &PrimitiveValue) -> (r: bool)
    ensures
        r == wf_scalar(*p),
{
    match p {
        PrimitiveValue::Str(s) => is_wf_str(s),
        PrimitiveValue::Name(s) => is_wf_str(s),
        _ => true,
    }
}

/// Whether an opaque tag block's strings and GUID are well-formed.
pub fn is_wf_rawtag(t: &RawTag) -> (r: bool)
    ensures
        r == wf_rawtag(*t),
{
    match t {
        RawTag::Other { name } => is_wf_str(name),
        RawTag::Structure { stype, guid } => is_wf_str(stype) && is_wf_guid(guid),
        RawTag::ArrayOf { elem } => is_wf_str(elem),
        RawTag::SetOf { elem } => is_wf_str(elem),
        RawTag::MapOf { ktag, vtag } => is_wf_str(ktag) && is_wf_str(vtag),
        RawTag::Enumeration { etype } => is_wf_str(etype),
    }
}

/// Whether a value fits a collection's declared element kind.
fn matches_item(k: TagKind, v: &PropertyValue) -> (r: bool)
    ensures
        r == item_matches(k, *v),
{
    if matches!(k, TagKind::Structure) {
        matches!(v, PropertyValue::Struct { .. })
    } else if matches!(k, TagKind::ObjectRef) {
        matches!(v, PropertyValue::Object(_))
    } else {
        match v {
            PropertyValue::Scalar(p) => {
                let sk = crate::wire::scalar_kind_exec(p);
                sk == k
            },
            _ => false,
        }
    }
}

/// Whether a value may stand as an element of the given kind.  When the
/// answer is positive for a struct element, its payload is measured to
/// witness that it fits a 64-bit length field.
pub fn is_wf_item(k: TagKind, v: &PropertyValue) -> (r: bool)
    ensures
        r == wf_item(k, *v),
    decreases *v, 1int,
{
    let a = is_wf_value(v);
    if !a {
        return false;
    }
    let b = matches_item(k, v);
    if !b {
        return false;
    }
    let n = crate::encode::measure_payload(v);
    proof {
        assert(enc_value_payload(*v).len() == n as nat);
        assert((n as nat) <= 0xffff_ffff_ffff_ffff);
    }
    true
}

/// Whether a named property may stand in a stream: a well-formed name
/// other than the terminator, and a well-formed value.
pub fn is_wf_entry(e: &Entry) -> (r: bool)
    ensures
        r == wf_entry(*e),
    decreases *e, 0int,
{
    if !is_wf_str(&e.name) {
        return false;
    }
    if is_terminator(&e.name) {
        return false;
    }
    if !is_wf_value(&e.value) {
        return false;
    }
    let n = crate::encode::measure_payload(&e.value);
    proof {
        assert(enc_value_payload(e.value).len() == n as nat);
        assert((n as nat) <= 0xffff_ffff_ffff_ffff);
    }
    true
}

/// Whether every entry of a property sequence is well-formed.
pub fn is_wf_entries(entries: &Vec<Entry>) -> (r: bool)
    ensures
        r == wf_entries(entries@),
    decreases entries, 1int,
{
    let n = entries.len();
    let mut i: usize = 0;
    while i < n
        invariant
            0 <= i <= n,
            n == entries@.len(),
            forall|j: int| 0 <= j < i ==> wf_entry(#[trigger] entries@[j]),
        decreases n - i,
    {
        if !is_wf_entry(&entries[i]) {
            return false;
        }
        i = i + 1;
    }
    true
}

/// Whether every element of a collection is well-formed and of the
/// declared kind.
fn are_wf_items(k: TagKind, items: &Vec<PropertyValue>) -> (r: bool)
    ensures
        r == forall|j: int| 0 <= j < items@.len() ==> wf_item(k, #[trigger] items@[j]),
    decreases items, 1int,
{
    let n = items.len();
    let mut i: usize = 0;
    while i < n
        invariant
            0 <= i <= n,
            n == items@.len(),
            forall|j: int| 0 <= j < i ==> wf_item(k, #[trigger] items@[j]),
        decreases n - i,
    {
        if !is_wf_item(k, &items[i]) {
            return false;
        }
        i = i + 1;
    }
    true
}

/// Whether every pair of a map holds well-formed components of the
/// declared kinds.
fn are_wf_pairs(ktag: TagKind, vtag: TagKind, pairs: &Vec<crate::model::MapPair>) -> (r: bool)
    ensures
        r == forall|j: int|
            0 <= j < pairs@.len() ==> wf_item(ktag, (#[trigger] pairs@[j]).key) && wf_item(
                vtag,
                pairs@[j].value,
            ),
    decreases pairs, 1int,
{
    let n = pairs.len();
    let mut i: usize = 0;
    while i < n
        invariant
            0 <= i <= n,
            n == pairs@.len(),
            forall|j: int|
                0 <= j < i ==> wf_item(ktag, (#[trigger] pairs@[j]).key) && wf_item(
                    vtag,
                    pairs@[j].value,
                ),
        decreases n - i,
    {
        if !is_wf_item(ktag, &pairs[i].key) {
            return false;
        }
        if !is_wf_item(vtag, &pairs[i].value) {
            return false;
        }
        i = i + 1;
    }
    true
}

/// Whether a value is one the encoder can serialize.
pub fn is_wf_value(v: &PropertyValue) -> (r: bool)
    ensures
        r == wf_value(*v),
    decreases *v, 0int,
{
    match v {
        PropertyValue::Scalar(p) => is_wf_scalar(p),
        PropertyValue::Object(s) => is_wf_str(s),
        PropertyValue::Enum { etype, value } => is_wf_str(etype) && is_wf_str(value),
        PropertyValue::Text { flags, variant, strings } => {
            if strings.len() > 0xffff_ffff {
                return false;
            }
            let n = strings.len();
            let mut i: usize = 0;
            while i < n
                invariant
                    0 <= i <= n,
                    n == strings@.len(),
                    (*v == PropertyValue::Text {
                        flags: *flags,
                        variant: *variant,
                        strings: *strings,
                    }),
                    forall|j: int| 0 <= j < i ==> wf_str(#[trigger] strings@[j]),
                decreases n - i,
            {
                if !is_wf_str(&strings[i]) {
                    proof {
                        assert(!wf_str(strings@[i as int]));
                    }
                    return false;
                }
                i = i + 1;
            }
            true
        },
        PropertyValue::Struct { stype, guid, fields } => is_wf_str(stype) && is_wf_guid(guid)
            && is_wf_entries(&fields.entries),
        PropertyValue::Array { elem, items } => {
            if !is_elem_kind(*elem) {
                return false;
            }
            if items.len() > 0xffff_ffff {
                return false;
            }
            are_wf_items(*elem, items)
        },
        PropertyValue::SetOf { elem, items } => {
            if !is_elem_kind(*elem) {
                return false;
            }
            if items.len() > 0xffff_ffff {
                return false;
            }
            are_wf_items(*elem, items)
        },
        PropertyValue::MapOf { ktag, vtag, pairs } => {
            if !is_elem_kind(*ktag) || !is_elem_kind(*vtag) {
                return false;
            }
            if pairs.len() > 0xffff_ffff {
                return false;
            }
            are_wf_pairs(*ktag, *vtag, pairs)
        },
        PropertyValue::Opaque { tag, bytes } => {
            let bl = bytes.len();
            let r = is_wf_rawtag(tag);
            proof {
                assert(bytes@.len() == bl as nat);
                assert((bl as nat) <= 0xffff_ffff_ffff_ffff);
                assert(wf_value(*v) == wf_rawtag(*tag));
            }
            r
        },
    }
}

} // verus!
