//! The crate-level guarantees, stated as proof functions over the wire
//! specification.  They connect the decoder's postcondition (a decoded
//! file re-encodes to its input) with the encoder's postcondition (writing
//! emits exactly the wire image), so they hold of every decoded file.

use vstd::prelude::*;
use crate::model::{Entry, GvasString, PropertyValue, RawTag, SaveFile};
use crate::wire::{enc_entry, enc_entry_list, enc_header, enc_save, enc_str, enc_str_utf16, enc_str_utf8, le32, le64, lemma_entry_list_push, sentinel, utf16_bytes, wf_save};

verus! {

/// Round-trip: for a buffer that decoded to a save file, serializing that
/// file yields the buffer, byte for byte.  `SaveFile::read` guarantees the
/// premise `enc_save(sf) == input` for every buffer it accepts, and
/// `SaveFile::write` returns exactly `enc_save(sf)`.
pub proof fn lemma_round_trip(sf: SaveFile, input: Seq<u8>, output: Seq<u8>)
    requires
        wf_save(sf),
        enc_save(sf) == input,
        output == enc_save(sf),
    ensures
        output == input,
{
}

/// Idempotent re-serialization: if a buffer decodes to a file, and the
/// file's serialization decodes again to some file, the second file
/// serializes to the same bytes — re-encoding is stable after one pass.
/// The premises are exactly what `SaveFile::read` guarantees about each
/// decode.
pub proof fn lemma_reserialization_idempotent(sf1: SaveFile, sf2: SaveFile, b: Seq<u8>)
    requires
        wf_save(sf1),
        enc_save(sf1) == b,
        wf_save(sf2),
        enc_save(sf2) == enc_save(sf1),
    ensures
        enc_save(sf2) == b,
{
}

/// A save file's byte image is its header, then the top-level properties
/// in their map order, then the stream terminator: on-stream layout
/// follows map order exactly.
pub proof fn lemma_save_layout(sf: SaveFile)
    ensures
        enc_save(sf) == enc_header(sf) + enc_entry_list(sf.root.entries@) + sentinel(),
{
    assert(enc_save(sf) =~= enc_header(sf) + enc_entry_list(sf.root.entries@) + sentinel());
}

/// Order preservation: the bytes of the first `i + 1` properties are the
/// bytes of the first `i` properties followed by the bytes of property
/// `i`, so each property's name first appears in the stream after all
/// earlier properties and before all later ones — decode order equals
/// on-stream order.
pub proof fn lemma_stream_order(s: Seq<Entry>, i: int)
    requires
        0 <= i < s.len(),
    ensures
        enc_entry_list(s.take(i + 1)) == enc_entry_list(s.take(i)) + enc_entry(s[i]),
{
    assert(s.take(i + 1) =~= s.take(i).push(s[i]));
    lemma_entry_list_push(s.take(i), s[i]);
}

/// Unknown-type survival: a property kept as an opaque blob serializes as
/// its tag string, the length of its raw payload, and the payload bytes
/// verbatim — nothing of the unknown content is altered.
pub proof fn lemma_opaque_verbatim(e: Entry)
    ensures
        e.value matches PropertyValue::Opaque { tag: RawTag::Other { name: tag }, bytes }
            ==> enc_entry(e) == enc_str(e.name) + enc_str(tag) + le64(bytes@.len() as u64)
            + bytes@,
{
    match e.value {
        PropertyValue::Opaque { tag: RawTag::Other { name: tag }, bytes } => {
            assert(enc_entry(e) =~= enc_str(e.name) + enc_str(tag) + le64(bytes@.len() as u64)
                + bytes@);
        },
        _ => {},
    }
}

/// String encoding edge cases: an empty string is exactly a zero length
/// prefix with no payload; a UTF-16 string is its negated unit count, its
/// exact UTF-16LE code units, and one NUL unit.
pub proof fn lemma_string_encodings(u: Seq<u16>)
    ensures
        enc_str(GvasString::Empty) == le32(0),
        enc_str_utf8(Seq::<u8>::empty()) == le32(1) + seq![0u8],
        enc_str_utf16(u) == le32((0x1_0000_0000 - (u.len() + 1)) as u32) + utf16_bytes(u) + seq![
            0u8,
            0u8,
        ],
{
    assert(enc_str_utf8(Seq::<u8>::empty()) =~= le32(1) + seq![0u8]);
}

} // verus!
