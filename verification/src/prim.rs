//! Primitive codec: fixed-width scalars, length-prefixed strings and GUIDs,
//! read from and written to a byte buffer.
//!
//! Every read function is sound against the wire specification: on success
//! it returns exactly the value whose byte image is the range it consumed.
//! A read fails only at the end of the window (`TruncatedStream`) or on a
//! string whose prefix or terminator is malformed (`InvalidEncoding`).

use vstd::prelude::*;
use crate::model::{GvasString, Guid};
use crate::wire::{
    enc_str, enc_str_utf16, enc_str_utf8, le16, le32, le64, same_string, str_len_word,
    str_prefix_at, utf8_prefix_at,
    utf16_bytes, wf_guid, wf_str,
};

verus! {

/// A fatal decoding failure.  `offset` is the byte position at which the
/// failure was discovered.
#[derive(Clone, Copy, Debug, PartialEq, Eq)]
pub enum DecodeError {
    /// A length, count or fixed-width read needs more bytes than remain.
    TruncatedStream { offset: usize },
    /// A string prefix or terminator that no writer can produce.
    InvalidEncoding { offset: usize },
    /// The buffer does not begin with the GVAS magic.
    MalformedHeader,
}

/// Splitting a byte range at an interior point splits its bytes.
pub proof fn lemma_split(b: Seq<u8>, p0: int, p1: int, p2: int)
    requires
        0 <= p0 <= p1 <= p2 <= b.len(),
    ensures
        b.subrange(p0, p2) == b.subrange(p0, p1) + b.subrange(p1, p2),
{
    assert(b.subrange(p0, p2) =~= b.subrange(p0, p1) + b.subrange(p1, p2));
}

proof fn lemma_le16_bytes(b0: u8, b1: u8)
    ensures
        le16((b0 as u16) | ((b1 as u16) << 8)) == seq![b0, b1],
{
    let v = (b0 as u16) | ((b1 as u16) << 8);
    assert({
        let x = (b0 as u16) | ((b1 as u16) << 8);
        (x & 0xff) as u8 == b0 && ((x >> 8) & 0xff) as u8 == b1
    }) by (bit_vector);
    assert(le16(v) =~= seq![b0, b1]);
}

proof fn lemma_le32_bytes(b0: u8, b1: u8, b2: u8, b3: u8)
    ensures
        le32(
            (b0 as u32) | ((b1 as u32) << 8) | ((b2 as u32) << 16) | ((b3 as u32) << 24),
        ) == seq![b0, b1, b2, b3],
{
    let v = (b0 as u32) | ((b1 as u32) << 8) | ((b2 as u32) << 16) | ((b3 as u32) << 24);
    assert({
        let x = (b0 as u32) | ((b1 as u32) << 8) | ((b2 as u32) << 16) | ((b3 as u32) << 24);
        (x & 0xff) as u8 == b0 && ((x >> 8) & 0xff) as u8 == b1 && ((x >> 16) & 0xff) as u8 == b2
            && ((x >> 24) & 0xff) as u8 == b3
    }) by (bit_vector);
    assert(le32(v) =~= seq![b0, b1, b2, b3]);
}

proof fn lemma_le64_bytes(b0: u8, b1: u8, b2: u8, b3: u8, b4: u8, b5: u8, b6: u8, b7: u8)
    ensures
        le64(
            (b0 as u64) | ((b1 as u64) << 8) | ((b2 as u64) << 16) | ((b3 as u64) << 24) | (
            (b4 as u64) << 32) | ((b5 as u64) << 40) | ((b6 as u64) << 48) | ((b7 as u64) << 56),
        ) == seq![b0, b1, b2, b3, b4, b5, b6, b7],
{
    let v = (b0 as u64) | ((b1 as u64) << 8) | ((b2 as u64) << 16) | ((b3 as u64) << 24) | (
    (b4 as u64) << 32) | ((b5 as u64) << 40) | ((b6 as u64) << 48) | ((b7 as u64) << 56);
    assert({
        let x = (b0 as u64) | ((b1 as u64) << 8) | ((b2 as u64) << 16) | ((b3 as u64) << 24) | (
        (b4 as u64) << 32) | ((b5 as u64) << 40) | ((b6 as u64) << 48) | ((b7 as u64) << 56);
        (x & 0xff) as u8 == b0 && ((x >> 8) & 0xff) as u8 == b1 && ((x >> 16) & 0xff) as u8 == b2
            && ((x >> 24) & 0xff) as u8 == b3 && ((x >> 32) & 0xff) as u8 == b4 && ((x >> 40)
            & 0xff) as u8 == b5 && ((x >> 48) & 0xff) as u8 == b6 && ((x >> 56) & 0xff) as u8
            == b7
    }) by (bit_vector);
    assert(le64(v) =~= seq![b0, b1, b2, b3, b4, b5, b6, b7]);
}

/// Reads one byte.
pub fn read_u8(buf: &Vec<u8>, pos: usize, end: usize) -> (r: Result<(u8, usize), DecodeError>)
    requires
        pos <= end <= buf@.len(),
    ensures
        r matches Ok(t) ==> t.1 == pos + 1 && t.1 <= end && buf@.subrange(pos as int, t.1 as int)
            == seq![t.0],
        r is Err ==> end == pos && r == Err::<(u8, usize), DecodeError>(
            DecodeError::TruncatedStream { offset: pos },
        ),
{
    if pos < end {
        let b = buf[pos];
        proof {
            assert(buf@.subrange(pos as int, pos + 1) =~= seq![b]);
        }
        Ok((b, pos + 1))
    } else {
        Err(DecodeError::TruncatedStream { offset: pos })
    }
}

/// Reads a little-endian 16-bit value.
pub fn read_u16(buf: &Vec<u8>, pos: usize, end: usize) -> (r: Result<(u16, usize), DecodeError>)
    requires
        pos <= end <= buf@.len(),
    ensures
        r matches Ok(t) ==> t.1 == pos + 2 && t.1 <= end && buf@.subrange(pos as int, t.1 as int)
            == le16(t.0),
        r is Err ==> end - pos < 2 && r == Err::<(u16, usize), DecodeError>(
            DecodeError::TruncatedStream { offset: pos },
        ),
{
    if end - pos >= 2 {
        let b0 = buf[pos];
        let b1 = buf[pos + 1];
        let v = (b0 as u16) | ((b1 as u16) << 8);
        proof {
            lemma_le16_bytes(b0, b1);
            assert(buf@.subrange(pos as int, pos + 2) =~= seq![b0, b1]);
        }
        Ok((v, pos + 2))
    } else {
        Err(DecodeError::TruncatedStream { offset: pos })
    }
}

/// Reads a little-endian 32-bit value.
pub fn read_u32(buf: &Vec<u8>, pos: usize, end: usize) -> (r: Result<(u32, usize), DecodeError>)
    requires
        pos <= end <= buf@.len(),
    ensures
        r matches Ok(t) ==> t.1 == pos + 4 && t.1 <= end && buf@.subrange(pos as int, t.1 as int)
            == le32(t.0),
        r is Err ==> end - pos < 4 && r == Err::<(u32, usize), DecodeError>(
            DecodeError::TruncatedStream { offset: pos },
        ),
{
    if end - pos >= 4 {
        let b0 = buf[pos];
        let b1 = buf[pos + 1];
        let b2 = buf[pos + 2];
        let b3 = buf[pos + 3];
        let v = (b0 as u32) | ((b1 as u32) << 8) | ((b2 as u32) << 16) | ((b3 as u32) << 24);
        proof {
            lemma_le32_bytes(b0, b1, b2, b3);
            assert(buf@.subrange(pos as int, pos + 4) =~= seq![b0, b1, b2, b3]);
        }
        Ok((v, pos + 4))
    } else {
        Err(DecodeError::TruncatedStream { offset: pos })
    }
}

/// Reads a little-endian 64-bit value.
pub fn read_u64(buf: &Vec<u8>, pos: usize, end: usize) -> (r: Result<(u64, usize), DecodeError>)
    requires
        pos <= end <= buf@.len(),
    ensures
        r matches Ok(t) ==> t.1 == pos + 8 && t.1 <= end && buf@.subrange(pos as int, t.1 as int)
            == le64(t.0),
        r is Err ==> end - pos < 8 && r == Err::<(u64, usize), DecodeError>(
            DecodeError::TruncatedStream { offset: pos },
        ),
{
    if end - pos >= 8 {
        let b0 = buf[pos];
        let b1 = buf[pos + 1];
        let b2 = buf[pos + 2];
        let b3 = buf[pos + 3];
        let b4 = buf[pos + 4];
        let b5 = buf[pos + 5];
        let b6 = buf[pos + 6];
        let b7 = buf[pos + 7];
        let v = (b0 as u64) | ((b1 as u64) << 8) | ((b2 as u64) << 16) | ((b3 as u64) << 24) | (
        (b4 as u64) << 32) | ((b5 as u64) << 40) | ((b6 as u64) << 48) | ((b7 as u64) << 56);
        proof {
            lemma_le64_bytes(b0, b1, b2, b3, b4, b5, b6, b7);
            assert(buf@.subrange(pos as int, pos + 8) =~= seq![b0, b1, b2, b3, b4, b5, b6, b7]);
        }
        Ok((v, pos + 8))
    } else {
        Err(DecodeError::TruncatedStream { offset: pos })
    }
}

/// Copies the bytes of a range out of the buffer.
pub fn copy_range(buf: &Vec<u8>, a: usize, b: usize) -> (r: Vec<u8>)
    requires
        a <= b <= buf@.len(),
    ensures
        r@ == buf@.subrange(a as int, b as int),
{
    let mut r: Vec<u8> = Vec::new();
    let mut i: usize = a;
    while i < b
        invariant
            a <= i <= b <= buf@.len(),
            r@ == buf@.subrange(a as int, i as int),
        decreases b - i,
    {
        r.push(buf[i]);
        proof {
            assert(buf@.subrange(a as int, i + 1) =~= buf@.subrange(a as int, i as int).push(
                buf@[i as int],
            ));
        }
        i = i + 1;
    }
    r
}

/// Whether two byte vectors hold the same bytes.
pub fn bytes_eq(a: &Vec<u8>, b: &Vec<u8>) -> (r: bool)
    ensures
        r <==> a@ == b@,
{
    if a.len() != b.len() {
        proof {
            assert(a@.len() != b@.len());
        }
        return false;
    }
    let n = a.len();
    let mut i: usize = 0;
    while i < n
        invariant
            0 <= i <= n,
            n == a@.len() && n == b@.len(),
            forall|j: int| 0 <= j < i ==> a@[j] == b@[j],
        decreases n - i,
    {
        if a[i] != b[i] {
            return false;
        }
        i = i + 1;
    }
    proof {
        assert(a@ =~= b@);
    }
    true
}

/// Reads a 16-byte GUID.
pub fn read_guid(buf: &Vec<u8>, pos: usize, end: usize) -> (r: Result<
    (Guid, usize),
    DecodeError,
>)
    requires
        pos <= end <= buf@.len(),
    ensures
        r matches Ok(t) ==> t.1 == pos + 16 && t.1 <= end && wf_guid(t.0) && buf@.subrange(
            pos as int,
            t.1 as int,
        ) == t.0.bytes@,
        r is Err ==> end - pos < 16 && r == Err::<(Guid, usize), DecodeError>(
            DecodeError::TruncatedStream { offset: pos },
        ),
{
    if end - pos >= 16 {
        let bytes = copy_range(buf, pos, pos + 16);
        Ok((Guid { bytes }, pos + 16))
    } else {
        Err(DecodeError::TruncatedStream { offset: pos })
    }
}

/// The terminator unit serializes to two NUL bytes.
pub proof fn lemma_le16_zero()
    ensures
        le16(0u16) == seq![0u8, 0u8],
{
    assert((0u16 & 0xff) as u8 == 0u8 && ((0u16 >> 8) & 0xff) as u8 == 0u8) by (bit_vector);
    assert(le16(0u16) =~= seq![0u8, 0u8]);
}

/// `utf16_bytes` distributes over appending one code unit.
pub proof fn lemma_utf16_push(u: Seq<u16>, x: u16)
    ensures
        utf16_bytes(u.push(x)) == utf16_bytes(u) + le16(x),
    decreases u.len(),
{
    if u.len() == 0 {
        assert(u.push(x).drop_first() =~= u);
        assert(utf16_bytes(u) == Seq::<u8>::empty());
        assert(utf16_bytes(u.push(x)) == le16(u.push(x)[0]) + utf16_bytes(u.push(x).drop_first()));
        assert(u.push(x)[0] == x);
        assert(le16(x) + Seq::<u8>::empty() =~= le16(x));
        assert(utf16_bytes(u) + le16(x) =~= le16(x));
    } else {
        lemma_utf16_push(u.drop_first(), x);
        assert(u.push(x).drop_first() =~= u.drop_first().push(x));
        assert(utf16_bytes(u.push(x)) =~= utf16_bytes(u) + le16(x));
    }
}


/// Equal byte images come from equal 16-bit values.
pub proof fn lemma_le16_inj(a: u16, b: u16)
    requires
        le16(a) == le16(b),
    ensures
        a == b,
{
    assert(le16(a)[0] == le16(b)[0] && le16(a)[1] == le16(b)[1]);
    assert(a == b) by (bit_vector)
        requires
            (a & 0xff) as u8 == (b & 0xff) as u8,
            ((a >> 8) & 0xff) as u8 == ((b >> 8) & 0xff) as u8,
    ;
}

/// Equal byte images come from equal 32-bit values.
pub proof fn lemma_le32_inj(a: u32, b: u32)
    requires
        le32(a) == le32(b),
    ensures
        a == b,
{
    assert(le32(a)[0] == le32(b)[0] && le32(a)[1] == le32(b)[1] && le32(a)[2] == le32(b)[2]
        && le32(a)[3] == le32(b)[3]);
    assert(a == b) by (bit_vector)
        requires
            (a & 0xff) as u8 == (b & 0xff) as u8,
            ((a >> 8) & 0xff) as u8 == ((b >> 8) & 0xff) as u8,
            ((a >> 16) & 0xff) as u8 == ((b >> 16) & 0xff) as u8,
            ((a >> 24) & 0xff) as u8 == ((b >> 24) & 0xff) as u8,
    ;
}

/// A UTF-16LE image holds two bytes per code unit.
pub proof fn lemma_utf16_len(u: Seq<u16>)
    ensures
        utf16_bytes(u).len() == 2 * u.len(),
    decreases u.len(),
{
    if u.len() > 0 {
        lemma_utf16_len(u.drop_first());
    }
}

/// The byte image and length of a well-formed string, by encoding class:
/// the length word opens the image, and the three classes of word values
/// are disjoint.
pub proof fn lemma_enc_str_shape(s: GvasString)
    requires
        wf_str(s),
    ensures
        enc_str(s).len() >= 4,
        enc_str(s).subrange(0, 4) == le32(str_len_word(s)),
        s is Empty ==> str_len_word(s) == 0 && enc_str(s).len() == 4,
        s matches GvasString::Utf8(b) ==> 1 <= str_len_word(s) <= 0x7fff_ffff && str_len_word(s)
            == b@.len() + 1 && enc_str(s).len() == 5 + b@.len(),
        s matches GvasString::Utf16(u) ==> 0x8000_0001 <= str_len_word(s) && u@.len() + 1
            == 0x1_0000_0000 - str_len_word(s) && enc_str(s).len() == 6 + 2 * u@.len(),
{
    match s {
        GvasString::Empty => {
            assert(enc_str(s).subrange(0, 4) =~= le32(0));
        },
        GvasString::Utf8(b) => {
            assert(enc_str(s).subrange(0, 4) =~= le32(str_len_word(s)));
        },
        GvasString::Utf16(u) => {
            lemma_utf16_len(u@);
            assert(enc_str(s).subrange(0, 4) =~= le32(str_len_word(s)));
        },
    }
}

/// If a well-formed string image sits at `pos` and the four bytes there
/// read as `lw`, the string's length word is `lw`.
pub proof fn lemma_str_prefix_word(b: Seq<u8>, pos: int, end: int, s: GvasString, lw: u32)
    requires
        0 <= pos,
        str_prefix_at(b, pos, end, s),
        end <= b.len(),
        b.subrange(pos, pos + 4) == le32(lw),
    ensures
        str_len_word(s) == lw,
{
    lemma_enc_str_shape(s);
    assert forall|i: int| 0 <= i < 4 implies b[pos + i] == enc_str(s)[i] by {
        assert(b.subrange(pos, pos + enc_str(s).len() as int)[i] == enc_str(s)[i]);
    }
    assert(enc_str(s).subrange(0, 4) =~= b.subrange(pos, pos + 4));
    lemma_le32_inj(str_len_word(s), lw);
}

/// Equal-length code-unit sequences with equal byte images are equal.
pub proof fn lemma_utf16_inj(a: Seq<u16>, b: Seq<u16>)
    requires
        a.len() == b.len(),
        utf16_bytes(a) == utf16_bytes(b),
    ensures
        a == b,
    decreases a.len(),
{
    if a.len() == 0 {
        assert(a =~= b);
    } else {
        lemma_utf16_len(a.drop_first());
        lemma_utf16_len(b.drop_first());
        assert(utf16_bytes(a)[0] == le16(a[0])[0] && utf16_bytes(a)[1] == le16(a[0])[1]);
        assert(utf16_bytes(b)[0] == le16(b[0])[0] && utf16_bytes(b)[1] == le16(b[0])[1]);
        assert(le16(a[0]) =~= le16(b[0]));
        lemma_le16_inj(a[0], b[0]);
        assert(utf16_bytes(a.drop_first()) =~= utf16_bytes(a).subrange(
            2,
            utf16_bytes(a).len() as int,
        ));
        assert(utf16_bytes(b.drop_first()) =~= utf16_bytes(b).subrange(
            2,
            utf16_bytes(b).len() as int,
        ));
        lemma_utf16_inj(a.drop_first(), b.drop_first());
        assert forall|i: int| 0 <= i < a.len() implies a[i] == b[i] by {
            if i > 0 {
                assert(a.drop_first()[i - 1] == a[i]);
                assert(b.drop_first()[i - 1] == b[i]);
            }
        }
        assert(a =~= b);
    }
}

/// Two well-formed string images that open the same window are the same
/// image of the same string: the length word pins the encoding class and
/// the byte count, so a string read is deterministic.
pub proof fn lemma_str_prefix_det(a: GvasString, b: GvasString, w: Seq<u8>)
    requires
        wf_str(a),
        wf_str(b),
        enc_str(a).len() <= w.len(),
        w.subrange(0, enc_str(a).len() as int) == enc_str(a),
        enc_str(b).len() <= w.len(),
        w.subrange(0, enc_str(b).len() as int) == enc_str(b),
    ensures
        enc_str(a) == enc_str(b),
        same_string(a, b),
{
    lemma_enc_str_shape(a);
    lemma_enc_str_shape(b);
    assert forall|i: int| 0 <= i < 4 implies w[i] == enc_str(a)[i] by {
        assert(w.subrange(0, enc_str(a).len() as int)[i] == enc_str(a)[i]);
    }
    assert(w.subrange(0, 4) =~= enc_str(a).subrange(0, 4));
    lemma_str_prefix_word(w, 0, w.len() as int, b, str_len_word(a));
    assert(enc_str(a).len() == enc_str(b).len());
    assert(enc_str(a) == w.subrange(0, enc_str(a).len() as int));
    assert(enc_str(a) == enc_str(b));
    match (a, b) {
        (GvasString::Empty, GvasString::Empty) => {},
        (GvasString::Utf8(x), GvasString::Utf8(y)) => {
            assert(x@ =~= enc_str(a).subrange(4, 4 + x@.len() as int));
            assert(y@ =~= enc_str(b).subrange(4, 4 + y@.len() as int));
        },
        (GvasString::Utf16(x), GvasString::Utf16(y)) => {
            lemma_utf16_len(x@);
            lemma_utf16_len(y@);
            assert(utf16_bytes(x@) =~= enc_str(a).subrange(4, 4 + 2 * x@.len() as int));
            assert(utf16_bytes(y@) =~= enc_str(b).subrange(4, 4 + 2 * y@.len() as int));
            lemma_utf16_inj(x@, y@);
        },
        _ => {
            assert(false);
        },
    }
}

/// Equal byte images come from equal 64-bit values.
pub proof fn lemma_le64_inj(a: u64, b: u64)
    requires
        le64(a) == le64(b),
    ensures
        a == b,
{
    assert(le64(a)[0] == le64(b)[0] && le64(a)[1] == le64(b)[1] && le64(a)[2] == le64(b)[2]
        && le64(a)[3] == le64(b)[3] && le64(a)[4] == le64(b)[4] && le64(a)[5] == le64(b)[5]
        && le64(a)[6] == le64(b)[6] && le64(a)[7] == le64(b)[7]);
    assert(a == b) by (bit_vector)
        requires
            (a & 0xff) as u8 == (b & 0xff) as u8,
            ((a >> 8) & 0xff) as u8 == ((b >> 8) & 0xff) as u8,
            ((a >> 16) & 0xff) as u8 == ((b >> 16) & 0xff) as u8,
            ((a >> 24) & 0xff) as u8 == ((b >> 24) & 0xff) as u8,
            ((a >> 32) & 0xff) as u8 == ((b >> 32) & 0xff) as u8,
            ((a >> 40) & 0xff) as u8 == ((b >> 40) & 0xff) as u8,
            ((a >> 48) & 0xff) as u8 == ((b >> 48) & 0xff) as u8,
            ((a >> 56) & 0xff) as u8 == ((b >> 56) & 0xff) as u8,
    ;
}

/// A part of a byte string sitting at `pos` sits in the buffer at the
/// part's own offset.
pub proof fn lemma_sub_prefix(b: Seq<u8>, pos: int, w: Seq<u8>, off: int, part: Seq<u8>)
    requires
        0 <= pos,
        pos + w.len() <= b.len(),
        b.subrange(pos, pos + w.len() as int) == w,
        0 <= off,
        off + part.len() <= w.len(),
        w.subrange(off, off + part.len() as int) == part,
    ensures
        b.subrange(pos + off, pos + off + part.len() as int) == part,
{
    assert forall|i: int| 0 <= i < part.len() implies b[pos + off + i] == part[i] by {
        assert(w.subrange(off, off + part.len() as int)[i] == part[i]);
        assert(b.subrange(pos, pos + w.len() as int)[off + i] == w[off + i]);
    }
    assert(b.subrange(pos + off, pos + off + part.len() as int) =~= part);
}

/// A well-formed string image and a UTF-8 image opening the same window
/// are the same image: the string is UTF-8 with exactly those bytes.
pub proof fn lemma_str_prefix_det_utf8(a: GvasString, bs: Seq<u8>, w: Seq<u8>)
    requires
        wf_str(a),
        bs.len() + 1 <= 0x7fff_ffff,
        enc_str(a).len() <= w.len(),
        w.subrange(0, enc_str(a).len() as int) == enc_str(a),
        enc_str_utf8(bs).len() <= w.len(),
        w.subrange(0, enc_str_utf8(bs).len() as int) == enc_str_utf8(bs),
    ensures
        enc_str(a) == enc_str_utf8(bs),
        a matches GvasString::Utf8(ab) && ab@ == bs,
{
    lemma_enc_str_shape(a);
    let lwb = (bs.len() + 1) as u32;
    assert(enc_str_utf8(bs).subrange(0, 4) =~= le32(lwb));
    assert forall|i: int| 0 <= i < 4 implies w[i] == enc_str_utf8(bs)[i] by {
        assert(w.subrange(0, enc_str_utf8(bs).len() as int)[i] == enc_str_utf8(bs)[i]);
    }
    assert(w.subrange(0, 4) =~= le32(lwb));
    lemma_str_prefix_word(w, 0, w.len() as int, a, lwb);
    match a {
        GvasString::Utf8(ab) => {
            assert(ab@.len() + 1 == lwb);
            assert(enc_str(a).len() == enc_str_utf8(bs).len());
            assert(enc_str(a) == w.subrange(0, enc_str(a).len() as int));
            assert(enc_str(a) == enc_str_utf8(bs));
            assert(ab@ =~= enc_str(a).subrange(4, 4 + ab@.len() as int));
            assert(bs =~= enc_str_utf8(bs).subrange(4, 4 + bs.len() as int));
        },
        _ => {
            assert(false);
        },
    }
}

/// Whether two vectors hold the same 16-bit code units.
pub fn units_eq(a: &Vec<u16>, b: &Vec<u16>) -> (r: bool)
    ensures
        r <==> a@ == b@,
{
    if a.len() != b.len() {
        proof {
            assert(a@.len() != b@.len());
        }
        return false;
    }
    let n = a.len();
    let mut i: usize = 0;
    while i < n
        invariant
            0 <= i <= n,
            n == a@.len() && n == b@.len(),
            forall|j: int| 0 <= j < i ==> a@[j] == b@[j],
        decreases n - i,
    {
        if a[i] != b[i] {
            return false;
        }
        i = i + 1;
    }
    proof {
        assert(a@ =~= b@);
    }
    true
}

/// Whether two strings hold the same encoding and code units.
pub fn strings_equal(a: &GvasString, b: &GvasString) -> (r: bool)
    ensures
        r == same_string(*a, *b),
{
    match (a, b) {
        (GvasString::Empty, GvasString::Empty) => true,
        (GvasString::Utf8(x), GvasString::Utf8(y)) => bytes_eq(x, y),
        (GvasString::Utf16(x), GvasString::Utf16(y)) => units_eq(x, y),
        _ => false,
    }
}

/// If a UTF-8 image with the given content sits at `pos` and the four
/// bytes there read as `lw`, the content length plus one is `lw`.
pub proof fn lemma_utf8_prefix_word(b: Seq<u8>, pos: int, end: int, bs: Seq<u8>, lw: u32)
    requires
        0 <= pos,
        utf8_prefix_at(b, pos, end, bs),
        end <= b.len(),
        b.subrange(pos, pos + 4) == le32(lw),
    ensures
        bs.len() + 1 == lw,
{
    assert forall|i: int| 0 <= i < 4 implies b[pos + i] == enc_str_utf8(bs)[i] by {
        assert(b.subrange(pos, pos + enc_str_utf8(bs).len() as int)[i] == enc_str_utf8(bs)[i]);
    }
    assert(enc_str_utf8(bs).subrange(0, 4) =~= b.subrange(pos, pos + 4));
    assert(enc_str_utf8(bs).subrange(0, 4) =~= le32((bs.len() + 1) as u32));
    lemma_le32_inj((bs.len() + 1) as u32, lw);
}

/// Reads a length-prefixed string.  A read fails only when no well-formed
/// string image sits at `pos` inside the window: too few bytes for the
/// declared length, a missing NUL terminator, or a length word no writer
/// can produce.
pub fn read_str(buf: &Vec<u8>, pos: usize, end: usize) -> (r: Result<
    (GvasString, usize),
    DecodeError,
>)
    requires
        pos <= end <= buf@.len(),
    ensures
        r matches Ok(t) ==> pos < t.1 <= end && wf_str(t.0) && buf@.subrange(
            pos as int,
            t.1 as int,
        ) == enc_str(t.0),
        r is Err ==> forall|s0: GvasString| !str_prefix_at(buf@, pos as int, end as int, s0),
        r is Err ==> forall|bs: Seq<u8>| !utf8_prefix_at(buf@, pos as int, end as int, bs),
        r matches Err(e) ==> e is TruncatedStream || e is InvalidEncoding,
{
    let (lw, p1) = match read_u32(buf, pos, end) {
        Ok(t) => t,
        Err(e) => {
            proof {
                assert forall|s0: GvasString| !str_prefix_at(
                    buf@,
                    pos as int,
                    end as int,
                    s0,
                ) by {
                    if str_prefix_at(buf@, pos as int, end as int, s0) {
                        lemma_enc_str_shape(s0);
                    }
                }
                assert forall|bs: Seq<u8>| !utf8_prefix_at(buf@, pos as int, end as int, bs) by {}
            }
            return Err(e);
        },
    };
    if lw == 0 {
        return Ok((GvasString::Empty, p1));
    }
    if lw < 0x8000_0000 {
        let n = lw as usize;
        if n > end - p1 {
            proof {
                assert forall|s0: GvasString| !str_prefix_at(
                    buf@,
                    pos as int,
                    end as int,
                    s0,
                ) by {
                    if str_prefix_at(buf@, pos as int, end as int, s0) {
                        lemma_str_prefix_word(buf@, pos as int, end as int, s0, lw);
                        lemma_enc_str_shape(s0);
                    }
                }
                assert forall|bs: Seq<u8>| !utf8_prefix_at(
                    buf@,
                    pos as int,
                    end as int,
                    bs,
                ) by {
                    if utf8_prefix_at(buf@, pos as int, end as int, bs) {
                        lemma_utf8_prefix_word(buf@, pos as int, end as int, bs, lw);
                        assert(enc_str_utf8(bs)[4 + bs.len() as int] == 0);
                        assert(buf@.subrange(
                            pos as int,
                            pos + enc_str_utf8(bs).len() as int,
                        )[4 + bs.len() as int] == enc_str_utf8(bs)[4 + bs.len() as int]);
                    }
                }
            }
            return Err(DecodeError::TruncatedStream { offset: p1 });
        }
        let content = copy_range(buf, p1, p1 + n - 1);
        if buf[p1 + n - 1] != 0 {
            proof {
                assert forall|s0: GvasString| !str_prefix_at(
                    buf@,
                    pos as int,
                    end as int,
                    s0,
                ) by {
                    if str_prefix_at(buf@, pos as int, end as int, s0) {
                        lemma_str_prefix_word(buf@, pos as int, end as int, s0, lw);
                        lemma_enc_str_shape(s0);
                        assert(enc_str(s0)[4 + n - 1] == 0);
                        assert(buf@[pos + 4 + n - 1] == enc_str(s0)[4 + n - 1]);
                    }
                }
                assert forall|bs: Seq<u8>| !utf8_prefix_at(
                    buf@,
                    pos as int,
                    end as int,
                    bs,
                ) by {
                    if utf8_prefix_at(buf@, pos as int, end as int, bs) {
                        lemma_utf8_prefix_word(buf@, pos as int, end as int, bs, lw);
                        assert(enc_str_utf8(bs)[4 + n - 1] == 0);
                        assert(buf@.subrange(
                            pos as int,
                            pos + enc_str_utf8(bs).len() as int,
                        )[4 + n - 1] == enc_str_utf8(bs)[4 + n - 1]);
                        assert(buf@[pos + 4 + n - 1] == 0);
                    }
                }
            }
            return Err(DecodeError::InvalidEncoding { offset: p1 + n - 1 });
        }
        let p2 = p1 + n;
        proof {
            let s = GvasString::Utf8(content);
            assert(buf@.subrange(p1 + n - 1, p2 as int) =~= seq![0u8]);
            lemma_split(buf@, p1 as int, p1 + n - 1, p2 as int);
            lemma_split(buf@, pos as int, p1 as int, p2 as int);
            assert((content@.len() + 1) as u32 == lw);
            assert(buf@.subrange(pos as int, p2 as int) == enc_str(s));
        }
        Ok((GvasString::Utf8(content), p2))
    } else {
        let l64: u64 = 0x1_0000_0000u64 - (lw as u64);
        if l64 > 0x7fff_ffff {
            proof {
                assert forall|s0: GvasString| !str_prefix_at(
                    buf@,
                    pos as int,
                    end as int,
                    s0,
                ) by {
                    if str_prefix_at(buf@, pos as int, end as int, s0) {
                        lemma_str_prefix_word(buf@, pos as int, end as int, s0, lw);
                        lemma_enc_str_shape(s0);
                    }
                }
                assert forall|bs: Seq<u8>| !utf8_prefix_at(
                    buf@,
                    pos as int,
                    end as int,
                    bs,
                ) by {
                    if utf8_prefix_at(buf@, pos as int, end as int, bs) {
                        lemma_utf8_prefix_word(buf@, pos as int, end as int, bs, lw);
                        assert(enc_str_utf8(bs)[4 + bs.len() as int] == 0);
                        assert(buf@.subrange(
                            pos as int,
                            pos + enc_str_utf8(bs).len() as int,
                        )[4 + bs.len() as int] == enc_str_utf8(bs)[4 + bs.len() as int]);
                    }
                }
            }
            return Err(DecodeError::InvalidEncoding { offset: pos });
        }
        let n = l64 as usize;
        if 2 * n > end - p1 {
            proof {
                assert forall|s0: GvasString| !str_prefix_at(
                    buf@,
                    pos as int,
                    end as int,
                    s0,
                ) by {
                    if str_prefix_at(buf@, pos as int, end as int, s0) {
                        lemma_str_prefix_word(buf@, pos as int, end as int, s0, lw);
                        lemma_enc_str_shape(s0);
                    }
                }
                assert forall|bs: Seq<u8>| !utf8_prefix_at(
                    buf@,
                    pos as int,
                    end as int,
                    bs,
                ) by {
                    if utf8_prefix_at(buf@, pos as int, end as int, bs) {
                        lemma_utf8_prefix_word(buf@, pos as int, end as int, bs, lw);
                        assert(enc_str_utf8(bs)[4 + bs.len() as int] == 0);
                        assert(buf@.subrange(
                            pos as int,
                            pos + enc_str_utf8(bs).len() as int,
                        )[4 + bs.len() as int] == enc_str_utf8(bs)[4 + bs.len() as int]);
                    }
                }
            }
            return Err(DecodeError::TruncatedStream { offset: p1 });
        }
        let mut units: Vec<u16> = Vec::new();
        let mut i: usize = 0;
        let mut p = p1;
        while i < n - 1
            invariant
                0 <= i <= n - 1,
                p == p1 + 2 * i,
                p1 + 2 * n <= end <= buf@.len(),
                units@.len() == i,
                utf16_bytes(units@) == buf@.subrange(p1 as int, p as int),
            decreases n - 1 - i,
        {
            let (v, p_next) = match read_u16(buf, p, end) {
                Ok(t) => t,
                Err(e) => {
                    proof {
                        assert(false);
                    }
                    return Err(e);
                },
            };
            proof {
                lemma_utf16_push(units@, v);
                lemma_split(buf@, p1 as int, p as int, p_next as int);
            }
            units.push(v);
            p = p_next;
            i = i + 1;
        }
        let (last, p2) = match read_u16(buf, p, end) {
            Ok(t) => t,
            Err(e) => {
                proof {
                    assert(false);
                }
                return Err(e);
            },
        };
        if last != 0 {
            proof {
                assert forall|s0: GvasString| !str_prefix_at(
                    buf@,
                    pos as int,
                    end as int,
                    s0,
                ) by {
                    if str_prefix_at(buf@, pos as int, end as int, s0) {
                        lemma_str_prefix_word(buf@, pos as int, end as int, s0, lw);
                        lemma_enc_str_shape(s0);
                        assert(enc_str(s0)[4 + 2 * (n - 1)] == 0);
                        assert(enc_str(s0)[4 + 2 * (n - 1) + 1] == 0);
                        assert(buf@[p as int] == enc_str(s0)[4 + 2 * (n - 1)]);
                        assert(buf@[p + 1] == enc_str(s0)[4 + 2 * (n - 1) + 1]);
                        assert(le16(last)[0] == buf@[p as int] && le16(last)[1] == buf@[p + 1]);
                        lemma_le16_zero();
                        assert(le16(last) =~= le16(0u16));
                        lemma_le16_inj(last, 0);
                    }
                }
                assert forall|bs: Seq<u8>| !utf8_prefix_at(
                    buf@,
                    pos as int,
                    end as int,
                    bs,
                ) by {
                    if utf8_prefix_at(buf@, pos as int, end as int, bs) {
                        lemma_utf8_prefix_word(buf@, pos as int, end as int, bs, lw);
                    }
                }
            }
            return Err(DecodeError::InvalidEncoding { offset: p });
        }
        proof {
            let s = GvasString::Utf16(units);
            lemma_le16_zero();
            lemma_split(buf@, p1 as int, p as int, p2 as int);
            lemma_split(buf@, pos as int, p1 as int, p2 as int);
            assert((0x1_0000_0000 - (units@.len() + 1)) as u32 == lw);
            assert(buf@.subrange(pos as int, p2 as int) == enc_str(s));
        }
        Ok((GvasString::Utf16(units), p2))
    }
}

/// Appends one byte.
pub fn push_u8(out: &mut Vec<u8>, v: u8)
    ensures
        final(out)@ == old(out)@ + seq![v],
{
    out.push(v);
    proof {
        assert(out@ =~= old(out)@ + seq![v]);
    }
}

/// Appends a 16-bit value, little endian.
pub fn push_u16(out: &mut Vec<u8>, v: u16)
    ensures
        final(out)@ == old(out)@ + le16(v),
{
    out.push((v & 0xff) as u8);
    out.push(((v >> 8) & 0xff) as u8);
    proof {
        assert(out@ =~= old(out)@ + le16(v));
    }
}

/// Appends a 32-bit value, little endian.
pub fn push_u32(out: &mut Vec<u8>, v: u32)
    ensures
        final(out)@ == old(out)@ + le32(v),
{
    out.push((v & 0xff) as u8);
    out.push(((v >> 8) & 0xff) as u8);
    out.push(((v >> 16) & 0xff) as u8);
    out.push(((v >> 24) & 0xff) as u8);
    proof {
        assert(out@ =~= old(out)@ + le32(v));
    }
}

/// Appends a 64-bit value, little endian.
pub fn push_u64(out: &mut Vec<u8>, v: u64)
    ensures
        final(out)@ == old(out)@ + le64(v),
{
    out.push((v & 0xff) as u8);
    out.push(((v >> 8) & 0xff) as u8);
    out.push(((v >> 16) & 0xff) as u8);
    out.push(((v >> 24) & 0xff) as u8);
    out.push(((v >> 32) & 0xff) as u8);
    out.push(((v >> 40) & 0xff) as u8);
    out.push(((v >> 48) & 0xff) as u8);
    out.push(((v >> 56) & 0xff) as u8);
    proof {
        assert(out@ =~= old(out)@ + le64(v));
    }
}

/// Appends the bytes of another vector.
pub fn push_bytes(out: &mut Vec<u8>, more: &Vec<u8>)
    ensures
        final(out)@ == old(out)@ + more@,
{
    let n = more.len();
    let mut i: usize = 0;
    while i < n
        invariant
            0 <= i <= n,
            n == more@.len(),
            out@ == old(out)@ + more@.subrange(0, i as int),
        decreases n - i,
    {
        out.push(more[i]);
        proof {
            assert(old(out)@ + more@.subrange(0, i + 1) =~= (old(out)@ + more@.subrange(
                0,
                i as int,
            )).push(more@[i as int]));
        }
        i = i + 1;
    }
    proof {
        assert(more@.subrange(0, n as int) =~= more@);
    }
}

/// Appends a length-prefixed string.
pub fn push_str(out: &mut Vec<u8>, s: &GvasString)
    requires
        wf_str(*s),
    ensures
        final(out)@ == old(out)@ + enc_str(*s),
{
    match s {
        GvasString::Empty => {
            push_u32(out, 0);
        },
        GvasString::Utf8(b) => {
            push_u32(out, (b.len() + 1) as u32);
            push_bytes(out, b);
            push_u8(out, 0);
            proof {
                assert(out@ =~= old(out)@ + enc_str_utf8(b@));
            }
        },
        GvasString::Utf16(u) => {
            let lw: u32 = (0x1_0000_0000u64 - (u.len() as u64 + 1)) as u32;
            push_u32(out, lw);
            let n = u.len();
            let mut i: usize = 0;
            while i < n
                invariant
                    0 <= i <= n,
                    n == u@.len(),
                    out@ == old(out)@ + le32(lw) + utf16_bytes(u@.subrange(0, i as int)),
                decreases n - i,
            {
                proof {
                    lemma_utf16_push(u@.subrange(0, i as int), u@[i as int]);
                    assert(u@.subrange(0, i + 1) =~= u@.subrange(0, i as int).push(u@[i as int]));
                }
                push_u16(out, u[i]);
                i = i + 1;
            }
            push_u16(out, 0);
            proof {
                assert(u@.subrange(0, n as int) =~= u@);
                lemma_le16_zero();
                assert(out@ =~= old(out)@ + enc_str_utf16(u@));
            }
        },
    }
}

/// The unsigned bit pattern of a signed byte.
pub fn u8_from_i8(v: i8) -> (r: u8)
    ensures
        r == crate::wire::u8_of_i8(v),
{
    if v >= 0 { v as u8 } else { ((v as i16) + 256) as u8 }
}

/// The signed reading of a byte, inverse of `u8_from_i8`.
pub fn i8_from_u8(v: u8) -> (r: i8)
    ensures
        r == crate::wire::i8_of_u8(v),
        crate::wire::u8_of_i8(r) == v,
{
    if v < 0x80 { v as i8 } else { ((v as i16) - 256) as i8 }
}

/// The unsigned bit pattern of a signed 16-bit value.
pub fn u16_from_i16(v: i16) -> (r: u16)
    ensures
        r == crate::wire::u16_of_i16(v),
{
    if v >= 0 { v as u16 } else { ((v as i32) + 0x10000) as u16 }
}

/// The signed reading of a 16-bit pattern, inverse of `u16_from_i16`.
pub fn i16_from_u16(v: u16) -> (r: i16)
    ensures
        r == crate::wire::i16_of_u16(v),
        crate::wire::u16_of_i16(r) == v,
{
    if v < 0x8000 { v as i16 } else { ((v as i32) - 0x10000) as i16 }
}

/// The unsigned bit pattern of a signed 32-bit value.
pub fn u32_from_i32(v: i32) -> (r: u32)
    ensures
        r == crate::wire::u32_of_i32(v),
{
    if v >= 0 { v as u32 } else { ((v as i64) + 0x1_0000_0000) as u32 }
}

/// The signed reading of a 32-bit pattern, inverse of `u32_from_i32`.
pub fn i32_from_u32(v: u32) -> (r: i32)
    ensures
        r == crate::wire::i32_of_u32(v),
        crate::wire::u32_of_i32(r) == v,
{
    if v < 0x8000_0000 { v as i32 } else { ((v as i64) - 0x1_0000_0000) as i32 }
}

/// The unsigned bit pattern of a signed 64-bit value.
pub fn u64_from_i64(v: i64) -> (r: u64)
    ensures
        r == crate::wire::u64_of_i64(v),
{
    if v >= 0 { v as u64 } else { ((v as i128) + 0x1_0000_0000_0000_0000) as u64 }
}

/// The signed reading of a 64-bit pattern, inverse of `u64_from_i64`.
pub fn i64_from_u64(v: u64) -> (r: i64)
    ensures
        r == crate::wire::i64_of_u64(v),
        crate::wire::u64_of_i64(r) == v,
{
    if v < 0x8000_0000_0000_0000 { v as i64 } else { ((v as i128) - 0x1_0000_0000_0000_0000) as i64 }
}

} // verus!
