//! Save-file container: header parsing, whole-file read and write, and the
//! inspection and mutation API over the root property map.
//!
//! `read` validates the magic header, decodes the version metadata and
//! walks the root property stream to the terminator; on success the
//! returned file is well-formed and re-encodes to exactly the input
//! buffer.  `write` is that re-encoding.  A fatal error never yields a
//! partially constructed file.

use vstd::prelude::*;
use crate::decode::{decode_stream, Warning};
use crate::encode::write_save;
use crate::model::{CustomVersion, EngineVersion, Entry, GvasString, PropertyMap, PropertyValue, SaveFile};
use crate::prim::{bytes_eq, copy_range, lemma_split, read_guid, read_str, read_u16, read_u32, DecodeError};
use crate::wire::{enc_custom_versions, enc_save, enc_str, enc_value_payload, lemma_custom_versions_push, magic, same_string, wf_entry, wf_save};

verus! {

/// One step of a navigation path: a field name (UTF-8 bytes) inside a
/// struct or the root map, or an element index inside an array or set.
#[derive(Debug, PartialEq, Eq)]
pub enum PathSeg {
    Field(Vec<u8>),
    Index(usize),
}

/// A rejected mutation.  The prior state is left unchanged.
#[derive(Clone, Copy, Debug, PartialEq, Eq)]
pub enum PathError {
    /// A path segment did not resolve.
    PathNotFound,
    /// The replacement value is not one the encoder can serialize in that
    /// slot.
    TypeMismatch,
}

/// Whether an entry carries the given UTF-8 name.
pub open spec fn has_name(e: Entry, nm: Seq<u8>) -> bool {
    e.name matches GvasString::Utf8(b) && b@ == nm
}

/// The value of the first entry with the given name, if any.
pub open spec fn field_of(s: Seq<Entry>, nm: Seq<u8>) -> Option<PropertyValue>
    decreases s.len(),
{
    if s.len() == 0 {
        None
    } else if has_name(s[0], nm) {
        Some(s[0].value)
    } else {
        field_of(s.drop_first(), nm)
    }
}

/// Resolves the remaining path segments against a value.
pub open spec fn resolve_in(v: PropertyValue, path: Seq<PathSeg>, i: int) -> Option<PropertyValue>
    decreases path.len() - i,
{
    if i < 0 || i > path.len() {
        None
    } else if i == path.len() {
        Some(v)
    } else {
        match path[i] {
            PathSeg::Field(nm) => match v {
                PropertyValue::Struct { fields, .. } => match field_of(fields.entries@, nm@) {
                    Some(v2) => resolve_in(v2, path, i + 1),
                    None => None,
                },
                _ => None,
            },
            PathSeg::Index(j) => match v {
                PropertyValue::Array { items, .. } => if j < items@.len() {
                    resolve_in(items@[j as int], path, i + 1)
                } else {
                    None
                },
                PropertyValue::SetOf { items, .. } => if j < items@.len() {
                    resolve_in(items@[j as int], path, i + 1)
                } else {
                    None
                },
                PropertyValue::MapOf { pairs, .. } => if j < pairs@.len() {
                    resolve_in(pairs@[j as int].value, path, i + 1)
                } else {
                    None
                },
                _ => None,
            },
        }
    }
}

/// Resolves a path against a save file's root map.
pub open spec fn resolve(sf: SaveFile, path: Seq<PathSeg>) -> Option<PropertyValue> {
    if path.len() == 0 {
        None
    } else {
        match path[0] {
            PathSeg::Field(nm) => match field_of(sf.root.entries@, nm@) {
                Some(v) => resolve_in(v, path, 1),
                None => None,
            },
            PathSeg::Index(_) => None,
        }
    }
}

/// Looks up the first entry with the given name, by reference.
fn field_get<'a>(entries: &'a Vec<Entry>, nm: &Vec<u8>) -> (r: Option<&'a PropertyValue>)
    ensures
        r matches Some(v) ==> field_of(entries@, nm@) == Some(*v),
        r is None ==> field_of(entries@, nm@) is None,
{
    let n = entries.len();
    let mut i: usize = 0;
    proof {
        assert(entries@.skip(0) =~= entries@);
    }
    while i < n
        invariant
            0 <= i <= n,
            n == entries@.len(),
            field_of(entries@, nm@) == field_of(entries@.skip(i as int), nm@),
        decreases n - i,
    {
        let e = &entries[i];
        let hit = match &e.name {
            GvasString::Utf8(b) => bytes_eq(b, nm),
            _ => false,
        };
        proof {
            assert(entries@.skip(i as int)[0] == entries@[i as int]);
        }
        if hit {
            return Some(&e.value);
        }
        proof {
            assert(entries@.skip(i as int).drop_first() =~= entries@.skip(i + 1));
        }
        i = i + 1;
    }
    proof {
        assert(entries@.skip(n as int).len() == 0);
    }
    None
}

/// Navigates the remaining path segments from a value, by reference.
fn get_in<'a>(v: &'a PropertyValue, path: &Vec<PathSeg>, i: usize) -> (r: Option<
    &'a PropertyValue,
>)
    requires
        i <= path@.len(),
    ensures
        r matches Some(x) ==> resolve_in(*v, path@, i as int) == Some(*x),
        r is None ==> resolve_in(*v, path@, i as int) is None,
    decreases path@.len() - i,
{
    if i == path.len() {
        return Some(v);
    }
    match &path[i] {
        PathSeg::Field(nm) => match v {
            PropertyValue::Struct { fields, .. } => match field_get(&fields.entries, nm) {
                Some(v2) => get_in(v2, path, i + 1),
                None => None,
            },
            _ => None,
        },
        PathSeg::Index(j) => match v {
            PropertyValue::Array { items, .. } => if *j < items.len() {
                get_in(&items[*j], path, i + 1)
            } else {
                None
            },
            PropertyValue::SetOf { items, .. } => if *j < items.len() {
                get_in(&items[*j], path, i + 1)
            } else {
                None
            },
            PropertyValue::MapOf { pairs, .. } => if *j < pairs.len() {
                get_in(&pairs[*j].value, path, i + 1)
            } else {
                None
            },
            _ => None,
        },
    }
}

/// Deep copy of a byte vector.
fn clone_bytes(v: &Vec<u8>) -> (r: Vec<u8>)
    ensures
        r@ == v@,
{
    copy_range(v, 0, v.len())
}

/// Deep copy of a string, with its exact encoding.
pub fn clone_string(s: &GvasString) -> (r: GvasString)
    ensures
        same_string(r, *s),
        enc_str(r) == enc_str(*s),
{
    match s {
        GvasString::Empty => GvasString::Empty,
        GvasString::Utf8(b) => {
            let c = clone_bytes(b);
            GvasString::Utf8(c)
        },
        GvasString::Utf16(u) => {
            let mut c: Vec<u16> = Vec::new();
            let n = u.len();
            let mut i: usize = 0;
            while i < n
                invariant
                    0 <= i <= n,
                    n == u@.len(),
                    c@ == u@.subrange(0, i as int),
                decreases n - i,
            {
                c.push(u[i]);
                proof {
                    assert(u@.subrange(0, i + 1) =~= u@.subrange(0, i as int).push(u@[i as int]));
                }
                i = i + 1;
            }
            proof {
                assert(u@.subrange(0, n as int) =~= u@);
            }
            GvasString::Utf16(c)
        },
    }
}

impl SaveFile {
    /// Decodes a save file from a byte buffer.  On success the result is
    /// well-formed and its byte image under the wire specification is the
    /// whole input buffer: serializing it again reproduces the input
    /// byte for byte.  Non-fatal observations (unknown type tags, demoted
    /// payloads) are returned alongside the file; a fatal error returns no
    /// file at all.
    #[verifier::rlimit(100)]
    #[verifier::spinoff_prover]
    pub fn read(bytes: &Vec<u8>) -> (r: Result<(SaveFile, Vec<Warning>), DecodeError>)
        ensures
            r matches Ok(t) ==> wf_save(t.0) && enc_save(t.0) == bytes@,
            r == Err::<(SaveFile, Vec<Warning>), DecodeError>(DecodeError::MalformedHeader)
                <==> bytes@.len() < 4 || bytes@.subrange(0, 4) != magic(),
            (exists|sf0: SaveFile|
                wf_save(sf0) && sf0.root.entries@.len() == 0 && sf0.custom_versions@.len() == 0
                    && enc_save(sf0) == bytes@) ==> r is Ok,
    {
        let ghost cpl = exists|sf0: SaveFile|
            wf_save(sf0) && sf0.root.entries@.len() == 0 && sf0.custom_versions@.len() == 0
                && enc_save(sf0) == bytes@;
        let ghost sf0 = choose|sf0: SaveFile|
            wf_save(sf0) && sf0.root.entries@.len() == 0 && sf0.custom_versions@.len() == 0
                && enc_save(sf0) == bytes@;
        let ghost lb = enc_str(sf0.engine.branch).len() as int;
        proof {
            if cpl {
                crate::prim::lemma_enc_str_shape(sf0.engine.branch);
                assert(crate::wire::enc_entry_list(sf0.root.entries@)
                    == Seq::<u8>::empty());
                assert(crate::wire::enc_stream(sf0.root.entries@)
                    =~= crate::wire::sentinel());
                assert(enc_custom_versions(sf0.custom_versions@) =~= Seq::<u8>::empty());
                assert(bytes@ =~= magic() + crate::wire::le32(sf0.save_game_version)
                    + crate::wire::le32(sf0.package_version) + crate::wire::le16(
                    sf0.engine.major,
                ) + crate::wire::le16(sf0.engine.minor) + crate::wire::le16(sf0.engine.patch)
                    + crate::wire::le32(sf0.engine.changelist) + enc_str(sf0.engine.branch)
                    + crate::wire::le32(0) + crate::wire::sentinel());
                assert(crate::wire::sentinel().len() == 9);
                assert(bytes@.len() == 35 + lb);
                assert(bytes@.subrange(0, 4) =~= magic());
                assert(bytes@.subrange(22, 22 + lb) =~= enc_str(sf0.engine.branch));
                assert(bytes@.subrange(22 + lb, 26 + lb) =~= crate::wire::le32(0));
                assert(bytes@.subrange(26 + lb, 35 + lb) =~= crate::wire::sentinel());
            }
        }
        let end = bytes.len();
        let mut warns: Vec<Warning> = Vec::new();
        if end < 4 {
            return Err(DecodeError::MalformedHeader);
        }
        if !(bytes[0] == 71 && bytes[1] == 86 && bytes[2] == 65 && bytes[3] == 83) {
            return Err(DecodeError::MalformedHeader);
        }
        proof {
            assert(bytes@.subrange(0, 4) =~= magic());
        }
        let (save_game_version, p1) = match read_u32(bytes, 4, end) {
            Ok(t) => t,
            Err(e) => {
                return Err(e);
            },
        };
        let (package_version, p2) = match read_u32(bytes, p1, end) {
            Ok(t) => t,
            Err(e) => {
                return Err(e);
            },
        };
        let (major, p3) = match read_u16(bytes, p2, end) {
            Ok(t) => t,
            Err(e) => {
                return Err(e);
            },
        };
        let (minor, p4) = match read_u16(bytes, p3, end) {
            Ok(t) => t,
            Err(e) => {
                return Err(e);
            },
        };
        let (patch, p5) = match read_u16(bytes, p4, end) {
            Ok(t) => t,
            Err(e) => {
                return Err(e);
            },
        };
        let (changelist, p6) = match read_u32(bytes, p5, end) {
            Ok(t) => t,
            Err(e) => {
                return Err(e);
            },
        };
        let (branch, p7) = match read_str(bytes, p6, end) {
            Ok(t) => t,
            Err(e) => {
                proof {
                    if cpl {
                        assert(crate::wire::str_prefix_at(bytes@, 22, end as int,
                            sf0.engine.branch));
                        assert(false);
                    }
                }
                return Err(e);
            },
        };
        proof {
            if cpl {
                let w = bytes@.subrange(22, end as int);
                assert forall|i: int| 0 <= i < enc_str(branch).len() implies w[i] == enc_str(
                    branch,
                )[i] by {
                    assert(bytes@.subrange(p6 as int, p7 as int)[i] == enc_str(branch)[i]);
                }
                assert forall|i: int| 0 <= i < lb implies w[i] == enc_str(sf0.engine.branch)[i]
                    by {
                    assert(bytes@.subrange(22, 22 + lb)[i] == enc_str(sf0.engine.branch)[i]);
                }
                assert(w.subrange(0, enc_str(branch).len() as int) =~= enc_str(branch));
                assert(w.subrange(0, lb) =~= enc_str(sf0.engine.branch));
                crate::prim::lemma_str_prefix_det(branch, sf0.engine.branch, w);
                assert(p7 == 22 + lb);
            }
        }
        let (cv_count, p8) = match read_u32(bytes, p7, end) {
            Ok(t) => t,
            Err(e) => {
                return Err(e);
            },
        };
        proof {
            if cpl {
                assert(bytes@.subrange(p7 as int, p8 as int) == crate::wire::le32(cv_count));
                crate::prim::lemma_le32_inj(cv_count, 0);
                assert(cv_count == 0);
            }
        }
        let mut custom_versions: Vec<CustomVersion> = Vec::new();
        let mut p = p8;
        let mut i: u32 = 0;
        while i < cv_count
            invariant
                p8 <= p <= end <= bytes@.len(),
                bytes@.len() >= 4 && bytes@.subrange(0, 4) == magic(),
                0 <= i <= cv_count,
                cpl == (exists|sf0: SaveFile|
                    wf_save(sf0) && sf0.root.entries@.len() == 0
                        && sf0.custom_versions@.len() == 0 && enc_save(sf0) == bytes@),
                cpl ==> cv_count == 0,
                cv_count == 0 ==> p == p8,
                custom_versions@.len() == i,
                forall|j: int|
                    0 <= j < custom_versions@.len() ==> crate::wire::wf_guid(
                        (#[trigger] custom_versions@[j]).guid,
                    ),
                bytes@.subrange(p8 as int, p as int) == enc_custom_versions(custom_versions@),
            decreases cv_count - i,
        {
            let (guid, pg) = match read_guid(bytes, p, end) {
                Ok(t) => t,
                Err(e) => {
                    return Err(e);
                },
            };
            let (version, pv) = match read_u32(bytes, pg, end) {
                Ok(t) => t,
                Err(e) => {
                    return Err(e);
                },
            };
            let cv = CustomVersion { guid, version };
            proof {
                lemma_custom_versions_push(custom_versions@, cv);
                lemma_split(bytes@, p as int, pg as int, pv as int);
                lemma_split(bytes@, p8 as int, p as int, pv as int);
            }
            custom_versions.push(cv);
            p = pv;
            i = i + 1;
        }
        let (entries, p9) = match decode_stream(bytes, p, end, &mut warns) {
            Ok(t) => t,
            Err(e) => {
                proof {
                    if cpl {
                        assert(end == p + 9);
                        assert(bytes@.subrange(p as int, end as int)
                            == crate::wire::sentinel());
                        assert(false);
                    }
                }
                return Err(e);
            },
        };
        if p9 != end {
            proof {
                if cpl {
                    assert(crate::wire::enc_stream(entries@).len() >= 9);
                    assert(p9 == end);
                    assert(false);
                }
            }
            return Err(DecodeError::InvalidEncoding { offset: p9 });
        }
        let sf = SaveFile {
            save_game_version,
            package_version,
            engine: EngineVersion { major, minor, patch, changelist, branch },
            custom_versions,
            root: PropertyMap { entries },
        };
        proof {
            lemma_split(bytes@, 0, 4, end as int);
            lemma_split(bytes@, 4, p1 as int, end as int);
            lemma_split(bytes@, p1 as int, p2 as int, end as int);
            lemma_split(bytes@, p2 as int, p3 as int, end as int);
            lemma_split(bytes@, p3 as int, p4 as int, end as int);
            lemma_split(bytes@, p4 as int, p5 as int, end as int);
            lemma_split(bytes@, p5 as int, p6 as int, end as int);
            lemma_split(bytes@, p6 as int, p7 as int, end as int);
            lemma_split(bytes@, p7 as int, p8 as int, end as int);
            lemma_split(bytes@, p8 as int, p as int, end as int);
            assert(bytes@.subrange(0, end as int) =~= bytes@);
            assert(bytes@ == enc_save(sf));
        }
        Ok((sf, warns))
    }

    /// Serializes the save file: header, version records, root stream.
    pub fn write(&self) -> (r: Vec<u8>)
        requires
            wf_save(*self),
        ensures
            r@ == enc_save(*self),
    {
        write_save(self)
    }

    /// The top-level property names, in their on-stream order.
    pub fn top_level_names(&self) -> (names: Vec<GvasString>)
        ensures
            names@.len() == self.root.entries@.len(),
            forall|i: int|
                0 <= i < names@.len() ==> same_string(
                    names@[i],
                    (#[trigger] self.root.entries@[i]).name,
                ),
    {
        let mut names: Vec<GvasString> = Vec::new();
        let n = self.root.entries.len();
        let mut i: usize = 0;
        while i < n
            invariant
                0 <= i <= n,
                n == self.root.entries@.len(),
                names@.len() == i,
                forall|j: int|
                    0 <= j < i ==> same_string(
                        names@[j],
                        (#[trigger] self.root.entries@[j]).name,
                    ),
            decreases n - i,
        {
            names.push(clone_string(&self.root.entries[i].name));
            i = i + 1;
        }
        names
    }

    /// Navigates a path of field names and element indices to a value.
    pub fn get(&self, path: &Vec<PathSeg>) -> (r: Option<&PropertyValue>)
        ensures
            r matches Some(x) ==> resolve(*self, path@) == Some(*x),
            r is None ==> resolve(*self, path@) is None,
    {
        if path.len() == 0 {
            return None;
        }
        match &path[0] {
            PathSeg::Field(nm) => match field_get(&self.root.entries, nm) {
                Some(v) => get_in(v, path, 1),
                None => None,
            },
            PathSeg::Index(_) => None,
        }
    }

    /// Replaces the value of the named top-level property.  The name, the
    /// order of the map and every other entry are untouched; the new value
    /// must be one the encoder can serialize, else the edit is rejected
    /// with `TypeMismatch` and nothing changes.  A name that resolves to
    /// no entry is rejected with `PathNotFound`.
    pub fn set(&mut self, name: &Vec<u8>, value: PropertyValue) -> (r: Result<(), PathError>)
        requires
            wf_save(*old(self)),
        ensures
            wf_save(*final(self)),
            r is Err ==> *final(self) == *old(self),
            r == Err::<(), PathError>(PathError::PathNotFound) <==> !(exists|idx: int|
                0 <= idx < old(self).root.entries@.len() && has_name(
                    #[trigger] old(self).root.entries@[idx],
                    name@,
                )),
            r == Err::<(), PathError>(PathError::TypeMismatch) <==> ((exists|idx: int|
                0 <= idx < old(self).root.entries@.len() && has_name(
                    #[trigger] old(self).root.entries@[idx],
                    name@,
                )) && !crate::wire::wf_value(value)),
            r is Ok ==> {
                &&& exists|idx: int|
                    0 <= idx < old(self).root.entries@.len() && has_name(
                        #[trigger] old(self).root.entries@[idx],
                        name@,
                    ) && (forall|j: int|
                        0 <= j < idx ==> !has_name(#[trigger] old(self).root.entries@[j], name@))
                        && final(self).root.entries@ == old(self).root.entries@.update(
                        idx,
                        (Entry { name: old(self).root.entries@[idx].name, value }),
                    )
                &&& final(self).save_game_version == old(self).save_game_version
                &&& final(self).package_version == old(self).package_version
                &&& final(self).engine == old(self).engine
                &&& final(self).custom_versions == old(self).custom_versions
            },
    {
        let n = self.root.entries.len();
        let mut i: usize = 0;
        while i < n
            invariant
                0 <= i <= n,
                n == self.root.entries@.len(),
                *self == *old(self),
                wf_save(*self),
                forall|j: int| 0 <= j < i ==> !has_name(#[trigger] self.root.entries@[j], name@),
            decreases n - i,
        {
            let hit = match &self.root.entries[i].name {
                GvasString::Utf8(b) => bytes_eq(b, name),
                _ => false,
            };
            if hit {
                if !crate::wfcheck::is_wf_value(&value) {
                    return Err(PathError::TypeMismatch);
                }
                let plen = crate::encode::measure_payload(&value);
                proof {
                    assert(wf_entry(self.root.entries@[i as int]));
                }
                let taken = self.root.entries.remove(i);
                let e2 = Entry { name: taken.name, value };
                proof {
                    assert(enc_value_payload(e2.value).len() == plen as nat);
                    assert((plen as nat) <= 0xffff_ffff_ffff_ffff);
                    assert(wf_entry(e2));
                }
                self.root.entries.insert(i, e2);
                proof {
                    assert(self.root.entries@ =~= old(self).root.entries@.update(
                        i as int,
                        (Entry { name: old(self).root.entries@[i as int].name, value }),
                    ));
                    assert forall|j: int| 0 <= j < self.root.entries@.len() implies wf_entry(
                        #[trigger] self.root.entries@[j],
                    ) by {
                        if j != i as int {
                            assert(self.root.entries@[j] == old(self).root.entries@[j]);
                            assert(wf_entry(old(self).root.entries@[j]));
                        }
                    }
                }
                return Ok(());
            }
            i = i + 1;
        }
        Err(PathError::PathNotFound)
    }
}

} // verus!
