use gvas_codec::decode::Warning;
use gvas_codec::model::{GvasString, PrimitiveValue, PropertyValue, SaveFile, TagKind};
use gvas_codec::prim::DecodeError;
use gvas_codec::save::{PathError, PathSeg};

fn le32(v: u32) -> Vec<u8> {
    v.to_le_bytes().to_vec()
}

fn le64(v: u64) -> Vec<u8> {
    v.to_le_bytes().to_vec()
}

/// A UTF-8 length-prefixed string: content length + 1, content, NUL.
fn pstr(s: &str) -> Vec<u8> {
    let mut out = le32((s.len() + 1) as u32);
    out.extend_from_slice(s.as_bytes());
    out.push(0);
    out
}

/// A minimal valid header: magic, versions, engine version, no custom
/// versions.
fn header() -> Vec<u8> {
    let mut out = b"GVAS".to_vec();
    out.extend_from_slice(&le32(2)); // save game version
    out.extend_from_slice(&le32(522)); // package version
    out.extend_from_slice(&5u16.to_le_bytes()); // major
    out.extend_from_slice(&1u16.to_le_bytes()); // minor
    out.extend_from_slice(&3u16.to_le_bytes()); // patch
    out.extend_from_slice(&le32(804)); // changelist
    out.extend_from_slice(&pstr("++UE5+Release")); // branch
    out.extend_from_slice(&le32(0)); // custom version count
    out
}

/// One property record: name, type tag, 64-bit payload length, payload.
fn prop(name: &str, tag: &str, payload: &[u8]) -> Vec<u8> {
    let mut out = pstr(name);
    out.extend_from_slice(&pstr(tag));
    out.extend_from_slice(&le64(payload.len() as u64));
    out.extend_from_slice(payload);
    out
}

fn terminator() -> Vec<u8> {
    pstr("None")
}

fn simple_file() -> Vec<u8> {
    let mut buf = header();
    buf.extend_from_slice(&prop("Score", "IntProperty", &10i32.to_le_bytes()));
    buf.extend_from_slice(&prop("Lives", "ByteProperty", &[3u8]));
    buf.extend_from_slice(&terminator());
    buf
}

#[test]
fn round_trip_simple() {
    let buf = simple_file();
    let (sf, warns) = SaveFile::read(&buf).expect("decode");
    assert!(warns.is_empty());
    assert_eq!(sf.write(), buf);
}

#[test]
fn idempotent_reserialization() {
    let buf = simple_file();
    let (sf, _) = SaveFile::read(&buf).expect("decode");
    let once = sf.write();
    let (sf2, _) = SaveFile::read(&once).expect("second decode");
    let twice = sf2.write();
    assert_eq!(twice, once);
}

#[test]
fn order_preserved() {
    let mut buf = header();
    buf.extend_from_slice(&prop("Charlie", "IntProperty", &1i32.to_le_bytes()));
    buf.extend_from_slice(&prop("Alpha", "IntProperty", &2i32.to_le_bytes()));
    buf.extend_from_slice(&prop("Bravo", "IntProperty", &3i32.to_le_bytes()));
    buf.extend_from_slice(&terminator());
    let (sf, _) = SaveFile::read(&buf).expect("decode");
    let names = sf.top_level_names();
    let expect = ["Charlie", "Alpha", "Bravo"];
    assert_eq!(names.len(), 3);
    for (i, want) in expect.iter().enumerate() {
        match &names[i] {
            GvasString::Utf8(b) => assert_eq!(b.as_slice(), want.as_bytes()),
            other => panic!("unexpected name encoding: {:?}", other),
        }
    }
}

#[test]
fn unknown_type_survives() {
    let mut buf = header();
    buf.extend_from_slice(&prop("Score", "IntProperty", &10i32.to_le_bytes()));
    buf.extend_from_slice(&prop("Mystery", "FancyProperty", &[9, 8, 7, 6, 5]));
    buf.extend_from_slice(&terminator());
    let (sf, warns) = SaveFile::read(&buf).expect("unknown tag must not be fatal");
    assert_eq!(warns.len(), 1);
    match &warns[0] {
        Warning::UnknownTypeTag { name, tag } => {
            assert_eq!(*name, GvasString::Utf8(b"Mystery".to_vec()));
            assert_eq!(*tag, GvasString::Utf8(b"FancyProperty".to_vec()));
        },
        other => panic!("expected an unknown-tag warning, got {:?}", other),
    }
    let path = vec![PathSeg::Field(b"Mystery".to_vec())];
    match sf.get(&path) {
        Some(PropertyValue::Opaque { bytes, .. }) => assert_eq!(bytes.as_slice(), &[9, 8, 7, 6, 5]),
        other => panic!("expected opaque value, got {:?}", other),
    }
    assert_eq!(sf.write(), buf);
}

#[test]
fn truncation_detected() {
    let buf = simple_file();
    // Cut two bytes into the four-byte payload of "Score".
    let cut = header().len() + pstr("Score").len() + pstr("IntProperty").len() + 8 + 2;
    let truncated = buf[..cut].to_vec();
    match SaveFile::read(&truncated) {
        Err(DecodeError::TruncatedStream { .. }) => {},
        other => panic!("expected TruncatedStream, got {:?}", other),
    }
}

#[test]
fn zero_length_string_roundtrip() {
    let mut buf = header();
    // A zero length prefix: the empty string with no payload bytes at all.
    buf.extend_from_slice(&prop("Tag", "StrProperty", &le32(0)));
    // A one-length prefix: empty content plus its NUL.
    let mut empty_utf8 = le32(1);
    empty_utf8.push(0);
    buf.extend_from_slice(&prop("Label", "StrProperty", &empty_utf8));
    buf.extend_from_slice(&terminator());
    let (sf, warns) = SaveFile::read(&buf).expect("decode");
    assert!(warns.is_empty());
    let tag = sf.get(&vec![PathSeg::Field(b"Tag".to_vec())]).unwrap();
    assert!(matches!(tag, PropertyValue::Scalar(PrimitiveValue::Str(GvasString::Empty))));
    let label = sf.get(&vec![PathSeg::Field(b"Label".to_vec())]).unwrap();
    match label {
        PropertyValue::Scalar(PrimitiveValue::Str(GvasString::Utf8(b))) => assert!(b.is_empty()),
        other => panic!("expected empty UTF-8 string, got {:?}", other),
    }
    assert_eq!(sf.write(), buf);
}

#[test]
fn utf16_string_roundtrip() {
    // "😀!" as UTF-16: a surrogate pair followed by '!'.
    let units: [u16; 3] = [0xd83d, 0xde00, 0x21];
    let mut payload = ((-((units.len() as i64) + 1)) as i32).to_le_bytes().to_vec();
    for u in units {
        payload.extend_from_slice(&u.to_le_bytes());
    }
    payload.extend_from_slice(&0u16.to_le_bytes());
    let mut buf = header();
    buf.extend_from_slice(&prop("Chat", "StrProperty", &payload));
    buf.extend_from_slice(&terminator());
    let (sf, warns) = SaveFile::read(&buf).expect("decode");
    assert!(warns.is_empty());
    match sf.get(&vec![PathSeg::Field(b"Chat".to_vec())]) {
        Some(PropertyValue::Scalar(PrimitiveValue::Str(GvasString::Utf16(u)))) => {
            assert_eq!(u.as_slice(), &units);
        },
        other => panic!("expected UTF-16 string, got {:?}", other),
    }
    assert_eq!(sf.write(), buf);
}

#[test]
fn mutation_scenario() {
    let buf = simple_file();
    let (mut sf, _) = SaveFile::read(&buf).expect("decode");
    sf.set(&b"Score".to_vec(), PropertyValue::Scalar(PrimitiveValue::Int32(99)))
        .expect("set must succeed");
    let out = sf.write();
    let (sf2, _) = SaveFile::read(&out).expect("re-decode");
    match sf2.get(&vec![PathSeg::Field(b"Score".to_vec())]) {
        Some(PropertyValue::Scalar(PrimitiveValue::Int32(v))) => assert_eq!(*v, 99),
        other => panic!("expected Int32, got {:?}", other),
    }
    // Everything but the four payload bytes of "Score" is byte-identical.
    let score_payload = header().len() + pstr("Score").len() + pstr("IntProperty").len() + 8;
    assert_eq!(out.len(), buf.len());
    assert_eq!(&out[..score_payload], &buf[..score_payload]);
    assert_eq!(&out[score_payload], &99u8);
    assert_eq!(&out[score_payload + 4..], &buf[score_payload + 4..]);
}

#[test]
fn set_path_not_found() {
    let buf = simple_file();
    let (mut sf, _) = SaveFile::read(&buf).expect("decode");
    let r = sf.set(&b"Missing".to_vec(), PropertyValue::Scalar(PrimitiveValue::Int32(1)));
    assert_eq!(r, Err(PathError::PathNotFound));
    assert_eq!(sf.write(), buf);
}

#[test]
fn set_rejects_ill_formed_value() {
    let buf = simple_file();
    let (mut sf, _) = SaveFile::read(&buf).expect("decode");
    // An array declared to hold 32-bit integers but holding a bool cannot
    // be serialized under its element tag.
    let bad = PropertyValue::Array {
        elem: TagKind::Int32,
        items: vec![PropertyValue::Scalar(PrimitiveValue::Bool(true))],
    };
    let r = sf.set(&b"Score".to_vec(), bad);
    assert_eq!(r, Err(PathError::TypeMismatch));
    assert_eq!(sf.write(), buf);
}

/// One bare struct element: struct type name, payload length, GUID, then
/// a nested property stream.
fn struct_item(stype: &str, guid: &[u8; 16], stream: &[u8]) -> Vec<u8> {
    let mut out = pstr(stype);
    out.extend_from_slice(&le64(stream.len() as u64));
    out.extend_from_slice(guid);
    out.extend_from_slice(stream);
    out
}

#[test]
fn nested_struct_array_roundtrip() {
    let guid = [7u8; 16];
    // Each inventory item is a struct with two fields, in a fixed order.
    let mut item1 = prop("Id", "IntProperty", &1i32.to_le_bytes());
    item1.extend_from_slice(&prop("Count", "ByteProperty", &[5]));
    item1.extend_from_slice(&terminator());
    let mut item2 = prop("Id", "IntProperty", &2i32.to_le_bytes());
    item2.extend_from_slice(&prop("Count", "ByteProperty", &[9]));
    item2.extend_from_slice(&terminator());

    // The array payload: element count, then the bare struct elements.
    let mut array_payload = le32(2);
    array_payload.extend_from_slice(&struct_item("ItemData", &guid, &item1));
    array_payload.extend_from_slice(&struct_item("ItemData", &guid, &item2));

    // The array property inside the outer struct's stream.
    let mut array_prop = pstr("Items");
    array_prop.extend_from_slice(&pstr("ArrayProperty"));
    array_prop.extend_from_slice(&pstr("StructProperty"));
    array_prop.extend_from_slice(&le64(array_payload.len() as u64));
    array_prop.extend_from_slice(&array_payload);

    let mut inner = array_prop;
    inner.extend_from_slice(&terminator());

    // The outer struct property: tag, struct type, length, GUID, stream.
    let mut outer = pstr("Inventory");
    outer.extend_from_slice(&pstr("StructProperty"));
    outer.extend_from_slice(&pstr("InventoryData"));
    outer.extend_from_slice(&le64(inner.len() as u64));
    outer.extend_from_slice(&[3u8; 16]);
    outer.extend_from_slice(&inner);

    let mut buf = header();
    buf.extend_from_slice(&outer);
    buf.extend_from_slice(&terminator());

    let (sf, warns) = SaveFile::read(&buf).expect("decode");
    assert!(warns.is_empty());
    let path = vec![PathSeg::Field(b"Inventory".to_vec()), PathSeg::Field(b"Items".to_vec())];
    match sf.get(&path) {
        Some(PropertyValue::Array { elem, items }) => {
            assert_eq!(*elem, TagKind::Structure);
            assert_eq!(items.len(), 2);
            match &items[1] {
                PropertyValue::Struct { fields, .. } => {
                    assert_eq!(fields.entries.len(), 2);
                    assert_eq!(fields.entries[0].name, GvasString::Utf8(b"Id".to_vec()));
                    assert_eq!(fields.entries[1].name, GvasString::Utf8(b"Count".to_vec()));
                },
                other => panic!("expected struct element, got {:?}", other),
            }
        },
        other => panic!("expected array, got {:?}", other),
    }
    // Elements by index through the path API.
    let deep = vec![
        PathSeg::Field(b"Inventory".to_vec()),
        PathSeg::Field(b"Items".to_vec()),
        PathSeg::Index(0),
        PathSeg::Field(b"Count".to_vec()),
    ];
    match sf.get(&deep) {
        Some(PropertyValue::Scalar(PrimitiveValue::Byte(v))) => assert_eq!(*v, 5),
        other => panic!("expected byte, got {:?}", other),
    }
    assert_eq!(sf.write(), buf);
}

#[test]
fn scalar_widths_roundtrip() {
    let mut buf = header();
    buf.extend_from_slice(&prop("A", "Int8Property", &(-2i8).to_le_bytes()));
    buf.extend_from_slice(&prop("B", "Int16Property", &(-300i16).to_le_bytes()));
    buf.extend_from_slice(&prop("C", "Int64Property", &(-5_000_000_000i64).to_le_bytes()));
    buf.extend_from_slice(&prop("D", "UInt16Property", &40000u16.to_le_bytes()));
    buf.extend_from_slice(&prop("E", "UInt32Property", &3_000_000_000u32.to_le_bytes()));
    buf.extend_from_slice(&prop("F", "UInt64Property", &18_000_000_000_000_000_000u64.to_le_bytes()));
    buf.extend_from_slice(&prop("G", "FloatProperty", &1.5f32.to_le_bytes()));
    buf.extend_from_slice(&prop("H", "DoubleProperty", &(-0.25f64).to_le_bytes()));
    buf.extend_from_slice(&prop("I", "BoolProperty", &[1]));
    buf.extend_from_slice(&terminator());
    let (sf, warns) = SaveFile::read(&buf).expect("decode");
    assert!(warns.is_empty());
    let get = |n: &[u8]| sf.get(&vec![PathSeg::Field(n.to_vec())]).unwrap();
    assert!(matches!(get(b"A"), PropertyValue::Scalar(PrimitiveValue::Int8(-2))));
    assert!(matches!(get(b"B"), PropertyValue::Scalar(PrimitiveValue::Int16(-300))));
    assert!(matches!(get(b"C"), PropertyValue::Scalar(PrimitiveValue::Int64(-5_000_000_000))));
    assert!(matches!(get(b"D"), PropertyValue::Scalar(PrimitiveValue::UInt16(40000))));
    assert!(matches!(get(b"E"), PropertyValue::Scalar(PrimitiveValue::UInt32(3_000_000_000))));
    assert!(
        matches!(get(b"F"), PropertyValue::Scalar(PrimitiveValue::UInt64(18_000_000_000_000_000_000)))
    );
    match get(b"G") {
        PropertyValue::Scalar(PrimitiveValue::Float32 { bits }) => {
            assert_eq!(f32::from_bits(*bits), 1.5);
        },
        other => panic!("expected float bits, got {:?}", other),
    }
    match get(b"H") {
        PropertyValue::Scalar(PrimitiveValue::Float64 { bits }) => {
            assert_eq!(f64::from_bits(*bits), -0.25);
        },
        other => panic!("expected double bits, got {:?}", other),
    }
    assert!(matches!(get(b"I"), PropertyValue::Scalar(PrimitiveValue::Bool(true))));
    assert_eq!(sf.write(), buf);
}

#[test]
fn enum_map_set_text_roundtrip() {
    let mut buf = header();

    let mut enum_prop = pstr("Stance");
    enum_prop.extend_from_slice(&pstr("EnumProperty"));
    enum_prop.extend_from_slice(&pstr("EStance"));
    let enum_payload = pstr("EStance::Crouched");
    enum_prop.extend_from_slice(&le64(enum_payload.len() as u64));
    enum_prop.extend_from_slice(&enum_payload);
    buf.extend_from_slice(&enum_prop);

    let mut map_payload = le32(2);
    map_payload.extend_from_slice(&pstr("HP"));
    map_payload.extend_from_slice(&50i32.to_le_bytes());
    map_payload.extend_from_slice(&pstr("MP"));
    map_payload.extend_from_slice(&30i32.to_le_bytes());
    let mut map_prop = pstr("Stats");
    map_prop.extend_from_slice(&pstr("MapProperty"));
    map_prop.extend_from_slice(&pstr("StrProperty"));
    map_prop.extend_from_slice(&pstr("IntProperty"));
    map_prop.extend_from_slice(&le64(map_payload.len() as u64));
    map_prop.extend_from_slice(&map_payload);
    buf.extend_from_slice(&map_prop);

    let mut set_payload = le32(2);
    set_payload.extend_from_slice(&7i32.to_le_bytes());
    set_payload.extend_from_slice(&11i32.to_le_bytes());
    let mut set_prop = pstr("Unlocked");
    set_prop.extend_from_slice(&pstr("SetProperty"));
    set_prop.extend_from_slice(&pstr("IntProperty"));
    set_prop.extend_from_slice(&le64(set_payload.len() as u64));
    set_prop.extend_from_slice(&set_payload);
    buf.extend_from_slice(&set_prop);

    let mut text_payload = le32(0); // flags
    text_payload.push(255); // history discriminator
    text_payload.extend_from_slice(&le32(1));
    text_payload.extend_from_slice(&pstr("Hello"));
    buf.extend_from_slice(&prop("Greeting", "TextProperty", &text_payload));

    buf.extend_from_slice(&prop("Target", "ObjectProperty", &pstr("/Game/Maps/Hub")));

    buf.extend_from_slice(&terminator());
    let (sf, warns) = SaveFile::read(&buf).expect("decode");
    assert!(warns.is_empty());
    let get = |n: &[u8]| sf.get(&vec![PathSeg::Field(n.to_vec())]).unwrap();
    match get(b"Stance") {
        PropertyValue::Enum { etype, value } => {
            assert_eq!(*etype, GvasString::Utf8(b"EStance".to_vec()));
            assert_eq!(*value, GvasString::Utf8(b"EStance::Crouched".to_vec()));
        },
        other => panic!("expected enum, got {:?}", other),
    }
    match get(b"Stats") {
        PropertyValue::MapOf { ktag, vtag, pairs } => {
            assert_eq!((*ktag, *vtag), (TagKind::Str, TagKind::Int32));
            assert_eq!(pairs.len(), 2);
            assert!(matches!(pairs[1].value, PropertyValue::Scalar(PrimitiveValue::Int32(30))));
        },
        other => panic!("expected map, got {:?}", other),
    }
    match get(b"Unlocked") {
        PropertyValue::SetOf { elem, items } => {
            assert_eq!(*elem, TagKind::Int32);
            assert_eq!(items.len(), 2);
        },
        other => panic!("expected set, got {:?}", other),
    }
    match get(b"Greeting") {
        PropertyValue::Text { flags, variant, strings } => {
            assert_eq!((*flags, *variant), (0, 255));
            assert_eq!(strings.len(), 1);
        },
        other => panic!("expected text, got {:?}", other),
    }
    assert!(matches!(get(b"Target"), PropertyValue::Object(_)));
    assert_eq!(sf.write(), buf);
}

#[test]
fn malformed_magic_rejected() {
    let mut buf = simple_file();
    buf[0] = b'X';
    assert_eq!(SaveFile::read(&buf), Err(DecodeError::MalformedHeader));
}

#[test]
fn trailing_bytes_rejected() {
    let mut buf = simple_file();
    buf.push(0);
    match SaveFile::read(&buf) {
        Err(DecodeError::InvalidEncoding { .. }) => {},
        other => panic!("expected InvalidEncoding, got {:?}", other),
    }
}

#[test]
fn string_missing_nul_rejected() {
    let mut buf = header();
    // A property name whose last byte is not NUL is unreadable.
    buf.extend_from_slice(&le32(3));
    buf.extend_from_slice(b"Hi!");
    match SaveFile::read(&buf) {
        Err(DecodeError::InvalidEncoding { .. }) => {},
        other => panic!("expected InvalidEncoding, got {:?}", other),
    }
}

#[test]
fn length_mismatch_demotes_to_opaque() {
    let mut buf = header();
    // An IntProperty whose declared length is five bytes: kept as an
    // opaque blob rather than rejected.
    buf.extend_from_slice(&prop("Odd", "IntProperty", &[1, 2, 3, 4, 5]));
    buf.extend_from_slice(&terminator());
    let (sf, warns) = SaveFile::read(&buf).expect("decode");
    assert_eq!(warns.len(), 1);
    match &warns[0] {
        Warning::LengthMismatch { name, declared } => {
            assert_eq!(*name, GvasString::Utf8(b"Odd".to_vec()));
            assert_eq!(*declared, 5);
        },
        other => panic!("expected a length-mismatch warning, got {:?}", other),
    }
    match sf.get(&vec![PathSeg::Field(b"Odd".to_vec())]) {
        Some(PropertyValue::Opaque { bytes, .. }) => assert_eq!(bytes.as_slice(), &[1, 2, 3, 4, 5]),
        other => panic!("expected opaque, got {:?}", other),
    }
    assert_eq!(sf.write(), buf);
}

#[test]
fn bool_out_of_range_demotes() {
    let mut buf = header();
    buf.extend_from_slice(&prop("Flag", "BoolProperty", &[2]));
    buf.extend_from_slice(&terminator());
    let (sf, warns) = SaveFile::read(&buf).expect("decode");
    assert_eq!(warns.len(), 1);
    assert!(matches!(warns[0], Warning::LengthMismatch { .. }));
    assert_eq!(sf.write(), buf);
}

#[test]
fn custom_versions_roundtrip() {
    let mut buf = b"GVAS".to_vec();
    buf.extend_from_slice(&le32(2));
    buf.extend_from_slice(&le32(522));
    buf.extend_from_slice(&5u16.to_le_bytes());
    buf.extend_from_slice(&1u16.to_le_bytes());
    buf.extend_from_slice(&3u16.to_le_bytes());
    buf.extend_from_slice(&le32(804));
    buf.extend_from_slice(&pstr("++UE5+Release"));
    buf.extend_from_slice(&le32(2));
    buf.extend_from_slice(&[1u8; 16]);
    buf.extend_from_slice(&le32(7));
    buf.extend_from_slice(&[2u8; 16]);
    buf.extend_from_slice(&le32(9));
    buf.extend_from_slice(&terminator());
    let (sf, warns) = SaveFile::read(&buf).expect("decode");
    assert!(warns.is_empty());
    assert_eq!(sf.custom_versions.len(), 2);
    assert_eq!(sf.custom_versions[1].version, 9);
    assert_eq!(sf.engine.major, 5);
    assert_eq!(sf.write(), buf);
}

#[test]
fn set_keeps_order_and_names() {
    let buf = simple_file();
    let (mut sf, _) = SaveFile::read(&buf).expect("decode");
    sf.set(&b"Lives".to_vec(), PropertyValue::Scalar(PrimitiveValue::Byte(7)))
        .expect("set");
    let names = sf.top_level_names();
    assert_eq!(names.len(), 2);
    assert_eq!(names[0], GvasString::Utf8(b"Score".to_vec()));
    assert_eq!(names[1], GvasString::Utf8(b"Lives".to_vec()));
}

#[test]
fn get_empty_path_is_none() {
    let buf = simple_file();
    let (sf, _) = SaveFile::read(&buf).expect("decode");
    assert!(sf.get(&Vec::new()).is_none());
}

#[test]
fn array_of_strings_roundtrip() {
    let mut payload = le32(2);
    payload.extend_from_slice(&pstr("sword"));
    payload.extend_from_slice(&pstr("shield"));
    let mut arr = pstr("Bag");
    arr.extend_from_slice(&pstr("ArrayProperty"));
    arr.extend_from_slice(&pstr("StrProperty"));
    arr.extend_from_slice(&le64(payload.len() as u64));
    arr.extend_from_slice(&payload);
    let mut buf = header();
    buf.extend_from_slice(&arr);
    buf.extend_from_slice(&terminator());
    let (sf, warns) = SaveFile::read(&buf).expect("decode");
    assert!(warns.is_empty());
    match sf.get(&vec![PathSeg::Field(b"Bag".to_vec())]) {
        Some(PropertyValue::Array { elem, items }) => {
            assert_eq!(*elem, TagKind::Str);
            assert_eq!(items.len(), 2);
            match &items[0] {
                PropertyValue::Scalar(PrimitiveValue::Str(GvasString::Utf8(b))) => {
                    assert_eq!(b.as_slice(), b"sword");
                },
                other => panic!("expected string element, got {:?}", other),
            }
        },
        other => panic!("expected array, got {:?}", other),
    }
    assert_eq!(sf.write(), buf);
}

#[test]
fn utf16_property_name_roundtrip() {
    // A property whose *name* is UTF-16 encoded.
    let units: [u16; 2] = [0x0141, 0x00f6];
    let mut name = ((-((units.len() as i64) + 1)) as i32).to_le_bytes().to_vec();
    for u in units {
        name.extend_from_slice(&u.to_le_bytes());
    }
    name.extend_from_slice(&0u16.to_le_bytes());
    let mut buf = header();
    buf.extend_from_slice(&name);
    buf.extend_from_slice(&pstr("IntProperty"));
    buf.extend_from_slice(&le64(4));
    buf.extend_from_slice(&77i32.to_le_bytes());
    buf.extend_from_slice(&terminator());
    let (sf, warns) = SaveFile::read(&buf).expect("decode");
    assert!(warns.is_empty());
    let names = sf.top_level_names();
    assert_eq!(names[0], GvasString::Utf16(units.to_vec()));
    assert_eq!(sf.write(), buf);
}

#[test]
fn get_steps_into_map_values() {
    let mut map_payload = le32(1);
    map_payload.extend_from_slice(&pstr("HP"));
    map_payload.extend_from_slice(&50i32.to_le_bytes());
    let mut map_prop = pstr("Stats");
    map_prop.extend_from_slice(&pstr("MapProperty"));
    map_prop.extend_from_slice(&pstr("StrProperty"));
    map_prop.extend_from_slice(&pstr("IntProperty"));
    map_prop.extend_from_slice(&le64(map_payload.len() as u64));
    map_prop.extend_from_slice(&map_payload);
    let mut buf = header();
    buf.extend_from_slice(&map_prop);
    buf.extend_from_slice(&terminator());
    let (sf, _) = SaveFile::read(&buf).expect("decode");
    let path = vec![PathSeg::Field(b"Stats".to_vec()), PathSeg::Index(0)];
    match sf.get(&path) {
        Some(PropertyValue::Scalar(PrimitiveValue::Int32(v))) => assert_eq!(*v, 50),
        other => panic!("expected the pair's value, got {:?}", other),
    }
}

#[test]
fn duplicate_names_warned() {
    let mut buf = header();
    buf.extend_from_slice(&prop("Score", "IntProperty", &1i32.to_le_bytes()));
    buf.extend_from_slice(&prop("Score", "IntProperty", &2i32.to_le_bytes()));
    buf.extend_from_slice(&terminator());
    let (sf, warns) = SaveFile::read(&buf).expect("decode");
    assert_eq!(warns.len(), 1);
    match &warns[0] {
        Warning::DuplicateName { name } => {
            assert_eq!(*name, GvasString::Utf8(b"Score".to_vec()));
        },
        other => panic!("expected a duplicate-name warning, got {:?}", other),
    }
    // Lookups reach the first occurrence; both entries still round-trip.
    match sf.get(&vec![PathSeg::Field(b"Score".to_vec())]) {
        Some(PropertyValue::Scalar(PrimitiveValue::Int32(v))) => assert_eq!(*v, 1),
        other => panic!("expected the first occurrence, got {:?}", other),
    }
    assert_eq!(sf.write(), buf);
}

#[test]
fn header_truncation_is_truncated_stream() {
    let buf = simple_file();
    // Cut inside the engine-version words, after the magic.
    let truncated = buf[..10].to_vec();
    match SaveFile::read(&truncated) {
        Err(DecodeError::TruncatedStream { .. }) => {},
        other => panic!("expected TruncatedStream, got {:?}", other),
    }
}
