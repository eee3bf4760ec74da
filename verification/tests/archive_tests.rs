use asset_pack::archive::{pack, rsrc_type_mapper, unpack, InputFile};
use asset_pack::{ArchiveError, PackError};

fn input(path: &str, payload: &[u8]) -> InputFile {
    InputFile { path: path.to_string(), payload: payload.to_vec() }
}

fn deflate(bytes: &[u8]) -> Vec<u8> {
    let mut enc = flate2::write::DeflateEncoder::new(Vec::new(), flate2::Compression::best());
    std::io::Write::write_all(&mut enc, bytes).unwrap();
    enc.finish().unwrap()
}

#[test]
fn roundtrip_keeps_names_types_payloads() {
    let files = vec![
        input("models/car.box", b"box-bytes"),
        input("textures/car.png", b"png-bytes"),
        input("path.dat", b"route"),
    ];
    let packed = pack(files).unwrap();
    let (entries, err) = unpack(&packed);
    assert!(err.is_none());
    assert_eq!(entries.len(), 3);
    // descending resource-type order: texture (10), path data (4), mesh (0)
    assert_eq!(entries[0].path, "textures/car.png");
    assert_eq!(entries[0].rtype, 10);
    assert_eq!(entries[0].payload, b"png-bytes");
    assert_eq!(entries[1].path, "path.dat");
    assert_eq!(entries[1].rtype, 4);
    assert_eq!(entries[1].payload, b"route");
    assert_eq!(entries[2].path, "models/car.box");
    assert_eq!(entries[2].rtype, 0);
    assert_eq!(entries[2].payload, b"box-bytes");
}

#[test]
fn toc_lists_png_before_box() {
    // regardless of enumeration order, the texture entry comes first
    let files = vec![input("thing.box", b"b"), input("thing.png", b"p")];
    let packed = pack(files).unwrap();
    let (entries, err) = unpack(&packed);
    assert!(err.is_none());
    assert_eq!(entries.len(), 2);
    assert_eq!(entries[0].path, "thing.png");
    assert_eq!(entries[0].rtype, 10);
    assert_eq!(entries[1].path, "thing.box");
    assert_eq!(entries[1].rtype, 0);
}

#[test]
fn ties_keep_encounter_order() {
    let files = vec![
        input("b.png", b"1"),
        input("a.png", b"2"),
        input("z.box", b"3"),
        input("a.box", b"4"),
    ];
    let packed = pack(files).unwrap();
    let (entries, err) = unpack(&packed);
    assert!(err.is_none());
    let names: Vec<&str> = entries.iter().map(|e| e.path.as_str()).collect();
    assert_eq!(names, vec!["b.png", "a.png", "z.box", "a.box"]);
}

#[test]
fn packed_stream_is_compressed() {
    let zeros = vec![0u8; 4096];
    let packed = pack(vec![input("a.png", &zeros)]).unwrap();
    assert!(packed.len() < zeros.len());
}

#[test]
fn pack_without_mappable_files_fails() {
    let r = pack(vec![input("readme.txt", b"hi"), input("notes", b"x")]);
    assert_eq!(r.unwrap_err(), PackError::NoFiles);
}

#[test]
fn pack_rejects_overlong_name() {
    let long = format!("{}.png", "x".repeat(300));
    let r = pack(vec![input(&long, b"p")]);
    assert_eq!(r.unwrap_err(), PackError::NameTooLong);
}

#[test]
fn unpack_rejects_garbage() {
    let (entries, err) = unpack(&[0xFF; 16]);
    assert!(entries.is_empty());
    assert_eq!(err, Some(ArchiveError::BadDeflate));
}

#[test]
fn unpack_truncated_table() {
    // a valid DEFLATE stream whose content claims five entries but ends
    let packed = deflate(&[5, 0, 0, 0]);
    let (entries, err) = unpack(&packed);
    assert!(entries.is_empty());
    assert_eq!(err, Some(ArchiveError::Truncated));
}

#[test]
fn unpack_invalid_name_bytes() {
    // one entry whose single-byte name is not UTF-8
    let packed = deflate(&[1, 0, 0, 0, 1, 0xFF, 0]);
    let (entries, err) = unpack(&packed);
    assert!(entries.is_empty());
    assert_eq!(err, Some(ArchiveError::InvalidText));
}

#[test]
fn unpack_keeps_entries_before_failure() {
    // two table records, but only the first payload is present
    let mut plain = vec![2, 0, 0, 0];
    plain.extend_from_slice(&[1, b'a', 10]);
    plain.extend_from_slice(&[1, b'b', 0]);
    plain.extend_from_slice(&[1, 0, 0, 0, b'X']);
    let packed = deflate(&plain);
    let (entries, err) = unpack(&packed);
    assert_eq!(entries.len(), 1);
    assert_eq!(entries[0].path, "a");
    assert_eq!(entries[0].rtype, 10);
    assert_eq!(entries[0].payload, b"X");
    assert_eq!(err, Some(ArchiveError::Truncated));
}

#[test]
fn mapper_reserved_names() {
    assert_eq!(rsrc_type_mapper("path.dat"), Some(4));
    assert_eq!(rsrc_type_mapper("animate.dat"), Some(5));
    assert_eq!(rsrc_type_mapper("carproperty.dat"), Some(6));
    assert_eq!(rsrc_type_mapper("levels/path.dat"), Some(4));
}

#[test]
fn mapper_extension_table() {
    assert_eq!(rsrc_type_mapper("a.box"), Some(0));
    assert_eq!(rsrc_type_mapper("a.obj"), Some(1));
    assert_eq!(rsrc_type_mapper("a.map"), Some(2));
    assert_eq!(rsrc_type_mapper("a.hmp"), Some(3));
    assert_eq!(rsrc_type_mapper("a.png"), Some(10));
    assert_eq!(rsrc_type_mapper("a.jpg"), Some(10));
    assert_eq!(rsrc_type_mapper("a.txt"), None);
}

#[test]
fn mapper_folds_extension_case() {
    assert_eq!(rsrc_type_mapper("CAR.BOX"), Some(0));
    assert_eq!(rsrc_type_mapper("tex.PnG"), Some(10));
    assert_eq!(rsrc_type_mapper("dir/TEX.JPG"), Some(10));
}

#[test]
fn mapper_needs_an_extension() {
    assert_eq!(rsrc_type_mapper("noext"), None);
    assert_eq!(rsrc_type_mapper(".box"), None);
    assert_eq!(rsrc_type_mapper("dir/noext"), None);
}

#[test]
fn roundtrip_keeps_multibyte_names_and_empty_payloads() {
    let files = vec![input("tëx — blå.png", b""), input("deep/a/b/c.map", b"m")];
    let packed = pack(files).unwrap();
    let (entries, err) = unpack(&packed);
    assert!(err.is_none());
    assert_eq!(entries.len(), 2);
    assert_eq!(entries[0].path, "tëx — blå.png");
    assert_eq!(entries[0].rtype, 10);
    assert!(entries[0].payload.is_empty());
    assert_eq!(entries[1].path, "deep/a/b/c.map");
    assert_eq!(entries[1].rtype, 2);
}

#[test]
fn unpack_negative_entry_count_is_empty() {
    let packed = deflate(&[0xFF, 0xFF, 0xFF, 0xFF]);
    let (entries, err) = unpack(&packed);
    assert!(entries.is_empty());
    assert!(err.is_none());
}
