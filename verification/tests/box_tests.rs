use asset_pack::box_mesh::decode_box;
use asset_pack::emit::{write_mtl, write_obj, ObjLine};
use asset_pack::mesh::{Point3, Tri, UvPair};
use asset_pack::reader::{read_padded_string, read_string, ByteReader};
use asset_pack::DecodeError;

fn push_u32(v: &mut Vec<u8>, x: u32) {
    v.extend_from_slice(&x.to_le_bytes());
}

fn push_i32(v: &mut Vec<u8>, x: i32) {
    v.extend_from_slice(&x.to_le_bytes());
}

fn push_f32(v: &mut Vec<u8>, x: f32) {
    push_u32(v, x.to_bits());
}

fn push_name(v: &mut Vec<u8>, name: &str) {
    let mut field = name.as_bytes().to_vec();
    field.resize(100, 0);
    v.extend_from_slice(&field);
}

const BOX_MAGIC: u32 = 0x424F_5800;
const VERSION: u32 = 0x0100_0000;

/// A stream with one lump: 1 uv pair, 1 triangle, 2 vertices, and
/// `frames` position snapshots whose frame 0 is (1,2,3),(4,5,6).
fn one_lump_stream(frames: u32) -> Vec<u8> {
    let mut v = Vec::new();
    push_u32(&mut v, BOX_MAGIC);
    push_u32(&mut v, VERSION);
    push_u32(&mut v, 1); // lump count
    push_u32(&mut v, 0);
    push_u32(&mut v, frames);
    push_u32(&mut v, 0);
    // lump record at 24, data right after it at 140
    push_u32(&mut v, 140); // data offset
    push_u32(&mut v, 2); // vertices
    push_u32(&mut v, 1); // triangles
    push_u32(&mut v, 1); // uv pairs
    push_name(&mut v, "tex.png");
    // data: uvs, triangles, then one snapshot per frame
    push_f32(&mut v, 0.5);
    push_f32(&mut v, 0.25);
    for k in 0..6 {
        push_i32(&mut v, k);
    }
    for f in 0..frames {
        for k in 0..6 {
            push_f32(&mut v, (100 * f + k) as f32);
        }
    }
    v
}

#[test]
fn box_takes_positions_from_frame_zero() {
    // three frames are decoded past, but only frame 0 is materialized
    let data = one_lump_stream(3);
    let (lumps, err) = decode_box(&data);
    assert!(err.is_none());
    assert_eq!(lumps.len(), 1);
    let lump = &lumps[0];
    assert_eq!(lump.texture, "tex.png");
    assert_eq!(lump.vertices.len(), 2);
    assert_eq!(
        lump.vertices[0],
        Point3 { x: 0.0f32.to_bits(), y: 1.0f32.to_bits(), z: 2.0f32.to_bits() }
    );
    assert_eq!(
        lump.vertices[1],
        Point3 { x: 3.0f32.to_bits(), y: 4.0f32.to_bits(), z: 5.0f32.to_bits() }
    );
    assert_eq!(lump.uvs, vec![UvPair { u: 0.5f32.to_bits(), v_src: 0.25f32.to_bits() }]);
    assert_eq!(lump.tris, vec![Tri { a: 0, ta: 1, b: 2, tb: 3, c: 4, tc: 5 }]);
}

#[test]
fn box_chains_lump_records_after_frame_data() {
    // two lumps: the second record starts where lump 0's frames end
    let mut v = Vec::new();
    push_u32(&mut v, BOX_MAGIC);
    push_u32(&mut v, VERSION);
    push_u32(&mut v, 2); // lump count
    push_u32(&mut v, 0);
    push_u32(&mut v, 1); // one frame
    push_u32(&mut v, 0);
    // lump 0 record at 24; its data directly after at 140
    push_u32(&mut v, 140);
    push_u32(&mut v, 1); // 1 vertex
    push_u32(&mut v, 0); // no triangles
    push_u32(&mut v, 0); // no uvs
    push_name(&mut v, "first.png");
    // lump 0 data: one position
    push_f32(&mut v, 7.0);
    push_f32(&mut v, 8.0);
    push_f32(&mut v, 9.0);
    // lump 1 record at 152; its data at 268
    push_u32(&mut v, 268);
    push_u32(&mut v, 1);
    push_u32(&mut v, 0);
    push_u32(&mut v, 0);
    push_name(&mut v, "second.png");
    push_f32(&mut v, 1.5);
    push_f32(&mut v, 2.5);
    push_f32(&mut v, 3.5);
    let (lumps, err) = decode_box(&v);
    assert!(err.is_none());
    assert_eq!(lumps.len(), 2);
    assert_eq!(lumps[0].texture, "first.png");
    assert_eq!(lumps[1].texture, "second.png");
    assert_eq!(lumps[1].vertices[0].x, 1.5f32.to_bits());
}

#[test]
fn box_rejects_bad_magic() {
    let mut data = one_lump_stream(1);
    data[3] = 0;
    let (lumps, err) = decode_box(&data);
    assert!(lumps.is_empty());
    assert_eq!(err, Some(DecodeError::FormatMismatch));
}

#[test]
fn box_rejects_bad_version() {
    let mut data = one_lump_stream(1);
    data[4] = 2;
    let (lumps, err) = decode_box(&data);
    assert!(lumps.is_empty());
    assert_eq!(err, Some(DecodeError::FormatMismatch));
}

#[test]
fn box_without_frames_has_no_positions() {
    let data = one_lump_stream(0);
    let (lumps, err) = decode_box(&data);
    assert!(lumps.is_empty());
    assert_eq!(err, Some(DecodeError::MissingFrame));
}

#[test]
fn box_truncated_stream() {
    let data = one_lump_stream(3);
    let (lumps, err) = decode_box(&data[..data.len() - 4]);
    assert!(lumps.is_empty());
    assert_eq!(err, Some(DecodeError::Truncated));
}

#[test]
fn box_invalid_texture_text() {
    let mut data = one_lump_stream(1);
    data[41] = 0xFF; // inside the 100-byte texture-name field
    let (lumps, err) = decode_box(&data);
    assert!(lumps.is_empty());
    assert_eq!(err, Some(DecodeError::InvalidText));
}

#[test]
fn box_negative_lump_count_is_empty() {
    let mut data = one_lump_stream(1);
    // lump count -1: drives no iterations
    data[8] = 0xFF;
    data[9] = 0xFF;
    data[10] = 0xFF;
    data[11] = 0xFF;
    let (lumps, err) = decode_box(&data);
    assert!(lumps.is_empty());
    assert!(err.is_none());
}

#[test]
fn padded_string_drops_trailing_nuls() {
    let mut field = b"tex.png".to_vec();
    field.resize(100, 0);
    let mut rd = ByteReader::new(&field);
    let s = read_padded_string(&mut rd, 100).unwrap();
    assert_eq!(s, "tex.png");
    assert_eq!(s.len(), 7);
}

#[test]
fn padded_string_keeps_interior_nuls() {
    let mut field = vec![b'a', 0, b'b'];
    field.resize(10, 0);
    let mut rd = ByteReader::new(&field);
    let s = read_padded_string(&mut rd, 10).unwrap();
    assert_eq!(s, "a\0b");
}

#[test]
fn raw_string_read_keeps_nuls() {
    let field = [b'h', b'i', 0, 0];
    let mut rd = ByteReader::new(&field);
    let s = read_string(&mut rd, 4).unwrap();
    assert_eq!(s, "hi\0\0");
}

#[test]
fn string_read_rejects_invalid_utf8() {
    let field = [0xC3u8, 0x00];
    let mut rd = ByteReader::new(&field);
    assert_eq!(read_string(&mut rd, 2), Err(DecodeError::InvalidText));
}

#[test]
fn faces_list_corners_reversed() {
    // input corners (a, b, c) come out as (c, b, a), 1-based
    let vtx = Vec::new();
    let uv = Vec::new();
    let tri = vec![Tri { a: 0, ta: 1, b: 2, tb: 3, c: 4, tc: 5 }];
    let lines = write_obj("m.mtl", &vtx, &uv, &tri);
    assert_eq!(lines.len(), 3);
    assert_eq!(lines[0], ObjLine::MtlLib("m.mtl".to_string()));
    assert_eq!(lines[1], ObjLine::UseMtl);
    assert_eq!(lines[2], ObjLine::Face(5, 6, 3, 4, 1, 2));
}

#[test]
fn faces_allow_negative_indices() {
    let tri = vec![Tri { a: -2, ta: -3, b: 0, tb: 0, c: i32::MAX, tc: i32::MIN }];
    let lines = write_obj("m.mtl", &Vec::new(), &Vec::new(), &tri);
    assert_eq!(
        lines[2],
        ObjLine::Face(i32::MAX as i64 + 1, i32::MIN as i64 + 1, 1, 1, -1, -2)
    );
}

#[test]
fn material_text_is_fixed_template() {
    let s = write_mtl("car.png");
    assert_eq!(
        s,
        "newmtl default\nKa 1.0 1.0 1.0\nKd 1.0 1.0 1.0\nKs 0.0 0.0 0.0\nTr 0.0\nillum 1\nNs 0.0\nmap_Kd car.png"
    );
}
