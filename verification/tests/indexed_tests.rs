use asset_pack::emit::{write_obj_alt, ObjLine};
use asset_pack::indexed_mesh::{decode_map, decode_obj_mesh};
use asset_pack::mesh::{Point3, SharedTri, UvPair};
use asset_pack::DecodeError;

fn put_u32(v: &mut Vec<u8>, x: u32) {
    v.extend_from_slice(&x.to_le_bytes());
}

fn put_u16(v: &mut Vec<u8>, x: u16) {
    v.extend_from_slice(&x.to_le_bytes());
}

fn put_f32(v: &mut Vec<u8>, x: f32) {
    put_u32(v, x.to_bits());
}

fn put_name(v: &mut Vec<u8>, name: &str) {
    let mut field = name.as_bytes().to_vec();
    field.resize(100, 0);
    v.extend_from_slice(&field);
}

const MAGIC: u32 = 0x4A42_4F00;
const VERSION: u32 = 0x0100_0000;

/// The shared geometry block used by both header shapes: 3 vertices,
/// 2 triangles, 2 texture-coordinate pairs (64 bytes).
fn put_geometry(v: &mut Vec<u8>) {
    for k in 0..9 {
        put_f32(v, k as f32);
    }
    put_u16(v, 0);
    put_u16(v, 1);
    put_u16(v, 2);
    put_u16(v, 2);
    put_u16(v, 1);
    put_u16(v, 0);
    put_f32(v, 0.5);
    put_f32(v, 0.25);
    put_f32(v, 0.75);
    put_f32(v, 1.0);
}

/// Narrow-header stream: geometry at 56, `mats` chained material
/// records at 120, each selecting `sel` from the triangle buffer.
fn obj_stream(mats: u32, sel: &[u16]) -> Vec<u8> {
    let mut v = Vec::new();
    put_u32(&mut v, MAGIC);
    put_u32(&mut v, VERSION);
    put_u32(&mut v, 56); // geometry offset
    put_u32(&mut v, 3); // vertices
    put_u32(&mut v, 2); // uv pairs
    put_u32(&mut v, 2); // triangles
    for _ in 0..6 {
        put_f32(&mut v, 0.0); // unused bounding box
    }
    put_u32(&mut v, mats);
    put_u32(&mut v, 120); // material table offset
    assert_eq!(v.len(), 56);
    put_geometry(&mut v);
    assert_eq!(v.len(), 120);
    // chained records; each one's selection table follows the chain
    let table_base = 120 + 116 * mats;
    for m in 0..mats {
        put_u32(&mut v, table_base + 2 * sel.len() as u32 * m);
        put_u32(&mut v, sel.len() as u32);
        put_u32(&mut v, 0); // unused field
        put_name(&mut v, &format!("mat{}.png", m));
        put_u16(&mut v, 0);
        put_u16(&mut v, 0);
    }
    for _ in 0..mats {
        for &i in sel {
            put_u16(&mut v, i);
        }
    }
    v
}

#[test]
fn obj_mesh_selects_triangles_in_table_order() {
    let data = obj_stream(1, &[1, 0, 1]);
    let (model, err) = decode_obj_mesh(&data).unwrap();
    assert!(err.is_none());
    assert_eq!(model.vertices.len(), 3);
    assert_eq!(
        model.vertices[1],
        Point3 { x: 3.0f32.to_bits(), y: 4.0f32.to_bits(), z: 5.0f32.to_bits() }
    );
    assert_eq!(
        model.uvs,
        vec![
            UvPair { u: 0.5f32.to_bits(), v_src: 0.25f32.to_bits() },
            UvPair { u: 0.75f32.to_bits(), v_src: 1.0f32.to_bits() },
        ]
    );
    assert_eq!(model.groups.len(), 1);
    let g = &model.groups[0];
    assert_eq!(g.texture, "mat0.png");
    // buffer triangle 1 is (2,1,0), triangle 0 is (0,1,2)
    assert_eq!(
        g.tris,
        vec![
            SharedTri { a: 2, b: 1, c: 0 },
            SharedTri { a: 0, b: 1, c: 2 },
            SharedTri { a: 2, b: 1, c: 0 },
        ]
    );
}

#[test]
fn obj_mesh_walks_material_chain() {
    let data = obj_stream(2, &[0]);
    let (model, err) = decode_obj_mesh(&data).unwrap();
    assert!(err.is_none());
    assert_eq!(model.groups.len(), 2);
    assert_eq!(model.groups[0].texture, "mat0.png");
    assert_eq!(model.groups[1].texture, "mat1.png");
    assert_eq!(model.groups[1].tris, vec![SharedTri { a: 0, b: 1, c: 2 }]);
}

#[test]
fn obj_mesh_rejects_out_of_range_selection() {
    let data = obj_stream(1, &[7]);
    let (model, err) = decode_obj_mesh(&data).unwrap();
    assert!(model.groups.is_empty());
    assert_eq!(err, Some(DecodeError::BadTriangleIndex));
}

#[test]
fn obj_mesh_keeps_groups_before_failure() {
    // second material's selection table points at a bad triangle
    let mut data = obj_stream(2, &[0]);
    let second_table = data.len() - 2;
    data[second_table] = 9;
    let (model, err) = decode_obj_mesh(&data).unwrap();
    assert_eq!(model.groups.len(), 1);
    assert_eq!(err, Some(DecodeError::BadTriangleIndex));
}

#[test]
fn obj_mesh_rejects_bad_magic() {
    let mut data = obj_stream(1, &[0]);
    data[3] = 0;
    assert_eq!(decode_obj_mesh(&data).unwrap_err(), DecodeError::FormatMismatch);
}

#[test]
fn obj_mesh_rejects_truncated_geometry() {
    let data = obj_stream(1, &[0]);
    assert_eq!(decode_obj_mesh(&data[..60]).unwrap_err(), DecodeError::Truncated);
}

/// Wide-header stream: the same body behind the 120-byte header, with
/// geometry at 120 and one material record at 184.
fn map_stream() -> Vec<u8> {
    let mut v = Vec::new();
    put_u32(&mut v, MAGIC);
    put_u32(&mut v, VERSION);
    put_u32(&mut v, 120); // geometry offset
    put_u32(&mut v, 0); // unused split field
    put_u32(&mut v, 3); // vertices
    put_u32(&mut v, 2); // uv pairs
    put_u32(&mut v, 2); // triangles
    for _ in 0..6 {
        put_f32(&mut v, 0.0); // unused bounding box
    }
    put_u32(&mut v, 1); // materials
    put_u32(&mut v, 184); // material table offset
    for _ in 0..15 {
        put_u32(&mut v, 0); // never-visited placement/visibility/animation fields
    }
    assert_eq!(v.len(), 120);
    put_geometry(&mut v);
    assert_eq!(v.len(), 184);
    put_u32(&mut v, 300); // selection table offset
    put_u32(&mut v, 2);
    put_u32(&mut v, 0);
    put_name(&mut v, "ground.png");
    put_u16(&mut v, 0);
    put_u16(&mut v, 0);
    assert_eq!(v.len(), 300);
    put_u16(&mut v, 1);
    put_u16(&mut v, 1);
    v
}

#[test]
fn map_mesh_decodes_behind_wide_header() {
    let (model, err) = decode_map(&map_stream()).unwrap();
    assert!(err.is_none());
    assert_eq!(model.vertices.len(), 3);
    assert_eq!(model.groups.len(), 1);
    assert_eq!(model.groups[0].texture, "ground.png");
    assert_eq!(
        model.groups[0].tris,
        vec![SharedTri { a: 2, b: 1, c: 0 }, SharedTri { a: 2, b: 1, c: 0 }]
    );
}

#[test]
fn map_mesh_rejects_short_header() {
    let data = map_stream();
    assert_eq!(decode_map(&data[..100]).unwrap_err(), DecodeError::Truncated);
}

#[test]
fn shared_faces_reuse_one_index_per_corner() {
    let tri = vec![SharedTri { a: 4, b: 9, c: 2 }];
    let lines = write_obj_alt("m.mtl", &Vec::new(), &Vec::new(), &tri);
    assert_eq!(lines.len(), 3);
    assert_eq!(lines[2], ObjLine::Face(3, 3, 10, 10, 5, 5));
}

#[test]
fn emitted_lines_follow_layout_order() {
    let vtx = vec![Point3 { x: 1, y: 2, z: 3 }];
    let uv = vec![UvPair { u: 4, v_src: 5 }];
    let tri = vec![SharedTri { a: 0, b: 1, c: 2 }];
    let lines = write_obj_alt("x.mtl", &vtx, &uv, &tri);
    assert_eq!(lines.len(), 5);
    assert_eq!(lines[0], ObjLine::MtlLib("x.mtl".to_string()));
    assert_eq!(lines[1], ObjLine::UseMtl);
    assert_eq!(lines[2], ObjLine::Vertex(Point3 { x: 1, y: 2, z: 3 }));
    assert_eq!(lines[3], ObjLine::Uv(UvPair { u: 4, v_src: 5 }));
    assert_eq!(lines[4], ObjLine::Face(3, 3, 2, 2, 1, 1));
}
