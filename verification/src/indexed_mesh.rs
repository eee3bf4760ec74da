//! Decoder for the two near-identical "indirected" mesh formats.
//!
//! Both share one magic number and one body shape: a header carrying a
//! geometry offset, the vertex / texture-coordinate / triangle counts
//! and a material table offset; a geometry block of shared buffers
//! (positions, then triangles of three 16-bit vertex indices, then
//! texture-coordinate pairs); and a forward-linked chain of material
//! records.  Each record is read at a rolling cursor and carries an
//! offset to its own triangle-selection table — record traversal and
//! selection-table lookup advance two independent cursors.  The larger
//! of the two formats carries extra world-placement, visibility and
//! texture-animation sections whose byte ranges are never visited;
//! only its header is wider.
//!
//! One material record selects a subset of the shared triangle buffer:
//! its table is a list of 16-bit indices into that buffer, and the
//! group's triangles are the indexed entries in table order.

use vstd::prelude::*;

use crate::geom::{count_of, point_at, read_frame, read_uvs, uv_at};
use crate::mesh::{GroupView, IndexedModel, MaterialGroup, ModelView, SharedTri};
use crate::reader::{
    le16_at, le32_at, loop_count, seek_pos, text_at, trim_nuls, read_padded_string, ByteReader,
};
use crate::{DecodeError, FORMAT_VERSION};

verus! {

/// Magic number shared by the two indirected mesh formats.
pub const INDEXED_MAGIC: u32 = 0x4A42_4F00;

/// The shared-index triangle stored at `i`: three 16-bit vertex
/// indices.
pub open spec fn shared_tri_at(d: Seq<u8>, i: int) -> SharedTri {
    SharedTri { a: le16_at(d, i), b: le16_at(d, i + 2), c: le16_at(d, i + 4) }
}

/// Reads a selection table of `n` 16-bit indices at `p` and resolves
/// each against the shared triangle buffer, in table order.
pub open spec fn spec_read_polys(d: Seq<u8>, tris: Seq<SharedTri>, p: int, n: int) -> Result<
    Seq<SharedTri>,
    DecodeError,
>
    decreases n,
{
    if n <= 0 {
        Ok(seq![])
    } else if p + 2 > d.len() {
        Err(DecodeError::Truncated)
    } else {
        let idx = le16_at(d, p);
        if idx >= tris.len() {
            Err(DecodeError::BadTriangleIndex)
        } else {
            match spec_read_polys(d, tris, p + 2, n - 1) {
                Err(e) => Err(e),
                Ok(rest) => Ok(seq![tris[idx as int]] + rest),
            }
        }
    }
}

/// Decodes the material record at `cur`.  On success the result
/// carries the group and the cursor position right after the record,
/// where the next record starts.
pub open spec fn spec_decode_group(d: Seq<u8>, tris: Seq<SharedTri>, cur: int) -> Result<
    (GroupView, int),
    DecodeError,
> {
    if cur + 112 > d.len() {
        Err(DecodeError::Truncated)
    } else {
        let poly_p = seek_pos(le32_at(d, cur), d.len() as int);
        let poly_n = loop_count(le32_at(d, cur + 4));
        match text_at(d, cur + 12, 100) {
            None => Err(DecodeError::InvalidText),
            Some(t) => {
                if cur + 116 > d.len() {
                    Err(DecodeError::Truncated)
                } else {
                    match spec_read_polys(d, tris, poly_p, poly_n) {
                        Err(e) => Err(e),
                        Ok(sel) => Ok(
                            (GroupView { texture: trim_nuls(t), tris: sel }, cur + 116),
                        ),
                    }
                }
            },
        }
    }
}

/// Decodes `remaining` chained material records starting at `cur`:
/// the groups decoded before the first failure, and the failure if
/// there was one.
pub open spec fn spec_decode_groups(
    d: Seq<u8>,
    tris: Seq<SharedTri>,
    cur: int,
    remaining: int,
) -> (Seq<GroupView>, Option<DecodeError>)
    decreases remaining,
{
    if remaining <= 0 {
        (seq![], None)
    } else {
        match spec_decode_group(d, tris, cur) {
            Err(e) => (seq![], Some(e)),
            Ok((g, next)) => {
                let (rest, err) = spec_decode_groups(d, tris, next, remaining - 1);
                (seq![g] + rest, err)
            },
        }
    }
}

/// Decodes the shared body of both formats from the raw header
/// fields: the geometry block, then the material chain.  A geometry
/// failure loses the whole stream; a chain failure keeps the groups
/// decoded before it.
pub open spec fn spec_decode_body(
    d: Seq<u8>,
    geom_raw: u32,
    vtx_raw: u32,
    uv_raw: u32,
    tri_raw: u32,
    mat_raw: u32,
    mat_off_raw: u32,
) -> Result<(ModelView, Option<DecodeError>), DecodeError> {
    let g = seek_pos(geom_raw, d.len() as int);
    let vtx_n = loop_count(vtx_raw);
    let uv_n = loop_count(uv_raw);
    let tri_n = loop_count(tri_raw);
    if g + 12 * vtx_n > d.len() {
        Err(DecodeError::Truncated)
    } else if g + 12 * vtx_n + 6 * tri_n > d.len() {
        Err(DecodeError::Truncated)
    } else if g + 12 * vtx_n + 6 * tri_n + 8 * uv_n > d.len() {
        Err(DecodeError::Truncated)
    } else {
        let tris = Seq::new(tri_n as nat, |k: int| shared_tri_at(d, g + 12 * vtx_n + 6 * k));
        let (groups, err) = spec_decode_groups(
            d,
            tris,
            seek_pos(mat_off_raw, d.len() as int),
            loop_count(mat_raw),
        );
        Ok(
            (
                ModelView {
                    vertices: Seq::new(vtx_n as nat, |k: int| point_at(d, g + 12 * k)),
                    uvs: Seq::new(
                        uv_n as nat,
                        |k: int| uv_at(d, g + 12 * vtx_n + 6 * tri_n + 8 * k),
                    ),
                    groups,
                },
                err,
            ),
        )
    }
}

/// Decode of the narrow-header format: magic, version, geometry
/// offset, the three counts, an unused bounding box, and the material
/// table fields.
pub open spec fn spec_decode_obj_mesh(d: Seq<u8>) -> Result<
    (ModelView, Option<DecodeError>),
    DecodeError,
> {
    if d.len() < 8 {
        Err(DecodeError::Truncated)
    } else if le32_at(d, 0) != INDEXED_MAGIC || le32_at(d, 4) != FORMAT_VERSION {
        Err(DecodeError::FormatMismatch)
    } else if d.len() < 56 {
        Err(DecodeError::Truncated)
    } else {
        spec_decode_body(
            d,
            le32_at(d, 8),
            le32_at(d, 12),
            le32_at(d, 16),
            le32_at(d, 20),
            le32_at(d, 48),
            le32_at(d, 52),
        )
    }
}

/// Decode of the wide-header format: the same body behind a header
/// that also carries never-visited world-placement, visibility and
/// animation fields.
pub open spec fn spec_decode_map(d: Seq<u8>) -> Result<
    (ModelView, Option<DecodeError>),
    DecodeError,
> {
    if d.len() < 8 {
        Err(DecodeError::Truncated)
    } else if le32_at(d, 0) != INDEXED_MAGIC || le32_at(d, 4) != FORMAT_VERSION {
        Err(DecodeError::FormatMismatch)
    } else if d.len() < 120 {
        Err(DecodeError::Truncated)
    } else {
        spec_decode_body(
            d,
            le32_at(d, 8),
            le32_at(d, 16),
            le32_at(d, 20),
            le32_at(d, 24),
            le32_at(d, 52),
            le32_at(d, 56),
        )
    }
}

/// Reads `n` shared-index triangles at the cursor.
#[verifier::loop_isolation(false)]
fn read_shared_tris(rd: &mut ByteReader, n: usize) -> (r: Result<Vec<SharedTri>, DecodeError>)
    requires
        old(rd).wf(),
    ensures
        final(rd).data@ == old(rd).data@,
        final(rd).wf(),
        old(rd).pos + 6 * n <= old(rd).data@.len() ==> r is Ok && r.unwrap()@ == Seq::new(
            n as nat,
            |k: int| shared_tri_at(old(rd).data@, old(rd).pos + 6 * k),
        ) && final(rd).pos == old(rd).pos + 6 * n,
        old(rd).pos + 6 * n > old(rd).data@.len() ==> r == Err::<Vec<SharedTri>, DecodeError>(
            DecodeError::Truncated,
        ),
{
    let ghost d = rd.data@;
    let ghost base = rd.pos as int;
    let mut out: Vec<SharedTri> = Vec::new();
    let mut k: usize = 0;
    while k < n
        invariant
            rd.wf(),
            rd.data@ == d,
            k <= n,
            rd.pos == base + 6 * k,
            base + 6 * k <= d.len(),
            forall|j: int| 0 <= j < k ==> out@[j] == shared_tri_at(d, base + 6 * j),
            out@.len() == k,
        decreases n - k,
    {
        let a = match rd.read_u16() {
            Ok(v) => v,
            Err(e) => {
                return Err(e);
            },
        };
        let b = match rd.read_u16() {
            Ok(v) => v,
            Err(e) => {
                return Err(e);
            },
        };
        let c = match rd.read_u16() {
            Ok(v) => v,
            Err(e) => {
                return Err(e);
            },
        };
        out.push(SharedTri { a, b, c });
        k = k + 1;
    }
    proof {
        assert(out@ =~= Seq::new(n as nat, |k: int| shared_tri_at(d, base + 6 * k)));
    }
    Ok(out)
}

/// Reads a selection table at the cursor, resolving each index
/// against the shared triangle buffer.
#[verifier::loop_isolation(false)]
fn read_polys(rd: &mut ByteReader, tris: &Vec<SharedTri>, n: usize) -> (r: Result<
    Vec<SharedTri>,
    DecodeError,
>)
    requires
        old(rd).wf(),
    ensures
        final(rd).data@ == old(rd).data@,
        final(rd).wf(),
        match spec_read_polys(old(rd).data@, tris@, old(rd).pos as int, n as int) {
            Ok(sel) => r is Ok && r.unwrap()@ == sel && final(rd).pos == old(rd).pos + 2 * n,
            Err(e) => r == Err::<Vec<SharedTri>, DecodeError>(e),
        },
{
    let ghost d = rd.data@;
    let ghost base = rd.pos as int;
    let mut out: Vec<SharedTri> = Vec::new();
    let mut k: usize = 0;
    proof {
        if spec_read_polys(d, tris@, base, n as int) is Ok {
            assert(Seq::<SharedTri>::empty() + spec_read_polys(d, tris@, base, n as int).unwrap()
                =~= spec_read_polys(d, tris@, base, n as int).unwrap());
        }
    }
    while k < n
        invariant
            rd.wf(),
            rd.data@ == d,
            k <= n,
            rd.pos == base + 2 * k,
            out@.len() == k,
            match spec_read_polys(d, tris@, base + 2 * k, n - k) {
                Ok(rest) => spec_read_polys(d, tris@, base, n as int) == Ok::<
                    Seq<SharedTri>,
                    DecodeError,
                >(out@ + rest),
                Err(e) => spec_read_polys(d, tris@, base, n as int) == Err::<
                    Seq<SharedTri>,
                    DecodeError,
                >(e),
            },
        decreases n - k,
    {
        let idx = match rd.read_u16() {
            Ok(v) => v,
            Err(e) => {
                return Err(e);
            },
        };
        if idx as usize >= tris.len() {
            return Err(DecodeError::BadTriangleIndex);
        }
        let ghost out0 = out@;
        out.push(tris[idx as usize]);
        k = k + 1;
        proof {
            if spec_read_polys(d, tris@, base + 2 * k, n - k) is Ok {
                let rest = spec_read_polys(d, tris@, base + 2 * k, n - k).unwrap();
                assert(out@ + rest =~= out0 + (seq![tris@[idx as int]] + rest));
            }
        }
    }
    proof {
        assert(out@ + Seq::<SharedTri>::empty() =~= out@);
    }
    Ok(out)
}

/// Decodes the material record at the cursor.  On success the second
/// component is the position right after the record, where the next
/// record of the chain starts.
#[verifier::loop_isolation(false)]
fn decode_group(rd: &mut ByteReader, tris: &Vec<SharedTri>) -> (r: Result<
    (MaterialGroup, usize),
    DecodeError,
>)
    requires
        old(rd).wf(),
    ensures
        final(rd).data@ == old(rd).data@,
        final(rd).wf(),
        match spec_decode_group(old(rd).data@, tris@, old(rd).pos as int) {
            Ok((g, next)) => r is Ok && r.unwrap().0@ == g && r.unwrap().1 as int == next,
            Err(e) => r == Err::<(MaterialGroup, usize), DecodeError>(e),
        },
{
    let poly_off = match rd.read_u32() {
        Ok(v) => v,
        Err(e) => {
            return Err(e);
        },
    };
    let poly_raw = match rd.read_u32() {
        Ok(v) => v,
        Err(e) => {
            return Err(e);
        },
    };
    match rd.read_u32() {
        Ok(_) => {},
        Err(e) => {
            return Err(e);
        },
    };
    let texture = match read_padded_string(rd, 100) {
        Ok(s) => s,
        Err(e) => {
            return Err(e);
        },
    };
    match rd.read_u16() {
        Ok(_) => {},
        Err(e) => {
            return Err(e);
        },
    };
    match rd.read_u16() {
        Ok(_) => {},
        Err(e) => {
            return Err(e);
        },
    };
    let next = rd.position();
    rd.seek_offset32(poly_off);
    let sel = match read_polys(rd, tris, count_of(poly_raw)) {
        Ok(v) => v,
        Err(e) => {
            return Err(e);
        },
    };
    Ok((MaterialGroup { texture, tris: sel }, next))
}

/// Decodes the shared body given the raw header fields: geometry
/// block, then the chained material records.  On a geometry failure
/// the whole stream is lost; on a chain failure the groups decoded
/// before it are kept beside the failure.
#[verifier::loop_isolation(false)]
#[verifier::rlimit(30)]
fn decode_indexed_body(
    rd: &mut ByteReader,
    geom_raw: u32,
    vtx_raw: u32,
    uv_raw: u32,
    tri_raw: u32,
    mat_raw: u32,
    mat_off_raw: u32,
) -> (r: Result<(IndexedModel, Option<DecodeError>), DecodeError>)
    requires
        old(rd).wf(),
    ensures
        match spec_decode_body(old(rd).data@, geom_raw, vtx_raw, uv_raw, tri_raw, mat_raw, mat_off_raw) {
            Ok((mv, derr)) => r is Ok && r.unwrap().0@ == mv && r.unwrap().1 == derr,
            Err(e) => r == Err::<(IndexedModel, Option<DecodeError>), DecodeError>(e),
        },
{
    let ghost d = rd.data@;
    rd.seek_offset32(geom_raw);
    let vtx_n = count_of(vtx_raw);
    let uv_n = count_of(uv_raw);
    let tri_n = count_of(tri_raw);
    let mat_n = count_of(mat_raw);
    let vertices = match read_frame(rd, vtx_n) {
        Ok(v) => v,
        Err(e) => {
            return Err(e);
        },
    };
    let tris_buf = match read_shared_tris(rd, tri_n) {
        Ok(v) => v,
        Err(e) => {
            return Err(e);
        },
    };
    let uvs = match read_uvs(rd, uv_n) {
        Ok(v) => v,
        Err(e) => {
            return Err(e);
        },
    };
    let ghost spec_tris = Seq::new(
        tri_n as nat,
        |k: int| shared_tri_at(d, seek_pos(geom_raw, d.len() as int) + 12 * vtx_n + 6 * k),
    );
    let ghost chain_start = seek_pos(mat_off_raw, d.len() as int);
    rd.seek_offset32(mat_off_raw);
    let mut cur: usize = rd.position();
    let mut groups: Vec<MaterialGroup> = Vec::new();
    let mut i: usize = 0;
    proof {
        assert(tris_buf@ =~= spec_tris);
        let (rest, err) = spec_decode_groups(d, spec_tris, chain_start, mat_n as int);
        assert(Seq::<GroupView>::empty() + rest =~= rest);
        assert(groups@.map_values(|g: MaterialGroup| g@) =~= Seq::<GroupView>::empty());
    }
    while i < mat_n
        invariant
            rd.wf(),
            rd.data@ == d,
            i <= mat_n,
            cur <= d.len(),
            ({
                let (rest, err) = spec_decode_groups(d, spec_tris, cur as int, mat_n - i);
                spec_decode_groups(d, spec_tris, chain_start, mat_n as int) == (
                    groups@.map_values(|g: MaterialGroup| g@) + rest,
                    err,
                )
            }),
        decreases mat_n - i,
    {
        rd.seek_to(cur);
        let ghost pos0 = rd.pos as int;
        match decode_group(rd, &tris_buf) {
            Ok((g, next)) => {
                groups.push(g);
                cur = next;
                i = i + 1;
                proof {
                    let (sg, snext) = spec_decode_group(d, spec_tris, pos0).unwrap();
                    let (rest, err) = spec_decode_groups(d, spec_tris, snext, mat_n - i);
                    assert(groups@.map_values(|g: MaterialGroup| g@) + rest =~= groups@
                        .drop_last()
                        .map_values(|g: MaterialGroup| g@) + (seq![sg] + rest));
                }
            },
            Err(e) => {
                proof {
                    assert(groups@.map_values(|g: MaterialGroup| g@)
                        + Seq::<GroupView>::empty() =~= groups@.map_values(
                        |g: MaterialGroup| g@,
                    ));
                }
                return Ok((IndexedModel { vertices, uvs, groups }, Some(e)));
            },
        }
    }
    proof {
        assert(groups@.map_values(|g: MaterialGroup| g@) + Seq::<GroupView>::empty() =~= groups@
            .map_values(|g: MaterialGroup| g@));
    }
    Ok((IndexedModel { vertices, uvs, groups }, None))
}

/// Decodes a whole narrow-header stream.  The outer failure is one
/// that loses the whole stream; a failure inside the material chain
/// keeps the groups decoded before it, beside the failure.
#[verifier::loop_isolation(false)]
pub fn decode_obj_mesh(data: &[u8]) -> (r: Result<
    (IndexedModel, Option<DecodeError>),
    DecodeError,
>)
    ensures
        match spec_decode_obj_mesh(data@) {
            Ok((mv, derr)) => r is Ok && r.unwrap().0@ == mv && r.unwrap().1 == derr,
            Err(e) => r == Err::<(IndexedModel, Option<DecodeError>), DecodeError>(e),
        },
{
    let mut rd = ByteReader::new(data);
    let magic = match rd.read_u32() {
        Ok(v) => v,
        Err(e) => {
            return Err(e);
        },
    };
    let version = match rd.read_u32() {
        Ok(v) => v,
        Err(e) => {
            return Err(e);
        },
    };
    if magic != INDEXED_MAGIC || version != FORMAT_VERSION {
        return Err(DecodeError::FormatMismatch);
    }
    let geom_raw = match rd.read_u32() {
        Ok(v) => v,
        Err(e) => {
            return Err(e);
        },
    };
    let vtx_raw = match rd.read_u32() {
        Ok(v) => v,
        Err(e) => {
            return Err(e);
        },
    };
    let uv_raw = match rd.read_u32() {
        Ok(v) => v,
        Err(e) => {
            return Err(e);
        },
    };
    let tri_raw = match rd.read_u32() {
        Ok(v) => v,
        Err(e) => {
            return Err(e);
        },
    };
    let mut skip: usize = 0;
    while skip < 6
        invariant
            rd.wf(),
            rd.data@ == data@,
            skip <= 6,
            rd.pos == 24 + 4 * skip,
            24 + 4 * skip <= data@.len(),
        decreases 6 - skip,
    {
        match rd.read_u32() {
            Ok(_) => {},
            Err(e) => {
                return Err(e);
            },
        };
        skip = skip + 1;
    }
    let mat_raw = match rd.read_u32() {
        Ok(v) => v,
        Err(e) => {
            return Err(e);
        },
    };
    let mat_off_raw = match rd.read_u32() {
        Ok(v) => v,
        Err(e) => {
            return Err(e);
        },
    };
    decode_indexed_body(&mut rd, geom_raw, vtx_raw, uv_raw, tri_raw, mat_raw, mat_off_raw)
}

/// Decodes a whole wide-header stream: as [`decode_obj_mesh`], with
/// the extra never-used header fields read past.
#[verifier::loop_isolation(false)]
pub fn decode_map(data: &[u8]) -> (r: Result<(IndexedModel, Option<DecodeError>), DecodeError>)
    ensures
        match spec_decode_map(data@) {
            Ok((mv, derr)) => r is Ok && r.unwrap().0@ == mv && r.unwrap().1 == derr,
            Err(e) => r == Err::<(IndexedModel, Option<DecodeError>), DecodeError>(e),
        },
{
    let mut rd = ByteReader::new(data);
    let magic = match rd.read_u32() {
        Ok(v) => v,
        Err(e) => {
            return Err(e);
        },
    };
    let version = match rd.read_u32() {
        Ok(v) => v,
        Err(e) => {
            return Err(e);
        },
    };
    if magic != INDEXED_MAGIC || version != FORMAT_VERSION {
        return Err(DecodeError::FormatMismatch);
    }
    let geom_raw = match rd.read_u32() {
        Ok(v) => v,
        Err(e) => {
            return Err(e);
        },
    };
    match rd.read_u32() {
        Ok(_) => {},
        Err(e) => {
            return Err(e);
        },
    };
    let vtx_raw = match rd.read_u32() {
        Ok(v) => v,
        Err(e) => {
            return Err(e);
        },
    };
    let uv_raw = match rd.read_u32() {
        Ok(v) => v,
        Err(e) => {
            return Err(e);
        },
    };
    let tri_raw = match rd.read_u32() {
        Ok(v) => v,
        Err(e) => {
            return Err(e);
        },
    };
    let mut skip: usize = 0;
    while skip < 6
        invariant
            rd.wf(),
            rd.data@ == data@,
            skip <= 6,
            rd.pos == 28 + 4 * skip,
            28 + 4 * skip <= data@.len(),
        decreases 6 - skip,
    {
        match rd.read_u32() {
            Ok(_) => {},
            Err(e) => {
                return Err(e);
            },
        };
        skip = skip + 1;
    }
    let mat_raw = match rd.read_u32() {
        Ok(v) => v,
        Err(e) => {
            return Err(e);
        },
    };
    let mat_off_raw = match rd.read_u32() {
        Ok(v) => v,
        Err(e) => {
            return Err(e);
        },
    };
    let mut skip2: usize = 0;
    while skip2 < 15
        invariant
            rd.wf(),
            rd.data@ == data@,
            skip2 <= 15,
            rd.pos == 60 + 4 * skip2,
            60 + 4 * skip2 <= data@.len(),
        decreases 15 - skip2,
    {
        match rd.read_u32() {
            Ok(_) => {},
            Err(e) => {
                return Err(e);
            },
        };
        skip2 = skip2 + 1;
    }
    decode_indexed_body(&mut rd, geom_raw, vtx_raw, uv_raw, tri_raw, mat_raw, mat_off_raw)
}


/// What it means for a selection result to be the indexed entries
/// of the shared triangle buffer, in table order.
pub open spec fn selection_indexed(
    d: Seq<u8>,
    tris: Seq<SharedTri>,
    p: int,
    n: int,
    sel: Seq<SharedTri>,
) -> bool {
    &&& sel.len() == n
    &&& forall|j: int| 0 <= j < n ==> #[trigger] le16_at(d, p + 2 * j) < tris.len()
    &&& forall|j: int|
        0 <= j < n ==> #[trigger] sel[j] == tris[le16_at(d, p + 2 * j) as int]
}

/// The indirection law: a selection table that reads back
/// successfully yields exactly the indexed entries of the shared
/// triangle buffer, in table order.
pub proof fn lemma_selection_indexed(d: Seq<u8>, tris: Seq<SharedTri>, p: int, n: int)
    requires
        0 <= p,
        0 <= n,
        spec_read_polys(d, tris, p, n) is Ok,
    ensures
        selection_indexed(d, tris, p, n, spec_read_polys(d, tris, p, n).unwrap()),
    decreases n,
{
    let sel = spec_read_polys(d, tris, p, n).unwrap();
    if n == 0 {
        assert(sel =~= Seq::<SharedTri>::empty());
        assert(selection_indexed(d, tris, p, n, sel));
    } else {
        lemma_selection_indexed(d, tris, p + 2, n - 1);
        let rest = spec_read_polys(d, tris, p + 2, n - 1).unwrap();
        assert(sel == seq![tris[le16_at(d, p) as int]] + rest);
        assert(sel.len() == n);
        assert forall|j: int| 0 <= j < n implies #[trigger] le16_at(d, p + 2 * j)
            < tris.len() by {
            if j == 0 {
                assert(le16_at(d, p) < tris.len());
            } else {
                assert(le16_at(d, (p + 2) + 2 * (j - 1)) < tris.len());
                assert((p + 2) + 2 * (j - 1) == p + 2 * j);
            }
        }
        assert forall|j: int| 0 <= j < n implies #[trigger] sel[j] == tris[le16_at(
            d,
            p + 2 * j,
        ) as int] by {
            if j == 0 {
                assert(sel[0] == tris[le16_at(d, p) as int]);
            } else {
                assert(sel[j] == rest[j - 1]);
                assert(rest[j - 1] == tris[le16_at(d, (p + 2) + 2 * (j - 1)) as int]);
                assert((p + 2) + 2 * (j - 1) == p + 2 * j);
            }
        }
        assert(selection_indexed(d, tris, p, n, sel));
    }
}

} // verus!
