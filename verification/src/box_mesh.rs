//! Decoder for the "lump" mesh format.
//!
//! The stream is a header followed by a chain of lumps.  Each lump is
//! a self-contained mesh: a record of four 32-bit fields (an absolute
//! data offset and the vertex, triangle and texture-coordinate
//! counts) and a 100-byte NUL-padded texture name, then — at the data
//! offset — the texture-coordinate pairs, the triangles (six signed
//! 32-bit fields each), and one vertex-position snapshot per
//! animation frame.  Only the first snapshot is materialized; the
//! remaining snapshots are decoded past solely to keep the cursor
//! correct, so the next lump's record follows the last snapshot.

use vstd::prelude::*;

use crate::geom::{count_of, point_at, read_frame, read_uvs, uv_at};
use crate::mesh::{LumpMesh, LumpView, Tri};
use crate::reader::{
    le32_at, loop_count, seek_pos, signed32, text_at, trim_nuls, read_padded_string, ByteReader,
};
use crate::{DecodeError, FORMAT_VERSION};

verus! {

/// Magic number of the lump mesh format.
pub const BOX_MAGIC: u32 = 0x424F_5800;

/// The explicit-index triangle stored at `i`: six signed fields in
/// the order vertex/uv index for each of the three corners.
pub open spec fn tri_at(d: Seq<u8>, i: int) -> Tri {
    Tri {
        a: signed32(le32_at(d, i)),
        ta: signed32(le32_at(d, i + 4)),
        b: signed32(le32_at(d, i + 8)),
        tb: signed32(le32_at(d, i + 12)),
        c: signed32(le32_at(d, i + 16)),
        tc: signed32(le32_at(d, i + 20)),
    }
}

/// Decodes the lump whose record starts at `cur`.  On success the
/// result carries the lump and the cursor position after its frame
/// data, where the next lump's record starts.
pub open spec fn spec_decode_lump(d: Seq<u8>, frame_n: int, cur: int) -> Result<
    (LumpView, int),
    DecodeError,
> {
    if cur + 116 > d.len() {
        Err(DecodeError::Truncated)
    } else {
        let p = seek_pos(le32_at(d, cur), d.len() as int);
        let vtx_n = loop_count(le32_at(d, cur + 4));
        let tri_n = loop_count(le32_at(d, cur + 8));
        let uv_n = loop_count(le32_at(d, cur + 12));
        match text_at(d, cur + 16, 100) {
            None => Err(DecodeError::InvalidText),
            Some(t) => {
                if p + 8 * uv_n > d.len() {
                    Err(DecodeError::Truncated)
                } else if p + 8 * uv_n + 24 * tri_n > d.len() {
                    Err(DecodeError::Truncated)
                } else if p + 8 * uv_n + 24 * tri_n + 12 * vtx_n * frame_n > d.len() {
                    Err(DecodeError::Truncated)
                } else if frame_n == 0 {
                    Err(DecodeError::MissingFrame)
                } else {
                    Ok(
                        (
                            LumpView {
                                texture: trim_nuls(t),
                                vertices: Seq::new(
                                    vtx_n as nat,
                                    |k: int| point_at(d, p + 8 * uv_n + 24 * tri_n + 12 * k),
                                ),
                                uvs: Seq::new(uv_n as nat, |k: int| uv_at(d, p + 8 * k)),
                                tris: Seq::new(
                                    tri_n as nat,
                                    |k: int| tri_at(d, p + 8 * uv_n + 24 * k),
                                ),
                            },
                            p + 8 * uv_n + 24 * tri_n + 12 * vtx_n * frame_n,
                        ),
                    )
                }
            },
        }
    }
}

/// Decodes `remaining` lumps starting at `cur`: the lumps decoded
/// before the first failure, and the failure if there was one.
pub open spec fn spec_decode_lumps(d: Seq<u8>, frame_n: int, cur: int, remaining: int) -> (Seq<
    LumpView,
>, Option<DecodeError>)
    decreases remaining,
{
    if remaining <= 0 {
        (seq![], None)
    } else {
        match spec_decode_lump(d, frame_n, cur) {
            Err(e) => (seq![], Some(e)),
            Ok((lump, end)) => {
                let (rest, err) = spec_decode_lumps(d, frame_n, end, remaining - 1);
                (seq![lump] + rest, err)
            },
        }
    }
}

/// The whole decode: header check, then the lump chain.  The lump
/// count and frame count are stored as signed values; a negative
/// count drives no iterations.
pub open spec fn spec_decode_box(d: Seq<u8>) -> (Seq<LumpView>, Option<DecodeError>) {
    if d.len() < 8 {
        (seq![], Some(DecodeError::Truncated))
    } else if le32_at(d, 0) != BOX_MAGIC || le32_at(d, 4) != FORMAT_VERSION {
        (seq![], Some(DecodeError::FormatMismatch))
    } else if d.len() < 24 {
        (seq![], Some(DecodeError::Truncated))
    } else {
        spec_decode_lumps(d, loop_count(le32_at(d, 16)), 24, loop_count(le32_at(d, 8)))
    }
}

/// Reads `n` explicit-index triangles at the cursor.
#[verifier::loop_isolation(false)]
fn read_tris(rd: &mut ByteReader, n: usize) -> (r: Result<Vec<Tri>, DecodeError>)
    requires
        old(rd).wf(),
    ensures
        final(rd).data@ == old(rd).data@,
        final(rd).wf(),
        old(rd).pos + 24 * n <= old(rd).data@.len() ==> r is Ok && r.unwrap()@ == Seq::new(
            n as nat,
            |k: int| tri_at(old(rd).data@, old(rd).pos + 24 * k),
        ) && final(rd).pos == old(rd).pos + 24 * n,
        old(rd).pos + 24 * n > old(rd).data@.len() ==> r == Err::<Vec<Tri>, DecodeError>(
            DecodeError::Truncated,
        ),
{
    let ghost d = rd.data@;
    let ghost base = rd.pos as int;
    let mut out: Vec<Tri> = Vec::new();
    let mut k: usize = 0;
    while k < n
        invariant
            rd.wf(),
            rd.data@ == d,
            k <= n,
            rd.pos == base + 24 * k,
            base + 24 * k <= d.len(),
            forall|j: int| 0 <= j < k ==> out@[j] == tri_at(d, base + 24 * j),
            out@.len() == k,
        decreases n - k,
    {
        let a = match rd.read_i32() {
            Ok(v) => v,
            Err(e) => {
                return Err(e);
            },
        };
        let ta = match rd.read_i32() {
            Ok(v) => v,
            Err(e) => {
                return Err(e);
            },
        };
        let b = match rd.read_i32() {
            Ok(v) => v,
            Err(e) => {
                return Err(e);
            },
        };
        let tb = match rd.read_i32() {
            Ok(v) => v,
            Err(e) => {
                return Err(e);
            },
        };
        let c = match rd.read_i32() {
            Ok(v) => v,
            Err(e) => {
                return Err(e);
            },
        };
        let tc = match rd.read_i32() {
            Ok(v) => v,
            Err(e) => {
                return Err(e);
            },
        };
        out.push(Tri { a, ta, b, tb, c, tc });
        k = k + 1;
    }
    proof {
        assert(out@ =~= Seq::new(n as nat, |k: int| tri_at(d, base + 24 * k)));
    }
    Ok(out)
}

/// Decodes one lump whose record starts at the cursor, leaving the
/// cursor after the lump's frame data on success.
#[verifier::loop_isolation(false)]
fn decode_lump(rd: &mut ByteReader, frame_raw: u32) -> (r: Result<LumpMesh, DecodeError>)
    requires
        old(rd).wf(),
    ensures
        final(rd).data@ == old(rd).data@,
        final(rd).wf(),
        match spec_decode_lump(old(rd).data@, loop_count(frame_raw), old(rd).pos as int) {
            Ok((lump, end)) => r is Ok && r.unwrap()@ == lump && final(rd).pos == end,
            Err(e) => r == Err::<LumpMesh, DecodeError>(e),
        },
{
    let ghost d = rd.data@;
    let ghost cur = rd.pos as int;
    let pos_raw = match rd.read_u32() {
        Ok(v) => v,
        Err(e) => {
            return Err(e);
        },
    };
    let vtx_raw = match rd.read_u32() {
        Ok(v) => v,
        Err(e) => {
            return Err(e);
        },
    };
    let tri_raw = match rd.read_u32() {
        Ok(v) => v,
        Err(e) => {
            return Err(e);
        },
    };
    let uv_raw = match rd.read_u32() {
        Ok(v) => v,
        Err(e) => {
            return Err(e);
        },
    };
    let texture = match read_padded_string(rd, 100) {
        Ok(s) => s,
        Err(e) => {
            return Err(e);
        },
    };
    let vtx_n = count_of(vtx_raw);
    let tri_n = count_of(tri_raw);
    let uv_n = count_of(uv_raw);
    let frame_n = count_of(frame_raw);
    rd.seek_offset32(pos_raw);
    let ghost p = rd.pos as int;
    let uvs = match read_uvs(rd, uv_n) {
        Ok(v) => v,
        Err(e) => {
            return Err(e);
        },
    };
    let tris = match read_tris(rd, tri_n) {
        Ok(v) => v,
        Err(e) => {
            return Err(e);
        },
    };
    if frame_n == 0 {
        return Err(DecodeError::MissingFrame);
    }
    let vertices = match read_frame(rd, vtx_n) {
        Ok(v) => v,
        Err(e) => {
            proof {
                assert(12 * vtx_n <= 12 * vtx_n * frame_n) by (nonlinear_arith)
                    requires
                        0 <= vtx_n,
                        1 <= frame_n,
                ;
            }
            return Err(e);
        },
    };
    let mut f: usize = 1;
    while f < frame_n
        invariant
            rd.wf(),
            rd.data@ == d,
            1 <= f <= frame_n,
            rd.pos == p + 8 * uv_n + 24 * tri_n + 12 * vtx_n * f,
        decreases frame_n - f,
    {
        match read_frame(rd, vtx_n) {
            Ok(_) => {},
            Err(e) => {
                proof {
                    assert(12 * vtx_n * f + 12 * vtx_n <= 12 * vtx_n * frame_n)
                        by (nonlinear_arith)
                        requires
                            0 <= vtx_n,
                            f + 1 <= frame_n,
                    ;
                }
                return Err(e);
            },
        };
        f = f + 1;
        proof {
            assert(12 * vtx_n * (f - 1) + 12 * vtx_n == 12 * vtx_n * f) by (nonlinear_arith);
        }
    }
    proof {
        let spec_lump = spec_decode_lump(d, frame_n as int, cur).unwrap().0;
        assert(vertices@ =~= spec_lump.vertices);
        assert(uvs@ =~= spec_lump.uvs);
        assert(tris@ =~= spec_lump.tris);
    }
    Ok(LumpMesh { texture, vertices, uvs, tris })
}

/// Decodes a whole lump-format stream: the lumps decoded before the
/// first failure, in stream order, and the failure if there was one.
#[verifier::loop_isolation(false)]
#[verifier::rlimit(30)]
pub fn decode_box(data: &[u8]) -> (r: (Vec<LumpMesh>, Option<DecodeError>))
    ensures
        ({
            let (lumps, err) = spec_decode_box(data@);
            r.0@.map_values(|m: LumpMesh| m@) == lumps && r.1 == err
        }),
{
    let ghost d = data@;
    let mut rd = ByteReader::new(data);
    let empty: Vec<LumpMesh> = Vec::new();
    proof {
        assert(empty@.map_values(|m: LumpMesh| m@) =~= Seq::<LumpView>::empty());
    }
    let magic = match rd.read_u32() {
        Ok(v) => v,
        Err(e) => {
            return (empty, Some(e));
        },
    };
    let version = match rd.read_u32() {
        Ok(v) => v,
        Err(e) => {
            return (empty, Some(e));
        },
    };
    if magic != BOX_MAGIC || version != FORMAT_VERSION {
        return (empty, Some(DecodeError::FormatMismatch));
    }
    let lump_raw = match rd.read_u32() {
        Ok(v) => v,
        Err(e) => {
            return (empty, Some(e));
        },
    };
    match rd.read_u32() {
        Ok(_) => {},
        Err(e) => {
            return (empty, Some(e));
        },
    };
    let frame_raw = match rd.read_u32() {
        Ok(v) => v,
        Err(e) => {
            return (empty, Some(e));
        },
    };
    match rd.read_u32() {
        Ok(_) => {},
        Err(e) => {
            return (empty, Some(e));
        },
    };
    let lump_n = count_of(lump_raw);
    let mut out: Vec<LumpMesh> = Vec::new();
    let mut i: usize = 0;
    proof {
        assert(out@.map_values(|m: LumpMesh| m@) =~= Seq::<LumpView>::empty());
        let (rest, err) = spec_decode_lumps(d, loop_count(frame_raw), 24, lump_n as int);
        assert(Seq::<LumpView>::empty() + rest =~= rest);
    }
    while i < lump_n
        invariant
            rd.wf(),
            rd.data@ == d,
            i <= lump_n,
            ({
                let (rest, err) = spec_decode_lumps(
                    d,
                    loop_count(frame_raw),
                    rd.pos as int,
                    lump_n - i,
                );
                spec_decode_box(d) == (out@.map_values(|m: LumpMesh| m@) + rest, err)
            }),
        decreases lump_n - i,
    {
        let ghost pos0 = rd.pos as int;
        match decode_lump(&mut rd, frame_raw) {
            Ok(m) => {
                out.push(m);
                i = i + 1;
                proof {
                    let (lump, end) = spec_decode_lump(d, loop_count(frame_raw), pos0).unwrap();
                    let (rest, err) = spec_decode_lumps(
                        d,
                        loop_count(frame_raw),
                        end,
                        lump_n - i,
                    );
                    assert(out@.map_values(|m: LumpMesh| m@) + rest =~= out@.drop_last()
                        .map_values(|m: LumpMesh| m@) + (seq![lump] + rest));
                }
            },
            Err(e) => {
                proof {
                    assert(out@.map_values(|m: LumpMesh| m@) + Seq::<LumpView>::empty() =~= out@
                        .map_values(|m: LumpMesh| m@));
                }
                return (out, Some(e));
            },
        }
    }
    proof {
        assert(out@.map_values(|m: LumpMesh| m@) + Seq::<LumpView>::empty() =~= out@.map_values(
            |m: LumpMesh| m@,
        ));
    }
    (out, None)
}

} // verus!
