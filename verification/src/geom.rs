//! Byte-level readers for the geometry buffers that the mesh formats
//! share: positions, texture-coordinate pairs, and stored 32-bit
//! counts.

use vstd::prelude::*;

use crate::mesh::{Point3, UvPair};
use crate::reader::{le32_at, loop_count, ByteReader};
use crate::DecodeError;

verus! {

/// The texture-coordinate pair stored at `i`: two bit patterns.
pub open spec fn uv_at(d: Seq<u8>, i: int) -> UvPair {
    UvPair { u: le32_at(d, i), v_src: le32_at(d, i + 4) }
}

/// The position stored at `i`: three bit patterns.
pub open spec fn point_at(d: Seq<u8>, i: int) -> Point3 {
    Point3 { x: le32_at(d, i), y: le32_at(d, i + 4), z: le32_at(d, i + 8) }
}

/// Turns a stored 32-bit count into the number of loop iterations it
/// drives.
pub(crate) fn count_of(raw: u32) -> (r: usize)
    ensures
        r as int == loop_count(raw),
{
    if raw < 0x8000_0000 {
        raw as usize
    } else {
        0
    }
}

/// Reads `n` texture-coordinate pairs at the cursor.
#[verifier::loop_isolation(false)]
pub(crate) fn read_uvs(rd: &mut ByteReader, n: usize) -> (r: Result<Vec<UvPair>, DecodeError>)
    requires
        old(rd).wf(),
    ensures
        final(rd).data@ == old(rd).data@,
        final(rd).wf(),
        old(rd).pos + 8 * n <= old(rd).data@.len() ==> r is Ok && r.unwrap()@ == Seq::new(
            n as nat,
            |k: int| uv_at(old(rd).data@, old(rd).pos + 8 * k),
        ) && final(rd).pos == old(rd).pos + 8 * n,
        old(rd).pos + 8 * n > old(rd).data@.len() ==> r == Err::<Vec<UvPair>, DecodeError>(
            DecodeError::Truncated,
        ),
{
    let ghost d = rd.data@;
    let ghost base = rd.pos as int;
    let mut out: Vec<UvPair> = Vec::new();
    let mut k: usize = 0;
    while k < n
        invariant
            rd.wf(),
            rd.data@ == d,
            k <= n,
            rd.pos == base + 8 * k,
            base + 8 * k <= d.len(),
            forall|j: int| 0 <= j < k ==> out@[j] == uv_at(d, base + 8 * j),
            out@.len() == k,
        decreases n - k,
    {
        let u = match rd.read_u32() {
            Ok(v) => v,
            Err(e) => {
                return Err(e);
            },
        };
        let v = match rd.read_u32() {
            Ok(v) => v,
            Err(e) => {
                return Err(e);
            },
        };
        out.push(UvPair { u, v_src: v });
        k = k + 1;
    }
    proof {
        assert(out@ =~= Seq::new(n as nat, |k: int| uv_at(d, base + 8 * k)));
    }
    Ok(out)
}

/// Reads one vertex-position snapshot of `n` positions at the cursor.
#[verifier::loop_isolation(false)]
pub(crate) fn read_frame(rd: &mut ByteReader, n: usize) -> (r: Result<Vec<Point3>, DecodeError>)
    requires
        old(rd).wf(),
    ensures
        final(rd).data@ == old(rd).data@,
        final(rd).wf(),
        old(rd).pos + 12 * n <= old(rd).data@.len() ==> r is Ok && r.unwrap()@ == Seq::new(
            n as nat,
            |k: int| point_at(old(rd).data@, old(rd).pos + 12 * k),
        ) && final(rd).pos == old(rd).pos + 12 * n,
        old(rd).pos + 12 * n > old(rd).data@.len() ==> r == Err::<Vec<Point3>, DecodeError>(
            DecodeError::Truncated,
        ),
{
    let ghost d = rd.data@;
    let ghost base = rd.pos as int;
    let mut out: Vec<Point3> = Vec::new();
    let mut k: usize = 0;
    while k < n
        invariant
            rd.wf(),
            rd.data@ == d,
            k <= n,
            rd.pos == base + 12 * k,
            base + 12 * k <= d.len(),
            forall|j: int| 0 <= j < k ==> out@[j] == point_at(d, base + 12 * j),
            out@.len() == k,
        decreases n - k,
    {
        let x = match rd.read_u32() {
            Ok(v) => v,
            Err(e) => {
                return Err(e);
            },
        };
        let y = match rd.read_u32() {
            Ok(v) => v,
            Err(e) => {
                return Err(e);
            },
        };
        let z = match rd.read_u32() {
            Ok(v) => v,
            Err(e) => {
                return Err(e);
            },
        };
        out.push(Point3 { x, y, z });
        k = k + 1;
    }
    proof {
        assert(out@ =~= Seq::new(n as nat, |k: int| point_at(d, base + 12 * k)));
    }
    Ok(out)
}

} // verus!
