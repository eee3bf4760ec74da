//! Emission of decoded geometry as a portable text mesh and a
//! companion material description.
//!
//! The text mesh is a sequence of lines: a material-library reference,
//! a default-material-use line, one `v` line per vertex, one `vt` line
//! per texture coordinate, and one `f` line per triangle with 1-based
//! indices and the corners in reversed order (third, second, first)
//! relative to decode order — the winding convention flips between the
//! source and the target format.
//!
//! Because positions and texture coordinates are IEEE-754 bit
//! patterns that this crate never interprets, a mesh is emitted as a
//! sequence of structured [`ObjLine`] values; the caller renders each
//! line to text, formatting the bit patterns as decimal numbers and
//! applying the vertical flip to the `v` texture coordinate.

use vstd::prelude::*;
use vstd::string::StringExecFns;

use crate::mesh::{Point3, SharedTri, Tri, UvPair};

verus! {

/// One line of the text mesh output, with numeric fields still in
/// their decoded form.
#[derive(Debug, PartialEq)]
pub enum ObjLine {
    /// `mtllib <name>`: the material-library reference.
    MtlLib(String),
    /// `usemtl default`.
    UseMtl,
    /// `v <x> <y> <z>`, fields as single-precision bit patterns.
    Vertex(Point3),
    /// `vt <u> <v>`, fields as single-precision bit patterns; the
    /// renderer emits one minus the value of the second field.
    Uv(UvPair),
    /// `f a/b c/d e/f`: three corners, each a vertex index and a
    /// texture-coordinate index, already 1-based and in emission
    /// order.
    Face(i64, i64, i64, i64, i64, i64),
}

/// Mathematical value of an [`ObjLine`].
pub enum ObjLineView {
    MtlLib(Seq<char>),
    UseMtl,
    Vertex(Point3),
    Uv(UvPair),
    Face(i64, i64, i64, i64, i64, i64),
}

impl View for ObjLine {
    type V = ObjLineView;

    open spec fn view(&self) -> ObjLineView {
        match self {
            ObjLine::MtlLib(name) => ObjLineView::MtlLib(name@),
            ObjLine::UseMtl => ObjLineView::UseMtl,
            ObjLine::Vertex(p) => ObjLineView::Vertex(*p),
            ObjLine::Uv(q) => ObjLineView::Uv(*q),
            ObjLine::Face(a, b, c, d, e, f) => ObjLineView::Face(*a, *b, *c, *d, *e, *f),
        }
    }
}

/// The face line an explicit-index triangle is emitted as: 1-based
/// `vertex/uv` pairs, corners reversed (third, second, first).
pub open spec fn face_line(t: Tri) -> ObjLineView {
    ObjLineView::Face(
        (t.c + 1) as i64,
        (t.tc + 1) as i64,
        (t.b + 1) as i64,
        (t.tb + 1) as i64,
        (t.a + 1) as i64,
        (t.ta + 1) as i64,
    )
}

/// The face line a shared-index triangle is emitted as: the same
/// 1-based index fills both slots of each corner, corners reversed.
pub open spec fn shared_face_line(t: SharedTri) -> ObjLineView {
    ObjLineView::Face(
        (t.c + 1) as i64,
        (t.c + 1) as i64,
        (t.b + 1) as i64,
        (t.b + 1) as i64,
        (t.a + 1) as i64,
        (t.a + 1) as i64,
    )
}

/// Renders a mesh in explicit-index form: each triangle carries its
/// own texture-coordinate indices.
pub fn write_obj(mtl: &str, vtx: &Vec<Point3>, uv: &Vec<UvPair>, tri: &Vec<Tri>) -> (r: Vec<
    ObjLine,
>)
    ensures
        r@.len() == 2 + vtx@.len() + uv@.len() + tri@.len(),
        r@[0]@ == ObjLineView::MtlLib(mtl@),
        r@[1]@ == ObjLineView::UseMtl,
        forall|i: int|
            0 <= i < vtx@.len() ==> r@[2 + i]@ == ObjLineView::Vertex(vtx@[i]),
        forall|i: int|
            0 <= i < uv@.len() ==> r@[2 + vtx@.len() + i]@ == ObjLineView::Uv(uv@[i]),
        forall|i: int|
            0 <= i < tri@.len() ==> r@[2 + vtx@.len() + uv@.len() + i]@ == face_line(tri@[i]),
{
    let mut out: Vec<ObjLine> = Vec::new();
    out.push(ObjLine::MtlLib(mtl.to_owned()));
    out.push(ObjLine::UseMtl);
    let mut i: usize = 0;
    while i < vtx.len()
        invariant
            i <= vtx@.len(),
            out@.len() == 2 + i,
            out@[0]@ == ObjLineView::MtlLib(mtl@),
            out@[1]@ == ObjLineView::UseMtl,
            forall|j: int| 0 <= j < i ==> out@[2 + j]@ == ObjLineView::Vertex(vtx@[j]),
        decreases vtx@.len() - i,
    {
        out.push(ObjLine::Vertex(vtx[i]));
        i = i + 1;
    }
    let mut i: usize = 0;
    while i < uv.len()
        invariant
            i <= uv@.len(),
            out@.len() == 2 + vtx@.len() + i,
            out@[0]@ == ObjLineView::MtlLib(mtl@),
            out@[1]@ == ObjLineView::UseMtl,
            forall|j: int| 0 <= j < vtx@.len() ==> out@[2 + j]@ == ObjLineView::Vertex(vtx@[j]),
            forall|j: int| 0 <= j < i ==> out@[2 + vtx@.len() + j]@ == ObjLineView::Uv(uv@[j]),
        decreases uv@.len() - i,
    {
        out.push(ObjLine::Uv(uv[i]));
        i = i + 1;
    }
    let mut i: usize = 0;
    while i < tri.len()
        invariant
            i <= tri@.len(),
            out@.len() == 2 + vtx@.len() + uv@.len() + i,
            out@[0]@ == ObjLineView::MtlLib(mtl@),
            out@[1]@ == ObjLineView::UseMtl,
            forall|j: int| 0 <= j < vtx@.len() ==> out@[2 + j]@ == ObjLineView::Vertex(vtx@[j]),
            forall|j: int|
                0 <= j < uv@.len() ==> out@[2 + vtx@.len() + j]@ == ObjLineView::Uv(uv@[j]),
            forall|j: int|
                0 <= j < i ==> out@[2 + vtx@.len() + uv@.len() + j]@ == face_line(tri@[j]),
        decreases tri@.len() - i,
    {
        let t = tri[i];
        out.push(
            ObjLine::Face(
                t.c as i64 + 1,
                t.tc as i64 + 1,
                t.b as i64 + 1,
                t.tb as i64 + 1,
                t.a as i64 + 1,
                t.ta as i64 + 1,
            ),
        );
        i = i + 1;
    }
    out
}

/// Renders a mesh in shared-index form: one index per corner fills
/// both the vertex and the texture-coordinate slot.
pub fn write_obj_alt(mtl: &str, vtx: &Vec<Point3>, uv: &Vec<UvPair>, tri: &Vec<SharedTri>) -> (r:
    Vec<ObjLine>)
    ensures
        r@.len() == 2 + vtx@.len() + uv@.len() + tri@.len(),
        r@[0]@ == ObjLineView::MtlLib(mtl@),
        r@[1]@ == ObjLineView::UseMtl,
        forall|i: int|
            0 <= i < vtx@.len() ==> r@[2 + i]@ == ObjLineView::Vertex(vtx@[i]),
        forall|i: int|
            0 <= i < uv@.len() ==> r@[2 + vtx@.len() + i]@ == ObjLineView::Uv(uv@[i]),
        forall|i: int|
            0 <= i < tri@.len() ==> r@[2 + vtx@.len() + uv@.len() + i]@ == shared_face_line(
                tri@[i],
            ),
{
    let mut out: Vec<ObjLine> = Vec::new();
    out.push(ObjLine::MtlLib(mtl.to_owned()));
    out.push(ObjLine::UseMtl);
    let mut i: usize = 0;
    while i < vtx.len()
        invariant
            i <= vtx@.len(),
            out@.len() == 2 + i,
            out@[0]@ == ObjLineView::MtlLib(mtl@),
            out@[1]@ == ObjLineView::UseMtl,
            forall|j: int| 0 <= j < i ==> out@[2 + j]@ == ObjLineView::Vertex(vtx@[j]),
        decreases vtx@.len() - i,
    {
        out.push(ObjLine::Vertex(vtx[i]));
        i = i + 1;
    }
    let mut i: usize = 0;
    while i < uv.len()
        invariant
            i <= uv@.len(),
            out@.len() == 2 + vtx@.len() + i,
            out@[0]@ == ObjLineView::MtlLib(mtl@),
            out@[1]@ == ObjLineView::UseMtl,
            forall|j: int| 0 <= j < vtx@.len() ==> out@[2 + j]@ == ObjLineView::Vertex(vtx@[j]),
            forall|j: int| 0 <= j < i ==> out@[2 + vtx@.len() + j]@ == ObjLineView::Uv(uv@[j]),
        decreases uv@.len() - i,
    {
        out.push(ObjLine::Uv(uv[i]));
        i = i + 1;
    }
    let mut i: usize = 0;
    while i < tri.len()
        invariant
            i <= tri@.len(),
            out@.len() == 2 + vtx@.len() + uv@.len() + i,
            out@[0]@ == ObjLineView::MtlLib(mtl@),
            out@[1]@ == ObjLineView::UseMtl,
            forall|j: int| 0 <= j < vtx@.len() ==> out@[2 + j]@ == ObjLineView::Vertex(vtx@[j]),
            forall|j: int|
                0 <= j < uv@.len() ==> out@[2 + vtx@.len() + j]@ == ObjLineView::Uv(uv@[j]),
            forall|j: int|
                0 <= j < i ==> out@[2 + vtx@.len() + uv@.len() + j]@ == shared_face_line(tri@[j]),
        decreases tri@.len() - i,
    {
        let t = tri[i];
        out.push(
            ObjLine::Face(
                t.c as i64 + 1,
                t.c as i64 + 1,
                t.b as i64 + 1,
                t.b as i64 + 1,
                t.a as i64 + 1,
                t.a as i64 + 1,
            ),
        );
        i = i + 1;
    }
    out
}

/// The fixed material description: flat ambient and diffuse, zero
/// specular, zero transparency, constant-color-with-texture
/// illumination, referencing the given texture file.
pub open spec fn mtl_text(tex_name: Seq<char>) -> Seq<char> {
    "newmtl default\nKa 1.0 1.0 1.0\nKd 1.0 1.0 1.0\nKs 0.0 0.0 0.0\nTr 0.0\nillum 1\nNs 0.0\nmap_Kd "@
        + tex_name
}

/// Renders the companion material description for one texture.
pub fn write_mtl(tex_name: &str) -> (r: String)
    ensures
        r@ == mtl_text(tex_name@),
{
    let mut s = String::from_str(
        "newmtl default\nKa 1.0 1.0 1.0\nKd 1.0 1.0 1.0\nKs 0.0 0.0 0.0\nTr 0.0\nillum 1\nNs 0.0\nmap_Kd ",
    );
    s.append(tex_name);
    s
}

} // verus!
