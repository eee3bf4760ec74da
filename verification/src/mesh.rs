//! Decoded geometry: the shared shape that every mesh decoder produces
//! and the emitter consumes.
//!
//! Positions and texture coordinates are IEEE-754 single-precision
//! values; this crate never interprets them, it only moves their
//! 32-bit little-endian bit patterns.  Rendering a bit pattern to
//! decimal text — including the vertical flip of the `v` texture
//! coordinate — is the caller's concern.

use vstd::prelude::*;

verus! {

/// Corner indices of one triangle in the explicit-index mesh format:
/// for each corner a vertex index and a texture-coordinate index, as
/// signed 32-bit values exactly as stored.
#[derive(Clone, Copy, Debug, PartialEq, Eq, Structural)]
pub struct Tri {
    pub a: i32,
    pub ta: i32,
    pub b: i32,
    pub tb: i32,
    pub c: i32,
    pub tc: i32,
}

/// One position: three single-precision bit patterns (x, y, z).
#[derive(Clone, Copy, Debug, PartialEq, Eq, Structural)]
pub struct Point3 {
    pub x: u32,
    pub y: u32,
    pub z: u32,
}

/// One texture-coordinate pair as bit patterns.  `u` is emitted as
/// stored; the output convention flips the second component
/// vertically, so a renderer emits one minus the value that `v_src`
/// denotes.
#[derive(Clone, Copy, Debug, PartialEq, Eq, Structural)]
pub struct UvPair {
    pub u: u32,
    pub v_src: u32,
}

/// One triangle of the shared-index mesh formats: three indices into
/// the shared vertex buffer, reused for the texture-coordinate slot.
#[derive(Clone, Copy, Debug, PartialEq, Eq, Structural)]
pub struct SharedTri {
    pub a: u16,
    pub b: u16,
    pub c: u16,
}

/// One self-contained mesh sub-record of the explicit-index format,
/// with its own buffers and texture.
#[derive(Debug)]
pub struct LumpMesh {
    /// Texture file name, with the trailing NUL padding stripped.
    pub texture: String,
    /// Vertex positions of the first animation frame.
    pub vertices: Vec<Point3>,
    pub uvs: Vec<UvPair>,
    pub tris: Vec<Tri>,
}

/// Mathematical value of a [`LumpMesh`].
pub struct LumpView {
    pub texture: Seq<char>,
    pub vertices: Seq<Point3>,
    pub uvs: Seq<UvPair>,
    pub tris: Seq<Tri>,
}

impl View for LumpMesh {
    type V = LumpView;

    open spec fn view(&self) -> LumpView {
        LumpView {
            texture: self.texture@,
            vertices: self.vertices@,
            uvs: self.uvs@,
            tris: self.tris@,
        }
    }
}

/// One material group of the shared-index formats: a texture and the
/// subset of the shared triangle buffer selected for it, in
/// selection-table order.
#[derive(Debug)]
pub struct MaterialGroup {
    /// Texture file name, with the trailing NUL padding stripped.
    pub texture: String,
    /// The selected triangles, copied from the shared buffer.
    pub tris: Vec<SharedTri>,
}

/// Mathematical value of a [`MaterialGroup`].
pub struct GroupView {
    pub texture: Seq<char>,
    pub tris: Seq<SharedTri>,
}

impl View for MaterialGroup {
    type V = GroupView;

    open spec fn view(&self) -> GroupView {
        GroupView { texture: self.texture@, tris: self.tris@ }
    }
}

/// A whole decoded shared-index file: the shared vertex and
/// texture-coordinate buffers, and one group per material record.
#[derive(Debug)]
pub struct IndexedModel {
    pub vertices: Vec<Point3>,
    pub uvs: Vec<UvPair>,
    pub groups: Vec<MaterialGroup>,
}

/// Mathematical value of an [`IndexedModel`].
pub struct ModelView {
    pub vertices: Seq<Point3>,
    pub uvs: Seq<UvPair>,
    pub groups: Seq<GroupView>,
}

impl View for IndexedModel {
    type V = ModelView;

    open spec fn view(&self) -> ModelView {
        ModelView {
            vertices: self.vertices@,
            uvs: self.uvs@,
            groups: self.groups@.map_values(|g: MaterialGroup| g@),
        }
    }
}

} // verus!
