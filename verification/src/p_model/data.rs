//! The records of a P model file.

pub use crate::p_mesh::data::{BGRAColor, RawVec2, RawVec3};
use vstd::prelude::*;

verus! {

/// The header of a P model file, each field as the file stores it.
#[derive(Debug, Clone, Copy, PartialEq, Eq)]
pub struct PModelHeader {
    pub version: i32,
    pub vertex_type: i32,
    pub num_vertices: i32,
    pub num_normals: i32,
    pub num_unk1: i32,
    pub num_tex_coords: i32,
    pub num_vertex_colors: i32,
    pub num_edges: i32,
    pub num_polys: i32,
    pub num_unk2: i32,
    pub num_unk3: i32,
    pub num_hundreds: i32,
    pub num_groups: i32,
    pub num_bounding_boxes: i32,
    pub norm_index_table_flags: i32,
}

/// The vertex arrays of a P model file.
#[derive(Debug)]
pub struct PModel {
    pub vertices: Vec<RawVec3>,
    pub normals: Vec<RawVec3>,
    pub unk1: Vec<RawVec3>,
    pub tex_coords: Vec<RawVec2>,
    pub vertex_colors: Vec<BGRAColor>,
}

/// A `PModel` as a mathematical value.
pub struct PModelView {
    pub vertices: Seq<RawVec3>,
    pub normals: Seq<RawVec3>,
    pub unk1: Seq<RawVec3>,
    pub tex_coords: Seq<RawVec2>,
    pub vertex_colors: Seq<BGRAColor>,
}

impl View for PModel {
    type V = PModelView;

    open spec fn view(&self) -> PModelView {
        PModelView {
            vertices: self.vertices@,
            normals: self.normals@,
            unk1: self.unk1@,
            tex_coords: self.tex_coords@,
            vertex_colors: self.vertex_colors@,
        }
    }
}

impl PModel {
    /// The model of the given arrays.
    pub fn new(
        vertices: Vec<RawVec3>,
        normals: Vec<RawVec3>,
        unk1: Vec<RawVec3>,
        tex_coords: Vec<RawVec2>,
        vertex_colors: Vec<BGRAColor>,
    ) -> (model: Self)
        ensures
            model@ == (PModelView {
                vertices: vertices@,
                normals: normals@,
                unk1: unk1@,
                tex_coords: tex_coords@,
                vertex_colors: vertex_colors@,
            }),
    {
        PModel { vertices, normals, unk1, tex_coords, vertex_colors }
    }
}

impl Default for PModel {
    fn default() -> (model: Self)
        ensures
            model@ == (PModelView {
                vertices: Seq::empty(),
                normals: Seq::empty(),
                unk1: Seq::empty(),
                tex_coords: Seq::empty(),
                vertex_colors: Seq::empty(),
            }),
    {
        PModel {
            vertices: Vec::new(),
            normals: Vec::new(),
            unk1: Vec::new(),
            tex_coords: Vec::new(),
            vertex_colors: Vec::new(),
        }
    }
}

} // verus!
