//! The records of a P mesh file.

use vstd::arithmetic::div_mod::lemma_fundamental_div_mod_converse;
use vstd::prelude::*;
use vstd::std_specs::convert::FromSpecImpl;

verus! {

/// The header of a P mesh file. The counts are those of the arrays that
/// the file holds; a file stores each as a 32-bit signed integer, and none
/// of them is negative.
#[derive(Debug, Clone, Copy, PartialEq, Eq)]
pub struct PMeshHeader {
    pub version: i32,
    pub vertex_type: i32,
    pub num_vertices: usize,
    pub num_normals: usize,
    pub num_unk1: usize,
    pub num_tex_coords: usize,
    pub num_vertex_colors: usize,
    pub num_edges: usize,
    pub num_polys: usize,
    pub num_unk2: usize,
    pub num_unk3: usize,
    pub num_hundreds: usize,
    pub num_groups: usize,
    pub num_bounding_boxes: usize,
    pub norm_index_table_flags: i32,
}

/// A color of four 8-bit channels.
#[derive(Debug, Clone, Copy, PartialEq, Eq, Structural)]
pub struct BGRAColor {
    pub b: u8,
    pub g: u8,
    pub r: u8,
    pub a: u8,
}

impl BGRAColor {
    /// The color of the given channels.
    pub fn new(b: u8, g: u8, r: u8, a: u8) -> (color: Self)
        ensures
            color == (BGRAColor { b, g, r, a }),
    {
        BGRAColor { b, g, r, a }
    }
}

/// The color packed in a 32-bit word: blue in the most significant byte,
/// then green, then red, and alpha in the least significant byte.
pub open spec fn unpack_bgra(value: u32) -> BGRAColor {
    BGRAColor {
        b: (value / 0x100_0000) as u8,
        g: (value / 0x1_0000 % 0x100) as u8,
        r: (value / 0x100 % 0x100) as u8,
        a: (value % 0x100) as u8,
    }
}

/// The bytes of a 32-bit word, least significant first, are its channels in
/// the order alpha, red, green, blue.
pub proof fn lemma_unpack_bgra(a: u8, r: u8, g: u8, b: u8)
    ensures
        unpack_bgra((a + 0x100 * r + 0x1_0000 * g + 0x100_0000 * b) as u32) == (BGRAColor {
            b,
            g,
            r,
            a,
        }),
{
    let value = a + 0x100 * r + 0x1_0000 * g + 0x100_0000 * b;
    lemma_fundamental_div_mod_converse(value, 0x100_0000, b as int, a + 0x100 * r + 0x1_0000 * g);
    lemma_fundamental_div_mod_converse(value, 0x1_0000, 0x100 * b + g, a + 0x100 * r);
    lemma_fundamental_div_mod_converse(0x100 * b + g, 0x100, b as int, g as int);
    lemma_fundamental_div_mod_converse(value, 0x100, 0x1_0000 * b + 0x100 * g + r, a as int);
    lemma_fundamental_div_mod_converse(
        0x1_0000 * b + 0x100 * g + r,
        0x100,
        0x100 * b + g,
        r as int,
    );
}

impl From<u32> for BGRAColor {
    fn from(value: u32) -> (color: Self) {
        assert((value >> 24) & 0xFF == value / 0x100_0000) by (bit_vector);
        assert((value >> 16) & 0xFF == value / 0x1_0000 % 0x100) by (bit_vector);
        assert((value >> 8) & 0xFF == value / 0x100 % 0x100) by (bit_vector);
        assert(value & 0xFF == value % 0x100) by (bit_vector);
        BGRAColor::new(
            ((value >> 24) & 0xFF) as u8,
            ((value >> 16) & 0xFF) as u8,
            ((value >> 8) & 0xFF) as u8,
            (value & 0xFF) as u8,
        )
    }
}

impl FromSpecImpl<u32> for BGRAColor {
    open spec fn obeys_from_spec() -> bool {
        true
    }

    open spec fn from_spec(value: u32) -> BGRAColor {
        unpack_bgra(value)
    }
}

/// Three single-precision numbers, each held as the 32 bits of its IEEE 754
/// encoding.
#[derive(Debug, Clone, Copy, PartialEq, Eq, Structural)]
pub struct RawVec3 {
    pub x: u32,
    pub y: u32,
    pub z: u32,
}

/// Two single-precision numbers, each held as the 32 bits of its IEEE 754
/// encoding.
#[derive(Debug, Clone, Copy, PartialEq, Eq, Structural)]
pub struct RawVec2 {
    pub x: u32,
    pub y: u32,
}

/// The vertex arrays of a P mesh file.
#[derive(Debug)]
pub struct PMesh {
    pub vertices: Vec<RawVec3>,
    pub normals: Vec<RawVec3>,
    pub unk1: Vec<RawVec3>,
    pub tex_coords: Vec<RawVec2>,
    pub vertex_colors: Vec<BGRAColor>,
}

/// A `PMesh` as a mathematical value.
pub struct PMeshView {
    pub vertices: Seq<RawVec3>,
    pub normals: Seq<RawVec3>,
    pub unk1: Seq<RawVec3>,
    pub tex_coords: Seq<RawVec2>,
    pub vertex_colors: Seq<BGRAColor>,
}

impl View for PMesh {
    type V = PMeshView;

    open spec fn view(&self) -> PMeshView {
        PMeshView {
            vertices: self.vertices@,
            normals: self.normals@,
            unk1: self.unk1@,
            tex_coords: self.tex_coords@,
            vertex_colors: self.vertex_colors@,
        }
    }
}

impl PMesh {
    /// The mesh of the given arrays.
    pub fn new(
        vertices: Vec<RawVec3>,
        normals: Vec<RawVec3>,
        unk1: Vec<RawVec3>,
        tex_coords: Vec<RawVec2>,
        vertex_colors: Vec<BGRAColor>,
    ) -> (mesh: Self)
        ensures
            mesh@ == (PMeshView {
                vertices: vertices@,
                normals: normals@,
                unk1: unk1@,
                tex_coords: tex_coords@,
                vertex_colors: vertex_colors@,
            }),
    {
        PMesh { vertices, normals, unk1, tex_coords, vertex_colors }
    }
}

impl Default for PMesh {
    fn default() -> (mesh: Self)
        ensures
            mesh@ == (PMeshView {
                vertices: Seq::empty(),
                normals: Seq::empty(),
                unk1: Seq::empty(),
                tex_coords: Seq::empty(),
                vertex_colors: Seq::empty(),
            }),
    {
        PMesh {
            vertices: Vec::new(),
            normals: Vec::new(),
            unk1: Vec::new(),
            tex_coords: Vec::new(),
            vertex_colors: Vec::new(),
        }
    }
}

} // verus!
