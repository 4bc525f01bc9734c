//! Decoders for the header and the vertex arrays of a P mesh file.

use crate::field::{
    fixed_size, le_i32, le_i32_to_usize, le_i32_value, le_u32, le_u32_value, lemma_count_done,
    lemma_count_layout, lemma_count_step, lemma_count_succeeds, lemma_skip_skip, prepend,
    spec_count, spec_le_i32, spec_le_i32_to_usize, spec_le_u32, spec_take, take, DecodeError,
    Decoded,
};
use crate::p_mesh::P_FILE_HEADER_SIZE;
use crate::p_mesh::data::{
    lemma_unpack_bgra, unpack_bgra, BGRAColor, PMesh, PMeshHeader, PMeshView, RawVec2, RawVec3,
};
use vstd::prelude::*;

verus! {

/// Number of counts in the header of a P file.
pub const P_HEADER_COUNTS: usize = 12;

/// The decoder of one count of the header.
pub open spec fn count_decoder() -> spec_fn(Seq<u8>) -> Decoded<usize> {
    |i: Seq<u8>| spec_le_i32_to_usize(i)
}

/// `n` counts in a row.
pub open spec fn spec_counts(input: Seq<u8>, n: nat) -> Decoded<Seq<usize>> {
    spec_count(count_decoder(), input, n)
}

/// The header of a P mesh file: the version, 4 bytes that are skipped, the
/// vertex type, 12 counts, the flags of the normal index table, and 64
/// bytes that are skipped.
pub open spec fn spec_p_mesh_header(input: Seq<u8>) -> Decoded<PMeshHeader> {
    match spec_le_i32(input) {
        Err(e) => Err(e),
        Ok((after_version, version)) => match spec_take(after_version, 4) {
            Err(e) => Err(e),
            Ok((after_gap, _)) => match spec_le_i32(after_gap) {
                Err(e) => Err(e),
                Ok((after_type, vertex_type)) => match spec_counts(
                    after_type,
                    P_HEADER_COUNTS as nat,
                ) {
                    Err(e) => Err(e),
                    Ok((after_counts, counts)) => match spec_le_i32(after_counts) {
                        Err(e) => Err(e),
                        Ok((after_flags, norm_index_table_flags)) => match spec_take(
                            after_flags,
                            64,
                        ) {
                            Err(e) => Err(e),
                            Ok((rest, _)) => Ok(
                                (
                                    rest,
                                    PMeshHeader {
                                        version,
                                        vertex_type,
                                        num_vertices: counts[0],
                                        num_normals: counts[1],
                                        num_unk1: counts[2],
                                        num_tex_coords: counts[3],
                                        num_vertex_colors: counts[4],
                                        num_edges: counts[5],
                                        num_polys: counts[6],
                                        num_unk2: counts[7],
                                        num_unk3: counts[8],
                                        num_hundreds: counts[9],
                                        num_groups: counts[10],
                                        num_bounding_boxes: counts[11],
                                        norm_index_table_flags,
                                    },
                                ),
                            ),
                        },
                    },
                },
            },
        },
    }
}

/// Three 32-bit words: x, y, z.
pub open spec fn spec_vec3(input: Seq<u8>) -> Decoded<RawVec3> {
    match spec_le_u32(input) {
        Err(e) => Err(e),
        Ok((after_x, x)) => match spec_le_u32(after_x) {
            Err(e) => Err(e),
            Ok((after_y, y)) => match spec_le_u32(after_y) {
                Err(e) => Err(e),
                Ok((rest, z)) => Ok((rest, RawVec3 { x, y, z })),
            },
        },
    }
}

/// Two 32-bit words: x, y.
pub open spec fn spec_vec2(input: Seq<u8>) -> Decoded<RawVec2> {
    match spec_le_u32(input) {
        Err(e) => Err(e),
        Ok((after_x, x)) => match spec_le_u32(after_x) {
            Err(e) => Err(e),
            Ok((rest, y)) => Ok((rest, RawVec2 { x, y })),
        },
    }
}

/// A color: one little-endian 32-bit word, unpacked.
pub open spec fn spec_bgra_color(input: Seq<u8>) -> Decoded<BGRAColor> {
    match spec_le_u32(input) {
        Err(e) => Err(e),
        Ok((rest, value)) => Ok((rest, unpack_bgra(value))),
    }
}

/// The decoder of one 3-vector.
pub open spec fn vec3_decoder() -> spec_fn(Seq<u8>) -> Decoded<RawVec3> {
    |i: Seq<u8>| spec_vec3(i)
}

/// The decoder of one 2-vector.
pub open spec fn vec2_decoder() -> spec_fn(Seq<u8>) -> Decoded<RawVec2> {
    |i: Seq<u8>| spec_vec2(i)
}

/// The decoder of one color.
pub open spec fn bgra_color_decoder() -> spec_fn(Seq<u8>) -> Decoded<BGRAColor> {
    |i: Seq<u8>| spec_bgra_color(i)
}

/// `n` 3-vectors in a row.
pub open spec fn spec_vec3_array(input: Seq<u8>, n: nat) -> Decoded<Seq<RawVec3>> {
    spec_count(vec3_decoder(), input, n)
}

/// `n` 2-vectors in a row.
pub open spec fn spec_vec2_array(input: Seq<u8>, n: nat) -> Decoded<Seq<RawVec2>> {
    spec_count(vec2_decoder(), input, n)
}

/// `n` colors in a row.
pub open spec fn spec_bgra_color_array(input: Seq<u8>, n: nat) -> Decoded<Seq<BGRAColor>> {
    spec_count(bgra_color_decoder(), input, n)
}

/// The vertex arrays, tightly packed, in the sizes that the counts give:
/// vertices, normals, the array of unknown vectors, texture coordinates,
/// and vertex colors.
pub open spec fn spec_vertex_arrays(
    input: Seq<u8>,
    num_vertices: nat,
    num_normals: nat,
    num_unk1: nat,
    num_tex_coords: nat,
    num_vertex_colors: nat,
) -> Decoded<PMeshView> {
    match spec_vec3_array(input, num_vertices) {
        Err(e) => Err(e),
        Ok((after_vertices, vertices)) => match spec_vec3_array(after_vertices, num_normals) {
            Err(e) => Err(e),
            Ok((after_normals, normals)) => match spec_vec3_array(after_normals, num_unk1) {
                Err(e) => Err(e),
                Ok((after_unk1, unk1)) => match spec_vec2_array(after_unk1, num_tex_coords) {
                    Err(e) => Err(e),
                    Ok((after_tex_coords, tex_coords)) => match spec_bgra_color_array(
                        after_tex_coords,
                        num_vertex_colors,
                    ) {
                        Err(e) => Err(e),
                        Ok((rest, vertex_colors)) => Ok(
                            (
                                rest,
                                PMeshView { vertices, normals, unk1, tex_coords, vertex_colors },
                            ),
                        ),
                    },
                },
            },
        },
    }
}

/// Bytes of the vertex arrays of the given sizes: 12 for a 3-vector, 8 for
/// a 2-vector, 4 for a color.
pub open spec fn vertex_arrays_size(
    num_vertices: nat,
    num_normals: nat,
    num_unk1: nat,
    num_tex_coords: nat,
    num_vertex_colors: nat,
) -> nat {
    12 * (num_vertices + num_normals + num_unk1) + 8 * num_tex_coords + 4 * num_vertex_colors
}

/// Bytes of the vertex arrays that a header counts.
pub open spec fn spec_p_mesh_byte_size(header: PMeshHeader) -> nat {
    vertex_arrays_size(
        header.num_vertices as nat,
        header.num_normals as nat,
        header.num_unk1 as nat,
        header.num_tex_coords as nat,
        header.num_vertex_colors as nat,
    )
}

/// The vertex arrays of a P mesh file with the given header.
pub open spec fn spec_p_mesh(input: Seq<u8>, header: PMeshHeader) -> Decoded<PMeshView> {
    spec_vertex_arrays(
        input,
        header.num_vertices as nat,
        header.num_normals as nat,
        header.num_unk1 as nat,
        header.num_tex_coords as nat,
        header.num_vertex_colors as nat,
    )
}

/// A P mesh file: the header, then the vertex arrays that it counts. What
/// follows the arrays is not looked at.
pub open spec fn spec_parse_p_mesh(input: Seq<u8>) -> Result<
    (PMeshHeader, PMeshView),
    DecodeError,
> {
    match spec_p_mesh_header(input) {
        Err(e) => Err(e),
        Ok((after_header, header)) => match spec_p_mesh(after_header, header) {
            Err(e) => Err(e),
            Ok((_, mesh)) => Ok((header, mesh)),
        },
    }
}

/// The 32-bit word that starts at byte `at` of the input, unsigned.
pub open spec fn u32_at(input: Seq<u8>, at: int) -> u32 {
    le_u32_value(input.subrange(at, at + 4)) as u32
}

/// The 3-vector that starts at byte `at` of the input.
pub open spec fn vec3_at(input: Seq<u8>, at: int) -> RawVec3 {
    RawVec3 { x: u32_at(input, at), y: u32_at(input, at + 4), z: u32_at(input, at + 8) }
}

/// The 2-vector that starts at byte `at` of the input.
pub open spec fn vec2_at(input: Seq<u8>, at: int) -> RawVec2 {
    RawVec2 { x: u32_at(input, at), y: u32_at(input, at + 4) }
}

/// The color that starts at byte `at` of the input: alpha first, then red,
/// then green, then blue.
pub open spec fn bgra_color_at(input: Seq<u8>, at: int) -> BGRAColor {
    BGRAColor { b: input[at + 3], g: input[at + 2], r: input[at + 1], a: input[at] }
}

/// A 3-vector lies in the first 12 bytes of its input.
pub proof fn lemma_vec3_layout(input: Seq<u8>)
    ensures
        match spec_vec3(input) {
            Ok((rest, v)) => 12 <= input.len() && rest == input.skip(12) && v == vec3_at(
                input,
                0,
            ),
            Err(e) => e.remaining <= input.len() < 12,
        },
{
    if 4 <= input.len() {
        assert(input.take(4) =~= input.subrange(0, 4));
        if 8 <= input.len() {
            assert(input.skip(4).take(4) =~= input.subrange(4, 8));
            lemma_skip_skip(input, 4, 4);
            if 12 <= input.len() {
                assert(input.skip(8).take(4) =~= input.subrange(8, 12));
                lemma_skip_skip(input, 8, 4);
            }
        }
    }
}

/// A 2-vector lies in the first 8 bytes of its input.
pub proof fn lemma_vec2_layout(input: Seq<u8>)
    ensures
        match spec_vec2(input) {
            Ok((rest, v)) => 8 <= input.len() && rest == input.skip(8) && v == vec2_at(input, 0),
            Err(e) => e.remaining <= input.len() < 8,
        },
{
    if 4 <= input.len() {
        assert(input.take(4) =~= input.subrange(0, 4));
        if 8 <= input.len() {
            assert(input.skip(4).take(4) =~= input.subrange(4, 8));
            lemma_skip_skip(input, 4, 4);
        }
    }
}

/// A color lies in the first 4 bytes of its input, one channel per byte.
pub proof fn lemma_bgra_color_layout(input: Seq<u8>)
    ensures
        match spec_bgra_color(input) {
            Ok((rest, color)) => 4 <= input.len() && rest == input.skip(4) && color
                == bgra_color_at(input, 0),
            Err(e) => e.remaining <= input.len() < 4,
        },
{
    if 4 <= input.len() {
        lemma_unpack_bgra(input[0], input[1], input[2], input[3]);
    }
}

/// 3-vectors have 12 bytes each, 2-vectors 8, colors 4.
pub proof fn lemma_vertex_decoders_fixed_size()
    ensures
        fixed_size(vec3_decoder(), 12),
        fixed_size(vec2_decoder(), 8),
        fixed_size(bgra_color_decoder(), 4),
{
    assert forall|x: Seq<u8>| #![trigger vec3_decoder()(x)]
        match vec3_decoder()(x) {
            Ok((rest, _)) => 12 <= x.len() && rest == x.skip(12),
            Err(e) => e.remaining <= x.len(),
        } by {
        lemma_vec3_layout(x);
    }
    assert forall|x: Seq<u8>| #![trigger vec2_decoder()(x)]
        match vec2_decoder()(x) {
            Ok((rest, _)) => 8 <= x.len() && rest == x.skip(8),
            Err(e) => e.remaining <= x.len(),
        } by {
        lemma_vec2_layout(x);
    }
    assert forall|x: Seq<u8>| #![trigger bgra_color_decoder()(x)]
        match bgra_color_decoder()(x) {
            Ok((rest, _)) => 4 <= x.len() && rest == x.skip(4),
            Err(e) => e.remaining <= x.len(),
        } by {
        lemma_bgra_color_layout(x);
    }
}

/// An array of `n` 3-vectors lies in the first `12 * n` bytes of its input,
/// and is decoded exactly when those bytes are there.
pub proof fn lemma_vec3_array_layout(input: Seq<u8>, n: nat)
    ensures
        match spec_vec3_array(input, n) {
            Ok((rest, items)) => {
                &&& 12 * n <= input.len()
                &&& rest == input.skip(12 * n as int)
                &&& items.len() == n
                &&& forall|i: int| 0 <= i < n ==> #[trigger] items[i] == vec3_at(input, 12 * i)
            },
            Err(e) => e.remaining <= input.len() < 12 * n,
        },
{
    lemma_vertex_decoders_fixed_size();
    lemma_count_layout(vec3_decoder(), 12, input, n);
    match spec_vec3_array(input, n) {
        Ok((rest, items)) => {
            assert forall|i: int| 0 <= i < n implies #[trigger] items[i] == vec3_at(
                input,
                12 * i,
            ) by {
                let item = input.skip(12 * i);
                lemma_vec3_layout(item);
                assert(item.subrange(0, 4) =~= input.subrange(12 * i, 12 * i + 4));
                assert(item.subrange(4, 8) =~= input.subrange(12 * i + 4, 12 * i + 8));
                assert(item.subrange(8, 12) =~= input.subrange(12 * i + 8, 12 * i + 12));
            }
        },
        Err(e) => {
            if 12 * n <= input.len() {
                assert forall|i: int| 0 <= i < n implies vec3_decoder()(
                    #[trigger] input.skip(12 * i),
                ) is Ok by {
                    lemma_vec3_layout(input.skip(12 * i));
                }
                lemma_count_succeeds(vec3_decoder(), 12, input, n);
            }
        },
    }
}

/// An array of `n` 2-vectors lies in the first `8 * n` bytes of its input,
/// and is decoded exactly when those bytes are there.
pub proof fn lemma_vec2_array_layout(input: Seq<u8>, n: nat)
    ensures
        match spec_vec2_array(input, n) {
            Ok((rest, items)) => {
                &&& 8 * n <= input.len()
                &&& rest == input.skip(8 * n as int)
                &&& items.len() == n
                &&& forall|i: int| 0 <= i < n ==> #[trigger] items[i] == vec2_at(input, 8 * i)
            },
            Err(e) => e.remaining <= input.len() < 8 * n,
        },
{
    lemma_vertex_decoders_fixed_size();
    lemma_count_layout(vec2_decoder(), 8, input, n);
    match spec_vec2_array(input, n) {
        Ok((rest, items)) => {
            assert forall|i: int| 0 <= i < n implies #[trigger] items[i] == vec2_at(
                input,
                8 * i,
            ) by {
                let item = input.skip(8 * i);
                lemma_vec2_layout(item);
                assert(item.subrange(0, 4) =~= input.subrange(8 * i, 8 * i + 4));
                assert(item.subrange(4, 8) =~= input.subrange(8 * i + 4, 8 * i + 8));
            }
        },
        Err(e) => {
            if 8 * n <= input.len() {
                assert forall|i: int| 0 <= i < n implies vec2_decoder()(
                    #[trigger] input.skip(8 * i),
                ) is Ok by {
                    lemma_vec2_layout(input.skip(8 * i));
                }
                lemma_count_succeeds(vec2_decoder(), 8, input, n);
            }
        },
    }
}

/// An array of `n` colors lies in the first `4 * n` bytes of its input,
/// and is decoded exactly when those bytes are there.
pub proof fn lemma_bgra_color_array_layout(input: Seq<u8>, n: nat)
    ensures
        match spec_bgra_color_array(input, n) {
            Ok((rest, items)) => {
                &&& 4 * n <= input.len()
                &&& rest == input.skip(4 * n as int)
                &&& items.len() == n
                &&& forall|i: int|
                    0 <= i < n ==> #[trigger] items[i] == bgra_color_at(input, 4 * i)
            },
            Err(e) => e.remaining <= input.len() < 4 * n,
        },
{
    lemma_vertex_decoders_fixed_size();
    lemma_count_layout(bgra_color_decoder(), 4, input, n);
    match spec_bgra_color_array(input, n) {
        Ok((rest, items)) => {
            assert forall|i: int| 0 <= i < n implies #[trigger] items[i] == bgra_color_at(
                input,
                4 * i,
            ) by {
                lemma_bgra_color_layout(input.skip(4 * i));
            }
        },
        Err(e) => {
            if 4 * n <= input.len() {
                assert forall|i: int| 0 <= i < n implies bgra_color_decoder()(
                    #[trigger] input.skip(4 * i),
                ) is Ok by {
                    lemma_bgra_color_layout(input.skip(4 * i));
                }
                lemma_count_succeeds(bgra_color_decoder(), 4, input, n);
            }
        },
    }
}

/// An array of `n` 3-vectors that starts at byte `at` of the input lies in
/// the `12 * n` bytes from there on.
pub proof fn lemma_vec3_array_at(input: Seq<u8>, at: int, n: nat)
    requires
        0 <= at <= input.len(),
    ensures
        match spec_vec3_array(input.skip(at), n) {
            Ok((rest, items)) => {
                &&& at + 12 * n <= input.len()
                &&& rest == input.skip(at + 12 * n)
                &&& items.len() == n
                &&& forall|i: int|
                    0 <= i < n ==> #[trigger] items[i] == vec3_at(input, at + 12 * i)
            },
            Err(e) => e.remaining <= input.len() - at < 12 * n,
        },
{
    let from = input.skip(at);
    lemma_vec3_array_layout(from, n);
    if let Ok((rest, items)) = spec_vec3_array(from, n) {
        lemma_skip_skip(input, at, 12 * n as int);
        assert forall|i: int| 0 <= i < n implies #[trigger] items[i] == vec3_at(
            input,
            at + 12 * i,
        ) by {
            lemma_words_of_skip(input, at, 12 * i, 12);
        }
    }
}

/// An array of `n` 2-vectors that starts at byte `at` of the input lies in
/// the `8 * n` bytes from there on.
pub proof fn lemma_vec2_array_at(input: Seq<u8>, at: int, n: nat)
    requires
        0 <= at <= input.len(),
    ensures
        match spec_vec2_array(input.skip(at), n) {
            Ok((rest, items)) => {
                &&& at + 8 * n <= input.len()
                &&& rest == input.skip(at + 8 * n)
                &&& items.len() == n
                &&& forall|i: int| 0 <= i < n ==> #[trigger] items[i] == vec2_at(input, at + 8 * i)
            },
            Err(e) => e.remaining <= input.len() - at < 8 * n,
        },
{
    let from = input.skip(at);
    lemma_vec2_array_layout(from, n);
    if let Ok((rest, items)) = spec_vec2_array(from, n) {
        lemma_skip_skip(input, at, 8 * n as int);
        assert forall|i: int| 0 <= i < n implies #[trigger] items[i] == vec2_at(
            input,
            at + 8 * i,
        ) by {
            lemma_words_of_skip(input, at, 8 * i, 8);
        }
    }
}

/// An array of `n` colors that starts at byte `at` of the input lies in the
/// `4 * n` bytes from there on.
pub proof fn lemma_bgra_color_array_at(input: Seq<u8>, at: int, n: nat)
    requires
        0 <= at <= input.len(),
    ensures
        match spec_bgra_color_array(input.skip(at), n) {
            Ok((rest, items)) => {
                &&& at + 4 * n <= input.len()
                &&& rest == input.skip(at + 4 * n)
                &&& items.len() == n
                &&& forall|i: int|
                    0 <= i < n ==> #[trigger] items[i] == bgra_color_at(input, at + 4 * i)
            },
            Err(e) => e.remaining <= input.len() - at < 4 * n,
        },
{
    let from = input.skip(at);
    lemma_bgra_color_array_layout(from, n);
    if let Ok((rest, items)) = spec_bgra_color_array(from, n) {
        lemma_skip_skip(input, at, 4 * n as int);
        assert forall|i: int| 0 <= i < n implies #[trigger] items[i] == bgra_color_at(
            input,
            at + 4 * i,
        ) by {
            assert(items[i] == bgra_color_at(from, 4 * i));
        }
    }
}

/// The vertex arrays lie, one after the other, in the first bytes of their
/// input, and are decoded exactly when the input holds as many bytes as the
/// counts ask for.
pub proof fn lemma_vertex_arrays_layout(
    input: Seq<u8>,
    num_vertices: nat,
    num_normals: nat,
    num_unk1: nat,
    num_tex_coords: nat,
    num_vertex_colors: nat,
)
    ensures
        ({
            let size = vertex_arrays_size(
                num_vertices,
                num_normals,
                num_unk1,
                num_tex_coords,
                num_vertex_colors,
            );
            let normals_at = 12 * num_vertices;
            let unk1_at = normals_at + 12 * num_normals;
            let tex_coords_at = unk1_at + 12 * num_unk1;
            let vertex_colors_at = tex_coords_at + 8 * num_tex_coords;
            match spec_vertex_arrays(
                input,
                num_vertices,
                num_normals,
                num_unk1,
                num_tex_coords,
                num_vertex_colors,
            ) {
                Ok((rest, arrays)) => {
                    &&& size <= input.len()
                    &&& rest == input.skip(size as int)
                    &&& arrays.vertices.len() == num_vertices
                    &&& arrays.normals.len() == num_normals
                    &&& arrays.unk1.len() == num_unk1
                    &&& arrays.tex_coords.len() == num_tex_coords
                    &&& arrays.vertex_colors.len() == num_vertex_colors
                    &&& forall|i: int|
                        0 <= i < num_vertices ==> #[trigger] arrays.vertices[i] == vec3_at(
                            input,
                            12 * i,
                        )
                    &&& forall|i: int|
                        0 <= i < num_normals ==> #[trigger] arrays.normals[i] == vec3_at(
                            input,
                            normals_at + 12 * i,
                        )
                    &&& forall|i: int|
                        0 <= i < num_unk1 ==> #[trigger] arrays.unk1[i] == vec3_at(
                            input,
                            unk1_at + 12 * i,
                        )
                    &&& forall|i: int|
                        0 <= i < num_tex_coords ==> #[trigger] arrays.tex_coords[i] == vec2_at(
                            input,
                            tex_coords_at + 8 * i,
                        )
                    &&& forall|i: int|
                        0 <= i < num_vertex_colors ==> #[trigger] arrays.vertex_colors[i]
                            == bgra_color_at(input, vertex_colors_at + 4 * i)
                },
                Err(e) => e.remaining <= input.len() < size,
            }
        }),
{
    let normals_at = 12 * num_vertices as int;
    let unk1_at = normals_at + 12 * num_normals;
    let tex_coords_at = unk1_at + 12 * num_unk1;
    let vertex_colors_at = tex_coords_at + 8 * num_tex_coords;
    assert(input.skip(0) =~= input);
    lemma_vec3_array_at(input, 0, num_vertices);
    match spec_vec3_array(input, num_vertices) {
        Err(_) => {},
        Ok((after_vertices, vertices)) => {
            assert(after_vertices == input.skip(normals_at));
            lemma_vec3_array_at(input, normals_at, num_normals);
            match spec_vec3_array(after_vertices, num_normals) {
                Err(_) => {},
                Ok((after_normals, normals)) => {
                    assert(after_normals == input.skip(unk1_at));
                    lemma_vec3_array_at(input, unk1_at, num_unk1);
                    match spec_vec3_array(after_normals, num_unk1) {
                        Err(_) => {},
                        Ok((after_unk1, unk1)) => {
                            assert(after_unk1 == input.skip(tex_coords_at));
                            lemma_vec2_array_at(input, tex_coords_at, num_tex_coords);
                            match spec_vec2_array(after_unk1, num_tex_coords) {
                                Err(_) => {},
                                Ok((after_tex_coords, tex_coords)) => {
                                    assert(after_tex_coords == input.skip(vertex_colors_at));
                                    lemma_bgra_color_array_at(
                                        input,
                                        vertex_colors_at,
                                        num_vertex_colors,
                                    );
                                },
                            }
                        },
                    }
                },
            }
        },
    }
}

/// A P mesh file is decoded exactly when its header is and the vertex
/// arrays that the header counts are all there behind it.
pub proof fn lemma_p_mesh_needs_whole_arrays(input: Seq<u8>)
    ensures
        spec_parse_p_mesh(input) is Ok <==> (spec_p_mesh_header(input) matches Ok((_, header))
            && P_FILE_HEADER_SIZE + spec_p_mesh_byte_size(header) <= input.len()),
{
    lemma_p_mesh_header_layout(input);
    if let Ok((after_header, header)) = spec_p_mesh_header(input) {
        lemma_vertex_arrays_layout(
            after_header,
            header.num_vertices as nat,
            header.num_normals as nat,
            header.num_unk1 as nat,
            header.num_tex_coords as nat,
            header.num_vertex_colors as nat,
        );
    }
}

/// The two or three words read `within` bytes into the input without its
/// first `skipped` bytes are the words read `skipped + within` bytes into
/// the input.
proof fn lemma_words_of_skip(input: Seq<u8>, skipped: int, within: int, size: int)
    requires
        0 <= skipped,
        0 <= within,
        size == 8 || size == 12,
        skipped + within + size <= input.len(),
    ensures
        vec2_at(input.skip(skipped), within) == vec2_at(input, skipped + within),
        size == 12 ==> vec3_at(input.skip(skipped), within) == vec3_at(input, skipped + within),
{
    let rest = input.skip(skipped);
    let at = skipped + within;
    assert(rest.subrange(within, within + 4) =~= input.subrange(at, at + 4));
    assert(rest.subrange(within + 4, within + 8) =~= input.subrange(at + 4, at + 8));
    if size == 12 {
        assert(rest.subrange(within + 8, within + 12) =~= input.subrange(at + 8, at + 12));
    }
}

/// The 32-bit word `k` of the input, as a signed integer.
pub open spec fn word(input: Seq<u8>, k: int) -> int {
    le_i32_value(input.subrange(4 * k, 4 * k + 4))
}

/// Word `i` of the input without its first 12 bytes is word `i + 3` of the
/// input.
pub proof fn lemma_word_of_skip(input: Seq<u8>, i: int)
    requires
        0 <= i,
        4 * i + 16 <= input.len(),
    ensures
        word(input.skip(12), i) == word(input, i + 3),
{
    assert(input.skip(12).subrange(4 * i, 4 * i + 4) =~= input.subrange(
        4 * (i + 3),
        4 * (i + 3) + 4,
    ));
}

/// The counts of a header have 4 bytes each.
pub proof fn lemma_count_decoder_fixed_size()
    ensures
        fixed_size(count_decoder(), 4),
{
    assert forall|x: Seq<u8>| #![trigger count_decoder()(x)]
        match count_decoder()(x) {
            Ok((rest, _)) => 4 <= x.len() && rest == x.skip(4),
            Err(e) => e.remaining <= x.len(),
        } by {}
}

/// `n` counts lie in the first `4 * n` words of their input, and are
/// decoded exactly when those words are there and none is negative.
pub proof fn lemma_counts_layout(input: Seq<u8>, n: nat)
    ensures
        match spec_counts(input, n) {
            Ok((rest, counts)) => {
                &&& 4 * n <= input.len()
                &&& rest == input.skip(4 * n as int)
                &&& counts.len() == n
                &&& forall|i: int| 0 <= i < n ==> #[trigger] counts[i] == word(input, i)
            },
            Err(e) => {
                &&& e.remaining <= input.len()
                &&& (input.len() < 4 * n || exists|i: int| 0 <= i < n && word(input, i) < 0)
            },
        },
{
    lemma_count_decoder_fixed_size();
    lemma_count_layout(count_decoder(), 4, input, n);
    match spec_counts(input, n) {
        Ok((rest, counts)) => {
            assert forall|i: int| 0 <= i < n implies #[trigger] counts[i] == word(input, i) by {
                let item = input.skip(4 * i);
                let count = counts[i];
                assert(count_decoder()(item) == Ok::<_, DecodeError>(
                    (input.skip(4 * (i + 1)), count),
                ));
                assert(item.take(4) =~= input.subrange(4 * i, 4 * i + 4));
            }
        },
        Err(e) => {
            if 4 * n <= input.len() && forall|i: int| 0 <= i < n ==> word(input, i) >= 0 {
                assert forall|i: int| 0 <= i < n implies count_decoder()(
                    #[trigger] input.skip(4 * i),
                ) is Ok by {
                    assert(input.skip(4 * i).take(4) =~= input.subrange(4 * i, 4 * i + 4));
                    assert(word(input, i) >= 0);
                }
                lemma_count_succeeds(count_decoder(), 4, input, n);
            }
        },
    }
}

/// The header of a P mesh file lies in the first 128 bytes of its input,
/// each field a 32-bit word: word 0 the version, word 2 the vertex type,
/// words 3 to 14 the counts, word 15 the flags. It is decoded exactly when
/// those bytes are there and no count is negative.
pub proof fn lemma_p_mesh_header_layout(input: Seq<u8>)
    ensures
        match spec_p_mesh_header(input) {
            Ok((rest, header)) => {
                &&& P_FILE_HEADER_SIZE <= input.len()
                &&& rest == input.skip(P_FILE_HEADER_SIZE as int)
                &&& header.version == word(input, 0)
                &&& header.vertex_type == word(input, 2)
                &&& header.num_vertices == word(input, 3)
                &&& header.num_normals == word(input, 4)
                &&& header.num_unk1 == word(input, 5)
                &&& header.num_tex_coords == word(input, 6)
                &&& header.num_vertex_colors == word(input, 7)
                &&& header.num_edges == word(input, 8)
                &&& header.num_polys == word(input, 9)
                &&& header.num_unk2 == word(input, 10)
                &&& header.num_unk3 == word(input, 11)
                &&& header.num_hundreds == word(input, 12)
                &&& header.num_groups == word(input, 13)
                &&& header.num_bounding_boxes == word(input, 14)
                &&& header.norm_index_table_flags == word(input, 15)
            },
            Err(e) => {
                &&& e.remaining <= input.len()
                &&& (input.len() < P_FILE_HEADER_SIZE || exists|k: int|
                    3 <= k < 15 && word(input, k) < 0)
            },
        },
{
    if 12 <= input.len() {
        assert(input.take(4) =~= input.subrange(0, 4));
        lemma_skip_skip(input, 4, 4);
        assert(input.skip(8).take(4) =~= input.subrange(8, 12));
        lemma_skip_skip(input, 8, 4);
        let after_type = input.skip(12);
        lemma_counts_layout(after_type, P_HEADER_COUNTS as nat);
        assert forall|i: int| 0 <= i < 12 && 60 <= input.len() implies #[trigger] word(
            after_type,
            i,
        ) == word(input, i + 3) by {
            lemma_word_of_skip(input, i);
        }
        match spec_counts(after_type, P_HEADER_COUNTS as nat) {
            Ok((after_counts, counts)) => {
                lemma_skip_skip(input, 12, 48);
                lemma_header_counts(after_type, counts, input);
                if 64 <= input.len() {
                    assert(after_counts.take(4) =~= input.subrange(60, 64));
                    lemma_skip_skip(input, 60, 4);
                    if 128 <= input.len() {
                        lemma_skip_skip(input, 64, 64);
                    }
                }
            },
            Err(e) => {
                if 60 <= input.len() {
                    let i = choose|i: int| 0 <= i < 12 && word(after_type, i) < 0;
                    assert(word(input, i + 3) < 0);
                }
            },
        }
    }
}

/// The 12 counts read from the input without its first 12 bytes are words 3
/// to 14 of the input.
proof fn lemma_header_counts(after_type: Seq<u8>, counts: Seq<usize>, input: Seq<u8>)
    requires
        60 <= input.len(),
        after_type == input.skip(12),
        counts.len() == 12,
        forall|i: int| 0 <= i < 12 ==> #[trigger] counts[i] == word(after_type, i),
    ensures
        counts[0] == word(input, 3),
        counts[1] == word(input, 4),
        counts[2] == word(input, 5),
        counts[3] == word(input, 6),
        counts[4] == word(input, 7),
        counts[5] == word(input, 8),
        counts[6] == word(input, 9),
        counts[7] == word(input, 10),
        counts[8] == word(input, 11),
        counts[9] == word(input, 12),
        counts[10] == word(input, 13),
        counts[11] == word(input, 14),
{
    lemma_word_of_skip(input, 0);
    lemma_word_of_skip(input, 1);
    lemma_word_of_skip(input, 2);
    lemma_word_of_skip(input, 3);
    lemma_word_of_skip(input, 4);
    lemma_word_of_skip(input, 5);
    lemma_word_of_skip(input, 6);
    lemma_word_of_skip(input, 7);
    lemma_word_of_skip(input, 8);
    lemma_word_of_skip(input, 9);
    lemma_word_of_skip(input, 10);
    lemma_word_of_skip(input, 11);
}

/// Decodes the 12 counts of a header.
fn p_header_counts<'a>(input: &'a [u8]) -> (r: Result<
    (&'a [u8], [usize; P_HEADER_COUNTS]),
    DecodeError,
>)
    ensures
        r matches Ok(p) ==> spec_counts(input@, P_HEADER_COUNTS as nat) == Ok::<_, DecodeError>(
            (p.0@, p.1@),
        ),
        r matches Err(e) ==> spec_counts(input@, P_HEADER_COUNTS as nat) == Err::<
            (Seq<u8>, Seq<usize>),
            _,
        >(e),
{
    let mut counts = [0usize;P_HEADER_COUNTS];
    let mut rest: &[u8] = input;
    let mut i: usize = 0;
    while i < P_HEADER_COUNTS
        invariant
            i <= P_HEADER_COUNTS,
            spec_counts(input@, P_HEADER_COUNTS as nat) == prepend(
                counts@.take(i as int),
                spec_counts(rest@, (P_HEADER_COUNTS - i) as nat),
            ),
        decreases P_HEADER_COUNTS - i,
    {
        proof {
            lemma_count_step(
                count_decoder(),
                input@,
                P_HEADER_COUNTS as nat,
                counts@.take(i as int),
                rest@,
                (P_HEADER_COUNTS - i) as nat,
            );
        }
        let ghost head = counts@.take(i as int);
        let (next, count) = le_i32_to_usize(rest)?;
        counts[i] = count;
        assert(counts@.take(i + 1) =~= head.push(count));
        rest = next;
        i = i + 1;
    }
    proof {
        assert(counts@.take(i as int) =~= counts@);
        lemma_count_done(count_decoder(), input@, P_HEADER_COUNTS as nat, counts@, rest@);
    }
    Ok((rest, counts))
}

/// Decodes the header of a P mesh file.
pub fn p_mesh_header<'a>(input: &'a [u8]) -> (r: Result<(&'a [u8], PMeshHeader), DecodeError>)
    ensures
        r matches Ok(p) ==> spec_p_mesh_header(input@) == Ok::<_, DecodeError>((p.0@, p.1)),
        r matches Err(e) ==> spec_p_mesh_header(input@) == Err::<(Seq<u8>, PMeshHeader), _>(e),
{
    let (input, version) = le_i32(input)?;
    let (input, _) = take(input, 4)?;
    let (input, vertex_type) = le_i32(input)?;
    let (input, counts) = p_header_counts(input)?;
    let (input, norm_index_table_flags) = le_i32(input)?;
    let (input, _) = take(input, 64)?;
    Ok(
        (
            input,
            PMeshHeader {
                version,
                vertex_type,
                num_vertices: counts[0],
                num_normals: counts[1],
                num_unk1: counts[2],
                num_tex_coords: counts[3],
                num_vertex_colors: counts[4],
                num_edges: counts[5],
                num_polys: counts[6],
                num_unk2: counts[7],
                num_unk3: counts[8],
                num_hundreds: counts[9],
                num_groups: counts[10],
                num_bounding_boxes: counts[11],
                norm_index_table_flags,
            },
        ),
    )
}

/// Decodes one 3-vector.
pub fn vec3<'a>(input: &'a [u8]) -> (r: Result<(&'a [u8], RawVec3), DecodeError>)
    ensures
        r matches Ok(p) ==> spec_vec3(input@) == Ok::<_, DecodeError>((p.0@, p.1)),
        r matches Err(e) ==> spec_vec3(input@) == Err::<(Seq<u8>, RawVec3), _>(e),
{
    let (input, x) = le_u32(input)?;
    let (input, y) = le_u32(input)?;
    let (input, z) = le_u32(input)?;
    Ok((input, RawVec3 { x, y, z }))
}

/// Decodes one 2-vector.
pub fn vec2<'a>(input: &'a [u8]) -> (r: Result<(&'a [u8], RawVec2), DecodeError>)
    ensures
        r matches Ok(p) ==> spec_vec2(input@) == Ok::<_, DecodeError>((p.0@, p.1)),
        r matches Err(e) ==> spec_vec2(input@) == Err::<(Seq<u8>, RawVec2), _>(e),
{
    let (input, x) = le_u32(input)?;
    let (input, y) = le_u32(input)?;
    Ok((input, RawVec2 { x, y }))
}

/// Decodes one color.
pub fn bgra_color<'a>(input: &'a [u8]) -> (r: Result<(&'a [u8], BGRAColor), DecodeError>)
    ensures
        r matches Ok(p) ==> spec_bgra_color(input@) == Ok::<_, DecodeError>((p.0@, p.1)),
        r matches Err(e) ==> spec_bgra_color(input@) == Err::<(Seq<u8>, BGRAColor), _>(e),
{
    let (input, color) = le_u32(input)?;
    Ok((input, BGRAColor::from(color)))
}

/// Decodes `n` 3-vectors.
pub fn vec3_array<'a>(input: &'a [u8], n: usize) -> (r: Result<
    (&'a [u8], Vec<RawVec3>),
    DecodeError,
>)
    ensures
        r matches Ok(p) ==> spec_vec3_array(input@, n as nat) == Ok::<_, DecodeError>(
            (p.0@, p.1@),
        ),
        r matches Err(e) ==> spec_vec3_array(input@, n as nat) == Err::<
            (Seq<u8>, Seq<RawVec3>),
            _,
        >(e),
{
    let mut items: Vec<RawVec3> = Vec::new();
    let mut rest: &[u8] = input;
    let mut i: usize = 0;
    while i < n
        invariant
            i <= n,
            spec_vec3_array(input@, n as nat) == prepend(
                items@,
                spec_vec3_array(rest@, (n - i) as nat),
            ),
        decreases n - i,
    {
        proof {
            lemma_count_step(vec3_decoder(), input@, n as nat, items@, rest@, (n - i) as nat);
        }
        let (next, item) = vec3(rest)?;
        items.push(item);
        rest = next;
        i = i + 1;
    }
    proof {
        lemma_count_done(vec3_decoder(), input@, n as nat, items@, rest@);
    }
    Ok((rest, items))
}

/// Decodes `n` 2-vectors.
pub fn vec2_array<'a>(input: &'a [u8], n: usize) -> (r: Result<
    (&'a [u8], Vec<RawVec2>),
    DecodeError,
>)
    ensures
        r matches Ok(p) ==> spec_vec2_array(input@, n as nat) == Ok::<_, DecodeError>(
            (p.0@, p.1@),
        ),
        r matches Err(e) ==> spec_vec2_array(input@, n as nat) == Err::<
            (Seq<u8>, Seq<RawVec2>),
            _,
        >(e),
{
    let mut items: Vec<RawVec2> = Vec::new();
    let mut rest: &[u8] = input;
    let mut i: usize = 0;
    while i < n
        invariant
            i <= n,
            spec_vec2_array(input@, n as nat) == prepend(
                items@,
                spec_vec2_array(rest@, (n - i) as nat),
            ),
        decreases n - i,
    {
        proof {
            lemma_count_step(vec2_decoder(), input@, n as nat, items@, rest@, (n - i) as nat);
        }
        let (next, item) = vec2(rest)?;
        items.push(item);
        rest = next;
        i = i + 1;
    }
    proof {
        lemma_count_done(vec2_decoder(), input@, n as nat, items@, rest@);
    }
    Ok((rest, items))
}

/// Decodes `n` colors.
pub fn bgra_color_array<'a>(input: &'a [u8], n: usize) -> (r: Result<
    (&'a [u8], Vec<BGRAColor>),
    DecodeError,
>)
    ensures
        r matches Ok(p) ==> spec_bgra_color_array(input@, n as nat) == Ok::<_, DecodeError>(
            (p.0@, p.1@),
        ),
        r matches Err(e) ==> spec_bgra_color_array(input@, n as nat) == Err::<
            (Seq<u8>, Seq<BGRAColor>),
            _,
        >(e),
{
    let mut items: Vec<BGRAColor> = Vec::new();
    let mut rest: &[u8] = input;
    let mut i: usize = 0;
    while i < n
        invariant
            i <= n,
            spec_bgra_color_array(input@, n as nat) == prepend(
                items@,
                spec_bgra_color_array(rest@, (n - i) as nat),
            ),
        decreases n - i,
    {
        proof {
            lemma_count_step(
                bgra_color_decoder(),
                input@,
                n as nat,
                items@,
                rest@,
                (n - i) as nat,
            );
        }
        let (next, item) = bgra_color(rest)?;
        items.push(item);
        rest = next;
        i = i + 1;
    }
    proof {
        lemma_count_done(bgra_color_decoder(), input@, n as nat, items@, rest@);
    }
    Ok((rest, items))
}

/// Bytes of the vertex arrays that a header counts, if that number fits.
pub fn p_mesh_byte_size(p_mesh_header: &PMeshHeader) -> (size: Option<u64>)
    ensures
        match size {
            Some(bytes) => bytes == spec_p_mesh_byte_size(*p_mesh_header),
            None => spec_p_mesh_byte_size(*p_mesh_header) > u64::MAX,
        },
{
    let vectors = (p_mesh_header.num_vertices as u64).checked_add(
        p_mesh_header.num_normals as u64,
    )?.checked_add(p_mesh_header.num_unk1 as u64)?;
    let vector_bytes = vectors.checked_mul(12)?;
    let tex_coord_bytes = (p_mesh_header.num_tex_coords as u64).checked_mul(8)?;
    let color_bytes = (p_mesh_header.num_vertex_colors as u64).checked_mul(4)?;
    vector_bytes.checked_add(tex_coord_bytes)?.checked_add(color_bytes)
}

/// Decodes the vertex arrays of a P mesh file with the given header.
pub fn p_mesh<'a>(input: &'a [u8], p_mesh_header: &PMeshHeader) -> (r: Result<
    (&'a [u8], PMesh),
    DecodeError,
>)
    ensures
        r matches Ok(p) ==> spec_p_mesh(input@, *p_mesh_header) == Ok::<_, DecodeError>(
            (p.0@, p.1@),
        ),
        r matches Err(e) ==> spec_p_mesh(input@, *p_mesh_header) == Err::<
            (Seq<u8>, PMeshView),
            _,
        >(e),
{
    let (input, vertices) = vec3_array(input, p_mesh_header.num_vertices)?;
    let (input, normals) = vec3_array(input, p_mesh_header.num_normals)?;
    let (input, unk1_array) = vec3_array(input, p_mesh_header.num_unk1)?;
    let (input, tex_coords) = vec2_array(input, p_mesh_header.num_tex_coords)?;
    let (input, vertex_colors) = bgra_color_array(input, p_mesh_header.num_vertex_colors)?;
    Ok((input, PMesh::new(vertices, normals, unk1_array, tex_coords, vertex_colors)))
}

/// Decodes a P mesh file: the header, then the vertex arrays.
pub fn parse_p_mesh(input: &[u8]) -> (r: Result<(PMeshHeader, PMesh), DecodeError>)
    ensures
        r matches Ok(p) ==> spec_parse_p_mesh(input@) == Ok::<_, DecodeError>((p.0, p.1@)),
        r matches Err(e) ==> spec_parse_p_mesh(input@) == Err::<(PMeshHeader, PMeshView), _>(e),
{
    let (input, p_mesh_header) = p_mesh_header(input)?;
    let (_, p_mesh) = p_mesh(input, &p_mesh_header)?;
    Ok((p_mesh_header, p_mesh))
}

} // verus!
