//! Decoders for the header and the vertex arrays of a P model file.

use crate::field::{
    fixed_size, le_i32, lemma_count_done, lemma_count_layout, lemma_count_step,
    lemma_count_succeeds, lemma_skip_skip, prepend, spec_count, spec_le_i32, spec_take, take,
    DecodeError, DecodeErrorKind, Decoded,
};
use crate::p_mesh::parser::{
    bgra_color_array, lemma_vertex_arrays_layout, lemma_word_of_skip, spec_vertex_arrays,
    vec2_array, vec3_array, vertex_arrays_size, word, P_HEADER_COUNTS,
};
use crate::p_model::data::{PModel, PModelHeader, PModelView};
use crate::p_model::P_FILE_HEADER_SIZE;
use vstd::prelude::*;

verus! {

/// The decoder of one 32-bit signed integer.
pub open spec fn i32_decoder() -> spec_fn(Seq<u8>) -> Decoded<i32> {
    |i: Seq<u8>| spec_le_i32(i)
}

/// `n` 32-bit signed integers in a row.
pub open spec fn spec_i32_array(input: Seq<u8>, n: nat) -> Decoded<Seq<i32>> {
    spec_count(i32_decoder(), input, n)
}

/// The header of a P model file: the version, 4 bytes that are skipped, the
/// vertex type, 12 counts, the flags of the normal index table, and 64
/// bytes that are skipped.
pub open spec fn spec_p_model_header(input: Seq<u8>) -> Decoded<PModelHeader> {
    match spec_le_i32(input) {
        Err(e) => Err(e),
        Ok((after_version, version)) => match spec_take(after_version, 4) {
            Err(e) => Err(e),
            Ok((after_gap, _)) => match spec_le_i32(after_gap) {
                Err(e) => Err(e),
                Ok((after_type, vertex_type)) => match spec_i32_array(
                    after_type,
                    P_HEADER_COUNTS as nat,
                ) {
                    Err(e) => Err(e),
                    Ok((after_counts, counts)) => match spec_le_i32(after_counts) {
                        Err(e) => Err(e),
                        Ok((after_flags, norm_index_table_flags)) => match spec_take(
                            after_flags,
                            64,
                        ) {
                            Err(e) => Err(e),
                            Ok((rest, _)) => Ok(
                                (
                                    rest,
                                    PModelHeader {
                                        version,
                                        vertex_type,
                                        num_vertices: counts[0],
                                        num_normals: counts[1],
                                        num_unk1: counts[2],
                                        num_tex_coords: counts[3],
                                        num_vertex_colors: counts[4],
                                        num_edges: counts[5],
                                        num_polys: counts[6],
                                        num_unk2: counts[7],
                                        num_unk3: counts[8],
                                        num_hundreds: counts[9],
                                        num_groups: counts[10],
                                        num_bounding_boxes: counts[11],
                                        norm_index_table_flags,
                                    },
                                ),
                            ),
                        },
                    },
                },
            },
        },
    }
}

/// The first of the five counts of vertex arrays that is negative, as the
/// index of its 32-bit word in the header.
pub open spec fn first_negative_count(header: PModelHeader) -> Option<nat> {
    if header.num_vertices < 0 {
        Some(3)
    } else if header.num_normals < 0 {
        Some(4)
    } else if header.num_unk1 < 0 {
        Some(5)
    } else if header.num_tex_coords < 0 {
        Some(6)
    } else if header.num_vertex_colors < 0 {
        Some(7)
    } else {
        None
    }
}

/// A P model file: the header, then the vertex arrays that it counts. A
/// header that counts a negative number of vertices, normals, unknown
/// vectors, texture coordinates or vertex colors is refused at that count.
/// What follows the arrays is not looked at.
pub open spec fn spec_parse_p_model(input: Seq<u8>) -> Result<PModelView, DecodeError> {
    match spec_p_model_header(input) {
        Err(e) => Err(e),
        Ok((after_header, header)) => match first_negative_count(header) {
            Some(k) => Err(
                DecodeError {
                    kind: DecodeErrorKind::Negative,
                    remaining: (input.len() - 4 * k) as usize,
                },
            ),
            None => match spec_vertex_arrays(
                after_header,
                header.num_vertices as nat,
                header.num_normals as nat,
                header.num_unk1 as nat,
                header.num_tex_coords as nat,
                header.num_vertex_colors as nat,
            ) {
                Err(e) => Err(e),
                Ok((_, arrays)) => Ok(
                    PModelView {
                        vertices: arrays.vertices,
                        normals: arrays.normals,
                        unk1: arrays.unk1,
                        tex_coords: arrays.tex_coords,
                        vertex_colors: arrays.vertex_colors,
                    },
                ),
            },
        },
    }
}

/// 32-bit integers have 4 bytes each.
pub proof fn lemma_i32_decoder_fixed_size()
    ensures
        fixed_size(i32_decoder(), 4),
{
    assert forall|x: Seq<u8>| #![trigger i32_decoder()(x)]
        match i32_decoder()(x) {
            Ok((rest, _)) => 4 <= x.len() && rest == x.skip(4),
            Err(e) => e.remaining <= x.len(),
        } by {}
}

/// `n` 32-bit integers lie in the first `4 * n` bytes of their input, and
/// are decoded exactly when those bytes are there.
pub proof fn lemma_i32_array_layout(input: Seq<u8>, n: nat)
    ensures
        match spec_i32_array(input, n) {
            Ok((rest, items)) => {
                &&& 4 * n <= input.len()
                &&& rest == input.skip(4 * n as int)
                &&& items.len() == n
                &&& forall|i: int| 0 <= i < n ==> #[trigger] items[i] == word(input, i)
            },
            Err(e) => e.remaining <= input.len() < 4 * n,
        },
{
    lemma_i32_decoder_fixed_size();
    lemma_count_layout(i32_decoder(), 4, input, n);
    match spec_i32_array(input, n) {
        Ok((rest, items)) => {
            assert forall|i: int| 0 <= i < n implies #[trigger] items[i] == word(input, i) by {
                let item = input.skip(4 * i);
                let value = items[i];
                assert(i32_decoder()(item) == Ok::<_, DecodeError>(
                    (input.skip(4 * (i + 1)), value),
                ));
                assert(item.take(4) =~= input.subrange(4 * i, 4 * i + 4));
            }
        },
        Err(e) => {
            if 4 * n <= input.len() {
                assert forall|i: int| 0 <= i < n implies i32_decoder()(
                    #[trigger] input.skip(4 * i),
                ) is Ok by {}
                lemma_count_succeeds(i32_decoder(), 4, input, n);
            }
        },
    }
}

/// The header of a P model file lies in the first 128 bytes of its input,
/// each field a 32-bit word: word 0 the version, word 2 the vertex type,
/// words 3 to 14 the counts, word 15 the flags. It is decoded exactly when
/// those bytes are there.
pub proof fn lemma_p_model_header_layout(input: Seq<u8>)
    ensures
        match spec_p_model_header(input) {
            Ok((rest, header)) => {
                &&& P_FILE_HEADER_SIZE <= input.len()
                &&& rest == input.skip(P_FILE_HEADER_SIZE as int)
                &&& header.version == word(input, 0)
                &&& header.vertex_type == word(input, 2)
                &&& header.num_vertices == word(input, 3)
                &&& header.num_normals == word(input, 4)
                &&& header.num_unk1 == word(input, 5)
                &&& header.num_tex_coords == word(input, 6)
                &&& header.num_vertex_colors == word(input, 7)
                &&& header.num_edges == word(input, 8)
                &&& header.num_polys == word(input, 9)
                &&& header.num_unk2 == word(input, 10)
                &&& header.num_unk3 == word(input, 11)
                &&& header.num_hundreds == word(input, 12)
                &&& header.num_groups == word(input, 13)
                &&& header.num_bounding_boxes == word(input, 14)
                &&& header.norm_index_table_flags == word(input, 15)
            },
            Err(e) => e.remaining <= input.len() < P_FILE_HEADER_SIZE,
        },
{
    if 12 <= input.len() {
        assert(input.take(4) =~= input.subrange(0, 4));
        lemma_skip_skip(input, 4, 4);
        assert(input.skip(8).take(4) =~= input.subrange(8, 12));
        lemma_skip_skip(input, 8, 4);
        let after_type = input.skip(12);
        lemma_i32_array_layout(after_type, P_HEADER_COUNTS as nat);
        if let Ok((after_counts, counts)) = spec_i32_array(after_type, P_HEADER_COUNTS as nat) {
            lemma_skip_skip(input, 12, 48);
            lemma_header_words(after_type, counts, input);
            if 64 <= input.len() {
                assert(after_counts.take(4) =~= input.subrange(60, 64));
                lemma_skip_skip(input, 60, 4);
                if 128 <= input.len() {
                    lemma_skip_skip(input, 64, 64);
                }
            }
        }
    }
}

/// The 12 counts read from the input without its first 12 bytes are words 3
/// to 14 of the input.
proof fn lemma_header_words(after_type: Seq<u8>, counts: Seq<i32>, input: Seq<u8>)
    requires
        60 <= input.len(),
        after_type == input.skip(12),
        counts.len() == 12,
        forall|i: int| 0 <= i < 12 ==> #[trigger] counts[i] == word(after_type, i),
    ensures
        counts[0] == word(input, 3),
        counts[1] == word(input, 4),
        counts[2] == word(input, 5),
        counts[3] == word(input, 6),
        counts[4] == word(input, 7),
        counts[5] == word(input, 8),
        counts[6] == word(input, 9),
        counts[7] == word(input, 10),
        counts[8] == word(input, 11),
        counts[9] == word(input, 12),
        counts[10] == word(input, 13),
        counts[11] == word(input, 14),
{
    lemma_word_of_skip(input, 0);
    lemma_word_of_skip(input, 1);
    lemma_word_of_skip(input, 2);
    lemma_word_of_skip(input, 3);
    lemma_word_of_skip(input, 4);
    lemma_word_of_skip(input, 5);
    lemma_word_of_skip(input, 6);
    lemma_word_of_skip(input, 7);
    lemma_word_of_skip(input, 8);
    lemma_word_of_skip(input, 9);
    lemma_word_of_skip(input, 10);
    lemma_word_of_skip(input, 11);
}

/// A P model file is decoded exactly when its header is, none of the five
/// counts of vertex arrays is negative, and the arrays that the header
/// counts are all there behind it.
pub proof fn lemma_p_model_needs_whole_arrays(input: Seq<u8>)
    ensures
        spec_parse_p_model(input) is Ok <==> (spec_p_model_header(input) matches Ok((_, header))
            && first_negative_count(header) is None && P_FILE_HEADER_SIZE + vertex_arrays_size(
            header.num_vertices as nat,
            header.num_normals as nat,
            header.num_unk1 as nat,
            header.num_tex_coords as nat,
            header.num_vertex_colors as nat,
        ) <= input.len()),
{
    lemma_p_model_header_layout(input);
    if let Ok((after_header, header)) = spec_p_model_header(input) {
        lemma_vertex_arrays_layout(
            after_header,
            header.num_vertices as nat,
            header.num_normals as nat,
            header.num_unk1 as nat,
            header.num_tex_coords as nat,
            header.num_vertex_colors as nat,
        );
    }
}

/// Decodes the 12 counts of a header, each as it is stored.
fn p_header_words<'a>(input: &'a [u8]) -> (r: Result<
    (&'a [u8], [i32; P_HEADER_COUNTS]),
    DecodeError,
>)
    ensures
        r matches Ok(p) ==> spec_i32_array(input@, P_HEADER_COUNTS as nat) == Ok::<
            _,
            DecodeError,
        >((p.0@, p.1@)),
        r matches Err(e) ==> spec_i32_array(input@, P_HEADER_COUNTS as nat) == Err::<
            (Seq<u8>, Seq<i32>),
            _,
        >(e),
{
    let mut counts = [0i32;P_HEADER_COUNTS];
    let mut rest: &[u8] = input;
    let mut i: usize = 0;
    while i < P_HEADER_COUNTS
        invariant
            i <= P_HEADER_COUNTS,
            spec_i32_array(input@, P_HEADER_COUNTS as nat) == prepend(
                counts@.take(i as int),
                spec_i32_array(rest@, (P_HEADER_COUNTS - i) as nat),
            ),
        decreases P_HEADER_COUNTS - i,
    {
        proof {
            lemma_count_step(
                i32_decoder(),
                input@,
                P_HEADER_COUNTS as nat,
                counts@.take(i as int),
                rest@,
                (P_HEADER_COUNTS - i) as nat,
            );
        }
        let ghost head = counts@.take(i as int);
        let (next, count) = le_i32(rest)?;
        counts[i] = count;
        assert(counts@.take(i + 1) =~= head.push(count));
        rest = next;
        i = i + 1;
    }
    proof {
        assert(counts@.take(i as int) =~= counts@);
        lemma_count_done(i32_decoder(), input@, P_HEADER_COUNTS as nat, counts@, rest@);
    }
    Ok((rest, counts))
}

/// Decodes the header of a P model file.
pub fn p_model_header<'a>(input: &'a [u8]) -> (r: Result<(&'a [u8], PModelHeader), DecodeError>)
    ensures
        r matches Ok(p) ==> spec_p_model_header(input@) == Ok::<_, DecodeError>((p.0@, p.1)),
        r matches Err(e) ==> spec_p_model_header(input@) == Err::<(Seq<u8>, PModelHeader), _>(e),
{
    let (input, version) = le_i32(input)?;
    let (input, _) = take(input, 4)?;
    let (input, vertex_type) = le_i32(input)?;
    let (input, counts) = p_header_words(input)?;
    let (input, norm_index_table_flags) = le_i32(input)?;
    let (input, _) = take(input, 64)?;
    Ok(
        (
            input,
            PModelHeader {
                version,
                vertex_type,
                num_vertices: counts[0],
                num_normals: counts[1],
                num_unk1: counts[2],
                num_tex_coords: counts[3],
                num_vertex_colors: counts[4],
                num_edges: counts[5],
                num_polys: counts[6],
                num_unk2: counts[7],
                num_unk3: counts[8],
                num_hundreds: counts[9],
                num_groups: counts[10],
                num_bounding_boxes: counts[11],
                norm_index_table_flags,
            },
        ),
    )
}

/// The first of the five counts of vertex arrays that is negative.
fn negative_count(header: &PModelHeader) -> (r: Option<usize>)
    ensures
        r matches Some(k) ==> first_negative_count(*header) == Some(k as nat),
        r is None ==> first_negative_count(*header) is None,
{
    if header.num_vertices < 0 {
        Some(3)
    } else if header.num_normals < 0 {
        Some(4)
    } else if header.num_unk1 < 0 {
        Some(5)
    } else if header.num_tex_coords < 0 {
        Some(6)
    } else if header.num_vertex_colors < 0 {
        Some(7)
    } else {
        None
    }
}

/// Bytes of the vertex arrays that a header counts; none where it counts a
/// negative number of items.
pub fn p_model_byte_size(p_file_header: &PModelHeader) -> (size: Option<u64>)
    ensures
        match size {
            Some(bytes) => first_negative_count(*p_file_header) is None && bytes
                == vertex_arrays_size(
                p_file_header.num_vertices as nat,
                p_file_header.num_normals as nat,
                p_file_header.num_unk1 as nat,
                p_file_header.num_tex_coords as nat,
                p_file_header.num_vertex_colors as nat,
            ),
            None => first_negative_count(*p_file_header) is Some,
        },
{
    if negative_count(p_file_header).is_some() {
        return None;
    }
    Some(
        12 * (p_file_header.num_vertices as u64 + p_file_header.num_normals as u64
            + p_file_header.num_unk1 as u64) + 8 * p_file_header.num_tex_coords as u64 + 4
            * p_file_header.num_vertex_colors as u64,
    )
}

/// Decodes a P model file: the header, then the vertex arrays.
pub fn parse_p_model(input: &[u8]) -> (r: Result<PModel, DecodeError>)
    ensures
        r matches Ok(model) ==> spec_parse_p_model(input@) == Ok::<_, DecodeError>(model@),
        r matches Err(e) ==> spec_parse_p_model(input@) == Err::<PModelView, _>(e),
{
    let total = input.len();
    proof {
        lemma_p_model_header_layout(input@);
    }
    let (input, p_file_header) = p_model_header(input)?;
    if let Some(k) = negative_count(&p_file_header) {
        return Err(DecodeError { kind: DecodeErrorKind::Negative, remaining: total - 4 * k });
    }
    let (input, vertices) = vec3_array(input, p_file_header.num_vertices as usize)?;
    let (input, normals) = vec3_array(input, p_file_header.num_normals as usize)?;
    let (input, unk1_array) = vec3_array(input, p_file_header.num_unk1 as usize)?;
    let (input, tex_coords) = vec2_array(input, p_file_header.num_tex_coords as usize)?;
    let (_, vertex_colors) = bgra_color_array(input, p_file_header.num_vertex_colors as usize)?;
    Ok(PModel::new(vertices, normals, unk1_array, tex_coords, vertex_colors))
}

} // verus!
