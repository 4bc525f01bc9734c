use ff7_assets::field::{DecodeError, DecodeErrorKind};
use ff7_assets::p_model::data::{BGRAColor, PModel, PModelHeader, RawVec2, RawVec3};
use ff7_assets::p_model::parser::{p_model_byte_size, p_model_header, parse_p_model};
use ff7_assets::p_model::P_FILE_HEADER_SIZE;

fn model_header_bytes(version: i32, vertex_type: i32, counts: [i32; 12], flags: i32) -> Vec<u8> {
    let mut bytes = Vec::new();
    bytes.extend_from_slice(&version.to_le_bytes());
    bytes.extend_from_slice(&[0xee; 4]);
    bytes.extend_from_slice(&vertex_type.to_le_bytes());
    for count in counts {
        bytes.extend_from_slice(&count.to_le_bytes());
    }
    bytes.extend_from_slice(&flags.to_le_bytes());
    bytes.extend_from_slice(&[0xdd; 64]);
    bytes
}

fn model_floats(values: &[f32]) -> Vec<u8> {
    let mut bytes = Vec::new();
    for value in values {
        bytes.extend_from_slice(&value.to_le_bytes());
    }
    bytes
}

fn bits_of(x: f32, y: f32, z: f32) -> RawVec3 {
    RawVec3 { x: x.to_bits(), y: y.to_bits(), z: z.to_bits() }
}

fn model_error(kind: DecodeErrorKind, remaining: usize) -> DecodeError {
    DecodeError { kind, remaining }
}

fn small_model() -> Vec<u8> {
    let mut bytes = model_header_bytes(1, 1, [1, 2, 1, 2, 1, -1, -1, -1, -1, -1, -1, -1], 0);
    bytes.extend(model_floats(&[1.0, 2.0, 3.0]));
    bytes.extend(model_floats(&[0.0, 1.0, 0.0, 0.0, 0.0, 1.0]));
    bytes.extend(model_floats(&[9.0, 8.0, 7.0]));
    bytes.extend(model_floats(&[0.25, 0.75, 0.5, 0.5]));
    bytes.extend_from_slice(&[0x04, 0x03, 0x02, 0x01]);
    bytes
}

#[test]
fn model_header_has_128_bytes() {
    assert_eq!(P_FILE_HEADER_SIZE, 128);
}

#[test]
fn model_header_holds_its_fields_as_stored() {
    let mut input =
        model_header_bytes(3, 4, [10, -11, 12, 13, 14, 15, 16, 17, 18, 19, 20, i32::MIN], -7);
    input.extend_from_slice(b"arrays");
    let (rest, header) = p_model_header(&input).unwrap();
    assert_eq!(rest, b"arrays");
    assert_eq!(
        header,
        PModelHeader {
            version: 3,
            vertex_type: 4,
            num_vertices: 10,
            num_normals: -11,
            num_unk1: 12,
            num_tex_coords: 13,
            num_vertex_colors: 14,
            num_edges: 15,
            num_polys: 16,
            num_unk2: 17,
            num_unk3: 18,
            num_hundreds: 19,
            num_groups: 20,
            num_bounding_boxes: i32::MIN,
            norm_index_table_flags: -7,
        }
    );
}

#[test]
fn model_header_that_is_cut_short_is_refused_at_the_missing_field() {
    let input = model_header_bytes(1, 1, [3; 12], 0);
    assert_eq!(p_model_header(&input[..127]), Err(model_error(DecodeErrorKind::Eof, 63)));
    assert_eq!(p_model_header(&input[..61]), Err(model_error(DecodeErrorKind::Eof, 1)));
    assert_eq!(p_model_header(&input[..18]), Err(model_error(DecodeErrorKind::Eof, 2)));
    assert_eq!(p_model_header(&input[..5]), Err(model_error(DecodeErrorKind::Eof, 1)));
}

#[test]
fn model_holds_the_arrays_that_the_header_counts() {
    let model = parse_p_model(&small_model()).unwrap();
    assert_eq!(model.vertices, vec![bits_of(1.0, 2.0, 3.0)]);
    assert_eq!(model.normals, vec![bits_of(0.0, 1.0, 0.0), bits_of(0.0, 0.0, 1.0)]);
    assert_eq!(model.unk1, vec![bits_of(9.0, 8.0, 7.0)]);
    assert_eq!(
        model.tex_coords,
        vec![
            RawVec2 { x: 0.25f32.to_bits(), y: 0.75f32.to_bits() },
            RawVec2 { x: 0.5f32.to_bits(), y: 0.5f32.to_bits() },
        ]
    );
    assert_eq!(model.vertex_colors, vec![BGRAColor { b: 1, g: 2, r: 3, a: 4 }]);
}

#[test]
fn model_ignores_what_follows_the_arrays() {
    let mut input = small_model();
    input.extend_from_slice(b"and more");
    let model = parse_p_model(&input).unwrap();
    assert_eq!(model.vertex_colors.len(), 1);
}

#[test]
fn model_that_is_cut_short_is_refused() {
    let input = small_model();
    let size = input.len();
    assert_eq!(size, 128 + 12 + 24 + 12 + 16 + 4);
    assert_eq!(
        parse_p_model(&input[..size - 2]).err(),
        Some(model_error(DecodeErrorKind::Eof, 2))
    );
    assert_eq!(
        parse_p_model(&input[..128 + 12 + 5]).err(),
        Some(model_error(DecodeErrorKind::Eof, 1))
    );
    assert_eq!(parse_p_model(&input[..50]).err(), Some(model_error(DecodeErrorKind::Eof, 2)));
}

#[test]
fn model_with_a_negative_array_count_is_refused_at_that_count() {
    for field in 0..5 {
        let mut input = small_model();
        let at = 12 + 4 * field;
        input[at..at + 4].copy_from_slice(&(-1i32).to_le_bytes());
        let size = input.len();
        assert_eq!(
            parse_p_model(&input).err(),
            Some(model_error(DecodeErrorKind::Negative, size - at))
        );
    }
    let mut input = small_model();
    input[16..20].copy_from_slice(&i32::MIN.to_le_bytes());
    input[24..28].copy_from_slice(&(-3i32).to_le_bytes());
    let size = input.len();
    assert_eq!(
        parse_p_model(&input).err(),
        Some(model_error(DecodeErrorKind::Negative, size - 16))
    );
}

#[test]
fn model_with_a_negative_count_is_refused_before_its_arrays_are_read() {
    let mut input = small_model();
    input[28..32].copy_from_slice(&(-1i32).to_le_bytes());
    input.truncate(130);
    assert_eq!(parse_p_model(&input).err(), Some(model_error(DecodeErrorKind::Negative, 102)));
}

#[test]
fn model_by_default_is_empty() {
    let model = PModel::default();
    assert!(model.vertices.is_empty());
    assert!(model.normals.is_empty());
    assert!(model.unk1.is_empty());
    assert!(model.tex_coords.is_empty());
    assert!(model.vertex_colors.is_empty());
}

#[test]
fn model_is_made_of_its_arrays() {
    let model = PModel::new(
        vec![bits_of(1.0, 2.0, 3.0)],
        vec![],
        vec![],
        vec![RawVec2 { x: 1, y: 2 }],
        vec![BGRAColor::from(0x0102_0304)],
    );
    assert_eq!(model.vertices, vec![bits_of(1.0, 2.0, 3.0)]);
    assert_eq!(model.tex_coords.len(), 1);
    assert_eq!(model.vertex_colors, vec![BGRAColor { b: 1, g: 2, r: 3, a: 4 }]);
}

#[test]
fn model_byte_size_counts_twelve_eight_and_four_bytes_per_item() {
    let (_, header) = p_model_header(&small_model()).unwrap();
    assert_eq!(p_model_byte_size(&header), Some(small_model().len() as u64 - 128));
    let input = model_header_bytes(1, 1, [i32::MAX; 12], 0);
    let (_, header) = p_model_header(&input).unwrap();
    assert_eq!(p_model_byte_size(&header), Some(48 * 2_147_483_647));
}

#[test]
fn model_byte_size_of_a_negative_count_is_none() {
    let input = model_header_bytes(1, 1, [1, 1, 1, 1, -1, 0, 0, 0, 0, 0, 0, 0], 0);
    let (_, header) = p_model_header(&input).unwrap();
    assert_eq!(p_model_byte_size(&header), None);
    let input = model_header_bytes(1, 1, [1, 1, 1, 1, 1, -1, -1, -1, -1, -1, -1, -1], 0);
    let (_, header) = p_model_header(&input).unwrap();
    assert_eq!(p_model_byte_size(&header), Some(48));
}
