use scop::obj::{
    fan_triangulation, get_index, parse_obj, parse_scalar, ErrorType, FaceInfo, FaceInfoRaw,
    Model, Warning, WarningKind,
};
use scop::scalar::Scalar;

fn lines(src: &[&str]) -> Vec<String> {
    src.iter().map(|s| s.to_string()).collect()
}

fn parse_ok(src: &[&str]) -> (Model, Vec<Warning>) {
    parse_obj(&lines(src)).expect("expected a successful parse")
}

fn parse_err(src: &[&str]) -> scop::obj::ParseError {
    parse_obj(&lines(src)).expect_err("expected a parse failure")
}

fn fi(vertex: u32) -> FaceInfo {
    FaceInfo { vertex, texture: None, normal: None }
}

// the `v` directive accepts exactly 3, 4 or 6 numeric fields

#[test]
fn v_line_three_fields_parses() {
    let (m, warns) = parse_ok(&["v 1 2 3", "v 4 5 6", "v 7 8 9", "f 1 2 3"]);
    assert_eq!(m.vertices.len(), 3);
    assert!(warns.is_empty());
}

#[test]
fn v_line_four_fields_parses_with_warning() {
    let (_m, warns) = parse_ok(&["v 1 2 3 9", "v 4 5 6", "v 7 8 9", "f 1 2 3"]);
    assert_eq!(warns.len(), 1);
    assert_eq!(warns[0].line_no, 0);
    assert!(matches!(warns[0].kind, WarningKind::WComponentIgnored));
}

#[test]
fn v_line_six_fields_parses_with_color() {
    let (m, _w) = parse_ok(&[
        "v 0 0 0 0.5 0.25 1",
        "v 1 0 0 0 0 0",
        "v 0 1 0 0 0 0",
        "f 1 2 3",
    ]);
    assert_eq!(m.vertices[0].color.x.raw, 5000);
    assert_eq!(m.vertices[0].color.y.raw, 2500);
    assert_eq!(m.vertices[0].color.z.raw, 10000);
}

#[test]
fn v_line_wrong_field_count_fails() {
    for src in [&["v 1 2"][..], &["v 1 2 3 4 5"][..], &["v 1 2 3 4 5 6 7"][..]] {
        let e = parse_err(src);
        assert_eq!(e.err_type, ErrorType::InvalidParameterNumber);
        assert_eq!(e.line_no, 0);
    }
}

#[test]
fn v_line_unparsable_field_fails_with_position() {
    let e = parse_err(&["v 1 x 3"]);
    assert_eq!(e.err_type, ErrorType::InvalidParameter(1));
    let e = parse_err(&["v nope 2 3"]);
    assert_eq!(e.err_type, ErrorType::InvalidParameter(0));
}

// index resolution: 1-based, negative-from-end, zero always invalid

#[test]
fn get_index_positive() {
    assert_eq!(get_index(5, 1), Ok(0));
    assert_eq!(get_index(5, 3), Ok(2));
    assert_eq!(get_index(5, 5), Ok(4));
    assert_eq!(get_index(5, 6), Err(ErrorType::IndexOutOfBound(6)));
}

#[test]
fn get_index_negative() {
    assert_eq!(get_index(5, -1), Ok(4));
    assert_eq!(get_index(5, -2), Ok(3));
    assert_eq!(get_index(5, -5), Ok(0));
    assert_eq!(get_index(5, -6), Err(ErrorType::IndexOutOfBound(-6)));
}

#[test]
fn get_index_zero_and_empty() {
    assert_eq!(get_index(5, 0), Err(ErrorType::IndexOutOfBound(0)));
    assert_eq!(get_index(0, 1), Err(ErrorType::IndexOutOfBound(1)));
    assert_eq!(get_index(0, -1), Err(ErrorType::IndexOutOfBound(-1)));
}

// fan triangulation

#[test]
fn fan_of_quad() {
    let quad = vec![fi(0), fi(1), fi(2), fi(3)];
    let tris = fan_triangulation(quad);
    assert_eq!(tris, vec![fi(0), fi(1), fi(2), fi(0), fi(2), fi(3)]);
}

#[test]
fn fan_of_pentagon() {
    let pent = vec![fi(0), fi(1), fi(2), fi(3), fi(4)];
    let tris = fan_triangulation(pent);
    assert_eq!(tris.len(), 9);
    for t in 0..3 {
        assert_eq!(tris[3 * t], fi(0));
    }
    assert_eq!(
        tris,
        vec![fi(0), fi(1), fi(2), fi(0), fi(2), fi(3), fi(0), fi(3), fi(4)]
    );
}

#[test]
fn fan_of_triangle_is_identity() {
    let tri = vec![fi(4), fi(7), fi(9)];
    assert_eq!(fan_triangulation(tri.clone()), tri);
}

// face token parsing

#[test]
fn face_token_forms() {
    assert_eq!(
        FaceInfoRaw::parse("1/2/3"),
        Some(FaceInfoRaw { vertex: 1, texture: Some(2), normal: Some(3) })
    );
    assert_eq!(
        FaceInfoRaw::parse("1//3"),
        Some(FaceInfoRaw { vertex: 1, texture: None, normal: Some(3) })
    );
    assert_eq!(
        FaceInfoRaw::parse("1/2"),
        Some(FaceInfoRaw { vertex: 1, texture: Some(2), normal: None })
    );
    assert_eq!(
        FaceInfoRaw::parse("-7"),
        Some(FaceInfoRaw { vertex: -7, texture: None, normal: None })
    );
    assert_eq!(
        FaceInfoRaw::parse("1/"),
        Some(FaceInfoRaw { vertex: 1, texture: None, normal: None })
    );
}

#[test]
fn face_token_malformed() {
    assert_eq!(FaceInfoRaw::parse(""), None);
    assert_eq!(FaceInfoRaw::parse("a"), None);
    assert_eq!(FaceInfoRaw::parse("1/x"), None);
    assert_eq!(FaceInfoRaw::parse("/2"), None);
    assert_eq!(FaceInfoRaw::parse("1.5"), None);
}

#[test]
fn face_shape_check() {
    let a = FaceInfoRaw { vertex: 1, texture: Some(1), normal: None };
    let b = FaceInfoRaw { vertex: 2, texture: Some(5), normal: None };
    let c = FaceInfoRaw { vertex: 2, texture: None, normal: None };
    assert!(a.same_shape(&b));
    assert!(!a.same_shape(&c));
}

#[test]
fn face_resolution() {
    let a = FaceInfoRaw { vertex: -1, texture: Some(1), normal: None };
    assert_eq!(
        a.get_indices(3, 2, 0),
        Ok(FaceInfo { vertex: 2, texture: Some(0), normal: None })
    );
    let b = FaceInfoRaw { vertex: 1, texture: Some(9), normal: None };
    assert_eq!(b.get_indices(3, 2, 0), Err(ErrorType::IndexOutOfBound(9)));
}

#[test]
fn mixed_face_shapes_fail_with_position() {
    let e = parse_err(&["v 0 0 0", "v 1 0 0", "v 0 1 0", "f 1/1 2 3"]);
    // the file has no vt table, but the shape check comes first
    assert_eq!(e.err_type, ErrorType::InvalidParameter(1));
    assert_eq!(e.line_no, 3);
}

// deduplication

#[test]
fn duplicate_triple_shares_one_vertex() {
    let (m, _w) = parse_ok(&["v 0 0 0", "v 1 0 0", "f 1 2 1"]);
    assert_eq!(m.vertices.len(), 2);
    assert_eq!(m.indices, vec![0, 1, 0]);
    assert_eq!(m.indices[0], m.indices[2]);
}

#[test]
fn dedup_across_faces() {
    let (m, _w) = parse_ok(&["v 0 0 0", "v 1 0 0", "v 0 1 0", "f 1 2 3", "f 3 2 1"]);
    assert_eq!(m.vertices.len(), 3);
    assert_eq!(m.indices, vec![0, 1, 2, 2, 1, 0]);
}

#[test]
fn distinct_attribute_triples_stay_distinct() {
    // the same position with two different texture indices is two vertices
    let (m, _w) = parse_ok(&[
        "v 0 0 0",
        "v 1 0 0",
        "v 0 1 0",
        "vt 0 0",
        "vt 1 1",
        "f 1/1 2/1 1/2",
    ]);
    assert_eq!(m.vertices.len(), 3);
    assert_eq!(m.indices, vec![0, 1, 2]);
}

// centering

#[test]
fn centering_subtracts_bounding_box_midpoint() {
    let (m, _w) = parse_ok(&["v -1 -1 -1", "v 1 1 1", "v 1 -1 -1", "f 1 2 3"]);
    // bounds [-1,-1,-1]..[1,1,1]: the midpoint is zero, positions unchanged
    assert_eq!(m.vertices[0].position.x.raw, -10000);
    assert_eq!(m.vertices[0].position.y.raw, -10000);
    assert_eq!(m.vertices[0].position.z.raw, -10000);
    assert_eq!(m.vertices[1].position.x.raw, 10000);
    assert_eq!(m.vertices[2].position.y.raw, -10000);
}

#[test]
fn centering_shifts_exactly() {
    let (m, _w) = parse_ok(&["v 1 1 1", "v 3 3 3", "v 3 1 1", "f 1 2 3"]);
    // midpoint (2,2,2) is subtracted exactly
    assert_eq!(m.vertices[0].position.x.raw, -10000);
    assert_eq!(m.vertices[1].position.x.raw, 10000);
    assert_eq!(m.vertices[2].position.x.raw, 10000);
    assert_eq!(m.vertices[2].position.y.raw, -10000);
}

// the round-trip scenario

#[test]
fn round_trip_triangle() {
    let (m, warns) = parse_ok(&["v 0 0 0", "v 1 0 0", "v 0 1 0", "f 1 2 3"]);
    assert_eq!(m.vertices.len(), 3);
    assert_eq!(m.indices, vec![0, 1, 2]);
    assert!(warns.is_empty());
    // no vt records at all: every vertex gets synthesized coordinates,
    // computed by the angle-plus-radius heuristic in fixed point
    // (midpoint (0.5, 0.5, 0); min corner (0, 0, 0))
    assert_eq!(m.vertices[0].texture_coordinates.0.raw, 15708 + 5000);
    assert_eq!(m.vertices[0].texture_coordinates.1.raw, 0);
    assert_eq!(m.vertices[1].texture_coordinates.0.raw, 15708 + 5000);
    assert_eq!(m.vertices[1].texture_coordinates.1.raw, 0);
    assert_eq!(m.vertices[2].texture_coordinates.0.raw, 15708 + 5000);
    assert_eq!(m.vertices[2].texture_coordinates.1.raw, 10000);
    // colors were absent and are zero-filled
    assert_eq!(m.vertices[0].color.x.raw, 0);
}

#[test]
fn texture_lookup_is_verbatim() {
    let (m, _w) = parse_ok(&["v 0 0 0", "v 1 0 0", "v 0 1 0", "vt 0.5 0.25", "f 1/1 2/1 3/1"]);
    for v in &m.vertices {
        assert_eq!(v.texture_coordinates.0.raw, 5000);
        assert_eq!(v.texture_coordinates.1.raw, 2500);
    }
}

#[test]
fn missing_texture_with_table_present_falls_back_to_zero() {
    let (m, _w) = parse_ok(&["v 0 0 0", "v 1 0 0", "v 0 1 0", "vt 0.5 0.25", "f 1 2 3"]);
    for v in &m.vertices {
        assert_eq!(v.texture_coordinates.0.raw, 0);
        assert_eq!(v.texture_coordinates.1.raw, 0);
    }
}

// negative indices resolve from the end

#[test]
fn negative_indices_match_positive() {
    let base = ["v 0 0 0", "v 1 0 0", "v 0 1 0"];
    let mut neg = base.to_vec();
    neg.push("f -1 -2 -3");
    let mut pos = base.to_vec();
    pos.push("f 3 2 1");
    let (mn, _) = parse_ok(&neg);
    let (mp, _) = parse_ok(&pos);
    assert_eq!(mn, mp);
}

// malformed faces

#[test]
fn face_with_two_corners_fails() {
    let e = parse_err(&["v 0 0 0", "v 1 0 0", "v 0 1 0", "f 1 2"]);
    assert_eq!(e.err_type, ErrorType::InvalidParameterNumber);
    assert_eq!(e.line_no, 3);
    assert_eq!(e.line.as_deref(), Some("f 1 2"));
}

#[test]
fn face_index_out_of_bound() {
    let e = parse_err(&["v 0 0 0", "v 1 0 0", "v 0 1 0", "f 1 2 99"]);
    assert_eq!(e.err_type, ErrorType::IndexOutOfBound(99));
    assert_eq!(e.line_no, 3);
}

#[test]
fn face_zero_index_out_of_bound() {
    let e = parse_err(&["v 0 0 0", "v 1 0 0", "v 0 1 0", "f 1 2 0"]);
    assert_eq!(e.err_type, ErrorType::IndexOutOfBound(0));
}

// directives, comments and dispatch errors

#[test]
fn comments_and_blank_lines_are_skipped() {
    let (m, _w) = parse_ok(&["# header", "", "v 0 0 0", "v 1 0 0", "v 0 1 0", "", "f 1 2 3"]);
    assert_eq!(m.vertices.len(), 3);
}

#[test]
fn line_without_separator_is_invalid() {
    let e = parse_err(&["v"]);
    assert_eq!(e.err_type, ErrorType::InvalidLine);
}

#[test]
fn unknown_directive_is_invalid_entry() {
    let e = parse_err(&["frob 1 2 3"]);
    assert_eq!(e.err_type, ErrorType::InvalidEntry("frob".to_string()));
}

#[test]
fn unsupported_geometry_directives_fail() {
    for (src, kw) in [
        ("p 1", "p"),
        ("l 1 2", "l"),
        ("curv 0 1 2", "curv"),
        ("curv2D 1", "curv2D"),
        ("surf 1", "surf"),
        ("mg 1", "mg"),
        ("parm u 1", "parm"),
        ("trim 1", "trim"),
        ("hole 1", "hole"),
        ("scrv 1", "scrv"),
        ("sp 1", "sp"),
        ("end 1", "end"),
        ("con 1", "con"),
    ] {
        let e = parse_err(&[src]);
        assert_eq!(e.err_type, ErrorType::Unsupported(kw.to_string()));
    }
}

#[test]
fn not_implemented_directives_warn_and_continue() {
    let (m, warns) = parse_ok(&[
        "g group",
        "o object",
        "mtllib file.mtl",
        "usemtl mat",
        "v 0 0 0",
        "v 1 0 0",
        "v 0 1 0",
        "f 1 2 3",
    ]);
    assert_eq!(m.vertices.len(), 3);
    assert_eq!(warns.len(), 4);
    assert_eq!(warns[0].kind, WarningKind::NotImplemented("g".to_string()));
    assert_eq!(warns[2].line_no, 2);
    assert_eq!(
        warns[2].kind,
        WarningKind::NotImplemented("mtllib".to_string())
    );
}

#[test]
fn smoothing_off_is_accepted() {
    let (m, warns) = parse_ok(&["v 0 0 0", "v 1 0 0", "v 0 1 0", "s off", "f 1 2 3"]);
    assert_eq!(m.vertices.len(), 3);
    assert!(warns.is_empty());
}

#[test]
fn smoothing_on_is_unsupported() {
    let e = parse_err(&["s on"]);
    assert_eq!(e.err_type, ErrorType::Unsupported("s on".to_string()));
}

#[test]
fn smoothing_other_value_is_invalid_entry() {
    let e = parse_err(&["s wobble"]);
    assert_eq!(e.err_type, ErrorType::InvalidEntry("s wobble".to_string()));
}

#[test]
fn smoothing_wrong_arity_fails() {
    let e = parse_err(&["s off on"]);
    assert_eq!(e.err_type, ErrorType::InvalidParameterNumber);
}

#[test]
fn vt_wrong_field_count_fails() {
    let e = parse_err(&["vt 0.5"]);
    assert_eq!(e.err_type, ErrorType::InvalidParameterNumber);
    let e = parse_err(&["vt 0.5 0.5 0.5"]);
    assert_eq!(e.err_type, ErrorType::InvalidParameterNumber);
}

#[test]
fn vn_lines_parse_and_are_kept_out_of_the_output() {
    let (m, _w) = parse_ok(&["vn 0 1 0", "v 0 0 0", "v 1 0 0", "v 0 1 0", "f 1 2 3"]);
    assert_eq!(m.vertices.len(), 3);
    let e = parse_err(&["vn 1 2"]);
    assert_eq!(e.err_type, ErrorType::InvalidParameterNumber);
}

#[test]
fn indices_come_in_triangles() {
    let (m, _w) = parse_ok(&[
        "v 0 0 0",
        "v 1 0 0",
        "v 1 1 0",
        "v 0 1 0",
        "v 0 2 0",
        "f 1 2 3 4 5",
    ]);
    assert_eq!(m.indices.len() % 3, 0);
    assert_eq!(m.indices.len(), 9);
    for &i in m.indices.iter() {
        assert!((i as usize) < m.vertices.len());
    }
}

#[test]
fn parse_fails_fast_on_first_error() {
    let e = parse_err(&["v 0 0 0", "bad line", "v 1 0 0"]);
    assert_eq!(e.line_no, 1);
    assert_eq!(e.err_type, ErrorType::InvalidEntry("bad".to_string()));
}

// the numeric field grammar

#[test]
fn scalar_grammar() {
    assert_eq!(parse_scalar("1.25"), Some(Scalar::from_raw(12500)));
    assert_eq!(parse_scalar("-0.5"), Some(Scalar::from_raw(-5000)));
    assert_eq!(parse_scalar("+2"), Some(Scalar::from_raw(20000)));
    assert_eq!(parse_scalar("1."), Some(Scalar::from_raw(10000)));
    assert_eq!(parse_scalar(".5"), Some(Scalar::from_raw(5000)));
    assert_eq!(parse_scalar("0.00009"), Some(Scalar::from_raw(0)));
    assert_eq!(parse_scalar("3.14159"), Some(Scalar::from_raw(31415)));
    assert_eq!(parse_scalar("100000"), Some(Scalar::from_raw(1_000_000_000)));
}

#[test]
fn scalar_grammar_rejections() {
    assert_eq!(parse_scalar(""), None);
    assert_eq!(parse_scalar("."), None);
    assert_eq!(parse_scalar("-"), None);
    assert_eq!(parse_scalar("1.2.3"), None);
    assert_eq!(parse_scalar("1e5"), None);
    assert_eq!(parse_scalar("nan"), None);
    assert_eq!(parse_scalar("100001"), None);
    assert_eq!(parse_scalar("-100001"), None);
}

#[test]
fn config_build() {
    let args = vec!["prog".to_string(), "model.obj".to_string()];
    let conf = scop::Config::build(args).expect("two arguments are enough");
    assert_eq!(conf.path, "model.obj");
    assert!(scop::Config::build(vec!["prog".to_string()]).is_err());
}
