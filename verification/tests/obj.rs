use rust_raytracer::error::ConfigError;
use rust_raytracer::obj::{load_obj, parse_line, parse_parts, FaceIdx, Line, Number, OBJ};

fn texts(v: &[Number]) -> Vec<String> {
    v.iter().map(|n| n.as_str().to_string()).collect()
}

#[test]
fn face_idx_from_three_indices() {
    let f = FaceIdx::from(vec![4, 5, 6]);
    assert_eq!(f, FaceIdx { vert_idx: 4, uv_idx: 5, normal_idx: 6 });
}

#[test]
fn face_idx_from_short_lists() {
    assert_eq!(FaceIdx::from(vec![]), FaceIdx { vert_idx: 0, uv_idx: 0, normal_idx: 0 });
    assert_eq!(FaceIdx::from(vec![7]), FaceIdx { vert_idx: 7, uv_idx: 0, normal_idx: 0 });
    assert_eq!(FaceIdx::from(vec![7, 8]), FaceIdx { vert_idx: 7, uv_idx: 8, normal_idx: 0 });
    assert_eq!(FaceIdx::from(vec![7, 8, 9, 10]), FaceIdx { vert_idx: 7, uv_idx: 8, normal_idx: 9 });
}

#[test]
fn parse_parts_keeps_the_numbers_in_order() {
    let v = parse_parts(&["1.5", "-2", "3e4"]).unwrap();
    assert_eq!(texts(&v), vec!["1.5", "-2", "3e4"]);
}

#[test]
fn parse_parts_of_nothing_is_empty() {
    let v = parse_parts(&[]).unwrap();
    assert!(v.is_empty());
}

#[test]
fn parse_parts_refuses_a_word_that_is_no_number() {
    assert!(parse_parts(&["1.0", "abc", "2.0"]).is_none());
    assert!(parse_parts(&["1.0", "2.0", ""]).is_none());
}

#[test]
fn number_grammar_accepts() {
    for s in [
        "0", "12", "+12", "-12", "1.", ".5", "1.5", "-0.25", "1e5", "1E5", "1e+5", "1.5e-10",
        "+.5e3", "inf", "-inf", "+Infinity", "INFINITY", "nan", "NaN", "007",
    ] {
        assert!(Number::parse(s).is_some(), "{:?} is a number", s);
        assert!(s.parse::<f64>().is_ok(), "{:?} converts", s);
    }
}

#[test]
fn number_grammar_refuses() {
    for s in [
        "", "+", "-", ".", "+.", "e5", "1e", "1e+", "1.2.3", "1..2", "1 ", " 1", "1,5", "0x10",
        "1e5.0", "1e-", "--1", "+-1", "in", "infinit", "nana", "1f", "1_000", "١",
    ] {
        assert!(Number::parse(s).is_none(), "{:?} is no number", s);
        assert!(s.parse::<f64>().is_err(), "{:?} does not convert", s);
    }
}

#[test]
fn vertex_line() {
    match parse_line("v 1.0 -2.5 3e2").unwrap() {
        Line::Vertex(x, y, z) => {
            assert_eq!(x.as_str(), "1.0");
            assert_eq!(y.as_str(), "-2.5");
            assert_eq!(z.as_str(), "3e2");
        }
        _ => panic!("not a vertex"),
    }
}

#[test]
fn vertex_line_drops_a_fourth_number() {
    match parse_line("  v\t1 2 3 1.0  ").unwrap() {
        Line::Vertex(x, y, z) => {
            assert_eq!((x.as_str(), y.as_str(), z.as_str()), ("1", "2", "3"));
        }
        _ => panic!("not a vertex"),
    }
}

#[test]
fn vertex_line_with_too_few_numbers_is_malformed() {
    assert!(parse_line("v 1 2").is_none());
    assert!(parse_line("v").is_none());
    assert!(parse_line("vn 1 2").is_none());
    assert!(parse_line("vt 1").is_none());
}

#[test]
fn vertex_line_with_a_bad_number_is_malformed() {
    assert!(parse_line("v 1 2 x").is_none());
    assert!(parse_line("v 1 2 3 x").is_none());
    assert!(parse_line("vt 0.5 0,5").is_none());
}

#[test]
fn texture_and_normal_lines() {
    match parse_line("vt 0.25 0.75").unwrap() {
        Line::TexCoord(u, v) => assert_eq!((u.as_str(), v.as_str()), ("0.25", "0.75")),
        _ => panic!("not a texture coordinate"),
    }
    match parse_line("vn 0 1 0").unwrap() {
        Line::Normal(x, y, z) => assert_eq!((x.as_str(), y.as_str(), z.as_str()), ("0", "1", "0")),
        _ => panic!("not a normal"),
    }
}

#[test]
fn face_line_with_all_indices() {
    match parse_line("f 1/2/3 4/5/6 7/8/9").unwrap() {
        Line::Face(f) => assert_eq!(
            f.verts,
            vec![
                FaceIdx { vert_idx: 1, uv_idx: 2, normal_idx: 3 },
                FaceIdx { vert_idx: 4, uv_idx: 5, normal_idx: 6 },
                FaceIdx { vert_idx: 7, uv_idx: 8, normal_idx: 9 },
            ]
        ),
        _ => panic!("not a face"),
    }
}

#[test]
fn face_line_with_indices_left_out() {
    match parse_line("f 1 2//3 4/5 x/+6/-7").unwrap() {
        Line::Face(f) => assert_eq!(
            f.verts,
            vec![
                FaceIdx { vert_idx: 1, uv_idx: 0, normal_idx: 0 },
                FaceIdx { vert_idx: 2, uv_idx: 0, normal_idx: 3 },
                FaceIdx { vert_idx: 4, uv_idx: 5, normal_idx: 0 },
                FaceIdx { vert_idx: 0, uv_idx: 6, normal_idx: 0 },
            ]
        ),
        _ => panic!("not a face"),
    }
}

#[test]
fn face_index_too_large_counts_as_zero() {
    match parse_line("f 99999999999999999999999999/1 18446744073709551616").unwrap() {
        Line::Face(f) => assert_eq!(
            f.verts,
            vec![
                FaceIdx { vert_idx: 0, uv_idx: 1, normal_idx: 0 },
                FaceIdx { vert_idx: 0, uv_idx: 0, normal_idx: 0 },
            ]
        ),
        _ => panic!("not a face"),
    }
}

#[test]
fn face_line_without_corners() {
    match parse_line("f").unwrap() {
        Line::Face(f) => assert!(f.verts.is_empty()),
        _ => panic!("not a face"),
    }
}

#[test]
fn other_lines_are_passed_over() {
    for s in ["", "   ", "# a comment", "o cube", "g side", "s off", "usemtl red", "vp 1 2", "V 1 2 3", "vx"] {
        assert!(matches!(parse_line(s), Some(Line::Other)), "{:?}", s);
    }
}

#[test]
fn load_obj_collects_in_file_order() {
    let obj = load_obj(&[
        "# one triangle",
        "v 0 0 0",
        "v 1 0 0",
        "vt 0 0",
        "v 0 1 0",
        "vn 0 0 1",
        "",
        "f 1/1/1 2/1/1 3/1/1",
    ])
    .ok()
    .unwrap();
    assert_eq!(obj.vers.len(), 3);
    assert_eq!(obj.uvs.len(), 1);
    assert_eq!(obj.normals.len(), 1);
    assert_eq!(obj.faces.len(), 1);
    assert_eq!(obj.vers[1].0.as_str(), "1");
    assert_eq!(obj.vers[2].1.as_str(), "1");
    assert_eq!(obj.normals[0].2.as_str(), "1");
    assert_eq!(obj.faces[0].verts[2], FaceIdx { vert_idx: 3, uv_idx: 1, normal_idx: 1 });
}

#[test]
fn a_mesh_grows_line_by_line() {
    let mut obj = OBJ::new();
    assert!(obj.vers.is_empty() && obj.faces.is_empty() && obj.uvs.is_empty() && obj.normals.is_empty());
    obj.add(parse_line("vt 0.5 1").unwrap());
    obj.add(parse_line("# nothing").unwrap());
    obj.add(parse_line("v 1 2 3").unwrap());
    obj.add(parse_line("f 1 1 1").unwrap());
    obj.add(parse_line("vn 0 0 -1").unwrap());
    obj.add(parse_line("v 4 5 6").unwrap());
    assert_eq!((obj.vers.len(), obj.faces.len(), obj.uvs.len(), obj.normals.len()), (2, 1, 1, 1));
    assert_eq!(obj.vers[1].2.as_str(), "6");
    assert_eq!(obj.uvs[0].0.as_str(), "0.5");
    assert_eq!(obj.normals[0].2.as_str(), "-1");
    assert_eq!(obj.faces[0].verts.len(), 3);
}

#[test]
fn load_obj_of_no_lines_is_empty() {
    let obj = load_obj(&[]).ok().unwrap();
    assert!(obj.vers.is_empty() && obj.faces.is_empty() && obj.uvs.is_empty() && obj.normals.is_empty());
}

#[test]
fn load_obj_names_the_first_malformed_line() {
    let r = load_obj(&["v 0 0 0", "# fine", "v 1 0", "v x y z"]);
    assert_eq!(r.err(), Some(ConfigError::MalformedLine(2)));
}
