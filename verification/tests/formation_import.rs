use luma_swarm_studio::formation_import::{parse_obj, FormationImportError};

fn text(chars: &[char]) -> String {
    chars.iter().collect()
}

#[test]
fn reads_vertices_and_fan_triangulates_faces() {
    let obj = "# quad\nv 0 0 0\nv 1 0 0\nv 1 1 0\nv 0 1 0\nf 1 2 3 4\n";
    let structure = parse_obj(obj).unwrap();
    assert_eq!(structure.vertices.len(), 4);
    assert_eq!(structure.triangles, vec![(0, 1, 2), (0, 2, 3)]);
    assert_eq!(structure.vertices[2].line, 4);
    assert_eq!(text(&structure.vertices[2].x), "1");
    assert_eq!(text(&structure.vertices[2].y), "1");
    assert_eq!(text(&structure.vertices[2].z), "0");
}

#[test]
fn triangle_source_parses_to_one_triangle() {
    let structure = parse_obj("v 0 0 0\nv 1 0 0\nv 0 1 0\nf 1 2 3\n").unwrap();
    assert_eq!(structure.vertices.len(), 3);
    assert_eq!(structure.triangles, vec![(0, 1, 2)]);
}

#[test]
fn float_syntax_follows_the_standard_parser() {
    let structure = parse_obj("v 1e5 -inf +NaN\nv .5 1. -2.5E-3\nv Infinity 0x 0").err();
    assert_eq!(structure, Some(FormationImportError::InvalidVertex { line: 3 }));
    let accepted = parse_obj("v 1e5 -inf +NaN\nv .5 1. -2.5E-3\n").unwrap();
    assert_eq!(accepted.vertices.len(), 2);
    for coordinate in [&accepted.vertices[0].x, &accepted.vertices[0].y, &accepted.vertices[0].z, &accepted.vertices[1].x] {
        assert!(text(coordinate).parse::<f32>().is_ok());
    }
    for bad in ["v . 0 0", "v e5 0 0", "v 1e 0 0", "v 1.2.3 0 0", "v ++1 0 0", "v nanx 0 0"] {
        assert_eq!(parse_obj(bad).err(), Some(FormationImportError::InvalidVertex { line: 1 }), "{bad}");
        let field = bad.split_whitespace().nth(1).unwrap();
        assert!(field.parse::<f32>().is_err(), "{field}");
    }
}

#[test]
fn vertices_need_three_coordinates_and_ignore_extras() {
    assert_eq!(parse_obj("v 1 2\n").err(), Some(FormationImportError::InvalidVertex { line: 1 }));
    let structure = parse_obj("v 1 2 3 1.0\n").unwrap();
    assert_eq!(text(&structure.vertices[0].z), "3");
}

#[test]
fn faces_need_three_valid_in_range_references() {
    let head = "v 0 0 0\nv 1 0 0\nv 0 1 0\n";
    assert_eq!(parse_obj(&format!("{head}f 1 2\n")).err(), Some(FormationImportError::InvalidFace { line: 4 }));
    assert_eq!(parse_obj(&format!("{head}f 0 1 2\n")).err(), Some(FormationImportError::InvalidFace { line: 4 }));
    assert_eq!(parse_obj(&format!("{head}f 1 2 4\n")).err(), Some(FormationImportError::InvalidFace { line: 4 }));
    assert_eq!(parse_obj(&format!("{head}f 1 x 3\n")).err(), Some(FormationImportError::InvalidFace { line: 4 }));
    assert_eq!(parse_obj("f 1 2 3\nv 0 0 0\n").err(), Some(FormationImportError::InvalidFace { line: 1 }));
    let structure = parse_obj(&format!("{head}f 1/4/7 +2//9 3/1\n")).unwrap();
    assert_eq!(structure.triangles, vec![(0, 1, 2)]);
}

#[test]
fn sources_without_vertices_are_empty() {
    assert_eq!(parse_obj("").err(), Some(FormationImportError::Empty));
    assert_eq!(parse_obj("# nothing\n\nvn 0 0 1\n").err(), Some(FormationImportError::Empty));
}

#[test]
fn windows_line_endings_and_tabs_are_separators() {
    let structure = parse_obj("v\t0 0 0\r\nv 1 0 0\r\nv 0 1 0\r\nf 1 2 3\r\n").unwrap();
    assert_eq!(structure.vertices.len(), 3);
    assert_eq!(text(&structure.vertices[0].z), "0");
    assert_eq!(structure.triangles.len(), 1);
}

#[test]
fn point_cloud_sources_have_no_triangles() {
    let structure = parse_obj("v 0 0 0\nv 2 2 2\n").unwrap();
    assert_eq!(structure.vertices.len(), 2);
    assert!(structure.triangles.is_empty());
}
