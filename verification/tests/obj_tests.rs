use innovus::obj::{parse_face_element, parse_obj, FaceIndices, ObjError, ObjKind, ObjVertex};

fn word(s: &str) -> Vec<char> {
    s.chars().collect()
}

fn text(w: &[char]) -> String {
    w.iter().collect()
}

#[test]
fn face_element_forms() {
    assert_eq!(
        parse_face_element(&word("7")),
        Ok(FaceIndices { position: 7, texture: 0, normal: 0, color: 0 })
    );
    assert_eq!(
        parse_face_element(&word("1/2/3/4")),
        Ok(FaceIndices { position: 1, texture: 2, normal: 3, color: 4 })
    );
    assert_eq!(
        parse_face_element(&word("12//30")),
        Ok(FaceIndices { position: 12, texture: 0, normal: 30, color: 0 })
    );
    assert_eq!(parse_face_element(&word("0/1")), Err(ObjError::ZeroIndex));
    assert_eq!(parse_face_element(&word("/1")), Err(ObjError::ZeroIndex));
    assert_eq!(parse_face_element(&word("1/2/3/4/5")), Err(ObjError::TooManyIndices));
    assert_eq!(parse_face_element(&word("99999999999999999999999/1")), Err(ObjError::IndexOverflow));
    // A character other than a digit or '/' ends a number without moving on.
    assert_eq!(
        parse_face_element(&word("1a2/3")),
        Ok(FaceIndices { position: 2, texture: 3, normal: 0, color: 0 })
    );
}

#[test]
fn obj_reads_statements_and_mesh() {
    let data = "# a triangle\nv 0 0 0\nv 1 0 0\nV 0 1 0\nvt 0.5 0.5 9\nvc 1 0 0\nvc 0 1 0 0.5 7\nvn 0 0 1\nf 1/1/1/1 2/1/1/2 3\n\nf 3 2 1\n";
    let parsed = parse_obj(data);
    let kinds: Vec<ObjKind> = parsed.statements.iter().map(|s| s.kind).collect();
    assert_eq!(
        kinds,
        vec![
            ObjKind::Position,
            ObjKind::Position,
            ObjKind::Position,
            ObjKind::TextureCoord,
            ObjKind::Color,
            ObjKind::Color,
            ObjKind::Normal
        ]
    );
    let args: Vec<Vec<String>> =
        parsed.statements.iter().map(|s| s.args.iter().map(|w| text(w)).collect()).collect();
    assert_eq!(args[3], vec!["0.5", "0.5"]);
    assert_eq!(args[4], vec!["1", "0", "0"]);
    assert_eq!(args[5], vec!["0", "1", "0", "0.5"]);
    let mesh = parsed.mesh.unwrap();
    assert_eq!(mesh.faces, vec![(0, 1, 2), (3, 4, 5)]);
    assert_eq!(mesh.vertices.len(), 6);
    assert_eq!(
        mesh.vertices[0],
        ObjVertex { position: 0, texture: Some(0), normal: Some(0), color: Some(0) }
    );
    assert_eq!(mesh.vertices[1], ObjVertex { position: 1, texture: Some(0), normal: Some(0), color: Some(1) });
    assert_eq!(mesh.vertices[2], ObjVertex { position: 2, texture: None, normal: None, color: None });
    assert_eq!(mesh.vertices[3], ObjVertex { position: 2, texture: None, normal: None, color: None });
}

#[test]
fn obj_missing_argument_keeps_partial_statement() {
    let parsed = parse_obj("v 1 2 3\nv 1 x\nf 1 2 3\n");
    assert_eq!(parsed.statements.len(), 2);
    assert_eq!(parsed.statements[1].args.iter().map(|w| text(w)).collect::<Vec<_>>(), vec!["1", "x"]);
    assert_eq!(parsed.mesh.err(), Some(ObjError::MissingArgument));
}

#[test]
fn obj_face_errors_in_order() {
    assert_eq!(parse_obj("v 0 0 0\nf 1 0 1\n").mesh.err(), Some(ObjError::ZeroIndex));
    assert_eq!(parse_obj("f 1 1\nf 0 0 0\n").mesh.err(), Some(ObjError::MissingArgument));
    assert_eq!(parse_obj("v 0 0 0\nf 1 1 2\n").mesh.err(), Some(ObjError::InvalidPosition(2)));
    assert_eq!(parse_obj("v 0 0 0\nf 1/1 1 1\n").mesh.err(), Some(ObjError::InvalidTexture(1)));
    assert_eq!(parse_obj("v 0 0 0\nf 1//2 1 1\n").mesh.err(), Some(ObjError::InvalidNormal(2)));
    assert_eq!(parse_obj("v 0 0 0\nf 1///3 1 1\n").mesh.err(), Some(ObjError::InvalidColor(3)));
}

#[test]
fn obj_ignores_other_lines_and_carriage_returns() {
    let parsed = parse_obj("o cube\r\nvx 1 2 3\r\nv 1 2 3\r\nf 1 1 1\r\nusemtl x");
    assert_eq!(parsed.statements.len(), 1);
    assert_eq!(parsed.mesh.unwrap().vertices.len(), 3);
    let empty = parse_obj("");
    assert!(empty.statements.is_empty());
    let mesh = empty.mesh.unwrap();
    assert!(mesh.vertices.is_empty() && mesh.faces.is_empty());
}

#[test]
fn obj_error_messages() {
    assert_eq!(ObjError::MissingArgument.message(), "missing command argument");
    assert_eq!(ObjError::TooManyIndices.message(), "4 indices allowed per face element at maximum");
    assert_eq!(ObjError::ZeroIndex.message(), "face element index cannot be 0");
    assert_eq!(ObjError::IndexOverflow.message(), "number too large to fit in target type");
    assert_eq!(ObjError::InvalidPosition(12).message(), "invalid element position index: 12");
    assert_eq!(ObjError::InvalidTexture(3).message(), "invalid element UV coordinate index: 3");
    assert_eq!(ObjError::InvalidNormal(0).message(), "invalid element normal index: 0");
    assert_eq!(ObjError::InvalidColor(105).message(), "invalid element color index: 105");
}
