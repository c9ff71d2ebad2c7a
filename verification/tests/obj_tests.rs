use render3d::obj::{parse_obj_lines, parse_usize, split_bytes, Face, ObjError};

fn lines(text: &[&str]) -> Vec<Vec<u8>> {
    text.iter().map(|l| l.as_bytes().to_vec()).collect()
}

fn bytes(s: &str) -> Vec<u8> {
    s.as_bytes().to_vec()
}

#[test]
fn split_keeps_empty_pieces() {
    assert_eq!(split_bytes(&bytes("a b"), b' '), vec![bytes("a"), bytes("b")]);
    assert_eq!(split_bytes(&bytes(""), b' '), vec![bytes("")]);
    assert_eq!(split_bytes(&bytes(" a  b "), b' '), vec![bytes(""), bytes("a"), bytes(""), bytes("b"), bytes("")]);
    assert_eq!(split_bytes(&bytes("1//3"), b'/'), vec![bytes("1"), bytes(""), bytes("3")]);
}

#[test]
fn split_then_join_gives_the_text_back() {
    for s in ["", "f 1/2/3 4/5/6", "  ", "v 1.0 -2 3e4", "/x/"] {
        let pieces = split_bytes(&bytes(s), b' ');
        assert_eq!(pieces.join(&b' '), bytes(s));
        assert!(pieces.iter().all(|p| !p.contains(&b' ')));
    }
}

#[test]
fn parse_usize_reads_decimal_numbers() {
    assert_eq!(parse_usize(&bytes("0")), Some(0));
    assert_eq!(parse_usize(&bytes("42")), Some(42));
    assert_eq!(parse_usize(&bytes("+7")), Some(7));
    assert_eq!(parse_usize(&bytes("007")), Some(7));
    assert_eq!(parse_usize(&usize::MAX.to_string().into_bytes()), Some(usize::MAX));
}

#[test]
fn parse_usize_refuses_what_std_refuses() {
    for s in ["", "+", "-1", "++1", " 1", "1 ", "1a", "0x10", "18446744073709551616", "99999999999999999999999"] {
        assert_eq!(parse_usize(&bytes(s)), None, "{:?}", s);
        assert!(s.parse::<usize>().is_err());
    }
}

#[test]
fn parse_usize_agrees_with_std() {
    for s in ["1", "+12", "000", "123456789", "4294967296", "18446744073709551615", "+"] {
        assert_eq!(parse_usize(&bytes(s)), s.parse::<usize>().ok(), "{:?}", s);
    }
}

#[test]
fn reads_vertices_and_faces() {
    let mesh = parse_obj_lines(&lines(&[
        "# a comment",
        "v 1.0 2.0 3.0",
        "v -1 0 1 extra",
        "vt 0.5 0.5",
        "vn 0 0 1",
        "v 4 5 6",
        "f 1/1/1 2/1/1 3/1/1",
        "f 3//2 1//2 2//2",
        "",
    ]))
    .unwrap();
    assert_eq!(mesh.vertices.len(), 3);
    assert_eq!(mesh.vertices[0].x, bytes("1.0"));
    assert_eq!(mesh.vertices[1].y, bytes("0"));
    assert_eq!(mesh.vertices[1].z, bytes("1"));
    assert_eq!(mesh.vertices[2].z, bytes("6"));
    assert_eq!(mesh.faces, vec![Face { a: 0, b: 1, c: 2 }, Face { a: 2, b: 0, c: 1 }]);
}

#[test]
fn empty_file_gives_empty_mesh() {
    let mesh = parse_obj_lines(&Vec::new()).unwrap();
    assert!(mesh.vertices.is_empty() && mesh.faces.is_empty());
}

#[test]
fn faces_name_only_earlier_vertices() {
    let err = parse_obj_lines(&lines(&["f 1/1/1 1/1/1 1/1/1", "v 0 0 0"])).err();
    assert_eq!(err, Some(ObjError::VertexIndexOutOfRange(0)));
    let err = parse_obj_lines(&lines(&["v 0 0 0", "f 1/1/1 2/1/1 1/1/1"])).err();
    assert_eq!(err, Some(ObjError::VertexIndexOutOfRange(1)));
}

#[test]
fn vertex_number_zero_is_refused() {
    let err = parse_obj_lines(&lines(&["v 0 0 0", "f 0/1/1 1/1/1 1/1/1"])).err();
    assert_eq!(err, Some(ObjError::VertexIndexOutOfRange(1)));
}

#[test]
fn each_fault_is_reported_with_its_line() {
    assert_eq!(parse_obj_lines(&lines(&["v 1 2"])).err(), Some(ObjError::MissingVertexField(0)));
    assert_eq!(
        parse_obj_lines(&lines(&["v 1 2 3", "f 1/1/1 1/1/1"])).err(),
        Some(ObjError::MissingFaceCorner(1))
    );
    assert_eq!(
        parse_obj_lines(&lines(&["v 1 2 3", "", "f 1 1 1"])).err(),
        Some(ObjError::MissingCornerField(2))
    );
    assert_eq!(
        parse_obj_lines(&lines(&["v 1 2 3", "f x/1/1 1/1/1 1/1/1"])).err(),
        Some(ObjError::BadVertexIndex(1))
    );
}

#[test]
fn corner_faults_are_found_in_order() {
    // The first corner lacks fields before the missing third corner is seen.
    assert_eq!(
        parse_obj_lines(&lines(&["f 1 2/2/2"])).err(),
        Some(ObjError::MissingCornerField(0))
    );
    // A bad second vertex number comes after an out-of-range first one.
    assert_eq!(
        parse_obj_lines(&lines(&["v 1 2 3", "f 9/1/1 x/1/1 1/1/1"])).err(),
        Some(ObjError::VertexIndexOutOfRange(1))
    );
}

#[test]
fn only_exact_keywords_count() {
    let mesh = parse_obj_lines(&lines(&["vv 1 2 3", " v 1 2 3", "fx 1/1/1", "V 1 2 3"])).unwrap();
    assert!(mesh.vertices.is_empty() && mesh.faces.is_empty());
}

#[test]
fn lines_after_a_fault_are_not_read() {
    let err = parse_obj_lines(&lines(&["v 1", "v 1 2 3", "f 1/1/1 1/1/1 1/1/1"])).err();
    assert_eq!(err, Some(ObjError::MissingVertexField(0)));
}
