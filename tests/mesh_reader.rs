use raytracer::obj::{parse_obj, Corner, ObjError};

fn text(s: &str) -> Vec<u8> {
    s.as_bytes().to_vec()
}

#[test]
fn reads_records_and_deduplicates_corners() {
    let data = b"# two triangles sharing an edge\nv 0 0 0\nv 1 0 0\nv 0 1 0\nvt 0 0\nvt 1 0\nvn 0 0 1\nf 1/1/1 2/2/1 3/1/1\nf 3/1/1 2/2/1 1/1/1\n";
    let mesh = parse_obj(data).unwrap();
    assert_eq!(mesh.positions.len(), 3);
    assert_eq!(mesh.positions[1], vec![text("1"), text("0"), text("0")]);
    assert_eq!(mesh.texture_coords, vec![vec![text("0"), text("0")], vec![text("1"), text("0")]]);
    assert_eq!(mesh.normals, vec![vec![text("0"), text("0"), text("1")]]);
    assert_eq!(
        mesh.corners,
        vec![
            Corner { vertex: 0, texture: 0, normal: 0 },
            Corner { vertex: 1, texture: 1, normal: 0 },
            Corner { vertex: 2, texture: 0, normal: 0 },
        ]
    );
    assert_eq!(mesh.indices, vec![0, 1, 2, 2, 1, 0]);
}

#[test]
fn same_position_with_other_normal_is_a_new_corner() {
    let data = b"v 0 0 0\nv 1 0 0\nv 0 1 0\nvt 0 0\nvn 0 0 1\nvn 0 0 -1\nf 1/1/1 2/1/1 3/1/1\nf 1/1/2 2/1/1 3/1/2\n";
    let mesh = parse_obj(data).unwrap();
    assert_eq!(mesh.corners.len(), 5);
    assert_eq!(mesh.corners[3], Corner { vertex: 0, texture: 0, normal: 1 });
    assert_eq!(mesh.corners[4], Corner { vertex: 2, texture: 0, normal: 1 });
    assert_eq!(mesh.indices, vec![0, 1, 2, 3, 1, 4]);
}

#[test]
fn blank_lines_comments_and_extra_whitespace_are_ignored() {
    let data = b"\n# comment\no object\r\n  v\t0.5  -1.25 3e2 1.0 \r\n\nvt 0.25 0.75 0\nvn 0 1 0\ns off\nf 1/1/1 1/1/1 1/1/1\r\n";
    let mesh = parse_obj(data).unwrap();
    assert_eq!(mesh.positions, vec![vec![text("0.5"), text("-1.25"), text("3e2")]]);
    assert_eq!(mesh.texture_coords, vec![vec![text("0.25"), text("0.75")]]);
    assert_eq!(mesh.corners, vec![Corner { vertex: 0, texture: 0, normal: 0 }]);
    assert_eq!(mesh.indices, vec![0, 0, 0]);
}

#[test]
fn empty_file_is_an_empty_mesh() {
    let mesh = parse_obj(b"").unwrap();
    assert!(mesh.positions.is_empty());
    assert!(mesh.corners.is_empty());
    assert!(mesh.indices.is_empty());
}

#[test]
fn short_vertex_line_is_refused() {
    assert_eq!(parse_obj(b"v 0 0 0\nv 1 2\n").err(), Some(ObjError::MissingCoordinate { line: 1 }));
    assert_eq!(parse_obj(b"vt 1\n").err(), Some(ObjError::MissingCoordinate { line: 0 }));
    assert_eq!(parse_obj(b"\n\nvn 1 2\n").err(), Some(ObjError::MissingCoordinate { line: 2 }));
}

#[test]
fn quad_face_is_refused() {
    let data = b"v 0 0 0\nvt 0 0\nvn 0 0 1\nf 1/1/1 1/1/1 1/1/1 1/1/1\n";
    assert_eq!(parse_obj(data).err(), Some(ObjError::NotATriangle { line: 3 }));
}

#[test]
fn malformed_face_corner_is_refused() {
    let head = "v 0 0 0\nvt 0 0\nvn 0 0 1\n";
    for corner in ["1//1", "1/1", "1", "a/1/1", "-1/1/1", "1/1/1/1", "1/1/"] {
        let data = format!("{head}f 1/1/1 {corner} 1/1/1\n");
        assert_eq!(
            parse_obj(data.as_bytes()).err(),
            Some(ObjError::BadFaceElement { line: 3 }),
            "corner {corner}"
        );
    }
}

#[test]
fn face_index_out_of_range_is_refused() {
    let head = "v 0 0 0\nvt 0 0\nvn 0 0 1\n";
    for corner in ["0/1/1", "2/1/1", "1/2/1", "1/1/2", "99999999999999999999999/1/1"] {
        let data = format!("{head}f 1/1/1 1/1/1 {corner}\n");
        assert_eq!(
            parse_obj(data.as_bytes()).err(),
            Some(ObjError::IndexOutOfRange { line: 3 }),
            "corner {corner}"
        );
    }
}

#[test]
fn face_may_only_name_records_read_before_it() {
    let data = b"vt 0 0\nvn 0 0 1\nf 1/1/1 1/1/1 1/1/1\nv 0 0 0\n";
    assert_eq!(parse_obj(data).err(), Some(ObjError::IndexOutOfRange { line: 2 }));
}

#[test]
fn first_faulty_corner_decides_the_error() {
    let data = b"v 0 0 0\nvt 0 0\nvn 0 0 1\nf 5/1/1 x 1/1/1\n";
    assert_eq!(parse_obj(data).err(), Some(ObjError::IndexOutOfRange { line: 3 }));
}
