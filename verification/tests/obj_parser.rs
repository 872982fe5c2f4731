use gestalt::obj_parser::parse_obj;

#[test]
fn parse_single_triangle() {
    let obj = "\
v 0.0 0.0 0.0
v 1.0 0.0 0.0
v 0.0 1.0 0.0
f 1 2 3
";
    let parsed = parse_obj(obj);
    assert_eq!(parsed.positions.len(), 3);
    assert_eq!(parsed.triangles.len(), 1);
    assert_eq!(parsed.triangles[0], [0, 1, 2]);
    assert_eq!(parsed.triangle_materials[0], 0); // default group
    assert_eq!(parsed.material_names[0], "(default)");
}

#[test]
fn parse_quad_fan_triangulation() {
    let obj = "\
v 0.0 0.0 0.0
v 1.0 0.0 0.0
v 1.0 1.0 0.0
v 0.0 1.0 0.0
f 1 2 3 4
";
    let parsed = parse_obj(obj);
    assert_eq!(parsed.triangles.len(), 2);
    assert_eq!(parsed.triangles[0], [0, 1, 2]);
    assert_eq!(parsed.triangles[1], [0, 2, 3]);
}

#[test]
fn parse_pentagon_fan_triangulation() {
    let obj = "\
v 0.0 0.0 0.0
v 1.0 0.0 0.0
v 1.0 1.0 0.0
v 0.5 1.5 0.0
v 0.0 1.0 0.0
f 1 2 3 4 5
";
    let parsed = parse_obj(obj);
    assert_eq!(parsed.triangles.len(), 3);
    assert_eq!(parsed.triangles[0], [0, 1, 2]);
    assert_eq!(parsed.triangles[1], [0, 2, 3]);
    assert_eq!(parsed.triangles[2], [0, 3, 4]);
}

#[test]
fn parse_vt_vn_format() {
    let obj = "\
v 0.0 0.0 0.0
v 1.0 0.0 0.0
v 0.0 1.0 0.0
vt 0.0 0.0
vt 1.0 0.0
vt 0.0 1.0
vn 0.0 0.0 1.0
f 1/1/1 2/2/1 3/3/1
";
    let parsed = parse_obj(obj);
    assert_eq!(parsed.triangles.len(), 1);
    assert_eq!(parsed.triangles[0], [0, 1, 2]);
}

#[test]
fn parse_usemtl_groups() {
    let obj = "\
v 0.0 0.0 0.0
v 1.0 0.0 0.0
v 0.0 1.0 0.0
v 2.0 0.0 0.0
v 2.0 1.0 0.0
v 3.0 0.0 0.0
usemtl red
f 1 2 3
usemtl blue
f 4 5 6
usemtl red
f 1 3 4
";
    let parsed = parse_obj(obj);
    assert_eq!(parsed.material_names.len(), 3); // (default), red, blue
    assert_eq!(parsed.material_names[1], "red");
    assert_eq!(parsed.material_names[2], "blue");
    assert_eq!(parsed.triangle_materials[0], 1); // red
    assert_eq!(parsed.triangle_materials[1], 2); // blue
    assert_eq!(parsed.triangle_materials[2], 1); // red again (reused index)
}

#[test]
fn parse_faces_before_usemtl_get_default() {
    let obj = "\
v 0.0 0.0 0.0
v 1.0 0.0 0.0
v 0.0 1.0 0.0
f 1 2 3
usemtl wood
v 2.0 0.0 0.0
f 1 2 4
";
    let parsed = parse_obj(obj);
    assert_eq!(parsed.triangle_materials[0], 0); // default
    assert_eq!(parsed.triangle_materials[1], 1); // wood
}

#[test]
fn parse_empty_input() {
    let parsed = parse_obj("");
    assert_eq!(parsed.positions.len(), 0);
    assert_eq!(parsed.triangles.len(), 0);
    assert_eq!(parsed.material_names.len(), 1); // always has (default)
}

#[test]
fn parse_comments_and_blank_lines() {
    let obj = "\
# This is a comment
v 0.0 0.0 0.0

v 1.0 0.0 0.0
# Another comment
v 0.0 1.0 0.0
f 1 2 3
";
    let parsed = parse_obj(obj);
    assert_eq!(parsed.positions.len(), 3);
    assert_eq!(parsed.triangles.len(), 1);
}

#[test]
fn parse_degenerate_face_skipped() {
    let obj = "\
v 0.0 0.0 0.0
v 1.0 0.0 0.0
f 1 2
";
    let parsed = parse_obj(obj);
    assert_eq!(parsed.triangles.len(), 0);
}

#[test]
fn parse_cube() {
    let obj = "\
v 0.0 0.0 0.0
v 1.0 0.0 0.0
v 1.0 1.0 0.0
v 0.0 1.0 0.0
v 0.0 0.0 1.0
v 1.0 0.0 1.0
v 1.0 1.0 1.0
v 0.0 1.0 1.0
f 1 2 3 4
f 5 8 7 6
f 1 5 6 2
f 3 7 8 4
f 2 6 7 3
f 1 4 8 5
";
    let parsed = parse_obj(obj);
    assert_eq!(parsed.positions.len(), 8);
    // 6 quads -> 12 triangles
    assert_eq!(parsed.triangles.len(), 12);
}
