use soft_raster::camera::{lookat, m2v, viewport};
use soft_raster::fixed::{fx_pow, isqrt_u128, Fx};
use soft_raster::image_buf::RasterImage;
use soft_raster::linalg::{mat4_inverse_transpose, solve3, Mat4, Vec3, Vec4};
use soft_raster::model::{parse_fx, parse_i32, parse_triple, trim_whitespace, Model, ModelError};
use soft_raster::my_gl::{m2v_floor, proj4_3, projection, v2m};

fn q(bits: i64) -> Fx {
    Fx { bits }
}

fn w3(x: i64, y: i64, z: i64) -> Vec3 {
    Vec3 {
        x: q(x * 100000),
        y: q(y * 100000),
        z: q(z * 100000),
    }
}

#[test]
fn fixed_point_arithmetic() {
    assert_eq!(Fx::from_int(3).bits, 300000);
    assert_eq!(q(150000).add(q(25000)).bits, 175000);
    assert_eq!(q(150000).mul(q(200000)).bits, 300000);
    assert_eq!(q(-300000).div(q(200000)).bits, -150000);
    // Rounding is downward: -1e-10 becomes the smallest negative bit.
    assert_eq!(q(-1).mul(q(1)).bits, -1);
    assert_eq!(q(250000).floor_int(), 2);
    assert_eq!(q(-250000).floor_int(), -3);
}

#[test]
fn integer_square_root() {
    assert_eq!(isqrt_u128(0), 0);
    assert_eq!(isqrt_u128(15), 3);
    assert_eq!(isqrt_u128(16), 4);
    assert_eq!(isqrt_u128(250000000000), 500000);
}

#[test]
fn vector_normalization() {
    let v = Vec3 {
        x: q(300000),
        y: q(400000),
        z: q(0),
    };
    assert_eq!(v.norm_bits(), 500000);
    let n = v.normalize();
    assert_eq!((n.x.bits, n.y.bits, n.z.bits), (60000, 80000, 0));
}

#[test]
fn fixed_power() {
    assert_eq!(fx_pow(q(50000), 0).bits, 100000);
    assert_eq!(fx_pow(q(50000), 3).bits, 12500);
    assert_eq!(fx_pow(q(0), 2).bits, 0);
}

#[test]
fn homogeneous_conversions() {
    let v = w3(2, 3, 4);
    let h = v2m(v);
    assert_eq!(h.w.bits, 100000);
    // (2.5, 3, 1) over w = 2: full precision then floored variants.
    let m = Vec4 {
        x: q(250000),
        y: q(300000),
        z: q(100000),
        w: q(200000),
    };
    let d = soft_raster::my_gl::m2v(m);
    assert_eq!(
        (d.x.bits, d.y.bits, d.z.bits, d.w.bits),
        (125000, 150000, 50000, 100000)
    );
    let f = m2v_floor(m);
    assert_eq!(
        (f.x.bits, f.y.bits, f.z.bits, f.w.bits),
        (100000, 100000, 0, 100000)
    );
    let c = m2v(m);
    assert_eq!((c.x.bits, c.y.bits, c.z.bits), (100000, 100000, 0));
    let p = proj4_3(m);
    assert_eq!((p.x.bits, p.y.bits, p.z.bits), (250000, 300000, 100000));
}

#[test]
fn camera_matrices() {
    // Looking down the z axis from (0,0,1) gives the identity basis.
    let m = lookat(w3(0, 0, 1), w3(0, 0, 0), w3(0, 1, 0));
    assert_eq!(m, Mat4::identity());

    let vp = viewport(q(0), q(0), q(80000000), q(80000000));
    assert_eq!(vp.r0.x.bits, 40000000);
    assert_eq!(vp.r0.w.bits, 40000000);
    assert_eq!(vp.r2.z.bits, 12750000);
    assert_eq!(vp.r2.w.bits, 12750000);
    assert_eq!(vp.r3.w.bits, 100000);

    let pr = projection(q(-33333));
    assert_eq!(pr.r3.z.bits, -33333);
    assert_eq!(pr.r3.x.bits, 0);
    assert_eq!(pr.r2.z.bits, 100000);
}

#[test]
fn matrix_products() {
    let id = Mat4::identity();
    let vp = viewport(q(0), q(0), q(80000000), q(80000000));
    assert_eq!(id.mul_mat(vp), vp);
    let v = Vec4 {
        x: q(100000),
        y: q(200000),
        z: q(300000),
        w: q(100000),
    };
    let r = vp.mul_vec(v);
    // x' = 400*1 + 400 = 800, z' = 127.5*3 + 127.5 = 510.
    assert_eq!(r.x.bits, 80000000);
    assert_eq!(r.z.bits, 51000000);
    assert_eq!(r.w.bits, 100000);
}

#[test]
fn inverse_transpose_of_identity() {
    let r = mat4_inverse_transpose(&Mat4::identity());
    assert_eq!(r, Some(Mat4::identity()));
}

#[test]
fn cramer_solver() {
    let e0 = Vec3 {
        x: q(100000),
        y: q(0),
        z: q(0),
    };
    let e1 = Vec3 {
        x: q(0),
        y: q(100000),
        z: q(0),
    };
    let e2 = Vec3 {
        x: q(0),
        y: q(0),
        z: q(100000),
    };
    let b = Vec3 {
        x: q(200000),
        y: q(300000),
        z: q(400000),
    };
    let r = solve3(e0, e1, e2, b).unwrap();
    assert_eq!((r.x.bits, r.y.bits, r.z.bits), (200000, 300000, 400000));
    // Singular system: two equal rows.
    assert!(solve3(e0, e0, e2, b).is_none());
}

#[test]
fn tokenizing_lines() {
    let toks = trim_whitespace("  v 1.0\t-2  ");
    assert_eq!(toks, vec!["v", "1.0", "-2"]);
    let empty = trim_whitespace("   ");
    assert_eq!(empty.len(), 0);
}

#[test]
fn integer_parsing() {
    assert_eq!(parse_i32("42"), Some(42));
    assert_eq!(parse_i32("-7"), Some(-7));
    assert_eq!(parse_i32("2147483647"), Some(2147483647));
    assert_eq!(parse_i32("2147483648"), None);
    assert_eq!(parse_i32(""), None);
    assert_eq!(parse_i32("1a"), None);
    assert_eq!(parse_i32("-"), None);
}

#[test]
fn decimal_parsing() {
    assert_eq!(parse_fx("3.14159").map(|v| v.bits), Some(314159));
    assert_eq!(parse_fx("-0.5").map(|v| v.bits), Some(-50000));
    assert_eq!(parse_fx("1.").map(|v| v.bits), Some(100000));
    assert_eq!(parse_fx("7").map(|v| v.bits), Some(700000));
    // Digits past the fifth place are cut off.
    assert_eq!(parse_fx("0.1234567").map(|v| v.bits), Some(12345));
    assert_eq!(parse_fx(""), None);
    assert_eq!(parse_fx("."), None);
    assert_eq!(parse_fx("1.2.3"), None);
    assert_eq!(parse_fx("x"), None);
}

#[test]
fn triple_parsing() {
    assert_eq!(parse_triple("1/2/3"), Some((0, 1, 2)));
    assert_eq!(parse_triple("10/20/30"), Some((9, 19, 29)));
    assert_eq!(parse_triple("1/2"), None);
    assert_eq!(parse_triple("1//3"), None);
    assert_eq!(parse_triple("a/2/3"), None);
}

#[test]
fn float_vector_lines() {
    let mut verts: Vec<Vec3> = Vec::new();
    assert!(Model::add_line_float_vector(&mut verts, "v 1.5 -2 0.25"));
    assert_eq!(verts.len(), 1);
    assert_eq!(
        (verts[0].x.bits, verts[0].y.bits, verts[0].z.bits),
        (150000, -200000, 25000)
    );
    // A malformed number leaves the list untouched.
    assert!(!Model::add_line_float_vector(&mut verts, "v 1 2 x"));
    assert_eq!(verts.len(), 1);
    // Fewer than three numbers is refused.
    assert!(!Model::add_line_float_vector(&mut verts, "v 1 2"));
    assert_eq!(verts.len(), 1);
}

fn map1() -> RasterImage {
    RasterImage::from_raw(1, 1, vec![0, 0, 0]).unwrap()
}

#[test]
fn face_lines() {
    let mut model = Model {
        nfaces: 0,
        nverts: 0,
        faces: Vec::new(),
        faces_diffuse_coords: Vec::new(),
        faces_normal_coords: Vec::new(),
        verts: Vec::new(),
        uv_: Vec::new(),
        norms: Vec::new(),
        diffuse_map: map1(),
        normal_map: map1(),
        specular_map: map1(),
    };
    assert!(model.add_face_from_line("f 1/2/3 4/5/6 7/8/9"));
    assert_eq!(model.nfaces, 1);
    assert_eq!(model.faces[0], vec![0, 3, 6]);
    assert_eq!(model.faces_diffuse_coords[0], vec![1, 4, 7]);
    assert_eq!(model.faces_normal_coords[0], vec![2, 5, 8]);
    // A face that is not a triangle is refused.
    assert!(!model.add_face_from_line("f 1/1/1 2/2/2 3/3/3 4/4/4"));
    assert_eq!(model.nfaces, 1);
}

#[test]
fn model_from_lines() {
    let lines: Vec<String> = vec![
        "# a single triangle".to_string(),
        "v 0 0 0".to_string(),
        "v 1 0 0".to_string(),
        "v 0 1 0".to_string(),
        "vt 0.5 0.5 0".to_string(),
        "vn 0 0 1".to_string(),
        "f 1/1/1 2/1/1 3/1/1".to_string(),
        "".to_string(),
    ];
    let model = Model::from_lines(&lines, map1(), map1(), map1()).unwrap();
    assert_eq!(model.nverts, 3);
    assert_eq!(model.nfaces, 1);
    assert_eq!(model.uv_.len(), 1);
    assert_eq!(model.norms.len(), 1);
    assert_eq!(model.faces[0], vec![0, 1, 2]);
    assert!(model.check_wf());
}

#[test]
fn model_from_lines_rejects_bad_index() {
    let lines: Vec<String> = vec![
        "v 0 0 0".to_string(),
        "vt 0 0 0".to_string(),
        "vn 0 0 1".to_string(),
        "f 1/1/1 2/1/1 3/1/1".to_string(),
    ];
    // The lines all parse; the mesh is unusable (indices 1 and 2 point
    // past the single vertex).
    assert!(matches!(
        Model::from_lines(&lines, map1(), map1(), map1()),
        Err(ModelError::Malformed)
    ));
}

#[test]
fn model_from_lines_rejects_bad_number() {
    let lines: Vec<String> = vec!["v 0 zero 0".to_string()];
    assert!(matches!(
        Model::from_lines(&lines, map1(), map1(), map1()),
        Err(ModelError::BadLine)
    ));
}
