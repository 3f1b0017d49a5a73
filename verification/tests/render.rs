use soft_raster::fixed::Fx;
use soft_raster::image_buf::RasterImage;
use soft_raster::linalg::{Mat4, Vec3, Vec4};
use soft_raster::model::Model;
use soft_raster::my_gl::{barycentric, new_zbuffer, triangle, Bary, DEPTH_FAR};
use soft_raster::rgb::Color;
use soft_raster::shaders::{
    cartoon_quantize, CartoonShader, GouraudShader, IShader, Shader, Tri3, Tri4,
};

fn fx(bits: i64) -> Fx {
    Fx { bits }
}

fn v3(x: i64, y: i64, z: i64) -> Vec3 {
    Vec3 {
        x: fx(x * 100000),
        y: fx(y * 100000),
        z: fx(z * 100000),
    }
}

fn tiny_map(r: u8, g: u8, b: u8) -> RasterImage {
    RasterImage::from_raw(1, 1, vec![r, g, b]).unwrap()
}

fn unit_model() -> Model {
    Model {
        nfaces: 1,
        nverts: 3,
        faces: vec![vec![0, 1, 2]],
        faces_diffuse_coords: vec![vec![0, 0, 0]],
        faces_normal_coords: vec![vec![0, 0, 0]],
        verts: vec![v3(0, 0, 0), v3(10, 0, 0), v3(0, 10, 0)],
        uv_: vec![v3(0, 0, 0)],
        norms: vec![v3(0, 0, 1)],
        diffuse_map: tiny_map(0, 0, 0),
        normal_map: tiny_map(0, 0, 0),
        specular_map: tiny_map(0, 0, 0),
    }
}

#[test]
fn unit_triangle_scenario() {
    // A unit right triangle with uniform intensity 1 on a white base
    // covers exactly the pixels with x + y <= 10, full white, depth 0.
    let model = unit_model();
    let mut shader = GouraudShader::new(v3(0, 0, 1));
    let t = Mat4::identity();
    let mut pts: Vec<Vec4> = Vec::new();
    for j in 0..3 {
        pts.push(shader.vertex(&model, t, 0, j));
    }
    let mut zb = new_zbuffer(12, 12);
    let mut img = RasterImage::new(12, 12);
    triangle(
        &pts,
        &model,
        &shader,
        &mut zb,
        &mut img,
        Color::new(255, 255, 255),
    );
    let raw = img.into_raw();
    for y in 0..12i64 {
        for x in 0..12i64 {
            let covered = x + y <= 10;
            let idx = (x + y * 12) as usize;
            let px = (raw[3 * idx], raw[3 * idx + 1], raw[3 * idx + 2]);
            if covered {
                assert_eq!(px, (255, 255, 255), "pixel ({}, {})", x, y);
                assert_eq!(zb[idx], 0, "depth ({}, {})", x, y);
            } else {
                assert_eq!(px, (0, 0, 0), "pixel ({}, {})", x, y);
                assert_eq!(zb[idx], DEPTH_FAR, "depth ({}, {})", x, y);
            }
        }
    }
}

#[test]
fn degenerate_triangle_writes_nothing() {
    // Collinear screen points: every pixel is rejected and no buffer
    // entry changes.
    let model = unit_model();
    let shader = GouraudShader::new(v3(0, 0, 1));
    let pts = vec![
        Vec4 {
            x: fx(0),
            y: fx(0),
            z: fx(0),
            w: fx(100000),
        },
        Vec4 {
            x: fx(500000),
            y: fx(500000),
            z: fx(0),
            w: fx(100000),
        },
        Vec4 {
            x: fx(1000000),
            y: fx(1000000),
            z: fx(0),
            w: fx(100000),
        },
    ];
    let mut zb = new_zbuffer(12, 12);
    let mut img = RasterImage::new(12, 12);
    triangle(
        &pts,
        &model,
        &shader,
        &mut zb,
        &mut img,
        Color::new(255, 255, 255),
    );
    let raw = img.into_raw();
    for idx in 0..144usize {
        assert_eq!(zb[idx], DEPTH_FAR);
        assert_eq!(
            (raw[3 * idx], raw[3 * idx + 1], raw[3 * idx + 2]),
            (0, 0, 0)
        );
    }
}

#[test]
fn degenerate_barycentric_sentinel() {
    let pts = vec![
        Vec4 {
            x: fx(0),
            y: fx(0),
            z: fx(0),
            w: fx(100000),
        },
        Vec4 {
            x: fx(500000),
            y: fx(500000),
            z: fx(0),
            w: fx(100000),
        },
        Vec4 {
            x: fx(1000000),
            y: fx(1000000),
            z: fx(0),
            w: fx(100000),
        },
    ];
    let b = barycentric(&pts, 3, 3);
    assert_eq!((b.w0, b.w1, b.w2, b.den), (-1, 1, 1, 1));
}

#[test]
fn barycentric_partition_reconstructs_pixel() {
    // Inside a non-degenerate triangle the weights sum to the
    // denominator and reconstruct the pixel exactly.
    let pts = vec![
        Vec4 {
            x: fx(0),
            y: fx(0),
            z: fx(0),
            w: fx(100000),
        },
        Vec4 {
            x: fx(1000000),
            y: fx(0),
            z: fx(0),
            w: fx(100000),
        },
        Vec4 {
            x: fx(0),
            y: fx(1000000),
            z: fx(0),
            w: fx(100000),
        },
    ];
    for &(px, py) in &[(2i64, 3i64), (0, 0), (10, 0), (3, 7), (1, 1)] {
        let b = barycentric(&pts, px, py);
        assert!(b.w0 >= 0 && b.w1 >= 0 && b.w2 >= 0);
        assert_eq!(b.w0 + b.w1 + b.w2, b.den);
        assert_eq!(b.w0 * 0 + b.w1 * 10 + b.w2 * 0, px * b.den);
        assert_eq!(b.w0 * 0 + b.w1 * 0 + b.w2 * 10, py * b.den);
    }
    let outside = barycentric(&pts, 8, 8);
    assert!(outside.w0 < 0 || outside.w1 < 0 || outside.w2 < 0);
}

fn overlap_pts(z: i64) -> Vec<Vec4> {
    vec![
        Vec4 {
            x: fx(0),
            y: fx(0),
            z: fx(z * 100000),
            w: fx(100000),
        },
        Vec4 {
            x: fx(800000),
            y: fx(0),
            z: fx(z * 100000),
            w: fx(100000),
        },
        Vec4 {
            x: fx(0),
            y: fx(800000),
            z: fx(z * 100000),
            w: fx(100000),
        },
    ]
}

#[test]
fn depth_test_is_order_independent() {
    // Two overlapping triangles at depths 0 and 50: whichever is drawn
    // first, the nearer one owns every shared pixel.
    let model = unit_model();
    let mut shader = GouraudShader::new(v3(0, 0, 1));
    shader.varying_intensity = v3(1, 1, 1);
    let near = overlap_pts(0);
    let far = overlap_pts(50);
    let red = Color::new(255, 0, 0);
    let blue = Color::new(0, 0, 255);

    let mut zb1 = new_zbuffer(10, 10);
    let mut img1 = RasterImage::new(10, 10);
    triangle(&near, &model, &shader, &mut zb1, &mut img1, red);
    triangle(&far, &model, &shader, &mut zb1, &mut img1, blue);

    let mut zb2 = new_zbuffer(10, 10);
    let mut img2 = RasterImage::new(10, 10);
    triangle(&far, &model, &shader, &mut zb2, &mut img2, blue);
    triangle(&near, &model, &shader, &mut zb2, &mut img2, red);

    assert_eq!(zb1, zb2);
    let raw1 = img1.into_raw();
    let raw2 = img2.into_raw();
    assert_eq!(raw1, raw2);
    let idx = (2 + 2 * 10) as usize;
    assert_eq!((raw1[3 * idx], raw1[3 * idx + 1], raw1[3 * idx + 2]), (255, 0, 0));
    assert_eq!(zb1[idx], 0);
}

#[test]
fn cartoon_bands() {
    // Intensities 0.9, 0.7, 0.5, 0.35, 0.2, 0.05 quantize to
    // 1.0, 0.80, 0.60, 0.45, 0.30, 0.0.
    let cases = [
        (90000i64, 100000i64),
        (70000, 80000),
        (50000, 60000),
        (35000, 45000),
        (20000, 30000),
        (5000, 0),
    ];
    for &(input, expected) in &cases {
        assert_eq!(cartoon_quantize(fx(input)).bits, expected);
    }
}

#[test]
fn cartoon_fragment_scales_base_color() {
    let model = unit_model();
    let bar = Bary {
        w0: 1,
        w1: 0,
        w2: 0,
        den: 1,
    };
    let cases = [
        (90000i64, 255u8),
        (70000, 204),
        (50000, 153),
        (35000, 114),
        (20000, 76),
        (5000, 0),
    ];
    for &(intensity, expected) in &cases {
        let mut s = CartoonShader::new(v3(0, 0, 1));
        s.varying_intensity = Vec3 {
            x: fx(intensity),
            y: fx(0),
            z: fx(0),
        };
        let (discard, c) = s.fragment(&model, bar, Color::new(255, 255, 255));
        assert!(!discard);
        assert_eq!((c.r, c.g, c.b), (expected, expected, expected));
    }
}

#[test]
fn gouraud_fragment_interpolates_intensity() {
    let model = unit_model();
    let mut s = GouraudShader::new(v3(0, 0, 1));
    s.varying_intensity = Vec3 {
        x: fx(100000),
        y: fx(0),
        z: fx(50000),
    };
    // Weights 1/2, 1/4, 1/4: intensity (0.5 + 0 + 0.125) = 0.625.
    let bar = Bary {
        w0: 2,
        w1: 1,
        w2: 1,
        den: 4,
    };
    let (discard, c) = s.fragment(&model, bar, Color::new(200, 100, 0));
    assert!(!discard);
    assert_eq!((c.r, c.g, c.b), (125, 62, 0));
}

#[test]
fn texture_flip_corners() {
    // UV (0,0) reads the bottom-left texel, UV (1,1) the top-right.
    let (x0, y0) = soft_raster::model::tex_xy(fx(0), fx(0), 4, 4);
    assert_eq!((x0, y0), (0, 3));
    let (x1, y1) = soft_raster::model::tex_xy(fx(100000), fx(100000), 4, 4);
    assert_eq!((x1, y1), (3, 0));
}

#[test]
fn diffuse_sampling_flips_vertically() {
    let mut model = unit_model();
    // 2x2 texture: row 0 holds (1,2,3) (4,5,6), row 1 holds (7,8,9) (10,11,12).
    model.diffuse_map =
        RasterImage::from_raw(2, 2, vec![1, 2, 3, 4, 5, 6, 7, 8, 9, 10, 11, 12]).unwrap();
    let c00 = model.diffuse(v3(0, 0, 0));
    assert_eq!((c00.r, c00.g, c00.b), (7, 8, 9));
    let c11 = model.diffuse(v3(1, 1, 0));
    assert_eq!((c11.r, c11.g, c11.b), (4, 5, 6));
}

#[test]
fn phong_fragment_textured_pixel() {
    // Flat screen triangle in the z = 0 plane, normal map pointing
    // almost straight out, specular exponent 2, diffuse (200,100,50).
    let mut s = Shader::with_matrices(Mat4::identity(), Mat4::identity(), v3(0, 0, 1));
    let up = Vec3 {
        x: fx(0),
        y: fx(0),
        z: fx(100000),
    };
    s.varying_nrm = Tri3 {
        c0: up,
        c1: up,
        c2: up,
    };
    s.varying_uv = Tri3 {
        c0: v3(0, 0, 0),
        c1: Vec3 {
            x: fx(100000),
            y: fx(0),
            z: fx(0),
        },
        c2: Vec3 {
            x: fx(0),
            y: fx(100000),
            z: fx(0),
        },
    };
    s.ndc_tri = Tri3 {
        c0: v3(0, 0, 0),
        c1: v3(10, 0, 0),
        c2: v3(0, 10, 0),
    };
    let mut model = unit_model();
    model.diffuse_map = tiny_map(200, 100, 50);
    model.normal_map = tiny_map(255, 127, 127);
    model.specular_map = tiny_map(2, 0, 0);
    let bar = Bary {
        w0: 1,
        w1: 0,
        w2: 0,
        den: 1,
    };
    let (discard, c) = s.fragment(&model, bar, Color::new(0, 0, 0));
    assert!(!discard);
    assert_eq!((c.r, c.g, c.b), (255, 134, 69));
}

#[test]
fn phong_degenerate_tangent_discards() {
    // All three screen corners coincide: the tangent system is
    // singular and the fragment is discarded.
    let mut s = Shader::with_matrices(Mat4::identity(), Mat4::identity(), v3(0, 0, 1));
    let up = Vec3 {
        x: fx(0),
        y: fx(0),
        z: fx(100000),
    };
    s.varying_nrm = Tri3 {
        c0: up,
        c1: up,
        c2: up,
    };
    let model = unit_model();
    let bar = Bary {
        w0: 1,
        w1: 0,
        w2: 0,
        den: 1,
    };
    let (discard, _) = s.fragment(&model, bar, Color::new(0, 0, 0));
    assert!(discard);
}

#[test]
fn shader_new_inverts_identity() {
    let s = Shader::new(Mat4::identity(), v3(0, 0, 1));
    assert_eq!(s.uniform_mit, Mat4::identity());
    assert_eq!(
        s.varying_tri,
        Tri4 {
            c0: Vec4 {
                x: fx(0),
                y: fx(0),
                z: fx(0),
                w: fx(0)
            },
            c1: Vec4 {
                x: fx(0),
                y: fx(0),
                z: fx(0),
                w: fx(0)
            },
            c2: Vec4 {
                x: fx(0),
                y: fx(0),
                z: fx(0),
                w: fx(0)
            },
        }
    );
}

#[test]
fn gouraud_vertex_transforms_and_stores() {
    let model = unit_model();
    let mut shader = GouraudShader::new(v3(0, 0, 1));
    let r = shader.vertex(&model, Mat4::identity(), 0, 1);
    // Vertex 1 is (10, 0, 0); the identity keeps it, w becomes 1.
    assert_eq!(
        (r.x.bits, r.y.bits, r.z.bits, r.w.bits),
        (1000000, 0, 0, 100000)
    );
    // Its normal (0,0,1) faces the light exactly: intensity 1.
    assert_eq!(shader.varying_intensity.y.bits, 100000);
}

#[test]
fn bounding_box_clamps_to_screen() {
    // A triangle reaching past every screen edge still fills exactly
    // its on-screen pixels.
    let model = unit_model();
    let mut shader = GouraudShader::new(v3(0, 0, 1));
    shader.varying_intensity = v3(1, 1, 1);
    let pts = vec![
        Vec4 {
            x: fx(-500000),
            y: fx(-500000),
            z: fx(0),
            w: fx(100000),
        },
        Vec4 {
            x: fx(2000000),
            y: fx(0),
            z: fx(0),
            w: fx(100000),
        },
        Vec4 {
            x: fx(0),
            y: fx(2000000),
            z: fx(0),
            w: fx(100000),
        },
    ];
    let mut zb = new_zbuffer(4, 4);
    let mut img = RasterImage::new(4, 4);
    triangle(
        &pts,
        &model,
        &shader,
        &mut zb,
        &mut img,
        Color::new(9, 9, 9),
    );
    let raw = img.into_raw();
    // The whole 4x4 screen lies inside this triangle.
    for idx in 0..16usize {
        assert_eq!(raw[3 * idx], 9);
        assert_eq!(zb[idx], 0);
    }
}

#[test]
fn sampling_clamps_uv_outside_unit_square() {
    let mut model = unit_model();
    model.diffuse_map =
        RasterImage::from_raw(2, 2, vec![1, 2, 3, 4, 5, 6, 7, 8, 9, 10, 11, 12]).unwrap();
    // UV (2, -1) is clamped to the bottom-right texel (1, 1).
    let c = model.diffuse(Vec3 {
        x: fx(200000),
        y: fx(-100000),
        z: fx(0),
    });
    assert_eq!((c.r, c.g, c.b), (10, 11, 12));
}

#[test]
fn any_shader_delegates() {
    let model = unit_model();
    let inner = Shader::with_matrices(Mat4::identity(), Mat4::identity(), v3(0, 0, 1));
    let mut any = soft_raster::shaders::AnyShader::from(inner);
    let r = any.vertex(&model, Mat4::identity(), 0, 1);
    // Vertex 1 is (10, 0, 0); the textured variant floors to the pixel
    // grid, and the identity keeps the point in place.
    assert_eq!(
        (r.x.bits, r.y.bits, r.z.bits, r.w.bits),
        (1000000, 0, 0, 100000)
    );
}
