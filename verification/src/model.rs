//! The mesh and its material maps, as the pipeline reads them: vertex
//! positions, per-face index triples, and three maps sampled by UV.
//!
//! Sampling maps a UV pair into pixel coordinates with the vertical flip
//! of the texture convention: V grows upward while image rows grow
//! downward, so `(u, v)` reads pixel `(u * w, (1 - v) * h)`, each
//! coordinate rounded down and clamped to the pixel grid.

use vstd::prelude::*;
use crate::fixed::{Fx, FX_SCALE, fdiv, i128_fdiv};
use crate::linalg::{Vec3, vec3_bounded, FX_MM};
use crate::image_buf::{RasterImage, image_pixels, image_dims};
use crate::rgb::Color;

verus! {

/// Horizontal texel coordinate for a fixed-point `u`: `u * w` rounded
/// down, clamped into `[0, w - 1]`.
pub open spec fn spec_tex_x(u: int, w: int) -> int {
    let q = fdiv(u * w, FX_SCALE as int);
    if q < 0 {
        0
    } else if q > w - 1 {
        w - 1
    } else {
        q
    }
}

/// Vertical texel coordinate for a fixed-point `v`: `(1 - v) * h` rounded
/// down, clamped into `[0, h - 1]` — the vertical flip.
pub open spec fn spec_tex_y(v: int, h: int) -> int {
    let q = fdiv((FX_SCALE - v) * h, FX_SCALE as int);
    if q < 0 {
        0
    } else if q > h - 1 {
        h - 1
    } else {
        q
    }
}

/// A normal-map channel decoded from `[0, 255]` into `[-1, 1]`:
/// `c / 255 * 2 - 1` in fixed point, rounded down.
pub open spec fn spec_decode_normal_channel(c: int) -> int {
    fdiv(c * 2 * FX_SCALE, 255) - FX_SCALE
}

/// Texel coordinates for a fixed-point UV pair on a `w` by `h` map.
pub fn tex_xy(u: Fx, v: Fx, w: u32, h: u32) -> (r: (u32, u32))
    requires
        w >= 1,
        h >= 1,
    ensures
        r.0 as int == spec_tex_x(u.bits as int, w as int),
        r.1 as int == spec_tex_y(v.bits as int, h as int),
        r.0 < w,
        r.1 < h,
{
    proof {
        assert((u.bits as int) * (w as int) <= (i64::MAX as int) * 0x100000000 && (u.bits as int)
            * (w as int) >= (i64::MIN as int) * 0x100000000) by (nonlinear_arith)
            requires
                i64::MIN <= u.bits <= i64::MAX,
                0 <= w as int <= 0x100000000;
        assert(((FX_SCALE - v.bits) as int) * (h as int) <= 0x10000000000000000 * 0x100000000 && ((
        FX_SCALE - v.bits) as int) * (h as int) >= -(0x10000000000000000 * 0x100000000))
            by (nonlinear_arith)
            requires
                -0x10000000000000000 <= (FX_SCALE - v.bits) as int <= 0x10000000000000000,
                0 <= h as int <= 0x100000000;
    }
    let px: i128 = (u.bits as i128) * (w as i128);
    let qx: i128 = i128_fdiv(px, FX_SCALE as i128);
    let x: u32 = if qx < 0 {
        0
    } else if qx > ((w - 1) as i128) {
        w - 1
    } else {
        qx as u32
    };
    let py: i128 = ((FX_SCALE as i128) - (v.bits as i128)) * (h as i128);
    let qy: i128 = i128_fdiv(py, FX_SCALE as i128);
    let y: u32 = if qy < 0 {
        0
    } else if qy > ((h - 1) as i128) {
        h - 1
    } else {
        qy as u32
    };
    (x, y)
}

/// Sampling at UV `(0, 0)` reads the bottom-left texel `(0, h - 1)`, and
/// at UV `(1, 1)` the top-right texel `(w - 1, 0)`.
pub proof fn lemma_texture_flip(w: int, h: int)
    requires
        w >= 1,
        h >= 1,
    ensures
        spec_tex_x(0, w) == 0,
        spec_tex_y(0, h) == h - 1,
        spec_tex_x(FX_SCALE as int, w) == w - 1,
        spec_tex_y(FX_SCALE as int, h) == 0,
{
    assert(0 * w == 0) by (nonlinear_arith);
    vstd::arithmetic::div_mod::lemma_div_of0(FX_SCALE as int);
    assert(fdiv(0, FX_SCALE as int) == 0);
    assert((FX_SCALE - 0) * h == FX_SCALE * h);
    assert(FX_SCALE as int * w == w * FX_SCALE && FX_SCALE as int * h == h * FX_SCALE)
        by (nonlinear_arith);
    vstd::arithmetic::div_mod::lemma_div_multiples_vanish(w, FX_SCALE as int);
    vstd::arithmetic::div_mod::lemma_div_multiples_vanish(h, FX_SCALE as int);
    assert((FX_SCALE - FX_SCALE) * h == 0) by (nonlinear_arith);
}

/// The channel triple a map holds at the texel addressed by the
/// fixed-point UV pair `(u, v)`.
pub open spec fn spec_sample(img: RasterImage, u: int, v: int) -> (u8, u8, u8) {
    image_pixels(img)[(spec_tex_x(u, image_dims(img).0), spec_tex_y(v, image_dims(img).1))]
}

/// The decoded tangent-space normal of a model at `uvw`: the normal
/// map's channels in reversed order, each mapped into `[-1, 1]`.
pub open spec fn spec_model_normal(m: Model, uvw: Vec3) -> Vec3 {
    let c = spec_sample(m.normal_map, uvw.x.bits as int, uvw.y.bits as int);
    Vec3 {
        x: Fx { bits: spec_decode_normal_channel(c.2 as int) as i64 },
        y: Fx { bits: spec_decode_normal_channel(c.1 as int) as i64 },
        z: Fx { bits: spec_decode_normal_channel(c.0 as int) as i64 },
    }
}

/// The diffuse color of a model at `uvw`.
pub open spec fn spec_model_diffuse(m: Model, uvw: Vec3) -> Color {
    let c = spec_sample(m.diffuse_map, uvw.x.bits as int, uvw.y.bits as int);
    Color { r: c.0, g: c.1, b: c.2 }
}

/// The specular exponent of a model at `uvw`: the first channel of the
/// specular map, a whole number in `[0, 255]`.
pub open spec fn spec_model_specular(m: Model, uvw: Vec3) -> int {
    spec_sample(m.specular_map, uvw.x.bits as int, uvw.y.bits as int).0 as int
}

/// A triangulated mesh with its three material maps.
pub struct Model {
    pub nfaces: i32,
    pub nverts: i32,
    pub faces: Vec<Vec<i32>>,
    pub faces_diffuse_coords: Vec<Vec<i32>>,
    pub faces_normal_coords: Vec<Vec<i32>>,
    pub verts: Vec<Vec3>,
    pub uv_: Vec<Vec3>,
    pub norms: Vec<Vec3>,
    pub diffuse_map: RasterImage,
    pub normal_map: RasterImage,
    pub specular_map: RasterImage,
}

/// A usable material map: at least one texel each way, with dimensions
/// a `u32` admits.
pub open spec fn map_wf(img: RasterImage) -> bool {
    &&& 1 <= image_dims(img).0 <= 0x100000000
    &&& 1 <= image_dims(img).1 <= 0x100000000
}

impl Model {
    /// Well-formedness: the counts match, every face is an index triple
    /// into the attribute lists, attributes are bounded, and the maps
    /// are usable.
    pub open spec fn wf(self) -> bool {
        &&& self.nfaces as int == self.faces.len()
        &&& self.nverts as int == self.verts.len()
        &&& self.faces_diffuse_coords.len() == self.faces.len()
        &&& self.faces_normal_coords.len() == self.faces.len()
        &&& forall|i: int|
            0 <= i < self.faces.len() ==> (#[trigger] self.faces[i]).len() == 3
        &&& forall|i: int|
            0 <= i < self.faces.len() ==> (#[trigger] self.faces_diffuse_coords[i]).len() == 3
        &&& forall|i: int|
            0 <= i < self.faces.len() ==> (#[trigger] self.faces_normal_coords[i]).len() == 3
        &&& forall|i: int, j: int|
            0 <= i < self.faces.len() && 0 <= j < 3 ==> 0 <= #[trigger] self.faces[i][j]
                < self.verts.len()
        &&& forall|i: int, j: int|
            0 <= i < self.faces.len() && 0 <= j < 3 ==> 0 <= #[trigger] self.faces_diffuse_coords[i][j]
                < self.uv_.len()
        &&& forall|i: int, j: int|
            0 <= i < self.faces.len() && 0 <= j < 3 ==> 0 <= #[trigger] self.faces_normal_coords[i][j]
                < self.norms.len()
        &&& forall|i: int| 0 <= i < self.verts.len() ==> vec3_bounded(#[trigger] self.verts[i], FX_MM as int)
        &&& forall|i: int| 0 <= i < self.uv_.len() ==> vec3_bounded(#[trigger] self.uv_[i], FX_SCALE as int)
        &&& forall|i: int| 0 <= i < self.norms.len() ==> vec3_bounded(#[trigger] self.norms[i], FX_MM as int)
        &&& map_wf(self.diffuse_map)
        &&& map_wf(self.normal_map)
        &&& map_wf(self.specular_map)
    }

    /// The normal of vertex slot `nthvert` of face `iface`.
    pub fn uv_normal(&self, iface: usize, nthvert: usize) -> (r: Vec3)
        requires
            self.wf(),
            iface < self.faces.len(),
            nthvert < 3,
        ensures
            r == self.norms[self.faces_normal_coords[iface as int][nthvert as int] as int],
            vec3_bounded(r, FX_MM as int),
    {
        let idx: i32 = self.faces_normal_coords[iface][nthvert];
        self.norms[idx as usize]
    }

    /// The UV of vertex slot `nthvert` of face `iface`.
    pub fn uv(&self, iface: usize, nthvert: usize) -> (r: Vec3)
        requires
            self.wf(),
            iface < self.faces.len(),
            nthvert < 3,
        ensures
            r == self.uv_[self.faces_diffuse_coords[iface as int][nthvert as int] as int],
            vec3_bounded(r, FX_SCALE as int),
    {
        let idx: i32 = self.faces_diffuse_coords[iface][nthvert];
        self.uv_[idx as usize]
    }

    /// The tangent-space normal stored in the normal map at `uvw`: the
    /// channels are kept in reversed order relative to XYZ, each decoded
    /// from `[0, 255]` into `[-1, 1]`.
    pub fn normal(&self, uvw: Vec3) -> (r: Vec3)
        requires
            self.wf(),
        ensures
            r == spec_model_normal(*self, uvw),
            vec3_bounded(r, FX_SCALE as int),
    {
        let w: u32 = self.normal_map.width();
        let h: u32 = self.normal_map.height();
        let (x, y) = tex_xy(uvw.x, uvw.y, w, h);
        let c = self.normal_map.get(x, y);
        Vec3 {
            x: decode_normal_channel(c.2),
            y: decode_normal_channel(c.1),
            z: decode_normal_channel(c.0),
        }
    }

    /// The diffuse-map color at `uvw`.
    pub fn diffuse(&self, uvw: Vec3) -> (r: Color)
        requires
            self.wf(),
        ensures
            r == spec_model_diffuse(*self, uvw),
    {
        let w: u32 = self.diffuse_map.width();
        let h: u32 = self.diffuse_map.height();
        let (x, y) = tex_xy(uvw.x, uvw.y, w, h);
        let c = self.diffuse_map.get(x, y);
        Color { r: c.0, g: c.1, b: c.2 }
    }

    /// The specular exponent at `uvw`: the first channel of the specular
    /// map, as a fixed-point whole number.
    pub fn specular(&self, uvw: Vec3) -> (r: Fx)
        requires
            self.wf(),
        ensures
            r.bits == spec_model_specular(*self, uvw) * FX_SCALE,
            0 <= r.bits <= 255 * FX_SCALE,
    {
        let w: u32 = self.specular_map.width();
        let h: u32 = self.specular_map.height();
        let (x, y) = tex_xy(uvw.x, uvw.y, w, h);
        let c = self.specular_map.get(x, y);
        Fx { bits: (c.0 as i64) * FX_SCALE }
    }
}

/// One decoded normal-map channel.
pub fn decode_normal_channel(c: u8) -> (r: Fx)
    ensures
        r.bits == spec_decode_normal_channel(c as int),
        -FX_SCALE <= r.bits <= FX_SCALE,
{
    proof {
        crate::fixed::lemma_fdiv_bounds((c as int) * 2 * FX_SCALE, 255);
        crate::linalg::lemma_fdiv_abs_le((c as int) * 2 * FX_SCALE, 255, 2 * FX_SCALE as int);
    }
    let q: i128 = i128_fdiv((c as i128) * 2 * (FX_SCALE as i128), 255);
    Fx { bits: (q as i64) - FX_SCALE }
}

/// ASCII whitespace, the separators of mesh text lines.
pub open spec fn spec_is_space(c: char) -> bool {
    c == ' ' || c == '\t' || c == '\r' || c == '\n'
}

pub fn is_space(c: char) -> (r: bool)
    ensures
        r == spec_is_space(c),
{
    c == ' ' || c == '\t' || c == '\r' || c == '\n'
}

/// The first whitespace position at or after `i`.
pub open spec fn token_end(s: Seq<char>, i: int) -> int
    decreases s.len() - i,
    when 0 <= i <= s.len()
{
    if i >= s.len() {
        i
    } else if spec_is_space(s[i]) {
        i
    } else {
        token_end(s, i + 1)
    }
}

proof fn lemma_token_end(s: Seq<char>, i: int)
    requires
        0 <= i <= s.len(),
    ensures
        i <= token_end(s, i) <= s.len(),
        i < s.len() && !spec_is_space(s[i]) ==> token_end(s, i) > i,
        token_end(s, i) < s.len() ==> spec_is_space(s[token_end(s, i)]),
    decreases s.len() - i,
{
    if i < s.len() && !spec_is_space(s[i]) {
        lemma_token_end(s, i + 1);
    }
}

/// The whitespace-separated tokens of `s` from position `i` on.
pub open spec fn spec_tokens_from(s: Seq<char>, i: int) -> Seq<Seq<char>>
    decreases s.len() - i,
    when 0 <= i <= s.len()
    via spec_tokens_from_dec
{
    if i >= s.len() {
        Seq::empty()
    } else if spec_is_space(s[i]) {
        spec_tokens_from(s, i + 1)
    } else {
        seq![s.subrange(i, token_end(s, i))] + spec_tokens_from(s, token_end(s, i))
    }
}

#[via_fn]
proof fn spec_tokens_from_dec(s: Seq<char>, i: int) {
    lemma_token_end(s, i);
}

/// The whitespace-separated tokens of `s`.
pub open spec fn spec_tokens(s: Seq<char>) -> Seq<Seq<char>> {
    spec_tokens_from(s, 0)
}

/// The position of the token boundary starting at `i`.
fn token_end_exec(s: &str, i: usize) -> (j: usize)
    requires
        i <= s@.len(),
    ensures
        j as int == token_end(s@, i as int),
        i <= j <= s@.len(),
{
    let n: usize = s.unicode_len();
    let mut j: usize = i;
    while j < n
        invariant
            i <= j <= n,
            n == s@.len(),
            token_end(s@, i as int) == token_end(s@, j as int),
        decreases n - j,
    {
        if is_space(s.get_char(j)) {
            proof {
                lemma_token_end(s@, j as int);
            }
            return j;
        }
        j = j + 1;
    }
    proof {
        lemma_token_end(s@, j as int);
    }
    j
}

/// Splits a mesh text line into its whitespace-separated words.
/// Separators are the ASCII whitespace characters of `spec_is_space`
/// (space, tab, carriage return, line feed) — the mesh text format is
/// ASCII, and other Unicode whitespace is not treated as a separator.
pub fn trim_whitespace(s: &str) -> (v: Vec<&str>)
    ensures
        v@.len() == spec_tokens(s@).len(),
        forall|k: int| 0 <= k < v@.len() ==> (#[trigger] v@[k])@ == spec_tokens(s@)[k],
{
    let n: usize = s.unicode_len();
    let mut v: Vec<&str> = Vec::new();
    let mut i: usize = 0;
    while i < n
        invariant
            i <= n,
            n == s@.len(),
            spec_tokens(s@) =~= v@.map_values(|t: &str| t@) + spec_tokens_from(s@, i as int),
        decreases n - i,
    {
        let c = s.get_char(i);
        if is_space(c) {
            i = i + 1;
        } else {
            let j = token_end_exec(s, i);
            proof {
                lemma_token_end(s@, i as int);
            }
            let tok = s.substring_char(i, j);
            v.push(tok);
            proof {
                assert(spec_tokens(s@) =~= v@.map_values(|t: &str| t@) + spec_tokens_from(
                    s@,
                    j as int,
                ));
            }
            i = j;
        }
    }
    proof {
        assert(spec_tokens(s@) =~= v@.map_values(|t: &str| t@));
        assert forall|k: int| 0 <= k < v@.len() implies (#[trigger] v@[k])@ == spec_tokens(s@)[k]
            by {
            assert(v@.map_values(|t: &str| t@)[k] == v@[k]@);
        }
    }
    v
}

pub open spec fn spec_is_digit(c: char) -> bool {
    48 <= c as int <= 57
}

pub fn is_digit(c: char) -> (r: bool)
    ensures
        r == spec_is_digit(c),
{
    c >= '0' && c <= '9'
}

pub open spec fn spec_all_digits(s: Seq<char>) -> bool {
    forall|k: int| 0 <= k < s.len() ==> spec_is_digit(#[trigger] s[k])
}

/// The value of a digit string, most significant first.
pub open spec fn spec_uint_val(s: Seq<char>) -> int
    decreases s.len(),
{
    if s.len() == 0 {
        0
    } else {
        spec_uint_val(s.drop_last()) * 10 + (s.last() as int - 48)
    }
}

proof fn lemma_uint_val_nonneg(s: Seq<char>)
    requires
        spec_all_digits(s),
    ensures
        spec_uint_val(s) >= 0,
    decreases s.len(),
{
    if s.len() > 0 {
        assert(spec_all_digits(s.drop_last()));
        lemma_uint_val_nonneg(s.drop_last());
    }
}

/// Extending a digit string cannot shrink its value.
proof fn lemma_uint_val_prefix(s: Seq<char>, i: int)
    requires
        spec_all_digits(s),
        0 <= i <= s.len(),
    ensures
        spec_uint_val(s) >= spec_uint_val(s.subrange(0, i)),
    decreases s.len() - i,
{
    if i < s.len() {
        lemma_uint_val_prefix(s, i + 1);
        let p = s.subrange(0, i);
        let q = s.subrange(0, i + 1);
        assert(q.drop_last() =~= p);
        assert(spec_all_digits(p)) by {
            assert(forall|k: int| 0 <= k < p.len() ==> p[k] == s[k]);
        }
        lemma_uint_val_nonneg(p);
        assert(spec_uint_val(q) == spec_uint_val(p) * 10 + (q.last() as int - 48));
        assert(spec_uint_val(p) * 10 >= spec_uint_val(p));
    } else {
        assert(s.subrange(0, i) =~= s);
    }
}

/// A plain signed integer: an optional minus sign, then digits.
pub open spec fn spec_int_ok(s: Seq<char>) -> bool {
    if s.len() >= 1 && s[0] == '-' {
        s.len() >= 2 && spec_all_digits(s.subrange(1, s.len() as int))
    } else {
        s.len() >= 1 && spec_all_digits(s)
    }
}

pub open spec fn spec_int_val(s: Seq<char>) -> int {
    if s.len() >= 1 && s[0] == '-' {
        -spec_uint_val(s.subrange(1, s.len() as int))
    } else {
        spec_uint_val(s)
    }
}

/// Parses the digit run `s[from..to]` into an accumulator, refusing
/// values beyond `9e10`.
fn parse_digits(s: &str, from: usize, to: usize) -> (r: Option<i64>)
    requires
        from <= to <= s@.len(),
    ensures
        ({
            let d = s@.subrange(from as int, to as int);
            match r {
                Some(v) => spec_all_digits(d) && v as int == spec_uint_val(d) && 0 <= v
                    <= 90000000000,
                None => !(spec_all_digits(d) && spec_uint_val(d) <= 90000000000),
            }
        }),
{
    let mut acc: i64 = 0;
    let mut i: usize = from;
    proof {
        assert(s@.subrange(from as int, from as int) =~= Seq::<char>::empty());
    }
    while i < to
        invariant
            from <= i <= to <= s@.len(),
            0 <= acc <= 90000000000,
            spec_all_digits(s@.subrange(from as int, i as int)),
            acc as int == spec_uint_val(s@.subrange(from as int, i as int)),
        decreases to - i,
    {
        let c = s.get_char(i);
        let ghost pre = s@.subrange(from as int, i as int);
        let ghost cur = s@.subrange(from as int, i as int + 1);
        proof {
            assert(cur.drop_last() =~= pre);
            assert(cur.last() == s@[i as int]);
        }
        if !is_digit(c) {
            proof {
                let d = s@.subrange(from as int, to as int);
                assert(d[i as int - from as int] == s@[i as int]);
                assert(!spec_all_digits(d));
            }
            return None;
        }
        acc = acc * 10 + ((c as u32) as i64 - 48);
        if acc > 90000000000 {
            proof {
                let d = s@.subrange(from as int, to as int);
                if spec_all_digits(d) {
                    lemma_uint_val_prefix(d, i as int + 1 - from as int);
                    assert(d.subrange(0, i as int + 1 - from as int) =~= cur);
                    lemma_uint_val_nonneg(pre);
                }
            }
            return None;
        }
        i = i + 1;
    }
    Some(acc)
}

/// Parses a whole token as a signed integer.
pub fn parse_i32(s: &str) -> (r: Option<i32>)
    ensures
        ({
            match r {
                Some(v) => spec_int_ok(s@) && v as int == spec_int_val(s@),
                None => !(spec_int_ok(s@) && -2147483648 <= spec_int_val(s@) <= 2147483647),
            }
        }),
{
    let n: usize = s.unicode_len();
    if n == 0 {
        return None;
    }
    let neg: bool = s.get_char(0) == '-';
    let from: usize = if neg {
        1
    } else {
        0
    };
    if neg && n == 1 {
        return None;
    }
    proof {
        if !neg {
            assert(s@.subrange(0, s@.len() as int) =~= s@);
        }
    }
    match parse_digits(s, from, n) {
        None => None,
        Some(v) => {
            proof {
                lemma_uint_val_nonneg(s@.subrange(from as int, s@.len() as int));
            }
            if v > 2147483647 {
                if neg && v == 2147483648 {
                    return Some(-2147483648i32);
                }
                if neg {
                    return None;
                }
                return None;
            }
            if neg {
                Some(-(v as i32))
            } else {
                Some(v as i32)
            }
        },
    }
}

/// The first position of `ch` at or after `i`.
pub open spec fn char_pos_from(s: Seq<char>, i: int, ch: char) -> int
    decreases s.len() - i,
    when 0 <= i <= s.len()
{
    if i >= s.len() {
        i
    } else if s[i] == ch {
        i
    } else {
        char_pos_from(s, i + 1, ch)
    }
}

proof fn lemma_char_pos(s: Seq<char>, i: int, ch: char)
    requires
        0 <= i <= s.len(),
    ensures
        i <= char_pos_from(s, i, ch) <= s.len(),
        char_pos_from(s, i, ch) < s.len() ==> s[char_pos_from(s, i, ch)] == ch,
    decreases s.len() - i,
{
    if i < s.len() && s[i] != ch {
        lemma_char_pos(s, i + 1, ch);
    }
}

/// The position of the first `ch` at or after `i`.
fn char_pos_exec(s: &str, i: usize, ch: char) -> (j: usize)
    requires
        i <= s@.len(),
    ensures
        j as int == char_pos_from(s@, i as int, ch),
        i <= j <= s@.len(),
{
    let n: usize = s.unicode_len();
    let mut j: usize = i;
    while j < n
        invariant
            i <= j <= n,
            n == s@.len(),
            char_pos_from(s@, i as int, ch) == char_pos_from(s@, j as int, ch),
        decreases n - j,
    {
        if s.get_char(j) == ch {
            return j;
        }
        j = j + 1;
    }
    j
}

/// The fixed-point contribution of a fraction-digit run: its first five
/// digits, padded with zeros.
pub open spec fn spec_frac_bits(f: Seq<char>) -> int {
    let d0 = if f.len() > 0 { f[0] as int - 48 } else { 0 };
    let d1 = if f.len() > 1 { f[1] as int - 48 } else { 0 };
    let d2 = if f.len() > 2 { f[2] as int - 48 } else { 0 };
    let d3 = if f.len() > 3 { f[3] as int - 48 } else { 0 };
    let d4 = if f.len() > 4 { f[4] as int - 48 } else { 0 };
    d0 * 10000 + d1 * 1000 + d2 * 100 + d3 * 10 + d4
}

/// A plain decimal number: an optional minus sign, a nonempty run of
/// integer digits, and optionally a dot followed by fraction digits.
pub open spec fn spec_fx_ok(s: Seq<char>) -> bool {
    let b: int = if s.len() >= 1 && s[0] == '-' { 1 } else { 0 };
    let d = char_pos_from(s, b, '.');
    &&& s.len() >= 1
    &&& b < d
    &&& spec_all_digits(s.subrange(b, d))
    &&& (d == s.len() || spec_all_digits(s.subrange(d + 1, s.len() as int)))
}

/// The integer-digit run of a decimal token.
pub open spec fn spec_fx_int_part(s: Seq<char>) -> Seq<char> {
    let b: int = if s.len() >= 1 && s[0] == '-' { 1 } else { 0 };
    s.subrange(b, char_pos_from(s, b, '.'))
}

/// The fraction-digit run of a decimal token (empty without a dot).
pub open spec fn spec_fx_frac_part(s: Seq<char>) -> Seq<char> {
    let b: int = if s.len() >= 1 && s[0] == '-' { 1 } else { 0 };
    let d = char_pos_from(s, b, '.');
    if d == s.len() {
        Seq::empty()
    } else {
        s.subrange(d + 1, s.len() as int)
    }
}

/// The fixed-point bits a decimal token denotes: the integer part
/// scaled, plus the first five fraction digits, negated under a sign.
pub open spec fn spec_fx_val_bits(s: Seq<char>) -> int {
    let mag = spec_uint_val(spec_fx_int_part(s)) * 100000 + spec_frac_bits(spec_fx_frac_part(s));
    if s.len() >= 1 && s[0] == '-' {
        -mag
    } else {
        mag
    }
}

/// A decimal token the parser accepts: well-formed, with an integer
/// part within `9e10`.
pub open spec fn spec_fx_parses(s: Seq<char>) -> bool {
    spec_fx_ok(s) && spec_uint_val(spec_fx_int_part(s)) <= 90000000000
}

/// Parses a whole token as a fixed-point decimal; fraction digits past
/// the fifth are cut off.
pub fn parse_fx(s: &str) -> (r: Option<Fx>)
    ensures
        ({
            match r {
                Some(v) => spec_fx_parses(s@) && v.bits as int == spec_fx_val_bits(s@),
                None => !spec_fx_parses(s@),
            }
        }),
{
    let n: usize = s.unicode_len();
    if n == 0 {
        return None;
    }
    let neg: bool = s.get_char(0) == '-';
    let b: usize = if neg {
        1
    } else {
        0
    };
    let d: usize = char_pos_exec(s, b, '.');
    if d == b {
        return None;
    }
    let iv: i64 = match parse_digits(s, b, d) {
        Some(v) => v,
        None => {
            return None;
        },
    };
    let mut frac: i64 = 0;
    if d < n {
        proof {
            lemma_char_pos(s@, b as int, '.');
        }
        if !all_digits_exec(s, d + 1, n) {
            return None;
        }
        let fl: usize = n - (d + 1);
        let d0: i64 = frac_digit(s, d + 1, 0, fl);
        let d1: i64 = frac_digit(s, d + 1, 1, fl);
        let d2: i64 = frac_digit(s, d + 1, 2, fl);
        let d3: i64 = frac_digit(s, d + 1, 3, fl);
        let d4: i64 = frac_digit(s, d + 1, 4, fl);
        frac = d0 * 10000 + d1 * 1000 + d2 * 100 + d3 * 10 + d4;
        proof {
            assert(s@.subrange(d as int + 1, n as int) == spec_fx_frac_part(s@));
        }
    } else {
        proof {
            assert(spec_fx_frac_part(s@) =~= Seq::<char>::empty());
        }
    }
    proof {
        lemma_uint_val_nonneg(s@.subrange(b as int, d as int));
        lemma_frac_digits_bound(s@, d as int + 1, n as int);
    }
    let mag: i64 = iv * 100000 + frac;
    if neg {
        Some(Fx { bits: -mag })
    } else {
        Some(Fx { bits: mag })
    }
}

/// Every character of `s[from..to]` is a digit.
fn all_digits_exec(s: &str, from: usize, to: usize) -> (r: bool)
    requires
        from <= to <= s@.len(),
    ensures
        r == spec_all_digits(s@.subrange(from as int, to as int)),
{
    let mut i: usize = from;
    while i < to
        invariant
            from <= i <= to <= s@.len(),
            spec_all_digits(s@.subrange(from as int, i as int)),
        decreases to - i,
    {
        if !is_digit(s.get_char(i)) {
            proof {
                assert(s@.subrange(from as int, to as int)[i as int - from as int] == s@[
                    i as int
                ]);
            }
            return false;
        }
        proof {
            let pre = s@.subrange(from as int, i as int);
            let cur = s@.subrange(from as int, i as int + 1);
            assert(forall|k: int|
                0 <= k < cur.len() ==> cur[k] == if k < pre.len() {
                    pre[k]
                } else {
                    s@[i as int]
                });
        }
        i = i + 1;
    }
    proof {
        assert(s@.subrange(from as int, i as int) =~= s@.subrange(from as int, to as int));
    }
    true
}

/// Fraction digit `k`, or zero past the end of the run.
fn frac_digit(s: &str, from: usize, k: usize, fl: usize) -> (r: i64)
    requires
        from + fl == s@.len(),
        from <= s@.len(),
        s@.len() <= usize::MAX,
        spec_all_digits(s@.subrange(from as int, s@.len() as int)),
    ensures
        r == if (k as int) < fl as int {
            s@[from as int + k as int] as int - 48
        } else {
            0
        },
        0 <= r <= 9,
{
    if k < fl {
        let c = s.get_char(from + k);
        proof {
            assert(s@.subrange(from as int, s@.len() as int)[k as int] == s@[from as int
                + k as int]);
        }
        ((c as u32) as i64) - 48
    } else {
        0
    }
}

/// The five padded fraction digits are below one unit.
proof fn lemma_frac_digits_bound(s: Seq<char>, from: int, to: int)
    requires
        0 <= from,
        to == s.len(),
    ensures
        from <= to && spec_all_digits(s.subrange(from, to)) ==> 0 <= spec_frac_bits(
            s.subrange(from, to),
        ) < 100000,
{
    if from <= to && spec_all_digits(s.subrange(from, to)) {
        let f = s.subrange(from, to);
        assert(f.len() > 0 ==> 0 <= f[0] as int - 48 <= 9);
        assert(f.len() > 1 ==> 0 <= f[1] as int - 48 <= 9);
        assert(f.len() > 2 ==> 0 <= f[2] as int - 48 <= 9);
        assert(f.len() > 3 ==> 0 <= f[3] as int - 48 <= 9);
        assert(f.len() > 4 ==> 0 <= f[4] as int - 48 <= 9);
    }
}

/// The keywords a vertex-attribute line may start with.
pub open spec fn spec_is_keyword(t: Seq<char>) -> bool {
    t =~= seq!['v'] || t =~= seq!['v', 't'] || t =~= seq!['v', 'n']
}

fn is_keyword(t: &str) -> (r: bool)
    ensures
        r == spec_is_keyword(t@),
{
    let n: usize = t.unicode_len();
    if n == 1 {
        let r = t.get_char(0) == 'v';
        proof {
            if r {
                assert(t@ =~= seq!['v']);
            } else {
                assert(!(t@ =~= seq!['v']) && !(t@ =~= seq!['v', 't']) && !(t@ =~= seq![
                    'v',
                    'n',
                ]));
            }
        }
        r
    } else if n == 2 {
        let c0 = t.get_char(0);
        let c1 = t.get_char(1);
        let r = c0 == 'v' && (c1 == 't' || c1 == 'n');
        proof {
            if r {
                assert(t@ =~= seq!['v', 't'] || t@ =~= seq!['v', 'n']);
            } else {
                assert(!(t@ =~= seq!['v']) && !(t@ =~= seq!['v', 't']) && !(t@ =~= seq![
                    'v',
                    'n',
                ]));
            }
        }
        r
    } else {
        proof {
            assert(!(t@ =~= seq!['v']) && !(t@ =~= seq!['v', 't']) && !(t@ =~= seq!['v', 'n']));
        }
        false
    }
}

/// The tokens of a vertex-attribute line that are numbers: everything
/// but the leading keywords.
pub open spec fn spec_nums_from(toks: Seq<Seq<char>>, i: int) -> Seq<Seq<char>>
    decreases toks.len() - i,
    when 0 <= i <= toks.len()
{
    if i >= toks.len() {
        Seq::empty()
    } else if spec_is_keyword(toks[i]) {
        spec_nums_from(toks, i + 1)
    } else {
        seq![toks[i]] + spec_nums_from(toks, i + 1)
    }
}

/// A parsable vertex-attribute line: every token besides the keyword
/// is a decimal number, and there are at least three of them.
pub open spec fn spec_vec_line_ok(l: Seq<char>) -> bool {
    let nums = spec_nums_from(spec_tokens(l), 0);
    nums.len() >= 3 && (forall|k: int| 0 <= k < nums.len() ==> spec_fx_parses(#[trigger] nums[k]))
}

/// The vector a parsable vertex-attribute line denotes: its first three
/// numbers.
pub open spec fn spec_line_vec3(l: Seq<char>) -> Vec3 {
    let nums = spec_nums_from(spec_tokens(l), 0);
    Vec3 {
        x: Fx { bits: spec_fx_val_bits(nums[0]) as i64 },
        y: Fx { bits: spec_fx_val_bits(nums[1]) as i64 },
        z: Fx { bits: spec_fx_val_bits(nums[2]) as i64 },
    }
}

impl Model {
    /// Parses a `v`, `vt` or `vn` line: every token that is not the
    /// keyword must be a decimal number, at least three must be present,
    /// and the first three become the appended vector.  On a malformed
    /// line nothing is appended and `false` comes back.
    pub fn add_line_float_vector(vec_to_append: &mut Vec<Vec3>, line: &str) -> (r: bool)
        ensures
            r <==> spec_vec_line_ok(line@),
            r ==> final(vec_to_append)@ == old(vec_to_append)@.push(spec_line_vec3(line@)),
            !r ==> final(vec_to_append)@ == old(vec_to_append)@,
    {
        let toks: Vec<&str> = trim_whitespace(line);
        let ghost all_toks = spec_tokens(line@);
        let mut vals: Vec<Fx> = Vec::new();
        let mut i: usize = 0;
        while i < toks.len()
            invariant
                i <= toks@.len(),
                all_toks == spec_tokens(line@),
                toks@.len() == all_toks.len(),
                forall|k: int| 0 <= k < toks@.len() ==> (#[trigger] toks@[k])@ == all_toks[k],
                ({
                    let done = spec_nums_from(all_toks, 0).take(
                        spec_nums_from(all_toks, 0).len() - spec_nums_from(
                            all_toks,
                            i as int,
                        ).len(),
                    );
                    &&& spec_nums_from(all_toks, 0) =~= done + spec_nums_from(all_toks, i as int)
                    &&& vals@.len() == done.len()
                    &&& forall|k: int|
                        0 <= k < done.len() ==> spec_fx_parses(#[trigger] done[k]) && vals@[k].bits
                            as int == spec_fx_val_bits(done[k])
                }),
            decreases toks@.len() - i,
        {
            let t: &str = toks[i];
            let ghost done_pre = spec_nums_from(all_toks, 0).take(
                spec_nums_from(all_toks, 0).len() - spec_nums_from(all_toks, i as int).len(),
            );
            if !is_keyword(t) {
                match parse_fx(t) {
                    Some(v) => {
                        vals.push(v);
                        proof {
                            assert(spec_nums_from(all_toks, i as int) =~= seq![all_toks[i as int]]
                                + spec_nums_from(all_toks, i as int + 1));
                            let done_post = spec_nums_from(all_toks, 0).take(
                                spec_nums_from(all_toks, 0).len() - spec_nums_from(
                                    all_toks,
                                    i as int + 1,
                                ).len(),
                            );
                            assert(done_post =~= done_pre.push(all_toks[i as int]));
                        }
                    },
                    None => {
                        proof {
                            assert(spec_nums_from(all_toks, i as int) =~= seq![all_toks[i as int]]
                                + spec_nums_from(all_toks, i as int + 1));
                            assert(spec_nums_from(all_toks, i as int).len() >= 1);
                            let nums = spec_nums_from(all_toks, 0);
                            assert(nums.len() == done_pre.len() + spec_nums_from(
                                all_toks,
                                i as int,
                            ).len());
                            assert(nums[done_pre.len() as int] == spec_nums_from(
                                all_toks,
                                i as int,
                            )[0]);
                            assert(!spec_fx_parses(nums[done_pre.len() as int]));
                            assert(nums == spec_nums_from(spec_tokens(line@), 0));
                            assert(!spec_fx_parses(
                                spec_nums_from(spec_tokens(line@), 0)[done_pre.len() as int],
                            ));
                            assert(spec_nums_from(spec_tokens(line@), 0).len()
                                > done_pre.len() as int >= 0);
                        }
                        return false;
                    },
                }
            }
            i = i + 1;
        }
        proof {
            assert(spec_nums_from(all_toks, toks@.len() as int) =~= Seq::<Seq<char>>::empty());
            let nums = spec_nums_from(all_toks, 0);
            assert(nums.take(nums.len() as int) =~= nums);
            assert(vals@.len() == nums.len());
        }
        if vals.len() < 3 {
            return false;
        }
        let v = Vec3 { x: vals[0], y: vals[1], z: vals[2] };
        vec_to_append.push(v);
        true
    }
}

/// The face keyword.
pub open spec fn spec_is_f(t: Seq<char>) -> bool {
    t =~= seq!['f']
}

fn is_f(t: &str) -> (r: bool)
    ensures
        r == spec_is_f(t@),
{
    let n: usize = t.unicode_len();
    if n == 1 {
        let r = t.get_char(0) == 'f';
        proof {
            if !r {
                assert(!(t@ =~= seq!['f']));
            } else {
                assert(t@ =~= seq!['f']);
            }
        }
        r
    } else {
        proof {
            assert(!(t@ =~= seq!['f']));
        }
        false
    }
}

/// The tokens of a face line that are index triples: everything but the
/// leading keyword.
pub open spec fn spec_face_toks_from(toks: Seq<Seq<char>>, i: int) -> Seq<Seq<char>>
    decreases toks.len() - i,
    when 0 <= i <= toks.len()
{
    if i >= toks.len() {
        Seq::empty()
    } else if spec_is_f(toks[i]) {
        spec_face_toks_from(toks, i + 1)
    } else {
        seq![toks[i]] + spec_face_toks_from(toks, i + 1)
    }
}

/// One slash-separated part of an index triple: a signed integer whose
/// 1-based shift stays in range.
pub open spec fn spec_part_ok(u: Seq<char>) -> bool {
    spec_int_ok(u) && -2147483647 <= spec_int_val(u) <= 2147483647
}

/// A well-formed `vertex/uv/normal` token: two slashes with an integer
/// before, between and after (anything past a third slash is ignored).
pub open spec fn spec_triple_ok(t: Seq<char>) -> bool {
    let p1 = char_pos_from(t, 0, '/');
    let p2 = char_pos_from(t, p1 + 1, '/');
    let p3 = char_pos_from(t, p2 + 1, '/');
    &&& p1 < t.len()
    &&& p2 < t.len()
    &&& spec_part_ok(t.subrange(0, p1))
    &&& spec_part_ok(t.subrange(p1 + 1, p2))
    &&& spec_part_ok(t.subrange(p2 + 1, p3))
}

/// The three 0-based indices a triple token denotes.
pub open spec fn spec_triple_vals(t: Seq<char>) -> (int, int, int) {
    let p1 = char_pos_from(t, 0, '/');
    let p2 = char_pos_from(t, p1 + 1, '/');
    let p3 = char_pos_from(t, p2 + 1, '/');
    (
        spec_int_val(t.subrange(0, p1)) - 1,
        spec_int_val(t.subrange(p1 + 1, p2)) - 1,
        spec_int_val(t.subrange(p2 + 1, p3)) - 1,
    )
}

/// Parses a `vertex/uv/normal` token into its 0-based indices.
pub fn parse_triple(t: &str) -> (r: Option<(i32, i32, i32)>)
    ensures
        r is Some <==> spec_triple_ok(t@),
        r is Some ==> ((r->0).0 as int, (r->0).1 as int, (r->0).2 as int) == spec_triple_vals(t@),
{
    let n: usize = t.unicode_len();
    let p1: usize = char_pos_exec(t, 0, '/');
    if p1 == n {
        return None;
    }
    let p2: usize = char_pos_exec(t, p1 + 1, '/');
    if p2 == n {
        return None;
    }
    let p3: usize = char_pos_exec(t, p2 + 1, '/');
    let u0: &str = t.substring_char(0, p1);
    let u1: &str = t.substring_char(p1 + 1, p2);
    let u2: &str = t.substring_char(p2 + 1, p3);
    let v0: i32 = match parse_i32(u0) {
        Some(v) => v,
        None => {
            return None;
        },
    };
    let v1: i32 = match parse_i32(u1) {
        Some(v) => v,
        None => {
            return None;
        },
    };
    let v2: i32 = match parse_i32(u2) {
        Some(v) => v,
        None => {
            return None;
        },
    };
    if v0 == -2147483648 || v1 == -2147483648 || v2 == -2147483648 {
        return None;
    }
    Some((v0 - 1, v1 - 1, v2 - 1))
}

/// A parsable face line: exactly three index-triple tokens after the
/// keyword.
pub open spec fn spec_face_line_ok(l: Seq<char>) -> bool {
    let ft = spec_face_toks_from(spec_tokens(l), 0);
    ft.len() == 3 && spec_triple_ok(ft[0]) && spec_triple_ok(ft[1]) && spec_triple_ok(ft[2])
}

/// The row a parsable face line appends to one of the three index
/// lists: slot 0 the vertex indices, slot 1 the UV indices, slot 2 the
/// normal indices, each already shifted down from 1-based.
pub open spec fn spec_line_face_row(l: Seq<char>, slot: int) -> Seq<i32> {
    let ft = spec_face_toks_from(spec_tokens(l), 0);
    if slot == 0 {
        seq![
            spec_triple_vals(ft[0]).0 as i32,
            spec_triple_vals(ft[1]).0 as i32,
            spec_triple_vals(ft[2]).0 as i32,
        ]
    } else if slot == 1 {
        seq![
            spec_triple_vals(ft[0]).1 as i32,
            spec_triple_vals(ft[1]).1 as i32,
            spec_triple_vals(ft[2]).1 as i32,
        ]
    } else {
        seq![
            spec_triple_vals(ft[0]).2 as i32,
            spec_triple_vals(ft[1]).2 as i32,
            spec_triple_vals(ft[2]).2 as i32,
        ]
    }
}

impl Model {
    /// Parses an `f` line: exactly three `vertex/uv/normal` tokens after
    /// the keyword, each appended to the three index lists with the
    /// 1-based indices shifted down.  On a malformed line nothing
    /// changes and `false` comes back.
    pub fn add_face_from_line(&mut self, face_line: &str) -> (r: bool)
        requires
            old(self).nfaces as int == old(self).faces@.len(),
            old(self).faces@.len() < 2147483647,
        ensures
            ({
                let ft = spec_face_toks_from(spec_tokens(face_line@), 0);
                &&& r <==> spec_face_line_ok(face_line@)
                &&& r ==> {
                    &&& final(self).faces@.len() == old(self).faces@.len() + 1
                    &&& final(self).faces_diffuse_coords@.len() == old(
                        self,
                    ).faces_diffuse_coords@.len() + 1
                    &&& final(self).faces_normal_coords@.len() == old(
                        self,
                    ).faces_normal_coords@.len() + 1
                    &&& forall|k: int|
                        0 <= k < old(self).faces@.len() ==> #[trigger] final(self).faces@[k]
                            == old(self).faces@[k]
                    &&& forall|k: int|
                        0 <= k < old(self).faces_diffuse_coords@.len()
                            ==> #[trigger] final(self).faces_diffuse_coords@[k] == old(
                            self,
                        ).faces_diffuse_coords@[k]
                    &&& forall|k: int|
                        0 <= k < old(self).faces_normal_coords@.len()
                            ==> #[trigger] final(self).faces_normal_coords@[k] == old(
                            self,
                        ).faces_normal_coords@[k]
                    &&& final(self).faces@.last()@ == spec_line_face_row(face_line@, 0)
                    &&& final(self).faces_diffuse_coords@.last()@ == spec_line_face_row(
                        face_line@,
                        1,
                    )
                    &&& final(self).faces_normal_coords@.last()@ == spec_line_face_row(
                        face_line@,
                        2,
                    )
                    &&& final(self).nfaces == old(self).nfaces + 1
                }
                &&& final(self).verts == old(self).verts
                &&& final(self).uv_ == old(self).uv_
                &&& final(self).norms == old(self).norms
                &&& final(self).nverts == old(self).nverts
                &&& final(self).diffuse_map == old(self).diffuse_map
                &&& final(self).normal_map == old(self).normal_map
                &&& final(self).specular_map == old(self).specular_map
                &&& final(self).nfaces as int == final(self).faces@.len()
                &&& !r ==> *final(self) == *old(self)
            }),
    {
        let toks: Vec<&str> = trim_whitespace(face_line);
        let ghost all_toks = spec_tokens(face_line@);
        let mut trips: Vec<(i32, i32, i32)> = Vec::new();
        let mut i: usize = 0;
        while i < toks.len()
            invariant
                i <= toks@.len(),
                all_toks == spec_tokens(face_line@),
                toks@.len() == all_toks.len(),
                *self == *old(self),
                old(self).nfaces as int == old(self).faces@.len(),
                old(self).faces@.len() < 2147483647,
                forall|k: int| 0 <= k < toks@.len() ==> (#[trigger] toks@[k])@ == all_toks[k],
                ({
                    let done = spec_face_toks_from(all_toks, 0).take(
                        spec_face_toks_from(all_toks, 0).len() - spec_face_toks_from(
                            all_toks,
                            i as int,
                        ).len(),
                    );
                    &&& spec_face_toks_from(all_toks, 0) =~= done + spec_face_toks_from(
                        all_toks,
                        i as int,
                    )
                    &&& trips@.len() == done.len()
                    &&& forall|k: int|
                        0 <= k < done.len() ==> spec_triple_ok(#[trigger] done[k]) && (
                        trips@[k].0 as int,
                        trips@[k].1 as int,
                        trips@[k].2 as int,
                        ) == spec_triple_vals(done[k])
                }),
            decreases toks@.len() - i,
        {
            let t: &str = toks[i];
            let ghost done_pre = spec_face_toks_from(all_toks, 0).take(
                spec_face_toks_from(all_toks, 0).len() - spec_face_toks_from(
                    all_toks,
                    i as int,
                ).len(),
            );
            if !is_f(t) {
                match parse_triple(t) {
                    Some(v) => {
                        trips.push(v);
                        proof {
                            assert(spec_face_toks_from(all_toks, i as int) =~= seq![
                                all_toks[i as int],
                            ] + spec_face_toks_from(all_toks, i as int + 1));
                            let done_post = spec_face_toks_from(all_toks, 0).take(
                                spec_face_toks_from(all_toks, 0).len() - spec_face_toks_from(
                                    all_toks,
                                    i as int + 1,
                                ).len(),
                            );
                            assert(done_post =~= done_pre.push(all_toks[i as int]));
                        }
                    },
                    None => {
                        proof {
                            assert(spec_face_toks_from(all_toks, i as int) =~= seq![
                                all_toks[i as int],
                            ] + spec_face_toks_from(all_toks, i as int + 1));
                            let ft = spec_face_toks_from(spec_tokens(face_line@), 0);
                            assert(ft.len() == done_pre.len() + spec_face_toks_from(
                                all_toks,
                                i as int,
                            ).len());
                            assert(ft[done_pre.len() as int] == all_toks[i as int]);
                            assert(!spec_triple_ok(ft[done_pre.len() as int]));
                            if ft.len() == 3 {
                                assert(done_pre.len() <= 2);
                                assert(!(spec_triple_ok(ft[0]) && spec_triple_ok(ft[1])
                                    && spec_triple_ok(ft[2])));
                            }
                        }
                        return false;
                    },
                }
            }
            i = i + 1;
        }
        proof {
            assert(spec_face_toks_from(all_toks, toks@.len() as int) =~= Seq::<Seq<char>>::empty());
            let ft = spec_face_toks_from(spec_tokens(face_line@), 0);
            assert(ft.take(ft.len() as int) =~= ft);
            assert(trips@.len() == ft.len());
        }
        if trips.len() != 3 {
            return false;
        }
        let t0 = trips[0];
        let t1 = trips[1];
        let t2 = trips[2];
        let mut face: Vec<i32> = Vec::new();
        face.push(t0.0);
        face.push(t1.0);
        face.push(t2.0);
        let mut face_texture: Vec<i32> = Vec::new();
        face_texture.push(t0.1);
        face_texture.push(t1.1);
        face_texture.push(t2.1);
        let mut face_normal: Vec<i32> = Vec::new();
        face_normal.push(t0.2);
        face_normal.push(t1.2);
        face_normal.push(t2.2);
        self.faces.push(face);
        self.faces_diffuse_coords.push(face_texture);
        self.faces_normal_coords.push(face_normal);
        self.nfaces = self.nfaces + 1;
        proof {
            let ft = spec_face_toks_from(spec_tokens(face_line@), 0);
            assert(ft.take(3) =~= ft);
        }
        true
    }
}

/// A line of the given two-character kind tag.
pub open spec fn spec_line_is(l: Seq<char>, c0: char, c1: char) -> bool {
    l.len() >= 2 && l[0] == c0 && l[1] == c1
}

/// How many lines of a kind follow from position `i` on.
pub open spec fn spec_count_from(ls: Seq<Seq<char>>, i: int, c0: char, c1: char) -> int
    decreases ls.len() - i,
    when 0 <= i <= ls.len()
{
    if i >= ls.len() {
        0
    } else {
        (if spec_line_is(ls[i], c0, c1) {
            1int
        } else {
            0int
        }) + spec_count_from(ls, i + 1, c0, c1)
    }
}

/// The vectors collected from the lines of one kind, in file order.
pub open spec fn spec_vec_lines_from(ls: Seq<Seq<char>>, i: int, c0: char, c1: char) -> Seq<Vec3>
    decreases ls.len() - i,
    when 0 <= i <= ls.len()
{
    if i >= ls.len() {
        Seq::empty()
    } else if spec_line_is(ls[i], c0, c1) {
        seq![spec_line_vec3(ls[i])] + spec_vec_lines_from(ls, i + 1, c0, c1)
    } else {
        spec_vec_lines_from(ls, i + 1, c0, c1)
    }
}

/// The index rows collected from the face lines, in file order, for
/// one of the three lists (see `spec_line_face_row`).
pub open spec fn spec_face_rows_from(ls: Seq<Seq<char>>, i: int, slot: int) -> Seq<Seq<i32>>
    decreases ls.len() - i,
    when 0 <= i <= ls.len()
{
    if i >= ls.len() {
        Seq::empty()
    } else if spec_line_is(ls[i], 'f', ' ') {
        seq![spec_line_face_row(ls[i], slot)] + spec_face_rows_from(ls, i + 1, slot)
    } else {
        spec_face_rows_from(ls, i + 1, slot)
    }
}

/// Whether one line parses: vertex-attribute and face lines by their
/// grammars, every other line (including short ones) trivially.
pub open spec fn spec_line_ok(l: Seq<char>) -> bool {
    if spec_line_is(l, 'v', ' ') || spec_line_is(l, 'v', 't') || spec_line_is(l, 'v', 'n') {
        spec_vec_line_ok(l)
    } else if spec_line_is(l, 'f', ' ') {
        spec_face_line_ok(l)
    } else {
        true
    }
}

/// When a mesh can be built from its text lines and maps: the line
/// count fits the 32-bit counters, every line parses, every face index
/// lands inside the collected attribute lists, every attribute is
/// within the representable range, and the maps are usable.
pub open spec fn spec_obj_ok(
    ls: Seq<Seq<char>>,
    dmap: RasterImage,
    nmap: RasterImage,
    smap: RasterImage,
) -> bool {
    let verts = spec_vec_lines_from(ls, 0, 'v', ' ');
    let uv = spec_vec_lines_from(ls, 0, 'v', 't');
    let norms = spec_vec_lines_from(ls, 0, 'v', 'n');
    let rows_v = spec_face_rows_from(ls, 0, 0);
    let rows_t = spec_face_rows_from(ls, 0, 1);
    let rows_n = spec_face_rows_from(ls, 0, 2);
    &&& ls.len() <= 2147483646
    &&& forall|k: int| 0 <= k < ls.len() ==> spec_line_ok(#[trigger] ls[k])
    &&& forall|k: int, j: int|
        0 <= k < rows_v.len() && 0 <= j < 3 ==> 0 <= #[trigger] rows_v[k][j] < verts.len()
    &&& forall|k: int, j: int|
        0 <= k < rows_t.len() && 0 <= j < 3 ==> 0 <= #[trigger] rows_t[k][j] < uv.len()
    &&& forall|k: int, j: int|
        0 <= k < rows_n.len() && 0 <= j < 3 ==> 0 <= #[trigger] rows_n[k][j] < norms.len()
    &&& forall|k: int| 0 <= k < verts.len() ==> vec3_bounded(#[trigger] verts[k], FX_MM as int)
    &&& forall|k: int| 0 <= k < uv.len() ==> vec3_bounded(#[trigger] uv[k], FX_SCALE as int)
    &&& forall|k: int| 0 <= k < norms.len() ==> vec3_bounded(#[trigger] norms[k], FX_MM as int)
    &&& map_wf(dmap)
    &&& map_wf(nmap)
    &&& map_wf(smap)
}

/// Why a mesh could not be built from its text lines.
#[derive(Clone, Copy, PartialEq, Eq, Structural, Debug)]
pub enum ModelError {
    /// A `v`, `vt`, `vn` or `f` line did not parse.
    BadLine,
    /// The parsed data does not form a usable mesh: an index out of
    /// range, an attribute out of bounds, or a count too large.
    Malformed,
}

impl Model {
    /// Decides well-formedness at run time.
    pub fn check_wf(&self) -> (r: bool)
        ensures
            r == self.wf(),
    {
        if self.faces.len() > 2147483647 || self.verts.len() > 2147483647 {
            return false;
        }
        if self.nfaces != self.faces.len() as i32 {
            return false;
        }
        if self.nverts != self.verts.len() as i32 {
            return false;
        }
        if self.faces_diffuse_coords.len() != self.faces.len() {
            return false;
        }
        if self.faces_normal_coords.len() != self.faces.len() {
            return false;
        }
        let nf: usize = self.faces.len();
        let mut i: usize = 0;
        while i < nf
            invariant
                i <= nf,
                nf == self.faces@.len(),
                self.faces_diffuse_coords@.len() == nf,
                self.faces_normal_coords@.len() == nf,
                forall|k: int| 0 <= k < i as int ==> (#[trigger] self.faces@[k]).len() == 3,
                forall|k: int|
                    0 <= k < i as int ==> (#[trigger] self.faces_diffuse_coords@[k]).len() == 3,
                forall|k: int|
                    0 <= k < i as int ==> (#[trigger] self.faces_normal_coords@[k]).len() == 3,
                forall|k: int, j: int|
                    0 <= k < i as int && 0 <= j < 3 ==> 0 <= #[trigger] self.faces@[k][j]
                        < self.verts@.len(),
                forall|k: int, j: int|
                    0 <= k < i as int && 0 <= j < 3
                        ==> 0 <= #[trigger] self.faces_diffuse_coords@[k][j] < self.uv_@.len(),
                forall|k: int, j: int|
                    0 <= k < i as int && 0 <= j < 3
                        ==> 0 <= #[trigger] self.faces_normal_coords@[k][j] < self.norms@.len(),
            decreases nf - i,
        {
            if self.faces[i].len() != 3 || self.faces_diffuse_coords[i].len() != 3
                || self.faces_normal_coords[i].len() != 3 {
                return false;
            }
            let mut j: usize = 0;
            while j < 3
                invariant
                    j <= 3,
                    i < nf == self.faces@.len(),
                    self.faces_diffuse_coords@.len() == nf,
                    self.faces_normal_coords@.len() == nf,
                    self.faces@[i as int].len() == 3,
                    self.faces_diffuse_coords@[i as int].len() == 3,
                    self.faces_normal_coords@[i as int].len() == 3,
                    forall|jj: int|
                        0 <= jj < j as int ==> 0 <= #[trigger] self.faces@[i as int][jj]
                            < self.verts@.len(),
                    forall|jj: int|
                        0 <= jj < j as int ==> 0 <= #[trigger] self.faces_diffuse_coords@[
                            i as int
                        ][jj] < self.uv_@.len(),
                    forall|jj: int|
                        0 <= jj < j as int ==> 0 <= #[trigger] self.faces_normal_coords@[
                            i as int
                        ][jj] < self.norms@.len(),
                decreases 3 - j,
            {
                let a: i32 = self.faces[i][j];
                let b: i32 = self.faces_diffuse_coords[i][j];
                let c: i32 = self.faces_normal_coords[i][j];
                if a < 0 || (a as usize) >= self.verts.len() {
                    return false;
                }
                if b < 0 || (b as usize) >= self.uv_.len() {
                    return false;
                }
                if c < 0 || (c as usize) >= self.norms.len() {
                    return false;
                }
                j = j + 1;
            }
            i = i + 1;
        }
        let mut k: usize = 0;
        while k < self.verts.len()
            invariant
                k <= self.verts@.len(),
                forall|t: int|
                    0 <= t < k as int ==> vec3_bounded(#[trigger] self.verts@[t], FX_MM as int),
            decreases self.verts@.len() - k,
        {
            let v = self.verts[k];
            if v.x.bits < -FX_MM || v.x.bits > FX_MM || v.y.bits < -FX_MM || v.y.bits > FX_MM
                || v.z.bits < -FX_MM || v.z.bits > FX_MM {
                return false;
            }
            k = k + 1;
        }
        let mut k2: usize = 0;
        while k2 < self.uv_.len()
            invariant
                k2 <= self.uv_@.len(),
                forall|t: int|
                    0 <= t < k2 as int ==> vec3_bounded(#[trigger] self.uv_@[t], FX_SCALE as int),
            decreases self.uv_@.len() - k2,
        {
            let v = self.uv_[k2];
            if v.x.bits < -FX_SCALE || v.x.bits > FX_SCALE || v.y.bits < -FX_SCALE || v.y.bits
                > FX_SCALE || v.z.bits < -FX_SCALE || v.z.bits > FX_SCALE {
                return false;
            }
            k2 = k2 + 1;
        }
        let mut k3: usize = 0;
        while k3 < self.norms.len()
            invariant
                k3 <= self.norms@.len(),
                forall|t: int|
                    0 <= t < k3 as int ==> vec3_bounded(#[trigger] self.norms@[t], FX_MM as int),
            decreases self.norms@.len() - k3,
        {
            let v = self.norms[k3];
            if v.x.bits < -FX_MM || v.x.bits > FX_MM || v.y.bits < -FX_MM || v.y.bits > FX_MM
                || v.z.bits < -FX_MM || v.z.bits > FX_MM {
                return false;
            }
            k3 = k3 + 1;
        }
        if self.diffuse_map.width() < 1 || self.diffuse_map.height() < 1 {
            return false;
        }
        if self.normal_map.width() < 1 || self.normal_map.height() < 1 {
            return false;
        }
        if self.specular_map.width() < 1 || self.specular_map.height() < 1 {
            return false;
        }
        true
    }

    /// Builds a mesh from the text lines of its description and its
    /// three decoded material maps.  A `v`, `vt` or `vn` line yields a
    /// vector, an `f` line a row in each of the three index lists;
    /// other lines are skipped, as are lines shorter than the two
    /// characters the dispatch reads.  Success is `spec_obj_ok`
    /// exactly: the line count fits the 32-bit counters, every line
    /// parses, the face indices land inside the collected lists, the
    /// attributes are representable, and the maps are usable.
    /// `BadLine` reports a line that does not parse; `Malformed`
    /// anything else that leaves the mesh unusable.
    pub fn from_lines(
        lines: &Vec<String>,
        diffuse_map: RasterImage,
        normal_map: RasterImage,
        specular_map: RasterImage,
    ) -> (r: Result<Model, ModelError>)
        ensures
            ({
                let ls = lines@.map_values(|l: String| l@);
                &&& (r is Ok <==> spec_obj_ok(ls, diffuse_map, normal_map, specular_map))
                &&& (r == Err::<Model, ModelError>(ModelError::BadLine) <==> ls.len()
                    <= 2147483646 && !(forall|k: int|
                    0 <= k < ls.len() ==> spec_line_ok(#[trigger] ls[k])))
                &&& (r == Err::<Model, ModelError>(ModelError::Malformed) <==> (ls.len()
                    > 2147483646 || ((forall|k: int|
                    0 <= k < ls.len() ==> spec_line_ok(#[trigger] ls[k])) && !spec_obj_ok(
                    ls,
                    diffuse_map,
                    normal_map,
                    specular_map,
                ))))
            }),
            r is Ok ==> (r->Ok_0).wf(),
            r is Ok ==> (r->Ok_0).diffuse_map == diffuse_map,
            r is Ok ==> (r->Ok_0).normal_map == normal_map,
            r is Ok ==> (r->Ok_0).specular_map == specular_map,
            r is Ok ==> ({
                let ls = lines@.map_values(|l: String| l@);
                &&& (r->Ok_0).verts@ == spec_vec_lines_from(ls, 0, 'v', ' ')
                &&& (r->Ok_0).uv_@ == spec_vec_lines_from(ls, 0, 'v', 't')
                &&& (r->Ok_0).norms@ == spec_vec_lines_from(ls, 0, 'v', 'n')
                &&& (r->Ok_0).faces@.len() == spec_face_rows_from(ls, 0, 0).len()
                &&& (r->Ok_0).faces_diffuse_coords@.len() == spec_face_rows_from(ls, 0, 1).len()
                &&& (r->Ok_0).faces_normal_coords@.len() == spec_face_rows_from(ls, 0, 2).len()
                &&& forall|k: int|
                    0 <= k < (r->Ok_0).faces@.len() ==> (#[trigger] (r->Ok_0).faces@[k])@
                        == spec_face_rows_from(ls, 0, 0)[k]
                &&& forall|k: int|
                    0 <= k < (r->Ok_0).faces_diffuse_coords@.len()
                        ==> (#[trigger] (r->Ok_0).faces_diffuse_coords@[k])@
                        == spec_face_rows_from(ls, 0, 1)[k]
                &&& forall|k: int|
                    0 <= k < (r->Ok_0).faces_normal_coords@.len()
                        ==> (#[trigger] (r->Ok_0).faces_normal_coords@[k])@
                        == spec_face_rows_from(ls, 0, 2)[k]
            }),
    {
        let ghost ls = lines@.map_values(|l: String| l@);
        if lines.len() > 2147483646 {
            return Err(ModelError::Malformed);
        }
        let mut model = Model {
            nfaces: 0,
            nverts: 0,
            faces: Vec::new(),
            faces_diffuse_coords: Vec::new(),
            faces_normal_coords: Vec::new(),
            verts: Vec::new(),
            uv_: Vec::new(),
            norms: Vec::new(),
            diffuse_map,
            normal_map,
            specular_map,
        };
        proof {
            assert(spec_face_rows_from(ls, 0, 0) =~= spec_face_rows_from(ls, 0, 0).skip(0));
            assert(spec_face_rows_from(ls, 0, 1) =~= spec_face_rows_from(ls, 0, 1).skip(0));
            assert(spec_face_rows_from(ls, 0, 2) =~= spec_face_rows_from(ls, 0, 2).skip(0));
        }
        let mut i: usize = 0;
        while i < lines.len()
            invariant
                i <= lines@.len(),
                ls == lines@.map_values(|l: String| l@),
                ls.len() == lines@.len(),
                ls.len() <= 2147483646,
                model.nfaces as int == model.faces@.len(),
                model.diffuse_map == diffuse_map,
                model.normal_map == normal_map,
                model.specular_map == specular_map,
                model.verts@.len() <= i as int,
                model.faces@.len() <= i as int,
                model.faces_diffuse_coords@.len() == model.faces@.len(),
                model.faces_normal_coords@.len() == model.faces@.len(),
                forall|k: int| 0 <= k < i as int ==> spec_line_ok(#[trigger] ls[k]),
                spec_vec_lines_from(ls, 0, 'v', ' ') == model.verts@ + spec_vec_lines_from(
                    ls,
                    i as int,
                    'v',
                    ' ',
                ),
                spec_vec_lines_from(ls, 0, 'v', 't') == model.uv_@ + spec_vec_lines_from(
                    ls,
                    i as int,
                    'v',
                    't',
                ),
                spec_vec_lines_from(ls, 0, 'v', 'n') == model.norms@ + spec_vec_lines_from(
                    ls,
                    i as int,
                    'v',
                    'n',
                ),
                model.faces@.len() + spec_face_rows_from(ls, i as int, 0).len()
                    == spec_face_rows_from(ls, 0, 0).len(),
                model.faces@.len() + spec_face_rows_from(ls, i as int, 1).len()
                    == spec_face_rows_from(ls, 0, 1).len(),
                model.faces@.len() + spec_face_rows_from(ls, i as int, 2).len()
                    == spec_face_rows_from(ls, 0, 2).len(),
                spec_face_rows_from(ls, i as int, 0) == spec_face_rows_from(ls, 0, 0).skip(
                    model.faces@.len() as int,
                ),
                spec_face_rows_from(ls, i as int, 1) == spec_face_rows_from(ls, 0, 1).skip(
                    model.faces@.len() as int,
                ),
                spec_face_rows_from(ls, i as int, 2) == spec_face_rows_from(ls, 0, 2).skip(
                    model.faces@.len() as int,
                ),
                forall|k: int|
                    0 <= k < model.faces@.len() ==> (#[trigger] model.faces@[k])@
                        == spec_face_rows_from(ls, 0, 0)[k],
                forall|k: int|
                    0 <= k < model.faces@.len()
                        ==> (#[trigger] model.faces_diffuse_coords@[k])@ == spec_face_rows_from(
                        ls,
                        0,
                        1,
                    )[k],
                forall|k: int|
                    0 <= k < model.faces@.len()
                        ==> (#[trigger] model.faces_normal_coords@[k])@ == spec_face_rows_from(
                        ls,
                        0,
                        2,
                    )[k],
            decreases lines@.len() - i,
        {
            let l: &str = lines[i].as_str();
            proof {
                assert(l@ == ls[i as int]);
            }
            let n: usize = l.unicode_len();
            let mut c0: char = ' ';
            let mut c1: char = ' ';
            if n >= 2 {
                c0 = l.get_char(0);
                c1 = l.get_char(1);
            }
            let ghost faces_pre = model.faces@;
            if n >= 2 && c0 == 'v' && c1 == ' ' {
                if !Model::add_line_float_vector(&mut model.verts, l) {
                    proof {
                        lemma_bad_line_witness(ls, i as int);
                    }
                    return Err(ModelError::BadLine);
                }
                proof {
                    assert(spec_vec_lines_from(ls, i as int, 'v', ' ') =~= seq![
                        spec_line_vec3(ls[i as int]),
                    ] + spec_vec_lines_from(ls, i as int + 1, 'v', ' '));
                    assert(spec_vec_lines_from(ls, 0, 'v', ' ') =~= model.verts@
                        + spec_vec_lines_from(ls, i as int + 1, 'v', ' '));
                }
            } else if n >= 2 && c0 == 'f' && c1 == ' ' {
                if !model.add_face_from_line(l) {
                    proof {
                        lemma_bad_line_witness(ls, i as int);
                    }
                    return Err(ModelError::BadLine);
                }
                proof {
                    let pl = faces_pre.len() as int;
                    let t0 = spec_face_rows_from(ls, 0, 0);
                    let t1 = spec_face_rows_from(ls, 0, 1);
                    let t2 = spec_face_rows_from(ls, 0, 2);
                    assert(spec_face_rows_from(ls, i as int, 0) =~= seq![
                        spec_line_face_row(ls[i as int], 0),
                    ] + spec_face_rows_from(ls, i as int + 1, 0));
                    assert(spec_face_rows_from(ls, i as int, 1) =~= seq![
                        spec_line_face_row(ls[i as int], 1),
                    ] + spec_face_rows_from(ls, i as int + 1, 1));
                    assert(spec_face_rows_from(ls, i as int, 2) =~= seq![
                        spec_line_face_row(ls[i as int], 2),
                    ] + spec_face_rows_from(ls, i as int + 1, 2));
                    assert(0 <= pl && pl + 1 <= t0.len());
                    assert(t0.skip(pl).len() == t0.len() - pl);
                    assert(t1.skip(pl).len() == t1.len() - pl);
                    assert(t2.skip(pl).len() == t2.len() - pl);
                    assert forall|k: int|
                        0 <= k < spec_face_rows_from(ls, i as int + 1, 0).len()
                        implies #[trigger] spec_face_rows_from(ls, i as int + 1, 0)[k] == t0.skip(
                        pl + 1,
                    )[k] by {
                        assert(spec_face_rows_from(ls, i as int + 1, 0)[k]
                            == spec_face_rows_from(ls, i as int, 0)[k + 1]);
                        assert(t0.skip(pl)[k + 1] == t0[pl + k + 1]);
                        assert(t0.skip(pl + 1)[k] == t0[pl + 1 + k]);
                    }
                    assert(spec_face_rows_from(ls, i as int + 1, 0) =~= t0.skip(pl + 1));
                    assert forall|k: int|
                        0 <= k < spec_face_rows_from(ls, i as int + 1, 1).len()
                        implies #[trigger] spec_face_rows_from(ls, i as int + 1, 1)[k] == t1.skip(
                        pl + 1,
                    )[k] by {
                        assert(spec_face_rows_from(ls, i as int + 1, 1)[k]
                            == spec_face_rows_from(ls, i as int, 1)[k + 1]);
                        assert(t1.skip(pl)[k + 1] == t1[pl + k + 1]);
                        assert(t1.skip(pl + 1)[k] == t1[pl + 1 + k]);
                    }
                    assert(spec_face_rows_from(ls, i as int + 1, 1) =~= t1.skip(pl + 1));
                    assert forall|k: int|
                        0 <= k < spec_face_rows_from(ls, i as int + 1, 2).len()
                        implies #[trigger] spec_face_rows_from(ls, i as int + 1, 2)[k] == t2.skip(
                        pl + 1,
                    )[k] by {
                        assert(spec_face_rows_from(ls, i as int + 1, 2)[k]
                            == spec_face_rows_from(ls, i as int, 2)[k + 1]);
                        assert(t2.skip(pl)[k + 1] == t2[pl + k + 1]);
                        assert(t2.skip(pl + 1)[k] == t2[pl + 1 + k]);
                    }
                    assert(spec_face_rows_from(ls, i as int + 1, 2) =~= t2.skip(pl + 1));
                    assert(t0[pl] == t0.skip(pl)[0]);
                    assert(t1[pl] == t1.skip(pl)[0]);
                    assert(t2[pl] == t2.skip(pl)[0]);
                    assert(model.faces@[pl]@ == t0[pl]);
                    assert(model.faces_diffuse_coords@[pl]@ == t1[pl]);
                    assert(model.faces_normal_coords@[pl]@ == t2[pl]);
                }
            } else if n >= 2 && c0 == 'v' && c1 == 't' {
                if !Model::add_line_float_vector(&mut model.uv_, l) {
                    proof {
                        lemma_bad_line_witness(ls, i as int);
                    }
                    return Err(ModelError::BadLine);
                }
                proof {
                    assert(spec_vec_lines_from(ls, i as int, 'v', 't') =~= seq![
                        spec_line_vec3(ls[i as int]),
                    ] + spec_vec_lines_from(ls, i as int + 1, 'v', 't'));
                    assert(spec_vec_lines_from(ls, 0, 'v', 't') =~= model.uv_@
                        + spec_vec_lines_from(ls, i as int + 1, 'v', 't'));
                }
            } else if n >= 2 && c0 == 'v' && c1 == 'n' {
                if !Model::add_line_float_vector(&mut model.norms, l) {
                    proof {
                        lemma_bad_line_witness(ls, i as int);
                    }
                    return Err(ModelError::BadLine);
                }
                proof {
                    assert(spec_vec_lines_from(ls, i as int, 'v', 'n') =~= seq![
                        spec_line_vec3(ls[i as int]),
                    ] + spec_vec_lines_from(ls, i as int + 1, 'v', 'n'));
                    assert(spec_vec_lines_from(ls, 0, 'v', 'n') =~= model.norms@
                        + spec_vec_lines_from(ls, i as int + 1, 'v', 'n'));
                }
            } else {
                proof {
                    assert(!spec_line_is(ls[i as int], 'v', ' ') && !spec_line_is(
                        ls[i as int],
                        'f',
                        ' ',
                    ) && !spec_line_is(ls[i as int], 'v', 't') && !spec_line_is(
                        ls[i as int],
                        'v',
                        'n',
                    ));
                }
            }
            i = i + 1;
        }
        proof {
            assert(spec_vec_lines_from(ls, ls.len() as int, 'v', ' ') =~= Seq::<Vec3>::empty());
            assert(spec_vec_lines_from(ls, ls.len() as int, 'v', 't') =~= Seq::<Vec3>::empty());
            assert(spec_vec_lines_from(ls, ls.len() as int, 'v', 'n') =~= Seq::<Vec3>::empty());
            assert(model.verts@ =~= spec_vec_lines_from(ls, 0, 'v', ' '));
            assert(model.uv_@ =~= spec_vec_lines_from(ls, 0, 'v', 't'));
            assert(model.norms@ =~= spec_vec_lines_from(ls, 0, 'v', 'n'));
            assert(spec_face_rows_from(ls, ls.len() as int, 0) =~= Seq::<Seq<i32>>::empty());
            assert(spec_face_rows_from(ls, ls.len() as int, 1) =~= Seq::<Seq<i32>>::empty());
            assert(spec_face_rows_from(ls, ls.len() as int, 2) =~= Seq::<Seq<i32>>::empty());
            assert(model.faces@.len() == spec_face_rows_from(ls, 0, 0).len());
            assert(model.faces_diffuse_coords@.len() == spec_face_rows_from(ls, 0, 1).len());
            assert(model.faces_normal_coords@.len() == spec_face_rows_from(ls, 0, 2).len());
        }
        model.nverts = model.verts.len() as i32;
        let wf_now = model.check_wf();
        proof {
            lemma_built_wf_bridge(model, ls, diffuse_map, normal_map, specular_map);
        }
        if wf_now {
            Ok(model)
        } else {
            Err(ModelError::Malformed)
        }
    }
}

/// One line that fails its grammar refutes the all-lines condition.
proof fn lemma_bad_line_witness(ls: Seq<Seq<char>>, i: int)
    requires
        0 <= i < ls.len(),
        !spec_line_ok(ls[i]),
    ensures
        !(forall|k: int| 0 <= k < ls.len() ==> spec_line_ok(#[trigger] ls[k])),
{
}

/// Every collected face row has exactly three entries.
proof fn lemma_face_rows_len3(ls: Seq<Seq<char>>, i: int, slot: int)
    requires
        0 <= i <= ls.len(),
    ensures
        forall|k: int|
            0 <= k < spec_face_rows_from(ls, i, slot).len() ==> (#[trigger] spec_face_rows_from(
                ls,
                i,
                slot,
            )[k]).len() == 3,
    decreases ls.len() - i,
{
    if i < ls.len() {
        lemma_face_rows_len3(ls, i + 1, slot);
        if !spec_line_is(ls[i], 'f', ' ') {
            assert(spec_face_rows_from(ls, i, slot) == spec_face_rows_from(ls, i + 1, slot));
            assert forall|k: int|
                0 <= k < spec_face_rows_from(ls, i, slot).len() implies (
            #[trigger] spec_face_rows_from(ls, i, slot)[k]).len() == 3 by {
                assert(spec_face_rows_from(ls, i, slot)[k] == spec_face_rows_from(
                    ls,
                    i + 1,
                    slot,
                )[k]);
            }
        }
        if spec_line_is(ls[i], 'f', ' ') {
            assert forall|k: int|
                0 <= k < spec_face_rows_from(ls, i, slot).len() implies (
            #[trigger] spec_face_rows_from(ls, i, slot)[k]).len() == 3 by {
                if k == 0 {
                    assert(spec_face_rows_from(ls, i, slot)[0] == spec_line_face_row(
                        ls[i],
                        slot,
                    ));
                } else {
                    assert(spec_face_rows_from(ls, i, slot)[k] == spec_face_rows_from(
                        ls,
                        i + 1,
                        slot,
                    )[k - 1]);
                }
            }
        }
    }
}

/// A mesh assembled exactly from the collected lines is well-formed
/// precisely when `spec_obj_ok` holds of those lines and maps.
proof fn lemma_built_wf_bridge(
    m: Model,
    ls: Seq<Seq<char>>,
    dmap: RasterImage,
    nmap: RasterImage,
    smap: RasterImage,
)
    requires
        ls.len() <= 2147483646,
        forall|k: int| 0 <= k < ls.len() ==> spec_line_ok(#[trigger] ls[k]),
        m.diffuse_map == dmap,
        m.normal_map == nmap,
        m.specular_map == smap,
        m.nfaces as int == m.faces@.len(),
        m.nverts as int == m.verts@.len(),
        m.faces_diffuse_coords@.len() == m.faces@.len(),
        m.faces_normal_coords@.len() == m.faces@.len(),
        m.verts@ == spec_vec_lines_from(ls, 0, 'v', ' '),
        m.uv_@ == spec_vec_lines_from(ls, 0, 'v', 't'),
        m.norms@ == spec_vec_lines_from(ls, 0, 'v', 'n'),
        m.faces@.len() == spec_face_rows_from(ls, 0, 0).len(),
        m.faces_diffuse_coords@.len() == spec_face_rows_from(ls, 0, 1).len(),
        m.faces_normal_coords@.len() == spec_face_rows_from(ls, 0, 2).len(),
        forall|k: int|
            0 <= k < m.faces@.len() ==> (#[trigger] m.faces@[k])@ == spec_face_rows_from(
                ls,
                0,
                0,
            )[k],
        forall|k: int|
            0 <= k < m.faces@.len() ==> (#[trigger] m.faces_diffuse_coords@[k])@
                == spec_face_rows_from(ls, 0, 1)[k],
        forall|k: int|
            0 <= k < m.faces@.len() ==> (#[trigger] m.faces_normal_coords@[k])@
                == spec_face_rows_from(ls, 0, 2)[k],
    ensures
        m.wf() <==> spec_obj_ok(ls, dmap, nmap, smap),
{
    let verts = spec_vec_lines_from(ls, 0, 'v', ' ');
    let uv = spec_vec_lines_from(ls, 0, 'v', 't');
    let norms = spec_vec_lines_from(ls, 0, 'v', 'n');
    let rows_v = spec_face_rows_from(ls, 0, 0);
    let rows_t = spec_face_rows_from(ls, 0, 1);
    let rows_n = spec_face_rows_from(ls, 0, 2);
    lemma_face_rows_len3(ls, 0, 0);
    lemma_face_rows_len3(ls, 0, 1);
    lemma_face_rows_len3(ls, 0, 2);
    if m.wf() {
        assert forall|k: int, j: int|
            0 <= k < rows_v.len() && 0 <= j < 3 implies 0 <= #[trigger] rows_v[k][j]
            < verts.len() by {
            assert(m.faces@[k]@ == rows_v[k]);
            assert(0 <= m.faces[k][j] < m.verts.len());
        }
        assert forall|k: int, j: int|
            0 <= k < rows_t.len() && 0 <= j < 3 implies 0 <= #[trigger] rows_t[k][j]
            < uv.len() by {
            assert(m.faces_diffuse_coords@[k]@ == rows_t[k]);
            assert(0 <= m.faces_diffuse_coords[k][j] < m.uv_.len());
        }
        assert forall|k: int, j: int|
            0 <= k < rows_n.len() && 0 <= j < 3 implies 0 <= #[trigger] rows_n[k][j]
            < norms.len() by {
            assert(m.faces_normal_coords@[k]@ == rows_n[k]);
            assert(0 <= m.faces_normal_coords[k][j] < m.norms.len());
        }
        assert forall|k: int| 0 <= k < verts.len() implies vec3_bounded(
            #[trigger] verts[k],
            FX_MM as int,
        ) by {
            assert(verts[k] == m.verts@[k]);
        }
        assert forall|k: int| 0 <= k < uv.len() implies vec3_bounded(
            #[trigger] uv[k],
            FX_SCALE as int,
        ) by {
            assert(uv[k] == m.uv_@[k]);
        }
        assert forall|k: int| 0 <= k < norms.len() implies vec3_bounded(
            #[trigger] norms[k],
            FX_MM as int,
        ) by {
            assert(norms[k] == m.norms@[k]);
        }
        assert(spec_obj_ok(ls, dmap, nmap, smap));
    }
    if spec_obj_ok(ls, dmap, nmap, smap) {
        assert forall|k: int| 0 <= k < m.faces@.len() implies (#[trigger] m.faces[k]).len()
            == 3 by {
            assert(m.faces@[k]@ == rows_v[k]);
            assert(rows_v[k].len() == 3);
        }
        assert forall|k: int|
            0 <= k < m.faces@.len() implies (#[trigger] m.faces_diffuse_coords[k]).len() == 3 by {
            assert(m.faces_diffuse_coords@[k]@ == rows_t[k]);
            assert(rows_t[k].len() == 3);
        }
        assert forall|k: int|
            0 <= k < m.faces@.len() implies (#[trigger] m.faces_normal_coords[k]).len() == 3 by {
            assert(m.faces_normal_coords@[k]@ == rows_n[k]);
            assert(rows_n[k].len() == 3);
        }
        assert forall|k: int, j: int|
            0 <= k < m.faces@.len() && 0 <= j < 3 implies 0 <= #[trigger] m.faces[k][j]
            < m.verts.len() by {
            assert(m.faces@[k]@ == rows_v[k]);
            assert(0 <= rows_v[k][j] < verts.len());
        }
        assert forall|k: int, j: int|
            0 <= k < m.faces@.len() && 0 <= j < 3 implies 0
            <= #[trigger] m.faces_diffuse_coords[k][j] < m.uv_.len() by {
            assert(m.faces_diffuse_coords@[k]@ == rows_t[k]);
            assert(0 <= rows_t[k][j] < uv.len());
        }
        assert forall|k: int, j: int|
            0 <= k < m.faces@.len() && 0 <= j < 3 implies 0
            <= #[trigger] m.faces_normal_coords[k][j] < m.norms.len() by {
            assert(m.faces_normal_coords@[k]@ == rows_n[k]);
            assert(0 <= rows_n[k][j] < norms.len());
        }
        assert forall|k: int| 0 <= k < m.verts@.len() implies vec3_bounded(
            #[trigger] m.verts@[k],
            FX_MM as int,
        ) by {
            assert(m.verts@[k] == verts[k]);
        }
        assert forall|k: int| 0 <= k < m.uv_@.len() implies vec3_bounded(
            #[trigger] m.uv_@[k],
            FX_SCALE as int,
        ) by {
            assert(m.uv_@[k] == uv[k]);
        }
        assert forall|k: int| 0 <= k < m.norms@.len() implies vec3_bounded(
            #[trigger] m.norms@[k],
            FX_MM as int,
        ) by {
            assert(m.norms@[k] == norms[k]);
        }
        assert(m.wf());
    }
}

} // verus!
