use vstd::prelude::*;

use crate::pixel::{records_string, spec_pixel_of, spec_records, vec_to_pixel, Pixel};
use crate::rat::{rat_round, Rat, Ratv};
use crate::shade::{
    dir_ok, ray_color, ray_color_with_sphere_hit_only, ray_color_with_sphere_with_normal,
    spec_flat_color, spec_normal_color, spec_sky,
};
use crate::vec3::{
    spec_vadd, spec_vdiv, spec_vscale, spec_vsub, veqv, Ray, Rayv, Vec3, Vec3v,
};
use vstd::string::StringExecFns;

verus! {

// ---------------------------------------------------------------------
// The viewport ray of a pixel
// ---------------------------------------------------------------------
/// The direction of the ray cast through pixel column `i` and row `j` of
/// the 768 x 432 viewport, held over the common denominator
/// `6903 * 431`.
pub open spec fn spec_scene_dir(i: int, j: int) -> Vec3v {
    Vec3v {
        x: Ratv { n: 16 * (2 * i - 767) * 431, d: 2975193 },
        y: Ratv { n: (2 * j - 431) * 6903, d: 2975193 },
        z: Ratv { n: -2975193, d: 2975193 },
    }
}

/// The same direction built as the renderer describes it: from the
/// viewport's lower-left corner, its horizontal and vertical extents and
/// the focal offset, with `x = i / 767` and `y = j / 431`.
pub open spec fn spec_viewport_chain(i: int, j: int) -> Vec3v {
    let origin = Vec3v {
        x: Ratv { n: 0, d: 1 },
        y: Ratv { n: 0, d: 1 },
        z: Ratv { n: 0, d: 1 },
    };
    let horizontal = Vec3v {
        x: Ratv { n: 32, d: 9 },
        y: Ratv { n: 0, d: 1 },
        z: Ratv { n: 0, d: 1 },
    };
    let vertical = Vec3v {
        x: Ratv { n: 0, d: 1 },
        y: Ratv { n: 2, d: 1 },
        z: Ratv { n: 0, d: 1 },
    };
    let focal = Vec3v {
        x: Ratv { n: 0, d: 1 },
        y: Ratv { n: 0, d: 1 },
        z: Ratv { n: 1, d: 1 },
    };
    let two = Ratv { n: 2, d: 1 };
    let lower_left = spec_vsub(
        spec_vsub(spec_vsub(origin, spec_vdiv(horizontal, two)), spec_vdiv(vertical, two)),
        focal,
    );
    let x = Ratv { n: i, d: 767 };
    let y = Ratv { n: j, d: 431 };
    spec_vsub(
        spec_vadd(spec_vadd(lower_left, spec_vscale(horizontal, x)), spec_vscale(vertical, y)),
        origin,
    )
}

/// The compact direction equals the direction built from the viewport
/// quantities.
pub proof fn lemma_scene_dir_matches_viewport(i: int, j: int)
    ensures
        veqv(spec_scene_dir(i, j), spec_viewport_chain(i, j)),
{
    let a = spec_scene_dir(i, j);
    let b = spec_viewport_chain(i, j);
    assert(a.x.n * b.x.d == b.x.n * a.x.d) by (nonlinear_arith)
        requires
            a == spec_scene_dir(i, j),
            b == spec_viewport_chain(i, j),
    ;
    assert(a.y.n * b.y.d == b.y.n * a.y.d) by (nonlinear_arith)
        requires
            a == spec_scene_dir(i, j),
            b == spec_viewport_chain(i, j),
    ;
    assert(a.z.n * b.z.d == b.z.n * a.z.d) by (nonlinear_arith)
        requires
            a == spec_scene_dir(i, j),
            b == spec_viewport_chain(i, j),
    ;
}

/// The ray direction of pixel `(i, j)`.
pub fn viewport_direction(i: u32, j: u32) -> (r: Vec3)
    requires
        i < 768,
        j < 432,
    ensures
        r.wf(),
        r@ == spec_scene_dir(i as int, j as int),
        dir_ok(r@),
{
    let ii = i as i128;
    let jj = j as i128;
    Vec3 {
        nx: 16 * (2 * ii - 767) * 431,
        ny: (2 * jj - 431) * 6903,
        nz: -2975193,
        den: 2975193,
    }
}

// ---------------------------------------------------------------------
// Per-pixel evaluation of the four scenes
// ---------------------------------------------------------------------
/// The gradient scene's pixel at column `i`, row `j`: red rises with the
/// column, green with the row, and blue is the constant 0.25, so the
/// channels are `i`, `j` and 64.
pub open spec fn spec_gradient_pixel(i: int, j: int) -> Pixel {
    Pixel { r: i as u8, g: j as u8, b: 64u8 }
}

pub open spec fn scene_ray(i: int, j: int) -> Rayv {
    Rayv {
        origin: Vec3v {
            x: Ratv { n: 0, d: 1 },
            y: Ratv { n: 0, d: 1 },
            z: Ratv { n: 0, d: 1 },
        },
        direction: spec_scene_dir(i, j),
    }
}

pub open spec fn spec_sky_pixel(i: int, j: int) -> Pixel {
    spec_pixel_of(spec_vscale(spec_sky(spec_scene_dir(i, j)), Ratv { n: 255, d: 1 }))
}

pub open spec fn spec_flat_pixel(i: int, j: int) -> Pixel {
    spec_pixel_of(spec_vscale(spec_flat_color(scene_ray(i, j)), Ratv { n: 255, d: 1 }))
}

pub open spec fn spec_normal_pixel(i: int, j: int) -> Pixel {
    spec_pixel_of(spec_normal_color(scene_ray(i, j)))
}

/// An integer quotient from its bracketing multiple.
proof fn lemma_div_exact(a: int, b: int, q: int)
    by (nonlinear_arith)
    requires
        0 < b,
        q * b <= a < (q + 1) * b,
    ensures
        a / b == q,
{
}

/// The channel arithmetic of the gradient scene: `i / 255 * 255` rounds
/// back to `i`, and `0.25 * 255` rounds to 64.
pub fn gradient_pixel(i: u32, j: u32) -> (p: Pixel)
    requires
        i < 256,
        j < 256,
    ensures
        p == spec_gradient_pixel(i as int, j as int),
{
    let w255 = Rat::from_int(255);
    let ri = Rat::from_int(i as i128).div(&w255).mul(&w255);
    let gj = Rat::from_int(j as i128).div(&w255).mul(&w255);
    let bq = Rat::new(1, 4).mul(&w255);
    proof {
        lemma_div_exact(2 * (255 * (i as int)) + 255, (2 * 255) as int, i as int);
        lemma_div_exact(2 * (255 * (j as int)) + 255, (2 * 255) as int, j as int);
        lemma_div_exact((2 * 255 + 4) as int, (2 * 4) as int, 64 as int);
        assert(rat_round(ri@) == i as int);
        assert(rat_round(gj@) == j as int);
        assert(rat_round(bq@) == 64);
    }
    Pixel { r: ri.to_byte(), g: gj.to_byte(), b: bq.to_byte() }
}

pub fn sky_pixel(i: u32, j: u32) -> (p: Pixel)
    requires
        i < 768,
        j < 432,
    ensures
        p == spec_sky_pixel(i as int, j as int),
{
    let direction = viewport_direction(i, j);
    let origin = Vec3::from_ints(0, 0, 0);
    let ray = Ray { origin, direction };
    let col = ray_color(&ray);
    proof {
        crate::shade::lemma_scale_255(col@);
    }
    let w255 = Rat::from_int(255);
    let scaled = col.scale(&w255);
    vec_to_pixel(&scaled)
}

pub fn flat_pixel(i: u32, j: u32) -> (p: Pixel)
    requires
        i < 768,
        j < 432,
    ensures
        p == spec_flat_pixel(i as int, j as int),
{
    let direction = viewport_direction(i, j);
    let origin = Vec3::from_ints(0, 0, 0);
    let ray = Ray { origin, direction };
    let col = ray_color_with_sphere_hit_only(&ray);
    proof {
        crate::shade::lemma_scale_255(col@);
    }
    let w255 = Rat::from_int(255);
    let scaled = col.scale(&w255);
    vec_to_pixel(&scaled)
}

pub fn normal_pixel(i: u32, j: u32) -> (p: Pixel)
    requires
        i < 768,
        j < 432,
    ensures
        p == spec_normal_pixel(i as int, j as int),
{
    let direction = viewport_direction(i, j);
    let origin = Vec3::from_ints(0, 0, 0);
    let ray = Ray { origin, direction };
    let col = ray_color_with_sphere_with_normal(&ray);
    vec_to_pixel(&col)
}

// ---------------------------------------------------------------------
// The four scenes
// ---------------------------------------------------------------------
/// The pixels of the gradient scene, top row first.
pub open spec fn gradient_pixels() -> Seq<Pixel> {
    Seq::new(65536, |k: int| spec_gradient_pixel(k % 256, 255 - k / 256))
}

pub open spec fn sky_pixels() -> Seq<Pixel> {
    Seq::new(331776, |k: int| spec_sky_pixel(k % 768, 431 - k / 768))
}

pub open spec fn flat_pixels() -> Seq<Pixel> {
    Seq::new(331776, |k: int| spec_flat_pixel(k % 768, 431 - k / 768))
}

pub open spec fn normal_pixels() -> Seq<Pixel> {
    Seq::new(331776, |k: int| spec_normal_pixel(k % 768, 431 - k / 768))
}

/// An index in a raster row splits into its row and column.
proof fn lemma_row_index(row: int, i: int, w: int)
    by (nonlinear_arith)
    requires
        0 <= i < w,
        0 <= row,
        0 < w,
    ensures
        (row * w + i) / w == row,
        (row * w + i) % w == i,
{
}

pub fn render_gradient() -> (pix: Vec<Pixel>)
    ensures
        pix@ == gradient_pixels(),
{
    let mut pix: Vec<Pixel> = Vec::new();
    let mut row: u32 = 0;
    while row < 256
        invariant
            row <= 256,
            pix@.len() == row * 256,
            forall|k: int| 0 <= k < pix@.len() ==> pix@[k] == gradient_pixels()[k],
        decreases 256 - row,
    {
        let j = 255 - row;
        let mut i: u32 = 0;
        while i < 256
            invariant
                i <= 256,
                row < 256,
                j == 255 - row,
                pix@.len() == row * 256 + i,
                forall|k: int| 0 <= k < pix@.len() ==> pix@[k] == gradient_pixels()[k],
            decreases 256 - i,
        {
            let p = gradient_pixel(i, j);
            proof {
                lemma_row_index(row as int, i as int, 256);
            }
            pix.push(p);
            i = i + 1;
        }
        row = row + 1;
    }
    proof {
        assert(pix@ =~= gradient_pixels());
    }
    pix
}

pub fn render_sky() -> (pix: Vec<Pixel>)
    ensures
        pix@ == sky_pixels(),
{
    let mut pix: Vec<Pixel> = Vec::new();
    let mut row: u32 = 0;
    while row < 432
        invariant
            row <= 432,
            pix@.len() == row * 768,
            forall|k: int| 0 <= k < pix@.len() ==> pix@[k] == sky_pixels()[k],
        decreases 432 - row,
    {
        let j = 431 - row;
        let mut i: u32 = 0;
        while i < 768
            invariant
                i <= 768,
                row < 432,
                j == 431 - row,
                pix@.len() == row * 768 + i,
                forall|k: int| 0 <= k < pix@.len() ==> pix@[k] == sky_pixels()[k],
            decreases 768 - i,
        {
            let p = sky_pixel(i, j);
            proof {
                lemma_row_index(row as int, i as int, 768);
            }
            pix.push(p);
            i = i + 1;
        }
        row = row + 1;
    }
    proof {
        assert(pix@ =~= sky_pixels());
    }
    pix
}

pub fn render_flat_sphere() -> (pix: Vec<Pixel>)
    ensures
        pix@ == flat_pixels(),
{
    let mut pix: Vec<Pixel> = Vec::new();
    let mut row: u32 = 0;
    while row < 432
        invariant
            row <= 432,
            pix@.len() == row * 768,
            forall|k: int| 0 <= k < pix@.len() ==> pix@[k] == flat_pixels()[k],
        decreases 432 - row,
    {
        let j = 431 - row;
        let mut i: u32 = 0;
        while i < 768
            invariant
                i <= 768,
                row < 432,
                j == 431 - row,
                pix@.len() == row * 768 + i,
                forall|k: int| 0 <= k < pix@.len() ==> pix@[k] == flat_pixels()[k],
            decreases 768 - i,
        {
            let p = flat_pixel(i, j);
            proof {
                lemma_row_index(row as int, i as int, 768);
            }
            pix.push(p);
            i = i + 1;
        }
        row = row + 1;
    }
    proof {
        assert(pix@ =~= flat_pixels());
    }
    pix
}

pub fn render_normals() -> (pix: Vec<Pixel>)
    ensures
        pix@ == normal_pixels(),
{
    let mut pix: Vec<Pixel> = Vec::new();
    let mut row: u32 = 0;
    while row < 432
        invariant
            row <= 432,
            pix@.len() == row * 768,
            forall|k: int| 0 <= k < pix@.len() ==> pix@[k] == normal_pixels()[k],
        decreases 432 - row,
    {
        let j = 431 - row;
        let mut i: u32 = 0;
        while i < 768
            invariant
                i <= 768,
                row < 432,
                j == 431 - row,
                pix@.len() == row * 768 + i,
                forall|k: int| 0 <= k < pix@.len() ==> pix@[k] == normal_pixels()[k],
            decreases 768 - i,
        {
            let p = normal_pixel(i, j);
            proof {
                lemma_row_index(row as int, i as int, 768);
            }
            pix.push(p);
            i = i + 1;
        }
        row = row + 1;
    }
    proof {
        assert(pix@ =~= normal_pixels());
    }
    pix
}

/// The complete text of the gradient scene's image: the header, then one
/// record for each pixel of the 256 x 256 raster, top row first.
pub fn simple_ppm() -> (r: String)
    ensures
        r@ == "P3\n256 256\n255\n"@ + spec_records(gradient_pixels()),
{
    let pix = render_gradient();
    let body = records_string(&pix);
    let mut out = String::from_str("P3\n256 256\n255\n");
    out.append(body.as_str());
    out
}

/// The complete text of the sky-gradient viewport scene's image, on the
/// 768 x 432 raster.
pub fn simple_viewport() -> (r: String)
    ensures
        r@ == "P3\n768 432\n255\n"@ + spec_records(sky_pixels()),
{
    let pix = render_sky();
    let body = records_string(&pix);
    let mut out = String::from_str("P3\n768 432\n255\n");
    out.append(body.as_str());
    out
}

/// The complete text of the flat-shaded sphere scene's image, on the
/// 768 x 432 raster.
pub fn simple_sphere() -> (r: String)
    ensures
        r@ == "P3\n768 432\n255\n"@ + spec_records(flat_pixels()),
{
    let pix = render_flat_sphere();
    let body = records_string(&pix);
    let mut out = String::from_str("P3\n768 432\n255\n");
    out.append(body.as_str());
    out
}

/// The complete text of the normal-shaded sphere scene's image, on the
/// 768 x 432 raster.
pub fn surface_normals() -> (r: String)
    ensures
        r@ == "P3\n768 432\n255\n"@ + spec_records(normal_pixels()),
{
    let pix = render_normals();
    let body = records_string(&pix);
    let mut out = String::from_str("P3\n768 432\n255\n");
    out.append(body.as_str());
    out
}

} // verus!
