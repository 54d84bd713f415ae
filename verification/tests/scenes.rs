use raytracing::pixel::{dec_u8, pixel_record, Pixel, ToRgb};
use raytracing::rat::Rat;
use raytracing::scenes::{simple_ppm, simple_sphere, simple_viewport, surface_normals};
use raytracing::shade::ray_color_with_sphere_hit_only;
use raytracing::vec3::{Ray, Vec3};

#[test]
fn decimal_formatting() {
    assert_eq!(dec_u8(0), "0");
    assert_eq!(dec_u8(7), "7");
    assert_eq!(dec_u8(10), "10");
    assert_eq!(dec_u8(42), "42");
    assert_eq!(dec_u8(99), "99");
    assert_eq!(dec_u8(100), "100");
    assert_eq!(dec_u8(255), "255");
}

#[test]
fn record_formatting() {
    assert_eq!(pixel_record(Pixel { r: 255, g: 0, b: 64 }), "255 0 64\n");
    assert_eq!(pixel_record(Pixel { r: 0, g: 0, b: 0 }), "0 0 0\n");
}

#[test]
fn to_rgb_rounds_and_formats() {
    // (255.1, 0.4, 63.5) rounds to 255, 0 and 64
    let v = Vec3 { nx: 2551, ny: 4, nz: 635, den: 10 };
    assert_eq!(v.to_rgb_with_newline(), "255 0 64\n");
    // an overflowing channel saturates
    let w = Vec3 { nx: 2560, ny: -10, nz: 0, den: 10 };
    assert_eq!(w.to_rgb_with_newline(), "255 0 0\n");
}

#[test]
fn gradient_scene_matches_grammar() {
    let s = simple_ppm();
    let lines: Vec<&str> = s.lines().collect();
    assert_eq!(lines.len(), 3 + 256 * 256);
    assert_eq!(lines[0], "P3");
    assert_eq!(lines[1], "256 256");
    assert_eq!(lines[2], "255");
    // top-left pixel: column 0 of the topmost row (j = 255)
    assert_eq!(lines[3], "0 255 64");
    // bottom-right pixel: column 255 of the bottom row (j = 0)
    assert_eq!(lines[3 + 256 * 256 - 1], "255 0 64");
    assert!(s.ends_with('\n'));
}

#[test]
fn viewport_scene_blends_sky() {
    let s = simple_viewport();
    let lines: Vec<&str> = s.lines().collect();
    assert_eq!(lines.len(), 3 + 768 * 432);
    assert_eq!(lines[1], "768 432");
    // topmost row: t = 2/3, color (2/3, 4/5, 1) scaled by 255
    assert_eq!(lines[3], "170 204 255");
    // bottom row: t = 1/3, color (5/6, 9/10, 1); 212.5 rounds away to 213
    assert_eq!(lines[3 + 768 * 432 - 1], "213 230 255");
}

#[test]
fn flat_sphere_scene_center_is_red() {
    let s = simple_sphere();
    let lines: Vec<&str> = s.lines().collect();
    assert_eq!(lines.len(), 3 + 768 * 432);
    // the ray straight at the sphere: row j = 216 (row index 215), i = 384
    assert_eq!(lines[3 + 215 * 768 + 384], "255 0 0");
    // a corner ray misses and falls back to the sky gradient
    assert_eq!(lines[3], "170 204 255");
}

#[test]
fn flat_sphere_policy_yields_red_on_center_ray() {
    let ray = Ray {
        origin: Vec3::from_ints(0, 0, 0),
        direction: Vec3::from_ints(0, 0, -1),
    };
    let c = ray_color_with_sphere_hit_only(&ray);
    let record = c.scale(&Rat::from_int(255)).to_rgb_with_newline();
    assert_eq!(record, "255 0 0\n");
}

#[test]
fn normal_scene_sky_fallback_scales_by_256() {
    let s = surface_normals();
    let lines: Vec<&str> = s.lines().collect();
    assert_eq!(lines.len(), 3 + 768 * 432);
    // the top-left ray misses: the sky color is scaled by 256 here,
    // not 255, so the blue channel saturates at 255
    assert_eq!(lines[3], "171 205 255");
}

#[test]
fn normal_scene_shades_the_sphere() {
    let s = surface_normals();
    let lines: Vec<&str> = s.lines().collect();
    // the ray straight at the sphere hits it at (0, 0, -1/2), where the
    // normal is (0, 0, 1/2) before the fixed division by 3; shading
    // gives 0.5 * 256 * (1 + n / 3)
    let center = lines[3 + 215 * 768 + 384];
    let parts: Vec<&str> = center.split(' ').collect();
    assert_eq!(parts.len(), 3);
    let r: i32 = parts[0].parse().unwrap();
    let g: i32 = parts[1].parse().unwrap();
    let b: i32 = parts[2].parse().unwrap();
    // the remapped normal components stay within [0, 2]
    assert!(r >= 0 && r <= 255);
    assert!(g >= 0 && g <= 255);
    assert!(b > r && b > g);
}
