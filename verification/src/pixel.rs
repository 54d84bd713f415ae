use vstd::prelude::*;

use crate::rat::{clamp_byte, rat_round, sfits, Rat, Ratv};
use crate::vec3::{Vec3, Vec3v};
use vstd::string::StringExecFns;

verus! {

/// One pixel of the raster: a red, green and blue channel byte.
#[derive(Clone, Copy, PartialEq, Eq, Structural, Debug)]
pub struct Pixel {
    pub r: u8,
    pub g: u8,
    pub b: u8,
}

/// The decimal digit `d` as a character.
pub open spec fn digit_char(d: int) -> char {
    if d == 0 {
        '0'
    } else if d == 1 {
        '1'
    } else if d == 2 {
        '2'
    } else if d == 3 {
        '3'
    } else if d == 4 {
        '4'
    } else if d == 5 {
        '5'
    } else if d == 6 {
        '6'
    } else if d == 7 {
        '7'
    } else if d == 8 {
        '8'
    } else {
        '9'
    }
}

/// The decimal digits of a channel value `0 <= v <= 255`, without leading
/// zeros.
pub open spec fn spec_dec(v: int) -> Seq<char> {
    if v < 10 {
        seq![digit_char(v)]
    } else if v < 100 {
        seq![digit_char(v / 10), digit_char(v % 10)]
    } else {
        seq![digit_char(v / 100), digit_char((v / 10) % 10), digit_char(v % 10)]
    }
}

/// One line of the image body: the three channels in decimal, separated
/// by single spaces, closed by a newline.
pub open spec fn spec_record(p: Pixel) -> Seq<char> {
    spec_dec(p.r as int) + seq![' '] + spec_dec(p.g as int) + seq![' '] + spec_dec(p.b as int)
        + seq!['\n']
}

/// The records of all pixels of `s`, in order.
pub open spec fn spec_records(s: Seq<Pixel>) -> Seq<char>
    decreases s.len(),
{
    if s.len() == 0 {
        Seq::empty()
    } else {
        spec_records(s.drop_last()) + spec_record(s.last())
    }
}

/// The channel a rational color component yields: rounded to the nearest
/// integer, halves away from zero, then saturated into one byte.
pub open spec fn byte_of(q: Ratv) -> u8 {
    clamp_byte(rat_round(q))
}

/// The pixel a rational color vector yields.
pub open spec fn spec_pixel_of(v: Vec3v) -> Pixel {
    Pixel { r: byte_of(v.x), g: byte_of(v.y), b: byte_of(v.z) }
}

/// The rounding arithmetic on `q` stays within 128 bits.
pub open spec fn round_fits(q: Ratv) -> bool {
    sfits(2 * q.n + q.d) && sfits((-2) * q.n + q.d) && sfits(2 * q.d)
}

pub open spec fn pixel_fits(v: Vec3v) -> bool {
    round_fits(v.x) && round_fits(v.y) && round_fits(v.z)
}

fn digit_str(d: u8) -> (r: &'static str)
    requires
        d < 10,
    ensures
        r@ == seq![digit_char(d as int)],
{
    let r: &'static str = if d == 0 {
        "0"
    } else if d == 1 {
        "1"
    } else if d == 2 {
        "2"
    } else if d == 3 {
        "3"
    } else if d == 4 {
        "4"
    } else if d == 5 {
        "5"
    } else if d == 6 {
        "6"
    } else if d == 7 {
        "7"
    } else if d == 8 {
        "8"
    } else {
        "9"
    };
    proof {
        reveal_strlit("0");
        reveal_strlit("1");
        reveal_strlit("2");
        reveal_strlit("3");
        reveal_strlit("4");
        reveal_strlit("5");
        reveal_strlit("6");
        reveal_strlit("7");
        reveal_strlit("8");
        reveal_strlit("9");
        assert(r@ =~= seq![digit_char(d as int)]);
    }
    r
}

/// The channel value `v` in decimal, without leading zeros.
pub fn dec_u8(v: u8) -> (r: String)
    ensures
        r@ == spec_dec(v as int),
{
    if v < 10 {
        let s = String::from_str(digit_str(v));
        proof {
            assert(s@ =~= spec_dec(v as int));
        }
        s
    } else if v < 100 {
        let mut s = String::from_str(digit_str(v / 10));
        s.append(digit_str(v % 10));
        proof {
            assert(s@ =~= spec_dec(v as int));
        }
        s
    } else {
        let mut s = String::from_str(digit_str(v / 100));
        s.append(digit_str((v / 10) % 10));
        s.append(digit_str(v % 10));
        proof {
            assert(s@ =~= spec_dec(v as int));
        }
        s
    }
}

/// The record line of one pixel.
pub fn pixel_record(p: Pixel) -> (r: String)
    ensures
        r@ == spec_record(p),
{
    let mut s = dec_u8(p.r);
    s.append(" ");
    let g = dec_u8(p.g);
    s.append(g.as_str());
    s.append(" ");
    let b = dec_u8(p.b);
    s.append(b.as_str());
    s.append("\n");
    proof {
        reveal_strlit(" ");
        reveal_strlit("\n");
        assert(s@ =~= spec_record(p));
    }
    s
}

/// The records of all pixels, concatenated in order.
pub fn records_string(pixels: &Vec<Pixel>) -> (r: String)
    ensures
        r@ == spec_records(pixels@),
{
    let mut s = String::new();
    let mut i: usize = 0;
    proof {
        assert(pixels@.take(0) =~= Seq::<Pixel>::empty());
    }
    while i < pixels.len()
        invariant
            i <= pixels.len(),
            s@ == spec_records(pixels@.take(i as int)),
        decreases pixels.len() - i,
    {
        let rec = pixel_record(pixels[i]);
        s.append(rec.as_str());
        proof {
            let t = pixels@.take(i + 1);
            assert(t.drop_last() =~= pixels@.take(i as int));
            assert(t.last() == pixels@[i as int]);
        }
        i = i + 1;
    }
    proof {
        assert(pixels@.take(pixels@.len() as int) =~= pixels@);
    }
    s
}

/// The pixel a color vector yields: each component rounded to the
/// nearest integer and saturated into one byte.
pub fn vec_to_pixel(v: &Vec3) -> (p: Pixel)
    requires
        v.wf(),
        pixel_fits(v@),
    ensures
        p == spec_pixel_of(v@),
{
    let x = Rat { num: v.nx, den: v.den };
    let y = Rat { num: v.ny, den: v.den };
    let z = Rat { num: v.nz, den: v.den };
    Pixel { r: x.to_byte(), g: y.to_byte(), b: z.to_byte() }
}

/// Formatting of a color as one image record line.
pub trait ToRgb {
    spec fn rgb_ok(&self) -> bool;

    spec fn rgb_chars(&self) -> Seq<char>;

    fn to_rgb_with_newline(&self) -> (r: String)
        requires
            self.rgb_ok(),
        ensures
            r@ == self.rgb_chars(),
    ;
}

impl ToRgb for Vec3 {
    open spec fn rgb_ok(&self) -> bool {
        self.wf() && pixel_fits(self@)
    }

    open spec fn rgb_chars(&self) -> Seq<char> {
        spec_record(spec_pixel_of(self@))
    }

    fn to_rgb_with_newline(&self) -> (r: String) {
        let p = vec_to_pixel(self);
        pixel_record(p)
    }
}

} // verus!
