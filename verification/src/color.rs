//! RGBA colors over fixed-point channels.
//!
//! Channels are unbounded during light transport (radiance may exceed one
//! unit) and are clamped only by the final 8-bit quantization step.

use vstd::prelude::*;
use crate::fixed::{abs_i, clamp_s, fxdiv_s, fxmul_s, fxdiv, fxmul, clamp, lemma_abs_mul_bound};

verus! {

/// The mathematical shadow of a `Color`: four channels over unbounded integers.
pub ghost struct C4 {
    pub r: int,
    pub g: int,
    pub b: int,
    pub a: int,
}

/// All four channels within magnitude `m`.
pub open spec fn bounded_c(c: C4, m: int) -> bool {
    abs_i(c.r) <= m && abs_i(c.g) <= m && abs_i(c.b) <= m && abs_i(c.a) <= m
}

/// All four channels nonnegative.
pub open spec fn nonneg_c(c: C4) -> bool {
    c.r >= 0 && c.g >= 0 && c.b >= 0 && c.a >= 0
}

/// Channelwise order: `x` at most `y` in every channel.
pub open spec fn le_c(x: C4, y: C4) -> bool {
    x.r <= y.r && x.g <= y.g && x.b <= y.b && x.a <= y.a
}

/// Channelwise sum.
pub open spec fn add_c(x: C4, y: C4) -> C4 {
    C4 { r: x.r + y.r, g: x.g + y.g, b: x.b + y.b, a: x.a + y.a }
}

/// Channelwise fixed-point product: light filtered by a material.
pub open spec fn mul_c(x: C4, y: C4) -> C4 {
    C4 {
        r: fxmul_s(x.r, y.r),
        g: fxmul_s(x.g, y.g),
        b: fxmul_s(x.b, y.b),
        a: fxmul_s(x.a, y.a),
    }
}

/// Every channel scaled by the fixed-point factor `k`.
pub open spec fn scale_c(k: int, x: C4) -> C4 {
    C4 { r: fxmul_s(x.r, k), g: fxmul_s(x.g, k), b: fxmul_s(x.b, k), a: fxmul_s(x.a, k) }
}

/// Every channel divided by the fixed-point factor `k`.
pub open spec fn div_c(x: C4, k: int) -> C4 {
    C4 { r: fxdiv_s(x.r, k), g: fxdiv_s(x.g, k), b: fxdiv_s(x.b, k), a: fxdiv_s(x.a, k) }
}

/// One channel quantized to an 8-bit pixel value: times 255, rounded toward
/// zero, clamped into `[0, 255]`.
pub open spec fn quantize_s(c: int) -> int {
    clamp_s(fxmul_s(c, 255), 0, 255)
}

/// An 8-bit channel lifted to fixed point: `v / 255` in real terms.
pub open spec fn channel_s(v: int) -> int {
    (v * 65536) / 255
}

/// The fixed-point color of an 8-bit RGB triple, fully opaque.
pub open spec fn rgb_s(r: int, g: int, b: int) -> C4 {
    C4 { r: channel_s(r), g: channel_s(g), b: channel_s(b), a: 65536 }
}

/// The `Color` holding a mathematical quadruple (faithful whenever the
/// channels fit the scalar range).
pub open spec fn color_of(c: C4) -> Color {
    Color { r: c.r as i64, g: c.g as i64, b: c.b as i64, a: c.a as i64 }
}

/// An RGBA color with fixed-point channels.
#[derive(Clone, Copy, PartialEq, Eq, Structural, Debug)]
pub struct Color {
    pub r: i64,
    pub g: i64,
    pub b: i64,
    pub a: i64,
}

impl Color {
    /// The mathematical shadow of this color.
    pub open spec fn m(self) -> C4 {
        C4 { r: self.r as int, g: self.g as int, b: self.b as int, a: self.a as int }
    }

    pub fn new(r: i64, g: i64, b: i64, a: i64) -> (c: Color)
        ensures
            c.m() == (C4 { r: r as int, g: g as int, b: b as int, a: a as int }),
    {
        Color { r, g, b, a }
    }

    /// The color of an 8-bit RGB triple, fully opaque.
    pub fn from_rgb8(r: u8, g: u8, b: u8) -> (c: Color)
        ensures
            c.m() == rgb_s(r as int, g as int, b as int),
            nonneg_c(c.m()),
            bounded_c(c.m(), 65536),
    {
        let cr: i64 = ((r as u64) * 65536 / 255) as i64;
        let cg: i64 = ((g as u64) * 65536 / 255) as i64;
        let cb: i64 = ((b as u64) * 65536 / 255) as i64;
        Color { r: cr, g: cg, b: cb, a: 65536 }
    }

    pub fn add(&self, o: &Color) -> (c: Color)
        requires
            bounded_c(self.m(), 0x2000_0000_0000_0000),
            bounded_c(o.m(), 0x2000_0000_0000_0000),
        ensures
            c.m() == add_c(self.m(), o.m()),
    {
        Color { r: self.r + o.r, g: self.g + o.g, b: self.b + o.b, a: self.a + o.a }
    }

    /// Channelwise product: this light filtered by the other color.
    pub fn mul(&self, o: &Color) -> (c: Color)
        requires
            bounded_c(self.m(), 0x80_0000_0000),
            bounded_c(o.m(), 0x80_0000_0000),
        ensures
            c.m() == mul_c(self.m(), o.m()),
    {
        proof {
            lemma_abs_mul_bound(self.m().r, o.m().r, 0x80_0000_0000, 0x80_0000_0000);
            lemma_abs_mul_bound(self.m().g, o.m().g, 0x80_0000_0000, 0x80_0000_0000);
            lemma_abs_mul_bound(self.m().b, o.m().b, 0x80_0000_0000, 0x80_0000_0000);
            lemma_abs_mul_bound(self.m().a, o.m().a, 0x80_0000_0000, 0x80_0000_0000);
        }
        Color {
            r: fxmul(self.r, o.r),
            g: fxmul(self.g, o.g),
            b: fxmul(self.b, o.b),
            a: fxmul(self.a, o.a),
        }
    }

    /// Every channel scaled by the fixed-point factor `k`.
    pub fn scale(&self, k: i64) -> (c: Color)
        requires
            bounded_c(self.m(), 0x80_0000_0000),
            abs_i(k as int) <= 0x80_0000_0000,
        ensures
            c.m() == scale_c(k as int, self.m()),
    {
        proof {
            lemma_abs_mul_bound(self.m().r, k as int, 0x80_0000_0000, 0x80_0000_0000);
            lemma_abs_mul_bound(self.m().g, k as int, 0x80_0000_0000, 0x80_0000_0000);
            lemma_abs_mul_bound(self.m().b, k as int, 0x80_0000_0000, 0x80_0000_0000);
            lemma_abs_mul_bound(self.m().a, k as int, 0x80_0000_0000, 0x80_0000_0000);
        }
        Color {
            r: fxmul(self.r, k),
            g: fxmul(self.g, k),
            b: fxmul(self.b, k),
            a: fxmul(self.a, k),
        }
    }

    /// Every channel divided by the fixed-point factor `k`.
    pub fn div(&self, k: i64) -> (c: Color)
        requires
            k != 0,
            bounded_c(self.m(), 0x4000_0000_0000),
        ensures
            c.m() == div_c(self.m(), k as int),
    {
        Color {
            r: fxdiv(self.r, k),
            g: fxdiv(self.g, k),
            b: fxdiv(self.b, k),
            a: fxdiv(self.a, k),
        }
    }

    /// Quantize to four 8-bit values, clamping each channel into `[0, 255]`.
    pub fn into_u8(self) -> (p: [u8; 4])
        requires
            bounded_c(self.m(), 0x4000_0000_0000),
        ensures
            p@.len() == 4,
            p@[0] == quantize_s(self.m().r),
            p@[1] == quantize_s(self.m().g),
            p@[2] == quantize_s(self.m().b),
            p@[3] == quantize_s(self.m().a),
    {
        proof {
            lemma_abs_mul_bound(self.m().r, 255, 0x4000_0000_0000, 255);
            lemma_abs_mul_bound(self.m().g, 255, 0x4000_0000_0000, 255);
            lemma_abs_mul_bound(self.m().b, 255, 0x4000_0000_0000, 255);
            lemma_abs_mul_bound(self.m().a, 255, 0x4000_0000_0000, 255);
        }
        let pr: u8 = clamp(fxmul(self.r, 255), 0, 255) as u8;
        let pg: u8 = clamp(fxmul(self.g, 255), 0, 255) as u8;
        let pb: u8 = clamp(fxmul(self.b, 255), 0, 255) as u8;
        let pa: u8 = clamp(fxmul(self.a, 255), 0, 255) as u8;
        [pr, pg, pb, pa]
    }
}

/// The sky: the fixed background radiance of rays that leave the scene.
pub fn skyblue() -> (c: Color)
    ensures
        c.m() == rgb_s(102, 191, 255),
        nonneg_c(c.m()),
        bounded_c(c.m(), 65536),
{
    Color::from_rgb8(102, 191, 255)
}

pub fn black() -> (c: Color)
    ensures
        c.m() == rgb_s(0, 0, 0),
        nonneg_c(c.m()),
        bounded_c(c.m(), 65536),
{
    Color::from_rgb8(0, 0, 0)
}

pub fn white() -> (c: Color)
    ensures
        c.m() == rgb_s(255, 255, 255),
        nonneg_c(c.m()),
        bounded_c(c.m(), 65536),
{
    Color::from_rgb8(255, 255, 255)
}

pub fn red() -> (c: Color)
    ensures
        c.m() == rgb_s(230, 41, 55),
        nonneg_c(c.m()),
        bounded_c(c.m(), 65536),
{
    Color::from_rgb8(230, 41, 55)
}

pub fn green() -> (c: Color)
    ensures
        c.m() == rgb_s(0, 228, 48),
        nonneg_c(c.m()),
        bounded_c(c.m(), 65536),
{
    Color::from_rgb8(0, 228, 48)
}

pub fn blue() -> (c: Color)
    ensures
        c.m() == rgb_s(0, 121, 241),
        nonneg_c(c.m()),
        bounded_c(c.m(), 65536),
{
    Color::from_rgb8(0, 121, 241)
}

pub fn gold() -> (c: Color)
    ensures
        c.m() == rgb_s(255, 203, 0),
        nonneg_c(c.m()),
        bounded_c(c.m(), 65536),
{
    Color::from_rgb8(255, 203, 0)
}

pub fn orange() -> (c: Color)
    ensures
        c.m() == rgb_s(255, 161, 0),
        nonneg_c(c.m()),
        bounded_c(c.m(), 65536),
{
    Color::from_rgb8(255, 161, 0)
}

pub fn violet() -> (c: Color)
    ensures
        c.m() == rgb_s(135, 60, 190),
        nonneg_c(c.m()),
        bounded_c(c.m(), 65536),
{
    Color::from_rgb8(135, 60, 190)
}

pub fn lime() -> (c: Color)
    ensures
        c.m() == rgb_s(0, 158, 47),
        nonneg_c(c.m()),
        bounded_c(c.m(), 65536),
{
    Color::from_rgb8(0, 158, 47)
}

pub fn purple() -> (c: Color)
    ensures
        c.m() == rgb_s(200, 122, 255),
        nonneg_c(c.m()),
        bounded_c(c.m(), 65536),
{
    Color::from_rgb8(200, 122, 255)
}

pub fn raywhite() -> (c: Color)
    ensures
        c.m() == rgb_s(245, 245, 245),
        nonneg_c(c.m()),
        bounded_c(c.m(), 65536),
{
    Color::from_rgb8(245, 245, 245)
}

} // verus!
