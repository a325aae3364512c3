//! Pixel rasterization primitives over a plain framebuffer: a vector
//! of packed 0RGB pixels, row-major, `WIDTH` by `HEIGHT`.

use vstd::prelude::*;
use crate::math::isqrt;
use crate::math::lemma_sqrt_exists;
use crate::math::lemma_sqrt_unique;
use crate::math::sqrt_of;

verus! {

/// Framebuffer width in pixels.
pub const WIDTH: usize = 960;

/// Framebuffer height in pixels.
pub const HEIGHT: usize = 540;

/// Pack three 8-bit channels into one 0RGB pixel.
pub fn rgb(r: u8, g: u8, b: u8) -> (c: u32)
    ensures
        c == ((r as u32) << 16u32) | ((g as u32) << 8u32) | (b as u32),
{
    ((r as u32) << 16u32) | ((g as u32) << 8u32) | (b as u32)
}

/// Whether pixel index `i` lies in the clipped rectangle `[x, x + w) ×
/// [y, y + h)` of a row-major `WIDTH`-wide framebuffer.
pub open spec fn rect_covers(x: int, y: int, w: int, h: int, i: int) -> bool {
    let px = i % (WIDTH as int);
    let py = i / (WIDTH as int);
    &&& x <= px < x + w
    &&& y <= py < y + h
    &&& 0 <= px < WIDTH
    &&& 0 <= py < HEIGHT
}

/// Whether pixel index `i` lies in the rasterized circle of radius `r`
/// around `(cx, cy)`: within `r` rows of the center, and within that
/// row's half-width, the integer square root of `r^2 - dy^2`.
pub open spec fn circle_covers(cx: int, cy: int, r: int, i: int) -> bool {
    let px = i % (WIDTH as int);
    let py = i / (WIDTH as int);
    let dy = py - cy;
    &&& -r <= dy <= r
    &&& cx - sqrt_of(r * r - dy * dy) <= px <= cx + sqrt_of(r * r - dy * dy)
    &&& 0 <= px < WIDTH
    &&& 0 <= py < HEIGHT
}

/// Write one pixel, ignoring coordinates outside the framebuffer.
pub fn put_px(fb: &mut Vec<u32>, x: i32, y: i32, c: u32)
    requires
        old(fb)@.len() == WIDTH * HEIGHT,
    ensures
        final(fb)@.len() == old(fb)@.len(),
        0 <= x < WIDTH && 0 <= y < HEIGHT ==> final(fb)@ == old(fb)@.update(
            y as int * WIDTH + x as int,
            c,
        ),
        !(0 <= x < WIDTH && 0 <= y < HEIGHT) ==> final(fb)@ == old(fb)@,
{
    if x < 0 || y < 0 || x >= WIDTH as i32 || y >= HEIGHT as i32 {
        return ;
    }
    let i: usize = y as usize * WIDTH + x as usize;
    fb[i] = c;
}

/// Fill the clipped rectangle `[x, x + w) × [y, y + h)` with `c`,
/// leaving every other pixel alone.
#[verifier::loop_isolation(false)]
pub fn fill_rect(fb: &mut Vec<u32>, x: i32, y: i32, w: i32, h: i32, c: u32)
    requires
        old(fb)@.len() == WIDTH * HEIGHT,
        -1_000_000 <= x <= 1_000_000,
        -1_000_000 <= y <= 1_000_000,
        -1_000_000 <= w <= 1_000_000,
        -1_000_000 <= h <= 1_000_000,
    ensures
        final(fb)@.len() == old(fb)@.len(),
        forall|i: int|
            0 <= i < final(fb)@.len() ==> final(fb)@[i] == (if rect_covers(
                x as int,
                y as int,
                w as int,
                h as int,
                i,
            ) {
                c
            } else {
                old(fb)@[i]
            }),
{
    let x0: i32 = if x > 0 {
        x
    } else {
        0
    };
    let y0: i32 = if y > 0 {
        y
    } else {
        0
    };
    let x1: i32 = if x + w < WIDTH as i32 {
        x + w
    } else {
        WIDTH as i32
    };
    let y1: i32 = if y + h < HEIGHT as i32 {
        y + h
    } else {
        HEIGHT as i32
    };
    let mut yy = y0;
    while yy < y1
        invariant
            y0 <= yy <= (if y1 > y0 {
                y1
            } else {
                y0
            }),
            fb@.len() == WIDTH * HEIGHT,
            forall|i: int|
                0 <= i < fb@.len() ==> fb@[i] == (if rect_covers(
                    x as int,
                    y as int,
                    w as int,
                    h as int,
                    i,
                ) && i / (WIDTH as int) < yy {
                    c
                } else {
                    old(fb)@[i]
                }),
        decreases y1 - yy,
    {
        let mut xx = x0;
        while xx < x1
            invariant
                y0 <= yy < y1,
                x0 <= xx <= (if x1 > x0 {
                    x1
                } else {
                    x0
                }),
                fb@.len() == WIDTH * HEIGHT,
                forall|i: int|
                    0 <= i < fb@.len() ==> fb@[i] == (if rect_covers(
                        x as int,
                        y as int,
                        w as int,
                        h as int,
                        i,
                    ) && (i / (WIDTH as int) < yy || (i / (WIDTH as int) == yy && i % (
                    WIDTH as int) < xx)) {
                        c
                    } else {
                        old(fb)@[i]
                    }),
            decreases x1 - xx,
        {
            put_px(fb, xx, yy, c);
            proof {
                vstd::arithmetic::div_mod::lemma_fundamental_div_mod_converse(
                    yy as int * WIDTH + xx as int,
                    WIDTH as int,
                    yy as int,
                    xx as int,
                );
            }
            xx = xx + 1;
        }
        yy = yy + 1;
    }
}

/// Fill the rasterized circle of radius `r` around `(cx, cy)` with
/// `c`, leaving every other pixel alone; a nonpositive radius draws
/// nothing.
#[verifier::loop_isolation(false)]
pub fn fill_circle(fb: &mut Vec<u32>, cx: i32, cy: i32, r: i32, c: u32)
    requires
        old(fb)@.len() == WIDTH * HEIGHT,
        r <= 20_000,
        -1_000_000 <= cx <= 1_000_000,
        -1_000_000 <= cy <= 1_000_000,
    ensures
        final(fb)@.len() == old(fb)@.len(),
        r <= 0 ==> final(fb)@ == old(fb)@,
        r > 0 ==> forall|i: int|
            0 <= i < final(fb)@.len() ==> final(fb)@[i] == (if circle_covers(
                cx as int,
                cy as int,
                r as int,
                i,
            ) {
                c
            } else {
                old(fb)@[i]
            }),
{
    if r <= 0 {
        return ;
    }
    proof {
        assert(0 < r as int * r as int <= 400_000_000) by (nonlinear_arith)
            requires
                0 < r <= 20_000,
        ;
    }
    let r2: i32 = r * r;
    let mut dy: i32 = -r;
    while dy <= r
        invariant
            -r <= dy <= r + 1,
            fb@.len() == WIDTH * HEIGHT,
            forall|i: int|
                0 <= i < fb@.len() ==> fb@[i] == (if circle_covers(cx as int, cy as int, r as int, i)
                    && i / (WIDTH as int) - cy < dy {
                    c
                } else {
                    old(fb)@[i]
                }),
        decreases r + 1 - dy,
    {
        proof {
            assert(0 <= dy * dy <= r2) by (nonlinear_arith)
                requires
                    -r <= dy <= r,
                    r2 == r * r,
            ;
        }
        let yy: i32 = dy * dy;
        let d: i32 = r2 - yy;
        let wru: u64 = isqrt(d as u64);
        proof {
            assert(wru as int * wru as int <= d);
            assert(0 <= wru <= r) by (nonlinear_arith)
                requires
                    0 <= wru,
                    wru as int * wru as int <= d as int,
                    d as int <= r as int * r as int,
                    0 < r,
            ;
            lemma_sqrt_exists(d as nat);
            lemma_sqrt_unique(d as int, wru as int, sqrt_of(d as int));
        }
        let wr: i32 = wru as i32;
        let mut xx: i32 = -wr;
        while xx <= wr
            invariant
                -r <= dy <= r,
                0 <= wr <= r,
                wr as int == sqrt_of(r as int * r as int - dy as int * dy as int),
                -wr <= xx <= wr + 1,
                fb@.len() == WIDTH * HEIGHT,
                forall|i: int|
                    0 <= i < fb@.len() ==> fb@[i] == (if circle_covers(
                        cx as int,
                        cy as int,
                        r as int,
                        i,
                    ) && (i / (WIDTH as int) - cy < dy || (i / (WIDTH as int) - cy == dy && i % (
                    WIDTH as int) < cx + xx)) {
                        c
                    } else {
                        old(fb)@[i]
                    }),
            decreases wr + 1 - xx,
        {
            let px = cx + xx;
            let py = cy + dy;
            put_px(fb, px, py, c);
            proof {
                if 0 <= px < WIDTH && 0 <= py < HEIGHT {
                    vstd::arithmetic::div_mod::lemma_fundamental_div_mod_converse(
                        py as int * WIDTH + px as int,
                        WIDTH as int,
                        py as int,
                        px as int,
                    );
                }
            }
            xx = xx + 1;
        }
        dy = dy + 1;
    }
}

} // verus!
