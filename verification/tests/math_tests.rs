use wave_survival::math::ARENA_H;
use wave_survival::math::ARENA_W;
use wave_survival::math::Vec2;
use wave_survival::math::clamp_rect;
use wave_survival::math::isqrt;

#[test]
fn vector_add_sub() {
    let a = Vec2 { x: 1_000, y: -2_000 };
    let b = Vec2 { x: 500, y: 700 };
    let s = a.add(b);
    assert_eq!(s.x, 1_500);
    assert_eq!(s.y, -1_300);
    let d = a.sub(b);
    assert_eq!(d.x, 500);
    assert_eq!(d.y, -2_700);
}

#[test]
fn scale_truncates_toward_zero() {
    let v = Vec2 { x: 1_500, y: -2_500 };
    let r = v.mul(2_000);
    assert_eq!(r.x, 3_000);
    assert_eq!(r.y, -5_000);
    let tiny = Vec2 { x: 1, y: -1 };
    let t = tiny.mul(500);
    assert_eq!(t.x, 0);
    assert_eq!(t.y, 0);
}

#[test]
fn length_of_three_four_five() {
    let v = Vec2 { x: 3, y: 4 };
    assert_eq!(v.len2(), 25);
    assert_eq!(v.len(), 5);
    let w = Vec2 { x: 3_000, y: 4_000 };
    assert_eq!(w.len(), 5_000);
}

#[test]
fn isqrt_exact_and_floor() {
    assert_eq!(isqrt(0), 0);
    assert_eq!(isqrt(1), 1);
    assert_eq!(isqrt(2), 1);
    assert_eq!(isqrt(99), 9);
    assert_eq!(isqrt(100), 10);
    assert_eq!(isqrt(1_000_000), 1_000);
}

#[test]
fn normalize_zero_vector_yields_zero() {
    let z = Vec2 { x: 0, y: 0 }.norm();
    assert_eq!(z.x, 0);
    assert_eq!(z.y, 0);
}

#[test]
fn normalize_points_same_direction() {
    let n = Vec2 { x: 3_000, y: 4_000 }.norm();
    assert_eq!(n.x, 600);
    assert_eq!(n.y, 800);
    assert_eq!(n.len2(), 1_000_000);
    let m = Vec2 { x: -3_000, y: 4_000 }.norm();
    assert_eq!(m.x, -600);
    assert_eq!(m.y, 800);
}

#[test]
fn normalize_short_vector_stays_near_unit() {
    let n = Vec2 { x: 1, y: 1 }.norm();
    assert_eq!(n, Vec2 { x: 1000, y: 1000 });
    assert!(250_000 <= n.len2() && n.len2() <= 2_000_000);
}

#[test]
fn clamp_rect_bounds_both_axes() {
    let p = clamp_rect(Vec2 { x: -5_000, y: 600_000 }, 12_000);
    assert_eq!(p.x, 12_000);
    assert_eq!(p.y, ARENA_H - 12_000);
    let q = clamp_rect(Vec2 { x: ARENA_W + 1, y: -1 }, 0);
    assert_eq!(q.x, ARENA_W);
    assert_eq!(q.y, 0);
}

#[test]
fn clamp_rect_is_idempotent() {
    let p = clamp_rect(Vec2 { x: -5_000, y: 600_000 }, 12_000);
    let q = clamp_rect(p, 12_000);
    assert_eq!(p, q);
    let inside = Vec2 { x: 480_000, y: 270_000 };
    assert_eq!(clamp_rect(inside, 12_000), inside);
}
