use wave_survival::render::HEIGHT;
use wave_survival::render::WIDTH;
use wave_survival::render::fill_circle;
use wave_survival::render::fill_rect;
use wave_survival::render::put_px;
use wave_survival::render::rgb;

fn blank() -> Vec<u32> {
    vec![0; WIDTH * HEIGHT]
}

#[test]
fn rgb_packs_channels() {
    assert_eq!(rgb(255, 0, 0), 0x00FF_0000);
    assert_eq!(rgb(0, 255, 0), 0x0000_FF00);
    assert_eq!(rgb(0, 0, 255), 0x0000_00FF);
    assert_eq!(rgb(11, 14, 18), 0x000B_0E12);
}

#[test]
fn put_px_writes_inside_and_ignores_outside() {
    let mut fb = blank();
    put_px(&mut fb, 5, 3, 7);
    assert_eq!(fb[3 * WIDTH + 5], 7);
    put_px(&mut fb, -1, 0, 9);
    put_px(&mut fb, 0, -1, 9);
    put_px(&mut fb, WIDTH as i32, 0, 9);
    put_px(&mut fb, 0, HEIGHT as i32, 9);
    assert_eq!(fb.iter().filter(|&&c| c == 9).count(), 0);
}

#[test]
fn fill_rect_covers_exactly_the_clipped_rectangle() {
    let mut fb = blank();
    fill_rect(&mut fb, 1, 1, 2, 2, 5);
    let lit: Vec<usize> = (0..fb.len()).filter(|&i| fb[i] == 5).collect();
    assert_eq!(
        lit,
        vec![WIDTH + 1, WIDTH + 2, 2 * WIDTH + 1, 2 * WIDTH + 2]
    );
    let mut fb2 = blank();
    fill_rect(&mut fb2, -3, -3, 4, 4, 5);
    let lit2: Vec<usize> = (0..fb2.len()).filter(|&i| fb2[i] == 5).collect();
    assert_eq!(lit2, vec![0]);
}

#[test]
fn fill_circle_radius_one_is_a_plus_shape() {
    let mut fb = blank();
    fill_circle(&mut fb, 10, 10, 1, 4);
    let lit: Vec<usize> = (0..fb.len()).filter(|&i| fb[i] == 4).collect();
    assert_eq!(
        lit,
        vec![9 * WIDTH + 10, 10 * WIDTH + 9, 10 * WIDTH + 10, 10 * WIDTH + 11, 11 * WIDTH + 10]
    );
}

#[test]
fn fill_circle_nonpositive_radius_draws_nothing() {
    let mut fb = blank();
    fill_circle(&mut fb, 10, 10, 0, 4);
    fill_circle(&mut fb, 10, 10, -5, 4);
    assert!(fb.iter().all(|&c| c == 0));
}
