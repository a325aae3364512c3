use wave_survival::entities::Bullet;
use wave_survival::entities::Enemy;
use wave_survival::game::Game;
use wave_survival::game::Phase;
use wave_survival::input::Input;
use wave_survival::math::ARENA_H;
use wave_survival::math::ARENA_W;
use wave_survival::math::Vec2;

fn no_input() -> Input {
    Input {
        w: false,
        a: false,
        s: false,
        d: false,
        key_enter: false,
        mouse_left: false,
        mouse_pos: Vec2 { x: 0, y: 0 },
    }
}

fn far_enemy() -> Enemy {
    Enemy {
        p: Vec2 { x: 30_000, y: 30_000 },
        v: Vec2 { x: 0, y: 0 },
        r: 14_000,
        speed: 77_000,
        hp: 5,
        alive: true,
    }
}

#[test]
fn fresh_game_state() {
    let g = Game::new_seeded(7);
    assert_eq!(g.wave, 0);
    assert_eq!(g.enemies_alive, 0);
    assert_eq!(g.score, 0);
    assert!(g.phase == Phase::Intermission);
    assert_eq!(g.intermission, 2_000);
    assert_eq!(g.player.hp, 100);
    assert_eq!(g.player.p, Vec2 { x: ARENA_W / 2, y: ARENA_H / 2 });
    assert!(g.bullets.is_empty());
    assert!(g.enemies.is_empty());
}

#[test]
fn begin_wave_spawns_on_exactly_one_edge() {
    let mut g = Game::new_seeded(11);
    g.begin_wave();
    assert_eq!(g.wave, 1);
    assert_eq!(g.enemies_alive, 10);
    assert_eq!(g.enemies.len(), 10);
    for e in &g.enemies {
        assert!(e.alive);
        assert_eq!(e.r, 14_000);
        assert_eq!(e.hp, 2);
        assert_eq!(e.speed, 77_000);
        let top = e.p.y == -30_000 && 0 <= e.p.x && e.p.x < ARENA_W;
        let right = e.p.x == ARENA_W + 30_000 && 0 <= e.p.y && e.p.y < ARENA_H;
        let bottom = e.p.y == ARENA_H + 30_000 && 0 <= e.p.x && e.p.x < ARENA_W;
        let left = e.p.x == -30_000 && 0 <= e.p.y && e.p.y < ARENA_H;
        let edges = [top, right, bottom, left].iter().filter(|&&b| b).count();
        assert_eq!(edges, 1);
    }
}

#[test]
fn wave_difficulty_scales() {
    let mut g = Game::new_seeded(13);
    for _ in 0..5 {
        g.begin_wave();
    }
    assert_eq!(g.wave, 5);
    assert_eq!(g.enemies_alive, 26);
    assert_eq!(g.enemies.len(), 26);
    for e in &g.enemies {
        assert_eq!(e.speed, 70_000 + 7_000 * 5);
        assert_eq!(e.hp, 2 + 5 / 2);
    }
}

#[test]
fn intermission_runs_out_into_first_wave() {
    let mut g = Game::new_seeded(3);
    let input = no_input();
    for _ in 0..40 {
        g.update(50, &input);
    }
    assert!(g.phase == Phase::Combat);
    assert_eq!(g.wave, 1);
    assert_eq!(g.enemies_alive, 10);
    assert_eq!(g.player.hp, 100);
}

#[test]
fn oversized_and_negative_steps_are_clamped() {
    let mut g = Game::new_seeded(3);
    let input = no_input();
    g.update(1_000_000, &input);
    assert_eq!(g.intermission, 1_950);
    g.update(-400, &input);
    assert_eq!(g.intermission, 1_950);
}

#[test]
fn overlapping_bullet_kills_enemy_and_scores() {
    let mut g = Game::new_seeded(17);
    g.phase = Phase::Combat;
    g.wave = 1;
    g.enemies = vec![Enemy {
        p: Vec2 { x: 100_000, y: 100_000 },
        v: Vec2 { x: 0, y: 0 },
        r: 14_000,
        speed: 77_000,
        hp: 1,
        alive: true,
    }];
    g.enemies_alive = 1;
    g.bullets = vec![Bullet {
        p: Vec2 { x: 100_000, y: 100_000 },
        v: Vec2 { x: 0, y: 0 },
        r: 4_000,
        life: 2_000,
        alive: true,
    }];
    g.update(0, &no_input());
    assert_eq!(g.score, 10);
    assert_eq!(g.enemies_alive, 0);
    assert!(g.enemies.is_empty());
    assert!(g.bullets.is_empty());
    assert!(g.phase == Phase::Intermission);
    assert_eq!(g.intermission, 3_000);
}

#[test]
fn firing_twice_within_cooldown_gives_one_bullet() {
    let mut g = Game::new_seeded(5);
    g.phase = Phase::Combat;
    g.wave = 1;
    g.enemies = vec![far_enemy()];
    g.enemies_alive = 1;
    let mut input = no_input();
    input.mouse_left = true;
    input.mouse_pos = Vec2 { x: 0, y: 0 };
    g.update(50, &input);
    assert_eq!(g.bullets.len(), 1);
    assert_eq!(g.player.shoot_t, 120);
    g.update(50, &input);
    assert_eq!(g.bullets.len(), 1);
    assert_eq!(g.player.shoot_t, 70);
    g.update(50, &input);
    assert_eq!(g.bullets.len(), 1);
    assert_eq!(g.player.shoot_t, 20);
    g.update(50, &input);
    assert_eq!(g.bullets.len(), 2);
    assert_eq!(g.player.shoot_t, 120);
}

#[test]
fn aiming_at_own_position_skips_shot_without_reset() {
    let mut g = Game::new_seeded(5);
    g.phase = Phase::Combat;
    g.wave = 1;
    g.enemies = vec![far_enemy()];
    g.enemies_alive = 1;
    let mut input = no_input();
    input.mouse_left = true;
    input.mouse_pos = g.player.p;
    g.update(50, &input);
    assert!(g.bullets.is_empty());
    assert_eq!(g.player.shoot_t, -50);
}

#[test]
fn expired_bullet_is_culled() {
    let mut g = Game::new_seeded(19);
    g.phase = Phase::Combat;
    g.wave = 1;
    g.enemies = vec![far_enemy()];
    g.enemies_alive = 1;
    g.bullets = vec![Bullet {
        p: Vec2 { x: 480_000, y: 270_000 },
        v: Vec2 { x: 0, y: 0 },
        r: 4_000,
        life: 50,
        alive: true,
    }];
    g.update(50, &no_input());
    assert!(g.bullets.is_empty());
}

#[test]
fn bullet_leaving_arena_margin_is_culled() {
    let mut g = Game::new_seeded(19);
    g.phase = Phase::Combat;
    g.wave = 1;
    g.enemies = vec![far_enemy()];
    g.enemies_alive = 1;
    g.bullets = vec![Bullet {
        p: Vec2 { x: 1_000_000, y: 270_000 },
        v: Vec2 { x: 800_000, y: 0 },
        r: 4_000,
        life: 2_000,
        alive: true,
    }];
    g.update(50, &no_input());
    assert!(g.bullets.is_empty());
}

#[test]
fn contact_drives_game_over_then_reset() {
    let mut g = Game::new_seeded(23);
    g.phase = Phase::Combat;
    g.wave = 2;
    g.score = 70;
    g.player.hp = 10;
    g.enemies = vec![Enemy {
        p: Vec2 { x: 490_000, y: 270_000 },
        v: Vec2 { x: 0, y: 0 },
        r: 14_000,
        speed: 84_000,
        hp: 3,
        alive: true,
    }];
    g.enemies_alive = 1;
    g.update(0, &no_input());
    assert!(g.phase == Phase::GameOver);
    assert!(g.player.hp <= 0);
    let wave = g.wave;
    let score = g.score;
    let hp = g.player.hp;
    let n_enemies = g.enemies.len();
    g.update(50, &no_input());
    g.update(50, &no_input());
    assert!(g.phase == Phase::GameOver);
    assert_eq!(g.wave, wave);
    assert_eq!(g.score, score);
    assert_eq!(g.player.hp, hp);
    assert_eq!(g.enemies.len(), n_enemies);
    let mut confirm = no_input();
    confirm.key_enter = true;
    g.update(50, &confirm);
    assert!(g.phase == Phase::Intermission);
    assert_eq!(g.wave, 0);
    assert_eq!(g.score, 0);
    assert_eq!(g.player.hp, 100);
    assert_eq!(g.intermission, 2_000);
    assert!(g.enemies.is_empty());
    assert!(g.bullets.is_empty());
}

#[test]
fn same_seed_spawns_same_wave() {
    let mut g1 = Game::new_seeded(42);
    let mut g2 = Game::new_seeded(42);
    g1.begin_wave();
    g2.begin_wave();
    assert_eq!(g1.enemies.len(), g2.enemies.len());
    for (a, b) in g1.enemies.iter().zip(g2.enemies.iter()) {
        assert_eq!(a.p, b.p);
    }
    let mut g3 = Game::new_seeded(43);
    g3.begin_wave();
    let same = g1.enemies.iter().zip(g3.enemies.iter()).all(|(a, b)| a.p == b.p);
    assert!(!same);
}

#[test]
fn held_keys_move_the_player() {
    let mut g = Game::new_seeded(37);
    let mut input = no_input();
    input.d = true;
    g.update(50, &input);
    assert_eq!(g.player.p, Vec2 { x: 495_000, y: 270_000 });
    let mut h = Game::new_seeded(37);
    let mut diag = no_input();
    diag.w = true;
    diag.d = true;
    h.update(50, &diag);
    assert_eq!(h.player.p, Vec2 { x: 480_000 + 10_605, y: 270_000 - 10_605 });
    let mut k = Game::new_seeded(37);
    let mut cancel = no_input();
    cancel.w = true;
    cancel.s = true;
    k.update(50, &cancel);
    assert_eq!(k.player.p, Vec2 { x: 480_000, y: 270_000 });
}

#[test]
fn window_title_formats_state() {
    let mut g = Game::new_seeded(29);
    assert_eq!(
        g.window_title().as_str(),
        "Wave 0 | Enemies 0 | HP 100 | Score 0 | Intermission"
    );
    g.phase = Phase::Combat;
    g.wave = 12;
    g.enemies_alive = 46;
    g.score = 730;
    g.player.hp = 64;
    assert_eq!(
        g.window_title().as_str(),
        "Wave 12 | Enemies 46 | HP 64 | Score 730"
    );
    g.phase = Phase::GameOver;
    g.player.hp = -20;
    assert_eq!(
        g.window_title().as_str(),
        "Wave 12 | Enemies 46 | HP 0 | Score 730 | GAME OVER (Enter to reset)"
    );
}

#[test]
fn draw_keeps_framebuffer_size() {
    let mut g = Game::new_seeded(31);
    g.begin_wave();
    let mut fb: Vec<u32> = vec![0; 960 * 540];
    g.draw(&mut fb);
    assert_eq!(fb.len(), 960 * 540);
    assert!(fb.iter().any(|&c| c != 0));
}
