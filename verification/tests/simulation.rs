use espace_invaders::collision::test_and_mark;
use espace_invaders::entities::{Alien, AlienSpecies, AlienVariant, Entity, Shot};
use espace_invaders::game::{get_dummy_aliens, Game, Key};

fn fresh_game() -> Game {
    Game::default()
}

#[test]
fn alien_scores_follow_species_and_variant() {
    let a = Alien::new(0, 0, 10, AlienSpecies::Bug, AlienVariant::Default, (0, 0));
    assert_eq!(a.score, 10);
    let a = Alien::new(0, 0, 10, AlienSpecies::Soldier, AlienVariant::Default, (0, 0));
    assert_eq!(a.score, 20);
    let a = Alien::new(0, 0, 10, AlienSpecies::Squid, AlienVariant::Default, (0, 0));
    assert_eq!(a.score, 30);
    let a = Alien::new(0, 0, 10, AlienSpecies::Bug, AlienVariant::White, (0, 0));
    assert_eq!(a.score, 10);
    let a = Alien::new(0, 0, 10, AlienSpecies::Soldier, AlienVariant::Pink, (0, 0));
    assert_eq!(a.score, 40);
    let a = Alien::new(0, 0, 10, AlienSpecies::Soldier, AlienVariant::Blue, (0, 0));
    assert_eq!(a.score, 60);
    let a = Alien::new(0, 0, 10, AlienSpecies::Squid, AlienVariant::Blue, (0, 0));
    assert_eq!(a.score, 90);
}

#[test]
fn collision_correctness() {
    // Boxes [0,10]x[0,10] and [5,15]x[5,15] (in pixels) collide.
    let mut a = Entity::new(0, 0, 100, 100, 0, None);
    let mut b = Entity::new(50, 50, 100, 100, 0, None);
    assert!(test_and_mark(&mut a, &mut b));
    assert!(a.collided);
    assert!(b.collided);

    // Boxes [0,10]x[0,10] and [11,20]x[0,10] do not.
    let mut a = Entity::new(0, 0, 100, 100, 0, None);
    let mut c = Entity::new(110, 0, 90, 100, 0, None);
    assert!(!test_and_mark(&mut a, &mut c));
    assert!(!a.collided);
    assert!(!c.collided);

    // Touching edges count as collision.
    let mut a = Entity::new(0, 0, 100, 100, 0, None);
    let mut d = Entity::new(100, 0, 100, 100, 0, None);
    assert!(test_and_mark(&mut a, &mut d));
}

#[test]
fn collision_is_symmetric() {
    let pairs = [
        ((0i64, 0i64, 100i64, 100i64), (50i64, 50i64, 100i64, 100i64)),
        ((0, 0, 100, 100), (110, 0, 90, 100)),
        // one box inside the other
        ((0, 0, 100, 100), (30, 30, 20, 20)),
        ((30, 30, 20, 20), (0, 0, 100, 100)),
    ];
    for ((ax, ay, aw, ah), (bx, by, bw, bh)) in pairs {
        let mut a1 = Entity::new(ax, ay, aw, ah, 0, None);
        let mut b1 = Entity::new(bx, by, bw, bh, 0, None);
        let mut a2 = Entity::new(ax, ay, aw, ah, 0, None);
        let mut b2 = Entity::new(bx, by, bw, bh, 0, None);
        assert_eq!(test_and_mark(&mut a1, &mut b1), test_and_mark(&mut b2, &mut a2));
    }
}

#[test]
fn formation_reversal() {
    // A single alien at x = 630 px, footprint 32 px, field 640 px,
    // sweep 2 px: one advance reverses the sweep and drops the alien
    // by half its height.
    let mut g = fresh_game();
    g.aliens = vec![vec![Alien::new(
        6300,
        640,
        10,
        AlienSpecies::Soldier,
        AlienVariant::Default,
        (0, 0),
    )]];
    g.aliens_movement_speed = 20;
    let old_y = g.aliens[0][0].entity.y;
    g.advance_formation();
    assert_eq!(g.aliens_movement_speed, -20);
    assert_eq!(g.aliens[0][0].entity.x, 6320);
    assert_eq!(g.aliens[0][0].entity.y, old_y + 5 * 320 / 10);
    assert_eq!(g.last_aliens.len(), 1);
}

#[test]
fn formation_advance_without_reversal() {
    let mut g = fresh_game();
    g.advance_formation();
    assert_eq!(g.aliens_movement_speed, 20);
    assert_eq!(g.aliens[0][0].entity.x, 640 + 20);
    assert_eq!(g.aliens[0][0].entity.y, 640);
}

#[test]
fn empty_formation_advance_is_a_no_op() {
    let mut g = fresh_game();
    g.aliens = vec![];
    g.advance_formation();
    assert_eq!(g.aliens_movement_speed, 20);
    assert!(g.aliens.is_empty());
    assert!(g.last_aliens.is_empty());
}

#[test]
fn score_accumulation() {
    // Destroying one Bug/Default (10) and one Soldier/Blue (60) in
    // the same pass raises the score by exactly 70.
    let mut g = fresh_game();
    g.aliens = vec![vec![
        Alien::new(1000, 1000, 10, AlienSpecies::Bug, AlienVariant::Default, (0, 0)),
        Alien::new(2000, 1000, 10, AlienSpecies::Soldier, AlienVariant::Blue, (0, 1)),
    ]];
    g.cannon_shots = vec![
        Shot::new(1000, 1000, 0, (100, 100), (10, 10)),
        Shot::new(2000, 1000, 0, (100, 100), (10, 10)),
    ];
    g.resolve_collisions();
    assert_eq!(g.game_score, 70);
    assert!(g.aliens[0].is_empty());
    assert!(g.cannon_shots[0].entity.collided);
    assert!(g.cannon_shots[1].entity.collided);
}

#[test]
fn speed_up_two_kills() {
    // Two kills at sweep 1.0 px per frame give sweep 1.4 px.
    let mut g = fresh_game();
    g.aliens = vec![vec![
        Alien::new(1000, 1000, 10, AlienSpecies::Bug, AlienVariant::Default, (0, 0)),
        Alien::new(2000, 1000, 10, AlienSpecies::Bug, AlienVariant::Default, (0, 1)),
    ]];
    g.aliens_movement_speed = 10;
    g.cannon_shots = vec![
        Shot::new(1000, 1000, 0, (100, 100), (10, 10)),
        Shot::new(2000, 1000, 0, (100, 100), (10, 10)),
    ];
    g.resolve_collisions();
    assert_eq!(g.aliens_movement_speed, 14);
}

#[test]
fn speed_up_keeps_negative_sweep_negative() {
    let mut g = fresh_game();
    g.aliens = vec![vec![Alien::new(
        1000,
        1000,
        10,
        AlienSpecies::Bug,
        AlienVariant::Default,
        (0, 0),
    )]];
    g.aliens_movement_speed = -10;
    g.cannon_shots = vec![Shot::new(1000, 1000, 0, (100, 100), (10, 10))];
    g.resolve_collisions();
    assert_eq!(g.aliens_movement_speed, -12);
}

#[test]
fn cull_asymmetry() {
    // A cannon shot fully above the top edge is removed; an alien
    // shot up there is kept, because alien shots are culled only
    // past the bottom edge.
    let mut g = fresh_game();
    g.cannon_shots = vec![Shot::new(0, -60, -50, (50, 50), (10, 10))];
    g.alien_shots = vec![Shot::new(0, -60, 30, (50, 50), (10, 10))];
    g.cull_shots();
    assert!(g.cannon_shots.is_empty());
    assert_eq!(g.alien_shots.len(), 1);

    // And an alien shot past the bottom edge is removed while a
    // cannon shot down there is kept.
    g.cannon_shots = vec![Shot::new(0, 4790, -50, (50, 50), (10, 10))];
    g.alien_shots = vec![Shot::new(0, 4790, 30, (50, 50), (10, 10))];
    g.cull_shots();
    assert_eq!(g.cannon_shots.len(), 1);
    assert!(g.alien_shots.is_empty());
}

#[test]
fn collided_shots_are_culled() {
    let mut g = fresh_game();
    let mut s = Shot::new(100, 100, -50, (50, 50), (10, 10));
    s.entity.collided = true;
    g.cannon_shots = vec![s];
    g.cull_shots();
    assert!(g.cannon_shots.is_empty());
}

#[test]
fn cull_is_idempotent() {
    let mut g = fresh_game();
    g.cannon_shots = vec![
        Shot::new(0, -60, -50, (50, 50), (10, 10)),
        Shot::new(100, 100, -50, (50, 50), (10, 10)),
    ];
    g.alien_shots = vec![
        Shot::new(0, 4790, 30, (50, 50), (10, 10)),
        Shot::new(100, 100, 30, (50, 50), (10, 10)),
    ];
    g.cull_shots();
    let cannon_after_one = g.cannon_shots.clone();
    let alien_after_one = g.alien_shots.clone();
    g.cull_shots();
    assert_eq!(g.cannon_shots, cannon_after_one);
    assert_eq!(g.alien_shots, alien_after_one);
}

#[test]
fn game_over_on_same_frame_as_fatal_hit() {
    let mut g = fresh_game();
    g.cannon.life = 1;
    // An alien shot that reaches the cannon once moved.
    g.alien_shots = vec![Shot::new(100, 3700, 30, (110, 150), (10, 10))];
    g.resolve_collisions();
    assert_eq!(g.cannon.life, 0);
    assert!(g.alien_shots[0].entity.collided);
    assert!(!g.game_over);
    g.cull_shots();
    g.finish_frame();
    assert!(g.game_over);
}

#[test]
fn game_over_when_front_row_reaches_cannon_height() {
    let mut g = fresh_game();
    // The last non-empty row is the front-most row; its second alien
    // is low enough to pass the cannon's top.
    g.aliens = vec![
        vec![Alien::new(640, 640, 10, AlienSpecies::Soldier, AlienVariant::Default, (0, 0))],
        vec![
            Alien::new(640, 640, 10, AlienSpecies::Soldier, AlienVariant::Default, (1, 0)),
            Alien::new(960, 3600, 10, AlienSpecies::Soldier, AlienVariant::Default, (1, 1)),
        ],
        vec![],
    ];
    g.finish_frame();
    assert!(g.game_over);

    let mut g = fresh_game();
    g.finish_frame();
    assert!(!g.game_over);
    assert!(g.last_aliens.is_empty());
}

#[test]
fn cannon_movement_is_clamped() {
    let mut g = fresh_game();
    g.is_left_pressed = true;
    g.cannon.entity.x = 5;
    g.move_cannon();
    assert_eq!(g.cannon.entity.x, 5);
    g.cannon.entity.x = 10;
    g.move_cannon();
    assert_eq!(g.cannon.entity.x, 0);

    let mut g = fresh_game();
    g.is_right_pressed = true;
    g.cannon.entity.x = 6080;
    g.move_cannon();
    assert_eq!(g.cannon.entity.x, 6080);
    g.cannon.entity.x = 6070;
    g.move_cannon();
    assert_eq!(g.cannon.entity.x, 6080);
}

#[test]
fn key_handling() {
    let mut g = fresh_game();
    assert!(!g.handle_press_keyboard(Key::Left));
    assert!(g.is_left_pressed);
    assert!(!g.handle_press_keyboard(Key::Right));
    assert!(g.is_right_pressed);
    g.handle_release_keyboard(Key::Left);
    assert!(!g.is_left_pressed);
    g.handle_release_keyboard(Key::Right);
    assert!(!g.is_right_pressed);
    assert!(g.handle_press_keyboard(Key::Restart));

    assert!(!g.handle_press_keyboard(Key::Fire));
    assert_eq!(g.cannon_shots.len(), 1);
    let shot = &g.cannon_shots[0];
    assert_eq!(shot.entity.x, 0 + 320 * 4 / 10);
    assert_eq!(shot.entity.y, 3800 - (320 * 2 / 10) * 10 / 10);
    assert_eq!(shot.entity.movement_speed, -50);
    assert_eq!(shot.size, (180, 180));
    assert_eq!(shot.entity.scale, (5, 5));
}

#[test]
fn alien_fires_from_below_itself() {
    let a = Alien::new(640, 640, 10, AlienSpecies::Soldier, AlienVariant::Default, (0, 0));
    let s = a.shoot();
    assert_eq!(s.entity.x, 640 + 128);
    assert_eq!(s.entity.y, 640 + 320);
    assert_eq!(s.entity.movement_speed, 30);
    assert_eq!(s.size, (110, 150));
    assert_eq!(s.entity.scale, (6, 6));
}

#[test]
fn shooter_snapshot_is_last_write_wins() {
    // Two aliens share column 3; the one walked last (second row)
    // is the column's shooter.
    let mut g = fresh_game();
    g.aliens = vec![
        vec![Alien::new(640, 640, 10, AlienSpecies::Soldier, AlienVariant::Default, (0, 3))],
        vec![Alien::new(960, 1280, 10, AlienSpecies::Soldier, AlienVariant::Default, (1, 3))],
    ];
    g.aliens_movement_speed = 0;
    g.advance_formation();
    assert_eq!(g.last_aliens.len(), 1);
    assert_eq!(g.last_aliens[0], (3, (1, 0)));

    assert!(g.maybe_alien_fire(true));
    assert_eq!(g.alien_shots.len(), 1);
    assert_eq!(g.alien_shots[0].entity.x, 960 + 128);
    assert_eq!(g.alien_shots[0].entity.y, 1280 + 320);

    assert!(!g.maybe_alien_fire(false));
    assert_eq!(g.alien_shots.len(), 1);

    g.last_aliens = vec![];
    assert!(!g.maybe_alien_fire(true));
}

#[test]
fn shot_against_shot_marks_both_without_removal() {
    let mut g = fresh_game();
    g.aliens = vec![];
    g.cannon_shots = vec![Shot::new(1000, 1050, -50, (100, 100), (10, 10))];
    g.alien_shots = vec![Shot::new(1000, 1000, 30, (100, 100), (10, 10))];
    g.resolve_collisions();
    assert_eq!(g.cannon_shots.len(), 1);
    assert_eq!(g.alien_shots.len(), 1);
    assert!(g.cannon_shots[0].entity.collided);
    assert!(g.alien_shots[0].entity.collided);
    g.cull_shots();
    assert!(g.cannon_shots.is_empty());
    assert!(g.alien_shots.is_empty());
}

#[test]
fn default_session_state() {
    let g = fresh_game();
    assert_eq!(g.width, 6400);
    assert_eq!(g.height, 4800);
    assert_eq!(g.max_fps, 60);
    assert_eq!(g.game_score, 0);
    assert_eq!(g.cannon.life, 5);
    assert_eq!(g.cannon.entity.x, 0);
    assert_eq!(g.cannon.entity.y, 3800);
    assert_eq!(g.aliens_movement_speed, 20);
    assert_eq!(g.aliens_height_modifier, 5);
    assert!(!g.game_over);
    assert!(g.cannon_shots.is_empty());
    assert!(g.alien_shots.is_empty());

    let grid = get_dummy_aliens();
    assert_eq!(grid.len(), 2);
    assert_eq!(grid[0].len(), 3);
    assert_eq!(grid[1].len(), 2);
    assert_eq!(grid[0][2].entity.x, 5760);
    assert_eq!(grid[0][2].position, (0, 10));
    assert_eq!(grid[1][0].entity.y, 1280);
    assert_eq!(grid[1][0].score, 20);
}

#[test]
fn one_whole_frame_in_order() {
    // One frame as the loop runs it: input movement, formation
    // advance, fire decision, collision pass, cull, end-of-frame
    // checks.
    let mut g = fresh_game();
    g.is_right_pressed = true;
    // A cannon shot that will reach the leftmost front alien once
    // both have moved.
    g.cannon_shots = vec![Shot::new(700, 1400, -50, (180, 180), (5, 5))];

    g.move_cannon();
    assert_eq!(g.cannon.entity.x, 10);

    g.advance_formation();
    assert_eq!(g.aliens[1][0].entity.x, 660);

    let fired = g.maybe_alien_fire(true);
    assert!(fired);
    assert_eq!(g.alien_shots.len(), 1);

    g.resolve_collisions();
    // The shot moved up to y = 1350; the front-row alien at
    // (660, 1280) spans 32 px, so it is destroyed: one Soldier, 20
    // points, and the sweep speeds up by one kill.
    assert_eq!(g.game_score, 20);
    assert_eq!(g.aliens[1].len(), 1);
    assert_eq!(g.aliens_movement_speed, 22);
    assert!(g.cannon_shots[0].entity.collided);

    g.cull_shots();
    assert!(g.cannon_shots.is_empty());

    g.finish_frame();
    assert!(!g.game_over);
    assert!(g.last_aliens.is_empty());
    assert_eq!(g.cannon.life, 5);
}
