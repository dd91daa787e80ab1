use ball_game::collision::{enemy_hit_player, overlap, player_hit_star};
use ball_game::config::UNIT;
use ball_game::direction::Direction;
use ball_game::entity::{Event, GameOver, Star};
use ball_game::geometry::Vec2;
use ball_game::world::{place_enemy, place_player, place_star, World};

const R: u32 = 32_000_000;

fn at(x: i64, y: i64) -> Vec2 {
    Vec2 { x, y }
}

fn world_with_player(x: i64, y: i64) -> World {
    let mut world = World::new();
    let mut events = Vec::new();
    place_player(&mut world, at(x, y), &mut events);
    world
}

fn add_star(world: &mut World, x: i64, y: i64) {
    let mut events = Vec::new();
    place_star(world, at(x, y), &mut events);
}

fn add_enemy(world: &mut World, x: i64, y: i64) {
    let mut events = Vec::new();
    place_enemy(world, at(x, y), Direction::east(), &mut events);
}

#[test]
fn circles_that_touch_do_not_collide() {
    assert!(!overlap(at(0, 0), R, at(64 * UNIT, 0), R));
    assert!(!overlap(at(0, 0), R, at(0, -64 * UNIT), R));
    assert!(!overlap(at(100 * UNIT, 100 * UNIT), R, at(36 * UNIT, 100 * UNIT), R));
    // 3-4-5: centres 64 units apart on a slant
    assert!(!overlap(at(0, 0), R, at(38_400_000, 51_200_000), R));
}

#[test]
fn circles_a_hair_closer_collide() {
    assert!(overlap(at(0, 0), R, at(64 * UNIT - 1, 0), R));
    assert!(overlap(at(0, 0), R, at(0, -64 * UNIT + 1), R));
    assert!(overlap(at(0, 0), R, at(38_400_000 - 1, 51_200_000), R));
    assert!(overlap(at(0, 0), R, at(38_400_000, 51_200_000 - 1), R));
    assert!(!overlap(at(0, 0), R, at(38_400_000 + 1, 51_200_000), R));
}

#[test]
fn the_threshold_is_the_sum_of_the_radii() {
    for &r in [1u32, 2, 1_000, R, 1_000_000_000, u32::MAX].iter() {
        let reach = 2 * (r as i64);
        assert!(!overlap(at(5, 7), r, at(5 + reach, 7), r));
        assert!(overlap(at(5, 7), r, at(5 + reach - 1, 7), r));
        assert!(!overlap(at(5, 7), r, at(5, 7 - reach), r));
        assert!(overlap(at(5, 7), r, at(5, 7 - reach + 1), r));
    }
    assert!(!overlap(at(0, 0), 10, at(30, 0), 20));
    assert!(overlap(at(0, 0), 10, at(29, 0), 20));
    assert!(overlap(at(0, 0), 0, at(0, 0), 1));
}

#[test]
fn points_never_collide() {
    assert!(!overlap(at(0, 0), 0, at(0, 0), 0));
    assert!(!overlap(at(3, 3), 0, at(3, 4), 0));
}

#[test]
fn the_ends_of_the_plane_are_far_apart() {
    assert!(!overlap(at(i64::MIN, i64::MIN), u32::MAX, at(i64::MAX, i64::MAX), u32::MAX));
    assert!(!overlap(at(i64::MIN, 0), u32::MAX, at(i64::MAX, 0), u32::MAX));
    assert!(!overlap(at(0, i64::MAX), R, at(0, i64::MIN), R));
    assert!(overlap(at(i64::MAX, i64::MIN), R, at(i64::MAX - 1, i64::MIN + 1), R));
    assert!(overlap(at(i64::MIN, i64::MAX), u32::MAX, at(i64::MIN, i64::MAX), u32::MAX));
}

#[test]
fn an_enemy_on_the_player_ends_the_game() {
    let mut world = world_with_player(400 * UNIT, 300 * UNIT);
    add_enemy(&mut world, 400 * UNIT, 300 * UNIT);
    let mut events = Vec::new();
    enemy_hit_player(&mut world, &mut events);
    assert!(world.player.is_none());
    assert_eq!(events, vec![Event::GameOver(GameOver { score: 0 })]);
    assert_eq!(world.enemies.len(), 1);
    assert_eq!(world.score.value, 0);
}

#[test]
fn an_enemy_that_only_touches_does_no_harm() {
    let mut world = world_with_player(400 * UNIT, 300 * UNIT);
    add_enemy(&mut world, 464 * UNIT, 300 * UNIT);
    add_enemy(&mut world, 0, 0);
    let mut events = Vec::new();
    enemy_hit_player(&mut world, &mut events);
    assert!(world.player.is_some());
    assert!(events.is_empty());
}

#[test]
fn the_game_ends_once_for_each_enemy_in_contact() {
    let mut world = world_with_player(400 * UNIT, 300 * UNIT);
    add_star(&mut world, 400 * UNIT, 300 * UNIT);
    add_star(&mut world, 410 * UNIT, 300 * UNIT);
    let mut events = Vec::new();
    player_hit_star(&mut world, &mut events);
    assert_eq!(world.score.value, 2);
    add_enemy(&mut world, 390 * UNIT, 300 * UNIT);
    add_enemy(&mut world, 700 * UNIT, 500 * UNIT);
    add_enemy(&mut world, 400 * UNIT, 350 * UNIT);
    events.clear();
    enemy_hit_player(&mut world, &mut events);
    assert!(world.player.is_none());
    assert_eq!(
        events,
        vec![Event::GameOver(GameOver { score: 2 }), Event::GameOver(GameOver { score: 2 })]
    );
    events.clear();
    enemy_hit_player(&mut world, &mut events);
    assert!(events.is_empty());
    assert!(world.player.is_none());
}

#[test]
fn without_a_player_no_game_ends_and_no_star_is_collected() {
    let mut world = World::new();
    add_enemy(&mut world, 0, 0);
    add_star(&mut world, 0, 0);
    let mut events = Vec::new();
    enemy_hit_player(&mut world, &mut events);
    player_hit_star(&mut world, &mut events);
    assert!(events.is_empty());
    assert_eq!(world.stars.len(), 1);
    assert_eq!(world.score.value, 0);
}

#[test]
fn a_star_on_the_player_is_a_point() {
    let mut world = world_with_player(100 * UNIT, 100 * UNIT);
    add_star(&mut world, 100 * UNIT, 100 * UNIT);
    let mut events = Vec::new();
    player_hit_star(&mut world, &mut events);
    assert_eq!(world.score.value, 1);
    assert!(world.stars.is_empty());
    assert_eq!(events, vec![Event::StarCollected { id: 1 }]);
    assert!(world.player.is_some());
}

#[test]
fn collecting_n_stars_scores_n() {
    for n in 0..12u32 {
        let mut world = world_with_player(100 * UNIT, 100 * UNIT);
        for k in 0..n {
            add_star(&mut world, (100 + k as i64) * UNIT, 100 * UNIT);
        }
        add_star(&mut world, 500 * UNIT, 500 * UNIT);
        let mut events = Vec::new();
        player_hit_star(&mut world, &mut events);
        assert_eq!(world.score.value, n);
        assert_eq!(events.len(), n as usize);
        assert_eq!(world.stars.len(), 1);
    }
}

#[test]
fn stars_collected_one_frame_after_the_other_add_up() {
    let mut world = world_with_player(100 * UNIT, 100 * UNIT);
    let mut events = Vec::new();
    for n in 1..=6u32 {
        add_star(&mut world, 110 * UNIT, 90 * UNIT);
        player_hit_star(&mut world, &mut events);
        assert_eq!(world.score.value, n);
        assert!(world.stars.is_empty());
    }
    assert_eq!(events.len(), 6);
}

#[test]
fn a_star_is_collected_once() {
    let mut world = world_with_player(100 * UNIT, 100 * UNIT);
    add_star(&mut world, 100 * UNIT, 100 * UNIT);
    add_star(&mut world, 120 * UNIT, 100 * UNIT);
    let mut events = Vec::new();
    player_hit_star(&mut world, &mut events);
    assert_eq!(world.score.value, 2);
    events.clear();
    player_hit_star(&mut world, &mut events);
    player_hit_star(&mut world, &mut events);
    assert_eq!(world.score.value, 2);
    assert!(events.is_empty());
}

#[test]
fn stars_out_of_reach_stay_in_their_order() {
    let mut world = world_with_player(100 * UNIT, 100 * UNIT);
    add_star(&mut world, 700 * UNIT, 100 * UNIT);
    add_star(&mut world, 100 * UNIT, 130 * UNIT);
    add_star(&mut world, 164 * UNIT, 100 * UNIT);
    add_star(&mut world, 163 * UNIT, 100 * UNIT);
    add_star(&mut world, 100 * UNIT, 500 * UNIT);
    let mut events = vec![Event::Bounce { cue: 2 }];
    player_hit_star(&mut world, &mut events);
    assert_eq!(
        world.stars,
        vec![
            Star { id: 1, position: at(700 * UNIT, 100 * UNIT) },
            Star { id: 3, position: at(164 * UNIT, 100 * UNIT) },
            Star { id: 5, position: at(100 * UNIT, 500 * UNIT) },
        ]
    );
    assert_eq!(world.score.value, 2);
    assert_eq!(
        events,
        vec![
            Event::Bounce { cue: 2 },
            Event::StarCollected { id: 2 },
            Event::StarCollected { id: 4 },
        ]
    );
    assert_eq!(world.next_id, 6);
}

#[test]
fn the_score_never_rises_without_a_star_leaving() {
    let mut world = world_with_player(100 * UNIT, 100 * UNIT);
    let mut events = Vec::new();
    let places = [100i64, 150, 163, 164, 200, 36, 37, 700];
    for &x in places.iter() {
        add_star(&mut world, x * UNIT, 100 * UNIT);
    }
    let stars_before = world.stars.len();
    let score_before = world.score.value;
    player_hit_star(&mut world, &mut events);
    let gone = stars_before - world.stars.len();
    assert_eq!((world.score.value - score_before) as usize, gone);
    assert_eq!(events.len(), gone);
    assert_eq!(gone, 4);
}
