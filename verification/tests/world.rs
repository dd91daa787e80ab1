use ball_game::collision::player_hit_star;
use ball_game::config::UNIT;
use ball_game::direction::Direction;
use ball_game::entity::{Enemy, Player, Star};
use ball_game::geometry::{Field, Vec2};
use ball_game::player::spawn_player;
use ball_game::spawner::{spawn_enemy, spawn_stars};
use ball_game::world::{place_star, World};

fn at(x: i64, y: i64) -> Vec2 {
    Vec2 { x: x * UNIT, y: y * UNIT }
}

fn started() -> World {
    let field = Field::new(800 * UNIT, 600 * UNIT).unwrap();
    let mut world = World::new();
    let mut events = Vec::new();
    spawn_player(&mut world, field, &mut events);
    spawn_enemy(&mut world, field, &mut events);
    spawn_stars(&mut world, field, &mut events);
    world
}

#[test]
fn worlds_made_by_the_rules_are_well_formed() {
    assert!(World::new().is_well_formed());
    let mut world = started();
    assert!(world.is_well_formed());
    let mut events = Vec::new();
    let on_the_player = world.player.unwrap().position;
    place_star(&mut world, on_the_player, &mut events);
    player_hit_star(&mut world, &mut events);
    assert!(world.score.value >= 1);
    assert!(world.is_well_formed());
}

#[test]
fn a_handle_at_or_above_the_next_free_one_is_ill_formed() {
    let mut world = started();
    world.stars[4].id = world.next_id;
    assert!(!world.is_well_formed());
    let mut world = started();
    world.enemies[2].id = world.next_id;
    assert!(!world.is_well_formed());
    let mut world = started();
    world.player = Some(Player { id: world.next_id, position: at(1, 1) });
    assert!(!world.is_well_formed());
    let mut world = World::new();
    world.stars.push(Star { id: 0, position: at(1, 1) });
    assert!(!world.is_well_formed());
    world.next_id = 1;
    assert!(world.is_well_formed());
}

#[test]
fn handles_out_of_order_are_ill_formed() {
    let mut world = started();
    world.stars.swap(1, 3);
    assert!(!world.is_well_formed());
    let mut world = started();
    world.stars[1].id = world.stars[0].id;
    assert!(!world.is_well_formed());
    let mut world = started();
    world.enemies.swap(0, 1);
    assert!(!world.is_well_formed());
    let mut world = started();
    let first = world.enemies[0];
    world.enemies.push(Enemy { id: first.id, position: at(5, 5), direction: Direction::east() });
    assert!(!world.is_well_formed());
}

#[test]
fn a_score_without_stars_behind_it_is_ill_formed() {
    let mut world = started();
    // nine handles are out, five of them to stars on the field
    world.score.value = 4;
    assert!(world.is_well_formed());
    world.score.value = 5;
    assert!(!world.is_well_formed());
    world.score.value = u32::MAX;
    assert!(!world.is_well_formed());
    world.stars.clear();
    world.score.value = 9;
    assert!(world.is_well_formed());
    world.score.value = 10;
    assert!(!world.is_well_formed());
}

#[test]
fn handles_run_out_at_the_last() {
    let mut world = World::new();
    assert!(world.can_spawn(0));
    assert!(world.can_spawn(u32::MAX));
    world.next_id = 1;
    assert!(world.can_spawn(u32::MAX - 1));
    assert!(!world.can_spawn(u32::MAX));
    world.next_id = u32::MAX - 1;
    assert!(world.can_spawn(1));
    assert!(!world.can_spawn(2));
    world.next_id = u32::MAX;
    assert!(world.can_spawn(0));
    assert!(!world.can_spawn(1));
}

#[test]
fn a_circle_is_found_by_its_handle() {
    let mut world = World::new();
    let mut events = Vec::new();
    place_star(&mut world, at(1, 2), &mut events);
    ball_game::world::place_player(&mut world, at(3, 4), &mut events);
    ball_game::world::place_enemy(&mut world, at(5, 6), Direction::east(), &mut events);
    place_star(&mut world, at(7, 8), &mut events);
    ball_game::world::place_enemy(&mut world, at(9, 10), Direction::east(), &mut events);
    assert_eq!(world.position_of(0), Some(at(1, 2)));
    assert_eq!(world.position_of(1), Some(at(3, 4)));
    assert_eq!(world.position_of(2), Some(at(5, 6)));
    assert_eq!(world.position_of(3), Some(at(7, 8)));
    assert_eq!(world.position_of(4), Some(at(9, 10)));
    assert_eq!(world.position_of(5), None);
    assert_eq!(world.position_of(u32::MAX), None);
    assert_eq!(World::new().position_of(0), None);
}

#[test]
fn a_circle_that_is_gone_is_not_found() {
    let mut world = World::new();
    let mut events = Vec::new();
    ball_game::world::place_player(&mut world, at(100, 100), &mut events);
    place_star(&mut world, at(100, 100), &mut events);
    place_star(&mut world, at(500, 500), &mut events);
    ball_game::world::place_enemy(&mut world, at(110, 100), Direction::east(), &mut events);
    player_hit_star(&mut world, &mut events);
    assert_eq!(world.position_of(1), None);
    assert_eq!(world.position_of(2), Some(at(500, 500)));
    ball_game::collision::enemy_hit_player(&mut world, &mut events);
    assert_eq!(world.position_of(0), None);
    assert_eq!(world.position_of(3), Some(at(110, 100)));
}
