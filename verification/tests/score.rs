use ball_game::collision::player_hit_star;
use ball_game::config::UNIT;
use ball_game::entity::Score;
use ball_game::geometry::Vec2;
use ball_game::score::update_score;
use ball_game::world::{place_player, place_star, World};

#[test]
fn the_score_starts_at_zero() {
    assert_eq!(Score::default(), Score { value: 0 });
    assert_eq!(World::new().score, Score { value: 0 });
}

#[test]
fn the_first_look_shows_the_score() {
    let mut world = World::new();
    assert_eq!(update_score(&mut world), Some(0));
    assert_eq!(world.reported, Some(0));
    assert_eq!(update_score(&mut world), None);
    assert_eq!(update_score(&mut world), None);
}

#[test]
fn a_changed_score_is_shown_once() {
    let mut world = World::new();
    let mut events = Vec::new();
    place_player(&mut world, Vec2 { x: 100 * UNIT, y: 100 * UNIT }, &mut events);
    assert_eq!(update_score(&mut world), Some(0));
    player_hit_star(&mut world, &mut events);
    assert_eq!(update_score(&mut world), None);
    place_star(&mut world, Vec2 { x: 100 * UNIT, y: 100 * UNIT }, &mut events);
    place_star(&mut world, Vec2 { x: 101 * UNIT, y: 100 * UNIT }, &mut events);
    player_hit_star(&mut world, &mut events);
    assert_eq!(update_score(&mut world), Some(2));
    assert_eq!(update_score(&mut world), None);
    assert_eq!(world.score.value, 2);
    place_star(&mut world, Vec2 { x: 100 * UNIT, y: 100 * UNIT }, &mut events);
    player_hit_star(&mut world, &mut events);
    assert_eq!(update_score(&mut world), Some(3));
}

#[test]
fn looking_changes_nothing_else() {
    let mut world = World::new();
    let mut events = Vec::new();
    place_star(&mut world, Vec2 { x: 1, y: 1 }, &mut events);
    update_score(&mut world);
    assert_eq!(world.stars.len(), 1);
    assert_eq!(world.next_id, 1);
    assert_eq!(world.score.value, 0);
    assert!(world.player.is_none());
}
