//! One frame of the game: the order in which the rules apply.

use vstd::prelude::*;
use crate::collision::{
    collected_events,
    enemy_hit_player,
    lemma_contacts_keep_wf,
    lemma_score_counts_stars,
    player_hit_star,
};
use crate::config::{ENEMY_SIZE, PLAYER_SIZE};
use crate::direction::norm_squared;
use crate::enemy::{
    bounces_told,
    confine_enemy_movement,
    cues_valid,
    draw_cues,
    enemy_movement,
    lemma_confinement_after_reflection,
    lemma_enemy_motion_keeps_wf,
    lemma_reflected,
    update_enemy_direction_with,
};
use crate::entity::{Event, Keys};
use crate::geometry::{Field, Vec2};
use crate::player::{confine_player_movement, player_movement};
use crate::spawner::{place_timed_star, random_point, tick_star_spawn_timer};
use crate::world::{in_field, World, WorldView};

verus! {

impl WorldView {
    /// The state of a frame once the timer has ticked and everything has
    /// moved, before anything is held to the field: the timed star, if the
    /// timer calls for one, is at `star`.
    pub open spec fn after_movement(self, keys: Keys, dt: u32, star: Vec2) -> WorldView {
        self.timer_ticked(dt).with_timed_star(star).player_moved(keys, dt).enemies_moved(dt)
    }

    /// The state of a frame once everything is back inside the field,
    /// before contacts are looked for.
    pub open spec fn after_confinement(
        self,
        keys: Keys,
        dt: u32,
        field: Field,
        star: Vec2,
    ) -> WorldView {
        self.after_movement(keys, dt, star).enemies_reflected(field).player_confined(
            field,
        ).enemies_confined(field)
    }

    /// The state at the end of a frame.
    pub open spec fn after_tick(self, keys: Keys, dt: u32, field: Field, star: Vec2) -> WorldView {
        self.after_confinement(keys, dt, field, star).after_enemy_hits().after_star_hits()
    }

    /// What the host is told in a frame, in order: of the timed star, of
    /// each bounce, of the end of the game, of each collected star. `cues`
    /// holds a cue for each enemy.
    pub open spec fn tick_events(
        self,
        keys: Keys,
        dt: u32,
        field: Field,
        star: Vec2,
        cues: Seq<u8>,
    ) -> Seq<Event> {
        let settled = self.after_confinement(keys, dt, field, star);
        self.timer_ticked(dt).timed_star_events(star) + bounces_told(
            self.after_movement(keys, dt, star).enemies,
            field,
            cues,
        ) + settled.game_over_events() + collected_events(
            settled.after_enemy_hits().stars_collected(),
        )
    }
}

/// A frame keeps a state well formed, whatever is drawn.
pub proof fn lemma_tick_keeps_wf(world: WorldView, keys: Keys, dt: u32, field: Field, star: Vec2)
    requires
        world.wf(),
        world.has_room(1),
    ensures
        world.after_movement(keys, dt, star).wf(),
        world.after_confinement(keys, dt, field, star).wf(),
        world.after_confinement(keys, dt, field, star).after_enemy_hits().wf(),
        world.after_tick(keys, dt, field, star).wf(),
{
    let spawned = world.timer_ticked(dt).with_timed_star(star);
    assert(spawned.wf());
    let steered = spawned.player_moved(keys, dt);
    assert(steered.wf());
    let moved = steered.enemies_moved(dt);
    lemma_enemy_motion_keeps_wf(steered, moved);
    let reflected = moved.enemies_reflected(field);
    lemma_enemy_motion_keeps_wf(moved, reflected);
    let held = reflected.player_confined(field);
    assert(held.wf());
    let settled = held.enemies_confined(field);
    lemma_enemy_motion_keeps_wf(held, settled);
    lemma_contacts_keep_wf(settled);
    lemma_contacts_keep_wf(settled.after_enemy_hits());
}

/// What a frame never does: it takes no point back; it makes and destroys
/// no enemy, and each keeps its handle and the length of its heading; a
/// player that is gone stays gone, and no game ends without a player; and,
/// in a field with room for the circles, the player and the enemies end the
/// frame inside it.
pub proof fn lemma_tick_invariants(
    world: WorldView,
    keys: Keys,
    dt: u32,
    field: Field,
    star: Vec2,
)
    requires
        world.wf(),
        world.has_room(1),
        field.valid(),
        forall|i: int|
            0 <= i < world.enemies.len() ==> (#[trigger] world.enemies[i]).direction.valid(),
    ensures
        ({
            let after = world.after_tick(keys, dt, field, star);
            let settled = world.after_confinement(keys, dt, field, star);
            &&& after.score >= world.score
            &&& after.score - world.score == settled.after_enemy_hits().stars_collected().len()
            &&& after.enemies.len() == world.enemies.len()
            &&& forall|i: int|
                0 <= i < world.enemies.len() ==> {
                    &&& (#[trigger] after.enemies[i]).id == world.enemies[i].id
                    &&& after.enemies[i].direction.valid()
                    &&& norm_squared(
                        after.enemies[i].direction.spec_x() as int,
                        after.enemies[i].direction.spec_y() as int,
                    ) == norm_squared(
                        world.enemies[i].direction.spec_x() as int,
                        world.enemies[i].direction.spec_y() as int,
                    )
                }
            &&& world.player is None ==> after.player is None && settled.game_over_events().len()
                == 0 && after.score == world.score
            &&& after.player is Some ==> settled.game_over_events().len() == 0
            &&& field.width() >= PLAYER_SIZE && field.height() >= PLAYER_SIZE ==> (
            after.player matches Some(p) ==> {
                &&& PLAYER_SIZE / 2 <= p.position.x <= field.width() - PLAYER_SIZE / 2
                &&& PLAYER_SIZE / 2 <= p.position.y <= field.height() - PLAYER_SIZE / 2
            })
            &&& field.width() >= ENEMY_SIZE && field.height() >= ENEMY_SIZE ==> forall|i: int|
                0 <= i < after.enemies.len() ==> {
                    &&& ENEMY_SIZE / 2 <= (#[trigger] after.enemies[i]).position.x <= field.width()
                        - ENEMY_SIZE / 2
                    &&& ENEMY_SIZE / 2 <= after.enemies[i].position.y <= field.height()
                        - ENEMY_SIZE / 2
                }
        }),
{
    lemma_tick_keeps_wf(world, keys, dt, field, star);
    let moved = world.after_movement(keys, dt, star);
    let reflected = moved.enemies_reflected(field);
    let settled = world.after_confinement(keys, dt, field, star);
    let after = world.after_tick(keys, dt, field, star);
    lemma_score_counts_stars(settled.after_enemy_hits());
    lemma_confinement_after_reflection(moved, field);
    assert(settled.enemies == reflected.enemies);
    assert(after.enemies == settled.enemies);
    assert forall|i: int| 0 <= i < world.enemies.len() implies {
        &&& (#[trigger] after.enemies[i]).id == world.enemies[i].id
        &&& after.enemies[i].direction.valid()
        &&& norm_squared(
            after.enemies[i].direction.spec_x() as int,
            after.enemies[i].direction.spec_y() as int,
        ) == norm_squared(
            world.enemies[i].direction.spec_x() as int,
            world.enemies[i].direction.spec_y() as int,
        )
    } by {
        assert(moved.enemies[i].direction == world.enemies[i].direction);
        lemma_reflected(moved.enemies[i], field);
    }
}

/// Plays one frame of `dt` microseconds, with what chance decides handed
/// in: the place of the timed star, and a cue for each enemy. In this
/// order: the timer ticks and the timed star, if due, appears; the player
/// and the enemies move; the enemies are reflected off the edges, and all
/// are held to the field; contact with an enemy ends the game; contact with
/// stars, while the player lives, collects them.
pub fn tick_with(
    world: &mut World,
    keys: Keys,
    dt: u32,
    field: Field,
    star: Vec2,
    cues: &Vec<u8>,
    events: &mut Vec<Event>,
)
    requires
        old(world)@.wf(),
        old(world)@.has_room(1),
    ensures
        final(world)@.wf(),
        final(world)@ == old(world)@.after_tick(keys, dt, field, star),
        final(events)@ == old(events)@ + old(world)@.tick_events(keys, dt, field, star, cues@),
{
    tick_star_spawn_timer(world, dt);
    place_timed_star(world, star, events);
    player_movement(world, keys, dt);
    enemy_movement(world, dt);
    let ghost moved = world@;
    update_enemy_direction_with(world, field, cues, events);
    confine_player_movement(world, field);
    confine_enemy_movement(world, field);
    let ghost settled = world@;
    enemy_hit_player(world, events);
    player_hit_star(world, events);
    proof {
        assert(moved == old(world)@.after_movement(keys, dt, star));
        assert(settled == old(world)@.after_confinement(keys, dt, field, star));
        assert(events@ =~= old(events)@ + old(world)@.tick_events(keys, dt, field, star, cues@));
    }
}

/// Plays one frame of `dt` microseconds, as `tick_with` does, with the
/// place of the timed star and a cue for each enemy drawn by chance.
pub fn tick(world: &mut World, keys: Keys, dt: u32, field: Field, events: &mut Vec<Event>)
    requires
        old(world)@.wf(),
        old(world)@.has_room(1),
    ensures
        final(world)@.wf(),
        exists|star: Vec2, cues: Seq<u8>|
            {
                &&& in_field(star, field)
                &&& cues.len() == old(world)@.enemies.len()
                &&& cues_valid(cues)
                &&& final(world)@ == old(world)@.after_tick(keys, dt, field, star)
                &&& final(events)@ == old(events)@ + old(world)@.tick_events(
                    keys,
                    dt,
                    field,
                    star,
                    cues,
                )
            },
{
    let star = random_point(field);
    let cues = draw_cues(world.enemies.len());
    tick_with(world, keys, dt, field, star, &cues, events);
}

} // verus!
