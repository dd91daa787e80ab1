//! The enemies: straight flight, and reflection off the field's edges.

use vstd::prelude::*;
use crate::bounds::{confine, confined, lemma_clamp_axis_idempotent};
use crate::config::{ENEMY_SIZE, ENEMY_SPEED};
use crate::direction::norm_squared;
use crate::entity::{Enemy, Event};
use crate::geometry::Field;
use crate::motion::{advance, advanced};
use crate::random::random_in_range;
use crate::world::{World, WorldView};

verus! {

/// An enemy after `dt` microseconds of flight.
pub open spec fn moved(enemy: Enemy, dt: u32) -> Enemy {
    Enemy { position: advanced(enemy.position, enemy.direction, ENEMY_SPEED, dt), ..enemy }
}

/// Whether the enemy is at or beyond an edge of the field.
pub open spec fn bounces(enemy: Enemy, field: Field) -> bool {
    let c = confined(enemy.position, (ENEMY_SIZE / 2) as u32, field);
    c.clamped_x || c.clamped_y
}

/// An enemy put back inside the field, its heading mirrored on each axis on
/// which it met an edge.
pub open spec fn reflected(enemy: Enemy, field: Field) -> Enemy {
    let c = confined(enemy.position, (ENEMY_SIZE / 2) as u32, field);
    Enemy {
        id: enemy.id,
        position: c.position,
        direction: enemy.direction.spec_flipped(c.clamped_x, c.clamped_y),
    }
}

/// An enemy put back inside the field, its heading kept.
pub open spec fn confined_enemy(enemy: Enemy, field: Field) -> Enemy {
    Enemy { position: confined(enemy.position, (ENEMY_SIZE / 2) as u32, field).position, ..enemy }
}

/// The cue for the enemy at `index`: the one drawn for it, and the first
/// where none was drawn.
pub open spec fn cue_at(cues: Seq<u8>, index: int) -> u8 {
    if 0 <= index < cues.len() {
        cues[index]
    } else {
        1
    }
}

/// What reflecting one enemy tells the host: a bounce with the given cue if
/// the enemy is at or beyond an edge, and nothing otherwise.
pub open spec fn bounce_told(enemy: Enemy, field: Field, cue: u8) -> Option<Event> {
    if bounces(enemy, field) {
        Some(Event::Bounce { cue })
    } else {
        None
    }
}

/// What reflecting the enemies tells the host: a bounce for each enemy that
/// is at or beyond an edge, in the enemies' order, each with the cue drawn
/// for that enemy.
pub open spec fn bounces_told(enemies: Seq<Enemy>, field: Field, cues: Seq<u8>) -> Seq<Event>
    decreases enemies.len(),
{
    if enemies.len() == 0 {
        Seq::empty()
    } else {
        let before = bounces_told(enemies.drop_last(), field, cues);
        match bounce_told(enemies.last(), field, cue_at(cues, enemies.len() - 1)) {
            Some(event) => before.push(event),
            None => before,
        }
    }
}

/// Whether each cue is one of the two there are.
pub open spec fn cues_valid(cues: Seq<u8>) -> bool {
    forall|k: int| 0 <= k < cues.len() ==> 1 <= #[trigger] cues[k] <= 2
}

impl WorldView {
    /// The state after every enemy has flown for `dt` microseconds.
    pub open spec fn enemies_moved(self, dt: u32) -> WorldView {
        WorldView { enemies: self.enemies.map_values(|e: Enemy| moved(e, dt)), ..self }
    }

    /// The state after every enemy has been reflected off the edges.
    pub open spec fn enemies_reflected(self, field: Field) -> WorldView {
        WorldView { enemies: self.enemies.map_values(|e: Enemy| reflected(e, field)), ..self }
    }

    /// The state after every enemy has been put back inside the field.
    pub open spec fn enemies_confined(self, field: Field) -> WorldView {
        WorldView { enemies: self.enemies.map_values(|e: Enemy| confined_enemy(e, field)), ..self }
    }

    /// The same state but for where the enemies are and where they head.
    pub open spec fn same_but_enemy_motion(self, other: WorldView) -> bool {
        &&& other.player == self.player
        &&& other.stars == self.stars
        &&& other.score == self.score
        &&& other.timer == self.timer
        &&& other.next_id == self.next_id
        &&& other.reported == self.reported
        &&& other.enemies.len() == self.enemies.len()
        &&& forall|i: int|
            0 <= i < self.enemies.len() ==> (#[trigger] other.enemies[i]).id == self.enemies[i].id
    }
}

/// Moving the enemies about keeps a state well formed.
pub proof fn lemma_enemy_motion_keeps_wf(before: WorldView, after: WorldView)
    requires
        before.wf(),
        before.same_but_enemy_motion(after),
    ensures
        after.wf(),
{
    assert forall|i: int, j: int| 0 <= i < j < after.enemies.len() implies (
    #[trigger] after.enemies[i]).id < (#[trigger] after.enemies[j]).id by {
        assert(before.enemies[i].id < before.enemies[j].id);
    }
    assert forall|i: int| 0 <= i < after.enemies.len() implies (#[trigger] after.enemies[i]).id
        < after.next_id by {
        assert(before.enemies[i].id < before.next_id);
    }
}

/// Reflection negates the heading on each axis on which an edge was met,
/// leaves it on the other, and keeps its length: a heading stays a heading
/// however often the enemy bounces.
pub proof fn lemma_reflected(enemy: Enemy, field: Field)
    requires
        enemy.direction.valid(),
    ensures
        ({
            let c = confined(enemy.position, (ENEMY_SIZE / 2) as u32, field);
            let after = reflected(enemy, field);
            &&& after.id == enemy.id
            &&& after.position == c.position
            &&& after.direction.spec_x() == (if c.clamped_x {
                -enemy.direction.spec_x()
            } else {
                enemy.direction.spec_x() as int
            })
            &&& after.direction.spec_y() == (if c.clamped_y {
                -enemy.direction.spec_y()
            } else {
                enemy.direction.spec_y() as int
            })
            &&& norm_squared(after.direction.spec_x() as int, after.direction.spec_y() as int)
                == norm_squared(enemy.direction.spec_x() as int, enemy.direction.spec_y() as int)
            &&& after.direction.valid()
        }),
{
    let c = confined(enemy.position, (ENEMY_SIZE / 2) as u32, field);
    enemy.direction.lemma_flipped(c.clamped_x, c.clamped_y);
}

/// An enemy that has crossed the left edge of a field with room for it is
/// put at exactly its radius from that edge and heads the other way along
/// x; past the right edge likewise, and so along y.
pub proof fn lemma_bounce_off_edges(enemy: Enemy, field: Field)
    requires
        field.valid(),
        enemy.direction.valid(),
        field.width() >= ENEMY_SIZE,
        field.height() >= ENEMY_SIZE,
    ensures
        ({
            let radius = ENEMY_SIZE / 2;
            let after = reflected(enemy, field);
            &&& enemy.position.x < radius ==> after.position.x == radius
                && after.direction.spec_x() == -enemy.direction.spec_x()
            &&& enemy.position.x > field.width() - radius ==> after.position.x == field.width()
                - radius && after.direction.spec_x() == -enemy.direction.spec_x()
            &&& radius <= enemy.position.x <= field.width() - radius ==> after.position.x
                == enemy.position.x && after.direction.spec_x() == enemy.direction.spec_x()
            &&& enemy.position.y < radius ==> after.position.y == radius
                && after.direction.spec_y() == -enemy.direction.spec_y()
            &&& enemy.position.y > field.height() - radius ==> after.position.y == field.height()
                - radius && after.direction.spec_y() == -enemy.direction.spec_y()
            &&& radius <= enemy.position.y <= field.height() - radius ==> after.position.y
                == enemy.position.y && after.direction.spec_y() == enemy.direction.spec_y()
        }),
{
    lemma_reflected(enemy, field);
}

/// Once the enemies are reflected, putting them back inside the field
/// changes nothing.
pub proof fn lemma_confinement_after_reflection(world: WorldView, field: Field)
    requires
        field.valid(),
    ensures
        world.enemies_reflected(field).enemies_confined(field) == world.enemies_reflected(field),
{
    let once = world.enemies_reflected(field);
    let twice = once.enemies_confined(field);
    assert forall|i: int| 0 <= i < once.enemies.len() implies twice.enemies[i]
        == once.enemies[i] by {
        let e = world.enemies[i];
        lemma_clamp_axis_idempotent(
            e.position.x as int,
            (ENEMY_SIZE / 2) as int,
            field.width() as int,
        );
        lemma_clamp_axis_idempotent(
            e.position.y as int,
            (ENEMY_SIZE / 2) as int,
            field.height() as int,
        );
    }
    assert(twice.enemies =~= once.enemies);
}

/// Puts one enemy back inside the field and mirrors its heading on each
/// axis on which it met an edge. If it met one, the host is to be told of a
/// bounce, with the cue given.
pub fn reflect(enemy: Enemy, field: Field, cue: u8) -> (r: (Enemy, Option<Event>))
    ensures
        r.0 == reflected(enemy, field),
        r.1 == bounce_told(enemy, field, cue),
{
    let c = confine(enemy.position, ENEMY_SIZE / 2, field);
    let direction = enemy.direction.flipped(c.clamped_x, c.clamped_y);
    let told = if c.clamped_x || c.clamped_y {
        Some(Event::Bounce { cue })
    } else {
        None
    };
    (Enemy { id: enemy.id, position: c.position, direction }, told)
}

/// Lets every enemy fly for `dt` microseconds along its heading.
pub fn enemy_movement(world: &mut World, dt: u32)
    ensures
        final(world)@ == old(world)@.enemies_moved(dt),
        old(world)@.wf() ==> final(world)@.wf(),
{
    let count = world.enemies.len();
    let mut i: usize = 0;
    while i < count
        invariant
            i <= count,
            count == old(world)@.enemies.len(),
            old(world)@.same_but_enemy_motion(world@),
            forall|j: int| 0 <= j < i ==> world@.enemies[j] == moved(old(world)@.enemies[j], dt),
            forall|j: int| i <= j < count ==> world@.enemies[j] == old(world)@.enemies[j],
        decreases count - i,
    {
        let enemy = world.enemies[i];
        let position = advance(enemy.position, enemy.direction, ENEMY_SPEED, dt);
        world.enemies.set(i, Enemy { position, ..enemy });
        i += 1;
    }
    proof {
        assert(world@.enemies =~= old(world)@.enemies_moved(dt).enemies);
        if old(world)@.wf() {
            lemma_enemy_motion_keeps_wf(old(world)@, world@);
        }
    }
}

/// Reflects every enemy off the field's edges: each is put back inside, its
/// heading is mirrored on each axis on which it met an edge, and for each
/// enemy that met one the host is told of a bounce, with the cue that
/// `cues` holds at the enemy's place.
pub fn update_enemy_direction_with(
    world: &mut World,
    field: Field,
    cues: &Vec<u8>,
    events: &mut Vec<Event>,
)
    ensures
        final(world)@ == old(world)@.enemies_reflected(field),
        old(world)@.wf() ==> final(world)@.wf(),
        final(events)@ == old(events)@ + bounces_told(old(world)@.enemies, field, cues@),
{
    let count = world.enemies.len();
    let mut i: usize = 0;
    proof {
        assert(old(world)@.enemies.take(0) =~= Seq::<Enemy>::empty());
        assert(events@ =~= old(events)@ + bounces_told(
            old(world)@.enemies.take(0),
            field,
            cues@,
        ));
    }
    while i < count
        invariant
            i <= count,
            count == old(world)@.enemies.len(),
            old(world)@.same_but_enemy_motion(world@),
            forall|j: int|
                0 <= j < i ==> world@.enemies[j] == reflected(old(world)@.enemies[j], field),
            forall|j: int| i <= j < count ==> world@.enemies[j] == old(world)@.enemies[j],
            events@ == old(events)@ + bounces_told(
                old(world)@.enemies.take(i as int),
                field,
                cues@,
            ),
        decreases count - i,
    {
        let cue: u8 = if i < cues.len() { cues[i] } else { 1 };
        let (enemy, told) = reflect(world.enemies[i], field, cue);
        world.enemies.set(i, enemy);
        proof {
            let upto = old(world)@.enemies.take(i + 1);
            assert(upto.drop_last() =~= old(world)@.enemies.take(i as int));
            assert(upto.last() == old(world)@.enemies[i as int]);
        }
        if let Some(event) = told {
            events.push(event);
        }
        proof {
            assert(events@ =~= old(events)@ + bounces_told(
                old(world)@.enemies.take(i + 1),
                field,
                cues@,
            ));
        }
        i += 1;
    }
    proof {
        assert(old(world)@.enemies.take(count as int) =~= old(world)@.enemies);
        assert(world@.enemies =~= old(world)@.enemies_reflected(field).enemies);
        if old(world)@.wf() {
            lemma_enemy_motion_keeps_wf(old(world)@, world@);
        }
    }
}

/// Draws a cue of 1 or 2 by chance, `count` times.
pub fn draw_cues(count: usize) -> (cues: Vec<u8>)
    ensures
        cues@.len() == count,
        cues_valid(cues@),
{
    let mut cues: Vec<u8> = Vec::new();
    while cues.len() < count
        invariant
            cues@.len() <= count,
            cues_valid(cues@),
        decreases count - cues@.len(),
    {
        let cue = random_in_range(1, 3) as u8;
        cues.push(cue);
    }
    cues
}

/// Reflects every enemy off the field's edges, as
/// `update_enemy_direction_with` does, with a cue drawn by chance for each
/// enemy.
pub fn update_enemy_direction(world: &mut World, field: Field, events: &mut Vec<Event>)
    ensures
        final(world)@ == old(world)@.enemies_reflected(field),
        old(world)@.wf() ==> final(world)@.wf(),
        exists|cues: Seq<u8>|
            {
                &&& cues.len() == old(world)@.enemies.len()
                &&& cues_valid(cues)
                &&& final(events)@ == old(events)@ + bounces_told(
                    old(world)@.enemies,
                    field,
                    cues,
                )
            },
{
    let cues = draw_cues(world.enemies.len());
    update_enemy_direction_with(world, field, &cues, events);
}

/// Puts every enemy back inside the field; headings stay.
pub fn confine_enemy_movement(world: &mut World, field: Field)
    ensures
        final(world)@ == old(world)@.enemies_confined(field),
        old(world)@.wf() ==> final(world)@.wf(),
{
    let count = world.enemies.len();
    let mut i: usize = 0;
    while i < count
        invariant
            i <= count,
            count == old(world)@.enemies.len(),
            old(world)@.same_but_enemy_motion(world@),
            forall|j: int|
                0 <= j < i ==> world@.enemies[j] == confined_enemy(old(world)@.enemies[j], field),
            forall|j: int| i <= j < count ==> world@.enemies[j] == old(world)@.enemies[j],
        decreases count - i,
    {
        let enemy = world.enemies[i];
        let position = confine(enemy.position, ENEMY_SIZE / 2, field).position;
        world.enemies.set(i, Enemy { position, ..enemy });
        i += 1;
    }
    proof {
        assert(world@.enemies =~= old(world)@.enemies_confined(field).enemies);
        if old(world)@.wf() {
            lemma_enemy_motion_keeps_wf(old(world)@, world@);
        }
    }
}

} // verus!
