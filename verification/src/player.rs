//! The player: from keys to a heading, and from a heading to a step.

use vstd::prelude::*;
use crate::bounds::{confine, confined};
use crate::config::{PLAYER_SIZE, PLAYER_SPEED};
use crate::config::UNIT;
use crate::direction::{magnitude, norm_squared, Direction};
use crate::entity::{Event, Keys, Player};
use crate::geometry::{Field, Vec2};
use crate::motion::{
    advance,
    advanced,
    displacement,
    lemma_displacement_on_axis,
    lemma_step_length,
};
use crate::world::{place_player, World, WorldView};

verus! {

/// Right counts one, left counts one back.
pub open spec fn key_sum_x(keys: Keys) -> int {
    (if keys.right { 1int } else { 0int }) - (if keys.left { 1int } else { 0int })
}

/// Up counts one, down counts one back.
pub open spec fn key_sum_y(keys: Keys) -> int {
    (if keys.up { 1int } else { 0int }) - (if keys.down { 1int } else { 0int })
}

/// Where the keys steer: the heading of the sum of what each key that is
/// down contributes, and none where the sum is zero.
pub open spec fn spec_heading(keys: Keys) -> Option<Direction> {
    Direction::spec_from_vector(key_sum_x(keys), key_sum_y(keys))
}

/// The middle of the field.
pub open spec fn centre(field: Field) -> Vec2 {
    Vec2 { x: (field.width() / 2) as i64, y: (field.height() / 2) as i64 }
}

impl WorldView {
    /// The state after the player, if alive and steered, has moved for
    /// `dt` microseconds.
    pub open spec fn player_moved(self, keys: Keys, dt: u32) -> WorldView {
        match (self.player, spec_heading(keys)) {
            (Some(p), Some(h)) => WorldView {
                player: Some(
                    Player { position: advanced(p.position, h, PLAYER_SPEED, dt), ..p },
                ),
                ..self
            },
            _ => self,
        }
    }

    /// The state after the player, if alive, has been put back inside the
    /// field.
    pub open spec fn player_confined(self, field: Field) -> WorldView {
        match self.player {
            Some(p) => WorldView {
                player: Some(
                    Player {
                        position: confined(p.position, (PLAYER_SIZE / 2) as u32, field).position,
                        ..p
                    },
                ),
                ..self
            },
            None => self,
        }
    }
}

/// Where the keys steer.
pub fn heading(keys: Keys) -> (h: Option<Direction>)
    ensures
        h == spec_heading(keys),
        h matches Some(d) ==> d.valid(),
{
    let mut x: i32 = 0;
    let mut y: i32 = 0;
    if keys.left {
        x = x - 1;
    }
    if keys.right {
        x = x + 1;
    }
    if keys.up {
        y = y + 1;
    }
    if keys.down {
        y = y - 1;
    }
    Direction::from_vector(x, y)
}

/// Puts the player in the middle of the field, unless there is a player
/// already.
pub fn spawn_player(world: &mut World, field: Field, events: &mut Vec<Event>)
    requires
        old(world)@.wf(),
        old(world)@.has_room(1),
    ensures
        final(world)@ == old(world)@.with_player(centre(field)),
        final(world)@.wf(),
        final(events)@ == (if old(world)@.player is Some {
            old(events)@
        } else {
            old(events)@.push(
                Event::Spawned {
                    kind: crate::entity::Kind::Player,
                    id: old(world)@.next_id,
                    position: centre(field),
                },
            )
        }),
{
    let middle = Vec2 { x: field.width() / 2, y: field.height() / 2 };
    place_player(world, middle, events);
}

/// Moves the player, if alive, for `dt` microseconds where the keys steer.
/// With no key down, or with keys that cancel, the player stays.
pub fn player_movement(world: &mut World, keys: Keys, dt: u32)
    ensures
        final(world)@ == old(world)@.player_moved(keys, dt),
        old(world)@.wf() ==> final(world)@.wf(),
{
    if let Some(player) = world.player {
        if let Some(h) = heading(keys) {
            let position = advance(player.position, h, PLAYER_SPEED, dt);
            world.player = Some(Player { position, ..player });
        }
    }
}

/// Puts the player, if alive, back inside the field.
pub fn confine_player_movement(world: &mut World, field: Field)
    ensures
        final(world)@ == old(world)@.player_confined(field),
        old(world)@.wf() ==> final(world)@.wf(),
{
    if let Some(player) = world.player {
        let position = confine(player.position, PLAYER_SIZE / 2, field).position;
        world.player = Some(Player { position, ..player });
    }
}

/// With no key down, and with keys that cancel each other, the player
/// stays where it is, however much time passes.
pub proof fn lemma_cancelled_keys_stay(world: WorldView, keys: Keys, dt: u32)
    requires
        keys.left == keys.right,
        keys.up == keys.down,
    ensures
        world.player_moved(keys, dt) == world,
{
}

/// While a key steers, the player's step is `PLAYER_SPEED * dt` long,
/// whether one axis is in play or two: never longer, and shorter by no more
/// than the heading's tolerance and one millionth of rounding on each axis.
/// Along a single axis it is exactly that long.
pub proof fn lemma_steered_step_length(keys: Keys, dt: u32)
    requires
        spec_heading(keys) is Some,
    ensures
        ({
            let h = spec_heading(keys)->0;
            let ex = displacement(h.spec_x() as int, PLAYER_SPEED as int, dt as int);
            let ey = displacement(h.spec_y() as int, PLAYER_SPEED as int, dt as int);
            let l = PLAYER_SPEED * dt;
            &&& h.valid()
            &&& norm_squared(ex, ey) <= l * l
            &&& UNIT * UNIT * norm_squared(magnitude(ex) + 1, magnitude(ey) + 1) > (UNIT * UNIT
                - 4 * UNIT - 2) * (l * l)
            &&& key_sum_y(keys) == 0 ==> ex == key_sum_x(keys) * l && ey == 0
            &&& key_sum_x(keys) == 0 ==> ey == key_sum_y(keys) * l && ex == 0
        }),
{
    let x = key_sum_x(keys);
    let y = key_sum_y(keys);
    let h = spec_heading(keys)->0;
    Direction::lemma_along(x, y);
    lemma_step_length(h.spec_x() as int, h.spec_y() as int, PLAYER_SPEED as int, dt as int);
    lemma_displacement_on_axis(PLAYER_SPEED as int, dt as int);
    if y == 0 {
        Direction::lemma_along_axis(x);
    }
    if x == 0 {
        Direction::lemma_along_axis(y);
    }
}

} // verus!
