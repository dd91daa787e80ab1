//! The whole state of a game.

use vstd::prelude::*;
use crate::config::SPAWN_TIMER_STARS;
use crate::direction::Direction;
use crate::entity::{Enemy, Event, Kind, Player, Score, Star};
use crate::geometry::{Field, Vec2};
use crate::timer::StarSpawnTimer;

verus! {

/// The state of a game: the player while alive, the enemies and the stars in
/// the order of their creation, the score, the timer of the timed stars, the
/// next free handle, and the score that the host was last shown.
#[derive(Debug)]
pub struct World {
    pub player: Option<Player>,
    pub enemies: Vec<Enemy>,
    pub stars: Vec<Star>,
    pub score: Score,
    pub star_spawn_timer: StarSpawnTimer,
    pub next_id: u32,
    pub reported: Option<u32>,
}

/// A `World` as a mathematical value.
pub struct WorldView {
    pub player: Option<Player>,
    pub enemies: Seq<Enemy>,
    pub stars: Seq<Star>,
    pub score: u32,
    pub timer: StarSpawnTimer,
    pub next_id: u32,
    pub reported: Option<u32>,
}

impl View for World {
    type V = WorldView;

    open spec fn view(&self) -> WorldView {
        WorldView {
            player: self.player,
            enemies: self.enemies@,
            stars: self.stars@,
            score: self.score.value,
            timer: self.star_spawn_timer,
            next_id: self.next_id,
            reported: self.reported,
        }
    }
}

impl WorldView {
    /// Handles were given out in rising order and are all below the next
    /// free one, and no more stars were collected than were ever made: the
    /// score and the stars on the field together do not exceed the handles
    /// given out.
    pub open spec fn wf(self) -> bool {
        &&& self.player matches Some(p) ==> p.id < self.next_id
        &&& enemies_in_order(self.enemies, self.next_id)
        &&& stars_in_order(self.stars, self.next_id)
        &&& self.score + self.stars.len() <= self.next_id
    }

    /// Whether `count` more handles can be given out.
    pub open spec fn has_room(self, count: int) -> bool {
        self.next_id + count <= u32::MAX
    }

    /// Whether a circle on the field has the handle `id`.
    pub open spec fn holds(self, id: u32) -> bool {
        ||| (self.player matches Some(p) && p.id == id)
        ||| exists|i: int| 0 <= i < self.enemies.len() && (#[trigger] self.enemies[i]).id == id
        ||| exists|i: int| 0 <= i < self.stars.len() && (#[trigger] self.stars[i]).id == id
    }

    /// Where the circle with the handle `id` is: the player, or else the
    /// first enemy, or else the first star with that handle.
    pub open spec fn position_of(self, id: u32) -> Option<Vec2> {
        if self.player matches Some(p) && p.id == id {
            Some(self.player->0.position)
        } else if enemy_position(self.enemies, id) is Some {
            enemy_position(self.enemies, id)
        } else {
            star_position(self.stars, id)
        }
    }

    /// The state with a player at `position`, unless there is one already.
    pub open spec fn with_player(self, position: Vec2) -> WorldView {
        if self.player is Some {
            self
        } else {
            WorldView {
                player: Some(Player { id: self.next_id, position }),
                next_id: (self.next_id + 1) as u32,
                ..self
            }
        }
    }

    /// The state with one more enemy.
    pub open spec fn with_enemy(self, position: Vec2, direction: Direction) -> WorldView {
        WorldView {
            enemies: self.enemies.push(Enemy { id: self.next_id, position, direction }),
            next_id: (self.next_id + 1) as u32,
            ..self
        }
    }

    /// The state with one more star.
    pub open spec fn with_star(self, position: Vec2) -> WorldView {
        WorldView {
            stars: self.stars.push(Star { id: self.next_id, position }),
            next_id: (self.next_id + 1) as u32,
            ..self
        }
    }

    /// The state with more enemies, put one after the other.
    pub open spec fn with_enemies(self, places: Seq<(Vec2, Direction)>) -> WorldView
        decreases places.len(),
    {
        if places.len() == 0 {
            self
        } else {
            self.with_enemies(places.drop_last()).with_enemy(places.last().0, places.last().1)
        }
    }

    /// The state with more stars, put one after the other.
    pub open spec fn with_stars(self, positions: Seq<Vec2>) -> WorldView
        decreases positions.len(),
    {
        if positions.len() == 0 {
            self
        } else {
            self.with_stars(positions.drop_last()).with_star(positions.last())
        }
    }
}

/// Whether the point lies on the field, the far edges left out.
pub open spec fn in_field(point: Vec2, field: Field) -> bool {
    0 <= point.x < field.width() && 0 <= point.y < field.height()
}

/// What the host is told of circles of one kind that are put at the given
/// places, in order, the first with the handle `first_id`.
pub open spec fn spawn_events(kind: Kind, first_id: int, positions: Seq<Vec2>) -> Seq<Event> {
    Seq::new(
        positions.len(),
        |k: int| Event::Spawned { kind, id: (first_id + k) as u32, position: positions[k] },
    )
}

/// Whether the enemies' handles rise along the list and stay below `bound`.
pub open spec fn enemies_in_order(enemies: Seq<Enemy>, bound: u32) -> bool {
    &&& forall|i: int| 0 <= i < enemies.len() ==> (#[trigger] enemies[i]).id < bound
    &&& forall|i: int, j: int|
        0 <= i < j < enemies.len() ==> (#[trigger] enemies[i]).id < (#[trigger] enemies[j]).id
}

/// Whether the stars' handles rise along the list and stay below `bound`.
pub open spec fn stars_in_order(stars: Seq<Star>, bound: u32) -> bool {
    &&& forall|i: int| 0 <= i < stars.len() ==> (#[trigger] stars[i]).id < bound
    &&& forall|i: int, j: int|
        0 <= i < j < stars.len() ==> (#[trigger] stars[i]).id < (#[trigger] stars[j]).id
}

/// Where the first enemy with the handle `id` is, if there is one.
pub open spec fn enemy_position(enemies: Seq<Enemy>, id: u32) -> Option<Vec2>
    decreases enemies.len(),
{
    if enemies.len() == 0 {
        None
    } else if enemies.first().id == id {
        Some(enemies.first().position)
    } else {
        enemy_position(enemies.drop_first(), id)
    }
}

/// Where the first star with the handle `id` is, if there is one.
pub open spec fn star_position(stars: Seq<Star>, id: u32) -> Option<Vec2>
    decreases stars.len(),
{
    if stars.len() == 0 {
        None
    } else if stars.first().id == id {
        Some(stars.first().position)
    } else {
        star_position(stars.drop_first(), id)
    }
}

fn find_enemy(enemies: &Vec<Enemy>, id: u32) -> (found: Option<Vec2>)
    ensures
        found == enemy_position(enemies@, id),
        found is None <==> forall|i: int| 0 <= i < enemies@.len() ==> enemies@[i].id != id,
{
    let mut i: usize = 0;
    proof {
        assert(enemies@.skip(0) =~= enemies@);
    }
    while i < enemies.len()
        invariant
            i <= enemies@.len(),
            enemy_position(enemies@, id) == enemy_position(enemies@.skip(i as int), id),
            forall|j: int| 0 <= j < i ==> enemies@[j].id != id,
        decreases enemies@.len() - i,
    {
        proof {
            let rest = enemies@.skip(i as int);
            assert(rest.first() == enemies@[i as int]);
            assert(rest.drop_first() =~= enemies@.skip(i + 1));
        }
        if enemies[i].id == id {
            return Some(enemies[i].position);
        }
        i += 1;
    }
    None
}

fn find_star(stars: &Vec<Star>, id: u32) -> (found: Option<Vec2>)
    ensures
        found == star_position(stars@, id),
        found is None <==> forall|i: int| 0 <= i < stars@.len() ==> stars@[i].id != id,
{
    let mut i: usize = 0;
    proof {
        assert(stars@.skip(0) =~= stars@);
    }
    while i < stars.len()
        invariant
            i <= stars@.len(),
            star_position(stars@, id) == star_position(stars@.skip(i as int), id),
            forall|j: int| 0 <= j < i ==> stars@[j].id != id,
        decreases stars@.len() - i,
    {
        proof {
            let rest = stars@.skip(i as int);
            assert(rest.first() == stars@[i as int]);
            assert(rest.drop_first() =~= stars@.skip(i + 1));
        }
        if stars[i].id == id {
            return Some(stars[i].position);
        }
        i += 1;
    }
    None
}

fn check_enemies(enemies: &Vec<Enemy>, bound: u32) -> (ok: bool)
    ensures
        ok == enemies_in_order(enemies@, bound),
{
    let mut i: usize = 0;
    while i < enemies.len()
        invariant
            i <= enemies@.len(),
            enemies_in_order(enemies@.take(i as int), bound),
        decreases enemies@.len() - i,
    {
        if enemies[i].id >= bound {
            return false;
        }
        if i > 0 && enemies[i - 1].id >= enemies[i].id {
            return false;
        }
        proof {
            let before = enemies@.take(i as int);
            let upto = enemies@.take(i + 1);
            assert forall|a: int, b: int| 0 <= a < b < upto.len() implies (#[trigger] upto[a]).id
                < (#[trigger] upto[b]).id by {
                if b < i {
                    assert(before[a].id < before[b].id);
                } else if a < i - 1 {
                    assert(before[a].id < before[i - 1].id);
                }
            }
            assert forall|a: int| 0 <= a < upto.len() implies (#[trigger] upto[a]).id < bound by {
                if a < i {
                    assert(before[a].id < bound);
                }
            }
        }
        i += 1;
    }
    proof {
        assert(enemies@.take(i as int) =~= enemies@);
    }
    true
}

fn check_stars(stars: &Vec<Star>, bound: u32) -> (ok: bool)
    ensures
        ok == stars_in_order(stars@, bound),
{
    let mut i: usize = 0;
    while i < stars.len()
        invariant
            i <= stars@.len(),
            stars_in_order(stars@.take(i as int), bound),
        decreases stars@.len() - i,
    {
        if stars[i].id >= bound {
            return false;
        }
        if i > 0 && stars[i - 1].id >= stars[i].id {
            return false;
        }
        proof {
            let before = stars@.take(i as int);
            let upto = stars@.take(i + 1);
            assert forall|a: int, b: int| 0 <= a < b < upto.len() implies (#[trigger] upto[a]).id
                < (#[trigger] upto[b]).id by {
                if b < i {
                    assert(before[a].id < before[b].id);
                } else if a < i - 1 {
                    assert(before[a].id < before[i - 1].id);
                }
            }
            assert forall|a: int| 0 <= a < upto.len() implies (#[trigger] upto[a]).id < bound by {
                if a < i {
                    assert(before[a].id < bound);
                }
            }
        }
        i += 1;
    }
    proof {
        assert(stars@.take(i as int) =~= stars@);
    }
    true
}

impl World {
    /// Whether the state is well formed: what every rule asks of the state
    /// it is given.
    pub fn is_well_formed(&self) -> (ok: bool)
        ensures
            ok == self@.wf(),
    {
        let player_ok = match self.player {
            Some(p) => p.id < self.next_id,
            None => true,
        };
        player_ok && check_enemies(&self.enemies, self.next_id) && check_stars(
            &self.stars,
            self.next_id,
        ) && (self.stars.len() as u64) <= (self.next_id as u64) && (self.score.value as u64)
            <= (self.next_id as u64) - (self.stars.len() as u64)
    }

    /// Where the circle with the handle `id` is, if a circle on the field
    /// has that handle.
    pub fn position_of(&self, id: u32) -> (position: Option<Vec2>)
        ensures
            position == self@.position_of(id),
            position is Some <==> self@.holds(id),
    {
        if let Some(p) = self.player {
            if p.id == id {
                return Some(p.position);
            }
        }
        match find_enemy(&self.enemies, id) {
            Some(position) => Some(position),
            None => find_star(&self.stars, id),
        }
    }

    /// Whether `count` more handles can be given out.
    pub fn can_spawn(&self, count: u32) -> (ok: bool)
        ensures
            ok == self@.has_room(count as int),
    {
        self.next_id <= u32::MAX - count
    }

    /// An empty field, no score, and the timer at rest.
    pub fn new() -> (world: World)
        ensures
            world@.wf(),
            world@.player is None,
            world@.enemies.len() == 0,
            world@.stars.len() == 0,
            world@.score == 0,
            world@.timer == StarSpawnTimer::fresh(SPAWN_TIMER_STARS),
            world@.next_id == 0,
            world@.reported is None,
    {
        World {
            player: None,
            enemies: Vec::new(),
            stars: Vec::new(),
            score: Score { value: 0 },
            star_spawn_timer: StarSpawnTimer::default(),
            next_id: 0,
            reported: None,
        }
    }
}

/// Puts a player at `position` and tells the host, unless there is a player
/// already: then nothing happens.
pub fn place_player(world: &mut World, position: Vec2, events: &mut Vec<Event>)
    requires
        old(world)@.wf(),
        old(world)@.has_room(1),
    ensures
        final(world)@ == old(world)@.with_player(position),
        final(world)@.wf(),
        final(events)@ == (if old(world)@.player is Some {
            old(events)@
        } else {
            old(events)@.push(
                Event::Spawned { kind: Kind::Player, id: old(world)@.next_id, position },
            )
        }),
{
    if world.player.is_none() {
        let id = world.next_id;
        world.next_id = id + 1;
        world.player = Some(Player { id, position });
        events.push(Event::Spawned { kind: Kind::Player, id, position });
    }
}

/// Puts an enemy at `position`, heading along `direction`, and tells the
/// host.
pub fn place_enemy(
    world: &mut World,
    position: Vec2,
    direction: Direction,
    events: &mut Vec<Event>,
)
    requires
        old(world)@.wf(),
        old(world)@.has_room(1),
    ensures
        final(world)@ == old(world)@.with_enemy(position, direction),
        final(world)@.wf(),
        final(events)@ == old(events)@.push(
            Event::Spawned { kind: Kind::Enemy, id: old(world)@.next_id, position },
        ),
{
    let id = world.next_id;
    world.next_id = id + 1;
    world.enemies.push(Enemy { id, position, direction });
    events.push(Event::Spawned { kind: Kind::Enemy, id, position });
}

/// Puts a star at `position` and tells the host.
pub fn place_star(world: &mut World, position: Vec2, events: &mut Vec<Event>)
    requires
        old(world)@.wf(),
        old(world)@.has_room(1),
    ensures
        final(world)@ == old(world)@.with_star(position),
        final(world)@.wf(),
        final(events)@ == old(events)@.push(
            Event::Spawned { kind: Kind::Star, id: old(world)@.next_id, position },
        ),
{
    let id = world.next_id;
    world.next_id = id + 1;
    world.stars.push(Star { id, position });
    events.push(Event::Spawned { kind: Kind::Star, id, position });
}

} // verus!
