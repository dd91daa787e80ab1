//! Where new circles come from: at startup in batches, and one star
//! whenever the timer completes a period. Places are drawn by chance.

use vstd::prelude::*;
use crate::config::{ENEMY_NUMBER, NUMBER_OF_STARS, UNIT};
use crate::direction::{points_along, Direction};
use crate::entity::{Event, Kind};
use crate::geometry::{Field, Vec2};
use crate::random::random_in_range;
use crate::world::{in_field, place_enemy, place_star, spawn_events, World, WorldView};

verus! {

/// The heading for a pair of drawn components: the heading of the vector
/// they make, and the positive x axis where both are zero and make none.
pub open spec fn spec_heading_from_draw(x: int, y: int) -> Direction {
    match Direction::spec_from_vector(x, y) {
        Some(h) => h,
        None => Direction::spec_east(),
    }
}

/// Whether the heading can come of a draw: of two components from zero up
/// to, but not including, `UNIT`.
pub open spec fn is_drawn_heading(heading: Direction) -> bool {
    exists|x: int, y: int|
        0 <= x < UNIT && 0 <= y < UNIT && heading == #[trigger] spec_heading_from_draw(x, y)
}

/// The places alone.
pub open spec fn positions_of(places: Seq<(Vec2, Direction)>) -> Seq<Vec2> {
    Seq::new(places.len(), |k: int| places[k].0)
}

impl WorldView {
    /// The state after the timer has let `dt` microseconds pass.
    pub open spec fn timer_ticked(self, dt: u32) -> WorldView {
        WorldView { timer: self.timer.ticked(dt), ..self }
    }

    /// The state with a star at `position` if the timer's last tick
    /// completed a period, and else as it is.
    pub open spec fn with_timed_star(self, position: Vec2) -> WorldView {
        if self.timer.finished() {
            self.with_star(position)
        } else {
            self
        }
    }

    /// What the host is told of the timed star.
    pub open spec fn timed_star_events(self, position: Vec2) -> Seq<Event> {
        if self.timer.finished() {
            seq![Event::Spawned { kind: Kind::Star, id: self.next_id, position }]
        } else {
            Seq::empty()
        }
    }
}

/// A point of the field drawn by chance, each coordinate on its own.
pub fn random_point(field: Field) -> (point: Vec2)
    ensures
        in_field(point, field),
{
    let x = random_in_range(0, field.width());
    let y = random_in_range(0, field.height());
    Vec2 { x, y }
}

/// The heading for a pair of drawn components.
pub fn heading_from_draw(x: i32, y: i32) -> (heading: Direction)
    ensures
        heading == spec_heading_from_draw(x as int, y as int),
        heading.valid(),
        x != 0 || y != 0 ==> points_along(
            heading.spec_x() as int,
            heading.spec_y() as int,
            x as int,
            y as int,
        ),
{
    match Direction::from_vector(x, y) {
        Some(h) => h,
        None => Direction::east(),
    }
}

/// A heading drawn by chance: both components are drawn from zero up to,
/// but not including, one, and the vector they make is scaled to length
/// one. It points up and to the right.
pub fn random_heading() -> (heading: Direction)
    ensures
        heading.valid(),
        heading.spec_x() >= 0,
        heading.spec_y() >= 0,
        is_drawn_heading(heading),
{
    let x = random_in_range(0, UNIT) as i32;
    let y = random_in_range(0, UNIT) as i32;
    let heading = heading_from_draw(x, y);
    proof {
        Direction::lemma_east();
        assert(heading == spec_heading_from_draw(x as int, y as int));
    }
    heading
}

/// Puts one star at a place of the field drawn by chance.
pub fn spawn_single_star(world: &mut World, field: Field, events: &mut Vec<Event>)
    requires
        old(world)@.wf(),
        old(world)@.has_room(1),
    ensures
        final(world)@.wf(),
        exists|position: Vec2|
            {
                &&& in_field(position, field)
                &&& final(world)@ == old(world)@.with_star(position)
                &&& final(events)@ == old(events)@.push(
                    Event::Spawned { kind: Kind::Star, id: old(world)@.next_id, position },
                )
            },
{
    let position = random_point(field);
    place_star(world, position, events);
}

/// Puts the first stars on the field, each at a place drawn by chance.
pub fn spawn_stars(world: &mut World, field: Field, events: &mut Vec<Event>)
    requires
        old(world)@.wf(),
        old(world)@.has_room(NUMBER_OF_STARS as int),
    ensures
        final(world)@.wf(),
        exists|positions: Seq<Vec2>|
            {
                &&& positions.len() == NUMBER_OF_STARS
                &&& forall|k: int|
                    0 <= k < positions.len() ==> in_field(#[trigger] positions[k], field)
                &&& final(world)@ == old(world)@.with_stars(positions)
                &&& final(events)@ == old(events)@ + spawn_events(
                    Kind::Star,
                    old(world)@.next_id as int,
                    positions,
                )
            },
{
    let ghost mut positions: Seq<Vec2> = Seq::empty();
    let mut made: u8 = 0;
    proof {
        assert(events@ =~= old(events)@ + spawn_events(
            Kind::Star,
            old(world)@.next_id as int,
            positions,
        ));
    }
    while made < NUMBER_OF_STARS
        invariant
            made <= NUMBER_OF_STARS,
            positions.len() == made,
            forall|k: int| 0 <= k < positions.len() ==> in_field(#[trigger] positions[k], field),
            old(world)@.has_room(NUMBER_OF_STARS as int),
            world@.wf(),
            world@ == old(world)@.with_stars(positions),
            world@.next_id == old(world)@.next_id + made,
            events@ == old(events)@ + spawn_events(
                Kind::Star,
                old(world)@.next_id as int,
                positions,
            ),
        decreases NUMBER_OF_STARS - made,
    {
        let position = random_point(field);
        place_star(world, position, events);
        proof {
            let longer = positions.push(position);
            assert(longer.drop_last() =~= positions);
            assert(events@ =~= old(events)@ + spawn_events(
                Kind::Star,
                old(world)@.next_id as int,
                longer,
            ));
            positions = longer;
        }
        made += 1;
    }
}

/// Puts the enemies on the field, each at a place and with a heading drawn
/// by chance. The headings point up and to the right.
pub fn spawn_enemy(world: &mut World, field: Field, events: &mut Vec<Event>)
    requires
        old(world)@.wf(),
        old(world)@.has_room(ENEMY_NUMBER as int),
    ensures
        final(world)@.wf(),
        exists|places: Seq<(Vec2, Direction)>|
            {
                &&& places.len() == ENEMY_NUMBER
                &&& forall|k: int|
                    0 <= k < places.len() ==> {
                        &&& in_field((#[trigger] places[k]).0, field)
                        &&& places[k].1.valid()
                        &&& places[k].1.spec_x() >= 0
                        &&& places[k].1.spec_y() >= 0
                        &&& is_drawn_heading(places[k].1)
                    }
                &&& final(world)@ == old(world)@.with_enemies(places)
                &&& final(events)@ == old(events)@ + spawn_events(
                    Kind::Enemy,
                    old(world)@.next_id as int,
                    positions_of(places),
                )
            },
{
    let ghost mut places: Seq<(Vec2, Direction)> = Seq::empty();
    let mut made: usize = 0;
    proof {
        assert(events@ =~= old(events)@ + spawn_events(
            Kind::Enemy,
            old(world)@.next_id as int,
            positions_of(places),
        ));
    }
    while made < ENEMY_NUMBER
        invariant
            made <= ENEMY_NUMBER,
            places.len() == made,
            forall|k: int|
                0 <= k < places.len() ==> {
                    &&& in_field((#[trigger] places[k]).0, field)
                    &&& places[k].1.valid()
                    &&& places[k].1.spec_x() >= 0
                    &&& places[k].1.spec_y() >= 0
                    &&& is_drawn_heading(places[k].1)
                },
            old(world)@.has_room(ENEMY_NUMBER as int),
            world@.wf(),
            world@ == old(world)@.with_enemies(places),
            world@.next_id == old(world)@.next_id + made,
            events@ == old(events)@ + spawn_events(
                Kind::Enemy,
                old(world)@.next_id as int,
                positions_of(places),
            ),
        decreases ENEMY_NUMBER - made,
    {
        let position = random_point(field);
        let direction = random_heading();
        place_enemy(world, position, direction, events);
        proof {
            let longer = places.push((position, direction));
            assert(longer.drop_last() =~= places);
            assert(events@ =~= old(events)@ + spawn_events(
                Kind::Enemy,
                old(world)@.next_id as int,
                positions_of(longer),
            ));
            places = longer;
        }
        made += 1;
    }
}

/// Lets `dt` microseconds pass on the timer of the timed stars.
pub fn tick_star_spawn_timer(world: &mut World, dt: u32)
    ensures
        final(world)@ == old(world)@.timer_ticked(dt),
        old(world)@.wf() ==> final(world)@.wf(),
{
    world.star_spawn_timer.tick(dt);
}

/// Puts one star at `position` if the timer's last tick completed a
/// period, and nothing otherwise.
pub fn place_timed_star(world: &mut World, position: Vec2, events: &mut Vec<Event>)
    requires
        old(world)@.wf(),
        old(world)@.has_room(1),
    ensures
        final(world)@ == old(world)@.with_timed_star(position),
        final(world)@.wf(),
        final(events)@ == old(events)@ + old(world)@.timed_star_events(position),
{
    if world.star_spawn_timer.finished() {
        place_star(world, position, events);
    }
    proof {
        assert(events@ =~= old(events)@ + old(world)@.timed_star_events(position));
    }
}

/// Puts one star at a place drawn by chance if the timer's last tick
/// completed a period: one star a tick at most, however many periods the
/// tick spanned.
pub fn spawn_stars_over_timer(world: &mut World, field: Field, events: &mut Vec<Event>)
    requires
        old(world)@.wf(),
        old(world)@.has_room(1),
    ensures
        final(world)@.wf(),
        exists|position: Vec2|
            {
                &&& in_field(position, field)
                &&& final(world)@ == old(world)@.with_timed_star(position)
                &&& final(events)@ == old(events)@ + old(world)@.timed_star_events(position)
            },
{
    if world.star_spawn_timer.finished() {
        spawn_single_star(world, field, events);
        proof {
            let position = choose|position: Vec2|
                {
                    &&& in_field(position, field)
                    &&& world@ == old(world)@.with_star(position)
                    &&& events@ == old(events)@.push(
                        Event::Spawned { kind: Kind::Star, id: old(world)@.next_id, position },
                    )
                };
            assert(events@ =~= old(events)@ + old(world)@.timed_star_events(position));
        }
    } else {
        proof {
            let position = Vec2 { x: 0, y: 0 };
            use_type_invariant(&field);
            assert(in_field(position, field));
            assert(events@ =~= old(events)@ + old(world)@.timed_star_events(position));
        }
    }
}

} // verus!
