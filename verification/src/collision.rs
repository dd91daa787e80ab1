//! Contact between circles, and what follows from it: the end of the game
//! on contact with an enemy, a point on contact with a star.

use vstd::prelude::*;
use crate::config::{ENEMY_SIZE, PLAYER_SIZE, STAR_SIZE};
use crate::entity::{Enemy, Event, GameOver, Player, Star};
use crate::geometry::Vec2;
use crate::world::{World, WorldView};

verus! {

/// The square of the distance between two points.
pub open spec fn distance_squared(a: Vec2, b: Vec2) -> int {
    (a.x - b.x) * (a.x - b.x) + (a.y - b.y) * (a.y - b.y)
}

/// Two circles are in contact when their centres are closer than the sum of
/// their radii; circles that only touch are not.
pub open spec fn circles_overlap(a: Vec2, radius_a: u32, b: Vec2, radius_b: u32) -> bool {
    distance_squared(a, b) < (radius_a + radius_b) * (radius_a + radius_b)
}

/// Whether the enemy is in contact with the player.
pub open spec fn enemy_touches(player: Player, enemy: Enemy) -> bool {
    circles_overlap(
        player.position,
        (PLAYER_SIZE / 2) as u32,
        enemy.position,
        (ENEMY_SIZE / 2) as u32,
    )
}

/// Whether the star is in contact with the player.
pub open spec fn star_touches(player: Player, star: Star) -> bool {
    circles_overlap(
        player.position,
        (PLAYER_SIZE / 2) as u32,
        star.position,
        (STAR_SIZE / 2) as u32,
    )
}

/// The stars that the player is in contact with.
pub open spec fn touched(player: Player) -> spec_fn(Star) -> bool {
    |star: Star| star_touches(player, star)
}

/// The stars that the player is not in contact with.
pub open spec fn untouched(player: Player) -> spec_fn(Star) -> bool {
    |star: Star| !star_touches(player, star)
}

/// How many of the enemies are in contact with the player.
pub open spec fn hit_count(player: Player, enemies: Seq<Enemy>) -> nat
    decreases enemies.len(),
{
    if enemies.len() == 0 {
        0
    } else {
        hit_count(player, enemies.drop_last()) + (if enemy_touches(player, enemies.last()) {
            1nat
        } else {
            0nat
        })
    }
}

/// One event for each collected star, in the stars' order.
pub open spec fn collected_events(stars: Seq<Star>) -> Seq<Event> {
    Seq::new(stars.len(), |k: int| Event::StarCollected { id: stars[k].id })
}

impl WorldView {
    /// How many enemies are in contact with the player; none if the player
    /// is gone.
    pub open spec fn enemy_hits(self) -> nat {
        match self.player {
            Some(p) => hit_count(p, self.enemies),
            None => 0,
        }
    }

    /// The state after contact with the enemies: the player is gone if any
    /// enemy was in contact.
    pub open spec fn after_enemy_hits(self) -> WorldView {
        if self.enemy_hits() > 0 {
            WorldView { player: None, ..self }
        } else {
            self
        }
    }

    /// What contact with the enemies tells the host: the end of the game
    /// with the score as it stands, once for each enemy in contact.
    pub open spec fn game_over_events(self) -> Seq<Event> {
        Seq::new(self.enemy_hits(), |k: int| Event::GameOver(GameOver { score: self.score }))
    }

    /// The stars that the player collects now; none if the player is gone.
    pub open spec fn stars_collected(self) -> Seq<Star> {
        match self.player {
            Some(p) => self.stars.filter(touched(p)),
            None => Seq::empty(),
        }
    }

    /// The state after contact with the stars: the stars in contact are
    /// gone, and each is a point.
    pub open spec fn after_star_hits(self) -> WorldView {
        match self.player {
            Some(p) => WorldView {
                stars: self.stars.filter(untouched(p)),
                score: (self.score + self.stars_collected().len()) as u32,
                ..self
            },
            None => self,
        }
    }
}

/// Two circles whose centres lie `d` apart along the x axis are in contact
/// exactly when `d` is less than the sum of their radii: at that distance
/// they only touch.
pub proof fn lemma_contact_along_axis(a: Vec2, d: int, radius_a: u32, radius_b: u32)
    requires
        i64::MIN <= a.x + d <= i64::MAX,
    ensures
        circles_overlap(a, radius_a, Vec2 { x: (a.x + d) as i64, y: a.y }, radius_b) <==> -(radius_a
            + radius_b) < d < radius_a + radius_b,
{
    let reach = radius_a + radius_b;
    let b = Vec2 { x: (a.x + d) as i64, y: a.y };
    assert(distance_squared(a, b) == d * d) by (nonlinear_arith)
        requires
            distance_squared(a, b) == (a.x - b.x) * (a.x - b.x) + (a.y - b.y) * (a.y - b.y),
            a.x - b.x == -d,
            a.y - b.y == 0,
    ;
    if -reach < d < reach {
        assert(d * d < reach * reach) by (nonlinear_arith)
            requires
                -reach < d < reach,
        ;
    } else {
        assert(d * d >= reach * reach) by (nonlinear_arith)
            requires
                d <= -reach || d >= reach,
                reach >= 0,
        ;
    }
}

proof fn lemma_filter_parts(stars: Seq<Star>, player: Player)
    ensures
        stars.filter(touched(player)).len() + stars.filter(untouched(player)).len() == stars.len(),
        forall|k: int|
            0 <= k < stars.filter(untouched(player)).len() ==> !star_touches(
                player,
                #[trigger] stars.filter(untouched(player))[k],
            ),
    decreases stars.len(),
{
    reveal(Seq::filter);
    if stars.len() > 0 {
        lemma_filter_parts(stars.drop_last(), player);
    }
}

proof fn lemma_filter_none(stars: Seq<Star>, player: Player)
    requires
        forall|k: int| 0 <= k < stars.len() ==> !star_touches(player, #[trigger] stars[k]),
    ensures
        stars.filter(touched(player)).len() == 0,
        stars.filter(untouched(player)) == stars,
    decreases stars.len(),
{
    reveal(Seq::filter);
    if stars.len() > 0 {
        lemma_filter_none(stars.drop_last(), player);
        assert(stars.drop_last().push(stars.last()) =~= stars);
    }
}

proof fn lemma_filter_keeps_order(stars: Seq<Star>, pred: spec_fn(Star) -> bool, bound: int)
    requires
        forall|i: int| 0 <= i < stars.len() ==> (#[trigger] stars[i]).id < bound,
        forall|i: int, j: int|
            0 <= i < j < stars.len() ==> (#[trigger] stars[i]).id < (#[trigger] stars[j]).id,
    ensures
        forall|i: int| 0 <= i < stars.filter(pred).len() ==> (#[trigger] stars.filter(pred)[i]).id
            < bound,
        forall|i: int, j: int|
            0 <= i < j < stars.filter(pred).len() ==> (#[trigger] stars.filter(pred)[i]).id < (
            #[trigger] stars.filter(pred)[j]).id,
    decreases stars.len(),
{
    reveal(Seq::filter);
    if stars.len() > 0 {
        let rest = stars.drop_last();
        assert forall|i: int| 0 <= i < rest.len() implies (#[trigger] rest[i]).id
            < stars.last().id by {
            assert(rest[i] == stars[i]);
        }
        assert forall|i: int, j: int| 0 <= i < j < rest.len() implies (#[trigger] rest[i]).id < (
        #[trigger] rest[j]).id by {
            assert(rest[i] == stars[i] && rest[j] == stars[j]);
        }
        lemma_filter_keeps_order(rest, pred, stars.last().id as int);
        assert(stars.last() == stars[stars.len() - 1]);
        let kept = stars.filter(pred);
        let before = rest.filter(pred);
        assert(kept == if pred(stars.last()) {
            before.push(stars.last())
        } else {
            before
        });
        assert forall|i: int| 0 <= i < kept.len() implies (#[trigger] kept[i]).id < bound by {
            if i < before.len() {
                assert(kept[i] == before[i]);
            }
        }
        assert forall|i: int, j: int| 0 <= i < j < kept.len() implies (#[trigger] kept[i]).id < (
        #[trigger] kept[j]).id by {
            assert(kept[i] == before[i]);
            if j < before.len() {
                assert(kept[j] == before[j]);
            }
        }
    }
}

/// Contact with the enemies and with the stars keeps a state well formed.
pub proof fn lemma_contacts_keep_wf(world: WorldView)
    requires
        world.wf(),
    ensures
        world.after_enemy_hits().wf(),
        world.after_star_hits().wf(),
{
    match world.player {
        Some(p) => {
            lemma_filter_parts(world.stars, p);
            lemma_filter_keeps_order(world.stars, untouched(p), world.next_id as int);
        },
        None => {},
    }
}

/// The score rises by exactly the number of stars collected, which is the
/// number of stars that leave the field; and a star is collected once:
/// right after, none is left to collect and the score stays.
pub proof fn lemma_score_counts_stars(world: WorldView)
    requires
        world.wf(),
    ensures
        world.after_star_hits().score - world.score == world.stars_collected().len(),
        world.after_star_hits().score - world.score == world.stars.len()
            - world.after_star_hits().stars.len(),
        world.after_star_hits().score >= world.score,
        world.after_star_hits().stars_collected().len() == 0,
        world.after_star_hits().after_star_hits() == world.after_star_hits(),
{
    match world.player {
        Some(p) => {
            lemma_filter_parts(world.stars, p);
            lemma_filter_none(world.stars.filter(untouched(p)), p);
        },
        None => {},
    }
}

fn gap(a: i64, b: i64) -> (d: u64)
    ensures
        d == (if a >= b {
            a - b
        } else {
            b - a
        }),
{
    if a >= b {
        ((a as i128) - (b as i128)) as u64
    } else {
        ((b as i128) - (a as i128)) as u64
    }
}

/// Whether two circles are in contact.
pub fn overlap(a: Vec2, radius_a: u32, b: Vec2, radius_b: u32) -> (hit: bool)
    ensures
        hit == circles_overlap(a, radius_a, b, radius_b),
{
    let reach: u64 = (radius_a as u64) + (radius_b as u64);
    let dx = gap(a.x, b.x);
    let dy = gap(a.y, b.y);
    proof {
        assert(dx * dx == (a.x - b.x) * (a.x - b.x)) by (nonlinear_arith)
            requires
                dx == a.x - b.x || dx == b.x - a.x,
        ;
        assert(dy * dy == (a.y - b.y) * (a.y - b.y)) by (nonlinear_arith)
            requires
                dy == a.y - b.y || dy == b.y - a.y,
        ;
        assert(dx * dx >= 0 && dy * dy >= 0) by (nonlinear_arith);
    }
    if dx >= reach {
        proof {
            assert(dx * dx >= reach * reach) by (nonlinear_arith)
                requires
                    dx >= reach >= 0,
            ;
        }
        return false;
    }
    if dy >= reach {
        proof {
            assert(dy * dy >= reach * reach) by (nonlinear_arith)
                requires
                    dy >= reach >= 0,
            ;
        }
        return false;
    }
    proof {
        assert(dx * dx < 0x2_0000_0000 * 0x2_0000_0000 && dy * dy < 0x2_0000_0000 * 0x2_0000_0000
            && reach * reach < 0x2_0000_0000 * 0x2_0000_0000) by (nonlinear_arith)
            requires
                0 <= dx < reach,
                0 <= dy < reach,
                reach < 0x2_0000_0000,
        ;
    }
    let wide_x = dx as u128;
    let wide_y = dy as u128;
    let wide_reach = reach as u128;
    wide_x * wide_x + wide_y * wide_y < wide_reach * wide_reach
}

/// Ends the game if an enemy is in contact with the player: the player is
/// gone, and the host is told of the end, with the score as it stands, once
/// for each enemy in contact. Without a player nothing happens.
pub fn enemy_hit_player(world: &mut World, events: &mut Vec<Event>)
    ensures
        final(world)@ == old(world)@.after_enemy_hits(),
        old(world)@.wf() ==> final(world)@.wf(),
        final(events)@ == old(events)@ + old(world)@.game_over_events(),
{
    if let Some(player) = world.player {
        let count = world.enemies.len();
        let score = world.score.value;
        let mut hits: usize = 0;
        let mut i: usize = 0;
        proof {
            assert(world@.enemies.take(0) =~= Seq::<Enemy>::empty());
        }
        while i < count
            invariant
                i <= count,
                count == world@.enemies.len(),
                *world == *old(world),
                world.player == Some(player),
                score == world.score.value,
                hits == hit_count(player, world@.enemies.take(i as int)),
                hits <= i,
                events@ == old(events)@ + Seq::new(
                    hits as nat,
                    |k: int| Event::GameOver(GameOver { score }),
                ),
            decreases count - i,
        {
            proof {
                let upto = world@.enemies.take(i + 1);
                assert(upto.drop_last() =~= world@.enemies.take(i as int));
                assert(upto.last() == world@.enemies[i as int]);
            }
            let enemy = world.enemies[i];
            if overlap(player.position, PLAYER_SIZE / 2, enemy.position, ENEMY_SIZE / 2) {
                events.push(Event::GameOver(GameOver { score }));
                hits += 1;
                proof {
                    assert(events@ =~= old(events)@ + Seq::new(
                        hits as nat,
                        |k: int| Event::GameOver(GameOver { score }),
                    ));
                }
            }
            i += 1;
        }
        proof {
            assert(world@.enemies.take(count as int) =~= world@.enemies);
        }
        if hits > 0 {
            world.player = None;
        }
    } else {
        proof {
            assert(events@ =~= old(events)@ + old(world)@.game_over_events());
        }
    }
}

proof fn lemma_filter_step(stars: Seq<Star>, i: int, pred: spec_fn(Star) -> bool)
    requires
        0 <= i < stars.len(),
    ensures
        stars.take(i + 1).filter(pred) == (if pred(stars[i]) {
            stars.take(i).filter(pred).push(stars[i])
        } else {
            stars.take(i).filter(pred)
        }),
{
    reveal(Seq::filter);
    let upto = stars.take(i + 1);
    assert(upto.drop_last() =~= stars.take(i));
    assert(upto.last() == stars[i]);
}

/// Collects every star that is in contact with the player: the star is
/// gone, the score rises by one, and the host is told which star it was.
/// Without a player nothing happens.
pub fn player_hit_star(world: &mut World, events: &mut Vec<Event>)
    requires
        old(world)@.wf(),
    ensures
        final(world)@ == old(world)@.after_star_hits(),
        final(world)@.wf(),
        final(events)@ == old(events)@ + collected_events(old(world)@.stars_collected()),
        final(world)@.score - old(world)@.score
            == old(world)@.stars.len() - final(world)@.stars.len(),
{
    proof {
        lemma_score_counts_stars(old(world)@);
    }
    if let Some(player) = world.player {
        let count = world.stars.len();
        let mut kept: Vec<Star> = Vec::new();
        let ghost mut taken: Seq<Star> = Seq::empty();
        let mut i: usize = 0;
        proof {
            reveal(Seq::filter);
            assert(world@.stars.take(0) =~= Seq::<Star>::empty());
            assert(events@ =~= old(events)@ + collected_events(taken));
        }
        while i < count
            invariant
                i <= count,
                count == old(world)@.stars.len(),
                old(world)@.wf(),
                old(world).player == Some(player),
                world.player == old(world).player,
                world.enemies == old(world).enemies,
                world.stars == old(world).stars,
                world.star_spawn_timer == old(world).star_spawn_timer,
                world.next_id == old(world).next_id,
                world.reported == old(world).reported,
                kept@ == old(world)@.stars.take(i as int).filter(untouched(player)),
                taken == old(world)@.stars.take(i as int).filter(touched(player)),
                kept@.len() + taken.len() == i,
                world.score.value == old(world).score.value + taken.len(),
                events@ == old(events)@ + collected_events(taken),
            decreases count - i,
        {
            let star = world.stars[i];
            proof {
                lemma_filter_step(old(world)@.stars, i as int, untouched(player));
                lemma_filter_step(old(world)@.stars, i as int, touched(player));
            }
            if overlap(player.position, PLAYER_SIZE / 2, star.position, STAR_SIZE / 2) {
                world.score.value = world.score.value + 1;
                events.push(Event::StarCollected { id: star.id });
                proof {
                    let longer = taken.push(star);
                    assert(events@ =~= old(events)@ + collected_events(longer));
                    taken = longer;
                }
            } else {
                kept.push(star);
            }
            i += 1;
        }
        proof {
            assert(old(world)@.stars.take(count as int) =~= old(world)@.stars);
            lemma_contacts_keep_wf(old(world)@);
        }
        world.stars = kept;
    } else {
        proof {
            assert(events@ =~= old(events)@ + collected_events(old(world)@.stars_collected()));
        }
    }
}

} // verus!
