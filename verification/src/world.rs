//! The entity store: an arena of entities in creation order, each carrying
//! optional typed component records, together with the counting and removal
//! reasoning the systems build on.
//!
//! Structural changes during a tick are expressed against this store either
//! directly (creation) or through a command buffer of doomed identifiers
//! that `commit_destroy` applies once, at the end of the tick.

use crate::components::{Asteroid, GameData, Missile, Player, Position, Renderable};
use crate::num::abs_val;
use crate::{FULL_TURN, GAME_HEIGHT, GAME_WIDTH, MAX_ENTITY_SPEED, MAX_MISSILES, MAX_SPEED, PLAYER_SPEED};
use vstd::prelude::*;

verus! {

/// An entity: an identifier with zero or more typed component records.
pub struct Entity {
    pub id: u64,
    pub position: Option<Position>,
    pub renderable: Option<Renderable>,
    pub player: Option<Player>,
    pub asteroid: Option<Asteroid>,
    pub missile: Option<Missile>,
    pub game_data: Option<GameData>,
}

/// The world: entities in creation order and the next free identifier.
pub struct World {
    pub entities: Vec<Entity>,
    pub next_id: u64,
}

pub open spec fn has_player(e: Entity) -> bool {
    e.player is Some
}

pub open spec fn has_asteroid(e: Entity) -> bool {
    e.asteroid is Some
}

pub open spec fn has_missile(e: Entity) -> bool {
    e.missile is Some
}

pub open spec fn has_game_data(e: Entity) -> bool {
    e.game_data is Some
}

/// Number of entities of `s` satisfying `f`.
pub open spec fn count_matching(s: Seq<Entity>, f: spec_fn(Entity) -> bool) -> nat
    decreases s.len(),
{
    if s.len() == 0 {
        0
    } else {
        count_matching(s.drop_last(), f) + if f(s.last()) {
            1nat
        } else {
            0nat
        }
    }
}

pub open spec fn count_players(s: Seq<Entity>) -> nat {
    count_matching(s, |e: Entity| has_player(e))
}

pub open spec fn count_asteroids(s: Seq<Entity>) -> nat {
    count_matching(s, |e: Entity| has_asteroid(e))
}

pub open spec fn count_missiles(s: Seq<Entity>) -> nat {
    count_matching(s, |e: Entity| has_missile(e))
}

pub open spec fn count_game_data(s: Seq<Entity>) -> nat {
    count_matching(s, |e: Entity| has_game_data(e))
}

pub proof fn lemma_count_push(s: Seq<Entity>, f: spec_fn(Entity) -> bool, e: Entity)
    ensures
        count_matching(s.push(e), f) == count_matching(s, f) + if f(e) {
            1nat
        } else {
            0nat
        },
{
    assert(s.push(e).drop_last() =~= s);
    assert(s.push(e).last() == e);
}

pub proof fn lemma_count_take_step(s: Seq<Entity>, f: spec_fn(Entity) -> bool, i: int)
    requires
        0 <= i < s.len(),
    ensures
        count_matching(s.take(i + 1), f) == count_matching(s.take(i), f) + if f(s[i]) {
            1nat
        } else {
            0nat
        },
{
    assert(s.take(i + 1).drop_last() =~= s.take(i));
    assert(s.take(i + 1).last() == s[i]);
}

/// Counting is determined by which entities satisfy `f`, position by position.
pub proof fn lemma_count_congruent(s1: Seq<Entity>, s2: Seq<Entity>, f: spec_fn(Entity) -> bool)
    requires
        s1.len() == s2.len(),
        forall|i: int| 0 <= i < s1.len() ==> f(#[trigger] s1[i]) == f(#[trigger] s2[i]),
    ensures
        count_matching(s1, f) == count_matching(s2, f),
    decreases s1.len(),
{
    if s1.len() > 0 {
        lemma_count_congruent(s1.drop_last(), s2.drop_last(), f);
    }
}

pub proof fn lemma_count_ge_one(s: Seq<Entity>, f: spec_fn(Entity) -> bool, i: int)
    requires
        0 <= i < s.len(),
        f(s[i]),
    ensures
        count_matching(s, f) >= 1,
    decreases s.len(),
{
    if i < s.len() - 1 {
        lemma_count_ge_one(s.drop_last(), f, i);
    }
}

pub proof fn lemma_count_two(s: Seq<Entity>, f: spec_fn(Entity) -> bool, i: int, j: int)
    requires
        0 <= i < j < s.len(),
        f(s[i]),
        f(s[j]),
    ensures
        count_matching(s, f) >= 2,
    decreases s.len(),
{
    if j == s.len() - 1 {
        lemma_count_ge_one(s.drop_last(), f, i);
    } else {
        lemma_count_two(s.drop_last(), f, i, j);
    }
}

/// With at most one match in `s`, two matching indices coincide.
pub proof fn lemma_count_unique_index(s: Seq<Entity>, f: spec_fn(Entity) -> bool, i: int, j: int)
    requires
        count_matching(s, f) <= 1,
        0 <= i < s.len(),
        0 <= j < s.len(),
        f(s[i]),
        f(s[j]),
    ensures
        i == j,
{
    if i < j {
        lemma_count_two(s, f, i, j);
    }
    if j < i {
        lemma_count_two(s, f, j, i);
    }
}

pub proof fn lemma_count_zero(s: Seq<Entity>, f: spec_fn(Entity) -> bool)
    requires
        forall|i: int| 0 <= i < s.len() ==> !f(#[trigger] s[i]),
    ensures
        count_matching(s, f) == 0,
    decreases s.len(),
{
    if s.len() > 0 {
        lemma_count_zero(s.drop_last(), f);
    }
}

/// A prefix never holds more matches than the whole.
pub proof fn lemma_count_take_le(s: Seq<Entity>, f: spec_fn(Entity) -> bool, j: int)
    requires
        0 <= j <= s.len(),
    ensures
        count_matching(s.take(j), f) <= count_matching(s, f),
    decreases s.len(),
{
    if j == s.len() {
        assert(s.take(j) =~= s);
    } else {
        lemma_count_take_le(s.drop_last(), f, j);
        assert(s.take(j) =~= s.drop_last().take(j));
    }
}

/// Index of the distinguished session-state entity.
pub open spec fn game_data_index(s: Seq<Entity>) -> int {
    choose|i: int| 0 <= i < s.len() && has_game_data(s[i])
}

/// The session state held by the distinguished entity.
pub open spec fn the_game_data(s: Seq<Entity>) -> GameData {
    s[game_data_index(s)].game_data->Some_0
}

/// When at most one entity holds session state, any holder is the one
/// `the_game_data` reads.
pub proof fn lemma_the_game_data(s: Seq<Entity>, i: int)
    requires
        count_game_data(s) <= 1,
        0 <= i < s.len(),
        has_game_data(s[i]),
    ensures
        game_data_index(s) == i,
        the_game_data(s) == s[i].game_data->Some_0,
{
    assert(0 <= game_data_index(s) < s.len() && has_game_data(s[game_data_index(s)]));
    lemma_count_unique_index(s, |e: Entity| has_game_data(e), game_data_index(s), i);
}

/// Entity identifiers strictly increase in creation order.
pub open spec fn sorted_ids(s: Seq<Entity>) -> bool {
    forall|i: int, j: int| 0 <= i < j < s.len() ==> #[trigger] s[i].id < #[trigger] s[j].id
}

/// Every identifier of `s` lies below `bound`.
pub open spec fn ids_below(s: Seq<Entity>, bound: u64) -> bool {
    forall|i: int| 0 <= i < s.len() ==> #[trigger] s[i].id < bound
}

/// A position on the playing field with a normalized heading.
pub open spec fn position_wf(p: Position) -> bool {
    &&& 0 <= p.x < GAME_WIDTH
    &&& 0 <= p.y < GAME_HEIGHT
    &&& 0 <= p.rot < FULL_TURN
}

/// The ship's velocity respects the speed cap and its pending impulse is at
/// most one tick's thrust.
pub open spec fn player_wf(pl: Player) -> bool {
    &&& pl.cur_speed.mag2() <= MAX_SPEED * MAX_SPEED
    &&& abs_val(pl.impulse.x as int) <= PLAYER_SPEED
    &&& abs_val(pl.impulse.y as int) <= PLAYER_SPEED
}

/// Well-formedness of one entity: positions lie on the field, moving bodies
/// have bounded speeds and carry position and renderable records, and the
/// component roles exclude one another.
pub open spec fn wf_entity(e: Entity) -> bool {
    &&& e.position is Some ==> position_wf(e.position->Some_0)
    &&& e.player is Some ==> {
        &&& player_wf(e.player->Some_0)
        &&& e.position is Some
        &&& e.renderable is Some
        &&& e.asteroid is None
        &&& e.missile is None
        &&& e.game_data is None
    }
    &&& e.asteroid is Some ==> {
        &&& 0 <= e.asteroid->Some_0.speed <= MAX_ENTITY_SPEED
        &&& 0 <= e.asteroid->Some_0.rot_speed < FULL_TURN
        &&& e.position is Some
        &&& e.renderable is Some
        &&& e.missile is None
        &&& e.game_data is None
    }
    &&& e.missile is Some ==> {
        &&& 0 <= e.missile->Some_0.speed <= MAX_ENTITY_SPEED
        &&& e.position is Some
        &&& e.renderable is Some
        &&& e.game_data is None
    }
    &&& e.game_data is Some ==> e.position is None
}

impl World {
    /// Structural well-formedness: every entity well formed, identifiers
    /// strictly increasing and below the next free one.
    pub open spec fn wf_base(self) -> bool {
        &&& forall|i: int|
            0 <= i < self.entities@.len() ==> wf_entity(#[trigger] self.entities@[i])
        &&& sorted_ids(self.entities@)
        &&& ids_below(self.entities@, self.next_id)
    }

    /// The tick-boundary invariant: structure plus exactly one session-state
    /// entity, at most one ship, and at most `MAX_MISSILES` missiles.
    pub open spec fn wf(self) -> bool {
        &&& self.wf_base()
        &&& count_game_data(self.entities@) == 1
        &&& count_players(self.entities@) <= 1
        &&& count_missiles(self.entities@) <= MAX_MISSILES
    }

    /// An empty world.
    pub fn new() -> (w: World)
        ensures
            w.entities@.len() == 0,
            w.next_id == 0,
            w.wf_base(),
    {
        World { entities: Vec::new(), next_id: 0 }
    }

    /// Destroys every entity at once.
    pub fn delete_all(&mut self)
        ensures
            final(self).entities@.len() == 0,
            final(self).next_id == old(self).next_id,
            final(self).wf_base(),
    {
        self.entities.clear();
    }

    /// Creates one entity from its component records and returns its
    /// identifier.
    pub fn create_entity(
        &mut self,
        position: Option<Position>,
        renderable: Option<Renderable>,
        player: Option<Player>,
        asteroid: Option<Asteroid>,
        missile: Option<Missile>,
        game_data: Option<GameData>,
    ) -> (id: u64)
        requires
            old(self).next_id < u64::MAX,
        ensures
            id == old(self).next_id,
            final(self).next_id == old(self).next_id + 1,
            final(self).entities@ == old(self).entities@.push(
                Entity { id, position, renderable, player, asteroid, missile, game_data },
            ),
    {
        let id = self.next_id;
        self.entities.push(Entity { id, position, renderable, player, asteroid, missile, game_data });
        self.next_id = self.next_id + 1;
        id
    }

    /// Number of live ships.
    pub fn num_players(&self) -> (n: usize)
        ensures
            n == count_players(self.entities@),
    {
        let ghost f = |e: Entity| has_player(e);
        let mut n: usize = 0;
        let mut i: usize = 0;
        while i < self.entities.len()
            invariant
                i <= self.entities@.len(),
                n == count_matching(self.entities@.take(i as int), f),
                n <= i,
                f == (|e: Entity| has_player(e)),
            decreases self.entities@.len() - i,
        {
            proof {
                lemma_count_take_step(self.entities@, f, i as int);
            }
            if self.entities[i].player.is_some() {
                n = n + 1;
            }
            i = i + 1;
        }
        proof {
            assert(self.entities@.take(self.entities@.len() as int) =~= self.entities@);
        }
        n
    }

    /// Number of live asteroids.
    pub fn num_asteroids(&self) -> (n: usize)
        ensures
            n == count_asteroids(self.entities@),
    {
        let ghost f = |e: Entity| has_asteroid(e);
        let mut n: usize = 0;
        let mut i: usize = 0;
        while i < self.entities.len()
            invariant
                i <= self.entities@.len(),
                n == count_matching(self.entities@.take(i as int), f),
                n <= i,
                f == (|e: Entity| has_asteroid(e)),
            decreases self.entities@.len() - i,
        {
            proof {
                lemma_count_take_step(self.entities@, f, i as int);
            }
            if self.entities[i].asteroid.is_some() {
                n = n + 1;
            }
            i = i + 1;
        }
        proof {
            assert(self.entities@.take(self.entities@.len() as int) =~= self.entities@);
        }
        n
    }

    /// Number of missiles in flight.
    pub fn num_missiles(&self) -> (n: usize)
        ensures
            n == count_missiles(self.entities@),
    {
        let ghost f = |e: Entity| has_missile(e);
        let mut n: usize = 0;
        let mut i: usize = 0;
        while i < self.entities.len()
            invariant
                i <= self.entities@.len(),
                n == count_matching(self.entities@.take(i as int), f),
                n <= i,
                f == (|e: Entity| has_missile(e)),
            decreases self.entities@.len() - i,
        {
            proof {
                lemma_count_take_step(self.entities@, f, i as int);
            }
            if self.entities[i].missile.is_some() {
                n = n + 1;
            }
            i = i + 1;
        }
        proof {
            assert(self.entities@.take(self.entities@.len() as int) =~= self.entities@);
        }
        n
    }

    /// Number of session-state entities.
    pub fn num_game_data(&self) -> (n: usize)
        ensures
            n == count_game_data(self.entities@),
    {
        let ghost f = |e: Entity| has_game_data(e);
        let mut n: usize = 0;
        let mut i: usize = 0;
        while i < self.entities.len()
            invariant
                i <= self.entities@.len(),
                n == count_matching(self.entities@.take(i as int), f),
                n <= i,
                f == (|e: Entity| has_game_data(e)),
            decreases self.entities@.len() - i,
        {
            proof {
                lemma_count_take_step(self.entities@, f, i as int);
            }
            if self.entities[i].game_data.is_some() {
                n = n + 1;
            }
            i = i + 1;
        }
        proof {
            assert(self.entities@.take(self.entities@.len() as int) =~= self.entities@);
        }
        n
    }
}


/// Every entity with a position sits on the field with a normalized
/// heading in any well-formed world; `update` ends every tick in one.
pub proof fn lemma_positions_on_field(w: World)
    requires
        w.wf(),
    ensures
        forall|i: int|
            0 <= i < w.entities@.len() && (#[trigger] w.entities@[i]).position is Some ==> {
                let p = w.entities@[i].position->Some_0;
                &&& 0 <= p.x < GAME_WIDTH
                &&& 0 <= p.y < GAME_HEIGHT
                &&& 0 <= p.rot < FULL_TURN
            },
{
}

/// The live missile count never exceeds the in-flight cap at a tick
/// boundary: it is part of the invariant every tick re-establishes.
pub proof fn lemma_missile_cap(w: World)
    requires
        w.wf(),
    ensures
        count_missiles(w.entities@) <= MAX_MISSILES,
{
}

/// Exactly one session-state entity and at most one ship exist at any tick
/// boundary; a tick that starts with none ends with exactly one ship, by
/// `update`'s contract.
pub proof fn lemma_singletons(w: World)
    requires
        w.wf(),
    ensures
        count_game_data(w.entities@) == 1,
        count_players(w.entities@) <= 1,
{
}

/// `s` with every entity whose identifier occurs in `ids` removed.
pub open spec fn remove_doomed(s: Seq<Entity>, ids: Seq<u64>) -> Seq<Entity>
    decreases s.len(),
{
    if s.len() == 0 {
        Seq::empty()
    } else {
        let prefix = remove_doomed(s.drop_last(), ids);
        if ids.contains(s.last().id) {
            prefix
        } else {
            prefix.push(s.last())
        }
    }
}

pub proof fn lemma_remove_take_step(s: Seq<Entity>, ids: Seq<u64>, i: int)
    requires
        0 <= i < s.len(),
    ensures
        remove_doomed(s.take(i + 1), ids) == if ids.contains(s[i].id) {
            remove_doomed(s.take(i), ids)
        } else {
            remove_doomed(s.take(i), ids).push(s[i])
        },
{
    assert(s.take(i + 1).drop_last() =~= s.take(i));
    assert(s.take(i + 1).last() == s[i]);
}

/// Removal never increases a count.
pub proof fn lemma_remove_count_le(s: Seq<Entity>, ids: Seq<u64>, f: spec_fn(Entity) -> bool)
    ensures
        count_matching(remove_doomed(s, ids), f) <= count_matching(s, f),
    decreases s.len(),
{
    if s.len() > 0 {
        lemma_remove_count_le(s.drop_last(), ids, f);
        if !ids.contains(s.last().id) {
            lemma_count_push(remove_doomed(s.drop_last(), ids), f, s.last());
        }
    }
}

/// A count is kept exactly when no matching entity is doomed.
pub proof fn lemma_remove_count_keep(s: Seq<Entity>, ids: Seq<u64>, f: spec_fn(Entity) -> bool)
    requires
        forall|i: int| 0 <= i < s.len() && f(#[trigger] s[i]) ==> !ids.contains(s[i].id),
    ensures
        count_matching(remove_doomed(s, ids), f) == count_matching(s, f),
    decreases s.len(),
{
    if s.len() > 0 {
        assert(forall|i: int|
            0 <= i < s.drop_last().len() && f(#[trigger] s.drop_last()[i]) ==> !ids.contains(
                s.drop_last()[i].id,
            ));
        lemma_remove_count_keep(s.drop_last(), ids, f);
        if !ids.contains(s.last().id) {
            lemma_count_push(remove_doomed(s.drop_last(), ids), f, s.last());
        } else {
            assert(!f(s.last()));
        }
    }
}

/// Every survivor comes from the source sequence.
pub proof fn lemma_remove_from(s: Seq<Entity>, ids: Seq<u64>)
    ensures
        forall|k: int|
            0 <= k < remove_doomed(s, ids).len() ==> exists|i: int|
                0 <= i < s.len() && #[trigger] remove_doomed(s, ids)[k] == s[i],
    decreases s.len(),
{
    if s.len() > 0 {
        lemma_remove_from(s.drop_last(), ids);
        let r = remove_doomed(s, ids);
        let rp = remove_doomed(s.drop_last(), ids);
        assert forall|k: int| 0 <= k < r.len() implies exists|i: int|
            0 <= i < s.len() && #[trigger] r[k] == s[i] by {
            if k < rp.len() {
                let i = choose|i: int| 0 <= i < s.drop_last().len() && rp[k] == s.drop_last()[i];
                assert(r[k] == s[i]);
            } else {
                assert(r[k] == s[s.len() - 1]);
            }
        }
    }
}

/// An entity that is not doomed survives the removal.
pub proof fn lemma_remove_keeps(s: Seq<Entity>, ids: Seq<u64>, i: int)
    requires
        0 <= i < s.len(),
        !ids.contains(s[i].id),
    ensures
        exists|k: int|
            0 <= k < remove_doomed(s, ids).len() && #[trigger] remove_doomed(s, ids)[k] == s[i],
    decreases s.len(),
{
    let r = remove_doomed(s, ids);
    if i == s.len() - 1 {
        assert(r[r.len() - 1] == s[i]);
    } else {
        lemma_remove_keeps(s.drop_last(), ids, i);
        let rp = remove_doomed(s.drop_last(), ids);
        let k = choose|k: int| 0 <= k < rp.len() && rp[k] == s.drop_last()[i];
        assert(r[k] == s[i]);
    }
}

/// Removal preserves the strict ordering of identifiers.
pub proof fn lemma_remove_sorted(s: Seq<Entity>, ids: Seq<u64>)
    requires
        sorted_ids(s),
    ensures
        sorted_ids(remove_doomed(s, ids)),
    decreases s.len(),
{
    if s.len() > 0 {
        assert(sorted_ids(s.drop_last()));
        lemma_remove_sorted(s.drop_last(), ids);
        lemma_remove_from(s.drop_last(), ids);
        let r = remove_doomed(s, ids);
        let rp = remove_doomed(s.drop_last(), ids);
        if !ids.contains(s.last().id) {
            assert forall|i: int, j: int| 0 <= i < j < r.len() implies #[trigger] r[i].id
                < #[trigger] r[j].id by {
                if j == r.len() - 1 {
                    let si = choose|k: int|
                        0 <= k < s.drop_last().len() && rp[i] == s.drop_last()[k];
                    assert(s[si].id < s.last().id);
                }
            }
        }
    }
}

/// Removal with a buffer that dooms nothing leaves the sequence unchanged.
pub proof fn lemma_remove_none(s: Seq<Entity>, ids: Seq<u64>)
    requires
        forall|i: int| 0 <= i < s.len() ==> !ids.contains(#[trigger] s[i].id),
    ensures
        remove_doomed(s, ids) == s,
    decreases s.len(),
{
    if s.len() > 0 {
        lemma_remove_none(s.drop_last(), ids);
        assert(s.drop_last().push(s.last()) =~= s);
    }
}

/// Whether `id` occurs in the command buffer.
pub fn contains_id(ids: &Vec<u64>, id: u64) -> (r: bool)
    ensures
        r == ids@.contains(id),
{
    let mut i: usize = 0;
    while i < ids.len()
        invariant
            i <= ids@.len(),
            forall|j: int| 0 <= j < i ==> ids@[j] != id,
        decreases ids@.len() - i,
    {
        if ids[i] == id {
            return true;
        }
        i = i + 1;
    }
    false
}

impl World {
    /// Applies a command buffer of doomed identifiers: every entity whose
    /// identifier occurs in `doomed` is destroyed, atomically.
    pub fn commit_destroy(&mut self, doomed: &Vec<u64>)
        ensures
            final(self).entities@ == remove_doomed(old(self).entities@, doomed@),
            final(self).next_id == old(self).next_id,
    {
        let ghost s = self.entities@;
        let ghost nid = self.next_id;
        let total: usize = self.entities.len();
        let mut kept: Vec<Entity> = Vec::new();
        let mut i: usize = 0;
        while self.entities.len() > 0
            invariant
                i + self.entities@.len() == s.len(),
                s.len() == total,
                self.next_id == nid,
                self.entities@ =~= s.skip(i as int),
                kept@ == remove_doomed(s.take(i as int), doomed@),
            decreases self.entities@.len(),
        {
            let e = self.entities.remove(0);
            proof {
                assert(e == s[i as int]);
                assert(s.skip(i as int).remove(0) =~= s.skip(i as int + 1));
                lemma_remove_take_step(s, doomed@, i as int);
            }
            if !contains_id(doomed, e.id) {
                kept.push(e);
            }
            i = i + 1;
        }
        proof {
            assert(s.take(i as int) =~= s);
        }
        self.entities = kept;
    }
}

} // verus!
