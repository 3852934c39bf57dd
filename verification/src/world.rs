//! The entity store: a table of entities, each carrying its components,
//! with deferred deletion and deferred spawning committed at `maintain`.
//!
//! Systems that run within a tick mark entities as doomed and queue new
//! entities instead of mutating the table's shape; `maintain` is the
//! barrier at which both take effect. The store's well-formedness
//! (`World::wf`) carries the game's global invariants: a sprite implies a
//! position, at most one player, at most `MAX_ROCKETS` rockets, asteroid
//! size multipliers in `[1, 5]`, and the score singleton existing exactly
//! when a world load has occurred.

use vstd::prelude::*;

use crate::components::{Asteroid, GameData, Player, Position, Renderable, Rocket};
use crate::{MAX_ROCKETS, PLAYER_MOVE_SPEED, SCREEN_HEIGHT, SCREEN_WIDTH};

verus! {

/// The role of an entity, together with that role's data.
#[derive(Clone, Copy, PartialEq, Debug)]
pub enum Kind {
    Player(Player),
    Asteroid(Asteroid),
    Rocket(Rocket),
    Data(GameData),
}

/// One entity: a stable handle, the doomed mark consumed by `maintain`,
/// and the components the entity carries.
#[derive(Clone, Copy, PartialEq, Debug)]
pub struct Entity {
    pub id: u64,
    pub doomed: bool,
    pub position: Option<Position>,
    pub renderable: Option<Renderable>,
    pub kind: Kind,
}

pub open spec fn is_player(e: Entity) -> bool {
    e.kind is Player
}

pub open spec fn is_asteroid(e: Entity) -> bool {
    e.kind is Asteroid
}

pub open spec fn is_rocket(e: Entity) -> bool {
    e.kind is Rocket
}

pub open spec fn is_data(e: Entity) -> bool {
    e.kind is Data
}

/// `e` with its doomed mark set.
pub open spec fn doom(e: Entity) -> Entity {
    Entity { doomed: true, ..e }
}

/// How many entities of `s` satisfy `f`.
pub open spec fn count_matching(s: Seq<Entity>, f: spec_fn(Entity) -> bool) -> int
    decreases s.len(),
{
    if s.len() == 0 {
        0
    } else {
        count_matching(s.drop_last(), f) + if f(s.last()) {
            1int
        } else {
            0int
        }
    }
}

pub open spec fn pred_player() -> spec_fn(Entity) -> bool {
    |e: Entity| is_player(e)
}

pub open spec fn pred_asteroid() -> spec_fn(Entity) -> bool {
    |e: Entity| is_asteroid(e)
}

pub open spec fn pred_rocket() -> spec_fn(Entity) -> bool {
    |e: Entity| is_rocket(e)
}

pub open spec fn pred_data() -> spec_fn(Entity) -> bool {
    |e: Entity| is_data(e)
}

pub open spec fn player_count(s: Seq<Entity>) -> int {
    count_matching(s, pred_player())
}

pub open spec fn asteroid_count(s: Seq<Entity>) -> int {
    count_matching(s, pred_asteroid())
}

pub open spec fn rocket_count(s: Seq<Entity>) -> int {
    count_matching(s, pred_rocket())
}

pub open spec fn data_count(s: Seq<Entity>) -> int {
    count_matching(s, pred_data())
}

pub proof fn lemma_count_push(s: Seq<Entity>, f: spec_fn(Entity) -> bool, e: Entity)
    ensures
        count_matching(s.push(e), f) == count_matching(s, f) + if f(e) {
            1int
        } else {
            0int
        },
{
    assert(s.push(e).drop_last() =~= s);
}

pub proof fn lemma_count_nonneg(s: Seq<Entity>, f: spec_fn(Entity) -> bool)
    ensures
        0 <= count_matching(s, f) <= s.len(),
    decreases s.len(),
{
    if s.len() > 0 {
        lemma_count_nonneg(s.drop_last(), f);
    }
}

pub proof fn lemma_count_update(s: Seq<Entity>, f: spec_fn(Entity) -> bool, i: int, e: Entity)
    requires
        0 <= i < s.len(),
    ensures
        count_matching(s.update(i, e), f) == count_matching(s, f) - (if f(s[i]) {
            1int
        } else {
            0int
        }) + (if f(e) {
            1int
        } else {
            0int
        }),
    decreases s.len(),
{
    if i == s.len() - 1 {
        assert(s.update(i, e).drop_last() =~= s.drop_last());
        assert(s.update(i, e).last() == e);
    } else {
        assert(s.update(i, e).drop_last() =~= s.drop_last().update(i, e));
        assert(s.update(i, e).last() == s.last());
        lemma_count_update(s.drop_last(), f, i, e);
    }
}

pub proof fn lemma_count_zero(s: Seq<Entity>, f: spec_fn(Entity) -> bool)
    ensures
        (count_matching(s, f) == 0) <==> (forall|i: int| 0 <= i < s.len() ==> !f(#[trigger] s[i])),
    decreases s.len(),
{
    lemma_count_nonneg(s, f);
    if s.len() > 0 {
        lemma_count_zero(s.drop_last(), f);
        lemma_count_nonneg(s.drop_last(), f);
        assert(forall|i: int| 0 <= i < s.len() - 1 ==> s.drop_last()[i] == #[trigger] s[i]);
        assert(s.last() == s[s.len() - 1]);
    }
}

pub proof fn lemma_count_concat(a: Seq<Entity>, b: Seq<Entity>, f: spec_fn(Entity) -> bool)
    ensures
        count_matching(a + b, f) == count_matching(a, f) + count_matching(b, f),
    decreases b.len(),
{
    if b.len() == 0 {
        assert(a + b =~= a);
    } else {
        assert((a + b).drop_last() =~= a + b.drop_last());
        assert((a + b).last() == b.last());
        lemma_count_concat(a, b.drop_last(), f);
    }
}

/// The entities of `s` that are not doomed, in order: what `maintain`
/// keeps of the committed table.
pub open spec fn commit_seq(s: Seq<Entity>) -> Seq<Entity>
    decreases s.len(),
{
    if s.len() == 0 {
        Seq::empty()
    } else if s.last().doomed {
        commit_seq(s.drop_last())
    } else {
        commit_seq(s.drop_last()).push(s.last())
    }
}

/// A property of every entity of `s` holds of every entity kept by the commit.
pub proof fn lemma_commit_sub(s: Seq<Entity>, f: spec_fn(Entity) -> bool)
    requires
        forall|i: int| 0 <= i < s.len() ==> f(#[trigger] s[i]),
    ensures
        forall|j: int| 0 <= j < commit_seq(s).len() ==> f(#[trigger] commit_seq(s)[j]),
    decreases s.len(),
{
    if s.len() > 0 {
        assert(forall|i: int| 0 <= i < s.len() - 1 ==> s.drop_last()[i] == #[trigger] s[i]);
        lemma_commit_sub(s.drop_last(), f);
        assert(f(s.last()));
        let c = commit_seq(s);
        let cd = commit_seq(s.drop_last());
        assert forall|j: int| 0 <= j < c.len() implies f(#[trigger] c[j]) by {
            if s.last().doomed || j < c.len() - 1 {
                assert(c[j] == cd[j]);
            } else {
                assert(c[j] == s.last());
            }
        }
    }
}

/// Committing never increases a count.
pub proof fn lemma_commit_count_le(s: Seq<Entity>, f: spec_fn(Entity) -> bool)
    ensures
        count_matching(commit_seq(s), f) <= count_matching(s, f),
        count_matching(commit_seq(s), f) >= 0,
    decreases s.len(),
{
    if s.len() == 0 {
        lemma_count_nonneg(s, f);
    } else {
        lemma_commit_count_le(s.drop_last(), f);
        if !s.last().doomed {
            lemma_count_push(commit_seq(s.drop_last()), f, s.last());
        }
    }
}

/// Whether an entity's component data is internally consistent; part of
/// `World::wf` and preserved by every system.
pub open spec fn entity_ok(e: Entity) -> bool {
    &&& e.renderable is Some ==> e.position is Some
    &&& (e.renderable matches Some(r) ==> 1 <= r.total_frames && r.frame < r.total_frames)
    &&& match e.kind {
        Kind::Player(p) => {
            &&& 0 <= p.speed <= PLAYER_MOVE_SPEED
            &&& (e.position matches Some(pos) && 0 <= pos.x <= SCREEN_WIDTH && 0 <= pos.y
                <= SCREEN_HEIGHT)
        },
        Kind::Asteroid(a) => {
            &&& 1 <= a.size_multiplier <= 5
            &&& 0 <= a.speed <= 360
            &&& (e.renderable matches Some(r) ==> 0 <= r.render_rotation < 360)
        },
        Kind::Rocket(r) => 0 <= r.speed <= 1000,
        Kind::Data(_) => true,
    }
}

/// The entity store. `entities` is the committed table that systems
/// iterate; `pending` holds entities queued during the tick (asteroid
/// fragments), which join the table at `maintain`.
pub struct World {
    pub entities: Vec<Entity>,
    pub pending: Vec<Entity>,
    pub next_id: u64,
    pub loaded: bool,
}

impl World {
    /// Global well-formedness: carried by every operation of the library.
    pub open spec fn wf(self) -> bool {
        &&& forall|i: int|
            0 <= i < self.entities@.len() ==> entity_ok(#[trigger] self.entities@[i])
                && self.entities@[i].id < self.next_id
        &&& forall|i: int|
            0 <= i < self.pending@.len() ==> {
                let e = #[trigger] self.pending@[i];
                entity_ok(e) && e.id < self.next_id && !e.doomed && is_asteroid(e)
            }
        &&& player_count(self.entities@) <= 1
        &&& rocket_count(self.entities@) <= MAX_ROCKETS
        &&& data_count(self.entities@) <= 1
        &&& (self.loaded <==> data_count(self.entities@) == 1)
    }

    /// A fresh store: no entities, no load has occurred.
    pub fn new() -> (w: World)
        ensures
            w.wf(),
            w.entities@ =~= Seq::<Entity>::empty(),
            w.pending@ =~= Seq::<Entity>::empty(),
            w.next_id == 0,
            !w.loaded,
    {
        World { entities: Vec::new(), pending: Vec::new(), next_id: 0, loaded: false }
    }

    /// How many committed entities the store holds.
    pub fn entity_count(&self) -> (n: usize)
        ensures
            n == self.entities@.len(),
    {
        self.entities.len()
    }

    /// Mark every committed entity with handle `id` as doomed; the entity
    /// disappears at the next `maintain`. Deleting an absent or already
    /// doomed handle changes nothing.
    pub fn delete(&mut self, id: u64)
        requires
            old(self).wf(),
        ensures
            final(self).wf(),
            final(self).entities@.len() == old(self).entities@.len(),
            forall|i: int|
                0 <= i < old(self).entities@.len() ==> final(self).entities@[i] == (
                if old(self).entities@[i].id == id {
                    doom(old(self).entities@[i])
                } else {
                    old(self).entities@[i]
                }),
            final(self).pending@ == old(self).pending@,
            final(self).next_id == old(self).next_id,
            final(self).loaded == old(self).loaded,
    {
        let n = self.entities.len();
        let mut i: usize = 0;
        while i < n
            invariant
                old(self).wf(),
                n == self.entities@.len(),
                i <= n,
                self.pending@ == old(self).pending@,
                self.next_id == old(self).next_id,
                self.loaded == old(self).loaded,
                self.entities@.len() == old(self).entities@.len(),
                forall|j: int|
                    0 <= j < i ==> self.entities@[j] == (if old(self).entities@[j].id == id {
                        doom(old(self).entities@[j])
                    } else {
                        old(self).entities@[j]
                    }),
                forall|j: int| i <= j < n ==> self.entities@[j] == old(self).entities@[j],
                player_count(self.entities@) == player_count(old(self).entities@),
                rocket_count(self.entities@) == rocket_count(old(self).entities@),
                data_count(self.entities@) == data_count(old(self).entities@),
                forall|j: int|
                    0 <= j < n ==> entity_ok(#[trigger] self.entities@[j]) && self.entities@[j].id
                        < self.next_id,
            decreases n - i,
        {
            let e = self.entities[i];
            if e.id == id {
                let ghost pre = self.entities@;
                self.entities[i] = Entity { doomed: true, ..e };
                proof {
                    lemma_count_update(pre, pred_player(), i as int, doom(e));
                    lemma_count_update(pre, pred_rocket(), i as int, doom(e));
                    lemma_count_update(pre, pred_data(), i as int, doom(e));
                }
            }
            i += 1;
        }
    }

    /// Commit the tick's deferred changes: doomed entities leave the
    /// table, queued entities join it, and `loaded` records whether the
    /// score singleton is still present.
    pub fn maintain(&mut self)
        requires
            old(self).wf(),
        ensures
            final(self).wf(),
            final(self).entities@ == commit_seq(old(self).entities@) + old(self).pending@,
            final(self).pending@ =~= Seq::<Entity>::empty(),
            final(self).next_id == old(self).next_id,
            final(self).loaded == (data_count(final(self).entities@) == 1),
    {
        let n = self.entities.len();
        let mut kept: Vec<Entity> = Vec::new();
        let mut i: usize = 0;
        while i < n
            invariant
                n == self.entities@.len(),
                i <= n,
                *self == *old(self),
                kept@ == commit_seq(self.entities@.take(i as int)),
            decreases n - i,
        {
            let e = self.entities[i];
            proof {
                assert(self.entities@.take(i as int + 1).drop_last() =~= self.entities@.take(
                    i as int,
                ));
                assert(self.entities@.take(i as int + 1).last() == self.entities@[i as int]);
            }
            if !e.doomed {
                kept.push(e);
            }
            i += 1;
        }
        proof {
            assert(self.entities@.take(n as int) =~= self.entities@);
        }
        self.entities = kept;
        self.entities.append(&mut self.pending);
        let data_n = count_kind_data(&self.entities);
        self.loaded = data_n == 1;
        proof {
            let ghost s = old(self).entities@;
            let ghost p = old(self).pending@;
            let ghost okf = |e: Entity| entity_ok(e) && e.id < old(self).next_id;
            lemma_commit_sub(s, okf);
            lemma_commit_count_le(s, pred_player());
            lemma_commit_count_le(s, pred_rocket());
            lemma_commit_count_le(s, pred_data());
            lemma_count_concat(commit_seq(s), p, pred_player());
            lemma_count_concat(commit_seq(s), p, pred_rocket());
            lemma_count_concat(commit_seq(s), p, pred_data());
            lemma_count_zero(p, pred_player());
            lemma_count_zero(p, pred_rocket());
            lemma_count_zero(p, pred_data());
        }
    }

    /// How many committed entities are players.
    pub fn count_players(&self) -> (n: usize)
        ensures
            n == player_count(self.entities@),
    {
        count_kind_player(&self.entities)
    }

    /// How many committed entities are asteroids.
    pub fn count_asteroids(&self) -> (n: usize)
        ensures
            n == asteroid_count(self.entities@),
    {
        count_kind_asteroid(&self.entities)
    }

    /// How many committed entities are rockets.
    pub fn count_rockets(&self) -> (n: usize)
        ensures
            n == rocket_count(self.entities@),
    {
        count_kind_rocket(&self.entities)
    }

    /// How many committed entities are score singletons.
    pub fn count_data(&self) -> (n: usize)
        ensures
            n == data_count(self.entities@),
    {
        count_kind_data(&self.entities)
    }
}

fn count_kind_player(v: &Vec<Entity>) -> (n: usize)
    ensures
        n == player_count(v@),
{
    let mut n: usize = 0;
    let mut i: usize = 0;
    while i < v.len()
        invariant
            i <= v@.len(),
            n == player_count(v@.take(i as int)),
            n <= i,
        decreases v@.len() - i,
    {
        proof {
            assert(v@.take(i as int + 1).drop_last() =~= v@.take(i as int));
            assert(v@.take(i as int + 1).last() == v@[i as int]);
            assert(pred_player()(v@[i as int]) == is_player(v@[i as int]));
        }
        if matches!(v[i].kind, Kind::Player(_)) {
            n += 1;
        }
        i += 1;
    }
    proof {
        assert(v@.take(v@.len() as int) =~= v@);
    }
    n
}

fn count_kind_asteroid(v: &Vec<Entity>) -> (n: usize)
    ensures
        n == asteroid_count(v@),
{
    let mut n: usize = 0;
    let mut i: usize = 0;
    while i < v.len()
        invariant
            i <= v@.len(),
            n == asteroid_count(v@.take(i as int)),
            n <= i,
        decreases v@.len() - i,
    {
        proof {
            assert(v@.take(i as int + 1).drop_last() =~= v@.take(i as int));
            assert(v@.take(i as int + 1).last() == v@[i as int]);
            assert(pred_asteroid()(v@[i as int]) == is_asteroid(v@[i as int]));
        }
        if matches!(v[i].kind, Kind::Asteroid(_)) {
            n += 1;
        }
        i += 1;
    }
    proof {
        assert(v@.take(v@.len() as int) =~= v@);
    }
    n
}

fn count_kind_rocket(v: &Vec<Entity>) -> (n: usize)
    ensures
        n == rocket_count(v@),
{
    let mut n: usize = 0;
    let mut i: usize = 0;
    while i < v.len()
        invariant
            i <= v@.len(),
            n == rocket_count(v@.take(i as int)),
            n <= i,
        decreases v@.len() - i,
    {
        proof {
            assert(v@.take(i as int + 1).drop_last() =~= v@.take(i as int));
            assert(v@.take(i as int + 1).last() == v@[i as int]);
            assert(pred_rocket()(v@[i as int]) == is_rocket(v@[i as int]));
        }
        if matches!(v[i].kind, Kind::Rocket(_)) {
            n += 1;
        }
        i += 1;
    }
    proof {
        assert(v@.take(v@.len() as int) =~= v@);
    }
    n
}

fn count_kind_data(v: &Vec<Entity>) -> (n: usize)
    ensures
        n == data_count(v@),
{
    let mut n: usize = 0;
    let mut i: usize = 0;
    while i < v.len()
        invariant
            i <= v@.len(),
            n == data_count(v@.take(i as int)),
            n <= i,
        decreases v@.len() - i,
    {
        proof {
            assert(v@.take(i as int + 1).drop_last() =~= v@.take(i as int));
            assert(v@.take(i as int + 1).last() == v@[i as int]);
            assert(pred_data()(v@[i as int]) == is_data(v@[i as int]));
        }
        if matches!(v[i].kind, Kind::Data(_)) {
            n += 1;
        }
        i += 1;
    }
    proof {
        assert(v@.take(v@.len() as int) =~= v@);
    }
    n
}


/// Every entity that carries a sprite also carries a position.
pub proof fn lemma_renderable_has_position(w: World, i: int)
    requires
        w.wf(),
        0 <= i < w.entities@.len(),
        w.entities@[i].renderable is Some,
    ensures
        w.entities@[i].position is Some,
{
}

/// There is never more than one player in the store.
pub proof fn lemma_at_most_one_player(w: World)
    requires
        w.wf(),
    ensures
        0 <= player_count(w.entities@) <= 1,
{
    lemma_count_nonneg(w.entities@, pred_player());
}

/// Live rockets never exceed the cap, queued entities included.
pub proof fn lemma_rocket_cap(w: World)
    requires
        w.wf(),
    ensures
        rocket_count(w.entities@) + rocket_count(w.pending@) <= crate::MAX_ROCKETS,
{
    lemma_count_zero(w.pending@, pred_rocket());
}

/// Every asteroid's size multiplier lies in `[1, 5]`.
pub proof fn lemma_asteroid_size_bounds(w: World, i: int)
    requires
        w.wf(),
        0 <= i < w.entities@.len(),
    ensures
        w.entities@[i].kind matches Kind::Asteroid(a) ==> 1 <= a.size_multiplier <= 5,
{
}

/// The score singleton stands exactly when a world load has occurred and
/// has not been torn down.
pub proof fn lemma_data_iff_loaded(w: World)
    requires
        w.wf(),
    ensures
        w.loaded <==> data_count(w.entities@) == 1,
{
}
} // verus!
