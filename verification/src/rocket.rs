//! The rocket systems: motion with off-screen expiry, and the
//! rocket-versus-asteroid damage pass that shatters asteroids, queues
//! fragments and accumulates score.

use vstd::prelude::*;

use crate::components::{Asteroid, GameData, PendingAsteroid, Position, Renderable, TextureName};
use crate::world::{
    doom, entity_ok, is_asteroid, is_data, is_rocket, lemma_count_update, pred_data,
    pred_player, pred_rocket, Entity, Kind, World,
};
use crate::{
    check_radius, clamp_i32, clamp_to_i32, sat_u32, within_radius, SCREEN_HEIGHT, SCREEN_WIDTH,
};
use crate::angle::{cos_mdeg, delta_x, delta_y, scaled_milli, sin_mdeg};

verus! {

/// One motion tick of a single rocket: advance along the rotation, point
/// the sprite along the path, and mark the rocket doomed once it leaves
/// the screen. Entities that are not rockets with a position and a sprite
/// are left as they are.
pub open spec fn rocket_moved(e: Entity) -> Entity {
    match (e.kind, e.position, e.renderable) {
        (Kind::Rocket(r), Some(pos), Some(ren)) => {
            let nx = clamp_i32(pos.x + delta_x(r.speed as int, pos.rot as int));
            let ny = clamp_i32(pos.y + delta_y(r.speed as int, pos.rot as int));
            let off = nx > SCREEN_WIDTH as int || nx < 0 || ny > SCREEN_HEIGHT as int || ny < 0;
            Entity {
                position: Some(Position { x: nx as i32, y: ny as i32, rot: pos.rot }),
                renderable: Some(Renderable { render_rotation: pos.rot, ..ren }),
                doomed: e.doomed || off,
                ..e
            }
        },
        _ => e,
    }
}

/// Flies every rocket one tick and expires those that leave the screen.
pub struct RocketMover;

impl RocketMover {
    /// Run the rocket motion tick against the store.
    pub fn run(&mut self, w: &mut World)
        requires
            old(w).wf(),
        ensures
            final(w).wf(),
            final(w).entities@.len() == old(w).entities@.len(),
            forall|i: int|
                0 <= i < old(w).entities@.len() ==> final(w).entities@[i] == rocket_moved(
                    old(w).entities@[i],
                ),
            final(w).pending@ == old(w).pending@,
            final(w).next_id == old(w).next_id,
            final(w).loaded == old(w).loaded,
            crate::world::player_count(final(w).entities@) == crate::world::player_count(old(w).entities@),
            crate::world::rocket_count(final(w).entities@) == crate::world::rocket_count(old(w).entities@),
            crate::world::data_count(final(w).entities@) == crate::world::data_count(old(w).entities@),
    {
        let n = w.entities.len();
        let mut i: usize = 0;
        while i < n
            invariant
                old(w).wf(),
                n == w.entities@.len(),
                i <= n,
                w.entities@.len() == old(w).entities@.len(),
                w.pending@ == old(w).pending@,
                w.next_id == old(w).next_id,
                w.loaded == old(w).loaded,
                forall|j: int| 0 <= j < i ==> w.entities@[j] == rocket_moved(old(w).entities@[j]),
                forall|j: int| i <= j < n ==> w.entities@[j] == old(w).entities@[j],
                forall|j: int|
                    0 <= j < n ==> entity_ok(#[trigger] w.entities@[j]) && w.entities@[j].id
                        < w.next_id,
                crate::world::player_count(w.entities@) == crate::world::player_count(
                    old(w).entities@,
                ),
                crate::world::rocket_count(w.entities@) == crate::world::rocket_count(
                    old(w).entities@,
                ),
                crate::world::data_count(w.entities@) == crate::world::data_count(
                    old(w).entities@,
                ),
            decreases n - i,
        {
            let e = w.entities[i];
            match (e.kind, e.position, e.renderable) {
                (Kind::Rocket(r), Some(pos), Some(ren)) => {
                    let sv = sin_mdeg(pos.rot);
                    let cv = cos_mdeg(pos.rot);
                    let dx = scaled_milli(r.speed, sv);
                    let dyn_ = scaled_milli(r.speed, cv);
                    let nx = clamp_to_i32(pos.x as i64 + dx as i64);
                    let ny = clamp_to_i32(pos.y as i64 - dyn_ as i64);
                    let off = nx > SCREEN_WIDTH || nx < 0 || ny > SCREEN_HEIGHT || ny < 0;
                    let e2 = Entity {
                        position: Some(Position { x: nx, y: ny, rot: pos.rot }),
                        renderable: Some(Renderable { render_rotation: pos.rot, ..ren }),
                        doomed: e.doomed || off,
                        ..e
                    };
                    let ghost pre = w.entities@;
                    w.entities[i] = e2;
                    proof {
                        assert(e2 == rocket_moved(e));
                        lemma_count_update(pre, pred_player(), i as int, e2);
                        lemma_count_update(pre, pred_rocket(), i as int, e2);
                        lemma_count_update(pre, pred_data(), i as int, e2);
                    }
                },
                _ => {
                    proof {
                        assert(rocket_moved(e) == e);
                    }
                },
            }
            i += 1;
        }
    }
}

/// Whether the asteroid `a` is a live target overlapping a rocket at
/// `rpos`: centers closer than half the asteroid's sprite width.
pub open spec fn rocket_hits_asteroid(rpos: Position, a: Entity) -> bool {
    &&& is_asteroid(a)
    &&& !a.doomed
    &&& a.position is Some
    &&& a.renderable is Some
    &&& within_radius(
        rpos.x as int,
        rpos.y as int,
        a.position.unwrap().x as int,
        a.position.unwrap().y as int,
        a.renderable.unwrap().output_width as int,
    )
}

/// The first (lowest-index) live asteroid of `s` at or after `j` that a
/// rocket at `rpos` overlaps.
pub open spec fn first_target(s: Seq<Entity>, rpos: Position, j: int) -> Option<int>
    decreases s.len() - j,
{
    if j < 0 || j >= s.len() {
        None
    } else if rocket_hits_asteroid(rpos, s[j]) {
        Some(j)
    } else {
        first_target(s, rpos, j + 1)
    }
}

/// The size multiplier credited for destroying `a`.
pub open spec fn mult_of(a: Entity) -> int {
    match a.kind {
        Kind::Asteroid(ast) => ast.size_multiplier as int,
        _ => 0,
    }
}

/// The fragments a destroyed asteroid leaves: none if its size multiplier
/// is 1, otherwise two half-size fragments at its position, rotated 90
/// degrees to either side of its course.
pub open spec fn frags_of(a: Entity) -> Seq<PendingAsteroid> {
    match (a.kind, a.position) {
        (Kind::Asteroid(ast), Some(pos)) => {
            if ast.size_multiplier > 1 {
                seq![
                    PendingAsteroid {
                        x: pos.x,
                        y: pos.y,
                        rot: clamp_i32(pos.rot - 90) as i32,
                        size_mult: ast.size_multiplier / 2,
                    },
                    PendingAsteroid {
                        x: pos.x,
                        y: pos.y,
                        rot: clamp_i32(pos.rot + 90) as i32,
                        size_mult: ast.size_multiplier / 2,
                    },
                ]
            } else {
                Seq::empty()
            }
        },
        _ => Seq::empty(),
    }
}

/// The damage pass over the rockets of `s` from index `i` on: each rocket
/// with a position is matched against its first live target; both are
/// doomed, the target's multiplier is credited, and its fragments are
/// queued. The result is the table after the pass, the queued fragments,
/// and the credited score.
pub open spec fn damage_from(s: Seq<Entity>, i: int) -> (Seq<Entity>, Seq<PendingAsteroid>, int)
    decreases s.len() - i,
{
    if i < 0 || i >= s.len() {
        (s, Seq::empty(), 0)
    } else {
        let e = s[i];
        if is_rocket(e) && e.position is Some {
            match first_target(s, e.position.unwrap(), 0) {
                Some(j) => {
                    if 0 <= j < s.len() {
                        let a = s[j];
                        let s1 = s.update(i, doom(e)).update(j, doom(a));
                        let rest = damage_from(s1, i + 1);
                        (rest.0, frags_of(a) + rest.1, mult_of(a) + rest.2)
                    } else {
                        damage_from(s, i + 1)
                    }
                },
                None => damage_from(s, i + 1),
            }
        } else {
            damage_from(s, i + 1)
        }
    }
}

/// A data entity with `d` added to its score, saturating at the machine
/// range; other entities are unchanged.
pub open spec fn scored(e: Entity, d: int) -> Entity {
    match e.kind {
        Kind::Data(g) => Entity {
            kind: Kind::Data(GameData { score: sat_u32(g.score + d) as u32, ..g }),
            ..e
        },
        _ => e,
    }
}

/// `d` added to the score of every data entity of `s`.
pub open spec fn add_score(s: Seq<Entity>, d: int) -> Seq<Entity>
    decreases s.len(),
{
    if s.len() == 0 {
        Seq::empty()
    } else {
        add_score(s.drop_last(), d).push(scored(s.last(), d))
    }
}

pub proof fn lemma_add_score_index(s: Seq<Entity>, d: int)
    ensures
        add_score(s, d).len() == s.len(),
        forall|k: int| 0 <= k < s.len() ==> add_score(s, d)[k] == scored(#[trigger] s[k], d),
    decreases s.len(),
{
    if s.len() > 0 {
        lemma_add_score_index(s.drop_last(), d);
        assert(forall|k: int| 0 <= k < s.len() - 1 ==> s.drop_last()[k] == #[trigger] s[k]);
        assert(s.last() == s[s.len() - 1]);
    }
}

/// The entity a queued fragment becomes when it is committed: a fresh
/// asteroid sprite (33 by 45 source strip, 12 frames) scaled to the
/// fragment's size.
pub open spec fn frag_entity(f: PendingAsteroid, id: u64) -> Entity {
    Entity {
        id,
        doomed: false,
        position: Some(Position { x: f.x, y: f.y, rot: f.rot }),
        renderable: Some(
            Renderable {
                texture_name: TextureName::Enemy,
                input_width: 33,
                input_height: 45,
                output_width: (33 * f.size_mult as int) as u32,
                output_height: (45 * f.size_mult as int) as u32,
                frame: 1,
                total_frames: 12,
                render_rotation: 0,
            },
        ),
        kind: Kind::Asteroid(
            Asteroid { speed: 6, rotation_speed: 2000, size_multiplier: f.size_mult },
        ),
    }
}

/// The queued fragments as entities, with handles counted from `id0`.
pub open spec fn frag_entities(fs: Seq<PendingAsteroid>, id0: int) -> Seq<Entity>
    decreases fs.len(),
{
    if fs.len() == 0 {
        Seq::empty()
    } else {
        frag_entities(fs.drop_last(), id0).push(
            frag_entity(fs.last(), (id0 + fs.len() - 1) as u64),
        )
    }
}

pub proof fn lemma_frag_entities_index(fs: Seq<PendingAsteroid>, id0: int)
    ensures
        frag_entities(fs, id0).len() == fs.len(),
        forall|k: int|
            0 <= k < fs.len() ==> frag_entities(fs, id0)[k] == frag_entity(
                #[trigger] fs[k],
                (id0 + k) as u64,
            ),
    decreases fs.len(),
{
    if fs.len() > 0 {
        lemma_frag_entities_index(fs.drop_last(), id0);
        assert(forall|k: int| 0 <= k < fs.len() - 1 ==> fs.drop_last()[k] == #[trigger] fs[k]);
        assert(fs.last() == fs[fs.len() - 1]);
    }
}

/// The damage pass keeps the table's length.
pub proof fn lemma_damage_len(s: Seq<Entity>, i: int)
    ensures
        damage_from(s, i).0.len() == s.len(),
    decreases s.len() - i,
{
    if 0 <= i < s.len() {
        let e = s[i];
        if is_rocket(e) && e.position is Some {
            match first_target(s, e.position.unwrap(), 0) {
                Some(j) => {
                    if 0 <= j < s.len() {
                        lemma_damage_len(s.update(i, doom(e)).update(j, doom(s[j])), i + 1);
                    } else {
                        lemma_damage_len(s, i + 1);
                    }
                },
                None => {
                    lemma_damage_len(s, i + 1);
                },
            }
        } else {
            lemma_damage_len(s, i + 1);
        }
    }
}

/// The damage pass only sets doomed marks: every entity of the result is
/// the old one, or the old one doomed.
pub proof fn lemma_damage_doom_only(s: Seq<Entity>, i: int)
    ensures
        forall|k: int|
            0 <= k < s.len() ==> (#[trigger] damage_from(s, i).0[k] == s[k] || damage_from(
                s,
                i,
            ).0[k] == doom(s[k])),
    decreases s.len() - i,
{
    lemma_damage_len(s, i);
    if 0 <= i < s.len() {
        let e = s[i];
        if is_rocket(e) && e.position is Some {
            match first_target(s, e.position.unwrap(), 0) {
                Some(j) if 0 <= j < s.len() => {
                    let s1 = s.update(i, doom(e)).update(j, doom(s[j]));
                    lemma_damage_doom_only(s1, i + 1);
                    assert forall|k: int|
                        0 <= k < s.len() implies (#[trigger] damage_from(s, i).0[k] == s[k]
                        || damage_from(s, i).0[k] == doom(s[k])) by {
                        assert(s1[k] == s[k] || s1[k] == doom(s[k]));
                        assert(damage_from(s1, i + 1).0[k] == s1[k] || damage_from(s1, i + 1).0[k]
                            == doom(s1[k]));
                        assert(doom(doom(s[k])) == doom(s[k]));
                    }
                },
                _ => {
                    lemma_damage_doom_only(s, i + 1);
                },
            }
        } else {
            lemma_damage_doom_only(s, i + 1);
        }
    }
}

/// The damage pass queues at most two fragments per table slot.
pub proof fn lemma_damage_frags_bound(s: Seq<Entity>, i: int)
    requires
        0 <= i <= s.len(),
    ensures
        damage_from(s, i).1.len() <= 2 * (s.len() - i),
    decreases s.len() - i,
{
    if i < s.len() {
        let e = s[i];
        if is_rocket(e) && e.position is Some {
            match first_target(s, e.position.unwrap(), 0) {
                Some(j) if 0 <= j < s.len() => {
                    let s1 = s.update(i, doom(e)).update(j, doom(s[j]));
                    lemma_damage_frags_bound(s1, i + 1);
                },
                _ => {
                    lemma_damage_frags_bound(s, i + 1);
                },
            }
        } else {
            lemma_damage_frags_bound(s, i + 1);
        }
    }
}

/// Over a well-formed table the damage pass credits at most five points
/// per slot, and every queued fragment has a size multiplier in `[1, 2]`.
pub proof fn lemma_damage_ok(s: Seq<Entity>, i: int)
    requires
        0 <= i <= s.len(),
        forall|k: int| 0 <= k < s.len() ==> entity_ok(#[trigger] s[k]),
    ensures
        0 <= damage_from(s, i).2 <= 5 * (s.len() - i),
        forall|k: int|
            0 <= k < damage_from(s, i).1.len() ==> 1 <= (#[trigger] damage_from(
                s,
                i,
            ).1[k]).size_mult <= 2,
    decreases s.len() - i,
{
    if i < s.len() {
        let e = s[i];
        if is_rocket(e) && e.position is Some {
            match first_target(s, e.position.unwrap(), 0) {
                Some(j) if 0 <= j < s.len() => {
                    lemma_first_target_hit(s, e.position.unwrap(), 0);
                    let a = s[j];
                    let s1 = s.update(i, doom(e)).update(j, doom(a));
                    assert(forall|k: int|
                        0 <= k < s1.len() ==> (#[trigger] s1[k] == s[k] || s1[k] == doom(s[k])));
                    assert(forall|k: int| 0 <= k < s1.len() ==> entity_ok(#[trigger] s1[k]));
                    lemma_damage_ok(s1, i + 1);
                    assert(entity_ok(a));
                    assert(0 <= mult_of(a) <= 5);
                    let fa = frags_of(a);
                    assert(forall|k: int| 0 <= k < fa.len() ==> 1 <= (#[trigger] fa[k]).size_mult
                        <= 2);
                    assert(forall|k: int|
                        0 <= k < fa.len() ==> (fa + damage_from(s1, i + 1).1)[k] == fa[k]);
                    assert(forall|k: int|
                        fa.len() <= k < fa.len() + damage_from(s1, i + 1).1.len() ==> #[trigger] (fa
                            + damage_from(s1, i + 1).1)[k] == damage_from(s1, i + 1).1[k
                            - fa.len()]);
                },
                _ => {
                    lemma_damage_ok(s, i + 1);
                },
            }
        } else {
            lemma_damage_ok(s, i + 1);
        }
    }
}

/// A found target really is hit (and so is a live asteroid).
pub proof fn lemma_first_target_hit(s: Seq<Entity>, rpos: Position, j: int)
    ensures
        first_target(s, rpos, j) matches Some(t) ==> j <= t < s.len() && rocket_hits_asteroid(
            rpos,
            s[t],
        ),
    decreases s.len() - j,
{
    if 0 <= j < s.len() {
        if !rocket_hits_asteroid(rpos, s[j]) {
            lemma_first_target_hit(s, rpos, j + 1);
        }
    }
}

/// The damage pass never touches the score singleton's entry: rockets
/// and their targets are the only entities it dooms.
pub proof fn lemma_damage_data_untouched(s: Seq<Entity>, i: int)
    ensures
        forall|k: int|
            0 <= k < s.len() && is_data(#[trigger] s[k]) ==> damage_from(s, i).0[k] == s[k],
    decreases s.len() - i,
{
    lemma_damage_len(s, i);
    if 0 <= i < s.len() {
        let e = s[i];
        if is_rocket(e) && e.position is Some {
            match first_target(s, e.position.unwrap(), 0) {
                Some(j) if 0 <= j < s.len() => {
                    lemma_first_target_hit(s, e.position.unwrap(), 0);
                    let s1 = s.update(i, doom(e)).update(j, doom(s[j]));
                    lemma_damage_data_untouched(s1, i + 1);
                    assert forall|k: int| 0 <= k < s.len() && is_data(#[trigger] s[k]) implies
                        damage_from(s, i).0[k] == s[k] by {
                        assert(!is_data(s[i as int]));
                        assert(!is_data(s[j as int]));
                        assert(s1[k] == s[k]);
                        assert(is_data(s1[k]));
                        assert(damage_from(s1, i + 1).0[k] == s1[k]);
                    }
                },
                _ => {
                    lemma_damage_data_untouched(s, i + 1);
                },
            }
        } else {
            lemma_damage_data_untouched(s, i + 1);
        }
    }
}

/// How `RocketDamage::run` relates the store before and after: the
/// entities are those of the damage pass with the credited score added to
/// the data singleton, and the pass's fragments are queued with fresh
/// handles.
pub open spec fn damage_rel(w0: World, w1: World) -> bool {
    let r = damage_from(w0.entities@, 0);
    &&& w1.entities@ == add_score(r.0, r.2)
    &&& w1.pending@ == w0.pending@ + frag_entities(r.1, w0.next_id as int)
    &&& w1.next_id == w0.next_id + r.1.len()
    &&& w1.loaded == w0.loaded
}

/// Deletes each rocket together with the first live asteroid it overlaps,
/// queues that asteroid's fragments, and credits its multiplier to the
/// score singleton.
pub struct RocketDamage;

impl RocketDamage {
    /// Run the damage pass against the store.
    pub fn run(&mut self, w: &mut World)
        requires
            old(w).wf(),
            old(w).entities@.len() <= 0x2_0000_0000,
            old(w).next_id <= u64::MAX - 0x4_0000_0000,
        ensures
            final(w).wf(),
            damage_rel(*old(w), *final(w)),
            final(w).entities@.len() == old(w).entities@.len(),
    {
        let ghost s0 = w.entities@;
        let n = w.entities.len();
        let mut frags: Vec<PendingAsteroid> = Vec::new();
        let mut score_acc: u64 = 0;
        proof {
            assert(Seq::<PendingAsteroid>::empty() + damage_from(s0, 0).1 =~= damage_from(
                s0,
                0,
            ).1);
        }
        let mut i: usize = 0;
        while i < n
            invariant
                old(w).wf(),
                s0 == old(w).entities@,
                s0.len() <= 0x2_0000_0000,
                n == s0.len(),
                n == w.entities@.len(),
                i <= n,
                w.pending@ == old(w).pending@,
                w.next_id == old(w).next_id,
                w.loaded == old(w).loaded,
                damage_from(s0, 0).0 == damage_from(w.entities@, i as int).0,
                damage_from(s0, 0).1 == frags@ + damage_from(w.entities@, i as int).1,
                damage_from(s0, 0).2 == score_acc + damage_from(w.entities@, i as int).2,
                score_acc <= 5 * i,
                forall|k: int|
                    0 <= k < n ==> (#[trigger] w.entities@[k] == s0[k] || w.entities@[k] == doom(
                        s0[k],
                    )),
                forall|k: int|
                    0 <= k < n ==> entity_ok(#[trigger] w.entities@[k]) && w.entities@[k].id
                        < w.next_id,
                crate::world::player_count(w.entities@) == crate::world::player_count(s0),
                crate::world::rocket_count(w.entities@) == crate::world::rocket_count(s0),
                crate::world::data_count(w.entities@) == crate::world::data_count(s0),
            decreases n - i,
        {
            let ghost cur = w.entities@;
            let e = w.entities[i];
            let rpos_opt = match (e.kind, e.position) {
                (Kind::Rocket(_), Some(pos)) => Some(pos),
                _ => None,
            };
            match rpos_opt {
                Some(rpos) => {
                    let mut j: usize = 0;
                    let mut found = false;
                    while j < n && !found
                        invariant
                            n == w.entities@.len(),
                            cur == w.entities@,
                            j <= n,
                            rpos == e.position.unwrap(),
                            !found ==> first_target(cur, rpos, 0) == first_target(
                                cur,
                                rpos,
                                j as int,
                            ),
                            found ==> j < n && first_target(cur, rpos, 0) == Some(j as int),
                        decreases n - j, (if found {
                            0int
                        } else {
                            1int
                        }),
                    {
                        let a = w.entities[j];
                        let mut this_hit = false;
                        match (a.kind, a.position, a.renderable) {
                            (Kind::Asteroid(_), Some(apos), Some(aren)) => {
                                if !a.doomed && check_radius(
                                    rpos.x,
                                    rpos.y,
                                    apos.x,
                                    apos.y,
                                    aren.output_width as u64,
                                ) {
                                    this_hit = true;
                                }
                            },
                            _ => {},
                        }
                        if this_hit {
                            proof {
                                assert(rocket_hits_asteroid(rpos, cur[j as int]));
                            }
                            found = true;
                        } else {
                            proof {
                                assert(!rocket_hits_asteroid(rpos, cur[j as int]));
                            }
                            j += 1;
                        }
                    }
                    if found {
                        let a = w.entities[j];
                        proof {
                            lemma_first_target_hit(cur, rpos, 0);
                            assert(is_asteroid(a) && !a.doomed);
                            assert(i as int != j as int);
                        }
                        let e_doomed = Entity { doomed: true, ..e };
                        let a_doomed = Entity { doomed: true, ..a };
                        let ghost pre1 = w.entities@;
                        w.entities[i] = e_doomed;
                        let ghost pre2 = w.entities@;
                        w.entities[j] = a_doomed;
                        let m: u32 = match a.kind {
                            Kind::Asteroid(ast) => ast.size_multiplier,
                            _ => 0,
                        };
                        proof {
                            assert(entity_ok(a));
                            assert(1 <= m <= 5);
                            assert(score_acc + m as u64 <= 5 * (i + 1));
                        }
                        score_acc = score_acc + m as u64;
                        let ghost frags_pre = frags@;
                        if m > 1 {
                            let apos = a.position.unwrap();
                            frags.push(
                                PendingAsteroid {
                                    x: apos.x,
                                    y: apos.y,
                                    rot: clamp_to_i32(apos.rot as i64 - 90),
                                    size_mult: m / 2,
                                },
                            );
                            frags.push(
                                PendingAsteroid {
                                    x: apos.x,
                                    y: apos.y,
                                    rot: clamp_to_i32(apos.rot as i64 + 90),
                                    size_mult: m / 2,
                                },
                            );
                        }
                        proof {
                            let s1 = cur.update(i as int, doom(e)).update(j as int, doom(a));
                            assert(w.entities@ =~= s1);
                            assert(frags@ =~= frags_pre + frags_of(a));
                            assert(damage_from(cur, i as int).0 == damage_from(s1, i + 1).0);
                            assert(damage_from(cur, i as int).1 == frags_of(a) + damage_from(
                                s1,
                                i + 1,
                            ).1);
                            assert(damage_from(cur, i as int).2 == mult_of(a) + damage_from(
                                s1,
                                i + 1,
                            ).2);
                            assert((frags_pre + frags_of(a)) + damage_from(s1, i + 1).1
                                =~= frags_pre + (frags_of(a) + damage_from(s1, i + 1).1));
                            lemma_count_update(pre1, pred_player(), i as int, e_doomed);
                            lemma_count_update(pre1, pred_rocket(), i as int, e_doomed);
                            lemma_count_update(pre1, pred_data(), i as int, e_doomed);
                            lemma_count_update(pre2, pred_player(), j as int, a_doomed);
                            lemma_count_update(pre2, pred_rocket(), j as int, a_doomed);
                            lemma_count_update(pre2, pred_data(), j as int, a_doomed);
                        }
                    } else {
                        proof {
                            assert(first_target(cur, rpos, 0) == None::<int>);
                            assert(damage_from(cur, i as int) == damage_from(cur, i + 1));
                        }
                    }
                },
                None => {
                    proof {
                        assert(damage_from(cur, i as int) == damage_from(cur, i + 1));
                    }
                },
            }
            i += 1;
        }
        proof {
            assert(damage_from(w.entities@, n as int).0 == w.entities@);
            assert(damage_from(w.entities@, n as int).1 =~= Seq::<PendingAsteroid>::empty());
            assert(frags@ + Seq::<PendingAsteroid>::empty() =~= frags@);
            assert(damage_from(s0, 0).0 == w.entities@);
            assert(damage_from(s0, 0).1 == frags@);
            assert(damage_from(s0, 0).2 == score_acc);
            lemma_damage_frags_bound(s0, 0);
        }
        let nf = frags.len();
        let ghost id0 = w.next_id;
        let ghost ents_mid = w.entities@;
        proof {
            assert(old(w).pending@ + frag_entities(frags@.take(0), id0 as int) =~= old(
                w,
            ).pending@);
            lemma_damage_ok(s0, 0);
        }
        let mut k: usize = 0;
        while k < nf
            invariant
                nf == frags@.len(),
                nf <= 2 * n,
                n <= 0x2_0000_0000,
                id0 <= u64::MAX - 0x4_0000_0000,
                k <= nf,
                w.entities@ == ents_mid,
                w.loaded == old(w).loaded,
                w.next_id == id0 + k,
                w.pending@ == old(w).pending@ + frag_entities(
                    frags@.take(k as int),
                    id0 as int,
                ),
                forall|t: int| 0 <= t < nf ==> 1 <= (#[trigger] frags@[t]).size_mult <= 2,
            decreases nf - k,
        {
            let f = frags[k];
            let ow: u32 = 33 * f.size_mult;
            let oh: u32 = 45 * f.size_mult;
            let ent = Entity {
                id: w.next_id,
                doomed: false,
                position: Some(Position { x: f.x, y: f.y, rot: f.rot }),
                renderable: Some(
                    Renderable {
                        texture_name: TextureName::Enemy,
                        input_width: 33,
                        input_height: 45,
                        output_width: ow,
                        output_height: oh,
                        frame: 1,
                        total_frames: 12,
                        render_rotation: 0,
                    },
                ),
                kind: Kind::Asteroid(
                    Asteroid { speed: 6, rotation_speed: 2000, size_multiplier: f.size_mult },
                ),
            };
            w.pending.push(ent);
            w.next_id = w.next_id + 1;
            proof {
                assert(ent == frag_entity(frags@[k as int], (id0 + k) as u64));
                assert(frags@.take(k as int + 1).drop_last() =~= frags@.take(k as int));
                assert(frags@.take(k as int + 1).last() == frags@[k as int]);
                assert(frags@.take(k as int + 1).len() == k + 1);
                assert(frag_entities(frags@.take(k as int + 1), id0 as int) == frag_entities(
                    frags@.take(k as int),
                    id0 as int,
                ).push(frag_entity(frags@[k as int], (id0 + k) as u64)));
            }
            k += 1;
        }
        proof {
            assert(frags@.take(nf as int) =~= frags@);
        }
        let d = score_acc;
        proof {
            assert(d <= 0xA_0000_0000u64);
        }
        let ghost sents = w.entities@;
        let mut t: usize = 0;
        while t < n
            invariant
                n == w.entities@.len(),
                n == sents.len(),
                t <= n,
                d <= 0xA_0000_0000u64,
                w.pending@ == old(w).pending@ + frag_entities(frags@, id0 as int),
                w.next_id == id0 + nf,
                w.loaded == old(w).loaded,
                forall|k2: int| 0 <= k2 < t ==> w.entities@[k2] == scored(sents[k2], d as int),
                forall|k2: int| t <= k2 < n ==> w.entities@[k2] == sents[k2],
                forall|k2: int|
                    0 <= k2 < n ==> entity_ok(#[trigger] w.entities@[k2]) && w.entities@[k2].id
                        < id0,
                crate::world::player_count(w.entities@) == crate::world::player_count(sents),
                crate::world::rocket_count(w.entities@) == crate::world::rocket_count(sents),
                crate::world::data_count(w.entities@) == crate::world::data_count(sents),
            decreases n - t,
        {
            let e = w.entities[t];
            match e.kind {
                Kind::Data(g) => {
                    let sum: u64 = g.score as u64 + d;
                    let ns: u32 = if sum > 0xFFFF_FFFF {
                        u32::MAX
                    } else {
                        sum as u32
                    };
                    let e2 = Entity { kind: Kind::Data(GameData { score: ns, ..g }), ..e };
                    let ghost pre = w.entities@;
                    w.entities[t] = e2;
                    proof {
                        assert(e2 == scored(sents[t as int], d as int));
                        lemma_count_update(pre, pred_player(), t as int, e2);
                        lemma_count_update(pre, pred_rocket(), t as int, e2);
                        lemma_count_update(pre, pred_data(), t as int, e2);
                    }
                },
                _ => {
                    proof {
                        assert(scored(sents[t as int], d as int) == sents[t as int]);
                    }
                },
            }
            t += 1;
        }
        proof {
            lemma_add_score_index(sents, d as int);
            assert(w.entities@ =~= add_score(sents, d as int));
            lemma_frag_entities_index(frags@, id0 as int);
            let fe = frag_entities(frags@, id0 as int);
            let p = old(w).pending@;
            assert forall|q: int| 0 <= q < w.pending@.len() implies {
                let e = #[trigger] w.pending@[q];
                entity_ok(e) && e.id < w.next_id && !e.doomed && is_asteroid(e)
            } by {
                if q < p.len() {
                    assert(w.pending@[q] == p[q]);
                } else {
                    assert(w.pending@[q] == fe[q - p.len()]);
                    assert(fe[q - p.len()] == frag_entity(
                        frags@[q - p.len()],
                        (id0 + q - p.len()) as u64,
                    ));
                }
            }
        }
    }
}


/// One rocket-versus-asteroid hit: the pass dooms both the rocket and its
/// first live target (both leave at the next maintain), queues exactly two
/// half-size fragments when the parent's multiplier is above one and none
/// otherwise, and credits exactly the parent's multiplier on top of what
/// the rest of the pass credits.
pub proof fn lemma_hit_effect(s: Seq<Entity>, i: int)
    requires
        forall|k: int| 0 <= k < s.len() ==> entity_ok(#[trigger] s[k]),
        0 <= i < s.len(),
        is_rocket(s[i]),
        s[i].position is Some,
        first_target(s, s[i].position.unwrap(), 0) is Some,
    ensures
        ({
            let j = first_target(s, s[i].position.unwrap(), 0).unwrap();
            let a = s[j];
            let s1 = s.update(i, doom(s[i])).update(j, doom(a));
            let r = damage_from(s, i);
            &&& 0 <= j < s.len()
            &&& rocket_hits_asteroid(s[i].position.unwrap(), a)
            &&& r.0[i].doomed
            &&& r.0[j].doomed
            &&& r.1 == frags_of(a) + damage_from(s1, i + 1).1
            &&& frags_of(a).len() == (if mult_of(a) > 1 {
                2int
            } else {
                0int
            })
            &&& r.2 == mult_of(a) + damage_from(s1, i + 1).2
            &&& damage_from(s1, i + 1).2 >= 0
        }),
{
    let rpos = s[i].position.unwrap();
    lemma_first_target_hit(s, rpos, 0);
    let j = first_target(s, rpos, 0).unwrap();
    let a = s[j];
    assert(is_asteroid(a));
    assert(i != j);
    let s1 = s.update(i, doom(s[i])).update(j, doom(a));
    lemma_damage_doom_only(s1, i + 1);
    lemma_damage_len(s1, i + 1);
    assert(s1[i as int] == doom(s[i]));
    assert(s1[j as int] == doom(a));
    let r = damage_from(s, i);
    assert(r.0[i] == s1[i as int] || r.0[i] == doom(s1[i as int]));
    assert(r.0[j] == s1[j as int] || r.0[j] == doom(s1[j as int]));
    assert forall|k: int| 0 <= k < s1.len() implies entity_ok(#[trigger] s1[k]) by {
        assert(s1[k] == s[k] || s1[k] == doom(s[k]));
    }
    lemma_damage_ok(s1, i + 1);
}
} // verus!
