//! The asteroid systems: motion with edge bounce, and the lethal
//! player-versus-asteroid collision pass.

use vstd::prelude::*;

use crate::angle::{cos_mdeg, delta_x, delta_y, scaled_milli, sin_mdeg};
use crate::components::{Position, Renderable};
use crate::world::{
    doom, entity_ok, is_asteroid, is_player, lemma_count_update, pred_data,
    pred_player, pred_rocket, Entity, Kind, World,
};
use crate::{check_radius, clamp_i32, clamp_to_i32, within_radius, SCREEN_HEIGHT, SCREEN_WIDTH};

verus! {

/// One motion tick of a single asteroid: advance along the rotation,
/// bounce the rotation off whichever screen edge was crossed (x edges
/// reflect to `360 - rot`, y edges to `180 - rot` or `540 - rot`; at most
/// one axis reflects per tick), and spin the sprite, keeping its display
/// rotation normalized into `[0, 360)`. Entities that are not asteroids
/// with a position and a sprite are left as they are.
pub open spec fn asteroid_moved(e: Entity) -> Entity {
    match (e.kind, e.position, e.renderable) {
        (Kind::Asteroid(a), Some(pos), Some(ren)) => {
            let nx = clamp_i32(pos.x + delta_x(a.speed as int, pos.rot as int));
            let ny = clamp_i32(pos.y + delta_y(a.speed as int, pos.rot as int));
            let half_w = ren.output_width as int / 2;
            let half_h = ren.output_height as int / 2;
            let new_rot = if nx > SCREEN_WIDTH as int - half_w || nx < half_w {
                clamp_i32(360 - pos.rot)
            } else if ny > SCREEN_HEIGHT as int - half_h || ny < half_h {
                if pos.rot > 180 {
                    clamp_i32(540 - pos.rot)
                } else {
                    clamp_i32(180 - pos.rot)
                }
            } else {
                pos.rot as int
            };
            let rr0 = ren.render_rotation + a.speed;
            let rr = if rr0 >= 360 {
                rr0 - 360
            } else {
                rr0 as int
            };
            Entity {
                position: Some(Position { x: nx as i32, y: ny as i32, rot: new_rot as i32 }),
                renderable: Some(Renderable { render_rotation: rr as i32, ..ren }),
                ..e
            }
        },
        _ => e,
    }
}

/// Moves every asteroid one tick and bounces it off the screen edges.
pub struct AsteroidMover;

impl AsteroidMover {
    /// Run the motion tick against the store.
    pub fn run(&mut self, w: &mut World)
        requires
            old(w).wf(),
        ensures
            final(w).wf(),
            final(w).entities@.len() == old(w).entities@.len(),
            forall|i: int|
                0 <= i < old(w).entities@.len() ==> final(w).entities@[i] == asteroid_moved(
                    old(w).entities@[i],
                ),
            final(w).pending@ == old(w).pending@,
            final(w).next_id == old(w).next_id,
            final(w).loaded == old(w).loaded,
            crate::world::player_count(final(w).entities@) == crate::world::player_count(old(w).entities@),
            crate::world::rocket_count(final(w).entities@) == crate::world::rocket_count(old(w).entities@),
            crate::world::data_count(final(w).entities@) == crate::world::data_count(old(w).entities@),
            forall|i: int|
                0 <= i < final(w).entities@.len() ==> {
                    let e = #[trigger] final(w).entities@[i];
                    (is_asteroid(e) && e.renderable is Some) ==> 0
                        <= e.renderable.unwrap().render_rotation < 360
                },
    {
        let n = w.entities.len();
        let mut i: usize = 0;
        while i < n
            invariant
                old(w).wf(),
                n == w.entities@.len(),
                i <= n,
                w.entities@.len() == old(w).entities@.len(),
                w.pending@ == old(w).pending@,
                w.next_id == old(w).next_id,
                w.loaded == old(w).loaded,
                forall|j: int|
                    0 <= j < i ==> w.entities@[j] == asteroid_moved(old(w).entities@[j]),
                forall|j: int| i <= j < n ==> w.entities@[j] == old(w).entities@[j],
                forall|j: int|
                    0 <= j < n ==> entity_ok(#[trigger] w.entities@[j]) && w.entities@[j].id
                        < w.next_id,
                crate::world::player_count(w.entities@) == crate::world::player_count(
                    old(w).entities@,
                ),
                crate::world::rocket_count(w.entities@) == crate::world::rocket_count(
                    old(w).entities@,
                ),
                crate::world::data_count(w.entities@) == crate::world::data_count(
                    old(w).entities@,
                ),
            decreases n - i,
        {
            let e = w.entities[i];
            match (e.kind, e.position, e.renderable) {
                (Kind::Asteroid(a), Some(pos), Some(ren)) => {
                    let sv = sin_mdeg(pos.rot);
                    let cv = cos_mdeg(pos.rot);
                    let dx = scaled_milli(a.speed, sv);
                    let dyn_ = scaled_milli(a.speed, cv);
                    let nx = clamp_to_i32(pos.x as i64 + dx as i64);
                    let ny = clamp_to_i32(pos.y as i64 - dyn_ as i64);
                    let half_w = (ren.output_width / 2) as i32;
                    let half_h = (ren.output_height / 2) as i32;
                    let new_rot: i32 = if nx > SCREEN_WIDTH - half_w || nx < half_w {
                        clamp_to_i32(360 - pos.rot as i64)
                    } else if ny > SCREEN_HEIGHT - half_h || ny < half_h {
                        if pos.rot > 180 {
                            clamp_to_i32(540 - pos.rot as i64)
                        } else {
                            clamp_to_i32(180 - pos.rot as i64)
                        }
                    } else {
                        pos.rot
                    };
                    let rr0 = ren.render_rotation + a.speed;
                    let rr = if rr0 >= 360 {
                        rr0 - 360
                    } else {
                        rr0
                    };
                    let e2 = Entity {
                        position: Some(Position { x: nx, y: ny, rot: new_rot }),
                        renderable: Some(Renderable { render_rotation: rr, ..ren }),
                        ..e
                    };
                    let ghost pre = w.entities@;
                    w.entities[i] = e2;
                    proof {
                        assert(e2 == asteroid_moved(e));
                        lemma_count_update(pre, pred_player(), i as int, e2);
                        lemma_count_update(pre, pred_rocket(), i as int, e2);
                        lemma_count_update(pre, pred_data(), i as int, e2);
                    }
                },
                _ => {
                    proof {
                        assert(asteroid_moved(e) == e);
                    }
                },
            }
            i += 1;
        }
    }
}

/// Whether asteroid `a` overlaps player `p`: centers closer than half the
/// sum of the two sprite widths.
pub open spec fn asteroid_hits_player(a: Entity, p: Entity) -> bool {
    &&& is_asteroid(a)
    &&& a.position is Some
    &&& a.renderable is Some
    &&& p.position is Some
    &&& p.renderable is Some
    &&& within_radius(
        p.position.unwrap().x as int,
        p.position.unwrap().y as int,
        a.position.unwrap().x as int,
        a.position.unwrap().y as int,
        a.renderable.unwrap().output_width as int + p.renderable.unwrap().output_width as int,
    )
}

/// Whether some player of `s` has damage switched off; the collision pass
/// is skipped entirely in that case.
pub open spec fn invulnerable_present(s: Seq<Entity>) -> bool {
    exists|i: int|
        0 <= i < s.len() && ((#[trigger] s[i]).kind matches Kind::Player(p) && !p.can_take_damage)
}

/// Whether player entity `e` is struck by any asteroid of `s`.
pub open spec fn player_struck(s: Seq<Entity>, e: Entity) -> bool {
    &&& is_player(e)
    &&& e.position is Some
    &&& e.renderable is Some
    &&& exists|j: int| 0 <= j < s.len() && asteroid_hits_player(#[trigger] s[j], e)
}

/// Deletes the player when an asteroid overlaps it; godmode on any player
/// skips the whole pass.
pub struct AstroidCollider;

impl AstroidCollider {
    /// Run the lethal player-versus-asteroid pass against the store.
    pub fn run(&mut self, w: &mut World)
        requires
            old(w).wf(),
        ensures
            final(w).wf(),
            final(w).entities@.len() == old(w).entities@.len(),
            invulnerable_present(old(w).entities@) ==> final(w).entities@ == old(w).entities@,
            !invulnerable_present(old(w).entities@) ==> forall|i: int|
                0 <= i < old(w).entities@.len() ==> final(w).entities@[i] == (if player_struck(
                    old(w).entities@,
                    old(w).entities@[i],
                ) {
                    doom(old(w).entities@[i])
                } else {
                    old(w).entities@[i]
                }),
            final(w).pending@ == old(w).pending@,
            final(w).next_id == old(w).next_id,
            final(w).loaded == old(w).loaded,
            crate::world::player_count(final(w).entities@) == crate::world::player_count(old(w).entities@),
            crate::world::rocket_count(final(w).entities@) == crate::world::rocket_count(old(w).entities@),
            crate::world::data_count(final(w).entities@) == crate::world::data_count(old(w).entities@),
    {
        let n = w.entities.len();
        let mut i: usize = 0;
        while i < n
            invariant
                old(w).wf(),
                *w == *old(w),
                n == w.entities@.len(),
                i <= n,
                forall|k: int|
                    0 <= k < i ==> !((#[trigger] w.entities@[k]).kind matches Kind::Player(p) && !p.can_take_damage),
            decreases n - i,
        {
            let e = w.entities[i];
            match e.kind {
                Kind::Player(p) => {
                    if !p.can_take_damage {
                        proof {
                            assert(invulnerable_present(w.entities@));
                        }
                        return ;
                    }
                },
                _ => {},
            }
            i += 1;
        }
        assert(!invulnerable_present(w.entities@));
        let ghost s0 = w.entities@;
        let mut i: usize = 0;
        while i < n
            invariant
                old(w).wf(),
                !invulnerable_present(s0),
                s0 == old(w).entities@,
                n == w.entities@.len(),
                i <= n,
                w.entities@.len() == old(w).entities@.len(),
                w.pending@ == old(w).pending@,
                w.next_id == old(w).next_id,
                w.loaded == old(w).loaded,
                forall|k: int|
                    0 <= k < i ==> w.entities@[k] == (if player_struck(s0, s0[k]) {
                        doom(s0[k])
                    } else {
                        s0[k]
                    }),
                forall|k: int| i <= k < n ==> w.entities@[k] == s0[k],
                forall|k: int| 0 <= k < n ==> !is_player(s0[k]) ==> w.entities@[k] == s0[k],
                forall|j: int|
                    0 <= j < n ==> entity_ok(#[trigger] w.entities@[j]) && w.entities@[j].id
                        < w.next_id,
                crate::world::player_count(w.entities@) == crate::world::player_count(s0),
                crate::world::rocket_count(w.entities@) == crate::world::rocket_count(s0),
                crate::world::data_count(w.entities@) == crate::world::data_count(s0),
            decreases n - i,
        {
            let e = w.entities[i];
            let is_target = match (e.kind, e.position, e.renderable) {
                (Kind::Player(_), Some(_), Some(_)) => true,
                _ => false,
            };
            if is_target {
                let ppos = e.position.unwrap();
                let pren = e.renderable.unwrap();
                let mut j: usize = 0;
                let mut hit = false;
                while j < n && !hit
                    invariant
                        n == w.entities@.len(),
                        j <= n,
                        e == s0[i as int],
                        is_player(e) && e.position is Some && e.renderable is Some,
                        ppos == e.position.unwrap(),
                        pren == e.renderable.unwrap(),
                        forall|k: int| 0 <= k < n ==> !is_player(s0[k]) ==> w.entities@[k] == s0[k],
                        forall|k: int|
                            0 <= k < n ==> is_asteroid(#[trigger] w.entities@[k]) == is_asteroid(
                                s0[k],
                            ),
                        !hit ==> forall|k: int|
                            0 <= k < j ==> !asteroid_hits_player(#[trigger] s0[k], e),
                        hit ==> exists|k: int|
                            0 <= k < n && asteroid_hits_player(#[trigger] s0[k], e),
                    decreases n - j, (if hit {
                        0int
                    } else {
                        1int
                    }),
                {
                    let a = w.entities[j];
                    let a_ok = match (a.kind, a.position, a.renderable) {
                        (Kind::Asteroid(_), Some(_), Some(_)) => true,
                        _ => false,
                    };
                    let mut this_hit = false;
                    if a_ok {
                        let apos = a.position.unwrap();
                        let aren = a.renderable.unwrap();
                        let wsum: u64 = aren.output_width as u64 + pren.output_width as u64;
                        if check_radius(ppos.x, ppos.y, apos.x, apos.y, wsum) {
                            this_hit = true;
                        }
                    }
                    if this_hit {
                        proof {
                            assert(w.entities@[j as int] == s0[j as int]);
                            assert(asteroid_hits_player(s0[j as int], e));
                        }
                        hit = true;
                    } else {
                        proof {
                            if !is_player(s0[j as int]) {
                                assert(w.entities@[j as int] == s0[j as int]);
                            }
                            assert(!asteroid_hits_player(s0[j as int], e));
                        }
                        j += 1;
                    }
                }
                if hit {
                    let ghost pre = w.entities@;
                    let e2 = Entity { doomed: true, ..e };
                    w.entities[i] = e2;
                    proof {
                        assert(e2 == doom(s0[i as int]));
                        assert(player_struck(s0, s0[i as int]));
                        lemma_count_update(pre, pred_player(), i as int, e2);
                        lemma_count_update(pre, pred_rocket(), i as int, e2);
                        lemma_count_update(pre, pred_data(), i as int, e2);
                    }
                } else {
                    proof {
                        assert(!player_struck(s0, s0[i as int]));
                    }
                }
            } else {
                proof {
                    assert(!player_struck(s0, s0[i as int]));
                }
            }
            i += 1;
        }
    }
}

} // verus!
