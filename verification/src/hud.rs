//! The read-only projection the display layer consumes each tick: the
//! HUD numbers, and one draw command per sprite. Emitting a sprite's
//! command advances its animation frame.

use vstd::prelude::*;

use crate::asteroid::invulnerable_present;
use crate::components::{Renderable, TextureName};
use crate::game::find_data;
use crate::world::{
    entity_ok, is_data, lemma_count_update, pred_data, pred_player, pred_rocket, Entity, Kind,
    World,
};

verus! {

/// The per-tick snapshot the display layer draws as text.
#[derive(Clone, Copy, PartialEq, Eq, Structural, Debug)]
pub struct Hud {
    pub score: u32,
    pub level: u32,
    pub godmode: bool,
    pub entity_count: usize,
    pub has_data: bool,
}

/// One sprite to draw: the source frame inside the strip, the on-screen
/// destination centered on the entity, and the display rotation.
#[derive(Clone, Copy, PartialEq, Eq, Structural, Debug)]
pub struct SpriteDraw {
    pub texture_name: TextureName,
    pub src_x: u64,
    pub src_w: u32,
    pub src_h: u32,
    pub center_x: i32,
    pub center_y: i32,
    pub out_w: u32,
    pub out_h: u32,
    pub rotation: i32,
}

/// Whether an entity is drawn: it carries both a sprite and a position.
pub open spec fn drawn(e: Entity) -> bool {
    e.renderable is Some && e.position is Some
}

/// The draw command a drawn entity produces.
pub open spec fn sprite_of(e: Entity) -> SpriteDraw {
    let pos = e.position.unwrap();
    let ren = e.renderable.unwrap();
    SpriteDraw {
        texture_name: ren.texture_name,
        src_x: (ren.input_width as int * ren.frame as int) as u64,
        src_w: ren.input_width,
        src_h: ren.input_height,
        center_x: pos.x,
        center_y: pos.y,
        out_w: ren.output_width,
        out_h: ren.output_height,
        rotation: ren.render_rotation,
    }
}

/// The entity after its sprite was drawn: the frame advances, modulo the
/// strip length.
pub open spec fn frame_advanced(e: Entity) -> Entity {
    match (e.position, e.renderable) {
        (Some(_), Some(ren)) => Entity {
            renderable: Some(
                Renderable {
                    frame: ((ren.frame + 1) as int % ren.total_frames as int) as u32,
                    ..ren
                },
            ),
            ..e
        },
        _ => e,
    }
}

/// The draw commands of a table, in table order.
pub open spec fn draw_list(s: Seq<Entity>) -> Seq<SpriteDraw>
    decreases s.len(),
{
    if s.len() == 0 {
        Seq::empty()
    } else if drawn(s.last()) {
        draw_list(s.drop_last()).push(sprite_of(s.last()))
    } else {
        draw_list(s.drop_last())
    }
}

/// Take the HUD snapshot: score and level from the singleton (zero when
/// none stands), the godmode flag, and the live entity count.
pub fn hud_snapshot(w: &World) -> (h: Hud)
    requires
        w.wf(),
    ensures
        h.entity_count == w.entities@.len(),
        (match find_data(w.entities@) {
            Some(g) => h.has_data && h.score == g.score && h.level == g.level,
            None => !h.has_data && h.score == 0 && h.level == 0,
        }),
        h.godmode == invulnerable_present(w.entities@),
{
    let n = w.entities.len();
    let mut score: u32 = 0;
    let mut level: u32 = 0;
    let mut has_data = false;
    let mut godmode = false;
    let mut i: usize = 0;
    while i < n
        invariant
            i <= n,
            n == w.entities@.len(),
            !has_data ==> forall|k: int| 0 <= k < i ==> !is_data(#[trigger] w.entities@[k]),
            !has_data ==> score == 0 && level == 0,
            has_data ==> (find_data(w.entities@) matches Some(g) && score == g.score && level
                == g.level),
            godmode ==> invulnerable_present(w.entities@),
            !godmode ==> forall|k: int|
                0 <= k < i ==> !((#[trigger] w.entities@[k]).kind matches Kind::Player(p)
                    && !p.can_take_damage),
        decreases n - i,
    {
        let e = w.entities[i];
        match e.kind {
            Kind::Data(g) => {
                if !has_data {
                    proof {
                        crate::game::lemma_find_data_skip(w.entities@, i as int);
                        assert(w.entities@.skip(i as int)[0] == w.entities@[i as int]);
                    }
                    has_data = true;
                    score = g.score;
                    level = g.level;
                }
            },
            Kind::Player(p) => {
                if !p.can_take_damage {
                    godmode = true;
                }
            },
            _ => {},
        }
        i += 1;
    }
    proof {
        if !has_data {
            crate::game::lemma_find_data_skip(w.entities@, n as int);
            assert(w.entities@.skip(n as int) =~= Seq::<Entity>::empty());
        }
    }
    Hud { score, level, godmode, entity_count: n, has_data }
}

/// The fixed instructional strings of the HUD, in display order: the
/// godmode hint (the display layer appends the flag), the score and level
/// captions (the values follow), the entity-count caption, and the
/// burst-key hint.
pub fn hud_instructions() -> (v: Vec<&'static str>)
    ensures
        v@.len() == 5,
        v@[0]@ == "Press C to toggle godmode : "@,
        v@[1]@ == "Score: "@,
        v@[2]@ == "Level: "@,
        v@[3]@ == "Entity amount: "@,
        v@[4]@ == "Press V to spawn 20 enemies"@,
{
    let mut v: Vec<&'static str> = Vec::new();
    v.push("Press C to toggle godmode : ");
    v.push("Score: ");
    v.push("Level: ");
    v.push("Entity amount: ");
    v.push("Press V to spawn 20 enemies");
    v
}

/// Emit one draw command per drawn entity, advancing each one's frame.
pub fn render_frame(w: &mut World) -> (cmds: Vec<SpriteDraw>)
    requires
        old(w).wf(),
    ensures
        final(w).wf(),
        cmds@ == draw_list(old(w).entities@),
        final(w).entities@.len() == old(w).entities@.len(),
        forall|i: int|
            0 <= i < old(w).entities@.len() ==> final(w).entities@[i] == frame_advanced(
                old(w).entities@[i],
            ),
        final(w).pending@ == old(w).pending@,
        final(w).next_id == old(w).next_id,
        final(w).loaded == old(w).loaded,
{
    let n = w.entities.len();
    let mut cmds: Vec<SpriteDraw> = Vec::new();
    let mut i: usize = 0;
    while i < n
        invariant
            old(w).wf(),
            n == w.entities@.len(),
            i <= n,
            w.entities@.len() == old(w).entities@.len(),
            w.pending@ == old(w).pending@,
            w.next_id == old(w).next_id,
            w.loaded == old(w).loaded,
            cmds@ == draw_list(old(w).entities@.take(i as int)),
            forall|j: int|
                0 <= j < i ==> w.entities@[j] == frame_advanced(old(w).entities@[j]),
            forall|j: int| i <= j < n ==> w.entities@[j] == old(w).entities@[j],
            forall|j: int|
                0 <= j < n ==> entity_ok(#[trigger] w.entities@[j]) && w.entities@[j].id
                    < w.next_id,
            crate::world::player_count(w.entities@) == crate::world::player_count(
                old(w).entities@,
            ),
            crate::world::rocket_count(w.entities@) == crate::world::rocket_count(
                old(w).entities@,
            ),
            crate::world::data_count(w.entities@) == crate::world::data_count(old(w).entities@),
        decreases n - i,
    {
        let e = w.entities[i];
        proof {
            assert(old(w).entities@.take(i as int + 1).drop_last() =~= old(w).entities@.take(
                i as int,
            ));
            assert(old(w).entities@.take(i as int + 1).last() == old(w).entities@[i as int]);
        }
        match (e.position, e.renderable) {
            (Some(pos), Some(ren)) => {
                proof {
                    assert((ren.input_width as u64) * (ren.frame as u64) <= 0xFFFF_FFFF_FFFF_FFFF)
                        by (nonlinear_arith)
                        requires
                            ren.input_width as u64 <= 0xFFFF_FFFFu64,
                            ren.frame as u64 <= 0xFFFF_FFFFu64,
                    ;
                }
                let cmd = SpriteDraw {
                    texture_name: ren.texture_name,
                    src_x: (ren.input_width as u64) * (ren.frame as u64),
                    src_w: ren.input_width,
                    src_h: ren.input_height,
                    center_x: pos.x,
                    center_y: pos.y,
                    out_w: ren.output_width,
                    out_h: ren.output_height,
                    rotation: ren.render_rotation,
                };
                cmds.push(cmd);
                let e2 = Entity {
                    renderable: Some(
                        Renderable { frame: (ren.frame + 1) % ren.total_frames, ..ren },
                    ),
                    ..e
                };
                let ghost pre = w.entities@;
                w.entities[i] = e2;
                proof {
                    assert(cmd == sprite_of(e));
                    assert(e2 == frame_advanced(e));
                    lemma_count_update(pre, pred_player(), i as int, e2);
                    lemma_count_update(pre, pred_rocket(), i as int, e2);
                    lemma_count_update(pre, pred_data(), i as int, e2);
                }
            },
            _ => {
                proof {
                    assert(frame_advanced(e) == e);
                    assert(!drawn(e));
                }
            },
        }
        i += 1;
    }
    proof {
        assert(old(w).entities@.take(n as int) =~= old(w).entities@);
    }
    cmds
}

} // verus!
