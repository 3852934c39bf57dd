//! The game rules around the store: world loading, player motion and
//! aiming, rocket firing, asteroid spawning, and the per-tick update that
//! reads the input buffer and drives them all.

use vstd::prelude::*;

use crate::components::{
    Asteroid, Direction, GameData, Player, Position, Renderable, Rocket, TextureName,
};
use crate::utils::{is_key_pressed, key_up, KeyManager};
use crate::world::{
    asteroid_count, data_count, entity_ok, is_asteroid, is_data, is_player, lemma_count_push,
    lemma_count_update, player_count, pred_asteroid, pred_data, pred_player, pred_rocket,
    rocket_count, Entity, Kind, World,
};
use crate::{
    check_radius, clamp_i32, clamp_to_i32, MAX_ROCKETS, PLAYER_MOVE_SPEED, SCREEN_HEIGHT,
    SCREEN_WIDTH,
};

verus! {

/// Relies on rand's `Rng::gen_range` (through `thread_rng`) over a
/// half-open range: the result is sampled uniformly from `[lo, hi)`, and
/// the call panics only on an empty range, which the precondition rules
/// out.
#[verifier::external_body]
fn rand_range(lo: i32, hi: i32) -> (r: i32)
    requires
        lo < hi,
    ensures
        lo <= r < hi,
{
    rand::Rng::gen_range(&mut rand::thread_rng(), lo..hi)
}

/// A freshly spawned asteroid of size multiplier `m` at `position`.
pub open spec fn asteroid_entity(id: u64, position: Position, m: u32) -> Entity {
    Entity {
        id,
        doomed: false,
        position: Some(position),
        renderable: Some(
            Renderable {
                texture_name: TextureName::Enemy,
                input_width: 33,
                input_height: 45,
                output_width: (33 * m as int) as u32,
                output_height: (45 * m as int) as u32,
                frame: 1,
                total_frames: 12,
                render_rotation: 0,
            },
        ),
        kind: Kind::Asteroid(Asteroid { speed: 4, rotation_speed: 500, size_multiplier: m }),
    }
}

/// A freshly fired rocket at `position` (rotation already offset to the
/// sprite's forward axis).
pub open spec fn rocket_entity(id: u64, position: Position) -> Entity {
    Entity {
        id,
        doomed: false,
        position: Some(position),
        renderable: Some(
            Renderable {
                texture_name: TextureName::Rocket,
                input_width: 17,
                input_height: 61,
                output_width: 40,
                output_height: 61,
                frame: 0,
                total_frames: 1,
                render_rotation: 0,
            },
        ),
        kind: Kind::Rocket(Rocket { speed: 10 }),
    }
}

/// The player ship at its fixed spawn, facing up, vulnerable, at rest.
pub open spec fn player_entity(id: u64) -> Entity {
    Entity {
        id,
        doomed: false,
        position: Some(Position { x: 50, y: 50, rot: 270 }),
        renderable: Some(
            Renderable {
                texture_name: TextureName::Marco,
                input_width: 32,
                input_height: 42,
                output_width: 32,
                output_height: 42,
                frame: 1,
                total_frames: 9,
                render_rotation: 0,
            },
        ),
        kind: Kind::Player(Player { speed: 0, direction: Direction::Right, can_take_damage: true }),
    }
}

/// The score singleton as a fresh world load creates it.
pub open spec fn data_entity(id: u64) -> Entity {
    Entity {
        id,
        doomed: false,
        position: None,
        renderable: None,
        kind: Kind::Data(GameData { score: 0, level: 1 }),
    }
}

/// What a world load puts into an empty store: the player, one seed
/// asteroid of size 2, and the score singleton.
pub open spec fn reload_base(id0: int) -> Seq<Entity> {
    seq![
        player_entity(id0 as u64),
        asteroid_entity((id0 + 1) as u64, Position { x: 200, y: 400, rot: 45 }, 2),
        data_entity((id0 + 2) as u64),
    ]
}

/// Append one asteroid of size multiplier `asteroid_size_mult` to the
/// store at `position`.
pub fn create_asteroid(ecs: &mut World, position: Position, asteroid_size_mult: u32)
    requires
        old(ecs).wf(),
        1 <= asteroid_size_mult <= 5,
        old(ecs).next_id < u64::MAX,
    ensures
        final(ecs).wf(),
        final(ecs).entities@ == old(ecs).entities@.push(
            asteroid_entity(old(ecs).next_id, position, asteroid_size_mult),
        ),
        final(ecs).pending@ == old(ecs).pending@,
        final(ecs).next_id == old(ecs).next_id + 1,
        final(ecs).loaded == old(ecs).loaded,
{
    let m = asteroid_size_mult;
    let e = Entity {
        id: ecs.next_id,
        doomed: false,
        position: Some(position),
        renderable: Some(
            Renderable {
                texture_name: TextureName::Enemy,
                input_width: 33,
                input_height: 45,
                output_width: 33 * m,
                output_height: 45 * m,
                frame: 1,
                total_frames: 12,
                render_rotation: 0,
            },
        ),
        kind: Kind::Asteroid(Asteroid { speed: 4, rotation_speed: 500, size_multiplier: m }),
    };
    let ghost pre = ecs.entities@;
    ecs.entities.push(e);
    ecs.next_id = ecs.next_id + 1;
    proof {
        assert(e == asteroid_entity(old(ecs).next_id, position, m));
        lemma_count_push(pre, pred_player(), e);
        lemma_count_push(pre, pred_rocket(), e);
        lemma_count_push(pre, pred_data(), e);
    }
}

/// Fire a rocket at `position` unless the live-rocket cap is already
/// reached; a held cap leaves the store unchanged.
pub fn fire_rocket(ecs: &mut World, position: Position)
    requires
        old(ecs).wf(),
        old(ecs).next_id < u64::MAX,
    ensures
        final(ecs).wf(),
        rocket_count(old(ecs).entities@) >= MAX_ROCKETS ==> *final(ecs) == *old(ecs),
        rocket_count(old(ecs).entities@) < MAX_ROCKETS ==> {
            &&& final(ecs).entities@ == old(ecs).entities@.push(
                rocket_entity(old(ecs).next_id, position),
            )
            &&& final(ecs).pending@ == old(ecs).pending@
            &&& final(ecs).next_id == old(ecs).next_id + 1
            &&& final(ecs).loaded == old(ecs).loaded
        },
{
    let rockets = ecs.count_rockets();
    if rockets > MAX_ROCKETS - 1 {
        return ;
    }
    let e = Entity {
        id: ecs.next_id,
        doomed: false,
        position: Some(position),
        renderable: Some(
            Renderable {
                texture_name: TextureName::Rocket,
                input_width: 17,
                input_height: 61,
                output_width: 40,
                output_height: 61,
                frame: 0,
                total_frames: 1,
                render_rotation: 0,
            },
        ),
        kind: Kind::Rocket(Rocket { speed: 10 }),
    };
    let ghost pre = ecs.entities@;
    ecs.entities.push(e);
    ecs.next_id = ecs.next_id + 1;
    proof {
        assert(e == rocket_entity(old(ecs).next_id, position));
        lemma_count_push(pre, pred_player(), e);
        lemma_count_push(pre, pred_rocket(), e);
        lemma_count_push(pre, pred_data(), e);
    }
}

/// Populate an empty store with the player at its fixed spawn, one seed
/// asteroid, and a fresh score singleton (score 0, level 1).
pub fn load_world(ecs: &mut World)
    requires
        old(ecs).wf(),
        old(ecs).entities@.len() == 0,
        old(ecs).pending@.len() == 0,
        old(ecs).next_id <= u64::MAX - 3,
    ensures
        final(ecs).wf(),
        final(ecs).entities@ == reload_base(old(ecs).next_id as int),
        final(ecs).pending@.len() == 0,
        final(ecs).next_id == old(ecs).next_id + 3,
        final(ecs).loaded,
{
    let p = Entity {
        id: ecs.next_id,
        doomed: false,
        position: Some(Position { x: 50, y: 50, rot: 270 }),
        renderable: Some(
            Renderable {
                texture_name: TextureName::Marco,
                input_width: 32,
                input_height: 42,
                output_width: 32,
                output_height: 42,
                frame: 1,
                total_frames: 9,
                render_rotation: 0,
            },
        ),
        kind: Kind::Player(Player { speed: 0, direction: Direction::Right, can_take_damage: true }),
    };
    let ghost pre0 = ecs.entities@;
    ecs.entities.push(p);
    ecs.next_id = ecs.next_id + 1;
    proof {
        assert(p == player_entity(old(ecs).next_id));
        crate::world::lemma_count_nonneg(pre0, pred_player());
        crate::world::lemma_count_nonneg(pre0, pred_rocket());
        crate::world::lemma_count_nonneg(pre0, pred_data());
        lemma_count_push(pre0, pred_player(), p);
        lemma_count_push(pre0, pred_rocket(), p);
        lemma_count_push(pre0, pred_data(), p);
    }
    create_asteroid(ecs, Position { x: 200, y: 400, rot: 45 }, 2);
    proof {
        let s1 = pre0.push(p);
        let ast = asteroid_entity((old(ecs).next_id + 1) as u64, Position { x: 200, y: 400, rot: 45 }, 2);
        lemma_count_push(s1, pred_player(), ast);
        lemma_count_push(s1, pred_rocket(), ast);
        lemma_count_push(s1, pred_data(), ast);
    }
    let g = Entity {
        id: ecs.next_id,
        doomed: false,
        position: None,
        renderable: None,
        kind: Kind::Data(GameData { score: 0, level: 1 }),
    };
    let ghost pre1 = ecs.entities@;
    ecs.entities.push(g);
    ecs.next_id = ecs.next_id + 1;
    ecs.loaded = true;
    proof {
        assert(g == data_entity((old(ecs).next_id + 2) as u64));
        lemma_count_push(pre1, pred_player(), g);
        lemma_count_push(pre1, pred_rocket(), g);
        lemma_count_push(pre1, pred_data(), g);
        assert(ecs.entities@ =~= reload_base(old(ecs).next_id as int));
    }
}

/// One coordinate wrapped past the screen edge: leaving on one side
/// re-enters from the other.
pub open spec fn wrap_coord(v: int, dim: int) -> int {
    if v > dim {
        v - dim
    } else if v < 0 {
        v + dim
    } else {
        v
    }
}

/// One wrap lands inside `[0, dim]`, where the wrap is the identity: a
/// second application with zero velocity changes nothing.
pub proof fn lemma_wrap_idempotent(v: int, dim: int)
    requires
        0 < dim,
        -dim <= v <= 2 * dim,
    ensures
        0 <= wrap_coord(v, dim) <= dim,
        wrap_coord(wrap_coord(v, dim), dim) == wrap_coord(v, dim),
{
}

/// One motion tick of the player: offset the position by the speed along
/// the cardinal direction and wrap around the screen edges. The rotation
/// is untouched. Entities that are not players with a position are left
/// as they are.
pub open spec fn player_moved(e: Entity) -> Entity {
    match (e.kind, e.position) {
        (Kind::Player(p), Some(pos)) => {
            let dx = match p.direction {
                Direction::Left => -(p.speed as int),
                Direction::Right => p.speed as int,
                _ => 0int,
            };
            let dy = match p.direction {
                Direction::Up => -(p.speed as int),
                Direction::Down => p.speed as int,
                _ => 0int,
            };
            let nx = wrap_coord(pos.x + dx, SCREEN_WIDTH as int);
            let ny = wrap_coord(pos.y + dy, SCREEN_HEIGHT as int);
            Entity { position: Some(Position { x: nx as i32, y: ny as i32, rot: pos.rot }), ..e }
        },
        _ => e,
    }
}

/// The wrap with zero speed is a no-op on a well-formed player entity.
pub proof fn lemma_wrap_zero_noop(e: Entity)
    requires
        entity_ok(e),
        e.kind matches Kind::Player(p) && p.speed == 0,
    ensures
        player_moved(e) == e,
{
}

/// Move the player one tick, wrapping around the screen edges.
pub fn update_player(ecs: &mut World)
    requires
        old(ecs).wf(),
    ensures
        final(ecs).wf(),
        final(ecs).entities@.len() == old(ecs).entities@.len(),
        forall|i: int|
            0 <= i < old(ecs).entities@.len() ==> final(ecs).entities@[i] == player_moved(
                old(ecs).entities@[i],
            ),
        final(ecs).pending@ == old(ecs).pending@,
        final(ecs).next_id == old(ecs).next_id,
        final(ecs).loaded == old(ecs).loaded,
        player_count(final(ecs).entities@) == player_count(old(ecs).entities@),
        rocket_count(final(ecs).entities@) == rocket_count(old(ecs).entities@),
        data_count(final(ecs).entities@) == data_count(old(ecs).entities@),
{
    let n = ecs.entities.len();
    let mut i: usize = 0;
    while i < n
        invariant
            old(ecs).wf(),
            n == ecs.entities@.len(),
            i <= n,
            ecs.entities@.len() == old(ecs).entities@.len(),
            ecs.pending@ == old(ecs).pending@,
            ecs.next_id == old(ecs).next_id,
            ecs.loaded == old(ecs).loaded,
            forall|j: int| 0 <= j < i ==> ecs.entities@[j] == player_moved(old(ecs).entities@[j]),
            forall|j: int| i <= j < n ==> ecs.entities@[j] == old(ecs).entities@[j],
            forall|j: int|
                0 <= j < n ==> entity_ok(#[trigger] ecs.entities@[j]) && ecs.entities@[j].id
                    < ecs.next_id,
            player_count(ecs.entities@) == player_count(old(ecs).entities@),
            rocket_count(ecs.entities@) == rocket_count(old(ecs).entities@),
            data_count(ecs.entities@) == data_count(old(ecs).entities@),
        decreases n - i,
    {
        let e = ecs.entities[i];
        match (e.kind, e.position) {
            (Kind::Player(p), Some(pos)) => {
                let mut nx: i32 = pos.x;
                let mut ny: i32 = pos.y;
                match p.direction {
                    Direction::Left => {
                        nx = nx - p.speed;
                    },
                    Direction::Right => {
                        nx = nx + p.speed;
                    },
                    Direction::Up => {
                        ny = ny - p.speed;
                    },
                    Direction::Down => {
                        ny = ny + p.speed;
                    },
                }
                if nx > SCREEN_WIDTH {
                    nx = nx - SCREEN_WIDTH;
                }
                if nx < 0 {
                    nx = nx + SCREEN_WIDTH;
                }
                if ny > SCREEN_HEIGHT {
                    ny = ny - SCREEN_HEIGHT;
                }
                if ny < 0 {
                    ny = ny + SCREEN_HEIGHT;
                }
                let e2 = Entity { position: Some(Position { x: nx, y: ny, rot: pos.rot }), ..e };
                let ghost pre = ecs.entities@;
                ecs.entities[i] = e2;
                proof {
                    assert(e2 == player_moved(e));
                    lemma_count_update(pre, pred_player(), i as int, e2);
                    lemma_count_update(pre, pred_rocket(), i as int, e2);
                    lemma_count_update(pre, pred_data(), i as int, e2);
                }
            },
            _ => {
                proof {
                    assert(player_moved(e) == e);
                }
            },
        }
        i += 1;
    }
}

/// The player's intent after one reading of the movement and godmode
/// keys: direction and full speed from the first held movement key in the
/// priority order D, A, W, S; rest otherwise; damage toggled when the
/// godmode key was pressed.
pub open spec fn intent_player(p: Player, d: bool, a: bool, wk: bool, sk: bool, c: bool) -> Player {
    let p1 = if d {
        Player { direction: Direction::Right, speed: PLAYER_MOVE_SPEED, ..p }
    } else if a {
        Player { direction: Direction::Left, speed: PLAYER_MOVE_SPEED, ..p }
    } else if wk {
        Player { direction: Direction::Up, speed: PLAYER_MOVE_SPEED, ..p }
    } else if sk {
        Player { direction: Direction::Down, speed: PLAYER_MOVE_SPEED, ..p }
    } else {
        Player { speed: 0, ..p }
    };
    if c {
        Player { can_take_damage: !p1.can_take_damage, ..p1 }
    } else {
        p1
    }
}

/// The level advanced by one, saturating at the machine range.
pub open spec fn level_bumped(g: GameData) -> GameData {
    GameData {
        level: if g.level < u32::MAX {
            (g.level + 1) as u32
        } else {
            g.level
        },
        ..g
    }
}

/// The per-entity effect of one update: players take the key intent, the
/// score singleton takes the level advance when a wave begins, everything
/// else is untouched.
pub open spec fn tickwork(e: Entity, bump: bool, d: bool, a: bool, wk: bool, sk: bool, c: bool) -> Entity {
    match e.kind {
        Kind::Player(p) => Entity { kind: Kind::Player(intent_player(p, d, a, wk, sk, c)), ..e },
        Kind::Data(g) => if bump {
            Entity { kind: Kind::Data(level_bumped(g)), ..e }
        } else {
            e
        },
        _ => e,
    }
}

/// `tickwork` applied to every entity of `s`.
pub open spec fn apply_work(s: Seq<Entity>, bump: bool, d: bool, a: bool, wk: bool, sk: bool, c: bool) -> Seq<Entity>
    decreases s.len(),
{
    if s.len() == 0 {
        Seq::empty()
    } else {
        apply_work(s.drop_last(), bump, d, a, wk, sk, c).push(
            tickwork(s.last(), bump, d, a, wk, sk, c),
        )
    }
}

pub proof fn lemma_apply_work_index(s: Seq<Entity>, bump: bool, d: bool, a: bool, wk: bool, sk: bool, c: bool)
    ensures
        apply_work(s, bump, d, a, wk, sk, c).len() == s.len(),
        forall|k: int|
            0 <= k < s.len() ==> apply_work(s, bump, d, a, wk, sk, c)[k] == tickwork(
                #[trigger] s[k],
                bump,
                d,
                a,
                wk,
                sk,
                c,
            ),
    decreases s.len(),
{
    if s.len() > 0 {
        lemma_apply_work_index(s.drop_last(), bump, d, a, wk, sk, c);
        assert(forall|k: int| 0 <= k < s.len() - 1 ==> s.drop_last()[k] == #[trigger] s[k]);
        assert(s.last() == s[s.len() - 1]);
    }
}

/// `tickwork` never changes an entity's role, so role counts survive it.
pub proof fn lemma_apply_work_count(
    s: Seq<Entity>,
    bump: bool,
    d: bool,
    a: bool,
    wk: bool,
    sk: bool,
    c: bool,
    f: spec_fn(Entity) -> bool,
)
    requires
        forall|x: Entity| f(#[trigger] tickwork(x, bump, d, a, wk, sk, c)) == f(x),
    ensures
        crate::world::count_matching(apply_work(s, bump, d, a, wk, sk, c), f)
            == crate::world::count_matching(s, f),
    decreases s.len(),
{
    if s.len() > 0 {
        lemma_apply_work_count(s.drop_last(), bump, d, a, wk, sk, c, f);
        lemma_count_push(
            apply_work(s.drop_last(), bump, d, a, wk, sk, c),
            f,
            tickwork(s.last(), bump, d, a, wk, sk, c),
        );
    }
}

/// The score singleton's data, at its first occurrence in the table.
pub open spec fn find_data(s: Seq<Entity>) -> Option<GameData>
    decreases s.len(),
{
    if s.len() == 0 {
        None
    } else {
        match s[0].kind {
            Kind::Data(g) => Some(g),
            _ => find_data(s.drop_first()),
        }
    }
}

pub proof fn lemma_find_data_skip(s: Seq<Entity>, i: int)
    requires
        0 <= i <= s.len(),
        forall|k: int| 0 <= k < i ==> !is_data(#[trigger] s[k]),
    ensures
        find_data(s) == find_data(s.skip(i)),
    decreases i,
{
    if i == 0 {
        assert(s.skip(0) =~= s);
    } else {
        assert(s.drop_first() =~= s.skip(1));
        assert(forall|k: int| 0 <= k < i - 1 ==> s.skip(1)[k] == #[trigger] s[k + 1]);
        lemma_find_data_skip(s.skip(1), i - 1);
        assert(s.skip(1).skip(i - 1) =~= s.skip(i));
    }
}

/// The position of the first player of the table that carries one.
pub open spec fn find_player_pos(s: Seq<Entity>) -> Option<Position>
    decreases s.len(),
{
    if s.len() == 0 {
        None
    } else if is_player(s[0]) && s[0].position is Some {
        Some(s[0].position.unwrap())
    } else {
        find_player_pos(s.drop_first())
    }
}

proof fn lemma_find_player_pos_skip(s: Seq<Entity>, i: int)
    requires
        0 <= i <= s.len(),
        forall|k: int| 0 <= k < i ==> !(is_player(#[trigger] s[k]) && s[k].position is Some),
    ensures
        find_player_pos(s) == find_player_pos(s.skip(i)),
    decreases i,
{
    if i == 0 {
        assert(s.skip(0) =~= s);
    } else {
        assert(s.drop_first() =~= s.skip(1));
        assert(forall|k: int| 0 <= k < i - 1 ==> s.skip(1)[k] == #[trigger] s[k + 1]);
        lemma_find_player_pos_skip(s.skip(1), i - 1);
        assert(s.skip(1).skip(i - 1) =~= s.skip(i));
    }
}

/// Whether `e` is a wave-spawned asteroid with handle `id`: some size in
/// `[1, 5]` at some position inside the 50-pixel spawn margin, with a
/// rotation in `[0, 360)`; unless the hundred-attempt relaxation admitted
/// the candidate (`relaxed`), it lies at least 150 pixels from the player
/// at `ppos`.
pub open spec fn spawned_entity_ok(e: Entity, id: int, ppos: Option<Position>, relaxed: bool) -> bool {
    exists|pos: Position, m: u32|
        {
            &&& 1 <= m <= 5
            &&& 50 <= pos.x < SCREEN_WIDTH - 50
            &&& 50 <= pos.y < SCREEN_HEIGHT - 50
            &&& 0 <= pos.rot < 360
            &&& (match ppos {
                Some(pp) => relaxed || !crate::within_radius(
                    pp.x as int,
                    pp.y as int,
                    pos.x as int,
                    pos.y as int,
                    300,
                ),
                None => true,
            })
            &&& e == #[trigger] asteroid_entity(id as u64, pos, m)
        }
}

/// A wave-spawned entity is an undoomed asteroid and nothing else.
pub proof fn lemma_spawned_shape(e: Entity, id: int, ppos: Option<Position>, relaxed: bool)
    requires
        spawned_entity_ok(e, id, ppos, relaxed),
    ensures
        is_asteroid(e),
        !is_player(e),
        !crate::world::is_rocket(e),
        !is_data(e),
        !e.doomed,
{
    let (pos, m): (Position, u32) = choose|pos: Position, m: u32|
        {
            &&& 1 <= m <= 5
            &&& 50 <= pos.x < SCREEN_WIDTH - 50
            &&& 50 <= pos.y < SCREEN_HEIGHT - 50
            &&& 0 <= pos.rot < 360
            &&& (match ppos {
                Some(pp) => relaxed || !crate::within_radius(
                    pp.x as int,
                    pp.y as int,
                    pos.x as int,
                    pos.y as int,
                    300,
                ),
                None => true,
            })
            &&& e == #[trigger] asteroid_entity(id as u64, pos, m)
        };
    assert(e.kind is Asteroid);
}

/// How many asteroids a beginning wave spawns: none unless the field is
/// clear of asteroids; then one more than a third of the advanced level,
/// and none at all if the score singleton is missing.
pub open spec fn wave_count(base: Seq<Entity>) -> int {
    if asteroid_count(base) < 1 {
        match find_data(base) {
            Some(g) => level_bumped(g).level as int / 3 + 1,
            None => 0,
        }
    } else {
        0
    }
}

/// A fresh world load holds exactly one player, one asteroid, one score
/// singleton and no rockets.
pub proof fn lemma_reload_base_counts(id0: int)
    ensures
        player_count(reload_base(id0)) == 1,
        rocket_count(reload_base(id0)) == 0,
        data_count(reload_base(id0)) == 1,
        asteroid_count(reload_base(id0)) == 1,
{
    let s = reload_base(id0);
    let p = player_entity(id0 as u64);
    let ast = asteroid_entity((id0 + 1) as u64, Position { x: 200, y: 400, rot: 45 }, 2);
    let g = data_entity((id0 + 2) as u64);
    assert(s =~= seq![p, ast].push(g));
    assert(seq![p, ast] =~= seq![p].push(ast));
    assert(seq![p] =~= Seq::<Entity>::empty().push(p));
    lemma_count_push(Seq::<Entity>::empty(), pred_player(), p);
    lemma_count_push(seq![p], pred_player(), ast);
    lemma_count_push(seq![p, ast], pred_player(), g);
    lemma_count_push(Seq::<Entity>::empty(), pred_rocket(), p);
    lemma_count_push(seq![p], pred_rocket(), ast);
    lemma_count_push(seq![p, ast], pred_rocket(), g);
    lemma_count_push(Seq::<Entity>::empty(), pred_data(), p);
    lemma_count_push(seq![p], pred_data(), ast);
    lemma_count_push(seq![p, ast], pred_data(), g);
    lemma_count_push(Seq::<Entity>::empty(), pred_asteroid(), p);
    lemma_count_push(seq![p], pred_asteroid(), ast);
    lemma_count_push(seq![p, ast], pred_asteroid(), g);
}

/// The position of the first player in the table that carries one.
fn find_player_pos_vec(v: &Vec<Entity>) -> (r: Option<Position>)
    ensures
        r == find_player_pos(v@),
{
    let n = v.len();
    let mut i: usize = 0;
    while i < n
        invariant
            i <= n,
            n == v@.len(),
            forall|k: int| 0 <= k < i ==> !(is_player(#[trigger] v@[k]) && v@[k].position is Some),
        decreases n - i,
    {
        let e = v[i];
        match (e.kind, e.position) {
            (Kind::Player(_), Some(pos)) => {
                proof {
                    lemma_find_player_pos_skip(v@, i as int);
                    assert(v@.skip(i as int)[0] == v@[i as int]);
                }
                return Some(pos);
            },
            _ => {},
        }
        i += 1;
    }
    proof {
        lemma_find_player_pos_skip(v@, n as int);
        assert(v@.skip(n as int) =~= Seq::<Entity>::empty());
    }
    None
}

/// How many asteroids the beginning wave spawns, before any burst.
fn compute_wave(ecs: &World) -> (n: u32)
    requires
        ecs.wf(),
    ensures
        n as int == wave_count(ecs.entities@),
        n <= 0x5555_5556u32,
{
    let asteroids = ecs.count_asteroids();
    if asteroids >= 1 {
        return 0;
    }
    let nn = ecs.entities.len();
    let mut i: usize = 0;
    while i < nn
        invariant
            i <= nn,
            nn == ecs.entities@.len(),
            asteroid_count(ecs.entities@) < 1,
            forall|k: int| 0 <= k < i ==> !is_data(#[trigger] ecs.entities@[k]),
        decreases nn - i,
    {
        let e = ecs.entities[i];
        match e.kind {
            Kind::Data(g) => {
                let lv: u32 = if g.level < u32::MAX {
                    g.level + 1
                } else {
                    g.level
                };
                proof {
                    lemma_find_data_skip(ecs.entities@, i as int);
                    assert(ecs.entities@.skip(i as int)[0] == ecs.entities@[i as int]);
                    assert(find_data(ecs.entities@) == Some(g));
                    assert(lv == level_bumped(g).level);
                }
                return lv / 3 + 1;
            },
            _ => {},
        }
        i += 1;
    }
    proof {
        lemma_find_data_skip(ecs.entities@, nn as int);
        assert(ecs.entities@.skip(nn as int) =~= Seq::<Entity>::empty());
    }
    0
}

/// Consume the edge-triggered keys that were held this tick: fire,
/// godmode toggle, and burst. Every other key keeps its state.
fn consume_edge_keys(key_manager: &mut KeyManager, kv: bool, kc: bool, ksp: bool)
    requires
        kv == old(key_manager).spec_pressed("V"@),
        kc == old(key_manager).spec_pressed("C"@),
        ksp == old(key_manager).spec_pressed("Space"@),
    ensures
        !final(key_manager).spec_pressed("Space"@),
        !final(key_manager).spec_pressed("C"@),
        !final(key_manager).spec_pressed("V"@),
        forall|q: Seq<char>|
            q != "Space"@ && q != "C"@ && q != "V"@ ==> #[trigger] final(key_manager).spec_held(q)
                == old(key_manager).spec_held(q),
{
    proof {
        reveal_strlit("V");
        reveal_strlit("C");
        reveal_strlit("Space");
    }
    if kv {
        key_up(key_manager, String::from_str("V"));
    }
    if kc {
        key_up(key_manager, String::from_str("C"));
    }
    if ksp {
        key_up(key_manager, String::from_str("Space"));
    }
}

/// Apply the per-entity work of one update — player intent and, when a
/// wave begins, the level advance — to the whole table.
fn work_pass(ecs: &mut World, bump: bool, kd: bool, ka: bool, kw: bool, ks: bool, kc: bool)
    requires
        old(ecs).wf(),
    ensures
        final(ecs).wf(),
        final(ecs).entities@ == apply_work(old(ecs).entities@, bump, kd, ka, kw, ks, kc),
        final(ecs).pending@ == old(ecs).pending@,
        final(ecs).next_id == old(ecs).next_id,
        final(ecs).loaded == old(ecs).loaded,
        player_count(final(ecs).entities@) == player_count(old(ecs).entities@),
        rocket_count(final(ecs).entities@) == rocket_count(old(ecs).entities@),
        data_count(final(ecs).entities@) == data_count(old(ecs).entities@),
        asteroid_count(final(ecs).entities@) == asteroid_count(old(ecs).entities@),
{
    let n = ecs.entities.len();
    let mut i: usize = 0;
    while i < n
        invariant
            old(ecs).wf(),
            n == ecs.entities@.len(),
            i <= n,
            ecs.entities@.len() == old(ecs).entities@.len(),
            ecs.pending@ == old(ecs).pending@,
            ecs.next_id == old(ecs).next_id,
            ecs.loaded == old(ecs).loaded,
            forall|j: int|
                0 <= j < i ==> ecs.entities@[j] == tickwork(
                    old(ecs).entities@[j],
                    bump,
                    kd,
                    ka,
                    kw,
                    ks,
                    kc,
                ),
            forall|j: int| i <= j < n ==> ecs.entities@[j] == old(ecs).entities@[j],
            forall|j: int|
                0 <= j < n ==> entity_ok(#[trigger] ecs.entities@[j]) && ecs.entities@[j].id
                    < ecs.next_id,
            player_count(ecs.entities@) == player_count(old(ecs).entities@),
            rocket_count(ecs.entities@) == rocket_count(old(ecs).entities@),
            data_count(ecs.entities@) == data_count(old(ecs).entities@),
        decreases n - i,
    {
        let e = ecs.entities[i];
        match e.kind {
            Kind::Player(p) => {
                let p2 = if kd {
                    Player { direction: Direction::Right, speed: PLAYER_MOVE_SPEED, ..p }
                } else if ka {
                    Player { direction: Direction::Left, speed: PLAYER_MOVE_SPEED, ..p }
                } else if kw {
                    Player { direction: Direction::Up, speed: PLAYER_MOVE_SPEED, ..p }
                } else if ks {
                    Player { direction: Direction::Down, speed: PLAYER_MOVE_SPEED, ..p }
                } else {
                    Player { speed: 0, ..p }
                };
                let p3 = if kc {
                    Player { can_take_damage: !p2.can_take_damage, ..p2 }
                } else {
                    p2
                };
                let e2 = Entity { kind: Kind::Player(p3), ..e };
                let ghost pre = ecs.entities@;
                ecs.entities[i] = e2;
                proof {
                    assert(e2 == tickwork(e, bump, kd, ka, kw, ks, kc));
                    lemma_count_update(pre, pred_player(), i as int, e2);
                    lemma_count_update(pre, pred_rocket(), i as int, e2);
                    lemma_count_update(pre, pred_data(), i as int, e2);
                }
            },
            Kind::Data(g) => {
                if bump {
                    let lv: u32 = if g.level < u32::MAX {
                        g.level + 1
                    } else {
                        g.level
                    };
                    let e2 = Entity { kind: Kind::Data(GameData { level: lv, ..g }), ..e };
                    let ghost pre = ecs.entities@;
                    ecs.entities[i] = e2;
                    proof {
                        assert(e2 == tickwork(e, bump, kd, ka, kw, ks, kc));
                        lemma_count_update(pre, pred_player(), i as int, e2);
                        lemma_count_update(pre, pred_rocket(), i as int, e2);
                        lemma_count_update(pre, pred_data(), i as int, e2);
                    }
                } else {
                    proof {
                        assert(tickwork(e, bump, kd, ka, kw, ks, kc) == e);
                    }
                }
            },
            _ => {
                proof {
                    assert(tickwork(e, bump, kd, ka, kw, ks, kc) == e);
                }
            },
        }
        i += 1;
    }
    proof {
        lemma_apply_work_index(old(ecs).entities@, bump, kd, ka, kw, ks, kc);
        assert(ecs.entities@ =~= apply_work(old(ecs).entities@, bump, kd, ka, kw, ks, kc));
        assert(forall|x: Entity|
            pred_asteroid()(#[trigger] tickwork(x, bump, kd, ka, kw, ks, kc)) == pred_asteroid()(
                x,
            ));
        lemma_apply_work_count(old(ecs).entities@, bump, kd, ka, kw, ks, kc, pred_asteroid());
    }
}

/// Spawn `number` wave asteroids with random sizes, positions and
/// rotations, rejecting candidates that land within 150 pixels of the
/// player until a relaxation cap lets one through.
fn spawn_wave(ecs: &mut World, number: u32, ppos_opt: Option<Position>) -> (relax: Ghost<
    Seq<bool>,
>)
    requires
        old(ecs).wf(),
        old(ecs).next_id + number as int <= u64::MAX,
    ensures
        final(ecs).wf(),
        final(ecs).entities@.len() == old(ecs).entities@.len() + number,
        final(ecs).entities@.subrange(0, old(ecs).entities@.len() as int) == old(ecs).entities@,
        relax@.len() == number,
        forall|t: int|
            0 <= t < number ==> spawned_entity_ok(
                #[trigger] final(ecs).entities@[old(ecs).entities@.len() + t],
                old(ecs).next_id as int + t,
                ppos_opt,
                relax@[t],
            ),
        final(ecs).pending@ == old(ecs).pending@,
        final(ecs).next_id == old(ecs).next_id + number,
        final(ecs).loaded == old(ecs).loaded,
        player_count(final(ecs).entities@) == player_count(old(ecs).entities@),
        rocket_count(final(ecs).entities@) == rocket_count(old(ecs).entities@),
        data_count(final(ecs).entities@) == data_count(old(ecs).entities@),
{
    let base_len = ecs.entities.len();
    let mut count: u32 = 0;
    let mut attempts: u32 = 0;
    let ghost mut relax_seq: Seq<bool> = Seq::empty();
    while count < number
        invariant
            old(ecs).wf(),
            ecs.wf(),
            old(ecs).next_id + number as int <= u64::MAX,
            base_len == old(ecs).entities@.len(),
            ecs.entities@.len() == base_len + count,
            ecs.entities@.subrange(0, base_len as int) == old(ecs).entities@,
            relax_seq.len() == count,
            forall|t: int|
                0 <= t < count ==> spawned_entity_ok(
                    #[trigger] ecs.entities@[base_len + t],
                    old(ecs).next_id as int + t,
                    ppos_opt,
                    relax_seq[t],
                ),
            ecs.pending@ == old(ecs).pending@,
            ecs.next_id == old(ecs).next_id + count,
            ecs.loaded == old(ecs).loaded,
            player_count(ecs.entities@) == player_count(old(ecs).entities@),
            rocket_count(ecs.entities@) == rocket_count(old(ecs).entities@),
            data_count(ecs.entities@) == data_count(old(ecs).entities@),
            count <= number,
            attempts <= 100,
        decreases number - count, 100 - attempts,
    {
        let size = rand_range(1, 6);
        let next_x = rand_range(50, SCREEN_WIDTH - 50);
        let next_y = rand_range(50, SCREEN_HEIGHT - 50);
        let next_rot = rand_range(0, 360);
        let mut too_close = false;
        match ppos_opt {
            Some(pp) => {
                if check_radius(pp.x, pp.y, next_x, next_y, 300) {
                    too_close = true;
                }
            },
            None => {},
        }
        if too_close && attempts < 100 {
            attempts += 1;
        } else {
            attempts = 0;
            let ghost pre = ecs.entities@;
            let pos = Position { x: next_x, y: next_y, rot: next_rot };
            let m: u32 = size as u32;
            create_asteroid(ecs, pos, m);
            proof {
                relax_seq = relax_seq.push(too_close);
                let e = asteroid_entity((old(ecs).next_id + count) as u64, pos, m);
                assert(ecs.entities@ == pre.push(e));
                assert(ecs.entities@.subrange(0, base_len as int) =~= pre.subrange(
                    0,
                    base_len as int,
                ));
                assert(ecs.entities@[base_len + count] == e);
                assert(spawned_entity_ok(
                    e,
                    old(ecs).next_id as int + count,
                    ppos_opt,
                    too_close,
                ));
                lemma_count_push(pre, pred_player(), e);
                lemma_count_push(pre, pred_rocket(), e);
                lemma_count_push(pre, pred_data(), e);
            }
            count += 1;
        }
    }
    Ghost(relax_seq)
}

/// The shape of the table after one update, given the spawned wave: the
/// worked base, then the wave, then — when fire was pressed, a player
/// stood, and the rocket cap was not reached — one fresh rocket.
pub open spec fn update_spawn_shape(
    w1: World,
    worked: Seq<Entity>,
    id1: int,
    n_spawn: int,
    fire: bool,
    fired_pos: Option<Position>,
    ppos: Option<Position>,
    spawned: Seq<Entity>,
    relax: Seq<bool>,
) -> bool {
    &&& spawned.len() == n_spawn
    &&& relax.len() == n_spawn
    &&& (forall|t: int|
        0 <= t < spawned.len() ==> spawned_entity_ok(#[trigger] spawned[t], id1 + t, ppos, relax[t]))
    &&& {
        let after = worked + spawned;
        let id2 = id1 + n_spawn;
        if fire && fired_pos is Some && rocket_count(after) < MAX_ROCKETS {
            &&& w1.entities@ == after.push(rocket_entity(id2 as u64, fired_pos.unwrap()))
            &&& w1.next_id == id2 + 1
        } else {
            &&& w1.entities@ == after
            &&& w1.next_id == id2
        }
    }
}

/// How one `update` relates store and input buffer before and after.
///
/// With no player standing, the world is torn down and reloaded first.
/// With the field clear of asteroids the level advances and a wave
/// spawns; a pressed burst key adds 20000 to the wave. The player takes
/// the movement-key intent and the godmode toggle. A pressed fire key
/// launches one rocket at the player, turned 90 degrees from the sprite's
/// rotation, unless the rocket cap is reached. The three edge-triggered
/// keys are consumed; every other key keeps its state.
/// The table one update starts from: the old one, or a fresh load when
/// no player stood.
pub open spec fn update_base(w0: World) -> Seq<Entity> {
    if player_count(w0.entities@) < 1 {
        reload_base(w0.next_id as int)
    } else {
        w0.entities@
    }
}

/// The first free handle after the (possible) reload.
pub open spec fn update_base_id(w0: World) -> int {
    w0.next_id as int + if player_count(w0.entities@) < 1 {
        3int
    } else {
        0int
    }
}

/// The table after the per-entity work of one update.
pub open spec fn update_worked(w0: World, k0: KeyManager) -> Seq<Entity> {
    apply_work(
        update_base(w0),
        asteroid_count(update_base(w0)) < 1,
        k0.spec_pressed("D"@),
        k0.spec_pressed("A"@),
        k0.spec_pressed("W"@),
        k0.spec_pressed("S"@),
        k0.spec_pressed("C"@),
    )
}

/// The player's position at the start of the update, used for the
/// safe-spawn margin and as the launch point of a fired rocket.
pub open spec fn update_player_pos(w0: World) -> Option<Position> {
    find_player_pos(update_base(w0))
}

/// Where a fired rocket starts: at the player, turned 90 degrees from the
/// sprite's rotation.
pub open spec fn update_fired_pos(w0: World) -> Option<Position> {
    match update_player_pos(w0) {
        Some(pos) => Some(Position { x: pos.x, y: pos.y, rot: clamp_i32(pos.rot + 90) as i32 }),
        None => None,
    }
}

/// How many asteroids one update spawns: the wave, plus the burst when
/// the burst key was pressed.
pub open spec fn update_n_spawn(w0: World, k0: KeyManager) -> int {
    wave_count(update_base(w0)) + if k0.spec_pressed("V"@) {
        20000int
    } else {
        0int
    }
}

pub open spec fn update_rel(w0: World, k0: KeyManager, w1: World, k1: KeyManager) -> bool {
    let reload = player_count(w0.entities@) < 1;
    &&& w1.pending@ == (if reload {
        Seq::<Entity>::empty()
    } else {
        w0.pending@
    })
    &&& w1.loaded == (if reload {
        true
    } else {
        w0.loaded
    })
    &&& !k1.spec_pressed("Space"@)
    &&& !k1.spec_pressed("C"@)
    &&& !k1.spec_pressed("V"@)
    &&& (forall|q: Seq<char>|
        q != "Space"@ && q != "C"@ && q != "V"@ ==> #[trigger] k1.spec_held(q) == k0.spec_held(q))
    &&& exists|spawned: Seq<Entity>, relax: Seq<bool>|
        #[trigger] update_spawn_shape(
            w1,
            update_worked(w0, k0),
            update_base_id(w0),
            update_n_spawn(w0, k0),
            k0.spec_pressed("Space"@),
            update_fired_pos(w0),
            update_player_pos(w0),
            spawned,
            relax,
        )
}

/// One update: respawn and wave control, player intent, edge-key
/// consumption, and firing, as `update_rel` states.
#[verifier::rlimit(100)]
pub fn update(ecs: &mut World, key_manager: &mut KeyManager)
    requires
        old(ecs).wf(),
        old(ecs).next_id <= u64::MAX - 0x1_0000_0000,
    ensures
        final(ecs).wf(),
        update_rel(*old(ecs), *old(key_manager), *final(ecs), *final(key_manager)),
        player_count(final(ecs).entities@) == 1,
        final(ecs).next_id <= old(ecs).next_id + 0x8000_0004u64,
        final(ecs).entities@.len() <= old(ecs).entities@.len() + 0x8000_0004,
{
    let players = ecs.count_players();
    if players < 1 {
        ecs.entities = Vec::new();
        ecs.pending = Vec::new();
        ecs.loaded = false;
        proof {
            assert(crate::world::count_matching(Seq::<Entity>::empty(), pred_player()) == 0);
            assert(crate::world::count_matching(Seq::<Entity>::empty(), pred_rocket()) == 0);
            assert(crate::world::count_matching(Seq::<Entity>::empty(), pred_data()) == 0);
        }
        load_world(ecs);
        proof {
            lemma_reload_base_counts(old(ecs).next_id as int);
        }
    }
    let ghost reload = player_count(old(ecs).entities@) < 1;
    let ghost base = ecs.entities@;
    let ghost id1 = ecs.next_id as int;
    let kd = is_key_pressed(key_manager, "D");
    let ka = is_key_pressed(key_manager, "A");
    let kw = is_key_pressed(key_manager, "W");
    let ks = is_key_pressed(key_manager, "S");
    let kc = is_key_pressed(key_manager, "C");
    let ksp = is_key_pressed(key_manager, "Space");
    let kv = is_key_pressed(key_manager, "V");
    consume_edge_keys(key_manager, kv, kc, ksp);
    let ppos_opt = find_player_pos_vec(&ecs.entities);
    let asteroids = ecs.count_asteroids();
    let bump = asteroids < 1;
    let mut number: u32 = compute_wave(ecs);
    if kv {
        number = number + 20000;
    }
    work_pass(ecs, bump, kd, ka, kw, ks, kc);
    let ghost worked = ecs.entities@;
    let relax = spawn_wave(ecs, number, ppos_opt);
    let ghost spawned = ecs.entities@.skip(worked.len() as int);
    proof {
        assert(ecs.entities@ =~= worked + spawned);
        assert(spawned.len() == number);
        assert forall|t: int| 0 <= t < spawned.len() implies spawned_entity_ok(
            #[trigger] spawned[t],
            id1 + t,
            ppos_opt,
            relax@[t],
        ) by {
            assert(spawned[t] == ecs.entities@[worked.len() + t]);
        }
    }
    let ghost after = ecs.entities@;
    if ksp {
        match ppos_opt {
            Some(pp) => {
                let rot2 = clamp_to_i32(pp.rot as i64 + 90);
                fire_rocket(ecs, Position { x: pp.x, y: pp.y, rot: rot2 });
            },
            None => {},
        }
    }
    proof {
        let k0 = *old(key_manager);
        let d = k0.spec_pressed("D"@);
        let a = k0.spec_pressed("A"@);
        let wk = k0.spec_pressed("W"@);
        let sk = k0.spec_pressed("S"@);
        let c = k0.spec_pressed("C"@);
        let sp = k0.spec_pressed("Space"@);
        let v = k0.spec_pressed("V"@);
        let n_spawn = wave_count(base) + if v {
            20000int
        } else {
            0int
        };
        let fired_pos = match find_player_pos(base) {
            Some(pos) => Some(
                Position { x: pos.x, y: pos.y, rot: clamp_i32(pos.rot + 90) as i32 },
            ),
            None => None,
        };
        assert(base == update_base(*old(ecs)));
        assert(id1 == update_base_id(*old(ecs)));
        assert(bump == (asteroid_count(update_base(*old(ecs))) < 1));
        assert(worked == apply_work(base, bump, d, a, wk, sk, c));
        lemma_apply_work_index(base, bump, d, a, wk, sk, c);
        assert(worked.len() == base.len());
        assert(worked == update_worked(*old(ecs), k0));
        assert(n_spawn == number as int);
        assert(n_spawn == update_n_spawn(*old(ecs), k0));
        assert(fired_pos == update_fired_pos(*old(ecs)));
        assert(ppos_opt == update_player_pos(*old(ecs)));
        assert(update_spawn_shape(
            *ecs,
            worked,
            id1,
            n_spawn,
            sp,
            fired_pos,
            ppos_opt,
            spawned,
            relax@,
        ));
        assert(update_spawn_shape(
            *ecs,
            update_worked(*old(ecs), k0),
            update_base_id(*old(ecs)),
            update_n_spawn(*old(ecs), k0),
            k0.spec_pressed("Space"@),
            update_fired_pos(*old(ecs)),
            update_player_pos(*old(ecs)),
            spawned,
            relax@,
        ));
        if reload {
            assert(ecs.pending@ =~= Seq::<Entity>::empty());
        }
        assert(ecs.pending@ == (if reload {
            Seq::<Entity>::empty()
        } else {
            old(ecs).pending@
        }));
        assert(ecs.loaded == (if reload {
            true
        } else {
            old(ecs).loaded
        }));
        assert(!key_manager.spec_pressed("Space"@));
        assert(!key_manager.spec_pressed("C"@));
        assert(!key_manager.spec_pressed("V"@));
        assert(forall|q: Seq<char>|
            q != "Space"@ && q != "C"@ && q != "V"@ ==> #[trigger] key_manager.spec_held(q)
                == k0.spec_held(q));
        assert(exists|sp2: Seq<Entity>, rl2: Seq<bool>|
            #[trigger] update_spawn_shape(
                *ecs,
                update_worked(*old(ecs), k0),
                update_base_id(*old(ecs)),
                update_n_spawn(*old(ecs), k0),
                k0.spec_pressed("Space"@),
                update_fired_pos(*old(ecs)),
                update_player_pos(*old(ecs)),
                sp2,
                rl2,
            ));
        assert(ecs.entities@.len() <= base.len() + number + 1);
        assert(base.len() <= old(ecs).entities@.len() + 3);
        assert(update_rel(*old(ecs), k0, *ecs, *key_manager));
        assert(player_count(ecs.entities@) == 1) by {
            crate::world::lemma_count_concat(worked, spawned, pred_player());
            crate::world::lemma_count_zero(spawned, pred_player());
            assert forall|t: int| 0 <= t < spawned.len() implies !pred_player()(
                #[trigger] spawned[t],
            ) by {
                lemma_spawned_shape(spawned[t], id1 + t, ppos_opt, relax@[t]);
            }
            if sp && fired_pos is Some && rocket_count(after) < MAX_ROCKETS {
                crate::world::lemma_count_push(
                    after,
                    pred_player(),
                    rocket_entity((id1 + n_spawn) as u64, fired_pos.unwrap()),
                );
            }
        }
    }
}

/// The player turned to face the aim angle: both the stored rotation and
/// the sprite's display rotation take it. Entities that are not players
/// with a position and a sprite are left as they are.
pub open spec fn player_aimed(e: Entity, aim_deg: i32) -> Entity {
    match (e.kind, e.position, e.renderable) {
        (Kind::Player(_), Some(pos), Some(ren)) => Entity {
            position: Some(Position { rot: aim_deg, ..pos }),
            renderable: Some(Renderable { render_rotation: aim_deg, ..ren }),
            ..e
        },
        _ => e,
    }
}

/// Turn the player toward the cursor: `aim_deg` is the angle from the
/// player to the mouse in degrees, as the display layer computes it.
pub fn update_player_rotation(ecs: &mut World, aim_deg: i32)
    requires
        old(ecs).wf(),
    ensures
        final(ecs).wf(),
        final(ecs).entities@.len() == old(ecs).entities@.len(),
        forall|i: int|
            0 <= i < old(ecs).entities@.len() ==> final(ecs).entities@[i] == player_aimed(
                old(ecs).entities@[i],
                aim_deg,
            ),
        final(ecs).pending@ == old(ecs).pending@,
        final(ecs).next_id == old(ecs).next_id,
        final(ecs).loaded == old(ecs).loaded,
        player_count(final(ecs).entities@) == player_count(old(ecs).entities@),
        rocket_count(final(ecs).entities@) == rocket_count(old(ecs).entities@),
        data_count(final(ecs).entities@) == data_count(old(ecs).entities@),
{
    let n = ecs.entities.len();
    let mut i: usize = 0;
    while i < n
        invariant
            old(ecs).wf(),
            n == ecs.entities@.len(),
            i <= n,
            ecs.entities@.len() == old(ecs).entities@.len(),
            ecs.pending@ == old(ecs).pending@,
            ecs.next_id == old(ecs).next_id,
            ecs.loaded == old(ecs).loaded,
            forall|j: int|
                0 <= j < i ==> ecs.entities@[j] == player_aimed(old(ecs).entities@[j], aim_deg),
            forall|j: int| i <= j < n ==> ecs.entities@[j] == old(ecs).entities@[j],
            forall|j: int|
                0 <= j < n ==> entity_ok(#[trigger] ecs.entities@[j]) && ecs.entities@[j].id
                    < ecs.next_id,
            player_count(ecs.entities@) == player_count(old(ecs).entities@),
            rocket_count(ecs.entities@) == rocket_count(old(ecs).entities@),
            data_count(ecs.entities@) == data_count(old(ecs).entities@),
        decreases n - i,
    {
        let e = ecs.entities[i];
        match (e.kind, e.position, e.renderable) {
            (Kind::Player(_), Some(pos), Some(ren)) => {
                let e2 = Entity {
                    position: Some(Position { x: pos.x, y: pos.y, rot: aim_deg }),
                    renderable: Some(Renderable { render_rotation: aim_deg, ..ren }),
                    ..e
                };
                let ghost pre = ecs.entities@;
                ecs.entities[i] = e2;
                proof {
                    assert(e2 == player_aimed(e, aim_deg));
                    lemma_count_update(pre, pred_player(), i as int, e2);
                    lemma_count_update(pre, pred_rocket(), i as int, e2);
                    lemma_count_update(pre, pred_data(), i as int, e2);
                }
            },
            _ => {
                proof {
                    assert(player_aimed(e, aim_deg) == e);
                }
            },
        }
        i += 1;
    }
}


/// The whole table after the asteroid motion tick.
pub open spec fn aster_moved_seq(s: Seq<Entity>) -> Seq<Entity> {
    Seq::new(s.len(), |i: int| crate::asteroid::asteroid_moved(s[i]))
}

/// The whole table after the player-versus-asteroid pass.
pub open spec fn collider_seq(s: Seq<Entity>) -> Seq<Entity> {
    if crate::asteroid::invulnerable_present(s) {
        s
    } else {
        Seq::new(
            s.len(),
            |i: int|
                if crate::asteroid::player_struck(s, s[i]) {
                    crate::world::doom(s[i])
                } else {
                    s[i]
                },
        )
    }
}

/// The whole table after the rocket motion tick.
pub open spec fn rocket_moved_seq(s: Seq<Entity>) -> Seq<Entity> {
    Seq::new(s.len(), |i: int| crate::rocket::rocket_moved(s[i]))
}

/// How the four systems, run in their fixed order, relate the store
/// before and after: asteroid motion, then the player collider, then
/// rocket motion, then the rocket damage pass with its fragment queue and
/// score credit.
pub open spec fn dispatch_rel(w0: World, w1: World) -> bool {
    let s3 = rocket_moved_seq(collider_seq(aster_moved_seq(w0.entities@)));
    let r = crate::rocket::damage_from(s3, 0);
    &&& w1.entities@ == crate::rocket::add_score(r.0, r.2)
    &&& w1.pending@ == w0.pending@ + crate::rocket::frag_entities(r.1, w0.next_id as int)
    &&& w1.next_id == w0.next_id + r.1.len()
    &&& w1.loaded == w0.loaded
}

/// Run the four systems in their fixed order: asteroid motion, the
/// player collider, rocket motion, and rocket damage.
pub fn dispatch(w: &mut World)
    requires
        old(w).wf(),
        old(w).entities@.len() <= 0x2_0000_0000,
        old(w).next_id <= u64::MAX - 0x4_0000_0000,
    ensures
        final(w).wf(),
        dispatch_rel(*old(w), *final(w)),
        final(w).entities@.len() == old(w).entities@.len(),
{
    let mut mover = crate::asteroid::AsteroidMover;
    mover.run(w);
    proof {
        assert(w.entities@ =~= aster_moved_seq(old(w).entities@));
    }
    let ghost s1 = w.entities@;
    let mut collider = crate::asteroid::AstroidCollider;
    collider.run(w);
    proof {
        if crate::asteroid::invulnerable_present(s1) {
            assert(w.entities@ =~= collider_seq(s1));
        } else {
            assert(w.entities@ =~= collider_seq(s1));
        }
    }
    let ghost s2 = w.entities@;
    let mut rmover = crate::rocket::RocketMover;
    rmover.run(w);
    proof {
        assert(w.entities@ =~= rocket_moved_seq(s2));
    }
    let mut damage = crate::rocket::RocketDamage;
    damage.run(w);
}

/// What `find_data` sees after appending one entity.
proof fn lemma_find_data_push(s: Seq<Entity>, e: Entity)
    ensures
        find_data(s.push(e)) == (if find_data(s) is Some {
            find_data(s)
        } else {
            match e.kind {
                Kind::Data(g) => Some(g),
                _ => None,
            }
        }),
    decreases s.len(),
{
    if s.len() == 0 {
        assert(find_data(s) == None::<GameData>);
        assert(s.push(e)[0] == e);
        assert(s.push(e).drop_first() =~= Seq::<Entity>::empty());
        assert(find_data(s.push(e).drop_first()) == None::<GameData>);
    } else {
        assert(s.push(e)[0] == s[0]);
        match s[0].kind {
            Kind::Data(_) => {},
            _ => {
                assert(s.push(e).drop_first() =~= s.drop_first().push(e));
                lemma_find_data_push(s.drop_first(), e);
            },
        }
    }
}

/// A map that keeps every entity's role and role data keeps the score
/// singleton lookup.
proof fn lemma_find_data_pointwise(s: Seq<Entity>, t: Seq<Entity>)
    requires
        s.len() == t.len(),
        forall|k: int| 0 <= k < s.len() ==> (#[trigger] t[k]).kind == s[k].kind,
    ensures
        find_data(t) == find_data(s),
    decreases s.len(),
{
    if s.len() > 0 {
        assert(t[0].kind == s[0].kind);
        match s[0].kind {
            Kind::Data(_) => {},
            _ => {
                assert(s.drop_first() =~= s.skip(1));
                assert(t.drop_first() =~= t.skip(1));
                assert(forall|k: int|
                    0 <= k < s.len() - 1 ==> (#[trigger] t.drop_first()[k]).kind
                        == s.drop_first()[k].kind);
                lemma_find_data_pointwise(s.drop_first(), t.drop_first());
            },
        }
    }
}

/// Adding to the score never changes the level or removes the singleton.
proof fn lemma_find_data_add_score(s: Seq<Entity>, d: int)
    ensures
        find_data(crate::rocket::add_score(s, d)) is Some <==> find_data(s) is Some,
        find_data(s) matches Some(g) ==> find_data(crate::rocket::add_score(s, d))
            == Some(GameData { score: crate::sat_u32(g.score + d) as u32, ..g }),
    decreases s.len(),
{
    crate::rocket::lemma_add_score_index(s, d);
    let t = crate::rocket::add_score(s, d);
    if s.len() > 0 {
        assert(t[0] == crate::rocket::scored(s[0], d));
        match s[0].kind {
            Kind::Data(_) => {},
            _ => {
                crate::rocket::lemma_add_score_index(s.drop_first(), d);
                let u = crate::rocket::add_score(s.drop_first(), d);
                assert forall|k: int| 0 <= k < t.len() - 1 implies #[trigger] t.drop_first()[k]
                    == u[k] by {
                    assert(t.drop_first()[k] == t[k + 1]);
                    assert(t[k + 1] == crate::rocket::scored(s[k + 1], d));
                    assert(s.drop_first()[k] == s[k + 1]);
                    assert(u[k] == crate::rocket::scored(s.drop_first()[k], d));
                }
                assert(t.drop_first() =~= u);
                lemma_find_data_add_score(s.drop_first(), d);
            },
        }
    }
}

/// Appending entities that are not the singleton leaves the lookup alone.
proof fn lemma_find_data_append_nodata(a: Seq<Entity>, b: Seq<Entity>)
    requires
        forall|k: int| 0 <= k < b.len() ==> !is_data(#[trigger] b[k]),
    ensures
        find_data(a + b) == find_data(a),
    decreases b.len(),
{
    if b.len() == 0 {
        assert(a + b =~= a);
    } else {
        assert(a + b =~= (a + b.drop_last()).push(b.last()));
        assert(forall|k: int| 0 <= k < b.len() - 1 ==> b.drop_last()[k] == #[trigger] b[k]);
        lemma_find_data_append_nodata(a, b.drop_last());
        lemma_find_data_push(a + b.drop_last(), b.last());
        assert(!is_data(b[b.len() - 1]));
    }
}

/// The commit keeps the singleton lookup as long as the singleton itself
/// was not doomed.
proof fn lemma_find_data_commit(s: Seq<Entity>)
    requires
        forall|k: int| 0 <= k < s.len() ==> is_data(#[trigger] s[k]) ==> !s[k].doomed,
    ensures
        find_data(crate::world::commit_seq(s)) == find_data(s),
    decreases s.len(),
{
    if s.len() > 0 {
        assert(forall|k: int| 0 <= k < s.len() - 1 ==> s.drop_last()[k] == #[trigger] s[k]);
        lemma_find_data_commit(s.drop_last());
        lemma_find_data_push(s.drop_last(), s.last());
        assert(s.drop_last().push(s.last()) =~= s);
        if s.last().doomed {
            assert(!is_data(s[s.len() - 1]));
            assert(find_data(s) == find_data(s.drop_last().push(s.last())));
        } else {
            lemma_find_data_push(crate::world::commit_seq(s.drop_last()), s.last());
        }
    }
}

/// The level recorded in the singleton never goes down across one update
/// in a running session (one with a player standing, so that no reload
/// resets it).
pub proof fn lemma_level_monotone(w0: World, k0: KeyManager, w1: World, k1: KeyManager)
    requires
        update_rel(w0, k0, w1, k1),
        player_count(w0.entities@) >= 1,
        find_data(w0.entities@) matches Some(g0),
    ensures
        find_data(w1.entities@) matches Some(g1) && find_data(w0.entities@) matches Some(g0)
            && g1.level >= g0.level,
        (forall|k: int|
            0 <= k < w0.entities@.len() ==> !(is_data(#[trigger] w0.entities@[k])
                && w0.entities@[k].doomed)) ==> (forall|k: int|
            0 <= k < w1.entities@.len() ==> !(is_data(#[trigger] w1.entities@[k])
                && w1.entities@[k].doomed)),
{
    let g0 = find_data(w0.entities@).unwrap();
    let base = update_base(w0);
    assert(base == w0.entities@);
    let (spawned, relax): (Seq<Entity>, Seq<bool>) = choose|
        spawned: Seq<Entity>,
        relax: Seq<bool>,
    |
        #[trigger] update_spawn_shape(
            w1,
            update_worked(w0, k0),
            update_base_id(w0),
            update_n_spawn(w0, k0),
            k0.spec_pressed("Space"@),
            update_fired_pos(w0),
            update_player_pos(w0),
            spawned,
            relax,
        );
    let worked = update_worked(w0, k0);
    let bump = asteroid_count(base) < 1;
    lemma_apply_work_index(
        base,
        bump,
        k0.spec_pressed("D"@),
        k0.spec_pressed("A"@),
        k0.spec_pressed("W"@),
        k0.spec_pressed("S"@),
        k0.spec_pressed("C"@),
    );
    lemma_find_data_worked(
        base,
        bump,
        k0.spec_pressed("D"@),
        k0.spec_pressed("A"@),
        k0.spec_pressed("W"@),
        k0.spec_pressed("S"@),
        k0.spec_pressed("C"@),
    );
    assert(find_data(worked) matches Some(gw) && gw.level >= g0.level);
    assert forall|t: int| 0 <= t < spawned.len() implies !is_data(#[trigger] spawned[t]) by {
        lemma_spawned_shape(spawned[t], update_base_id(w0) + t, update_player_pos(w0), relax[t]);
    }
    lemma_find_data_append_nodata(worked, spawned);
    let after = worked + spawned;
    if k0.spec_pressed("Space"@) && update_fired_pos(w0) is Some && rocket_count(after)
        < MAX_ROCKETS {
        lemma_find_data_push(
            after,
            rocket_entity(
                (update_base_id(w0) + update_n_spawn(w0, k0)) as u64,
                update_fired_pos(w0).unwrap(),
            ),
        );
    }
    if forall|k: int|
        0 <= k < w0.entities@.len() ==> !(is_data(#[trigger] w0.entities@[k])
            && w0.entities@[k].doomed) {
        assert forall|k: int| 0 <= k < w1.entities@.len() implies !(is_data(
            #[trigger] w1.entities@[k],
        ) && w1.entities@[k].doomed) by {
            if k < worked.len() {
                assert(worked[k] == tickwork(
                    base[k],
                    bump,
                    k0.spec_pressed("D"@),
                    k0.spec_pressed("A"@),
                    k0.spec_pressed("W"@),
                    k0.spec_pressed("S"@),
                    k0.spec_pressed("C"@),
                ));
                assert(w1.entities@[k] == worked[k]);
            } else if k < worked.len() + spawned.len() {
                assert(w1.entities@[k] == spawned[k - worked.len()]);
                assert(!is_data(spawned[k - worked.len()]));
            } else {
                assert(w1.entities@[k] == rocket_entity(
                    (update_base_id(w0) + update_n_spawn(w0, k0)) as u64,
                    update_fired_pos(w0).unwrap(),
                ));
            }
        }
    }
}

/// The per-entity work leaves the singleton in place and at most bumps
/// its level by one.
proof fn lemma_find_data_worked(
    s: Seq<Entity>,
    bump: bool,
    d: bool,
    a: bool,
    wk: bool,
    sk: bool,
    c: bool,
)
    ensures
        find_data(apply_work(s, bump, d, a, wk, sk, c)) == (match find_data(s) {
            Some(g) => Some(
                if bump {
                    level_bumped(g)
                } else {
                    g
                },
            ),
            None => None,
        }),
    decreases s.len(),
{
    lemma_apply_work_index(s, bump, d, a, wk, sk, c);
    let t = apply_work(s, bump, d, a, wk, sk, c);
    if s.len() > 0 {
        assert(t[0] == tickwork(s[0], bump, d, a, wk, sk, c));
        match s[0].kind {
            Kind::Data(_) => {},
            _ => {
                lemma_apply_work_index(s.drop_first(), bump, d, a, wk, sk, c);
                let u = apply_work(s.drop_first(), bump, d, a, wk, sk, c);
                assert forall|k: int| 0 <= k < t.len() - 1 implies #[trigger] t.drop_first()[k]
                    == u[k] by {
                    assert(t.drop_first()[k] == t[k + 1]);
                    assert(t[k + 1] == tickwork(s[k + 1], bump, d, a, wk, sk, c));
                    assert(s.drop_first()[k] == s[k + 1]);
                    assert(u[k] == tickwork(s.drop_first()[k], bump, d, a, wk, sk, c));
                }
                assert(t.drop_first() =~= u);
                lemma_find_data_worked(s.drop_first(), bump, d, a, wk, sk, c);
            },
        }
    }
}

/// How the player-wrap stage relates the store before and after: every
/// player offset along its direction and wrapped at the screen edges,
/// everything else untouched.
pub open spec fn wrap_rel(w0: World, w1: World) -> bool {
    &&& w1.entities@.len() == w0.entities@.len()
    &&& (forall|i: int|
        0 <= i < w0.entities@.len() ==> #[trigger] w1.entities@[i] == player_moved(
            w0.entities@[i],
        ))
    &&& w1.pending@ == w0.pending@
    &&& w1.next_id == w0.next_id
    &&& w1.loaded == w0.loaded
}

/// How the aiming stage relates the store before and after: the player
/// turned to the aim angle, everything else untouched.
pub open spec fn aim_rel(w0: World, w1: World, aim_deg: i32) -> bool {
    &&& w1.entities@.len() == w0.entities@.len()
    &&& (forall|i: int|
        0 <= i < w0.entities@.len() ==> #[trigger] w1.entities@[i] == player_aimed(
            w0.entities@[i],
            aim_deg,
        ))
    &&& w1.pending@ == w0.pending@
    &&& w1.next_id == w0.next_id
    &&& w1.loaded == w0.loaded
}

/// The five stages of one tick, with the intermediate stores named: the
/// player wrap takes `w0` to `wa`; the update (respawn, waves, intent,
/// fire, edge-key consumption) takes `wa` and the key table `k0` to `wb`
/// and `k1`; aiming takes `wb` to `wc`; the four systems take `wc` to
/// `wd`; and the maintain barrier commits `wd`'s doomed marks and queued
/// fragments into `w1`.
pub open spec fn tick_stages(
    w0: World,
    k0: KeyManager,
    aim_deg: i32,
    w1: World,
    k1: KeyManager,
    wa: World,
    wb: World,
    wc: World,
    wd: World,
) -> bool {
    &&& wrap_rel(w0, wa)
    &&& update_rel(wa, k0, wb, k1)
    &&& aim_rel(wb, wc, aim_deg)
    &&& dispatch_rel(wc, wd)
    &&& w1.entities@ == crate::world::commit_seq(wd.entities@) + wd.pending@
    &&& w1.pending@.len() == 0
    &&& w1.next_id == wd.next_id
    &&& w1.loaded == (data_count(w1.entities@) == 1)
}

/// One full tick of the driver loop: player wrap, the update, aiming, the
/// four systems, and the maintain barrier. The global invariants hold
/// after the barrier; a running session keeps its singleton and never
/// lowers its level.
pub fn tick(w: &mut World, key_manager: &mut KeyManager, aim_deg: i32)
    requires
        old(w).wf(),
        old(w).entities@.len() <= 0x4000_0000,
        old(w).next_id <= u64::MAX - 0x8_0000_0000,
    ensures
        final(w).wf(),
        final(w).pending@.len() == 0,
        player_count(final(w).entities@) <= 1,
        rocket_count(final(w).entities@) <= MAX_ROCKETS,
        data_count(final(w).entities@) <= 1,
        (final(w).loaded <==> data_count(final(w).entities@) == 1),
        exists|wa: World, wb: World, wc: World, wd: World|
            #[trigger] tick_stages(
                *old(w),
                *old(key_manager),
                aim_deg,
                *final(w),
                *final(key_manager),
                wa,
                wb,
                wc,
                wd,
            ),
        !final(key_manager).spec_pressed("Space"@),
        !final(key_manager).spec_pressed("C"@),
        !final(key_manager).spec_pressed("V"@),
        forall|q: Seq<char>|
            q != "Space"@ && q != "C"@ && q != "V"@ ==> #[trigger] final(key_manager).spec_held(q)
                == old(key_manager).spec_held(q),
        ({
            &&& player_count(old(w).entities@) >= 1
            &&& find_data(old(w).entities@) is Some
            &&& (forall|k: int|
                0 <= k < old(w).entities@.len() ==> !(#[trigger] old(w).entities@[k]).doomed)
        }) ==> (find_data(final(w).entities@) matches Some(g1) && g1.level >= find_data(
            old(w).entities@,
        ).unwrap().level),
{
    let ghost session = {
        &&& player_count(old(w).entities@) >= 1
        &&& find_data(old(w).entities@) is Some
        &&& (forall|k: int|
            0 <= k < old(w).entities@.len() ==> !(#[trigger] old(w).entities@[k]).doomed)
    };
    let ghost g0 = if session {
        find_data(old(w).entities@).unwrap()
    } else {
        GameData { score: 0, level: 0 }
    };
    let ghost w0 = *w;
    update_player(w);
    let ghost wa = *w;
    proof {
        if session {
            assert forall|k: int| 0 <= k < w0.entities@.len() implies (#[trigger] wa.entities@[k]).kind
                == w0.entities@[k].kind && !wa.entities@[k].doomed by {
                assert(wa.entities@[k] == player_moved(w0.entities@[k]));
            }
            lemma_find_data_pointwise(w0.entities@, wa.entities@);
        }
    }
    let ghost ka = *key_manager;
    update(w, key_manager);
    let ghost wb = *w;
    proof {
        if session {
            lemma_level_monotone(wa, ka, wb, *key_manager);
        }
    }
    update_player_rotation(w, aim_deg);
    let ghost wc = *w;
    proof {
        if session {
            assert forall|k: int| 0 <= k < wb.entities@.len() implies (#[trigger] wc.entities@[k]).kind
                == wb.entities@[k].kind && (is_data(wc.entities@[k]) ==> wc.entities@[k].doomed
                == wb.entities@[k].doomed) by {
                assert(wc.entities@[k] == player_aimed(wb.entities@[k], aim_deg));
            }
            lemma_find_data_pointwise(wb.entities@, wc.entities@);
        }
    }
    dispatch(w);
    let ghost wd = *w;
    proof {
        if session {
            let s0 = wc.entities@;
            let s1 = aster_moved_seq(s0);
            let s2 = collider_seq(s1);
            let s3 = rocket_moved_seq(s2);
            assert forall|k: int| 0 <= k < s0.len() implies (#[trigger] s1[k]).kind == s0[k].kind
                && (is_data(s1[k]) ==> s1[k].doomed == s0[k].doomed) by {
                assert(s1[k] == crate::asteroid::asteroid_moved(s0[k]));
            }
            lemma_find_data_pointwise(s0, s1);
            assert forall|k: int| 0 <= k < s1.len() implies (#[trigger] s2[k]).kind == s1[k].kind
                && (is_data(s2[k]) ==> s2[k].doomed == s1[k].doomed) by {
                if !crate::asteroid::invulnerable_present(s1) {
                    assert(s2[k] == (if crate::asteroid::player_struck(s1, s1[k]) {
                        crate::world::doom(s1[k])
                    } else {
                        s1[k]
                    }));
                }
            }
            lemma_find_data_pointwise(s1, s2);
            assert forall|k: int| 0 <= k < s2.len() implies (#[trigger] s3[k]).kind == s2[k].kind
                && (is_data(s3[k]) ==> s3[k].doomed == s2[k].doomed) by {
                assert(s3[k] == crate::rocket::rocket_moved(s2[k]));
            }
            lemma_find_data_pointwise(s2, s3);
            let r = crate::rocket::damage_from(s3, 0);
            crate::rocket::lemma_damage_len(s3, 0);
            crate::rocket::lemma_damage_doom_only(s3, 0);
            crate::rocket::lemma_damage_data_untouched(s3, 0);
            assert forall|k: int| 0 <= k < s3.len() implies (#[trigger] r.0[k]).kind == s3[k].kind
                && (is_data(r.0[k]) ==> r.0[k].doomed == s3[k].doomed) by {
                assert(r.0[k] == s3[k] || r.0[k] == crate::world::doom(s3[k]));
                if is_data(s3[k]) {
                    assert(r.0[k] == s3[k]);
                }
            }
            lemma_find_data_pointwise(s3, r.0);
            lemma_find_data_add_score(r.0, r.2);
            crate::rocket::lemma_add_score_index(r.0, r.2);
            assert(wd.entities@ == crate::rocket::add_score(r.0, r.2));
            assert(find_data(wd.entities@) matches Some(gd) && gd.level >= g0.level);
            assert forall|k: int| 0 <= k < wd.entities@.len() && is_data(
                #[trigger] wd.entities@[k],
            ) implies !wd.entities@[k].doomed by {
                assert(wd.entities@[k] == crate::rocket::scored(r.0[k], r.2));
                assert(is_data(r.0[k]));
                assert(!s3[k].doomed);
            }
        }
    }
    w.maintain();
    proof {
        if session {
            lemma_find_data_commit(wd.entities@);
            lemma_find_data_append_nodata(
                crate::world::commit_seq(wd.entities@),
                wd.pending@,
            );
            assert forall|k: int| 0 <= k < wd.pending@.len() implies !is_data(
                #[trigger] wd.pending@[k],
            ) by {
                assert(crate::world::is_asteroid(wd.pending@[k]));
            }
        }
        assert(ka == *old(key_manager));
        assert(wrap_rel(w0, wa));
        assert(update_rel(wa, *old(key_manager), wb, *key_manager));
        assert(aim_rel(wb, wc, aim_deg));
        assert(dispatch_rel(wc, wd));
        assert(tick_stages(
            *old(w),
            *old(key_manager),
            aim_deg,
            *w,
            *key_manager,
            wa,
            wb,
            wc,
            wd,
        ));
    }
}

/// A held fire key launches exactly one rocket per press: the update that
/// reads it also consumes it, so the next update — with no fresh press in
/// between — leaves the rocket count alone.
pub proof fn lemma_fire_edge(
    w0: World,
    k0: KeyManager,
    w1: World,
    k1: KeyManager,
    w2: World,
    k2: KeyManager,
)
    requires
        update_rel(w0, k0, w1, k1),
        update_rel(w1, k1, w2, k2),
        player_count(w1.entities@) >= 1,
    ensures
        !k1.spec_pressed("Space"@),
        rocket_count(w2.entities@) == rocket_count(w1.entities@),
{
    let (spawned, relax): (Seq<Entity>, Seq<bool>) = choose|
        spawned: Seq<Entity>,
        relax: Seq<bool>,
    |
        #[trigger] update_spawn_shape(
            w2,
            update_worked(w1, k1),
            update_base_id(w1),
            update_n_spawn(w1, k1),
            k1.spec_pressed("Space"@),
            update_fired_pos(w1),
            update_player_pos(w1),
            spawned,
            relax,
        );
    let base = update_base(w1);
    assert(base == w1.entities@);
    let worked = update_worked(w1, k1);
    let bump = asteroid_count(base) < 1;
    assert(w2.entities@ == worked + spawned);
    assert(forall|x: Entity|
        pred_rocket()(#[trigger] tickwork(
            x,
            bump,
            k1.spec_pressed("D"@),
            k1.spec_pressed("A"@),
            k1.spec_pressed("W"@),
            k1.spec_pressed("S"@),
            k1.spec_pressed("C"@),
        )) == pred_rocket()(x));
    lemma_apply_work_count(
        base,
        bump,
        k1.spec_pressed("D"@),
        k1.spec_pressed("A"@),
        k1.spec_pressed("W"@),
        k1.spec_pressed("S"@),
        k1.spec_pressed("C"@),
        pred_rocket(),
    );
    crate::world::lemma_count_concat(worked, spawned, pred_rocket());
    crate::world::lemma_count_zero(spawned, pred_rocket());
    assert forall|t: int| 0 <= t < spawned.len() implies !pred_rocket()(
        #[trigger] spawned[t],
    ) by {
        lemma_spawned_shape(spawned[t], update_base_id(w1) + t, update_player_pos(w1), relax[t]);
    }
}
} // verus!
