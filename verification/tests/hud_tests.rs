use astroids::components::{Player, Position, Renderable, Rocket, TextureName};
use astroids::hud::{hud_instructions, render_frame};
use astroids::components::Direction;
use astroids::world::{Entity, Kind, World};

fn sample_world() -> World {
    let player = Entity {
        id: 0,
        doomed: false,
        position: Some(Position { x: 50, y: 60, rot: 30 }),
        renderable: Some(Renderable {
            texture_name: TextureName::Marco,
            input_width: 32,
            input_height: 42,
            output_width: 32,
            output_height: 42,
            frame: 1,
            total_frames: 9,
            render_rotation: 15,
        }),
        kind: Kind::Player(Player { speed: 0, direction: Direction::Right, can_take_damage: true }),
    };
    let rocket = Entity {
        id: 1,
        doomed: false,
        position: Some(Position { x: 200, y: 100, rot: 90 }),
        renderable: Some(Renderable {
            texture_name: TextureName::Rocket,
            input_width: 17,
            input_height: 61,
            output_width: 40,
            output_height: 61,
            frame: 0,
            total_frames: 1,
            render_rotation: 90,
        }),
        kind: Kind::Rocket(Rocket { speed: 10 }),
    };
    World { entities: vec![player, rocket], pending: Vec::new(), next_id: 2, loaded: false }
}

#[test]
fn draw_commands_select_the_current_frame() {
    let mut w = sample_world();
    let cmds = render_frame(&mut w);
    assert_eq!(cmds.len(), 2);
    assert_eq!(cmds[0].texture_name, TextureName::Marco);
    assert_eq!(cmds[0].src_x, 32);
    assert_eq!((cmds[0].src_w, cmds[0].src_h), (32, 42));
    assert_eq!((cmds[0].center_x, cmds[0].center_y), (50, 60));
    assert_eq!((cmds[0].out_w, cmds[0].out_h), (32, 42));
    assert_eq!(cmds[0].rotation, 15);
    assert_eq!(cmds[1].texture_name, TextureName::Rocket);
    assert_eq!(cmds[1].src_x, 0);
}

#[test]
fn frames_advance_modulo_strip_length() {
    let mut w = sample_world();
    render_frame(&mut w);
    assert_eq!(w.entities[0].renderable.unwrap().frame, 2);
    assert_eq!(w.entities[1].renderable.unwrap().frame, 0);
    for _ in 0..7 {
        render_frame(&mut w);
    }
    assert_eq!(w.entities[0].renderable.unwrap().frame, 0);
}

#[test]
fn texture_keys_name_the_cached_assets() {
    assert_eq!(TextureName::Marco.key(), "marco");
    assert_eq!(TextureName::Enemy.key(), "enemy");
    assert_eq!(TextureName::Rocket.key(), "rocket");
}

#[test]
fn instructional_strings_are_fixed() {
    let v = hud_instructions();
    assert_eq!(
        v,
        vec![
            "Press C to toggle godmode : ",
            "Score: ",
            "Level: ",
            "Entity amount: ",
            "Press V to spawn 20 enemies",
        ]
    );
}
