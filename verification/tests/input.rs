use raycaster::input::{camera_steps, CameraSteps, Key, ProgramCommand};

#[test]
fn no_key_asks_for_nothing() {
    assert_eq!(
        camera_steps(&vec![]),
        CameraSteps { forward: 0, turn: 0, command: ProgramCommand::NoCommand }
    );
}

#[test]
fn each_key_has_its_meaning() {
    let cases = vec![
        (Key::W, 1, 0, ProgramCommand::NoCommand),
        (Key::Up, 1, 0, ProgramCommand::NoCommand),
        (Key::S, -1, 0, ProgramCommand::NoCommand),
        (Key::Down, -1, 0, ProgramCommand::NoCommand),
        (Key::A, 0, 1, ProgramCommand::NoCommand),
        (Key::Left, 0, 1, ProgramCommand::NoCommand),
        (Key::D, 0, -1, ProgramCommand::NoCommand),
        (Key::Right, 0, -1, ProgramCommand::NoCommand),
        (Key::Escape, 0, 0, ProgramCommand::Quit),
        (Key::Q, 0, 0, ProgramCommand::Quit),
        (Key::Other, 0, 0, ProgramCommand::NoCommand),
    ];
    for (key, forward, turn, command) in cases {
        assert_eq!(camera_steps(&vec![key]), CameraSteps { forward, turn, command });
    }
}

#[test]
fn opposite_keys_cancel_and_like_keys_add_up() {
    let steps = camera_steps(&vec![Key::W, Key::Up, Key::S, Key::A, Key::D, Key::Right]);
    assert_eq!(steps, CameraSteps { forward: 1, turn: -1, command: ProgramCommand::NoCommand });
}

#[test]
fn quit_stays_whatever_follows() {
    let steps = camera_steps(&vec![Key::Q, Key::W, Key::Other, Key::Left]);
    assert_eq!(steps, CameraSteps { forward: 1, turn: 1, command: ProgramCommand::Quit });
}
