//! What the keys that are held down ask of the camera and of the program.
//!
//! The library does not poll a keyboard. It takes the keys that were found
//! pressed and says how many steps forward and how many steps of turning
//! they amount to for one frame, and whether the program is to quit. How
//! long a step is belongs to whoever moves the camera.

use vstd::prelude::*;

verus! {

/// What the keys ask of the program as a whole.
#[derive(Copy, Clone, Debug, PartialEq, Eq, Structural)]
pub enum ProgramCommand {
    NoCommand,
    Quit,
}

/// A key as far as the program tells keys apart.
#[derive(Copy, Clone, Debug, PartialEq, Eq, Structural)]
pub enum Key {
    W,
    Up,
    S,
    Down,
    A,
    Left,
    D,
    Right,
    Escape,
    Q,
    /// Any key without a meaning here.
    Other,
}

/// The sum of what the pressed keys ask for in one frame.
#[derive(Copy, Clone, Debug, PartialEq, Eq, Structural)]
pub struct CameraSteps {
    /// Steps forward; negative for steps back.
    pub forward: i64,
    /// Steps of turning to the left; negative for turning right.
    pub turn: i64,
    pub command: ProgramCommand,
}

/// The steps forward one key stands for: `W` and `Up` one forward, `S` and
/// `Down` one back.
pub open spec fn forward_of(key: Key) -> int {
    match key {
        Key::W | Key::Up => 1,
        Key::S | Key::Down => -1,
        _ => 0,
    }
}

/// The steps of turning one key stands for: `A` and `Left` one to the left,
/// `D` and `Right` one to the right.
pub open spec fn turn_of(key: Key) -> int {
    match key {
        Key::A | Key::Left => 1,
        Key::D | Key::Right => -1,
        _ => 0,
    }
}

/// Whether the key asks the program to quit: `Escape` and `Q` do.
pub open spec fn quits(key: Key) -> bool {
    key == Key::Escape || key == Key::Q
}

/// The steps forward all of `keys` stand for together.
pub open spec fn forward_sum(keys: Seq<Key>) -> int
    decreases keys.len(),
{
    if keys.len() == 0 {
        0
    } else {
        forward_sum(keys.drop_last()) + forward_of(keys.last())
    }
}

/// The steps of turning all of `keys` stand for together.
pub open spec fn turn_sum(keys: Seq<Key>) -> int
    decreases keys.len(),
{
    if keys.len() == 0 {
        0
    } else {
        turn_sum(keys.drop_last()) + turn_of(keys.last())
    }
}

/// Neither sum can pass the number of keys.
pub proof fn lemma_sums_within_count(keys: Seq<Key>)
    ensures
        -keys.len() <= forward_sum(keys) <= keys.len(),
        -keys.len() <= turn_sum(keys) <= keys.len(),
    decreases keys.len(),
{
    if keys.len() > 0 {
        lemma_sums_within_count(keys.drop_last());
    }
}

/// Based on the keys that are pressed, say how the camera is to move.
///
/// Opposite keys cancel, keys of one direction add up, and keys without a
/// meaning count for nothing; with no key of a kind pressed, nothing of
/// that kind is asked for. One `Escape` or `Q` among the keys asks the
/// program to quit, whatever else is pressed.
pub fn camera_steps(keys_pressed: &Vec<Key>) -> (steps: CameraSteps)
    requires
        keys_pressed.len() <= i64::MAX,
    ensures
        steps.forward == forward_sum(keys_pressed@),
        steps.turn == turn_sum(keys_pressed@),
        steps.command == ProgramCommand::Quit <==> exists|i: int|
            0 <= i < keys_pressed.len() && quits(#[trigger] keys_pressed[i]),
        steps.command == ProgramCommand::Quit || steps.command == ProgramCommand::NoCommand,
{
    let mut command = ProgramCommand::NoCommand;
    let mut forward_change: i64 = 0;
    let mut angle_change: i64 = 0;
    let mut idx: usize = 0;
    while idx < keys_pressed.len()
        invariant
            idx <= keys_pressed.len() <= i64::MAX,
            forward_change == forward_sum(keys_pressed@.take(idx as int)),
            angle_change == turn_sum(keys_pressed@.take(idx as int)),
            command == ProgramCommand::Quit <==> exists|i: int|
                0 <= i < idx && quits(#[trigger] keys_pressed[i]),
            command == ProgramCommand::Quit || command == ProgramCommand::NoCommand,
        decreases keys_pressed.len() - idx,
    {
        proof {
            lemma_sums_within_count(keys_pressed@.take(idx as int));
            assert(keys_pressed@.take(idx + 1).drop_last() =~= keys_pressed@.take(idx as int));
        }
        match keys_pressed[idx] {
            Key::W | Key::Up => {
                forward_change = forward_change + 1;
            },
            Key::S | Key::Down => {
                forward_change = forward_change - 1;
            },
            Key::A | Key::Left => {
                angle_change = angle_change + 1;
            },
            Key::D | Key::Right => {
                angle_change = angle_change - 1;
            },
            Key::Escape | Key::Q => {
                command = ProgramCommand::Quit;
            },
            Key::Other => {},
        }
        idx = idx + 1;
    }
    assert(keys_pressed@.take(idx as int) =~= keys_pressed@);
    CameraSteps { forward: forward_change, turn: angle_change, command }
}

} // verus!
