//! Controller state seen by scripts: the buttons held this frame and last frame, with
//! presses detected on the edge, and the shared game-sequence record.
//!
//! Button bits: 0 SELECT, 1 START, 2 UP, 3 RIGHT, 4 DOWN, 5 LEFT, 6 L, 7 R,
//! 8 TRIANGLE, 9 CIRCLE, 10 CROSS, 11 SQUARE.
use vstd::prelude::*;
use vstd::string::StringExecFns;
use crate::text::str_eq;

verus! {

/// The buttons held this frame and in the frame before.
#[derive(Clone, Copy, PartialEq, Eq, Structural)]
pub struct KeyState {
    pub current: u32,
    pub previous: u32,
}

/// Bit `bit` of `v` (0 or 1).
pub open spec fn bit_of(v: u32, bit: u32) -> u32 {
    (v >> bit) & 1
}

/// Button `bit` went down this frame: up in the frame before, held now.
pub open spec fn pressed(k: KeyState, bit: u32) -> bool {
    bit_of(k.previous, bit) == 0 && bit_of(k.current, bit) == 1
}

/// The state after a frame whose buttons are `state`.
pub open spec fn after_frame(k: KeyState, state: u32) -> KeyState {
    KeyState { current: state, previous: k.current }
}

impl KeyState {
    /// No button held, now or before.
    pub fn new() -> (k: Self)
        ensures
            k.current == 0,
            k.previous == 0,
    {
        KeyState { current: 0, previous: 0 }
    }
}

/// Records a frame's buttons: the held set becomes the previous one.
pub fn update_global_key_state(keys: &mut KeyState, state: u32)
    ensures
        *final(keys) == after_frame(*old(keys), state),
{
    keys.previous = keys.current;
    keys.current = state;
}

proof fn lemma_set_bit(s: u32, i: u32, b: u32)
    by (bit_vector)
    requires
        i < 32,
        b < 32,
    ensures
        ((s | (1u32 << i)) >> b) & 1 == (if b == i { 1u32 } else { (s >> b) & 1 }),
{
}

/// The button word of a frame from which of the twelve keyboard keys are held, the
/// key at index `i` setting bit `i` (backspace, return, the up, right, down and left
/// arrows, left and right shift, W, D, S and A, in button order).
pub fn pack_key_state(held: &[bool; 12]) -> (state: u32)
    ensures
        forall|b: u32| b < 12 ==> bit_of(state, b) == (if held@[b as int] { 1u32 } else { 0u32 }),
        forall|b: u32| 12 <= b < 32 ==> bit_of(state, b) == 0,
{
    let mut state: u32 = 0;
    let mut i: u32 = 0;
    assert forall|b: u32| b < 32 implies bit_of(0u32, b) == 0 by {
        assert((0u32 >> b) & 1 == 0) by (bit_vector);
    }
    while i < 12
        invariant
            i <= 12,
            forall|b: u32| b < i ==> bit_of(state, b) == (if held@[b as int] { 1u32 } else { 0u32 }),
            forall|b: u32| i <= b < 32 ==> bit_of(state, b) == 0,
        decreases 12 - i,
    {
        if held[i as usize] {
            let ghost before = state;
            state = state | (1u32 << i);
            proof {
                assert forall|b: u32| b < 32 implies bit_of(state, b) == (if b == i { 1u32 } else { bit_of(before, b) }) by {
                    lemma_set_bit(before, i, b);
                }
            }
        }
        i = i + 1;
    }
    state
}

/// The bit of the button that scripts name `name`.
pub open spec fn button_bit_of(name: Seq<char>) -> Option<u32> {
    if name == "cross"@ {
        Some(10)
    } else if name == "circle"@ {
        Some(9)
    } else if name == "triangle"@ {
        Some(8)
    } else if name == "square"@ {
        Some(11)
    } else if name == "start"@ {
        Some(1)
    } else if name == "select"@ {
        Some(0)
    } else if name == "L"@ {
        Some(6)
    } else if name == "R"@ {
        Some(7)
    } else if name == "up"@ {
        Some(2)
    } else if name == "down"@ {
        Some(4)
    } else if name == "left"@ {
        Some(5)
    } else if name == "right"@ {
        Some(3)
    } else if name == "home"@ {
        Some(31)
    } else if name == "hold"@ {
        Some(30)
    } else {
        None
    }
}

/// `button_bit_of` for a name in hand.
pub fn button_bit(name: &str) -> (r: Option<u32>)
    ensures
        r == button_bit_of(name@),
{
    if str_eq(name, "cross") {
        Some(10)
    } else if str_eq(name, "circle") {
        Some(9)
    } else if str_eq(name, "triangle") {
        Some(8)
    } else if str_eq(name, "square") {
        Some(11)
    } else if str_eq(name, "start") {
        Some(1)
    } else if str_eq(name, "select") {
        Some(0)
    } else if str_eq(name, "L") {
        Some(6)
    } else if str_eq(name, "R") {
        Some(7)
    } else if str_eq(name, "up") {
        Some(2)
    } else if str_eq(name, "down") {
        Some(4)
    } else if str_eq(name, "left") {
        Some(5)
    } else if str_eq(name, "right") {
        Some(3)
    } else if str_eq(name, "home") {
        Some(31)
    } else if str_eq(name, "hold") {
        Some(30)
    } else {
        None
    }
}

/// Whether button `bit` was pressed this frame (see `pressed`).
pub fn button_pressed(keys: &KeyState, bit: u32) -> (r: bool)
    requires
        bit < 32,
    ensures
        r == pressed(*keys, bit),
{
    let cur = (keys.current >> bit) & 1;
    let prev = (keys.previous >> bit) & 1;
    prev == 0 && cur == 1
}

/// A press is seen in one frame only: holding the same buttons for another frame shows no
/// press.
pub proof fn lemma_press_fires_once(k: KeyState, state: u32, bit: u32)
    ensures
        !pressed(after_frame(after_frame(k, state), state), bit),
{
}

/// A button held now and not before is pressed after the frame, whatever came earlier.
pub proof fn lemma_press_after_release(k: KeyState, state: u32, bit: u32)
    ensures
        pressed(after_frame(k, state), bit) <==> bit_of(k.current, bit) == 0 && bit_of(state, bit)
            == 1,
{
}

/// The shared game sequence: which sequence runs, the project, and the mode.
pub struct SeqState {
    pub current_sequence: i32,
    pub current_project: String,
    pub finished: bool,
    pub mode: i32,
    pub current_mode: i32,
}

impl SeqState {
    /// The start state: the menu sequence (1) with the "arcade" project, mode 0, current
    /// mode 1, not finished.
    pub fn new() -> (s: Self)
        ensures
            s.current_sequence == 1,
            s.current_project@ == "arcade"@,
            !s.finished,
            s.mode == 0,
            s.current_mode == 1,
    {
        SeqState {
            current_sequence: 1,
            current_project: String::from_str("arcade"),
            finished: false,
            mode: 0,
            current_mode: 1,
        }
    }
}

/// The sequence that runs now.
pub fn get_current_sequence(s: &SeqState) -> (r: i32)
    ensures
        r == s.current_sequence,
{
    s.current_sequence
}

/// Chooses the sequence to run next.
pub fn set_next_sequence(s: &mut SeqState, seq: i32)
    ensures
        final(s).current_sequence == seq,
        final(s).current_project == old(s).current_project,
        final(s).finished == old(s).finished,
        final(s).mode == old(s).mode,
        final(s).current_mode == old(s).current_mode,
{
    s.current_sequence = seq;
}

} // verus!
