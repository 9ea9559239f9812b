//! What a key asks for.
use crate::app::menu::Command;
use crate::image::decoder::same_text;
use vstd::prelude::*;

verus! {

/// A key. Keys that the program has no use for are all the same.
#[derive(Debug)]
pub enum Key {
    Tab,
    ArrowRight,
    ArrowLeft,
    Space,
    Escape,
    Character(String),
    Other,
}

/// The modifiers that are held with a key.
#[derive(Clone, Copy, Debug, PartialEq, Eq, Structural)]
pub struct Modifiers {
    pub command: bool,
    pub control: bool,
    pub option: bool,
    pub shift: bool,
}

impl Modifiers {
    /// Whether the key belongs to the menu or to the system.
    pub open spec fn reserved(self) -> bool {
        self.command || self.control || self.option
    }
}

/// Whether a key is the space bar.
pub open spec fn space(key: Key) -> bool {
    key is Space || (key matches Key::Character(c) && c@ == " "@)
}

/// Whether a key is one of those that types a letter, in either case.
pub open spec fn typed(key: Key, small: Seq<char>, large: Seq<char>) -> bool {
    key matches Key::Character(c) && (c@ == small || c@ == large)
}

/// Whether a key asks for the photograph on screen to be moved away. A key that
/// is held does so once.
pub open spec fn moves(key: Key, modifiers: Modifiers, repeat: bool) -> bool {
    &&& !repeat
    &&& !modifiers.reserved()
    &&& (space(key) && !modifiers.shift) || typed(key, "x"@, "X"@)
}

fn is_space(key: &Key) -> (out: bool)
    ensures
        out == space(*key),
{
    match key {
        Key::Space => true,
        Key::Character(c) => same_text(c.as_str(), " "),
        _ => false,
    }
}

/// Whether a key asks for the photograph on screen to be moved away.
pub fn move_requested(key: &Key, modifiers: Modifiers, repeat: bool) -> (out: bool)
    ensures
        out == moves(*key, modifiers, repeat),
{
    if repeat || modifiers.command || modifiers.control || modifiers.option {
        return false;
    }
    proof {
        lemma_space_is_no_letter();
    }
    if is_space(key) {
        return !modifiers.shift;
    }
    match key {
        Key::Character(c) => same_text(c.as_str(), "x") || same_text(c.as_str(), "X"),
        _ => false,
    }
}

proof fn lemma_space_is_no_letter()
    ensures
        " "@ != "x"@,
        " "@ != "X"@,
{
    reveal_strlit(" ");
    reveal_strlit("x");
    reveal_strlit("X");
    assert(" "@[0] != "x"@[0]);
    assert(" "@[0] != "X"@[0]);
}

/// What a key asks for.
#[derive(Clone, Copy, Debug, PartialEq, Eq, Structural)]
pub enum KeyAction {
    Nothing,
    /// Move the photograph on screen away.
    MoveCurrent,
    Next,
    Previous,
    Rate(i8),
    Run(Command),
    Fullscreen,
    /// Show a detail for as long as the key is held.
    Peek,
    ToggleFitActual,
    ZoomIn,
    ZoomOut,
}

/// Whether a key acts again while it is held: zoom and brightness do.
pub open spec fn repeats(key: Key) -> bool {
    ||| typed(key, "+"@, "="@)
    ||| typed(key, "-"@, "_"@)
    ||| typed(key, "s"@, "S"@)
    ||| typed(key, "d"@, "D"@)
    ||| typed(key, "["@, "]"@)
}

/// What a character asks for.
pub open spec fn character_action(key: Key, shift: bool) -> KeyAction {
    if typed(key, "u"@, "U"@) || typed(key, "0"@, "0"@) {
        KeyAction::Rate(0)
    } else if typed(key, "1"@, "1"@) {
        KeyAction::Rate(1)
    } else if typed(key, "2"@, "2"@) {
        KeyAction::Rate(2)
    } else if typed(key, "3"@, "3"@) {
        KeyAction::Rate(3)
    } else if typed(key, "4"@, "4"@) {
        KeyAction::Rate(4)
    } else if typed(key, "5"@, "5"@) {
        KeyAction::Rate(5)
    } else if typed(key, "f"@, "F"@) {
        KeyAction::Fullscreen
    } else if typed(key, "l"@, "L"@) {
        KeyAction::Run(Command::ZoomLock)
    } else if typed(key, "a"@, "A"@) {
        KeyAction::Run(Command::AutoAdvance)
    } else if typed(key, "c"@, "C"@) {
        KeyAction::Run(
            if shift {
                Command::ReplacePin
            } else {
                Command::Pin
            },
        )
    } else if typed(key, "p"@, "P"@) {
        KeyAction::Peek
    } else if typed(key, "z"@, "Z"@) {
        KeyAction::ToggleFitActual
    } else if typed(key, "+"@, "="@) || typed(key, "s"@, "S"@) {
        KeyAction::ZoomIn
    } else if typed(key, "-"@, "_"@) || typed(key, "d"@, "D"@) {
        KeyAction::ZoomOut
    } else if typed(key, "]"@, "]"@) {
        KeyAction::Run(Command::Brighten)
    } else if typed(key, "["@, "["@) {
        KeyAction::Run(Command::Darken)
    } else if typed(key, "\\"@, "\\"@) {
        KeyAction::Run(Command::ResetBrightness)
    } else {
        KeyAction::Nothing
    }
}

/// What a key asks for. Modified keys belong to the menu. Moves, ratings and
/// modes act once for each press; arrows, zoom and brightness may repeat.
pub open spec fn action(key: Key, modifiers: Modifiers, repeat: bool, fullscreen: bool) -> KeyAction {
    if modifiers.reserved() {
        KeyAction::Nothing
    } else if moves(key, modifiers, repeat) {
        KeyAction::MoveCurrent
    } else if key is Tab {
        if repeat {
            KeyAction::Nothing
        } else {
            KeyAction::Run(Command::Filmstrip)
        }
    } else if key is ArrowRight {
        KeyAction::Next
    } else if key is ArrowLeft {
        KeyAction::Previous
    } else if space(key) {
        if modifiers.shift {
            KeyAction::Previous
        } else {
            KeyAction::Nothing
        }
    } else if key is Escape {
        if fullscreen {
            KeyAction::Fullscreen
        } else {
            KeyAction::Run(Command::Fit)
        }
    } else if repeat && !repeats(key) {
        KeyAction::Nothing
    } else {
        character_action(key, modifiers.shift)
    }
}

fn is_typed(key: &Key, small: &str, large: &str) -> (out: bool)
    ensures
        out == typed(*key, small@, large@),
{
    match key {
        Key::Character(c) => same_text(c.as_str(), small) || same_text(c.as_str(), large),
        _ => false,
    }
}

fn act_on_character(key: &Key, shift: bool) -> (out: KeyAction)
    ensures
        out == character_action(*key, shift),
{
    if is_typed(key, "u", "U") || is_typed(key, "0", "0") {
        KeyAction::Rate(0)
    } else if is_typed(key, "1", "1") {
        KeyAction::Rate(1)
    } else if is_typed(key, "2", "2") {
        KeyAction::Rate(2)
    } else if is_typed(key, "3", "3") {
        KeyAction::Rate(3)
    } else if is_typed(key, "4", "4") {
        KeyAction::Rate(4)
    } else if is_typed(key, "5", "5") {
        KeyAction::Rate(5)
    } else if is_typed(key, "f", "F") {
        KeyAction::Fullscreen
    } else if is_typed(key, "l", "L") {
        KeyAction::Run(Command::ZoomLock)
    } else if is_typed(key, "a", "A") {
        KeyAction::Run(Command::AutoAdvance)
    } else if is_typed(key, "c", "C") {
        KeyAction::Run(
            if shift {
                Command::ReplacePin
            } else {
                Command::Pin
            },
        )
    } else if is_typed(key, "p", "P") {
        KeyAction::Peek
    } else if is_typed(key, "z", "Z") {
        KeyAction::ToggleFitActual
    } else if is_typed(key, "+", "=") || is_typed(key, "s", "S") {
        KeyAction::ZoomIn
    } else if is_typed(key, "-", "_") || is_typed(key, "d", "D") {
        KeyAction::ZoomOut
    } else if is_typed(key, "]", "]") {
        KeyAction::Run(Command::Brighten)
    } else if is_typed(key, "[", "[") {
        KeyAction::Run(Command::Darken)
    } else if is_typed(key, "\\", "\\") {
        KeyAction::Run(Command::ResetBrightness)
    } else {
        KeyAction::Nothing
    }
}

/// What a key asks for.
pub fn key_action(key: &Key, modifiers: Modifiers, repeat: bool, fullscreen: bool) -> (out: KeyAction)
    ensures
        out == action(*key, modifiers, repeat, fullscreen),
{
    if modifiers.command || modifiers.control || modifiers.option {
        return KeyAction::Nothing;
    }
    if move_requested(key, modifiers, repeat) {
        return KeyAction::MoveCurrent;
    }
    match key {
        Key::Tab => {
            return if repeat {
                KeyAction::Nothing
            } else {
                KeyAction::Run(Command::Filmstrip)
            };
        },
        Key::ArrowRight => {
            return KeyAction::Next;
        },
        Key::ArrowLeft => {
            return KeyAction::Previous;
        },
        _ => {},
    }
    if is_space(key) {
        return if modifiers.shift {
            KeyAction::Previous
        } else {
            KeyAction::Nothing
        };
    }
    match key {
        Key::Escape => {
            return if fullscreen {
                KeyAction::Fullscreen
            } else {
                KeyAction::Run(Command::Fit)
            };
        },
        _ => {},
    }
    let again = is_typed(key, "+", "=") || is_typed(key, "-", "_") || is_typed(key, "s", "S")
        || is_typed(key, "d", "D") || is_typed(key, "[", "]");
    if repeat && !again {
        return KeyAction::Nothing;
    }
    act_on_character(key, modifiers.shift)
}

/// A key that is held never moves or rates another photograph, nor does a key
/// that belongs to the menu.
pub proof fn law_held_keys_change_nothing(
    key: Key,
    modifiers: Modifiers,
    repeat: bool,
    fullscreen: bool,
)
    requires
        repeat || modifiers.reserved(),
    ensures
        action(key, modifiers, repeat, fullscreen) != KeyAction::MoveCurrent,
        !(action(key, modifiers, repeat, fullscreen) is Rate),
{
    if repeats(key) {
        lemma_repeating_keys_do_not_rate(key);
    }
}

proof fn lemma_repeating_keys_do_not_rate(key: Key)
    requires
        repeats(key),
    ensures
        !(character_action(key, false) is Rate),
        !(character_action(key, true) is Rate),
{
    reveal_strlit("+");
    reveal_strlit("=");
    reveal_strlit("-");
    reveal_strlit("_");
    reveal_strlit("s");
    reveal_strlit("S");
    reveal_strlit("d");
    reveal_strlit("D");
    reveal_strlit("[");
    reveal_strlit("]");
    reveal_strlit("u");
    reveal_strlit("U");
    reveal_strlit("0");
    reveal_strlit("1");
    reveal_strlit("2");
    reveal_strlit("3");
    reveal_strlit("4");
    reveal_strlit("5");
    if let Key::Character(c) = key {
        assert(c@.len() == 1);
        let one = c@[0];
        assert("u"@[0] == 'u' && "U"@[0] == 'U' && "0"@[0] == '0' && "1"@[0] == '1' && "2"@[0] == '2'
            && "3"@[0] == '3' && "4"@[0] == '4' && "5"@[0] == '5');
        assert(one == '+' || one == '=' || one == '-' || one == '_' || one == 's' || one == 'S'
            || one == 'd' || one == 'D' || one == '[' || one == ']');
    }
}

} // verus!
