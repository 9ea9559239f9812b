use fastcull::app::menu::Command;
use fastcull::app::shortcuts::{key_action, move_requested, Key, KeyAction, Modifiers};

const NONE: Modifiers = Modifiers {
    command: false,
    control: false,
    option: false,
    shift: false,
};
const SHIFT: Modifiers = Modifiers {
    command: false,
    control: false,
    option: false,
    shift: true,
};

fn character(text: &str) -> Key {
    Key::Character(text.to_string())
}

fn move_keys() -> [Key; 4] {
    [Key::Space, character(" "), character("x"), character("X")]
}

#[test]
fn space_representations_and_both_x_cases_request_one_move() {
    for key in move_keys() {
        assert!(move_requested(&key, NONE, false), "{key:?}");
    }
}

#[test]
fn shift_space_remains_navigation_while_shift_x_can_move() {
    for key in move_keys().into_iter().take(2) {
        assert!(!move_requested(&key, SHIFT, false), "{key:?}");
    }
    for key in move_keys().into_iter().skip(2) {
        assert!(move_requested(&key, SHIFT, false), "{key:?}");
    }
}

#[test]
fn held_move_keys_never_request_another_move() {
    for key in move_keys() {
        for modifiers in [NONE, SHIFT] {
            assert!(
                !move_requested(&key, modifiers, true),
                "{key:?} {modifiers:?}"
            );
        }
    }
}

#[test]
fn every_command_control_option_combination_blocks_moves() {
    for bits in 1u8..16 {
        let modifiers = Modifiers {
            command: bits & 1 != 0,
            control: bits & 2 != 0,
            option: bits & 4 != 0,
            shift: bits & 8 != 0,
        };
        if modifiers == SHIFT {
            continue;
        }
        for key in move_keys() {
            for repeat in [false, true] {
                assert!(
                    !move_requested(&key, modifiers, repeat),
                    "{key:?} {modifiers:?} repeat={repeat}"
                );
            }
        }
    }
}

#[test]
fn unrelated_keys_and_character_sequences_never_request_moves() {
    let unrelated = [
        Key::ArrowRight,
        Key::ArrowLeft,
        Key::Tab,
        Key::Other,
        character(""),
        character("xx"),
        character("X "),
        character("Space"),
        character("\u{3c7}"),
        character("s"),
        character("d"),
    ];
    for key in unrelated {
        for modifiers in [NONE, SHIFT] {
            assert!(
                !move_requested(&key, modifiers, false),
                "{key:?} {modifiers:?}"
            );
        }
    }
}

#[test]
fn keys_browse_rate_and_zoom() {
    let action = |key: &Key| key_action(key, NONE, false, false);
    assert_eq!(action(&Key::ArrowRight), KeyAction::Next);
    assert_eq!(action(&Key::ArrowLeft), KeyAction::Previous);
    assert_eq!(key_action(&Key::Space, SHIFT, false, false), KeyAction::Previous);
    assert_eq!(action(&character("x")), KeyAction::MoveCurrent);
    for stars in 1..=5 {
        assert_eq!(
            action(&character(&stars.to_string())),
            KeyAction::Rate(stars as i8)
        );
    }
    assert_eq!(action(&character("z")), KeyAction::ToggleFitActual);
    assert_eq!(action(&character("s")), KeyAction::ZoomIn);
    assert_eq!(action(&character("d")), KeyAction::ZoomOut);
    assert_eq!(action(&character("f")), KeyAction::Fullscreen);
    assert_eq!(action(&character("p")), KeyAction::Peek);
    assert_eq!(action(&Key::Other), KeyAction::Nothing);
    assert!(matches!(action(&character("l")), KeyAction::Run(_)));
}

#[test]
fn escape_leaves_fullscreen_only() {
    assert_eq!(key_action(&Key::Escape, NONE, false, true), KeyAction::Fullscreen);
    assert_eq!(
        key_action(&Key::Escape, NONE, false, false),
        KeyAction::Run(Command::Fit)
    );
}

