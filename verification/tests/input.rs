use libre99::input::{
    char_to_ti_key, char_to_ti_press, is_command_key, resolve, to_ti_key, HostKey, HostMods, KeyLayout, TiKey,
    TiPress,
};

#[test]
fn maps_keys_modifiers_and_joystick() {
    assert_eq!(to_ti_key(HostKey::KeyA), Some(TiKey::A));
    assert_eq!(to_ti_key(HostKey::KeyZ), Some(TiKey::Z));
    assert_eq!(to_ti_key(HostKey::Digit2), Some(TiKey::Num2));
    assert_eq!(to_ti_key(HostKey::Enter), Some(TiKey::Enter));
    assert_eq!(to_ti_key(HostKey::Space), Some(TiKey::Space));
    assert_eq!(to_ti_key(HostKey::AltLeft), Some(TiKey::Fctn));
    assert_eq!(to_ti_key(HostKey::ShiftLeft), Some(TiKey::Shift));
    assert_eq!(to_ti_key(HostKey::ControlLeft), Some(TiKey::Ctrl));
    assert_eq!(to_ti_key(HostKey::ArrowUp), Some(TiKey::Joy1Up));
    assert_eq!(to_ti_key(HostKey::AltRight), Some(TiKey::Joy1Fire));
    // Keys with no TI equivalent are ignored.
    assert_eq!(to_ti_key(HostKey::F7), None);
    assert_eq!(to_ti_key(HostKey::Tab), None);
}

#[test]
fn character_map_folds_case_and_covers_the_ti_keys() {
    assert_eq!(char_to_ti_key('a'), Some(TiKey::A));
    assert_eq!(char_to_ti_key('A'), Some(TiKey::A));
    assert_eq!(char_to_ti_key('5'), Some(TiKey::Num5));
    assert_eq!(char_to_ti_key('='), Some(TiKey::Equals));
    assert_eq!(char_to_ti_key(';'), Some(TiKey::Semicolon));
    // No TI key for these characters (they are SHIFT/FCTN combinations on the
    // TI, formed from a base key plus a modifier).
    assert_eq!(char_to_ti_key('@'), None);
    assert_eq!(char_to_ti_key('['), None);
}

#[test]
fn key_layout_config_round_trips() {
    assert_eq!(KeyLayout::from_config("character"), KeyLayout::Character);
    assert_eq!(KeyLayout::from_config("Positional"), KeyLayout::Positional);
    // Character is the default, so unknown values resolve to it.
    assert_eq!(KeyLayout::from_config("nonsense"), KeyLayout::Character);
    assert_eq!(KeyLayout::default(), KeyLayout::Character);
    assert_eq!(KeyLayout::default().as_config(), "character");
    assert_eq!(KeyLayout::from_config(KeyLayout::Positional.as_config()), KeyLayout::Positional);
}

#[test]
fn character_mode_types_symbols_via_ti_combos() {
    let combo = |m, k| Some(TiPress { modifier: Some(m), key: Some(k) });
    let base = |k| Some(TiPress { modifier: None, key: Some(k) });
    // The user's example: a double-quote is FCTN+P on the TI.
    assert_eq!(char_to_ti_press('"'), combo(TiKey::Fctn, TiKey::P));
    assert_eq!(char_to_ti_press('\''), combo(TiKey::Fctn, TiKey::O));
    assert_eq!(char_to_ti_press('?'), combo(TiKey::Fctn, TiKey::I));
    assert_eq!(char_to_ti_press('_'), combo(TiKey::Fctn, TiKey::U));
    // SHIFT symbols, including the unusual `-` = SHIFT+/ and `:` = SHIFT+;.
    assert_eq!(char_to_ti_press('@'), combo(TiKey::Shift, TiKey::Num2));
    assert_eq!(char_to_ti_press('+'), combo(TiKey::Shift, TiKey::Equals));
    assert_eq!(char_to_ti_press('-'), combo(TiKey::Shift, TiKey::Slash));
    assert_eq!(char_to_ti_press(':'), combo(TiKey::Shift, TiKey::Semicolon));
    // Letters: lowercase is unshifted, uppercase adds SHIFT.
    assert_eq!(char_to_ti_press('a'), base(TiKey::A));
    assert_eq!(char_to_ti_press('A'), combo(TiKey::Shift, TiKey::A));
    // Plain base keys.
    assert_eq!(char_to_ti_press('5'), base(TiKey::Num5));
    assert_eq!(char_to_ti_press('='), base(TiKey::Equals));
    // The bracket/backslash/backtick family types like any other key.
    assert_eq!(char_to_ti_press('['), combo(TiKey::Fctn, TiKey::R));
    assert_eq!(char_to_ti_press(']'), combo(TiKey::Fctn, TiKey::T));
    assert_eq!(char_to_ti_press('{'), combo(TiKey::Fctn, TiKey::F));
    assert_eq!(char_to_ti_press('}'), combo(TiKey::Fctn, TiKey::G));
    assert_eq!(char_to_ti_press('\\'), combo(TiKey::Fctn, TiKey::Z));
    assert_eq!(char_to_ti_press('|'), combo(TiKey::Fctn, TiKey::A));
    assert_eq!(char_to_ti_press('`'), combo(TiKey::Fctn, TiKey::C));
    assert_eq!(char_to_ti_press('~'), combo(TiKey::Fctn, TiKey::W));
    // A character the TI keyboard can't produce.
    assert_eq!(char_to_ti_press('\u{20AC}'), None); // euro sign
}

#[test]
fn command_modifier_is_platform_correct_and_reserves_s_and_d() {
    // The reserved command-shortcut keys.
    assert!(is_command_key(HostKey::KeyS), "Cmd/Ctrl+S = screenshot");
    assert!(is_command_key(HostKey::KeyD), "Cmd/Ctrl+D = CPU inspector");
    assert!(!is_command_key(HostKey::KeyA));
    assert!(!is_command_key(HostKey::KeyF));

    // The platform command modifier: Super/Cmd on macOS, Ctrl elsewhere.
    let ctrl = HostMods { ctrl: true, ..HostMods::default() };
    let cmd = HostMods { cmd: true, ..HostMods::default() };
    assert!(cmd.command(true));
    assert!(!ctrl.command(true));
    assert!(ctrl.command(false), "Ctrl is the command modifier off macOS");
    assert!(!cmd.command(false), "Super is not the command modifier off macOS");
}

#[test]
fn ti_press_yields_modifier_then_key() {
    let p = TiPress { modifier: Some(TiKey::Fctn), key: Some(TiKey::P) };
    assert_eq!(p.keys(), vec![TiKey::Fctn, TiKey::P]);
    let p = TiPress { modifier: None, key: Some(TiKey::A) };
    assert_eq!(p.keys(), vec![TiKey::A]);
    assert_eq!(TiPress::none().keys().len(), 0);
}

#[test]
fn resolution_by_layout_and_modifiers() {
    let none = HostMods::default();
    let alt = HostMods { alt: true, ..HostMods::default() };
    let ctrl = HostMods { ctrl: true, ..HostMods::default() };
    let cmd = HostMods { cmd: true, ..HostMods::default() };
    let nothing = TiPress::none();
    // Character mode: the produced character decides.
    assert_eq!(
        resolve(Some(HostKey::Other), Some('"'), KeyLayout::Character, none, false),
        TiPress { modifier: Some(TiKey::Fctn), key: Some(TiKey::P) }
    );
    // Positional mode: the physical key decides.
    assert_eq!(
        resolve(Some(HostKey::KeyQ), Some('a'), KeyLayout::Positional, none, false),
        TiPress { modifier: None, key: Some(TiKey::Q) }
    );
    // Alt selects the function layer positionally.
    assert_eq!(
        resolve(Some(HostKey::KeyQ), Some('a'), KeyLayout::Character, alt, false),
        TiPress { modifier: None, key: Some(TiKey::Q) }
    );
    // Backspace is FCTN+S.
    assert_eq!(
        resolve(Some(HostKey::Backspace), None, KeyLayout::Character, none, false),
        TiPress { modifier: Some(TiKey::Fctn), key: Some(TiKey::S) }
    );
    // Command chords never reach the TI; other Ctrl chords do off macOS.
    assert_eq!(resolve(Some(HostKey::KeyA), Some('a'), KeyLayout::Character, cmd, true), nothing);
    assert_eq!(resolve(Some(HostKey::KeyS), Some('s'), KeyLayout::Character, ctrl, false), nothing);
    assert_eq!(
        resolve(Some(HostKey::KeyS), Some('s'), KeyLayout::Character, ctrl, true),
        TiPress { modifier: None, key: Some(TiKey::S) }
    );
    assert_eq!(
        resolve(Some(HostKey::KeyA), Some('a'), KeyLayout::Character, ctrl, false),
        TiPress { modifier: None, key: Some(TiKey::A) }
    );
    // Bare Shift does nothing in character mode; Left Alt is FCTN.
    assert_eq!(resolve(Some(HostKey::ShiftLeft), None, KeyLayout::Character, none, false), nothing);
    assert_eq!(
        resolve(Some(HostKey::AltLeft), None, KeyLayout::Character, none, false),
        TiPress { modifier: None, key: Some(TiKey::Fctn) }
    );
    assert_eq!(resolve(None, Some('a'), KeyLayout::Character, none, false), nothing);
}

#[test]
fn f7_switches_the_layout_and_names_it() {
    assert_eq!(KeyLayout::Character.toggled(), KeyLayout::Positional);
    assert_eq!(KeyLayout::Positional.toggled(), KeyLayout::Character);
    assert_eq!(KeyLayout::Positional.banner(), "INPUT: POSITIONAL (QWERTY)");
    assert_eq!(KeyLayout::Character.banner(), "INPUT: CHARACTER (HOST LAYOUT)");
}
