use libre99::help::{help_key, HelpTab};
use libre99::hotkeys::{hotkey, route_key, Hotkey, KeyRoute};
use libre99::input::{HostKey, HostMods};

fn mods(alt: bool, ctrl: bool, cmd: bool, shift: bool) -> HostMods {
    HostMods { alt, ctrl, cmd, shift }
}

#[test]
fn help_keys_switch_tabs_or_close() {
    assert_eq!(help_key(HelpTab::Start, HostKey::Escape, false), (false, HelpTab::Start));
    assert_eq!(help_key(HelpTab::Hotkeys, HostKey::F1, false), (false, HelpTab::Hotkeys));
    assert_eq!(help_key(HelpTab::Start, HostKey::Tab, false), (true, HelpTab::Keyboard));
    assert_eq!(help_key(HelpTab::Start, HostKey::Tab, true), (true, HelpTab::Settings));
    assert_eq!(help_key(HelpTab::Settings, HostKey::ArrowRight, false), (true, HelpTab::Start));
    assert_eq!(help_key(HelpTab::Keyboard, HostKey::ArrowLeft, false), (true, HelpTab::Start));
    assert_eq!(help_key(HelpTab::Start, HostKey::Digit3, false), (true, HelpTab::Hotkeys));
    assert_eq!(help_key(HelpTab::Keyboard, HostKey::KeyQ, false), (true, HelpTab::Keyboard));
}

#[test]
fn shift_guarded_hotkeys_take_precedence() {
    let none = HostMods::default();
    let shift = mods(false, false, false, true);
    assert_eq!(hotkey(HostKey::F5, true, none, false), Some(Hotkey::Reset));
    assert_eq!(hotkey(HostKey::F5, true, shift, false), Some(Hotkey::FreshStart));
    assert_eq!(hotkey(HostKey::F6, true, shift, false), Some(Hotkey::SaveSnapshot));
    assert_eq!(hotkey(HostKey::F6, true, none, false), Some(Hotkey::SaveState));
    assert_eq!(hotkey(HostKey::F8, true, shift, false), Some(Hotkey::LoadSnapshot));
    assert_eq!(hotkey(HostKey::F8, true, none, false), Some(Hotkey::LoadState));
    assert_eq!(hotkey(HostKey::F9, false, none, false), None, "releases fire nothing");
}

#[test]
fn command_chords_follow_the_platform() {
    let ctrl = mods(false, true, false, false);
    let cmd = mods(false, false, true, false);
    assert_eq!(hotkey(HostKey::KeyS, true, ctrl, false), Some(Hotkey::Screenshot));
    assert_eq!(hotkey(HostKey::KeyS, true, ctrl, true), None);
    assert_eq!(hotkey(HostKey::KeyD, true, cmd, true), Some(Hotkey::ToggleDebug));
    assert_eq!(hotkey(HostKey::KeyF, true, mods(false, true, true, false), true), Some(Hotkey::ToggleFullscreen));
    assert_eq!(hotkey(HostKey::KeyF, true, ctrl, true), None);
    assert_eq!(hotkey(HostKey::F11, true, HostMods::default(), false), Some(Hotkey::ToggleFullscreen));
}

#[test]
fn tab_turbo_acts_on_press_and_release() {
    let none = HostMods::default();
    assert_eq!(hotkey(HostKey::Tab, true, none, false), Some(Hotkey::Turbo(true)));
    assert_eq!(hotkey(HostKey::Tab, false, none, false), Some(Hotkey::Turbo(false)));
}

#[test]
fn overlays_capture_the_keyboard() {
    let none = HostMods::default();
    assert_eq!(
        route_key(true, HelpTab::Start, false, HostKey::Digit2, true, false, none, false),
        KeyRoute::Help { open: true, tab: HelpTab::Keyboard }
    );
    assert_eq!(route_key(true, HelpTab::Start, false, HostKey::KeyA, false, false, none, false), KeyRoute::Swallowed);
    assert_eq!(route_key(false, HelpTab::Start, true, HostKey::ArrowUp, true, false, none, false), KeyRoute::DiskUi);
    assert_eq!(route_key(false, HelpTab::Start, true, HostKey::ArrowUp, true, true, none, false), KeyRoute::Swallowed);
    assert_eq!(route_key(false, HelpTab::Start, false, HostKey::F10, true, false, none, false), KeyRoute::Machine(Some(Hotkey::TogglePause)));
    assert_eq!(route_key(false, HelpTab::Start, false, HostKey::F10, true, true, none, false), KeyRoute::Machine(None));
    assert_eq!(route_key(false, HelpTab::Start, false, HostKey::KeyA, true, false, none, false), KeyRoute::Machine(None));
}
