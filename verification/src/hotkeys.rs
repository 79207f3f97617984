//! Where a host key goes in the emulator window: to the help overlay, to the
//! disk-memory overlay, or to the machine — after the one-shot emulator
//! hotkey it may name. The frontend performs what the route says.

use vstd::prelude::*;

use crate::help::{help_key, help_key_spec, HelpTab};
use crate::input::{HostKey, HostMods};

verus! {

/// A one-shot emulator command bound to a host key.
#[derive(Clone, Copy, Debug, PartialEq, Eq, Structural)]
pub enum Hotkey {
    /// `F1`/`Esc`: open the help overlay.
    OpenHelp,
    /// `F9`: mount media through the file dialog.
    Mount,
    /// `F2`: eject the cartridge.
    EjectCartridge,
    /// `F3`: eject the disk.
    EjectDisk,
    /// `F4`: open or close the disk-memory overlay.
    ToggleDiskUi,
    /// `Shift`+`F5`: start fresh (a bare console, the resume state dropped).
    FreshStart,
    /// `F5`: reset the machine.
    Reset,
    /// `F7`: switch the keyboard layout.
    ToggleLayout,
    /// `F11`, or `Ctrl`+`Cmd`+`F`: toggle fullscreen.
    ToggleFullscreen,
    /// `Shift`+`F6`: save a snapshot to a named file.
    SaveSnapshot,
    /// `F6`: save the resume state.
    SaveState,
    /// `Shift`+`F8`: load a snapshot from a named file.
    LoadSnapshot,
    /// `F8`: load the resume state.
    LoadState,
    /// `F10`: pause or resume.
    TogglePause,
    /// `F12`: advance one frame.
    FrameAdvance,
    /// `Tab`: fast-forward while held (`true` on press, `false` on release).
    Turbo(bool),
    /// The command modifier + `S`: save a screenshot.
    Screenshot,
    /// The command modifier + `D`: toggle the CPU panel.
    ToggleDebug,
}

/// The hotkey a non-repeating key event names (`down`: pressed, not
/// released), if any. Shift-guarded bindings take precedence over their
/// bare keys; the command modifier is `Cmd` on macOS and `Ctrl` elsewhere.
pub open spec fn hotkey_spec(key: HostKey, down: bool, mods: HostMods, macos: bool) -> Option<Hotkey> {
    let command = if macos {
        mods.cmd
    } else {
        mods.ctrl
    };
    if key == HostKey::Tab {
        Some(Hotkey::Turbo(down))
    } else if !down {
        None
    } else {
        match key {
            HostKey::F1 | HostKey::Escape => Some(Hotkey::OpenHelp),
            HostKey::F9 => Some(Hotkey::Mount),
            HostKey::F2 => Some(Hotkey::EjectCartridge),
            HostKey::F3 => Some(Hotkey::EjectDisk),
            HostKey::F4 => Some(Hotkey::ToggleDiskUi),
            HostKey::F5 => Some(if mods.shift {
                Hotkey::FreshStart
            } else {
                Hotkey::Reset
            }),
            HostKey::F7 => Some(Hotkey::ToggleLayout),
            HostKey::F11 => Some(Hotkey::ToggleFullscreen),
            HostKey::KeyF => if mods.cmd && mods.ctrl {
                Some(Hotkey::ToggleFullscreen)
            } else {
                None
            },
            HostKey::F6 => Some(if mods.shift {
                Hotkey::SaveSnapshot
            } else {
                Hotkey::SaveState
            }),
            HostKey::F8 => Some(if mods.shift {
                Hotkey::LoadSnapshot
            } else {
                Hotkey::LoadState
            }),
            HostKey::F10 => Some(Hotkey::TogglePause),
            HostKey::F12 => Some(Hotkey::FrameAdvance),
            HostKey::KeyS => if command {
                Some(Hotkey::Screenshot)
            } else {
                None
            },
            HostKey::KeyD => if command {
                Some(Hotkey::ToggleDebug)
            } else {
                None
            },
            _ => None,
        }
    }
}

/// The hotkey of a non-repeating key event (`down`: pressed), if any, under
/// the modifiers `mods` (`macos`: the host is macOS).
pub fn hotkey(key: HostKey, down: bool, mods: HostMods, macos: bool) -> (r: Option<Hotkey>)
    ensures
        r == hotkey_spec(key, down, mods, macos),
{
    if key == HostKey::Tab {
        return Some(Hotkey::Turbo(down));
    }
    if !down {
        return None;
    }
    let command = mods.command(macos);
    match key {
        HostKey::F1 | HostKey::Escape => Some(Hotkey::OpenHelp),
        HostKey::F9 => Some(Hotkey::Mount),
        HostKey::F2 => Some(Hotkey::EjectCartridge),
        HostKey::F3 => Some(Hotkey::EjectDisk),
        HostKey::F4 => Some(Hotkey::ToggleDiskUi),
        HostKey::F5 => Some(if mods.shift {
            Hotkey::FreshStart
        } else {
            Hotkey::Reset
        }),
        HostKey::F7 => Some(Hotkey::ToggleLayout),
        HostKey::F11 => Some(Hotkey::ToggleFullscreen),
        HostKey::KeyF => if mods.cmd && mods.ctrl {
            Some(Hotkey::ToggleFullscreen)
        } else {
            None
        },
        HostKey::F6 => Some(if mods.shift {
            Hotkey::SaveSnapshot
        } else {
            Hotkey::SaveState
        }),
        HostKey::F8 => Some(if mods.shift {
            Hotkey::LoadSnapshot
        } else {
            Hotkey::LoadState
        }),
        HostKey::F10 => Some(Hotkey::TogglePause),
        HostKey::F12 => Some(Hotkey::FrameAdvance),
        HostKey::KeyS => if command {
            Some(Hotkey::Screenshot)
        } else {
            None
        },
        HostKey::KeyD => if command {
            Some(Hotkey::ToggleDebug)
        } else {
            None
        },
        _ => None,
    }
}

/// Where a key event goes.
#[derive(Clone, Copy, Debug, PartialEq, Eq, Structural)]
pub enum KeyRoute {
    /// The help overlay took the key press: whether it stays open, and the
    /// tab it shows now.
    Help { open: bool, tab: HelpTab },
    /// The disk-memory overlay takes the key press.
    DiskUi,
    /// An overlay holds the keyboard and drops this event (a release, or an
    /// auto-repeat on the disk overlay).
    Swallowed,
    /// The machine gets the key, after the hotkey it names (none on
    /// auto-repeat).
    Machine(Option<Hotkey>),
}

/// The route of a key event. While the help overlay is open (showing
/// `tab`) it captures input: presses switch tabs or close it. Next the disk
/// overlay captures input, taking fresh presses. Otherwise the key reaches
/// the machine, after the hotkey a non-repeating event names.
pub open spec fn route_spec(
    help_open: bool,
    tab: HelpTab,
    disk_open: bool,
    key: HostKey,
    down: bool,
    repeat: bool,
    mods: HostMods,
    macos: bool,
) -> KeyRoute {
    if help_open {
        if down {
            let (open, t) = help_key_spec(tab, key, mods.shift);
            KeyRoute::Help { open, tab: t }
        } else {
            KeyRoute::Swallowed
        }
    } else if disk_open {
        if down && !repeat {
            KeyRoute::DiskUi
        } else {
            KeyRoute::Swallowed
        }
    } else if repeat {
        KeyRoute::Machine(None)
    } else {
        KeyRoute::Machine(hotkey_spec(key, down, mods, macos))
    }
}

/// Route a key event: `down` (pressed, or released), `repeat` (an
/// auto-repeat), with the overlays' state and the host modifiers.
pub fn route_key(
    help_open: bool,
    tab: HelpTab,
    disk_open: bool,
    key: HostKey,
    down: bool,
    repeat: bool,
    mods: HostMods,
    macos: bool,
) -> (r: KeyRoute)
    ensures
        r == route_spec(help_open, tab, disk_open, key, down, repeat, mods, macos),
{
    if help_open {
        if down {
            let (open, t) = help_key(tab, key, mods.shift);
            KeyRoute::Help { open, tab: t }
        } else {
            KeyRoute::Swallowed
        }
    } else if disk_open {
        if down && !repeat {
            KeyRoute::DiskUi
        } else {
            KeyRoute::Swallowed
        }
    } else if repeat {
        KeyRoute::Machine(None)
    } else {
        KeyRoute::Machine(hotkey(key, down, mods, macos))
    }
}

/// An open overlay holds the keyboard: nothing reaches the machine while the
/// help or the disk overlay is open.
pub proof fn lemma_overlays_hold_the_keyboard(
    help_open: bool,
    tab: HelpTab,
    disk_open: bool,
    key: HostKey,
    down: bool,
    repeat: bool,
    mods: HostMods,
    macos: bool,
)
    requires
        help_open || disk_open,
    ensures
        !(route_spec(help_open, tab, disk_open, key, down, repeat, mods, macos) is Machine),
{
}

/// Auto-repeat never fires a hotkey: a held key cannot toggle anything
/// twice.
pub proof fn lemma_repeat_fires_nothing(
    tab: HelpTab,
    key: HostKey,
    down: bool,
    mods: HostMods,
    macos: bool,
)
    ensures
        route_spec(false, tab, false, key, down, true, mods, macos) == KeyRoute::Machine(None),
{
}

} // verus!
