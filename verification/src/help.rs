//! The tabs of the `Esc` / `F1` help overlay — a four-tab reference (Start,
//! Keyboard, Hotkeys, Settings) — and how the keys move between them.

use vstd::prelude::*;

use crate::input::HostKey;

verus! {

/// Which help tab is showing. The order matches the on-screen 1–4 numbering.
#[derive(Clone, Copy, PartialEq, Eq, Debug, Structural)]
pub enum HelpTab {
    Start,
    Keyboard,
    Hotkeys,
    Settings,
}

/// The position of a tab in the on-screen order (0-based).
pub open spec fn tab_index(t: HelpTab) -> int {
    match t {
        HelpTab::Start => 0,
        HelpTab::Keyboard => 1,
        HelpTab::Hotkeys => 2,
        HelpTab::Settings => 3,
    }
}

/// The tab at position `i` (0-based, `i < 4`).
pub open spec fn tab_at(i: int) -> HelpTab {
    if i == 0 {
        HelpTab::Start
    } else if i == 1 {
        HelpTab::Keyboard
    } else if i == 2 {
        HelpTab::Hotkeys
    } else {
        HelpTab::Settings
    }
}

/// The tab `delta` steps from `t`, wrapping around the four.
pub open spec fn cycle_spec(t: HelpTab, delta: int) -> HelpTab {
    tab_at((tab_index(t) + delta) % 4)
}

/// The label of a tab.
pub open spec fn tab_label(t: HelpTab) -> Seq<char> {
    match t {
        HelpTab::Start => "START"@,
        HelpTab::Keyboard => "KEYBOARD"@,
        HelpTab::Hotkeys => "HOTKEYS"@,
        HelpTab::Settings => "SETTINGS"@,
    }
}

impl HelpTab {
    /// Every tab, in the on-screen order.
    pub const ALL: [HelpTab; 4] = [HelpTab::Start, HelpTab::Keyboard, HelpTab::Hotkeys, HelpTab::Settings];

    /// The position of this tab in [`HelpTab::ALL`].
    pub fn index(self) -> (i: usize)
        ensures
            i == tab_index(self),
    {
        match self {
            HelpTab::Start => 0,
            HelpTab::Keyboard => 1,
            HelpTab::Hotkeys => 2,
            HelpTab::Settings => 3,
        }
    }

    /// Next/previous tab, wrapping (`delta` is +1 or -1).
    pub fn cycle(self, delta: i32) -> (t: HelpTab)
        requires
            i32::MIN <= tab_index(self) + delta <= i32::MAX,
        ensures
            t == cycle_spec(self, delta as int),
    {
        let i = self.index() as i32 + delta;
        let r = i % 4;
        let k = if r < 0 {
            r + 4
        } else {
            r
        };
        assert(k == (tab_index(self) + delta) % 4);
        let all = HelpTab::ALL;
        let t = all[k as usize];
        assert(t == tab_at(k as int));
        t
    }

    /// The tab's label in the top bar.
    pub fn label(self) -> (s: &'static str)
        ensures
            s@ == tab_label(self),
    {
        match self {
            HelpTab::Start => "START",
            HelpTab::Keyboard => "KEYBOARD",
            HelpTab::Hotkeys => "HOTKEYS",
            HelpTab::Settings => "SETTINGS",
        }
    }
}

/// Stepping forward then back (or back then forward) returns to the same
/// tab, and four steps in one direction go all the way round.
pub proof fn lemma_cycle_round_trip(t: HelpTab)
    ensures
        cycle_spec(cycle_spec(t, 1), -1) == t,
        cycle_spec(cycle_spec(t, -1), 1) == t,
        cycle_spec(cycle_spec(cycle_spec(cycle_spec(t, 1), 1), 1), 1) == t,
{
}

/// The help overlay after `key` is pressed on it, showing `tab`: whether it
/// stays open, and the tab it shows. `F1`/`Esc` close it; `Tab` steps
/// forward (backward with `shift`); the arrows step; `1`–`4` jump to a tab;
/// anything else leaves it as it is.
pub open spec fn help_key_spec(tab: HelpTab, key: HostKey, shift: bool) -> (bool, HelpTab) {
    match key {
        HostKey::F1 | HostKey::Escape => (false, tab),
        HostKey::Tab => (true, cycle_spec(tab, if shift { -1 } else { 1 })),
        HostKey::ArrowRight => (true, cycle_spec(tab, 1)),
        HostKey::ArrowLeft => (true, cycle_spec(tab, -1)),
        HostKey::Digit1 => (true, HelpTab::Start),
        HostKey::Digit2 => (true, HelpTab::Keyboard),
        HostKey::Digit3 => (true, HelpTab::Hotkeys),
        HostKey::Digit4 => (true, HelpTab::Settings),
        _ => (true, tab),
    }
}

/// Route a key press to the open help overlay showing `tab` (`shift`: the
/// host's Shift is held): whether the overlay stays open, and its tab.
pub fn help_key(tab: HelpTab, key: HostKey, shift: bool) -> (r: (bool, HelpTab))
    ensures
        r == help_key_spec(tab, key, shift),
{
    match key {
        HostKey::F1 | HostKey::Escape => (false, tab),
        HostKey::Tab => (true, tab.cycle(if shift {
            -1
        } else {
            1
        })),
        HostKey::ArrowRight => (true, tab.cycle(1)),
        HostKey::ArrowLeft => (true, tab.cycle(-1)),
        HostKey::Digit1 => (true, HelpTab::Start),
        HostKey::Digit2 => (true, HelpTab::Keyboard),
        HostKey::Digit3 => (true, HelpTab::Hotkeys),
        HostKey::Digit4 => (true, HelpTab::Settings),
        _ => (true, tab),
    }
}

} // verus!
