use libre99::disks::{dirty_count, file_name, DiskAction, DiskEntry, DiskOverlay};
use libre99::input::HostKey;

fn info(key: &str, dirty: bool, drive: Option<usize>) -> DiskEntry {
    DiskEntry { key: key.into(), len: 92_160, dirty, drive }
}

#[test]
fn file_name_takes_the_last_component_of_either_separator() {
    assert_eq!(file_name(r"C:\disks\GAME.dsk"), "GAME.dsk");
    assert_eq!(file_name("/Users/joel/disks/game.dsk"), "game.dsk");
    assert_eq!(file_name("bare.dsk"), "bare.dsk");
}

#[test]
fn keys_navigate_act_and_close() {
    let disks = [info("a.dsk", false, Some(0)), info("b.dsk", true, None)];
    let mut ui = DiskOverlay::default();
    ui.open();
    assert_eq!(ui.handle_key(HostKey::ArrowDown, &disks), DiskAction::Nothing);
    assert_eq!(ui.handle_key(HostKey::Enter, &disks), DiskAction::Export("b.dsk".into()));
    assert_eq!(ui.handle_key(HostKey::KeyU, &disks), DiskAction::Unload("b.dsk".into()));
    assert_eq!(ui.handle_key(HostKey::ArrowDown, &disks), DiskAction::Nothing, "clamps at end");
    assert_eq!(ui.handle_key(HostKey::Escape, &disks), DiskAction::Close);
}

#[test]
fn an_empty_list_yields_no_actions_and_no_panic() {
    let mut ui = DiskOverlay::default();
    ui.open();
    assert_eq!(ui.handle_key(HostKey::Enter, &[]), DiskAction::Nothing);
    assert_eq!(ui.handle_key(HostKey::KeyU, &[]), DiskAction::Nothing);
    assert_eq!(ui.handle_key(HostKey::ArrowDown, &[]), DiskAction::Nothing);
}

#[test]
fn the_selection_clamps_when_the_list_shrinks() {
    let two = [info("a.dsk", false, None), info("b.dsk", false, None)];
    let one = [info("a.dsk", false, None)];
    let mut ui = DiskOverlay::default();
    ui.open();
    ui.handle_key(HostKey::ArrowDown, &two);
    assert_eq!(ui.handle_key(HostKey::Enter, &one), DiskAction::Export("a.dsk".into()));
}

#[test]
fn up_stops_at_the_first_row_and_e_exports() {
    let disks = [info("a.dsk", false, None), info("dir/b.dsk", false, None)];
    let mut ui = DiskOverlay::default();
    ui.open();
    assert!(ui.open);
    assert_eq!(ui.handle_key(HostKey::ArrowUp, &disks), DiskAction::Nothing);
    assert_eq!(ui.handle_key(HostKey::KeyE, &disks), DiskAction::Export("a.dsk".into()));
    assert_eq!(ui.handle_key(HostKey::F4, &disks), DiskAction::Close);
    assert_eq!(ui.handle_key(HostKey::Other, &disks), DiskAction::Nothing);
    assert_eq!(file_name("dir/sub\\x.dsk"), "x.dsk");
    assert_eq!(file_name("trailing/"), "");
}

#[test]
fn dirty_disks_are_counted() {
    let e = |key: &str, dirty: bool| DiskEntry { key: key.to_string(), len: 92160, dirty, drive: None };
    assert_eq!(dirty_count(&[]), 0);
    assert_eq!(dirty_count(&[e("a", true), e("b", false), e("c", true)]), 2);
}
