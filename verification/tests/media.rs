use libre99::media::{check_disk, key_from_canonical, check_size, eject_step, mount_toast, EjectAction, snapshot_suggested_name, window_title, MediaItem, UnloadChoice, MAX_MEDIA_BYTES};
use libre99::media::{
    fresh_start_warning, kind_of, kind_of_extension, resume_load_warning, snapshot_load_warning, MediaKind,
};

#[test]
fn kind_is_judged_by_extension_case_insensitively() {
    assert_eq!(kind_of("a/b/Game.ctg"), Some(MediaKind::Cartridge));
    assert_eq!(kind_of("A.CTG"), Some(MediaKind::Cartridge));
    assert_eq!(kind_of("Vol.Dsk"), Some(MediaKind::Disk));
    assert_eq!(kind_of("vol.DSK"), Some(MediaKind::Disk));
    assert_eq!(kind_of("readme.txt"), None);
    assert_eq!(kind_of("no-extension"), None);
}

#[test]
fn the_extension_decides_the_kind() {
    assert_eq!(kind_of_extension(Some("CtG")), Some(MediaKind::Cartridge));
    assert_eq!(kind_of_extension(Some("dsk")), Some(MediaKind::Disk));
    assert_eq!(kind_of_extension(Some("dsk2")), None);
    assert_eq!(kind_of_extension(None), None);
    assert_eq!(MediaKind::Cartridge.label(), "CART");
    assert_eq!(MediaKind::Disk.label(), "DISK");
}

#[test]
fn the_snapshot_warning_names_the_file_and_the_resume_state() {
    let clean = snapshot_load_warning("parsec.ti99", 0);
    assert!(clean.contains("parsec.ti99"), "{clean}");
    assert!(clean.contains("resume state"), "{clean}");
    assert!(!clean.contains("unexported"), "a clean session must not warn: {clean}");
    let dirty = snapshot_load_warning("parsec.ti99", 2);
    assert!(dirty.contains("2 in-memory disk image(s)"), "{dirty}");
    assert!(dirty.contains("F4"), "{dirty}");
}

#[test]
fn the_fresh_start_warning_spells_out_what_is_lost() {
    let bare = fresh_start_warning(0, 0);
    assert!(bare.contains("deleted permanently"), "{bare}");
    assert!(!bare.contains("disk image(s) held in memory"), "no disks, no disk line: {bare}");
    assert!(bare.contains("never touched"), "{bare}");

    let loaded = fresh_start_warning(3, 1);
    assert!(loaded.contains("3 disk image(s)"), "{loaded}");
    assert!(loaded.contains("1 of them carry unexported changes"), "{loaded}");
    assert!(loaded.contains("F4"), "{loaded}");

    // Disks in memory but none dirty: mention the unload, skip the alarm.
    let clean = fresh_start_warning(2, 0);
    assert!(clean.contains("2 disk image(s)"), "{clean}");
    assert!(!clean.contains("unexported"), "{clean}");
}

#[test]
fn the_resume_load_warning_counts_the_dirty_disks() {
    let text = resume_load_warning(1);
    assert!(text.contains("1 in-memory disk image(s)"), "{text}");
    assert!(text.contains("rolls every disk back"), "{text}");
}

#[test]
fn the_fresh_start_warning_ends_its_disk_sentence() {
    let t = fresh_start_warning(12, 0);
    assert!(t.contains("The 12 disk image(s) held in memory are unloaded.\n"), "{t}");
}

#[test]
fn a_media_item_is_named_by_its_file_name() {
    let item = MediaItem { path: String::from("games/Parsec.ctg"), bytes: vec![1, 2, 3] };
    assert_eq!(item.name(), "Parsec.ctg");
    let bare = MediaItem { path: String::from(".."), bytes: Vec::new() };
    assert_eq!(bare.name(), "..");
}

#[test]
fn unload_choices_are_distinct() {
    assert_ne!(UnloadChoice::Save, UnloadChoice::Discard);
    assert_ne!(UnloadChoice::Discard, UnloadChoice::Cancel);
}

#[test]
fn the_window_title_names_the_media() {
    assert_eq!(window_title(None, None, false), "Libre99  —  (none)  ·  DSK1: (none)");
    assert_eq!(window_title(Some("Parsec.ctg"), Some("work.dsk"), true), "Libre99  —  Parsec.ctg  ·  DSK1: work.dsk*");
}

#[test]
fn snapshots_are_named_after_the_cartridge() {
    assert_eq!(snapshot_suggested_name(Some("Parsec")), "Parsec.ti99");
    assert_eq!(snapshot_suggested_name(None), "console.ti99");
}

#[test]
fn oversized_and_empty_media_are_refused_by_message() {
    assert_eq!(check_size("big.dsk", MAX_MEDIA_BYTES), Ok(()));
    assert_eq!(check_size("big.dsk", 40 * 1024 * 1024), Err(String::from("big.dsk is 40 MiB — too large to be TI media")));
    assert_eq!(check_disk("blank.dsk", &[]), Err(String::from("empty disk image: blank.dsk")));
    assert_eq!(check_disk("d.dsk", &[0]), Ok(()));
}

#[test]
fn ejects_say_what_they_did() {
    assert_eq!(eject_step(MediaKind::Cartridge, true, false, false), (EjectAction::ColdBoot, "CARTRIDGE EJECTED"));
    assert_eq!(eject_step(MediaKind::Cartridge, false, true, true), (EjectAction::Nothing, "ALREADY EMPTY"));
    assert_eq!(eject_step(MediaKind::Disk, true, false, false), (EjectAction::Nothing, "ALREADY EMPTY"));
    assert_eq!(eject_step(MediaKind::Disk, false, true, false), (EjectAction::EmptyDrive, "DSK1 EJECTED"));
    assert_eq!(
        eject_step(MediaKind::Disk, false, true, true),
        (EjectAction::EmptyDrive, "DSK1 EJECTED - CHANGES KEPT IN MEMORY (F4)")
    );
}

#[test]
fn mount_toasts_name_the_slot() {
    assert_eq!(mount_toast(MediaKind::Cartridge, "Parsec.ctg", false), "CART: Parsec.ctg");
    assert_eq!(mount_toast(MediaKind::Cartridge, "Parsec.ctg", true), "CART: Parsec.ctg");
    assert_eq!(mount_toast(MediaKind::Disk, "work.dsk", false), "DSK1: work.dsk");
    assert_eq!(mount_toast(MediaKind::Disk, "work.dsk", true), "DSK1: work.dsk (IN-MEMORY CHANGES APPLY)");
}

#[test]
fn file_keys_drop_the_verbatim_prefix() {
    assert_eq!(key_from_canonical(r"\\?\C:\Games\vol.dsk"), r"C:\Games\vol.dsk");
    assert_eq!(key_from_canonical("/home/ti/vol.dsk"), "/home/ti/vol.dsk");
    assert_eq!(key_from_canonical(r"\\?"), r"\\?");
    assert!(!key_from_canonical(r"\\?\D:\a.ctg").starts_with(r"\\?\"));
}
