use libre99::disk_dsr::{assemble_disk_dsr, build_disk_dsr, DSR_SIZE};
use libre99::system_rom::{assemble_console_rom, build_console_rom, console_asm_source, frozen_entries, ROM_SIZE};

/// A console source that defines every frozen entry point where it belongs.
fn pinned_console() -> String {
    let mut s = String::from("       DATA >83E0,START\n");
    for (name, addr) in frozen_entries() {
        s.push_str(&format!("{name:<8} EQU >{addr:04X}\n"));
    }
    s
}

#[test]
fn the_marker_is_appended_with_a_padded_version() {
    let src = console_asm_source("* code", "1.2.3");
    assert!(src.starts_with("* code\n"));
    assert!(src.ends_with("        TEXT 'L99R'\n        TEXT '1.2.3       '\n"), "{src}");
}

#[test]
fn a_console_rom_with_its_pins_builds_to_8k_with_the_marker() {
    let rom = build_console_rom(&pinned_console(), "0.9.0").expect("builds");
    assert_eq!(rom.len(), ROM_SIZE);
    assert_eq!(&rom[0..4], [0x83, 0xE0, 0x00, 0x24]);
    assert_eq!(&rom[0x0BF0..0x0BF4], b"L99R");
    assert_eq!(&rom[0x0BF4..0x0C00], b"0.9.0       ");
}

#[test]
fn a_moved_entry_point_fails_the_build() {
    let src = pinned_console().replace("SOFT     EQU >006A", "SOFT     EQU >006C");
    let err = assemble_console_rom(&src, "0.9.0").unwrap_err();
    assert_eq!(err.len(), 1);
    assert_eq!(err[0].line, 0);
    assert_eq!(err[0].message, "layout: SOFT is at >006C, expected >006A");
}

#[test]
fn a_dsr_with_its_header_builds_to_8k() {
    let src = "       AORG >4000\nHDR    BYTE >AA,>02\n";
    let rom = build_disk_dsr(src).expect("builds");
    assert_eq!(rom.len(), DSR_SIZE);
    assert_eq!(rom[0], 0xAA);
    let a = assemble_disk_dsr(src).unwrap();
    assert_eq!(a.symbol("HDR"), Some(0x4000));
}

#[test]
fn content_in_the_register_shadow_is_refused() {
    let src = "       AORG >4000\nHDR    BYTE >AA\n       AORG >5FF8\n       DATA >1234\n";
    let err = build_disk_dsr(src).unwrap_err();
    assert!(err[0].message.contains("register shadow"), "{err:?}");
    let err = build_disk_dsr("       AORG >4000\n       BYTE >AA\n").unwrap_err();
    assert_eq!(err[0].message, "layout: HDR is undefined (expected >4000)");
}
