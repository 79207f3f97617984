use libre99::sysinfo::{arch_name, host_identity, rom_identity, AUTHENTIC_ROM_CRC32};

#[test]
fn a_libre99_rom_reports_its_own_baked_version() {
    let rom = vec![0u8; 0x2000];
    assert_eq!(rom_identity(&rom, Some("9.9.9")), "LIBRE99 9.9.9");
}

#[test]
fn an_unknown_rom_is_named_by_its_crc() {
    let rom = vec![0xA5u8; 0x2000];
    let id = rom_identity(&rom, None);
    assert!(id.starts_with("CUSTOM CRC "), "{id}");
    assert_eq!(id.len(), "CUSTOM CRC ".len() + 8);
}

#[test]
fn host_identity_fits_its_field_and_font() {
    for (os, arch) in [("linux", "x86_64"), ("macos", "aarch64"), ("windows", "x86_64"), ("linux", "riscv64"), ("freebsd", "powerpc64")] {
        let host = host_identity(os, arch);
        assert!(host.bytes().all(|b| (0x20..=0x5F).contains(&b)), "{host}");
    }
}

#[test]
fn host_and_arch_names() {
    assert_eq!(host_identity("linux", "x86_64"), "LINUX X64");
    assert_eq!(host_identity("macos", "aarch64"), "MACOS ARM64");
    assert_eq!(host_identity("windows", "x86"), "WINDOWS X86");
    assert_eq!(host_identity("linux", "riscv64"), "LINUX RISCV64");
    assert_eq!(host_identity("freebsd", "x86_64"), "FREEBSD X64");
    assert_eq!(arch_name("riscv64"), "RISCV64");
}

#[test]
fn the_empty_rom_crc_names_it() {
    // CRC-32 of the empty input is 0, of "123456789" is CBF43926.
    assert_eq!(rom_identity(&[], None), "CUSTOM CRC 00000000");
    assert_eq!(rom_identity(b"123456789", None), "CUSTOM CRC CBF43926");
    assert_ne!(AUTHENTIC_ROM_CRC32, 0xCBF4_3926);
}
