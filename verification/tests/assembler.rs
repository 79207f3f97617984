use std::collections::HashMap;

use libre99::{assemble, expand_includes, Diag, Options};

/// Assemble a snippet with no auto-header and return the emitted bytes.
fn enc(src: &str) -> Vec<u8> {
    let opts = Options { auto_header: false, ..Default::default() };
    assemble(src, &opts).expect("assembles").image
}

#[test]
fn dual_operand_modes() {
    assert_eq!(enc("   MOV R1,R2"), [0xC0, 0x81]);
    assert_eq!(enc("   MOV *R1+,R2"), [0xC0, 0xB1]);
    assert_eq!(enc("   MOVB *R1+,@>8C02"), [0xD8, 0x31, 0x8C, 0x02]);
}

#[test]
fn source_extension_precedes_destination() {
    assert_eq!(enc("INIT EQU >0125\n   MOV @INIT+3,@3"), [0xC8, 0x20, 0x01, 0x28, 0x00, 0x03]);
}

#[test]
fn immediate_and_single() {
    assert_eq!(enc("   LI R0,>1234"), [0x02, 0x00, 0x12, 0x34]);
    assert_eq!(enc("   LIMI 0"), [0x03, 0x00, 0x00, 0x00]);
    assert_eq!(enc("   DEC R2"), [0x06, 0x02]);
    assert_eq!(enc("   CLR R0"), [0x04, 0xC0]);
}

#[test]
fn jumps_and_pseudos() {
    assert_eq!(enc("   JMP $"), [0x10, 0xFF]);
    assert_eq!(enc("   JMP $+2"), [0x10, 0x00]);
    assert_eq!(enc("   NOP"), [0x10, 0x00]);
    assert_eq!(enc("   RT"), [0x04, 0x5B]);
}

#[test]
fn data_directives_and_alignment() {
    assert_eq!(enc("   DATA 4+5*2"), [0x00, 0x12]); // = 18, left to right
    assert_eq!(enc("   DATA >37AC"), [0x37, 0xAC]);
    assert_eq!(enc("   DATA -32768"), [0x80, 0x00]);
    assert_eq!(enc("   BYTE 'C'"), [0x43]);
    assert_eq!(enc("   TEXT 'EXAMPLE'"), [0x45, 0x58, 0x41, 0x4D, 0x50, 0x4C, 0x45]);
    assert_eq!(enc("   TEXT -'AB'"), [0x41, 0xBE]);
    // DATA word-aligns after an odd-length BYTE; BYTE does not pad.
    assert_eq!(enc("   BYTE 1\n   DATA >1234"), [0x01, 0x00, 0x12, 0x34]);
    assert_eq!(enc("   BYTE 1\n   BYTE 2"), [0x01, 0x02]);
}

#[test]
fn undefined_symbol_is_reported() {
    let opts = Options { auto_header: false, ..Default::default() };
    let err = assemble("   LI R0,NOPE", &opts).unwrap_err();
    assert!(err[0].message.contains("NOPE"), "got {:?}", err);
}

#[test]
fn extended_instruction_set() {
    assert_eq!(enc("   XOR R1,R2"), [0x28, 0x81]);
    assert_eq!(enc("   COC R1,R2"), [0x20, 0x81]);
    assert_eq!(enc("   CZC R1,R2"), [0x24, 0x81]);
    assert_eq!(enc("   MPY R1,R2"), [0x38, 0x81]);
    assert_eq!(enc("   DIV R1,R2"), [0x3C, 0x81]);
    assert_eq!(enc("   LDCR R0,3"), [0x30, 0xC0]);
    assert_eq!(enc("   STCR R1,8"), [0x36, 0x01]);
    assert_eq!(enc("   LDCR R0,8"), [0x32, 0x00]); // count 8 -> byte transfer
    assert_eq!(enc("   SLA R1,1"), [0x0A, 0x11]);
    assert_eq!(enc("   SRL R1,1"), [0x09, 0x11]);
    assert_eq!(enc("   SRA R1,1"), [0x08, 0x11]);
    assert_eq!(enc("   SRC R1,4"), [0x0B, 0x41]);
    assert_eq!(enc("   SLA R1,0"), [0x0A, 0x01]); // count 0 -> from R0
    assert_eq!(enc("   SBO 1"), [0x1D, 0x01]);
    assert_eq!(enc("   SBZ 1"), [0x1E, 0x01]);
    assert_eq!(enc("   TB 1"), [0x1F, 0x01]);
    assert_eq!(enc("   STWP R0"), [0x02, 0xA0]);
    assert_eq!(enc("   STST R0"), [0x02, 0xC0]);
    assert_eq!(enc("   RTWP"), [0x03, 0x80]);
    // XOP with a symbolic source: ext word follows; n in bits 6–9.
    assert_eq!(enc("X EQU >0100\n   XOP @X,1"), [0x2C, 0x60, 0x01, 0x00]);
}

#[test]
fn indexed_addressing() {
    assert_eq!(enc("   MOV @4(R1),R2"), [0xC0, 0xA1, 0x00, 0x04]);
    assert_eq!(enc("TAB EQU >6100\n   MOV @TAB(R3),R0"), [0xC0, 0x23, 0x61, 0x00]);
    // @EXPR(R0) is rejected — R0 in the index field means "no index".
    let opts = Options { auto_header: false, ..Default::default() };
    assert!(assemble("   MOV @4(R0),R1", &opts).is_err());
}

/// Assemble in absolute (raw-image) mode and return the padded image.
fn abs(src: &str, size: usize) -> Vec<u8> {
    assemble(src, &Options::absolute_image(size)).expect("assembles").rom
}

#[test]
fn aorg_places_at_absolute_addresses_with_zero_fill() {
    let src = "\
         \x20   DATA >83E0\n\
         \x20   DATA START\n\
         \x20   AORG >0024\n\
         START LI R0,>1700\n";
    let rom = abs(src, 0x2000);
    assert_eq!(rom.len(), 0x2000);
    assert_eq!(&rom[0..4], [0x83, 0xE0, 0x00, 0x24]); // WP, PC=>0024
    assert_eq!(&rom[4..0x24], &[0u8; 0x20]); // gap is zero
    assert_eq!(&rom[0x24..0x28], [0x02, 0x00, 0x17, 0x00]); // LI R0,>1700
}

#[test]
fn aorg_backward_over_content_is_an_overlap_error() {
    let src = "\
         \x20   AORG >0030\n\
         \x20   DATA >1111,>2222\n\
         \x20   AORG >0032\n\
         \x20   DATA >3333\n";
    let err = assemble(src, &Options::absolute_image(0x2000)).unwrap_err();
    assert!(err.iter().any(|d| d.message.contains("overlap")), "got {err:?}");
}

#[test]
fn aorg_regions_may_be_out_of_order() {
    let src = "\
         \x20   AORG >0100\n\
         \x20   DATA >AAAA\n\
         \x20   AORG >0010\n\
         \x20   DATA >BBBB\n\
         \x20   AORG >0102\n\
         \x20   DATA >CCCC\n";
    let rom = abs(src, 0x2000);
    assert_eq!(&rom[0x10..0x12], [0xBB, 0xBB]);
    assert_eq!(&rom[0x100..0x104], [0xAA, 0xAA, 0xCC, 0xCC]);
    assert_eq!(rom[0x50], 0x00);
}

#[test]
fn aorg_needs_absolute_mode() {
    let err = assemble("   AORG >0024", &Options { auto_header: false, ..Default::default() }).unwrap_err();
    assert!(err[0].message.contains("absolute mode"), "got {:?}", err);
}

#[test]
fn absolute_image_overflow_is_reported() {
    let err = assemble("   AORG >1FFF\n   DATA >1234", &Options::absolute_image(0x2000)).unwrap_err();
    assert!(err[0].message.contains("exceeds"), "got {:?}", err);
}

#[test]
fn layout_check_catches_a_shifted_entry() {
    let src = "\x20   AORG >0024\nSTART LI R0,>1700\n";
    let a = assemble(src, &Options::absolute_image(0x2000)).unwrap();
    assert!(a.check_layout(&[("START", 0x0024)]).is_empty());
    let bad = a.check_layout(&[("START", 0x0070)]);
    assert_eq!(bad.len(), 1);
    assert!(bad[0].contains("START"));
}

#[test]
fn expand_includes_inlines_and_detects_cycles() {
    let mut files = HashMap::new();
    files.insert("body.asm".to_string(), "   LI R0,1\n".to_string());
    files.insert("loop.asm".to_string(), "   COPY 'loop.asm'\n".to_string());
    let resolve = |p: &str| files.get(p).cloned().ok_or_else(|| format!("no such file {p}"));
    let out = expand_includes("   NOP\n   COPY 'body.asm'\n   RT\n", &resolve).unwrap();
    assert!(out.contains("NOP") && out.contains("LI R0,1") && out.contains("RT"));
    // A self-referential COPY is caught, not looped forever.
    let err = expand_includes("   COPY 'loop.asm'\n", &resolve).unwrap_err();
    assert!(err.contains("cycle") || err.contains("deep"), "got {err}");
}

#[test]
fn expand_includes_keeps_copy_free_source_line_by_line() {
    let resolve = |p: &str| -> Result<String, String> { Err(format!("no such file {p}")) };
    assert_eq!(expand_includes("   NOP\r\n   RT", &resolve).unwrap(), "   NOP\n   RT\n");
    let err = expand_includes("   COPY 'gone.asm'\n", &resolve).unwrap_err();
    assert_eq!(err, "COPY 'gone.asm': no such file gone.asm");
}

#[test]
fn the_cartridge_header_is_synthesized() {
    let a = assemble("       IDT 'demo'\nSTART  LIMI 0\n       END START\n", &Options::default()).unwrap();
    assert_eq!(a.title, "DEMO");
    // 16-byte header + 5-byte entry record + 4 title bytes = 25, padded to 26.
    assert_eq!(a.entry, 0x601A);
    assert_eq!(&a.image[0..8], [0xAA, 0x01, 0x01, 0x00, 0x00, 0x00, 0x60, 0x10]);
    assert_eq!(&a.image[16..25], [0x00, 0x00, 0x60, 0x1A, 0x04, b'D', b'E', b'M', b'O']);
    assert_eq!(a.image[25], 0x00);
    assert_eq!(&a.image[26..30], [0x03, 0x00, 0x00, 0x00]);
    assert_eq!(a.rom.len(), 0x2000);
    assert_eq!(&a.rom[..a.image.len()], &a.image[..]);
    assert!(a.rom[a.image.len()..].iter().all(|&b| b == 0));
    assert_eq!(a.symbol("START"), Some(0x601A));
}

#[test]
fn a_missing_entry_symbol_is_reported() {
    let err = assemble("   NOP\n", &Options::default()).unwrap_err();
    assert_eq!(err[0].line, 0);
    assert_eq!(err[0].message, "entry symbol 'START' is undefined");
}

#[test]
fn symbols_are_sorted_and_registers_left_out() {
    let opts = Options { auto_header: false, ..Default::default() };
    let a = assemble("ZED  EQU 2\nALPHA EQU >10\nR3 EQU 3\n   NOP\n", &opts).unwrap();
    assert_eq!(a.symbols, vec![("ALPHA".to_string(), 0x10), ("ZED".to_string(), 2)]);
    assert_eq!(a.symbol("ALPHA"), Some(0x10));
    assert_eq!(a.symbol("R3"), None);
    assert_eq!(a.symbols_json(), "{\n  \"ALPHA\": \">0010\",\n  \"ZED\": \">0002\"\n}\n");
}

#[test]
fn redefinition_with_another_value_is_an_error() {
    let opts = Options { auto_header: false, ..Default::default() };
    let err = assemble("A EQU 1\nA EQU 2\n", &opts).unwrap_err();
    assert_eq!(err[0].line, 2);
    assert_eq!(err[0].message, "symbol 'A' redefined");
    assert_eq!(err[0].to_string(), "2: symbol 'A' redefined");
    let whole = Diag { line: 0, message: "oops".to_string() };
    assert_eq!(whole.to_string(), "oops");
}

#[test]
fn the_listing_shows_address_object_and_source() {
    let opts = Options { auto_header: false, ..Default::default() };
    let a = assemble("   LI R0,>1234\n   TEXT 'ABCDEFGHIJ'", &opts).unwrap();
    let listing = a.listing();
    let lines: Vec<&str> = listing.lines().collect();
    assert_eq!(lines[0], format!(">6000  {:<16}{:<2}{}", "02001234", "", "   LI R0,>1234"));
    assert_eq!(lines[1], format!(">6004  {:<16}{:<2}{}", "4142434445464748", "…", "   TEXT 'ABCDEFGHIJ'"));
}

#[test]
fn layout_reports_an_undefined_pin() {
    let opts = Options { auto_header: false, ..Default::default() };
    let a = assemble("   NOP\n", &opts).unwrap();
    assert_eq!(a.check_layout(&[("GONE", 0x0100)]), vec!["layout: GONE is undefined (expected >0100)"]);
}

#[test]
fn a_register_symbol_may_be_defined_later() {
    let opts = Options { auto_header: false, ..Options::default() };
    let a = assemble("   LI WR,>1234\nWR EQU 5", &opts).expect("forward register reference assembles");
    assert_eq!(a.image, vec![0x02, 0x05, 0x12, 0x34]);
    let a = assemble("   MOV *PTR+,@>0002(IX)\nPTR EQU 3\nIX EQU 4", &opts).expect("assembles");
    assert_eq!(a.image, vec![0xC9, 0x33, 0x00, 0x02]);
    let e = assemble("   LI WR,1\nWR EQU 16", &opts).unwrap_err();
    assert_eq!(e.len(), 1);
    assert!(e[0].message.contains("out of range"), "{}", e[0].message);
}

#[test]
fn a_failing_copy_names_its_own_path_after_earlier_lines() {
    let mut files = HashMap::new();
    files.insert("a.asm".to_string(), "   NOP\n   COPY 'missing.asm'\n".to_string());
    let resolve = |p: &str| files.get(p).cloned().ok_or_else(|| format!("no such file {p}"));
    let err = expand_includes("   RT\n   COPY 'a.asm'\n   COPY 'other.asm'\n", &resolve).unwrap_err();
    assert_eq!(err, "COPY 'missing.asm': no such file missing.asm");
    let err = expand_includes("   COPY 'loop.asm'\n", &|p: &str| -> Result<String, String> {
        Ok(format!("   COPY '{p}'\n"))
    })
    .unwrap_err();
    assert_eq!(err, "COPY nesting deeper than 32 — include cycle?");
    assert_eq!(
        expand_includes("   NOP\n   COPY 'a.asm'\n", &|p: &str| -> Result<String, String> {
            if p == "a.asm" { Ok(String::from("   LI R0,1\n")) } else { Err(String::from("no")) }
        }),
        Ok(String::from("   NOP\n   LI R0,1\n"))
    );
}
