use libre99::disasm::{decode_at, linear, DecodeError, Decoded};
use libre99::isa::{table, Fmt};
use libre99::{assemble, Options};

fn one(src: &str) -> Decoded {
    let img = assemble(src, &Options { auto_header: false, ..Default::default() })
        .expect("assembles")
        .image;
    decode_at(&img, 0, 0x6000).expect("decodes")
}

#[test]
fn decodes_representative_instructions() {
    let d = one("   MOV R1,R2");
    assert_eq!((d.mnemonic, d.len), ("MOV", 2));
    assert_eq!(d.operands, ["R1", "R2"]);

    let d = one("   MOVB *R1+,@>8C02");
    assert_eq!((d.mnemonic, d.len), ("MOVB", 4));
    assert_eq!(d.operands, ["*R1+", "@>8C02"]);

    let d = one("   LI R0,>1234");
    assert_eq!(d.operands, ["R0", ">1234"]);

    let d = one("   LIMI 2");
    assert_eq!((d.mnemonic, d.operands.first().map(String::as_str)), ("LIMI", Some(">0002")));

    let d = one("   SBO 2");
    assert_eq!((d.mnemonic, d.operands[0].as_str()), ("SBO", "2"));

    let d = one("   LDCR R0,3");
    assert_eq!(d.operands, ["R0", "3"]);

    assert_eq!(one("   RTWP").mnemonic, "RTWP");
    assert_eq!(one("   X R4").operands, ["R4"]);
}

#[test]
fn jump_target_is_absolute() {
    // JMP $ encodes displacement -1; from >6000 that targets >6000.
    let img = assemble("   JMP $", &Options { auto_header: false, ..Default::default() })
        .unwrap()
        .image;
    let d = decode_at(&img, 0, 0x6000).unwrap();
    assert_eq!((d.mnemonic, d.operands[0].as_str()), ("JMP", ">6000"));
}

/// Assemble a small program, disassemble it, reassemble the disassembly, and
/// require the bytes to match — the encoder/decoder agree on every op used.
#[test]
fn round_trips_through_the_assembler() {
    let src = "\
        \x20   LI   R0,>1700\n\
        \x20   MOVB R0,@>8C02\n\
        \x20   MOV  R1,*R2+\n\
        \x20   A    @>0004(R3),R4\n\
        \x20   JEQ  $\n\
        \x20   SBO  2\n\
        \x20   LDCR R0,3\n\
        \x20   RTWP\n";
    let opts = Options { auto_header: false, ..Default::default() };
    let img = assemble(src, &opts).unwrap().image;
    let (listing, tiled) = linear(&img, 0, 0x6000, 64);
    assert_eq!(tiled, img.len(), "did not tile the whole image:\n{listing}");
    let clean: String =
        listing.lines().map(|l| format!("   {}\n", l.get(7..).unwrap_or(""))).collect();
    let img2 = assemble(&clean, &opts).expect("reassembles").image;
    assert_eq!(img, img2, "round-trip mismatch\nlisting:\n{listing}");
}

#[test]
fn unknown_and_truncated_words_are_reported() {
    assert_eq!(decode_at(&[0x00, 0x00], 0, 0).unwrap_err(), DecodeError::Unknown(0x0000));
    assert_eq!(decode_at(&[0x02], 0, 0).unwrap_err(), DecodeError::Truncated);
    // LI needs its immediate word.
    assert_eq!(decode_at(&[0x02, 0x00], 0, 0).unwrap_err(), DecodeError::Truncated);
}

#[test]
fn linear_stops_at_an_unknown_opcode() {
    let (listing, tiled) = linear(&[0x04, 0x5B, 0x00, 0x00, 0x04, 0x5B], 0, 0x6000, 10);
    assert_eq!(tiled, 2);
    assert_eq!(listing, ">6000  B      *R11\n>6002  DATA   >0000   ; unknown opcode\n");
}

#[test]
fn indexed_and_symbolic_operands_render_in_source_syntax() {
    let d = decode_at(&[0xC0, 0xA1, 0x00, 0x04], 0, 0).unwrap();
    assert_eq!(d.operands, ["@>0004(R1)", "R2"]);
    let d = decode_at(&[0x10, 0x00], 0, 0x6000).unwrap();
    assert_eq!(d.operands, [">6002"]);
}

#[test]
fn every_table_entry_decodes_from_its_own_opcode_words() {
    for e in table() {
        if e.fmt == Fmt::Pseudo {
            continue;
        }
        // The bare base word, and the base with every operand field set.
        let full = match e.fmt {
            Fmt::Dual => e.base | 0x0FFF,
            Fmt::Single => e.base | 0x003F,
            Fmt::RegSrc | Fmt::CruMulti => e.base | 0x03FF,
            Fmt::Jump | Fmt::CruBit | Fmt::Shift => e.base | 0x00FF,
            Fmt::ImmReg | Fmt::RegOnly => e.base | 0x000F,
            _ => e.base,
        };
        for w in [e.base, full] {
            let img = [(w >> 8) as u8, w as u8, 0, 0, 0, 0];
            let d = decode_at(&img, 0, 0x6000).expect("decodes");
            assert_eq!(d.mnemonic, e.name, "word >{w:04X}");
        }
    }
}

#[test]
fn every_operand_form_reads_back_from_the_listing() {
    let src = "\
        \x20   B    *R11\n\
        \x20   XOP  @>1234(R5),7\n\
        \x20   COC  R1,R2\n\
        \x20   STCR *R3+,8\n\
        \x20   SRA  R4,12\n\
        \x20   TB   -5\n\
        \x20   JMP  $-4\n\
        \x20   STWP R9\n\
        \x20   AI   R2,>FFFF\n\
        \x20   LIMI 2\n\
        \x20   IDLE\n\
        \x20   CLR  @>8300\n";
    let opts = Options { auto_header: false, ..Default::default() };
    let img = assemble(src, &opts).unwrap().image;
    let (listing, tiled) = linear(&img, 0, 0x6000, 64);
    assert_eq!(tiled, img.len(), "did not tile the whole image:\n{listing}");
    let clean: String =
        listing.lines().map(|l| format!("   {}\n", l.get(7..).unwrap_or(""))).collect();
    let img2 = assemble(&clean, &opts).expect("reassembles").image;
    assert_eq!(img, img2, "round-trip mismatch\nlisting:\n{listing}");
}
