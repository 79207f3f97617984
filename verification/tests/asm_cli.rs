use libre99::asm_cli::{default_output, output_file_name};
use libre99::asm_cli::{dis_start, parse_command, AsmArgs, BuildArgs, Command, Stop};

fn cmd(args: &[&str]) -> Command {
    parse_command(args.iter().map(|s| s.to_string()).collect())
}

#[test]
fn rom_and_dsr_take_an_output_and_optional_artifacts() {
    assert_eq!(
        cmd(&["rom", "out.bin", "--listing", "l.txt"]),
        Command::Rom(BuildArgs { out: "out.bin".into(), listing: Some("l.txt".into()), symbols: None })
    );
    assert_eq!(
        cmd(&["dsr", "--symbols", "s.json", "d.bin"]),
        Command::Dsr(BuildArgs { out: "d.bin".into(), listing: None, symbols: Some("s.json".into()) })
    );
    assert_eq!(
        cmd(&["rom"]),
        Command::Usage(Stop {
            message: "usage: libre99asm rom <out.bin> [--listing <f>] [--symbols <f>]".into(),
            code: 2
        })
    );
    assert_eq!(
        cmd(&["dsr", "-x"]),
        Command::Usage(Stop { message: "libre99asm dsr: unknown option `-x`".into(), code: 2 })
    );
}

#[test]
fn dis_reads_the_start_address_in_hex() {
    assert_eq!(cmd(&["dis", "rom.bin"]), Command::Dis { path: "rom.bin".into(), start: 0 });
    assert_eq!(cmd(&["dis", "rom.bin", ">0024"]), Command::Dis { path: "rom.bin".into(), start: 0x24 });
    assert_eq!(dis_start(Some("0x1F00")), 0x1F00);
    assert_eq!(dis_start(Some(">>abcd")), 0xABCD);
    assert_eq!(dis_start(Some("+10")), 0x10);
    assert_eq!(dis_start(Some("10000")), 0);
    assert_eq!(dis_start(Some("zz")), 0);
    assert_eq!(dis_start(None), 0);
    // `dis` alone is not the disassembler: it is taken as the input file.
    assert!(matches!(cmd(&["dis"]), Command::Assemble(_)));
}

#[test]
fn the_default_command_gathers_its_options() {
    assert_eq!(
        cmd(&["game.asm", "-o", "g.bin", "--bin", "--name", "GAME", "--entry", "MAIN"]),
        Command::Assemble(AsmArgs {
            input: "game.asm".into(),
            output: Some("g.bin".into()),
            name: Some("GAME".into()),
            entry: Some("MAIN".into()),
            format: "bin".into(),
            listing: None,
            symbols: None,
        })
    );
    match cmd(&["a.asm", "--format"]) {
        Command::Assemble(a) => assert_eq!(a.format, ""),
        other => panic!("{other:?}"),
    }
    match cmd(&["a.asm"]) {
        Command::Assemble(a) => assert_eq!(a.format, "ctg"),
        other => panic!("{other:?}"),
    }
    assert_eq!(cmd(&["-h", "--bogus"]), Command::Help);
    assert_eq!(
        cmd(&["--bogus"]),
        Command::Usage(Stop { message: "libre99asm: error: unknown option `--bogus` (try --help)".into(), code: 2 })
    );
    assert_eq!(
        cmd(&[]),
        Command::Usage(Stop { message: "libre99asm: error: no input file (try --help)".into(), code: 2 })
    );
}

#[test]
fn the_default_output_name_swaps_the_extension() {
    assert_eq!(output_file_name(Some("hello"), "ctg"), "hello.ctg");
    assert_eq!(output_file_name(Some("game.v2"), "bin"), "game.v2.bin");
    assert_eq!(output_file_name(None, "bin"), "out.bin");
}

#[test]
fn the_default_output_sits_beside_the_input() {
    assert_eq!(default_output("src/hello.asm", "bin"), "src/hello.bin");
    assert_eq!(default_output("hello.asm", "ctg"), "hello.ctg");
    assert_eq!(default_output("/work/game.v2.asm", "bin"), "/work/game.v2.bin");
    assert_eq!(default_output("/top.asm", "bin"), "/top.bin");
    assert_eq!(default_output("dir/.hidden", "bin"), "dir/.hidden.bin");
    assert_eq!(default_output("", "bin"), "out.bin");
    assert!(default_output("a//game.asm", "bin").ends_with("game.bin"));
    assert!(default_output("a/./game.v2.asm", "ctg").ends_with("game.v2.ctg"));
}
