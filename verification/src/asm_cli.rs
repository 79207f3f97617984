//! The decisions of the `libre99asm` command line: which command the
//! arguments name and with which options. Reading and writing files, and
//! printing, are the program's; what it does is decided here.
//!
//! ```text
//! libre99asm [OPTIONS] <input.asm>     assemble a cartridge (default)
//! libre99asm rom <out.bin>             build the rewritten console ROM (8 KiB image)
//! libre99asm dsr <out.bin>             build the rewritten disk-controller DSR (8 KiB image)
//! libre99asm dis <file.bin> [addr]     disassemble from an address (default >0000)
//! ```
//!
//! Exit codes: `0` success, `1` assembly errors, `2` usage error, `3` I/O error.

use vstd::prelude::*;

use crate::cli::args_view;
use crate::config::{join, join_path, main_separator};
use crate::media::{
    last_component, parent_of, path_file_stem, path_parent, plain_path, simple_path, std_stem,
};
use crate::strings::{owned, push_str, str_eq};

verus! {

/// What a `rom` or `dsr` command builds: the output file, and where to write
/// the listing and the symbol table, if anywhere.
#[derive(Debug, PartialEq)]
pub struct BuildArgs {
    pub out: String,
    pub listing: Option<String>,
    pub symbols: Option<String>,
}

/// The options of the default (cartridge) command.
#[derive(Debug, PartialEq)]
pub struct AsmArgs {
    pub input: String,
    pub output: Option<String>,
    pub name: Option<String>,
    pub entry: Option<String>,
    pub format: String,
    pub listing: Option<String>,
    pub symbols: Option<String>,
}

/// A command line that does not run: the message to print and the exit
/// code.
#[derive(Debug, PartialEq)]
pub struct Stop {
    pub message: String,
    pub code: u8,
}

/// The command a command line names.
#[derive(Debug, PartialEq)]
pub enum Command {
    /// Build the console ROM.
    Rom(BuildArgs),
    /// Build the disk-controller DSR.
    Dsr(BuildArgs),
    /// Disassemble the file at `path` from address `start`.
    Dis { path: String, start: u16 },
    /// Assemble a cartridge.
    Assemble(AsmArgs),
    /// Print the help text and exit successfully.
    Help,
    /// Print a usage error and exit with its code.
    Usage(Stop),
}

/// An optional string by its characters.
pub open spec fn opt_text(o: Option<String>) -> Option<Seq<char>> {
    match o {
        Some(s) => Some(s@),
        None => None,
    }
}

/// The state of a `rom`/`dsr` argument scan: output, listing, symbols.
pub type BuildScan = (Option<Seq<char>>, Option<Seq<char>>, Option<Seq<char>>);

/// Scan `rest` from position `i` for a `rom`/`dsr` command named `cmd`:
/// `--listing`/`--symbols` take the next argument (none if it is missing),
/// another `-` argument is an unknown option, and any other argument is the
/// output (the last one wins).
pub open spec fn scan_build(rest: Seq<Seq<char>>, i: int, st: BuildScan, cmd: Seq<char>) -> Result<BuildScan, Seq<char>>
    decreases rest.len() + 1 - i,
{
    if i >= rest.len() || i < 0 {
        Ok(st)
    } else {
        let a = rest[i];
        let next = if i + 1 < rest.len() {
            Some(rest[i + 1])
        } else {
            None
        };
        if a == "--listing"@ {
            scan_build(rest, i + 2, (st.0, next, st.2), cmd)
        } else if a == "--symbols"@ {
            scan_build(rest, i + 2, (st.0, st.1, next), cmd)
        } else if a.len() > 0 && a[0] == '-' {
            Err("libre99asm "@ + cmd + ": unknown option `"@ + a + "`"@)
        } else {
            scan_build(rest, i + 1, (Some(a), st.1, st.2), cmd)
        }
    }
}

/// The usage line of a `rom`/`dsr` command.
pub open spec fn build_usage(cmd: Seq<char>) -> Seq<char> {
    "usage: libre99asm "@ + cmd + " <out.bin> [--listing <f>] [--symbols <f>]"@
}

/// The `rom`/`dsr` command named `cmd` with arguments `rest`: its options,
/// or the usage error (exit code 2).
pub open spec fn build_spec(rest: Seq<Seq<char>>, cmd: Seq<char>) -> Result<BuildScan, Seq<char>> {
    match scan_build(rest, 0, (None, None, None), cmd) {
        Err(e) => Err(e),
        Ok(st) => match st.0 {
            Some(_) => Ok(st),
            None => Err(build_usage(cmd)),
        },
    }
}

/// The view of the options of a `rom`/`dsr` command.
pub open spec fn build_view(b: BuildArgs) -> BuildScan {
    (Some(b.out@), opt_text(b.listing), opt_text(b.symbols))
}

/// The argument after position `i`, if there is one.
fn next_arg(args: &Vec<String>, i: usize) -> (r: Option<String>)
    requires
        i < args@.len(),
    ensures
        opt_text(r) == (if i + 1 < args@.len() {
            Some(args@[i + 1]@)
        } else {
            None::<Seq<char>>
        }),
{
    if i < args.len() - 1 {
        Some(owned(args[i + 1].as_str()))
    } else {
        None
    }
}

/// The position after an option at `i` and its value (at most `len`).
fn skip_value(i: usize, len: usize) -> (r: usize)
    requires
        i < len,
    ensures
        r == (if i + 2 <= len {
            i + 2
        } else {
            len as int
        }),
{
    if i + 1 < len {
        i + 2
    } else {
        len
    }
}

/// Whether `s` starts with `-`.
fn is_option(s: &str) -> (r: bool)
    ensures
        r == (s@.len() > 0 && s@[0] == '-'),
{
    let v = crate::strings::chars_of(s);
    v.len() > 0 && v[0] == '-'
}

/// Parse the arguments of the `rom`/`dsr` command named `cmd` (`rest` is what
/// follows the command word).
pub fn parse_build_args(rest: &Vec<String>, cmd: &str) -> (r: Result<BuildArgs, String>)
    ensures
        match r {
            Ok(b) => build_spec(args_view(rest@), cmd@) == Ok::<BuildScan, Seq<char>>(build_view(b)),
            Err(e) => build_spec(args_view(rest@), cmd@) == Err::<BuildScan, Seq<char>>(e@),
        },
{
    let ghost av = args_view(rest@);
    let mut out: Option<String> = None;
    let mut listing: Option<String> = None;
    let mut symbols: Option<String> = None;
    let mut i: usize = 0;
    while i < rest.len()
        invariant
            i <= rest@.len(),
            av == args_view(rest@),
            scan_build(av, 0, (None, None, None), cmd@) == scan_build(
                av,
                i as int,
                (opt_text(out), opt_text(listing), opt_text(symbols)),
                cmd@,
            ),
        decreases rest@.len() - i,
    {
        let a = rest[i].as_str();
        assert(av[i as int] == a@);
        assert(i + 1 < av.len() ==> av[i + 1] == rest@[i + 1]@);
        let ghost i0 = i as int;
        let ghost st0 = (opt_text(out), opt_text(listing), opt_text(symbols));
        if str_eq(a, "--listing") {
            listing = next_arg(rest, i);
            i = skip_value(i, rest.len());
            proof {
                let st1 = (opt_text(out), opt_text(listing), opt_text(symbols));
                assert(st1 == (st0.0, if i0 + 1 < av.len() { Some(av[i0 + 1]) } else { None }, st0.2));
                assert(scan_build(av, i0, st0, cmd@) == scan_build(av, i0 + 2, st1, cmd@));
                if i0 + 2 > av.len() {
                    assert(scan_build(av, i0 + 2, st1, cmd@) == scan_build(av, i as int, st1, cmd@));
                }
            }
        } else if str_eq(a, "--symbols") {
            symbols = next_arg(rest, i);
            i = skip_value(i, rest.len());
            proof {
                let st1 = (opt_text(out), opt_text(listing), opt_text(symbols));
                assert(scan_build(av, i0, st0, cmd@) == scan_build(av, i0 + 2, st1, cmd@));
                if i0 + 2 > av.len() {
                    assert(scan_build(av, i0 + 2, st1, cmd@) == scan_build(av, i as int, st1, cmd@));
                }
            }
        } else if is_option(a) {
            let mut m = owned("libre99asm ");
            push_str(&mut m, cmd);
            push_str(&mut m, ": unknown option `");
            push_str(&mut m, a);
            push_str(&mut m, "`");
            return Err(m);
        } else {
            out = Some(owned(a));
            i += 1;
            proof {
                let st1 = (opt_text(out), opt_text(listing), opt_text(symbols));
                assert(st1 == (Some(a@), st0.1, st0.2));
                assert(scan_build(av, i0, st0, cmd@) == scan_build(av, i0 + 1, st1, cmd@));
            }
        }
    }
    match out {
        Some(o) => Ok(BuildArgs { out: o, listing, symbols }),
        None => {
            let mut m = owned("usage: libre99asm ");
            push_str(&mut m, cmd);
            push_str(&mut m, " <out.bin> [--listing <f>] [--symbols <f>]");
            Err(m)
        },
    }
}

/// The options of the default command, by characters.
pub struct AsmScan {
    pub input: Option<Seq<char>>,
    pub output: Option<Seq<char>>,
    pub name: Option<Seq<char>>,
    pub entry: Option<Seq<char>>,
    pub format: Seq<char>,
    pub listing: Option<Seq<char>>,
    pub symbols: Option<Seq<char>>,
}

/// The outcome of scanning the default command's arguments.
pub enum AsmParse {
    Help,
    Run(AsmScan),
    Usage(Seq<char>),
}

/// Scan `args` from position `i` for the default command: the options that
/// take a value take the next argument (none if it is missing; `--format`
/// then gives the empty format), `--bin` is `--format bin`, `-h`/`--help`
/// stops with the help, another `-` argument is an unknown option, and any
/// other argument is the input (the last one wins).
pub open spec fn scan_asm(args: Seq<Seq<char>>, i: int, st: AsmScan) -> AsmParse
    decreases args.len() + 1 - i,
{
    if i >= args.len() || i < 0 {
        match st.input {
            Some(_) => AsmParse::Run(st),
            None => AsmParse::Usage("libre99asm: error: no input file (try --help)"@),
        }
    } else {
        let a = args[i];
        let next = if i + 1 < args.len() {
            Some(args[i + 1])
        } else {
            None
        };
        if a == "-o"@ || a == "--output"@ {
            scan_asm(args, i + 2, AsmScan { output: next, ..st })
        } else if a == "--name"@ {
            scan_asm(args, i + 2, AsmScan { name: next, ..st })
        } else if a == "--entry"@ {
            scan_asm(args, i + 2, AsmScan { entry: next, ..st })
        } else if a == "--format"@ {
            scan_asm(
                args,
                i + 2,
                AsmScan {
                    format: match next {
                        Some(f) => f,
                        None => seq![],
                    },
                    ..st
                },
            )
        } else if a == "--bin"@ {
            scan_asm(args, i + 1, AsmScan { format: "bin"@, ..st })
        } else if a == "--listing"@ {
            scan_asm(args, i + 2, AsmScan { listing: next, ..st })
        } else if a == "--symbols"@ {
            scan_asm(args, i + 2, AsmScan { symbols: next, ..st })
        } else if a == "-h"@ || a == "--help"@ {
            AsmParse::Help
        } else if a.len() > 0 && a[0] == '-' {
            AsmParse::Usage("libre99asm: error: unknown option `"@ + a + "` (try --help)"@)
        } else {
            scan_asm(args, i + 1, AsmScan { input: Some(a), ..st })
        }
    }
}

/// No option given yet; the format defaults to `ctg`.
pub open spec fn asm_defaults() -> AsmScan {
    AsmScan { input: None, output: None, name: None, entry: None, format: "ctg"@, listing: None, symbols: None }
}

/// The options of the default command by characters.
pub open spec fn asm_view(a: AsmArgs) -> AsmScan {
    AsmScan {
        input: Some(a.input@),
        output: opt_text(a.output),
        name: opt_text(a.name),
        entry: opt_text(a.entry),
        format: a.format@,
        listing: opt_text(a.listing),
        symbols: opt_text(a.symbols),
    }
}

/// The scan state of the exec options.
pub open spec fn scan_of(
    input: Option<String>,
    output: Option<String>,
    name: Option<String>,
    entry: Option<String>,
    format: String,
    listing: Option<String>,
    symbols: Option<String>,
) -> AsmScan {
    AsmScan {
        input: opt_text(input),
        output: opt_text(output),
        name: opt_text(name),
        entry: opt_text(entry),
        format: format@,
        listing: opt_text(listing),
        symbols: opt_text(symbols),
    }
}

/// Parse the arguments of the default (cartridge) command.
pub fn parse_asm_args(args: &Vec<String>) -> (r: Command)
    ensures
        asm_outcome(r, scan_asm(args_view(args@), 0, asm_defaults())),
{
    let ghost av = args_view(args@);
    let mut input: Option<String> = None;
    let mut output: Option<String> = None;
    let mut name: Option<String> = None;
    let mut entry: Option<String> = None;
    let mut format = owned("ctg");
    let mut listing: Option<String> = None;
    let mut symbols: Option<String> = None;
    let mut i: usize = 0;
    while i < args.len()
        invariant
            i <= args@.len(),
            av == args_view(args@),
            scan_asm(av, 0, asm_defaults()) == scan_asm(
                av,
                i as int,
                scan_of(input, output, name, entry, format, listing, symbols),
            ),
        decreases args@.len() - i,
    {
        let a = args[i].as_str();
        assert(av[i as int] == a@);
        assert(i + 1 < av.len() ==> av[i + 1] == args@[i + 1]@);
        let ghost i0 = i as int;
        let ghost st0 = scan_of(input, output, name, entry, format, listing, symbols);
        if str_eq(a, "-o") || str_eq(a, "--output") {
            output = next_arg(args, i);
            i = skip_value(i, args.len());
        } else if str_eq(a, "--name") {
            name = next_arg(args, i);
            i = skip_value(i, args.len());
        } else if str_eq(a, "--entry") {
            entry = next_arg(args, i);
            i = skip_value(i, args.len());
        } else if str_eq(a, "--format") {
            format = match next_arg(args, i) {
                Some(f) => f,
                None => String::new(),
            };
            i = skip_value(i, args.len());
        } else if str_eq(a, "--bin") {
            format = owned("bin");
            i += 1;
        } else if str_eq(a, "--listing") {
            listing = next_arg(args, i);
            i = skip_value(i, args.len());
        } else if str_eq(a, "--symbols") {
            symbols = next_arg(args, i);
            i = skip_value(i, args.len());
        } else if str_eq(a, "-h") || str_eq(a, "--help") {
            return Command::Help;
        } else if is_option(a) {
            let mut m = owned("libre99asm: error: unknown option `");
            push_str(&mut m, a);
            push_str(&mut m, "` (try --help)");
            return Command::Usage(Stop { message: m, code: 2 });
        } else {
            input = Some(owned(a));
            i += 1;
        }
        proof {
            let st1 = scan_of(input, output, name, entry, format, listing, symbols);
            if i0 + 2 > av.len() && i as int == av.len() {
                assert(scan_asm(av, i0 + 2, st1) == scan_asm(av, i as int, st1));
            }
        }
    }
    match input {
        Some(inp) => Command::Assemble(AsmArgs { input: inp, output, name, entry, format, listing, symbols }),
        None => Command::Usage(Stop { message: owned("libre99asm: error: no input file (try --help)"), code: 2 }),
    }
}

/// The default command's outcome as a command: help, the assembly with its
/// options, or the usage error with exit code 2.
pub open spec fn asm_outcome(r: Command, p: AsmParse) -> bool {
    match p {
        AsmParse::Help => r is Help,
        AsmParse::Run(st) => r matches Command::Assemble(a) && asm_view(a) == st,
        AsmParse::Usage(m) => r matches Command::Usage(s) && s.message@ == m && s.code == 2,
    }
}

/// A `rom`/`dsr` command's outcome as a command.
pub open spec fn build_outcome(r: Command, p: Result<BuildScan, Seq<char>>, dsr: bool) -> bool {
    match p {
        Ok(st) => if dsr {
            r matches Command::Dsr(b) && build_view(b) == st
        } else {
            r matches Command::Rom(b) && build_view(b) == st
        },
        Err(m) => r matches Command::Usage(s) && s.message@ == m && s.code == 2,
    }
}

/// `s` with every leading `>` removed.
pub open spec fn strip_gt(s: Seq<char>) -> Seq<char>
    decreases s.len(),
{
    if s.len() > 0 && s[0] == '>' {
        strip_gt(s.drop_first())
    } else {
        s
    }
}

/// `s` with every leading `0x` removed.
pub open spec fn strip_0x(s: Seq<char>) -> Seq<char>
    decreases s.len(),
{
    if s.len() >= 2 && s[0] == '0' && s[1] == 'x' {
        strip_0x(s.skip(2))
    } else {
        s
    }
}

/// The value of a hexadecimal digit, or `-1`.
pub open spec fn hex_digit(c: char) -> int {
    if '0' <= c <= '9' {
        c as int - '0' as int
    } else if 'a' <= c <= 'f' {
        c as int - 'a' as int + 10
    } else if 'A' <= c <= 'F' {
        c as int - 'A' as int + 10
    } else {
        -1
    }
}

/// Every character is a hexadecimal digit.
pub open spec fn all_hex(d: Seq<char>) -> bool {
    forall|i: int| 0 <= i < d.len() ==> hex_digit(#[trigger] d[i]) >= 0
}

/// The value of a run of hexadecimal digits.
pub open spec fn hex_value(d: Seq<char>) -> int
    decreases d.len(),
{
    if d.len() == 0 {
        0
    } else {
        hex_value(d.drop_last()) * 16 + hex_digit(d.last())
    }
}

/// What `u16::from_str_radix(s, 16)` gives: an optional `+` and one or more
/// hexadecimal digits whose value fits 16 bits.
pub open spec fn parse_hex_u16_spec(s: Seq<char>) -> Option<u16> {
    let d = crate::cli::unsigned_part(s);
    if d.len() > 0 && all_hex(d) && hex_value(d) <= 0xFFFF {
        Some(hex_value(d) as u16)
    } else {
        None
    }
}

/// The start address of a disassembly: the argument with its leading `>`s
/// and `0x`s removed, read as hexadecimal; `>0000` when absent or unreadable.
pub open spec fn dis_start_spec(addr: Option<Seq<char>>) -> u16 {
    match addr {
        Some(a) => match parse_hex_u16_spec(strip_0x(strip_gt(a))) {
            Some(v) => v,
            None => 0,
        },
        None => 0,
    }
}

/// The hexadecimal value of `v[from..]`, per [`parse_hex_u16_spec`].
fn parse_hex_u16(v: &Vec<char>, from: usize) -> (r: Option<u16>)
    requires
        from <= v@.len(),
    ensures
        r == parse_hex_u16_spec(v@.skip(from as int)),
{
    let ghost s = v@.skip(from as int);
    let start: usize = if from < v.len() && v[from] == '+' {
        from + 1
    } else {
        from
    };
    let ghost d = crate::cli::unsigned_part(s);
    assert(d =~= v@.skip(start as int));
    if start >= v.len() {
        return None;
    }
    let mut acc: u32 = 0;
    let mut big = false;
    let mut i: usize = start;
    while i < v.len()
        invariant
            start <= i <= v@.len(),
            d == v@.skip(start as int),
            d == crate::cli::unsigned_part(s),
            s == v@.skip(from as int),
            forall|j: int| start <= j < i ==> hex_digit(#[trigger] v@[j]) >= 0,
            !big ==> acc == hex_value(v@.subrange(start as int, i as int)) && acc <= 0xFFFF,
            big ==> hex_value(v@.subrange(start as int, i as int)) > 0xFFFF,
            hex_value(v@.subrange(start as int, i as int)) >= 0,
        decreases v@.len() - i,
    {
        let c = v[i];
        let dg: u32 = if '0' <= c && c <= '9' {
            c as u32 - '0' as u32
        } else if 'a' <= c && c <= 'f' {
            c as u32 - 'a' as u32 + 10
        } else if 'A' <= c && c <= 'F' {
            c as u32 - 'A' as u32 + 10
        } else {
            assert(d[i - start] == v@[i as int]);
            assert(!all_hex(d));
            return None;
        };
        assert(v@.subrange(start as int, i + 1).drop_last() =~= v@.subrange(start as int, i as int));
        if !big {
            let next = acc * 16 + dg;
            if next > 0xFFFF {
                big = true;
            } else {
                acc = next;
            }
        }
        i += 1;
    }
    assert(v@.subrange(start as int, i as int) =~= d);
    if big {
        None
    } else {
        Some(acc as u16)
    }
}

/// The start address of `libre99asm dis`: the argument, if any, with its
/// leading `>`s and `0x`s removed, read as hexadecimal; `>0000` when absent
/// or unreadable.
pub fn dis_start(addr: Option<&str>) -> (r: u16)
    ensures
        r == dis_start_spec(match addr {
            Some(a) => Some(a@),
            None => None,
        }),
{
    let a = match addr {
        Some(a) => a,
        None => return 0,
    };
    let v = crate::strings::chars_of(a);
    let mut i: usize = 0;
    assert(v@.skip(0) =~= v@);
    while i < v.len() && v[i] == '>'
        invariant
            i <= v@.len(),
            v@ == a@,
            strip_gt(a@) == strip_gt(v@.skip(i as int)),
        decreases v@.len() - i,
    {
        assert(v@.skip(i as int).drop_first() =~= v@.skip(i + 1));
        i += 1;
    }
    while i < v.len() && v.len() - i >= 2 && v[i] == '0' && v[i + 1] == 'x'
        invariant
            i <= v@.len(),
            v@ == a@,
            strip_0x(strip_gt(a@)) == strip_0x(v@.skip(i as int)),
        decreases v@.len() - i,
    {
        assert(v@.skip(i as int).skip(2) =~= v@.skip(i + 2));
        i += 2;
    }
    match parse_hex_u16(&v, i) {
        Some(x) => x,
        None => 0,
    }
}

/// The arguments after the first.
fn tail(args: &Vec<String>) -> (t: Vec<String>)
    requires
        args@.len() > 0,
    ensures
        args_view(t@) == args_view(args@).skip(1),
{
    let mut t: Vec<String> = Vec::new();
    let mut i: usize = 1;
    while i < args.len()
        invariant
            1 <= i <= args@.len(),
            args_view(t@) == args_view(args@).subrange(1, i as int),
        decreases args@.len() - i,
    {
        let ghost t0 = args_view(t@);
        t.push(owned(args[i].as_str()));
        assert(args_view(t@) =~= t0.push(args@[i as int]@));
        i += 1;
        assert(args_view(t@) =~= args_view(args@).subrange(1, i as int));
    }
    assert(args_view(args@).subrange(1, i as int) =~= args_view(args@).skip(1));
    t
}

/// The command a `libre99asm` command line (program name left out) names:
/// `rom …`, `dsr …`, `dis <file> [addr]`, or else the default cartridge
/// assembly.
pub fn parse_command(args: Vec<String>) -> (r: Command)
    ensures
        ({
            let av = args_view(args@);
            if av.len() > 0 && av[0] == "rom"@ {
                build_outcome(r, build_spec(av.skip(1), "rom"@), false)
            } else if av.len() > 0 && av[0] == "dsr"@ {
                build_outcome(r, build_spec(av.skip(1), "dsr"@), true)
            } else if av.len() >= 2 && av[0] == "dis"@ {
                r matches Command::Dis { path, start } && path@ == av[1] && start == dis_start_spec(
                    if av.len() > 2 {
                        Some(av[2])
                    } else {
                        None
                    },
                )
            } else {
                asm_outcome(r, scan_asm(av, 0, asm_defaults()))
            }
        }),
{
    let ghost av = args_view(args@);
    if args.len() > 0 {
        assert(av[0] == args@[0]@);
        let first = args[0].as_str();
        proof {
            reveal_strlit("rom");
            reveal_strlit("dsr");
            reveal_strlit("dis");
        }
        if str_eq(first, "rom") || str_eq(first, "dsr") {
            let rest = tail(&args);
            let dsr = str_eq(first, "dsr");
            return match parse_build_args(&rest, first) {
                Ok(b) => if dsr {
                    Command::Dsr(b)
                } else {
                    Command::Rom(b)
                },
                Err(m) => Command::Usage(Stop { message: m, code: 2 }),
            };
        }
        if str_eq(first, "dis") && args.len() >= 2 {
            assert(av[1] == args@[1]@);
            let start = if args.len() > 2 {
                assert(av[2] == args@[2]@);
                dis_start(Some(args[2].as_str()))
            } else {
                dis_start(None)
            };
            return Command::Dis { path: owned(args[1].as_str()), start };
        }
    }
    parse_asm_args(&args)
}

/// The file name of the default output: the input's stem (`out` when it has
/// none) with the format as its extension.
pub open spec fn output_name_spec(stem: Option<Seq<char>>, format: Seq<char>) -> Seq<char> {
    let base = match stem {
        Some(s) => s,
        None => "out"@,
    };
    base + "."@ + format
}

/// The default output's file name for an input whose file stem is `stem`,
/// written in `format` (`ctg` or `bin`): `<stem>.<format>`, or
/// `out.<format>` when the input has no stem. The frontend places it in the
/// input's directory.
pub fn output_file_name(stem: Option<&str>, format: &str) -> (r: String)
    ensures
        r@ == output_name_spec(
            match stem {
                Some(s) => Some(s@),
                None => None,
            },
            format@,
        ),
{
    proof {
        reveal_strlit("out");
        reveal_strlit(".");
    }
    let mut r = match stem {
        Some(s) => owned(s),
        None => owned("out"),
    };
    push_str(&mut r, ".");
    push_str(&mut r, format);
    assert(r@ =~= output_name_spec(
        match stem {
            Some(s) => Some(s@),
            None => None,
        },
        format@,
    ));
    r
}


/// Whether `s` ends with `t`.
pub open spec fn ends_with(s: Seq<char>, t: Seq<char>) -> bool {
    t.len() <= s.len() && s.subrange(s.len() - t.len(), s.len() as int) == t
}

proof fn lemma_join_ends_with_name(base: Seq<char>, name: Seq<char>, sep: char)
    ensures
        ends_with(join_path(base, name, sep), name),
{
    let j = join_path(base, name, sep);
    assert(j.subrange(j.len() - name.len(), j.len() as int) =~= name);
}

/// The default output path for `input` written in `format`: the input's
/// directory and stem, with the format as extension, joined by the host's
/// separator. On a [`simple_path`] that is [`output_name_spec`] of its stem,
/// in [`parent_of`] it; on any non-empty [`plain_path`] (repeated or `.`
/// parts included) it ends with that name; the empty input gives
/// `out.<format>`.
pub fn default_output(input: &str, format: &str) -> (r: String)
    ensures
        plain_path(input@) && input@.len() > 0 ==> ends_with(
            r@,
            output_name_spec(Some(std_stem(last_component(input@))), format@),
        ),
        simple_path(input@) ==> exists|sep: char|
            #![trigger join_path(parent_of(input@), output_name_spec(Some(std_stem(last_component(input@))), format@), sep)]
            r@ == join_path(
                parent_of(input@),
                output_name_spec(Some(std_stem(last_component(input@))), format@),
                sep,
            ),
        input@.len() == 0 ==> r@ == output_name_spec(None, format@),
{
    let stem = path_file_stem(input);
    let name = match &stem {
        Some(s) => output_file_name(Some(s.as_str()), format),
        None => output_file_name(None, format),
    };
    let sep = main_separator();
    let r = match path_parent(input) {
        Some(d) => {
            proof {
                lemma_join_ends_with_name(d@, name@, sep);
            }
            join(d.as_str(), name.as_str(), sep)
        },
        None => {
            proof {
                lemma_join_ends_with_name(""@, name@, sep);
            }
            join("", name.as_str(), sep)
        },
    };
    proof {
        reveal_strlit("");
        if simple_path(input@) {
            assert(r@ == join_path(
                parent_of(input@),
                output_name_spec(Some(std_stem(last_component(input@))), format@),
                sep,
            ));
        }
    }
    r
}

} // verus!
