//! Command-line argument parsing for the emulator frontend.
//!
//! Flags override the preferences file for a single run. Supported:
//! `--cartridge <path>`, `--disk <path>`, `--system-rom <path>`,
//! `--system-grom <path>`, `--disk-dsr <path>`, `--scale <n>`,
//! `--fullscreen`, `--log-level <level>`, `--help`. Nothing is embedded: the
//! console boots bare unless media is given here or loaded later from the
//! in-app file browser (`F9`).

use vstd::prelude::*;

use crate::strings::{owned, push_str, str_eq};

verus! {

/// Parsed command line. Each `Option` is `None` when the flag was not given.
#[derive(Debug, PartialEq)]
pub struct Args {
    /// `Some(path)` to mount a `.ctg` cartridge image.
    pub cartridge: Option<String>,
    /// `Some(path)` to boot a system GROM image from disk in place of the
    /// default clean-room GROM.
    pub system_grom: Option<String>,
    /// `Some(path)` to boot a console ROM image from disk in place of the
    /// default clean-room ROM.
    pub system_rom: Option<String>,
    /// `Some(path)` to install a disk-controller DSR ROM from disk in place of
    /// the default clean-room DSR.
    pub disk_dsr: Option<String>,
    /// `Some(path)` to insert a `.dsk` disk image into DSK1.
    pub disk: Option<String>,
    pub scale: Option<u32>,
    pub fullscreen: bool,
    pub log_level: Option<String>,
    pub help: bool,
}

/// [`Args`] with its strings as characters.
pub struct ArgsView {
    pub cartridge: Option<Seq<char>>,
    pub system_grom: Option<Seq<char>>,
    pub system_rom: Option<Seq<char>>,
    pub disk_dsr: Option<Seq<char>>,
    pub disk: Option<Seq<char>>,
    pub scale: Option<u32>,
    pub fullscreen: bool,
    pub log_level: Option<Seq<char>>,
    pub help: bool,
}

/// The characters of an optional string.
pub open spec fn opt_view(o: Option<String>) -> Option<Seq<char>> {
    match o {
        Some(s) => Some(s@),
        None => None,
    }
}

impl View for Args {
    type V = ArgsView;

    open spec fn view(&self) -> ArgsView {
        ArgsView {
            cartridge: opt_view(self.cartridge),
            system_grom: opt_view(self.system_grom),
            system_rom: opt_view(self.system_rom),
            disk_dsr: opt_view(self.disk_dsr),
            disk: opt_view(self.disk),
            scale: self.scale,
            fullscreen: self.fullscreen,
            log_level: opt_view(self.log_level),
            help: self.help,
        }
    }
}

/// No flag given.
pub open spec fn no_args() -> ArgsView {
    ArgsView {
        cartridge: None,
        system_grom: None,
        system_rom: None,
        disk_dsr: None,
        disk: None,
        scale: None,
        fullscreen: false,
        log_level: None,
        help: false,
    }
}

impl Default for Args {
    fn default() -> (a: Args)
        ensures
            a@ == no_args(),
    {
        Args {
            cartridge: None,
            system_grom: None,
            system_rom: None,
            disk_dsr: None,
            disk: None,
            scale: None,
            fullscreen: false,
            log_level: None,
            help: false,
        }
    }
}

/// One-line-per-flag usage text.
pub const USAGE: &'static str = "Usage: libre99 [options]

The console boots bare (no media). Load media from these flags or in the app
with the file browser (F9).

  --cartridge <path>   Mount a .ctg cartridge image (e.g. libre99asm output)
  --disk <path>        Insert a .dsk disk image into DSK1
  --system-grom <path> Boot a system GROM image in place of the default (clean-room) GROM
  --system-rom <path>  Boot a console ROM image in place of the default (clean-room) ROM
  --disk-dsr <path>    Install a disk DSR ROM in place of the default (clean-room) DSR
  --scale <n>          Integer window scale (1-8)
  --fullscreen         Start fullscreen
  --log-level <level>  error | warn | info | debug | trace
  --help               Show this help and exit";

/// A decimal digit.
pub open spec fn is_dec_digit(c: char) -> bool {
    '0' <= c <= '9'
}

/// The value of a run of decimal digits.
pub open spec fn dec_digits_value(s: Seq<char>) -> int
    decreases s.len(),
{
    if s.len() == 0 {
        0
    } else {
        dec_digits_value(s.drop_last()) * 10 + (s.last() as int - '0' as int)
    }
}

/// Every character is a decimal digit.
pub open spec fn all_dec_digits(d: Seq<char>) -> bool {
    forall|i: int| 0 <= i < d.len() ==> is_dec_digit(#[trigger] d[i])
}

/// `s` without one leading `+`.
pub open spec fn unsigned_part(s: Seq<char>) -> Seq<char> {
    if s.len() > 0 && s[0] == '+' {
        s.drop_first()
    } else {
        s
    }
}

/// What `str::parse::<u32>` gives: an optional `+` and one or more decimal
/// digits whose value fits 32 bits.
pub open spec fn parse_u32_spec(s: Seq<char>) -> Option<u32> {
    let d = unsigned_part(s);
    if d.len() > 0 && all_dec_digits(d) && dec_digits_value(d) <= u32::MAX {
        Some(dec_digits_value(d) as u32)
    } else {
        None
    }
}

/// `s` as a 32-bit unsigned decimal number.
pub fn parse_u32(s: &str) -> (r: Option<u32>)
    ensures
        r == parse_u32_spec(s@),
{
    let v = crate::strings::chars_of(s);
    let start: usize = if v.len() > 0 && v[0] == '+' {
        1
    } else {
        0
    };
    let ghost d = unsigned_part(s@);
    assert(d =~= v@.skip(start as int));
    if start >= v.len() {
        return None;
    }
    let mut acc: u64 = 0;
    let mut big = false;
    let mut i: usize = start;
    while i < v.len()
        invariant
            start <= i <= v@.len(),
            d == v@.skip(start as int),
            d == unsigned_part(s@),
            forall|j: int| start <= j < i ==> is_dec_digit(#[trigger] v@[j]),
            !big ==> acc == dec_digits_value(v@.subrange(start as int, i as int)) && acc <= u32::MAX,
            big ==> dec_digits_value(v@.subrange(start as int, i as int)) > u32::MAX,
            dec_digits_value(v@.subrange(start as int, i as int)) >= 0,
        decreases v@.len() - i,
    {
        let c = v[i];
        if !('0' <= c && c <= '9') {
            assert(d[i - start] == v@[i as int]);
            assert(!is_dec_digit(d[i - start]));
            return None;
        }
        let dg = (c as u32 - '0' as u32) as u64;
        assert(v@.subrange(start as int, i + 1).drop_last() =~= v@.subrange(start as int, i as int));
        if !big {
            let next = acc * 10 + dg;
            if next > 0xFFFF_FFFF {
                big = true;
            } else {
                acc = next;
            }
        }
        i += 1;
    }
    assert(v@.subrange(start as int, i as int) =~= d);
    if big {
        None
    } else {
        Some(acc as u32)
    }
}

/// The message for flag `flag` given last, without its value.
pub open spec fn needs_value(flag: Seq<char>) -> Seq<char> {
    flag + " requires a value"@
}

/// The parse of `args` from position `i` on, with the flags so far in `a`.
pub open spec fn parse_from(args: Seq<Seq<char>>, i: int, a: ArgsView) -> Result<ArgsView, Seq<char>>
    decreases args.len() - i,
{
    if i >= args.len() || i < 0 {
        Ok(a)
    } else {
        let arg = args[i];
        let has_value = i + 1 < args.len();
        let v = args[i + 1];
        if arg == "--cartridge"@ || arg == "--cartridge-file"@ {
            if has_value {
                parse_from(args, i + 2, ArgsView { cartridge: Some(v), ..a })
            } else {
                Err(needs_value("--cartridge"@))
            }
        } else if arg == "--system-grom"@ {
            if has_value {
                parse_from(args, i + 2, ArgsView { system_grom: Some(v), ..a })
            } else {
                Err(needs_value("--system-grom"@))
            }
        } else if arg == "--system-rom"@ {
            if has_value {
                parse_from(args, i + 2, ArgsView { system_rom: Some(v), ..a })
            } else {
                Err(needs_value("--system-rom"@))
            }
        } else if arg == "--disk-dsr"@ {
            if has_value {
                parse_from(args, i + 2, ArgsView { disk_dsr: Some(v), ..a })
            } else {
                Err(needs_value("--disk-dsr"@))
            }
        } else if arg == "--disk"@ {
            if has_value {
                parse_from(args, i + 2, ArgsView { disk: Some(v), ..a })
            } else {
                Err(needs_value("--disk"@))
            }
        } else if arg == "--scale"@ {
            if has_value {
                match parse_u32_spec(v) {
                    Some(n) => parse_from(args, i + 2, ArgsView { scale: Some(n), ..a }),
                    None => Err("invalid --scale: "@ + v),
                }
            } else {
                Err(needs_value("--scale"@))
            }
        } else if arg == "--fullscreen"@ {
            parse_from(args, i + 1, ArgsView { fullscreen: true, ..a })
        } else if arg == "--log-level"@ {
            if has_value {
                parse_from(args, i + 2, ArgsView { log_level: Some(v), ..a })
            } else {
                Err(needs_value("--log-level"@))
            }
        } else if arg == "--help"@ || arg == "-h"@ {
            parse_from(args, i + 1, ArgsView { help: true, ..a })
        } else {
            Err("unknown argument: "@ + arg)
        }
    }
}

/// The arguments by their characters.
pub open spec fn args_view(v: Seq<String>) -> Seq<Seq<char>> {
    v.map_values(|s: String| s@)
}

/// The value after flag `flag` at position `i`, if there is one.
fn value(args: &Vec<String>, i: usize, flag: &str) -> (r: Result<String, String>)
    requires
        i < args@.len(),
    ensures
        match r {
            Ok(v) => i + 1 < args@.len() && v@ == args@[i + 1]@,
            Err(e) => i + 1 >= args@.len() && e@ == needs_value(flag@),
        },
{
    if i < args.len() - 1 {
        Ok(owned(args[i + 1].as_str()))
    } else {
        let mut e = owned(flag);
        push_str(&mut e, " requires a value");
        Err(e)
    }
}

impl Args {
    /// Whether startup resumes the previous session: only when the command
    /// line chose no media and no firmware (then it is honoured instead).
    pub fn resumes_session(&self) -> (r: bool)
        ensures
            r == (self.cartridge is None && self.disk is None && self.system_grom is None
                && self.system_rom is None),
    {
        self.cartridge.is_none() && self.disk.is_none() && self.system_grom.is_none()
            && self.system_rom.is_none()
    }

    /// The window scale: the command line's, else the preferences' `configured`.
    pub fn window_scale(&self, configured: u32) -> (r: u32)
        ensures
            r == (match self.scale {
                Some(s) => s,
                None => configured,
            }),
    {
        match self.scale {
            Some(s) => s,
            None => configured,
        }
    }

    /// Whether to start fullscreen: asked on the command line or in the
    /// preferences (`configured`).
    pub fn starts_fullscreen(&self, configured: bool) -> (r: bool)
        ensures
            r == (self.fullscreen || configured),
    {
        self.fullscreen || configured
    }

    /// Parse arguments (excluding the program name), returning an error
    /// message suitable for printing to stderr.
    pub fn parse(args: Vec<String>) -> (r: Result<Args, String>)
        ensures
            match r {
                Ok(a) => parse_from(args_view(args@), 0, no_args()) == Ok::<ArgsView, Seq<char>>(a@),
                Err(e) => parse_from(args_view(args@), 0, no_args()) == Err::<ArgsView, Seq<char>>(e@),
            },
    {
        let ghost av = args_view(args@);
        let mut out = Args::default();
        let mut i: usize = 0;
        while i < args.len()
            invariant
                i <= args@.len(),
                av == args_view(args@),
                parse_from(av, 0, no_args()) == parse_from(av, i as int, out@),
            decreases args@.len() - i,
        {
            let arg = args[i].as_str();
            assert(av[i as int] == arg@);
            assert(i + 1 < av.len() ==> av[i + 1] == args@[i + 1]@);
            if str_eq(arg, "--cartridge") || str_eq(arg, "--cartridge-file") {
                match value(&args, i, "--cartridge") {
                    Ok(v) => out.cartridge = Some(v),
                    Err(e) => return Err(e),
                }
                i += 2;
            } else if str_eq(arg, "--system-grom") {
                match value(&args, i, "--system-grom") {
                    Ok(v) => out.system_grom = Some(v),
                    Err(e) => return Err(e),
                }
                i += 2;
            } else if str_eq(arg, "--system-rom") {
                match value(&args, i, "--system-rom") {
                    Ok(v) => out.system_rom = Some(v),
                    Err(e) => return Err(e),
                }
                i += 2;
            } else if str_eq(arg, "--disk-dsr") {
                match value(&args, i, "--disk-dsr") {
                    Ok(v) => out.disk_dsr = Some(v),
                    Err(e) => return Err(e),
                }
                i += 2;
            } else if str_eq(arg, "--disk") {
                match value(&args, i, "--disk") {
                    Ok(v) => out.disk = Some(v),
                    Err(e) => return Err(e),
                }
                i += 2;
            } else if str_eq(arg, "--scale") {
                let v = match value(&args, i, "--scale") {
                    Ok(v) => v,
                    Err(e) => return Err(e),
                };
                match parse_u32(v.as_str()) {
                    Some(n) => out.scale = Some(n),
                    None => {
                        let mut e = owned("invalid --scale: ");
                        push_str(&mut e, v.as_str());
                        return Err(e);
                    },
                }
                i += 2;
            } else if str_eq(arg, "--fullscreen") {
                out.fullscreen = true;
                i += 1;
            } else if str_eq(arg, "--log-level") {
                match value(&args, i, "--log-level") {
                    Ok(v) => out.log_level = Some(v),
                    Err(e) => return Err(e),
                }
                i += 2;
            } else if str_eq(arg, "--help") || str_eq(arg, "-h") {
                out.help = true;
                i += 1;
            } else {
                let mut e = owned("unknown argument: ");
                push_str(&mut e, arg);
                return Err(e);
            }
        }
        Ok(out)
    }
}

/// `--cartridge p` or `--cartridge-file p` alone sets the cartridge to `p` and leaves every other field at its
/// default.
pub proof fn lemma_cartridge_flag(p: Seq<char>)
    ensures
        parse_from(seq!["--cartridge"@, p], 0, no_args()) == Ok::<ArgsView, Seq<char>>(ArgsView { cartridge: Some(p), ..no_args() }),
        parse_from(seq!["--cartridge-file"@, p], 0, no_args()) == Ok::<ArgsView, Seq<char>>(ArgsView { cartridge: Some(p), ..no_args() }),
{
    assert(parse_from(seq!["--cartridge"@, p], 0, no_args()) == Ok::<ArgsView, Seq<char>>(ArgsView { cartridge: Some(p), ..no_args() })) by {
        reveal_strlit("--cartridge");
        let args = seq!["--cartridge"@, p];
        assert(args[0] == "--cartridge"@);
        assert("--cartridge"@.len() == 11);
        assert(parse_from(args, 2, ArgsView { cartridge: Some(p), ..no_args() }) == Ok::<ArgsView, Seq<char>>(ArgsView { cartridge: Some(p), ..no_args() }));
    }
    assert(parse_from(seq!["--cartridge-file"@, p], 0, no_args()) == Ok::<ArgsView, Seq<char>>(ArgsView { cartridge: Some(p), ..no_args() })) by {
        reveal_strlit("--cartridge");
        reveal_strlit("--cartridge-file");
        let args = seq!["--cartridge-file"@, p];
        assert(args[0] == "--cartridge-file"@);
        assert("--cartridge-file"@.len() == 16);
        assert("--cartridge"@.len() == 11);
        assert(args[0] != "--cartridge"@);
        assert(parse_from(args, 2, ArgsView { cartridge: Some(p), ..no_args() }) == Ok::<ArgsView, Seq<char>>(ArgsView { cartridge: Some(p), ..no_args() }));
    }
}

/// `--system-grom p` alone sets the console GROM to `p` and leaves every other field at its
/// default.
pub proof fn lemma_system_grom_flag(p: Seq<char>)
    ensures
        parse_from(seq!["--system-grom"@, p], 0, no_args()) == Ok::<ArgsView, Seq<char>>(ArgsView { system_grom: Some(p), ..no_args() }),
{
    assert(parse_from(seq!["--system-grom"@, p], 0, no_args()) == Ok::<ArgsView, Seq<char>>(ArgsView { system_grom: Some(p), ..no_args() })) by {
        reveal_strlit("--cartridge");
        reveal_strlit("--cartridge-file");
        reveal_strlit("--system-grom");
        let args = seq!["--system-grom"@, p];
        assert(args[0] == "--system-grom"@);
        assert("--system-grom"@.len() == 13);
        assert("--cartridge"@.len() == 11);
        assert(args[0] != "--cartridge"@);
        assert("--cartridge-file"@.len() == 16);
        assert(args[0] != "--cartridge-file"@);
        assert(parse_from(args, 2, ArgsView { system_grom: Some(p), ..no_args() }) == Ok::<ArgsView, Seq<char>>(ArgsView { system_grom: Some(p), ..no_args() }));
    }
}

/// `--system-rom p` alone sets the console ROM to `p` and leaves every other field at its
/// default.
pub proof fn lemma_system_rom_flag(p: Seq<char>)
    ensures
        parse_from(seq!["--system-rom"@, p], 0, no_args()) == Ok::<ArgsView, Seq<char>>(ArgsView { system_rom: Some(p), ..no_args() }),
{
    assert(parse_from(seq!["--system-rom"@, p], 0, no_args()) == Ok::<ArgsView, Seq<char>>(ArgsView { system_rom: Some(p), ..no_args() })) by {
        reveal_strlit("--cartridge");
        reveal_strlit("--cartridge-file");
        reveal_strlit("--system-grom");
        reveal_strlit("--system-rom");
        let args = seq!["--system-rom"@, p];
        assert(args[0] == "--system-rom"@);
        assert("--system-rom"@.len() == 12);
        assert("--cartridge"@.len() == 11);
        assert(args[0] != "--cartridge"@);
        assert("--cartridge-file"@.len() == 16);
        assert(args[0] != "--cartridge-file"@);
        assert("--system-grom"@.len() == 13);
        assert(args[0] != "--system-grom"@);
        assert(parse_from(args, 2, ArgsView { system_rom: Some(p), ..no_args() }) == Ok::<ArgsView, Seq<char>>(ArgsView { system_rom: Some(p), ..no_args() }));
    }
}

/// `--disk-dsr p` alone sets the disk DSR to `p` and leaves every other field at its
/// default.
pub proof fn lemma_disk_dsr_flag(p: Seq<char>)
    ensures
        parse_from(seq!["--disk-dsr"@, p], 0, no_args()) == Ok::<ArgsView, Seq<char>>(ArgsView { disk_dsr: Some(p), ..no_args() }),
{
    assert(parse_from(seq!["--disk-dsr"@, p], 0, no_args()) == Ok::<ArgsView, Seq<char>>(ArgsView { disk_dsr: Some(p), ..no_args() })) by {
        reveal_strlit("--cartridge");
        reveal_strlit("--cartridge-file");
        reveal_strlit("--system-grom");
        reveal_strlit("--system-rom");
        reveal_strlit("--disk-dsr");
        let args = seq!["--disk-dsr"@, p];
        assert(args[0] == "--disk-dsr"@);
        assert("--disk-dsr"@.len() == 10);
        assert("--cartridge"@.len() == 11);
        assert(args[0] != "--cartridge"@);
        assert("--cartridge-file"@.len() == 16);
        assert(args[0] != "--cartridge-file"@);
        assert("--system-grom"@.len() == 13);
        assert(args[0] != "--system-grom"@);
        assert("--system-rom"@.len() == 12);
        assert(args[0] != "--system-rom"@);
        assert(parse_from(args, 2, ArgsView { disk_dsr: Some(p), ..no_args() }) == Ok::<ArgsView, Seq<char>>(ArgsView { disk_dsr: Some(p), ..no_args() }));
    }
}

/// `--disk p` alone sets the disk image to `p` and leaves every other field at its
/// default.
pub proof fn lemma_disk_flag(p: Seq<char>)
    ensures
        parse_from(seq!["--disk"@, p], 0, no_args()) == Ok::<ArgsView, Seq<char>>(ArgsView { disk: Some(p), ..no_args() }),
{
    assert(parse_from(seq!["--disk"@, p], 0, no_args()) == Ok::<ArgsView, Seq<char>>(ArgsView { disk: Some(p), ..no_args() })) by {
        reveal_strlit("--cartridge");
        reveal_strlit("--cartridge-file");
        reveal_strlit("--system-grom");
        reveal_strlit("--system-rom");
        reveal_strlit("--disk-dsr");
        reveal_strlit("--disk");
        let args = seq!["--disk"@, p];
        assert(args[0] == "--disk"@);
        assert("--disk"@.len() == 6);
        assert("--cartridge"@.len() == 11);
        assert(args[0] != "--cartridge"@);
        assert("--cartridge-file"@.len() == 16);
        assert(args[0] != "--cartridge-file"@);
        assert("--system-grom"@.len() == 13);
        assert(args[0] != "--system-grom"@);
        assert("--system-rom"@.len() == 12);
        assert(args[0] != "--system-rom"@);
        assert("--disk-dsr"@.len() == 10);
        assert(args[0] != "--disk-dsr"@);
        assert(parse_from(args, 2, ArgsView { disk: Some(p), ..no_args() }) == Ok::<ArgsView, Seq<char>>(ArgsView { disk: Some(p), ..no_args() }));
    }
}

/// `--log-level p` alone sets the log level to `p` and leaves every other field at its
/// default.
pub proof fn lemma_log_level_flag(p: Seq<char>)
    ensures
        parse_from(seq!["--log-level"@, p], 0, no_args()) == Ok::<ArgsView, Seq<char>>(ArgsView { log_level: Some(p), ..no_args() }),
{
    assert(parse_from(seq!["--log-level"@, p], 0, no_args()) == Ok::<ArgsView, Seq<char>>(ArgsView { log_level: Some(p), ..no_args() })) by {
        reveal_strlit("--cartridge");
        reveal_strlit("--cartridge-file");
        reveal_strlit("--system-grom");
        reveal_strlit("--system-rom");
        reveal_strlit("--disk-dsr");
        reveal_strlit("--disk");
        reveal_strlit("--scale");
        reveal_strlit("--fullscreen");
        reveal_strlit("--log-level");
        let args = seq!["--log-level"@, p];
        assert(args[0] == "--log-level"@);
        assert("--log-level"@.len() == 11);
        assert("--log-level"@[2] != "--cartridge"@[2]);
        assert(args[0] != "--cartridge"@);
        assert("--cartridge-file"@.len() == 16);
        assert(args[0] != "--cartridge-file"@);
        assert("--system-grom"@.len() == 13);
        assert(args[0] != "--system-grom"@);
        assert("--system-rom"@.len() == 12);
        assert(args[0] != "--system-rom"@);
        assert("--disk-dsr"@.len() == 10);
        assert(args[0] != "--disk-dsr"@);
        assert("--disk"@.len() == 6);
        assert(args[0] != "--disk"@);
        assert("--scale"@.len() == 7);
        assert(args[0] != "--scale"@);
        assert("--fullscreen"@.len() == 12);
        assert(args[0] != "--fullscreen"@);
        assert(parse_from(args, 2, ArgsView { log_level: Some(p), ..no_args() }) == Ok::<ArgsView, Seq<char>>(ArgsView { log_level: Some(p), ..no_args() }));
    }
}

/// `--fullscreen` alone turns on fullscreen, and `--help` or `-h` alone
/// asks for help; nothing else changes.
pub proof fn lemma_switch_flags()
    ensures
        parse_from(seq!["--fullscreen"@], 0, no_args()) == Ok::<ArgsView, Seq<char>>(ArgsView { fullscreen: true, ..no_args() }),
        parse_from(seq!["--help"@], 0, no_args()) == Ok::<ArgsView, Seq<char>>(ArgsView { help: true, ..no_args() }),
        parse_from(seq!["-h"@], 0, no_args()) == Ok::<ArgsView, Seq<char>>(ArgsView { help: true, ..no_args() }),
{
    assert(parse_from(seq!["--fullscreen"@], 0, no_args()) == Ok::<ArgsView, Seq<char>>(ArgsView { fullscreen: true, ..no_args() })) by {
        reveal_strlit("--cartridge");
        reveal_strlit("--cartridge-file");
        reveal_strlit("--system-grom");
        reveal_strlit("--system-rom");
        reveal_strlit("--disk-dsr");
        reveal_strlit("--disk");
        reveal_strlit("--scale");
        reveal_strlit("--fullscreen");
        let args = seq!["--fullscreen"@];
        assert(args[0] == "--fullscreen"@);
        assert("--fullscreen"@.len() == 12);
        assert("--cartridge"@.len() == 11);
        assert(args[0] != "--cartridge"@);
        assert("--cartridge-file"@.len() == 16);
        assert(args[0] != "--cartridge-file"@);
        assert("--system-grom"@.len() == 13);
        assert(args[0] != "--system-grom"@);
        assert("--fullscreen"@[2] != "--system-rom"@[2]);
        assert(args[0] != "--system-rom"@);
        assert("--disk-dsr"@.len() == 10);
        assert(args[0] != "--disk-dsr"@);
        assert("--disk"@.len() == 6);
        assert(args[0] != "--disk"@);
        assert("--scale"@.len() == 7);
        assert(args[0] != "--scale"@);
        assert(parse_from(args, 1, ArgsView { fullscreen: true, ..no_args() }) == Ok::<ArgsView, Seq<char>>(ArgsView { fullscreen: true, ..no_args() }));
    }
    assert(parse_from(seq!["--help"@], 0, no_args()) == Ok::<ArgsView, Seq<char>>(ArgsView { help: true, ..no_args() })) by {
        reveal_strlit("--cartridge");
        reveal_strlit("--cartridge-file");
        reveal_strlit("--system-grom");
        reveal_strlit("--system-rom");
        reveal_strlit("--disk-dsr");
        reveal_strlit("--disk");
        reveal_strlit("--scale");
        reveal_strlit("--fullscreen");
        reveal_strlit("--log-level");
        reveal_strlit("--help");
        let args = seq!["--help"@];
        assert(args[0] == "--help"@);
        assert("--help"@.len() == 6);
        assert("--cartridge"@.len() == 11);
        assert(args[0] != "--cartridge"@);
        assert("--cartridge-file"@.len() == 16);
        assert(args[0] != "--cartridge-file"@);
        assert("--system-grom"@.len() == 13);
        assert(args[0] != "--system-grom"@);
        assert("--system-rom"@.len() == 12);
        assert(args[0] != "--system-rom"@);
        assert("--disk-dsr"@.len() == 10);
        assert(args[0] != "--disk-dsr"@);
        assert("--help"@[2] != "--disk"@[2]);
        assert(args[0] != "--disk"@);
        assert("--scale"@.len() == 7);
        assert(args[0] != "--scale"@);
        assert("--fullscreen"@.len() == 12);
        assert(args[0] != "--fullscreen"@);
        assert("--log-level"@.len() == 11);
        assert(args[0] != "--log-level"@);
        assert(parse_from(args, 1, ArgsView { help: true, ..no_args() }) == Ok::<ArgsView, Seq<char>>(ArgsView { help: true, ..no_args() }));
    }
    assert(parse_from(seq!["-h"@], 0, no_args()) == Ok::<ArgsView, Seq<char>>(ArgsView { help: true, ..no_args() })) by {
        reveal_strlit("--cartridge");
        reveal_strlit("--cartridge-file");
        reveal_strlit("--system-grom");
        reveal_strlit("--system-rom");
        reveal_strlit("--disk-dsr");
        reveal_strlit("--disk");
        reveal_strlit("--scale");
        reveal_strlit("--fullscreen");
        reveal_strlit("--log-level");
        reveal_strlit("--help");
        reveal_strlit("-h");
        let args = seq!["-h"@];
        assert(args[0] == "-h"@);
        assert("-h"@.len() == 2);
        assert("--cartridge"@.len() == 11);
        assert(args[0] != "--cartridge"@);
        assert("--cartridge-file"@.len() == 16);
        assert(args[0] != "--cartridge-file"@);
        assert("--system-grom"@.len() == 13);
        assert(args[0] != "--system-grom"@);
        assert("--system-rom"@.len() == 12);
        assert(args[0] != "--system-rom"@);
        assert("--disk-dsr"@.len() == 10);
        assert(args[0] != "--disk-dsr"@);
        assert("--disk"@.len() == 6);
        assert(args[0] != "--disk"@);
        assert("--scale"@.len() == 7);
        assert(args[0] != "--scale"@);
        assert("--fullscreen"@.len() == 12);
        assert(args[0] != "--fullscreen"@);
        assert("--log-level"@.len() == 11);
        assert(args[0] != "--log-level"@);
        assert("--help"@.len() == 6);
        assert(args[0] != "--help"@);
        assert(parse_from(args, 1, ArgsView { help: true, ..no_args() }) == Ok::<ArgsView, Seq<char>>(ArgsView { help: true, ..no_args() }));
    }
}

/// The console ROM and the disk DSR are told apart whatever their order:
/// `--system-rom r --disk-dsr d` and `--disk-dsr d --system-rom r` both set
/// the console ROM to `r` and the DSR to `d`, and nothing else.
pub proof fn lemma_rom_and_dsr_in_either_order(r: Seq<char>, d: Seq<char>)
    ensures
        parse_from(seq!["--system-rom"@, r, "--disk-dsr"@, d], 0, no_args()) == Ok::<ArgsView, Seq<char>>(ArgsView { system_rom: Some(r), disk_dsr: Some(d), ..no_args() }),
        parse_from(seq!["--disk-dsr"@, d, "--system-rom"@, r], 0, no_args()) == Ok::<ArgsView, Seq<char>>(ArgsView { system_rom: Some(r), disk_dsr: Some(d), ..no_args() }),
{
    assert(parse_from(seq!["--system-rom"@, r, "--disk-dsr"@, d], 0, no_args()) == Ok::<ArgsView, Seq<char>>(ArgsView { system_rom: Some(r), disk_dsr: Some(d), ..no_args() })) by {
        reveal_strlit("--cartridge");
        reveal_strlit("--cartridge-file");
        reveal_strlit("--system-grom");
        reveal_strlit("--system-rom");
        reveal_strlit("--disk-dsr");
        let args = seq!["--system-rom"@, r, "--disk-dsr"@, d];
        assert(args[0] == "--system-rom"@);
        assert("--system-rom"@.len() == 12);
        assert("--cartridge"@.len() == 11);
        assert(args[0] != "--cartridge"@);
        assert("--cartridge-file"@.len() == 16);
        assert(args[0] != "--cartridge-file"@);
        assert("--system-grom"@.len() == 13);
        assert(args[0] != "--system-grom"@);
        assert(args[2] == "--disk-dsr"@);
        assert("--disk-dsr"@.len() == 10);
        assert("--cartridge"@.len() == 11);
        assert(args[2] != "--cartridge"@);
        assert("--cartridge-file"@.len() == 16);
        assert(args[2] != "--cartridge-file"@);
        assert("--system-grom"@.len() == 13);
        assert(args[2] != "--system-grom"@);
        assert("--system-rom"@.len() == 12);
        assert(args[2] != "--system-rom"@);
        assert(parse_from(args, 4, ArgsView { system_rom: Some(r), disk_dsr: Some(d), ..no_args() }) == Ok::<ArgsView, Seq<char>>(ArgsView { system_rom: Some(r), disk_dsr: Some(d), ..no_args() }));
        assert(parse_from(args, 2, ArgsView { system_rom: Some(r), ..no_args() }) == Ok::<ArgsView, Seq<char>>(ArgsView { system_rom: Some(r), disk_dsr: Some(d), ..no_args() }));
    }
    assert(parse_from(seq!["--disk-dsr"@, d, "--system-rom"@, r], 0, no_args()) == Ok::<ArgsView, Seq<char>>(ArgsView { system_rom: Some(r), disk_dsr: Some(d), ..no_args() })) by {
        reveal_strlit("--cartridge");
        reveal_strlit("--cartridge-file");
        reveal_strlit("--system-grom");
        reveal_strlit("--system-rom");
        reveal_strlit("--disk-dsr");
        let args = seq!["--disk-dsr"@, d, "--system-rom"@, r];
        assert(args[0] == "--disk-dsr"@);
        assert("--disk-dsr"@.len() == 10);
        assert("--cartridge"@.len() == 11);
        assert(args[0] != "--cartridge"@);
        assert("--cartridge-file"@.len() == 16);
        assert(args[0] != "--cartridge-file"@);
        assert("--system-grom"@.len() == 13);
        assert(args[0] != "--system-grom"@);
        assert("--system-rom"@.len() == 12);
        assert(args[0] != "--system-rom"@);
        assert(args[2] == "--system-rom"@);
        assert("--system-rom"@.len() == 12);
        assert("--cartridge"@.len() == 11);
        assert(args[2] != "--cartridge"@);
        assert("--cartridge-file"@.len() == 16);
        assert(args[2] != "--cartridge-file"@);
        assert("--system-grom"@.len() == 13);
        assert(args[2] != "--system-grom"@);
        assert(parse_from(args, 4, ArgsView { system_rom: Some(r), disk_dsr: Some(d), ..no_args() }) == Ok::<ArgsView, Seq<char>>(ArgsView { system_rom: Some(r), disk_dsr: Some(d), ..no_args() }));
        assert(parse_from(args, 2, ArgsView { disk_dsr: Some(d), ..no_args() }) == Ok::<ArgsView, Seq<char>>(ArgsView { system_rom: Some(r), disk_dsr: Some(d), ..no_args() }));
    }
}

} // verus!
