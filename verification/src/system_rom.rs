//! Build the rewritten TI-99/4A **console ROM** from its Editor/Assembler
//! source: assemble it as an 8 KiB absolute image at `>0000`, with the
//! `L99R` self-identification marker appended, and hold the frozen public
//! entry points to their addresses.

use vstd::prelude::*;
use vstd::utf8::encode_utf8;

use crate::strings::{owned, push_str};
use crate::{
    assemble_spec, diags_view, matches_outcome, pad_right, padded_to, pins_view, AsmOutcome,
    Assembly, Diag,
    DiagView, Options, OptionsView,
};

verus! {

/// The console ROM occupies CPU `>0000..>1FFF` — 8 KiB.
pub const ROM_SIZE: usize = 0x2000;

/// Public entry points whose addresses are frozen: external software and TI's
/// own GROMs branch to these, so a size regression that shifts any of them must
/// fail the build.
pub open spec fn frozen_pins() -> Seq<(Seq<char>, u16)> {
    seq![
        ("START"@, 0x0024u16),
        ("SOFT"@, 0x006Au16),
        ("LOOP"@, 0x0070u16),
        ("FETCH"@, 0x0078u16),
        ("R9ENT"@, 0x007Au16),
        ("MASK20"@, 0x011Bu16),
        ("ISR"@, 0x0900u16),
        ("SROM"@, 0x0AC0u16),
        ("SGROM"@, 0x0B24u16),
        ("KSCAN"@, 0x02B2u16),
        ("GPOP"@, 0x0842u16),
        ("SPEC"@, 0x0270u16),
        ("BACK"@, 0x029Eu16),
        ("CLEARH"@, 0x04B2u16),
        ("OPGET"@, 0x077Au16),
        ("RTN"@, 0x0838u16),
        ("RTNC"@, 0x083Eu16),
        ("CALLH2"@, 0x085Au16),
        ("GPUSH"@, 0x0864u16),
        ("VDPRL"@, 0x089Au16),
        ("NIBTAB"@, 0x0C36u16),
        ("SPCTAB"@, 0x0C3Eu16),
        ("TAB7E"@, 0x0C7Eu16),
    ]
}

/// The frozen entry points, `(symbol, address)`.
pub fn frozen_entries() -> (v: Vec<(&'static str, u16)>)
    ensures
        pins_view(v@) == frozen_pins(),
{
    let v = vec![
        ("START", 0x0024u16), // reset / EXIT routine
        ("SOFT", 0x006Au16), // public soft entry: clear cond, run
        ("LOOP", 0x0070u16), // GPL interpreter main loop
        ("FETCH", 0x0078u16), // the fetch (public geometry: >001C stub)
        ("R9ENT", 0x007Au16), // opcode-in-R9 entry (>0016 stub)
        ("MASK20", 0x011Bu16), // the NASTY condition-bit mask byte
        ("ISR", 0x0900u16), // VBLANK interrupt handler
        ("SROM", 0x0AC0u16), // XML >19 — peripheral-card ROM search
        ("SGROM", 0x0B24u16), // XML >1A — GROM-header service search
        ("KSCAN", 0x02B2u16), // keyboard scanner
        ("GPOP", 0x0842u16), // GROM-position pop helper
        ("SPEC", 0x0270u16), // specials sub-dispatch
        ("BACK", 0x029Eu16), // the BACK opcode handler
        ("CLEARH", 0x04B2u16), // CLEAR/BREAK (FCTN-4) test
        ("OPGET", 0x077Au16), // the GAS operand engine
        ("RTN", 0x0838u16), // RTN (clears cond, falls into RTNC)
        ("RTNC", 0x083Eu16), // RTNC
        ("CALLH2", 0x085Au16), // CALL
        ("GPUSH", 0x0864u16), // the GROM-position push helper
        ("VDPRL", 0x089Au16), // VDP register-load helper
        ("NIBTAB", 0x0C36u16), // first-nibble dispatch table
        ("SPCTAB", 0x0C3Eu16), // special-op dispatch table
        ("TAB7E", 0x0C7Eu16), // the >=>80 dispatch table
    ];
    assert(pins_view(v@) =~= frozen_pins());
    v
}

/// The console-ROM source with the self-identification marker appended:
/// `L99R` and the version padded to 12 characters, at `>0BF0`. The
/// assembler treats `END` as a directive, not a terminator, so appended
/// source still assembles.
pub open spec fn console_source(code: Seq<char>, version: Seq<char>) -> Seq<char> {
    code + "\n* Libre99 self-identification marker (see libre99_core::sysinfo).\n        AORG >0BF0\n        TEXT 'L99R'\n        TEXT '"@
        + pad_right(version, 12) + "'\n"@
}

/// The top-level console-ROM source `code`, with the `L99R`
/// self-identification marker appended: `L99R` and a 12-character
/// space-padded version string at `>0BF0`, which makes the image
/// self-identifying. `>0BF0-0BFF` sits in a free gap of the ROM.
pub fn console_asm_source(code: &str, version: &str) -> (s: String)
    requires
        encode_utf8(version@).len() <= 12,
    ensures
        s@ == console_source(code@, version@),
{
    let mut s = owned(code);
    push_str(
        &mut s,
        "\n* Libre99 self-identification marker (see libre99_core::sysinfo).\n        AORG >0BF0\n        TEXT 'L99R'\n        TEXT '",
    );
    let start = s.as_str().unicode_len();
    let ghost s0 = s@;
    push_str(&mut s, version);
    assert(s@.skip(start as int) =~= version@);
    assert(s@.take(start as int) =~= s0);
    crate::push_spaces_to(&mut s, start, 12);
    push_str(&mut s, "'\n");
    s
}

/// The options of the console-ROM build: an absolute 8 KiB image at `>0000`.
pub open spec fn console_options() -> OptionsView {
    OptionsView { name: None, entry: None, base: 0, auto_header: false, absolute: true, image_size: ROM_SIZE as nat }
}

/// The console-ROM build of `code` and `version`: the assembly of the
/// marked source, unless a frozen entry point moved.
pub open spec fn console_build(code: Seq<char>, version: Seq<char>) -> Result<AsmOutcome, Seq<DiagView>> {
    crate::layout_gate(assemble_spec(console_source(code, version), console_options()), frozen_pins())
}

/// Assemble the console ROM to its 8 KiB [`Assembly`] (symbols, listing),
/// asserting that the frozen public entry points did not drift.
pub fn assemble_console_rom(code: &str, version: &str) -> (r: Result<Assembly, Vec<Diag>>)
    requires
        encode_utf8(version@).len() <= 12,
    ensures
        match r {
            Ok(a) => (match console_build(code@, version@) {
                Ok(out) => matches_outcome(a, out),
                Err(_) => false,
            }) && padded_to(a.rom@, a.image@, ROM_SIZE as nat),
            Err(d) => console_build(code@, version@) == Err::<AsmOutcome, Seq<DiagView>>(diags_view(d@)),
        },
{
    let src = console_asm_source(code, version);
    let opts = Options::absolute_image(ROM_SIZE);
    let pins = frozen_entries();
    crate::assemble_pinned(src.as_str(), &opts, pins.as_slice())
}

/// Assemble the console ROM to its 8 KiB image, asserting that the frozen
/// public entry points did not drift.
pub fn build_console_rom(code: &str, version: &str) -> (r: Result<Vec<u8>, Vec<Diag>>)
    requires
        encode_utf8(version@).len() <= 12,
    ensures
        match r {
            Ok(rom) => (match console_build(code@, version@) {
                Ok(out) => rom@ == out.rom,
                Err(_) => false,
            }) && rom@.len() == ROM_SIZE,
            Err(d) => console_build(code@, version@) == Err::<AsmOutcome, Seq<DiagView>>(diags_view(d@)),
        },
{
    match assemble_console_rom(code, version) {
        Ok(a) => Ok(a.rom),
        Err(d) => Err(d),
    }
}

} // verus!
