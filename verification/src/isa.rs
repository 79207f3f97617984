//! The TMS9900 instruction table the encoder and the [`crate::disasm`] decoder
//! are both driven by (one diffable source of truth).
//!
//! Complete: all 69 base opcodes across all nine instruction formats —
//! dual-operand (I), jumps (II) and the CRU single-bit ops that share its shape,
//! `COC`/`CZC`/`XOR` + `MPY`/`DIV`/`XOP` (III/IX), CRU multi-bit (IV), shifts (V),
//! single-operand (VI), no-operand control (VII), and the immediate /
//! store-register forms (VIII) — plus the `NOP`/`RT` pseudo-ops.

use vstd::prelude::*;

use crate::strings::str_eq;

verus! {

/// Instruction format (operand shape), selecting which encoder runs.
#[derive(Clone, Copy, Debug, PartialEq, Eq, Structural)]
pub enum Fmt {
    /// Format I: two general operands; the byte variant is baked into `base`.
    Dual,
    /// Format II: a single signed word displacement (jumps).
    Jump,
    /// Format VI: one general operand.
    Single,
    /// Format VIII: a register field plus an immediate word.
    ImmReg,
    /// Format VIII: an immediate word with no register field (`LWPI`/`LIMI`).
    Imm,
    /// A pseudo-instruction emitting `base` verbatim with no operands.
    Pseudo,
    /// Formats III/IX: a general source plus a 4-bit field in bits 6–9 — a
    /// register (`COC`/`CZC`/`XOR`/`MPY`/`DIV`) or a count (`XOP`).
    RegSrc,
    /// Format IV: a general source plus a 0–15 transfer count (`LDCR`/`STCR`).
    CruMulti,
    /// Format V: a workspace register plus a 0–15 shift count (`SLA`/`SRA`/…).
    Shift,
    /// Format II shape, but the operand is a signed CRU-bit *displacement value*
    /// added to `R12>>1` — not a jump target (`SBO`/`SBZ`/`TB`).
    CruBit,
    /// Format VIII: a register field, no immediate (`STWP`/`STST`).
    RegOnly,
    /// Format VII: no operands (`RTWP`/`IDLE`/`RSET`/`CKON`/`CKOF`/`LREX`).
    Control,
}

/// One instruction definition.
#[derive(Clone, Copy, Debug)]
pub struct Insn {
    pub name: &'static str,
    pub base: u16,
    pub fmt: Fmt,
}

/// Entry `i` of the instruction table (`0 <= i < 71`), in lookup order.
pub open spec fn table_entry(i: int) -> Insn {
    if i == 0 {
        Insn { name: "SZC", base: 0x4000, fmt: Fmt::Dual }
    } else if i == 1 {
        Insn { name: "SZCB", base: 0x5000, fmt: Fmt::Dual }
    } else if i == 2 {
        Insn { name: "S", base: 0x6000, fmt: Fmt::Dual }
    } else if i == 3 {
        Insn { name: "SB", base: 0x7000, fmt: Fmt::Dual }
    } else if i == 4 {
        Insn { name: "C", base: 0x8000, fmt: Fmt::Dual }
    } else if i == 5 {
        Insn { name: "CB", base: 0x9000, fmt: Fmt::Dual }
    } else if i == 6 {
        Insn { name: "A", base: 0xA000, fmt: Fmt::Dual }
    } else if i == 7 {
        Insn { name: "AB", base: 0xB000, fmt: Fmt::Dual }
    } else if i == 8 {
        Insn { name: "MOV", base: 0xC000, fmt: Fmt::Dual }
    } else if i == 9 {
        Insn { name: "MOVB", base: 0xD000, fmt: Fmt::Dual }
    } else if i == 10 {
        Insn { name: "SOC", base: 0xE000, fmt: Fmt::Dual }
    } else if i == 11 {
        Insn { name: "SOCB", base: 0xF000, fmt: Fmt::Dual }
    } else if i == 12 {
        Insn { name: "JMP", base: 0x1000, fmt: Fmt::Jump }
    } else if i == 13 {
        Insn { name: "JLT", base: 0x1100, fmt: Fmt::Jump }
    } else if i == 14 {
        Insn { name: "JLE", base: 0x1200, fmt: Fmt::Jump }
    } else if i == 15 {
        Insn { name: "JEQ", base: 0x1300, fmt: Fmt::Jump }
    } else if i == 16 {
        Insn { name: "JHE", base: 0x1400, fmt: Fmt::Jump }
    } else if i == 17 {
        Insn { name: "JGT", base: 0x1500, fmt: Fmt::Jump }
    } else if i == 18 {
        Insn { name: "JNE", base: 0x1600, fmt: Fmt::Jump }
    } else if i == 19 {
        Insn { name: "JNC", base: 0x1700, fmt: Fmt::Jump }
    } else if i == 20 {
        Insn { name: "JOC", base: 0x1800, fmt: Fmt::Jump }
    } else if i == 21 {
        Insn { name: "JNO", base: 0x1900, fmt: Fmt::Jump }
    } else if i == 22 {
        Insn { name: "JL", base: 0x1A00, fmt: Fmt::Jump }
    } else if i == 23 {
        Insn { name: "JH", base: 0x1B00, fmt: Fmt::Jump }
    } else if i == 24 {
        Insn { name: "JOP", base: 0x1C00, fmt: Fmt::Jump }
    } else if i == 25 {
        Insn { name: "BLWP", base: 0x0400, fmt: Fmt::Single }
    } else if i == 26 {
        Insn { name: "B", base: 0x0440, fmt: Fmt::Single }
    } else if i == 27 {
        Insn { name: "X", base: 0x0480, fmt: Fmt::Single }
    } else if i == 28 {
        Insn { name: "CLR", base: 0x04C0, fmt: Fmt::Single }
    } else if i == 29 {
        Insn { name: "NEG", base: 0x0500, fmt: Fmt::Single }
    } else if i == 30 {
        Insn { name: "INV", base: 0x0540, fmt: Fmt::Single }
    } else if i == 31 {
        Insn { name: "INC", base: 0x0580, fmt: Fmt::Single }
    } else if i == 32 {
        Insn { name: "INCT", base: 0x05C0, fmt: Fmt::Single }
    } else if i == 33 {
        Insn { name: "DEC", base: 0x0600, fmt: Fmt::Single }
    } else if i == 34 {
        Insn { name: "DECT", base: 0x0640, fmt: Fmt::Single }
    } else if i == 35 {
        Insn { name: "BL", base: 0x0680, fmt: Fmt::Single }
    } else if i == 36 {
        Insn { name: "SWPB", base: 0x06C0, fmt: Fmt::Single }
    } else if i == 37 {
        Insn { name: "SETO", base: 0x0700, fmt: Fmt::Single }
    } else if i == 38 {
        Insn { name: "ABS", base: 0x0740, fmt: Fmt::Single }
    } else if i == 39 {
        Insn { name: "LI", base: 0x0200, fmt: Fmt::ImmReg }
    } else if i == 40 {
        Insn { name: "AI", base: 0x0220, fmt: Fmt::ImmReg }
    } else if i == 41 {
        Insn { name: "ANDI", base: 0x0240, fmt: Fmt::ImmReg }
    } else if i == 42 {
        Insn { name: "ORI", base: 0x0260, fmt: Fmt::ImmReg }
    } else if i == 43 {
        Insn { name: "CI", base: 0x0280, fmt: Fmt::ImmReg }
    } else if i == 44 {
        Insn { name: "LWPI", base: 0x02E0, fmt: Fmt::Imm }
    } else if i == 45 {
        Insn { name: "LIMI", base: 0x0300, fmt: Fmt::Imm }
    } else if i == 46 {
        Insn { name: "COC", base: 0x2000, fmt: Fmt::RegSrc }
    } else if i == 47 {
        Insn { name: "CZC", base: 0x2400, fmt: Fmt::RegSrc }
    } else if i == 48 {
        Insn { name: "XOR", base: 0x2800, fmt: Fmt::RegSrc }
    } else if i == 49 {
        Insn { name: "XOP", base: 0x2C00, fmt: Fmt::RegSrc }
    } else if i == 50 {
        Insn { name: "MPY", base: 0x3800, fmt: Fmt::RegSrc }
    } else if i == 51 {
        Insn { name: "DIV", base: 0x3C00, fmt: Fmt::RegSrc }
    } else if i == 52 {
        Insn { name: "LDCR", base: 0x3000, fmt: Fmt::CruMulti }
    } else if i == 53 {
        Insn { name: "STCR", base: 0x3400, fmt: Fmt::CruMulti }
    } else if i == 54 {
        Insn { name: "SRA", base: 0x0800, fmt: Fmt::Shift }
    } else if i == 55 {
        Insn { name: "SRL", base: 0x0900, fmt: Fmt::Shift }
    } else if i == 56 {
        Insn { name: "SLA", base: 0x0A00, fmt: Fmt::Shift }
    } else if i == 57 {
        Insn { name: "SRC", base: 0x0B00, fmt: Fmt::Shift }
    } else if i == 58 {
        Insn { name: "SBO", base: 0x1D00, fmt: Fmt::CruBit }
    } else if i == 59 {
        Insn { name: "SBZ", base: 0x1E00, fmt: Fmt::CruBit }
    } else if i == 60 {
        Insn { name: "TB", base: 0x1F00, fmt: Fmt::CruBit }
    } else if i == 61 {
        Insn { name: "STWP", base: 0x02A0, fmt: Fmt::RegOnly }
    } else if i == 62 {
        Insn { name: "STST", base: 0x02C0, fmt: Fmt::RegOnly }
    } else if i == 63 {
        Insn { name: "RTWP", base: 0x0380, fmt: Fmt::Control }
    } else if i == 64 {
        Insn { name: "IDLE", base: 0x0340, fmt: Fmt::Control }
    } else if i == 65 {
        Insn { name: "RSET", base: 0x0360, fmt: Fmt::Control }
    } else if i == 66 {
        Insn { name: "CKON", base: 0x03A0, fmt: Fmt::Control }
    } else if i == 67 {
        Insn { name: "CKOF", base: 0x03C0, fmt: Fmt::Control }
    } else if i == 68 {
        Insn { name: "LREX", base: 0x03E0, fmt: Fmt::Control }
    } else if i == 69 {
        Insn { name: "NOP", base: 0x1000, fmt: Fmt::Pseudo }
    } else {
        Insn { name: "RT", base: 0x045B, fmt: Fmt::Pseudo }
    }
}

/// The number of table entries.
pub const TABLE_LEN: usize = 71;

/// The instruction table, in lookup order.
pub open spec fn table_spec() -> Seq<Insn> {
    Seq::new(TABLE_LEN as nat, |i: int| table_entry(i))
}

/// Entry `i` of the instruction table.
fn entry(i: usize) -> (e: Insn)
    requires
        i < TABLE_LEN,
    ensures
        e == table_entry(i as int),
{
    match i {
        0 => Insn { name: "SZC", base: 0x4000, fmt: Fmt::Dual },
        1 => Insn { name: "SZCB", base: 0x5000, fmt: Fmt::Dual },
        2 => Insn { name: "S", base: 0x6000, fmt: Fmt::Dual },
        3 => Insn { name: "SB", base: 0x7000, fmt: Fmt::Dual },
        4 => Insn { name: "C", base: 0x8000, fmt: Fmt::Dual },
        5 => Insn { name: "CB", base: 0x9000, fmt: Fmt::Dual },
        6 => Insn { name: "A", base: 0xA000, fmt: Fmt::Dual },
        7 => Insn { name: "AB", base: 0xB000, fmt: Fmt::Dual },
        8 => Insn { name: "MOV", base: 0xC000, fmt: Fmt::Dual },
        9 => Insn { name: "MOVB", base: 0xD000, fmt: Fmt::Dual },
        10 => Insn { name: "SOC", base: 0xE000, fmt: Fmt::Dual },
        11 => Insn { name: "SOCB", base: 0xF000, fmt: Fmt::Dual },
        12 => Insn { name: "JMP", base: 0x1000, fmt: Fmt::Jump },
        13 => Insn { name: "JLT", base: 0x1100, fmt: Fmt::Jump },
        14 => Insn { name: "JLE", base: 0x1200, fmt: Fmt::Jump },
        15 => Insn { name: "JEQ", base: 0x1300, fmt: Fmt::Jump },
        16 => Insn { name: "JHE", base: 0x1400, fmt: Fmt::Jump },
        17 => Insn { name: "JGT", base: 0x1500, fmt: Fmt::Jump },
        18 => Insn { name: "JNE", base: 0x1600, fmt: Fmt::Jump },
        19 => Insn { name: "JNC", base: 0x1700, fmt: Fmt::Jump },
        20 => Insn { name: "JOC", base: 0x1800, fmt: Fmt::Jump },
        21 => Insn { name: "JNO", base: 0x1900, fmt: Fmt::Jump },
        22 => Insn { name: "JL", base: 0x1A00, fmt: Fmt::Jump },
        23 => Insn { name: "JH", base: 0x1B00, fmt: Fmt::Jump },
        24 => Insn { name: "JOP", base: 0x1C00, fmt: Fmt::Jump },
        25 => Insn { name: "BLWP", base: 0x0400, fmt: Fmt::Single },
        26 => Insn { name: "B", base: 0x0440, fmt: Fmt::Single },
        27 => Insn { name: "X", base: 0x0480, fmt: Fmt::Single },
        28 => Insn { name: "CLR", base: 0x04C0, fmt: Fmt::Single },
        29 => Insn { name: "NEG", base: 0x0500, fmt: Fmt::Single },
        30 => Insn { name: "INV", base: 0x0540, fmt: Fmt::Single },
        31 => Insn { name: "INC", base: 0x0580, fmt: Fmt::Single },
        32 => Insn { name: "INCT", base: 0x05C0, fmt: Fmt::Single },
        33 => Insn { name: "DEC", base: 0x0600, fmt: Fmt::Single },
        34 => Insn { name: "DECT", base: 0x0640, fmt: Fmt::Single },
        35 => Insn { name: "BL", base: 0x0680, fmt: Fmt::Single },
        36 => Insn { name: "SWPB", base: 0x06C0, fmt: Fmt::Single },
        37 => Insn { name: "SETO", base: 0x0700, fmt: Fmt::Single },
        38 => Insn { name: "ABS", base: 0x0740, fmt: Fmt::Single },
        39 => Insn { name: "LI", base: 0x0200, fmt: Fmt::ImmReg },
        40 => Insn { name: "AI", base: 0x0220, fmt: Fmt::ImmReg },
        41 => Insn { name: "ANDI", base: 0x0240, fmt: Fmt::ImmReg },
        42 => Insn { name: "ORI", base: 0x0260, fmt: Fmt::ImmReg },
        43 => Insn { name: "CI", base: 0x0280, fmt: Fmt::ImmReg },
        44 => Insn { name: "LWPI", base: 0x02E0, fmt: Fmt::Imm },
        45 => Insn { name: "LIMI", base: 0x0300, fmt: Fmt::Imm },
        46 => Insn { name: "COC", base: 0x2000, fmt: Fmt::RegSrc },
        47 => Insn { name: "CZC", base: 0x2400, fmt: Fmt::RegSrc },
        48 => Insn { name: "XOR", base: 0x2800, fmt: Fmt::RegSrc },
        49 => Insn { name: "XOP", base: 0x2C00, fmt: Fmt::RegSrc },
        50 => Insn { name: "MPY", base: 0x3800, fmt: Fmt::RegSrc },
        51 => Insn { name: "DIV", base: 0x3C00, fmt: Fmt::RegSrc },
        52 => Insn { name: "LDCR", base: 0x3000, fmt: Fmt::CruMulti },
        53 => Insn { name: "STCR", base: 0x3400, fmt: Fmt::CruMulti },
        54 => Insn { name: "SRA", base: 0x0800, fmt: Fmt::Shift },
        55 => Insn { name: "SRL", base: 0x0900, fmt: Fmt::Shift },
        56 => Insn { name: "SLA", base: 0x0A00, fmt: Fmt::Shift },
        57 => Insn { name: "SRC", base: 0x0B00, fmt: Fmt::Shift },
        58 => Insn { name: "SBO", base: 0x1D00, fmt: Fmt::CruBit },
        59 => Insn { name: "SBZ", base: 0x1E00, fmt: Fmt::CruBit },
        60 => Insn { name: "TB", base: 0x1F00, fmt: Fmt::CruBit },
        61 => Insn { name: "STWP", base: 0x02A0, fmt: Fmt::RegOnly },
        62 => Insn { name: "STST", base: 0x02C0, fmt: Fmt::RegOnly },
        63 => Insn { name: "RTWP", base: 0x0380, fmt: Fmt::Control },
        64 => Insn { name: "IDLE", base: 0x0340, fmt: Fmt::Control },
        65 => Insn { name: "RSET", base: 0x0360, fmt: Fmt::Control },
        66 => Insn { name: "CKON", base: 0x03A0, fmt: Fmt::Control },
        67 => Insn { name: "CKOF", base: 0x03C0, fmt: Fmt::Control },
        68 => Insn { name: "LREX", base: 0x03E0, fmt: Fmt::Control },
        69 => Insn { name: "NOP", base: 0x1000, fmt: Fmt::Pseudo },
        _ => Insn { name: "RT", base: 0x045B, fmt: Fmt::Pseudo },
    }
}

/// A number that encodes a name: each character's code plus one, as the
/// digits of a base-`0x11_0001` numeral (equal names, equal numbers).
pub open spec fn name_code(s: Seq<char>) -> int
    decreases s.len(),
{
    if s.len() == 0 {
        0
    } else {
        (s[0] as int) + 1 + 0x11_0001 * name_code(s.drop_first())
    }
}

/// Mnemonics are unique: distinct table entries have distinct names, so a
/// lookup by name finds the one entry of that name.
#[verifier::spinoff_prover]
#[verifier::rlimit(100)]
pub proof fn lemma_names_distinct(k1: int, k2: int)
    requires
        0 <= k1 < table_spec().len(),
        0 <= k2 < table_spec().len(),
        k1 != k2,
    ensures
        table_spec()[k1].name@ != table_spec()[k2].name@,
{
    reveal_with_fuel(name_code, 5);
    reveal_strlit("SZC");
    reveal_strlit("SZCB");
    reveal_strlit("S");
    reveal_strlit("SB");
    reveal_strlit("C");
    reveal_strlit("CB");
    reveal_strlit("A");
    reveal_strlit("AB");
    reveal_strlit("MOV");
    reveal_strlit("MOVB");
    reveal_strlit("SOC");
    reveal_strlit("SOCB");
    reveal_strlit("JMP");
    reveal_strlit("JLT");
    reveal_strlit("JLE");
    reveal_strlit("JEQ");
    reveal_strlit("JHE");
    reveal_strlit("JGT");
    reveal_strlit("JNE");
    reveal_strlit("JNC");
    reveal_strlit("JOC");
    reveal_strlit("JNO");
    reveal_strlit("JL");
    reveal_strlit("JH");
    reveal_strlit("JOP");
    reveal_strlit("BLWP");
    reveal_strlit("B");
    reveal_strlit("X");
    reveal_strlit("CLR");
    reveal_strlit("NEG");
    reveal_strlit("INV");
    reveal_strlit("INC");
    reveal_strlit("INCT");
    reveal_strlit("DEC");
    reveal_strlit("DECT");
    reveal_strlit("BL");
    reveal_strlit("SWPB");
    reveal_strlit("SETO");
    reveal_strlit("ABS");
    reveal_strlit("LI");
    reveal_strlit("AI");
    reveal_strlit("ANDI");
    reveal_strlit("ORI");
    reveal_strlit("CI");
    reveal_strlit("LWPI");
    reveal_strlit("LIMI");
    reveal_strlit("COC");
    reveal_strlit("CZC");
    reveal_strlit("XOR");
    reveal_strlit("XOP");
    reveal_strlit("MPY");
    reveal_strlit("DIV");
    reveal_strlit("LDCR");
    reveal_strlit("STCR");
    reveal_strlit("SRA");
    reveal_strlit("SRL");
    reveal_strlit("SLA");
    reveal_strlit("SRC");
    reveal_strlit("SBO");
    reveal_strlit("SBZ");
    reveal_strlit("TB");
    reveal_strlit("STWP");
    reveal_strlit("STST");
    reveal_strlit("RTWP");
    reveal_strlit("IDLE");
    reveal_strlit("RSET");
    reveal_strlit("CKON");
    reveal_strlit("CKOF");
    reveal_strlit("LREX");
    reveal_strlit("NOP");
    reveal_strlit("RT");
    assert(name_code(table_spec()[k1].name@) != name_code(table_spec()[k2].name@));
}

/// The first table entry at or after `i` named `name`.
pub open spec fn lookup_from(name: Seq<char>, i: int) -> Option<Insn>
    decreases table_spec().len() - i,
{
    if i < 0 || i >= table_spec().len() {
        None
    } else if table_spec()[i].name@ == name {
        Some(table_spec()[i])
    } else {
        lookup_from(name, i + 1)
    }
}

/// The instruction named `name` (an already upper-cased mnemonic), if any.
pub open spec fn lookup_spec(name: Seq<char>) -> Option<Insn> {
    lookup_from(name, 0)
}

/// Look up an instruction by its (already upper-cased) mnemonic.
pub fn lookup(name_upper: &str) -> (r: Option<Insn>)
    ensures
        r == lookup_spec(name_upper@),
{
    let t = table();
    let mut i: usize = 0;
    while i < t.len()
        invariant
            t@ == table_spec(),
            i <= t@.len(),
            lookup_spec(name_upper@) == lookup_from(name_upper@, i as int),
        decreases t@.len() - i,
    {
        if str_eq(t[i].name, name_upper) {
            return Some(t[i]);
        }
        i += 1;
    }
    None
}

/// The full instruction table — the single source of truth the encoder and the
/// [`crate::disasm`] decoder both drive from.
pub fn table() -> (t: Vec<Insn>)
    ensures
        t@ == table_spec(),
{
    let mut t: Vec<Insn> = Vec::new();
    let mut i: usize = 0;
    while i < TABLE_LEN
        invariant
            i <= TABLE_LEN,
            t@ == table_spec().take(i as int),
        decreases TABLE_LEN - i,
    {
        t.push(entry(i));
        i += 1;
        assert(t@ =~= table_spec().take(i as int));
    }
    assert(table_spec().take(TABLE_LEN as int) =~= table_spec());
    t
}

// ---- opcode words -------------------------------------------------------------

/// A format-`Dual` opcode word: source mode `ts` and register `s`,
/// destination mode `td` and register `d`.
pub open spec fn dual_word(base: u16, ts: u16, s: u16, td: u16, d: u16) -> u16 {
    base | (td << 10u16) | (d << 6u16) | (ts << 4u16) | s
}

/// A format-`Single` opcode word: source mode `ts` and register `s`.
pub open spec fn single_word(base: u16, ts: u16, s: u16) -> u16 {
    base | (ts << 4u16) | s
}

/// A `RegSrc`/`CruMulti` opcode word: the 4-bit field `f` in bits 6–9 over
/// the general source `ts`, `s`.
pub open spec fn field_word(base: u16, f: u16, ts: u16, s: u16) -> u16 {
    base | (f << 6u16) | (ts << 4u16) | s
}

/// A format-`Shift` opcode word: count `c` over register `w`.
pub open spec fn shift_word(base: u16, c: u16, w: u16) -> u16 {
    base | (c << 4u16) | w
}

/// An opcode word with a low field `v` (a displacement byte, or a register).
pub open spec fn low_word(base: u16, v: u16) -> u16 {
    base | v
}

/// The opcode word the encoder writes for `insn`, given the operand fields
/// its format uses: general source `(ts, s)`, general destination `(td, d)`,
/// the 4-bit count/register field `c`, and the low byte `b` (displacement,
/// or register for the register-only forms).
pub open spec fn opcode_word(insn: Insn, ts: u16, s: u16, td: u16, d: u16, c: u16, b: u16) -> u16 {
    match insn.fmt {
        Fmt::Dual => dual_word(insn.base, ts, s, td, d),
        Fmt::Single => single_word(insn.base, ts, s),
        Fmt::RegSrc | Fmt::CruMulti => field_word(insn.base, c, ts, s),
        Fmt::Shift => shift_word(insn.base, c, s),
        Fmt::Jump | Fmt::CruBit | Fmt::ImmReg | Fmt::RegOnly => low_word(insn.base, b),
        Fmt::Imm | Fmt::Control | Fmt::Pseudo => insn.base,
    }
}

/// Whether the operand fields fit their widths in `insn`'s format: modes
/// are 2 bits and registers and counts 4; the low field is a byte, a
/// register (4 bits) in the register-only forms.
pub open spec fn fields_fit(insn: Insn, ts: u16, s: u16, td: u16, d: u16, c: u16, b: u16) -> bool {
    &&& ts < 4
    &&& s < 16
    &&& td < 4
    &&& d < 16
    &&& c < 16
    &&& b < (if insn.fmt == Fmt::ImmReg || insn.fmt == Fmt::RegOnly {
        16u16
    } else {
        256u16
    })
}

} // verus!
