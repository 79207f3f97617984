//! Libre99: a two-pass TMS9900 assembler for the TI-99/4A (Editor/Assembler
//! source; the full instruction set and E/A expression syntax, driven by the
//! [`isa`] table), its disassembler, and the verified pieces of the emulator
//! frontend (command line, speed control, frame pacing, text overlays, PNG
//! screenshots, media warnings, key mapping).
//!
//! The assembler works in one of two modes:
//!
//! * **Cartridge mode** (default) — a standard `>6000` ROM header
//!   (synthesized by default) plus the assembled machine code.
//! * **Absolute (raw-image) mode** ([`Options::absolute`]) — `AORG`-placed code
//!   and data with a per-byte overlap guard, used to build the console ROM.
//!
//! Two passes: pass 1 lays out the image, defines every label, and sizes each
//! statement; pass 2 evaluates operands (now that all symbols are known), encodes
//! instructions, and emits bytes. Forward references are therefore fine in
//! instruction and `DATA` operands.

pub mod asm_cli;
pub mod cli;
pub mod config;
pub mod disasm;
pub mod disk_dsr;
pub mod disks;

pub mod expr;
pub mod font;
pub mod front;
pub mod help;
pub mod hotkeys;
pub mod hud;
pub mod input;
pub mod inspector;
pub mod isa;
pub mod lex;
pub mod logging;
pub mod media;
pub mod pacing;
pub mod screenshot;
pub mod speed;
pub mod strings;
pub mod sysinfo;
pub mod system_rom;
pub mod text;
pub mod video;


use vstd::prelude::*;
use vstd::utf8::encode_utf8;
use vstd::wrapping::i64_specs;

use crate::expr::{eval_spec, res_view, Symbols};
use crate::front::{operands as operands_of, operands_spec, string_operand_spec};
use crate::isa::{
    dual_word, field_word, lookup, lookup_spec, low_word, shift_word, single_word, Fmt, Insn,
};
use crate::lex::{lines_view, LineView};
use crate::strings::{dec_int, dec_nat, hex2, hex4, owned, push_chars, push_dec_i64, push_dec_u64, push_hex, push_str, str_eq, unicode_upper};

verus! {

/// One assembly diagnostic, tied to a source line.
#[derive(Debug, Clone)]
pub struct Diag {
    /// 1-based source line (`0` for whole-program diagnostics).
    pub line: usize,
    pub message: String,
}

/// A diagnostic with its message as characters.
pub struct DiagView {
    pub line: usize,
    pub message: Seq<char>,
}

impl View for Diag {
    type V = DiagView;

    open spec fn view(&self) -> DiagView {
        DiagView { line: self.line, message: self.message@ }
    }
}

/// The diagnostics of a list, by their views.
pub open spec fn diags_view(v: Seq<Diag>) -> Seq<DiagView> {
    v.map_values(|d: Diag| d@)
}

/// The text of a diagnostic: `line: message`, or the bare message for a
/// whole-program diagnostic (line 0).
pub open spec fn diag_text(d: DiagView) -> Seq<char> {
    if d.line == 0 {
        d.message
    } else {
        dec_nat(d.line as nat) + ": "@ + d.message
    }
}

impl Diag {
    fn at(line: usize, message: String) -> (d: Diag)
        ensures
            d@ == (DiagView { line, message: message@ }),
    {
        Diag { line, message }
    }

    /// The diagnostic as text: `line: message` (bare message for line 0).
    pub fn to_string(&self) -> (s: String)
        ensures
            s@ == diag_text(self@),
    {
        if self.line == 0 {
            owned(self.message.as_str())
        } else {
            let mut s = String::new();
            push_dec_u64(&mut s, self.line as u64);
            push_str(&mut s, ": ");
            push_str(&mut s, self.message.as_str());
            s
        }
    }
}

// ---- the assembler state ----------------------------------------------------

/// The assembler's state between source lines (both passes).
pub struct AsmState {
    pub syms: Map<Seq<char>, i64>,
    /// The output image, indexed by `lc - base`.
    pub image: Seq<u8>,
    /// Which image bytes have been written.
    pub used: Seq<bool>,
    /// One past the highest written image index.
    pub high: nat,
    /// Bytes written by the current source line.
    pub wrote: nat,
    pub lc: u16,
    pub base: u16,
    pub diags: Seq<DiagView>,
    /// Pass 2 (emitting) rather than pass 1 (laying out).
    pub emit: bool,
    /// Absolute mode: `AORG` is legal.
    pub absolute: bool,
}

/// Mutable assembler state, shared by both passes (`emit` selects the pass).
struct Asm {
    syms: Symbols,
    image: Vec<u8>,
    used: Vec<bool>,
    high: usize,
    wrote: u64,
    lc: u16,
    base: u16,
    diags: Vec<Diag>,
    emit: bool,
    absolute: bool,
}

impl View for Asm {
    type V = AsmState;

    closed spec fn view(&self) -> AsmState {
        AsmState {
            syms: self.syms@,
            image: self.image@,
            used: self.used@,
            high: self.high as nat,
            wrote: self.wrote as nat,
            lc: self.lc,
            base: self.base,
            diags: diags_view(self.diags@),
            emit: self.emit,
            absolute: self.absolute,
        }
    }
}

/// The state's shape: image and written-flags of one length within 64 KiB,
/// `high` within the image.
pub open spec fn state_ok(st: AsmState) -> bool {
    &&& st.image.len() == st.used.len()
    &&& st.image.len() <= 0x10000
    &&& st.high <= st.image.len()
    &&& st.wrote <= 0xFFFF_FFFF_FFFF_FFFF
}

impl Asm {
    spec fn inv(&self) -> bool {
        state_ok(self@)
    }
}

/// `x` modulo 64 Ki, as a 16-bit value.
pub open spec fn wrap16(x: int) -> u16 {
    (x % 0x10000) as u16
}

/// The image index of the location counter: `lc - base`, modulo 64 Ki.
pub open spec fn lc_index(st: AsmState) -> nat {
    wrap16(st.lc - st.base) as nat
}

/// `s` extended with `fill` to at least `n` entries.
pub open spec fn grow<T>(s: Seq<T>, n: nat, fill: T) -> Seq<T> {
    if s.len() >= n {
        s
    } else {
        s + Seq::new((n - s.len()) as nat, |i: int| fill)
    }
}

/// The diagnostic for a byte written twice.
pub open spec fn overlap_msg(lc: u16) -> Seq<char> {
    "overlap: address >"@ + hex4(lc)
        + " written twice — a region ran into another (check the AORG layout)"@
}

/// Write byte `v` at the location counter and advance it. Only pass 2
/// writes; writing a byte that was already written is an overlap.
pub open spec fn push_byte(st: AsmState, v: u8) -> AsmState {
    if st.emit {
        let idx = lc_index(st);
        let image = grow(st.image, idx + 1, 0u8);
        let used = grow(st.used, idx + 1, false);
        AsmState {
            image: image.update(idx as int, v),
            used: used.update(idx as int, true),
            high: if st.high >= idx + 1 {
                st.high
            } else {
                idx + 1
            },
            wrote: if st.wrote < 0xFFFF_FFFF_FFFF_FFFF {
                st.wrote + 1
            } else {
                st.wrote
            },
            lc: wrap16(st.lc + 1),
            diags: if used[idx as int] {
                st.diags.push(DiagView { line: 0, message: overlap_msg(st.lc) })
            } else {
                st.diags
            },
            ..st
        }
    } else {
        AsmState { lc: wrap16(st.lc + 1), ..st }
    }
}

/// Write a word, high byte first.
pub open spec fn push_word(st: AsmState, w: u16) -> AsmState {
    push_byte(push_byte(st, (w / 256) as u8), (w % 256) as u8)
}

/// Write the bytes of `bs` in order.
pub open spec fn push_bytes(st: AsmState, bs: Seq<u8>) -> AsmState
    decreases bs.len(),
{
    if bs.len() == 0 {
        st
    } else {
        push_byte(push_bytes(st, bs.drop_last()), bs.last())
    }
}

/// Write `n` zero bytes.
pub open spec fn push_zeros(st: AsmState, n: nat) -> AsmState
    decreases n,
{
    if n == 0 {
        st
    } else {
        push_byte(push_zeros(st, (n - 1) as nat), 0)
    }
}

/// Advance to a word boundary, writing a `>00` pad byte if needed.
pub open spec fn align(st: AsmState) -> AsmState {
    if st.lc % 2 == 1 {
        push_byte(st, 0)
    } else {
        st
    }
}

/// Record a diagnostic.
pub open spec fn with_diag(st: AsmState, line: usize, msg: Seq<char>) -> AsmState {
    AsmState { diags: st.diags.push(DiagView { line, message: msg }), ..st }
}

/// Bind `name` to `value`. Rebinding a name to its value is a no-op (how `R3
/// EQU 3` stays harmless); to another value, an error.
pub open spec fn define(st: AsmState, name: Seq<char>, value: i64, line: usize) -> AsmState {
    if st.syms.contains_key(name) {
        if st.syms[name] != value {
            with_diag(st, line, "symbol '"@ + name + "' redefined"@)
        } else {
            st
        }
    } else {
        AsmState { syms: st.syms.insert(name, value), ..st }
    }
}

/// The value of operand expression `op` in this state (`$` is the location
/// counter).
pub open spec fn eval_in(st: AsmState, op: Seq<char>) -> Result<i64, Seq<char>> {
    eval_spec(encode_utf8(op), st.syms, st.lc)
}

/// `op` as a workspace-register number (0–15), evaluated in pass 2 only:
/// pass 1 gives 0, since a register never changes a statement's size (so a
/// register symbol may be defined later in the source).
pub open spec fn reg_spec(st: AsmState, op: Seq<char>) -> Result<u16, Seq<char>> {
    if !st.emit {
        Ok(0u16)
    } else {
        reg_value(st, op)
    }
}

/// `op` evaluated as a workspace-register number (0–15).
pub open spec fn reg_value(st: AsmState, op: Seq<char>) -> Result<u16, Seq<char>> {
    match eval_in(st, op) {
        Err(e) => Err(e),
        Ok(v) => if 0 <= v <= 15 {
            Ok(v as u16)
        } else {
            Err("register number "@ + dec_int(v as int) + " is out of range 0..15"@)
        },
    }
}

/// A general operand: `(T, register, extension word)`. The extension
/// expression is only evaluated in pass 2 (forward references are fine).
pub open spec fn general_spec(st: AsmState, op: Seq<char>) -> Result<(u16, u16, Option<u16>), Seq<char>> {
    if op.len() > 0 && op[0] == '*' {
        let rest = op.drop_first();
        if rest.len() > 0 && rest.last() == '+' {
            match reg_spec(st, rest.drop_last()) {
                Err(e) => Err(e),
                Ok(r) => Ok((3u16, r, None)),
            }
        } else {
            match reg_spec(st, rest) {
                Err(e) => Err(e),
                Ok(r) => Ok((1u16, r, None)),
            }
        }
    } else if op.len() > 0 && op[0] == '@' {
        let rest = op.drop_first();
        if rest.contains('(') {
            let open = first_index(rest, '(');
            if !(rest.len() > 0 && rest.last() == ')') {
                Err("malformed indexed operand (missing ')')"@)
            } else {
                match reg_spec(st, rest.subrange(open + 1, rest.len() - 1)) {
                    Err(e) => Err(e),
                    Ok(r) => if st.emit && r == 0 {
                        Err("@EXPR(R0) is not indexable; R0 means 'no index'"@)
                    } else if st.emit {
                        match eval_in(st, rest.take(open)) {
                            Err(e) => Err(e),
                            Ok(x) => Ok((2u16, r, Some(x as u16))),
                        }
                    } else {
                        Ok((2u16, r, Some(0u16)))
                    },
                }
            }
        } else if st.emit {
            match eval_in(st, rest) {
                Err(e) => Err(e),
                Ok(x) => Ok((2u16, 0u16, Some(x as u16))),
            }
        } else {
            Ok((2u16, 0u16, Some(0u16)))
        }
    } else {
        match reg_spec(st, op) {
            Err(e) => Err(e),
            Ok(r) => Ok((0u16, r, None)),
        }
    }
}

/// Index of the first `c` in `s` (or `s.len()`).
pub open spec fn first_index(s: Seq<char>, c: char) -> int
    decreases s.len(),
{
    if s.len() == 0 {
        0
    } else if s[0] == c {
        0
    } else {
        1 + first_index(s.drop_first(), c)
    }
}

/// A 0–15 count/field operand (evaluated in pass 2 only; pass 1 gives 0,
/// since counts never change a statement's size).
pub open spec fn count_spec(st: AsmState, op: Seq<char>, what: Seq<char>) -> Result<u16, Seq<char>> {
    if !st.emit {
        Ok(0u16)
    } else {
        match eval_in(st, op) {
            Err(e) => Err(e),
            Ok(c) => if 0 <= c <= 15 {
                Ok(c as u16)
            } else {
                Err(what + " count "@ + dec_int(c as int) + " out of range 0..15"@)
            },
        }
    }
}

/// The operand fields the encoder reads out of source text fit their
/// widths: a general operand's mode is 2 bits and its register 4, a register
/// or count operand is 4 bits, and a displacement in `-128..=127` is one byte.
pub proof fn lemma_operand_fields_fit(st: AsmState, op: Seq<char>, what: Seq<char>, disp: i64)
    ensures
        general_spec(st, op) matches Ok((t, r, _)) ==> t < 4 && r < 16,
        reg_spec(st, op) matches Ok(r) ==> r < 16,
        count_spec(st, op, what) matches Ok(c) ==> c < 16,
        -128 <= disp <= 127 ==> disp_byte(disp) < 256,
{
}

impl Asm {
    fn push_u8(&mut self, v: u8)
        requires
            old(self).inv(),
        ensures
            final(self).inv(),
            final(self)@ == push_byte(old(self)@, v),
            final(self).syms == old(self).syms,
    {
        let ghost st = self@;
        if self.emit {
            let idx = self.lc.wrapping_sub(self.base) as usize;
            assert(idx == lc_index(st));
            let ghost im0 = self.image@;
            let ghost us0 = self.used@;
            while self.image.len() <= idx
                invariant
                    self.image@.len() == self.used@.len(),
                    self.syms == old(self).syms,
                    self@ == (AsmState { image: self.image@, used: self.used@, ..st }),
                    idx == lc_index(st),
                    idx < 0x10000,
                    im0.len() <= self.image@.len(),
                    self.image@.len() > im0.len() ==> self.image@.len() <= idx + 1,
                    self.image@ == im0 + Seq::new((self.image@.len() - im0.len()) as nat, |i: int| 0u8),
                    self.used@ == us0 + Seq::new((self.used@.len() - us0.len()) as nat, |i: int| false),
                decreases idx + 1 - self.image@.len(),
            {
                self.image.push(0);
                self.used.push(false);
                assert(self.image@ =~= im0 + Seq::new((self.image@.len() - im0.len()) as nat, |i: int| 0u8));
                assert(self.used@ =~= us0 + Seq::new((self.used@.len() - us0.len()) as nat, |i: int| false));
            }
            proof {
                assert(self.image@ =~= grow(im0, idx as nat + 1, 0u8));
                assert(self.used@ =~= grow(us0, idx as nat + 1, false));
            }
            if self.used[idx] {
                let mut m = owned("overlap: address >");
                push_hex(&mut m, self.lc as u64, 4);
                push_str(
                    &mut m,
                    " written twice — a region ran into another (check the AORG layout)",
                );
                assert(m@ =~= overlap_msg(self.lc));
                let ghost d0 = self.diags@;
                let d = Diag::at(0, m);
                self.diags.push(d);
                assert(self.diags@ == d0.push(d));
                assert(d@.line == 0);
                assert(d@.message == overlap_msg(st.lc));
                assert(diags_view(self.diags@).len() == diags_view(d0).len() + 1);
                assert(diags_view(self.diags@).last() == d@);
                assert(diags_view(self.diags@) =~= diags_view(d0).push(
                    DiagView { line: 0, message: overlap_msg(st.lc) },
                ));
            }
            self.image.set(idx, v);
            self.used.set(idx, true);
            if self.high < idx + 1 {
                self.high = idx + 1;
            }
            if self.wrote < 0xFFFF_FFFF_FFFF_FFFF {
                self.wrote = self.wrote + 1;
            }
        }
        self.lc = self.lc.wrapping_add(1);
        proof {
            assert(self@.image =~= push_byte(st, v).image);
            assert(self@.used =~= push_byte(st, v).used);
            assert(state_ok(self@));
        }
    }
}

impl Asm {
    fn push_u16(&mut self, v: u16)
        requires
            old(self).inv(),
        ensures
            final(self).inv(),
            final(self)@ == push_word(old(self)@, v),
    {
        self.push_u8((v >> 8) as u8);
        self.push_u8(v as u8);
        assert((v >> 8) as u8 == (v / 256) as u8) by (bit_vector);
        assert(v as u8 == (v % 256) as u8) by (bit_vector);
    }

    /// Advance to a word boundary, emitting a `>00` pad byte if needed.
    fn align_word(&mut self)
        requires
            old(self).inv(),
        ensures
            final(self).inv(),
            final(self)@ == align(old(self)@),
    {
        if self.lc % 2 != 0 {
            self.push_u8(0);
        }
    }

    fn diag(&mut self, line: usize, message: String)
        requires
            old(self).inv(),
        ensures
            final(self).inv(),
            final(self)@ == with_diag(old(self)@, line, message@),
    {
        let ghost d0 = self.diags@;
        let d = Diag::at(line, message);
        self.diags.push(d);
        assert(diags_view(self.diags@) =~= diags_view(d0).push(d@));
    }

    fn define(&mut self, name: &str, value: i64, line: usize)
        requires
            old(self).inv(),
        ensures
            final(self).inv(),
            final(self)@ == define(old(self)@, name@, value, line),
    {
        match self.syms.get(name) {
            Some(existing) => {
                if existing != value {
                    let mut m = owned("symbol '");
                    push_str(&mut m, name);
                    push_str(&mut m, "' redefined");
                    self.diag(line, m);
                }
            },
            None => {
                self.syms.insert(owned(name), value);
            },
        }
    }

    fn eval(&self, s: &str) -> (r: Result<i64, String>)
        requires
            self.inv(),
        ensures
            res_view(r) == eval_in(self@, s@),
    {
        expr::eval(s, &self.syms, self.lc)
    }

    /// Evaluate an operand as a workspace-register number (0–15), in the
    /// emit pass only (pass 1 returns 0: registers never affect a size).
    fn reg(&self, s: &str) -> (r: Result<u16, String>)
        requires
            self.inv(),
        ensures
            res_view(r) == reg_spec(self@, s@),
    {
        if !self.emit {
            return Ok(0);
        }
        let v = self.eval(s)?;
        if !(0 <= v && v <= 15) {
            let mut m = owned("register number ");
            push_dec_i64(&mut m, v);
            push_str(&mut m, " is out of range 0..15");
            return Err(m);
        }
        Ok(v as u16)
    }

    /// Evaluate a 0–15 count/field operand (only in the emit pass; pass 1 returns
    /// 0 since counts never affect a statement's size).
    fn count(&self, op: &str, what: &str) -> (r: Result<u16, String>)
        requires
            self.inv(),
        ensures
            res_view(r) == count_spec(self@, op@, what@),
    {
        if !self.emit {
            return Ok(0);
        }
        let c = self.eval(op)?;
        if !(0 <= c && c <= 15) {
            let mut m = owned(what);
            push_str(&mut m, " count ");
            push_dec_i64(&mut m, c);
            push_str(&mut m, " out of range 0..15");
            return Err(m);
        }
        Ok(c as u16)
    }

    /// Parse a general operand into `(T, reg, optional extension word)`. The
    /// extension expression is only evaluated in the emit pass (so forward
    /// references in `@EXPR` operands are fine).
    fn general(&self, op: &str) -> (r: Result<(u16, u16, Option<u16>), String>)
        requires
            self.inv(),
        ensures
            res_view(r) == general_spec(self@, op@),
            r matches Ok((t, g, x)) ==> t < 4 && g < 16 && (x is Some <==> t == 2),
    {
        let v = crate::strings::chars_of(op);
        let n = v.len();
        if n > 0 && v[0] == '*' {
            let ghost rest = op@.drop_first();
            if n > 1 && v[n - 1] == '+' {
                let inner = crate::strings::string_range(&v, 1, n - 1);
                assert(inner@ =~= rest.drop_last());
                let r = self.reg(inner.as_str())?;
                Ok((3, r, None))
            } else {
                let inner = crate::strings::string_range(&v, 1, n);
                assert(inner@ =~= rest);
                let r = self.reg(inner.as_str())?;
                Ok((1, r, None))
            }
        } else if n > 0 && v[0] == '@' {
            let ghost rest = op@.drop_first();
            let mut open: usize = 1;
            assert(rest.skip(0) =~= rest);
            while open < n && v[open] != '('
                invariant
                    1 <= open <= n,
                    n == v@.len(),
                    v@ == op@,
                    rest == op@.drop_first(),
                    first_index(rest, '(') == (open - 1) + first_index(rest.skip(open - 1), '('),
                    forall|j: int| 1 <= j < open ==> v@[j] != '(',
                decreases n - open,
            {
                assert(rest.skip(open - 1).drop_first() =~= rest.skip(open as int));
                open += 1;
            }
            if open < n {
                proof {
                    assert(rest[open - 1] == '(');
                    assert(rest.contains('('));
                    assert(rest.skip(open - 1)[0] == '(');
                }
                if v[n - 1] != ')' {
                    return Err(owned("malformed indexed operand (missing ')')"));
                }
                let idx_text = crate::strings::string_range(&v, open + 1, n - 1);
                assert(idx_text@ =~= rest.subrange(open as int, rest.len() - 1));
                let r = self.reg(idx_text.as_str())?;
                if self.emit && r == 0 {
                    return Err(owned("@EXPR(R0) is not indexable; R0 means 'no index'"));
                }
                let ext = if self.emit {
                    let e = crate::strings::string_range(&v, 1, open);
                    assert(e@ =~= rest.take(open - 1));
                    let x = self.eval(e.as_str())?;
                    #[verifier::truncate]
                    (x as u16)
                } else {
                    0
                };
                Ok((2, r, Some(ext)))
            } else {
                proof {
                    assert forall|j: int| 0 <= j < rest.len() implies rest[j] != '(' by {
                        assert(rest[j] == v@[j + 1]);
                    }
                    assert(!rest.contains('('));
                }
                let ext = if self.emit {
                    let e = crate::strings::string_range(&v, 1, n);
                    assert(e@ =~= rest);
                    let x = self.eval(e.as_str())?;
                    #[verifier::truncate]
                    (x as u16)
                } else {
                    0
                };
                Ok((2, 0, Some(ext)))
            }
        } else {
            let r = self.reg(op)?;
            Ok((0, r, None))
        }
    }
}

/// Write the extension word of a general operand, if it has one.
pub open spec fn push_ext(st: AsmState, x: Option<u16>) -> AsmState {
    match x {
        Some(w) => push_word(st, w),
        None => st,
    }
}

/// The low byte of a displacement in `-128..=127` (two's complement).
pub open spec fn disp_byte(d: i64) -> u16 {
    if d < 0 {
        (d + 256) as u16
    } else {
        d as u16
    }
}

/// An operand-count error for `insn`.
pub open spec fn takes(insn: Insn, what: Seq<char>) -> Seq<char> {
    insn.name@ + what
}

/// [`encode_spec`] for a format-`Dual` instruction.
pub open spec fn encode_dual(st: AsmState, insn: Insn, ops: Seq<Seq<char>>) -> (AsmState, Option<Seq<char>>) {
    let base = insn.base;
    if ops.len() != 2 {
        (st, Some(takes(insn, " takes two operands"@)))
    } else {
        match general_spec(st, ops[0]) {
            Err(e) => (st, Some(e)),
            Ok((ts, s, sext)) => match general_spec(st, ops[1]) {
                Err(e) => (st, Some(e)),
                Ok((td, d, dext)) => (
                    push_ext(
                        push_ext(
                            push_word(st, dual_word(base, ts, s, td, d)),
                            sext,
                        ),
                        dext,
                    ),
                    None,
                ),
            },
        }
    }
}

/// [`encode_spec`] for a format-`Single` instruction.
pub open spec fn encode_single(st: AsmState, insn: Insn, ops: Seq<Seq<char>>) -> (AsmState, Option<Seq<char>>) {
    let base = insn.base;
    if ops.len() != 1 {
        (st, Some(takes(insn, " takes one operand"@)))
    } else {
        match general_spec(st, ops[0]) {
            Err(e) => (st, Some(e)),
            Ok((ts, s, ext)) => (push_ext(push_word(st, single_word(base, ts, s)), ext), None),
        }
    }
}

/// [`encode_spec`] for a format-`Jump` instruction.
pub open spec fn encode_jump(st: AsmState, insn: Insn, ops: Seq<Seq<char>>) -> (AsmState, Option<Seq<char>>) {
    let base = insn.base;
    if ops.len() != 1 {
        (st, Some(takes(insn, " takes one operand"@)))
    } else if st.emit {
        match eval_in(st, ops[0]) {
            Err(e) => (st, Some(e)),
            Ok(target) => {
                let delta = i64_specs::wrapping_sub(target, (st.lc + 2) as i64);
                if delta % 2 != 0 {
                    (st, Some("jump target is at an odd address"@))
                } else if !(-128 <= delta / 2 <= 127) {
                    (
                        st,
                        Some(
                            "jump target out of range ("@ + dec_int(delta as int)
                                + " bytes away; "@ + insn.name@ + " reaches -254..+256)"@,
                        ),
                    )
                } else {
                    (push_word(st, low_word(base, disp_byte((delta / 2) as i64))), None)
                }
            },
        }
    } else {
        (push_word(st, 0), None)
    }
}

/// [`encode_spec`] for a format-`ImmReg` instruction.
pub open spec fn encode_imm_reg(st: AsmState, insn: Insn, ops: Seq<Seq<char>>) -> (AsmState, Option<Seq<char>>) {
    let base = insn.base;
    if ops.len() != 2 {
        (st, Some(takes(insn, " takes register,immediate"@)))
    } else {
        match reg_spec(st, ops[0]) {
            Err(e) => (st, Some(e)),
            Ok(r) => {
                let st1 = push_word(st, low_word(base, r));
                if st1.emit {
                    match eval_in(st1, ops[1]) {
                        Err(e) => (st1, Some(e)),
                        Ok(v) => (push_word(st1, v as u16), None),
                    }
                } else {
                    (push_word(st1, 0), None)
                }
            },
        }
    }
}

/// [`encode_spec`] for a format-`Imm` instruction.
pub open spec fn encode_imm(st: AsmState, insn: Insn, ops: Seq<Seq<char>>) -> (AsmState, Option<Seq<char>>) {
    let base = insn.base;
    if ops.len() != 1 {
        (st, Some(takes(insn, " takes an immediate"@)))
    } else {
        let st1 = push_word(st, base);
        if st1.emit {
            match eval_in(st1, ops[0]) {
                Err(e) => (st1, Some(e)),
                Ok(v) => (push_word(st1, v as u16), None),
            }
        } else {
            (push_word(st1, 0), None)
        }
    }
}

/// [`encode_spec`] for a format-`Pseudo` instruction.
pub open spec fn encode_pseudo(st: AsmState, insn: Insn, ops: Seq<Seq<char>>) -> (AsmState, Option<Seq<char>>) {
    let base = insn.base;
    if ops.len() != 0 {
        (st, Some(takes(insn, " takes no operands"@)))
    } else {
        (push_word(st, base), None)
    }
}

/// [`encode_spec`] for a format-`RegSrc` instruction.
pub open spec fn encode_reg_src(st: AsmState, insn: Insn, ops: Seq<Seq<char>>) -> (AsmState, Option<Seq<char>>) {
    let base = insn.base;
    if ops.len() != 2 {
        (st, Some(takes(insn, " takes source,register"@)))
    } else {
        match general_spec(st, ops[0]) {
            Err(e) => (st, Some(e)),
            Ok((ts, s, ext)) => {
                let field = if insn.name@ == "XOP"@ {
                    count_spec(st, ops[1], "XOP n"@)
                } else {
                    reg_spec(st, ops[1])
                };
                match field {
                    Err(e) => (st, Some(e)),
                    Ok(f) => (
                        push_ext(push_word(st, field_word(base, f, ts, s)), ext),
                        None,
                    ),
                }
            },
        }
    }
}

/// [`encode_spec`] for a format-`CruMulti` instruction.
pub open spec fn encode_cru_multi(st: AsmState, insn: Insn, ops: Seq<Seq<char>>) -> (AsmState, Option<Seq<char>>) {
    let base = insn.base;
    if ops.len() != 2 {
        (st, Some(takes(insn, " takes source,count"@)))
    } else {
        match general_spec(st, ops[0]) {
            Err(e) => (st, Some(e)),
            Ok((ts, s, ext)) => match count_spec(st, ops[1], insn.name@) {
                Err(e) => (st, Some(e)),
                Ok(c) => (
                    push_ext(push_word(st, field_word(base, c, ts, s)), ext),
                    None,
                ),
            },
        }
    }
}

/// [`encode_spec`] for a format-`Shift` instruction.
pub open spec fn encode_shift(st: AsmState, insn: Insn, ops: Seq<Seq<char>>) -> (AsmState, Option<Seq<char>>) {
    let base = insn.base;
    if ops.len() != 2 {
        (st, Some(takes(insn, " takes register,count"@)))
    } else {
        match reg_spec(st, ops[0]) {
            Err(e) => (st, Some(e)),
            Ok(w) => match count_spec(st, ops[1], insn.name@) {
                Err(e) => (st, Some(e)),
                Ok(c) => (push_word(st, shift_word(base, c, w)), None),
            },
        }
    }
}

/// [`encode_spec`] for a format-`CruBit` instruction.
pub open spec fn encode_cru_bit(st: AsmState, insn: Insn, ops: Seq<Seq<char>>) -> (AsmState, Option<Seq<char>>) {
    let base = insn.base;
    if ops.len() != 1 {
        (st, Some(takes(insn, " takes a CRU-bit displacement"@)))
    } else if st.emit {
        match eval_in(st, ops[0]) {
            Err(e) => (st, Some(e)),
            Ok(d) => if !(-128 <= d <= 127) {
                (
                    st,
                    Some(
                        insn.name@ + " displacement "@ + dec_int(d as int)
                            + " out of range -128..127"@,
                    ),
                )
            } else {
                (push_word(st, low_word(base, disp_byte(d))), None)
            },
        }
    } else {
        (push_word(st, base), None)
    }
}

/// [`encode_spec`] for a format-`RegOnly` instruction.
pub open spec fn encode_reg_only(st: AsmState, insn: Insn, ops: Seq<Seq<char>>) -> (AsmState, Option<Seq<char>>) {
    let base = insn.base;
    if ops.len() != 1 {
        (st, Some(takes(insn, " takes a register"@)))
    } else {
        match reg_spec(st, ops[0]) {
            Err(e) => (st, Some(e)),
            Ok(r) => (push_word(st, low_word(base, r)), None),
        }
    }
}

/// [`encode_spec`] for a format-`Control` instruction.
pub open spec fn encode_control(st: AsmState, insn: Insn, ops: Seq<Seq<char>>) -> (AsmState, Option<Seq<char>>) {
    let base = insn.base;
    if ops.len() != 0 {
        (st, Some(takes(insn, " takes no operands"@)))
    } else {
        (push_word(st, base), None)
    }
}

/// Encode instruction `insn` with operands `ops`: the state after the words
/// it writes, and the error, if any. Words written before an error stay
/// written (the immediate forms write the opcode before evaluating the
/// immediate).
pub open spec fn encode_spec(st: AsmState, insn: Insn, ops: Seq<Seq<char>>) -> (AsmState, Option<Seq<char>>) {
    match insn.fmt {
        Fmt::Dual => encode_dual(st, insn, ops),
        Fmt::Single => encode_single(st, insn, ops),
        Fmt::Jump => encode_jump(st, insn, ops),
        Fmt::ImmReg => encode_imm_reg(st, insn, ops),
        Fmt::Imm => encode_imm(st, insn, ops),
        Fmt::Pseudo => encode_pseudo(st, insn, ops),
        Fmt::RegSrc => encode_reg_src(st, insn, ops),
        Fmt::CruMulti => encode_cru_multi(st, insn, ops),
        Fmt::Shift => encode_shift(st, insn, ops),
        Fmt::CruBit => encode_cru_bit(st, insn, ops),
        Fmt::RegOnly => encode_reg_only(st, insn, ops),
        Fmt::Control => encode_control(st, insn, ops),
    }
}

proof fn lemma_word_lc(st: AsmState, w: u16)
    ensures
        push_word(st, w).lc == wrap16(st.lc + 2),
        push_word(st, w).emit == st.emit,
        st.emit && st.wrote + 2 <= 0xFFFF_FFFF_FFFF_FFFF ==> push_word(st, w).wrote == st.wrote + 2,
        !st.emit ==> push_word(st, w).wrote == st.wrote,
{
    let a = push_byte(st, (w / 256) as u8);
    assert(a.lc == wrap16(st.lc + 1));
    assert(wrap16(a.lc + 1) == wrap16(st.lc + 2));
}

proof fn lemma_ext_lc(st: AsmState, x: Option<u16>)
    ensures
        push_ext(st, x).lc == (if x is Some {
            wrap16(st.lc + 2)
        } else {
            st.lc
        }),
        push_ext(st, x).emit == st.emit,
        st.emit && st.wrote + 2 <= 0xFFFF_FFFF_FFFF_FFFF ==> push_ext(st, x).wrote == st.wrote + (if x is Some {
            2int
        } else {
            0int
        }),
        !st.emit ==> push_ext(st, x).wrote == st.wrote,
{
    if let Some(w) = x {
        lemma_word_lc(st, w);
    }
}

proof fn lemma_wrap_add(a: int, b: int)
    requires
        0 <= a,
        0 <= b,
    ensures
        wrap16(wrap16(a) + b) == wrap16(a + b),
{
}

/// Pass 1 reads a general operand with the same mode and the same
/// extension-word presence that pass 2 does, whenever pass 2 accepts it.
proof fn lemma_general_shape(st1: AsmState, st2: AsmState, op: Seq<char>)
    requires
        !st1.emit,
        st2.emit,
        general_spec(st2, op) is Ok,
    ensures
        general_spec(st1, op) is Ok,
        general_spec(st1, op)->Ok_0.0 == general_spec(st2, op)->Ok_0.0,
        general_spec(st1, op)->Ok_0.2 is Some <==> general_spec(st2, op)->Ok_0.2 is Some,
{
}

/// Pass 1 sizes every instruction exactly as pass 2 emits it: from the same
/// location counter, whenever pass 2 encodes `insn` with `ops` without an
/// error, pass 1 does too, and both advance the counter by the same 2, 4 or
/// 6 bytes (extension words are counted even while their expressions are
/// still unknown), which is also the number of bytes pass 2 writes for the
/// line. So the labels pass 1 defines are the addresses pass 2 emits at.
/// (The per-line byte count saturates at `u64::MAX`; the law is stated
/// below that limit.)
pub proof fn lemma_pass_one_sizes_as_pass_two(st1: AsmState, st2: AsmState, insn: Insn, ops: Seq<Seq<char>>)
    requires
        !st1.emit,
        st2.emit,
        st1.lc == st2.lc,
        st2.wrote + 6 <= 0xFFFF_FFFF_FFFF_FFFF,
        encode_spec(st2, insn, ops).1 is None,
    ensures
        encode_spec(st1, insn, ops).1 is None,
        encode_spec(st1, insn, ops).0.lc == encode_spec(st2, insn, ops).0.lc,
        ({
            let e = encode_spec(st2, insn, ops).0;
            ||| e.lc == wrap16(st2.lc + 2) && e.wrote == st2.wrote + 2
            ||| e.lc == wrap16(st2.lc + 4) && e.wrote == st2.wrote + 4
            ||| e.lc == wrap16(st2.lc + 6) && e.wrote == st2.wrote + 6
        }),
{
    let lc = st2.lc as int;
    lemma_wrap_add(lc + 2, 2);
    lemma_wrap_add(lc + 4, 2);
    assert(wrap16(lc + 2) == wrap16(lc + 2));
    match insn.fmt {
        Fmt::Dual => {
            let (ts, s, sx) = general_spec(st2, ops[0])->Ok_0;
            let (td, d, dx) = general_spec(st2, ops[1])->Ok_0;
            lemma_general_shape(st1, st2, ops[0]);
            lemma_general_shape(st1, st2, ops[1]);
            let (ts1, s1, sx1) = general_spec(st1, ops[0])->Ok_0;
            let (td1, d1, dx1) = general_spec(st1, ops[1])->Ok_0;
            let w1 = push_word(st1, dual_word(insn.base, ts1, s1, td1, d1));
            let w2 = push_word(st2, dual_word(insn.base, ts, s, td, d));
            lemma_word_lc(st1, dual_word(insn.base, ts1, s1, td1, d1));
            lemma_word_lc(st2, dual_word(insn.base, ts, s, td, d));
            lemma_ext_lc(w1, sx1);
            lemma_ext_lc(w2, sx);
            lemma_ext_lc(push_ext(w1, sx1), dx1);
            lemma_ext_lc(push_ext(w2, sx), dx);
            lemma_wrap_add(lc, 2);
            lemma_wrap_add(lc + 2, 2);
            lemma_wrap_add(lc, 4);
            lemma_wrap_add(wrap16(lc + 2) as int, 2);
            lemma_wrap_add(wrap16(lc + 4) as int, 2);
        },
        Fmt::Single => {
            let (ts, s, sx) = general_spec(st2, ops[0])->Ok_0;
            lemma_general_shape(st1, st2, ops[0]);
            let (ts1, s1, sx1) = general_spec(st1, ops[0])->Ok_0;
            lemma_word_lc(st1, single_word(insn.base, ts1, s1));
            lemma_word_lc(st2, single_word(insn.base, ts, s));
            lemma_ext_lc(push_word(st1, single_word(insn.base, ts1, s1)), sx1);
            lemma_ext_lc(push_word(st2, single_word(insn.base, ts, s)), sx);
            lemma_wrap_add(lc, 2);
        },
        Fmt::RegSrc | Fmt::CruMulti => {
            let (ts, s, sx) = general_spec(st2, ops[0])->Ok_0;
            lemma_general_shape(st1, st2, ops[0]);
            let (ts1, s1, sx1) = general_spec(st1, ops[0])->Ok_0;
            let f1 = if insn.fmt == Fmt::RegSrc && insn.name@ == "XOP"@ || insn.fmt == Fmt::CruMulti {
                count_spec(st1, ops[1], if insn.fmt == Fmt::RegSrc {
                    "XOP n"@
                } else {
                    insn.name@
                })->Ok_0
            } else {
                reg_spec(st1, ops[1])->Ok_0
            };
            assert(f1 == 0);
            let enc2 = encode_spec(st2, insn, ops).0;
            let f2 = if insn.fmt == Fmt::RegSrc && insn.name@ == "XOP"@ {
                count_spec(st2, ops[1], "XOP n"@)->Ok_0
            } else if insn.fmt == Fmt::RegSrc {
                reg_spec(st2, ops[1])->Ok_0
            } else {
                count_spec(st2, ops[1], insn.name@)->Ok_0
            };
            lemma_word_lc(st1, field_word(insn.base, 0, ts1, s1));
            lemma_word_lc(st2, field_word(insn.base, f2, ts, s));
            lemma_ext_lc(push_word(st1, field_word(insn.base, 0, ts1, s1)), sx1);
            lemma_ext_lc(push_word(st2, field_word(insn.base, f2, ts, s)), sx);
            lemma_wrap_add(lc, 2);
        },
        Fmt::Jump | Fmt::CruBit | Fmt::Shift | Fmt::RegOnly | Fmt::Pseudo | Fmt::Control => {
            let e1 = encode_spec(st1, insn, ops).0;
            let e2 = encode_spec(st2, insn, ops).0;
            assert(exists|w: u16| e2 == push_word(st2, w));
            assert(exists|w: u16| e1 == push_word(st1, w));
            let w2 = choose|w: u16| e2 == push_word(st2, w);
            let w1 = choose|w: u16| e1 == push_word(st1, w);
            lemma_word_lc(st1, w1);
            lemma_word_lc(st2, w2);
        },
        Fmt::ImmReg | Fmt::Imm => {
            let e1 = encode_spec(st1, insn, ops).0;
            let e2 = encode_spec(st2, insn, ops).0;
            assert(exists|a: u16, b: u16| e2 == push_word(push_word(st2, a), b));
            assert(exists|a: u16, b: u16| e1 == push_word(push_word(st1, a), b));
            let (a2, b2) = choose|a: u16, b: u16| e2 == push_word(push_word(st2, a), b);
            let (a1, b1) = choose|a: u16, b: u16| e1 == push_word(push_word(st1, a), b);
            lemma_word_lc(st1, a1);
            lemma_word_lc(st2, a2);
            lemma_word_lc(push_word(st1, a1), b1);
            lemma_word_lc(push_word(st2, a2), b2);
            lemma_wrap_add(lc, 2);
        },
    }
}

/// An error as an `Option` of its characters.
pub open spec fn err_view(r: Result<(), String>) -> Option<Seq<char>> {
    match r {
        Ok(()) => None,
        Err(e) => Some(e@),
    }
}

fn takes_err(insn: Insn, what: &str) -> (m: String)
    ensures
        m@ == takes(insn, what@),
{
    let mut m = owned(insn.name);
    push_str(&mut m, what);
    m
}

fn disp_low(d: i64) -> (b: u16)
    requires
        -128 <= d <= 127,
    ensures
        b == disp_byte(d),
        b < 256,
{
    if d < 0 {
        (d + 256) as u16
    } else {
        d as u16
    }
}

impl Asm {
    fn push_opt(&mut self, x: Option<u16>)
        requires
            old(self).inv(),
        ensures
            final(self).inv(),
            final(self)@ == push_ext(old(self)@, x),
    {
        if let Some(w) = x {
            self.push_u16(w);
        }
    }

    fn encode(&mut self, insn: Insn, l: &lex::Line) -> (r: Result<(), String>)
        requires
            old(self).inv(),
        ensures
            final(self).inv(),
            (final(self)@, err_view(r)) == encode_spec(old(self)@, insn, operands_spec(l@)),
    {
        let ops = operands_of(l);
        match insn.fmt {
            Fmt::Dual => self.encode_dual(insn, &ops),
            Fmt::Single => self.encode_single(insn, &ops),
            Fmt::Jump => self.encode_jump(insn, &ops),
            Fmt::ImmReg => self.encode_imm_reg(insn, &ops),
            Fmt::Imm => self.encode_imm(insn, &ops),
            Fmt::Pseudo => self.encode_pseudo(insn, &ops),
            Fmt::RegSrc => self.encode_reg_src(insn, &ops),
            Fmt::CruMulti => self.encode_cru_multi(insn, &ops),
            Fmt::Shift => self.encode_shift(insn, &ops),
            Fmt::CruBit => self.encode_cru_bit(insn, &ops),
            Fmt::RegOnly => self.encode_reg_only(insn, &ops),
            Fmt::Control => self.encode_control(insn, &ops),
        }
    }

    fn encode_dual(&mut self, insn: Insn, ops: &Vec<String>) -> (r: Result<(), String>)
        requires
            old(self).inv(),
            insn.fmt == Fmt::Dual,
        ensures
            final(self).inv(),
            (final(self)@, err_view(r)) == encode_dual(old(self)@, insn, ops.deep_view()),
    {
        let ghost ov = ops.deep_view();
        assert(forall|i: int| 0 <= i < ops@.len() ==> ov[i] == ops@[i]@);
        if ops.len() != 2 {
            return Err(takes_err(insn, " takes two operands"));
        }
        let (ts, s, sext) = self.general(ops[0].as_str())?;
        let (td, d, dext) = self.general(ops[1].as_str())?;
        self.push_u16(insn.base | (td << 10) | (d << 6) | (ts << 4) | s);
        self.push_opt(sext);
        self.push_opt(dext);
        Ok(())
    }

    fn encode_single(&mut self, insn: Insn, ops: &Vec<String>) -> (r: Result<(), String>)
        requires
            old(self).inv(),
            insn.fmt == Fmt::Single,
        ensures
            final(self).inv(),
            (final(self)@, err_view(r)) == encode_single(old(self)@, insn, ops.deep_view()),
    {
        let ghost ov = ops.deep_view();
        assert(forall|i: int| 0 <= i < ops@.len() ==> ov[i] == ops@[i]@);
        if ops.len() != 1 {
            return Err(takes_err(insn, " takes one operand"));
        }
        let (ts, s, ext) = self.general(ops[0].as_str())?;
        self.push_u16(insn.base | (ts << 4) | s);
        self.push_opt(ext);
        Ok(())
    }

    fn encode_jump(&mut self, insn: Insn, ops: &Vec<String>) -> (r: Result<(), String>)
        requires
            old(self).inv(),
            insn.fmt == Fmt::Jump,
        ensures
            final(self).inv(),
            (final(self)@, err_view(r)) == encode_jump(old(self)@, insn, ops.deep_view()),
    {
        let ghost ov = ops.deep_view();
        assert(forall|i: int| 0 <= i < ops@.len() ==> ov[i] == ops@[i]@);
        if ops.len() != 1 {
            return Err(takes_err(insn, " takes one operand"));
        }
        let here = self.lc;
        if self.emit {
            let target = self.eval(ops[0].as_str())?;
            let delta = target.wrapping_sub(here as i64 + 2);
            if delta % 2 != 0 {
                return Err(owned("jump target is at an odd address"));
            }
            let disp = delta / 2;
            if !(-128 <= disp && disp <= 127) {
                let mut m = owned("jump target out of range (");
                push_dec_i64(&mut m, delta);
                push_str(&mut m, " bytes away; ");
                push_str(&mut m, insn.name);
                push_str(&mut m, " reaches -254..+256)");
                return Err(m);
            }
            self.push_u16(insn.base | disp_low(disp));
        } else {
            self.push_u16(0);
        }
        Ok(())
    }

    fn encode_imm_reg(&mut self, insn: Insn, ops: &Vec<String>) -> (r: Result<(), String>)
        requires
            old(self).inv(),
            insn.fmt == Fmt::ImmReg,
        ensures
            final(self).inv(),
            (final(self)@, err_view(r)) == encode_imm_reg(old(self)@, insn, ops.deep_view()),
    {
        let ghost ov = ops.deep_view();
        assert(forall|i: int| 0 <= i < ops@.len() ==> ov[i] == ops@[i]@);
        if ops.len() != 2 {
            return Err(takes_err(insn, " takes register,immediate"));
        }
        let r = self.reg(ops[0].as_str())?;
        self.push_u16(insn.base | r);
        let imm = if self.emit {
            let v = self.eval(ops[1].as_str())?;
            #[verifier::truncate]
            (v as u16)
        } else {
            0
        };
        self.push_u16(imm);
        Ok(())
    }

    fn encode_imm(&mut self, insn: Insn, ops: &Vec<String>) -> (r: Result<(), String>)
        requires
            old(self).inv(),
            insn.fmt == Fmt::Imm,
        ensures
            final(self).inv(),
            (final(self)@, err_view(r)) == encode_imm(old(self)@, insn, ops.deep_view()),
    {
        let ghost ov = ops.deep_view();
        assert(forall|i: int| 0 <= i < ops@.len() ==> ov[i] == ops@[i]@);
        if ops.len() != 1 {
            return Err(takes_err(insn, " takes an immediate"));
        }
        self.push_u16(insn.base);
        let imm = if self.emit {
            let v = self.eval(ops[0].as_str())?;
            #[verifier::truncate]
            (v as u16)
        } else {
            0
        };
        self.push_u16(imm);
        Ok(())
    }

    fn encode_pseudo(&mut self, insn: Insn, ops: &Vec<String>) -> (r: Result<(), String>)
        requires
            old(self).inv(),
            insn.fmt == Fmt::Pseudo,
        ensures
            final(self).inv(),
            (final(self)@, err_view(r)) == encode_pseudo(old(self)@, insn, ops.deep_view()),
    {
        let ghost ov = ops.deep_view();
        assert(forall|i: int| 0 <= i < ops@.len() ==> ov[i] == ops@[i]@);
        if ops.len() != 0 {
            return Err(takes_err(insn, " takes no operands"));
        }
        self.push_u16(insn.base);
        Ok(())
    }

    fn encode_reg_src(&mut self, insn: Insn, ops: &Vec<String>) -> (r: Result<(), String>)
        requires
            old(self).inv(),
            insn.fmt == Fmt::RegSrc,
        ensures
            final(self).inv(),
            (final(self)@, err_view(r)) == encode_reg_src(old(self)@, insn, ops.deep_view()),
    {
        let ghost ov = ops.deep_view();
        assert(forall|i: int| 0 <= i < ops@.len() ==> ov[i] == ops@[i]@);
        if ops.len() != 2 {
            return Err(takes_err(insn, " takes source,register"));
        }
        let (ts, s, ext) = self.general(ops[0].as_str())?;
        let field = if str_eq(insn.name, "XOP") {
            self.count(ops[1].as_str(), "XOP n")?
        } else {
            self.reg(ops[1].as_str())?
        };
        self.push_u16(insn.base | (field << 6) | (ts << 4) | s);
        self.push_opt(ext);
        Ok(())
    }

    fn encode_cru_multi(&mut self, insn: Insn, ops: &Vec<String>) -> (r: Result<(), String>)
        requires
            old(self).inv(),
            insn.fmt == Fmt::CruMulti,
        ensures
            final(self).inv(),
            (final(self)@, err_view(r)) == encode_cru_multi(old(self)@, insn, ops.deep_view()),
    {
        let ghost ov = ops.deep_view();
        assert(forall|i: int| 0 <= i < ops@.len() ==> ov[i] == ops@[i]@);
        if ops.len() != 2 {
            return Err(takes_err(insn, " takes source,count"));
        }
        let (ts, s, ext) = self.general(ops[0].as_str())?;
        let cnt = self.count(ops[1].as_str(), insn.name)?;
        self.push_u16(insn.base | (cnt << 6) | (ts << 4) | s);
        self.push_opt(ext);
        Ok(())
    }

    fn encode_shift(&mut self, insn: Insn, ops: &Vec<String>) -> (r: Result<(), String>)
        requires
            old(self).inv(),
            insn.fmt == Fmt::Shift,
        ensures
            final(self).inv(),
            (final(self)@, err_view(r)) == encode_shift(old(self)@, insn, ops.deep_view()),
    {
        let ghost ov = ops.deep_view();
        assert(forall|i: int| 0 <= i < ops@.len() ==> ov[i] == ops@[i]@);
        if ops.len() != 2 {
            return Err(takes_err(insn, " takes register,count"));
        }
        let w = self.reg(ops[0].as_str())?;
        let cnt = self.count(ops[1].as_str(), insn.name)?;
        self.push_u16(insn.base | (cnt << 4) | w);
        Ok(())
    }

    fn encode_cru_bit(&mut self, insn: Insn, ops: &Vec<String>) -> (r: Result<(), String>)
        requires
            old(self).inv(),
            insn.fmt == Fmt::CruBit,
        ensures
            final(self).inv(),
            (final(self)@, err_view(r)) == encode_cru_bit(old(self)@, insn, ops.deep_view()),
    {
        let ghost ov = ops.deep_view();
        assert(forall|i: int| 0 <= i < ops@.len() ==> ov[i] == ops@[i]@);
        if ops.len() != 1 {
            return Err(takes_err(insn, " takes a CRU-bit displacement"));
        }
        if self.emit {
            let disp = self.eval(ops[0].as_str())?;
            if !(-128 <= disp && disp <= 127) {
                let mut m = owned(insn.name);
                push_str(&mut m, " displacement ");
                push_dec_i64(&mut m, disp);
                push_str(&mut m, " out of range -128..127");
                return Err(m);
            }
            self.push_u16(insn.base | disp_low(disp));
        } else {
            self.push_u16(insn.base);
        }
        Ok(())
    }

    fn encode_reg_only(&mut self, insn: Insn, ops: &Vec<String>) -> (r: Result<(), String>)
        requires
            old(self).inv(),
            insn.fmt == Fmt::RegOnly,
        ensures
            final(self).inv(),
            (final(self)@, err_view(r)) == encode_reg_only(old(self)@, insn, ops.deep_view()),
    {
        let ghost ov = ops.deep_view();
        assert(forall|i: int| 0 <= i < ops@.len() ==> ov[i] == ops@[i]@);
        if ops.len() != 1 {
            return Err(takes_err(insn, " takes a register"));
        }
        let r = self.reg(ops[0].as_str())?;
        self.push_u16(insn.base | r);
        Ok(())
    }

    fn encode_control(&mut self, insn: Insn, ops: &Vec<String>) -> (r: Result<(), String>)
        requires
            old(self).inv(),
            insn.fmt == Fmt::Control,
        ensures
            final(self).inv(),
            (final(self)@, err_view(r)) == encode_control(old(self)@, insn, ops.deep_view()),
    {
        let ghost ov = ops.deep_view();
        assert(forall|i: int| 0 <= i < ops@.len() ==> ov[i] == ops@[i]@);
        if ops.len() != 0 {
            return Err(takes_err(insn, " takes no operands"));
        }
        self.push_u16(insn.base);
        Ok(())
    }
}

// ---- directives and lines ---------------------------------------------------

/// The value of a data operand. Pass 2 reports an error and reads it as 0;
/// pass 1 reads an error as 0 silently (it is reported once, in pass 2).
pub open spec fn eval_value(st: AsmState, op: Seq<char>, line: usize) -> (AsmState, i64) {
    match eval_in(st, op) {
        Ok(v) => (st, v),
        Err(e) => if st.emit {
            (with_diag(st, line, e), 0)
        } else {
            (st, 0)
        },
    }
}

/// `BYTE` operands, each written as one byte, in order.
pub open spec fn byte_ops(st: AsmState, ops: Seq<Seq<char>>, line: usize) -> AsmState
    decreases ops.len(),
{
    if ops.len() == 0 {
        st
    } else {
        let st1 = byte_ops(st, ops.drop_last(), line);
        let (st2, v) = eval_value(st1, ops.last(), line);
        let st3 = if st2.emit && !(-128 <= v <= 255) {
            with_diag(st2, line, "BYTE value "@ + dec_int(v as int) + " out of range -128..255"@)
        } else {
            st2
        };
        push_byte(st3, v as u8)
    }
}

/// `DATA` operands, each written as one word, in order.
pub open spec fn data_ops(st: AsmState, ops: Seq<Seq<char>>, line: usize) -> AsmState
    decreases ops.len(),
{
    if ops.len() == 0 {
        st
    } else {
        let st1 = data_ops(st, ops.drop_last(), line);
        let (st2, v) = eval_value(st1, ops.last(), line);
        let st3 = if st2.emit && !(-32768 <= v <= 65535) {
            with_diag(
                st2,
                line,
                "DATA value "@ + dec_int(v as int) + " out of range -32768..65535"@,
            )
        } else {
            st2
        };
        push_word(st3, v as u16)
    }
}

/// The two's-complement negation of a byte.
pub open spec fn neg_byte(b: u8) -> u8 {
    ((256 - b) % 256) as u8
}

/// The bytes `TEXT` writes for string `t`, the last one negated when the
/// operand had a leading `-` (the E/A idiom).
pub open spec fn text_bytes(t: Seq<char>, negate_last: bool) -> Seq<u8> {
    let bs = encode_utf8(t);
    if negate_last && bs.len() > 0 {
        bs.update(bs.len() - 1, neg_byte(bs.last()))
    } else {
        bs
    }
}

/// `TEXT '…'` (or `TEXT -'…'`).
pub open spec fn text_spec(st: AsmState, l: LineView) -> AsmState {
    match l.operands {
        None => with_diag(st, l.num, "TEXT requires a string"@),
        Some(raw) => {
            let neg = raw.len() > 0 && raw[0] == '-';
            let body = if neg {
                raw.drop_first()
            } else {
                raw
            };
            match string_operand_spec(body) {
                Err(e) => with_diag(st, l.num, e),
                Ok(t) => push_bytes(st, text_bytes(t, neg)),
            }
        },
    }
}

/// `AORG addr` — set the location counter to an absolute address (absolute
/// mode only). Regions may be laid out in any order; two regions touching the
/// same byte trip the overlap guard.
pub open spec fn aorg_spec(st: AsmState, l: LineView) -> AsmState {
    let ops = operands_spec(l);
    if !st.absolute {
        with_diag(
            st,
            l.num,
            "AORG needs absolute mode (assisted-header mode sets the origin automatically)"@,
        )
    } else if ops.len() == 0 {
        with_diag(st, l.num, "AORG requires an address"@)
    } else {
        match eval_in(st, ops[0]) {
            Err(e) => with_diag(st, l.num, e),
            Ok(v) => if 0 <= v <= 0xFFFF {
                AsmState { lc: v as u16, ..st }
            } else {
                with_diag(
                    st,
                    l.num,
                    "AORG address "@ + dec_int(v as int) + " out of range >0000..>FFFF"@,
                )
            },
        }
    }
}

/// `BSS n` — reserve `n` zero bytes.
pub open spec fn bss_spec(st: AsmState, l: LineView) -> AsmState {
    let ops = operands_spec(l);
    let (st1, n) = if ops.len() == 0 {
        (with_diag(st, l.num, "BSS requires a size"@), 0i64)
    } else {
        eval_value(st, ops[0], l.num)
    };
    push_zeros(st1, if n > 0 {
        n as nat
    } else {
        0
    })
}

/// The image index of the address `j` bytes past the location counter.
pub open spec fn index_after(st: AsmState, j: int) -> int {
    wrap16(st.lc + j - st.base) as int
}

/// `wrap16` absorbs an inner wrap: `wrap16(wrap16(a) + c) == wrap16(a + c)`.
proof fn lemma_wrap_shift(a: int, c: int)
    ensures
        wrap16(wrap16(a) + c) == wrap16(a + c),
{
    let m = 0x10000int;
    vstd::arithmetic::div_mod::lemma_add_mod_noop(a, c, m);
    vstd::arithmetic::div_mod::lemma_add_mod_noop(a % m, c, m);
    vstd::arithmetic::div_mod::lemma_mod_twice(a, m);
    assert(wrap16(a) as int == a % m);
}

/// Writing `m` zero bytes moves the location counter by `m` (modulo 64 KiB),
/// counts `m` more bytes for the line (in pass 2, below the count's limit),
/// and in pass 2 leaves a zero at each of the `m` addresses from the counter.
pub proof fn lemma_push_zeros(st: AsmState, m: nat)
    ensures
        push_zeros(st, m).lc == wrap16(st.lc + m),
        push_zeros(st, m).emit == st.emit,
        push_zeros(st, m).base == st.base,
        st.emit && st.wrote + m <= 0xFFFF_FFFF_FFFF_FFFF ==> push_zeros(st, m).wrote == st.wrote + m,
        st.emit ==> forall|j: int|
            0 <= j < m ==> #[trigger] index_after(st, j) < push_zeros(st, m).image.len()
                && push_zeros(st, m).image[index_after(st, j)] == 0,
    decreases m,
{
    if m == 0 {
        assert(wrap16(st.lc + 0) == st.lc);
    } else {
        let k = (m - 1) as nat;
        lemma_push_zeros(st, k);
        let p = push_zeros(st, k);
        lemma_wrap_shift(st.lc + k, 1);
        assert(push_zeros(st, m) == push_byte(p, 0));
        if st.emit {
            lemma_wrap_shift(st.lc + k, -(st.base as int));
            let idx = lc_index(p);
            assert(idx == wrap16(st.lc + k - st.base));
            let r = push_byte(p, 0);
            assert forall|j: int| 0 <= j < m implies #[trigger] index_after(st, j) < r.image.len()
                && r.image[index_after(st, j)] == 0 by {
                let i = index_after(st, j);
                if j < k {
                    assert(i < p.image.len() && p.image[i] == 0);
                    assert(grow(p.image, idx + 1, 0u8)[i] == p.image[i]);
                }
            }
        }
    }
}

/// `BSS n` reserves exactly `n` bytes: for a size `n >= 0` the location
/// counter moves by `n` (modulo 64 KiB), pass 2 counts `n` bytes for the line
/// and leaves a zero at each reserved address; a negative size reserves
/// nothing and changes nothing.
pub proof fn lemma_bss_reserves_n(st: AsmState, l: LineView, n: i64)
    requires
        operands_spec(l).len() > 0,
        eval_in(st, operands_spec(l)[0]) == Ok::<i64, Seq<char>>(n),
    ensures
        n < 0 ==> bss_spec(st, l) == st,
        n >= 0 ==> bss_spec(st, l).lc == wrap16(st.lc + n),
        n >= 0 && st.emit && st.wrote + n <= 0xFFFF_FFFF_FFFF_FFFF ==> bss_spec(st, l).wrote == st.wrote + n,
        n >= 0 && st.emit ==> forall|j: int|
            0 <= j < n ==> #[trigger] index_after(st, j) < bss_spec(st, l).image.len()
                && bss_spec(st, l).image[index_after(st, j)] == 0,
{
    if n >= 0 {
        lemma_push_zeros(st, n as nat);
        assert(bss_spec(st, l) == push_zeros(st, n as nat));
    }
}

/// The message for a `COPY` left in the source.
pub open spec fn copy_msg() -> Seq<char> {
    "COPY must be expanded before assembly (call libre99::expand_includes, or use the libre99asm CLI which does it for you)"@
}

/// A directive (a mnemonic that is no instruction).
pub open spec fn directive_spec(st: AsmState, m: Seq<char>, l: LineView) -> AsmState {
    if m == "IDT"@ || m == "END"@ {
        st
    } else if m == "BYTE"@ {
        byte_ops(st, operands_spec(l), l.num)
    } else if m == "DATA"@ {
        data_ops(st, operands_spec(l), l.num)
    } else if m == "TEXT"@ {
        text_spec(st, l)
    } else if m == "BSS"@ {
        bss_spec(st, l)
    } else if m == "EVEN"@ {
        align(st)
    } else if m == "AORG"@ {
        aorg_spec(st, l)
    } else if m == "COPY"@ {
        with_diag(st, l.num, copy_msg())
    } else {
        with_diag(st, l.num, "unknown mnemonic or directive '"@ + m + "'"@)
    }
}

/// The upper-cased mnemonic of a line.
pub open spec fn upper_mnemonic(l: LineView) -> Option<Seq<char>> {
    match l.mnemonic {
        Some(m) => Some(unicode_upper(m)),
        None => None,
    }
}

/// `EQU`: the label takes the operand's value (defined in pass 1).
pub open spec fn equ_spec(st: AsmState, l: LineView) -> AsmState {
    let ops = operands_spec(l);
    if st.emit {
        st
    } else {
        match l.label {
            None => with_diag(st, l.num, "EQU requires a label"@),
            Some(lbl) => if ops.len() == 0 {
                with_diag(st, l.num, "EQU requires a value"@)
            } else {
                match eval_in(st, ops[0]) {
                    Ok(v) => define(st, lbl, v, l.num),
                    Err(e) => with_diag(st, l.num, e),
                }
            },
        }
    }
}

/// One source line, in either pass. Instructions and `DATA` word-align
/// before the label is bound, so the label names the aligned statement.
pub open spec fn process_spec(st: AsmState, l: LineView) -> AsmState {
    let mnem = upper_mnemonic(l);
    if mnem == Some("EQU"@) {
        equ_spec(st, l)
    } else {
        let aligns = match mnem {
            Some(m) => m == "DATA"@ || lookup_spec(m) is Some,
            None => false,
        };
        let st1 = if aligns {
            align(st)
        } else {
            st
        };
        let st2 = match l.label {
            Some(lbl) => if !st1.emit {
                define(st1, lbl, st1.lc as i64, l.num)
            } else {
                st1
            },
            None => st1,
        };
        match mnem {
            None => st2,
            Some(m) => match lookup_spec(m) {
                Some(insn) => {
                    let (st3, e) = encode_spec(st2, insn, operands_spec(l));
                    match e {
                        Some(msg) => with_diag(st3, l.num, msg),
                        None => st3,
                    }
                },
                None => directive_spec(st2, m, l),
            },
        }
    }
}

/// The lines processed in order.
pub open spec fn run_lines(st: AsmState, ls: Seq<LineView>) -> AsmState
    decreases ls.len(),
{
    if ls.len() == 0 {
        st
    } else {
        process_spec(run_lines(st, ls.drop_last()), ls.last())
    }
}

fn neg_u8(b: u8) -> (r: u8)
    ensures
        r == neg_byte(b),
{
    if b == 0 {
        0
    } else {
        (256 - b as u16) as u8
    }
}

impl Asm {
    /// Evaluate an operand value, recording (in the emit pass) any error and
    /// substituting 0.
    fn eval_value(&mut self, op: &str, line: usize) -> (v: i64)
        requires
            old(self).inv(),
        ensures
            final(self).inv(),
            (final(self)@, v) == eval_value(old(self)@, op@, line),
    {
        match self.eval(op) {
            Ok(v) => v,
            Err(e) => {
                if self.emit {
                    self.diag(line, e);
                }
                0
            },
        }
    }

    fn dir_byte(&mut self, ops: &Vec<String>, line: usize)
        requires
            old(self).inv(),
        ensures
            final(self).inv(),
            final(self)@ == byte_ops(old(self)@, ops.deep_view(), line),
    {
        let ghost ov = ops.deep_view();
        let mut i: usize = 0;
        while i < ops.len()
            invariant
                self.inv(),
                i <= ops@.len(),
                ov == ops.deep_view(),
                self@ == byte_ops(old(self)@, ov.take(i as int), line),
            decreases ops@.len() - i,
        {
            let v = self.eval_value(ops[i].as_str(), line);
            if self.emit && !(-128 <= v && v <= 255) {
                let mut m = owned("BYTE value ");
                push_dec_i64(&mut m, v);
                push_str(&mut m, " out of range -128..255");
                self.diag(line, m);
            }
            #[verifier::truncate]
            let b = v as u8;
            self.push_u8(b);
            proof {
                assert(ov.take(i + 1).drop_last() =~= ov.take(i as int));
            }
            i += 1;
        }
        assert(ov.take(i as int) =~= ov);
    }

    fn dir_data(&mut self, ops: &Vec<String>, line: usize)
        requires
            old(self).inv(),
        ensures
            final(self).inv(),
            final(self)@ == data_ops(old(self)@, ops.deep_view(), line),
    {
        let ghost ov = ops.deep_view();
        let mut i: usize = 0;
        while i < ops.len()
            invariant
                self.inv(),
                i <= ops@.len(),
                ov == ops.deep_view(),
                self@ == data_ops(old(self)@, ov.take(i as int), line),
            decreases ops@.len() - i,
        {
            let v = self.eval_value(ops[i].as_str(), line);
            if self.emit && !(-32768 <= v && v <= 65535) {
                let mut m = owned("DATA value ");
                push_dec_i64(&mut m, v);
                push_str(&mut m, " out of range -32768..65535");
                self.diag(line, m);
            }
            #[verifier::truncate]
            let w = v as u16;
            self.push_u16(w);
            proof {
                assert(ov.take(i + 1).drop_last() =~= ov.take(i as int));
            }
            i += 1;
        }
        assert(ov.take(i as int) =~= ov);
    }

    fn push_all(&mut self, bs: &[u8])
        requires
            old(self).inv(),
        ensures
            final(self).inv(),
            final(self)@ == push_bytes(old(self)@, bs@),
    {
        let mut i: usize = 0;
        while i < bs.len()
            invariant
                self.inv(),
                i <= bs@.len(),
                self@ == push_bytes(old(self)@, bs@.take(i as int)),
            decreases bs@.len() - i,
        {
            self.push_u8(bs[i]);
            proof {
                assert(bs@.take(i + 1).drop_last() =~= bs@.take(i as int));
            }
            i += 1;
        }
        assert(bs@.take(i as int) =~= bs@);
    }

    fn dir_text(&mut self, l: &lex::Line)
        requires
            old(self).inv(),
        ensures
            final(self).inv(),
            final(self)@ == text_spec(old(self)@, l@),
    {
        let raw = match &l.operands {
            Some(s) => s,
            None => {
                self.diag(l.num, owned("TEXT requires a string"));
                return;
            },
        };
        let v = crate::strings::chars_of(raw.as_str());
        let negate_last = v.len() > 0 && v[0] == '-';
        let body = if negate_last {
            crate::strings::string_range(&v, 1, v.len())
        } else {
            crate::strings::string_range(&v, 0, v.len())
        };
        proof {
            if negate_last {
                assert(body@ =~= raw@.drop_first());
            } else {
                assert(body@ =~= raw@);
            }
        }
        let t = match string_operand(Some(body.as_str())) {
            Ok(t) => t,
            Err(e) => {
                self.diag(l.num, e);
                return;
            },
        };
        let bs = t.as_str().as_bytes();
        let mut out: Vec<u8> = Vec::new();
        let mut i: usize = 0;
        while i < bs.len()
            invariant
                i <= bs@.len(),
                out@ == bs@.take(i as int),
            decreases bs@.len() - i,
        {
            out.push(bs[i]);
            i += 1;
            assert(out@ =~= bs@.take(i as int));
        }
        assert(bs@.take(i as int) =~= bs@);
        let n = out.len();
        if negate_last && n > 0 {
            let last = neg_u8(out[n - 1]);
            out.set(n - 1, last);
        }
        assert(out@ =~= text_bytes(t@, negate_last));
        self.push_all(&out);
    }

    fn dir_aorg(&mut self, l: &lex::Line)
        requires
            old(self).inv(),
        ensures
            final(self).inv(),
            final(self)@ == aorg_spec(old(self)@, l@),
    {
        if !self.absolute {
            self.diag(
                l.num,
                owned(
                    "AORG needs absolute mode (assisted-header mode sets the origin automatically)",
                ),
            );
            return;
        }
        let ops = operands_of(l);
        if ops.len() == 0 {
            self.diag(l.num, owned("AORG requires an address"));
            return;
        }
        assert(ops.deep_view()[0] == ops@[0]@);
        match self.eval(ops[0].as_str()) {
            Ok(v) => {
                if 0 <= v && v <= 0xFFFF {
                    self.lc = v as u16;
                } else {
                    let mut m = owned("AORG address ");
                    push_dec_i64(&mut m, v);
                    push_str(&mut m, " out of range >0000..>FFFF");
                    self.diag(l.num, m);
                }
            },
            Err(e) => {
                self.diag(l.num, e);
            },
        }
    }

    fn dir_bss(&mut self, l: &lex::Line)
        requires
            old(self).inv(),
        ensures
            final(self).inv(),
            final(self)@ == bss_spec(old(self)@, l@),
    {
        let ops = operands_of(l);
        let n = if ops.len() == 0 {
            self.diag(l.num, owned("BSS requires a size"));
            0
        } else {
            assert(ops.deep_view()[0] == ops@[0]@);
            self.eval_value(ops[0].as_str(), l.num)
        };
        let ghost st1 = self@;
        let mut k: i64 = 0;
        while k < n
            invariant
                self.inv(),
                0 <= k,
                n > 0 ==> k <= n,
                n <= 0 ==> k == 0,
                self@ == push_zeros(st1, k as nat),
            decreases n - k,
        {
            self.push_u8(0);
            k += 1;
        }
    }
}

/// `Option`-taking wrapper over [`front::string_operand`]: `None` means "no
/// operand at all" (distinct from a malformed string).
fn string_operand(s: Option<&str>) -> (r: Result<String, String>)
    ensures
        text_res(r) == string_operand_opt(match s {
            Some(t) => Some(t@),
            None => None,
        }),
{
    match s {
        Some(t) => {
            let r = front::string_operand(t);
            match r {
                Ok(v) => Ok(v),
                Err(e) => Err(e),
            }
        },
        None => Err(owned("expected a quoted string")),
    }
}

/// A string result by the characters of both sides.
pub open spec fn text_res(r: Result<String, String>) -> Result<Seq<char>, Seq<char>> {
    match r {
        Ok(v) => Ok(v@),
        Err(e) => Err(e@),
    }
}

/// A string operand that may be missing.
pub open spec fn string_operand_opt(s: Option<Seq<char>>) -> Result<Seq<char>, Seq<char>> {
    match s {
        Some(t) => string_operand_spec(t),
        None => Err("expected a quoted string"@),
    }
}

fn upper(m: &Option<String>) -> (r: Option<String>)
    ensures
        opt_text(r) == (match *m {
            Some(t) => Some(unicode_upper(t@)),
            None => None::<Seq<char>>,
        }),
{
    match m {
        Some(t) => Some(crate::strings::to_uppercase(t.as_str())),
        None => None,
    }
}

/// The characters of an optional string.
pub open spec fn opt_text(o: Option<String>) -> Option<Seq<char>> {
    match o {
        Some(s) => Some(s@),
        None => None,
    }
}

fn opt_is(m: &Option<String>, lit: &str) -> (r: bool)
    ensures
        r == (opt_text(*m) == Some(lit@)),
{
    match m {
        Some(t) => str_eq(t.as_str(), lit),
        None => false,
    }
}

impl Asm {
    fn directive(&mut self, m: &str, l: &lex::Line)
        requires
            old(self).inv(),
        ensures
            final(self).inv(),
            final(self)@ == directive_spec(old(self)@, m@, l@),
    {
        if str_eq(m, "IDT") || str_eq(m, "END") {
        } else if str_eq(m, "BYTE") {
            let ops = operands_of(l);
            self.dir_byte(&ops, l.num);
        } else if str_eq(m, "DATA") {
            let ops = operands_of(l);
            self.dir_data(&ops, l.num);
        } else if str_eq(m, "TEXT") {
            self.dir_text(l);
        } else if str_eq(m, "BSS") {
            self.dir_bss(l);
        } else if str_eq(m, "EVEN") {
            self.align_word();
        } else if str_eq(m, "AORG") {
            self.dir_aorg(l);
        } else if str_eq(m, "COPY") {
            self.diag(
                l.num,
                owned(
                    "COPY must be expanded before assembly (call libre99::expand_includes, or use the libre99asm CLI which does it for you)",
                ),
            );
        } else {
            let mut msg = owned("unknown mnemonic or directive '");
            push_str(&mut msg, m);
            push_str(&mut msg, "'");
            self.diag(l.num, msg);
        }
    }

    fn process(&mut self, l: &lex::Line)
        requires
            old(self).inv(),
        ensures
            final(self).inv(),
            final(self)@ == process_spec(old(self)@, l@),
    {
        reveal(process_spec);
        let mnem = upper(&l.mnemonic);
        // EQU is special: its label takes the operand's value, not the LC.
        if opt_is(&mnem, "EQU") {
            if !self.emit {
                let ops = operands_of(l);
                match &l.label {
                    None => self.diag(l.num, owned("EQU requires a label")),
                    Some(lbl) => {
                        if ops.len() == 0 {
                            self.diag(l.num, owned("EQU requires a value"));
                        } else {
                            assert(ops.deep_view()[0] == ops@[0]@);
                            match self.eval(ops[0].as_str()) {
                                Ok(v) => self.define(lbl.as_str(), v, l.num),
                                Err(e) => self.diag(l.num, e),
                            }
                        }
                    },
                }
            }
            return;
        }
        // Instructions and DATA force a word boundary; align before the label so a
        // label points at the (aligned) data/instruction it names.
        let insn = match &mnem {
            Some(m) => lookup(m.as_str()),
            None => None,
        };
        if opt_is(&mnem, "DATA") || insn.is_some() {
            self.align_word();
        }
        if !self.emit {
            if let Some(lbl) = &l.label {
                let here = self.lc as i64;
                self.define(lbl.as_str(), here, l.num);
            }
        }
        let m = match &mnem {
            Some(m) => m,
            None => return,
        };
        match insn {
            Some(insn) => {
                if let Err(e) = self.encode(insn, l) {
                    self.diag(l.num, e);
                }
            },
            None => self.directive(m.as_str(), l),
        }
    }
}

// ---- options, results, and the two passes --------------------------------------

/// Assembly options.
pub struct Options {
    /// Cartridge menu title / `.ctg` banner (overrides `IDT`).
    pub name: Option<String>,
    /// Entry-point symbol (overrides `END`'s operand; default `START`).
    pub entry: Option<String>,
    /// Origin of the cartridge image.
    pub base: u16,
    /// Synthesize the standard `>6000` header + one menu entry (default `true`).
    pub auto_header: bool,
    /// **Absolute (raw-image) mode.** Enables `AORG` for placing code/data at
    /// fixed addresses (a region written over an already-placed byte is an
    /// overlap error — the layout-drift guard), and zero-pads the result to
    /// [`Options::image_size`]. Forces `auto_header` off.
    pub absolute: bool,
    /// The final zero-padded image size. `0` means "one 8 KiB bank".
    pub image_size: usize,
}

/// [`Options`] with its strings as characters.
pub struct OptionsView {
    pub name: Option<Seq<char>>,
    pub entry: Option<Seq<char>>,
    pub base: u16,
    pub auto_header: bool,
    pub absolute: bool,
    pub image_size: nat,
}

impl View for Options {
    type V = OptionsView;

    open spec fn view(&self) -> OptionsView {
        OptionsView {
            name: opt_text(self.name),
            entry: opt_text(self.entry),
            base: self.base,
            auto_header: self.auto_header,
            absolute: self.absolute,
            image_size: self.image_size as nat,
        }
    }
}

impl Default for Options {
    fn default() -> (o: Options)
        ensures
            o@ == (OptionsView {
                name: None,
                entry: None,
                base: 0x6000,
                auto_header: true,
                absolute: false,
                image_size: 0,
            }),
    {
        Options {
            name: None,
            entry: None,
            base: 0x6000,
            auto_header: true,
            absolute: false,
            image_size: 0,
        }
    }
}

impl Options {
    /// Options for a raw absolute image of `size` bytes originating at `>0000`
    /// (the console-ROM shape): `AORG` enabled, no header, no menu title.
    pub fn absolute_image(size: usize) -> (o: Options)
        ensures
            o@ == (OptionsView {
                name: None,
                entry: None,
                base: 0,
                auto_header: false,
                absolute: true,
                image_size: size as nat,
            }),
    {
        Options { name: None, entry: None, base: 0, auto_header: false, absolute: true, image_size: size }
    }
}

/// A successful assembly.
#[derive(Debug, Clone)]
pub struct Assembly {
    /// The cartridge menu title (upper-cased).
    pub title: String,
    /// Resolved entry-point address.
    pub entry: u16,
    /// Emitted bytes from `base` (header + code), un-padded.
    pub image: Vec<u8>,
    /// `image` zero-padded to the target size (one 8 KiB bank in cartridge
    /// mode; [`Options::image_size`] when set), ready for packaging.
    pub rom: Vec<u8>,
    /// Defined symbols (name → value), sorted; predefined registers excluded.
    pub symbols: Vec<(String, u16)>,
    /// Per-source-line emission records `(address, object bytes, source text)`
    /// in program order, for [`Assembly::listing`].
    pub emitted: Vec<(u16, Vec<u8>, String)>,
}

/// What an assembly determines: title, entry, image, padded image, the final
/// symbol map and the per-line emission records.
pub struct AsmOutcome {
    pub title: Seq<char>,
    pub entry: u16,
    pub image: Seq<u8>,
    pub rom: Seq<u8>,
    pub syms: Map<Seq<char>, i64>,
    pub emitted: Seq<(u16, Seq<u8>, Seq<char>)>,
}

/// The name of workspace register `n`: `R<n>`.
pub open spec fn reg_name(n: nat) -> Seq<char> {
    "R"@ + dec_nat(n)
}

/// The predefined registers `R0`..`R<n-1>`.
pub open spec fn reg_map(n: nat) -> Map<Seq<char>, i64>
    decreases n,
{
    if n == 0 {
        Map::empty()
    } else {
        reg_map((n - 1) as nat).insert(reg_name((n - 1) as nat), (n - 1) as i64)
    }
}

/// Whether `k` names one of the predefined registers `R0`..`R15`.
#[verifier::opaque]
pub open spec fn is_reg_name(k: Seq<char>) -> bool {
    exists|n: nat| n < 16 && k == reg_name(n)
}

/// The symbol list of an assembly: sorted strictly by name, holding exactly
/// the symbols of `m` that are not predefined registers, each with its value
/// truncated to 16 bits.
pub open spec fn lists_symbols(v: Seq<(Seq<char>, u16)>, m: Map<Seq<char>, i64>) -> bool {
    &&& names_ascending(v)
    &&& forall|i: int|
        0 <= i < v.len() ==> m.contains_key(#[trigger] v[i].0) && !is_reg_name(v[i].0) && v[i].1
            == m[v[i].0] as u16
    &&& forall|k: Seq<char>|
        m.contains_key(k) && !is_reg_name(k) ==> exists|i: int| 0 <= i < v.len() && #[trigger] v[i].0 == k
}

/// What the pre-scan gathers: the `IDT` title, the `END` operand, and the
/// diagnostics of malformed `IDT` operands.
pub type Prescan = (Option<Seq<char>>, Option<Seq<char>>, Seq<DiagView>);

/// The pre-scan of one more line: an `IDT` line sets the title (or records
/// why its operand is not a string), an `END` line sets the entry operand
/// (none when empty).
pub open spec fn prescan_step(acc: Prescan, l: LineView) -> Prescan {
    let (idt, end, ds) = acc;
    match upper_mnemonic(l) {
        Some(m) => if m == "IDT"@ {
            match string_operand_opt(l.operands) {
                Ok(t) => (Some(t), end, ds),
                Err(e) => (idt, end, ds.push(DiagView { line: l.num, message: e })),
            }
        } else if m == "END"@ {
            (
                idt,
                match l.operands {
                    Some(o) => if o.len() > 0 {
                        Some(o)
                    } else {
                        None
                    },
                    None => None,
                },
                ds,
            )
        } else {
            (idt, end, ds)
        },
        None => (idt, end, ds),
    }
}

/// The pre-scan over the lines: the last `IDT` title, the last `END`
/// operand, and the diagnostics of malformed `IDT` operands.
pub open spec fn prescan(ls: Seq<LineView>) -> Prescan
    decreases ls.len(),
{
    if ls.len() == 0 {
        (None, None, seq![])
    } else {
        prescan_step(prescan(ls.drop_last()), ls.last())
    }
}

/// High byte of a word.
pub open spec fn hi(w: u16) -> u8 {
    (w / 256) as u8
}

/// Low byte of a word.
pub open spec fn lo(w: u16) -> u8 {
    (w % 256) as u8
}

/// The standard `>AA` cartridge header with a single program-list entry
/// (entry address, title length and title bytes).
pub open spec fn header_bytes(base: u16, menu: Seq<u8>, entry: u16) -> Seq<u8> {
    let pl = wrap16(base + 16);
    seq![
        0xAAu8, 0x01u8, 0x01u8, 0x00u8, 0u8, 0u8, hi(pl), lo(pl), 0u8, 0u8, 0u8, 0u8, 0u8, 0u8, 0u8, 0u8,
        0u8, 0u8, hi(entry), lo(entry), (menu.len() % 256) as u8,
    ] + menu
}

/// Size of the synthesized header: 16 bytes, the 5-byte entry record, the
/// title, and a pad byte to a word boundary.
pub open spec fn prefix_len(auto: bool, base: u16, menu_len: nat) -> nat {
    if auto {
        let p = 21 + menu_len;
        if (base + p) % 2 == 1 {
            p + 1
        } else {
            p
        }
    } else {
        0
    }
}

/// The source text of line `num` (1-based).
pub open spec fn line_text(raws: Seq<Seq<char>>, num: usize) -> Seq<char> {
    if 1 <= num <= raws.len() {
        raws[num - 1]
    } else {
        seq![]
    }
}

/// `x`, at most `n`.
pub open spec fn clamp(x: int, n: int) -> int {
    if x < n {
        x
    } else {
        n
    }
}

/// The emission record of a line that started at `addr` and left state
/// `st`: its address, the bytes it wrote (clamped to the image) and its
/// source text.
pub open spec fn emit_record(addr: u16, st: AsmState, text: Seq<char>) -> (u16, Seq<u8>, Seq<char>) {
    let start = wrap16(addr - st.base) as int;
    let n = st.image.len() as int;
    (addr, st.image.subrange(clamp(start, n), clamp(start + st.wrote, n)), text)
}

/// One line of pass 2: process it with the per-line byte count reset, and,
/// if it wrote bytes, record it.
pub open spec fn emit_step(
    st1: AsmState,
    em: Seq<(u16, Seq<u8>, Seq<char>)>,
    l: LineView,
    text: Seq<char>,
) -> (AsmState, Seq<(u16, Seq<u8>, Seq<char>)>) {
    let st2 = process_spec(AsmState { wrote: 0, ..st1 }, l);
    (
        st2,
        if st2.wrote > 0 {
            em.push(emit_record(st1.lc, st2, text))
        } else {
            em
        },
    )
}

/// Pass 2 over the lines: the final state and the emission records.
pub open spec fn emit_lines(st: AsmState, ls: Seq<LineView>, raws: Seq<Seq<char>>) -> (AsmState, Seq<(u16, Seq<u8>, Seq<char>)>)
    decreases ls.len(),
{
    if ls.len() == 0 {
        (st, seq![])
    } else {
        let (st1, em) = emit_lines(st, ls.drop_last(), raws);
        emit_step(st1, em, ls.last(), line_text(raws, ls.last().num))
    }
}

/// The message for an image larger than its window.
pub open spec fn window_text(absolute: bool, target: nat) -> Seq<char> {
    if absolute {
        "the "@ + dec_nat(target) + "-byte image window"@
    } else {
        "the 8 KiB cartridge window"@
    }
}

/// The menu title: the `name` option, else the `IDT` title, else `CART`;
/// upper-cased.
pub open spec fn menu_of(src: Seq<char>, o: OptionsView) -> Seq<char> {
    let (idt, _, _) = prescan(crate::lex::parse_spec(src));
    unicode_upper(
        match o.name {
            Some(n) => n,
            None => match idt {
                Some(t) => t,
                None => "CART"@,
            },
        },
    )
}

/// The entry symbol: the `entry` option, else `END`'s operand, else `START`.
pub open spec fn entry_name_of(src: Seq<char>, o: OptionsView) -> Seq<char> {
    let (_, end_entry, _) = prescan(crate::lex::parse_spec(src));
    match o.entry {
        Some(e) => e,
        None => match end_entry {
            Some(e) => e,
            None => "START"@,
        },
    }
}

/// Whether the cartridge header is synthesized.
pub open spec fn auto_of(o: OptionsView) -> bool {
    o.auto_header && !o.absolute
}

/// The state pass 1 starts from: the registers defined, the location
/// counter past the header, the pre-scan's diagnostics.
pub open spec fn initial_state(src: Seq<char>, o: OptionsView) -> AsmState {
    let (_, _, pre) = prescan(crate::lex::parse_spec(src));
    let mb = encode_utf8(menu_of(src, o));
    AsmState {
        syms: reg_map(16),
        image: seq![],
        used: seq![],
        high: 0,
        wrote: 0,
        lc: wrap16(o.base + prefix_len(auto_of(o), o.base, mb.len())),
        base: o.base,
        diags: pre,
        emit: false,
        absolute: o.absolute,
    }
}

/// Pass 1 and the entry lookup: the state after it and the entry address,
/// or its diagnostics.
pub open spec fn first_pass(src: Seq<char>, o: OptionsView) -> Result<(AsmState, u16), Seq<DiagView>> {
    let s1 = run_lines(initial_state(src, o), crate::lex::parse_spec(src));
    let entry_name = entry_name_of(src, o);
    let found = s1.syms.contains_key(entry_name);
    let entry: u16 = if found {
        s1.syms[entry_name] as u16
    } else {
        0
    };
    let s1b = if auto_of(o) && !found {
        with_diag(s1, 0, "entry symbol '"@ + entry_name + "' is undefined"@)
    } else {
        s1
    };
    if s1b.diags.len() > 0 {
        Err(s1b.diags)
    } else {
        Ok((s1b, entry))
    }
}

/// The state pass 2 starts from: emitting, at `base`, with an empty image,
/// the header written first when it is synthesized.
pub open spec fn second_start(src: Seq<char>, o: OptionsView, s1: AsmState, entry: u16) -> AsmState {
    let st2 = AsmState { emit: true, lc: o.base, image: seq![], used: seq![], high: 0, ..s1 };
    if auto_of(o) {
        align(push_bytes(st2, header_bytes(s1.base, encode_utf8(menu_of(src, o)), entry)))
    } else {
        st2
    }
}

/// The size the padded image is brought to: `image_size`, or one 8 KiB bank
/// when that is `0`.
pub open spec fn target_size(o: OptionsView) -> nat {
    if o.image_size > 0 {
        o.image_size
    } else {
        0x2000
    }
}

/// `rom` is `image` followed by zeros up to `size` bytes.
pub open spec fn padded_to(rom: Seq<u8>, image: Seq<u8>, size: nat) -> bool {
    &&& image.len() <= size
    &&& rom.len() == size
    &&& rom.take(image.len() as int) == image
    &&& forall|i: int| image.len() <= i < size ==> rom[i] == 0u8
}

/// The size check and padding after pass 2.
pub open spec fn finish_spec(
    o: OptionsView,
    s2: AsmState,
    em: Seq<(u16, Seq<u8>, Seq<char>)>,
    menu: Seq<char>,
    entry: u16,
) -> Result<AsmOutcome, Seq<DiagView>> {
    if s2.diags.len() > 0 {
        Err(s2.diags)
    } else {
        let target: nat = if o.image_size > 0 {
            o.image_size
        } else {
            0x2000
        };
        if s2.high > target {
            Err(
                seq![
                    DiagView {
                        line: 0,
                        message: "image spans "@ + dec_nat(s2.high) + " bytes, which exceeds "@ + window_text(
                            o.absolute,
                            target,
                        ),
                    },
                ],
            )
        } else {
            let image = s2.image.take(s2.high as int);
            Ok(
                AsmOutcome {
                    title: menu,
                    entry,
                    image,
                    rom: image + Seq::new((target - s2.high) as nat, |i: int| 0u8),
                    syms: s2.syms,
                    emitted: em,
                },
            )
        }
    }
}

/// The assembly of `src` under options `o`: both passes, then the size
/// check and padding.
pub open spec fn assemble_spec(src: Seq<char>, o: OptionsView) -> Result<AsmOutcome, Seq<DiagView>> {
    match first_pass(src, o) {
        Err(d) => Err(d),
        Ok((s1, entry)) => {
            let (s2, em) = emit_lines(
                second_start(src, o, s1, entry),
                crate::lex::parse_spec(src),
                crate::strings::lines(src),
            );
            finish_spec(o, s2, em, menu_of(src, o), entry)
        },
    }
}

/// The symbol list by characters.
pub open spec fn symbols_view(v: Seq<(String, u16)>) -> Seq<(Seq<char>, u16)> {
    v.map_values(|p: (String, u16)| (p.0@, p.1))
}

/// The emission records by characters.
pub open spec fn emitted_view(v: Seq<(u16, Vec<u8>, String)>) -> Seq<(u16, Seq<u8>, Seq<char>)> {
    v.map_values(|p: (u16, Vec<u8>, String)| (p.0, p.1@, p.2@))
}

/// The assembly matches the outcome `out`.
pub open spec fn matches_outcome(a: Assembly, out: AsmOutcome) -> bool {
    &&& a.title@ == out.title
    &&& a.entry == out.entry
    &&& a.image@ == out.image
    &&& a.rom@ == out.rom
    &&& lists_symbols(symbols_view(a.symbols@), out.syms)
    &&& emitted_view(a.emitted@) == out.emitted
}

/// Whether `s` names one of the predefined registers `R0`..`R15`.
fn is_register_name(s: &str) -> (r: bool)
    ensures
        r == is_reg_name(s@),
{
    let mut n: u64 = 0;
    while n < 16
        invariant
            n <= 16,
            forall|k: nat| k < n ==> s@ != reg_name(k),
        decreases 16 - n,
    {
        let mut name = owned("R");
        push_dec_u64(&mut name, n);
        if str_eq(name.as_str(), s) {
            assert(s@ == reg_name(n as nat));
            proof {
                reveal(is_reg_name);
            }
            return true;
        }
        n += 1;
    }
    proof {
        reveal(is_reg_name);
    }
    false
}

/// The predefined registers as a symbol table.
fn register_symbols() -> (t: Symbols)
    ensures
        t@ == reg_map(16),
{
    let mut t = Symbols::new();
    let mut n: u64 = 0;
    while n < 16
        invariant
            n <= 16,
            t@ == reg_map(n as nat),
        decreases 16 - n,
    {
        let mut name = owned("R");
        push_dec_u64(&mut name, n);
        assert(name@ == reg_name(n as nat));
        t.insert(name, n as i64);
        n += 1;
    }
    t
}

/// Names strictly ascending.
pub open spec fn names_ascending(v: Seq<(Seq<char>, u16)>) -> bool {
    forall|i: int, j: int| 0 <= i < j < v.len() ==> crate::strings::seq_lt(#[trigger] v[i].0, #[trigger] v[j].0)
}

/// Insert `(name, value)` into a list ascending by name, at its place.
fn insert_sorted(out: &mut Vec<(String, u16)>, name: String, value: u16)
    requires
        names_ascending(symbols_view(old(out)@)),
        forall|q: int| 0 <= q < old(out)@.len() ==> (#[trigger] old(out)@[q]).0@ != name@,
    ensures
        names_ascending(symbols_view(final(out)@)),
        exists|p: int|
            0 <= p <= old(out)@.len() && symbols_view(final(out)@) == #[trigger] symbols_view(old(out)@).insert(
                p,
                (name@, value),
            ),
{
    let ghost old_sv = symbols_view(out@);
    let mut p: usize = 0;
    while p < out.len() && !crate::strings::str_lt(name.as_str(), out[p].0.as_str())
        invariant
            p <= out@.len(),
            old_sv == symbols_view(out@),
            forall|q: int| 0 <= q < p ==> !crate::strings::seq_lt(name@, #[trigger] old_sv[q].0),
        decreases out@.len() - p,
    {
        p += 1;
    }
    let ghost nm = name@;
    out.insert(p, (name, value));
    proof {
        let sv = symbols_view(out@);
        assert(sv =~= old_sv.insert(p as int, (nm, value)));
        assert forall|q: int| 0 <= q < old_sv.len() implies old_sv[q].0 != nm by {
            assert(old_sv[q].0 == old(out)@[q].0@);
        }
        assert forall|x: int, y: int| 0 <= x < y < sv.len() implies crate::strings::seq_lt(
            #[trigger] sv[x].0,
            #[trigger] sv[y].0,
        ) by {
            if x < p && y < p {
                assert(sv[x] == old_sv[x] && sv[y] == old_sv[y]);
            } else if x < p && y == p {
                crate::strings::lemma_seq_lt_total(old_sv[x].0, nm);
            } else if x < p && y > p {
                assert(sv[x] == old_sv[x] && sv[y] == old_sv[y - 1]);
            } else if x == p {
                assert(sv[y] == old_sv[y - 1]);
                if y - 1 > p {
                    assert(crate::strings::seq_lt(old_sv[p as int].0, old_sv[y - 1].0));
                    crate::strings::lemma_seq_lt_trans(nm, old_sv[p as int].0, old_sv[y - 1].0);
                }
            } else {
                assert(sv[x] == old_sv[x - 1] && sv[y] == old_sv[y - 1]);
            }
        }
    }
}

/// Listed entry `x` of `sv` is binding `k` of `b`, which is not a register,
/// its value cut to 16 bits.
spec fn listed_as(sv: Seq<(Seq<char>, u16)>, x: int, b: Seq<(Seq<char>, i64)>, k: int) -> bool {
    sv[x].0 == b[k].0 && sv[x].1 == b[k].1 as u16 && !is_reg_name(b[k].0)
}

/// `idx[x]` is the binding, among the first `n` of `b`, that entry `x` of
/// `sv` lists.
spec fn listed_by(sv: Seq<(Seq<char>, u16)>, b: Seq<(Seq<char>, i64)>, idx: Seq<int>, n: int) -> bool {
    &&& idx.len() == sv.len()
    &&& forall|x: int| 0 <= x < sv.len() ==> 0 <= #[trigger] idx[x] < n && listed_as(sv, x, b, idx[x])
}

/// Each of the first `n` bindings of `b` that is not a register is listed,
/// binding `k` at entry `pos[k]` of `sv`.
spec fn covered_by(sv: Seq<(Seq<char>, u16)>, b: Seq<(Seq<char>, i64)>, pos: Seq<int>, n: int) -> bool {
    &&& pos.len() == n
    &&& forall|k: int|
        0 <= k < n && !is_reg_name(b[k].0) ==> 0 <= #[trigger] pos[k] < sv.len() && sv[pos[k]].0 == b[k].0
}

/// Entry positions after inserting at `p`.
spec fn shift_from(pos: Seq<int>, p: int) -> Seq<int> {
    pos.map_values(|v: int| if v >= p { v + 1 } else { v })
}

proof fn lemma_listed_insert(
    old_sv: Seq<(Seq<char>, u16)>,
    sv: Seq<(Seq<char>, u16)>,
    b: Seq<(Seq<char>, i64)>,
    idx: Seq<int>,
    pos: Seq<int>,
    i: int,
    p: int,
)
    requires
        listed_by(old_sv, b, idx, i),
        covered_by(old_sv, b, pos, i),
        0 <= i < b.len(),
        !is_reg_name(b[i].0),
        0 <= p <= old_sv.len(),
        sv == old_sv.insert(p, (b[i].0, b[i].1 as u16)),
    ensures
        listed_by(sv, b, idx.insert(p, i), i + 1),
        covered_by(sv, b, shift_from(pos, p).push(p), i + 1),
{
    let idx2 = idx.insert(p, i);
    assert forall|x: int| 0 <= x < sv.len() implies 0 <= #[trigger] idx2[x] < i + 1 && listed_as(sv, x, b, idx2[x]) by {
        if x < p {
            assert(sv[x] == old_sv[x] && idx2[x] == idx[x]);
        } else if x > p {
            assert(sv[x] == old_sv[x - 1] && idx2[x] == idx[x - 1]);
        }
    }
    let pos2 = shift_from(pos, p).push(p);
    assert forall|k: int| 0 <= k < i + 1 && !is_reg_name(b[k].0) implies 0 <= #[trigger] pos2[k] < sv.len()
        && sv[pos2[k]].0 == b[k].0 by {
        if k < i {
            let v = pos[k];
            assert(0 <= v < old_sv.len() && old_sv[v].0 == b[k].0);
            if v >= p {
                assert(pos2[k] == v + 1 && sv[v + 1] == old_sv[v]);
            } else {
                assert(pos2[k] == v && sv[v] == old_sv[v]);
            }
        }
    }
}

proof fn lemma_listed_done(sv: Seq<(Seq<char>, u16)>, b: Seq<(Seq<char>, i64)>, idx: Seq<int>, pos: Seq<int>)
    requires
        listed_by(sv, b, idx, b.len() as int),
        covered_by(sv, b, pos, b.len() as int),
        crate::expr::distinct_names(b),
        names_ascending(sv),
    ensures
        lists_symbols(sv, crate::expr::bindings_map(b)),
{
    let m = crate::expr::bindings_map(b);
    assert forall|x: int| 0 <= x < sv.len() implies m.contains_key(#[trigger] sv[x].0) && !is_reg_name(
        sv[x].0,
    ) && sv[x].1 == m[sv[x].0] as u16 by {
        assert(0 <= idx[x] < b.len() && listed_as(sv, x, b, idx[x]));
        crate::expr::lemma_bindings_at(b, idx[x]);
    }
    assert forall|k: Seq<char>| m.contains_key(k) && !is_reg_name(k) implies exists|x: int|
        0 <= x < sv.len() && #[trigger] sv[x].0 == k by {
        crate::expr::lemma_bindings_contains(b, k);
        let j = choose|j: int| 0 <= j < b.len() && b[j].0 == k;
        assert(0 <= pos[j] < sv.len() && sv[pos[j]].0 == b[j].0);
    }
}

/// The defined symbols in name order, registers left out.
fn sorted_symbols(syms: &Symbols) -> (out: Vec<(String, u16)>)
    ensures
        lists_symbols(symbols_view(out@), syms@),
{
    let pairs = syms.pairs();
    let ghost b = syms.bindings();
    proof {
        syms.lemma_view();
    }
    let mut out: Vec<(String, u16)> = Vec::new();
    let ghost mut idx: Seq<int> = seq![];
    let ghost mut pos: Seq<int> = seq![];
    let mut i: usize = 0;
    while i < pairs.len()
        invariant
            i <= pairs@.len(),
            crate::expr::pairs_view(pairs@) == b,
            crate::expr::distinct_names(b),
            names_ascending(symbols_view(out@)),
            listed_by(symbols_view(out@), b, idx, i as int),
            covered_by(symbols_view(out@), b, pos, i as int),
        decreases pairs@.len() - i,
    {
        let ghost bi = b[i as int];
        assert(bi == (pairs@[i as int].0@, pairs@[i as int].1));
        let is_reg = is_register_name(pairs[i].0.as_str());
        let ghost old_sv = symbols_view(out@);
        if !is_reg {
            proof {
                assert forall|q: int| 0 <= q < out@.len() implies (#[trigger] out@[q]).0@ != bi.0 by {
                    assert(old_sv[q].0 == out@[q].0@);
                    assert(0 <= idx[q] < i && listed_as(old_sv, q, b, idx[q]));
                    assert(b[idx[q]].0 != b[i as int].0);
                }
            }
            let name = owned(pairs[i].0.as_str());
            let value = pairs[i].1 as u16;
            insert_sorted(&mut out, name, value);
            proof {
                let sv = symbols_view(out@);
                let p = choose|p: int| 0 <= p <= old_sv.len() && sv == #[trigger] old_sv.insert(p, (bi.0, bi.1 as u16));
                lemma_listed_insert(old_sv, sv, b, idx, pos, i as int, p);
                idx = idx.insert(p, i as int);
                pos = shift_from(pos, p).push(p);
            }
        } else {
            proof {
                pos = pos.push(0);
            }
        }
        i += 1;
    }
    proof {
        lemma_listed_done(symbols_view(out@), b, idx, pos);
    }
    out
}

/// An optional string, borrowed.
fn opt_str(o: &Option<String>) -> (r: Option<&str>)
    ensures
        match r {
            Some(t) => opt_text(*o) == Some(t@),
            None => opt_text(*o) == None::<Seq<char>>,
        },
{
    match o {
        Some(s) => Some(s.as_str()),
        None => None,
    }
}

/// The pre-scan over the parsed lines: the `IDT` title, the `END` operand,
/// and the diagnostics of malformed `IDT` operands.
fn prescan_lines(lines: &Vec<lex::Line>) -> (r: (Option<String>, Option<String>, Vec<Diag>))
    ensures
        (opt_text(r.0), opt_text(r.1), diags_view(r.2@)) == prescan(lines_view(lines@)),
{
    let ghost lv = lines_view(lines@);
    let mut idt: Option<String> = None;
    let mut end: Option<String> = None;
    let mut diags: Vec<Diag> = Vec::new();
    let mut i: usize = 0;
    proof {
        assert(lv.take(0) =~= Seq::<LineView>::empty());
        assert(diags_view(diags@) =~= Seq::<DiagView>::empty());
    }
    while i < lines.len()
        invariant
            i <= lines@.len(),
            lv == lines_view(lines@),
            (opt_text(idt), opt_text(end), diags_view(diags@)) == prescan(lv.take(i as int)),
        decreases lines@.len() - i,
    {
        let l = &lines[i];
        assert(lv[i as int] == l@);
        let ghost acc = (opt_text(idt), opt_text(end), diags_view(diags@));
        proof {
            assert(lv.take(i + 1).drop_last() =~= lv.take(i as int));
            assert(lv.take(i + 1).last() == lv[i as int]);
            assert(prescan(lv.take(i + 1)) == prescan_step(acc, l@));
        }
        let m = upper(&l.mnemonic);
        if opt_is(&m, "IDT") {
            match string_operand(opt_str(&l.operands)) {
                Ok(s) => {
                    idt = Some(s);
                },
                Err(e) => {
                    let ghost d0 = diags@;
                    let d = Diag::at(l.num, e);
                    diags.push(d);
                    assert(diags_view(diags@) =~= diags_view(d0).push(d@));
                },
            }
        } else if opt_is(&m, "END") {
            end =
            match &l.operands {
                Some(o) => {
                    proof {
                        reveal_strlit("");
                    }
                    if str_eq(o.as_str(), "") {
                        None
                    } else {
                        assert(o@.len() > 0) by {
                            if o@.len() == 0 {
                                assert(o@ =~= ""@);
                            }
                        }
                        Some(owned(o.as_str()))
                    }
                },
                None => None,
            };
        }
        assert((opt_text(idt), opt_text(end), diags_view(diags@)) == prescan_step(acc, l@));
        i += 1;
    }
    proof {
        assert(lv.take(i as int) =~= lv);
    }
    (idt, end, diags)
}

/// The bytes `v[from..to]`.
fn bytes_between(v: &Vec<u8>, from: usize, to: usize) -> (out: Vec<u8>)
    requires
        from <= to <= v@.len(),
    ensures
        out@ == v@.subrange(from as int, to as int),
{
    let mut out: Vec<u8> = Vec::new();
    let mut i: usize = from;
    while i < to
        invariant
            from <= i <= to <= v@.len(),
            out@ == v@.subrange(from as int, i as int),
        decreases to - i,
    {
        out.push(v[i]);
        i += 1;
        assert(out@ =~= v@.subrange(from as int, i as int));
    }
    out
}

/// The text of source line `num` (1-based), given each line's bounds in `v`.
fn line_text_of(v: &Vec<char>, bounds: &Vec<(usize, usize)>, num: usize) -> (s: String)
    requires
        bounds@.len() == crate::strings::lines(v@).len(),
        forall|k: int|
            #![trigger bounds@[k]]
            0 <= k < bounds@.len() ==> {
                &&& bounds@[k].0 <= bounds@[k].1 <= v@.len()
                &&& crate::strings::lines(v@)[k] == v@.subrange(bounds@[k].0 as int, bounds@[k].1 as int)
            },
    ensures
        s@ == line_text(crate::strings::lines(v@), num),
{
    if 1 <= num && num <= bounds.len() {
        let (a, b) = bounds[num - 1];
        crate::strings::string_range(v.as_slice(), a, b)
    } else {
        String::new()
    }
}

impl Asm {
    /// Switch to pass 2: emitting, at `base`, with an empty image.
    fn start_emit(&mut self, base: u16)
        requires
            old(self).inv(),
        ensures
            final(self).inv(),
            final(self)@ == (AsmState { emit: true, lc: base, image: seq![], used: seq![], high: 0, ..old(self)@ }),
    {
        self.emit = true;
        self.lc = base;
        self.image = Vec::new();
        self.used = Vec::new();
        self.high = 0;
        assert(self@.image =~= Seq::<u8>::empty());
        assert(self@.used =~= Seq::<bool>::empty());
    }

    /// Emit the synthesized cartridge header and pad to a word boundary.
    fn emit_header(&mut self, menu: &str, entry: u16)
        requires
            old(self).inv(),
        ensures
            final(self).inv(),
            final(self)@ == align(push_bytes(old(self)@, header_bytes(old(self)@.base, encode_utf8(menu@), entry))),
    {
        let mb = menu.as_bytes();
        let pl = self.base.wrapping_add(16);
        let mut h: Vec<u8> = Vec::new();
        h.push(0xAA); // valid flag
        h.push(0x01); // version
        h.push(0x01); // number of programs
        h.push(0x00); // reserved
        h.push(0); // power-up list
        h.push(0);
        h.push((pl / 256) as u8); // program (menu) list pointer
        h.push((pl % 256) as u8);
        let mut k: usize = 0;
        while k < 8
            invariant
                k <= 8,
                h@ == seq![0xAAu8, 0x01u8, 0x01u8, 0x00u8, 0u8, 0u8, hi(pl), lo(pl)] + Seq::new(k as nat, |i: int| 0u8),
            decreases 8 - k,
        {
            // DSR list, subprogram list, interrupt link, unused
            h.push(0);
            k += 1;
            assert(h@ =~= seq![0xAAu8, 0x01u8, 0x01u8, 0x00u8, 0u8, 0u8, hi(pl), lo(pl)] + Seq::new(k as nat, |i: int| 0u8));
        }
        h.push(0); // next entry = none
        h.push(0);
        h.push((entry / 256) as u8); // entry address
        h.push((entry % 256) as u8);
        h.push((mb.len() % 256) as u8);
        let ghost h0 = h@;
        let mut j: usize = 0;
        while j < mb.len()
            invariant
                j <= mb@.len(),
                h@ == h0 + mb@.take(j as int),
            decreases mb@.len() - j,
        {
            h.push(mb[j]);
            j += 1;
            assert(h@ =~= h0 + mb@.take(j as int));
        }
        proof {
            assert(mb@.take(j as int) =~= mb@);
            assert(pl == wrap16(self.base + 16));
            assert(h@ =~= header_bytes(self.base, encode_utf8(menu@), entry));
        }
        self.push_all(h.as_slice());
        self.align_word();
    }

    /// Pass 1 (or any pass) over `lines` in order.
    fn run(&mut self, lines: &Vec<lex::Line>)
        requires
            old(self).inv(),
        ensures
            final(self).inv(),
            final(self)@ == run_lines(old(self)@, lines_view(lines@)),
    {
        let ghost lv = lines_view(lines@);
        let ghost st0 = self@;
        let mut i: usize = 0;
        assert(lv.take(0) =~= Seq::<LineView>::empty());
        while i < lines.len()
            invariant
                i <= lines@.len(),
                lv == lines_view(lines@),
                self.inv(),
                self@ == run_lines(st0, lv.take(i as int)),
            decreases lines@.len() - i,
        {
            assert(lv[i as int] == lines@[i as int]@);
            self.process(&lines[i]);
            proof {
                assert(lv.take(i + 1).drop_last() =~= lv.take(i as int));
                assert(lv.take(i + 1).last() == lv[i as int]);
            }
            i += 1;
        }
        assert(lv.take(i as int) =~= lv);
    }

    /// One line of pass 2 (its source text is `text`), its emission record
    /// appended to `em`.
    #[verifier::spinoff_prover]
    #[verifier::rlimit(40)]
    fn emit_line(&mut self, l: &lex::Line, text: String, em: &mut Vec<(u16, Vec<u8>, String)>)
        requires
            old(self).inv(),
        ensures
            final(self).inv(),
            final(self)@ == emit_step(old(self)@, emitted_view(old(em)@), l@, text@).0,
            emitted_view(final(em)@) == emit_step(old(self)@, emitted_view(old(em)@), l@, text@).1,
    {
        let addr = self.lc;
        let ghost st1 = self@;
        self.wrote = 0;
        assert(self@ == AsmState { wrote: 0, ..st1 });
        self.process(l);
        let ghost st2 = self@;
        let ghost em0 = emitted_view(em@);
        if self.wrote > 0 {
            let start = addr.wrapping_sub(self.base) as usize;
            assert(start == wrap16(addr - st2.base));
            let n = self.image.len();
            let from = if start < n {
                start
            } else {
                n
            };
            let end: u128 = start as u128 + self.wrote as u128;
            let to = if end < n as u128 {
                end as usize
            } else {
                n
            };
            assert(from == clamp(start as int, n as int));
            assert(to == clamp(start + st2.wrote, n as int));
            let bytes = bytes_between(&self.image, from, to);
            let ghost rec = (addr, bytes@, text@);
            em.push((addr, bytes, text));
            proof {
                assert(emitted_view(em@) =~= em0.push(rec));
                assert(rec == emit_record(addr, st2, text@));
            }
        }
    }

    /// Pass 2 over `lines`, recording each line's address, object bytes and
    /// source text (the text of line `num` is line `num` of `v`).
    fn emit_pass(&mut self, lines: &Vec<lex::Line>, v: &Vec<char>, bounds: &Vec<(usize, usize)>) -> (em: Vec<(u16, Vec<u8>, String)>)
        requires
            old(self).inv(),
            bounds@.len() == crate::strings::lines(v@).len(),
            forall|k: int|
                #![trigger bounds@[k]]
                0 <= k < bounds@.len() ==> {
                    &&& bounds@[k].0 <= bounds@[k].1 <= v@.len()
                    &&& crate::strings::lines(v@)[k] == v@.subrange(bounds@[k].0 as int, bounds@[k].1 as int)
                },
        ensures
            final(self).inv(),
            (final(self)@, emitted_view(em@)) == emit_lines(old(self)@, lines_view(lines@), crate::strings::lines(v@)),
    {
        let ghost lv = lines_view(lines@);
        let ghost raws = crate::strings::lines(v@);
        let ghost st0 = self@;
        let mut em: Vec<(u16, Vec<u8>, String)> = Vec::new();
        let mut i: usize = 0;
        proof {
            assert(lv.take(0) =~= Seq::<LineView>::empty());
            assert(emitted_view(em@) =~= Seq::<(u16, Seq<u8>, Seq<char>)>::empty());
        }
        while i < lines.len()
            invariant
                i <= lines@.len(),
                lv == lines_view(lines@),
                raws == crate::strings::lines(v@),
                bounds@.len() == raws.len(),
                forall|k: int|
                    #![trigger bounds@[k]]
                    0 <= k < bounds@.len() ==> {
                        &&& bounds@[k].0 <= bounds@[k].1 <= v@.len()
                        &&& raws[k] == v@.subrange(bounds@[k].0 as int, bounds@[k].1 as int)
                    },
                self.inv(),
                (self@, emitted_view(em@)) == emit_lines(st0, lv.take(i as int), raws),
            decreases lines@.len() - i,
        {
            assert(lv[i as int] == lines@[i as int]@);
            proof {
                assert(lv.take(i + 1).drop_last() =~= lv.take(i as int));
                assert(lv.take(i + 1).last() == lv[i as int]);
            }
            let text = line_text_of(v, bounds, lines[i].num);
            self.emit_line(&lines[i], text, &mut em);
            i += 1;
        }
        assert(lv.take(i as int) =~= lv);
        em
    }
}

/// Pass 1 of assembling `src`: the state after it, the menu title and the
/// entry address, or the diagnostics that stop the assembly there.
fn first_pass_of(src: &str, opts: &Options, lines: &Vec<lex::Line>) -> (r: Result<(Asm, String, u16), Vec<Diag>>)
    requires
        lines_view(lines@) == crate::lex::parse_spec(src@),
    ensures
        match r {
            Ok((a, menu, entry)) => {
                &&& a.inv()
                &&& menu@ == menu_of(src@, opts@)
                &&& first_pass(src@, opts@) == Ok::<(AsmState, u16), Seq<DiagView>>((a@, entry))
            },
            Err(d) => first_pass(src@, opts@) == Err::<(AsmState, u16), Seq<DiagView>>(diags_view(d@)),
        },
{
    // Pre-scan for the module name (IDT) and the entry symbol (END's operand).
    let (idt, end_entry, diags) = prescan_lines(lines);
    let title = match &opts.name {
        Some(n) => owned(n.as_str()),
        None => match idt {
            Some(t) => t,
            None => owned("CART"),
        },
    };
    let menu = crate::strings::to_uppercase(title.as_str());
    let entry_name = match &opts.entry {
        Some(e) => owned(e.as_str()),
        None => match end_entry {
            Some(e) => e,
            None => owned("START"),
        },
    };
    let auto_header = opts.auto_header && !opts.absolute;
    // The header size: 16 bytes, the entry record, the title, and EVEN pad.
    let mb_len = menu.as_str().as_bytes().len();
    let prefix: u128 = if auto_header {
        let p: u128 = 21 + mb_len as u128;
        if (opts.base as u128 + p) % 2 == 1 {
            p + 1
        } else {
            p
        }
    } else {
        0
    };
    let lc0 = ((opts.base as u128 + prefix) % 0x10000) as u16;
    let mut a = Asm {
        syms: register_symbols(),
        image: Vec::new(),
        used: Vec::new(),
        high: 0,
        wrote: 0,
        lc: lc0,
        base: opts.base,
        diags,
        emit: false,
        absolute: opts.absolute,
    };
    assert(a@ == initial_state(src@, opts@));
    a.run(lines);
    let found = a.syms.get(entry_name.as_str());
    let entry: u16 = match found {
        Some(v) => v as u16,
        None => 0,
    };
    if auto_header && found.is_none() {
        let mut m = owned("entry symbol '");
        push_str(&mut m, entry_name.as_str());
        push_str(&mut m, "' is undefined");
        a.diag(0, m);
    }
    if a.diags.len() > 0 {
        return Err(a.diags);
    }
    Ok((a, menu, entry))
}

/// The size check and padding after pass 2.
fn finish(a: Asm, opts: &Options, menu: String, entry: u16, emitted: Vec<(u16, Vec<u8>, String)>) -> (r: Result<Assembly, Vec<Diag>>)
    requires
        a.inv(),
    ensures
        match r {
            Ok(out_asm) => (match finish_spec(opts@, a@, emitted_view(emitted@), menu@, entry) {
                Ok(out) => matches_outcome(out_asm, out),
                Err(_) => false,
            }) && padded_to(out_asm.rom@, out_asm.image@, target_size(opts@)),
            Err(d) => finish_spec(opts@, a@, emitted_view(emitted@), menu@, entry) == Err::<AsmOutcome, Seq<DiagView>>(diags_view(d@)),
        },
{
    let mut a = a;
    if a.diags.len() > 0 {
        return Err(a.diags);
    }
    let target: usize = if opts.image_size > 0 {
        opts.image_size
    } else {
        0x2000
    };
    if a.high > target {
        let mut m = owned("image spans ");
        push_dec_u64(&mut m, a.high as u64);
        push_str(&mut m, " bytes, which exceeds ");
        if opts.absolute {
            push_str(&mut m, "the ");
            push_dec_u64(&mut m, target as u64);
            push_str(&mut m, "-byte image window");
        } else {
            push_str(&mut m, "the 8 KiB cartridge window");
        }
        assert(m@ =~= "image spans "@ + dec_nat(a.high as nat) + " bytes, which exceeds "@ + window_text(
            opts.absolute,
            target as nat,
        ));
        let d = Diag::at(0, m);
        let mut ds: Vec<Diag> = Vec::new();
        ds.push(d);
        assert(diags_view(ds@) =~= seq![d@]);
        return Err(ds);
    }
    a.image.truncate(a.high);
    let mut rom: Vec<u8> = bytes_between(&a.image, 0, a.image.len());
    assert(a.image@.subrange(0, a.image@.len() as int) =~= a.image@);
    assert(rom@ =~= a.image@ + Seq::new(0, |i: int| 0u8));
    while rom.len() < target
        invariant
            a.image@.len() <= rom@.len() <= target,
            rom@ == a.image@ + Seq::new((rom@.len() - a.image@.len()) as nat, |i: int| 0u8),
        decreases target - rom@.len(),
    {
        rom.push(0);
        assert(rom@ =~= a.image@ + Seq::new((rom@.len() - a.image@.len()) as nat, |i: int| 0u8));
    }
    assert(rom@.take(a.image@.len() as int) =~= a.image@);
    let symbols = sorted_symbols(&a.syms);
    Ok(Assembly { title: menu, entry, image: a.image, rom, symbols, emitted })
}

/// Pass 2 of assembling `src`, from the state `a` that pass 1 left: the
/// state after it and the emission records.
fn second_pass_of(
    a: Asm,
    src: &str,
    opts: &Options,
    lines: &Vec<lex::Line>,
    menu: &str,
    entry: u16,
) -> (r: (Asm, Vec<(u16, Vec<u8>, String)>))
    requires
        a.inv(),
        lines_view(lines@) == crate::lex::parse_spec(src@),
        menu@ == menu_of(src@, opts@),
    ensures
        r.0.inv(),
        (r.0@, emitted_view(r.1@)) == emit_lines(
            second_start(src@, opts@, a@, entry),
            crate::lex::parse_spec(src@),
            crate::strings::lines(src@),
        ),
{
    let ghost old_a = a;
    let mut a = a;
    a.start_emit(opts.base);
    if opts.auto_header && !opts.absolute {
        a.emit_header(menu, entry);
    }
    assert(a@ == second_start(src@, opts@, old_a@, entry));
    let v = crate::strings::chars_of(src);
    let bounds = crate::strings::line_bounds(v.as_slice());
    let emitted = a.emit_pass(lines, &v, &bounds);
    (a, emitted)
}

proof fn lemma_assemble_ok(
    src: Seq<char>,
    o: OptionsView,
    s1: AsmState,
    entry: u16,
    s2: AsmState,
    em: Seq<(u16, Seq<u8>, Seq<char>)>,
)
    requires
        first_pass(src, o) == Ok::<(AsmState, u16), Seq<DiagView>>((s1, entry)),
        (s2, em) == emit_lines(
            second_start(src, o, s1, entry),
            crate::lex::parse_spec(src),
            crate::strings::lines(src),
        ),
    ensures
        assemble_spec(src, o) == finish_spec(o, s2, em, menu_of(src, o), entry),
{
}

/// Assemble `src`.
///
/// On success the result holds the menu title (upper-cased), the entry
/// address, the image from `base` (header and code), the image padded with
/// zeros to the target size, the defined symbols in name order (registers
/// left out) and the per-line emission records; otherwise every diagnostic
/// of the pass that failed, or the one size diagnostic.
pub fn assemble(src: &str, opts: &Options) -> (r: Result<Assembly, Vec<Diag>>)
    ensures
        match r {
            Ok(a) => (match assemble_spec(src@, opts@) {
                Ok(out) => matches_outcome(a, out),
                Err(_) => false,
            }) && padded_to(a.rom@, a.image@, target_size(opts@)),
            Err(d) => assemble_spec(src@, opts@) == Err::<AsmOutcome, Seq<DiagView>>(diags_view(d@)),
        },
{
    let lines = lex::parse(src);
    // ---- pass 1: define symbols and lay out the image ----
    let (a, menu, entry) = match first_pass_of(src, opts, &lines) {
        Ok(t) => t,
        Err(d) => return Err(d),
    };
    // ---- pass 2: emit bytes, recording each line's object span ----
    let ghost s1 = a@;
    let (a2, emitted) = second_pass_of(a, src, opts, &lines, menu.as_str(), entry);
    proof {
        lemma_assemble_ok(src@, opts@, s1, entry, a2@, emitted_view(emitted@));
    }
    finish(a2, opts, menu, entry, emitted)
}

// ---- the assembly's reports ------------------------------------------------

/// The value of the first symbol named `name` in `v`.
pub open spec fn find_symbol(v: Seq<(Seq<char>, u16)>, name: Seq<char>) -> Option<u16>
    decreases v.len(),
{
    if v.len() == 0 {
        None
    } else if v[0].0 == name {
        Some(v[0].1)
    } else {
        find_symbol(v.drop_first(), name)
    }
}

/// The layout message for a pin `name` at `want`, if the symbol is elsewhere
/// or undefined.
pub open spec fn layout_issue(v: Seq<(Seq<char>, u16)>, name: Seq<char>, want: u16) -> Option<Seq<char>> {
    match find_symbol(v, name) {
        Some(got) => if got == want {
            None
        } else {
            Some("layout: "@ + name + " is at >"@ + hex4(got) + ", expected >"@ + hex4(want))
        },
        None => Some("layout: "@ + name + " is undefined (expected >"@ + hex4(want) + ")"@),
    }
}

/// The layout messages of the pins, in order.
pub open spec fn layout_issues(v: Seq<(Seq<char>, u16)>, pins: Seq<(Seq<char>, u16)>) -> Seq<Seq<char>>
    decreases pins.len(),
{
    if pins.len() == 0 {
        seq![]
    } else {
        let rest = layout_issues(v, pins.drop_last());
        match layout_issue(v, pins.last().0, pins.last().1) {
            Some(m) => rest.push(m),
            None => rest,
        }
    }
}

/// The pins by characters.
pub open spec fn pins_view(p: Seq<(&str, u16)>) -> Seq<(Seq<char>, u16)> {
    p.map_values(|q: (&str, u16)| (q.0@, q.1))
}

/// A list of strings by their characters.
pub open spec fn texts(v: Seq<String>) -> Seq<Seq<char>> {
    v.map_values(|s: String| s@)
}

/// `n` spaces.
pub open spec fn spaces(n: nat) -> Seq<char> {
    Seq::new(n, |i: int| ' ')
}

/// `s` padded on the right with spaces to at least `w` characters (`{:<w}`).
pub open spec fn pad_right(s: Seq<char>, w: nat) -> Seq<char> {
    if s.len() < w {
        s + spaces((w - s.len()) as nat)
    } else {
        s
    }
}

/// The bytes as upper-case hex pairs, run together.
pub open spec fn hex_bytes(bs: Seq<u8>) -> Seq<char>
    decreases bs.len(),
{
    if bs.len() == 0 {
        seq![]
    } else {
        hex_bytes(bs.drop_last()) + hex2(bs.last())
    }
}

/// One listing row: `>ADDR  OBJECT-HEX       MORE SOURCE`, the object
/// showing at most eight bytes and `…` marking more.
pub open spec fn listing_row(rec: (u16, Seq<u8>, Seq<char>)) -> Seq<char> {
    let bs = rec.1;
    let shown = if bs.len() < 8 {
        bs
    } else {
        bs.take(8)
    };
    let more = if bs.len() > 8 {
        "…"@
    } else {
        seq![]
    };
    ">"@ + hex4(rec.0) + "  "@ + pad_right(hex_bytes(shown), 16) + pad_right(more, 2) + rec.2 + "\n"@
}

/// The listing: one row per emission record.
pub open spec fn listing_text(em: Seq<(u16, Seq<u8>, Seq<char>)>) -> Seq<char>
    decreases em.len(),
{
    if em.len() == 0 {
        seq![]
    } else {
        listing_text(em.drop_last()) + listing_row(em.last())
    }
}

/// What `{:?}` writes for a string: the string quoted, with its special
/// characters escaped.
pub uninterp spec fn debug_quoted(s: Seq<char>) -> Seq<char>;

/// The string as `{:?}` formats it (std's `Debug` for `str`).
#[verifier::external_body]
fn debug_quote(s: &str) -> (r: String)
    ensures
        r@ == debug_quoted(s@),
{
    format!("{:?}", s)
}

/// One symbol-table line of the JSON object: `  "NAME": ">ADDR"`.
pub open spec fn json_entry(p: (Seq<char>, u16)) -> Seq<char> {
    "  "@ + debug_quoted(p.0) + ": \">"@ + hex4(p.1) + "\""@
}

/// The entries joined by `,\n`.
pub open spec fn json_body(v: Seq<(Seq<char>, u16)>) -> Seq<char>
    decreases v.len(),
{
    if v.len() == 0 {
        seq![]
    } else if v.len() == 1 {
        json_entry(v[0])
    } else {
        json_body(v.drop_last()) + ",\n"@ + json_entry(v.last())
    }
}

fn push_hex_bytes(out: &mut String, bs: &[u8], n: usize)
    requires
        n <= bs@.len(),
    ensures
        final(out)@ == old(out)@ + hex_bytes(bs@.take(n as int)),
{
    let mut i: usize = 0;
    while i < n
        invariant
            i <= n <= bs@.len(),
            out@ == old(out)@ + hex_bytes(bs@.take(i as int)),
        decreases n - i,
    {
        push_hex(out, bs[i] as u64, 2);
        proof {
            assert(bs@.take(i + 1).drop_last() =~= bs@.take(i as int));
        }
        i += 1;
        assert(out@ =~= old(out)@ + hex_bytes(bs@.take(i as int)));
    }
}

pub(crate) fn push_spaces_to(out: &mut String, start: usize, w: usize)
    requires
        start <= old(out)@.len(),
    ensures
        final(out)@ == old(out)@.take(start as int) + pad_right(old(out)@.skip(start as int), w as nat),
{
    let ghost s = old(out)@.skip(start as int);
    assert(old(out)@ =~= old(out)@.take(start as int) + s);
    let len = out.as_str().unicode_len();
    let mut k: usize = len - start;
    while k < w
        invariant
            k <= w || k == s.len(),
            s.len() <= k,
            out@ == old(out)@ + spaces((k - s.len()) as nat),
        decreases w - k,
    {
        out.push(' ');
        k += 1;
        assert(out@ =~= old(out)@ + spaces((k - s.len()) as nat));
    }
    assert(out@ =~= old(out)@.take(start as int) + pad_right(s, w as nat));
}

impl Assembly {
    /// The resolved address of a defined symbol, if any.
    pub fn symbol(&self, name: &str) -> (r: Option<u16>)
        ensures
            r == find_symbol(symbols_view(self.symbols@), name@),
    {
        let ghost sv = symbols_view(self.symbols@);
        let mut i: usize = 0;
        assert(sv.skip(0) =~= sv);
        while i < self.symbols.len()
            invariant
                i <= self.symbols@.len(),
                sv == symbols_view(self.symbols@),
                find_symbol(sv, name@) == find_symbol(sv.skip(i as int), name@),
            decreases self.symbols@.len() - i,
        {
            assert(sv.skip(i as int)[0] == sv[i as int]);
            if str_eq(self.symbols[i].0.as_str(), name) {
                return Some(self.symbols[i].1);
            }
            assert(sv.skip(i as int).drop_first() =~= sv.skip(i + 1));
            i += 1;
        }
        None
    }

    /// Check each `(name, addr)` pin — the layout-assertion gate: a builder
    /// passes the frozen public entry points so that a size regression that
    /// shifts any of them fails loudly. Returns every mismatch (empty = all
    /// good).
    pub fn check_layout(&self, pins: &[(&str, u16)]) -> (r: Vec<String>)
        ensures
            texts(r@) == layout_issues(symbols_view(self.symbols@), pins_view(pins@)),
    {
        let ghost sv = symbols_view(self.symbols@);
        let ghost pv = pins_view(pins@);
        let mut out: Vec<String> = Vec::new();
        let mut i: usize = 0;
        assert(pv.take(0) =~= Seq::<(Seq<char>, u16)>::empty());
        assert(texts(out@) =~= Seq::<Seq<char>>::empty());
        while i < pins.len()
            invariant
                i <= pins@.len(),
                pv == pins_view(pins@),
                sv == symbols_view(self.symbols@),
                texts(out@) == layout_issues(sv, pv.take(i as int)),
            decreases pins@.len() - i,
        {
            let (name, want) = pins[i];
            assert(pv[i as int] == (name@, want));
            proof {
                assert(pv.take(i + 1).drop_last() =~= pv.take(i as int));
            }
            let ghost t0 = texts(out@);
            match self.symbol(name) {
                Some(got) => {
                    if got != want {
                        let mut m = owned("layout: ");
                        push_str(&mut m, name);
                        push_str(&mut m, " is at >");
                        push_hex(&mut m, got as u64, 4);
                        push_str(&mut m, ", expected >");
                        push_hex(&mut m, want as u64, 4);
                        assert(m@ =~= "layout: "@ + name@ + " is at >"@ + hex4(got) + ", expected >"@ + hex4(want));
                        out.push(m);
                        assert(texts(out@) =~= t0.push(m@));
                    }
                },
                None => {
                    let mut m = owned("layout: ");
                    push_str(&mut m, name);
                    push_str(&mut m, " is undefined (expected >");
                    push_hex(&mut m, want as u64, 4);
                    push_str(&mut m, ")");
                    assert(m@ =~= "layout: "@ + name@ + " is undefined (expected >"@ + hex4(want) + ")"@);
                    out.push(m);
                    assert(texts(out@) =~= t0.push(m@));
                },
            }
            i += 1;
        }
        assert(pv.take(i as int) =~= pv);
        out
    }

    /// An address / object-hex / source-text listing.
    pub fn listing(&self) -> (s: String)
        ensures
            s@ == listing_text(emitted_view(self.emitted@)),
    {
        let ghost ev = emitted_view(self.emitted@);
        let mut out = String::new();
        let mut i: usize = 0;
        assert(ev.take(0) =~= Seq::<(u16, Seq<u8>, Seq<char>)>::empty());
        while i < self.emitted.len()
            invariant
                i <= self.emitted@.len(),
                ev == emitted_view(self.emitted@),
                out@ == listing_text(ev.take(i as int)),
            decreases self.emitted@.len() - i,
        {
            let rec = &self.emitted[i];
            let ghost r = ev[i as int];
            assert(r == (rec.0, rec.1@, rec.2@));
            let ghost o0 = out@;
            push_str(&mut out, ">");
            push_hex(&mut out, rec.0 as u64, 4);
            push_str(&mut out, "  ");
            let n = if rec.1.len() < 8 {
                rec.1.len()
            } else {
                8
            };
            let start = out.as_str().unicode_len();
            let ghost o1 = out@;
            push_hex_bytes(&mut out, rec.1.as_slice(), n);
            assert(out@.skip(start as int) =~= hex_bytes(rec.1@.take(n as int)));
            push_spaces_to(&mut out, start, 16);
            let start2 = out.as_str().unicode_len();
            let ghost o2 = out@;
            if rec.1.len() > 8 {
                push_str(&mut out, "…");
            }
            proof {
                reveal_strlit("…");
            }
            assert(out@.skip(start2 as int) =~= (if rec.1@.len() > 8 { "…"@ } else { Seq::<char>::empty() }));
            push_spaces_to(&mut out, start2, 2);
            push_str(&mut out, rec.2.as_str());
            push_str(&mut out, "\n");
            proof {
                let shown = if rec.1@.len() < 8 { rec.1@ } else { rec.1@.take(8) };
                assert(shown =~= rec.1@.take(n as int));
                assert(out@ =~= o0 + listing_row(r));
                assert(ev.take(i + 1).drop_last() =~= ev.take(i as int));
            }
            i += 1;
        }
        assert(ev.take(i as int) =~= ev);
        out
    }

    /// The symbol table as a small JSON object. Values are hex strings so
    /// addresses read naturally: `{"START": ">0024", …}`.
    pub fn symbols_json(&self) -> (s: String)
        ensures
            s@ == "{\n"@ + json_body(symbols_view(self.symbols@)) + "\n}\n"@,
    {
        let ghost sv = symbols_view(self.symbols@);
        let mut out = owned("{\n");
        let mut i: usize = 0;
        while i < self.symbols.len()
            invariant
                i <= self.symbols@.len(),
                sv == symbols_view(self.symbols@),
                out@ == "{\n"@ + json_body(sv.take(i as int)),
            decreases self.symbols@.len() - i,
        {
            let ghost o0 = out@;
            if i > 0 {
                push_str(&mut out, ",\n");
            }
            push_str(&mut out, "  ");
            let q = debug_quote(self.symbols[i].0.as_str());
            push_str(&mut out, q.as_str());
            push_str(&mut out, ": \">");
            push_hex(&mut out, self.symbols[i].1 as u64, 4);
            push_str(&mut out, "\"");
            proof {
                let t = sv.take(i + 1);
                assert(t.drop_last() =~= sv.take(i as int));
                assert(t.last() == sv[i as int]);
                assert(sv[i as int] == (self.symbols@[i as int].0@, self.symbols@[i as int].1));
                if i == 0 {
                    assert(sv.take(0) =~= Seq::<(Seq<char>, u16)>::empty());
                    assert(t[0] == sv[0]);
                }
                assert(out@ =~= "{\n"@ + json_body(t));
            }
            i += 1;
        }
        assert(sv.take(i as int) =~= sv);
        push_str(&mut out, "\n}\n");
        out
    }
}

/// The value a symbol map gives a listed (non-register) symbol, cut to 16
/// bits.
pub open spec fn symbol_in(m: Map<Seq<char>, i64>, name: Seq<char>) -> Option<u16> {
    if m.contains_key(name) && !is_reg_name(name) {
        Some(m[name] as u16)
    } else {
        None
    }
}

/// The layout messages of the pins against a symbol map.
pub open spec fn outcome_issues(m: Map<Seq<char>, i64>, pins: Seq<(Seq<char>, u16)>) -> Seq<Seq<char>>
    decreases pins.len(),
{
    if pins.len() == 0 {
        seq![]
    } else {
        let rest = outcome_issues(m, pins.drop_last());
        let (name, want) = pins.last();
        match symbol_in(m, name) {
            Some(got) => if got == want {
                rest
            } else {
                rest.push("layout: "@ + name + " is at >"@ + hex4(got) + ", expected >"@ + hex4(want))
            },
            None => rest.push("layout: "@ + name + " is undefined (expected >"@ + hex4(want) + ")"@),
        }
    }
}

/// A symbol list that lists a map finds each name as the map does.
pub proof fn lemma_find_listed(v: Seq<(Seq<char>, u16)>, m: Map<Seq<char>, i64>, name: Seq<char>)
    requires
        lists_symbols(v, m),
    ensures
        find_symbol(v, name) == symbol_in(m, name),
{
    lemma_find_symbol(v, name);
    if m.contains_key(name) && !is_reg_name(name) {
        let x = choose|x: int| 0 <= x < v.len() && #[trigger] v[x].0 == name;
        assert(v[x].0 == name);
    } else {
        if exists|x: int| 0 <= x < v.len() && v[x].0 == name {
            let x = choose|x: int| 0 <= x < v.len() && v[x].0 == name;
            assert(m.contains_key(v[x].0));
        }
    }
}

/// `find_symbol` finds the first entry with the name.
proof fn lemma_find_symbol(v: Seq<(Seq<char>, u16)>, name: Seq<char>)
    ensures
        match find_symbol(v, name) {
            Some(val) => exists|x: int| 0 <= x < v.len() && v[x].0 == name && v[x].1 == val,
            None => forall|x: int| 0 <= x < v.len() ==> v[x].0 != name,
        },
    decreases v.len(),
{
    if v.len() > 0 && v[0].0 != name {
        lemma_find_symbol(v.drop_first(), name);
        match find_symbol(v, name) {
            Some(val) => {
                let x = choose|x: int| 0 <= x < v.drop_first().len() && v.drop_first()[x].0 == name && v.drop_first()[x].1 == val;
                assert(v[x + 1] == v.drop_first()[x]);
            },
            None => {
                assert forall|x: int| 0 <= x < v.len() implies v[x].0 != name by {
                    if x > 0 {
                        assert(v[x] == v.drop_first()[x - 1]);
                    }
                }
            },
        }
    } else if v.len() > 0 {
        assert(v[0].0 == name);
    }
}

/// Checking pins against the listed symbols gives the messages of the map.
pub proof fn lemma_issues_listed(v: Seq<(Seq<char>, u16)>, m: Map<Seq<char>, i64>, pins: Seq<(Seq<char>, u16)>)
    requires
        lists_symbols(v, m),
    ensures
        layout_issues(v, pins) == outcome_issues(m, pins),
    decreases pins.len(),
{
    if pins.len() > 0 {
        lemma_issues_listed(v, m, pins.drop_last());
        lemma_find_listed(v, m, pins.last().0);
    }
}

/// Whole-program diagnostics, one per message.
pub open spec fn program_diags(msgs: Seq<Seq<char>>) -> Seq<DiagView> {
    msgs.map_values(|m: Seq<char>| DiagView { line: 0, message: m })
}

/// Whole-program diagnostics, one per message.
pub(crate) fn layout_diags(msgs: Vec<String>) -> (d: Vec<Diag>)
    ensures
        diags_view(d@) == program_diags(texts(msgs@)),
{
    let mut d: Vec<Diag> = Vec::new();
    let mut i: usize = 0;
    while i < msgs.len()
        invariant
            i <= msgs@.len(),
            diags_view(d@) == program_diags(texts(msgs@)).take(i as int),
        decreases msgs@.len() - i,
    {
        let ghost d0 = diags_view(d@);
        let dg = Diag::at(0, owned(msgs[i].as_str()));
        d.push(dg);
        assert(diags_view(d@) =~= d0.push(dg@));
        assert(texts(msgs@)[i as int] == msgs@[i as int]@);
        assert(diags_view(d@) =~= program_diags(texts(msgs@)).take(i + 1));
        i += 1;
    }
    assert(program_diags(texts(msgs@)).take(i as int) =~= program_diags(texts(msgs@)));
    d
}

/// The layout gate after an assembly: the assembly stands if every pin
/// holds, else the mismatches are the diagnostics.
pub open spec fn layout_gate(r: Result<AsmOutcome, Seq<DiagView>>, pins: Seq<(Seq<char>, u16)>) -> Result<AsmOutcome, Seq<DiagView>> {
    match r {
        Err(d) => Err(d),
        Ok(out) => {
            let issues = outcome_issues(out.syms, pins);
            if issues.len() > 0 {
                Err(program_diags(issues))
            } else {
                Ok(out)
            }
        },
    }
}

/// Assemble `src` under `opts` and check the pins.
pub(crate) fn assemble_pinned(src: &str, opts: &Options, pins: &[(&str, u16)]) -> (r: Result<Assembly, Vec<Diag>>)
    ensures
        match r {
            Ok(a) => (match layout_gate(assemble_spec(src@, opts@), pins_view(pins@)) {
                Ok(out) => matches_outcome(a, out),
                Err(_) => false,
            }) && padded_to(a.rom@, a.image@, target_size(opts@)),
            Err(d) => layout_gate(assemble_spec(src@, opts@), pins_view(pins@)) == Err::<AsmOutcome, Seq<DiagView>>(diags_view(d@)),
        },
{
    let a = match assemble(src, opts) {
        Ok(a) => a,
        Err(d) => return Err(d),
    };
    let drift = a.check_layout(pins);
    proof {
        let out = assemble_spec(src@, opts@)->Ok_0;
        lemma_issues_listed(symbols_view(a.symbols@), out.syms, pins_view(pins@));
    }
    if drift.len() > 0 {
        return Err(layout_diags(drift));
    }
    Ok(a)
}

// ---- COPY expansion ----------------------------------------------------------

/// The path of a `COPY '<file>'` statement, if `line` is one.
pub open spec fn copy_target_spec(line: Seq<char>) -> Option<Seq<char>> {
    let ls = crate::lex::parse_spec(line);
    if ls.len() == 0 {
        None
    } else if upper_mnemonic(ls[0]) == Some("COPY"@) {
        match string_operand_opt(ls[0].operands) {
            Ok(p) => Some(p),
            Err(_) => None,
        }
    } else {
        None
    }
}

/// If `line` is a `COPY '<file>'` statement, the quoted path.
fn copy_target(line: &str) -> (r: Option<String>)
    ensures
        opt_text(r) == copy_target_spec(line@),
{
    let parsed = lex::parse(line);
    if parsed.len() == 0 {
        return None;
    }
    let l = &parsed[0];
    assert(crate::lex::parse_spec(line@)[0] == l@);
    let m = upper(&l.mnemonic);
    if !opt_is(&m, "COPY") {
        return None;
    }
    match string_operand(opt_str(&l.operands)) {
        Ok(p) => Some(p),
        Err(_) => None,
    }
}

/// The pieces run together.
pub open spec fn concat_all(v: Seq<Seq<char>>) -> Seq<char>
    decreases v.len(),
{
    if v.len() == 0 {
        seq![]
    } else {
        concat_all(v.drop_last()) + v.last()
    }
}

/// The nesting message: more than 32 levels of `COPY`.
pub open spec fn nesting_msg() -> Seq<char> {
    "COPY nesting deeper than 32 — include cycle?"@
}

/// `out` expands `src` at nesting depth `depth` (at most 32): each line of
/// `src` expands to a piece (see [`piece_ok`]), and `out` is the pieces run
/// together.
pub open spec fn expansion<F: Fn(&str) -> Result<String, String>>(
    resolve: F,
    src: Seq<char>,
    depth: nat,
    out: Seq<char>,
) -> bool
    decreases 33 - depth, 1nat,
{
    let ls = crate::strings::lines(src);
    &&& depth <= 32
    &&& exists|pieces: Seq<Seq<char>>|
        #![trigger concat_all(pieces)]
        pieces.len() == ls.len() && out == concat_all(pieces) && forall|i: int|
            0 <= i < ls.len() ==> piece_ok(resolve, ls[i], depth, #[trigger] pieces[i])
}

/// `piece` is what source line `line` expands to at depth `depth`: a
/// `COPY` statement, an expansion one level deeper of a text that `resolve`
/// returned for its path; any other line, itself with `'\n'` after it.
pub open spec fn piece_ok<F: Fn(&str) -> Result<String, String>>(
    resolve: F,
    line: Seq<char>,
    depth: nat,
    piece: Seq<char>,
) -> bool
    decreases 33 - depth, 0nat,
{
    match copy_target_spec(line) {
        None => piece == line.push('\n'),
        Some(p) => depth < 33 && exists|ps: &str, t: String|
            #![trigger call_ensures(resolve, (ps,), Ok::<String, String>(t))]
            ps@ == p && call_ensures(resolve, (ps,), Ok::<String, String>(t)) && expansion(
                resolve,
                t@,
                depth + 1,
                piece,
            ),
    }
}

/// Line `line` expands at depth `depth` (some piece satisfies [`piece_ok`]).
pub open spec fn line_expands<F: Fn(&str) -> Result<String, String>>(resolve: F, line: Seq<char>, depth: nat) -> bool {
    exists|piece: Seq<char>| piece_ok(resolve, line, depth, piece)
}

/// How expanding `src` at depth `depth` fails with message `e`: past depth
/// 32 with the nesting message; otherwise at some line `k` that is reached —
/// every earlier line expands — and is a `COPY` of path `p`, where either
/// `resolve` refused `p` (the message quotes `p` and the reason), or it gave
/// a text whose expansion one level deeper fails with `e`. So the nesting
/// message at depth 0 needs a chain of 33 nested `COPY` files that `resolve`
/// returned.
pub open spec fn fails_at<F: Fn(&str) -> Result<String, String>>(
    resolve: F,
    src: Seq<char>,
    depth: nat,
    e: Seq<char>,
) -> bool
    decreases 33 - depth,
    when depth <= 33
{
    if depth > 32 {
        e == nesting_msg()
    } else {
        let ls = crate::strings::lines(src);
        exists|k: int|
            #![trigger ls[k]]
            0 <= k < ls.len() && (forall|i: int| 0 <= i < k ==> line_expands(resolve, #[trigger] ls[i], depth))
                && match copy_target_spec(ls[k]) {
                None => false,
                Some(p) => {
                    ||| exists|ps: &str, why: String|
                        #![trigger call_ensures(resolve, (ps,), Err::<String, String>(why))]
                        ps@ == p && call_ensures(resolve, (ps,), Err::<String, String>(why)) && e == "COPY '"@
                            + p + "': "@ + why@
                    ||| exists|ps: &str, t: String|
                        #![trigger call_ensures(resolve, (ps,), Ok::<String, String>(t))]
                        ps@ == p && call_ensures(resolve, (ps,), Ok::<String, String>(t)) && fails_at(
                            resolve,
                            t@,
                            depth + 1,
                            e,
                        )
                },
            }
    }
}

/// The lines of `src`, each with `'\n'` after it.
pub open spec fn plain_text(src: Seq<char>) -> Seq<char> {
    concat_all(crate::strings::lines(src).map_values(|l: Seq<char>| l.push('\n')))
}

/// Whether `src` has no `COPY` statement.
pub open spec fn copy_free(src: Seq<char>) -> bool {
    forall|i: int| 0 <= i < crate::strings::lines(src).len() ==> copy_target_spec(#[trigger] crate::strings::lines(src)[i]) is None
}

fn expand_at<F: Fn(&str) -> Result<String, String>>(src: &str, resolve: &F, depth: usize) -> (r: Result<String, String>)
    requires
        forall|p: &str| call_requires(*resolve, (p,)),
        depth <= 33,
    ensures
        match r {
            Ok(out) => expansion(*resolve, src@, depth as nat, out@),
            Err(e) => fails_at(*resolve, src@, depth as nat, e@),
        },
        depth <= 32 && copy_free(src@) ==> r == Ok::<String, String>(r->Ok_0) && r->Ok_0@ == plain_text(src@),
    decreases 33 - depth,
{
    if depth > 32 {
        return Err(owned("COPY nesting deeper than 32 — include cycle?"));
    }
    let v = crate::strings::chars_of(src);
    let bounds = crate::strings::line_bounds(v.as_slice());
    let ghost ls = crate::strings::lines(src@);
    let mut out = String::new();
    let ghost mut pieces: Seq<Seq<char>> = seq![];
    let mut k: usize = 0;
    while k < bounds.len()
        invariant
            depth <= 32,
            forall|p: &str| call_requires(*resolve, (p,)),
            v@ == src@,
            ls == crate::strings::lines(v@),
            bounds@.len() == ls.len(),
            forall|j: int|
                #![trigger bounds@[j]]
                0 <= j < bounds@.len() ==> {
                    &&& bounds@[j].0 <= bounds@[j].1 <= v@.len()
                    &&& ls[j] == v@.subrange(bounds@[j].0 as int, bounds@[j].1 as int)
                },
            k <= bounds@.len(),
            pieces.len() == k,
            out@ == concat_all(pieces),
            forall|i: int| 0 <= i < k ==> piece_ok(*resolve, ls[i], depth as nat, #[trigger] pieces[i]),
            copy_free(src@) ==> pieces == ls.take(k as int).map_values(|l: Seq<char>| l.push('\n')),
        decreases bounds@.len() - k,
    {
        let (a, b) = bounds[k];
        let line = crate::strings::string_range(v.as_slice(), a, b);
        assert(line@ == ls[k as int]);
        let ghost p0 = pieces;
        match copy_target(line.as_str()) {
            Some(path) => {
                let ps = path.as_str();
                proof {
                    assert forall|i: int| 0 <= i < k implies line_expands(*resolve, #[trigger] ls[i], depth as nat) by {
                        assert(piece_ok(*resolve, ls[i], depth as nat, pieces[i]));
                    }
                }
                let res = resolve(ps);
                let included = match res {
                    Ok(t) => t,
                    Err(e) => {
                        let mut m = owned("COPY '");
                        push_str(&mut m, path.as_str());
                        push_str(&mut m, "': ");
                        push_str(&mut m, e.as_str());
                        assert(m@ =~= "COPY '"@ + path@ + "': "@ + e@);
                        proof {
                            assert(call_ensures(*resolve, (ps,), Err::<String, String>(e)));
                            assert(ls[k as int] == ls[k as int]);
                        }
                        return Err(m);
                    },
                };
                let sub = match expand_at(included.as_str(), resolve, depth + 1) {
                    Ok(s) => s,
                    Err(e) => {
                        proof {
                            assert(call_ensures(*resolve, (ps,), Ok::<String, String>(included)));
                            assert(fails_at(*resolve, included@, depth as nat + 1, e@));
                            assert(ls[k as int] == ls[k as int]);
                        }
                        return Err(e);
                    },
                };
                push_str(&mut out, sub.as_str());
                proof {
                    pieces = pieces.push(sub@);
                    assert(pieces.drop_last() =~= p0);
                    assert(call_ensures(*resolve, (ps,), Ok::<String, String>(included)));
                    assert(expansion(*resolve, included@, depth as nat + 1, sub@));
                    assert(piece_ok(*resolve, ls[k as int], depth as nat, pieces[k as int]));
                }
            },
            None => {
                push_str(&mut out, line.as_str());
                out.push('\n');
                proof {
                    pieces = pieces.push(line@.push('\n'));
                    assert(pieces.drop_last() =~= p0);
                    assert(out@ =~= concat_all(p0) + line@.push('\n'));
                    if copy_free(src@) {
                        assert(pieces =~= ls.take(k + 1).map_values(|l: Seq<char>| l.push('\n')));
                    }
                    assert(piece_ok(*resolve, ls[k as int], depth as nat, pieces[k as int]));
                }
            },
        }
        proof {
            assert forall|i: int| 0 <= i < k + 1 implies piece_ok(*resolve, ls[i], depth as nat, #[trigger] pieces[i]) by {
                if i < k {
                    assert(pieces[i] == p0[i]);
                }
            }
        }
        k += 1;
    }
    proof {
        assert(ls.take(k as int) =~= ls);
        assert(concat_all(pieces) == out@);
        assert(expansion(*resolve, src@, depth as nat, out@));
    }
    Ok(out)
}

/// Expand `COPY '<file>'` statements recursively by inlining the referenced
/// source, each path resolved through `resolve` (so callers control the
/// search root and this stays independent of any file system). Nesting
/// deeper than 32 levels — an include cycle — is rejected.
///
/// Diagnostics after expansion count lines in the combined text.
pub fn expand_includes<F: Fn(&str) -> Result<String, String>>(src: &str, resolve: &F) -> (r: Result<String, String>)
    requires
        forall|p: &str| call_requires(*resolve, (p,)),
    ensures
        match r {
            Ok(out) => expansion(*resolve, src@, 0, out@),
            Err(e) => fails_at(*resolve, src@, 0, e@),
        },
        copy_free(src@) ==> r == Ok::<String, String>(r->Ok_0) && r->Ok_0@ == plain_text(src@),
{
    expand_at(src, resolve, 0)
}

} // verus!
