//! A TMS9900 disassembler — the inverse of [`crate::isa`], driven by the *same*
//! instruction table so the two can never drift. [`decode_at`] decodes one
//! instruction; [`linear`] tiles sequentially. Both render operands in this
//! assembler's own syntax (`R1`, `*R3+`, `@>83C4`, `@>2(R5)`) so a listing
//! reads back the way it was written.

use vstd::prelude::*;

use vstd::utf8::encode_utf8;

use crate::expr::{
    dec_value, eval_spec, hex_end, hex_val, hex_value, ident_end, is_digit, is_hex, is_ident,
    lemma_digits_run, tokenize_from, Token,
};
use crate::{
    encode_spec, first_index, general_spec, push_ext, push_word, reg_name, reg_value, AsmState,
};
use crate::isa::{
    lookup_from, lookup_spec, lemma_names_distinct,
    dual_word, field_word, fields_fit, low_word, opcode_word, shift_word, single_word, table,
    table_spec, Fmt, Insn,
};
use crate::strings::{
    dec_int, dec_nat, hex4, hex_char, hex_fixed, owned, push_chars, push_dec_i64, push_dec_u64, push_hex, push_str,
    str_eq,
};

verus! {

/// One decoded instruction.
#[derive(Debug, Clone)]
pub struct Decoded {
    pub mnemonic: &'static str,
    pub operands: Vec<String>,
    /// Total length in bytes (2, 4, or 6).
    pub len: usize,
}

/// Why a word could not be decoded.
#[derive(Debug, Clone, Copy, PartialEq, Eq, Structural)]
pub enum DecodeError {
    /// Not enough bytes remain for the opcode or an expected extension word.
    Truncated,
    /// The opcode word matches no instruction.
    Unknown(u16),
}

/// A decoded instruction as character sequences.
pub struct DecodedView {
    pub mnemonic: Seq<char>,
    pub operands: Seq<Seq<char>>,
    pub len: nat,
}

impl View for Decoded {
    type V = DecodedView;

    open spec fn view(&self) -> DecodedView {
        DecodedView { mnemonic: self.mnemonic@, operands: self.operands.deep_view(), len: self.len as nat }
    }
}

/// The bits that must equal an instruction's `base` for a word to be that
/// instruction — the complement of its operand fields.
pub open spec fn mask_spec(f: Fmt) -> u16 {
    match f {
        Fmt::Dual => 0xF000,
        Fmt::Jump | Fmt::CruBit | Fmt::Shift => 0xFF00,
        Fmt::Single => 0xFFC0,
        Fmt::RegSrc | Fmt::CruMulti => 0xFC00,
        Fmt::ImmReg | Fmt::RegOnly => 0xFFF0,
        Fmt::Imm => 0xFFE0,
        Fmt::Pseudo | Fmt::Control => 0xFFFF,
    }
}

fn fmt_mask(f: Fmt) -> (m: u16)
    ensures
        m == mask_spec(f),
{
    match f {
        Fmt::Dual => 0xF000,
        Fmt::Jump | Fmt::CruBit | Fmt::Shift => 0xFF00,
        Fmt::Single => 0xFFC0,
        Fmt::RegSrc | Fmt::CruMulti => 0xFC00,
        Fmt::ImmReg | Fmt::RegOnly => 0xFFF0,
        Fmt::Imm => 0xFFE0,
        Fmt::Pseudo | Fmt::Control => 0xFFFF,
    }
}

/// The first non-pseudo table entry at or after `i` that `w` is an instance of.
pub open spec fn find_from(w: u16, i: int) -> Option<Insn>
    decreases table_spec().len() - i,
{
    if i < 0 || i >= table_spec().len() {
        None
    } else if table_spec()[i].fmt != Fmt::Pseudo && w & mask_spec(table_spec()[i].fmt)
        == table_spec()[i].base {
        Some(table_spec()[i])
    } else {
        find_from(w, i + 1)
    }
}

/// The instruction that opcode word `w` encodes. The pseudo aliases (`NOP`
/// == `JMP $+2`, `RT` == `B *R11`) are skipped: they share their encoding
/// with a real instruction, which decodes them.
pub open spec fn find_spec(w: u16) -> Option<Insn> {
    find_from(w, 0)
}

/// The size of a format's operand field block: the words that are
/// instances of an entry fill `[base, base + span)`.
pub open spec fn span(f: Fmt) -> int {
    match f {
        Fmt::Dual => 0x1000,
        Fmt::Jump | Fmt::CruBit | Fmt::Shift => 0x100,
        Fmt::Single => 0x40,
        Fmt::RegSrc | Fmt::CruMulti => 0x400,
        Fmt::ImmReg | Fmt::RegOnly => 0x10,
        Fmt::Imm => 0x20,
        Fmt::Pseudo | Fmt::Control => 1,
    }
}

proof fn lemma_mask_floor(w: u16, f: Fmt)
    ensures
        (w & mask_spec(f)) as int == (w as int) - (w as int) % span(f),
{
    match f {
        Fmt::Dual => {
            assert((w & 0xF000u16) as int == w - w % 0x1000) by (bit_vector);
        },
        Fmt::Jump | Fmt::CruBit | Fmt::Shift => {
            assert((w & 0xFF00u16) as int == w - w % 0x100) by (bit_vector);
        },
        Fmt::Single => {
            assert((w & 0xFFC0u16) as int == w - w % 0x40) by (bit_vector);
        },
        Fmt::RegSrc | Fmt::CruMulti => {
            assert((w & 0xFC00u16) as int == w - w % 0x400) by (bit_vector);
        },
        Fmt::ImmReg | Fmt::RegOnly => {
            assert((w & 0xFFF0u16) as int == w - w % 0x10) by (bit_vector);
        },
        Fmt::Imm => {
            assert((w & 0xFFE0u16) as int == w - w % 0x20) by (bit_vector);
        },
        Fmt::Pseudo | Fmt::Control => {
            assert((w & 0xFFFFu16) as int == w - w % 1) by (bit_vector);
        },
    }
}

proof fn lemma_masks_floor(w: u16)
    ensures
        forall|f: Fmt| (w & #[trigger] mask_spec(f)) as int == (w as int) - (w as int) % span(f),
{
    assert forall|f: Fmt| (w & #[trigger] mask_spec(f)) as int == (w as int) - (w as int) % span(f) by {
        lemma_mask_floor(w, f);
    }
}

/// The decoder and the encoder share one table without ambiguity: every word
/// that is an instance of a real (non-pseudo) table entry — its bits under
/// the format's mask equal the entry's `base` — decodes to exactly that
/// entry.
#[verifier::spinoff_prover]
#[verifier::rlimit(100)]
pub proof fn lemma_instance_decodes(k: int, w: u16)
    requires
        0 <= k < table_spec().len(),
        table_spec()[k].fmt != Fmt::Pseudo,
        w & mask_spec(table_spec()[k].fmt) == table_spec()[k].base,
    ensures
        find_spec(w) == Some(table_spec()[k]),
{
    lemma_masks_floor(w);
    reveal_with_fuel(find_from, 71);
}

proof fn lemma_bases_aligned(k: int)
    requires
        0 <= k < table_spec().len(),
    ensures
        (table_spec()[k].base as int) % span(table_spec()[k].fmt) == 0,
{
}

proof fn lemma_opcode_instance(e: Insn, ts: u16, s: u16, td: u16, d: u16, c: u16, b: u16)
    requires
        e.fmt != Fmt::Pseudo,
        e.base & mask_spec(e.fmt) == e.base,
        fields_fit(e, ts, s, td, d, c, b),
    ensures
        opcode_word(e, ts, s, td, d, c, b) & mask_spec(e.fmt) == e.base,
{
    let base = e.base;
    match e.fmt {
        Fmt::Dual => {
            assert(dual_word(base, ts, s, td, d) & 0xF000u16 == base) by (bit_vector)
                requires
                    base & 0xF000u16 == base,
                    ts < 4,
                    s < 16,
                    td < 4,
                    d < 16,
            ;
        },
        Fmt::Single => {
            assert(single_word(base, ts, s) & 0xFFC0u16 == base) by (bit_vector)
                requires
                    base & 0xFFC0u16 == base,
                    ts < 4,
                    s < 16,
            ;
        },
        Fmt::RegSrc | Fmt::CruMulti => {
            assert(field_word(base, c, ts, s) & 0xFC00u16 == base) by (bit_vector)
                requires
                    base & 0xFC00u16 == base,
                    c < 16,
                    ts < 4,
                    s < 16,
            ;
        },
        Fmt::Shift => {
            assert(shift_word(base, c, s) & 0xFF00u16 == base) by (bit_vector)
                requires
                    base & 0xFF00u16 == base,
                    c < 16,
                    s < 16,
            ;
        },
        Fmt::Jump | Fmt::CruBit => {
            assert(low_word(base, b) & 0xFF00u16 == base) by (bit_vector)
                requires
                    base & 0xFF00u16 == base,
                    b < 256,
            ;
        },
        Fmt::ImmReg | Fmt::RegOnly => {
            assert(low_word(base, b) & 0xFFF0u16 == base) by (bit_vector)
                requires
                    base & 0xFFF0u16 == base,
                    b < 16,
            ;
        },
        _ => {},
    }
}

/// What the encoder writes, the decoder reads back: the opcode word of any
/// real (non-pseudo) table entry, with operand fields that fit their widths,
/// decodes to that same entry.
pub proof fn lemma_encoded_word_decodes(k: int, ts: u16, s: u16, td: u16, d: u16, c: u16, b: u16)
    requires
        0 <= k < table_spec().len(),
        table_spec()[k].fmt != Fmt::Pseudo,
        fields_fit(table_spec()[k], ts, s, td, d, c, b),
    ensures
        find_spec(opcode_word(table_spec()[k], ts, s, td, d, c, b)) == Some(table_spec()[k]),
{
    let e = table_spec()[k];
    lemma_bases_aligned(k);
    lemma_mask_floor(e.base, e.fmt);
    lemma_opcode_instance(e, ts, s, td, d, c, b);
    lemma_instance_decodes(k, opcode_word(e, ts, s, td, d, c, b));
}

/// The table's shape: 71 entries, of which exactly the last two — `NOP`
/// (`>1000`, i.e. `JMP $+2`) and `RT` (`>045B`, i.e. `B *R11`) — are
/// pseudo-instructions, so the 69 real opcodes are entries `0..69`; and each
/// entry's base has no bit set in its operand fields.
pub proof fn lemma_table_shape(k: int)
    requires
        0 <= k < table_spec().len(),
    ensures
        table_spec().len() == 71,
        table_spec()[k].fmt == Fmt::Pseudo <==> (k == 69 || k == 70),
        table_spec()[69].base == 0x1000 && table_spec()[70].base == 0x045B,
        table_spec()[k].base & mask_spec(table_spec()[k].fmt) == table_spec()[k].base,
{
    lemma_bases_aligned(k);
    lemma_mask_floor(table_spec()[k].base, table_spec()[k].fmt);
}

/// Decoding is unambiguous: a word is an instance of at most one real
/// (non-pseudo) table entry.
#[verifier::spinoff_prover]
#[verifier::rlimit(100)]
pub proof fn lemma_decoding_unambiguous(k1: int, k2: int, w: u16)
    requires
        0 <= k1 < table_spec().len(),
        0 <= k2 < table_spec().len(),
        table_spec()[k1].fmt != Fmt::Pseudo,
        table_spec()[k2].fmt != Fmt::Pseudo,
        w & mask_spec(table_spec()[k1].fmt) == table_spec()[k1].base,
        w & mask_spec(table_spec()[k2].fmt) == table_spec()[k2].base,
    ensures
        k1 == k2,
{
    lemma_instance_decodes(k1, w);
    lemma_instance_decodes(k2, w);
    assert(table_spec()[k1].base == table_spec()[k2].base);
}

fn find(w: u16) -> (r: Option<Insn>)
    ensures
        r == find_spec(w),
{
    let t = table();
    let mut i: usize = 0;
    while i < t.len()
        invariant
            t@ == table_spec(),
            i <= t@.len(),
            find_spec(w) == find_from(w, i as int),
        decreases t@.len() - i,
    {
        let e = t[i];
        if e.fmt != Fmt::Pseudo && w & fmt_mask(e.fmt) == e.base {
            return Some(e);
        }
        i += 1;
    }
    None
}

/// The big-endian word at `img[off..off + 2]`, if it lies inside `img`.
pub open spec fn word_at(img: Seq<u8>, off: int) -> Option<u16> {
    if 0 <= off && off + 2 <= img.len() {
        Some((img[off] as int * 256 + img[off + 1] as int) as u16)
    } else {
        None
    }
}

fn read_word(img: &[u8], off: usize) -> (r: Option<u16>)
    ensures
        r == word_at(img@, off as int),
{
    if off <= img.len() && img.len() - off >= 2 {
        let hi = img[off];
        let lo = img[off + 1];
        let r = ((hi as u16) << 8) | lo as u16;
        assert(r == hi as u16 * 256 + lo as u16) by (bit_vector)
            requires
                r == ((hi as u16) << 8u16) | lo as u16,
        ;
        Some(r)
    } else {
        None
    }
}

/// A general operand `(T, reg)` with its extension word, rendered.
pub open spec fn general_text(t: u16, reg: u16, ext: u16) -> Seq<char> {
    if t == 0 {
        "R"@ + dec_nat(reg as nat)
    } else if t == 1 {
        "*R"@ + dec_nat(reg as nat)
    } else if t == 3 {
        "*R"@ + dec_nat(reg as nat) + "+"@
    } else if reg == 0 {
        "@>"@ + hex4(ext)
    } else {
        "@>"@ + hex4(ext) + "(R"@ + dec_nat(reg as nat) + ")"@
    }
}

/// Render a general operand `(T, reg)` with its optional extension word.
fn general(t: u16, reg: u16, ext: u16) -> (s: String)
    requires
        t < 4,
    ensures
        s@ == general_text(t, reg, ext),
{
    let mut s = String::new();
    if t == 0 {
        push_str(&mut s, "R");
        push_dec_u64(&mut s, reg as u64);
    } else if t == 1 {
        push_str(&mut s, "*R");
        push_dec_u64(&mut s, reg as u64);
    } else if t == 3 {
        push_str(&mut s, "*R");
        push_dec_u64(&mut s, reg as u64);
        push_str(&mut s, "+");
    } else if reg == 0 {
        push_str(&mut s, "@>");
        push_hex(&mut s, ext as u64, 4);
    } else {
        push_str(&mut s, "@>");
        push_hex(&mut s, ext as u64, 4);
        push_str(&mut s, "(R");
        push_dec_u64(&mut s, reg as u64);
        push_str(&mut s, ")");
    }
    assert(s@ =~= general_text(t, reg, ext));
    s
}

/// `R<n>`.
pub open spec fn reg_text(n: u16) -> Seq<char> {
    "R"@ + dec_nat(n as nat)
}

/// `>XXXX`.
pub open spec fn imm_text(v: u16) -> Seq<char> {
    ">"@ + hex4(v)
}

/// The signed value of the low byte of `w`.
pub open spec fn low_byte_signed(w: u16) -> int {
    let b = (w & 0xFF) as int;
    if b >= 128 {
        b - 256
    } else {
        b
    }
}

/// The target of a jump at `addr` whose displacement is the low byte of `w`:
/// `addr + 2 + 2 * disp`, modulo 64 KiB.
pub open spec fn jump_target(addr: u16, w: u16) -> u16 {
    ((addr as int + 2 + 2 * low_byte_signed(w)) % 0x10000) as u16
}

/// An extension word read after `len` bytes of the instruction at `off`,
/// when the source/destination mode `t` is symbolic (2); 0 otherwise.
pub open spec fn ext_for(img: Seq<u8>, off: int, len: int, t: u16) -> Result<(u16, int), DecodeError> {
    if t == 2 {
        match word_at(img, off + len) {
            Some(e) => Ok((e, len + 2)),
            None => Err(DecodeError::Truncated),
        }
    } else {
        Ok((0, len))
    }
}

/// The mandatory extension word after `len` bytes.
pub open spec fn ext_always(img: Seq<u8>, off: int, len: int) -> Result<(u16, int), DecodeError> {
    match word_at(img, off + len) {
        Some(e) => Ok((e, len + 2)),
        None => Err(DecodeError::Truncated),
    }
}

/// The operands and length of instruction `insn` encoded by `w` at `off`.
pub open spec fn operands_spec(img: Seq<u8>, off: int, addr: u16, w: u16, insn: Insn) -> Result<
    (Seq<Seq<char>>, int),
    DecodeError,
> {
    let ts = (w >> 4u16) & 3;
    let s = w & 0xF;
    match insn.fmt {
        Fmt::Dual => {
            let td = (w >> 10u16) & 3;
            let d = (w >> 6u16) & 0xF;
            match ext_for(img, off, 2, ts) {
                Err(e) => Err(e),
                Ok((sext, l1)) => match ext_for(img, off, l1, td) {
                    Err(e) => Err(e),
                    Ok((dext, l2)) => Ok(
                        (seq![general_text(ts, s, sext), general_text(td, d, dext)], l2),
                    ),
                },
            }
        },
        Fmt::Single => match ext_for(img, off, 2, ts) {
            Err(e) => Err(e),
            Ok((ext, l)) => Ok((seq![general_text(ts, s, ext)], l)),
        },
        Fmt::Jump => Ok((seq![imm_text(jump_target(addr, w))], 2)),
        Fmt::CruBit => Ok((seq![dec_int(low_byte_signed(w))], 2)),
        Fmt::Shift => Ok((seq![reg_text(s), dec_nat(((w >> 4u16) & 0xF) as nat)], 2)),
        Fmt::RegSrc => {
            let field = (w >> 6u16) & 0xF;
            match ext_for(img, off, 2, ts) {
                Err(e) => Err(e),
                Ok((ext, l)) => Ok(
                    (
                        seq![
                            general_text(ts, s, ext),
                            if insn.name@ == "XOP"@ {
                                dec_nat(field as nat)
                            } else {
                                reg_text(field)
                            },
                        ],
                        l,
                    ),
                ),
            }
        },
        Fmt::CruMulti => {
            let count = (w >> 6u16) & 0xF;
            match ext_for(img, off, 2, ts) {
                Err(e) => Err(e),
                Ok((ext, l)) => Ok((seq![general_text(ts, s, ext), dec_nat(count as nat)], l)),
            }
        },
        Fmt::ImmReg => match ext_always(img, off, 2) {
            Err(e) => Err(e),
            Ok((imm, l)) => Ok((seq![reg_text(s), imm_text(imm)], l)),
        },
        Fmt::Imm => match ext_always(img, off, 2) {
            Err(e) => Err(e),
            Ok((imm, l)) => Ok((seq![imm_text(imm)], l)),
        },
        Fmt::RegOnly => Ok((seq![reg_text(s)], 2)),
        Fmt::Control | Fmt::Pseudo => Ok((seq![], 2)),
    }
}

/// The instruction at byte offset `off` of `img`, whose runtime address is
/// `addr`: its mnemonic, rendered operands and length.
pub open spec fn decode_spec(img: Seq<u8>, off: int, addr: u16) -> Result<DecodedView, DecodeError> {
    match word_at(img, off) {
        None => Err(DecodeError::Truncated),
        Some(w) => match find_spec(w) {
            None => Err(DecodeError::Unknown(w)),
            Some(insn) => match operands_spec(img, off, addr, w, insn) {
                Err(e) => Err(e),
                Ok((ops, len)) => Ok(
                    DecodedView { mnemonic: insn.name@, operands: ops, len: len as nat },
                ),
            },
        },
    }
}

fn take_ext(img: &[u8], off: usize, len: usize, t: u16) -> (r: Result<(u16, usize), DecodeError>)
    requires
        len <= 6,
    ensures
        match r {
            Ok((e, l)) => ext_for(img@, off as int, len as int, t) == Ok::<(u16, int), DecodeError>(
                (e, l as int),
            ),
            Err(d) => ext_for(img@, off as int, len as int, t) == Err::<(u16, int), DecodeError>(
                d,
            ),
        },
{
    if t == 2 {
        take_word(img, off, len)
    } else {
        Ok((0, len))
    }
}

fn take_word(img: &[u8], off: usize, len: usize) -> (r: Result<(u16, usize), DecodeError>)
    requires
        len <= 6,
    ensures
        match r {
            Ok((e, l)) => ext_always(img@, off as int, len as int) == Ok::<(u16, int), DecodeError>(
                (e, l as int),
            ),
            Err(d) => ext_always(img@, off as int, len as int) == Err::<(u16, int), DecodeError>(
                d,
            ),
        },
{
    if off > img.len() || img.len() - off < len {
        return Err(DecodeError::Truncated);
    }
    match read_word(img, off + len) {
        Some(e) => Ok((e, len + 2)),
        None => Err(DecodeError::Truncated),
    }
}

/// Decode the instruction at byte offset `off`; `addr` is that byte's runtime
/// address (used to resolve jump targets).
pub fn decode_at(img: &[u8], off: usize, addr: u16) -> (r: Result<Decoded, DecodeError>)
    ensures
        match r {
            Ok(d) => decode_spec(img@, off as int, addr) == Ok::<DecodedView, DecodeError>(d@),
            Err(e) => decode_spec(img@, off as int, addr) == Err::<DecodedView, DecodeError>(e),
        },
        r matches Ok(d) ==> 2 <= d.len <= 6 && off + d.len <= img@.len(),
{
    let w = match read_word(img, off) {
        Some(w) => w,
        None => return Err(DecodeError::Truncated),
    };
    let insn = match find(w) {
        Some(i) => i,
        None => return Err(DecodeError::Unknown(w)),
    };
    let ts = (w >> 4) & 3;
    let s = w & 0xF;
    assert(ts < 4) by (bit_vector)
        requires
            ts == (w >> 4u16) & 3,
    ;
    let mut ops: Vec<String> = Vec::new();
    let len: usize;
    match insn.fmt {
        Fmt::Dual => {
            let td = (w >> 10) & 3;
            let d = (w >> 6) & 0xF;
            assert(td < 4) by (bit_vector)
                requires
                    td == (w >> 10u16) & 3,
            ;
            let (sext, l1) = take_ext(img, off, 2, ts)?;
            let (dext, l2) = take_ext(img, off, l1, td)?;
            ops.push(general(ts, s, sext));
            ops.push(general(td, d, dext));
            len = l2;
        },
        Fmt::Single => {
            let (ext, l) = take_ext(img, off, 2, ts)?;
            ops.push(general(ts, s, ext));
            len = l;
        },
        Fmt::Jump => {
            let b = w & 0xFF;
            assert(b <= 255) by (bit_vector)
                requires
                    b == w & 0xFF,
            ;
            let sd: i64 = if b >= 128 {
                b as i64 - 256
            } else {
                b as i64
            };
            let x: i64 = addr as i64 + 2 + 2 * sd;
            let t: i64 = if x < 0 {
                x + 0x10000
            } else if x >= 0x10000 {
                x - 0x10000
            } else {
                x
            };
            let mut o = owned(">");
            push_hex(&mut o, t as u64, 4);
            proof {
                assert(t == (addr as int + 2 + 2 * low_byte_signed(w)) % 0x10000);
                assert(o@ =~= imm_text(jump_target(addr, w)));
            }
            ops.push(o);
            len = 2;
        },
        Fmt::CruBit => {
            let b = w & 0xFF;
            let sd: i64 = if b >= 128 {
                b as i64 - 256
            } else {
                b as i64
            };
            let mut o = String::new();
            push_dec_i64(&mut o, sd);
            assert(o@ =~= dec_int(low_byte_signed(w)));
            ops.push(o);
            len = 2;
        },
        Fmt::Shift => {
            let count = (w >> 4) & 0xF;
            let mut r = owned("R");
            push_dec_u64(&mut r, s as u64);
            let mut c = String::new();
            push_dec_u64(&mut c, count as u64);
            proof {
                assert(r@ =~= reg_text(s));
                assert(c@ =~= dec_nat(((w >> 4u16) & 0xF) as nat));
            }
            ops.push(r);
            ops.push(c);
            len = 2;
        },
        Fmt::RegSrc => {
            let field = (w >> 6) & 0xF;
            let (ext, l) = take_ext(img, off, 2, ts)?;
            ops.push(general(ts, s, ext));
            let mut second = String::new();
            if str_eq(insn.name, "XOP") {
                push_dec_u64(&mut second, field as u64);
                assert(second@ =~= dec_nat(field as nat));
            } else {
                push_str(&mut second, "R");
                push_dec_u64(&mut second, field as u64);
                assert(second@ =~= reg_text(field));
            }
            ops.push(second);
            len = l;
        },
        Fmt::CruMulti => {
            let count = (w >> 6) & 0xF;
            let (ext, l) = take_ext(img, off, 2, ts)?;
            ops.push(general(ts, s, ext));
            let mut c = String::new();
            push_dec_u64(&mut c, count as u64);
            assert(c@ =~= dec_nat(count as nat));
            ops.push(c);
            len = l;
        },
        Fmt::ImmReg => {
            let (imm, l) = take_word(img, off, 2)?;
            let mut r = owned("R");
            push_dec_u64(&mut r, s as u64);
            let mut i = owned(">");
            push_hex(&mut i, imm as u64, 4);
            proof {
                assert(r@ =~= reg_text(s));
                assert(i@ =~= imm_text(imm));
            }
            ops.push(r);
            ops.push(i);
            len = l;
        },
        Fmt::Imm => {
            let (imm, l) = take_word(img, off, 2)?;
            let mut i = owned(">");
            push_hex(&mut i, imm as u64, 4);
            assert(i@ =~= imm_text(imm));
            ops.push(i);
            len = l;
        },
        Fmt::RegOnly => {
            let mut r = owned("R");
            push_dec_u64(&mut r, s as u64);
            assert(r@ =~= reg_text(s));
            ops.push(r);
            len = 2;
        },
        Fmt::Control | Fmt::Pseudo => {
            len = 2;
        },
    }
    let d = Decoded { mnemonic: insn.name, operands: ops, len };
    proof {
        let spec = operands_spec(img@, off as int, addr, w, insn);
        assert(spec matches Ok((o, l)) && o =~= d.operands.deep_view() && l == len);
    }
    Ok(d)
}


/// `s` padded with spaces to at least six characters (`{:<6}`).
pub open spec fn pad6(s: Seq<char>) -> Seq<char> {
    if s.len() >= 6 {
        s
    } else {
        s + Seq::new((6 - s.len()) as nat, |i: int| ' ')
    }
}

/// The operands joined by commas, no spaces.
pub open spec fn join_commas(ops: Seq<Seq<char>>) -> Seq<char>
    decreases ops.len(),
{
    if ops.len() == 0 {
        seq![]
    } else if ops.len() == 1 {
        ops[0]
    } else {
        join_commas(ops.drop_last()) + ","@ + ops.last()
    }
}

/// One listing line: `>ADDR  MNEMON OPS`.
pub open spec fn listing_line(a: u16, d: DecodedView) -> Seq<char> {
    ">"@ + hex4(a) + "  "@ + pad6(d.mnemonic) + " "@ + join_commas(d.operands) + "\n"@
}

/// The line for an opcode word that decodes to no instruction.
pub open spec fn unknown_line(a: u16, op: u16) -> Seq<char> {
    ">"@ + hex4(a) + "  DATA   >"@ + hex4(op) + "   ; unknown opcode\n"@
}

/// The listing and byte count of up to `n` instructions from `off` (runtime
/// address `addr`), stopping at an unknown opcode (listed as `DATA`) or at
/// the end of `img`.
pub open spec fn linear_spec(img: Seq<u8>, off: int, addr: u16, n: nat) -> (Seq<char>, nat)
    decreases n,
{
    if n == 0 {
        (seq![], 0)
    } else {
        match decode_spec(img, off, addr) {
            Ok(d) => {
                let rest = linear_spec(
                    img,
                    off + d.len,
                    ((addr as int + d.len) % 0x10000) as u16,
                    (n - 1) as nat,
                );
                (listing_line(addr, d) + rest.0, d.len + rest.1)
            },
            Err(DecodeError::Unknown(op)) => (unknown_line(addr, op), 0),
            Err(DecodeError::Truncated) => (seq![], 0),
        }
    }
}

fn push_padded(out: &mut String, s: &str)
    ensures
        final(out)@ == old(out)@ + pad6(s@),
{
    let v = crate::strings::chars_of(s);
    push_chars(out, &v);
    let mut k = v.len();
    let ghost base = old(out)@ + s@;
    while k < 6
        invariant
            v@ == s@,
            v@.len() <= k,
            v@.len() < 6 ==> k <= 6,
            v@.len() >= 6 ==> k == v@.len(),
            out@ == base + Seq::new((k - v@.len()) as nat, |i: int| ' '),
        decreases 6 - k,
    {
        out.push(' ');
        k += 1;
        assert(out@ =~= base + Seq::new((k - v@.len()) as nat, |i: int| ' '));
    }
    proof {
        if s@.len() >= 6 {
            assert(Seq::new((k - v@.len()) as nat, |i: int| ' ') =~= Seq::<char>::empty());
        }
        assert(out@ =~= old(out)@ + pad6(s@));
    }
}

fn push_joined(out: &mut String, ops: &Vec<String>)
    ensures
        final(out)@ == old(out)@ + join_commas(ops.deep_view()),
{
    let ghost dv = ops.deep_view();
    let mut i: usize = 0;
    while i < ops.len()
        invariant
            dv == ops.deep_view(),
            i <= ops@.len(),
            out@ == old(out)@ + join_commas(dv.take(i as int)),
        decreases ops@.len() - i,
    {
        if i > 0 {
            push_str(out, ",");
        }
        push_str(out, ops[i].as_str());
        i += 1;
        proof {
            let t = dv.take(i as int);
            assert(t.drop_last() =~= dv.take(i - 1));
            if i == 1 {
                assert(join_commas(dv.take(0)) =~= Seq::<char>::empty());
            }
            assert(out@ =~= old(out)@ + join_commas(t));
        }
    }
    assert(dv.take(i as int) =~= dv);
}

fn push_line(out: &mut String, a: u16, d: &Decoded)
    ensures
        final(out)@ == old(out)@ + listing_line(a, d@),
{
    push_str(out, ">");
    push_hex(out, a as u64, 4);
    push_str(out, "  ");
    push_padded(out, d.mnemonic);
    push_str(out, " ");
    push_joined(out, &d.operands);
    push_str(out, "\n");
    assert(final(out)@ =~= old(out)@ + listing_line(a, d@));
}

fn push_unknown(out: &mut String, a: u16, op: u16)
    ensures
        final(out)@ == old(out)@ + unknown_line(a, op),
{
    push_str(out, ">");
    push_hex(out, a as u64, 4);
    push_str(out, "  DATA   >");
    push_hex(out, op as u64, 4);
    push_str(out, "   ; unknown opcode\n");
    assert(final(out)@ =~= old(out)@ + unknown_line(a, op));
}

fn next_addr(a: u16, len: usize) -> (r: u16)
    requires
        len <= 6,
    ensures
        r == ((a as int + len) % 0x10000) as u16,
{
    ((a as u32 + len as u32) % 0x10000) as u16
}

/// Disassemble sequentially from `off` (runtime address `addr`) for up to `max`
/// instructions, stopping at an unknown opcode or the end of `img`. Returns the
/// listing plus the number of bytes tiled.
pub fn linear(img: &[u8], off: usize, addr: u16, max: usize) -> (r: (String, usize))
    ensures
        (r.0@, r.1 as nat) == linear_spec(img@, off as int, addr, max as nat),
{
    let n = img.len();
    let mut out = String::new();
    let mut o = off;
    let mut a = addr;
    let mut tiled: usize = 0;
    let mut k: usize = 0;
    while k < max
        invariant
            k <= max,
            n == img@.len(),
            tiled <= o,
            linear_spec(img@, off as int, addr, max as nat) == (
                out@ + linear_spec(img@, o as int, a, (max - k) as nat).0,
                (tiled + linear_spec(img@, o as int, a, (max - k) as nat).1) as nat,
            ),
        decreases max - k,
    {
        match decode_at(img, o, a) {
            Ok(d) => {
                let ghost old_out = out@;
                push_line(&mut out, a, &d);
                o = o + d.len;
                a = next_addr(a, d.len);
                tiled = tiled + d.len;
                k += 1;
            },
            Err(DecodeError::Unknown(op)) => {
                push_unknown(&mut out, a, op);
                return (out, tiled);
            },
            Err(DecodeError::Truncated) => {
                assert(out@ + Seq::<char>::empty() =~= out@);
                return (out, tiled);
            },
        }
    }
    assert(out@ + Seq::<char>::empty() =~= out@);
    (out, tiled)
}


// ---- reading the listing back -------------------------------------------------

/// The bytes of an ASCII string: one byte per character.
pub open spec fn ascii_bytes(s: Seq<char>) -> Seq<u8> {
    s.map_values(|c: char| (c as u32) as u8)
}

/// Every character is ASCII.
pub open spec fn is_ascii_text(s: Seq<char>) -> bool {
    forall|i: int| 0 <= i < s.len() ==> (#[trigger] s[i] as u32) < 128
}

proof fn lemma_encode_ascii(s: Seq<char>)
    requires
        is_ascii_text(s),
    ensures
        encode_utf8(s) == ascii_bytes(s),
    decreases s.len(),
{
    if s.len() > 0 {
        assert(is_ascii_text(s.drop_first())) by {
            assert forall|i: int| 0 <= i < s.drop_first().len() implies (#[trigger] s.drop_first()[i] as u32) < 128 by {
                assert(s.drop_first()[i] == s[i + 1]);
            }
        }
        lemma_encode_ascii(s.drop_first());
        let v = s[0] as u32;
        assert(v < 128);
        assert((v & 0x7F) == v) by (bit_vector)
            requires
                v < 128,
        ;
        assert(v as u8 == (s[0] as u32) as u8);
        assert(encode_utf8(s) == seq![(v & 0x7F) as u8] + encode_utf8(s.drop_first()));
        assert(ascii_bytes(s) =~= seq![(s[0] as u32) as u8] + ascii_bytes(s.drop_first()));
    }
}

proof fn lemma_dec_digits(n: nat)
    ensures
        dec_nat(n).len() >= 1,
        forall|i: int| 0 <= i < dec_nat(n).len() ==> '0' <= #[trigger] dec_nat(n)[i] <= '9',
    decreases n,
{
    if n >= 10 {
        lemma_dec_digits(n / 10);
    }
}

proof fn lemma_ident_run(b: Seq<u8>, i: int)
    requires
        0 <= i <= b.len(),
        forall|j: int| i <= j < b.len() ==> is_ident(#[trigger] b[j]),
    ensures
        ident_end(b, i) == b.len(),
    decreases b.len() - i,
{
    if i < b.len() {
        lemma_ident_run(b, i + 1);
    }
}

/// The text `R<n>` evaluates to whatever the symbols bind that name to.
proof fn lemma_reg_text_evaluates(n: nat, syms: Map<Seq<char>, i64>, lc: u16)
    requires
        syms.contains_key("R"@ + dec_nat(n)),
    ensures
        eval_spec(encode_utf8("R"@ + dec_nat(n)), syms, lc) == Ok::<i64, Seq<char>>(syms["R"@ + dec_nat(n)]),
{
    reveal_strlit("R");
    let s = "R"@ + dec_nat(n);
    lemma_dec_digits(n);
    assert(s[0] == 'R');
    assert forall|i: int| 0 <= i < s.len() implies (#[trigger] s[i] as u32) < 128 by {
        if i > 0 {
            assert(s[i] == dec_nat(n)[i - 1]);
        }
    }
    lemma_encode_ascii(s);
    let b = ascii_bytes(s);
    assert forall|j: int| 0 <= j < b.len() implies is_ident(#[trigger] b[j]) by {
        if j > 0 {
            assert(s[j] == dec_nat(n)[j - 1]);
        }
    }
    lemma_ident_run(b, 0);
    assert(b.subrange(0, b.len() as int).map_values(|x: u8| x as char) =~= s);
    assert(tokenize_from(b, b.len() as int) == Ok::<Seq<Token>, Seq<char>>(seq![]));
    assert(tokenize_from(b, 0) == Ok::<Seq<Token>, Seq<char>>(seq![Token::Sym(s)]));
}

/// `16^w`.
pub open spec fn pow16(w: nat) -> nat
    decreases w,
{
    if w == 0 {
        1
    } else {
        16 * pow16((w - 1) as nat)
    }
}

proof fn lemma_pow16_pos(w: nat)
    ensures
        pow16(w) > 0,
    decreases w,
{
    if w > 0 {
        lemma_pow16_pos((w - 1) as nat);
    }
}

proof fn lemma_hex_fixed(n: nat, w: nat)
    ensures
        hex_fixed(n, w).len() == w,
        forall|i: int| 0 <= i < w ==> is_hex((#[trigger] hex_fixed(n, w)[i] as u32) as u8)
            && (hex_fixed(n, w)[i] as u32) < 128,
        hex_value(ascii_bytes(hex_fixed(n, w))) == n % pow16(w),
    decreases w,
{
    if w > 0 {
        let w1 = (w - 1) as nat;
        lemma_hex_fixed(n / 16, w1);
        let h = hex_fixed(n / 16, w1);
        let d = n % 16;
        let c = hex_char(d);
        assert(hex_fixed(n, w) == h.push(c));
        assert((c as u32) < 128);
        assert(hex_val((c as u32) as u8) == d);
        assert(ascii_bytes(h.push(c)).drop_last() =~= ascii_bytes(h));
        assert(ascii_bytes(h.push(c)).last() == (c as u32) as u8);
        assert(pow16(w) == 16 * pow16(w1));
        lemma_pow16_pos(w1);
        vstd::arithmetic::div_mod::lemma_mod_breakdown(n as int, 16, pow16(w1) as int);
        assert forall|i: int| 0 <= i < w implies is_hex((#[trigger] hex_fixed(n, w)[i] as u32) as u8)
            && (hex_fixed(n, w)[i] as u32) < 128 by {
            if i < w1 {
                assert(hex_fixed(n, w)[i] == h[i]);
            }
        }
    }
}

proof fn lemma_hex_run(b: Seq<u8>, i: int, e: int)
    requires
        0 <= i <= e <= b.len(),
        forall|j: int| i <= j < e ==> is_hex(#[trigger] b[j]),
        e == b.len() || !is_hex(b[e]),
    ensures
        hex_end(b, i) == e,
    decreases e - i,
{
    if i < e {
        lemma_hex_run(b, i + 1, e);
    }
}

/// The text `>XXXX` evaluates to the 16-bit value it spells.
proof fn lemma_imm_text_evaluates(x: u16, syms: Map<Seq<char>, i64>, lc: u16)
    ensures
        eval_spec(encode_utf8(imm_text(x)), syms, lc) == Ok::<i64, Seq<char>>(x as i64),
{
    reveal_strlit(">");
    let h = hex4(x);
    lemma_hex_fixed(x as nat, 4);
    let s = imm_text(x);
    assert(s == seq!['>'] + h);
    assert forall|i: int| 0 <= i < s.len() implies (#[trigger] s[i] as u32) < 128 by {
        if i > 0 {
            assert(s[i] == h[i - 1]);
        }
    }
    lemma_encode_ascii(s);
    let b = ascii_bytes(s);
    assert(b.len() == 5);
    assert(b[0] == 62);
    assert forall|j: int| 1 <= j < 5 implies is_hex(#[trigger] b[j]) by {
        assert(s[j] == h[j - 1]);
    }
    lemma_hex_run(b, 1, 5);
    assert(b.subrange(1, 5) =~= ascii_bytes(h));
    assert(pow16(4) == 65536) by {
        reveal_with_fuel(pow16, 5);
    }
    assert(hex_value(b.subrange(1, 5)) == x as nat);
    assert(tokenize_from(b, 5) == Ok::<Seq<Token>, Seq<char>>(seq![]));
    assert(tokenize_from(b, 0) == Ok::<Seq<Token>, Seq<char>>(seq![Token::Num(x as i64)]));
}

/// The predefined workspace registers `R0`..`R15` stand for their numbers.
pub open spec fn registers_predefined(syms: Map<Seq<char>, i64>) -> bool {
    forall|k: nat| k < 16 ==> #[trigger] syms.contains_key(reg_name(k)) && syms[reg_name(k)] == k as i64
}

proof fn lemma_reg_text_reads_back(st: AsmState, r: u16)
    requires
        r < 16,
        registers_predefined(st.syms),
    ensures
        reg_value(st, reg_text(r)) == Ok::<u16, Seq<char>>(r),
{
    assert(st.syms.contains_key(reg_name(r as nat)));
    lemma_reg_text_evaluates(r as nat, st.syms, st.lc);
}

proof fn lemma_first_index_after(a: Seq<char>, b: Seq<char>, c: char)
    requires
        forall|i: int| 0 <= i < a.len() ==> #[trigger] a[i] != c,
        b.len() > 0,
        b[0] == c,
    ensures
        first_index(a + b, c) == a.len(),
    decreases a.len(),
{
    if a.len() > 0 {
        assert((a + b).drop_first() =~= a.drop_first() + b);
        assert forall|i: int| 0 <= i < a.drop_first().len() implies #[trigger] a.drop_first()[i] != c by {
            assert(a.drop_first()[i] == a[i + 1]);
        }
        lemma_first_index_after(a.drop_first(), b, c);
    } else {
        assert(a + b =~= b);
    }
}

/// The last character of `R<n>` is a digit.
proof fn lemma_reg_text_ends_in_digit(r: u16)
    ensures
        reg_text(r).len() >= 2,
        '0' <= reg_text(r).last() <= '9',
        forall|i: int| 0 <= i < reg_text(r).len() ==> #[trigger] reg_text(r)[i] != '(',
{
    reveal_strlit("R");
    lemma_dec_digits(r as nat);
    let d = dec_nat(r as nat);
    assert(reg_text(r).last() == d.last());
    assert forall|i: int| 0 <= i < reg_text(r).len() implies #[trigger] reg_text(r)[i] != '(' by {
        if i > 0 {
            assert(reg_text(r)[i] == d[i - 1]);
        }
    }
}

proof fn lemma_general_reg_modes(st: AsmState, t: u16, r: u16, x: u16)
    requires
        st.emit,
        t == 0 || t == 1 || t == 3,
        r < 16,
        registers_predefined(st.syms),
    ensures
        general_spec(st, general_text(t, r, x)) == Ok::<(u16, u16, Option<u16>), Seq<char>>((t, r, None)),
{
    reveal_strlit("R");
    reveal_strlit("*R");
    reveal_strlit("+");
    lemma_reg_text_reads_back(st, r);
    lemma_reg_text_ends_in_digit(r);
    let rt = reg_text(r);
    let op = general_text(t, r, x);
    if t == 0 {
        assert(op == rt);
        assert(op[0] == 'R');
    } else if t == 1 {
        assert(op[0] == '*');
        assert(op.drop_first() =~= rt);
    } else {
        assert(op[0] == '*');
        assert(op.drop_first() =~= rt + "+"@);
        assert((rt + "+"@).drop_last() =~= rt);
    }
}

proof fn lemma_imm_has_no_paren(x: u16)
    ensures
        imm_text(x).len() == 5,
        imm_text(x)[0] == '>',
        forall|i: int| 0 <= i < imm_text(x).len() ==> #[trigger] imm_text(x)[i] != '(',
{
    reveal_strlit(">");
    lemma_hex_fixed(x as nat, 4);
    let imm = imm_text(x);
    assert forall|i: int| 0 <= i < imm.len() implies #[trigger] imm[i] != '(' by {
        if i > 0 {
            assert(imm[i] == hex4(x)[i - 1]);
        }
    }
}

proof fn lemma_general_symbolic(st: AsmState, x: u16)
    requires
        st.emit,
    ensures
        general_spec(st, general_text(2, 0, x)) == Ok::<(u16, u16, Option<u16>), Seq<char>>((2, 0, Some(x))),
{
    reveal_strlit("@>");
    reveal_strlit(">");
    let imm = imm_text(x);
    lemma_imm_text_evaluates(x, st.syms, st.lc);
    lemma_imm_has_no_paren(x);
    let op = general_text(2, 0, x);
    assert(op[0] == '@');
    assert(op.drop_first() =~= imm);
    assert(!imm.contains('('));
}

proof fn lemma_general_indexed(st: AsmState, r: u16, x: u16)
    requires
        st.emit,
        0 < r < 16,
        registers_predefined(st.syms),
    ensures
        general_spec(st, general_text(2, r, x)) == Ok::<(u16, u16, Option<u16>), Seq<char>>((2, r, Some(x))),
{
    reveal_strlit("@>");
    reveal_strlit("(R");
    reveal_strlit(")");
    reveal_strlit("R");
    reveal_strlit(">");
    let imm = imm_text(x);
    let rt = reg_text(r);
    lemma_imm_text_evaluates(x, st.syms, st.lc);
    lemma_imm_has_no_paren(x);
    lemma_reg_text_reads_back(st, r);
    let op = general_text(2, r, x);
    let tail = "(R"@ + dec_nat(r as nat) + ")"@;
    assert(op[0] == '@');
    let rest = op.drop_first();
    assert(op == "@>"@ + hex4(x) + "(R"@ + dec_nat(r as nat) + ")"@);
    assert(rest =~= imm + tail);
    lemma_first_index_after(imm, tail, '(');
    assert(rest[5] == '(');
    assert(rest.contains('('));
    assert(rest.last() == ')');
    assert(rest.take(5) =~= imm);
    assert(rest.subrange(6, rest.len() - 1) =~= rt);
}

/// A general operand written the way the disassembler writes it reads back,
/// in pass 2, as the same addressing mode, register and extension word —
/// as long as the predefined registers `R0`..`R15` keep their numbers.
pub proof fn lemma_general_text_reads_back(st: AsmState, t: u16, r: u16, x: u16)
    requires
        st.emit,
        t < 4,
        r < 16,
        registers_predefined(st.syms),
    ensures
        general_spec(st, general_text(t, r, x)) == Ok::<(u16, u16, Option<u16>), Seq<char>>(
            (t, r, if t == 2 { Some(x) } else { None }),
        ),
{
    if t == 2 {
        if r == 0 {
            lemma_general_symbolic(st, x);
        } else {
            lemma_general_indexed(st, r, x);
        }
    } else {
        lemma_general_reg_modes(st, t, r, x);
    }
}

proof fn lemma_dec_value(n: nat)
    ensures
        dec_value(ascii_bytes(dec_nat(n))) == n,
        forall|i: int| 0 <= i < dec_nat(n).len() ==> is_digit((#[trigger] dec_nat(n)[i] as u32) as u8)
            && (dec_nat(n)[i] as u32) < 128,
    decreases n,
{
    lemma_dec_digits(n);
    if n >= 10 {
        lemma_dec_value(n / 10);
        let h = dec_nat(n / 10);
        let c = crate::strings::digit_char(n % 10);
        assert(dec_nat(n) == h.push(c));
        assert(ascii_bytes(h.push(c)).drop_last() =~= ascii_bytes(h));
        assert(ascii_bytes(h.push(c)).last() == (c as u32) as u8);
        assert((n / 10) * 10 + n % 10 == n);
        assert((c as u32) == 48 + n % 10);
        let b = ascii_bytes(h.push(c));
        assert(dec_value(b) == dec_value(b.drop_last()) * 10 + (b.last() - 48) as nat);
        assert(dec_value(b) == n);
    } else {
        let c = crate::strings::digit_char(n);
        assert(dec_nat(n) == seq![c]);
        assert(ascii_bytes(seq![c]).drop_last() =~= Seq::<u8>::empty());
        assert(ascii_bytes(seq![c]).last() == (c as u32) as u8);
        assert((c as u32) == 48 + n);
        let b = ascii_bytes(seq![c]);
        assert(dec_value(b) == dec_value(b.drop_last()) * 10 + (b.last() - 48) as nat);
        assert(dec_value(b.drop_last()) == 0);
        assert(dec_value(b) == n);
    }
}

/// The text of a decimal numeral `n` (below 2^63) evaluates to `n`.
proof fn lemma_dec_text_evaluates(n: nat, syms: Map<Seq<char>, i64>, lc: u16)
    requires
        n <= i64::MAX,
    ensures
        eval_spec(encode_utf8(dec_nat(n)), syms, lc) == Ok::<i64, Seq<char>>(n as i64),
{
    lemma_dec_value(n);
    lemma_dec_digits(n);
    let s = dec_nat(n);
    lemma_encode_ascii(s);
    let b = ascii_bytes(s);
    assert forall|j: int| 0 <= j < b.len() implies is_digit(#[trigger] b[j]) by {
        assert(is_digit((s[j] as u32) as u8));
    }
    lemma_digits_run(b, 0);
    assert(b.subrange(0, b.len() as int) =~= b);
    assert(tokenize_from(b, b.len() as int) == Ok::<Seq<Token>, Seq<char>>(seq![]));
    assert(tokenize_from(b, 0) == Ok::<Seq<Token>, Seq<char>>(seq![Token::Num(n as i64)]));
}

proof fn lemma_find_from_matches(w: u16, i: int)
    ensures
        find_from(w, i) matches Some(e) ==> e.fmt != Fmt::Pseudo && w & mask_spec(e.fmt) == e.base,
    decreases table_spec().len() - i,
{
    if 0 <= i < table_spec().len() {
        lemma_find_from_matches(w, i + 1);
    }
}

/// The first `n` words of `img` from byte offset `off`, written in order.
pub open spec fn push_image_words(st: AsmState, img: Seq<u8>, off: int, n: nat) -> AsmState
    decreases n,
{
    if n == 0 {
        st
    } else {
        push_word(
            push_image_words(st, img, off, (n - 1) as nat),
            match word_at(img, off + 2 * (n - 1)) {
                Some(x) => x,
                None => 0,
            },
        )
    }
}

/// The extension word a general operand of mode `t` carries: `e` when the
/// mode is symbolic (2), none otherwise.
pub open spec fn ext_opt(t: u16, e: u16) -> Option<u16> {
    if t == 2 {
        Some(e)
    } else {
        None
    }
}

proof fn lemma_ext_step(st: AsmState, img: Seq<u8>, off: int, k: nat, t: u16, e: u16, l: int)
    requires
        ext_for(img, off, (2 * k) as int, t) == Ok::<(u16, int), DecodeError>((e, l)),
    ensures
        push_ext(push_image_words(st, img, off, k), ext_opt(t, e)) == push_image_words(st, img, off, (l / 2) as nat),
        l == 2 * k || l == 2 * k + 2,
{
    if t == 2 {
        assert(l / 2 == k + 1);
        assert(push_image_words(st, img, off, k + 1) == push_word(push_image_words(st, img, off, k), e));
    } else {
        assert(l / 2 == k);
    }
}

proof fn lemma_first_word(st: AsmState, img: Seq<u8>, off: int, w: u16)
    requires
        word_at(img, off) == Some(w),
    ensures
        push_image_words(st, img, off, 1) == push_word(st, w),
{
    assert(push_image_words(st, img, off, 0) == st);
}

#[verifier::spinoff_prover]
#[verifier::rlimit(50)]
proof fn lemma_reassemble_dual(st: AsmState, img: Seq<u8>, off: int, addr: u16, w: u16, insn: Insn)
    requires
        st.emit,
        registers_predefined(st.syms),
        word_at(img, off) == Some(w),
        insn.fmt == Fmt::Dual,
        w & 0xF000 == insn.base,
        operands_spec(img, off, addr, w, insn) is Ok,
    ensures
        encode_spec(st, insn, operands_spec(img, off, addr, w, insn)->Ok_0.0) == (
            push_image_words(st, img, off, (operands_spec(img, off, addr, w, insn)->Ok_0.1 / 2) as nat),
            None::<Seq<char>>,
        ),
{
    let ts = (w >> 4u16) & 3;
    let s = w & 0xF;
    let td = (w >> 10u16) & 3;
    let d = (w >> 6u16) & 0xF;
    let base = insn.base;
    assert(ts < 4 && s < 16 && td < 4 && d < 16) by (bit_vector)
        requires
            ts == (w >> 4u16) & 3,
            s == w & 0xF,
            td == (w >> 10u16) & 3,
            d == (w >> 6u16) & 0xF,
    ;
    assert(crate::isa::dual_word(base, ts, s, td, d) == w) by (bit_vector)
        requires
            w & 0xF000 == base,
            ts == (w >> 4u16) & 3,
            s == w & 0xF,
            td == (w >> 10u16) & 3,
            d == (w >> 6u16) & 0xF,
    ;
    let (sext, l1) = ext_for(img, off, 2, ts)->Ok_0;
    let (dext, l2) = ext_for(img, off, l1, td)->Ok_0;
    lemma_general_text_reads_back(st, ts, s, sext);
    lemma_first_word(st, img, off, w);
    lemma_ext_step(st, img, off, 1, ts, sext, l1);
    lemma_general_text_reads_back(st, td, d, dext);
    lemma_ext_step(st, img, off, (l1 / 2) as nat, td, dext, l2);
    let ops = seq![general_text(ts, s, sext), general_text(td, d, dext)];
    assert(operands_spec(img, off, addr, w, insn) == Ok::<(Seq<Seq<char>>, int), DecodeError>((ops, l2)));
    assert(encode_spec(st, insn, ops) == crate::encode_dual(st, insn, ops));
    assert(crate::encode_dual(st, insn, ops) == (
        push_ext(push_ext(push_word(st, crate::isa::dual_word(base, ts, s, td, d)), ext_opt(ts, sext)), ext_opt(td, dext)),
        None::<Seq<char>>,
    ));
}

#[verifier::spinoff_prover]
#[verifier::rlimit(50)]
proof fn lemma_reassemble_single(st: AsmState, img: Seq<u8>, off: int, addr: u16, w: u16, insn: Insn)
    requires
        st.emit,
        registers_predefined(st.syms),
        word_at(img, off) == Some(w),
        insn.fmt == Fmt::Single,
        w & 0xFFC0 == insn.base,
        operands_spec(img, off, addr, w, insn) is Ok,
    ensures
        encode_spec(st, insn, operands_spec(img, off, addr, w, insn)->Ok_0.0) == (
            push_image_words(st, img, off, (operands_spec(img, off, addr, w, insn)->Ok_0.1 / 2) as nat),
            None::<Seq<char>>,
        ),
{
    let ts = (w >> 4u16) & 3;
    let s = w & 0xF;
    let base = insn.base;
    assert(ts < 4 && s < 16) by (bit_vector)
        requires
            ts == (w >> 4u16) & 3,
            s == w & 0xF,
    ;
    assert(crate::isa::single_word(base, ts, s) == w) by (bit_vector)
        requires
            w & 0xFFC0 == base,
            ts == (w >> 4u16) & 3,
            s == w & 0xF,
    ;
    let (ext, l) = ext_for(img, off, 2, ts)->Ok_0;
    lemma_general_text_reads_back(st, ts, s, ext);
    lemma_first_word(st, img, off, w);
    lemma_ext_step(st, img, off, 1, ts, ext, l);
    let ops = seq![general_text(ts, s, ext)];
    assert(operands_spec(img, off, addr, w, insn) == Ok::<(Seq<Seq<char>>, int), DecodeError>((ops, l)));
    assert(encode_spec(st, insn, ops) == crate::encode_single(st, insn, ops));
}

#[verifier::spinoff_prover]
#[verifier::rlimit(50)]
proof fn lemma_reassemble_reg_only(st: AsmState, img: Seq<u8>, off: int, addr: u16, w: u16, insn: Insn)
    requires
        st.emit,
        registers_predefined(st.syms),
        word_at(img, off) == Some(w),
        insn.fmt == Fmt::RegOnly,
        w & 0xFFF0 == insn.base,
        operands_spec(img, off, addr, w, insn) is Ok,
    ensures
        encode_spec(st, insn, operands_spec(img, off, addr, w, insn)->Ok_0.0) == (
            push_image_words(st, img, off, (operands_spec(img, off, addr, w, insn)->Ok_0.1 / 2) as nat),
            None::<Seq<char>>,
        ),
{
    let s = w & 0xF;
    let base = insn.base;
    assert(s < 16 && crate::isa::low_word(base, s) == w) by (bit_vector)
        requires
            w & 0xFFF0 == base,
            s == w & 0xF,
    ;
    lemma_reg_text_reads_back(st, s);
    lemma_first_word(st, img, off, w);
    let ops = seq![reg_text(s)];
    assert(operands_spec(img, off, addr, w, insn) == Ok::<(Seq<Seq<char>>, int), DecodeError>((ops, 2)));
    assert(encode_spec(st, insn, ops) == crate::encode_reg_only(st, insn, ops));
}

#[verifier::spinoff_prover]
#[verifier::rlimit(50)]
proof fn lemma_reassemble_control(st: AsmState, img: Seq<u8>, off: int, addr: u16, w: u16, insn: Insn)
    requires
        st.emit,
        registers_predefined(st.syms),
        word_at(img, off) == Some(w),
        insn.fmt == Fmt::Control,
        w & 0xFFFF == insn.base,
        operands_spec(img, off, addr, w, insn) is Ok,
    ensures
        encode_spec(st, insn, operands_spec(img, off, addr, w, insn)->Ok_0.0) == (
            push_image_words(st, img, off, (operands_spec(img, off, addr, w, insn)->Ok_0.1 / 2) as nat),
            None::<Seq<char>>,
        ),
{
    let base = insn.base;
    assert(w == base) by (bit_vector)
        requires
            w & 0xFFFF == base,
    ;
    lemma_first_word(st, img, off, w);
    let ops = Seq::<Seq<char>>::empty();
    assert(operands_spec(img, off, addr, w, insn) == Ok::<(Seq<Seq<char>>, int), DecodeError>((ops, 2)));
    assert(encode_spec(st, insn, ops) == crate::encode_control(st, insn, ops));
}

#[verifier::spinoff_prover]
#[verifier::rlimit(50)]
proof fn lemma_reassemble_imm_reg(st: AsmState, img: Seq<u8>, off: int, addr: u16, w: u16, insn: Insn)
    requires
        st.emit,
        registers_predefined(st.syms),
        word_at(img, off) == Some(w),
        insn.fmt == Fmt::ImmReg,
        w & 0xFFF0 == insn.base,
        operands_spec(img, off, addr, w, insn) is Ok,
    ensures
        encode_spec(st, insn, operands_spec(img, off, addr, w, insn)->Ok_0.0) == (
            push_image_words(st, img, off, (operands_spec(img, off, addr, w, insn)->Ok_0.1 / 2) as nat),
            None::<Seq<char>>,
        ),
{
    let s = w & 0xF;
    let base = insn.base;
    assert(s < 16 && crate::isa::low_word(base, s) == w) by (bit_vector)
        requires
            w & 0xFFF0 == base,
            s == w & 0xF,
    ;
    let (imm, l) = ext_always(img, off, 2)->Ok_0;
    lemma_reg_text_reads_back(st, s);
    let st1 = push_word(st, w);
    lemma_imm_text_evaluates(imm, st1.syms, st1.lc);
    lemma_first_word(st, img, off, w);
    assert(l == 4);
    assert(push_image_words(st, img, off, 2) == push_word(st1, imm));
    let ops = seq![reg_text(s), imm_text(imm)];
    assert(operands_spec(img, off, addr, w, insn) == Ok::<(Seq<Seq<char>>, int), DecodeError>((ops, l)));
    assert(encode_spec(st, insn, ops) == crate::encode_imm_reg(st, insn, ops));
}

#[verifier::spinoff_prover]
#[verifier::rlimit(50)]
proof fn lemma_reassemble_imm(st: AsmState, img: Seq<u8>, off: int, addr: u16, w: u16, insn: Insn)
    requires
        st.emit,
        registers_predefined(st.syms),
        word_at(img, off) == Some(w),
        insn.fmt == Fmt::Imm,
        w == insn.base,
        operands_spec(img, off, addr, w, insn) is Ok,
    ensures
        encode_spec(st, insn, operands_spec(img, off, addr, w, insn)->Ok_0.0) == (
            push_image_words(st, img, off, (operands_spec(img, off, addr, w, insn)->Ok_0.1 / 2) as nat),
            None::<Seq<char>>,
        ),
{
    let (imm, l) = ext_always(img, off, 2)->Ok_0;
    let st1 = push_word(st, w);
    lemma_imm_text_evaluates(imm, st1.syms, st1.lc);
    lemma_first_word(st, img, off, w);
    assert(l == 4);
    assert(push_image_words(st, img, off, 2) == push_word(st1, imm));
    let ops = seq![imm_text(imm)];
    assert(operands_spec(img, off, addr, w, insn) == Ok::<(Seq<Seq<char>>, int), DecodeError>((ops, l)));
    assert(encode_spec(st, insn, ops) == crate::encode_imm(st, insn, ops));
}

#[verifier::spinoff_prover]
#[verifier::rlimit(50)]
proof fn lemma_reassemble_shift(st: AsmState, img: Seq<u8>, off: int, addr: u16, w: u16, insn: Insn)
    requires
        st.emit,
        registers_predefined(st.syms),
        word_at(img, off) == Some(w),
        insn.fmt == Fmt::Shift,
        w & 0xFF00 == insn.base,
        operands_spec(img, off, addr, w, insn) is Ok,
    ensures
        encode_spec(st, insn, operands_spec(img, off, addr, w, insn)->Ok_0.0) == (
            push_image_words(st, img, off, (operands_spec(img, off, addr, w, insn)->Ok_0.1 / 2) as nat),
            None::<Seq<char>>,
        ),
{
    let s = w & 0xF;
    let c = (w >> 4u16) & 0xF;
    let base = insn.base;
    assert(s < 16 && c < 16 && crate::isa::shift_word(base, c, s) == w) by (bit_vector)
        requires
            w & 0xFF00 == base,
            s == w & 0xF,
            c == (w >> 4u16) & 0xF,
    ;
    lemma_reg_text_reads_back(st, s);
    lemma_dec_text_evaluates(c as nat, st.syms, st.lc);
    lemma_first_word(st, img, off, w);
    let ops = seq![reg_text(s), dec_nat(c as nat)];
    assert(operands_spec(img, off, addr, w, insn) == Ok::<(Seq<Seq<char>>, int), DecodeError>((ops, 2)));
    assert(encode_spec(st, insn, ops) == crate::encode_shift(st, insn, ops));
}

#[verifier::spinoff_prover]
#[verifier::rlimit(50)]
proof fn lemma_reassemble_reg_src(st: AsmState, img: Seq<u8>, off: int, addr: u16, w: u16, insn: Insn)
    requires
        st.emit,
        registers_predefined(st.syms),
        word_at(img, off) == Some(w),
        insn.fmt == Fmt::RegSrc,
        w & 0xFC00 == insn.base,
        operands_spec(img, off, addr, w, insn) is Ok,
    ensures
        encode_spec(st, insn, operands_spec(img, off, addr, w, insn)->Ok_0.0) == (
            push_image_words(st, img, off, (operands_spec(img, off, addr, w, insn)->Ok_0.1 / 2) as nat),
            None::<Seq<char>>,
        ),
{
    let ts = (w >> 4u16) & 3;
    let s = w & 0xF;
    let f = (w >> 6u16) & 0xF;
    let base = insn.base;
    assert(ts < 4 && s < 16 && f < 16 && crate::isa::field_word(base, f, ts, s) == w) by (bit_vector)
        requires
            w & 0xFC00 == base,
            ts == (w >> 4u16) & 3,
            s == w & 0xF,
            f == (w >> 6u16) & 0xF,
    ;
    let (ext, l) = ext_for(img, off, 2, ts)->Ok_0;
    lemma_general_text_reads_back(st, ts, s, ext);
    lemma_reg_text_reads_back(st, f);
    lemma_dec_text_evaluates(f as nat, st.syms, st.lc);
    lemma_first_word(st, img, off, w);
    lemma_ext_step(st, img, off, 1, ts, ext, l);
    let second = if insn.name@ == "XOP"@ {
        dec_nat(f as nat)
    } else {
        reg_text(f)
    };
    let ops = seq![general_text(ts, s, ext), second];
    assert(operands_spec(img, off, addr, w, insn) == Ok::<(Seq<Seq<char>>, int), DecodeError>((ops, l)));
    assert(encode_spec(st, insn, ops) == crate::encode_reg_src(st, insn, ops));
}

#[verifier::spinoff_prover]
#[verifier::rlimit(50)]
proof fn lemma_reassemble_cru_multi(st: AsmState, img: Seq<u8>, off: int, addr: u16, w: u16, insn: Insn)
    requires
        st.emit,
        registers_predefined(st.syms),
        word_at(img, off) == Some(w),
        insn.fmt == Fmt::CruMulti,
        w & 0xFC00 == insn.base,
        operands_spec(img, off, addr, w, insn) is Ok,
    ensures
        encode_spec(st, insn, operands_spec(img, off, addr, w, insn)->Ok_0.0) == (
            push_image_words(st, img, off, (operands_spec(img, off, addr, w, insn)->Ok_0.1 / 2) as nat),
            None::<Seq<char>>,
        ),
{
    let ts = (w >> 4u16) & 3;
    let s = w & 0xF;
    let c = (w >> 6u16) & 0xF;
    let base = insn.base;
    assert(ts < 4 && s < 16 && c < 16 && crate::isa::field_word(base, c, ts, s) == w) by (bit_vector)
        requires
            w & 0xFC00 == base,
            ts == (w >> 4u16) & 3,
            s == w & 0xF,
            c == (w >> 6u16) & 0xF,
    ;
    let (ext, l) = ext_for(img, off, 2, ts)->Ok_0;
    lemma_general_text_reads_back(st, ts, s, ext);
    lemma_dec_text_evaluates(c as nat, st.syms, st.lc);
    lemma_first_word(st, img, off, w);
    lemma_ext_step(st, img, off, 1, ts, ext, l);
    let ops = seq![general_text(ts, s, ext), dec_nat(c as nat)];
    assert(operands_spec(img, off, addr, w, insn) == Ok::<(Seq<Seq<char>>, int), DecodeError>((ops, l)));
    assert(encode_spec(st, insn, ops) == crate::encode_cru_multi(st, insn, ops));
}

/// The text of a signed byte-sized number evaluates to that number.
proof fn lemma_int_text_evaluates(v: int, syms: Map<Seq<char>, i64>, lc: u16)
    requires
        -128 <= v <= 127,
    ensures
        eval_spec(encode_utf8(dec_int(v)), syms, lc) == Ok::<i64, Seq<char>>(v as i64),
{
    if v >= 0 {
        lemma_dec_text_evaluates(v as nat, syms, lc);
    } else {
        let k = (-v) as nat;
        let d = dec_nat(k);
        lemma_dec_value(k);
        lemma_dec_digits(k);
        let s = seq!['-'] + d;
        assert(dec_int(v) == s);
        assert forall|i: int| 0 <= i < s.len() implies (#[trigger] s[i] as u32) < 128 by {
            if i > 0 {
                assert(s[i] == d[i - 1]);
            }
        }
        lemma_encode_ascii(s);
        let b = ascii_bytes(s);
        assert(b[0] == 45);
        assert forall|j: int| 1 <= j < b.len() implies is_digit(#[trigger] b[j]) by {
            assert(s[j] == d[j - 1]);
            assert(is_digit((d[j - 1] as u32) as u8));
        }
        lemma_digits_run(b, 1);
        assert(b.subrange(1, b.len() as int) =~= ascii_bytes(d));
        assert(tokenize_from(b, b.len() as int) == Ok::<Seq<Token>, Seq<char>>(seq![]));
        assert(tokenize_from(b, 1) == Ok::<Seq<Token>, Seq<char>>(seq![Token::Num(k as i64)]));
        assert(45u8 as char == '-');
        let toks = seq![Token::Op('-'), Token::Num(k as i64)];
        assert(seq![Token::Op('-')] + seq![Token::Num(k as i64)] =~= toks);
        assert(tokenize_from(b, 0) == crate::expr::cons_tok(Token::Op('-'), tokenize_from(b, 1)));
        assert(tokenize_from(b, 0) == Ok::<Seq<Token>, Seq<char>>(toks));
        assert(crate::expr::eval_toks(toks, syms, lc) == Ok::<i64, Seq<char>>(v as i64));
    }
}

#[verifier::spinoff_prover]
#[verifier::rlimit(50)]
proof fn lemma_reassemble_cru_bit(st: AsmState, img: Seq<u8>, off: int, addr: u16, w: u16, insn: Insn)
    requires
        st.emit,
        registers_predefined(st.syms),
        word_at(img, off) == Some(w),
        insn.fmt == Fmt::CruBit,
        w & 0xFF00 == insn.base,
        operands_spec(img, off, addr, w, insn) is Ok,
    ensures
        encode_spec(st, insn, operands_spec(img, off, addr, w, insn)->Ok_0.0) == (
            push_image_words(st, img, off, (operands_spec(img, off, addr, w, insn)->Ok_0.1 / 2) as nat),
            None::<Seq<char>>,
        ),
{
    let b = w & 0xFF;
    let base = insn.base;
    assert(b < 256 && crate::isa::low_word(base, b) == w) by (bit_vector)
        requires
            w & 0xFF00 == base,
            b == w & 0xFF,
    ;
    let d = low_byte_signed(w);
    assert(-128 <= d <= 127);
    assert(crate::disp_byte(d as i64) == b);
    lemma_int_text_evaluates(d, st.syms, st.lc);
    lemma_first_word(st, img, off, w);
    let ops = seq![dec_int(d)];
    assert(operands_spec(img, off, addr, w, insn) == Ok::<(Seq<Seq<char>>, int), DecodeError>((ops, 2)));
    assert(encode_spec(st, insn, ops) == crate::encode_cru_bit(st, insn, ops));
}

#[verifier::spinoff_prover]
#[verifier::rlimit(50)]
proof fn lemma_reassemble_jump(st: AsmState, img: Seq<u8>, off: int, addr: u16, w: u16, insn: Insn)
    requires
        st.emit,
        registers_predefined(st.syms),
        word_at(img, off) == Some(w),
        insn.fmt == Fmt::Jump,
        w & 0xFF00 == insn.base,
        st.lc == addr,
        0 <= addr + 2 + 2 * low_byte_signed(w) <= 0xFFFF,
        operands_spec(img, off, addr, w, insn) is Ok,
    ensures
        encode_spec(st, insn, operands_spec(img, off, addr, w, insn)->Ok_0.0) == (
            push_image_words(st, img, off, (operands_spec(img, off, addr, w, insn)->Ok_0.1 / 2) as nat),
            None::<Seq<char>>,
        ),
{
    let b = w & 0xFF;
    let base = insn.base;
    assert(b < 256 && crate::isa::low_word(base, b) == w) by (bit_vector)
        requires
            w & 0xFF00 == base,
            b == w & 0xFF,
    ;
    let d = low_byte_signed(w);
    let target = jump_target(addr, w);
    assert(target as int == addr + 2 + 2 * d);
    lemma_imm_text_evaluates(target, st.syms, st.lc);
    let delta = vstd::wrapping::i64_specs::wrapping_sub(target as i64, (st.lc + 2) as i64);
    assert(delta == 2 * d);
    assert(delta % 2 == 0);
    assert(delta / 2 == d);
    assert(crate::disp_byte((delta / 2) as i64) == b);
    lemma_first_word(st, img, off, w);
    let ops = seq![imm_text(target)];
    assert(operands_spec(img, off, addr, w, insn) == Ok::<(Seq<Seq<char>>, int), DecodeError>((ops, 2)));
    assert(encode_spec(st, insn, ops) == crate::encode_jump(st, insn, ops));
}

/// Whether the opcode word `w` of entry `insn`, listed at `addr`, comes
/// back verbatim from its listing. Two kinds of word cannot: a jump whose
/// target wraps past either end of memory (the listing shows the wrapped
/// address, which is out of the jump's reach), and an `LWPI`/`LIMI` word
/// with its unused low bits set (the encoder writes them clear).
pub open spec fn reassembles_verbatim(insn: Insn, w: u16, addr: u16) -> bool {
    match insn.fmt {
        Fmt::Imm => w == insn.base,
        Fmt::Jump => 0 <= addr + 2 + 2 * low_byte_signed(w) <= 0xFFFF,
        Fmt::Pseudo => false,
        _ => true,
    }
}

proof fn lemma_find_index(w: u16, i: int) -> (k: int)
    requires
        find_from(w, i) is Some,
    ensures
        0 <= i <= k < table_spec().len(),
        table_spec()[k] == find_from(w, i)->Some_0,
    decreases table_spec().len() - i,
{
    if table_spec()[i].fmt != Fmt::Pseudo && w & mask_spec(table_spec()[i].fmt) == table_spec()[i].base {
        i
    } else {
        lemma_find_index(w, i + 1)
    }
}

proof fn lemma_lookup_finds(k: int, j: int)
    requires
        0 <= j <= k < table_spec().len(),
    ensures
        lookup_from(table_spec()[k].name@, j) == Some(table_spec()[k]),
    decreases k - j,
{
    if j < k {
        lemma_names_distinct(j, k);
        lemma_lookup_finds(k, j + 1);
    }
}

/// What the disassembler lists, the assembler writes back. When the
/// instruction at byte `off` of `img` (at runtime address `addr`) decodes,
/// its mnemonic names the table entry it was decoded as, and encoding that
/// entry with the operand texts the listing shows — in pass 2, at location
/// `addr`, with the predefined registers `R0`..`R15` in place — reports no
/// error and writes exactly the words it was decoded from, extension words
/// included; except for the words [`reassembles_verbatim`] leaves out.
pub proof fn lemma_listing_reassembles(st: AsmState, img: Seq<u8>, off: int, addr: u16)
    requires
        st.emit,
        st.lc == addr,
        registers_predefined(st.syms),
        decode_spec(img, off, addr) is Ok,
        reassembles_verbatim(find_spec(word_at(img, off)->Some_0)->Some_0, word_at(img, off)->Some_0, addr),
    ensures
        lookup_spec(decode_spec(img, off, addr)->Ok_0.mnemonic) == find_spec(word_at(img, off)->Some_0),
        encode_spec(st, find_spec(word_at(img, off)->Some_0)->Some_0, decode_spec(img, off, addr)->Ok_0.operands)
            == (push_image_words(st, img, off, decode_spec(img, off, addr)->Ok_0.len / 2), None::<Seq<char>>),
{
    let w = word_at(img, off)->Some_0;
    let insn = find_spec(w)->Some_0;
    let k = lemma_find_index(w, 0);
    lemma_lookup_finds(k, 0);
    lemma_find_from_matches(w, 0);
    let (ops, len) = operands_spec(img, off, addr, w, insn)->Ok_0;
    assert(0 <= len);
    assert(decode_spec(img, off, addr)->Ok_0.len / 2 == (len / 2) as nat);
    match insn.fmt {
        Fmt::Dual => lemma_reassemble_dual(st, img, off, addr, w, insn),
        Fmt::Single => lemma_reassemble_single(st, img, off, addr, w, insn),
        Fmt::Jump => lemma_reassemble_jump(st, img, off, addr, w, insn),
        Fmt::CruBit => lemma_reassemble_cru_bit(st, img, off, addr, w, insn),
        Fmt::Shift => lemma_reassemble_shift(st, img, off, addr, w, insn),
        Fmt::RegSrc => lemma_reassemble_reg_src(st, img, off, addr, w, insn),
        Fmt::CruMulti => lemma_reassemble_cru_multi(st, img, off, addr, w, insn),
        Fmt::ImmReg => lemma_reassemble_imm_reg(st, img, off, addr, w, insn),
        Fmt::Imm => lemma_reassemble_imm(st, img, off, addr, w, insn),
        Fmt::RegOnly => lemma_reassemble_reg_only(st, img, off, addr, w, insn),
        Fmt::Control => lemma_reassemble_control(st, img, off, addr, w, insn),
        Fmt::Pseudo => {},
    }
}

} // verus!
