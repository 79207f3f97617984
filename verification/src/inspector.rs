//! A live CPU **inspector overlay**: a non-modal panel over the top-left
//! corner of the picture showing the TMS9900's registers while the machine
//! keeps running. The frontend reads a [`CpuSnapshot`] from the machine each
//! frame; this module lays it out.

use vstd::prelude::*;

use crate::strings::{dec_nat, hex_fixed, owned, push_hex, push_str};
use crate::text::{
    canvas_ok, lemma_small_text_fits, op_ok, ops_effect, ops_view, transforms, Canvas, DrawOp,
    DrawOpView,
};

verus! {

/// Width of the inspector panel in framebuffer pixels.
pub const PANEL_W: usize = 116;

/// Height of the inspector panel in framebuffer pixels.
pub const PANEL_H: usize = 122;

/// Ink of the panel's headings.
pub const HEADER: u32 = 0x0033_CCFF;

/// Ink of the values.
pub const VALUE: u32 = 0x0066_FF66;

/// Ink of the workspace registers.
pub const REGS: u32 = 0x00AA_C8FF;

/// What the inspector shows of the machine at one instant.
pub struct CpuSnapshot {
    /// Program counter.
    pub pc: u16,
    /// Workspace pointer.
    pub wp: u16,
    /// Status register.
    pub st: u16,
    /// Cycles run since power-up.
    pub cycles: u64,
    /// Workspace registers `R0`..`R15`.
    pub regs: [u16; 16],
    /// The four words of memory at `PC`, `PC+2`, `PC+4`, `PC+6` (wrapping).
    pub mem: [u16; 4],
}

/// `n` right-aligned in two characters.
pub open spec fn pad2(n: nat) -> Seq<char> {
    if n < 10 {
        seq![' '] + dec_nat(n)
    } else {
        dec_nat(n)
    }
}

/// The text of register row `r` (`0..8`): `R r` and `R r+8` with their values.
pub open spec fn reg_row(r: nat, lo: u16, hi: u16) -> Seq<char> {
    "R"@ + pad2(r) + ":"@ + hex_fixed(lo as nat, 4) + "  R"@ + pad2(r + 8) + ":"@ + hex_fixed(hi as nat, 4)
}

/// The line of the four words at `PC`.
pub open spec fn mem_line(m: Seq<u16>) -> Seq<char> {
    hex_fixed(m[0] as nat, 4) + " "@ + hex_fixed(m[1] as nat, 4) + " "@ + hex_fixed(m[2] as nat, 4) + " "@
        + hex_fixed(m[3] as nat, 4)
}

/// The text lines of the panel, top to bottom, with their inks.
pub open spec fn inspector_lines(c: CpuSnapshot) -> Seq<(Seq<char>, u32)> {
    let regs = c.regs@;
    seq![
        ("-- TMS9900 --"@, HEADER),
        ("PC "@ + hex_fixed(c.pc as nat, 4) + "  WP "@ + hex_fixed(c.wp as nat, 4), VALUE),
        ("ST "@ + hex_fixed(c.st as nat, 4), VALUE),
        ("CYC "@ + hex_fixed((c.cycles as nat) % 0x1_0000_0000, 8), VALUE),
    ] + Seq::new(8, |r: int| (reg_row(r as nat, regs[r], regs[r + 8]), REGS)) + seq![
        ("MEM @PC"@, HEADER),
        (mem_line(c.mem@), VALUE),
    ]
}

/// The panel's display list: the dimmed backdrop, then each line at
/// `y = 2 + 8·k`, three pixels in.
pub open spec fn inspector_ops(c: CpuSnapshot) -> Seq<DrawOpView> {
    seq![DrawOpView::Dim { x: 0, y: 0, w: PANEL_W as int, h: PANEL_H as int, shade: 3 }] + Seq::new(
        inspector_lines(c).len(),
        |k: int|
            DrawOpView::Text {
                x: 3,
                y: 2 + 8 * k,
                s: inspector_lines(c)[k].0,
                color: inspector_lines(c)[k].1,
                scale: 1,
            },
    )
}

/// `n < 100` right-aligned in two characters.
fn push_pad2(s: &mut String, n: u64)
    requires
        n < 100,
    ensures
        final(s)@ == old(s)@ + pad2(n as nat),
{
    if n < 10 {
        s.push(' ');
    }
    crate::strings::push_dec_u64(s, n);
    assert(final(s)@ =~= old(s)@ + pad2(n as nat));
}

proof fn lemma_pad2_len(n: nat)
    requires
        n < 100,
    ensures
        pad2(n).len() == 2,
{
    if n >= 10 {
        assert(dec_nat(n / 10).len() == 1);
    }
}

/// The text of register row `r`.
fn reg_row_text(r: u64, lo: u16, hi: u16) -> (s: String)
    requires
        r < 8,
    ensures
        s@ == reg_row(r as nat, lo, hi),
        s@.len() == 18,
{
    proof {
        lemma_pad2_len(r as nat);
        lemma_pad2_len((r + 8) as nat);
        lemma_hex_len(lo as nat, 4);
        lemma_hex_len(hi as nat, 4);
    }
    proof {
        reveal_strlit("R");
        reveal_strlit(":");
        reveal_strlit("  R");
    }
    let mut s = owned("R");
    push_pad2(&mut s, r);
    push_str(&mut s, ":");
    push_hex(&mut s, lo as u64, 4);
    push_str(&mut s, "  R");
    push_pad2(&mut s, r + 8);
    push_str(&mut s, ":");
    push_hex(&mut s, hi as u64, 4);
    assert(s@ =~= reg_row(r as nat, lo, hi));
    s
}

proof fn lemma_hex_len(n: nat, w: nat)
    ensures
        hex_fixed(n, w).len() == w,
    decreases w,
{
    if w > 0 {
        lemma_hex_len(n / 16, (w - 1) as nat);
    }
}

/// A line of text at `y`, three pixels in.
fn line_op(y: usize, s: String, color: u32) -> (op: DrawOp)
    requires
        y <= 1000,
        s@.len() <= 40,
    ensures
        op@ == (DrawOpView::Text { x: 3, y: y as int, s: s@, color, scale: 1 }),
        op_ok(op@),
{
    proof {
        lemma_small_text_fits(s@, 3, y as int);
    }
    DrawOp::Text { x: 3, y, s, color, scale: 1 }
}

/// Draw the inspector panel (top-left) for the machine state `c`: a dimmed
/// backdrop, the heading, `PC`/`WP`, `ST`, the cycle counter (low 32 bits),
/// the sixteen workspace registers two per row, and the four words at `PC`.
pub fn render_inspector(canvas: &mut Canvas, c: &CpuSnapshot)
    requires
        canvas_ok(old(canvas)@),
    ensures
        canvas_ok(final(canvas)@),
        transforms(old(canvas)@, final(canvas)@, ops_effect(inspector_ops(*c))),
{
    let ops = inspector_list(c);
    canvas.run(ops.as_slice());
}

/// The inspector panel's display list for `c`.
pub(crate) fn inspector_list(c: &CpuSnapshot) -> (ops: Vec<DrawOp>)
    ensures
        ops_view(ops@) == inspector_ops(*c),
        forall|j: int| 0 <= j < ops@.len() ==> op_ok(#[trigger] ops@[j]@),
{
    proof {
        reveal_strlit("-- TMS9900 --");
        reveal_strlit("PC ");
        reveal_strlit("  WP ");
        reveal_strlit("ST ");
        reveal_strlit("CYC ");
        reveal_strlit("MEM @PC");
        reveal_strlit(" ");
        lemma_hex_len(c.pc as nat, 4);
        lemma_hex_len(c.wp as nat, 4);
        lemma_hex_len(c.st as nat, 4);
        lemma_hex_len((c.cycles as nat) % 0x1_0000_0000, 8);
    }
    let ghost lines = inspector_lines(*c);
    let mut ops: Vec<DrawOp> = Vec::new();
    ops.push(DrawOp::Dim { x: 0, y: 0, w: PANEL_W, h: PANEL_H, shade: 3 });
    let s0 = owned("-- TMS9900 --");
    ops.push(line_op(2, s0, HEADER));
    let mut s1 = owned("PC ");
    push_hex(&mut s1, c.pc as u64, 4);
    push_str(&mut s1, "  WP ");
    push_hex(&mut s1, c.wp as u64, 4);
    assert(s1@ =~= lines[1].0);
    ops.push(line_op(10, s1, VALUE));
    let mut s2 = owned("ST ");
    push_hex(&mut s2, c.st as u64, 4);
    assert(s2@ =~= lines[2].0);
    ops.push(line_op(18, s2, VALUE));
    let mut s3 = owned("CYC ");
    let cyc: u64 = c.cycles % 0x1_0000_0000;
    push_hex(&mut s3, cyc, 8);
    assert(s3@ =~= lines[3].0);
    ops.push(line_op(26, s3, VALUE));
    assert(ops_view(ops@) =~= inspector_ops(*c).take(5));
    let mut r: usize = 0;
    while r < 8
        invariant
            r <= 8,
            lines == inspector_lines(*c),
            ops_view(ops@) == inspector_ops(*c).take(5 + r as int),
            forall|j: int| 0 <= j < ops@.len() ==> op_ok(#[trigger] ops@[j]@),
        decreases 8 - r,
    {
        let t = reg_row_text(r as u64, c.regs[r], c.regs[r + 8]);
        proof {
            lemma_hex_len(c.regs@[r as int] as nat, 4);
            lemma_hex_len(c.regs@[r + 8] as nat, 4);
            assert(lines[4 + r as int] == (reg_row(r as nat, c.regs@[r as int], c.regs@[r + 8]), REGS));
        }
        let ghost prev = ops_view(ops@);
        let ghost k = 5 + r as int;
        assert(inspector_ops(*c)[k] == (DrawOpView::Text {
            x: 3,
            y: 34 + 8 * r as int,
            s: lines[k - 1].0,
            color: lines[k - 1].1,
            scale: 1,
        }));
        let op = line_op(34 + 8 * r, t, REGS);
        assert(op@ == inspector_ops(*c)[k]);
        ops.push(op);
        r += 1;
        assert(inspector_ops(*c).take(k + 1) =~= inspector_ops(*c).take(k).push(inspector_ops(*c)[k]));
        assert(ops_view(ops@) =~= prev.push(op@));
    }
    let mem_head = line_op(98, owned("MEM @PC"), HEADER);
    assert(mem_head@ == inspector_ops(*c)[13]);
    ops.push(mem_head);
    assert(inspector_ops(*c).take(14) =~= inspector_ops(*c).take(13).push(inspector_ops(*c)[13]));
    assert(ops_view(ops@) =~= inspector_ops(*c).take(14));
    let mut m = String::new();
    push_hex(&mut m, c.mem[0] as u64, 4);
    push_str(&mut m, " ");
    push_hex(&mut m, c.mem[1] as u64, 4);
    push_str(&mut m, " ");
    push_hex(&mut m, c.mem[2] as u64, 4);
    push_str(&mut m, " ");
    push_hex(&mut m, c.mem[3] as u64, 4);
    proof {
        lemma_hex_len(c.mem@[0] as nat, 4);
        lemma_hex_len(c.mem@[1] as nat, 4);
        lemma_hex_len(c.mem@[2] as nat, 4);
        lemma_hex_len(c.mem@[3] as nat, 4);
    }
    assert(m@ =~= mem_line(c.mem@));
    let ghost before_last = ops_view(ops@);
    let last = line_op(106, m, VALUE);
    assert(last@ == inspector_ops(*c)[14]);
    ops.push(last);
    assert(inspector_ops(*c).len() == 15);
    assert(ops_view(ops@) =~= before_last.push(last@));
    assert(inspector_ops(*c).take(15) =~= inspector_ops(*c).take(14).push(inspector_ops(*c)[14]));
    assert(inspector_ops(*c).take(15) =~= inspector_ops(*c));
    assert(ops_view(ops@) =~= inspector_ops(*c));
    ops
}

} // verus!
