//! What the frontend paints over each rendered frame, in order: the speed
//! indicator (top right, while paused or fast-forwarding), the disk-memory
//! panel (when open), the first-run help banner (bottom band), and the
//! toast (bottom band, a few seconds after an action).

use vstd::prelude::*;

use crate::inspector::{inspector_list, inspector_ops, CpuSnapshot};
use crate::video::{HEIGHT, WIDTH};
use crate::disks::{clamp_row, panel_fits, panel_ops, row_ok, DiskEntry, DiskOverlay, OverlayView};
use crate::text::{
    canvas_ok, op_ok, ops_effect, ops_view, text_fits, text_width, text_width_spec, transforms, Canvas,
    DrawOp, DrawOpView, ADVANCE, GLYPH_H,
};

verus! {

/// Ink of the speed indicator.
pub const INDICATOR_INK: u32 = 0x00FF_EE33;

/// Ink of the help banner.
pub const BANNER_INK: u32 = 0x00FF_FFFF;

/// Ink of a toast.
pub const TOAST_INK: u32 = 0x0000_FF66;

/// The help banner's text.
pub const BANNER_TEXT: &'static str = "PRESS ESC FOR HELP";

/// `a - b`, or 0 when `b` is larger.
pub open spec fn sat_sub(a: int, b: int) -> int {
    if a >= b {
        a - b
    } else {
        0
    }
}

/// The speed indicator: a dimmed box in the top-right corner around
/// `label`.
pub open spec fn indicator_view(label: Seq<char>) -> Seq<DrawOpView> {
    let w = text_width_spec(label.len(), 1) + 6;
    let x = sat_sub(WIDTH as int, w + 2);
    seq![
        DrawOpView::Dim { x, y: 2, w, h: GLYPH_H + 4, shade: 2 },
        DrawOpView::Text { x: x + 3, y: 4, s: label, color: INDICATOR_INK, scale: 1 },
    ]
}

/// The first-run banner: a dimmed box centered low in the frame.
pub open spec fn banner_view() -> Seq<DrawOpView> {
    let label = BANNER_TEXT@;
    let w = text_width_spec(label.len(), 1) + 6;
    let x = sat_sub(WIDTH as int, w) / 2;
    let band = GLYPH_H + 4;
    let y = sat_sub(HEIGHT as int, band + 6);
    seq![
        DrawOpView::Dim { x, y, w, h: band, shade: 2 },
        DrawOpView::Text { x: x + 3, y: y + 2, s: label, color: BANNER_INK, scale: 1 },
    ]
}

/// A toast: a dimmed full-width band low in the frame, the message centered
/// in it at double size.
pub open spec fn toast_view(msg: Seq<char>) -> Seq<DrawOpView> {
    let band = GLYPH_H * 2 + 8;
    let y = sat_sub(HEIGHT as int, band + 6);
    let x = sat_sub(WIDTH as int, text_width_spec(msg.len(), 2)) / 2;
    seq![
        DrawOpView::Dim { x: 0, y, w: WIDTH as int, h: band, shade: 2 },
        DrawOpView::Text { x, y: y + 4, s: msg, color: TOAST_INK, scale: 2 },
    ]
}

/// Everything painted over one frame: the CPU inspector when shown; the
/// indicator when there is one; the disk panel when open (selection `sel`);
/// the banner while it is active, the panel is closed and no toast is
/// showing; the toast while it has frames left.
pub open spec fn frame_ops(
    cpu: Option<CpuSnapshot>,
    indicator: Option<Seq<char>>,
    panel_open: bool,
    sel: nat,
    disks: Seq<DiskEntry>,
    banner: bool,
    toast: Option<Seq<char>>,
    toast_frames: nat,
) -> Seq<DrawOpView> {
    let i = match cpu {
        Some(c) => inspector_ops(c),
        None => seq![],
    };
    let a = match indicator {
        Some(l) => indicator_view(l),
        None => seq![],
    };
    let b = if panel_open {
        panel_ops(sel, disks)
    } else {
        seq![]
    };
    let c = if banner && !panel_open && toast_frames == 0 {
        banner_view()
    } else {
        seq![]
    };
    let d = if toast_frames > 0 {
        match toast {
            Some(m) => toast_view(m),
            None => seq![],
        }
    } else {
        seq![]
    };
    i + a + b + c + d
}

/// A string that can be measured and drawn at double size near the frame
/// without any coordinate leaving `usize`.
pub open spec fn short_text(s: Seq<char>) -> bool {
    12 * s.len() + 0x2_0000 <= usize::MAX
}

proof fn lemma_text_fits_scaled(s: Seq<char>, x: int, y: int, scale: int)
    requires
        0 <= x <= 0x1_0000,
        0 <= y <= 0x1_0000,
        1 <= scale <= 2,
        short_text(s),
    ensures
        text_fits(s, x, y, scale),
{
    assert forall|k: int| 0 <= k < s.len() implies crate::text::bits_fit(
        crate::text::glyph_spec(#[trigger] s[k]),
        x + k * (ADVANCE * scale),
        y,
        scale,
    ) by {
        assert(k * (ADVANCE * scale) + 6 * scale <= 12 * s.len()) by (nonlinear_arith)
            requires
                0 <= k < s.len(),
                1 <= scale <= 2,
                ADVANCE == 6,
        ;
    }
    assert(s.len() * (ADVANCE * scale) <= 12 * s.len()) by (nonlinear_arith)
        requires
            1 <= scale <= 2,
            ADVANCE == 6,
    ;
}

/// Append the display list of `view` (two operations) built from `d` and
/// `t`.
fn push_pair(ops: &mut Vec<DrawOp>, d: DrawOp, t: DrawOp)
    requires
        op_ok(d@),
        op_ok(t@),
        forall|j: int| 0 <= j < old(ops)@.len() ==> op_ok(#[trigger] old(ops)@[j]@),
    ensures
        ops_view(final(ops)@) == ops_view(old(ops)@) + seq![d@, t@],
        forall|j: int| 0 <= j < final(ops)@.len() ==> op_ok(#[trigger] final(ops)@[j]@),
{
    let ghost start = ops_view(ops@);
    ops.push(d);
    ops.push(t);
    assert(ops_view(ops@) =~= start + seq![d@, t@]);
}

/// `a - b`, or 0 when `b` is larger.
fn sat_sub_usize(a: usize, b: usize) -> (r: usize)
    ensures
        r == sat_sub(a as int, b as int),
{
    if a >= b {
        a - b
    } else {
        0
    }
}

/// The speed indicator's operations.
fn indicator_ops(label: &str) -> (r: (DrawOp, DrawOp))
    requires
        short_text(label@),
    ensures
        seq![r.0@, r.1@] == indicator_view(label@),
        op_ok(r.0@),
        op_ok(r.1@),
{
    let w = text_width(label, 1) + 6;
    let x = sat_sub_usize(WIDTH, w + 2);
    proof {
        lemma_text_fits_scaled(label@, x + 3, 4, 1);
    }
    (
        DrawOp::Dim { x, y: 2, w, h: GLYPH_H + 4, shade: 2 },
        DrawOp::Text { x: x + 3, y: 4, s: crate::strings::owned(label), color: INDICATOR_INK, scale: 1 },
    )
}

/// The help banner's operations.
fn banner_ops() -> (r: (DrawOp, DrawOp))
    ensures
        seq![r.0@, r.1@] == banner_view(),
        op_ok(r.0@),
        op_ok(r.1@),
{
    proof {
        reveal_strlit("PRESS ESC FOR HELP");
    }
    let label = BANNER_TEXT;
    let w = text_width(label, 1) + 6;
    let x = sat_sub_usize(WIDTH, w) / 2;
    let band = GLYPH_H + 4;
    let y = sat_sub_usize(HEIGHT, band + 6);
    proof {
        lemma_text_fits_scaled(label@, x + 3, y + 2, 1);
    }
    (
        DrawOp::Dim { x, y, w, h: band, shade: 2 },
        DrawOp::Text { x: x + 3, y: y + 2, s: crate::strings::owned(label), color: BANNER_INK, scale: 1 },
    )
}

/// A toast's operations.
fn toast_ops(msg: &str) -> (r: (DrawOp, DrawOp))
    requires
        short_text(msg@),
    ensures
        seq![r.0@, r.1@] == toast_view(msg@),
        op_ok(r.0@),
        op_ok(r.1@),
{
    let band = GLYPH_H * 2 + 8;
    let y = sat_sub_usize(HEIGHT, band + 6);
    assert(msg@.len() * ADVANCE <= usize::MAX);
    assert(text_width_spec(msg@.len(), 2) <= 12 * msg@.len()) by (nonlinear_arith)
        requires
            ADVANCE == 6,
    ;
    let tw = text_width(msg, 2);
    let x = sat_sub_usize(WIDTH, tw) / 2;
    proof {
        lemma_text_fits_scaled(msg@, x as int, y + 4, 2);
    }
    (
        DrawOp::Dim { x: 0, y, w: WIDTH, h: band, shade: 2 },
        DrawOp::Text { x, y: y + 4, s: crate::strings::owned(msg), color: TOAST_INK, scale: 2 },
    )
}

/// Paint the overlays over a rendered frame (see [`frame_ops`]): the CPU
/// inspector for `cpu`; the speed indicator `indicator`; the disk panel if `panel` is open (its selection
/// clamped to `disks`); the first-run banner while `banner` is active, the
/// panel closed and no toast showing; and `toast` while `toast_frames` is
/// non-zero. Returns the toast's frames left after this one.
pub fn paint_overlays(
    canvas: &mut Canvas,
    cpu: Option<&CpuSnapshot>,
    indicator: Option<&str>,
    panel: &mut DiskOverlay,
    disks: &[DiskEntry],
    banner: bool,
    toast: Option<&str>,
    toast_frames: u32,
) -> (left: u32)
    requires
        canvas_ok(old(canvas)@),
        indicator matches Some(l) ==> short_text(l@),
        toast matches Some(m) ==> short_text(m@),
        old(panel)@.open ==> panel_fits(disks@.len()),
        old(panel)@.open ==> forall|i: int| 0 <= i < disks@.len() ==> row_ok(#[trigger] disks@[i]),
    ensures
        left == if toast_frames > 0 {
            toast_frames - 1
        } else {
            0
        },
        final(panel)@ == (if old(panel)@.open {
            OverlayView { selected: clamp_row(old(panel)@.selected, disks@.len()), ..old(panel)@ }
        } else {
            old(panel)@
        }),
        canvas_ok(final(canvas)@),
        transforms(
            old(canvas)@,
            final(canvas)@,
            ops_effect(
                frame_ops(
                    match cpu {
                        Some(c) => Some(*c),
                        None => None,
                    },
                    match indicator {
                        Some(l) => Some(l@),
                        None => None,
                    },
                    old(panel)@.open,
                    final(panel)@.selected,
                    disks@,
                    banner,
                    match toast {
                        Some(m) => Some(m@),
                        None => None,
                    },
                    toast_frames as nat,
                ),
            ),
        ),
{
    let mut ops: Vec<DrawOp> = match cpu {
        Some(c) => inspector_list(c),
        None => Vec::new(),
    };
    let ghost i0 = match cpu {
        Some(c) => inspector_ops(*c),
        None => seq![],
    };
    assert(ops_view(ops@) =~= i0);
    let ghost ind = match indicator {
        Some(l) => Some(l@),
        None => None,
    };
    let ghost tst = match toast {
        Some(m) => Some(m@),
        None => None,
    };
    if let Some(label) = indicator {
        let (d, t) = indicator_ops(label);
        push_pair(&mut ops, d, t);
    }
    let ghost a = match ind {
        Some(l) => indicator_view(l),
        None => seq![],
    };
    assert(ops_view(ops@) =~= i0 + a);
    let open = panel.is_open();
    if open {
        panel.clamp(disks.len());
        panel.push_panel(&mut ops, disks);
    }
    let ghost b = if open {
        panel_ops(panel@.selected, disks@)
    } else {
        seq![]
    };
    assert(ops_view(ops@) =~= i0 + a + b);
    if banner && !open && toast_frames == 0 {
        let (d, t) = banner_ops();
        push_pair(&mut ops, d, t);
    }
    let ghost c = if banner && !open && toast_frames == 0 {
        banner_view()
    } else {
        seq![]
    };
    assert(ops_view(ops@) =~= i0 + a + b + c);
    let mut left: u32 = 0;
    if toast_frames > 0 {
        left = toast_frames - 1;
        if let Some(msg) = toast {
            let (d, t) = toast_ops(msg);
            push_pair(&mut ops, d, t);
        }
    }
    let ghost d = if toast_frames > 0 {
        match tst {
            Some(m) => toast_view(m),
            None => seq![],
        }
    } else {
        seq![]
    };
    assert(ops_view(ops@) =~= i0 + a + b + c + d);
    canvas.run(ops.as_slice());
    left
}

/// The first-run banner yields: while the disk panel is open or a toast is
/// showing, painting with the banner active paints exactly what painting
/// without it does.
pub proof fn lemma_banner_yields(
    cpu: Option<CpuSnapshot>,
    indicator: Option<Seq<char>>,
    panel_open: bool,
    sel: nat,
    disks: Seq<DiskEntry>,
    toast: Option<Seq<char>>,
    toast_frames: nat,
)
    requires
        panel_open || toast_frames > 0,
    ensures
        frame_ops(cpu, indicator, panel_open, sel, disks, true, toast, toast_frames) == frame_ops(
            cpu,
            indicator,
            panel_open,
            sel,
            disks,
            false,
            toast,
            toast_frames,
        ),
{
}

/// With no inspector, no indicator, the panel closed, the banner retired and no toast
/// showing, nothing is painted: every pixel keeps its value.
pub proof fn lemma_idle_frame_untouched(sel: nat, disks: Seq<DiskEntry>, toast: Option<Seq<char>>, px: int, py: int, p: u32)
    ensures
        ops_effect(frame_ops(None, None, false, sel, disks, false, toast, 0))(px, py, p) == p,
{
    assert(frame_ops(None, None, false, sel, disks, false, toast, 0) =~= Seq::<DrawOpView>::empty());
}

} // verus!
