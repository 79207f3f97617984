//! The **disk memory** overlay (`F4`): lists every disk image the emulator is
//! holding in memory — mounted in DSK1 or shelved after an eject — with its
//! CHANGED/CLEAN status, and drives the two actions on them: **export** the
//! delta-applied image to a host `.dsk` and **unload** it from memory so the
//! next mount re-reads the host file. The machine keeps running underneath;
//! TI key input is suspended while it is open.

use vstd::prelude::*;

use crate::input::HostKey;
use crate::strings::{ascii_upper, dec_nat, owned, push_dec_u64, push_str};
use crate::text::{
    canvas_ok, lemma_small_text_fits, op_ok, ops_effect, ops_view, text_width_spec, transforms, Canvas,
    DrawOp, DrawOpView,
};

verus! {

/// One disk image held in memory, as the overlay shows it.
#[derive(Clone, Debug)]
pub struct DiskEntry {
    /// The image's key: the host path it was read from.
    pub key: String,
    /// Its size in bytes.
    pub len: usize,
    /// Whether it changed since it was read.
    pub dirty: bool,
    /// The drive it is mounted in (0 = DSK1), if any.
    pub drive: Option<usize>,
}

/// What the app should do in response to a key routed to the open overlay.
#[derive(Clone, Debug, PartialEq, Eq)]
pub enum DiskAction {
    Nothing,
    /// Close the overlay.
    Close,
    /// Export the image with this key to a host `.dsk` (native save dialog).
    Export(String),
    /// Unload the image with this key from memory (confirming first if dirty).
    Unload(String),
}

/// A [`DiskAction`] with its key as characters.
pub enum DiskActionView {
    Nothing,
    Close,
    Export(Seq<char>),
    Unload(Seq<char>),
}

impl View for DiskAction {
    type V = DiskActionView;

    open spec fn view(&self) -> DiskActionView {
        match self {
            DiskAction::Nothing => DiskActionView::Nothing,
            DiskAction::Close => DiskActionView::Close,
            DiskAction::Export(k) => DiskActionView::Export(k@),
            DiskAction::Unload(k) => DiskActionView::Unload(k@),
        }
    }
}

/// Overlay state: whether it is showing and which row is selected.
pub struct DiskOverlay {
    pub open: bool,
    selected: usize,
}

/// The overlay state: shown, and the selected row.
pub struct OverlayView {
    pub open: bool,
    pub selected: nat,
}

impl View for DiskOverlay {
    type V = OverlayView;

    closed spec fn view(&self) -> OverlayView {
        OverlayView { open: self.open, selected: self.selected as nat }
    }
}

impl Default for DiskOverlay {
    fn default() -> (o: DiskOverlay)
        ensures
            o@ == (OverlayView { open: false, selected: 0 }),
    {
        DiskOverlay { open: false, selected: 0 }
    }
}

/// The selection kept on a real row of a list of `len` rows.
pub open spec fn clamp_row(sel: nat, len: nat) -> nat {
    if len == 0 {
        0
    } else if sel >= len {
        (len - 1) as nat
    } else {
        sel
    }
}

/// The keys of the disks listed.
pub open spec fn disk_keys(disks: Seq<DiskEntry>) -> Seq<Seq<char>> {
    disks.map_values(|d: DiskEntry| d.key@)
}

/// A key routed to the overlay over a list with `keys`: the new selection
/// and the action. The selection is first clamped to the list; Escape/F4
/// close; the arrows move the selection within the list; Enter/E export and
/// U/Delete unload the selected image (nothing when the list is empty).
pub open spec fn handle_spec(sel: nat, code: HostKey, keys: Seq<Seq<char>>) -> (nat, DiskActionView) {
    let s = clamp_row(sel, keys.len());
    match code {
        HostKey::Escape | HostKey::F4 => (s, DiskActionView::Close),
        HostKey::ArrowUp => (if s > 0 {
            (s - 1) as nat
        } else {
            0
        }, DiskActionView::Nothing),
        HostKey::ArrowDown => (if s + 1 < keys.len() {
            s + 1
        } else {
            s
        }, DiskActionView::Nothing),
        HostKey::Enter | HostKey::KeyE => (s, if s < keys.len() {
            DiskActionView::Export(keys[s as int])
        } else {
            DiskActionView::Nothing
        }),
        HostKey::KeyU | HostKey::Delete => (s, if s < keys.len() {
            DiskActionView::Unload(keys[s as int])
        } else {
            DiskActionView::Nothing
        }),
        _ => (s, DiskActionView::Nothing),
    }
}

impl DiskOverlay {
    /// Open the overlay with the selection reset to the first row.
    pub fn open(&mut self)
        ensures
            final(self)@ == (OverlayView { open: true, selected: 0 }),
    {
        self.open = true;
        self.selected = 0;
    }

    /// Route a key press to the overlay. `disks` is the current in-memory list
    /// (fetched fresh by the caller, so the selection always acts on what is
    /// actually shown).
    pub fn handle_key(&mut self, code: HostKey, disks: &[DiskEntry]) -> (a: DiskAction)
        ensures
            final(self)@.open == old(self)@.open,
            (final(self)@.selected, a@) == handle_spec(old(self)@.selected, code, disk_keys(disks@)),
    {
        self.clamp(disks.len());
        let ghost keys = disk_keys(disks@);
        match code {
            HostKey::Escape | HostKey::F4 => DiskAction::Close,
            HostKey::ArrowUp => {
                if self.selected > 0 {
                    self.selected = self.selected - 1;
                }
                DiskAction::Nothing
            },
            HostKey::ArrowDown => {
                if self.selected + 1 < disks.len() {
                    self.selected += 1;
                }
                DiskAction::Nothing
            },
            HostKey::Enter | HostKey::KeyE => {
                if self.selected < disks.len() {
                    assert(keys[self.selected as int] == disks@[self.selected as int].key@);
                    DiskAction::Export(owned(disks[self.selected].key.as_str()))
                } else {
                    DiskAction::Nothing
                }
            },
            HostKey::KeyU | HostKey::Delete => {
                if self.selected < disks.len() {
                    assert(keys[self.selected as int] == disks@[self.selected as int].key@);
                    DiskAction::Unload(owned(disks[self.selected].key.as_str()))
                } else {
                    DiskAction::Nothing
                }
            },
            _ => DiskAction::Nothing,
        }
    }

    /// Whether the overlay is showing.
    pub fn is_open(&self) -> (b: bool)
        ensures
            b == self@.open,
    {
        self.open
    }

    /// Keep the selection on a real row as the list changes underneath it.
    pub(crate) fn clamp(&mut self, len: usize)
        ensures
            final(self)@ == (OverlayView { selected: clamp_row(old(self)@.selected, len as nat), ..old(self)@ }),
    {
        if len == 0 {
            self.selected = 0;
        } else if self.selected >= len {
            self.selected = len - 1;
        }
    }
}

/// The selection always stays on a real row: after any key, on a non-empty
/// list the selected row exists.
pub proof fn lemma_selection_in_list(sel: nat, code: HostKey, keys: Seq<Seq<char>>)
    requires
        keys.len() > 0,
    ensures
        handle_spec(sel, code, keys).0 < keys.len(),
{
}

/// Index of the last `'/'` or `'\\'` in `key`, or `-1`.
pub open spec fn last_separator(key: Seq<char>) -> int
    decreases key.len(),
{
    if key.len() == 0 {
        -1
    } else if key.last() == '/' || key.last() == '\\' {
        key.len() - 1
    } else {
        last_separator(key.drop_last())
    }
}

/// The final path component of a key: what follows its last separator.
pub open spec fn file_name_spec(key: Seq<char>) -> Seq<char> {
    key.subrange(last_separator(key) + 1, key.len() as int)
}

/// The final path component of a disk key, for display and as the suggested
/// export file name (keys are path strings; both separators may appear).
pub fn file_name(key: &str) -> (r: &str)
    ensures
        r@ == file_name_spec(key@),
{
    let v = crate::strings::chars_of(key);
    let mut i: usize = v.len();
    assert(v@.take(i as int) =~= v@);
    while i > 0 && v[i - 1] != '/' && v[i - 1] != '\\'
        invariant
            i <= v@.len(),
            v@ == key@,
            last_separator(key@) == last_separator(v@.take(i as int)),
        decreases i,
    {
        assert(v@.take(i as int).drop_last() =~= v@.take(i - 1));
        i -= 1;
    }
    proof {
        if i > 0 {
            assert(v@.take(i as int).last() == v@[i - 1]);
            assert(last_separator(v@.take(i as int)) == i - 1);
        } else {
            assert(v@.take(0) =~= Seq::<char>::empty());
        }
    }
    key.substring_char(i, v.len())
}

/// How many of `disks` carry unexported changes.
pub open spec fn dirty_in(disks: Seq<DiskEntry>) -> nat
    decreases disks.len(),
{
    if disks.len() == 0 {
        0
    } else {
        dirty_in(disks.drop_last()) + if disks.last().dirty {
            1nat
        } else {
            0nat
        }
    }
}

/// How many in-memory disk images carry unexported changes — what a state
/// load silently rolls back, so the warnings count them first.
pub fn dirty_count(disks: &[DiskEntry]) -> (n: usize)
    ensures
        n == dirty_in(disks@),
{
    let mut n: usize = 0;
    let mut i: usize = 0;
    while i < disks.len()
        invariant
            i <= disks@.len(),
            n == dirty_in(disks@.take(i as int)),
            n <= i,
        decreases disks@.len() - i,
    {
        assert(disks@.take(i + 1).drop_last() =~= disks@.take(i as int));
        if disks[i].dirty {
            n += 1;
        }
        i += 1;
    }
    assert(disks@.take(disks@.len() as int) =~= disks@);
    n
}

// ---- the panel ---------------------------------------------------------------

/// Title ink.
pub const TITLE: u32 = 0x00FF_EE33;
/// Ink of the selected row.
pub const INK: u32 = 0x00E8_E8E8;
/// Ink of secondary text.
pub const DIM: u32 = 0x009B_A6C0;
/// Ink of the CHANGED status.
pub const CHANGED: u32 = 0x00FF_B347;
/// Ink of the selection marker and drive label.
pub const SELECT: u32 = 0x0000_FF66;

/// The number of bytes of a character's UTF-8 encoding.
pub open spec fn utf8_width(c: char) -> nat {
    if (c as u32) < 0x80 {
        1
    } else if (c as u32) < 0x800 {
        2
    } else if (c as u32) < 0x10000 {
        3
    } else {
        4
    }
}

/// How many leading characters of `s` fit in `n` bytes of UTF-8.
pub open spec fn fit_count(s: Seq<char>, n: nat) -> nat
    decreases s.len(),
{
    if s.len() == 0 || utf8_width(s[0]) > n {
        0
    } else {
        1 + fit_count(s.drop_first(), (n - utf8_width(s[0])) as nat)
    }
}

/// How many bytes of UTF-8 those leading characters take.
pub open spec fn fit_bytes(s: Seq<char>, n: nat) -> nat
    decreases s.len(),
{
    if s.len() == 0 || utf8_width(s[0]) > n {
        0
    } else {
        utf8_width(s[0]) + fit_bytes(s.drop_first(), (n - utf8_width(s[0])) as nat)
    }
}

/// Cutting `s` to `n` bytes of UTF-8 falls between two characters: `s` is
/// no longer, or its leading characters fill exactly `n` bytes.
pub open spec fn cuts_cleanly(s: Seq<char>, n: nat) -> bool {
    fit_count(s, n) == s.len() || fit_bytes(s, n) == n
}

/// A disk's file name, upper-cased (ASCII).
pub open spec fn upper_name(key: Seq<char>) -> Seq<char> {
    file_name_spec(key).map_values(|c: char| ascii_upper(c))
}

/// The name a row shows: the upper-cased file name cut to 18 bytes.
pub open spec fn row_name(key: Seq<char>) -> Seq<char> {
    upper_name(key).take(fit_count(upper_name(key), 18) as int)
}

/// The size column: the size in KiB, right-aligned in 4 characters, and `K`.
pub open spec fn size_text(len: nat) -> Seq<char> {
    let d = dec_nat(len / 1024);
    let pad: nat = if d.len() < 4 {
        (4 - d.len()) as nat
    } else {
        0
    };
    Seq::new(pad, |i: int| ' ') + d + "K"@
}

/// A row can be drawn: its name cuts cleanly at 18 bytes, and its drive
/// number can be shown one-based.
pub open spec fn row_ok(d: DiskEntry) -> bool {
    &&& cuts_cleanly(upper_name(d.key@), 18)
    &&& d.drive matches Some(dr) ==> dr < usize::MAX
}

/// Text at `(x, y)` in `color`, at scale 1.
pub open spec fn text_op(x: int, y: int, s: Seq<char>, color: u32) -> DrawOpView {
    DrawOpView::Text { x, y, s, color, scale: 1 }
}

/// The operations that draw row `i` (disk `d`) with row `sel` selected: the
/// selection marker, the name, the drive, the status and the size.
pub open spec fn row_ops(sel: nat, i: nat, d: DiskEntry) -> Seq<DrawOpView> {
    let row_y: int = 43 + 8 * (i as int);
    let ink = if i == sel {
        INK
    } else {
        DIM
    };
    let size = size_text(d.len as nat);
    let marker = if i == sel {
        seq![text_op(12, row_y, ">"@, SELECT)]
    } else {
        seq![]
    };
    let drive = match d.drive {
        Some(dr) => seq![text_op(132, row_y, "DSK"@ + dec_nat((dr + 1) as nat), SELECT)],
        None => seq![],
    };
    let status = if d.dirty {
        text_op(162, row_y, "CHANGED"@, CHANGED)
    } else {
        text_op(162, row_y, "CLEAN"@, DIM)
    };
    marker + seq![text_op(18, row_y, row_name(d.key@), ink)] + drive + seq![
        status,
        text_op(244 - text_width_spec(size.len(), 1), row_y, size, ink),
    ]
}

/// The operations that draw every row.
pub open spec fn rows_ops(sel: nat, disks: Seq<DiskEntry>) -> Seq<DrawOpView>
    decreases disks.len(),
{
    if disks.len() == 0 {
        seq![]
    } else {
        rows_ops(sel, disks.drop_last()) + row_ops(sel, (disks.len() - 1) as nat, disks.last())
    }
}

/// The first operations of the panel: the dimmed backdrop sized to the
/// rows (at least one) and the two heading lines.
pub open spec fn panel_head(len: nat) -> Seq<DrawOpView> {
    let rows: nat = if len == 0 {
        1
    } else {
        len
    };
    seq![
        DrawOpView::Dim { x: 8, y: 16, w: 240, h: 46 + 8 * rows as int, shade: 3 },
        text_op(12, 19, "DISK MEMORY"@, TITLE),
        text_op(12, 27, "HOST .DSK FILES ARE NEVER WRITTEN"@, DIM),
    ] + if len == 0 {
        seq![text_op(18, 43, "(NO DISKS IN MEMORY)"@, DIM)]
    } else {
        seq![]
    }
}

/// The whole panel over `disks` with row `sel` selected: backdrop and
/// headings, each row, and the key help.
pub open spec fn panel_ops(sel: nat, disks: Seq<DiskEntry>) -> Seq<DrawOpView> {
    let rows: nat = if disks.len() == 0 {
        1
    } else {
        disks.len()
    };
    panel_head(disks.len()) + rows_ops(sel, disks) + seq![
        text_op(12, 51 + 8 * rows as int, "ENTER EXPORT   U UNLOAD   ESC CLOSE"@, DIM),
    ]
}

/// The number of bytes of `c`'s UTF-8 encoding.
fn utf8_width_of(c: char) -> (w: usize)
    ensures
        w == utf8_width(c),
        1 <= w <= 4,
{
    let u = c as u32;
    if u < 0x80 {
        1
    } else if u < 0x800 {
        2
    } else if u < 0x10000 {
        3
    } else {
        4
    }
}

proof fn lemma_fit_count_bound(s: Seq<char>, n: nat)
    ensures
        fit_count(s, n) <= n,
        fit_count(s, n) <= s.len(),
        fit_bytes(s, n) <= n,
    decreases s.len(),
{
    if s.len() > 0 && utf8_width(s[0]) <= n {
        lemma_fit_count_bound(s.drop_first(), (n - utf8_width(s[0])) as nat);
    }
}

/// The name a row shows for `key`.
fn row_name_of(key: &str) -> (r: String)
    ensures
        r@ == row_name(key@),
        r@.len() <= 18,
{
    let name = file_name(key);
    let v = crate::strings::chars_of(name);
    let ghost up = upper_name(key@);
    assert(up.len() == v@.len());
    let mut out = String::new();
    let mut used: usize = 0;
    let mut i: usize = 0;
    assert(up.skip(0) =~= up);
    assert(out@ =~= up.take(0));
    while i < v.len() && utf8_width_of(crate::strings::to_ascii_upper(v[i])) <= 18 - used
        invariant
            v@ == file_name_spec(key@),
            up == upper_name(key@),
            up.len() == v@.len(),
            i <= v@.len(),
            used <= 18,
            out@ == up.take(i as int),
            fit_count(up, 18) == i + fit_count(up.skip(i as int), (18 - used) as nat),
        decreases v@.len() - i,
    {
        let c = crate::strings::to_ascii_upper(v[i]);
        let w = utf8_width_of(c);
        proof {
            assert(up[i as int] == c);
            assert(up.skip(i as int)[0] == c);
            assert(up.skip(i as int).drop_first() =~= up.skip(i + 1));
        }
        out.push(c);
        used += w;
        i += 1;
        assert(out@ =~= up.take(i as int));
    }
    proof {
        if i < v@.len() {
            assert(up.skip(i as int)[0] == up[i as int]);
        }
        assert(fit_count(up.skip(i as int), (18 - used) as nat) == 0);
        lemma_fit_count_bound(up, 18);
    }
    out
}

/// The size column for a disk of `len` bytes.
fn size_label(len: usize) -> (s: String)
    ensures
        s@ == size_text(len as nat),
        s@.len() <= 25,
{
    let mut d = String::new();
    push_dec_u64(&mut d, (len / 1024) as u64);
    let ghost dv = dec_nat(len as nat / 1024);
    assert(d@ =~= dv);
    proof {
        crate::strings::lemma_dec_len_u64(len as nat / 1024);
    }
    let n = d.as_str().unicode_len();
    let mut s = String::new();
    let mut k: usize = n;
    while k < 4
        invariant
            n == dv.len(),
            n <= k <= 4 || (k == n && n >= 4),
            s@ == Seq::new((k - n) as nat, |i: int| ' '),
        decreases 4 - k,
    {
        s.push(' ');
        k += 1;
        assert(s@ =~= Seq::new((k - n) as nat, |i: int| ' '));
    }
    push_str(&mut s, d.as_str());
    s.push('K');
    proof {
        reveal_strlit("K");
    }
    assert(s@ =~= size_text(len as nat));
    s
}

/// Text at `(x, y)` in `color`, at scale 1.
fn text_at(x: usize, y: usize, s: String, color: u32) -> (op: DrawOp)
    ensures
        op@ == text_op(x as int, y as int, s@, color),
{
    DrawOp::Text { x, y, s, color, scale: 1 }
}

/// The panel's coordinates for `len` rows fit a `usize` (the lowest row
/// and the key help below it are computed as `usize`).
pub open spec fn panel_fits(len: nat) -> bool {
    8 * len + 100 <= usize::MAX
}

/// The marker of the selected row.
fn marker_op(row_y: usize) -> (op: DrawOp)
    requires
        row_y + 8 <= usize::MAX,
    ensures
        op@ == text_op(12, row_y as int, ">"@, SELECT),
        op_ok(op@),
{
    proof {
        reveal_strlit(">");
        lemma_small_text_fits(">"@, 12, row_y as int);
    }
    text_at(12, row_y, owned(">"), SELECT)
}

/// The name column of a row.
fn name_op(row_y: usize, key: &str, ink: u32) -> (op: DrawOp)
    requires
        row_y + 8 <= usize::MAX,
    ensures
        op@ == text_op(18, row_y as int, row_name(key@), ink),
        op_ok(op@),
{
    let name = row_name_of(key);
    proof {
        lemma_small_text_fits(name@, 18, row_y as int);
    }
    text_at(18, row_y, name, ink)
}

/// The drive column of a row mounted in drive `dr` (0 = DSK1).
fn drive_op(row_y: usize, dr: usize) -> (op: DrawOp)
    requires
        row_y + 8 <= usize::MAX,
        dr < usize::MAX,
    ensures
        op@ == text_op(132, row_y as int, "DSK"@ + dec_nat((dr + 1) as nat), SELECT),
        op_ok(op@),
{
    proof {
        reveal_strlit("DSK");
    }
    let mut s = owned("DSK");
    push_dec_u64(&mut s, (dr + 1) as u64);
    proof {
        crate::strings::lemma_dec_len_u64((dr + 1) as nat);
        lemma_small_text_fits(s@, 132, row_y as int);
    }
    assert(s@ =~= "DSK"@ + dec_nat((dr + 1) as nat));
    text_at(132, row_y, s, SELECT)
}

/// The status column of a row.
fn status_op(row_y: usize, dirty: bool) -> (op: DrawOp)
    requires
        row_y + 8 <= usize::MAX,
    ensures
        op@ == (if dirty {
            text_op(162, row_y as int, "CHANGED"@, CHANGED)
        } else {
            text_op(162, row_y as int, "CLEAN"@, DIM)
        }),
        op_ok(op@),
{
    proof {
        reveal_strlit("CHANGED");
        reveal_strlit("CLEAN");
        lemma_small_text_fits("CHANGED"@, 162, row_y as int);
        lemma_small_text_fits("CLEAN"@, 162, row_y as int);
    }
    if dirty {
        text_at(162, row_y, owned("CHANGED"), CHANGED)
    } else {
        text_at(162, row_y, owned("CLEAN"), DIM)
    }
}

/// The size column of a row, right-aligned to the panel's edge.
fn size_op(row_y: usize, len: usize, ink: u32) -> (op: DrawOp)
    requires
        row_y + 8 <= usize::MAX,
    ensures
        op@ == text_op(
            244 - text_width_spec(size_text(len as nat).len(), 1),
            row_y as int,
            size_text(len as nat),
            ink,
        ),
        op_ok(op@),
{
    let size = size_label(len);
    let tw = crate::text::text_width(size.as_str(), 1);
    proof {
        lemma_small_text_fits(size@, 244 - tw, row_y as int);
    }
    text_at(244 - tw, row_y, size, ink)
}

/// Append the operations of row `i`, disk `d`, with row `sel` selected.
fn push_row(ops: &mut Vec<DrawOp>, sel: usize, i: usize, d: &DiskEntry)
    requires
        panel_fits(i as nat),
        row_ok(*d),
        forall|j: int| 0 <= j < old(ops)@.len() ==> op_ok(#[trigger] old(ops)@[j]@),
    ensures
        ops_view(final(ops)@) == ops_view(old(ops)@) + row_ops(sel as nat, i as nat, *d),
        forall|j: int| 0 <= j < final(ops)@.len() ==> op_ok(#[trigger] final(ops)@[j]@),
{
    let ghost start = ops_view(ops@);
    let row_y = 43 + 8 * i;
    let ink = if i == sel {
        INK
    } else {
        DIM
    };
    let ghost marker: Seq<DrawOpView> = if i == sel {
        seq![text_op(12, row_y as int, ">"@, SELECT)]
    } else {
        seq![]
    };
    if i == sel {
        ops.push(marker_op(row_y));
    }
    assert(ops_view(ops@) =~= start + marker);
    let ghost s1 = ops_view(ops@);
    ops.push(name_op(row_y, d.key.as_str(), ink));
    assert(ops_view(ops@) =~= s1.push(text_op(18, row_y as int, row_name(d.key@), ink)));
    let ghost s2 = ops_view(ops@);
    let ghost drive: Seq<DrawOpView> = match d.drive {
        Some(dr) => seq![text_op(132, row_y as int, "DSK"@ + dec_nat((dr + 1) as nat), SELECT)],
        None => seq![],
    };
    match d.drive {
        Some(dr) => {
            ops.push(drive_op(row_y, dr));
        },
        None => {},
    }
    assert(ops_view(ops@) =~= s2 + drive);
    let ghost s3 = ops_view(ops@);
    ops.push(status_op(row_y, d.dirty));
    let ghost s4 = ops_view(ops@);
    assert(s4 =~= s3.push(ops@.last()@));
    ops.push(size_op(row_y, d.len, ink));
    assert(ops_view(ops@) =~= s4.push(ops@.last()@));
    assert(ops_view(ops@) =~= start + row_ops(sel as nat, i as nat, *d));
}

impl DiskOverlay {
    /// Append the panel's display list over `disks`, with the current
    /// selection, to `ops`.
    pub(crate) fn push_panel(&self, ops: &mut Vec<DrawOp>, disks: &[DiskEntry])
        requires
            panel_fits(disks@.len()),
            forall|i: int| 0 <= i < disks@.len() ==> row_ok(#[trigger] disks@[i]),
            forall|j: int| 0 <= j < old(ops)@.len() ==> op_ok(#[trigger] old(ops)@[j]@),
        ensures
            ops_view(final(ops)@) == ops_view(old(ops)@) + panel_ops(self@.selected, disks@),
            forall|j: int| 0 <= j < final(ops)@.len() ==> op_ok(#[trigger] final(ops)@[j]@),
    {
        let ghost start = ops_view(ops@);
        proof {
            reveal_strlit("DISK MEMORY");
            reveal_strlit("HOST .DSK FILES ARE NEVER WRITTEN");
            reveal_strlit("(NO DISKS IN MEMORY)");
            reveal_strlit("ENTER EXPORT   U UNLOAD   ESC CLOSE");
        }
        let rows = if disks.len() == 0 {
            1
        } else {
            disks.len()
        };
        ops.push(DrawOp::Dim { x: 8, y: 16, w: 240, h: 46 + 8 * rows, shade: 3 });
        ops.push(text_at(12, 19, owned("DISK MEMORY"), TITLE));
        ops.push(text_at(12, 27, owned("HOST .DSK FILES ARE NEVER WRITTEN"), DIM));
        proof {
            lemma_small_text_fits("DISK MEMORY"@, 12, 19);
            lemma_small_text_fits("HOST .DSK FILES ARE NEVER WRITTEN"@, 12, 27);
            lemma_small_text_fits("(NO DISKS IN MEMORY)"@, 18, 43);
        }
        if disks.len() == 0 {
            ops.push(text_at(18, 43, owned("(NO DISKS IN MEMORY)"), DIM));
        }
        assert(ops_view(ops@) =~= start + panel_head(disks@.len()));
        let mut i: usize = 0;
        while i < disks.len()
            invariant
                i <= disks@.len(),
                panel_fits(disks@.len()),
                forall|k: int| 0 <= k < disks@.len() ==> row_ok(#[trigger] disks@[k]),
                ops_view(ops@) == start + panel_head(disks@.len()) + rows_ops(self@.selected, disks@.take(i as int)),
                forall|j: int| 0 <= j < ops@.len() ==> op_ok(#[trigger] ops@[j]@),
            decreases disks@.len() - i,
        {
            assert(row_ok(disks@[i as int]));
            push_row(ops, self.selected, i, &disks[i]);
            proof {
                let t = disks@.take(i + 1);
                assert(t.drop_last() =~= disks@.take(i as int));
                assert(t.last() == disks@[i as int]);
            }
            i += 1;
        }
        assert(disks@.take(disks@.len() as int) =~= disks@);
        let ghost body = ops_view(ops@);
        let ghost head = panel_head(disks@.len());
        let ghost rows_v = rows_ops(self@.selected, disks@);
        assert(body == start + head + rows_v);
        let footer_y = 51 + 8 * rows;
        proof {
            lemma_small_text_fits("ENTER EXPORT   U UNLOAD   ESC CLOSE"@, 12, footer_y as int);
        }
        let footer = text_at(12, footer_y, owned("ENTER EXPORT   U UNLOAD   ESC CLOSE"), DIM);
        let ghost f = footer@;
        ops.push(footer);
        assert(ops_view(ops@) =~= body.push(f));
        assert(panel_ops(self@.selected, disks@) =~= head + rows_v + seq![f]);
        assert(body.push(f) =~= start + (head + rows_v + seq![f]));
    }

    /// Draw the overlay over the rendered frame: clamp the selection to the
    /// list, then paint the panel — a dimmed backdrop, the headings, one row
    /// per disk (selection marker, name, drive, CHANGED/CLEAN, size in KiB)
    /// and the key help.
    pub fn render(&mut self, canvas: &mut Canvas, disks: &[DiskEntry])
        requires
            canvas_ok(old(canvas)@),
            panel_fits(disks@.len()),
            forall|i: int| 0 <= i < disks@.len() ==> row_ok(#[trigger] disks@[i]),
        ensures
            final(self)@ == (OverlayView { selected: clamp_row(old(self)@.selected, disks@.len()), ..old(self)@ }),
            canvas_ok(final(canvas)@),
            transforms(old(canvas)@, final(canvas)@, ops_effect(panel_ops(final(self)@.selected, disks@))),
    {
        self.clamp(disks.len());
        let mut ops: Vec<DrawOp> = Vec::new();
        self.push_panel(&mut ops, disks);
        assert(ops_view(ops@) =~= panel_ops(self@.selected, disks@));
        canvas.run(ops.as_slice());
    }
}

} // verus!
