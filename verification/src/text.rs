//! A tiny 5×7 bitmap font and helpers for drawing text overlays directly into
//! a `0x00RRGGBB` framebuffer.
//!
//! The app has no GUI toolkit — it presents a raw framebuffer — so on-screen UI
//! (the save/load toast, the keyboard reference card) is painted pixel by pixel
//! here. Text is drawn into the 256×192 image *before* it is upscaled to the
//! window, so it scales crisply with everything else.
//!
//! Each glyph is 7 rows of 5 bits (bit 4 = leftmost pixel). Lowercase letters
//! reuse the uppercase glyphs (the TI's default font is uppercase anyway).

use vstd::prelude::*;

use crate::strings::ascii_upper;

verus! {

/// Glyph cell width in pixels (5 drawn + 1 spacing = 6-pixel advance).
pub const GLYPH_W: usize = 5;

/// Glyph cell height in pixels.
pub const GLYPH_H: usize = 7;

/// Horizontal advance between glyph origins (1 px inter-character gap).
pub const ADVANCE: usize = GLYPH_W + 1;

/// Vertical advance between text rows (1 px inter-line gap).
pub const LINE: usize = GLYPH_H + 1;

/// The empty glyph.
pub const BLANK: [u8; 7] = [0, 0, 0, 0, 0, 0, 0];

/// Printable ASCII `0x20..=0x7F`, in order. Lowercase slots are blank because
/// [`glyph`] uppercases before indexing.
pub const FONT: [[u8; 7]; 96] = [
    [0b00000,0b00000,0b00000,0b00000,0b00000,0b00000,0b00000], // (space)
    [0b00100,0b00100,0b00100,0b00100,0b00100,0b00000,0b00100], // !
    [0b01010,0b01010,0b01010,0b00000,0b00000,0b00000,0b00000], // "
    [0b01010,0b01010,0b11111,0b01010,0b11111,0b01010,0b01010], // #
    [0b00100,0b01111,0b10100,0b01110,0b00101,0b11110,0b00100], // $
    [0b11000,0b11001,0b00010,0b00100,0b01000,0b10011,0b00011], // %
    [0b01100,0b10010,0b10100,0b01000,0b10101,0b10010,0b01101], // &
    [0b00100,0b00100,0b00100,0b00000,0b00000,0b00000,0b00000], // '
    [0b00010,0b00100,0b01000,0b01000,0b01000,0b00100,0b00010], // (
    [0b01000,0b00100,0b00010,0b00010,0b00010,0b00100,0b01000], // )
    [0b00000,0b00100,0b10101,0b01110,0b10101,0b00100,0b00000], // *
    [0b00000,0b00100,0b00100,0b11111,0b00100,0b00100,0b00000], // +
    [0b00000,0b00000,0b00000,0b00000,0b00100,0b00100,0b01000], // ,
    [0b00000,0b00000,0b00000,0b11111,0b00000,0b00000,0b00000], // -
    [0b00000,0b00000,0b00000,0b00000,0b00000,0b00110,0b00110], // .
    [0b00001,0b00010,0b00100,0b00100,0b00100,0b01000,0b10000], // /
    [0b01110,0b10001,0b10011,0b10101,0b11001,0b10001,0b01110], // 0
    [0b00100,0b01100,0b00100,0b00100,0b00100,0b00100,0b01110], // 1
    [0b01110,0b10001,0b00001,0b00010,0b00100,0b01000,0b11111], // 2
    [0b11111,0b00010,0b00100,0b00010,0b00001,0b10001,0b01110], // 3
    [0b00010,0b00110,0b01010,0b10010,0b11111,0b00010,0b00010], // 4
    [0b11111,0b10000,0b11110,0b00001,0b00001,0b10001,0b01110], // 5
    [0b00110,0b01000,0b10000,0b11110,0b10001,0b10001,0b01110], // 6
    [0b11111,0b00001,0b00010,0b00100,0b01000,0b01000,0b01000], // 7
    [0b01110,0b10001,0b10001,0b01110,0b10001,0b10001,0b01110], // 8
    [0b01110,0b10001,0b10001,0b01111,0b00001,0b00010,0b01100], // 9
    [0b00000,0b00110,0b00110,0b00000,0b00110,0b00110,0b00000], // :
    [0b00000,0b00110,0b00110,0b00000,0b00110,0b00100,0b01000], // ;
    [0b00010,0b00100,0b01000,0b10000,0b01000,0b00100,0b00010], // <
    [0b00000,0b00000,0b11111,0b00000,0b11111,0b00000,0b00000], // =
    [0b01000,0b00100,0b00010,0b00001,0b00010,0b00100,0b01000], // >
    [0b01110,0b10001,0b00001,0b00010,0b00100,0b00000,0b00100], // ?
    [0b01110,0b10001,0b00001,0b01101,0b10101,0b10101,0b01110], // @
    [0b01110,0b10001,0b10001,0b11111,0b10001,0b10001,0b10001], // A
    [0b11110,0b10001,0b10001,0b11110,0b10001,0b10001,0b11110], // B
    [0b01110,0b10001,0b10000,0b10000,0b10000,0b10001,0b01110], // C
    [0b11100,0b10010,0b10001,0b10001,0b10001,0b10010,0b11100], // D
    [0b11111,0b10000,0b10000,0b11110,0b10000,0b10000,0b11111], // E
    [0b11111,0b10000,0b10000,0b11110,0b10000,0b10000,0b10000], // F
    [0b01110,0b10001,0b10000,0b10111,0b10001,0b10001,0b01111], // G
    [0b10001,0b10001,0b10001,0b11111,0b10001,0b10001,0b10001], // H
    [0b01110,0b00100,0b00100,0b00100,0b00100,0b00100,0b01110], // I
    [0b00111,0b00010,0b00010,0b00010,0b00010,0b10010,0b01100], // J
    [0b10001,0b10010,0b10100,0b11000,0b10100,0b10010,0b10001], // K
    [0b10000,0b10000,0b10000,0b10000,0b10000,0b10000,0b11111], // L
    [0b10001,0b11011,0b10101,0b10101,0b10001,0b10001,0b10001], // M
    [0b10001,0b11001,0b10101,0b10011,0b10001,0b10001,0b10001], // N
    [0b01110,0b10001,0b10001,0b10001,0b10001,0b10001,0b01110], // O
    [0b11110,0b10001,0b10001,0b11110,0b10000,0b10000,0b10000], // P
    [0b01110,0b10001,0b10001,0b10001,0b10101,0b10010,0b01101], // Q
    [0b11110,0b10001,0b10001,0b11110,0b10100,0b10010,0b10001], // R
    [0b01111,0b10000,0b10000,0b01110,0b00001,0b00001,0b11110], // S
    [0b11111,0b00100,0b00100,0b00100,0b00100,0b00100,0b00100], // T
    [0b10001,0b10001,0b10001,0b10001,0b10001,0b10001,0b01110], // U
    [0b10001,0b10001,0b10001,0b10001,0b10001,0b01010,0b00100], // V
    [0b10001,0b10001,0b10001,0b10101,0b10101,0b10101,0b01010], // W
    [0b10001,0b10001,0b01010,0b00100,0b01010,0b10001,0b10001], // X
    [0b10001,0b10001,0b01010,0b00100,0b00100,0b00100,0b00100], // Y
    [0b11111,0b00001,0b00010,0b00100,0b01000,0b10000,0b11111], // Z
    [0b01110,0b01000,0b01000,0b01000,0b01000,0b01000,0b01110], // [
    [0b10000,0b01000,0b00100,0b00100,0b00100,0b00010,0b00001], // backslash
    [0b01110,0b00010,0b00010,0b00010,0b00010,0b00010,0b01110], // ]
    [0b00100,0b01010,0b10001,0b00000,0b00000,0b00000,0b00000], // ^
    [0b00000,0b00000,0b00000,0b00000,0b00000,0b00000,0b11111], // _
    [0b01000,0b00100,0b00010,0b00000,0b00000,0b00000,0b00000], // `
    BLANK, BLANK, BLANK, BLANK, BLANK, BLANK, BLANK, BLANK, BLANK, BLANK, // a-j
    BLANK, BLANK, BLANK, BLANK, BLANK, BLANK, BLANK, BLANK, BLANK, BLANK, // k-t
    BLANK, BLANK, BLANK, BLANK, BLANK, BLANK,                             // u-z
    [0b00010,0b00100,0b00100,0b01000,0b00100,0b00100,0b00010], // {
    [0b00100,0b00100,0b00100,0b00100,0b00100,0b00100,0b00100], // |
    [0b01000,0b00100,0b00100,0b00010,0b00100,0b00100,0b01000], // }
    [0b00000,0b00000,0b01000,0b10101,0b00010,0b00000,0b00000], // ~
    BLANK,                                                     // 0x7F
];

/// The character `c` with ASCII lower case folded to upper case.
pub open spec fn fold_upper(c: char) -> char {
    ascii_upper(c)
}

/// The 7-row bitmap for `c` (lower case folded to upper case; characters
/// outside `0x20..=0x7F` are blank).
pub open spec fn glyph_spec(c: char) -> Seq<u8> {
    let idx = fold_upper(c) as int - 0x20;
    if 0 <= idx < 96 {
        FONT[idx]@
    } else {
        BLANK@
    }
}

/// The 7-row bitmap for `c` (lowercase folded to uppercase; unknown ⇒ blank).
pub fn glyph(c: char) -> (g: [u8; 7])
    ensures
        g@ == glyph_spec(c),
{
    let u = crate::strings::to_ascii_upper(c);
    let code = u as u32;
    if code >= 0x20 && code < 0x80 {
        let idx = (code - 0x20) as usize;
        FONT[idx]
    } else {
        BLANK
    }
}

/// Lower-case letters draw as their upper-case forms.
pub proof fn lemma_glyph_folds_case(c: char)
    requires
        'a' <= c <= 'z',
    ensures
        glyph_spec(c) == glyph_spec(ascii_upper(c)),
{
}

/// The width in pixels of `n` characters at `scale` (no trailing gap).
pub open spec fn text_width_spec(n: nat, scale: nat) -> int {
    if n == 0 {
        0
    } else {
        (n * ADVANCE - 1) * scale
    }
}

/// Pixel width a string occupies at `scale` (no trailing inter-char gap).
pub fn text_width(s: &str, scale: usize) -> (w: usize)
    requires
        s@.len() * ADVANCE <= usize::MAX,
        text_width_spec(s@.len(), scale as nat) <= usize::MAX,
    ensures
        w == text_width_spec(s@.len(), scale as nat),
{
    let n = s.unicode_len();
    if n == 0 {
        0
    } else {
        assert(ADVANCE == 6);
        assert(n * ADVANCE == n * 6);
        let m = n * ADVANCE - 1;
        assert(m * scale == text_width_spec(s@.len(), scale as nat));
        m * scale
    }
}

/// A drawable view over a framebuffer: the pixel slice plus its dimensions.
pub struct Canvas<'a> {
    pixels: &'a mut [u32],
    width: usize,
    height: usize,
}

/// The pixels and dimensions of a canvas.
pub struct CanvasView {
    pub pixels: Seq<u32>,
    pub width: nat,
    pub height: nat,
}

impl<'a> View for Canvas<'a> {
    type V = CanvasView;

    closed spec fn view(&self) -> CanvasView {
        CanvasView { pixels: self.pixels@, width: self.width as nat, height: self.height as nat }
    }
}

impl<'a> Canvas<'a> {
    /// Wrap a `width × height` framebuffer (`0x00RRGGBB` words).
    pub fn new(pixels: &'a mut [u32], width: usize, height: usize) -> (c: Canvas<'a>)
        requires
            width * height <= old(pixels)@.len(),
        ensures
            c@ == (CanvasView { pixels: old(pixels)@, width: width as nat, height: height as nat }),
    {
        Canvas { pixels, width, height }
    }
}

/// The pixel at column `px`, row `py` of a canvas.
pub open spec fn at(v: CanvasView, px: int, py: int) -> u32 {
    v.pixels[py * v.width + px]
}

/// `new` is `old` with each on-canvas pixel `(px, py)` replaced by
/// `g(px, py, old pixel)`; the dimensions and any pixels beyond
/// `width × height` are unchanged.
pub open spec fn transforms(old: CanvasView, new: CanvasView, g: spec_fn(int, int, u32) -> u32) -> bool {
    &&& new.width == old.width
    &&& new.height == old.height
    &&& new.pixels.len() == old.pixels.len()
    &&& forall|px: int, py: int|
        0 <= px < old.width && 0 <= py < old.height ==> #[trigger] at(new, px, py) == g(px, py, at(old, px, py))
    &&& forall|i: int| old.width * old.height <= i < old.pixels.len() ==> #[trigger] new.pixels[i] == old.pixels[i]
}

/// Paint the pixels where `f` holds with `color`.
pub open spec fn paint(f: spec_fn(int, int) -> bool, color: u32) -> spec_fn(int, int, u32) -> u32 {
    |px: int, py: int, p: u32| if f(px, py) {
        color
    } else {
        p
    }
}

/// The canvas is well formed: the pixel buffer covers `width × height`.
pub open spec fn canvas_ok(v: CanvasView) -> bool {
    v.width * v.height <= v.pixels.len()
}

proof fn lemma_index(w: int, px: int, py: int, qx: int, qy: int)
    requires
        0 <= px < w,
        0 <= qx < w,
        0 <= py,
        0 <= qy,
    ensures
        (py * w + px == qy * w + qx) <==> (px == qx && py == qy),
{
    if py < qy {
        assert(py * w + px < qy * w + qx) by (nonlinear_arith)
            requires
                py < qy,
                0 <= px < w,
                0 <= qx,
        ;
    } else if py > qy {
        assert(py * w + px > qy * w + qx) by (nonlinear_arith)
            requires
                py > qy,
                0 <= qx < w,
                0 <= px,
        ;
    }
}

proof fn lemma_index_bound(w: int, h: int, px: int, py: int)
    requires
        0 <= px < w,
        0 <= py < h,
    ensures
        0 <= py * w + px < w * h,
{
    assert(0 <= py * w + px < w * h) by (nonlinear_arith)
        requires
            0 <= px < w,
            0 <= py < h,
    ;
}

/// Two transformations in turn are their composition.
proof fn lemma_transforms_then(
    a: CanvasView,
    b: CanvasView,
    c: CanvasView,
    g1: spec_fn(int, int, u32) -> u32,
    g2: spec_fn(int, int, u32) -> u32,
)
    requires
        transforms(a, b, g1),
        transforms(b, c, g2),
    ensures
        transforms(a, c, |px: int, py: int, p: u32| g2(px, py, g1(px, py, p))),
{
    assert forall|px: int, py: int| 0 <= px < a.width && 0 <= py < a.height implies #[trigger] at(c, px, py)
        == g2(px, py, g1(px, py, at(a, px, py))) by {
        assert(at(c, px, py) == g2(px, py, at(b, px, py)));
    }
    assert forall|i: int| a.width * a.height <= i < a.pixels.len() implies #[trigger] c.pixels[i] == a.pixels[i] by {
        assert(b.pixels[i] == a.pixels[i]);
    }
}

/// A transformation may be restated by any function that agrees with it on
/// the canvas's pixels.
proof fn lemma_transforms_same(
    a: CanvasView,
    b: CanvasView,
    g1: spec_fn(int, int, u32) -> u32,
    g2: spec_fn(int, int, u32) -> u32,
)
    requires
        transforms(a, b, g1),
        forall|px: int, py: int|
            0 <= px < a.width && 0 <= py < a.height ==> #[trigger] g1(px, py, at(a, px, py)) == g2(px, py, at(a, px, py)),
    ensures
        transforms(a, b, g2),
{
    assert forall|px: int, py: int| 0 <= px < a.width && 0 <= py < a.height implies #[trigger] at(b, px, py)
        == g2(px, py, at(a, px, py)) by {
        assert(g1(px, py, at(a, px, py)) == g2(px, py, at(a, px, py)));
    }
}

/// Nothing changes.
proof fn lemma_transforms_id(a: CanvasView)
    ensures
        transforms(a, a, |px: int, py: int, p: u32| p),
{
}

/// Whether bit `col` (0 = leftmost) of a glyph row is set.
pub open spec fn bit_at(b: u8, col: int) -> bool {
    b & (1u8 << ((4 - col) as u8)) != 0
}

/// Whether bitmap `bits`, drawn at `(x, y)` magnified by `scale`, covers
/// pixel `(px, py)`.
pub open spec fn covered(bits: Seq<u8>, x: int, y: int, scale: int, px: int, py: int) -> bool {
    &&& scale > 0
    &&& x <= px
    &&& y <= py
    &&& (px - x) / scale < 5
    &&& (py - y) / scale < 7
    &&& bit_at(bits[(py - y) / scale], (px - x) / scale)
}

/// Drawing `bits` at `(x, y)` magnified by `scale` computes no coordinate
/// beyond `usize::MAX`.
pub open spec fn bits_fit(bits: Seq<u8>, x: int, y: int, scale: int) -> bool {
    scale == 0 || forall|row: int, col: int|
        0 <= row < 7 && 0 <= col < 5 && #[trigger] bit_at(bits[row], col) ==> x + col * scale + scale - 1
            <= usize::MAX && y + row * scale + scale - 1 <= usize::MAX
}

proof fn lemma_div_bound(d: int, scale: int, n: int)
    requires
        scale > 0,
        d >= 0,
        n >= 0,
    ensures
        d / scale < n <==> d < n * scale,
        0 <= d / scale,
{
    let q = d / scale;
    let r = d % scale;
    assert(d == q * scale + r && 0 <= r < scale && q >= 0) by (nonlinear_arith)
        requires
            scale > 0,
            d >= 0,
            q == d / scale,
            r == d % scale,
    ;
    if q < n {
        assert(q * scale + r < n * scale) by (nonlinear_arith)
            requires
                q < n,
                0 <= r < scale,
        ;
    } else {
        assert(q * scale >= n * scale) by (nonlinear_arith)
            requires
                q >= n,
                scale > 0,
        ;
    }
}

impl<'a> Canvas<'a> {
    /// Set one pixel, ignoring out-of-bounds coordinates.
    pub fn put_pixel(&mut self, x: usize, y: usize, color: u32)
        requires
            canvas_ok(old(self)@),
        ensures
            canvas_ok(final(self)@),
            transforms(old(self)@, final(self)@, paint(|px: int, py: int| px == x && py == y, color)),
    {
        let ghost v0 = self@;
        if x < self.width && y < self.height {
            proof {
                lemma_index_bound(self.width as int, self.height as int, x as int, y as int);
            }
            let n = self.pixels.len();
            assert(y * self.width <= y * self.width + x < n);
            let i = y * self.width + x;
            self.pixels[i] = color;
            proof {
                let v1 = self@;
                let w = v0.width as int;
                assert forall|px: int, py: int| 0 <= px < v0.width && 0 <= py < v0.height implies #[trigger] at(
                    v1,
                    px,
                    py,
                ) == paint(|px: int, py: int| px == x && py == y, color)(px, py, at(v0, px, py)) by {
                    lemma_index(w, px, py, x as int, y as int);
                    lemma_index_bound(w, v0.height as int, px, py);
                }
            }
        }
    }

    /// Draw an arbitrary 7-row, 5-bit-wide bitmap at `(x, y)`, magnified by
    /// `scale` (bit 4 = leftmost pixel, same packing as [`FONT`]). Used for the
    /// non-ASCII icons — cursor arrows, the return symbol, the shift glyph.
    pub fn draw_bits(&mut self, x: usize, y: usize, bits: &[u8; 7], color: u32, scale: usize)
        requires
            canvas_ok(old(self)@),
            bits_fit(bits@, x as int, y as int, scale as int),
        ensures
            canvas_ok(final(self)@),
            transforms(
                old(self)@,
                final(self)@,
                paint(|px: int, py: int| covered(bits@, x as int, y as int, scale as int, px, py), color),
            ),
    {
        let ghost v0 = self@;
        let ghost f = |px: int, py: int| covered(bits@, x as int, y as int, scale as int, px, py);
        if scale == 0 {
            proof {
                lemma_transforms_id(v0);
                lemma_transforms_same(v0, v0, |px: int, py: int, p: u32| p, paint(f, color));
            }
            return;
        }
        let y_lim: u128 = y as u128 + 7 * scale as u128;
        let y_end: usize = if y_lim < self.height as u128 {
            y_lim as usize
        } else {
            self.height
        };
        let x_lim: u128 = x as u128 + 5 * scale as u128;
        let x_end: usize = if x_lim < self.width as u128 {
            x_lim as usize
        } else {
            self.width
        };
        let mut py: usize = y;
        proof {
            lemma_transforms_id(v0);
            lemma_transforms_same(
                v0,
                v0,
                |px: int, py2: int, p: u32| p,
                paint(|px: int, py2: int| py2 < y && f(px, py2), color),
            );
        }
        while py < y_end
            invariant
                scale > 0,
                y <= py,
                py <= y_end || py == y,
                y_end <= v0.height,
                y_end <= y + 7 * scale,
                y_end == v0.height || y_end == y + 7 * scale,
                x_end <= v0.width,
                x_end <= x + 5 * scale,
                x_end == v0.width || x_end == x + 5 * scale,
                canvas_ok(self@),
                self@.width == v0.width,
                self@.height == v0.height,
                f == (|px: int, py: int| covered(bits@, x as int, y as int, scale as int, px, py)),
                transforms(v0, self@, paint(|px: int, py2: int| py2 < py && f(px, py2), color)),
            decreases y_end - py,
        {
            proof {
                lemma_div_bound(py - y, scale as int, 7);
            }
            let row = (py - y) / scale;
            let b = bits[row];
            let mut px: usize = x;
            let ghost v_row = self@;
            proof {
                lemma_transforms_id(v_row);
                lemma_transforms_same(
                    v_row,
                    v_row,
                    |qx: int, qy: int, p: u32| p,
                    paint(|qx: int, qy: int| qy == py && qx < x && f(qx, qy), color),
                );
            }
            while px < x_end
                invariant
                    scale > 0,
                    x <= px,
                    px <= x_end || px == x,
                    y <= py < y_end,
                    x_end <= v0.width,
                    x_end <= x + 5 * scale,
                    x_end == v0.width || x_end == x + 5 * scale,
                    y_end <= v0.height,
                    y_end <= y + 7 * scale,
                    row as int == (py - y) as int / (scale as int),
                    row < 7,
                    b == bits@[row as int],
                    canvas_ok(self@),
                    self@.width == v0.width,
                    self@.height == v0.height,
                    f == (|qx: int, qy: int| covered(bits@, x as int, y as int, scale as int, qx, qy)),
                    transforms(v_row, self@, paint(|qx: int, qy: int| qy == py && qx < px && f(qx, qy), color)),
                decreases x_end - px,
            {
                proof {
                    lemma_div_bound(px - x, scale as int, 5);
                }
                let col = (px - x) / scale;
                let sh = (4 - col) as u8;
                let ghost v1 = self@;
                if b & (1u8 << sh) != 0 {
                    self.put_pixel(px, py, color);
                    proof {
                        lemma_transforms_then(
                            v_row,
                            v1,
                            self@,
                            paint(|qx: int, qy: int| qy == py && qx < px && f(qx, qy), color),
                            paint(|qx: int, qy: int| qx == px && qy == py, color),
                        );
                        assert(f(px as int, py as int));
                    }
                } else {
                    proof {
                        assert(!f(px as int, py as int));
                    }
                }
                proof {
                    lemma_transforms_same(
                        v_row,
                        self@,
                        if b & (1u8 << sh) != 0 {
                            |qx: int, qy: int, p: u32|
                                paint(|qx: int, qy: int| qx == px && qy == py, color)(
                                    qx,
                                    qy,
                                    paint(|qx: int, qy: int| qy == py && qx < px && f(qx, qy), color)(qx, qy, p),
                                )
                        } else {
                            paint(|qx: int, qy: int| qy == py && qx < px && f(qx, qy), color)
                        },
                        paint(|qx: int, qy: int| qy == py && qx < px + 1 && f(qx, qy), color),
                    );
                }
                px += 1;
            }
            proof {
                let v2 = self@;
                let pxf = px as int;
                lemma_transforms_then(
                    v0,
                    v_row,
                    v2,
                    paint(|qx: int, qy: int| qy < py && f(qx, qy), color),
                    paint(|qx: int, qy: int| qy == py && qx < pxf && f(qx, qy), color),
                );
                assert forall|qx: int, qy: int| #[trigger] covered(bits@, x as int, y as int, scale as int, qx, qy) && qx < v0.width implies qx < pxf by {
                    lemma_div_bound(qx - x, scale as int, 5);
                }
                lemma_transforms_same(
                    v0,
                    v2,
                    |qx: int, qy: int, p: u32|
                        paint(|qx: int, qy: int| qy == py && qx < pxf && f(qx, qy), color)(
                            qx,
                            qy,
                            paint(|qx: int, qy: int| qy < py && f(qx, qy), color)(qx, qy, p),
                        ),
                    paint(|qx: int, qy: int| qy < py + 1 && f(qx, qy), color),
                );
            }
            py += 1;
        }
        proof {
            let pyf = py as int;
            assert forall|qx: int, qy: int| #[trigger] covered(bits@, x as int, y as int, scale as int, qx, qy) && qy < v0.height implies qy < pyf by {
                lemma_div_bound(qy - y, scale as int, 7);
            }
            lemma_transforms_same(v0, self@, paint(|qx: int, qy: int| qy < pyf && f(qx, qy), color), paint(f, color));
        }
    }
}

/// Whether string `s`, drawn left-aligned at `(x, y)` magnified by `scale`,
/// covers pixel `(px, py)`: character `k` is drawn at `x + k·ADVANCE·scale`.
pub open spec fn text_covers(s: Seq<char>, x: int, y: int, scale: int, px: int, py: int) -> bool
    decreases s.len(),
{
    if s.len() == 0 {
        false
    } else {
        text_covers(s.drop_last(), x, y, scale, px, py) || covered(
            glyph_spec(s.last()),
            x + (s.len() - 1) * ADVANCE * scale,
            y,
            scale,
            px,
            py,
        )
    }
}

/// Drawing `s` at `(x, y)` magnified by `scale` computes no coordinate beyond
/// `usize::MAX`.
pub open spec fn text_fits(s: Seq<char>, x: int, y: int, scale: int) -> bool {
    &&& s.len() == 0 || x + s.len() * (ADVANCE * scale) <= usize::MAX
    &&& forall|k: int| 0 <= k < s.len() ==> bits_fit(glyph_spec(#[trigger] s[k]), x + k * (ADVANCE * scale), y, scale)
}

/// One channel of a pixel darkened by `shade` halvings.
pub open spec fn dim_pixel(p: u32, shade: u32) -> u32 {
    ((((p >> 16u32) & 0xFF) >> shade) << 16u32) | ((((p >> 8u32) & 0xFF) >> shade) << 8u32) | ((p & 0xFF)
        >> shade)
}

impl<'a> Canvas<'a> {
    /// Draw a single glyph at `(x, y)`, magnified by `scale`.
    pub fn draw_char(&mut self, x: usize, y: usize, c: char, color: u32, scale: usize)
        requires
            canvas_ok(old(self)@),
            bits_fit(glyph_spec(c), x as int, y as int, scale as int),
        ensures
            canvas_ok(final(self)@),
            transforms(
                old(self)@,
                final(self)@,
                paint(|px: int, py: int| covered(glyph_spec(c), x as int, y as int, scale as int, px, py), color),
            ),
    {
        let g = glyph(c);
        self.draw_bits(x, y, &g, color, scale);
    }

    /// Draw a left-aligned string at `(x, y)`, magnified by `scale`.
    pub fn draw_text(&mut self, x: usize, y: usize, s: &str, color: u32, scale: usize)
        requires
            canvas_ok(old(self)@),
            text_fits(s@, x as int, y as int, scale as int),
        ensures
            canvas_ok(final(self)@),
            transforms(
                old(self)@,
                final(self)@,
                paint(|px: int, py: int| text_covers(s@, x as int, y as int, scale as int, px, py), color),
            ),
    {
        let ghost v0 = self@;
        let cs = crate::strings::chars_of(s);
        let ghost n = cs@.len() as int;
        let mut cx: usize = x;
        let mut k: usize = 0;
        proof {
            lemma_transforms_id(v0);
            lemma_transforms_same(
                v0,
                v0,
                |px: int, py: int, p: u32| p,
                paint(|px: int, py: int| text_covers(s@.take(0), x as int, y as int, scale as int, px, py), color),
            );
        }
        while k < cs.len()
            invariant
                cs@ == s@,
                n == s@.len(),
                k <= n,
                text_fits(s@, x as int, y as int, scale as int),
                cx == x + k * (ADVANCE * scale),
                canvas_ok(self@),
                transforms(
                    v0,
                    self@,
                    paint(|px: int, py: int| text_covers(s@.take(k as int), x as int, y as int, scale as int, px, py), color),
                ),
            decreases n - k,
        {
            let c = cs[k];
            assert(bits_fit(glyph_spec(s@[k as int]), x + k * (ADVANCE * scale), y as int, scale as int));
            let ghost v1 = self@;
            self.draw_char(cx, y, c, color, scale);
            proof {
                assert((k + 1) * (ADVANCE * scale) <= n * (ADVANCE * scale)) by (nonlinear_arith)
                    requires
                        k + 1 <= n,
                ;
                assert((k + 1) * (ADVANCE * scale) == k * (ADVANCE * scale) + ADVANCE * scale) by (nonlinear_arith);
                assert(k * ADVANCE * scale == k * (ADVANCE * scale)) by (nonlinear_arith);
                lemma_transforms_then(
                    v0,
                    v1,
                    self@,
                    paint(|px: int, py: int| text_covers(s@.take(k as int), x as int, y as int, scale as int, px, py), color),
                    paint(|px: int, py: int| covered(glyph_spec(c), cx as int, y as int, scale as int, px, py), color),
                );
                let t = s@.take(k + 1);
                assert(t.drop_last() =~= s@.take(k as int));
                assert(t.last() == c);
                lemma_transforms_same(
                    v0,
                    self@,
                    |px: int, py: int, p: u32|
                        paint(|px: int, py: int| covered(glyph_spec(c), cx as int, y as int, scale as int, px, py), color)(
                            px,
                            py,
                            paint(|px: int, py: int| text_covers(s@.take(k as int), x as int, y as int, scale as int, px, py), color)(px, py, p),
                        ),
                    paint(|px: int, py: int| text_covers(s@.take(k + 1), x as int, y as int, scale as int, px, py), color),
                );
            }
            k += 1;
            cx += ADVANCE * scale;
        }
        assert(s@.take(n) =~= s@);
    }
}

/// The dimming of rectangle `(x, y, w, h)` by `shade`, as a transformation.
pub open spec fn dim_in(x: int, y: int, w: int, h: int, shade: u32) -> spec_fn(int, int, u32) -> u32 {
    |px: int, py: int, p: u32| if x <= px < x + w && y <= py < y + h {
        dim_pixel(p, shade)
    } else {
        p
    }
}

impl<'a> Canvas<'a> {
    /// Darken a rectangle toward black (a cheap translucent panel) so overlaid
    /// text stays legible over a busy screen. `shade` 0 = unchanged … 3 =
    /// nearly black.
    pub fn dim_rect(&mut self, x: usize, y: usize, w: usize, h: usize, shade: u32)
        requires
            canvas_ok(old(self)@),
            y + h <= usize::MAX,
            h > 0 && y < old(self)@.height ==> x + w <= usize::MAX,
            h > 0 && y < old(self)@.height && w > 0 && x < old(self)@.width ==> shade < 32,
        ensures
            canvas_ok(final(self)@),
            transforms(old(self)@, final(self)@, dim_in(x as int, y as int, w as int, h as int, shade)),
    {
        let ghost v0 = self@;
        let ghost g = dim_in(x as int, y as int, w as int, h as int, shade);
        let y_end = if y + h < self.height {
            y + h
        } else {
            self.height
        };
        let mut yy: usize = y;
        proof {
            lemma_transforms_id(v0);
            lemma_transforms_same(
                v0,
                v0,
                |px: int, py: int, p: u32| p,
                |px: int, py: int, p: u32| if py < y { g(px, py, p) } else { p },
            );
        }
        while yy < y_end
            invariant
                y <= yy,
                yy <= y_end || yy == y,
                y_end <= v0.height,
                y_end <= y + h,
                y_end == v0.height || y_end == y + h,
                h > 0 && y < v0.height ==> x + w <= usize::MAX,
                h > 0 && y < v0.height && w > 0 && x < v0.width ==> shade < 32,
                canvas_ok(self@),
                self@.width == v0.width,
                self@.height == v0.height,
                g == dim_in(x as int, y as int, w as int, h as int, shade),
                transforms(v0, self@, |px: int, py: int, p: u32| if py < yy { g(px, py, p) } else { p }),
            decreases y_end - yy,
        {
            let x_end = if x + w < self.width {
                x + w
            } else {
                self.width
            };
            let mut xx: usize = x;
            let ghost v_row = self@;
            proof {
                lemma_transforms_id(v_row);
                lemma_transforms_same(
                    v_row,
                    v_row,
                    |px: int, py: int, p: u32| p,
                    |px: int, py: int, p: u32| if py == yy && px < x { g(px, py, p) } else { p },
                );
            }
            while xx < x_end
                invariant
                    x <= xx,
                    xx <= x_end || xx == x,
                    x_end <= v0.width,
                    x_end <= x + w,
                    x_end == v0.width || x_end == x + w,
                    y <= yy < y_end,
                    y_end <= v0.height,
                    y_end <= y + h,
                    w > 0 && x < v0.width ==> shade < 32,
                    canvas_ok(self@),
                    self@.width == v0.width,
                    self@.height == v0.height,
                    v_row.width == v0.width,
                    v_row.height == v0.height,
                    g == dim_in(x as int, y as int, w as int, h as int, shade),
                    transforms(v_row, self@, |px: int, py: int, p: u32| if py == yy && px < xx { g(px, py, p) } else { p }),
                decreases x_end - xx,
            {
                let ghost v1 = self@;
                proof {
                    lemma_index_bound(self.width as int, self.height as int, xx as int, yy as int);
                }
                let n = self.pixels.len();
                assert(yy * self.width <= yy * self.width + xx < n);
                let p = self.pixels[yy * self.width + xx];
                let r = ((p >> 16) & 0xFF) >> shade;
                let gg = ((p >> 8) & 0xFF) >> shade;
                let bb = (p & 0xFF) >> shade;
                let d = (r << 16) | (gg << 8) | bb;
                assert(d == dim_pixel(p, shade));
                self.put_pixel(xx, yy, d);
                proof {
                    assert(p == at(v1, xx as int, yy as int));
                    assert(at(v1, xx as int, yy as int) == at(v_row, xx as int, yy as int));
                    lemma_transforms_then(
                        v_row,
                        v1,
                        self@,
                        |px: int, py: int, p: u32| if py == yy && px < xx { g(px, py, p) } else { p },
                        paint(|px: int, py: int| px == xx && py == yy, d),
                    );
                    lemma_transforms_same(
                        v_row,
                        self@,
                        |px: int, py: int, q: u32|
                            paint(|px: int, py: int| px == xx && py == yy, d)(
                                px,
                                py,
                                if py == yy && px < xx { g(px, py, q) } else { q },
                            ),
                        |px: int, py: int, q: u32| if py == yy && px < xx + 1 { g(px, py, q) } else { q },
                    );
                }
                xx += 1;
            }
            proof {
                let v2 = self@;
                let xf = xx as int;
                lemma_transforms_then(
                    v0,
                    v_row,
                    v2,
                    |px: int, py: int, p: u32| if py < yy { g(px, py, p) } else { p },
                    |px: int, py: int, p: u32| if py == yy && px < xf { g(px, py, p) } else { p },
                );
                lemma_transforms_same(
                    v0,
                    v2,
                    |px: int, py: int, p: u32|
                        (|px: int, py: int, q: u32| if py == yy && px < xf { g(px, py, q) } else { q })(
                            px,
                            py,
                            (|px: int, py: int, q: u32| if py < yy { g(px, py, q) } else { q })(px, py, p),
                        ),
                    |px: int, py: int, p: u32| if py < yy + 1 { g(px, py, p) } else { p },
                );
            }
            yy += 1;
        }
        proof {
            let yf = yy as int;
            lemma_transforms_same(v0, self@, |px: int, py: int, p: u32| if py < yf { g(px, py, p) } else { p }, g);
        }
    }
}

// ---- display lists -----------------------------------------------------------

/// One drawing operation of a display list.
pub enum DrawOp {
    /// Darken the rectangle `(x, y, w, h)` by `shade` halvings
    /// ([`Canvas::dim_rect`]).
    Dim { x: usize, y: usize, w: usize, h: usize, shade: u32 },
    /// Draw `s` at `(x, y)` in `color`, magnified by `scale`
    /// ([`Canvas::draw_text`]).
    Text { x: usize, y: usize, s: String, color: u32, scale: usize },
}

/// A [`DrawOp`] with its text as characters.
pub enum DrawOpView {
    Dim { x: int, y: int, w: int, h: int, shade: u32 },
    Text { x: int, y: int, s: Seq<char>, color: u32, scale: int },
}

impl View for DrawOp {
    type V = DrawOpView;

    open spec fn view(&self) -> DrawOpView {
        match self {
            DrawOp::Dim { x, y, w, h, shade } => DrawOpView::Dim {
                x: *x as int,
                y: *y as int,
                w: *w as int,
                h: *h as int,
                shade: *shade,
            },
            DrawOp::Text { x, y, s, color, scale } => DrawOpView::Text {
                x: *x as int,
                y: *y as int,
                s: s@,
                color: *color,
                scale: *scale as int,
            },
        }
    }
}

/// The operations of a display list by their views.
pub open spec fn ops_view(ops: Seq<DrawOp>) -> Seq<DrawOpView> {
    ops.map_values(|o: DrawOp| o@)
}

/// An operation computes no coordinate beyond `usize::MAX` and dims by
/// fewer than 32 halvings.
pub open spec fn op_ok(op: DrawOpView) -> bool {
    match op {
        DrawOpView::Dim { x, y, w, h, shade } => x + w <= usize::MAX && y + h <= usize::MAX && shade < 32,
        DrawOpView::Text { x, y, s, color, scale } => text_fits(s, x, y, scale),
    }
}

/// What an operation does to each pixel.
pub open spec fn op_effect(op: DrawOpView) -> spec_fn(int, int, u32) -> u32 {
    match op {
        DrawOpView::Dim { x, y, w, h, shade } => dim_in(x, y, w, h, shade),
        DrawOpView::Text { x, y, s, color, scale } => paint(
            |px: int, py: int| text_covers(s, x, y, scale, px, py),
            color,
        ),
    }
}

/// What a display list does to each pixel: its operations in order.
pub open spec fn ops_effect(ops: Seq<DrawOpView>) -> spec_fn(int, int, u32) -> u32
    decreases ops.len(),
{
    if ops.len() == 0 {
        |px: int, py: int, p: u32| p
    } else {
        let g1 = ops_effect(ops.drop_last());
        let g2 = op_effect(ops.last());
        |px: int, py: int, p: u32| g2(px, py, g1(px, py, p))
    }
}

impl<'a> Canvas<'a> {
    /// Run a display list: each operation in order.
    pub fn run(&mut self, ops: &[DrawOp])
        requires
            canvas_ok(old(self)@),
            forall|i: int| 0 <= i < ops@.len() ==> op_ok(#[trigger] ops@[i]@),
        ensures
            canvas_ok(final(self)@),
            transforms(old(self)@, final(self)@, ops_effect(ops_view(ops@))),
    {
        let ghost v0 = self@;
        proof {
            lemma_transforms_id(v0);
            assert(ops_view(ops@).take(0) =~= Seq::<DrawOpView>::empty());
        }
        let mut i: usize = 0;
        while i < ops.len()
            invariant
                i <= ops@.len(),
                canvas_ok(self@),
                forall|j: int| 0 <= j < ops@.len() ==> op_ok(#[trigger] ops@[j]@),
                transforms(v0, self@, ops_effect(ops_view(ops@).take(i as int))),
            decreases ops@.len() - i,
        {
            let ghost prev = self@;
            let ghost g1 = ops_effect(ops_view(ops@).take(i as int));
            assert(op_ok(ops@[i as int]@));
            match &ops[i] {
                DrawOp::Dim { x, y, w, h, shade } => {
                    self.dim_rect(*x, *y, *w, *h, *shade);
                },
                DrawOp::Text { x, y, s, color, scale } => {
                    self.draw_text(*x, *y, s.as_str(), *color, *scale);
                },
            }
            proof {
                let g2 = op_effect(ops@[i as int]@);
                lemma_transforms_then(v0, prev, self@, g1, g2);
                let t = ops_view(ops@).take(i + 1);
                assert(t.drop_last() =~= ops_view(ops@).take(i as int));
                assert(t.last() == ops@[i as int]@);
            }
            i += 1;
        }
        assert(ops_view(ops@).take(ops@.len() as int) =~= ops_view(ops@));
    }
}

/// Text at scale 1 whose cells stay clear of `usize::MAX` fits.
pub proof fn lemma_small_text_fits(s: Seq<char>, x: int, y: int)
    requires
        0 <= x,
        0 <= y,
        x + 6 * s.len() + 6 <= usize::MAX,
        y + 8 <= usize::MAX,
    ensures
        text_fits(s, x, y, 1),
{
    assert forall|k: int| 0 <= k < s.len() implies bits_fit(glyph_spec(#[trigger] s[k]), x + k * (ADVANCE * 1), y, 1) by {
        assert(x + k * 6 + 5 <= usize::MAX);
    }
}

} // verus!
