//! Present the VDP's 256×192 framebuffer into a window-sized pixel buffer.
//!
//! The VDP renders into `0x00RRGGBB` words, which is exactly the window
//! buffer's pixel format, so presentation is an integer nearest-neighbor
//! upscale (the largest whole multiple that fits, at least 1), centered on a
//! black background and clipped to the window.

use vstd::prelude::*;

verus! {

/// Width of the VDP's framebuffer, in pixels.
pub const WIDTH: usize = 256;

/// Height of the VDP's framebuffer, in pixels.
pub const HEIGHT: usize = 192;

/// The upscale factor for a `w`×`h` window: the largest whole multiple of
/// the framebuffer that fits, and at least 1.
pub open spec fn scale_for(w: nat, h: nat) -> nat {
    let s = if w / (WIDTH as nat) <= h / (HEIGHT as nat) {
        w / (WIDTH as nat)
    } else {
        h / (HEIGHT as nat)
    };
    if s >= 1 {
        s
    } else {
        1
    }
}

/// `min(a, b)`.
pub open spec fn min_nat(a: nat, b: nat) -> nat {
    if a <= b {
        a
    } else {
        b
    }
}

/// The width of the drawn area in a `w`×`h` window (clipped to the window).
pub open spec fn draw_w(w: nat, h: nat) -> nat {
    min_nat((WIDTH as nat) * scale_for(w, h), w)
}

/// The height of the drawn area in a `w`×`h` window (clipped to the window).
pub open spec fn draw_h(w: nat, h: nat) -> nat {
    min_nat((HEIGHT as nat) * scale_for(w, h), h)
}

/// The left edge of the (centered) drawn area.
pub open spec fn origin_x(w: nat, h: nat) -> nat {
    ((w - draw_w(w, h)) / 2) as nat
}

/// The top edge of the (centered) drawn area.
pub open spec fn origin_y(w: nat, h: nat) -> nat {
    ((h - draw_h(w, h)) / 2) as nat
}

/// Whether window pixel `(x, y)` lies in the drawn area.
pub open spec fn in_drawn(w: nat, h: nat, x: int, y: int) -> bool {
    &&& origin_x(w, h) <= x < origin_x(w, h) + draw_w(w, h)
    &&& origin_y(w, h) <= y < origin_y(w, h) + draw_h(w, h)
}

/// The framebuffer pixel shown at window pixel `(x, y)` of the drawn area:
/// the source pixel its offset divides down to, clamped to the framebuffer.
pub open spec fn source_of(fb: Seq<u32>, w: nat, h: nat, x: int, y: int) -> u32 {
    let s = scale_for(w, h) as int;
    let sx = min_nat(((x - origin_x(w, h)) / s) as nat, (WIDTH - 1) as nat);
    let sy = min_nat(((y - origin_y(w, h)) / s) as nat, (HEIGHT - 1) as nat);
    fb[sy * (WIDTH as int) + sx]
}

/// Word `i` of the window buffer after presenting `fb` in a `w`×`h` window:
/// the scaled framebuffer inside the drawn area, black everywhere else
/// (including any words beyond `w * h`).
pub open spec fn presented(fb: Seq<u32>, w: nat, h: nat, i: int) -> u32 {
    if w == 0 || h == 0 || i >= w * h {
        0
    } else if in_drawn(w, h, i % (w as int), i / (w as int)) {
        source_of(fb, w, h, i % (w as int), i / (w as int))
    } else {
        0
    }
}

proof fn lemma_split(i: int, w: int)
    requires
        w > 0,
        i >= 0,
    ensures
        i == (i / w) * w + i % w,
        0 <= i % w < w,
        0 <= i / w,
{
    vstd::arithmetic::div_mod::lemma_fundamental_div_mod(i, w);
    vstd::arithmetic::mul::lemma_mul_is_commutative(w, i / w);
    vstd::arithmetic::div_mod::lemma_mod_bound(i, w);
    vstd::arithmetic::div_mod::lemma_div_pos_is_pos(i, w);
}

proof fn lemma_join(y: int, x: int, w: int)
    requires
        w > 0,
        y >= 0,
        0 <= x < w,
    ensures
        (y * w + x) / w == y,
        (y * w + x) % w == x,
{
    vstd::arithmetic::div_mod::lemma_fundamental_div_mod_converse(y * w + x, w, y, x);
}

proof fn lemma_scale_bounds(w: nat, h: nat)
    requires
        w > 0,
        h > 0,
    ensures
        scale_for(w, h) >= 1,
        draw_w(w, h) <= w,
        draw_h(w, h) <= h,
        draw_w(w, h) == (WIDTH as nat) * scale_for(w, h) || draw_w(w, h) == w,
        (WIDTH as nat) * scale_for(w, h) <= w || scale_for(w, h) == 1,
        (HEIGHT as nat) * scale_for(w, h) <= h || scale_for(w, h) == 1,
{
    let s = scale_for(w, h);
    if s > 1 {
        assert((WIDTH as nat) * (w / (WIDTH as nat)) <= w) by (nonlinear_arith);
        assert((HEIGHT as nat) * (h / (HEIGHT as nat)) <= h) by (nonlinear_arith);
        if w / (WIDTH as nat) <= h / (HEIGHT as nat) {
            assert((HEIGHT as nat) * (w / (WIDTH as nat)) <= (HEIGHT as nat) * (h / (HEIGHT as nat)))
                by (nonlinear_arith)
                requires
                    w / (WIDTH as nat) <= h / (HEIGHT as nat),
            ;
        } else {
            assert((WIDTH as nat) * (h / (HEIGHT as nat)) <= (WIDTH as nat) * (w / (WIDTH as nat)))
                by (nonlinear_arith)
                requires
                    w / (WIDTH as nat) > h / (HEIGHT as nat),
            ;
        }
    }
}

/// Blit `fb` (`WIDTH * HEIGHT` pixels) into `dst` (a `win_w`×`win_h`
/// window), scaled and centered: every word of `dst` becomes
/// [`presented`] — the scaled image in the drawn area, black elsewhere.
pub fn blit(fb: &[u32], dst: &mut [u32], win_w: usize, win_h: usize)
    requires
        fb@.len() >= WIDTH * HEIGHT,
        win_w == 0 || win_h == 0 || old(dst)@.len() >= win_w * win_h,
    ensures
        final(dst)@.len() == old(dst)@.len(),
        forall|i: int|
            0 <= i < final(dst)@.len() ==> #[trigger] final(dst)@[i] == presented(
                fb@,
                win_w as nat,
                win_h as nat,
                i,
            ),
{
    let n = dst.len();
    let mut k: usize = 0;
    while k < n
        invariant
            k <= n,
            dst@.len() == n,
            forall|i: int| 0 <= i < k ==> #[trigger] dst@[i] == 0u32,
        decreases n - k,
    {
        dst[k] = 0x0000_0000;
        k += 1;
    }
    if win_w == 0 || win_h == 0 {
        return;
    }
    let ghost w = win_w as nat;
    let ghost h = win_h as nat;
    let a = win_w / WIDTH;
    let b = win_h / HEIGHT;
    let m = if a <= b {
        a
    } else {
        b
    };
    let scale = if m >= 1 {
        m
    } else {
        1
    };
    proof {
        lemma_scale_bounds(w, h);
    }
    assert(scale as nat == scale_for(w, h));
    let ww = if scale == 1 {
        WIDTH
    } else {
        WIDTH * scale
    };
    let hh = if scale == 1 {
        HEIGHT
    } else {
        HEIGHT * scale
    };
    let dw = if ww <= win_w {
        ww
    } else {
        win_w
    };
    let dh = if hh <= win_h {
        hh
    } else {
        win_h
    };
    assert(dw as nat == draw_w(w, h));
    assert(dh as nat == draw_h(w, h));
    let ox = (win_w - dw) / 2;
    let oy = (win_h - dh) / 2;
    assert(ox as nat == origin_x(w, h));
    assert(oy as nat == origin_y(w, h));
    proof {
        assert(win_w * win_h <= n);
        assert forall|i: int| 0 <= i < n implies #[trigger] dst@[i] == (if !(i < w * h && in_drawn(
            w,
            h,
            i % (w as int),
            i / (w as int),
        ) && i / (w as int) < oy) {
            0u32
        } else {
            presented(fb@, w, h, i)
        }) by {
            if i < w * h {
                lemma_split(i, w as int);
            }
        }
    }
    let mut dy: usize = 0;
    while dy < dh
        invariant
            0 < win_w,
            0 < win_h,
            w == win_w as nat,
            h == win_h as nat,
            win_w * win_h <= n,
            dst@.len() == n,
            fb@.len() >= WIDTH * HEIGHT,
            scale as nat == scale_for(w, h),
            scale >= 1,
            dw as nat == draw_w(w, h),
            dh as nat == draw_h(w, h),
            dw <= win_w,
            dh <= win_h,
            ox as nat == origin_x(w, h),
            oy as nat == origin_y(w, h),
            ox + dw <= win_w,
            oy + dh <= win_h,
            dy <= dh,
            forall|i: int|
                0 <= i < n ==> #[trigger] dst@[i] == (if i < w * h && in_drawn(
                    w,
                    h,
                    i % (w as int),
                    i / (w as int),
                ) && i / (w as int) < oy + dy {
                    presented(fb@, w, h, i)
                } else {
                    0u32
                }),
        decreases dh - dy,
    {
        let y = oy + dy;
        let sy0 = dy / scale;
        let sy = if sy0 <= HEIGHT - 1 {
            sy0
        } else {
            HEIGHT - 1
        };
        proof {
            assert(y * win_w <= (win_h - 1) * win_w) by (nonlinear_arith)
                requires
                    y < win_h,
            ;
            assert((win_h - 1) * win_w + win_w == win_h * win_w) by (nonlinear_arith);
            assert(sy * WIDTH <= (HEIGHT - 1) * WIDTH) by (nonlinear_arith)
                requires
                    sy <= HEIGHT - 1,
            ;
        }
        let dst_row = y * win_w + ox;
        let src_row = sy * WIDTH;
        let mut dx: usize = 0;
        while dx < dw
            invariant
                0 < win_w,
                0 < win_h,
                w == win_w as nat,
                h == win_h as nat,
                win_w * win_h <= n,
                dst@.len() == n,
                fb@.len() >= WIDTH * HEIGHT,
                scale as nat == scale_for(w, h),
                scale >= 1,
                dw as nat == draw_w(w, h),
                dh as nat == draw_h(w, h),
                ox as nat == origin_x(w, h),
                oy as nat == origin_y(w, h),
                ox + dw <= win_w,
                oy + dh <= win_h,
                dy < dh,
                y == oy + dy,
                dst_row == y * win_w + ox,
                y * win_w + win_w <= win_w * win_h,
                sy as nat == min_nat((dy / scale) as nat, (HEIGHT - 1) as nat),
                src_row == sy * WIDTH,
                src_row + WIDTH <= WIDTH * HEIGHT,
                dx <= dw,
                forall|i: int|
                    0 <= i < n ==> #[trigger] dst@[i] == (if i < w * h && in_drawn(
                        w,
                        h,
                        i % (w as int),
                        i / (w as int),
                    ) && (i / (w as int) < y || (i / (w as int) == y && i % (w as int) < ox + dx)) {
                        presented(fb@, w, h, i)
                    } else {
                        0u32
                    }),
            decreases dw - dx,
        {
            let sx0 = dx / scale;
            let sx = if sx0 <= WIDTH - 1 {
                sx0
            } else {
                WIDTH - 1
            };
            let t = dst_row + dx;
            let v = fb[src_row + sx];
            dst[t] = v;
            proof {
                let x = (ox + dx) as int;
                lemma_join(y as int, x, w as int);
                assert(t as int == y * w + x);
                assert(in_drawn(w, h, x, y as int));
                assert(v == source_of(fb@, w, h, x, y as int));
                assert(v == presented(fb@, w, h, t as int));
                assert forall|i: int| 0 <= i < n && i != t implies #[trigger] dst@[i] == (if i < w * h
                    && in_drawn(w, h, i % (w as int), i / (w as int)) && (i / (w as int) < y || (i / (
                w as int) == y && i % (w as int) < ox + dx + 1)) {
                    presented(fb@, w, h, i)
                } else {
                    0u32
                }) by {
                    if i < w * h {
                        lemma_split(i, w as int);
                        if i / (w as int) == y && i % (w as int) == x {
                            assert(i == t);
                        }
                    }
                }
            }
            dx += 1;
        }
        proof {
            assert forall|i: int| 0 <= i < n implies #[trigger] dst@[i] == (if i < w * h && in_drawn(
                w,
                h,
                i % (w as int),
                i / (w as int),
            ) && i / (w as int) < oy + dy + 1 {
                presented(fb@, w, h, i)
            } else {
                0u32
            }) by {
                if i < w * h {
                    lemma_split(i, w as int);
                }
            }
        }
        dy += 1;
    }
    proof {
        assert forall|i: int| 0 <= i < n implies #[trigger] dst@[i] == presented(fb@, w, h, i) by {
            if i < w * h {
                lemma_split(i, w as int);
            }
        }
    }
}

/// A window exactly the framebuffer's size shows the framebuffer verbatim:
/// scale 1, no offset, every word copied.
pub proof fn lemma_exact_fit_is_verbatim(fb: Seq<u32>, i: int)
    requires
        fb.len() == WIDTH * HEIGHT,
        0 <= i < WIDTH * HEIGHT,
    ensures
        presented(fb, WIDTH as nat, HEIGHT as nat, i) == fb[i],
{
    let w = WIDTH as nat;
    let h = HEIGHT as nat;
    assert(w / (WIDTH as nat) == 1) by (nonlinear_arith)
        requires
            w == 256,
            WIDTH == 256,
    ;
    assert(h / (HEIGHT as nat) == 1) by (nonlinear_arith)
        requires
            h == 192,
            HEIGHT == 192,
    ;
    assert(scale_for(w, h) == 1);
    assert(draw_w(w, h) == w);
    assert(draw_h(w, h) == h);
    lemma_split(i, w as int);
    let x = i % (w as int);
    let y = i / (w as int);
    assert(y < h) by (nonlinear_arith)
        requires
            i == y * (w as int) + x,
            0 <= x,
            i < (w as int) * (h as int),
            w > 0,
    ;
    assert(x / 1 == x && y / 1 == y);
}

} // verus!
