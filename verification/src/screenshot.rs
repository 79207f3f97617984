//! A tiny, dependency-free **PNG encoder** for screenshots.
//!
//! It writes *stored* (uncompressed) DEFLATE blocks inside the zlib stream — a
//! valid, universally readable PNG that needs no compressor. Color type is
//! truecolor (RGB, 8-bit); the framebuffer words are `0x00RRGGBB`.

use vstd::prelude::*;

verus! {

/// A 32-bit value, most significant byte first.
pub open spec fn be32(v: u32) -> Seq<u8> {
    seq![(v >> 24u32) as u8, (v >> 16u32) as u8, (v >> 8u32) as u8, v as u8]
}

/// A 16-bit value, least significant byte first.
pub open spec fn le16(v: u16) -> Seq<u8> {
    seq![v as u8, (v >> 8u16) as u8]
}

/// One bit step of the reflected CRC-32 (polynomial `0xEDB88320`).
pub open spec fn crc_bit(c: u32) -> u32 {
    if c & 1 != 0 {
        (c >> 1u32) ^ 0xEDB8_8320u32
    } else {
        c >> 1u32
    }
}

/// `k` bit steps.
pub open spec fn crc_bits(c: u32, k: nat) -> u32
    decreases k,
{
    if k == 0 {
        c
    } else {
        crc_bit(crc_bits(c, (k - 1) as nat))
    }
}

/// The CRC register after one more byte.
pub open spec fn crc_byte(c: u32, b: u8) -> u32 {
    crc_bits(c ^ (b as u32), 8)
}

/// The CRC register after the bytes of `data`.
pub open spec fn crc_update(c: u32, data: Seq<u8>) -> u32
    decreases data.len(),
{
    if data.len() == 0 {
        c
    } else {
        crc_byte(crc_update(c, data.drop_last()), data.last())
    }
}

/// The PNG/zlib CRC-32 of `data`.
pub open spec fn crc32(data: Seq<u8>) -> u32 {
    crc_update(0xFFFF_FFFFu32, data) ^ 0xFFFF_FFFFu32
}

/// The Adler-32 modulus.
pub const ADLER_MOD: u32 = 65521;

/// The two Adler-32 sums after the bytes of `data`.
pub open spec fn adler_sums(data: Seq<u8>) -> (u32, u32)
    decreases data.len(),
{
    if data.len() == 0 {
        (1, 0)
    } else {
        let (a, b) = adler_sums(data.drop_last());
        let a2 = ((a + data.last()) % (ADLER_MOD as int)) as u32;
        (a2, ((b + a2) % (ADLER_MOD as int)) as u32)
    }
}

/// The zlib Adler-32 checksum of `data`.
pub open spec fn adler32_spec(data: Seq<u8>) -> u32 {
    let (a, b) = adler_sums(data);
    (b as int * 65536 + a) as u32
}

/// The standard PNG/zlib CRC-32 (reflected, polynomial `0xEDB88320`), fed
/// incrementally.
pub struct Crc(u32);

impl View for Crc {
    type V = u32;

    closed spec fn view(&self) -> u32 {
        self.0
    }
}

impl Crc {
    /// A fresh CRC.
    pub fn new() -> (c: Crc)
        ensures
            c@ == 0xFFFF_FFFFu32,
    {
        Crc(0xFFFF_FFFF)
    }

    /// Feed the bytes of `data`.
    pub fn update(&mut self, data: &[u8])
        ensures
            final(self)@ == crc_update(old(self)@, data@),
    {
        let mut i: usize = 0;
        while i < data.len()
            invariant
                i <= data@.len(),
                self@ == crc_update(old(self)@, data@.take(i as int)),
            decreases data@.len() - i,
        {
            let byte = data[i];
            self.0 = self.0 ^ (byte as u32);
            let ghost x = self.0;
            let mut k: u32 = 0;
            while k < 8
                invariant
                    k <= 8,
                    self.0 == crc_bits(x, k as nat),
                decreases 8 - k,
            {
                self.0 = if self.0 & 1 != 0 {
                    (self.0 >> 1) ^ 0xEDB8_8320
                } else {
                    self.0 >> 1
                };
                k += 1;
            }
            proof {
                assert(data@.take(i + 1).drop_last() =~= data@.take(i as int));
            }
            i += 1;
        }
        assert(data@.take(i as int) =~= data@);
    }

    /// The checksum of everything fed so far.
    pub fn finish(self) -> (v: u32)
        ensures
            v == self@ ^ 0xFFFF_FFFFu32,
    {
        self.0 ^ 0xFFFF_FFFF
    }
}

/// The zlib Adler-32 running checksum of `data`.
pub fn adler32(data: &[u8]) -> (r: u32)
    ensures
        r == adler32_spec(data@),
{
    let mut a: u32 = 1;
    let mut b: u32 = 0;
    let mut i: usize = 0;
    while i < data.len()
        invariant
            i <= data@.len(),
            (a, b) == adler_sums(data@.take(i as int)),
            a < ADLER_MOD || i == 0,
            b < ADLER_MOD,
        decreases data@.len() - i,
    {
        proof {
            assert(data@.take(i + 1).drop_last() =~= data@.take(i as int));
        }
        a = (a + data[i] as u32) % ADLER_MOD;
        b = (b + a) % ADLER_MOD;
        i += 1;
    }
    assert(data@.take(i as int) =~= data@);
    assert(b < 65536 && a < 65536);
    assert((b << 16u32) | a == (b as int * 65536 + a) as u32) by (bit_vector)
        requires
            b < 65536,
            a < 65536,
    ;
    (b << 16) | a
}

/// `v` as four big-endian bytes, appended.
fn push_be32(out: &mut Vec<u8>, v: u32)
    ensures
        final(out)@ == old(out)@ + be32(v),
{
    out.push((v >> 24) as u8);
    out.push((v >> 16) as u8);
    out.push((v >> 8) as u8);
    out.push(v as u8);
    assert(final(out)@ =~= old(out)@ + be32(v));
}

/// The bytes of `data`, appended.
fn push_slice(out: &mut Vec<u8>, data: &[u8])
    ensures
        final(out)@ == old(out)@ + data@,
{
    let mut i: usize = 0;
    while i < data.len()
        invariant
            i <= data@.len(),
            out@ == old(out)@ + data@.take(i as int),
        decreases data@.len() - i,
    {
        out.push(data[i]);
        i += 1;
        assert(out@ =~= old(out)@ + data@.take(i as int));
    }
    assert(data@.take(i as int) =~= data@);
}

/// A PNG chunk: length, type, data, and a CRC over type and data.
pub open spec fn chunk_bytes(kind: Seq<u8>, data: Seq<u8>) -> Seq<u8> {
    be32(data.len() as u32) + kind + data + be32(crc32(kind + data))
}

/// Append a PNG chunk: length, type, data, and a CRC over (type ++ data).
pub fn chunk(out: &mut Vec<u8>, kind: &[u8; 4], data: &[u8])
    ensures
        final(out)@ == old(out)@ + chunk_bytes(kind@, data@),
{
    #[verifier::truncate]
    let n = data.len() as u32;
    push_be32(out, n);
    push_slice(out, kind.as_slice());
    push_slice(out, data);
    let mut crc = Crc::new();
    crc.update(kind.as_slice());
    crc.update(data);
    proof {
        lemma_crc_update_concat(0xFFFF_FFFFu32, kind@, data@);
    }
    push_be32(out, crc.finish());
    assert(final(out)@ =~= old(out)@ + chunk_bytes(kind@, data@));
}

/// Feeding two runs of bytes is feeding their concatenation.
pub proof fn lemma_crc_update_concat(c: u32, x: Seq<u8>, y: Seq<u8>)
    ensures
        crc_update(crc_update(c, x), y) == crc_update(c, x + y),
    decreases y.len(),
{
    if y.len() == 0 {
        assert(x + y =~= x);
    } else {
        lemma_crc_update_concat(c, x, y.drop_last());
        assert((x + y).drop_last() =~= x + y.drop_last());
        assert((x + y).last() == y.last());
    }
}

/// The stored DEFLATE blocks of `data[i..]`: each up to 65535 bytes, headed
/// by its final-block flag, its length and the length's complement.
pub open spec fn stored_blocks(data: Seq<u8>, i: int) -> Seq<u8>
    decreases data.len() - i,
{
    if i >= data.len() || i < 0 {
        seq![]
    } else {
        let n = if data.len() - i < 0xFFFF {
            data.len() - i
        } else {
            0xFFFF
        };
        let last = i + n >= data.len();
        seq![if last {
            1u8
        } else {
            0u8
        }] + le16(n as u16) + le16(!(n as u16)) + data.subrange(i, i + n) + stored_blocks(data, i + n)
    }
}

/// A zlib stream of stored blocks holding `data`, with its Adler-32.
pub open spec fn zlib_spec(data: Seq<u8>) -> Seq<u8> {
    seq![0x78u8, 0x01u8] + (if data.len() == 0 {
        seq![0x01u8, 0x00u8, 0x00u8, 0xFFu8, 0xFFu8]
    } else {
        stored_blocks(data, 0)
    }) + be32(adler32_spec(data))
}

/// Wrap `data` in a zlib stream of *stored* (uncompressed) DEFLATE blocks.
pub fn zlib_stored(data: &[u8]) -> (out: Vec<u8>)
    ensures
        out@ == zlib_spec(data@),
{
    let mut out: Vec<u8> = vec![0x78, 0x01];
    if data.len() == 0 {
        out.push(0x01);
        out.push(0x00);
        out.push(0x00);
        out.push(0xFF);
        out.push(0xFF);
    } else {
        let ghost head = out@;
        let mut i: usize = 0;
        while i < data.len()
            invariant
                i <= data@.len(),
                data@.len() > 0,
                head == seq![0x78u8, 0x01u8],
                out@ + stored_blocks(data@, i as int) == head + stored_blocks(data@, 0),
            decreases data@.len() - i,
        {
            let n: usize = if data.len() - i < 0xFFFF {
                data.len() - i
            } else {
                0xFFFF
            };
            let last = i + n >= data.len();
            let ghost before = out@;
            out.push(if last {
                1
            } else {
                0
            });
            let n16 = n as u16;
            out.push(#[verifier::truncate] (n16 as u8));
            out.push(#[verifier::truncate] ((n16 >> 8) as u8));
            let c = !n16;
            out.push(#[verifier::truncate] (c as u8));
            out.push(#[verifier::truncate] ((c >> 8) as u8));
            let mut k: usize = i;
            let stop = i + n;
            let ghost mid = out@;
            while k < stop
                invariant
                    stop == i + n,
                    i <= k <= i + n <= data@.len(),
                    out@ == mid + data@.subrange(i as int, k as int),
                decreases i + n - k,
            {
                out.push(data[k]);
                k += 1;
                assert(out@ =~= mid + data@.subrange(i as int, k as int));
            }
            proof {
                let blk = seq![if last {
                    1u8
                } else {
                    0u8
                }] + le16(n as u16) + le16(!(n as u16)) + data@.subrange(i as int, i + n);
                assert(out@ =~= before + blk);
                assert(stored_blocks(data@, i as int) == blk + stored_blocks(data@, i + n));
                assert(before + stored_blocks(data@, i as int) =~= out@ + stored_blocks(data@, i + n));
            }
            i = i + n;
        }
        assert(stored_blocks(data@, i as int) =~= Seq::<u8>::empty());
        assert(out@ =~= out@ + stored_blocks(data@, i as int));
    }
    let ghost body = out@;
    push_be32(&mut out, adler32(data));
    assert(out@ =~= zlib_spec(data@));
    out
}

/// The bytes of one pixel, `0x00RRGGBB`: red, green, blue.
pub open spec fn rgb(px: u32) -> Seq<u8> {
    seq![(px >> 16u32) as u8, (px >> 8u32) as u8, px as u8]
}

/// The RGB bytes of the pixels, in order.
pub open spec fn rgb_bytes(row: Seq<u32>) -> Seq<u8>
    decreases row.len(),
{
    if row.len() == 0 {
        seq![]
    } else {
        rgb_bytes(row.drop_last()) + rgb(row.last())
    }
}

/// Scanline `k` of the image: the pixels `k*width ..` of the buffer, at most
/// `width` of them.
pub open spec fn scanline(pixels: Seq<u32>, width: nat, k: nat) -> Seq<u32> {
    let start: int = (k * width) as int;
    let end: int = if start + width < pixels.len() {
        start + width
    } else {
        pixels.len() as int
    };
    pixels.subrange(start, end)
}

/// The number of scanlines: the rows of the buffer, at most `height`.
pub open spec fn scanline_count(pixels: Seq<u32>, width: nat, height: nat) -> nat {
    let rows = (pixels.len() + width - 1) / (width as int);
    if rows < height {
        rows as nat
    } else {
        height
    }
}

/// The raw image data: each scanline prefixed with filter byte 0 ("none").
pub open spec fn raw_rows(pixels: Seq<u32>, width: nat, n: nat) -> Seq<u8>
    decreases n,
{
    if n == 0 {
        seq![]
    } else {
        raw_rows(pixels, width, (n - 1) as nat) + seq![0u8] + rgb_bytes(scanline(pixels, width, (n - 1) as nat))
    }
}

/// Row `k` starts inside the buffer exactly when fewer than
/// `ceil(len / w)` rows come before it.
proof fn lemma_rows(len: int, w: int, k: int)
    requires
        w > 0,
        len >= 0,
        k >= 0,
    ensures
        k * w < len <==> k < (len + w - 1) / w,
{
    let q = (len + w - 1) / w;
    let r = (len + w - 1) % w;
    assert(len + w - 1 == q * w + r && 0 <= r < w) by (nonlinear_arith)
        requires
            w > 0,
            q == (len + w - 1) / w,
            r == (len + w - 1) % w,
    ;
    if k < q {
        assert(k * w <= (q - 1) * w) by (nonlinear_arith)
            requires
                k <= q - 1,
                w > 0,
        ;
        assert((q - 1) * w == q * w - w) by (nonlinear_arith);
    } else {
        assert(k * w >= q * w) by (nonlinear_arith)
            requires
                k >= q,
                w > 0,
        ;
    }
}

/// The PNG file signature.
pub open spec fn png_signature() -> Seq<u8> {
    seq![0x89u8, 0x50u8, 0x4Eu8, 0x47u8, 0x0Du8, 0x0Au8, 0x1Au8, 0x0Au8]
}

/// The header fields: dimensions, 8-bit depth, color type 2 (truecolor),
/// deflate, no filter, no interlace.
pub open spec fn ihdr(width: u32, height: u32) -> Seq<u8> {
    be32(width) + be32(height) + seq![8u8, 2u8, 0u8, 0u8, 0u8]
}

/// The PNG file of a `width × height` image.
pub open spec fn png_spec(width: usize, height: usize, pixels: Seq<u32>) -> Seq<u8> {
    png_signature() + chunk_bytes(seq![0x49u8, 0x48u8, 0x44u8, 0x52u8], ihdr(width as u32, height as u32))
        + chunk_bytes(
        seq![0x49u8, 0x44u8, 0x41u8, 0x54u8],
        zlib_spec(raw_rows(pixels, width as nat, scanline_count(pixels, width as nat, height as nat))),
    ) + chunk_bytes(seq![0x49u8, 0x45u8, 0x4Eu8, 0x44u8], seq![])
}

/// Encode a `width × height` framebuffer (`0x00RRGGBB` words) as a PNG file.
pub fn encode_png(width: usize, height: usize, pixels: &[u32]) -> (png: Vec<u8>)
    requires
        width > 0,
        1 + 3 * width <= usize::MAX,
        height * (1 + 3 * width) <= isize::MAX,
    ensures
        png@ == png_spec(width, height, pixels@),
{
    let mut png: Vec<u8> = vec![0x89, 0x50, 0x4E, 0x47, 0x0D, 0x0A, 0x1A, 0x0A];
    // IHDR: dimensions, 8-bit depth, color type 2 (truecolor), no interlace.
    let mut ihdr_data: Vec<u8> = Vec::new();
    #[verifier::truncate]
    let w32 = width as u32;
    #[verifier::truncate]
    let h32 = height as u32;
    push_be32(&mut ihdr_data, w32);
    push_be32(&mut ihdr_data, h32);
    ihdr_data.push(8);
    ihdr_data.push(2);
    ihdr_data.push(0);
    ihdr_data.push(0);
    ihdr_data.push(0);
    assert(ihdr_data@ =~= ihdr(width as u32, height as u32));
    chunk(&mut png, &[0x49, 0x48, 0x44, 0x52], ihdr_data.as_slice());
    // Raw image data: each scanline prefixed with filter byte 0 ("none").
    let mut raw: Vec<u8> = Vec::new();
    let mut start: usize = 0;
    let mut k: usize = 0;
    let ghost len = pixels@.len() as int;
    let ghost w = width as int;
    while k < height && start < pixels.len()
        invariant
            width > 0,
            len == pixels@.len(),
            w == width,
            k <= height,
            start == (if k * w < len {
                k * w
            } else {
                len
            }),
            raw@ == raw_rows(pixels@, width as nat, k as nat),
            k <= scanline_count(pixels@, width as nat, height as nat),
        decreases height - k,
    {
        proof {
            lemma_rows(len, w, k as int);
            assert(k * w < len);
            assert((k + 1) * w == k * w + w) by (nonlinear_arith);
        }
        let end = if pixels.len() - start > width {
            start + width
        } else {
            pixels.len()
        };
        raw.push(0);
        let ghost mid = raw@;
        let mut j: usize = start;
        while j < end
            invariant
                start <= j <= end <= pixels@.len(),
                raw@ == mid + rgb_bytes(pixels@.subrange(start as int, j as int)),
            decreases end - j,
        {
            let px = pixels[j];
            raw.push((px >> 16) as u8);
            raw.push((px >> 8) as u8);
            raw.push(px as u8);
            proof {
                assert(pixels@.subrange(start as int, j + 1).drop_last() =~= pixels@.subrange(start as int, j as int));
            }
            j += 1;
            assert(raw@ =~= mid + rgb_bytes(pixels@.subrange(start as int, j as int)));
        }
        assert(pixels@.subrange(start as int, end as int) == scanline(pixels@, width as nat, k as nat));
        start = if pixels.len() - start > width {
            start + width
        } else {
            pixels.len()
        };
        k += 1;
        proof {
            lemma_rows(len, w, k as int);
        }
    }
    proof {
        lemma_rows(len, w, k as int);
    }
    let idat = zlib_stored(raw.as_slice());
    chunk(&mut png, &[0x49, 0x44, 0x41, 0x54], idat.as_slice());
    chunk(&mut png, &[0x49, 0x45, 0x4E, 0x44], &[]);
    png
}


/// The big-endian 32-bit value of the four bytes of `b` from `i`.
pub open spec fn be32_at(b: Seq<u8>, i: int) -> int {
    b[i] as int * 0x100_0000 + b[i + 1] as int * 0x1_0000 + b[i + 2] as int * 0x100 + b[i + 3] as int
}

proof fn lemma_be32_value(v: u32)
    ensures
        be32_at(be32(v), 0) == v,
{
    let b0 = (v >> 24u32) as u8;
    let b1 = (v >> 16u32) as u8;
    let b2 = (v >> 8u32) as u8;
    let b3 = v as u8;
    assert(b0 as int * 0x100_0000 + b1 as int * 0x1_0000 + b2 as int * 0x100 + b3 as int == v) by (bit_vector)
        requires
            b0 == (v >> 24u32) as u8,
            b1 == (v >> 16u32) as u8,
            b2 == (v >> 8u32) as u8,
            b3 == v as u8,
    ;
}

/// A PNG file starts with its signature and an `IHDR` chunk of 13 bytes
/// whose first eight data bytes are the image's width and then its height,
/// each big-endian (file bytes 16–19 and 20–23), followed by bit depth 8 and
/// colour type 2 (truecolour).
pub proof fn lemma_png_header(width: usize, height: usize, pixels: Seq<u32>)
    requires
        width <= u32::MAX,
        height <= u32::MAX,
    ensures
        png_spec(width, height, pixels).subrange(0, 8) == png_signature(),
        be32_at(png_spec(width, height, pixels), 8) == 13,
        png_spec(width, height, pixels).subrange(12, 16) == seq![0x49u8, 0x48u8, 0x44u8, 0x52u8],
        be32_at(png_spec(width, height, pixels), 16) == width,
        be32_at(png_spec(width, height, pixels), 20) == height,
        png_spec(width, height, pixels)[24] == 8,
        png_spec(width, height, pixels)[25] == 2,
        png_spec(width, height, pixels)[26] == 0,
        png_spec(width, height, pixels)[27] == 0,
        png_spec(width, height, pixels)[28] == 0,
{
    let p = png_spec(width, height, pixels);
    let h = ihdr(width as u32, height as u32);
    let kind = seq![0x49u8, 0x48u8, 0x44u8, 0x52u8];
    let c = chunk_bytes(kind, h);
    assert(h.len() == 13);
    lemma_be32_value(13);
    lemma_be32_value(width as u32);
    lemma_be32_value(height as u32);
    let head = png_signature() + c;
    assert(p == head + (chunk_bytes(
        seq![0x49u8, 0x44u8, 0x41u8, 0x54u8],
        zlib_spec(raw_rows(pixels, width as nat, scanline_count(pixels, width as nat, height as nat))),
    ) + chunk_bytes(seq![0x49u8, 0x45u8, 0x4Eu8, 0x44u8], seq![])));
    assert(c == be32(13u32) + kind + h + be32(crc32(kind + h)));
    assert forall|i: int| 0 <= i < 29 implies #[trigger] p[i] == head[i] by {}
    assert(head.subrange(0, 8) =~= png_signature());
    assert(p.subrange(0, 8) =~= png_signature());
    assert(p.subrange(12, 16) =~= kind);
    assert(p[8] == be32(13u32)[0] && p[9] == be32(13u32)[1] && p[10] == be32(13u32)[2] && p[11] == be32(13u32)[3]);
    let bw = be32(width as u32);
    let bh = be32(height as u32);
    assert(h == bw + bh + seq![8u8, 2u8, 0u8, 0u8, 0u8]);
    assert(p[16] == bw[0] && p[17] == bw[1] && p[18] == bw[2] && p[19] == bw[3]);
    assert(p[20] == bh[0] && p[21] == bh[1] && p[22] == bh[2] && p[23] == bh[3]);
}

/// A pixel's red, green and blue levels: bits 16–23, 8–15 and 0–7 of its
/// `0x00RRGGBB` word.
pub open spec fn red(px: u32) -> int {
    (px as int / 0x1_0000) % 0x100
}

pub open spec fn green(px: u32) -> int {
    (px as int / 0x100) % 0x100
}

pub open spec fn blue(px: u32) -> int {
    px as int % 0x100
}

/// Each pixel of a row is stored as three bytes, red then green then blue,
/// in the row's order: byte `3j` is pixel `j`'s red level, `3j+1` its green
/// and `3j+2` its blue.
pub proof fn lemma_rgb_bytes_order(row: Seq<u32>)
    ensures
        rgb_bytes(row).len() == 3 * row.len(),
        forall|j: int| 0 <= j < row.len() ==> {
            &&& rgb_bytes(row)[3 * j] == red(#[trigger] row[j])
            &&& rgb_bytes(row)[3 * j + 1] == green(row[j])
            &&& rgb_bytes(row)[3 * j + 2] == blue(row[j])
        },
    decreases row.len(),
{
    if row.len() > 0 {
        let pre = row.drop_last();
        lemma_rgb_bytes_order(pre);
        let px = row.last();
        let (r, g, b) = ((px >> 16u32) as u8, (px >> 8u32) as u8, px as u8);
        assert(r as int == (px as int / 0x1_0000) % 0x100 && g as int == (px as int / 0x100) % 0x100
            && b as int == px as int % 0x100) by (bit_vector)
            requires
                r == (px >> 16u32) as u8,
                g == (px >> 8u32) as u8,
                b == px as u8,
        ;
        assert forall|j: int| 0 <= j < row.len() implies {
            &&& rgb_bytes(row)[3 * j] == red(#[trigger] row[j])
            &&& rgb_bytes(row)[3 * j + 1] == green(row[j])
            &&& rgb_bytes(row)[3 * j + 2] == blue(row[j])
        } by {
            if j < pre.len() {
                assert(row[j] == pre[j]);
            }
        }
    }
}

/// Where pixel `j` of row `k` starts in the raw data of a `width`-pixel
/// image: past `k` rows of `1 + 3 * width` bytes and the row's filter byte.
pub open spec fn pixel_offset(width: nat, k: int, j: int) -> int {
    k * (1 + 3 * width) + 1 + 3 * j
}

/// The raw image data of `n` full rows of a `width`-pixel image: each row
/// is one filter byte 0 followed by its `width` pixels as red, green, blue
/// bytes, so row `k` starts at byte `k * (1 + 3 * width)` and pixel `j` of
/// it is pixel `k * width + j` of the buffer.
pub proof fn lemma_raw_rows_layout(pixels: Seq<u32>, width: nat, n: nat)
    requires
        width > 0,
        n * width <= pixels.len(),
    ensures
        raw_rows(pixels, width, n).len() == n * (1 + 3 * width),
        forall|k: int| 0 <= k < n ==> #[trigger] raw_rows(pixels, width, n)[k * (1 + 3 * width)] == 0,
        forall|k: int, j: int|
            0 <= k < n && 0 <= j < width ==> #[trigger] raw_rows(pixels, width, n)[pixel_offset(width, k, j)]
                == red(pixels[k * width + j]) && raw_rows(pixels, width, n)[pixel_offset(width, k, j) + 1]
                == green(pixels[k * width + j]) && raw_rows(pixels, width, n)[pixel_offset(width, k, j) + 2]
                == blue(pixels[k * width + j]),
    decreases n,
{
    if n > 0 {
        let m = (n - 1) as nat;
        let w = width as int;
        let stride = 1 + 3 * w;
        assert(m * width <= n * width) by (nonlinear_arith)
            requires
                m <= n,
        ;
        lemma_raw_rows_layout(pixels, width, m);
        let pre = raw_rows(pixels, width, m);
        let start = (m * width) as int;
        assert(start + w == n * width) by (nonlinear_arith)
            requires
                start == m * width,
                w == width,
                m == n - 1,
        ;
        let sc = scanline(pixels, width, m);
        assert(sc =~= pixels.subrange(start, start + w));
        lemma_rgb_bytes_order(sc);
        let raw = raw_rows(pixels, width, n);
        assert(raw == pre + seq![0u8] + rgb_bytes(sc));
        assert(pre.len() == m * stride);
        assert(m * stride + stride == n * stride) by (nonlinear_arith)
            requires
                m == n - 1,
        ;
        assert forall|k: int| 0 <= k < n implies #[trigger] raw[k * stride] == 0 by {
            if k < m {
                assert(k * stride + stride <= m * stride) by (nonlinear_arith)
                    requires
                        k + 1 <= m,
                        stride > 0,
                ;
            }
        }
        assert forall|k: int, j: int| 0 <= k < n && 0 <= j < width implies #[trigger] raw[pixel_offset(width, k, j)]
            == red(pixels[k * width + j]) && raw[pixel_offset(width, k, j) + 1] == green(pixels[k * width + j])
            && raw[pixel_offset(width, k, j) + 2] == blue(pixels[k * width + j]) by {
            if k < m {
                assert(k * stride + stride <= m * stride) by (nonlinear_arith)
                    requires
                        k + 1 <= m,
                        stride > 0,
                ;
            } else {
                assert(k == m);
                assert(sc[j] == pixels[k * width + j]);
            }
        }
    }
}

} // verus!
