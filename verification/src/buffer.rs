use vstd::prelude::*;

use crate::region::{region_fits, Region};

verus! {

/// An in-memory image: a row-major grid of pixels, three 8-bit channels per
/// pixel, so that channel `c` of the pixel at `(x, y)` sits at byte
/// `(y * width + x) * 3 + c`.
#[derive(PartialEq, Eq, Debug)]
pub struct PixelBuffer {
    pub width: u32,
    pub height: u32,
    pub data: Vec<u8>,
}

impl PixelBuffer {
    /// The byte store holds exactly three bytes per pixel of the grid.
    pub open spec fn wf(self) -> bool {
        self.data@.len() == self.width * self.height * 3
    }

    /// Channel `c` of the pixel at `(x, y)`.
    pub open spec fn chan(self, x: int, y: int, c: int) -> u8
        recommends
            0 <= x < self.width,
            0 <= y < self.height,
            0 <= c < 3,
    {
        self.data@[(y * self.width + x) * 3 + c]
    }

    /// Wraps raw row-major bytes as a pixel grid; refuses byte stores whose
    /// length is not exactly `width * height * 3`.
    pub fn new(width: u32, height: u32, data: Vec<u8>) -> (r: Option<PixelBuffer>)
        ensures
            r is Some <==> data@.len() == width * height * 3,
            r matches Some(b) ==> b.width == width && b.height == height && b.data@ == data@
                && b.wf(),
    {
        proof {
            assert((width as int) * (height as int) <= 0xffff_ffff * 0xffff_ffff)
                by (nonlinear_arith)
                requires
                    width <= 0xffff_ffffu32,
                    height <= 0xffff_ffffu32,
            ;
        }
        let pixels: u64 = (width as u64) * (height as u64);
        let len: u64 = data.len() as u64;
        if len % 3 == 0 && len / 3 == pixels {
            proof {
                vstd::arithmetic::div_mod::lemma_fundamental_div_mod(len as int, 3);
                assert(data@.len() == width * height * 3) by (nonlinear_arith)
                    requires
                        len == data@.len(),
                        len == 3 * (len as int / 3) + (len as int % 3),
                        len as int % 3 == 0,
                        len as int / 3 == width * height,
                ;
            }
            Some(PixelBuffer { width, height, data })
        } else {
            proof {
                if data@.len() == width * height * 3 {
                    assert(len == 3 * pixels) by (nonlinear_arith)
                        requires
                            len == width * height * 3,
                            pixels == width * height,
                    ;
                    vstd::arithmetic::div_mod::lemma_fundamental_div_mod_converse(
                        len as int,
                        3,
                        pixels as int,
                        0,
                    );
                }
            }
            None
        }
    }
}

/// The three channel bytes of the region's pixel at offset `(x, y)` from its
/// origin.
pub open spec fn pixel_channels(buf: PixelBuffer, reg: Region, y: int, x: int) -> Seq<u8> {
    seq![
        buf.chan(reg.x + x, reg.y + y, 0),
        buf.chan(reg.x + x, reg.y + y, 1),
        buf.chan(reg.x + x, reg.y + y, 2),
    ]
}

/// The channel bytes of the first `n` pixels of the region's row `y`.
pub open spec fn row_channels(buf: PixelBuffer, reg: Region, y: int, n: nat) -> Seq<u8>
    decreases n,
{
    if n == 0 {
        Seq::empty()
    } else {
        row_channels(buf, reg, y, (n - 1) as nat) + pixel_channels(buf, reg, y, n - 1)
    }
}

/// The channel bytes of the region's first `n` rows.
pub open spec fn rows_channels(buf: PixelBuffer, reg: Region, n: nat) -> Seq<u8>
    decreases n,
{
    if n == 0 {
        Seq::empty()
    } else {
        rows_channels(buf, reg, (n - 1) as nat) + row_channels(
            buf,
            reg,
            n - 1,
            reg.width as nat,
        )
    }
}

/// All channel bytes of the region, row-major, three per pixel: the byte
/// store of the extracted sub-image, and the sequence whose byte distribution
/// the scorer reads.
pub open spec fn region_channels(buf: PixelBuffer, reg: Region) -> Seq<u8> {
    rows_channels(buf, reg, reg.height as nat)
}

proof fn lemma_row_channels_len(buf: PixelBuffer, reg: Region, y: int, n: nat)
    ensures
        row_channels(buf, reg, y, n).len() == 3 * n,
    decreases n,
{
    if n > 0 {
        lemma_row_channels_len(buf, reg, y, (n - 1) as nat);
    }
}

proof fn lemma_rows_channels_len(buf: PixelBuffer, reg: Region, n: nat)
    ensures
        rows_channels(buf, reg, n).len() == n * reg.width * 3,
    decreases n,
{
    if n > 0 {
        let m = (n - 1) as nat;
        lemma_rows_channels_len(buf, reg, m);
        lemma_row_channels_len(buf, reg, n - 1, reg.width as nat);
        assert(rows_channels(buf, reg, n).len() == m * reg.width * 3 + 3 * reg.width);
        assert(m * reg.width * 3 + 3 * reg.width == n * reg.width * 3) by (nonlinear_arith)
            requires
                n >= 1,
                m == n - 1,
        ;
    } else {
        assert(n * reg.width * 3 == 0) by (nonlinear_arith)
            requires
                n == 0,
        ;
    }
}

/// A region of `w` by `h` pixels yields `w * h * 3` channel bytes.
pub proof fn lemma_region_channels_len(buf: PixelBuffer, reg: Region)
    ensures
        region_channels(buf, reg).len() == reg.width * reg.height * 3,
{
    lemma_rows_channels_len(buf, reg, reg.height as nat);
    assert(reg.height * reg.width * 3 == reg.width * reg.height * 3) by (nonlinear_arith);
}

proof fn lemma_whole_row_channels(buf: PixelBuffer, reg: Region, y: int, n: nat)
    requires
        buf.wf(),
        reg == (Region { x: 0u32, y: 0u32, width: buf.width, height: buf.height }),
        0 <= y < buf.height,
        n <= buf.width,
    ensures
        row_channels(buf, reg, y, n) == buf.data@.subrange(
            y * buf.width * 3,
            y * buf.width * 3 + 3 * n,
        ),
    decreases n,
{
    let w = buf.width as int;
    let h = buf.height as int;
    assert(y * w + n <= h * w) by (nonlinear_arith)
        requires
            y <= h - 1,
            n <= w,
            w >= 0,
    ;
    assert(y * w * 3 + 3 * n <= h * w * 3) by (nonlinear_arith)
        requires
            y * w + n <= h * w,
    ;
    assert(buf.data@.len() == h * w * 3) by (nonlinear_arith)
        requires
            buf.data@.len() == w * h * 3,
    ;
    if n == 0 {
        assert(row_channels(buf, reg, y, n) =~= buf.data@.subrange(
            y * buf.width * 3,
            y * buf.width * 3 + 3 * n,
        ));
    } else {
        lemma_whole_row_channels(buf, reg, y, (n - 1) as nat);
        assert(pixel_channels(buf, reg, y, n - 1) =~= buf.data@.subrange(
            y * buf.width * 3 + 3 * (n - 1),
            y * buf.width * 3 + 3 * n,
        )) by {
            assert((y * w + (n - 1)) * 3 == y * w * 3 + 3 * (n - 1)) by (nonlinear_arith);
        }
        assert(row_channels(buf, reg, y, n) =~= buf.data@.subrange(
            y * buf.width * 3,
            y * buf.width * 3 + 3 * n,
        ));
    }
}

proof fn lemma_whole_rows_channels(buf: PixelBuffer, reg: Region, n: nat)
    requires
        buf.wf(),
        reg == (Region { x: 0u32, y: 0u32, width: buf.width, height: buf.height }),
        n <= buf.height,
    ensures
        rows_channels(buf, reg, n) == buf.data@.subrange(0, n * buf.width * 3),
    decreases n,
{
    let w = buf.width as int;
    let h = buf.height as int;
    assert(buf.data@.len() == h * w * 3) by (nonlinear_arith)
        requires
            buf.data@.len() == w * h * 3,
    ;
    assert(n * w * 3 <= h * w * 3) by (nonlinear_arith)
        requires
            0 <= n <= h,
            w >= 0,
    ;
    if n == 0 {
        assert(n * w * 3 == 0) by (nonlinear_arith)
            requires
                n == 0,
        ;
        assert(rows_channels(buf, reg, n) =~= buf.data@.subrange(0, n * buf.width * 3));
    } else {
        lemma_whole_rows_channels(buf, reg, (n - 1) as nat);
        lemma_whole_row_channels(buf, reg, n - 1, buf.width as nat);
        assert((n - 1) * w * 3 + 3 * w == n * w * 3) by (nonlinear_arith);
        assert(rows_channels(buf, reg, n) =~= buf.data@.subrange(0, n * buf.width * 3));
    }
}

/// The window that covers the whole buffer flattens back to the buffer's own
/// byte store: extracting it reproduces the image.
pub proof fn lemma_region_channels_whole(buf: PixelBuffer)
    requires
        buf.wf(),
    ensures
        region_channels(
            buf,
            Region { x: 0, y: 0, width: buf.width, height: buf.height },
        ) == buf.data@,
{
    let reg = Region { x: 0u32, y: 0u32, width: buf.width, height: buf.height };
    let w = buf.width as int;
    let h = buf.height as int;
    lemma_whole_rows_channels(buf, reg, buf.height as nat);
    assert(h * w * 3 == buf.data@.len()) by (nonlinear_arith)
        requires
            buf.data@.len() == w * h * 3,
    ;
    assert(buf.data@.subrange(0, h * w * 3) =~= buf.data@);
}

/// Copies the region out of the buffer into a new pixel grid of the region's
/// dimensions: the slicing step of the crop operation.
#[verifier::loop_isolation(false)]
pub fn extract(buf: &PixelBuffer, reg: Region) -> (out: PixelBuffer)
    requires
        buf.wf(),
        region_fits(reg, buf.width, buf.height),
    ensures
        out.wf(),
        out.width == reg.width,
        out.height == reg.height,
        out.data@ == region_channels(*buf, reg),
{
    let total: usize = buf.data.len();
    let mut data: Vec<u8> = Vec::new();
    let mut y: u32 = 0;
    while y < reg.height
        invariant
            y <= reg.height,
            data@ == rows_channels(*buf, reg, y as nat),
        decreases reg.height - y,
    {
        let mut x: u32 = 0;
        proof {
            assert(data@ =~= rows_channels(*buf, reg, y as nat) + row_channels(
                *buf,
                reg,
                y as int,
                0,
            ));
        }
        while x < reg.width
            invariant
                x <= reg.width,
                y < reg.height,
                data@ == rows_channels(*buf, reg, y as nat) + row_channels(
                    *buf,
                    reg,
                    y as int,
                    x as nat,
                ),
            decreases reg.width - x,
        {
            let px: u32 = reg.x + x;
            let py: u32 = reg.y + y;
            proof {
                assert((py * buf.width + px) * 3 + 2 < buf.width * buf.height * 3)
                    by (nonlinear_arith)
                    requires
                        px < buf.width,
                        py < buf.height,
                ;
                assert(buf.width * buf.height * 3 == total);
            }
            let base: usize = ((py as usize) * (buf.width as usize) + (px as usize)) * 3;
            let c0: u8 = buf.data[base];
            let c1: u8 = buf.data[base + 1];
            let c2: u8 = buf.data[base + 2];
            data.push(c0);
            data.push(c1);
            data.push(c2);
            proof {
                assert(data@ =~= rows_channels(*buf, reg, y as nat) + row_channels(
                    *buf,
                    reg,
                    y as int,
                    (x + 1) as nat,
                ));
            }
            x = x + 1;
        }
        y = y + 1;
    }
    proof {
        lemma_region_channels_len(*buf, reg);
    }
    PixelBuffer { width: reg.width, height: reg.height, data }
}

} // verus!
