//! Ordered dither engine: thresholds a luma plane into a binary monochrome
//! plane using a fixed, spatially periodic 4x4 threshold matrix. The decision
//! is memoryless — no error diffuses between pixels or rows — so every row
//! can be dithered independently of the rest of the frame.

use vstd::prelude::*;

use crate::frame::{is_mono, LumaFrame, MonoPlane, PixelFormat, PresentError};

verus! {

/// The threshold applied at row `r`, column `c`: the 4x4 ordered-dither
/// matrix, tiled periodically over the image.
pub open spec fn threshold_at(r: int, c: int) -> u8 {
    let i = (r % 4) * 4 + (c % 4);
    if i == 0 {
        0x08
    } else if i == 1 {
        0x88
    } else if i == 2 {
        0x28
    } else if i == 3 {
        0xA8
    } else if i == 4 {
        0xC8
    } else if i == 5 {
        0x48
    } else if i == 6 {
        0xE8
    } else if i == 7 {
        0x68
    } else if i == 8 {
        0x38
    } else if i == 9 {
        0xB8
    } else if i == 10 {
        0x18
    } else if i == 11 {
        0x98
    } else if i == 12 {
        0xF8
    } else if i == 13 {
        0x78
    } else if i == 14 {
        0xD8
    } else {
        0x58
    }
}

/// The dither decision: a pixel lands "on" exactly when its luma value is
/// strictly greater than the local threshold.
pub open spec fn dither_on(b: u8, t: u8) -> bool {
    b > t
}

/// The monochrome byte produced for luma `b` at position `(r, c)`.
pub open spec fn dither_byte(b: u8, r: int, c: int) -> u8 {
    if dither_on(b, threshold_at(r, c)) {
        0xFF
    } else {
        0x00
    }
}

/// The dithered image row produced from source row `s` at row index `r`.
pub open spec fn dithered_row(s: Seq<u8>, r: int) -> Seq<u8> {
    Seq::new(s.len(), |c: int| dither_byte(s[c], r, c))
}

/// The whole dithered frame: each row of the result is the dithered form of
/// the corresponding source row, and nothing else enters into it.
pub open spec fn dithered_frame(f: LumaFrame) -> Seq<Seq<u8>> {
    Seq::new(f.height as nat, |r: int| dithered_row(f.row(r), r))
}

/// The dither decision is strictly order-preserving at every position of the
/// repeating pattern: a luma byte above the local threshold dithers "on",
/// while one at or below it dithers "off".
pub proof fn lemma_dither_order_preserving(b1: u8, b2: u8, r: int, c: int)
    requires
        b1 > threshold_at(r, c),
        threshold_at(r, c) >= b2,
    ensures
        dither_byte(b1, r, c) == 0xFF,
        dither_byte(b2, r, c) == 0x00,
{
}

/// Dithering is row-stateless: row `r` of the dithered frame is exactly what
/// dithering source row `r` in isolation yields.
pub proof fn lemma_dither_row_stateless(f: LumaFrame, r: int)
    requires
        0 <= r < f.height,
    ensures
        dithered_frame(f)[r] == dithered_row(f.row(r), r),
{
}

/// Looks up the tiled threshold matrix.
pub fn threshold(r: usize, c: usize) -> (t: u8)
    ensures
        t == threshold_at(r as int, c as int),
{
    let i: usize = (r % 4) * 4 + (c % 4);
    if i == 0 {
        0x08
    } else if i == 1 {
        0x88
    } else if i == 2 {
        0x28
    } else if i == 3 {
        0xA8
    } else if i == 4 {
        0xC8
    } else if i == 5 {
        0x48
    } else if i == 6 {
        0xE8
    } else if i == 7 {
        0x68
    } else if i == 8 {
        0x38
    } else if i == 9 {
        0xB8
    } else if i == 10 {
        0x18
    } else if i == 11 {
        0x98
    } else if i == 12 {
        0xF8
    } else if i == 13 {
        0x78
    } else if i == 14 {
        0xD8
    } else {
        0x58
    }
}

/// Dithers the `width` bytes starting at `start` in `data`, taken as image
/// row `r`, into one monochrome line.
pub fn dither_line(data: &Vec<u8>, start: usize, width: usize, r: usize) -> (out: Vec<u8>)
    requires
        start + width <= data@.len(),
    ensures
        out@ == dithered_row(data@.subrange(start as int, start + width), r as int),
{
    let n: usize = data.len();
    let mut out: Vec<u8> = Vec::new();
    let mut c: usize = 0;
    while c < width
        invariant
            c <= width,
            n == data@.len(),
            start + width <= n,
            out@.len() == c,
            forall|j: int|
                0 <= j < c ==> out@[j] == dither_byte(data@[start + j], r as int, j),
        decreases width - c,
    {
        let t = threshold(r, c);
        let b = data[start + c];
        if b > t {
            out.push(0xFF);
        } else {
            out.push(0x00);
        }
        c += 1;
    }
    proof {
        assert(out@ =~= dithered_row(data@.subrange(start as int, start + width), r as int));
    }
    out
}

/// Dithers a whole frame's luma plane into a monochrome plane of the same
/// visible dimensions. Fails with `UnsupportedFormat` — producing nothing —
/// on any pixel layout other than planar luma, and succeeds on every
/// well-formed frame of that layout.
pub fn dither_frame(src: &LumaFrame) -> (res: Result<MonoPlane, PresentError>)
    requires
        src.wf(),
    ensures
        match res {
            Ok(p) => {
                &&& src.format == PixelFormat::Yuv420p
                &&& p.wf()
                &&& p.width == src.width
                &&& p.height() == src.height
                &&& p.grid() == dithered_frame(*src)
            },
            Err(e) => {
                &&& e == PresentError::UnsupportedFormat
                &&& src.format != PixelFormat::Yuv420p
            },
        },
{
    if !matches!(src.format, PixelFormat::Yuv420p) {
        return Err(PresentError::UnsupportedFormat);
    }

    let plane_len: usize = src.data.len();
    let mut rows: Vec<Vec<u8>> = Vec::new();
    let mut r: usize = 0;
    while r < src.height
        invariant
            r <= src.height,
            src.wf(),
            plane_len == src.data@.len(),
            rows@.len() == r,
            forall|i: int|
                0 <= i < r ==> (#[trigger] rows@[i])@ == dithered_row(src.row(i), i),
        decreases src.height - r,
    {
        proof {
            vstd::arithmetic::mul::lemma_mul_inequality(r + 1, src.height as int, src.stride as int);
            assert((r + 1) * src.stride == r * src.stride + src.stride) by (nonlinear_arith);
            assert(src.height * src.stride == src.stride * src.height) by (nonlinear_arith);
            assert(r * src.stride + src.width <= src.data@.len());
        }
        let line = dither_line(&src.data, r * src.stride, src.width, r);
        proof {
            assert(src.data@.subrange(
                (r * src.stride) as int,
                r * src.stride + src.width,
            ) =~= src.row(r as int));
        }
        rows.push(line);
        r += 1;
    }

    let plane = MonoPlane { width: src.width, rows };
    proof {
        assert(plane.grid() =~= dithered_frame(*src));
        assert forall|i: int, c: int|
            0 <= i < plane.grid().len() && 0 <= c < plane.width implies is_mono(
            #[trigger] plane.grid()[i][c],
        ) by {
            assert(plane.grid()[i] == dithered_row(src.row(i), i));
        }
    }
    Ok(plane)
}

} // verus!
