//! Frame presenter: dithers one decoded frame, packs and run-length encodes
//! each band of six rows, and wraps the result in the sixel protocol's
//! header and footer — all accumulated in a caller-owned scratch buffer so
//! a driver can hand the finished frame to the terminal in a single write.

use vstd::prelude::*;

use crate::dither::{dither_frame, dithered_frame};
use crate::frame::{LumaFrame, PixelFormat, PresentError};
use crate::rle::{encode_row, row_encoding};
use crate::sixel::{pack_band, sixel_row};

verus! {

/// The protocol introducer emitted before the first band: enters sixel mode
/// and declares a two-entry palette, color 0 black and color 1 the active
/// tone, then selects color 1.
pub open spec fn sixel_header() -> Seq<u8> {
    seq![
        0x1Bu8, 0x50u8, 0x71u8, 0x23u8, 0x30u8, 0x3Bu8, 0x32u8, 0x3Bu8, 0x30u8, 0x3Bu8, 0x30u8,
        0x3Bu8, 0x30u8, 0x23u8, 0x31u8, 0x3Bu8, 0x32u8, 0x3Bu8, 0x31u8, 0x30u8, 0x30u8, 0x3Bu8,
        0x31u8, 0x30u8, 0x30u8, 0x3Bu8, 0x31u8, 0x30u8, 0x30u8, 0x23u8, 0x31u8,
    ]
}

/// The byte that terminates each band's encoded row.
pub open spec fn band_separator() -> u8 {
    0x2D
}

/// The protocol terminator: the string-terminator escape.
pub open spec fn sixel_footer() -> Seq<u8> {
    seq![0x1Bu8, 0x5Cu8]
}

/// The encoded bands of grid `g` from row `r0` down: each band of six rows
/// is packed to a sixel character row, run-length encoded, and closed with
/// the band separator.
pub open spec fn bands_encoding(g: Seq<Seq<u8>>, width: nat, r0: int) -> Seq<u8>
    decreases g.len() + 6 - r0,
{
    if r0 < 0 || r0 >= g.len() {
        Seq::empty()
    } else {
        row_encoding(sixel_row(g, width, r0)) + seq![band_separator()] + bands_encoding(
            g,
            width,
            r0 + 6,
        )
    }
}

/// The complete byte stream one frame presents as: header, every band of
/// the dithered image in order, footer.
pub open spec fn frame_stream(f: LumaFrame) -> Seq<u8> {
    sixel_header() + bands_encoding(dithered_frame(f), f.width as nat, 0) + sixel_footer()
}

/// Appends the protocol header to `out`.
fn append_header(out: &mut Vec<u8>)
    ensures
        final(out)@ == old(out)@ + sixel_header(),
{
    out.push(0x1B);
    out.push(0x50);
    out.push(0x71);
    out.push(0x23);
    out.push(0x30);
    out.push(0x3B);
    out.push(0x32);
    out.push(0x3B);
    out.push(0x30);
    out.push(0x3B);
    out.push(0x30);
    out.push(0x3B);
    out.push(0x30);
    out.push(0x23);
    out.push(0x31);
    out.push(0x3B);
    out.push(0x32);
    out.push(0x3B);
    out.push(0x31);
    out.push(0x30);
    out.push(0x30);
    out.push(0x3B);
    out.push(0x31);
    out.push(0x30);
    out.push(0x30);
    out.push(0x3B);
    out.push(0x31);
    out.push(0x30);
    out.push(0x30);
    out.push(0x23);
    out.push(0x31);
    proof {
        assert(out@ =~= old(out)@ + sixel_header());
    }
}

/// The monochrome renderer: the one presentation strategy this pipeline
/// ships.
pub struct BWRaster {}

impl BWRaster {
    /// Presents one frame into the scratch buffer `dest`: clears it, then
    /// fills it with the frame's complete sixel byte stream. Fails — leaving
    /// the buffer untouched — exactly when the frame's pixel layout is not
    /// planar luma. The caller owns `dest` and reuses it across frames; its
    /// capacity is retained, so steady-state presentation does not allocate.
    pub fn present(src: &LumaFrame, dest: &mut Vec<u8>) -> (res: Result<(), PresentError>)
        requires
            src.wf(),
        ensures
            match res {
                Ok(()) => {
                    &&& src.format == PixelFormat::Yuv420p
                    &&& final(dest)@ == frame_stream(*src)
                },
                Err(e) => {
                    &&& e == PresentError::UnsupportedFormat
                    &&& src.format != PixelFormat::Yuv420p
                    &&& final(dest)@ == old(dest)@
                },
            },
    {
        let plane = match dither_frame(src) {
            Ok(p) => p,
            Err(e) => {
                return Err(e);
            },
        };
        let ghost g = plane.grid();
        let ghost w = plane.width as nat;
        dest.clear();
        append_header(dest);

        let height: usize = plane.rows.len();
        let mut band_start: usize = 0;
        while band_start < height
            invariant
                band_start <= height,
                height == plane.height(),
                plane.wf(),
                g == plane.grid(),
                w == plane.width as nat,
                dest@ + bands_encoding(g, w, band_start as int) == sixel_header()
                    + bands_encoding(g, w, 0),
            decreases height - band_start,
        {
            let band_row = pack_band(&plane, band_start);
            let ghost before = dest@;
            encode_row(&band_row, dest);
            dest.push(0x2D);
            proof {
                assert(dest@ =~= before + row_encoding(sixel_row(g, w, band_start as int))
                    + seq![band_separator()]);
                assert(bands_encoding(g, w, band_start as int) == row_encoding(
                    sixel_row(g, w, band_start as int),
                ) + seq![band_separator()] + bands_encoding(g, w, band_start + 6));
                assert(dest@ + bands_encoding(g, w, band_start + 6) =~= before + bands_encoding(
                    g,
                    w,
                    band_start as int,
                ));
            }
            if height - band_start > 6 {
                band_start += 6;
            } else {
                proof {
                    assert(bands_encoding(g, w, band_start + 6) == Seq::<u8>::empty());
                    assert(bands_encoding(g, w, height as int) == Seq::<u8>::empty());
                }
                band_start = height;
            }
        }
        proof {
            assert(bands_encoding(g, w, height as int) == Seq::<u8>::empty());
            assert(dest@ =~= sixel_header() + bands_encoding(g, w, 0));
        }
        dest.push(0x1B);
        dest.push(0x5C);
        proof {
            assert(g == dithered_frame(*src));
            assert(w == src.width as nat);
            assert(dest@ =~= frame_stream(*src));
        }
        Ok(())
    }
}

} // verus!
