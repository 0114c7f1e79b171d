//! Data model for the presentation pipeline: the borrowed decoded frame and
//! the binary monochrome plane the dither engine produces from it.

use vstd::prelude::*;

verus! {

/// Pixel layouts the pipeline distinguishes. Only planar YUV 4:2:0 (whose
/// first plane is 8-bit luma) is accepted; everything else is rejected with
/// `PresentError::UnsupportedFormat` rather than converted best-effort.
#[derive(Clone, Copy, PartialEq, Eq, Structural, Debug)]
pub enum PixelFormat {
    Yuv420p,
    Other,
}

/// The error kinds the pipeline can report.
#[derive(Clone, Copy, PartialEq, Eq, Structural, Debug)]
pub enum PresentError {
    /// The input plane layout is not planar 8-bit luma.
    UnsupportedFormat,
    /// Allocating the destination plane failed.
    OutOfMemory,
    /// Writing to the output sink failed.
    SinkWriteFailed,
}

/// One decoded video frame's luma plane, copied out of the decode engine:
/// `width * height` visible pixels stored row-major with `stride` bytes per
/// row, plus the frame's presentation timestamp in stream time-base ticks.
pub struct LumaFrame {
    pub width: usize,
    pub height: usize,
    pub stride: usize,
    pub format: PixelFormat,
    pub data: Vec<u8>,
    pub pts: i64,
}

impl LumaFrame {
    /// Well-formedness: each row has at least `width` payload bytes and the
    /// plane holds exactly `height` stride-sized rows.
    pub open spec fn wf(&self) -> bool {
        &&& self.width <= self.stride
        &&& self.data@.len() == self.stride * self.height
    }

    /// The luma byte at row `r`, column `c`.
    pub open spec fn luma(&self, r: int, c: int) -> u8 {
        self.data@[r * self.stride + c]
    }

    /// The `width` visible bytes of row `r`.
    pub open spec fn row(&self, r: int) -> Seq<u8> {
        Seq::new(self.width as nat, |c: int| self.luma(r, c))
    }

    /// Builds a frame from plain values, accepting exactly the inputs that
    /// satisfy the plane invariant.
    pub fn new(
        width: usize,
        height: usize,
        stride: usize,
        format: PixelFormat,
        data: Vec<u8>,
        pts: i64,
    ) -> (res: Option<LumaFrame>)
        ensures
            match res {
                Some(f) => {
                    &&& f.wf()
                    &&& f.width == width
                    &&& f.height == height
                    &&& f.stride == stride
                    &&& f.format == format
                    &&& f.data@ == data@
                    &&& f.pts == pts
                },
                None => width > stride || data@.len() != stride * height,
            },
    {
        proof {
            vstd::arithmetic::mul::lemma_mul_upper_bound(
                stride as int,
                u64::MAX as int,
                height as int,
                u64::MAX as int,
            );
        }
        if width <= stride && (data.len() as u128) == (stride as u128) * (height as u128) {
            Some(LumaFrame { width, height, stride, format, data, pts })
        } else {
            None
        }
    }
}

/// Tells whether a monochrome byte is one of the two legal values.
pub open spec fn is_mono(b: u8) -> bool {
    b == 0x00 || b == 0xFF
}

/// A binary image: `height` rows of `width` bytes, each byte either `0x00`
/// ("off") or `0xFF` ("on"). Produced transiently by the dither engine for
/// one frame and consumed by the band packer.
pub struct MonoPlane {
    pub width: usize,
    pub rows: Vec<Vec<u8>>,
}

impl MonoPlane {
    /// The plane as a sequence of rows of bytes.
    pub open spec fn grid(&self) -> Seq<Seq<u8>> {
        self.rows@.map_values(|v: Vec<u8>| v@)
    }

    pub open spec fn height(&self) -> nat {
        self.rows@.len()
    }

    /// Well-formedness: every row is exactly `width` long and strictly binary.
    pub open spec fn wf(&self) -> bool {
        &&& forall|r: int|
            0 <= r < self.grid().len() ==> (#[trigger] self.grid()[r]).len() == self.width
        &&& forall|r: int, c: int|
            0 <= r < self.grid().len() && 0 <= c < self.width ==> is_mono(
                #[trigger] self.grid()[r][c],
            )
    }
}

} // verus!
