//! Sixel band packer: combines up to six monochrome rows column-wise into
//! one row of printable sixel characters. Column `c` of the result carries
//! one bit per band row — bit `j` is set when row `band_start + j` is "on"
//! at `c` — plus the printable offset `0x3F`. Rows past the bottom of the
//! image contribute no bits, so the last band of a short image is a full
//! width row, never a truncated one.

use vstd::prelude::*;

use crate::frame::MonoPlane;

verus! {

/// Tells whether row `r` of grid `g` exists and is "on" at column `c`.
pub open spec fn row_on(g: Seq<Seq<u8>>, r: int, c: int) -> bool {
    0 <= r < g.len() && g[r][c] == 0xFF
}

/// The six data bits of the sixel character at column `c` of the band that
/// starts at row `r0`: bit `j` weighs `2^j` and is set when row `r0 + j` is
/// "on" at `c`.
pub open spec fn sixel_bits(g: Seq<Seq<u8>>, r0: int, c: int) -> int {
    (if row_on(g, r0 + 0, c) { 1int } else { 0int })
        + (if row_on(g, r0 + 1, c) { 2int } else { 0int })
        + (if row_on(g, r0 + 2, c) { 4int } else { 0int })
        + (if row_on(g, r0 + 3, c) { 8int } else { 0int })
        + (if row_on(g, r0 + 4, c) { 16int } else { 0int })
        + (if row_on(g, r0 + 5, c) { 32int } else { 0int })
}

/// The finished sixel character for that column: data bits plus the
/// printable offset.
pub open spec fn sixel_char(g: Seq<Seq<u8>>, r0: int, c: int) -> u8 {
    (0x3F + sixel_bits(g, r0, c)) as u8
}

/// The sixel character row for the band starting at `r0`, over `width`
/// columns.
pub open spec fn sixel_row(g: Seq<Seq<u8>>, width: nat, r0: int) -> Seq<u8> {
    Seq::new(width, |c: int| sixel_char(g, r0, c))
}

/// A column whose six band rows are all "off" packs to exactly `0x3F`.
pub proof fn lemma_sixel_all_off(g: Seq<Seq<u8>>, r0: int, c: int)
    requires
        forall|r: int| r0 <= r < r0 + 6 ==> !(#[trigger] row_on(g, r, c)),
    ensures
        sixel_char(g, r0, c) == 0x3F,
{
    assert(!row_on(g, r0 + 0, c));
    assert(!row_on(g, r0 + 1, c));
    assert(!row_on(g, r0 + 2, c));
    assert(!row_on(g, r0 + 3, c));
    assert(!row_on(g, r0 + 4, c));
    assert(!row_on(g, r0 + 5, c));
}

/// A column whose six band rows are all "on" packs to exactly `0x7E`.
pub proof fn lemma_sixel_all_on(g: Seq<Seq<u8>>, r0: int, c: int)
    requires
        forall|r: int| r0 <= r < r0 + 6 ==> #[trigger] row_on(g, r, c),
    ensures
        sixel_char(g, r0, c) == 0x7E,
{
    assert(row_on(g, r0 + 0, c));
    assert(row_on(g, r0 + 1, c));
    assert(row_on(g, r0 + 2, c));
    assert(row_on(g, r0 + 3, c));
    assert(row_on(g, r0 + 4, c));
    assert(row_on(g, r0 + 5, c));
}

/// Missing rows act as "off": extending the image with all-zero rows leaves
/// every band row unchanged, so a bottom band short of six rows packs the
/// same as one padded out with blank rows.
pub proof fn lemma_missing_rows_act_as_off(
    g: Seq<Seq<u8>>,
    padded: Seq<Seq<u8>>,
    width: nat,
    r0: int,
)
    requires
        g.len() <= padded.len(),
        forall|r: int| 0 <= r < g.len() ==> padded[r] == g[r],
        forall|r: int, c: int|
            g.len() <= r < padded.len() && 0 <= c < width ==> #[trigger] padded[r][c] == 0x00,
    ensures
        sixel_row(padded, width, r0) == sixel_row(g, width, r0),
{
    assert forall|c: int| 0 <= c < width implies sixel_char(padded, r0, c) == sixel_char(
        g,
        r0,
        c,
    ) by {
        assert forall|r: int| r0 <= r < r0 + 6 implies #[trigger] row_on(padded, r, c)
            == row_on(g, r, c) by {
            if g.len() <= r < padded.len() {
                assert(padded[r][c] == 0x00);
            }
        }
        assert(row_on(padded, r0 + 0, c) == row_on(g, r0 + 0, c));
        assert(row_on(padded, r0 + 1, c) == row_on(g, r0 + 1, c));
        assert(row_on(padded, r0 + 2, c) == row_on(g, r0 + 2, c));
        assert(row_on(padded, r0 + 3, c) == row_on(g, r0 + 3, c));
        assert(row_on(padded, r0 + 4, c) == row_on(g, r0 + 4, c));
        assert(row_on(padded, r0 + 5, c) == row_on(g, r0 + 5, c));
    }
    assert(sixel_row(padded, width, r0) =~= sixel_row(g, width, r0));
}

/// Packs the band of up to six monochrome rows starting at `band_start` into
/// one full-width row of sixel characters, each in `[0x3F, 0x7E]`.
pub fn pack_band(plane: &MonoPlane, band_start: usize) -> (out: Vec<u8>)
    requires
        plane.wf(),
        band_start < plane.height(),
    ensures
        out@ == sixel_row(plane.grid(), plane.width as nat, band_start as int),
        forall|c: int| 0 <= c < out@.len() ==> 0x3F <= #[trigger] out@[c] <= 0x7E,
{
    let n: usize = plane.rows.len();
    let rem: usize = n - band_start;
    let mut out: Vec<u8> = Vec::new();
    let mut c: usize = 0;
    while c < plane.width
        invariant
            c <= plane.width,
            plane.wf(),
            band_start < n == plane.height(),
            rem == n - band_start,
            out@.len() == c,
            forall|j: int|
                0 <= j < c ==> out@[j] == sixel_char(plane.grid(), band_start as int, j),
        decreases plane.width - c,
    {
        proof {
            assert forall|k: int| band_start <= k < n implies (#[trigger] plane.rows@[k])@.len()
                == plane.width by {
                assert(plane.grid()[k] == plane.rows@[k]@);
            }
        }
        let mut bits: u8 = 0;
        if rem > 0 && plane.rows[band_start][c] == 0xFF {
            bits = bits + 1;
        }
        if rem > 1 && plane.rows[band_start + 1][c] == 0xFF {
            bits = bits + 2;
        }
        if rem > 2 && plane.rows[band_start + 2][c] == 0xFF {
            bits = bits + 4;
        }
        if rem > 3 && plane.rows[band_start + 3][c] == 0xFF {
            bits = bits + 8;
        }
        if rem > 4 && plane.rows[band_start + 4][c] == 0xFF {
            bits = bits + 16;
        }
        if rem > 5 && plane.rows[band_start + 5][c] == 0xFF {
            bits = bits + 32;
        }
        assert(bits == sixel_bits(plane.grid(), band_start as int, c as int));
        out.push(0x3F + bits);
        c += 1;
    }
    proof {
        assert(out@ =~= sixel_row(plane.grid(), plane.width as nat, band_start as int));
    }
    out
}

} // verus!
