use tvp::dither::{dither_frame, dither_line, threshold};
use tvp::frame::{LumaFrame, MonoPlane, PixelFormat, PresentError};
use tvp::present::BWRaster;
use tvp::sixel::pack_band;

fn luma_frame(width: usize, height: usize, stride: usize, fill: u8) -> LumaFrame {
    LumaFrame::new(width, height, stride, PixelFormat::Yuv420p, vec![fill; stride * height], 0)
        .unwrap()
}

fn mono_plane(width: usize, height: usize, fill: u8) -> MonoPlane {
    MonoPlane { width, rows: vec![vec![fill; width]; height] }
}

const HEADER: &[u8] = b"\x1BPq#0;2;0;0;0#1;2;100;100;100#1";
const FOOTER: &[u8] = b"\x1B\\";

#[test]
fn dither_decision_is_order_preserving() {
    // At every position, a byte one above the local threshold lands "on"
    // and the threshold value itself lands "off".
    for r in 0..8usize {
        for c in 0..8usize {
            let t = threshold(r, c);
            let above = dither_line(&vec![t + 1; c + 1], 0, c + 1, r);
            let at = dither_line(&vec![t; c + 1], 0, c + 1, r);
            assert_eq!(above[c], 0xFF);
            assert_eq!(at[c], 0x00);
        }
    }
}

#[test]
fn threshold_tiles_with_period_four() {
    for r in 0..16usize {
        for c in 0..16usize {
            assert_eq!(threshold(r, c), threshold(r % 4, c % 4));
        }
    }
}

#[test]
fn dither_rows_are_stateless() {
    // Dithering a row as part of a frame gives the same bytes as dithering
    // that row alone.
    let width = 8usize;
    let height = 4usize;
    let mut data = Vec::new();
    for i in 0..width * height {
        data.push((i * 37 % 256) as u8);
    }
    let frame =
        LumaFrame::new(width, height, width, PixelFormat::Yuv420p, data.clone(), 0).unwrap();
    let plane = dither_frame(&frame).unwrap();
    for r in 0..height {
        let alone = dither_line(&data, r * width, width, r);
        assert_eq!(plane.rows[r], alone);
    }
}

#[test]
fn dither_ignores_stride_padding() {
    let width = 4usize;
    let stride = 9usize;
    let height = 2usize;
    let mut data = vec![0xFFu8; stride * height];
    for r in 0..height {
        for c in width..stride {
            data[r * stride + c] = 0x01; // padding bytes must not matter
        }
    }
    let frame = LumaFrame::new(width, height, stride, PixelFormat::Yuv420p, data, 0).unwrap();
    let plane = dither_frame(&frame).unwrap();
    assert_eq!(plane.rows.len(), height);
    for r in 0..height {
        assert_eq!(plane.rows[r], vec![0xFFu8; width]);
    }
}

#[test]
fn dither_rejects_unsupported_format() {
    let frame = LumaFrame::new(4, 4, 4, PixelFormat::Other, vec![0u8; 16], 0).unwrap();
    assert_eq!(dither_frame(&frame).err().unwrap(), PresentError::UnsupportedFormat);
}

#[test]
fn frame_new_rejects_inconsistent_dimensions() {
    assert!(LumaFrame::new(8, 2, 4, PixelFormat::Yuv420p, vec![0u8; 8], 0).is_none());
    assert!(LumaFrame::new(4, 2, 4, PixelFormat::Yuv420p, vec![0u8; 9], 0).is_none());
    assert!(LumaFrame::new(4, 2, 4, PixelFormat::Yuv420p, vec![0u8; 8], 0).is_some());
}

#[test]
fn sixel_char_all_off_is_0x3f() {
    let plane = mono_plane(5, 6, 0x00);
    let row = pack_band(&plane, 0);
    assert_eq!(row, vec![0x3Fu8; 5]);
}

#[test]
fn sixel_char_all_on_is_0x7e() {
    let plane = mono_plane(5, 6, 0xFF);
    let row = pack_band(&plane, 0);
    assert_eq!(row, vec![0x7Eu8; 5]);
}

#[test]
fn sixel_bits_weigh_rows_top_to_bottom() {
    // Only band row j "on" must give character 0x3F + 2^j.
    for j in 0..6usize {
        let mut plane = mono_plane(3, 6, 0x00);
        plane.rows[j] = vec![0xFF; 3];
        let row = pack_band(&plane, 0);
        assert_eq!(row, vec![0x3Fu8 + (1 << j); 3]);
    }
}

#[test]
fn short_final_band_packs_missing_rows_as_off() {
    // Height 8: the second band has only rows 6 and 7; it must pack the
    // same as a plane padded with blank rows to a full band, at full width.
    let plane = mono_plane(7, 8, 0xFF);
    let short_band = pack_band(&plane, 6);
    assert_eq!(short_band.len(), 7);
    assert_eq!(short_band, vec![0x3Fu8 + 0b11; 7]);

    let mut padded = mono_plane(7, 12, 0xFF);
    for r in 8..12 {
        padded.rows[r] = vec![0x00; 7];
    }
    assert_eq!(pack_band(&padded, 6), short_band);
}

#[test]
fn all_white_block_presents_as_one_compact_run() {
    // A 32x6 all-white block dithers all "on", packs to 0x7E ('~') across
    // the row, and collapses to the single escape `!32~`.
    let frame = luma_frame(32, 6, 32, 0xFF);
    let mut out = Vec::new();
    BWRaster::present(&frame, &mut out).unwrap();

    let mut expected = Vec::new();
    expected.extend_from_slice(HEADER);
    expected.extend_from_slice(b"!32~-");
    expected.extend_from_slice(FOOTER);
    assert_eq!(out, expected);
}

#[test]
fn checkerboard_presents_as_literals_only() {
    // Alternating white/black columns give runs of length one: 32 literal
    // characters and no repeat escape anywhere in the stream.
    let width = 32usize;
    let mut data = Vec::new();
    for _r in 0..6usize {
        for c in 0..width {
            data.push(if c % 2 == 0 { 0xFFu8 } else { 0x00u8 });
        }
    }
    let frame = LumaFrame::new(width, 6, width, PixelFormat::Yuv420p, data, 0).unwrap();
    let mut out = Vec::new();
    BWRaster::present(&frame, &mut out).unwrap();

    let mut expected = Vec::new();
    expected.extend_from_slice(HEADER);
    for c in 0..width {
        expected.push(if c % 2 == 0 { 0x7Eu8 } else { 0x3Fu8 });
    }
    expected.push(b'-');
    expected.extend_from_slice(FOOTER);
    assert_eq!(out, expected);
    assert!(!out[HEADER.len()..].contains(&0x21u8));
}

#[test]
fn present_rejects_unsupported_format_untouched() {
    let frame = LumaFrame::new(4, 4, 4, PixelFormat::Other, vec![0u8; 16], 0).unwrap();
    let mut out = vec![0xAAu8, 0xBB];
    assert_eq!(BWRaster::present(&frame, &mut out).unwrap_err(), PresentError::UnsupportedFormat);
    assert_eq!(out, vec![0xAAu8, 0xBB]);
}

#[test]
fn present_clears_scratch_between_frames() {
    let frame = luma_frame(32, 6, 32, 0xFF);
    let mut out = Vec::new();
    BWRaster::present(&frame, &mut out).unwrap();
    let first = out.clone();
    BWRaster::present(&frame, &mut out).unwrap();
    assert_eq!(out, first);
}

#[test]
fn present_emits_one_band_separator_per_band() {
    // Height 13 => bands start at rows 0, 6 and 12: three separators.
    let frame = luma_frame(8, 13, 8, 0xFF);
    let mut out = Vec::new();
    BWRaster::present(&frame, &mut out).unwrap();
    let body = &out[HEADER.len()..out.len() - FOOTER.len()];
    assert_eq!(body.iter().filter(|&&b| b == b'-').count(), 3);
}
