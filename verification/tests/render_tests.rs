use raytracer::render::{
    assemble_frame, band_rows, band_start_index, clamp_channel, default_thread_count, BandBuffer,
    FrameBuffer,
};

#[test]
fn band_rows_even_split() {
    assert_eq!(band_rows(10, 2, 0), (0, 5));
    assert_eq!(band_rows(10, 2, 1), (5, 10));
}

#[test]
fn band_rows_with_remainder_drops_top_row() {
    // 10 rows over 3 workers: each band holds 3 rows, row 9 belongs to none.
    assert_eq!(band_rows(10, 3, 0), (0, 3));
    assert_eq!(band_rows(10, 3, 1), (3, 6));
    assert_eq!(band_rows(10, 3, 2), (6, 9));
}

#[test]
fn band_start_index_reverses_band_order() {
    // 2x4 image, 24 bytes; worker 0 (bottom rows) writes the back half.
    assert_eq!(band_start_index(2, 4, 2, 0), 12);
    assert_eq!(band_start_index(2, 4, 2, 1), 0);
}

#[test]
fn band_start_index_with_remainder_leaves_gaps() {
    // 1x10 image over 3 workers: 30 bytes, a 10-byte share each, but each
    // band writes only 9 bytes.
    assert_eq!(band_start_index(1, 10, 3, 0), 20);
    assert_eq!(band_start_index(1, 10, 3, 1), 10);
    assert_eq!(band_start_index(1, 10, 3, 2), 0);
}

#[test]
fn frame_buffer_starts_zeroed() {
    let fb = FrameBuffer::new(3, 2);
    let bytes = fb.into_bytes();
    assert_eq!(bytes.len(), 18);
    assert!(bytes.iter().all(|&b| b == 0));
}

#[test]
fn install_band_writes_only_its_region() {
    let mut fb = FrameBuffer::new(2, 2);
    let band = vec![7u8; 6];
    fb.install_band(6, &band);
    let bytes = fb.into_bytes();
    assert_eq!(&bytes[0..6], &[0, 0, 0, 0, 0, 0]);
    assert_eq!(&bytes[6..12], &[7, 7, 7, 7, 7, 7]);
}

#[test]
fn push_pixel_appends_three_bytes_in_order() {
    let mut band = BandBuffer::new(2, 1);
    band.push_pixel(10, 20, 30);
    band.push_pixel(40, 50, 60);
    assert_eq!(band.len(), 6);
    assert_eq!(band.bytes().as_slice(), &[10, 20, 30, 40, 50, 60]);
}

#[test]
fn assemble_frame_places_bands_back_to_front() {
    // 2x4 image, 2 workers: worker 0 holds the bottom two rows and lands in
    // the second half of the buffer.
    let mut b0 = BandBuffer::new(2, 2);
    let mut b1 = BandBuffer::new(2, 2);
    for _ in 0..4 {
        b0.push_pixel(1, 1, 1);
        b1.push_pixel(2, 2, 2);
    }
    let fb = assemble_frame(2, 4, 2, &vec![b0, b1]).unwrap();
    let bytes = fb.into_bytes();
    assert_eq!(bytes.len(), 24);
    assert!(bytes[0..12].iter().all(|&b| b == 2));
    assert!(bytes[12..24].iter().all(|&b| b == 1));
}

#[test]
fn assemble_frame_covers_every_byte_on_even_split() {
    // Worker count divides the height: no byte keeps the zero sentinel.
    let mut bands = Vec::new();
    for _ in 0..3 {
        let mut b = BandBuffer::new(4, 2);
        for _ in 0..8 {
            b.push_pixel(9, 9, 9);
        }
        bands.push(b);
    }
    let fb = assemble_frame(4, 6, 3, &bands).unwrap();
    let bytes = fb.into_bytes();
    assert_eq!(bytes.len(), 72);
    assert!(bytes.iter().all(|&b| b == 9));
}

#[test]
fn assemble_frame_keeps_sentinel_on_remainder_rows() {
    // 2x5 image over 2 workers: the odd top row is covered by no band and
    // its bytes stay zero, as do the share gaps.
    let mut b0 = BandBuffer::new(2, 2);
    let mut b1 = BandBuffer::new(2, 2);
    for _ in 0..4 {
        b0.push_pixel(5, 5, 5);
        b1.push_pixel(6, 6, 6);
    }
    let fb = assemble_frame(2, 5, 2, &vec![b0, b1]).unwrap();
    let bytes = fb.into_bytes();
    assert_eq!(bytes.len(), 30);
    assert!(bytes[0..12].iter().all(|&b| b == 6));
    assert!(bytes[12..15].iter().all(|&b| b == 0));
    assert!(bytes[15..27].iter().all(|&b| b == 5));
    assert!(bytes[27..30].iter().all(|&b| b == 0));
}

#[test]
fn assemble_frame_runs_top_row_first() {
    // One-pixel-wide image, one row per worker: row 0 (the bottom of the
    // frame) must land at the end of the buffer.
    let mut bands = Vec::new();
    for k in 0..4u8 {
        let mut b = BandBuffer::new(1, 1);
        b.push_pixel(k + 1, k + 1, k + 1);
        bands.push(b);
    }
    let fb = assemble_frame(1, 4, 4, &bands).unwrap();
    let bytes = fb.into_bytes();
    assert_eq!(
        bytes.as_slice(),
        &[4, 4, 4, 3, 3, 3, 2, 2, 2, 1, 1, 1]
    );
}

#[test]
fn assemble_frame_refuses_wrong_band_count() {
    let mut b0 = BandBuffer::new(2, 2);
    for _ in 0..4 {
        b0.push_pixel(1, 1, 1);
    }
    assert!(assemble_frame(2, 4, 2, &vec![b0]).is_none());
}

#[test]
fn assemble_frame_refuses_incomplete_band() {
    let mut b0 = BandBuffer::new(2, 2);
    let mut b1 = BandBuffer::new(2, 2);
    for _ in 0..4 {
        b0.push_pixel(1, 1, 1);
    }
    b1.push_pixel(2, 2, 2);
    assert!(assemble_frame(2, 4, 2, &vec![b0, b1]).is_none());
}

#[test]
fn assemble_frame_refuses_zero_workers() {
    let bands: Vec<BandBuffer> = Vec::new();
    assert!(assemble_frame(2, 4, 0, &bands).is_none());
}

#[test]
fn clamp_channel_clamps_into_byte_range() {
    assert_eq!(clamp_channel(-7), 0);
    assert_eq!(clamp_channel(0), 0);
    assert_eq!(clamp_channel(128), 128);
    assert_eq!(clamp_channel(255), 255);
    assert_eq!(clamp_channel(300), 255);
}

#[test]
fn default_thread_count_is_positive() {
    assert!(default_thread_count() >= 1);
}
