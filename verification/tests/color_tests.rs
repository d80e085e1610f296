use image::{DynamicImage, ImageBuffer, Luma, Rgb, RgbImage};
use metadata_similarity::color::{
    check_block_sums, checked_color_signature, color_signature, compare_palettes, count_colors,
    histogram_intersection, ColorHistogram, Overlap, SampleKind, HIST_SIZE,
};

/// A histogram of these counts in its first cells.
fn histogram(counts: &[usize]) -> ColorHistogram {
    let mut all = counts.to_vec();
    all.resize(HIST_SIZE, 0);
    ColorHistogram { total: all.iter().sum(), counts: all }
}

#[test]
fn histogram_intersection_of_identical_histograms_is_one() {
    // Shares of 0.5 and 0.5.
    let h = histogram(&[1, 1]);
    let overlap = histogram_intersection(&h, &h);
    assert!((overlap.shared as f32 / overlap.whole as f32 - 1.0).abs() < 1e-6);
}

#[test]
fn histogram_intersection_adds_the_lesser_shares() {
    // Shares of 1/4, 3/4 and of 1/2, 0, 1/2.
    let (a, b) = (histogram(&[1, 3]), histogram(&[1, 0, 1]));
    assert_eq!(histogram_intersection(&a, &b), Overlap { shared: 2, whole: 8 });
    assert_eq!(histogram_intersection(&b, &a), Overlap { shared: 2, whole: 8 });
    assert_eq!(histogram_intersection(&a, &histogram(&[0, 0, 5])).shared, 0);
}

#[test]
fn histogram_intersection_without_pixels_is_none() {
    let (none, some) = (histogram(&[]), histogram(&[7]));
    assert_eq!(histogram_intersection(&none, &none), Overlap { shared: 0, whole: 1 });
    assert_eq!(histogram_intersection(&none, &some), Overlap { shared: 0, whole: 7 });
}

#[test]
fn histogram_intersection_of_huge_counts_fits() {
    let h = histogram(&[usize::MAX - 1, 1]);
    let overlap = histogram_intersection(&h, &h);
    assert_eq!(overlap.shared, overlap.whole);
}

#[test]
fn palettes_are_compared_if_both_are_there() {
    let (a, b) = (histogram(&[1, 3]), histogram(&[1, 0, 1]));
    assert_eq!(compare_palettes(Some(&a), Some(&b)), Some(Overlap { shared: 2, whole: 8 }));
    assert_eq!(compare_palettes(None, Some(&b)), None);
    assert_eq!(compare_palettes(Some(&a), None), None);
    assert_eq!(compare_palettes(None, None), None);
}

#[test]
fn colors_fall_in_cells() {
    let hist = count_colors(&[0, 0, 0, 255, 255, 255, 31, 31, 31, 32, 64, 96]);
    assert_eq!(hist.counts.len(), HIST_SIZE);
    assert_eq!(hist.total, 4);
    assert_eq!(hist.counts[0], 2);
    assert_eq!(hist.counts[511], 1);
    assert_eq!(hist.counts[64 + 2 * 8 + 3], 1);
    assert_eq!(hist.counts.iter().sum::<usize>(), 4);
}

#[test]
fn bytes_short_of_a_pixel_do_not_count() {
    let hist = count_colors(&[255, 0, 0, 7, 7]);
    assert_eq!(hist.total, 1);
    assert_eq!(hist.counts[7 * 64], 1);
    assert_eq!(count_colors(&[]).total, 0);
}

#[test]
fn the_order_of_pixels_does_not_matter() {
    let a = count_colors(&[1, 2, 3, 200, 100, 50]);
    let b = count_colors(&[200, 100, 50, 1, 2, 3]);
    assert_eq!(a.counts, b.counts);
    assert_eq!(a.total, b.total);
}

#[test]
fn a_signature_is_taken_from_a_small_copy() {
    let img = DynamicImage::ImageRgb8(RgbImage::from_pixel(200, 100, Rgb([255, 0, 64])));
    let hist = color_signature(&img);
    assert_eq!(hist.total, 48 * 24);
    assert_eq!(hist.counts[7 * 64 + 2], 48 * 24);
    assert_eq!(hist.counts.iter().sum::<usize>(), hist.total);
}

#[test]
fn other_formats_are_read_as_rgb() {
    let gray = DynamicImage::new_luma8(96, 96);
    let hist = checked_color_signature(&gray).unwrap();
    assert_eq!(hist.total, 48 * 48);
    assert_eq!(hist.counts[0], 48 * 48);
    let float = DynamicImage::new_rgb32f(10, 10);
    assert_eq!(checked_color_signature(&float).unwrap().total, 48 * 48);
}

#[test]
fn a_signature_matches_the_pixels_of_the_thumbnail() {
    let mut picture = RgbImage::new(97, 61);
    for (x, y, pixel) in picture.enumerate_pixels_mut() {
        *pixel = Rgb([(x * 2) as u8, (y * 4) as u8, (x + y) as u8]);
    }
    let img = DynamicImage::ImageRgb8(picture);
    let small = img.thumbnail(48, 48).to_rgb8();
    let mut counts = vec![0usize; HIST_SIZE];
    for pixel in small.pixels() {
        let (r, g, b) = ((pixel[0] >> 5) as usize, (pixel[1] >> 5) as usize, (pixel[2] >> 5) as usize);
        counts[r * 64 + g * 8 + b] += 1;
    }
    let hist = checked_color_signature(&img).unwrap();
    assert_eq!(hist.counts, counts);
    assert_eq!(hist.total, small.pixels().len());
}

#[test]
fn images_too_large_to_sample_have_no_signature() {
    assert!(checked_color_signature(&DynamicImage::new_luma16(40000, 500)).is_none());
    let hist = checked_color_signature(&DynamicImage::new_luma8(40000, 500)).unwrap();
    assert_eq!(hist.total, 48);
}

#[test]
fn the_sums_of_blocks_fit_up_to_the_last_pixel() {
    // Blocks of 256x256 pixels.
    assert!(check_block_sums(12192, 12192, SampleKind::Word, 48));
    assert!(check_block_sums(12288, 12288, SampleKind::Word, 48));
    assert!(!check_block_sums(12289, 12289, SampleKind::Word, 48));
    assert!(check_block_sums(100_000, 100_000, SampleKind::Byte, 48));
    assert!(!check_block_sums(1_000_000, 1_000_000, SampleKind::Byte, 48));
    assert!(check_block_sums(1_000_000, 1_000_000, SampleKind::Float, 48));
    assert!(!check_block_sums(u32::MAX, u32::MAX, SampleKind::Float, 48));
    assert!(check_block_sums(0, 0, SampleKind::Word, 48));
    assert!(check_block_sums(10, 7, SampleKind::Word, 48));
}

#[test]
fn the_largest_blocks_of_white_are_sampled() {
    let white = |width: u32, height: u32| {
        DynamicImage::ImageLuma16(ImageBuffer::from_pixel(width, height, Luma([u16::MAX])))
    };
    let hist = checked_color_signature(&white(12288, 256)).unwrap();
    assert_eq!(hist.total, 48);
    assert_eq!(hist.counts[511], 48);
    assert!(checked_color_signature(&white(12289, 257)).is_none());
}
