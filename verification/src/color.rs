//! The coarse color palette of an image: how many pixels of a small copy fall
//! in each cell of an 8x8x8 grid over the RGB cube.
use image::DynamicImage;
use vstd::arithmetic::div_mod::*;
use vstd::arithmetic::mul::*;
use vstd::multiset::*;
use vstd::prelude::*;

verus! {

/// Cells along each side of the grid.
pub const HIST_BINS_PER_CHANNEL: usize = 8;

/// Cells of the whole grid.
pub const HIST_SIZE: usize = 512;

/// The small copy of an image fits in a square of this side.
pub const THUMBNAIL_SIDE: u32 = 48;

/// Up to this side of a square it is known how large the blocks of pixels are
/// that make up a pixel of the small copy, and the copy can be held in memory.
pub const GREATEST_SIDE: u32 = 0x1000;

/// Up to this length of an image's side the places of all pixels along it are
/// exact in single precision.
pub const EXACT_LENGTH: u32 = 0x80_0000;

/// The cell of a color: each channel, of 256 values, is cut in 8 equal parts.
pub open spec fn bin_of(r: u8, g: u8, b: u8) -> int {
    r as int / 32 * 64 + g as int / 32 * 8 + b as int / 32
}

/// The cells of the pixels of an image, given as the bytes of its red, green
/// and blue in turn.
pub open spec fn pixel_bins(rgb: Seq<u8>) -> Seq<int> {
    Seq::new(rgb.len() / 3, |k: int| bin_of(rgb[3 * k], rgb[3 * k + 1], rgb[3 * k + 2]))
}

/// The color palette of an image.
#[derive(Debug)]
pub struct ColorHistogram {
    /// How many pixels fall in each cell.
    pub counts: Vec<usize>,
    /// How many pixels there are.
    pub total: usize,
}

/// The sum of counts.
pub open spec fn counts_sum(counts: Seq<usize>) -> nat
    decreases counts.len(),
{
    if counts.len() == 0 {
        0
    } else {
        counts_sum(counts.drop_last()) + counts.last() as nat
    }
}

impl ColorHistogram {
    /// There is a count for each cell, and they add up to the number of pixels.
    pub open spec fn well_formed(self) -> bool {
        &&& self.counts@.len() == HIST_SIZE
        &&& counts_sum(self.counts@) == self.total
    }

    /// The number by which counts are divided to make them shares of the whole.
    /// Without pixels every share is none.
    pub open spec fn parts(self) -> nat {
        if self.total == 0 {
            1
        } else {
            self.total as nat
        }
    }

    /// Each cell of the grid counts how often it occurs among `bins`.
    pub open spec fn counts_bins(self, bins: Seq<int>) -> bool {
        &&& self.counts@.len() == HIST_SIZE
        &&& forall|bin: int|
            0 <= bin < HIST_SIZE ==> #[trigger] self.counts@[bin] == bins.to_multiset().count(bin)
        &&& self.total == bins.len()
    }
}

/// The palette of an image given as RGB bytes. Bytes after the last whole pixel
/// do not count.
pub fn count_colors(rgb: &[u8]) -> (hist: ColorHistogram)
    ensures
        hist.well_formed(),
        hist.counts_bins(pixel_bins(rgb@)),
{
    let mut counts: Vec<usize> = vec![0; HIST_SIZE];
    let len: usize = rgb.len();
    let total: usize = len / 3;
    let ghost bins = pixel_bins(rgb@);
    proof {
        bins.take(0).to_multiset_ensures();
        assert(bins.take(0) =~= Seq::<int>::empty());
    }
    for k in 0..total
        invariant
            len == rgb@.len(),
            total == len / 3 == bins.len(),
            bins == pixel_bins(rgb@),
            counts@.len() == HIST_SIZE,
            forall|bin: int|
                0 <= bin < HIST_SIZE ==> #[trigger] counts@[bin] == bins.take(
                    k as int,
                ).to_multiset().count(bin),
    {
        assert(3 * k + 3 <= len);
        let (r, g, b) = (rgb[3 * k], rgb[3 * k + 1], rgb[3 * k + 2]);
        assert(r >> 5u8 == r / 32) by (bit_vector);
        assert(g >> 5u8 == g / 32) by (bit_vector);
        assert(b >> 5u8 == b / 32) by (bit_vector);
        let bin: usize = (r >> 5u8) as usize * HIST_BINS_PER_CHANNEL * HIST_BINS_PER_CHANNEL + (g
            >> 5u8) as usize * HIST_BINS_PER_CHANNEL + (b >> 5u8) as usize;
        proof {
            let before = bins.take(k as int);
            assert(bins.take(k + 1) =~= before.push(bins[k as int]));
            before.to_multiset_ensures();
            assert(before.to_multiset().count(bin as int) <= before.to_multiset().len());
        }
        counts[bin] = counts[bin] + 1;
    }
    assert(bins.take(total as int) =~= bins);
    let hist = ColorHistogram { counts, total };
    proof {
        law_counts_add_up(rgb@);
        lemma_sum_is_counted(hist, bins, HIST_SIZE as int);
        assert(counts@.take(HIST_SIZE as int) =~= counts@);
    }
    hist
}

/// `image::DynamicImage`, opaque.
#[verifier::external_type_specification]
#[verifier::external_body]
pub struct ExDynamicImage(image::DynamicImage);

/// How an image stores the samples of its channels.
#[derive(Clone, Copy, Debug, PartialEq, Eq, Structural)]
pub enum SampleKind {
    /// In 8 bits.
    Byte,
    /// In 16 bits.
    Word,
    /// In floating point.
    Float,
}

/// The width of an image, as `DynamicImage::width` gives it.
pub uninterp spec fn image_width(img: DynamicImage) -> u32;

/// The height of an image, as `DynamicImage::height` gives it.
pub uninterp spec fn image_height(img: DynamicImage) -> u32;

/// How the image stores samples, by the variant of `DynamicImage` that it is.
pub uninterp spec fn sample_kind(img: DynamicImage) -> SampleKind;

/// The small copy that `DynamicImage::thumbnail` makes to fit a square.
pub uninterp spec fn thumbnail_of(img: DynamicImage, side: u32) -> DynamicImage;

/// The RGB bytes that an image holds, as `DynamicImage::to_rgb8` gives them.
pub uninterp spec fn rgb8_bytes(img: DynamicImage) -> Seq<u8>;

/// `DynamicImage::width`, named by [`image_width`].
pub assume_specification[ DynamicImage::width ](img: &DynamicImage) -> (width: u32)
    ensures
        width == image_width(*img),
;

/// `DynamicImage::height`, named by [`image_height`].
pub assume_specification[ DynamicImage::height ](img: &DynamicImage) -> (height: u32)
    ensures
        height == image_height(*img),
;

/// The variant of a `DynamicImage`, named by [`sample_kind`]. A variant that
/// this version does not know counts as one of 16 bits.
#[verifier::external_body]
fn kind_of_samples(img: &DynamicImage) -> (kind: SampleKind)
    ensures
        kind == sample_kind(*img),
{
    match img {
        DynamicImage::ImageLuma8(_) => SampleKind::Byte,
        DynamicImage::ImageLumaA8(_) => SampleKind::Byte,
        DynamicImage::ImageRgb8(_) => SampleKind::Byte,
        DynamicImage::ImageRgba8(_) => SampleKind::Byte,
        DynamicImage::ImageLuma16(_) => SampleKind::Word,
        DynamicImage::ImageLumaA16(_) => SampleKind::Word,
        DynamicImage::ImageRgb16(_) => SampleKind::Word,
        DynamicImage::ImageRgba16(_) => SampleKind::Word,
        DynamicImage::ImageRgb32F(_) => SampleKind::Float,
        DynamicImage::ImageRgba32F(_) => SampleKind::Float,
        _ => SampleKind::Word,
    }
}

/// `DynamicImage::thumbnail` to a square, named by [`thumbnail_of`]. It
/// averages blocks of pixels and sums their samples in 32 bits, so the image has
/// to be of a size for which [`block_sums_fit`]. A channel that the image lacks,
/// such as alpha, is summed as one of the greatest samples, so that it is the
/// size of an image that counts, not how dark it is.
#[verifier::external_body]
fn thumbnail(img: &DynamicImage, side: u32) -> (small: DynamicImage)
    requires
        0 < side <= GREATEST_SIDE,
        block_sums_fit(image_width(*img), image_height(*img), sample_kind(*img), side),
    ensures
        small == thumbnail_of(*img, side),
        image_width(small) <= side,
        image_height(small) <= side,
{
    img.thumbnail(side, side)
}

/// `DynamicImage::to_rgb8` and the buffer of what it makes, named by
/// [`rgb8_bytes`]. For an image that `thumbnail` made the buffer holds the bytes
/// of its pixels, row by row. The bytes of a row, and those of all rows, have to
/// be no more than a buffer can hold.
#[verifier::external_body]
fn to_rgb8(img: &DynamicImage) -> (rgb: Vec<u8>)
    requires
        3 * image_width(*img) <= isize::MAX,
        3 * image_width(*img) * image_height(*img) <= isize::MAX,
    ensures
        rgb@ == rgb8_bytes(*img),
{
    img.to_rgb8().into_raw()
}

/// The greatest sample of an image whose samples are summed as integers.
pub open spec fn greatest_sample(kind: SampleKind) -> int {
    match kind {
        SampleKind::Byte => 0xff,
        SampleKind::Word => 0xffff,
        SampleKind::Float => 0,
    }
}

/// A bound on the pixels along one side of a block, where `len` pixels are
/// brought down to `small`: their ratio rounded up, and for great lengths what
/// floating point may add to it.
pub open spec fn block_side(len: int, small: int) -> int {
    if len <= EXACT_LENGTH {
        (len + small - 1) / small
    } else {
        len / small + len / 0x10_0000 + 3
    }
}

/// A bound on the pixels of a block, where an image is brought down to fit a
/// square: its longer side becomes `side`, the shorter one shrinks with it, to
/// no less than one pixel.
pub open spec fn block_pixels(width: u32, height: u32, side: u32) -> int {
    let (long, short) = if width >= height {
        (width as int, height as int)
    } else {
        (height as int, width as int)
    };
    let shrunk = if long == 0 { 0 } else { (2 * side * short + long - 1) / (2 * long) };
    block_side(long, side as int) * block_side(short, if shrunk < 1 { 1 } else { shrunk })
}

/// The samples of every block, and a half of their number for rounding, add up
/// within 32 bits.
pub open spec fn block_sums_fit(width: u32, height: u32, kind: SampleKind, side: u32) -> bool {
    let pixels = block_pixels(width, height, side);
    pixels <= u32::MAX && pixels * greatest_sample(kind) + pixels / 2 <= u32::MAX
}

/// A bound on the pixels along one side of a block.
fn greatest_block_side(len: u128, small: u128) -> (pixels: u128)
    requires
        len <= u32::MAX,
        0 < small <= 0x4_0000_0000_0000_0000,
    ensures
        pixels == block_side(len as int, small as int),
        pixels <= 0x2_0000_0000,
{
    proof {
        lemma_div_is_ordered_by_denominator(len as int, 1, small as int);
        let up = (len + small - 1) / small as int;
        lemma_fundamental_div_mod(len + small - 1, small as int);
        assert(up <= len + 1) by (nonlinear_arith)
            requires
                small * up <= len + small - 1,
                small > 0,
                len >= 0,
        ;
    }
    if len <= EXACT_LENGTH as u128 {
        (len + small - 1) / small
    } else {
        len / small + len / 0x10_0000 + 3
    }
}

/// Whether the samples of every block add up within 32 bits, where an image of
/// this size is brought down to fit a square.
pub fn check_block_sums(width: u32, height: u32, kind: SampleKind, side: u32) -> (fits: bool)
    requires
        side > 0,
    ensures
        fits == block_sums_fit(width, height, kind, side),
{
    let (long, short): (u128, u128) = if width >= height {
        (width as u128, height as u128)
    } else {
        (height as u128, width as u128)
    };
    let side: u128 = side as u128;
    let shrunk: u128 = if long == 0 {
        0
    } else {
        proof {
            lemma_product_bound(2 * side, short as int, 0x1_ffff_fffe, 0xffff_ffff);
            lemma_div_is_ordered_by_denominator(2 * side * short + long - 1, 1, 2 * long);
        }
        (2 * side * short + long - 1) / (2 * long)
    };
    let small: u128 = if shrunk < 1 { 1 } else { shrunk };
    let a: u128 = greatest_block_side(long, side);
    let b: u128 = greatest_block_side(short, small);
    let greatest: u128 = match kind {
        SampleKind::Byte => 0xff,
        SampleKind::Word => 0xffff,
        SampleKind::Float => 0,
    };
    proof {
        lemma_product_bound(a as int, b as int, 0x2_0000_0000, 0x2_0000_0000);
    }
    let pixels: u128 = a * b;
    proof {
        lemma_product_bound(
            pixels as int,
            greatest as int,
            0x4_0000_0000_0000_0000,
            0xffff,
        );
    }
    pixels <= u32::MAX as u128 && pixels * greatest + pixels / 2 <= u32::MAX as u128
}

/// A product of bounded factors is bounded.
proof fn lemma_product_bound(x: int, y: int, a: int, b: int)
    requires
        0 <= x <= a,
        0 <= y <= b,
    ensures
        0 <= x * y <= a * b,
{
    lemma_mul_upper_bound(x, a, y, b);
    lemma_mul_nonnegative(x, y);
}

/// The palette of an image, taken from a copy of at most 48x48 pixels.
pub fn color_signature(img: &DynamicImage) -> (hist: ColorHistogram)
    requires
        block_sums_fit(
            image_width(*img),
            image_height(*img),
            sample_kind(*img),
            THUMBNAIL_SIDE,
        ),
    ensures
        hist.well_formed(),
        hist.counts_bins(pixel_bins(rgb8_bytes(thumbnail_of(*img, THUMBNAIL_SIDE)))),
{
    let small = thumbnail(img, THUMBNAIL_SIDE);
    proof {
        lemma_product_bound(
            3 * image_width(small),
            image_height(small) as int,
            3 * THUMBNAIL_SIDE,
            THUMBNAIL_SIDE as int,
        );
    }
    count_colors(to_rgb8(&small).as_slice())
}

/// The palette of an image, `None` where the image is too large to be brought
/// down to 48x48 pixels.
pub fn checked_color_signature(img: &DynamicImage) -> (hist: Option<ColorHistogram>)
    ensures
        hist is Some <==> block_sums_fit(
            image_width(*img),
            image_height(*img),
            sample_kind(*img),
            THUMBNAIL_SIDE,
        ),
        hist is Some ==> hist->0.well_formed() && hist->0.counts_bins(
            pixel_bins(rgb8_bytes(thumbnail_of(*img, THUMBNAIL_SIDE))),
        ),
{
    if check_block_sums(img.width(), img.height(), kind_of_samples(img), THUMBNAIL_SIDE) {
        Some(color_signature(img))
    } else {
        None
    }
}

/// How much two palettes have in common: `shared` parts of `whole`.
#[derive(Clone, Copy, Debug, PartialEq, Eq, Structural)]
pub struct Overlap {
    pub shared: u128,
    pub whole: u128,
}

/// The lesser of two numbers.
pub open spec fn lesser(x: int, y: int) -> int {
    if x <= y {
        x
    } else {
        y
    }
}

/// What two palettes have in common in their first `n` cells, where their
/// shares are brought to a common denominator: the sum of the lesser share of
/// each cell.
pub open spec fn shared_below(a: ColorHistogram, b: ColorHistogram, n: nat) -> int
    decreases n,
{
    if n == 0 {
        0
    } else {
        shared_below(a, b, (n - 1) as nat) + lesser(
            a.counts@[n - 1] * b.parts(),
            b.counts@[n - 1] * a.parts(),
        )
    }
}

/// Histogram intersection: the sum of the lesser share of each cell, between 0
/// and 1.
pub fn histogram_intersection(a: &ColorHistogram, b: &ColorHistogram) -> (overlap: Overlap)
    requires
        a.well_formed(),
        b.well_formed(),
    ensures
        overlap.shared == shared_below(*a, *b, HIST_SIZE as nat),
        overlap.whole == a.parts() * b.parts(),
        overlap.whole == (if a.total == 0 { 1 } else { a.total as int }) * (if b.total == 0 {
            1
        } else {
            b.total as int
        }),
        0 <= overlap.shared <= overlap.whole,
        overlap.whole > 0,
{
    let a_parts: u128 = if a.total == 0 { 1 } else { a.total as u128 };
    let b_parts: u128 = if b.total == 0 { 1 } else { b.total as u128 };
    let mut shared: u128 = 0;
    proof {
        lemma_product_bound(
            a_parts as int,
            b_parts as int,
            0xffff_ffff_ffff_ffff,
            0xffff_ffff_ffff_ffff,
        );
        lemma_mul_strictly_positive(a_parts as int, b_parts as int);
    }
    for i in 0..HIST_SIZE
        invariant
            a.well_formed(),
            b.well_formed(),
            a_parts == a.parts(),
            b_parts == b.parts(),
            a_parts * b_parts <= 0xffff_ffff_ffff_ffff * 0xffff_ffff_ffff_ffff,
            shared == shared_below(*a, *b, i as nat),
            0 <= shared <= a_parts * b_parts,
    {
        proof {
            lemma_product_bound(
                a.counts@[i as int] as int,
                b_parts as int,
                0xffff_ffff_ffff_ffff,
                0xffff_ffff_ffff_ffff,
            );
            lemma_product_bound(
                b.counts@[i as int] as int,
                a_parts as int,
                0xffff_ffff_ffff_ffff,
                0xffff_ffff_ffff_ffff,
            );
            lemma_shared_bound(*a, *b, (i + 1) as nat);
        }
        let x: u128 = a.counts[i] as u128 * b_parts;
        let y: u128 = b.counts[i] as u128 * a_parts;
        shared = shared + if x <= y { x } else { y };
    }
    Overlap { shared, whole: a_parts * b_parts }
}

/// Compares the palettes of a candidate and its anchor, if both could be had.
pub fn compare_palettes(
    candidate: Option<&ColorHistogram>,
    anchor: Option<&ColorHistogram>,
) -> (overlap: Option<Overlap>)
    requires
        candidate is Some ==> candidate->0.well_formed(),
        anchor is Some ==> anchor->0.well_formed(),
    ensures
        overlap is Some <==> candidate is Some && anchor is Some,
        overlap is Some ==> overlap->0.shared == shared_below(
            *candidate->0,
            *anchor->0,
            HIST_SIZE as nat,
        ) && overlap->0.whole == candidate->0.parts() * anchor->0.parts(),
{
    match (candidate, anchor) {
        (Some(candidate), Some(anchor)) => Some(histogram_intersection(candidate, anchor)),
        _ => None,
    }
}

/// Which palette is compared with which does not matter.
pub proof fn law_intersection_is_symmetric(a: ColorHistogram, b: ColorHistogram)
    ensures
        shared_below(a, b, HIST_SIZE as nat) == shared_below(b, a, HIST_SIZE as nat),
        a.parts() * b.parts() == b.parts() * a.parts(),
{
    lemma_shared_symmetric(a, b, HIST_SIZE as nat);
    lemma_mul_is_commutative(a.parts() as int, b.parts() as int);
}

/// A palette with pixels has all in common with one of the same counts.
pub proof fn law_identical_palettes_agree(a: ColorHistogram, b: ColorHistogram)
    requires
        a.well_formed(),
        b.well_formed(),
        a.counts@ == b.counts@,
        a.total > 0,
    ensures
        shared_below(a, b, HIST_SIZE as nat) == a.parts() * b.parts(),
{
    lemma_shared_identical(a, b, HIST_SIZE as nat);
    assert(a.counts@.take(HIST_SIZE as int) =~= a.counts@);
}

/// Palettes have nothing in common exactly when no cell has pixels in both.
pub proof fn law_disjoint_palettes_share_nothing(a: ColorHistogram, b: ColorHistogram)
    ensures
        shared_below(a, b, HIST_SIZE as nat) == 0 <==> forall|i: int|
            0 <= i < HIST_SIZE ==> a.counts@[i] == 0 || #[trigger] b.counts@[i] == 0,
{
    lemma_shared_nothing(a, b, HIST_SIZE as nat);
}

/// Palettes in different order share the same.
proof fn lemma_shared_symmetric(a: ColorHistogram, b: ColorHistogram, n: nat)
    ensures
        shared_below(a, b, n) == shared_below(b, a, n),
    decreases n,
{
    if n > 0 {
        lemma_shared_symmetric(a, b, (n - 1) as nat);
    }
}

/// What is shared is no more than the whole.
proof fn lemma_shared_bound(a: ColorHistogram, b: ColorHistogram, n: nat)
    requires
        a.well_formed(),
        b.well_formed(),
        n <= HIST_SIZE,
    ensures
        0 <= shared_below(a, b, n) <= a.parts() * b.parts(),
{
    lemma_shared_bound_by_sum(a, b, n);
    lemma_sum_of_start(a.counts@, n as int);
    lemma_mul_inequality(
        counts_sum(a.counts@.take(n as int)) as int,
        a.parts() as int,
        b.parts() as int,
    );
}

/// What is shared in some cells is no more than what one palette has there.
proof fn lemma_shared_bound_by_sum(a: ColorHistogram, b: ColorHistogram, n: nat)
    requires
        a.well_formed(),
        n <= HIST_SIZE,
    ensures
        0 <= shared_below(a, b, n) <= counts_sum(a.counts@.take(n as int)) * b.parts(),
    decreases n,
{
    if n > 0 {
        let m = (n - 1) as nat;
        lemma_shared_bound_by_sum(a, b, m);
        let start = a.counts@.take(n as int);
        assert(start.drop_last() =~= a.counts@.take(m as int));
        lemma_mul_is_distributive_add_other_way(
            b.parts() as int,
            counts_sum(start.drop_last()) as int,
            start.last() as int,
        );
        lemma_mul_nonnegative(a.counts@[m as int] as int, b.parts() as int);
        lemma_mul_nonnegative(b.counts@[m as int] as int, a.parts() as int);
    }
}

/// The first counts add up to no more than all of them.
proof fn lemma_sum_of_start(counts: Seq<usize>, n: int)
    requires
        0 <= n <= counts.len(),
    ensures
        counts_sum(counts.take(n)) <= counts_sum(counts),
    decreases counts.len() - n,
{
    if n < counts.len() {
        lemma_sum_of_start(counts, n + 1);
        assert(counts.take(n + 1).drop_last() =~= counts.take(n));
    } else {
        assert(counts.take(n) =~= counts);
    }
}

/// Palettes of the same counts share all that is counted.
proof fn lemma_shared_identical(a: ColorHistogram, b: ColorHistogram, n: nat)
    requires
        a.well_formed(),
        b.well_formed(),
        a.counts@ == b.counts@,
        n <= HIST_SIZE,
    ensures
        shared_below(a, b, n) == counts_sum(a.counts@.take(n as int)) * b.parts(),
    decreases n,
{
    assert(a.parts() == b.parts());
    if n == 0 {
        lemma_mul_basics(b.parts() as int);
    } else {
        let m = (n - 1) as nat;
        lemma_shared_identical(a, b, m);
        let start = a.counts@.take(n as int);
        assert(start.drop_last() =~= a.counts@.take(m as int));
        lemma_mul_is_distributive_add_other_way(
            b.parts() as int,
            counts_sum(start.drop_last()) as int,
            start.last() as int,
        );
    }
}

/// Nothing is shared in the first cells exactly when none has pixels of both.
proof fn lemma_shared_nothing(a: ColorHistogram, b: ColorHistogram, n: nat)
    ensures
        shared_below(a, b, n) >= 0,
        shared_below(a, b, n) == 0 <==> forall|i: int|
            0 <= i < n ==> a.counts@[i] == 0 || #[trigger] b.counts@[i] == 0,
    decreases n,
{
    if n > 0 {
        let m = n - 1;
        lemma_shared_nothing(a, b, m as nat);
        let (x, y) = (a.counts@[m] as int, b.counts@[m] as int);
        lemma_mul_nonnegative(x, b.parts() as int);
        lemma_mul_nonnegative(y, a.parts() as int);
        if x > 0 && y > 0 {
            lemma_mul_strictly_positive(x, b.parts() as int);
            lemma_mul_strictly_positive(y, a.parts() as int);
            assert(!(a.counts@[m] == 0 || b.counts@[m] == 0));
        } else {
            lemma_mul_basics(b.parts() as int);
            lemma_mul_basics(a.parts() as int);
            assert(shared_below(a, b, n) == shared_below(a, b, m as nat));
        }
    }
}

/// Pixels counted in the first `n` cells of the grid.
pub open spec fn counted_below(bins: Seq<int>, n: nat) -> nat
    decreases n,
{
    if n == 0 {
        0
    } else {
        counted_below(bins, (n - 1) as nat) + bins.to_multiset().count(n - 1)
    }
}

/// Every pixel is counted in one cell: the counts of all cells add up to the
/// number of pixels, so that the shares that they make of it add up to one.
pub proof fn law_counts_add_up(rgb: Seq<u8>)
    ensures
        counted_below(pixel_bins(rgb), HIST_SIZE as nat) == pixel_bins(rgb).len(),
{
    let bins = pixel_bins(rgb);
    assert forall|k: int| 0 <= k < bins.len() implies 0 <= #[trigger] bins[k] < HIST_SIZE by {}
    lemma_counts_add_up(bins, HIST_SIZE as nat);
}

/// Where the pixels stand does not matter: images of the same pixels have the
/// same palette.
pub proof fn law_palette_ignores_place(a: Seq<u8>, b: Seq<u8>, h: ColorHistogram)
    requires
        pixel_bins(a).to_multiset() == pixel_bins(b).to_multiset(),
        h.counts_bins(pixel_bins(a)),
    ensures
        h.counts_bins(pixel_bins(b)),
{
    pixel_bins(a).to_multiset_ensures();
    pixel_bins(b).to_multiset_ensures();
}

/// The counts of the first cells add up to the pixels that are there.
proof fn lemma_sum_is_counted(hist: ColorHistogram, bins: Seq<int>, n: int)
    requires
        hist.counts_bins(bins),
        0 <= n <= HIST_SIZE,
    ensures
        counts_sum(hist.counts@.take(n)) == counted_below(bins, n as nat),
    decreases n,
{
    if n > 0 {
        lemma_sum_is_counted(hist, bins, n - 1);
        assert(hist.counts@.take(n).drop_last() =~= hist.counts@.take(n - 1));
    }
}

/// The counts of cells below `n` add up to the number of pixels if all are
/// there.
proof fn lemma_counts_add_up(bins: Seq<int>, n: nat)
    requires
        forall|k: int| 0 <= k < bins.len() ==> 0 <= #[trigger] bins[k] < n,
    ensures
        counted_below(bins, n) == bins.len(),
    decreases bins.len(),
{
    bins.to_multiset_ensures();
    if bins.len() == 0 {
        lemma_nothing_counted(bins, n);
    } else {
        let rest = bins.drop_last();
        lemma_counts_add_up(rest, n);
        assert(bins =~= rest.push(bins.last()));
        rest.to_multiset_ensures();
        lemma_one_more_counted(rest, bins.last(), n);
    }
}

/// Without pixels nothing is counted.
proof fn lemma_nothing_counted(bins: Seq<int>, n: nat)
    requires
        bins.len() == 0,
    ensures
        counted_below(bins, n) == 0,
    decreases n,
{
    bins.to_multiset_ensures();
    if n > 0 {
        lemma_nothing_counted(bins, (n - 1) as nat);
        assert(!bins.contains(n - 1));
    }
}

/// One more pixel adds one to the count below `n` if its cell is there.
proof fn lemma_one_more_counted(bins: Seq<int>, bin: int, n: nat)
    requires
        0 <= bin,
    ensures
        counted_below(bins.push(bin), n) == counted_below(bins, n) + if bin < n { 1nat } else { 0 },
    decreases n,
{
    bins.to_multiset_ensures();
    if n > 0 {
        lemma_one_more_counted(bins, bin, (n - 1) as nat);
    }
}

/// The grid has 8 cells along each of three sides, and the small copy of an image
/// fits in 48x48 pixels.
pub proof fn law_sizes()
    ensures
        HIST_BINS_PER_CHANNEL == 8,
        HIST_SIZE == 8 * 8 * 8,
        THUMBNAIL_SIDE == 48,
{
}

/// Each channel is cut in eight parts of 32 values. Red counts most in the number
/// of a cell, then green, then blue.
pub proof fn law_cells_are_eighths_of_channels(
    r: u8,
    g: u8,
    b: u8,
    red: int,
    green: int,
    blue: int,
)
    requires
        32 * red <= r < 32 * red + 32,
        32 * green <= g < 32 * green + 32,
        32 * blue <= b < 32 * blue + 32,
    ensures
        bin_of(r, g, b) == 64 * red + 8 * green + blue,
{
}

/// Every three bytes are a pixel, in the order they stand. What is left at the end
/// is less than a pixel.
pub proof fn law_pixels_are_three_bytes(rgb: Seq<u8>, k: int)
    requires
        0 <= k < pixel_bins(rgb).len(),
    ensures
        pixel_bins(rgb)[k] == bin_of(rgb[3 * k], rgb[3 * k + 1], rgb[3 * k + 2]),
{
}

/// So there are a third as many pixels as bytes.
pub proof fn law_pixels_are_a_third_of_the_bytes(rgb: Seq<u8>)
    ensures
        3 * pixel_bins(rgb).len() <= rgb.len() < 3 * pixel_bins(rgb).len() + 3,
{
}

/// One pixel more adds one to the count of its cell, and to the number of pixels,
/// and nothing else. Without pixels all counts are zero.
pub proof fn law_each_pixel_counts_once(
    rgb: Seq<u8>,
    r: u8,
    g: u8,
    b: u8,
    without: ColorHistogram,
    with: ColorHistogram,
    cell: int,
)
    requires
        rgb.len() % 3 == 0,
        without.counts_bins(pixel_bins(rgb)),
        with.counts_bins(pixel_bins(rgb + seq![r, g, b])),
        0 <= cell < 512,
    ensures
        without.counts@.len() == 512 && with.counts@.len() == 512,
        with.total == without.total + 1,
        with.counts@[cell] == without.counts@[cell] + if cell == r as int / 32 * 64 + g as int / 32
            * 8 + b as int / 32 {
            1int
        } else {
            0
        },
        rgb.len() == 0 ==> without.total == 0 && without.counts@[cell] == 0,
{
    let more = rgb + seq![r, g, b];
    let bins = pixel_bins(rgb);
    let n = bins.len() as int;
    assert(rgb.len() == 3 * n);
    assert(pixel_bins(more) =~= bins.push(bin_of(r, g, b)));
    bins.to_multiset_ensures();
    if rgb.len() == 0 {
        assert(bins =~= Seq::<int>::empty());
    }
}

/// What two palettes have in common grows from cell to cell by the lesser of
/// their shares: by as much as stays at or below both, and is one of them. Shares
/// are of the product of both numbers of pixels.
pub proof fn law_each_cell_adds_the_lesser_share(a: ColorHistogram, b: ColorHistogram, n: nat)
    ensures
        shared_below(a, b, 0) == 0,
        ({
            let added = shared_below(a, b, n + 1) - shared_below(a, b, n);
            let a_share = a.counts@[n as int] * (if b.total == 0 { 1 } else { b.total as int });
            let b_share = b.counts@[n as int] * (if a.total == 0 { 1 } else { a.total as int });
            &&& added <= a_share && added <= b_share
            &&& added == a_share || added == b_share
        }),
{
}

/// The parts that a palette is divided in are its pixels, or one where it has
/// none.
pub proof fn law_palettes_are_divided_by_pixels(a: ColorHistogram)
    ensures
        a.total > 0 ==> a.parts() == a.total,
        a.total == 0 ==> a.parts() == 1,
{
}

/// Counts are added up one by one.
pub proof fn law_counts_are_summed(counts: Seq<usize>, more: usize)
    ensures
        counts_sum(Seq::empty()) == 0,
        counts_sum(counts.push(more)) == counts_sum(counts) + more,
{
    assert(counts.push(more).drop_last() =~= counts);
}

/// Of which images the blocks are small enough. The longer side is brought down
/// to that of the square, the shorter one to `small` pixels: their ratio, rounded,
/// and one at least. A block then has `a` by `b` pixels, the least that cover the
/// sides, and somewhat more where these are longer than single precision can
/// tell. The sum of as many of the greatest samples, and a half of their number,
/// has to be within 32 bits. An image without pixels is always small enough.
pub proof fn law_blocks_within_32_bits_are_sampled(
    width: u32,
    height: u32,
    kind: SampleKind,
    side: u32,
    small: int,
    a: int,
    b: int,
)
    requires
        side > 0,
        width > 0 || height > 0,
        ({
            let (long, short) = if width >= height {
                (width as int, height as int)
            } else {
                (height as int, width as int)
            };
            &&& small >= 1
            &&& small == 1 || 2 * long * small < 2 * side * short + long
            &&& 2 * side * short + long <= 2 * long * (small + 1)
            &&& if long <= 0x80_0000 {
                side * (a - 1) < long <= side * a
            } else {
                side * (a - 3 - long / 0x10_0000) <= long < side * (a - 2 - long / 0x10_0000)
            }
            &&& if short <= 0x80_0000 {
                small * (b - 1) < short <= small * b
            } else {
                small * (b - 3 - short / 0x10_0000) <= short < small * (b - 2 - short / 0x10_0000)
            }
        }),
    ensures
        block_sums_fit(width, height, kind, side) <==> a * b <= u32::MAX && a * b * match kind {
            SampleKind::Byte => 255int,
            SampleKind::Word => 65535,
            SampleKind::Float => 0,
        } + a * b / 2 <= u32::MAX,
        block_sums_fit(0, 0, kind, side),
{
    let (long, short) = if width >= height {
        (width as int, height as int)
    } else {
        (height as int, width as int)
    };
    let shrunk = (2 * side * short + long - 1) / (2 * long);
    lemma_ratio_rounded(2 * side * short + long - 1, 2 * long, small);
    assert((if shrunk < 1 { 1 } else { shrunk }) == small);
    lemma_covered(long, side as int, a);
    lemma_covered(short, small, b);
    assert(block_pixels(width, height, side) == a * b);
    assert(block_pixels(0, 0, side) == 0) by {
        lemma_covered(0, side as int, 0);
        lemma_mul_basics(block_side(0, 1));
    }
}

/// The bound on a block's side is the number that covers it.
proof fn lemma_covered(len: int, small: int, blocks: int)
    requires
        len >= 0,
        small > 0,
        len <= 0x80_0000 ==> small * (blocks - 1) < len <= small * blocks,
        len > 0x80_0000 ==> small * (blocks - 3 - len / 0x10_0000) <= len < small * (blocks - 2
            - len / 0x10_0000),
    ensures
        block_side(len, small) == blocks,
{
    if len <= EXACT_LENGTH {
        let r = len + small - 1 - small * blocks;
        assert(small * (blocks - 1) == small * blocks - small) by (nonlinear_arith);
        lemma_mul_is_commutative(small, blocks);
        lemma_fundamental_div_mod_converse(len + small - 1, small, blocks, r);
    } else {
        let q = blocks - 3 - len / 0x10_0000;
        assert(small * (q + 1) == small * q + small) by (nonlinear_arith);
        lemma_mul_is_commutative(small, q);
        lemma_fundamental_div_mod_converse(len, small, q, len - small * q);
    }
}

/// A quotient that is at least one, by its bounds.
proof fn lemma_ratio_rounded(x: int, d: int, q: int)
    requires
        x >= 0,
        d > 0,
        q >= 1,
        q == 1 || d * q <= x,
        x < d * (q + 1),
    ensures
        (if x / d < 1 { 1 } else { x / d }) == q,
{
    assert(d * (q + 1) == d * q + d) by (nonlinear_arith);
    lemma_mul_is_commutative(d, q);
    if d * q <= x {
        lemma_fundamental_div_mod_converse(x, d, q, x - d * q);
    } else {
        lemma_mul_basics(d);
        lemma_fundamental_div_mod_converse(x, d, 0, x);
    }
}

} // verus!
