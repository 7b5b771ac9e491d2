//! Deciding whether a page image holds text, from the number of pixels that
//! an edge detector marks.
use vstd::prelude::*;
use crate::pipeline::PageError;

verus! {

#[verifier::external_type_specification]
#[verifier::external_body]
pub struct ExDynamicImage(image::DynamicImage);

/// What the Canny edge detector of imageproc gives for a grayscale image of
/// the given size and pixels, with the given low and high thresholds: one
/// byte per pixel, zero where no edge was found.
pub uninterp spec fn canny_of(width: u32, height: u32, pixels: Seq<u8>, low: u16, high: u16) -> Seq<u8>;

/// The luminance that the image crate gives for a decoded image: its width,
/// its height, and its bytes, one per pixel, row by row (the buffer may hold
/// more bytes than `width * height`).
pub uninterp spec fn luma_of(img: image::DynamicImage) -> (u32, u32, Seq<u8>);

/// Every entry is 0 (no edge) or 255 (edge).
pub open spec fn is_binary_mask(s: Seq<u8>) -> bool {
    forall|i: int| 0 <= i < s.len() ==> #[trigger] s[i] == 0 || s[i] == 255
}

/// Number of entries of `s` that are not zero.
pub open spec fn count_nonzero(s: Seq<u8>) -> nat
    decreases s.len(),
{
    if s.len() == 0 {
        0
    } else {
        count_nonzero(s.drop_last()) + if s.last() > 0 { 1nat } else { 0nat }
    }
}

/// The filter's rule: a page holds text when strictly more pixels than the
/// threshold are edges.
pub open spec fn text_decision(edge_count: nat, threshold: nat) -> bool {
    edge_count > threshold
}

/// Relies on `image::DynamicImage::to_luma8`, `ImageBuffer::dimensions` and
/// `ImageBuffer::into_raw`: the luminance of an image as one byte per pixel.
/// The result depends on the image alone. An `ImageBuffer` never holds fewer
/// bytes than its width times its height.
#[verifier::external_body]
fn luma_parts(img: &image::DynamicImage) -> (r: (u32, u32, Vec<u8>))
    ensures
        (r.0, r.1, r.2@) == luma_of(*img),
        r.2@.len() >= r.0 as int * r.1 as int,
{
    let gray = img.to_luma8();
    let (width, height) = gray.dimensions();
    (width, height, gray.into_raw())
}

/// Relies on `imageproc::edges::canny`: the edge mask of a grayscale image,
/// of the same size as the image, 255 on edge pixels and 0 elsewhere. It
/// panics on an image of width or height zero, or of width or height above
/// `i32::MAX` (its blur counts columns and rows in `i32`), and when
/// `high < low`; it
/// overflows when `width * height` exceeds `u32::MAX`; and with a low
/// threshold of zero its hysteresis fill reaches the border pixels, whose
/// neighbours lie outside the image, and panics.
#[verifier::external_body]
fn canny_mask(width: u32, height: u32, pixels: &Vec<u8>, low: u16, high: u16) -> (r: Vec<u8>)
    requires
        1 <= width,
        1 <= height,
        width <= i32::MAX,
        height <= i32::MAX,
        width * height <= u32::MAX,
        pixels@.len() == width * height,
        1 <= low,
        low <= high,
    ensures
        r@ == canny_of(width, height, pixels@, low, high),
        r@.len() == width * height,
        forall|i: int| 0 <= i < r@.len() ==> #[trigger] r@[i] == 0 || r@[i] == 255,
{
    let gray = image::GrayImage::from_raw(width, height, pixels.clone()).unwrap();
    imageproc::edges::canny(&gray, low.into(), high.into()).into_raw()
}


/// The largest width or height of a page that the edge detector takes: it
/// counts columns and rows in `i32`.
pub const MAX_SIDE: u32 = 0x7fff_ffff;

/// A page size that the filter takes: each side at most `MAX_SIDE`, and a
/// pixel count that fits in `u32`.
pub open spec fn size_fits(width: u32, height: u32) -> bool {
    &&& width <= MAX_SIDE
    &&& height <= MAX_SIDE
    &&& width as int * height as int <= u32::MAX
}

/// The size of an image's luminance is one that the filter takes.
pub open spec fn luma_fits(img: image::DynamicImage) -> bool {
    size_fits(luma_of(img).0, luma_of(img).1)
}

/// The luminance bytes of an image that belong to its pixels.
pub open spec fn luma_pixels(img: image::DynamicImage) -> Seq<u8> {
    luma_of(img).2.take(luma_of(img).0 as int * luma_of(img).1 as int)
}

/// A single-channel image: `width * height` luminance bytes, row by row.
pub struct GrayPage {
    pub width: u32,
    pub height: u32,
    pub pixels: Vec<u8>,
}

impl GrayPage {
    /// One byte per pixel, and a size that the filter takes.
    pub open spec fn wf(&self) -> bool {
        &&& self.pixels@.len() == self.width as int * self.height as int
        &&& size_fits(self.width, self.height)
    }

    /// Builds a page from its size and pixels; `None` when the pixel count
    /// does not match the size, or the size is not one that the filter takes.
    pub fn new(width: u32, height: u32, pixels: Vec<u8>) -> (r: Option<GrayPage>)
        ensures
            r is Some <==> (pixels@.len() == width as int * height as int && size_fits(
                width,
                height,
            )),
            r matches Some(p) ==> p.width == width && p.height == height && p.pixels@
                == pixels@ && p.wf(),
    {
        let len = pixels.len();
        if len > u32::MAX as usize || width > MAX_SIDE || height > MAX_SIDE {
            return None;
        }
        let w = width as u64;
        let h = height as u64;
        if h != 0 && w > (u32::MAX as u64) / h {
            proof {
                assert(w * h > u32::MAX) by (nonlinear_arith)
                    requires
                        h != 0,
                        w > (u32::MAX as u64) / h,
                        h <= u32::MAX,
                ;
            }
            return None;
        }
        proof {
            assert(w * h <= u32::MAX) by (nonlinear_arith)
                requires
                    h == 0 || w <= (u32::MAX as u64) / h,
                    h <= u32::MAX,
            ;
        }
        if (len as u64) != w * h {
            return None;
        }
        Some(GrayPage { width, height, pixels })
    }

    /// The luminance of a decoded image; `None` when its size is not one that
    /// the filter takes.
    pub fn from_image(img: &image::DynamicImage) -> (r: Option<GrayPage>)
        ensures
            r is Some <==> luma_fits(*img),
            r matches Some(p) ==> {
                &&& p.wf()
                &&& p.width == luma_of(*img).0
                &&& p.height == luma_of(*img).1
                &&& p.pixels@ == luma_pixels(*img)
            },
    {
        let (width, height, mut pixels) = luma_parts(img);
        if width > MAX_SIDE || height > MAX_SIDE {
            return None;
        }
        let w = width as u64;
        let h = height as u64;
        if h != 0 && w > (u32::MAX as u64) / h {
            proof {
                assert(w * h > u32::MAX) by (nonlinear_arith)
                    requires
                        h != 0,
                        w > (u32::MAX as u64) / h,
                        h <= u32::MAX,
                ;
            }
            return None;
        }
        proof {
            assert(w * h <= u32::MAX) by (nonlinear_arith)
                requires
                    h == 0 || w <= (u32::MAX as u64) / h,
                    h <= u32::MAX,
            ;
        }
        pixels.truncate((w * h) as usize);
        Some(GrayPage { width, height, pixels })
    }
}

/// Number of edge pixels in an edge mask: the pixels that are not zero.
pub fn count_edges(edges: &GrayPage) -> (r: u32)
    requires
        edges.pixels@.len() <= u32::MAX,
    ensures
        r == count_nonzero(edges.pixels@),
{
    let n = edges.pixels.len();
    let mut count: u32 = 0;
    let mut i: usize = 0;
    while i < n
        invariant
            n == edges.pixels@.len(),
            n <= u32::MAX,
            i <= n,
            count == count_nonzero(edges.pixels@.take(i as int)),
            count <= i,
        decreases n - i,
    {
        proof {
            let s = edges.pixels@.take(i as int + 1);
            assert(s.drop_last() =~= edges.pixels@.take(i as int));
        }
        if edges.pixels[i] > 0 {
            count = count + 1;
        }
        i = i + 1;
    }
    assert(edges.pixels@.take(n as int) =~= edges.pixels@);
    count
}

/// Whether an edge count qualifies a page as holding text: strictly greater
/// than the threshold.
pub fn exceeds_threshold(edge_count: u32, threshold: u32) -> (r: bool)
    ensures
        r == text_decision(edge_count as nat, threshold as nat),
{
    edge_count > threshold
}

/// The parameters of the edge-density page filter.
pub struct PageFilter {
    /// A page holds text when its edge count is strictly above this.
    pub threshold: u32,
    /// Low hysteresis threshold of the edge detector.
    pub low: u16,
    /// High hysteresis threshold of the edge detector.
    pub high: u16,
}

/// The default edge-count threshold.
pub const DEFAULT_THRESHOLD: u32 = 50_000;
/// The default low gradient threshold of the edge detector.
pub const DEFAULT_LOW: u16 = 50;
/// The default high gradient threshold of the edge detector.
pub const DEFAULT_HIGH: u16 = 100;

/// The number of edge pixels that the filter `f` finds on `page`; none on an
/// empty page.
pub open spec fn page_edge_count(f: PageFilter, page: GrayPage) -> nat {
    edge_count_of(f, page.width, page.height, page.pixels@)
}

/// The number of edge pixels that the filter `f` finds on a page of the
/// given size and pixels; none on an empty page.
pub open spec fn edge_count_of(f: PageFilter, width: u32, height: u32, pixels: Seq<u8>) -> nat {
    if width == 0 || height == 0 {
        0
    } else {
        count_nonzero(canny_of(width, height, pixels, f.low, f.high))
    }
}

/// The filter's verdict on a decoded image whose size the filter takes.
pub open spec fn image_has_text(f: PageFilter, img: image::DynamicImage) -> bool {
    text_decision(
        edge_count_of(f, luma_of(img).0, luma_of(img).1, luma_pixels(img)),
        f.threshold as nat,
    )
}

/// The filter's verdict on a page.
pub open spec fn page_has_text(f: PageFilter, page: GrayPage) -> bool {
    text_decision(page_edge_count(f, page), f.threshold as nat)
}

impl PageFilter {
    /// The detector's thresholds are ordered, and the low one is positive.
    pub open spec fn wf(&self) -> bool {
        1 <= self.low <= self.high
    }

    /// A filter with the given parameters; `None` when `low` is zero or
    /// `low > high`.
    pub fn new(threshold: u32, low: u16, high: u16) -> (r: Option<PageFilter>)
        ensures
            r is Some <==> 1 <= low <= high,
            r matches Some(f) ==> f.threshold == threshold && f.low == low && f.high == high,
    {
        if 1 <= low && low <= high {
            Some(PageFilter { threshold, low, high })
        } else {
            None
        }
    }

    /// The filter with the default parameters.
    pub fn standard() -> (r: PageFilter)
        ensures
            r.wf(),
            r.threshold == DEFAULT_THRESHOLD,
            r.low == DEFAULT_LOW,
            r.high == DEFAULT_HIGH,
    {
        PageFilter { threshold: DEFAULT_THRESHOLD, low: DEFAULT_LOW, high: DEFAULT_HIGH }
    }

    /// Runs the edge detector on `page` and decides whether it holds text.
    /// On a page that does, returns the edge mask, so that a caller may reuse
    /// it; otherwise `None`.
    pub fn classify(&self, page: &GrayPage) -> (r: Option<GrayPage>)
        requires
            self.wf(),
            page.wf(),
        ensures
            r is Some <==> page_has_text(*self, *page),
            r matches Some(e) ==> {
                &&& e.width == page.width
                &&& e.height == page.height
                &&& e.pixels@ == canny_of(page.width, page.height, page.pixels@, self.low, self.high)
                &&& e.wf()
                &&& is_binary_mask(e.pixels@)
            },
    {
        if page.width == 0 || page.height == 0 {
            return None;
        }
        let mask = canny_mask(page.width, page.height, &page.pixels, self.low, self.high);
        let edges = GrayPage { width: page.width, height: page.height, pixels: mask };
        let edge_count = count_edges(&edges);
        if exceeds_threshold(edge_count, self.threshold) {
            Some(edges)
        } else {
            None
        }
    }

    /// Converts a decoded image to luminance and classifies it; `None` for a
    /// page without text, and for an image whose size the filter does not
    /// take. On a page with text, returns its edge mask.
    pub fn has_text(&self, img: &image::DynamicImage) -> (r: Option<GrayPage>)
        requires
            self.wf(),
        ensures
            luma_fits(*img) ==> (r is Some <==> image_has_text(*self, *img)),
            !luma_fits(*img) ==> r is None,
            r matches Some(e) ==> {
                &&& e.wf()
                &&& count_nonzero(e.pixels@) > self.threshold
                &&& e.width == luma_of(*img).0
                &&& e.height == luma_of(*img).1
                &&& e.pixels@ == canny_of(
                    luma_of(*img).0,
                    luma_of(*img).1,
                    luma_pixels(*img),
                    self.low,
                    self.high,
                )
                &&& is_binary_mask(e.pixels@)
            },
    {
        match GrayPage::from_image(img) {
            Some(page) => self.classify(&page),
            None => None,
        }
    }

    /// Screens a decoded image: whether it holds text, or `ImageTooLarge`
    /// when its size is not one that the filter takes (see `size_fits`).
    pub fn screen(&self, img: &image::DynamicImage) -> (r: Result<bool, PageError>)
        requires
            self.wf(),
        ensures
            luma_fits(*img) ==> r == Ok::<bool, PageError>(image_has_text(*self, *img)),
            !luma_fits(*img) ==> r == Err::<bool, PageError>(PageError::ImageTooLarge),
    {
        match GrayPage::from_image(img) {
            Some(page) => Ok(self.classify(&page).is_some()),
            None => Err(PageError::ImageTooLarge),
        }
    }
}

/// The threshold boundary: a page whose edge count equals the threshold is
/// not text, and the counts one below and one above the threshold are
/// classified oppositely (below: not text; above: text).
pub proof fn lemma_threshold_boundary(threshold: nat)
    requires
        threshold >= 1,
    ensures
        !text_decision(threshold, threshold),
        !text_decision((threshold - 1) as nat, threshold),
        text_decision(threshold + 1, threshold),
{
}

/// The filter's verdict is a function of the pixel data and the filter's
/// parameters alone: two pages with the same size and pixels are classified
/// alike, however often the filter runs.
pub proof fn lemma_filter_deterministic(f: PageFilter, a: GrayPage, b: GrayPage)
    requires
        a.width == b.width,
        a.height == b.height,
        a.pixels@ == b.pixels@,
    ensures
        page_edge_count(f, a) == page_edge_count(f, b),
        page_has_text(f, a) == page_has_text(f, b),
{
}

/// The verdict on a decoded image is a function of the image and the
/// filter's parameters alone: screening the same image twice gives the same
/// answer.
pub proof fn lemma_screen_deterministic(f: PageFilter, a: image::DynamicImage, b: image::DynamicImage)
    requires
        a == b,
    ensures
        luma_fits(a) == luma_fits(b),
        image_has_text(f, a) == image_has_text(f, b),
{
}

} // verus!
