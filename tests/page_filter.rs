use image::{DynamicImage, GrayImage, RgbImage};
use page_ocr::page_filter::{
    count_edges, exceeds_threshold, GrayPage, PageFilter, DEFAULT_HIGH, DEFAULT_LOW,
    DEFAULT_THRESHOLD,
};

fn blank_page(width: u32, height: u32) -> GrayPage {
    GrayPage::new(width, height, vec![255u8; (width * height) as usize]).unwrap()
}

/// Black squares of four pixels on white, with white between them.
fn dotted_page(width: u32, height: u32) -> GrayPage {
    let mut pixels = vec![255u8; (width * height) as usize];
    for y in 0..height {
        for x in 0..width {
            if (x / 4) % 2 == 1 && (y / 4) % 2 == 1 {
                pixels[(y * width + x) as usize] = 0;
            }
        }
    }
    GrayPage::new(width, height, pixels).unwrap()
}

#[test]
fn gray_page_checks_its_size() {
    assert!(GrayPage::new(2, 3, vec![0u8; 6]).is_some());
    assert!(GrayPage::new(2, 3, vec![0u8; 5]).is_none());
    assert!(GrayPage::new(2, 3, vec![0u8; 7]).is_none());
    assert!(GrayPage::new(0, 0, vec![]).is_some());
    assert!(GrayPage::new(0x7fff_ffff, 0, vec![]).is_some());
    assert!(GrayPage::new(0x8000_0000, 0, vec![]).is_none());
    assert!(GrayPage::new(0, 0x8000_0000, vec![]).is_none());
}

#[test]
fn count_edges_counts_nonzero_pixels() {
    let page = GrayPage::new(3, 2, vec![0, 255, 0, 1, 0, 7]).unwrap();
    assert_eq!(count_edges(&page), 3);
    assert_eq!(count_edges(&blank_page(4, 4)), 16);
    assert_eq!(count_edges(&GrayPage::new(0, 0, vec![]).unwrap()), 0);
}

#[test]
fn threshold_is_strict() {
    assert!(!exceeds_threshold(50_000, 50_000));
    assert!(!exceeds_threshold(49_999, 50_000));
    assert!(exceeds_threshold(50_001, 50_000));
    assert!(!exceeds_threshold(0, 0));
    assert!(exceeds_threshold(1, 0));
}

#[test]
fn standard_filter_parameters() {
    let f = PageFilter::standard();
    assert_eq!(f.threshold, 50_000);
    assert_eq!(f.low, 50);
    assert_eq!(f.high, 100);
    assert_eq!((DEFAULT_THRESHOLD, DEFAULT_LOW, DEFAULT_HIGH), (50_000, 50, 100));
}

#[test]
fn filter_rejects_unordered_detector_thresholds() {
    assert!(PageFilter::new(10, 100, 50).is_none());
    assert!(PageFilter::new(10, 0, 50).is_none());
    assert!(PageFilter::new(10, 0, 0).is_none());
    let f = PageFilter::new(10, 50, 50).unwrap();
    assert_eq!((f.threshold, f.low, f.high), (10, 50, 50));
}

#[test]
fn blank_page_has_no_edges() {
    let f = PageFilter::new(0, 50, 100).unwrap();
    assert!(f.classify(&blank_page(32, 32)).is_none());
}

#[test]
fn empty_page_has_no_text() {
    let f = PageFilter::new(0, 50, 100).unwrap();
    assert!(f.classify(&GrayPage::new(0, 5, vec![]).unwrap()).is_none());
}

#[test]
fn dotted_page_has_edges() {
    let f = PageFilter::new(0, 50, 100).unwrap();
    let page = dotted_page(64, 64);
    let edges = f.classify(&page).expect("edges expected");
    assert_eq!(edges.width, 64);
    assert_eq!(edges.height, 64);
    assert_eq!(edges.pixels.len(), 64 * 64);
    let count = count_edges(&edges);
    assert!(edges.pixels.iter().all(|&p| p == 0 || p == 255));
    assert!(count > 0);
    assert!(count < 64 * 64);
    // With the threshold at the count itself the page no longer qualifies.
    let strict = PageFilter::new(count, 50, 100).unwrap();
    assert!(strict.classify(&page).is_none());
    let below = PageFilter::new(count - 1, 50, 100).unwrap();
    assert!(below.classify(&page).is_some());
}

#[test]
fn classification_is_repeatable() {
    let f = PageFilter::new(100, 50, 100).unwrap();
    let page = dotted_page(48, 40);
    let first = f.classify(&page).map(|e| e.pixels);
    let second = f.classify(&page).map(|e| e.pixels);
    assert_eq!(first, second);
}

#[test]
fn luminance_of_decoded_image() {
    let rgb = RgbImage::from_pixel(5, 3, image::Rgb([255, 255, 255]));
    let page = GrayPage::from_image(&DynamicImage::ImageRgb8(rgb)).unwrap();
    let wide = GrayPage::from_image(&DynamicImage::ImageLuma8(GrayImage::new(7, 2))).unwrap();
    assert_eq!((wide.width, wide.height, wide.pixels.len()), (7, 2, 14));
    assert_eq!((page.width, page.height), (5, 3));
    assert_eq!(page.pixels.len(), 15);
    assert_eq!(page.pixels, vec![255u8; 15]);
    let gray = GrayImage::from_raw(2, 2, vec![1, 2, 3, 4]).unwrap();
    let page = GrayPage::from_image(&DynamicImage::ImageLuma8(gray)).unwrap();
    assert_eq!(page.pixels, vec![1, 2, 3, 4]);
}

#[test]
fn has_text_on_decoded_images() {
    let f = PageFilter::new(0, 50, 100).unwrap();
    let blank = GrayImage::from_pixel(32, 32, image::Luma([255]));
    assert!(f.has_text(&DynamicImage::ImageLuma8(blank)).is_none());
    let dotted = dotted_page(32, 32);
    let img = GrayImage::from_raw(32, 32, dotted.pixels).unwrap();
    let img = DynamicImage::ImageLuma8(img);
    let edges = f.has_text(&img).unwrap();
    assert!(count_edges(&edges) > 0);
    assert_eq!((edges.width, edges.height), (32, 32));
    assert!(edges.pixels.iter().all(|&p| p == 0 || p == 255));
    let again = f.has_text(&img).unwrap();
    assert_eq!(edges.pixels, again.pixels);
    let direct = f.classify(&dotted_page(32, 32)).unwrap();
    assert_eq!(edges.pixels, direct.pixels);
}

#[test]
fn tiny_pages_are_classified() {
    let f = PageFilter::new(0, 50, 100).unwrap();
    assert!(f.classify(&blank_page(1, 1)).is_none());
    assert!(f.classify(&blank_page(2, 1)).is_none());
    assert!(f.classify(&GrayPage::new(2, 2, vec![0, 255, 255, 0]).unwrap()).is_none());
    assert!(f.classify(&blank_page(3, 3)).is_none());
}

#[test]
fn screen_reports_verdicts() {
    let f = PageFilter::new(0, 50, 100).unwrap();
    let blank = GrayImage::from_pixel(32, 32, image::Luma([255]));
    assert_eq!(f.screen(&DynamicImage::ImageLuma8(blank)), Ok(false));
    let dotted = dotted_page(32, 32);
    let img = DynamicImage::ImageLuma8(GrayImage::from_raw(32, 32, dotted.pixels).unwrap());
    assert_eq!(f.screen(&img), Ok(true));
    assert_eq!(f.screen(&img), f.screen(&img));
}

#[test]
fn low_threshold_one_fills_safely() {
    // Every interior gradient reaches the lowest admitted low threshold.
    let f = PageFilter::new(0, 1, 1).unwrap();
    let page = dotted_page(16, 16);
    let edges = f.classify(&page).unwrap();
    assert_eq!(edges.pixels.len(), 256);
    assert!(count_edges(&edges) > 0);
}
