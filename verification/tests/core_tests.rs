//! Hashing, size gate, thumbnail and path-shape tests.

use recopy_core::epoch::EpochCounter;
use recopy_core::hashing::compute_hash;
use recopy_core::content::{exceeds_size_limit, is_image_file, ContentType};
use recopy_core::thumbnail::{archive_rel_path, generate_thumbnail};
use recopy_core::ingest::DEFAULT_MAX_ITEM_SIZE_MB;
use recopy_core::text::{parse_i64, parse_u64, str_contains, str_ends_with, str_eq};
use sha2::Digest;

fn hex_of(bytes: &[u8]) -> String {
    let mut s = String::new();
    for b in bytes {
        s.push_str(&format!("{:02x}", b));
    }
    s
}

#[test]
fn test_compute_hash() {
    let hash1 = compute_hash(b"hello");
    let hash2 = compute_hash(b"hello");
    let hash3 = compute_hash(b"world");

    assert_eq!(hash1, hash2);
    assert_ne!(hash1, hash3);
    assert_eq!(hash1.len(), 64); // SHA-256 hex length
}

#[test]
fn test_compute_hash_matches_reference_digest() {
    let expected = hex_of(sha2::Sha256::digest(b"Hello, World!").as_slice());
    assert_eq!(compute_hash(b"Hello, World!"), expected);
}

#[test]
fn test_exceeds_size_limit() {
    let limit_mb = DEFAULT_MAX_ITEM_SIZE_MB;
    let max_bytes = limit_mb * 1024 * 1024;
    assert!(!exceeds_size_limit(1024, limit_mb));
    assert!(!exceeds_size_limit(max_bytes, limit_mb));
    assert!(exceeds_size_limit(max_bytes + 1, limit_mb));
    // Custom limit
    assert!(!exceeds_size_limit(20 * 1024 * 1024, 20));
    assert!(exceeds_size_limit(20 * 1024 * 1024 + 1, 20));
}

fn png_bytes(w: u32, h: u32, rgb: [u8; 3]) -> Vec<u8> {
    let img = image::RgbImage::from_fn(w, h, |_, _| image::Rgb(rgb));
    let mut buf = Vec::new();
    let dyn_img = image::DynamicImage::ImageRgb8(img);
    dyn_img
        .write_to(&mut std::io::Cursor::new(&mut buf), image::ImageFormat::Png)
        .unwrap();
    buf
}

#[test]
fn test_generate_thumbnail() {
    // A simple 800x600 red image
    let buf = png_bytes(800, 600, [255u8, 0, 0]);

    let thumb_bytes = generate_thumbnail(&buf).unwrap();
    assert!(!thumb_bytes.is_empty());

    // Verify thumbnail dimensions
    let thumb = image::load_from_memory(&thumb_bytes).unwrap();
    assert_eq!(thumb.width(), 400);
    assert_eq!(thumb.height(), 300); // 400/800 * 600 = 300
}

#[test]
fn test_thumbnail_small_image_no_resize() {
    // A 200x100 image (smaller than the thumbnail width)
    let buf = png_bytes(200, 100, [0u8, 255, 0]);

    let thumb_bytes = generate_thumbnail(&buf).unwrap();
    let thumb = image::load_from_memory(&thumb_bytes).unwrap();
    // Should not be resized since it's smaller than 400px
    assert_eq!(thumb.width(), 200);
    assert_eq!(thumb.height(), 100);
}

#[test]
fn test_generate_thumbnail_rejects_garbage() {
    assert!(generate_thumbnail(&[0u8, 1, 2, 3]).is_err());
}

#[test]
fn test_archive_rel_path_month_partition() {
    assert_eq!(archive_rel_path(2024, 3, "abcd", "png"), "images/2024-03/abcd.png");
    assert_eq!(archive_rel_path(2025, 11, "x1", "jpg"), "images/2025-11/x1.jpg");
    assert!(archive_rel_path(2024, 3, "abcd", "png").ends_with(".png"));
    assert!(archive_rel_path(2024, 3, "abcd", "png").contains("images/"));
}

#[test]
fn test_content_type_round_trip() {
    assert_eq!(ContentType::PlainText.as_str(), "plain_text");
    assert_eq!(ContentType::RichText.as_str(), "rich_text");
    assert_eq!(ContentType::Image.as_str(), "image");
    assert_eq!(ContentType::File.as_str(), "file");
    assert_eq!(ContentType::from_str("plain_text"), Some(ContentType::PlainText));
    assert_eq!(ContentType::from_str("rich_text"), Some(ContentType::RichText));
    assert_eq!(ContentType::from_str("image"), Some(ContentType::Image));
    assert_eq!(ContentType::from_str("file"), Some(ContentType::File));
    assert_eq!(ContentType::from_str("webpage"), None);
    assert_eq!(ContentType::from_str(""), None);
}

#[test]
fn test_is_image_file() {
    assert!(is_image_file("photo.png"));
    assert!(is_image_file("PHOTO.PNG"));
    assert!(is_image_file("/a/b/scan.TIFF"));
    assert!(is_image_file("x.jpeg"));
    assert!(!is_image_file("notes.txt"));
    assert!(!is_image_file("archive.png.zip"));
}

#[test]
fn test_parse_numbers() {
    assert_eq!(parse_u64("0"), Some(0));
    assert_eq!(parse_u64("42"), Some(42));
    assert_eq!(parse_u64("18446744073709551615"), Some(u64::MAX));
    assert_eq!(parse_u64("18446744073709551616"), None);
    assert_eq!(parse_u64(""), None);
    assert_eq!(parse_u64("-1"), None);
    assert_eq!(parse_u64("1x"), None);
    assert_eq!(parse_i64("-30"), Some(-30));
    assert_eq!(parse_i64("+7"), Some(7));
    assert_eq!(parse_i64("9223372036854775807"), Some(i64::MAX));
    assert_eq!(parse_i64("-9223372036854775808"), Some(i64::MIN));
    assert_eq!(parse_i64("9223372036854775808"), None);
    assert_eq!(parse_i64("-"), None);
}

#[test]
fn test_text_helpers() {
    assert!(str_eq("abc", "abc"));
    assert!(!str_eq("abc", "abd"));
    assert!(str_contains("hello world", "lo wo"));
    assert!(str_contains("支持中文搜索功能", "中文搜"));
    assert!(!str_contains("hello", "xyz"));
    assert!(str_contains("anything", ""));
    assert!(str_ends_with("photo.png", ".png"));
    assert!(!str_ends_with("photo.png", ".jpg"));
}

#[test]
fn test_epoch_counter_supersedes_stale_timers() {
    let mut epoch = EpochCounter::new();
    let first = epoch.schedule();
    assert!(epoch.should_fire(first));
    let second = epoch.schedule();
    assert!(!epoch.should_fire(first));
    assert!(epoch.should_fire(second));
}
