//! End-to-end scenarios over the ingestion pipeline, retention engine
//! and orphan selection.

use recopy_core::content::ContentType;
use recopy_core::ingest::IngestGate;
use recopy_core::models::NewClipboardItem;
use recopy_core::orphan::select_orphans;
use recopy_core::store::Store;
use recopy_core::thumbnail::generate_thumbnail;
use sha2::Digest;

fn hex_of(bytes: &[u8]) -> String {
    let mut s = String::new();
    for b in bytes {
        s.push_str(&format!("{:02x}", b));
    }
    s
}

fn ingest_text(store: &mut Store, text: &str, now: u64) -> Option<String> {
    store
        .ingest(
            ContentType::PlainText,
            text.as_bytes().to_vec(),
            Some(text.to_string()),
            None,
            None,
            None,
            String::new(),
            String::new(),
            None,
            now,
        )
        .unwrap()
}

#[test]
fn test_ingest_plain_text_new_row() {
    let mut store = Store::new();

    let id = ingest_text(&mut store, "Hello, World!", 100).unwrap();

    let items = store.get_items(None, 10, 0);
    assert_eq!(items.len(), 1);
    assert_eq!(items[0].id, id);
    assert_eq!(items[0].content_type, ContentType::PlainText);
    assert_eq!(items[0].plain_text, "Hello, World!");
    assert_eq!(items[0].content_hash, hex_of(sha2::Sha256::digest(b"Hello, World!").as_slice()));
    assert!(!items[0].is_favorited);
    assert_eq!(id.len(), 36);
}

#[test]
fn test_reingest_same_text_bumps() {
    let mut store = Store::new();

    let id1 = ingest_text(&mut store, "Hello, World!", 100).unwrap();
    let first = store.get_items(None, 10, 0);
    assert_eq!(first[0].updated_at, 100);

    let id2 = ingest_text(&mut store, "Hello, World!", 200).unwrap();
    assert_eq!(id2, id1);

    let items = store.get_items(None, 10, 0);
    assert_eq!(items.len(), 1); // no new row
    assert!(items[0].updated_at > first[0].updated_at);
}

#[test]
fn test_ingest_png_thumbnail_shape() {
    // An 800x600 PNG enters as a direct image: gate first, then scale.
    let img = image::RgbImage::from_fn(800, 600, |_, _| image::Rgb([10u8, 20, 30]));
    let mut buf = Vec::new();
    image::DynamicImage::ImageRgb8(img)
        .write_to(&mut std::io::Cursor::new(&mut buf), image::ImageFormat::Png)
        .unwrap();

    let mut store = Store::new();
    let gate = store.ingest_gate(buf.len() as u64, &buf, 100);
    let hash = match gate {
        IngestGate::Fresh(h) => h,
        _ => panic!("unexpected gate outcome for new content"),
    };

    let thumbnail = generate_thumbnail(&buf).unwrap();
    let decoded = image::load_from_memory(&thumbnail).unwrap();
    assert_eq!(decoded.width(), 400);
    assert_eq!(decoded.height(), 300);

    let item = NewClipboardItem {
        content_type: ContentType::Image,
        plain_text: String::new(),
        rich_content: None,
        thumbnail: Some(thumbnail),
        image_path: Some("images/2024-03/some-id.png".to_string()),
        file_path: None,
        file_name: None,
        source_app: String::new(),
        source_app_name: String::new(),
        content_size: buf.len() as i64,
        content_hash: hash,
    };
    let id = store.insert_item(item, 100).unwrap();

    let stored = store.get_thumbnail(&id).unwrap();
    let stored_img = image::load_from_memory(&stored).unwrap();
    assert_eq!(stored_img.width(), 400);
    assert_eq!(stored_img.height(), 300);
    assert_eq!(store.get_image_path_by_id(&id), Some("images/2024-03/some-id.png".to_string()));
}

#[test]
fn test_ingest_skips_oversized_content() {
    let mut store = Store::new();
    store.set_setting("max_item_size_mb".to_string(), "0".to_string());

    let r = ingest_text(&mut store, "too big for a zero limit", 100);
    assert_eq!(r, None);
    assert_eq!(store.get_items(None, 10, 0).len(), 0);
}

#[test]
fn test_retention_policy_from_settings() {
    let mut store = Store::new();
    store.set_setting("retention_policy".to_string(), "count".to_string());
    store.set_setting("retention_count".to_string(), "2".to_string());

    for i in 0..5 {
        ingest_text(&mut store, &format!("distinct item {}", i), 100 + i as u64).unwrap();
    }

    let (removed, paths) = store.run_retention_cleanup(1000);
    assert_eq!(removed, 3);
    assert_eq!(paths.len(), 0);

    let remaining = store.get_items(None, 10, 0);
    assert_eq!(remaining.len(), 2);
    assert_eq!(remaining[0].plain_text, "distinct item 4");
    assert_eq!(remaining[1].plain_text, "distinct item 3");
}

#[test]
fn test_retention_collects_image_paths_before_delete() {
    let mut store = Store::new();

    let item = NewClipboardItem {
        content_type: ContentType::Image,
        plain_text: String::new(),
        rich_content: None,
        thumbnail: None,
        image_path: Some("images/2024-01/old.png".to_string()),
        file_path: None,
        file_name: None,
        source_app: String::new(),
        source_app_name: String::new(),
        content_size: 10,
        content_hash: "old-image".to_string(),
    };
    let day = 86400u64;
    let now = 100 * day;
    store.insert_item(item, now - 9 * day).unwrap();

    let paths = store.get_retention_overflow_image_paths("days", 7, 0, now);
    assert_eq!(paths, vec!["images/2024-01/old.png".to_string()]);

    let removed = store.cleanup_by_retention("days", 7, 0, now);
    assert_eq!(removed, 1);
    assert_eq!(store.get_all_image_paths().len(), 0);
}

#[test]
fn test_chinese_search_hit_and_miss() {
    let mut store = Store::new();

    ingest_text(&mut store, "支持中文搜索功能", 100).unwrap();

    let hits = store.search_items("中文搜", None, 10);
    assert_eq!(hits.len(), 1);
    assert_eq!(hits[0].plain_text, "支持中文搜索功能");

    let misses = store.search_items("xyz123", None, 10);
    assert_eq!(misses.len(), 0);
}

#[test]
fn test_short_query_uses_substring_fallback() {
    let mut store = Store::new();

    ingest_text(&mut store, "Rust programming", 100).unwrap();

    // two codepoints: below the phrase index's minimum fragment length
    let hits = store.search_items("Ru", None, 10);
    assert_eq!(hits.len(), 1);

    // three codepoints, not a substring of any field: zero hits
    let misses = store.search_items("zzz", None, 10);
    assert_eq!(misses.len(), 0);
}

#[test]
fn test_delete_silences_search() {
    let mut store = Store::new();

    let id = ingest_text(&mut store, "one of a kind phrase", 100).unwrap();
    assert_eq!(store.search_items("of a kind", None, 10).len(), 1);

    store.delete_item(&id);
    assert_eq!(store.search_items("of a kind", None, 10).len(), 0);
    assert!(store.get_item_detail(&id).is_none());
}

#[test]
fn test_orphan_selection() {
    let disk = vec![
        "images/2024-01/a.png".to_string(),
        "images/2024-01/b.png".to_string(),
        "images/2024-02/c.png".to_string(),
    ];
    let referenced = vec!["images/2024-01/b.png".to_string()];

    let orphans = select_orphans(&disk, &referenced);
    assert_eq!(
        orphans,
        vec!["images/2024-01/a.png".to_string(), "images/2024-02/c.png".to_string()]
    );
}

#[test]
fn test_file_size_gates_file_items() {
    let mut store = Store::new();
    store.set_setting("max_item_size_mb".to_string(), "1".to_string());

    // the path string is short, but the on-disk size is what counts
    let r = store
        .ingest(
            ContentType::File,
            b"/tmp/big.bin".to_vec(),
            Some("/tmp/big.bin".to_string()),
            None,
            Some("/tmp/big.bin".to_string()),
            Some("big.bin".to_string()),
            String::new(),
            String::new(),
            Some(2 * 1024 * 1024),
            100,
        )
        .unwrap();
    assert_eq!(r, None);

    // a small file passes and stores its on-disk size
    let r = store
        .ingest(
            ContentType::File,
            b"/tmp/small.bin".to_vec(),
            Some("/tmp/small.bin".to_string()),
            None,
            Some("/tmp/small.bin".to_string()),
            Some("small.bin".to_string()),
            String::new(),
            String::new(),
            Some(512),
            101,
        )
        .unwrap();
    assert!(r.is_some());
    let items = store.get_items(None, 10, 0);
    assert_eq!(items.len(), 1);
    assert_eq!(items[0].content_size, 512);
    assert_eq!(items[0].file_name, Some("small.bin".to_string()));
}

#[test]
fn test_search_matches_file_name_and_source_app() {
    let mut store = Store::new();

    let item = NewClipboardItem {
        content_type: ContentType::File,
        plain_text: "/tmp/report-final.pdf".to_string(),
        rich_content: None,
        thumbnail: None,
        image_path: None,
        file_path: Some("/tmp/report-final.pdf".to_string()),
        file_name: Some("report-final.pdf".to_string()),
        source_app: "com.example.editor".to_string(),
        source_app_name: "Editor".to_string(),
        content_size: 4,
        content_hash: "file-hash".to_string(),
    };
    store.insert_item(item, 100).unwrap();

    assert_eq!(store.search_items("report-final", None, 10).len(), 1);
    assert_eq!(store.search_items("Editor", None, 10).len(), 1);
    assert_eq!(store.search_items("Viewer", None, 10).len(), 0);
}
