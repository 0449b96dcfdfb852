//! Store behavior: insert, dedup, listing, search, favorites, settings,
//! clearing and retention.

use recopy_core::content::ContentType;
use recopy_core::models::{NewClipboardItem, StoreError};
use recopy_core::store::Store;

fn text_item(text: &str, hash: &str) -> NewClipboardItem {
    NewClipboardItem {
        content_type: ContentType::PlainText,
        plain_text: text.to_string(),
        rich_content: None,
        thumbnail: None,
        image_path: None,
        file_path: None,
        file_name: None,
        source_app: String::new(),
        source_app_name: String::new(),
        content_size: text.len() as i64,
        content_hash: hash.to_string(),
    }
}

#[test]
fn test_insert_and_get() {
    let mut store = Store::new();

    let mut item = text_item("Hello from test", "hash-test-1");
    item.source_app = "com.test.app".to_string();
    item.source_app_name = "TestApp".to_string();
    item.content_size = 15;

    let id = store.insert_item(item, 100).unwrap();
    assert!(!id.is_empty());

    let items = store.get_items(None, 10, 0);
    assert_eq!(items.len(), 1);
    assert_eq!(items[0].plain_text, "Hello from test");
    assert_eq!(items[0].source_app_name, "TestApp");
    assert_eq!(items[0].id, id);
    assert_eq!(items[0].content_size, 15);
    assert_eq!(items[0].created_at, 100);
}

#[test]
fn test_dedup_by_hash() {
    let mut store = Store::new();

    let item = text_item("Duplicate content", "same-hash");
    let id1 = store.insert_item(item, 100).unwrap();

    // A second submission should be caught by dedup
    let existing = store.find_and_bump_by_hash("same-hash", 101);
    assert_eq!(existing, Some(id1));
    assert_eq!(store.get_items(None, 10, 0).len(), 1);
}

#[test]
fn test_dedup_bumps_updated_at() {
    let mut store = Store::new();

    let item = text_item("Bump test", "bump-hash");
    let id = store.insert_item(item, 100).unwrap();

    let before = store.get_items(None, 10, 0);
    assert_eq!(before[0].updated_at, 100);

    // The bump should refresh the recency timestamp
    let bumped = store.find_and_bump_by_hash("bump-hash", 250);
    assert_eq!(bumped, Some(id));

    let after = store.get_items(None, 10, 0);
    assert_eq!(after.len(), 1);
    assert!(
        after[0].updated_at > before[0].updated_at,
        "updated_at should have been bumped, got: {}",
        after[0].updated_at
    );
    assert_eq!(after[0].updated_at, 250);
    assert_eq!(after[0].created_at, 100);
}

#[test]
fn test_delete_item() {
    let mut store = Store::new();

    let item = text_item("To be deleted", "delete-hash");
    let id = store.insert_item(item, 100).unwrap();
    store.delete_item(&id);

    let items = store.get_items(None, 10, 0);
    assert_eq!(items.len(), 0);
}

#[test]
fn test_search_fts5() {
    let mut store = Store::new();

    for (i, text) in ["Hello World example", "支持中文搜索功能测试", "Rust programming"]
        .iter()
        .enumerate()
    {
        let item = text_item(text, &format!("hash-{}", i));
        store.insert_item(item, 100 + i as u64).unwrap();
    }

    // Phrase search (>= 3 codepoints)
    let results = store.search_items("World", None, 10);
    assert_eq!(results.len(), 1);
    assert!(results[0].plain_text.contains("World"));

    // Chinese search (>= 3 codepoints for the phrase index)
    let results = store.search_items("中文搜", None, 10);
    assert_eq!(results.len(), 1);
    assert!(results[0].plain_text.contains("中文"));

    // Short query falls back to the substring scan
    let results = store.search_items("Ru", None, 10);
    assert_eq!(results.len(), 1);
    assert!(results[0].plain_text.contains("Rust"));

    // Type filter
    let results = store.search_items("World", Some(ContentType::Image), 10);
    assert_eq!(results.len(), 0);
}

#[test]
fn test_get_items_type_filter() {
    let mut store = Store::new();

    let text_item_payload = text_item("text content", "text-hash");

    let image_item = NewClipboardItem {
        content_type: ContentType::Image,
        plain_text: String::new(),
        rich_content: None,
        thumbnail: Some(vec![1, 2, 3]),
        image_path: Some("/tmp/test.png".to_string()),
        file_path: None,
        file_name: None,
        source_app: String::new(),
        source_app_name: String::new(),
        content_size: 1024,
        content_hash: "image-hash".to_string(),
    };

    store.insert_item(text_item_payload, 100).unwrap();
    store.insert_item(image_item, 101).unwrap();

    let all = store.get_items(None, 10, 0);
    assert_eq!(all.len(), 2);

    let text_only = store.get_items(Some(ContentType::PlainText), 10, 0);
    assert_eq!(text_only.len(), 1);
    assert_eq!(text_only[0].content_type, ContentType::PlainText);

    let image_only = store.get_items(Some(ContentType::Image), 10, 0);
    assert_eq!(image_only.len(), 1);
    assert_eq!(image_only[0].content_type, ContentType::Image);
    // bulk listings never carry the thumbnail blob
    assert!(image_only[0].thumbnail.is_none());
}

#[test]
fn test_favorites() {
    let mut store = Store::new();

    let item = text_item("Favorite me", "fav-hash");
    let id = store.insert_item(item, 100).unwrap();

    // Not favorited initially
    let favs = store.get_favorited_items(None, 10, 0);
    assert_eq!(favs.len(), 0);

    // Favorite it
    let now_fav = store.toggle_favorite(&id, 101).unwrap();
    assert!(now_fav);

    let favs = store.get_favorited_items(None, 10, 0);
    assert_eq!(favs.len(), 1);
    assert_eq!(favs[0].id, id);

    // Toggling an unknown id reports absence
    assert_eq!(store.toggle_favorite("no-such-id", 102), Err(StoreError::NotFound));
}

#[test]
fn test_settings_crud() {
    let mut store = Store::new();

    store.set_setting("shortcut".to_string(), "CommandOrControl+Shift+V".to_string());
    store.set_setting("theme".to_string(), "dark".to_string());

    let shortcut = store.get_setting("shortcut");
    assert_eq!(shortcut, Some("CommandOrControl+Shift+V".to_string()));

    let theme = store.get_setting("theme");
    assert_eq!(theme, Some("dark".to_string()));

    // Update setting
    store.set_setting("theme".to_string(), "light".to_string());
    let theme = store.get_setting("theme");
    assert_eq!(theme, Some("light".to_string()));

    // Get all settings
    let all = store.get_all_settings();
    assert_eq!(all.len(), 2);

    // Non-existent key
    let none = store.get_setting("nonexistent");
    assert_eq!(none, None);

    // Insert new key
    store.set_setting("custom_key".to_string(), "custom_value".to_string());
    let val = store.get_setting("custom_key");
    assert_eq!(val, Some("custom_value".to_string()));
}

#[test]
fn test_clear_history_preserves_favorites() {
    let mut store = Store::new();

    // Insert 3 items
    let mut ids = Vec::new();
    for i in 0..3 {
        let item = text_item(&format!("Item {}", i), &format!("clear-hash-{}", i));
        ids.push(store.insert_item(item, 100 + i as u64).unwrap());
    }

    // Favorite the most recent item
    let items = store.get_items(None, 10, 0);
    store.toggle_favorite(&items[0].id.clone(), 200).unwrap();

    // Clear history
    let deleted = store.clear_history();
    assert_eq!(deleted, 2); // 2 non-favorited items deleted

    // Only the favorite remains
    let remaining = store.get_items(None, 10, 0);
    assert_eq!(remaining.len(), 1);
    assert!(remaining[0].is_favorited);

    // and its content is no longer searchable for the removed ones
    assert_eq!(store.search_items("Item 0", None, 10).len(), 0);
}

#[test]
fn test_cleanup_by_retention_count() {
    let mut store = Store::new();

    // Insert 5 items with sequential timestamps
    for i in 0..5 {
        let item = text_item(&format!("Retention item {}", i), &format!("ret-hash-{}", i));
        store.insert_item(item, 100 + i as u64).unwrap();
    }

    // Keep only the 2 most recent
    let deleted = store.cleanup_by_retention("count", 0, 2, 1000);
    assert_eq!(deleted, 3);

    let remaining = store.get_items(None, 10, 0);
    assert_eq!(remaining.len(), 2);
    assert_eq!(remaining[0].plain_text, "Retention item 4");
    assert_eq!(remaining[1].plain_text, "Retention item 3");
}

#[test]
fn test_cleanup_unlimited_noop() {
    let mut store = Store::new();

    let item = text_item("Keep me", "noop-hash");
    store.insert_item(item, 100).unwrap();

    let deleted = store.cleanup_by_retention("unlimited", 0, 0, 1000);
    assert_eq!(deleted, 0);

    let remaining = store.get_items(None, 10, 0);
    assert_eq!(remaining.len(), 1);
}

#[test]
fn test_cleanup_by_retention_days_boundary() {
    let mut store = Store::new();
    let day = 86400u64;
    let now = 100 * day;

    // created exactly 7 days ago: retained (strict comparison)
    let mut a = text_item("exactly seven", "days-hash-a");
    let mut b = text_item("eight days old", "days-hash-b");
    a.content_size = 13;
    b.content_size = 14;
    store.insert_item(a, now - 7 * day).unwrap();
    store.insert_item(b, now - 8 * day).unwrap();

    let deleted = store.cleanup_by_retention("days", 7, 0, now);
    assert_eq!(deleted, 1);

    let remaining = store.get_items(None, 10, 0);
    assert_eq!(remaining.len(), 1);
    assert_eq!(remaining[0].plain_text, "exactly seven");
}

#[test]
fn test_update_thumbnail_and_lazy_fetch() {
    let mut store = Store::new();

    let mut item = text_item("/tmp/pic.png", "thumb-hash");
    item.content_type = ContentType::File;
    item.file_path = Some("/tmp/pic.png".to_string());
    item.file_name = Some("pic.png".to_string());
    let id = store.insert_item(item, 100).unwrap();

    assert_eq!(store.get_thumbnail(&id), None);
    store.update_thumbnail(&id, vec![9, 9, 9], 150).unwrap();
    assert_eq!(store.get_thumbnail(&id), Some(vec![9, 9, 9]));
    assert_eq!(store.get_thumbnail("missing"), None);
    assert_eq!(
        store.update_thumbnail("missing", vec![1], 151),
        Err(StoreError::NotFound)
    );
}

#[test]
fn test_item_detail_decodes_rich_content() {
    let mut store = Store::new();

    let mut item = text_item("styled", "rich-hash");
    item.content_type = ContentType::RichText;
    item.rich_content = Some(b"<b>styled</b>".to_vec());
    let id = store.insert_item(item, 100).unwrap();

    let detail = store.get_item_detail(&id).unwrap();
    assert_eq!(detail.content_type, ContentType::RichText);
    assert_eq!(detail.rich_content, Some("<b>styled</b>".to_string()));
    assert_eq!(detail.plain_text, "styled");
    assert!(store.get_item_detail("missing").is_none());
}

#[test]
fn test_get_item_by_id_fields() {
    let mut store = Store::new();

    let mut item = text_item("paste me", "paste-hash");
    item.image_path = Some("/imgs/a.png".to_string());
    let id = store.insert_item(item, 100).unwrap();

    let (ct, text, rich, image_path, file_path) = store.get_item_by_id(&id).unwrap();
    assert_eq!(ct, ContentType::PlainText);
    assert_eq!(text, "paste me");
    assert_eq!(rich, None);
    assert_eq!(image_path, Some("/imgs/a.png".to_string()));
    assert_eq!(file_path, None);
    assert_eq!(store.get_image_path_by_id(&id), Some("/imgs/a.png".to_string()));
    assert!(store.get_item_by_id("missing").is_none());
}

#[test]
fn test_insert_item_with_id_collision() {
    let mut store = Store::new();

    let a = text_item("first", "hash-a");
    let b = text_item("second", "hash-b");
    let id = store.insert_item_with_id("fixed-id".to_string(), a, 100).unwrap();
    assert_eq!(id, "fixed-id");
    assert_eq!(
        store.insert_item_with_id("fixed-id".to_string(), b, 101),
        Err(StoreError::Storage)
    );
    assert_eq!(store.get_items(None, 10, 0).len(), 1);
}

#[test]
fn test_listing_order_and_paging() {
    let mut store = Store::new();

    for i in 0..5 {
        let item = text_item(&format!("row {}", i), &format!("page-hash-{}", i));
        store.insert_item(item, 100 + i as u64).unwrap();
    }

    let all = store.get_items(None, 50, 0);
    assert_eq!(all.len(), 5);
    // newest first
    assert_eq!(all[0].plain_text, "row 4");
    assert_eq!(all[4].plain_text, "row 0");

    let page = store.get_items(None, 2, 1);
    assert_eq!(page.len(), 2);
    assert_eq!(page[0].plain_text, "row 3");
    assert_eq!(page[1].plain_text, "row 2");

    let past_end = store.get_items(None, 10, 7);
    assert_eq!(past_end.len(), 0);
}
