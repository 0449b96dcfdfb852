//! The store's data model: the stored row, its search-shadow projection,
//! the listing and detail projections handed to callers, the insertion
//! payload, settings entries, and the error taxonomy.

use vstd::prelude::*;
use crate::content::ContentType;

verus! {

// ---------- errors ----------

/// Errors surfaced by the store.  `Storage` stands for a failed write
/// (an identifier collision on insert); `NotFound` for a lookup by id
/// that misses.
#[derive(Debug, Clone, Copy, PartialEq, Eq, Structural)]
pub enum StoreError {
    Storage,
    NotFound,
}

// ---------- stored rows ----------

/// A clipboard item row as the store keeps it.
pub struct StoredItem {
    pub id: String,
    pub content_type: ContentType,
    pub plain_text: String,
    pub rich_content: Option<Vec<u8>>,
    pub thumbnail: Option<Vec<u8>>,
    pub image_path: Option<String>,
    pub file_path: Option<String>,
    pub file_name: Option<String>,
    pub source_app: String,
    pub source_app_name: String,
    pub content_size: i64,
    pub content_hash: String,
    pub is_favorited: bool,
    pub created_at: u64,
    pub updated_at: u64,
}

/// The mathematical value of a stored row.
pub struct StoredItemModel {
    pub id: Seq<char>,
    pub content_type: ContentType,
    pub plain_text: Seq<char>,
    pub rich_content: Option<Seq<u8>>,
    pub thumbnail: Option<Seq<u8>>,
    pub image_path: Option<Seq<char>>,
    pub file_path: Option<Seq<char>>,
    pub file_name: Option<Seq<char>>,
    pub source_app: Seq<char>,
    pub source_app_name: Seq<char>,
    pub content_size: i64,
    pub content_hash: Seq<char>,
    pub is_favorited: bool,
    pub created_at: u64,
    pub updated_at: u64,
}

impl View for StoredItem {
    type V = StoredItemModel;

    open spec fn view(&self) -> StoredItemModel {
        StoredItemModel {
            id: self.id@,
            content_type: self.content_type,
            plain_text: self.plain_text@,
            rich_content: self.rich_content.deep_view(),
            thumbnail: self.thumbnail.deep_view(),
            image_path: self.image_path.deep_view(),
            file_path: self.file_path.deep_view(),
            file_name: self.file_name.deep_view(),
            source_app: self.source_app@,
            source_app_name: self.source_app_name@,
            content_size: self.content_size,
            content_hash: self.content_hash@,
            is_favorited: self.is_favorited,
            created_at: self.created_at,
            updated_at: self.updated_at,
        }
    }
}

// ---------- search-shadow rows ----------

/// The search-shadow row of an item: the text projections indexed for
/// search, kept one-to-one with the item row.
pub struct ShadowRow {
    pub item_id: String,
    pub plain_text: String,
    pub file_name: String,
    pub source_app_name: String,
}

/// The mathematical value of a shadow row.
pub struct ShadowModel {
    pub item_id: Seq<char>,
    pub plain_text: Seq<char>,
    pub file_name: Seq<char>,
    pub source_app_name: Seq<char>,
}

impl View for ShadowRow {
    type V = ShadowModel;

    open spec fn view(&self) -> ShadowModel {
        ShadowModel {
            item_id: self.item_id@,
            plain_text: self.plain_text@,
            file_name: self.file_name@,
            source_app_name: self.source_app_name@,
        }
    }
}

/// The shadow projection of a stored row: a missing file name is indexed
/// as the empty string.
pub open spec fn shadow_of(m: StoredItemModel) -> ShadowModel {
    ShadowModel {
        item_id: m.id,
        plain_text: m.plain_text,
        file_name: match m.file_name {
            Some(f) => f,
            None => Seq::empty(),
        },
        source_app_name: m.source_app_name,
    }
}

// ---------- listing rows ----------

/// A clipboard item as the listing queries hand it out: the stored row
/// without its rich-content blob, and with the thumbnail blob left out
/// for a dedicated lazy accessor.
pub struct ClipboardItem {
    pub id: String,
    pub content_type: ContentType,
    pub plain_text: String,
    pub thumbnail: Option<Vec<u8>>,
    pub image_path: Option<String>,
    pub file_path: Option<String>,
    pub file_name: Option<String>,
    pub source_app: String,
    pub source_app_name: String,
    pub content_size: i64,
    pub content_hash: String,
    pub is_favorited: bool,
    pub created_at: u64,
    pub updated_at: u64,
}

/// The mathematical value of a listing row.
pub struct ItemModel {
    pub id: Seq<char>,
    pub content_type: ContentType,
    pub plain_text: Seq<char>,
    pub thumbnail: Option<Seq<u8>>,
    pub image_path: Option<Seq<char>>,
    pub file_path: Option<Seq<char>>,
    pub file_name: Option<Seq<char>>,
    pub source_app: Seq<char>,
    pub source_app_name: Seq<char>,
    pub content_size: i64,
    pub content_hash: Seq<char>,
    pub is_favorited: bool,
    pub created_at: u64,
    pub updated_at: u64,
}

impl View for ClipboardItem {
    type V = ItemModel;

    open spec fn view(&self) -> ItemModel {
        ItemModel {
            id: self.id@,
            content_type: self.content_type,
            plain_text: self.plain_text@,
            thumbnail: self.thumbnail.deep_view(),
            image_path: self.image_path.deep_view(),
            file_path: self.file_path.deep_view(),
            file_name: self.file_name.deep_view(),
            source_app: self.source_app@,
            source_app_name: self.source_app_name@,
            content_size: self.content_size,
            content_hash: self.content_hash@,
            is_favorited: self.is_favorited,
            created_at: self.created_at,
            updated_at: self.updated_at,
        }
    }
}

/// The listing projection of a stored row: every field but the thumbnail
/// blob, which the listing leaves out.
pub open spec fn listing_of(m: StoredItemModel) -> ItemModel {
    ItemModel {
        id: m.id,
        content_type: m.content_type,
        plain_text: m.plain_text,
        thumbnail: None,
        image_path: m.image_path,
        file_path: m.file_path,
        file_name: m.file_name,
        source_app: m.source_app,
        source_app_name: m.source_app_name,
        content_size: m.content_size,
        content_hash: m.content_hash,
        is_favorited: m.is_favorited,
        created_at: m.created_at,
        updated_at: m.updated_at,
    }
}

// ---------- detail rows ----------

/// Full item detail returned for preview, with the rich-content blob
/// decoded to text.
pub struct ItemDetail {
    pub id: String,
    pub content_type: ContentType,
    pub plain_text: String,
    pub rich_content: Option<String>,
    pub image_path: Option<String>,
    pub file_path: Option<String>,
    pub file_name: Option<String>,
    pub content_size: i64,
}

/// The mathematical value of a detail row.
pub struct ItemDetailModel {
    pub id: Seq<char>,
    pub content_type: ContentType,
    pub plain_text: Seq<char>,
    pub rich_content: Option<Seq<char>>,
    pub image_path: Option<Seq<char>>,
    pub file_path: Option<Seq<char>>,
    pub file_name: Option<Seq<char>>,
    pub content_size: i64,
}

impl View for ItemDetail {
    type V = ItemDetailModel;

    open spec fn view(&self) -> ItemDetailModel {
        ItemDetailModel {
            id: self.id@,
            content_type: self.content_type,
            plain_text: self.plain_text@,
            rich_content: self.rich_content.deep_view(),
            image_path: self.image_path.deep_view(),
            file_path: self.file_path.deep_view(),
            file_name: self.file_name.deep_view(),
            content_size: self.content_size,
        }
    }
}

// ---------- insertion payload ----------

/// Payload for inserting a new clipboard item.
pub struct NewClipboardItem {
    pub content_type: ContentType,
    pub plain_text: String,
    pub rich_content: Option<Vec<u8>>,
    pub thumbnail: Option<Vec<u8>>,
    pub image_path: Option<String>,
    pub file_path: Option<String>,
    pub file_name: Option<String>,
    pub source_app: String,
    pub source_app_name: String,
    pub content_size: i64,
    pub content_hash: String,
}

/// The mathematical value of an insertion payload.
pub struct NewItemModel {
    pub content_type: ContentType,
    pub plain_text: Seq<char>,
    pub rich_content: Option<Seq<u8>>,
    pub thumbnail: Option<Seq<u8>>,
    pub image_path: Option<Seq<char>>,
    pub file_path: Option<Seq<char>>,
    pub file_name: Option<Seq<char>>,
    pub source_app: Seq<char>,
    pub source_app_name: Seq<char>,
    pub content_size: i64,
    pub content_hash: Seq<char>,
}

impl View for NewClipboardItem {
    type V = NewItemModel;

    open spec fn view(&self) -> NewItemModel {
        NewItemModel {
            content_type: self.content_type,
            plain_text: self.plain_text@,
            rich_content: self.rich_content.deep_view(),
            thumbnail: self.thumbnail.deep_view(),
            image_path: self.image_path.deep_view(),
            file_path: self.file_path.deep_view(),
            file_name: self.file_name.deep_view(),
            source_app: self.source_app@,
            source_app_name: self.source_app_name@,
            content_size: self.content_size,
            content_hash: self.content_hash@,
        }
    }
}

/// The stored row that inserting a payload at time `now` creates: id and
/// timestamps set, not favorited.
pub open spec fn stored_of_new(n: NewItemModel, id: Seq<char>, now: u64) -> StoredItemModel {
    StoredItemModel {
        id: id,
        content_type: n.content_type,
        plain_text: n.plain_text,
        rich_content: n.rich_content,
        thumbnail: n.thumbnail,
        image_path: n.image_path,
        file_path: n.file_path,
        file_name: n.file_name,
        source_app: n.source_app,
        source_app_name: n.source_app_name,
        content_size: n.content_size,
        content_hash: n.content_hash,
        is_favorited: false,
        created_at: now,
        updated_at: now,
    }
}

/// A stored row with its recency timestamp refreshed.
pub open spec fn bumped(m: StoredItemModel, now: u64) -> StoredItemModel {
    StoredItemModel { updated_at: now, ..m }
}

/// A stored row with its favorite flag set and its recency refreshed.
pub open spec fn with_favorite(m: StoredItemModel, fav: bool, now: u64) -> StoredItemModel {
    StoredItemModel { is_favorited: fav, updated_at: now, ..m }
}

/// A stored row with its thumbnail filled in and its recency refreshed.
pub open spec fn with_thumbnail(m: StoredItemModel, t: Seq<u8>, now: u64) -> StoredItemModel {
    StoredItemModel { thumbnail: Some(t), updated_at: now, ..m }
}

// ---------- settings ----------

/// One settings entry: an externally owned key-value pair.
pub struct Setting {
    pub key: String,
    pub value: String,
}

impl View for Setting {
    type V = (Seq<char>, Seq<char>);

    open spec fn view(&self) -> (Seq<char>, Seq<char>) {
        (self.key@, self.value@)
    }
}

// ---------- cloning helpers ----------

/// Clone an optional string; the clone equals the original.
pub fn clone_opt_string(o: &Option<String>) -> (r: Option<String>)
    ensures
        r == *o,
{
    match o {
        None => None,
        Some(s) => Some(s.clone()),
    }
}

/// Clone an optional byte blob; the clone holds the same bytes.
pub fn clone_opt_bytes(o: &Option<Vec<u8>>) -> (r: Option<Vec<u8>>)
    ensures
        r.deep_view() == o.deep_view(),
{
    match o {
        None => None,
        Some(v) => {
            let c = v.clone();
            proof {
                assert(c@ =~= v@);
            }
            Some(c)
        },
    }
}

impl Clone for StoredItem {
    /// Clone a stored row; the clone's value equals the original's.
    fn clone(&self) -> (res: Self)
        ensures
            res@ == self@,
    {
        StoredItem {
            id: self.id.clone(),
            content_type: self.content_type,
            plain_text: self.plain_text.clone(),
            rich_content: clone_opt_bytes(&self.rich_content),
            thumbnail: clone_opt_bytes(&self.thumbnail),
            image_path: clone_opt_string(&self.image_path),
            file_path: clone_opt_string(&self.file_path),
            file_name: clone_opt_string(&self.file_name),
            source_app: self.source_app.clone(),
            source_app_name: self.source_app_name.clone(),
            content_size: self.content_size,
            content_hash: self.content_hash.clone(),
            is_favorited: self.is_favorited,
            created_at: self.created_at,
            updated_at: self.updated_at,
        }
    }
}

impl Clone for ClipboardItem {
    /// Clone a listing row; the clone's value equals the original's.
    fn clone(&self) -> (res: Self)
        ensures
            res@ == self@,
    {
        ClipboardItem {
            id: self.id.clone(),
            content_type: self.content_type,
            plain_text: self.plain_text.clone(),
            thumbnail: clone_opt_bytes(&self.thumbnail),
            image_path: clone_opt_string(&self.image_path),
            file_path: clone_opt_string(&self.file_path),
            file_name: clone_opt_string(&self.file_name),
            source_app: self.source_app.clone(),
            source_app_name: self.source_app_name.clone(),
            content_size: self.content_size,
            content_hash: self.content_hash.clone(),
            is_favorited: self.is_favorited,
            created_at: self.created_at,
            updated_at: self.updated_at,
        }
    }
}

/// The listing row for a stored row, with the thumbnail blob left out.
pub fn listing_item(it: &StoredItem) -> (r: ClipboardItem)
    ensures
        r@ == listing_of(it@),
{
    ClipboardItem {
        id: it.id.clone(),
        content_type: it.content_type,
        plain_text: it.plain_text.clone(),
        thumbnail: None,
        image_path: clone_opt_string(&it.image_path),
        file_path: clone_opt_string(&it.file_path),
        file_name: clone_opt_string(&it.file_name),
        source_app: it.source_app.clone(),
        source_app_name: it.source_app_name.clone(),
        content_size: it.content_size,
        content_hash: it.content_hash.clone(),
        is_favorited: it.is_favorited,
        created_at: it.created_at,
        updated_at: it.updated_at,
    }
}

} // verus!
