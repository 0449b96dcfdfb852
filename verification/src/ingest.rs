//! The ingestion orchestrator: size gate, content hash, dedup bump, and
//! the transactional insert, composed.
//!
//! Text-like content runs through `ingest` in one call.  Direct images
//! pause between gating and storing so the caller can scale the
//! thumbnail and archive the image bytes; `ingest_gate` and
//! `insert_item` are the two halves of that path.

use vstd::prelude::*;
use crate::content::{exceeds_limit_spec, ContentType};
use crate::hashing::{compute_hash, sha256_hex};
use crate::models::{NewClipboardItem, NewItemModel, StoreError};
use crate::queries::setting_of;
use crate::store::{
    bump_transition, has_hash, idx_of_hash, insert_transition, Store,
};
use crate::text::{parse_u64, parse_u64_spec};

verus! {

/// Default per-item size limit, in megabytes.
pub const DEFAULT_MAX_ITEM_SIZE_MB: usize = 10;

/// The effective size limit in megabytes: the parsed setting when
/// present and parseable, the default otherwise.
pub open spec fn effective_limit_mb(sm: Seq<(Seq<char>, Seq<char>)>) -> int {
    match setting_of(sm, "max_item_size_mb"@) {
        Some(v) => match parse_u64_spec(v) {
            Some(n) => n as int,
            None => DEFAULT_MAX_ITEM_SIZE_MB as int,
        },
        None => DEFAULT_MAX_ITEM_SIZE_MB as int,
    }
}

/// The byte count the size gate judges: the on-disk file size when one
/// was measured, the content's length otherwise.
pub open spec fn gated_size(file_size: Option<u64>, content_len: int) -> int {
    match file_size {
        Some(n) => n as int,
        None => content_len,
    }
}

/// The insertion payload an ingestion builds for content that carries no
/// inline media: plain values, the content's hash, no thumbnail and no
/// archived image.
pub open spec fn text_payload(
    ct: ContentType,
    content: Seq<u8>,
    plain_text: Option<Seq<char>>,
    rich_content: Option<Seq<u8>>,
    file_path: Option<Seq<char>>,
    file_name: Option<Seq<char>>,
    source_app: Seq<char>,
    source_app_name: Seq<char>,
    size: int,
) -> NewItemModel {
    NewItemModel {
        content_type: ct,
        plain_text: match plain_text {
            Some(t) => t,
            None => Seq::empty(),
        },
        rich_content: rich_content,
        thumbnail: None,
        image_path: None,
        file_path: file_path,
        file_name: file_name,
        source_app: source_app,
        source_app_name: source_app_name,
        content_size: size as i64,
        content_hash: sha256_hex(content),
    }
}

/// What the ingestion gate decided: the content is over the size limit
/// and is skipped; or it duplicates a stored row, whose recency was
/// bumped and whose id comes back; or it is fresh, and its hash comes
/// back for the insert.
pub enum IngestGate {
    Skip,
    Duplicate(String),
    Fresh(String),
}

impl Store {
    /// The effective per-item size limit in megabytes, from settings.
    fn read_limit_mb(&self) -> (r: u64)
        requires
            self.wf(),
        ensures
            r as int == effective_limit_mb(self.settings_model()),
    {
        match self.get_setting("max_item_size_mb") {
            None => DEFAULT_MAX_ITEM_SIZE_MB as u64,
            Some(v) => {
                match parse_u64(v.as_str()) {
                    Some(n) => n,
                    None => DEFAULT_MAX_ITEM_SIZE_MB as u64,
                }
            },
        }
    }

    /// Gate a candidate: reject it when over the configured size limit,
    /// collapse it onto an existing row when its hash is already stored
    /// (bumping that row's recency), and otherwise hand back its hash
    /// for the insert.
    pub fn ingest_gate(&mut self, candidate_size: u64, content: &Vec<u8>, now: u64) -> (g:
        IngestGate)
        requires
            old(self).wf(),
        ensures
            final(self).wf(),
            final(self).settings_model() == old(self).settings_model(),
            ({
                let limit = effective_limit_mb(old(self).settings_model());
                let h = sha256_hex(content@);
                if exceeds_limit_spec(candidate_size as int, limit) {
                    g is Skip && *final(self) == *old(self)
                } else if has_hash(old(self).rows(), h) {
                    &&& g is Duplicate
                    &&& g->Duplicate_0@ == old(self).rows()[idx_of_hash(old(self).rows(), h)].id
                    &&& bump_transition(
                        old(self).rows(),
                        final(self).rows(),
                        old(self).shadows(),
                        final(self).shadows(),
                        h,
                        now,
                    )
                } else {
                    &&& g is Fresh
                    &&& g->Fresh_0@ == h
                    &&& *final(self) == *old(self)
                }
            }),
    {
        let limit = self.read_limit_mb();
        let size_over: bool = (candidate_size as u128) > (limit as u128) * 1048576;
        if size_over {
            return IngestGate::Skip;
        }
        let hash = compute_hash(content.as_slice());
        match self.find_and_bump_by_hash(hash.as_str(), now) {
            Some(id) => IngestGate::Duplicate(id),
            None => IngestGate::Fresh(hash),
        }
    }

    /// Ingest content that carries no inline media (plain text, rich
    /// text, or a file reference): gate the size, hash, collapse onto a
    /// duplicate, or store a new row.  Skips return nothing; both a
    /// bump and a fresh insert return the row's id.
    pub fn ingest(
        &mut self,
        content_type: ContentType,
        content: Vec<u8>,
        plain_text: Option<String>,
        rich_content: Option<Vec<u8>>,
        file_path: Option<String>,
        file_name: Option<String>,
        source_app: String,
        source_app_name: String,
        file_size: Option<u64>,
        now: u64,
    ) -> (r: Result<Option<String>, StoreError>)
        requires
            old(self).wf(),
            content@.len() <= i64::MAX,
            file_size is Some ==> file_size->0 <= i64::MAX,
        ensures
            final(self).wf(),
            final(self).settings_model() == old(self).settings_model(),
            ({
                let limit = effective_limit_mb(old(self).settings_model());
                let size = gated_size(file_size, content@.len() as int);
                let h = sha256_hex(content@);
                let payload = text_payload(
                    content_type,
                    content@,
                    plain_text.deep_view(),
                    rich_content.deep_view(),
                    file_path.deep_view(),
                    file_name.deep_view(),
                    source_app@,
                    source_app_name@,
                    size,
                );
                if exceeds_limit_spec(size, limit) {
                    r == Ok::<Option<String>, StoreError>(None) && *final(self) == *old(self)
                } else if has_hash(old(self).rows(), h) {
                    &&& r is Ok
                    &&& r->Ok_0 is Some
                    &&& r->Ok_0->0@ == old(self).rows()[idx_of_hash(old(self).rows(), h)].id
                    &&& bump_transition(
                        old(self).rows(),
                        final(self).rows(),
                        old(self).shadows(),
                        final(self).shadows(),
                        h,
                        now,
                    )
                } else {
                    &&& (r is Ok ==> r->Ok_0 is Some && insert_transition(
                        old(self).rows(),
                        final(self).rows(),
                        old(self).shadows(),
                        final(self).shadows(),
                        payload,
                        r->Ok_0->0@,
                        now,
                    ))
                    &&& (r is Err ==> r == Err::<Option<String>, StoreError>(StoreError::Storage)
                        && *final(self) == *old(self))
                }
            }),
    {
        let size: u64 = match file_size {
            Some(n) => n,
            None => content.len() as u64,
        };
        let gate = self.ingest_gate(size, &content, now);
        match gate {
            IngestGate::Skip => Ok(None),
            IngestGate::Duplicate(id) => Ok(Some(id)),
            IngestGate::Fresh(hash) => {
                let text: String = match plain_text {
                    Some(t) => t,
                    None => String::new(),
                };
                let new = NewClipboardItem {
                    content_type,
                    plain_text: text,
                    rich_content,
                    thumbnail: None,
                    image_path: None,
                    file_path,
                    file_name,
                    source_app,
                    source_app_name,
                    content_size: size as i64,
                    content_hash: hash,
                };
                match self.insert_item(new, now) {
                    Ok(id) => Ok(Some(id)),
                    Err(e) => Err(e),
                }
            },
        }
    }
}

} // verus!
