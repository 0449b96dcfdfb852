//! Content classification: the closed content-type enum with its
//! canonical string form, the per-item size gate, and the test for
//! image-typed file paths.

use vstd::prelude::*;
use crate::text::{ends_with_seq, str_eq, str_ends_with};

verus! {

/// Content type of a clipboard item.
#[derive(Debug, Clone, Copy, PartialEq, Eq, Structural)]
pub enum ContentType {
    PlainText,
    RichText,
    Image,
    File,
}

/// The canonical wire string of a content type.
pub open spec fn type_str(ct: ContentType) -> Seq<char> {
    match ct {
        ContentType::PlainText => "plain_text"@,
        ContentType::RichText => "rich_text"@,
        ContentType::Image => "image"@,
        ContentType::File => "file"@,
    }
}

/// The content type a wire string decodes to; unknown strings decode to
/// nothing rather than to a default.
pub open spec fn type_of_str(s: Seq<char>) -> Option<ContentType> {
    if s == type_str(ContentType::PlainText) {
        Some(ContentType::PlainText)
    } else if s == type_str(ContentType::RichText) {
        Some(ContentType::RichText)
    } else if s == type_str(ContentType::Image) {
        Some(ContentType::Image)
    } else if s == type_str(ContentType::File) {
        Some(ContentType::File)
    } else {
        None
    }
}

impl ContentType {
    /// The canonical string form of this content type.
    pub fn as_str(&self) -> (r: &'static str)
        ensures
            r@ == type_str(*self),
    {
        match self {
            ContentType::PlainText => "plain_text",
            ContentType::RichText => "rich_text",
            ContentType::Image => "image",
            ContentType::File => "file",
        }
    }

    /// Decode a wire string; unknown strings give `None`.
    pub fn from_str(s: &str) -> (r: Option<Self>)
        ensures
            r == type_of_str(s@),
    {
        if str_eq(s, "plain_text") {
            Some(ContentType::PlainText)
        } else if str_eq(s, "rich_text") {
            Some(ContentType::RichText)
        } else if str_eq(s, "image") {
            Some(ContentType::Image)
        } else if str_eq(s, "file") {
            Some(ContentType::File)
        } else {
            None
        }
    }
}

/// The mapping between content types and their wire strings is a
/// bijection: every type decodes back from its own string.
pub proof fn lemma_type_str_round_trip(ct: ContentType)
    ensures
        type_of_str(type_str(ct)) == Some(ct),
{
    reveal_strlit("plain_text");
    reveal_strlit("rich_text");
    reveal_strlit("image");
    reveal_strlit("file");
    assert("plain_text"@.len() == 10);
    assert("rich_text"@.len() == 9);
    assert("image"@.len() == 5);
    assert("file"@.len() == 4);
}

// ---------- size gate ----------

/// The size gate's rule: a byte count is over the limit exactly when it
/// is strictly greater than the limit in megabytes.
pub open spec fn exceeds_limit_spec(size: int, limit_mb: int) -> bool {
    size > limit_mb * 1024 * 1024
}

/// Check whether a content size exceeds the configured limit; the exact
/// boundary is accepted.
pub fn exceeds_size_limit(size: usize, limit_mb: usize) -> (r: bool)
    requires
        limit_mb * 1024 * 1024 <= usize::MAX,
    ensures
        r == exceeds_limit_spec(size as int, limit_mb as int),
{
    size > limit_mb * 1024 * 1024
}

// ---------- image-typed file paths ----------

/// What `str::to_lowercase` returns; the result depends on the
/// characters alone.
pub uninterp spec fn lower_of(s: Seq<char>) -> Seq<char>;

/// Relies on `str::to_lowercase`: the result is a function of the
/// input's characters.
#[verifier::external_body]
fn to_lowercase(s: &str) -> (r: String)
    ensures
        r@ == lower_of(s@),
{
    s.to_lowercase()
}

/// A path names an image file when its lowercased form ends in a known
/// image extension.
pub open spec fn is_image_path(path: Seq<char>) -> bool {
    ||| ends_with_seq(lower_of(path), ".png"@)
    ||| ends_with_seq(lower_of(path), ".jpg"@)
    ||| ends_with_seq(lower_of(path), ".jpeg"@)
    ||| ends_with_seq(lower_of(path), ".gif"@)
    ||| ends_with_seq(lower_of(path), ".webp"@)
    ||| ends_with_seq(lower_of(path), ".bmp"@)
    ||| ends_with_seq(lower_of(path), ".tiff"@)
    ||| ends_with_seq(lower_of(path), ".tif"@)
    ||| ends_with_seq(lower_of(path), ".ico"@)
}

/// Check whether a file path has an image extension (case-insensitive).
pub fn is_image_file(path: &str) -> (r: bool)
    ensures
        r == is_image_path(path@),
{
    let lower = to_lowercase(path);
    let l = lower.as_str();
    str_ends_with(l, ".png") || str_ends_with(l, ".jpg") || str_ends_with(l, ".jpeg")
        || str_ends_with(l, ".gif") || str_ends_with(l, ".webp") || str_ends_with(l, ".bmp")
        || str_ends_with(l, ".tiff") || str_ends_with(l, ".tif") || str_ends_with(l, ".ico")
}

} // verus!
