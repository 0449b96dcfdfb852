//! The paste path's deciding half: from a stored row's fields, decide
//! which write the system clipboard receives.  Performing the write is
//! the caller's job.

use vstd::prelude::*;
use crate::content::ContentType;
use crate::queries::{lossy_of, utf8_lossy};

verus! {

/// The clipboard write a paste performs: an image file by path, a file
/// reference by path, HTML with its plain-text fallback, or plain text.
pub enum PasteAction {
    WriteImage(String),
    WriteFiles(String),
    WriteHtml(String, String),
    WriteText(String),
}

/// Decide the clipboard write for a stored row.  An image row writes its
/// archived file; an image or file row without a path writes nothing; a
/// rich-text row writes its decoded HTML with the plain text as
/// fallback, or plain text alone when it has no blob; anything else
/// writes plain text.
pub fn paste_action(
    content_type: ContentType,
    plain_text: String,
    rich_content: Option<Vec<u8>>,
    image_path: Option<String>,
    file_path: Option<String>,
) -> (r: Option<PasteAction>)
    ensures
        content_type == ContentType::Image ==> match image_path {
            Some(p) => r matches Some(PasteAction::WriteImage(q)) && q@ == p@,
            None => r is None,
        },
        content_type == ContentType::File ==> match file_path {
            Some(p) => r matches Some(PasteAction::WriteFiles(q)) && q@ == p@,
            None => r is None,
        },
        content_type == ContentType::RichText ==> match rich_content {
            Some(b) => r matches Some(PasteAction::WriteHtml(t, h)) && t@ == plain_text@ && h@
                == lossy_of(b@),
            None => r matches Some(PasteAction::WriteText(t)) && t@ == plain_text@,
        },
        content_type == ContentType::PlainText ==> (r matches Some(PasteAction::WriteText(t))
            && t@ == plain_text@),
{
    match content_type {
        ContentType::Image => match image_path {
            Some(p) => Some(PasteAction::WriteImage(p)),
            None => None,
        },
        ContentType::File => match file_path {
            Some(p) => Some(PasteAction::WriteFiles(p)),
            None => None,
        },
        ContentType::RichText => match rich_content {
            Some(b) => {
                let html = utf8_lossy(b.as_slice());
                Some(PasteAction::WriteHtml(plain_text, html))
            },
            None => Some(PasteAction::WriteText(plain_text)),
        },
        ContentType::PlainText => Some(PasteAction::WriteText(plain_text)),
    }
}

} // verus!
