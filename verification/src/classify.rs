//! The classifier: from a file's path to the usage category its bytes are
//! counted under.
//!
//! The media type of a path is guessed from its extension by the
//! `mime_guess` crate; which category a media type falls under is decided
//! here.

use crate::utils::chars_of;
use vstd::prelude::*;

verus! {

/// The usage categories, in the order in which they are reported.
#[derive(Clone, Copy, Debug, PartialEq, Eq, Structural)]
pub enum Category {
    Images,
    Videos,
    Music,
    Documents,
    Archives,
    Binaries,
    Other,
}

/// The media type that `mime_guess` names first for `path`, if it knows the
/// path's extension.
///
/// The crate takes the extension as the standard library does, which
/// splits a path at the separators of the platform the library is built
/// for, and looks it up in the table of the version that is linked: a fixed
/// function in any one build.
pub uninterp spec fn guessed_mime(path: Seq<char>) -> Option<Seq<char>>;

/// Calls `mime_guess::from_path` and takes the first media type of the
/// guess as text. Trusted: the answer depends on `path` alone and is what
/// `guessed_mime` names.
#[verifier::external_body]
pub(crate) fn guess_mime(path: &str) -> (mime: Option<&'static str>)
    ensures
        match mime {
            Some(m) => guessed_mime(path@) == Some(m@),
            None => guessed_mime(path@) is None,
        },
{
    mime_guess::from_path(path).first_raw()
}

/// Media types of office documents and plain text.
pub open spec fn is_document_mime(mime: Seq<char>) -> bool {
    ||| mime == "application/msword"@
    ||| mime == "application/vnd.openxmlformats-officedocument.wordprocessingml.document"@
    ||| mime == "application/vnd.ms-excel"@
    ||| mime == "application/vnd.openxmlformats-officedocument.spreadsheetml.sheet"@
    ||| mime == "text/plain"@
}

/// The media type of unstructured binary data.
pub open spec fn is_binary_mime(mime: Seq<char>) -> bool {
    mime == "application/octet-stream"@
}

/// Media types of archives and compressed files.
pub open spec fn is_archive_mime(mime: Seq<char>) -> bool {
    ||| mime == "application/x-bzip"@
    ||| mime == "application/x-bzip2"@
    ||| mime == "application/zip"@
    ||| mime == "application/x-tar"@
    ||| mime == "application/gzip"@
    ||| mime == "application/x-7z-compressed"@
}

/// The category of a media type: by its top-level type for images, audio
/// and video, by the fixed lists above for the rest, else `Other`.
pub open spec fn mime_category(mime: Seq<char>) -> Category {
    if "image/"@.is_prefix_of(mime) {
        Category::Images
    } else if "audio/"@.is_prefix_of(mime) {
        Category::Music
    } else if "video/"@.is_prefix_of(mime) {
        Category::Videos
    } else if is_document_mime(mime) {
        Category::Documents
    } else if is_archive_mime(mime) {
        Category::Archives
    } else if is_binary_mime(mime) {
        Category::Binaries
    } else {
        Category::Other
    }
}

/// The category of a path: that of its guessed media type, or `Other`
/// where no type can be guessed.
pub open spec fn path_category(path: Seq<char>) -> Category {
    match guessed_mime(path) {
        Some(mime) => mime_category(mime),
        None => Category::Other,
    }
}

/// Whether `text` begins with `prefix`.
pub fn starts_with(text: &Vec<char>, prefix: &str) -> (found: bool)
    ensures
        found == prefix@.is_prefix_of(text@),
{
    let mut i: usize = 0;
    for c in it: prefix.chars()
        invariant
            it.seq() == prefix@,
            i == it.index(),
            i <= text.len(),
            text@.take(i as int) == prefix@.take(i as int),
    {
        if i >= text.len() || text[i] != c {
            proof {
                if prefix@.is_prefix_of(text@) {
                    assert(text@.subrange(0, prefix@.len() as int)[i as int] == prefix@[i as int]);
                }
            }
            return false;
        }
        proof {
            assert(text@.take(i + 1) =~= text@.take(i as int).push(text@[i as int]));
            assert(prefix@.take(i + 1) =~= prefix@.take(i as int).push(c));
        }
        i = i + 1;
    }
    proof {
        assert(prefix@.take(i as int) =~= prefix@);
        assert(text@.take(i as int) =~= text@.subrange(0, prefix@.len() as int));
    }
    true
}

/// Whether `text` is exactly `other`.
pub fn same_text(text: &Vec<char>, other: &str) -> (same: bool)
    ensures
        same == (text@ == other@),
{
    let prefixed = starts_with(text, other);
    if !prefixed {
        return false;
    }
    let same = other.unicode_len() == text.len();
    proof {
        if same {
            assert(text@.subrange(0, text@.len() as int) =~= text@);
        }
    }
    same
}

/// Whether `mime` is the media type of an office document or of plain text.
pub fn is_document(mime: &str) -> (r: bool)
    ensures
        r == is_document_mime(mime@),
{
    let text = chars_of(mime);
    same_text(&text, "application/msword")
        || same_text(&text, "application/vnd.openxmlformats-officedocument.wordprocessingml.document")
        || same_text(&text, "application/vnd.ms-excel")
        || same_text(&text, "application/vnd.openxmlformats-officedocument.spreadsheetml.sheet")
        || same_text(&text, "text/plain")
}

/// Whether `mime` is the media type of unstructured binary data.
pub fn is_binary(mime: &str) -> (r: bool)
    ensures
        r == is_binary_mime(mime@),
{
    let text = chars_of(mime);
    same_text(&text, "application/octet-stream")
}

/// Whether `mime` is the media type of an archive or a compressed file.
pub fn is_archive(mime: &str) -> (r: bool)
    ensures
        r == is_archive_mime(mime@),
{
    let text = chars_of(mime);
    same_text(&text, "application/x-bzip")
        || same_text(&text, "application/x-bzip2")
        || same_text(&text, "application/zip")
        || same_text(&text, "application/x-tar")
        || same_text(&text, "application/gzip")
        || same_text(&text, "application/x-7z-compressed")
}

/// The category of the media type `mime`.
pub fn classify_mime(mime: &str) -> (category: Category)
    ensures
        category == mime_category(mime@),
{
    let text = chars_of(mime);
    if starts_with(&text, "image/") {
        Category::Images
    } else if starts_with(&text, "audio/") {
        Category::Music
    } else if starts_with(&text, "video/") {
        Category::Videos
    } else if is_document(mime) {
        Category::Documents
    } else if is_archive(mime) {
        Category::Archives
    } else if is_binary(mime) {
        Category::Binaries
    } else {
        Category::Other
    }
}

/// The category of the file at `path`, from its guessed media type. Never
/// fails: a path whose type cannot be guessed falls under `Other`.
pub fn classify(path: &str) -> (category: Category)
    ensures
        category == path_category(path@),
{
    match guess_mime(path) {
        Some(mime) => classify_mime(mime),
        None => Category::Other,
    }
}

} // verus!
