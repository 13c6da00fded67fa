//! Documents and how their text is to be extracted.
//!
//! A document is known by its path and by the extension that was detected in
//! it. The extension alone decides how the text is read: as a PDF file, as a
//! plain text file, or not at all.

use crate::text::same_text;
use vstd::prelude::*;
use vstd::string::*;

verus! {

/// How the text of a document is read.
#[derive(Clone, Copy, Debug, PartialEq, Eq, Structural)]
pub enum ExtractionStrategy {
    /// The file is a PDF document; its text has to be extracted.
    Pdf,
    /// The file holds its text as it is.
    PlainText,
}

/// What `str::to_lowercase` of the standard library returns for a text.
pub uninterp spec fn lowercase_of(text: Seq<char>) -> Seq<char>;

/// `str::to_lowercase` of the standard library: the lower-case equivalent of
/// the text, by the Unicode tables that the standard library holds. The
/// result is a function of the text alone.
#[verifier::external_body]
fn to_lowercase(text: &str) -> (lowered: String)
    ensures
        lowered@ == lowercase_of(text@),
{
    text.to_lowercase()
}

/// Whether `path` is a bare file name: it holds none of the characters that
/// part directories or drives from names on some platform.
pub open spec fn is_bare_name(path: Seq<char>) -> bool {
    forall|i: int|
        0 <= i < path.len() ==> (#[trigger] path[i]) != '/' && path[i] != '\\' && path[i] != ':'
}

/// Whether the last dot of `path` stands at position `dot`.
pub open spec fn is_last_dot(path: Seq<char>, dot: int) -> bool {
    0 <= dot < path.len() && path[dot] == '.' && forall|i: int|
        dot < i < path.len() ==> (#[trigger] path[i]) != '.'
}

/// Whether `extension` is what a bare file name shows: where `path` is a bare
/// name whose last dot stands neither at its start nor behind another dot,
/// the extension is what follows that dot. Of other paths this says nothing.
pub open spec fn agrees_on_bare_names(path: Seq<char>, extension: Seq<char>) -> bool {
    forall|dot: int|
        is_bare_name(path) && #[trigger] is_last_dot(path, dot) && dot > 0 && path[dot - 1] != '.'
            ==> extension == path.subrange(dot + 1, path.len() as int)
}

/// Whether `extension` stands in `path` directly behind the dot at `dot`.
pub open spec fn follows_dot_at(path: Seq<char>, extension: Seq<char>, dot: int) -> bool {
    0 <= dot && dot + 1 + extension.len() <= path.len() && path[dot] == '.' && path.subrange(
        dot + 1,
        dot + 1 + extension.len(),
    ) == extension
}

/// Whether `extension` is a part of `path` that stands directly behind a dot.
pub open spec fn follows_a_dot(path: Seq<char>, extension: Seq<char>) -> bool {
    exists|dot: int| #[trigger] follows_dot_at(path, extension, dot)
}

/// The extension that stands for what was detected: the text that was found,
/// or the empty text where nothing was found.
pub open spec fn detected_text(detected: Option<String>) -> Seq<char> {
    match detected {
        Some(found) => found@,
        None => Seq::empty(),
    }
}

/// `Path::extension` of the standard library: the part of the file name
/// behind its last dot, if the path has a file name with such a part.
///
/// Where the file name begins is a matter of the platform. What is claimed
/// holds on every platform: a path without a dot shows no extension; an
/// extension that is found holds no dot and stands in the path directly
/// behind a dot; and a bare file name whose last dot stands neither at its
/// start nor behind another dot shows what follows that dot.
#[verifier::external_body]
fn path_extension(path: &str) -> (extension: Option<String>)
    ensures
        agrees_on_bare_names(path@, detected_text(extension)),
        extension matches Some(found) ==> !found@.contains('.') && follows_a_dot(path@, found@),
        !path@.contains('.') ==> extension is None,
{
    std::path::Path::new(path).extension().map(|e| e.to_string_lossy().into_owned())
}

/// The strategy for an extension that is already in lower case: `pdf` is read
/// as PDF; `txt`, `md`, `json`, `rs`, `ts`, `tsx` and `js` are read as plain
/// text; a document with any other extension is skipped.
pub open spec fn strategy_of(lowered: Seq<char>) -> Option<ExtractionStrategy> {
    if lowered == "pdf"@ {
        Some(ExtractionStrategy::Pdf)
    } else if lowered == "txt"@ || lowered == "md"@ || lowered == "json"@ || lowered == "rs"@
        || lowered == "ts"@ || lowered == "tsx"@ || lowered == "js"@ {
        Some(ExtractionStrategy::PlainText)
    } else {
        None
    }
}

/// Picks the strategy for an extension that is already in lower case.
pub fn strategy_for_lowered(lowered: &str) -> (strategy: Option<ExtractionStrategy>)
    ensures
        strategy == strategy_of(lowered@),
{
    if same_text(lowered, "pdf") {
        Some(ExtractionStrategy::Pdf)
    } else if same_text(lowered, "txt") || same_text(lowered, "md") || same_text(lowered, "json")
        || same_text(lowered, "rs") || same_text(lowered, "ts") || same_text(lowered, "tsx")
        || same_text(lowered, "js") {
        Some(ExtractionStrategy::PlainText)
    } else {
        None
    }
}

/// Picks the strategy for an extension, whatever its case.
pub fn strategy_for(extension: &str) -> (strategy: Option<ExtractionStrategy>)
    ensures
        strategy == strategy_of(lowercase_of(extension@)),
{
    let lowered = to_lowercase(extension);
    strategy_for_lowered(lowered.as_str())
}

/// A document that is to be indexed: its path, and the extension detected in
/// the path. A path without an extension has the empty extension.
#[derive(Debug)]
pub struct Document {
    pub path: String,
    pub extension: String,
}

/// What the ingestion needs to know of a document.
pub struct DocumentView {
    pub path: Seq<char>,
    pub strategy: Option<ExtractionStrategy>,
}

impl View for Document {
    type V = DocumentView;

    open spec fn view(&self) -> DocumentView {
        DocumentView {
            path: self.path@,
            strategy: strategy_of(lowercase_of(self.extension@)),
        }
    }
}

impl Document {
    /// The document with the given path and extension.
    pub fn new(path: String, extension: String) -> (document: Document)
        ensures
            document.path == path,
            document.extension == extension,
    {
        Document { path, extension }
    }

    /// The document at `path` with the extension that was detected in the
    /// path, or with the empty extension where none was detected.
    pub fn with_detected(path: String, detected: Option<String>) -> (document: Document)
        ensures
            document.path == path,
            match detected {
                Some(found) => document.extension == found,
                None => document.extension@ == Seq::<char>::empty(),
            },
    {
        let extension = match detected {
            Some(found) => found,
            None => String::new(),
        };
        Document { path, extension }
    }

    /// The document at `path`, with the extension that the path shows on this
    /// platform.
    ///
    /// A bare file name such as `report.txt` shows what follows its last dot,
    /// on every platform. A path without a dot shows the empty extension.
    /// Whatever the path, the extension holds no dot, and it is empty or
    /// stands in the path directly behind a dot.
    pub fn from_path(path: String) -> (document: Document)
        ensures
            document.path == path,
            agrees_on_bare_names(path@, document.extension@),
            !path@.contains('.') ==> document.extension@ == Seq::<char>::empty(),
            !document.extension@.contains('.'),
            document.extension@.len() == 0 || follows_a_dot(path@, document.extension@),
    {
        let detected = path_extension(path.as_str());
        Document::with_detected(path, detected)
    }

    /// How the text of this document is read, or `None` where the document is
    /// skipped.
    pub fn strategy(&self) -> (strategy: Option<ExtractionStrategy>)
        ensures
            strategy == self@.strategy,
    {
        strategy_for(self.extension.as_str())
    }
}

} // verus!
