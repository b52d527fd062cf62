//! The documents that the client has opened: their text and version, kept by URI.
use vstd::prelude::*;

use crate::text::{spec_trim, str_chars, trim_range};
use vstd::hash_map::StringHashMap;

verus! {

/// The text of a document and the version the client gave it.
pub struct TextDocument {
    pub text: String,
    pub version: u64,
}

/// A document as plain values: its text and its version.
pub struct TextDocumentView {
    pub text: Seq<char>,
    pub version: u64,
}

impl View for TextDocument {
    type V = TextDocumentView;

    open spec fn view(&self) -> TextDocumentView {
        TextDocumentView { text: self.text@, version: self.version }
    }
}

/// The documents the client has opened, by URI.
pub struct DocumentsData {
    map: StringHashMap<TextDocument>,
}

/// The store after `uri` was set to `text` at `version`.
pub open spec fn spec_set(docs: Map<Seq<char>, TextDocumentView>, uri: Seq<char>, text: Seq<char>, version: u64) -> Map<
    Seq<char>,
    TextDocumentView,
> {
    docs.insert(uri, TextDocumentView { text, version })
}

/// The document kept for `uri`, if any.
pub open spec fn spec_get(docs: Map<Seq<char>, TextDocumentView>, uri: Seq<char>) -> Option<TextDocumentView> {
    if docs.contains_key(uri) {
        Some(docs[uri])
    } else {
        None
    }
}

impl View for DocumentsData {
    type V = Map<Seq<char>, TextDocumentView>;

    closed spec fn view(&self) -> Map<Seq<char>, TextDocumentView> {
        self.map@.map_values(|d: TextDocument| d@)
    }
}

impl DocumentsData {
    /// A store that holds no document.
    pub fn new() -> (r: DocumentsData)
        ensures
            r@ == Map::<Seq<char>, TextDocumentView>::empty(),
    {
        let r = DocumentsData { map: StringHashMap::new() };
        assert(r@ =~= Map::<Seq<char>, TextDocumentView>::empty());
        r
    }

    /// Keeps `text` at `version` as the document of `uri`, in place of any earlier one.
    pub fn set(&mut self, uri: String, text: String, version: u64)
        ensures
            final(self)@ == spec_set(old(self)@, uri@, text@, version),
    {
        let ghost before = self.map@;
        let ghost key = uri@;
        let doc = TextDocument { text, version };
        let ghost dv = doc@;
        self.map.insert(uri, doc);
        assert(self.map@ == before.insert(key, doc));
        assert(self@ =~= spec_set(old(self)@, key, dv.text, version));
    }

    /// The document kept for `uri`, if any.
    pub fn get(&self, uri: &str) -> (r: Option<&TextDocument>)
        ensures
            match r {
                Some(d) => spec_get(self@, uri@) == Some(d@),
                None => spec_get(self@, uri@) is None,
            },
    {
        self.map.get(uri)
    }
}

/// A store after `uri` was set gives back, for `uri`, the text and version it was set to, and
/// for every other URI what it gave before.
pub proof fn lemma_get_after_set(
    docs: Map<Seq<char>, TextDocumentView>,
    uri: Seq<char>,
    text: Seq<char>,
    version: u64,
    other: Seq<char>,
)
    ensures
        spec_get(spec_set(docs, uri, text, version), uri) == Some(TextDocumentView { text, version }),
        other != uri ==> spec_get(spec_set(docs, uri, text, version), other) == spec_get(docs, other),
{
}

/// Whether the document of `uri` calls for diagnostics: the version to diagnose when the document
/// is known and its text is not blank, else `None`.
pub fn do_diagnostics(docs: &DocumentsData, uri: &str) -> (r: Option<u64>)
    ensures
        r == match spec_get(docs@, uri@) {
            None => None,
            Some(d) => if spec_trim(d.text).len() > 0 {
                Some(d.version)
            } else {
                None
            },
        },
{
    match docs.get(uri) {
        None => None,
        Some(d) => {
            let chars = str_chars(d.text.as_str());
            let (a, b) = trim_range(&chars, 0, chars.len());
            assert(chars@.subrange(0, chars@.len() as int) =~= chars@);
            if a < b {
                Some(d.version)
            } else {
                None
            }
        },
    }
}

/// Whether diagnostics computed for `version` of the document of `uri` still apply: the document
/// is still known and still at that version.
pub fn diagnostics_are_current(docs: &DocumentsData, uri: &str, version: u64) -> (r: bool)
    ensures
        r == (spec_get(docs@, uri@) matches Some(d) && d.version == version),
{
    match docs.get(uri) {
        Some(d) => d.version == version,
        None => false,
    }
}

} // verus!
