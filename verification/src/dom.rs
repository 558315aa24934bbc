//! The document model: a leniently parsed markup tree, flattened into
//! document (pre-order) element order so that structural queries become
//! plain scans.
use vstd::prelude::*;

verus! {

/// One markup element: its tag name, its attributes in the parser's
/// deterministic, name-sorted order, the concatenated text of its subtree,
/// and how many elements are nested beneath it.  In the flattened list an element's nested elements follow
/// it directly, so index `i` owns indices `i + 1 .. i + 1 + descendant_elems`.
pub struct Element {
    pub tag: String,
    pub attrs: Vec<(String, String)>,
    pub text: String,
    pub descendant_elems: usize,
}

pub struct ElementView {
    pub tag: Seq<char>,
    pub attrs: Seq<(Seq<char>, Seq<char>)>,
    pub text: Seq<char>,
    pub descendant_elems: int,
}

impl View for Element {
    type V = ElementView;

    open spec fn view(&self) -> ElementView {
        ElementView {
            tag: self.tag@,
            attrs: self.attrs.deep_view(),
            text: self.text@,
            descendant_elems: self.descendant_elems as int,
        }
    }
}

/// A whole parsed document: every element in document order, and the
/// document's concatenated text.
pub struct Document {
    pub elements: Vec<Element>,
    pub text: String,
}

pub struct DocumentView {
    pub elements: Seq<ElementView>,
    pub text: Seq<char>,
}

impl View for Document {
    type V = DocumentView;

    open spec fn view(&self) -> DocumentView {
        DocumentView {
            elements: self.elements@.map_values(|e: Element| e@),
            text: self.text@,
        }
    }
}

/// The document model that lenient parsing gives to a markup string.
/// Parsing is deterministic: one markup string has one model.
pub uninterp spec fn doc_of(markup: Seq<char>) -> DocumentView;

/// Relies on scraper's Html::parse_document: a browser-grade lenient parse
/// that never fails, and a pre-order traversal of the element tree.  Each
/// element is carried over with its tag, attributes, subtree text, and
/// nested element count; the document text is the root's subtree text.
#[verifier::external_body]
pub(crate) fn parse_markup(markup: &str) -> (d: Document)
    ensures
        d@ == doc_of(markup@),
{
    let html = scraper::Html::parse_document(markup);
    let root = html.root_element();
    let elements = root
        .descendants()
        .filter_map(scraper::ElementRef::wrap)
        .map(|e| Element {
            tag: e.value().name().to_string(),
            attrs: e.value().attrs().map(|(k, v)| (k.to_string(), v.to_string())).collect(),
            text: e.text().collect::<String>(),
            descendant_elems: e.descendants().skip(1).filter_map(scraper::ElementRef::wrap).count(),
        })
        .collect();
    Document { elements, text: root.text().collect::<String>() }
}

/// The value of the first attribute named `key`, if any.
pub open spec fn attr_of(attrs: Seq<(Seq<char>, Seq<char>)>, key: Seq<char>) -> Option<Seq<char>>
    decreases attrs.len(),
{
    if attrs.len() == 0 {
        None
    } else if attrs[0].0 == key {
        Some(attrs[0].1)
    } else {
        attr_of(attrs.drop_first(), key)
    }
}

impl Element {
    /// Looks up an attribute by name.
    pub fn attr(&self, key: &String) -> (r: Option<String>)
        ensures
            r.deep_view() == attr_of(self@.attrs, key@),
    {
        let n = self.attrs.len();
        let mut i: usize = 0;
        assert(self@.attrs.skip(0) =~= self@.attrs);
        while i < n
            invariant
                n == self.attrs@.len(),
                i <= n,
                self@.attrs.len() == n,
                attr_of(self@.attrs, key@) == attr_of(self@.attrs.skip(i as int), key@),
            decreases n - i,
        {
            assert(self@.attrs[i as int] == (self.attrs@[i as int].0@, self.attrs@[i as int].1@));
            assert(self@.attrs.skip(i as int)[0] == self@.attrs[i as int]);
            if self.attrs[i].0 == *key {
                return Some(self.attrs[i].1.clone());
            }
            assert(self@.attrs.skip(i as int).drop_first() =~= self@.attrs.skip(i as int + 1));
            i = i + 1;
        }
        assert(self@.attrs.skip(n as int).len() == 0);
        None
    }
}

} // verus!
