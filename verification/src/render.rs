//! Rendering documents to pages.
//!
//! A document is the full text of a markdown file. Its page holds the
//! hypertext that the text converts to, under a file name made of the text
//! itself followed by `.html`. The name is taken from what the document says,
//! not from where it was found: two documents with the same text are one page.

use vstd::prelude::*;
use crate::text::{joined, texts};

verus! {

/// The hypertext that `markdown::to_html` makes of a markdown text: the
/// CommonMark rendering with the crate's default options. The conversion is
/// the outside crate's work; this name stands for its result, which depends
/// on the text alone.
pub uninterp spec fn markdown_html(markdown: Seq<char>) -> Seq<char>;

/// Calls `markdown::to_html`. Trusted: that the call returns, for every text,
/// and that its result is the same for the same text. The outside function
/// parses with its default options, under which no markdown is an error.
#[verifier::external_body]
fn to_html(markdown: &str) -> (html: String)
    ensures
        html@ == markdown_html(markdown@),
{
    markdown::to_html(markdown)
}

/// What follows a document's text in the file name of its page.
pub open spec fn page_suffix() -> Seq<char> {
    ".html"@
}

/// A rendered page, ready to be written.
#[derive(Debug, PartialEq, Eq)]
pub struct Page {
    /// The name of the page's file, to be joined to the destination directory.
    pub file_name: String,
    /// The content of the page's file.
    pub html: String,
}

/// The mathematical value of a [`Page`].
pub struct PageView {
    pub file_name: Seq<char>,
    pub html: Seq<char>,
}

impl View for Page {
    type V = PageView;

    open spec fn view(&self) -> PageView {
        PageView { file_name: self.file_name@, html: self.html@ }
    }
}

/// The values of a run of pages, one for one.
pub open spec fn page_views(pages: Seq<Page>) -> Seq<PageView> {
    Seq::new(pages.len(), |i: int| pages[i]@)
}

/// The page of a document whose hypertext is `html`.
pub open spec fn page_of(document: Seq<char>, html: Seq<char>) -> PageView {
    PageView { file_name: document + page_suffix(), html }
}

/// The page that a document is rendered to.
pub open spec fn rendered(document: Seq<char>) -> PageView {
    page_of(document, markdown_html(document))
}

/// The pages that a run of documents is rendered to, one for one.
pub open spec fn rendered_all(documents: Seq<Seq<char>>) -> Seq<PageView> {
    Seq::new(documents.len(), |i: int| rendered(documents[i]))
}

impl Page {
    /// Makes the page of a document from the document's text and the
    /// hypertext it was converted to.
    pub fn new(document: &str, html: String) -> (page: Page)
        ensures
            page@ == page_of(document@, html@),
    {
        Page { file_name: joined(document, ".html"), html }
    }
}

/// Renders one document.
pub fn render(document: &str) -> (page: Page)
    ensures
        page@ == rendered(document@),
{
    let html = to_html(document);
    Page::new(document, html)
}

/// Renders every document, keeping their order.
pub fn render_all(documents: &Vec<String>) -> (pages: Vec<Page>)
    ensures
        page_views(pages@) == rendered_all(texts(documents@)),
        pages.len() == documents.len(),
        forall|i: int| 0 <= i < documents.len() ==> (#[trigger] pages[i])@ == rendered(documents[i]@),
{
    let mut pages: Vec<Page> = Vec::new();
    let mut done: usize = 0;
    while done < documents.len()
        invariant
            done <= documents.len(),
            pages.len() == done,
            forall|i: int| 0 <= i < done ==> pages[i]@ == rendered(#[trigger] documents[i]@),
        decreases documents.len() - done,
    {
        let page = render(documents[done].as_str());
        pages.push(page);
        done = done + 1;
    }
    pages
}

} // verus!
