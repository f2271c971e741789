//! Passages, the pages they are taken from, and the records that are stored.

use vstd::prelude::*;

verus! {

/// A unit of text to index, under the reference that its submitter chose.
#[derive(Debug)]
pub struct Paragraph {
    pub reference: String,
    pub text: String,
}

/// What a [`Paragraph`] holds.
pub struct ParagraphView {
    pub reference: Seq<char>,
    pub text: Seq<char>,
}

impl DeepView for Paragraph {
    type V = ParagraphView;

    open spec fn deep_view(&self) -> ParagraphView {
        ParagraphView { reference: self.reference@, text: self.text@ }
    }
}

impl View for Paragraph {
    type V = ParagraphView;

    open spec fn view(&self) -> ParagraphView {
        self.deep_view()
    }
}

impl Clone for Paragraph {
    fn clone(&self) -> (copy: Paragraph)
        ensures
            copy@ == self@,
    {
        Paragraph { reference: self.reference.clone(), text: self.text.clone() }
    }
}

/// A stored passage: its reference, its text as submitted, and the embedding
/// of its summary, one binary32 pattern for each dimension.
#[derive(Debug)]
pub struct ParagraphRecord {
    pub embedding: Vec<u32>,
    pub reference: String,
    pub text: String,
}

/// What a [`ParagraphRecord`] holds.
pub struct ParagraphRecordView {
    pub embedding: Seq<u32>,
    pub reference: Seq<char>,
    pub text: Seq<char>,
}

impl ParagraphRecordView {
    /// The passage that the record stores.
    pub open spec fn paragraph(self) -> ParagraphView {
        ParagraphView { reference: self.reference, text: self.text }
    }
}

impl DeepView for ParagraphRecord {
    type V = ParagraphRecordView;

    open spec fn deep_view(&self) -> ParagraphRecordView {
        ParagraphRecordView {
            embedding: self.embedding@,
            reference: self.reference@,
            text: self.text@,
        }
    }
}

impl View for ParagraphRecord {
    type V = ParagraphRecordView;

    open spec fn view(&self) -> ParagraphRecordView {
        self.deep_view()
    }
}

impl ParagraphRecord {
    /// The passage that the record stores, without its embedding.
    pub fn paragraph(&self) -> (paragraph: Paragraph)
        ensures
            paragraph@ == self@.paragraph(),
    {
        Paragraph { reference: self.reference.clone(), text: self.text.clone() }
    }
}

/// How a page was reached by the crawler that fetched it.
#[derive(Debug)]
pub struct Crawl {
    pub loaded_url: String,
    pub loaded_time: String,
    pub referrer_url: String,
    pub depth: i32,
}

/// What a page says about itself.
#[derive(Debug)]
pub struct Metadata {
    pub canonical_url: String,
    pub title: String,
    pub description: String,
    pub author: Option<String>,
    pub keywords: String,
    pub language_code: String,
}

/// A crawled page, as it is submitted for indexing.
#[derive(Debug)]
pub struct Page {
    pub url: String,
    pub crawl: Crawl,
    pub metadata: Metadata,
    pub screenshot_url: Option<String>,
    pub text: String,
}

impl Page {
    /// The passage that a page with this address and text is indexed as.
    pub open spec fn paragraph_of(url: Seq<char>, text: Seq<char>) -> ParagraphView {
        ParagraphView { reference: url, text }
    }

    /// The passage to index for this page: its address as the reference, and
    /// its text. Everything else on the page is left behind.
    pub fn to_paragraph(&self) -> (paragraph: Paragraph)
        ensures
            paragraph@ == Page::paragraph_of(self.url@, self.text@),
    {
        Paragraph { reference: self.url.clone(), text: self.text.clone() }
    }
}

/// The passages of a list of pages, in the order of the pages.
pub open spec fn paragraphs_of(pages: Seq<Page>) -> Seq<ParagraphView> {
    Seq::new(pages.len(), |i: int| Page::paragraph_of(pages[i].url@, pages[i].text@))
}

/// Projects every page of a submission to the passage to index for it.
pub fn to_paragraphs(pages: &Vec<Page>) -> (paragraphs: Vec<Paragraph>)
    ensures
        paragraphs.deep_view() == paragraphs_of(pages@),
{
    let mut paragraphs: Vec<Paragraph> = Vec::new();
    let mut i: usize = 0;
    while i < pages.len()
        invariant
            i <= pages.len(),
            paragraphs.len() == i,
            forall|j: int|
                0 <= j < i ==> (#[trigger] paragraphs[j])@ == Page::paragraph_of(
                    pages[j].url@,
                    pages[j].text@,
                ),
        decreases pages.len() - i,
    {
        let paragraph = pages[i].to_paragraph();
        paragraphs.push(paragraph);
        i += 1;
    }
    assert(paragraphs.deep_view() =~= paragraphs_of(pages@));
    paragraphs
}

} // verus!
