use embeddings::passage::{to_paragraphs, Crawl, Metadata, Page, Paragraph, ParagraphRecord};

fn page(url: &str, text: &str) -> Page {
    Page {
        url: url.to_string(),
        crawl: Crawl {
            loaded_url: format!("{}?loaded", url),
            loaded_time: "2023-09-01T10:00:00Z".to_string(),
            referrer_url: "https://example.com/".to_string(),
            depth: 2,
        },
        metadata: Metadata {
            canonical_url: format!("{}#canonical", url),
            title: "A title".to_string(),
            description: "A description".to_string(),
            author: None,
            keywords: "one,two".to_string(),
            language_code: "en".to_string(),
        },
        screenshot_url: Some("https://example.com/shot.png".to_string()),
        text: text.to_string(),
    }
}

#[test]
fn to_paragraph_takes_url_and_text() {
    let paragraph = page("https://example.com/a", "cats are great pets").to_paragraph();
    assert_eq!(paragraph.reference, "https://example.com/a");
    assert_eq!(paragraph.text, "cats are great pets");
}

#[test]
fn to_paragraph_leaves_the_page_usable() {
    let page = page("https://example.com/b", "dogs are loyal companions");
    let first = page.to_paragraph();
    let second = page.to_paragraph();
    assert_eq!(first.reference, second.reference);
    assert_eq!(first.text, second.text);
    assert_eq!(page.url, "https://example.com/b");
}

#[test]
fn to_paragraphs_keeps_the_order_of_the_pages() {
    let pages = vec![page("u1", "t1"), page("u2", "t2"), page("u3", "t3")];
    let paragraphs = to_paragraphs(&pages);
    assert_eq!(paragraphs.len(), 3);
    for (i, paragraph) in paragraphs.iter().enumerate() {
        assert_eq!(paragraph.reference, format!("u{}", i + 1));
        assert_eq!(paragraph.text, format!("t{}", i + 1));
    }
}

#[test]
fn to_paragraphs_of_no_pages_is_empty() {
    assert!(to_paragraphs(&Vec::new()).is_empty());
}

#[test]
fn clone_of_a_paragraph_holds_the_same() {
    let paragraph = Paragraph { reference: "r1".to_string(), text: "hello world".to_string() };
    let copy = paragraph.clone();
    assert_eq!(copy.reference, "r1");
    assert_eq!(copy.text, "hello world");
    assert_eq!(paragraph.reference, "r1");
}

#[test]
fn record_gives_its_paragraph_without_the_embedding() {
    let record = ParagraphRecord {
        embedding: vec![1, 2, 3],
        reference: "r1".to_string(),
        text: "hello world".to_string(),
    };
    let paragraph = record.paragraph();
    assert_eq!(paragraph.reference, "r1");
    assert_eq!(paragraph.text, "hello world");
    assert_eq!(record.embedding, vec![1, 2, 3]);
}
