use embeddings::gateway::EmbeddingProviderError;
use embeddings::ingest::{ingest, IngestStep};
use embeddings::passage::Paragraph;
use embeddings::prompt::{PROMPT_CLOSING, PROMPT_OPENING};
use embeddings::ranking::SimilarityResultSet;
use embeddings::search::{search, SearchError, SearchStep};
use embeddings::similarity::Similarity;
use embeddings::store::{
    decode_records, delete_by_reference, insert_record, list_all, removed_rows, select_all,
    was_deleted, EmbeddingCell, Parameter, ParagraphRow, RecordRow, Statement,
    DELETE_BY_REFERENCE, INSERT_RECORD, REMOVED_ROWS, SELECT_ALL,
};

struct StoredRow {
    reference: String,
    text: String,
    embedding: Vec<u32>,
}

struct Store {
    rows: Vec<StoredRow>,
    changes: u64,
}

enum Answer<'a> {
    Rows(Vec<&'a StoredRow>),
    Count(u64),
}

impl Store {
    fn new() -> Store {
        Store { rows: Vec::new(), changes: 0 }
    }

    fn select(&mut self) -> Vec<&StoredRow> {
        match self.execute(&select_all()) {
            Answer::Rows(rows) => rows,
            Answer::Count(_) => panic!("a selection gives rows"),
        }
    }

    fn execute(&mut self, statement: &Statement) -> Answer<'_> {
        if statement.sql == INSERT_RECORD {
            match (&statement.parameters[0], &statement.parameters[1], &statement.parameters[2]) {
                (Parameter::Text(reference), Parameter::Text(text), Parameter::Embedding(embedding)) => {
                    self.rows.push(StoredRow {
                        reference: reference.clone(),
                        text: text.clone(),
                        embedding: embedding.clone(),
                    });
                    self.changes = 1;
                }
                _ => panic!("an insertion binds two texts and an embedding"),
            }
            Answer::Rows(Vec::new())
        } else if statement.sql == DELETE_BY_REFERENCE {
            match &statement.parameters[0] {
                Parameter::Text(reference) => {
                    let before = self.rows.len();
                    self.rows.retain(|row| &row.reference != reference);
                    self.changes = (before - self.rows.len()) as u64;
                }
                _ => panic!("a deletion binds a text"),
            }
            Answer::Rows(Vec::new())
        } else if statement.sql == SELECT_ALL {
            assert!(statement.parameters.is_empty());
            Answer::Rows(self.rows.iter().collect())
        } else if statement.sql == REMOVED_ROWS {
            assert!(statement.parameters.is_empty());
            Answer::Count(self.changes)
        } else {
            panic!("the store knows no such statement");
        }
    }
}

fn words() -> Vec<&'static str> {
    vec!["cats", "pets", "dogs", "loyal", "companions", "great", "hello", "world"]
}

fn embedding_of(text: &str) -> Vec<u32> {
    let text = text.replace("feline", "cats").replace("canine", "dogs");
    words()
        .iter()
        .map(|word| (text.split_whitespace().filter(|w| w == word).count() as f32 + 0.01).to_bits())
        .collect()
}

fn cosine(a: &[u32], b: &[u32]) -> u32 {
    let a: Vec<f32> = a.iter().map(|x| f32::from_bits(*x)).collect();
    let b: Vec<f32> = b.iter().map(|x| f32::from_bits(*x)).collect();
    let dot: f32 = a.iter().zip(b.iter()).map(|(x, y)| x * y).sum();
    let norm_a = a.iter().map(|x| x * x).sum::<f32>().sqrt();
    let norm_b = b.iter().map(|y| y * y).sum::<f32>().sqrt();
    (dot / (norm_a * norm_b)).to_bits()
}

fn summarize(prompt: &str) -> Option<String> {
    let text = &prompt[PROMPT_OPENING.len()..prompt.len() - PROMPT_CLOSING.len()];
    Some(text.to_string())
}

fn put(store: &mut Store, passages: &[(&str, &str)]) -> Result<usize, EmbeddingProviderError> {
    let passages = passages
        .iter()
        .map(|(reference, text)| Paragraph { reference: reference.to_string(), text: text.to_string() })
        .collect();
    let mut step = ingest(passages);
    loop {
        step = match step {
            IngestStep::Summarize(state) => {
                let summary = summarize(&state.prompt());
                state.resume(summary)
            }
            IngestStep::Embed(state) => {
                let vectors = state.texts().iter().map(|text| embedding_of(text)).collect();
                state.resume(Some(vectors))
            }
            IngestStep::Insert(state) => {
                store.execute(&insert_record(state.record()));
                state.resume(true)
            }
            IngestStep::Done(outcome) => return outcome,
        };
    }
}

fn listed(store: &mut Store) -> Vec<(String, String)> {
    let rows = store
        .select()
        .iter()
        .map(|row| ParagraphRow {
            reference: Some(row.reference.clone()),
            text: Some(row.text.clone()),
        })
        .collect();
    let listing = list_all(rows);
    assert!(listing.malformed.is_empty());
    listing.paragraphs.into_iter().map(|p| (p.reference, p.text)).collect()
}

fn delete(store: &mut Store, reference: &str) -> bool {
    store.execute(&delete_by_reference(reference));
    match store.execute(&removed_rows()) {
        Answer::Count(removed) => was_deleted(removed),
        Answer::Rows(_) => panic!("a count gives a number"),
    }
}

fn find(store: &mut Store, sentence: &str) -> Result<SimilarityResultSet, SearchError> {
    let mut step = search(sentence.to_string());
    loop {
        step = match step {
            SearchStep::Embed(state) => {
                let vectors = state.texts().iter().map(|text| embedding_of(text)).collect();
                state.resume(Some(vectors))
            }
            SearchStep::Load(state) => {
                let rows = store
                    .select()
                    .iter()
                    .map(|row| RecordRow {
                        embedding: EmbeddingCell::Vector(row.embedding.clone()),
                        paragraph: ParagraphRow {
                            reference: Some(row.reference.clone()),
                            text: Some(row.text.clone()),
                        },
                    })
                    .collect();
                state.resume(Some(decode_records(rows).records))
            }
            SearchStep::Compare(state) => {
                let similarity = cosine(state.stored(), state.query());
                state.resume(Similarity::from_bits(similarity))
            }
            SearchStep::Done(outcome) => return outcome,
        };
    }
}

fn pair(reference: &str, text: &str) -> (String, String) {
    (reference.to_string(), text.to_string())
}

#[test]
fn listing_twice_gives_the_same() {
    let mut store = Store::new();
    put(&mut store, &[("a", "cats are great pets"), ("b", "dogs are loyal companions")]).unwrap();
    let first = listed(&mut store);
    let second = listed(&mut store);
    assert_eq!(first, second);
    assert_eq!(first.len(), 2);
}

#[test]
fn ingested_passage_is_listed_with_its_text_unaltered() {
    let mut store = Store::new();
    assert_eq!(put(&mut store, &[("r1", "hello world")]), Ok(1));
    assert_eq!(listed(&mut store), vec![pair("r1", "hello world")]);
}

#[test]
fn ingested_passage_is_stored_with_the_embedding_of_its_summary() {
    let mut store = Store::new();
    put(&mut store, &[("r1", "hello world")]).unwrap();
    assert_eq!(store.rows.len(), 1);
    assert_eq!(store.rows[0].embedding, embedding_of("hello world"));
}

#[test]
fn deleted_reference_is_no_longer_listed() {
    let mut store = Store::new();
    put(&mut store, &[("r1", "hello world"), ("r2", "cats are great pets")]).unwrap();
    assert!(delete(&mut store, "r1"));
    assert_eq!(listed(&mut store), vec![pair("r2", "cats are great pets")]);
}

#[test]
fn repeated_deletion_deletes_nothing_and_is_no_failure() {
    let mut store = Store::new();
    put(&mut store, &[("r1", "hello world")]).unwrap();
    assert!(delete(&mut store, "r1"));
    assert!(!delete(&mut store, "r1"));
    assert!(listed(&mut store).is_empty());
}

#[test]
fn deletion_of_an_unknown_reference_deletes_nothing() {
    let mut store = Store::new();
    put(&mut store, &[("r1", "hello world")]).unwrap();
    assert!(!delete(&mut store, "r2"));
    assert_eq!(listed(&mut store), vec![pair("r1", "hello world")]);
}

#[test]
fn deletion_removes_every_row_of_a_reference_stored_twice() {
    let mut store = Store::new();
    put(&mut store, &[("r1", "hello world")]).unwrap();
    put(&mut store, &[("r1", "hello again"), ("r2", "dogs")]).unwrap();
    assert_eq!(
        listed(&mut store),
        vec![pair("r1", "hello world"), pair("r1", "hello again"), pair("r2", "dogs")]
    );
    assert!(delete(&mut store, "r1"));
    assert_eq!(listed(&mut store), vec![pair("r2", "dogs")]);
}

#[test]
fn search_finds_the_passage_about_cats_first() {
    let mut store = Store::new();
    assert_eq!(
        put(&mut store, &[("a", "cats are great pets"), ("b", "dogs are loyal companions")]),
        Ok(2)
    );
    let answer = find(&mut store, "feline pets").unwrap();
    assert_eq!(answer.sentence, "feline pets");
    assert_eq!(answer.results.len(), 2);
    assert_eq!(answer.results[0].paragraph.reference, "a");
    assert_eq!(answer.results[0].paragraph.text, "cats are great pets");
    assert_eq!(answer.results[1].paragraph.reference, "b");
    let first = f32::from_bits(answer.results[0].similarity.to_bits());
    let second = f32::from_bits(answer.results[1].similarity.to_bits());
    assert!(first > second);
    assert!(first <= 1.0 && second >= -1.0);
}

#[test]
fn search_finds_the_passage_about_dogs_first() {
    let mut store = Store::new();
    put(&mut store, &[("a", "cats are great pets"), ("b", "dogs are loyal companions")]).unwrap();
    let answer = find(&mut store, "loyal canine").unwrap();
    assert_eq!(answer.results[0].paragraph.reference, "b");
    assert_eq!(answer.results[1].paragraph.reference, "a");
}

#[test]
fn search_of_a_store_without_records_gives_no_results() {
    let mut store = Store::new();
    let answer = find(&mut store, "anything").unwrap();
    assert_eq!(answer.sentence, "anything");
    assert!(answer.results.is_empty());
}

#[test]
fn search_no_longer_finds_a_deleted_passage() {
    let mut store = Store::new();
    put(&mut store, &[("a", "cats are great pets"), ("b", "dogs are loyal companions")]).unwrap();
    assert!(delete(&mut store, "a"));
    let answer = find(&mut store, "feline pets").unwrap();
    assert_eq!(answer.results.len(), 1);
    assert_eq!(answer.results[0].paragraph.reference, "b");
}

#[test]
fn search_of_the_text_itself_gives_a_similarity_of_about_one() {
    let mut store = Store::new();
    put(&mut store, &[("a", "cats are great pets")]).unwrap();
    let answer = find(&mut store, "cats are great pets").unwrap();
    let similarity = f32::from_bits(answer.results[0].similarity.to_bits());
    assert!((similarity - 1.0).abs() < 1e-6);
}
