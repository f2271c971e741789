use embeddings::gateway::EmbeddingProviderError;
use embeddings::passage::ParagraphRecord;
use embeddings::ranking::SimilarityResultSet;
use embeddings::search::{search, SearchError, SearchStep};
use embeddings::similarity::Similarity;

struct Trace {
    batches: Vec<Vec<String>>,
    loads: usize,
    compared: Vec<(Vec<u32>, Vec<u32>)>,
}

fn bits(values: &[f32]) -> Vec<u32> {
    values.iter().map(|v| v.to_bits()).collect()
}

fn floats(bits: &[u32]) -> Vec<f32> {
    bits.iter().map(|b| f32::from_bits(*b)).collect()
}

fn cosine(a: &[u32], b: &[u32]) -> u32 {
    let a = floats(a);
    let b = floats(b);
    let dot: f32 = a.iter().zip(b.iter()).map(|(x, y)| x * y).sum();
    let norm_a = a.iter().map(|x| x * x).sum::<f32>().sqrt();
    let norm_b = b.iter().map(|y| y * y).sum::<f32>().sqrt();
    (dot / (norm_a * norm_b)).to_bits()
}

fn record(reference: &str, text: &str, embedding: &[f32]) -> ParagraphRecord {
    ParagraphRecord { embedding: bits(embedding), reference: reference.to_string(), text: text.to_string() }
}

fn run(
    sentence: &str,
    mut embed: impl FnMut(&[String]) -> Option<Vec<Vec<u32>>>,
    mut load: impl FnMut() -> Option<Vec<ParagraphRecord>>,
    mut compare: impl FnMut(&[u32], &[u32]) -> u32,
) -> (Result<SimilarityResultSet, SearchError>, Trace) {
    let mut trace = Trace { batches: Vec::new(), loads: 0, compared: Vec::new() };
    let mut step = search(sentence.to_string());
    loop {
        step = match step {
            SearchStep::Embed(state) => {
                let texts = state.texts().clone();
                let response = embed(&texts);
                trace.batches.push(texts);
                state.resume(response)
            }
            SearchStep::Load(state) => {
                trace.loads += 1;
                state.resume(load())
            }
            SearchStep::Compare(state) => {
                let similarity = compare(state.stored(), state.query());
                trace.compared.push((state.stored().clone(), state.query().clone()));
                state.resume(Similarity::from_bits(similarity))
            }
            SearchStep::Done(outcome) => return (outcome, trace),
        };
    }
}

fn references(answer: &SimilarityResultSet) -> Vec<&str> {
    answer.results.iter().map(|r| r.paragraph.reference.as_str()).collect()
}

fn similarities(answer: &SimilarityResultSet) -> Vec<f32> {
    answer.results.iter().map(|r| f32::from_bits(r.similarity.to_bits())).collect()
}

#[test]
fn search_embeds_the_sentence_alone() {
    let (_, trace) = run("feline pets", |_| Some(vec![bits(&[1.0, 0.0])]), || Some(Vec::new()), cosine);
    assert_eq!(trace.batches, vec![vec!["feline pets".to_string()]]);
}

#[test]
fn search_of_an_empty_store_gives_no_results() {
    let (outcome, trace) = run("anything", |_| Some(vec![bits(&[0.5, 0.5])]), || Some(Vec::new()), cosine);
    let answer = outcome.unwrap();
    assert_eq!(answer.sentence, "anything");
    assert!(answer.results.is_empty());
    assert_eq!(trace.loads, 1);
    assert!(trace.compared.is_empty());
}

#[test]
fn unavailable_embedding_service_ends_the_search() {
    let (outcome, trace) = run("q", |_| None, || Some(Vec::new()), cosine);
    assert_eq!(outcome.unwrap_err(), SearchError::EmbeddingProvider(EmbeddingProviderError::Unavailable));
    assert_eq!(trace.loads, 0);
}

#[test]
fn no_vector_for_the_sentence_ends_the_search() {
    let (outcome, trace) = run("q", |_| Some(Vec::new()), || Some(Vec::new()), cosine);
    assert_eq!(outcome.unwrap_err(), SearchError::EmbeddingProvider(EmbeddingProviderError::Malformed));
    assert_eq!(trace.loads, 0);
}

#[test]
fn two_vectors_for_the_sentence_end_the_search() {
    let (outcome, _) = run("q", |_| Some(vec![vec![1], vec![2]]), || Some(Vec::new()), cosine);
    assert_eq!(outcome.unwrap_err(), SearchError::EmbeddingProvider(EmbeddingProviderError::Malformed));
}

#[test]
fn empty_vector_for_the_sentence_ends_the_search() {
    let (outcome, _) = run("q", |_| Some(vec![Vec::new()]), || Some(Vec::new()), cosine);
    assert_eq!(outcome.unwrap_err(), SearchError::EmbeddingProvider(EmbeddingProviderError::Malformed));
}

#[test]
fn unreadable_store_ends_the_search() {
    let (outcome, trace) = run("q", |_| Some(vec![bits(&[1.0])]), || None, cosine);
    assert_eq!(outcome.unwrap_err(), SearchError::StoreRead);
    assert_eq!(trace.loads, 1);
    assert!(trace.compared.is_empty());
}

#[test]
fn stored_embedding_of_another_length_ends_the_search_before_any_comparison() {
    let (outcome, trace) = run(
        "q",
        |_| Some(vec![bits(&[1.0, 0.0])]),
        || Some(vec![record("a", "ta", &[1.0, 0.0]), record("b", "tb", &[1.0, 0.0, 0.0])]),
        cosine,
    );
    assert_eq!(outcome.unwrap_err(), SearchError::DimensionMismatch);
    assert!(trace.compared.is_empty());
}

#[test]
fn stored_embedding_that_is_empty_ends_the_search() {
    let (outcome, _) = run(
        "q",
        |_| Some(vec![bits(&[1.0])]),
        || Some(vec![record("a", "ta", &[])]),
        cosine,
    );
    assert_eq!(outcome.unwrap_err(), SearchError::DimensionMismatch);
}

#[test]
fn search_compares_every_record_with_the_sentence_in_store_order() {
    let query = bits(&[1.0, 2.0]);
    let (_, trace) = run(
        "q",
        |_| Some(vec![bits(&[1.0, 2.0])]),
        || Some(vec![record("a", "ta", &[3.0, 4.0]), record("b", "tb", &[5.0, 6.0]), record("c", "tc", &[7.0, 8.0])]),
        cosine,
    );
    assert_eq!(
        trace.compared,
        vec![
            (bits(&[3.0, 4.0]), query.clone()),
            (bits(&[5.0, 6.0]), query.clone()),
            (bits(&[7.0, 8.0]), query.clone()),
        ]
    );
}

#[test]
fn search_ranks_the_most_similar_passage_first() {
    let (outcome, _) = run(
        "q",
        |_| Some(vec![bits(&[1.0, 0.0])]),
        || Some(vec![
            record("orthogonal", "t1", &[0.0, 1.0]),
            record("same", "t2", &[2.0, 0.0]),
            record("opposite", "t3", &[-1.0, 0.0]),
            record("near", "t4", &[1.0, 1.0]),
        ]),
        cosine,
    );
    let answer = outcome.unwrap();
    assert_eq!(answer.sentence, "q");
    assert_eq!(references(&answer), vec!["same", "near", "orthogonal", "opposite"]);
    let found = similarities(&answer);
    assert_eq!(found[0], 1.0);
    assert!((found[1] - 0.70710677).abs() < 1e-6);
    assert_eq!(found[2], 0.0);
    assert_eq!(found[3], -1.0);
    assert_eq!(answer.results[1].paragraph.text, "t4");
}

#[test]
fn search_keeps_equally_similar_passages_in_store_order() {
    let (outcome, _) = run(
        "q",
        |_| Some(vec![bits(&[1.0, 0.0])]),
        || Some(vec![
            record("first", "t", &[0.0, 1.0]),
            record("second", "t", &[0.0, 2.0]),
            record("best", "t", &[1.0, 0.0]),
            record("third", "t", &[0.0, 3.0]),
        ]),
        cosine,
    );
    assert_eq!(references(&outcome.unwrap()), vec!["best", "first", "second", "third"]);
}

#[test]
fn search_puts_passages_without_a_similarity_last() {
    let (outcome, _) = run(
        "q",
        |_| Some(vec![bits(&[1.0, 0.0])]),
        || Some(vec![
            record("zero", "t", &[0.0, 0.0]),
            record("opposite", "t", &[-1.0, 0.0]),
            record("same", "t", &[1.0, 0.0]),
        ]),
        cosine,
    );
    let answer = outcome.unwrap();
    assert_eq!(references(&answer), vec!["same", "opposite", "zero"]);
    assert!(similarities(&answer)[2].is_nan());
}

#[test]
fn search_results_never_rise_in_similarity() {
    let mut seed: u32 = 7;
    let mut stored = Vec::new();
    for i in 0..120 {
        let mut embedding = Vec::new();
        for _ in 0..4 {
            seed = seed.wrapping_mul(1664525).wrapping_add(1013904223);
            embedding.push(((seed >> 28) as f32) - 8.0);
        }
        stored.push(record(&format!("r{}", i), "t", &embedding));
    }
    let mut handed = Some(stored);
    let (outcome, trace) = run("q", |_| Some(vec![bits(&[1.0, -2.0, 0.5, 3.0])]), || handed.take(), cosine);
    let answer = outcome.unwrap();
    assert_eq!(answer.results.len(), 120);
    assert_eq!(trace.compared.len(), 120);
    let found = similarities(&answer);
    let mut seen_nan = false;
    for pair in found.windows(2) {
        if pair[0].is_nan() {
            seen_nan = true;
        }
        if seen_nan {
            assert!(pair[1].is_nan());
        } else if !pair[1].is_nan() {
            assert!(pair[0] >= pair[1]);
        }
    }
}

#[test]
fn search_holds_every_stored_passage_once() {
    let (outcome, _) = run(
        "q",
        |_| Some(vec![bits(&[1.0])]),
        || Some(vec![record("a", "ta", &[1.0]), record("b", "tb", &[-1.0]), record("a", "ta2", &[2.0])]),
        cosine,
    );
    let answer = outcome.unwrap();
    let mut got: Vec<(&str, &str)> =
        answer.results.iter().map(|r| (r.paragraph.reference.as_str(), r.paragraph.text.as_str())).collect();
    got.sort();
    assert_eq!(got, vec![("a", "ta"), ("a", "ta2"), ("b", "tb")]);
}

#[test]
fn search_takes_the_similarity_as_it_is_given() {
    let (outcome, _) = run(
        "q",
        |_| Some(vec![vec![1, 2]]),
        || Some(vec![
            ParagraphRecord { embedding: vec![3, 4], reference: "a".to_string(), text: "t".to_string() },
            ParagraphRecord { embedding: vec![5, 6], reference: "b".to_string(), text: "t".to_string() },
        ]),
        |stored, _| if stored == [3, 4] { 0.25f32.to_bits() } else { 0.75f32.to_bits() },
    );
    let answer = outcome.unwrap();
    assert_eq!(references(&answer), vec!["b", "a"]);
    assert_eq!(similarities(&answer), vec![0.75, 0.25]);
}
