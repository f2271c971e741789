//! Search: from a query sentence to the stored passages, ranked by how
//! similar they are to it.
//!
//! The sentence is embedded, the stored records are loaded, the embedding of
//! each is compared with that of the sentence, and the passages are ranked by
//! the similarities. The engine does none of the asking and none of the
//! arithmetic itself. It is a sequence of steps: each step names one request
//! to make of the embedding service, the record store or the comparison of
//! two vectors, and is resumed with the answer.

use crate::gateway::{validate_embeddings, validated, EmbeddingProviderError};
use crate::passage::{Paragraph, ParagraphRecord, ParagraphRecordView};
use crate::ranking::{
    is_ranked,
    lemma_ranked_is_permutation,
    lemma_ranked_is_ranked,
    rank,
    ranked,
    SimilarityResult,
    SimilarityResultSet,
    SimilarityResultSetView,
    SimilarityResultView,
};
use crate::similarity::Similarity;
use vstd::prelude::*;

verus! {

/// Why a search gave no answer.
#[derive(Clone, Copy, Debug, PartialEq, Eq)]
pub enum SearchError {
    /// The embedding service gave no embedding of the sentence.
    EmbeddingProvider(EmbeddingProviderError),
    /// The stored records could not be read.
    StoreRead,
    /// A stored embedding has another length than that of the sentence.
    DimensionMismatch,
}

/// Whether each of the records can be compared with `query`: its embedding
/// has the length of `query`.
pub open spec fn comparable(records: Seq<ParagraphRecordView>, query: Seq<u32>) -> bool {
    forall|i: int| 0 <= i < records.len() ==> (#[trigger] records[i]).embedding.len() == query.len()
}

/// The passage of each record with the similarity at its position.
pub open spec fn scored(
    records: Seq<ParagraphRecordView>,
    similarities: Seq<Similarity>,
) -> Seq<SimilarityResultView> {
    Seq::new(
        records.len(),
        |i: int|
            SimilarityResultView {
                paragraph: records[i].paragraph(),
                similarity: similarities[i],
            },
    )
}

/// A search that waits for the embedding of its sentence.
pub struct QueryingView {
    pub sentence: Seq<char>,
}

/// A search that waits for the stored records.
pub struct LoadingView {
    pub sentence: Seq<char>,
    /// The embedding of the sentence.
    pub query: Seq<u32>,
}

/// A search that waits for the similarity of one stored record.
pub struct ScoringView {
    pub sentence: Seq<char>,
    /// The embedding of the sentence.
    pub query: Seq<u32>,
    /// The stored records, in the order of the store.
    pub records: Seq<ParagraphRecordView>,
    /// The similarities of the records before the current one.
    pub similarities: Seq<Similarity>,
}

/// What a search asks for next, or how it ended.
pub enum SearchStepView {
    Embed(QueryingView),
    Load(LoadingView),
    Compare(ScoringView),
    Done(Result<SimilarityResultSetView, SearchError>),
}

/// The first step of the search for `sentence`.
pub open spec fn search_for(sentence: Seq<char>) -> SearchStepView {
    SearchStepView::Embed(QueryingView { sentence })
}

impl QueryingView {
    /// The texts to embed: the sentence alone.
    pub open spec fn texts(self) -> Seq<Seq<char>> {
        seq![self.sentence]
    }

    /// The step after the embedding service has answered. The search goes
    /// on only with exactly one vector, and that not empty.
    pub open spec fn resume(self, response: Option<Seq<Seq<u32>>>) -> SearchStepView {
        match validated(1, response) {
            Err(error) => SearchStepView::Done(Err(SearchError::EmbeddingProvider(error))),
            Ok(vectors) => SearchStepView::Load(
                LoadingView { sentence: self.sentence, query: vectors[0] },
            ),
        }
    }
}

impl LoadingView {
    /// The embedding of the sentence is not empty.
    pub open spec fn wf(self) -> bool {
        self.query.len() >= 1
    }

    /// The step after the record store has answered, with `None` if it
    /// failed. A record that cannot be compared with the sentence ends the
    /// search before anything is compared.
    pub open spec fn resume(self, records: Option<Seq<ParagraphRecordView>>) -> SearchStepView {
        match records {
            None => SearchStepView::Done(Err(SearchError::StoreRead)),
            Some(records) => if comparable(records, self.query) {
                ScoringView {
                    sentence: self.sentence,
                    query: self.query,
                    records,
                    similarities: Seq::empty(),
                }.next()
            } else {
                SearchStepView::Done(Err(SearchError::DimensionMismatch))
            },
        }
    }
}

impl ScoringView {
    /// A similarity is awaited only while a record is left without one, and
    /// only for records that can be compared with the sentence.
    pub open spec fn wf(self) -> bool {
        &&& self.query.len() >= 1
        &&& self.similarities.len() < self.records.len()
        &&& comparable(self.records, self.query)
    }

    /// The stored embedding to compare with that of the sentence.
    pub open spec fn stored(self) -> Seq<u32> {
        self.records[self.similarities.len() as int].embedding
    }

    /// The step to take once the records before `similarities.len()` have a
    /// similarity: the next comparison, or the end, with the passages ranked.
    pub open spec fn next(self) -> SearchStepView {
        if self.similarities.len() < self.records.len() {
            SearchStepView::Compare(self)
        } else {
            SearchStepView::Done(
                Ok(
                    SimilarityResultSetView {
                        sentence: self.sentence,
                        results: ranked(scored(self.records, self.similarities)),
                    },
                ),
            )
        }
    }

    /// The step after the two embeddings have been compared.
    pub open spec fn resume(self, similarity: Similarity) -> SearchStepView {
        ScoringView {
            sentence: self.sentence,
            query: self.query,
            records: self.records,
            similarities: self.similarities.push(similarity),
        }.next()
    }
}

impl SearchStepView {
    /// The state that the step carries, if it carries one, is well formed,
    /// and the answer, if it carries one, is ranked.
    pub open spec fn wf(self) -> bool {
        match self {
            SearchStepView::Embed(_) => true,
            SearchStepView::Load(state) => state.wf(),
            SearchStepView::Compare(state) => state.wf(),
            SearchStepView::Done(Ok(answer)) => is_ranked(answer.results),
            SearchStepView::Done(Err(_)) => true,
        }
    }
}

/// Every answer of a search is ranked: along its results the similarity
/// never rises, and results whose similarity is not a number come last.
pub proof fn lemma_answers_are_ranked(state: ScoringView, similarity: Similarity)
    ensures
        state.resume(similarity) matches SearchStepView::Done(Ok(answer)) ==> is_ranked(
            answer.results,
        ),
        state.next() matches SearchStepView::Done(Ok(answer)) ==> is_ranked(answer.results),
{
    lemma_ranked_is_ranked(scored(state.records, state.similarities));
    lemma_ranked_is_ranked(scored(state.records, state.similarities.push(similarity)));
}

/// Every answer of a search holds each stored passage once, with the
/// similarity that was found for it, and repeats the sentence.
pub proof fn lemma_answers_hold_every_passage(state: ScoringView, similarity: Similarity)
    requires
        state.wf(),
    ensures
        state.resume(similarity) matches SearchStepView::Done(Ok(answer)) ==> {
            let similarities = state.similarities.push(similarity);
            &&& answer.sentence == state.sentence
            &&& answer.results.len() == state.records.len()
            &&& answer.results.to_multiset() == scored(state.records, similarities).to_multiset()
        },
{
    lemma_ranked_is_permutation(scored(state.records, state.similarities.push(similarity)));
}

/// A search of an empty store is no failure: it ends with no results.
pub proof fn lemma_empty_store_gives_no_results(state: LoadingView)
    ensures
        state.resume(Some(Seq::empty())) == SearchStepView::Done(
            Ok(SimilarityResultSetView { sentence: state.sentence, results: Seq::empty() }),
        ),
{
    let nothing = scored(Seq::<ParagraphRecordView>::empty(), Seq::<Similarity>::empty());
    assert(nothing =~= Seq::empty());
}

/// A search asks for the similarity of every stored record, in the order of
/// the store: while similarities are missing, the next step compares the
/// first record that has none.
pub proof fn lemma_compares_in_store_order(state: ScoringView, similarity: Similarity)
    requires
        state.wf(),
    ensures
        state.similarities.len() + 1 < state.records.len() ==> (state.resume(
            similarity,
        ) matches SearchStepView::Compare(next) && next.wf() && next.stored()
            == state.records[state.similarities.len() as int + 1].embedding),
        state.similarities.len() + 1 == state.records.len() ==> state.resume(
            similarity,
        ) is Done,
{
}

/// The step reached from `step` when the comparisons give `similarities`,
/// one after the other.
pub open spec fn compared_through(
    step: SearchStepView,
    similarities: Seq<Similarity>,
) -> SearchStepView
    decreases similarities.len(),
{
    if similarities.len() == 0 {
        step
    } else {
        match step {
            SearchStepView::Compare(state) => compared_through(
                state.resume(similarities[0]),
                similarities.drop_first(),
            ),
            _ => step,
        }
    }
}

/// How the search for `sentence` ends when the embedding service answers
/// with `response`, the record store with `records`, and the comparisons
/// give `similarities`.
pub open spec fn search_end(
    sentence: Seq<char>,
    response: Option<Seq<Seq<u32>>>,
    records: Option<Seq<ParagraphRecordView>>,
    similarities: Seq<Similarity>,
) -> SearchStepView {
    match search_for(sentence) {
        SearchStepView::Embed(state) => match state.resume(response) {
            SearchStepView::Load(state) => compared_through(state.resume(records), similarities),
            step => step,
        },
        step => step,
    }
}

/// Comparisons that go on from a state lead where they would lead if their
/// similarities had been part of the state from the start.
proof fn lemma_compared_from(state: ScoringView, rest: Seq<Similarity>)
    requires
        state.similarities.len() + rest.len() <= state.records.len(),
    ensures
        compared_through(state.next(), rest) == (ScoringView {
            sentence: state.sentence,
            query: state.query,
            records: state.records,
            similarities: state.similarities + rest,
        }).next(),
    decreases rest.len(),
{
    if rest.len() == 0 {
        assert(state.similarities + rest =~= state.similarities);
    } else {
        let then = ScoringView {
            sentence: state.sentence,
            query: state.query,
            records: state.records,
            similarities: state.similarities.push(rest[0]),
        };
        lemma_compared_from(then, rest.drop_first());
        assert(then.similarities + rest.drop_first() =~= state.similarities + rest);
    }
}

/// A search ends in one of four ways. Without exactly one vector, and that
/// not empty, from the embedding service, it ends with that failure. Without
/// the stored records, it ends as a failed read. With a stored embedding of
/// another length than that of the sentence, it ends as a mismatch, and
/// nothing is compared. Otherwise it ends with the sentence and the stored
/// passages, each with the similarity found for it, ranked.
pub proof fn lemma_search_ends(
    sentence: Seq<char>,
    response: Option<Seq<Seq<u32>>>,
    records: Option<Seq<ParagraphRecordView>>,
    similarities: Seq<Similarity>,
)
    requires
        records matches Some(stored) ==> similarities.len() == stored.len(),
    ensures
        search_end(sentence, response, records, similarities) == SearchStepView::Done(
            match validated(1, response) {
                Err(error) => Err(SearchError::EmbeddingProvider(error)),
                Ok(vectors) => match records {
                    None => Err(SearchError::StoreRead),
                    Some(stored) => if comparable(stored, vectors[0]) {
                        Ok(
                            SimilarityResultSetView {
                                sentence,
                                results: ranked(scored(stored, similarities)),
                            },
                        )
                    } else {
                        Err(SearchError::DimensionMismatch)
                    },
                },
            },
        ),
{
    if let Ok(vectors) = validated(1, response) {
        if let Some(stored) = records {
            if comparable(stored, vectors[0]) {
                let state = ScoringView {
                    sentence,
                    query: vectors[0],
                    records: stored,
                    similarities: Seq::empty(),
                };
                lemma_compared_from(state, similarities);
                assert(Seq::<Similarity>::empty() + similarities =~= similarities);
            }
        }
    }
}

/// A search that waits for the embedding of its sentence.
pub struct Querying {
    texts: Vec<String>,
}

/// A search that waits for the stored records.
pub struct Loading {
    sentence: String,
    query: Vec<u32>,
}

/// A search that waits for the similarity of one stored record.
pub struct Scoring {
    sentence: String,
    query: Vec<u32>,
    records: Vec<ParagraphRecord>,
    similarities: Vec<Similarity>,
}

/// What a search asks for next, or how it ended: with the stored passages
/// ranked, or with the reason why there is no answer.
pub enum SearchStep {
    /// Ask the embedding service for the embeddings of the state's texts.
    Embed(Querying),
    /// Ask the record store for all stored records.
    Load(Loading),
    /// Compare the state's stored embedding with that of the sentence.
    Compare(Scoring),
    /// Nothing is left to do.
    Done(Result<SimilarityResultSet, SearchError>),
}

impl View for Querying {
    type V = QueryingView;

    closed spec fn view(&self) -> QueryingView {
        QueryingView { sentence: self.texts[0]@ }
    }
}

impl View for Loading {
    type V = LoadingView;

    closed spec fn view(&self) -> LoadingView {
        LoadingView { sentence: self.sentence@, query: self.query@ }
    }
}

impl View for Scoring {
    type V = ScoringView;

    closed spec fn view(&self) -> ScoringView {
        ScoringView {
            sentence: self.sentence@,
            query: self.query@,
            records: self.records.deep_view(),
            similarities: self.similarities@,
        }
    }
}

impl View for SearchStep {
    type V = SearchStepView;

    open spec fn view(&self) -> SearchStepView {
        match self {
            SearchStep::Embed(state) => SearchStepView::Embed(state@),
            SearchStep::Load(state) => SearchStepView::Load(state@),
            SearchStep::Compare(state) => SearchStepView::Compare(state@),
            SearchStep::Done(Ok(answer)) => SearchStepView::Done(Ok(answer@)),
            SearchStep::Done(Err(error)) => SearchStepView::Done(Err(*error)),
        }
    }
}

/// Starts the search for `sentence`.
pub fn search(sentence: String) -> (step: SearchStep)
    ensures
        step@ == search_for(sentence@),
        step@.wf(),
{
    let mut texts: Vec<String> = Vec::new();
    texts.push(sentence);
    SearchStep::Embed(Querying { texts })
}

impl Querying {
    #[verifier::type_invariant]
    spec fn inv(self) -> bool {
        self.texts.len() == 1
    }

    /// The texts to embed: the sentence alone.
    pub fn texts(&self) -> (texts: &Vec<String>)
        ensures
            texts.deep_view() == self@.texts(),
    {
        proof {
            use_type_invariant(self);
            assert(self.texts.deep_view() =~= seq![self.texts[0]@]);
        }
        &self.texts
    }

    /// Takes the answer of the embedding service, `None` if it failed, and
    /// goes on to the next step.
    pub fn resume(self, response: Option<Vec<Vec<u32>>>) -> (step: SearchStep)
        ensures
            step@ == self@.resume(response.deep_view()),
            step@.wf(),
    {
        proof {
            use_type_invariant(&self);
        }
        let Querying { mut texts } = self;
        let sentence = texts.remove(0);
        match validate_embeddings(1, response) {
            Err(error) => SearchStep::Done(Err(SearchError::EmbeddingProvider(error))),
            Ok(vectors) => {
                let mut vectors = vectors;
                assert(vectors.deep_view()[0] == vectors[0]@);
                let query = vectors.remove(0);
                SearchStep::Load(Loading { sentence, query })
            },
        }
    }
}

impl Loading {
    #[verifier::type_invariant]
    spec fn inv(self) -> bool {
        self.query.len() >= 1
    }

    /// Takes the stored records, `None` if they could not be read, and goes
    /// on to the next step.
    pub fn resume(self, records: Option<Vec<ParagraphRecord>>) -> (step: SearchStep)
        ensures
            step@ == self@.resume(records.deep_view()),
            step@.wf(),
            step matches SearchStep::Done(Ok(answer)) ==> is_ranked(answer@.results),
    {
        proof {
            use_type_invariant(&self);
        }
        let ghost state = self@;
        let Loading { sentence, query } = self;
        let loaded = match records {
            None => { return SearchStep::Done(Err(SearchError::StoreRead)); },
            Some(loaded) => loaded,
        };
        let mut at: usize = 0;
        while at < loaded.len()
            invariant
                at <= loaded.len(),
                self@ == state,
                state.query == query@,
                records.deep_view() == Some(loaded.deep_view()),
                forall|i: int|
                    0 <= i < at ==> (#[trigger] loaded.deep_view()[i]).embedding.len()
                        == query.len(),
            decreases loaded.len() - at,
        {
            assert(loaded.deep_view()[at as int] == loaded[at as int]@);
            if loaded[at].embedding.len() != query.len() {
                return SearchStep::Done(Err(SearchError::DimensionMismatch));
            }
            at += 1;
        }
        Scoring::proceed(sentence, query, loaded, Vec::new())
    }
}

impl Scoring {
    #[verifier::type_invariant]
    spec fn inv(self) -> bool {
        &&& self.query.len() >= 1
        &&& self.similarities.len() < self.records.len()
        &&& comparable(self.records.deep_view(), self.query@)
    }

    fn proceed(
        sentence: String,
        query: Vec<u32>,
        records: Vec<ParagraphRecord>,
        similarities: Vec<Similarity>,
    ) -> (step: SearchStep)
        requires
            query.len() >= 1,
            similarities.len() <= records.len(),
            comparable(records.deep_view(), query@),
        ensures
            step@ == (ScoringView {
                sentence: sentence@,
                query: query@,
                records: records.deep_view(),
                similarities: similarities@,
            }).next(),
            step@.wf(),
    {
        if similarities.len() < records.len() {
            SearchStep::Compare(Scoring { sentence, query, records, similarities })
        } else {
            let results = rank(score(records, &similarities));
            SearchStep::Done(Ok(SimilarityResultSet { sentence, results }))
        }
    }

    /// The stored embedding to compare with that of the sentence. It has the
    /// length of the sentence's embedding, and that is not empty.
    pub fn stored(&self) -> (stored: &Vec<u32>)
        ensures
            stored@ == self@.stored(),
            stored.len() == self@.query.len(),
            stored.len() >= 1,
            self@.wf(),
    {
        proof {
            use_type_invariant(self);
        }
        let at = self.similarities.len();
        assert(self.records.deep_view()[at as int] == self.records[at as int]@);
        &self.records[at].embedding
    }

    /// The embedding of the sentence.
    pub fn query(&self) -> (query: &Vec<u32>)
        ensures
            query@ == self@.query,
            query.len() >= 1,
            self@.wf(),
    {
        proof {
            use_type_invariant(self);
        }
        &self.query
    }

    /// Takes the similarity of the stored embedding to that of the sentence
    /// and goes on to the next step.
    pub fn resume(self, similarity: Similarity) -> (step: SearchStep)
        ensures
            step@ == self@.resume(similarity),
            step@.wf(),
            step matches SearchStep::Done(Ok(answer)) ==> is_ranked(answer@.results),
    {
        proof {
            use_type_invariant(&self);
        }
        let Scoring { sentence, query, records, mut similarities } = self;
        similarities.push(similarity);
        Scoring::proceed(sentence, query, records, similarities)
    }
}

/// Gives each record's passage the similarity at its position.
fn score(records: Vec<ParagraphRecord>, similarities: &Vec<Similarity>) -> (results: Vec<
    SimilarityResult,
>)
    requires
        records.len() == similarities.len(),
    ensures
        results.deep_view() == scored(records.deep_view(), similarities@),
{
    let mut results: Vec<SimilarityResult> = Vec::new();
    let mut at: usize = 0;
    let total: usize = records.len();
    for record in it: records
        invariant
            it.seq() == records@,
            records.len() == total,
            similarities.len() == total,
            at == it.index(),
            results.len() == at,
            forall|i: int|
                0 <= i < at ==> (#[trigger] results[i])@ == scored(
                    records.deep_view(),
                    similarities@,
                )[i],
    {
        proof {
            assert(records.deep_view()[at as int] == record@);
        }
        let ParagraphRecord { embedding: _, reference, text } = record;
        results.push(
            SimilarityResult {
                paragraph: Paragraph { reference, text },
                similarity: similarities[at],
            },
        );
        at += 1;
    }
    assert(results.deep_view() =~= scored(records.deep_view(), similarities@));
    results
}

} // verus!
