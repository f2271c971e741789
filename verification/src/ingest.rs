//! Ingestion: from submitted passages to stored records.
//!
//! Every passage is summarized, the summaries of those passages whose
//! summarization succeeded are embedded in one batch, and each of these
//! passages is stored with its text as submitted and the embedding of its
//! summary. The engine does none of this itself. It is a sequence of steps:
//! each step names one request to make of the inference service, the
//! embedding service or the record store, and is resumed with the answer.

use crate::gateway::{validate_embeddings, validated, EmbeddingProviderError};
use crate::passage::{Paragraph, ParagraphRecord, ParagraphRecordView, ParagraphView};
use crate::prompt::{prompt_for, summarization_prompt};
use vstd::prelude::*;

verus! {

/// Of the passages that have an outcome, those whose summarization
/// succeeded, in the order in which they were submitted. An outcome of
/// `None` stands for a summarization that failed.
pub open spec fn survivors(
    passages: Seq<ParagraphView>,
    outcomes: Seq<Option<Seq<char>>>,
) -> Seq<ParagraphView>
    decreases outcomes.len(),
{
    if outcomes.len() == 0 {
        Seq::empty()
    } else {
        let earlier = survivors(passages, outcomes.drop_last());
        match outcomes.last() {
            Some(_) => earlier.push(passages[outcomes.len() - 1]),
            None => earlier,
        }
    }
}

/// The summaries among the outcomes, in their order.
pub open spec fn summaries(outcomes: Seq<Option<Seq<char>>>) -> Seq<Seq<char>>
    decreases outcomes.len(),
{
    if outcomes.len() == 0 {
        Seq::empty()
    } else {
        let earlier = summaries(outcomes.drop_last());
        match outcomes.last() {
            Some(summary) => earlier.push(summary),
            None => earlier,
        }
    }
}

/// The records to store: each passage with the vector at its position.
pub open spec fn paired(
    passages: Seq<ParagraphView>,
    vectors: Seq<Seq<u32>>,
) -> Seq<ParagraphRecordView> {
    Seq::new(
        passages.len(),
        |i: int|
            ParagraphRecordView {
                embedding: vectors[i],
                reference: passages[i].reference,
                text: passages[i].text,
            },
    )
}

/// An ingestion that waits for the summary of one of its passages.
pub struct SummarizingView {
    /// The passages as submitted.
    pub passages: Seq<ParagraphView>,
    /// How the summarization of each passage before the current one ended.
    pub outcomes: Seq<Option<Seq<char>>>,
}

/// An ingestion that waits for the embeddings of its summaries.
pub struct EmbeddingView {
    /// How many passages were submitted.
    pub submitted: nat,
    /// The passages whose summarization succeeded.
    pub kept: Seq<ParagraphView>,
    /// Their summaries.
    pub summaries: Seq<Seq<char>>,
}

/// An ingestion that waits for one of its records to be stored.
pub struct StoringView {
    /// How many passages were submitted.
    pub submitted: nat,
    /// The records to store.
    pub records: Seq<ParagraphRecordView>,
    /// How many of them the store has been asked to keep.
    pub stored: nat,
}

/// What an ingestion asks for next, or how it ended.
pub enum IngestStepView {
    Summarize(SummarizingView),
    Embed(EmbeddingView),
    Insert(StoringView),
    Done(Result<nat, EmbeddingProviderError>),
}

/// The first step of the ingestion of `passages`.
pub open spec fn ingestion_of(passages: Seq<ParagraphView>) -> IngestStepView {
    SummarizingView { passages, outcomes: Seq::empty() }.next()
}

impl SummarizingView {
    /// A summary is awaited only while a passage is left without an outcome.
    pub open spec fn wf(self) -> bool {
        self.outcomes.len() < self.passages.len()
    }

    /// The passage whose summary is awaited.
    pub open spec fn current(self) -> ParagraphView {
        self.passages[self.outcomes.len() as int]
    }

    /// The instruction to send to the inference service.
    pub open spec fn prompt(self) -> Seq<char> {
        prompt_for(self.current().text)
    }

    /// The step to take once the passages before `outcomes.len()` have an
    /// outcome: the next summary, or the embedding when none is left.
    pub open spec fn next(self) -> IngestStepView {
        if self.outcomes.len() < self.passages.len() {
            IngestStepView::Summarize(self)
        } else {
            IngestStepView::Embed(
                EmbeddingView {
                    submitted: self.passages.len(),
                    kept: survivors(self.passages, self.outcomes),
                    summaries: summaries(self.outcomes),
                },
            )
        }
    }

    /// The step after the inference service has answered. A summarization
    /// that failed drops its passage and nothing else.
    pub open spec fn resume(self, summary: Option<Seq<char>>) -> IngestStepView {
        SummarizingView { passages: self.passages, outcomes: self.outcomes.push(summary) }.next()
    }
}

impl EmbeddingView {
    /// Every passage that was kept has its summary.
    pub open spec fn wf(self) -> bool {
        self.kept.len() == self.summaries.len()
    }

    /// The step after the embedding service has answered. An answer that is
    /// refused ends the ingestion before anything is stored.
    pub open spec fn resume(self, response: Option<Seq<Seq<u32>>>) -> IngestStepView {
        match validated(self.summaries.len(), response) {
            Err(error) => IngestStepView::Done(Err(error)),
            Ok(vectors) => StoringView {
                submitted: self.submitted,
                records: paired(self.kept, vectors),
                stored: 0,
            }.next(),
        }
    }
}

impl StoringView {
    /// The store is asked only while a record is left to store.
    pub open spec fn wf(self) -> bool {
        self.stored < self.records.len()
    }

    /// The record that the store is asked to keep.
    pub open spec fn record(self) -> ParagraphRecordView {
        self.records[self.stored as int]
    }

    /// The step to take once the store has been asked to keep the records
    /// before `stored`: the next record, or the end. The ingestion ends with
    /// the number of passages that were submitted.
    pub open spec fn next(self) -> IngestStepView {
        if self.stored < self.records.len() {
            IngestStepView::Insert(self)
        } else {
            IngestStepView::Done(Ok(self.submitted))
        }
    }

    /// The step after the store has answered. Whether the record was stored
    /// makes no difference to what follows.
    pub open spec fn resume(self, stored: bool) -> IngestStepView {
        StoringView {
            submitted: self.submitted,
            records: self.records,
            stored: self.stored + 1,
        }.next()
    }
}

impl IngestStepView {
    /// The state that the step carries, if it carries one, is well formed.
    pub open spec fn wf(self) -> bool {
        match self {
            IngestStepView::Summarize(state) => state.wf(),
            IngestStepView::Embed(state) => state.wf(),
            IngestStepView::Insert(state) => state.wf(),
            IngestStepView::Done(_) => true,
        }
    }
}

/// An ingestion that waits for the summary of one of its passages.
pub struct Summarizing {
    passages: Vec<Paragraph>,
    cursor: usize,
    kept: Vec<Paragraph>,
    summaries: Vec<String>,
    outcomes: Ghost<Seq<Option<Seq<char>>>>,
}

/// An ingestion that waits for the embeddings of its summaries.
pub struct Embedding {
    submitted: usize,
    kept: Vec<Paragraph>,
    summaries: Vec<String>,
}

/// An ingestion that waits for one of its records to be stored.
pub struct Storing {
    submitted: usize,
    records: Vec<ParagraphRecord>,
    stored: usize,
}

/// What an ingestion asks for next, or how it ended: with the number of
/// passages that were submitted, or with the reason why the embedding
/// service gave nothing to store.
pub enum IngestStep {
    /// Ask the inference service to follow the state's instruction.
    Summarize(Summarizing),
    /// Ask the embedding service for the embeddings of the state's texts.
    Embed(Embedding),
    /// Ask the record store to keep the state's record.
    Insert(Storing),
    /// Nothing is left to do.
    Done(Result<usize, EmbeddingProviderError>),
}

impl View for Summarizing {
    type V = SummarizingView;

    closed spec fn view(&self) -> SummarizingView {
        SummarizingView { passages: self.passages.deep_view(), outcomes: self.outcomes@ }
    }
}

impl View for Embedding {
    type V = EmbeddingView;

    closed spec fn view(&self) -> EmbeddingView {
        EmbeddingView {
            submitted: self.submitted as nat,
            kept: self.kept.deep_view(),
            summaries: self.summaries.deep_view(),
        }
    }
}

impl View for Storing {
    type V = StoringView;

    closed spec fn view(&self) -> StoringView {
        StoringView {
            submitted: self.submitted as nat,
            records: self.records.deep_view(),
            stored: self.stored as nat,
        }
    }
}

impl View for IngestStep {
    type V = IngestStepView;

    open spec fn view(&self) -> IngestStepView {
        match self {
            IngestStep::Summarize(state) => IngestStepView::Summarize(state@),
            IngestStep::Embed(state) => IngestStepView::Embed(state@),
            IngestStep::Insert(state) => IngestStepView::Insert(state@),
            IngestStep::Done(Ok(submitted)) => IngestStepView::Done(Ok(*submitted as nat)),
            IngestStep::Done(Err(error)) => IngestStepView::Done(Err(*error)),
        }
    }
}

/// Starts the ingestion of `passages`.
pub fn ingest(passages: Vec<Paragraph>) -> (step: IngestStep)
    ensures
        step@ == ingestion_of(passages.deep_view()),
        step@.wf(),
{
    let kept: Vec<Paragraph> = Vec::new();
    let summaries: Vec<String> = Vec::new();
    proof {
        assert(kept.deep_view() =~= Seq::empty());
        assert(summaries.deep_view() =~= Seq::empty());
    }
    Summarizing::proceed(passages, 0, kept, summaries, Ghost(Seq::empty()))
}

impl Summarizing {
    #[verifier::type_invariant]
    spec fn inv(self) -> bool {
        &&& self.cursor < self.passages.len()
        &&& Self::tracks(self.passages, self.cursor, self.kept, self.summaries, self.outcomes@)
    }

    /// The state keeps what the outcomes so far have left of the passages.
    spec fn tracks(
        passages: Vec<Paragraph>,
        cursor: usize,
        kept: Vec<Paragraph>,
        summaries: Vec<String>,
        outcomes: Seq<Option<Seq<char>>>,
    ) -> bool {
        &&& cursor == outcomes.len()
        &&& kept.deep_view() == survivors(passages.deep_view(), outcomes)
        &&& summaries.deep_view() == self::summaries(outcomes)
    }

    fn proceed(
        passages: Vec<Paragraph>,
        cursor: usize,
        kept: Vec<Paragraph>,
        summaries: Vec<String>,
        outcomes: Ghost<Seq<Option<Seq<char>>>>,
    ) -> (step: IngestStep)
        requires
            cursor <= passages.len(),
            Self::tracks(passages, cursor, kept, summaries, outcomes@),
        ensures
            step@ == (SummarizingView {
                passages: passages.deep_view(),
                outcomes: outcomes@,
            }).next(),
            step@.wf(),
    {
        if cursor < passages.len() {
            IngestStep::Summarize(Summarizing { passages, cursor, kept, summaries, outcomes })
        } else {
            proof {
                lemma_survivors_have_summaries(passages.deep_view(), outcomes@);
            }
            IngestStep::Embed(Embedding { submitted: passages.len(), kept, summaries })
        }
    }

    /// The instruction to send to the inference service.
    pub fn prompt(&self) -> (prompt: String)
        ensures
            prompt@ == self@.prompt(),
            self@.wf(),
    {
        proof {
            use_type_invariant(self);
        }
        summarization_prompt(self.passages[self.cursor].text.as_str())
    }

    /// Takes the answer of the inference service, `None` if it failed, and
    /// goes on to the next step.
    pub fn resume(self, summary: Option<String>) -> (step: IngestStep)
        ensures
            step@ == self@.resume(summary.deep_view()),
            step@.wf(),
    {
        proof {
            use_type_invariant(&self);
        }
        let Summarizing { passages, cursor, mut kept, mut summaries, outcomes } = self;
        let ghost before_kept = kept.deep_view();
        let ghost before_summaries = summaries.deep_view();
        let ghost outcomes_now = outcomes@.push(summary.deep_view());
        proof {
            assert(outcomes_now.drop_last() =~= outcomes@);
        }
        match summary {
            Some(summary) => {
                let passage = passages[cursor].clone();
                kept.push(passage);
                summaries.push(summary);
                proof {
                    assert(kept.deep_view() =~= before_kept.push(passage@));
                    assert(summaries.deep_view() =~= before_summaries.push(summary@));
                }
            },
            None => {},
        }
        Summarizing::proceed(passages, cursor + 1, kept, summaries, Ghost(outcomes_now))
    }
}

impl Embedding {
    #[verifier::type_invariant]
    spec fn inv(self) -> bool {
        self.kept.len() == self.summaries.len()
    }

    /// The texts to embed: the summaries, in the order of their passages.
    pub fn texts(&self) -> (texts: &Vec<String>)
        ensures
            texts.deep_view() == self@.summaries,
            self@.wf(),
    {
        proof {
            use_type_invariant(self);
        }
        &self.summaries
    }

    /// Takes the answer of the embedding service, `None` if it failed, and
    /// goes on to the next step.
    pub fn resume(self, response: Option<Vec<Vec<u32>>>) -> (step: IngestStep)
        ensures
            step@ == self@.resume(response.deep_view()),
            step@.wf(),
    {
        proof {
            use_type_invariant(&self);
        }
        let Embedding { submitted, kept, summaries } = self;
        match validate_embeddings(summaries.len(), response) {
            Err(error) => IngestStep::Done(Err(error)),
            Ok(vectors) => {
                let records = pair(kept, &vectors);
                Storing::proceed(submitted, records, 0)
            },
        }
    }
}

/// Pairs each passage with the vector at its position.
fn pair(passages: Vec<Paragraph>, vectors: &Vec<Vec<u32>>) -> (records: Vec<ParagraphRecord>)
    requires
        passages.len() == vectors.len(),
    ensures
        records.deep_view() == paired(passages.deep_view(), vectors.deep_view()),
{
    let mut records: Vec<ParagraphRecord> = Vec::new();
    let mut at: usize = 0;
    let total: usize = passages.len();
    for passage in it: passages
        invariant
            it.seq() == passages@,
            passages.len() == total,
            vectors.len() == total,
            at == it.index(),
            records.len() == at,
            forall|i: int|
                0 <= i < at ==> (#[trigger] records[i])@ == paired(
                    passages.deep_view(),
                    vectors.deep_view(),
                )[i],
    {
        let embedding = vectors[at].clone();
        proof {
            assert(embedding@ =~= vectors[at as int]@);
            assert(passages.deep_view()[at as int] == passage@);
            assert(vectors.deep_view()[at as int] == embedding@);
        }
        let Paragraph { reference, text } = passage;
        records.push(ParagraphRecord { embedding, reference, text });
        at += 1;
    }
    assert(records.deep_view() =~= paired(passages.deep_view(), vectors.deep_view()));
    records
}

impl Storing {
    #[verifier::type_invariant]
    spec fn inv(self) -> bool {
        self.stored < self.records.len()
    }

    fn proceed(submitted: usize, records: Vec<ParagraphRecord>, stored: usize) -> (step:
        IngestStep)
        requires
            stored <= records.len(),
        ensures
            step@ == (StoringView {
                submitted: submitted as nat,
                records: records.deep_view(),
                stored: stored as nat,
            }).next(),
            step@.wf(),
    {
        if stored < records.len() {
            IngestStep::Insert(Storing { submitted, records, stored })
        } else {
            IngestStep::Done(Ok(submitted))
        }
    }

    /// The record that the store is asked to keep.
    pub fn record(&self) -> (record: &ParagraphRecord)
        ensures
            record@ == self@.record(),
            self@.wf(),
    {
        proof {
            use_type_invariant(self);
        }
        &self.records[self.stored]
    }

    /// Takes the answer of the record store, `false` if it failed, and goes
    /// on to the next step. A record that could not be stored is given up:
    /// the ingestion goes on as if it had been stored.
    pub fn resume(self, stored: bool) -> (step: IngestStep)
        ensures
            step@ == self@.resume(stored),
            step@.wf(),
    {
        proof {
            use_type_invariant(&self);
        }
        let Storing { submitted, records, stored: asked } = self;
        Storing::proceed(submitted, records, asked + 1)
    }
}

/// As many passages survive as there are summaries.
pub proof fn lemma_survivors_have_summaries(
    passages: Seq<ParagraphView>,
    outcomes: Seq<Option<Seq<char>>>,
)
    ensures
        survivors(passages, outcomes).len() == summaries(outcomes).len(),
        summaries(outcomes).len() <= outcomes.len(),
    decreases outcomes.len(),
{
    if outcomes.len() > 0 {
        lemma_survivors_have_summaries(passages, outcomes.drop_last());
    }
}

/// The position, among the passages, of the passage that the summary at
/// position `k` among the summaries was made for.
pub open spec fn origin(outcomes: Seq<Option<Seq<char>>>, k: int) -> int
    decreases outcomes.len(),
{
    if outcomes.len() == 0 {
        0
    } else if outcomes.last() is Some && k == summaries(outcomes.drop_last()).len() {
        outcomes.len() - 1
    } else {
        origin(outcomes.drop_last(), k)
    }
}

/// Summaries and surviving passages stay aligned: the summary at a position
/// is the one that was made for the passage that survives at that position,
/// and both stand in the order in which the passages were submitted.
pub proof fn lemma_summaries_align(passages: Seq<ParagraphView>, outcomes: Seq<Option<Seq<char>>>)
    requires
        outcomes.len() <= passages.len(),
    ensures
        forall|k: int|
            0 <= k < summaries(outcomes).len() ==> {
                let at = #[trigger] origin(outcomes, k);
                &&& 0 <= at < outcomes.len()
                &&& outcomes[at] == Some(summaries(outcomes)[k])
                &&& survivors(passages, outcomes)[k] == passages[at]
            },
        forall|j: int, k: int|
            0 <= j < k < summaries(outcomes).len() ==> #[trigger] origin(outcomes, j)
                < #[trigger] origin(outcomes, k),
    decreases outcomes.len(),
{
    if outcomes.len() > 0 {
        let earlier = outcomes.drop_last();
        lemma_summaries_align(passages, earlier);
        lemma_survivors_have_summaries(passages, earlier);
        assert forall|k: int| 0 <= k < summaries(outcomes).len() implies {
            let at = #[trigger] origin(outcomes, k);
            &&& 0 <= at < outcomes.len()
            &&& outcomes[at] == Some(summaries(outcomes)[k])
            &&& survivors(passages, outcomes)[k] == passages[at]
        } by {
            if k < summaries(earlier).len() {
                let at = origin(earlier, k);
                assert(origin(outcomes, k) == at);
                assert(earlier[at] == outcomes[at]);
            }
        }
        assert forall|j: int, k: int|
            0 <= j < k < summaries(outcomes).len() implies #[trigger] origin(outcomes, j)
            < #[trigger] origin(outcomes, k) by {
            assert(j < summaries(earlier).len());
            assert(origin(outcomes, j) == origin(earlier, j));
            assert(0 <= origin(earlier, j) < earlier.len());
            if k < summaries(earlier).len() {
                assert(origin(outcomes, k) == origin(earlier, k));
            } else {
                assert(origin(outcomes, k) == outcomes.len() - 1);
            }
        }
    }
}

/// A record to store holds the reference and the text of a submitted
/// passage exactly as they were submitted, and the vector that was given for
/// the summary of that passage; the summary itself is not stored.
pub proof fn lemma_records_hold_passages_unaltered(
    passages: Seq<ParagraphView>,
    outcomes: Seq<Option<Seq<char>>>,
    vectors: Seq<Seq<u32>>,
)
    requires
        outcomes.len() <= passages.len(),
        vectors.len() == summaries(outcomes).len(),
    ensures
        paired(survivors(passages, outcomes), vectors).len() == summaries(outcomes).len(),
        forall|k: int|
            0 <= k < summaries(outcomes).len() ==> {
                let record = #[trigger] paired(survivors(passages, outcomes), vectors)[k];
                &&& record.paragraph() == passages[origin(outcomes, k)]
                &&& record.embedding == vectors[k]
            },
{
    lemma_survivors_have_summaries(passages, outcomes);
    lemma_summaries_align(passages, outcomes);
    assert forall|k: int| 0 <= k < summaries(outcomes).len() implies {
        let record = #[trigger] paired(survivors(passages, outcomes), vectors)[k];
        &&& record.paragraph() == passages[origin(outcomes, k)]
        &&& record.embedding == vectors[k]
    } by {
        let at = origin(outcomes, k);
        assert(survivors(passages, outcomes)[k] == passages[at]);
    }
}

/// The step reached from `step` when the inference service answers with
/// `outcomes`, one after the other.
pub open spec fn summarized_through(
    step: IngestStepView,
    outcomes: Seq<Option<Seq<char>>>,
) -> IngestStepView
    decreases outcomes.len(),
{
    if outcomes.len() == 0 {
        step
    } else {
        match step {
            IngestStepView::Summarize(state) => summarized_through(
                state.resume(outcomes[0]),
                outcomes.drop_first(),
            ),
            _ => step,
        }
    }
}

/// The step reached from `step` when the record store answers with
/// `answers`, one after the other.
pub open spec fn stored_through(step: IngestStepView, answers: Seq<bool>) -> IngestStepView
    decreases answers.len(),
{
    if answers.len() == 0 {
        step
    } else {
        match step {
            IngestStepView::Insert(state) => stored_through(
                state.resume(answers[0]),
                answers.drop_first(),
            ),
            _ => step,
        }
    }
}

/// How the ingestion of `passages` ends when the inference service answers
/// with `outcomes`, the embedding service with `response` and the record
/// store with `answers`.
pub open spec fn ingestion_end(
    passages: Seq<ParagraphView>,
    outcomes: Seq<Option<Seq<char>>>,
    response: Option<Seq<Seq<u32>>>,
    answers: Seq<bool>,
) -> IngestStepView {
    match summarized_through(ingestion_of(passages), outcomes) {
        IngestStepView::Embed(state) => stored_through(state.resume(response), answers),
        step => step,
    }
}

/// Summaries that go on from a state lead where they would lead if their
/// outcomes had been part of the state from the start.
proof fn lemma_summarized_from(
    passages: Seq<ParagraphView>,
    done: Seq<Option<Seq<char>>>,
    rest: Seq<Option<Seq<char>>>,
)
    requires
        done.len() + rest.len() <= passages.len(),
    ensures
        summarized_through((SummarizingView { passages, outcomes: done }).next(), rest) == (
        SummarizingView { passages, outcomes: done + rest }).next(),
    decreases rest.len(),
{
    if rest.len() == 0 {
        assert(done + rest =~= done);
    } else {
        lemma_summarized_from(passages, done.push(rest[0]), rest.drop_first());
        assert(done.push(rest[0]) + rest.drop_first() =~= done + rest);
    }
}

/// Once every passage has an outcome, the ingestion asks for the embeddings
/// of the summaries, and of nothing else: a passage whose summarization
/// failed is dropped and holds up no other.
pub proof fn lemma_summaries_lead_to_embedding(
    passages: Seq<ParagraphView>,
    outcomes: Seq<Option<Seq<char>>>,
)
    requires
        outcomes.len() == passages.len(),
    ensures
        summarized_through(ingestion_of(passages), outcomes) == IngestStepView::Embed(
            EmbeddingView {
                submitted: passages.len(),
                kept: survivors(passages, outcomes),
                summaries: summaries(outcomes),
            },
        ),
{
    lemma_summarized_from(passages, Seq::empty(), outcomes);
    assert(Seq::<Option<Seq<char>>>::empty() + outcomes =~= outcomes);
}

/// Once the store has answered for every record that was left, the
/// ingestion ends with the number of passages submitted, whatever the
/// answers were.
pub proof fn lemma_storing_leads_to_count(state: StoringView, answers: Seq<bool>)
    requires
        state.stored + answers.len() == state.records.len(),
    ensures
        stored_through(state.next(), answers) == IngestStepView::Done(Ok(state.submitted)),
    decreases answers.len(),
{
    if answers.len() > 0 {
        let then = StoringView {
            submitted: state.submitted,
            records: state.records,
            stored: state.stored + 1,
        };
        lemma_storing_leads_to_count(then, answers.drop_first());
    }
}

/// An ingestion ends in one of two ways. Where the embedding service gave
/// one vector for each summary, each surviving passage was handed to the
/// store with its text as submitted and the vector of its summary, and the
/// ingestion ends with the number of passages submitted: passages that were
/// dropped, and records that the store did not keep, are counted all the
/// same. Where the service gave anything else, the ingestion ends with that
/// failure, and the store was asked for nothing.
pub proof fn lemma_ingestion_ends(
    passages: Seq<ParagraphView>,
    outcomes: Seq<Option<Seq<char>>>,
    response: Option<Seq<Seq<u32>>>,
    answers: Seq<bool>,
)
    requires
        outcomes.len() == passages.len(),
        answers.len() == summaries(outcomes).len(),
    ensures
        ingestion_end(passages, outcomes, response, answers) == IngestStepView::Done(
            match validated(summaries(outcomes).len(), response) {
                Ok(_) => Ok(passages.len()),
                Err(error) => Err(error),
            },
        ),
        validated(summaries(outcomes).len(), response) matches Ok(vectors) ==> (EmbeddingView {
            submitted: passages.len(),
            kept: survivors(passages, outcomes),
            summaries: summaries(outcomes),
        }).resume(response) == (StoringView {
            submitted: passages.len(),
            records: paired(survivors(passages, outcomes), vectors),
            stored: 0,
        }).next(),
        validated(summaries(outcomes).len(), response) matches Err(error) ==> (EmbeddingView {
            submitted: passages.len(),
            kept: survivors(passages, outcomes),
            summaries: summaries(outcomes),
        }).resume(response) == IngestStepView::Done(Err(error)),
{
    lemma_summaries_lead_to_embedding(passages, outcomes);
    lemma_survivors_have_summaries(passages, outcomes);
    match validated(summaries(outcomes).len(), response) {
        Ok(vectors) => {
            let state = StoringView {
                submitted: passages.len(),
                records: paired(survivors(passages, outcomes), vectors),
                stored: 0,
            };
            lemma_storing_leads_to_count(state, answers);
        },
        Err(_) => {
            if answers.len() > 0 {
            }
        },
    }
}

} // verus!
