//! Ranking scored passages: best first, ties in the order they came in,
//! whatever is not a number last.

use crate::passage::{Paragraph, ParagraphView};
use crate::similarity::Similarity;
use vstd::prelude::*;

verus! {

/// A passage with its similarity to a query.
#[derive(Debug)]
pub struct SimilarityResult {
    pub paragraph: Paragraph,
    pub similarity: Similarity,
}

/// What a [`SimilarityResult`] holds.
pub struct SimilarityResultView {
    pub paragraph: ParagraphView,
    pub similarity: Similarity,
}

impl DeepView for SimilarityResult {
    type V = SimilarityResultView;

    open spec fn deep_view(&self) -> SimilarityResultView {
        SimilarityResultView { paragraph: self.paragraph@, similarity: self.similarity }
    }
}

impl View for SimilarityResult {
    type V = SimilarityResultView;

    open spec fn view(&self) -> SimilarityResultView {
        self.deep_view()
    }
}

/// The answer to a query: the sentence asked about, and the stored passages
/// from the most similar to the least.
#[derive(Debug)]
pub struct SimilarityResultSet {
    pub sentence: String,
    pub results: Vec<SimilarityResult>,
}

/// What a [`SimilarityResultSet`] holds.
pub struct SimilarityResultSetView {
    pub sentence: Seq<char>,
    pub results: Seq<SimilarityResultView>,
}

impl DeepView for SimilarityResultSet {
    type V = SimilarityResultSetView;

    open spec fn deep_view(&self) -> SimilarityResultSetView {
        SimilarityResultSetView { sentence: self.sentence@, results: self.results.deep_view() }
    }
}

impl View for SimilarityResultSet {
    type V = SimilarityResultSetView;

    open spec fn view(&self) -> SimilarityResultSetView {
        self.deep_view()
    }
}

/// No entry stands behind one that it must stand ahead of: similarities never
/// rise along the sequence, and what is not a number comes after all numbers.
pub open spec fn is_ranked(entries: Seq<SimilarityResultView>) -> bool {
    forall|i: int, j: int|
        0 <= i < j < entries.len() ==> !(#[trigger] entries[j]).similarity.ranks_before(
            (#[trigger] entries[i]).similarity,
        )
}

/// The entries that tie with `score`, in the order in which they stand.
pub open spec fn tied_entries(
    entries: Seq<SimilarityResultView>,
    score: Similarity,
) -> Seq<SimilarityResultView> {
    entries.filter(|entry: SimilarityResultView| entry.similarity.ties_with(score))
}

/// How many entries at the head of `ranking` must stand ahead of an entry
/// with the similarity `score`.
pub open spec fn lead(score: Similarity, ranking: Seq<SimilarityResultView>) -> nat
    decreases ranking.len(),
{
    if ranking.len() > 0 && ranking[0].similarity.ranks_before(score) {
        1 + lead(score, ranking.drop_first())
    } else {
        0
    }
}

/// `ranking` with `entry` put behind the entries that must stand ahead of it
/// and ahead of all others, those that tie with it included.
pub open spec fn placed(
    entry: SimilarityResultView,
    ranking: Seq<SimilarityResultView>,
) -> Seq<SimilarityResultView> {
    ranking.insert(lead(entry.similarity, ranking) as int, entry)
}

/// The ranking of `entries`: each entry, from the last to the first, is
/// placed into the ranking of those that follow it.
pub open spec fn ranked(entries: Seq<SimilarityResultView>) -> Seq<SimilarityResultView>
    decreases entries.len(),
{
    if entries.len() == 0 {
        Seq::empty()
    } else {
        placed(entries[0], ranked(entries.drop_first()))
    }
}

/// The lead of an entry is a run of entries that must all stand ahead of it,
/// and the entry behind the run, if there is one, need not.
pub proof fn lemma_lead_bounds(score: Similarity, ranking: Seq<SimilarityResultView>)
    ensures
        lead(score, ranking) <= ranking.len(),
        forall|i: int|
            0 <= i < lead(score, ranking) ==> (#[trigger] ranking[i]).similarity.ranks_before(
                score,
            ),
        lead(score, ranking) < ranking.len() ==> !ranking[lead(
            score,
            ranking,
        ) as int].similarity.ranks_before(score),
    decreases ranking.len(),
{
    if ranking.len() > 0 && ranking[0].similarity.ranks_before(score) {
        let rest = ranking.drop_first();
        lemma_lead_bounds(score, rest);
        assert forall|i: int| 0 <= i < lead(score, ranking) implies (#[trigger] ranking[i])
            .similarity.ranks_before(score) by {
            if i > 0 {
                assert(ranking[i] == rest[i - 1]);
            }
        }
        if lead(score, ranking) < ranking.len() {
            assert(ranking[lead(score, ranking) as int] == rest[lead(score, rest) as int]);
        }
    }
}

/// Placing an entry into a ranked sequence leaves it ranked.
pub proof fn lemma_placed_is_ranked(
    entry: SimilarityResultView,
    ranking: Seq<SimilarityResultView>,
)
    requires
        is_ranked(ranking),
    ensures
        is_ranked(placed(entry, ranking)),
{
    lemma_lead_bounds(entry.similarity, ranking);
    let at = lead(entry.similarity, ranking) as int;
    let result = placed(entry, ranking);
    assert forall|i: int, j: int| 0 <= i < j < result.len() implies !(#[trigger] result[j])
        .similarity.ranks_before((#[trigger] result[i]).similarity) by {
        if j == at {
            assert(result[i] == ranking[i]);
        } else if i == at {
            assert(result[j] == ranking[j - 1]);
            if at < j - 1 {
                assert(!ranking[j - 1].similarity.ranks_before(ranking[at].similarity));
            }
        } else {
            let from_i = if i < at { i } else { i - 1 };
            let from_j = if j < at { j } else { j - 1 };
            assert(result[i] == ranking[from_i]);
            assert(result[j] == ranking[from_j]);
        }
    }
}

/// A ranking is ranked: its similarities never rise, and what is not a
/// number comes last.
pub proof fn lemma_ranked_is_ranked(entries: Seq<SimilarityResultView>)
    ensures
        is_ranked(ranked(entries)),
    decreases entries.len(),
{
    if entries.len() > 0 {
        lemma_ranked_is_ranked(entries.drop_first());
        lemma_placed_is_ranked(entries[0], ranked(entries.drop_first()));
    }
}

/// Placing an entry adds it and takes nothing away.
pub proof fn lemma_placed_adds_entry(
    entry: SimilarityResultView,
    ranking: Seq<SimilarityResultView>,
)
    ensures
        placed(entry, ranking).len() == ranking.len() + 1,
        placed(entry, ranking).to_multiset() == ranking.to_multiset().insert(entry),
{
    lemma_lead_bounds(entry.similarity, ranking);
    vstd::seq_lib::to_multiset_insert(ranking, lead(entry.similarity, ranking) as int, entry);
}

/// A ranking holds the entries it was made from, each as often as it came.
pub proof fn lemma_ranked_is_permutation(entries: Seq<SimilarityResultView>)
    ensures
        ranked(entries).len() == entries.len(),
        ranked(entries).to_multiset() == entries.to_multiset(),
    decreases entries.len(),
{
    if entries.len() == 0 {
        assert(entries =~= Seq::empty());
    } else {
        let rest = entries.drop_first();
        lemma_ranked_is_permutation(rest);
        lemma_placed_adds_entry(entries[0], ranked(rest));
        vstd::seq_lib::to_multiset_insert(rest, 0, entries[0]);
        assert(rest.insert(0, entries[0]) =~= entries);
    }
}

/// Among entries none of which ties with `score`, none is a tied entry.
proof fn lemma_no_tied_entries(entries: Seq<SimilarityResultView>, score: Similarity)
    requires
        forall|i: int|
            0 <= i < entries.len() ==> !(#[trigger] entries[i]).similarity.ties_with(score),
    ensures
        tied_entries(entries, score) == Seq::<SimilarityResultView>::empty(),
    decreases entries.len(),
{
    reveal(Seq::filter);
    if entries.len() > 0 {
        let front = entries.drop_last();
        assert forall|i: int| 0 <= i < front.len() implies !(#[trigger] front[i]).similarity
            .ties_with(score) by {
            assert(front[i] == entries[i]);
        }
        lemma_no_tied_entries(front, score);
    }
}

/// Placing an entry puts it ahead of every entry it ties with, and leaves
/// the order of all others as it was.
pub proof fn lemma_placed_keeps_ties_in_order(
    entry: SimilarityResultView,
    ranking: Seq<SimilarityResultView>,
    score: Similarity,
)
    ensures
        tied_entries(placed(entry, ranking), score) == if entry.similarity.ties_with(score) {
            seq![entry] + tied_entries(ranking, score)
        } else {
            tied_entries(ranking, score)
        },
{
    lemma_lead_bounds(entry.similarity, ranking);
    let at = lead(entry.similarity, ranking) as int;
    let ties = |other: SimilarityResultView| other.similarity.ties_with(score);
    let ahead = ranking.take(at);
    let behind = ranking.skip(at);
    assert(ranking =~= ahead + behind);
    assert(placed(entry, ranking) =~= ahead + (seq![entry] + behind));
    Seq::filter_distributes_over_add(ahead, behind, ties);
    Seq::filter_distributes_over_add(ahead, seq![entry] + behind, ties);
    behind.lemma_filter_prepend(entry, ties);
    if entry.similarity.ties_with(score) {
        assert forall|i: int| 0 <= i < ahead.len() implies !(#[trigger] ahead[i]).similarity
            .ties_with(score) by {
            assert(ahead[i] == ranking[i]);
        }
        lemma_no_tied_entries(ahead, score);
        assert(Seq::<SimilarityResultView>::empty() + (seq![entry] + behind.filter(ties))
            =~= seq![entry] + (Seq::<SimilarityResultView>::empty() + behind.filter(ties)));
    } else {
        assert(Seq::<SimilarityResultView>::empty() + behind.filter(ties) =~= behind.filter(
            ties,
        ));
    }
}

/// A ranking is stable: the entries that tie with one another stand in it in
/// the order in which they came.
pub proof fn lemma_ranked_keeps_ties_in_order(
    entries: Seq<SimilarityResultView>,
    score: Similarity,
)
    ensures
        tied_entries(ranked(entries), score) == tied_entries(entries, score),
    decreases entries.len(),
{
    if entries.len() == 0 {
        assert(entries =~= ranked(entries));
    } else {
        let rest = entries.drop_first();
        let ties = |other: SimilarityResultView| other.similarity.ties_with(score);
        lemma_ranked_keeps_ties_in_order(rest, score);
        lemma_placed_keeps_ties_in_order(entries[0], ranked(rest), score);
        rest.lemma_filter_prepend(entries[0], ties);
        assert(seq![entries[0]] + rest =~= entries);
        assert(Seq::<SimilarityResultView>::empty() + rest.filter(ties) =~= rest.filter(ties));
    }
}

/// An entry that ties with `score` is among the tied entries, and the tied
/// entries are entries that tie with `score`.
proof fn lemma_tied_entries_are_the_ties(
    entries: Seq<SimilarityResultView>,
    score: Similarity,
)
    ensures
        forall|i: int|
            0 <= i < entries.len() && (#[trigger] entries[i]).similarity.ties_with(score)
                ==> tied_entries(entries, score).len() > 0,
        forall|k: int|
            0 <= k < tied_entries(entries, score).len() ==> {
                let entry = #[trigger] tied_entries(entries, score)[k];
                entry.similarity.ties_with(score) && entries.contains(entry)
            },
{
    let ties = |entry: SimilarityResultView| entry.similarity.ties_with(score);
    assert forall|i: int|
        0 <= i < entries.len() && (#[trigger] entries[i]).similarity.ties_with(
            score,
        ) implies tied_entries(entries, score).len() > 0 by {
        entries.lemma_filter_contains(ties, i);
    }
    assert forall|k: int| 0 <= k < tied_entries(entries, score).len() implies {
        let entry = #[trigger] tied_entries(entries, score)[k];
        entry.similarity.ties_with(score) && entries.contains(entry)
    } by {
        let entry = tied_entries(entries, score)[k];
        entries.lemma_filter_pred(ties, k);
        assert(entries.filter(ties).contains(entry));
        entries.lemma_filter_contains_rev(ties, entry);
    }
}

/// The tied entries of a sequence are those of its first entry, if that one
/// ties, followed by those of the rest.
proof fn lemma_tied_entries_unfold(entries: Seq<SimilarityResultView>, score: Similarity)
    requires
        entries.len() > 0,
    ensures
        tied_entries(entries, score) == if entries[0].similarity.ties_with(score) {
            seq![entries[0]] + tied_entries(entries.drop_first(), score)
        } else {
            tied_entries(entries.drop_first(), score)
        },
{
    let ties = |entry: SimilarityResultView| entry.similarity.ties_with(score);
    let rest = entries.drop_first();
    rest.lemma_filter_prepend(entries[0], ties);
    assert(seq![entries[0]] + rest =~= entries);
    assert(Seq::<SimilarityResultView>::empty() + rest.filter(ties) =~= rest.filter(ties));
}

/// Two ranked sequences with the same tied entries for every score begin
/// with the same entry, or are both empty.
proof fn lemma_same_ties_same_head(a: Seq<SimilarityResultView>, b: Seq<SimilarityResultView>)
    requires
        is_ranked(a),
        is_ranked(b),
        forall|score: Similarity| #[trigger] tied_entries(a, score) == tied_entries(b, score),
    ensures
        a.len() == 0 <==> b.len() == 0,
        a.len() > 0 ==> a[0] == b[0],
{
    if a.len() == 0 {
        if b.len() > 0 {
            let score = b[0].similarity;
            lemma_tied_entries_are_the_ties(b, score);
            lemma_no_tied_entries(a, score);
            assert(tied_entries(a, score) == tied_entries(b, score));
        }
    } else {
        let x = a[0];
        let c = x.similarity;
        lemma_tied_entries_unfold(a, c);
        assert(tied_entries(a, c) == tied_entries(b, c));
        assert(tied_entries(a, c)[0] == x);
        if b.len() == 0 {
            lemma_no_tied_entries(b, c);
        } else {
            let y = b[0];
            let d = y.similarity;
            if !d.ties_with(c) {
                // x stands somewhere behind y in b, and an entry that ties
                // with y stands somewhere behind x in a.
                lemma_tied_entries_are_the_ties(b, c);
                assert(b.contains(tied_entries(b, c)[0]));
                let p = choose|p: int| 0 <= p < b.len() && b[p] == x;
                assert(p != 0);
                assert(!b[p].similarity.ranks_before(b[0].similarity));
                lemma_tied_entries_are_the_ties(b, d);
                assert(tied_entries(a, d) == tied_entries(b, d));
                lemma_tied_entries_are_the_ties(a, d);
                let z = tied_entries(a, d)[0];
                assert(a.contains(z));
                let q = choose|q: int| 0 <= q < a.len() && a[q] == z;
                assert(q != 0);
                assert(!a[q].similarity.ranks_before(a[0].similarity));
                assert(false);
            }
            lemma_tied_entries_unfold(b, c);
            assert(tied_entries(b, c)[0] == y);
        }
    }
}

/// Two ranked sequences with the same tied entries for every score are the
/// same sequence.
proof fn lemma_same_ties_same_order(a: Seq<SimilarityResultView>, b: Seq<SimilarityResultView>)
    requires
        is_ranked(a),
        is_ranked(b),
        forall|score: Similarity| #[trigger] tied_entries(a, score) == tied_entries(b, score),
    ensures
        a == b,
    decreases a.len(),
{
    lemma_same_ties_same_head(a, b);
    if a.len() == 0 {
        assert(a =~= b);
    } else {
        let rest_a = a.drop_first();
        let rest_b = b.drop_first();
        assert forall|i: int, j: int| 0 <= i < j < rest_a.len() implies !(#[trigger] rest_a[j])
            .similarity.ranks_before((#[trigger] rest_a[i]).similarity) by {
            assert(rest_a[i] == a[i + 1] && rest_a[j] == a[j + 1]);
        }
        assert forall|i: int, j: int| 0 <= i < j < rest_b.len() implies !(#[trigger] rest_b[j])
            .similarity.ranks_before((#[trigger] rest_b[i]).similarity) by {
            assert(rest_b[i] == b[i + 1] && rest_b[j] == b[j + 1]);
        }
        assert forall|score: Similarity| #[trigger]
            tied_entries(rest_a, score) == tied_entries(rest_b, score) by {
            lemma_tied_entries_unfold(a, score);
            lemma_tied_entries_unfold(b, score);
            assert(tied_entries(a, score) == tied_entries(b, score));
            if a[0].similarity.ties_with(score) {
                let kept_a = tied_entries(rest_a, score);
                let kept_b = tied_entries(rest_b, score);
                assert((seq![a[0]] + kept_a).drop_first() =~= kept_a);
                assert((seq![b[0]] + kept_b).drop_first() =~= kept_b);
            }
        }
        lemma_same_ties_same_order(rest_a, rest_b);
        assert(a =~= seq![a[0]] + rest_a);
        assert(b =~= seq![b[0]] + rest_b);
    }
}

/// The ranking is the only arrangement of its kind: whatever is ranked and
/// holds, for every score, the entries that tie with it in the order in
/// which they came, is the ranking.
pub proof fn lemma_ranking_is_unique(
    entries: Seq<SimilarityResultView>,
    arrangement: Seq<SimilarityResultView>,
)
    requires
        is_ranked(arrangement),
        forall|score: Similarity| #[trigger]
            tied_entries(arrangement, score) == tied_entries(entries, score),
    ensures
        arrangement == ranked(entries),
{
    lemma_ranked_is_ranked(entries);
    assert forall|score: Similarity| #[trigger]
        tied_entries(arrangement, score) == tied_entries(ranked(entries), score) by {
        lemma_ranked_keeps_ties_in_order(entries, score);
    }
    lemma_same_ties_same_order(arrangement, ranked(entries));
}

/// What holds half way through the merging of the rankings `front` and
/// `back`, when the last entries of both have been moved to `tail` and
/// `left` and `right` entries of them remain: the tail is ranked, nothing in
/// it must stand ahead of a remaining entry, it holds the entries that were
/// moved with those of `front` ahead of those of `back` that tie with them,
/// and every remaining entry of `back` must stand ahead of every entry of
/// `front` that was moved.
spec fn merging(
    front: Seq<SimilarityResultView>,
    back: Seq<SimilarityResultView>,
    left: int,
    right: int,
    tail: Seq<SimilarityResultView>,
) -> bool {
    &&& 0 <= left <= front.len()
    &&& 0 <= right <= back.len()
    &&& is_ranked(front)
    &&& is_ranked(back)
    &&& is_ranked(tail)
    &&& forall|k: int, t: int|
        0 <= k < tail.len() && 0 <= t < left ==> !(#[trigger] tail[k]).similarity.ranks_before(
            (#[trigger] front[t]).similarity,
        )
    &&& forall|k: int, t: int|
        0 <= k < tail.len() && 0 <= t < right ==> !(#[trigger] tail[k]).similarity.ranks_before(
            (#[trigger] back[t]).similarity,
        )
    &&& forall|score: Similarity| #[trigger]
        tied_entries(tail, score) == tied_entries(front.skip(left), score) + tied_entries(
            back.skip(right),
            score,
        )
    &&& forall|t: int, u: int|
        0 <= t < right && left <= u < front.len() ==> (#[trigger] back[t]).similarity.ranks_before(
            (#[trigger] front[u]).similarity,
        )
}

/// Putting an entry ahead of a ranked sequence in which nothing must stand
/// ahead of it leaves the sequence ranked.
proof fn lemma_ranked_with_head(entry: SimilarityResultView, tail: Seq<SimilarityResultView>)
    requires
        is_ranked(tail),
        forall|k: int|
            0 <= k < tail.len() ==> !(#[trigger] tail[k]).similarity.ranks_before(entry.similarity),
    ensures
        is_ranked(seq![entry] + tail),
{
    let whole = seq![entry] + tail;
    assert forall|i: int, j: int| 0 <= i < j < whole.len() implies !(#[trigger] whole[j])
        .similarity.ranks_before((#[trigger] whole[i]).similarity) by {
        assert(whole[j] == tail[j - 1]);
        if i > 0 {
            assert(whole[i] == tail[i - 1]);
        }
    }
}

/// The merging goes on when the last remaining entry of `front` is moved,
/// as long as `back` has no entry left or its last one must stand ahead of
/// the entry moved.
proof fn lemma_merging_moves_front(
    front: Seq<SimilarityResultView>,
    back: Seq<SimilarityResultView>,
    left: int,
    right: int,
    tail: Seq<SimilarityResultView>,
)
    requires
        merging(front, back, left, right, tail),
        left > 0,
        right > 0 ==> back[right - 1].similarity.ranks_before(front[left - 1].similarity),
    ensures
        merging(front, back, left - 1, right, seq![front[left - 1]] + tail),
{
    let entry = front[left - 1];
    let longer = seq![entry] + tail;
    lemma_ranked_with_head(entry, tail);
    assert forall|k: int, t: int| 0 <= k < longer.len() && 0 <= t < left - 1 implies !(
    #[trigger] longer[k]).similarity.ranks_before((#[trigger] front[t]).similarity) by {
        if k > 0 {
            assert(longer[k] == tail[k - 1]);
        }
    }
    assert forall|k: int, t: int| 0 <= k < longer.len() && 0 <= t < right implies !(
    #[trigger] longer[k]).similarity.ranks_before((#[trigger] back[t]).similarity) by {
        if k > 0 {
            assert(longer[k] == tail[k - 1]);
        } else {
            assert(back[right - 1].similarity.ranks_before(entry.similarity));
            if t < right - 1 {
                assert(!back[right - 1].similarity.ranks_before(back[t].similarity));
            }
        }
    }
    assert forall|score: Similarity| #[trigger]
        tied_entries(longer, score) == tied_entries(front.skip(left - 1), score) + tied_entries(
            back.skip(right),
            score,
        ) by {
        let moved = front.skip(left);
        assert(front.skip(left - 1) =~= seq![entry] + moved);
        lemma_tied_entries_unfold(seq![entry] + moved, score);
        lemma_tied_entries_unfold(longer, score);
        assert((seq![entry] + moved).drop_first() =~= moved);
        assert(longer.drop_first() =~= tail);
        assert(tied_entries(tail, score) == tied_entries(moved, score) + tied_entries(
            back.skip(right),
            score,
        ));
        if entry.similarity.ties_with(score) {
            assert(seq![entry] + (tied_entries(moved, score) + tied_entries(
                back.skip(right),
                score,
            )) =~= (seq![entry] + tied_entries(moved, score)) + tied_entries(
                back.skip(right),
                score,
            ));
        }
    }
    assert forall|t: int, u: int| 0 <= t < right && left - 1 <= u < front.len() implies (
    #[trigger] back[t]).similarity.ranks_before((#[trigger] front[u]).similarity) by {
        if u == left - 1 {
            assert(back[right - 1].similarity.ranks_before(entry.similarity));
            if t < right - 1 {
                assert(!back[right - 1].similarity.ranks_before(back[t].similarity));
            }
        }
    }
}

/// The merging goes on when the last remaining entry of `back` is moved, as
/// long as `front` has no entry left or the entry moved need not stand ahead
/// of its last one.
proof fn lemma_merging_moves_back(
    front: Seq<SimilarityResultView>,
    back: Seq<SimilarityResultView>,
    left: int,
    right: int,
    tail: Seq<SimilarityResultView>,
)
    requires
        merging(front, back, left, right, tail),
        right > 0,
        left > 0 ==> !back[right - 1].similarity.ranks_before(front[left - 1].similarity),
    ensures
        merging(front, back, left, right - 1, seq![back[right - 1]] + tail),
{
    let entry = back[right - 1];
    let longer = seq![entry] + tail;
    lemma_ranked_with_head(entry, tail);
    assert forall|k: int, t: int| 0 <= k < longer.len() && 0 <= t < left implies !(
    #[trigger] longer[k]).similarity.ranks_before((#[trigger] front[t]).similarity) by {
        if k > 0 {
            assert(longer[k] == tail[k - 1]);
        } else {
            assert(!entry.similarity.ranks_before(front[left - 1].similarity));
            if t < left - 1 {
                assert(!front[left - 1].similarity.ranks_before(front[t].similarity));
            }
        }
    }
    assert forall|k: int, t: int| 0 <= k < longer.len() && 0 <= t < right - 1 implies !(
    #[trigger] longer[k]).similarity.ranks_before((#[trigger] back[t]).similarity) by {
        if k > 0 {
            assert(longer[k] == tail[k - 1]);
        }
    }
    assert forall|score: Similarity| #[trigger]
        tied_entries(longer, score) == tied_entries(front.skip(left), score) + tied_entries(
            back.skip(right - 1),
            score,
        ) by {
        let moved_front = front.skip(left);
        let moved_back = back.skip(right);
        assert(back.skip(right - 1) =~= seq![entry] + moved_back);
        lemma_tied_entries_unfold(seq![entry] + moved_back, score);
        lemma_tied_entries_unfold(longer, score);
        assert((seq![entry] + moved_back).drop_first() =~= moved_back);
        assert(longer.drop_first() =~= tail);
        assert(tied_entries(tail, score) == tied_entries(moved_front, score) + tied_entries(
            moved_back,
            score,
        ));
        if entry.similarity.ties_with(score) {
            assert forall|i: int| 0 <= i < moved_front.len() implies !(#[trigger] moved_front[i])
                .similarity.ties_with(score) by {
                assert(moved_front[i] == front[left + i]);
                assert(back[right - 1].similarity.ranks_before(front[left + i].similarity));
            }
            lemma_no_tied_entries(moved_front, score);
            assert(seq![entry] + (Seq::<SimilarityResultView>::empty() + tied_entries(
                moved_back,
                score,
            )) =~= Seq::<SimilarityResultView>::empty() + (seq![entry] + tied_entries(
                moved_back,
                score,
            )));
        }
    }
}

/// The entries in the opposite order.
fn mirror(entries: Vec<SimilarityResult>) -> (mirrored: Vec<SimilarityResult>)
    ensures
        mirrored.deep_view() == entries.deep_view().reverse(),
{
    let ghost given = entries.deep_view();
    let mut entries = entries;
    let mut mirrored: Vec<SimilarityResult> = Vec::new();
    while entries.len() > 0
        invariant
            entries.len() <= given.len(),
            entries.deep_view() == given.take(entries.len() as int),
            mirrored.len() == given.len() - entries.len(),
            forall|k: int|
                0 <= k < mirrored.len() ==> (#[trigger] mirrored[k])@ == given[given.len() - 1
                    - k],
        decreases entries.len(),
    {
        let ghost left = entries.len() as int;
        assert(entries.deep_view()[left - 1] == given[left - 1]);
        let entry = entries.pop().unwrap();
        mirrored.push(entry);
        assert(entries.deep_view() =~= given.take(left - 1));
    }
    assert(mirrored.deep_view() =~= given.reverse());
    mirrored
}

/// Merges two rankings into one that holds the entries of both, those of
/// `front` ahead of those of `back` that they tie with.
fn merge(front: Vec<SimilarityResult>, back: Vec<SimilarityResult>) -> (merged: Vec<
    SimilarityResult,
>)
    requires
        is_ranked(front.deep_view()),
        is_ranked(back.deep_view()),
    ensures
        is_ranked(merged.deep_view()),
        forall|score: Similarity| #[trigger]
            tied_entries(merged.deep_view(), score) == tied_entries(front.deep_view(), score)
                + tied_entries(back.deep_view(), score),
{
    let ghost first = front.deep_view();
    let ghost second = back.deep_view();
    let ghost mut tail: Seq<SimilarityResultView> = Seq::empty();
    let mut front = front;
    let mut back = back;
    let mut backward: Vec<SimilarityResult> = Vec::new();
    proof {
        assert(first.take(first.len() as int) =~= first);
        assert(second.take(second.len() as int) =~= second);
        assert(first.skip(first.len() as int) =~= Seq::empty());
        assert(second.skip(second.len() as int) =~= Seq::empty());
        assert forall|score: Similarity| #[trigger]
            tied_entries(tail, score) == tied_entries(first.skip(first.len() as int), score)
                + tied_entries(second.skip(second.len() as int), score) by {
            lemma_no_tied_entries(Seq::empty(), score);
        }
        assert(backward.deep_view() =~= tail.reverse());
    }
    while front.len() > 0 || back.len() > 0
        invariant
            front.len() <= first.len(),
            back.len() <= second.len(),
            front.deep_view() == first.take(front.len() as int),
            back.deep_view() == second.take(back.len() as int),
            backward.deep_view() == tail.reverse(),
            merging(first, second, front.len() as int, back.len() as int, tail),
        decreases front.len() + back.len(),
    {
        let ghost left = front.len() as int;
        let ghost right = back.len() as int;
        let ghost before = backward.deep_view();
        let from_front = if back.len() == 0 {
            true
        } else if front.len() == 0 {
            false
        } else {
            proof {
                assert(front.deep_view()[left - 1] == first[left - 1]);
                assert(back.deep_view()[right - 1] == second[right - 1]);
            }
            back[back.len() - 1].similarity.ranks_before(front[front.len() - 1].similarity)
        };
        if from_front {
            proof {
                assert(front.deep_view()[left - 1] == first[left - 1]);
                lemma_merging_moves_front(first, second, left, right, tail);
            }
            let entry = front.pop().unwrap();
            backward.push(entry);
            proof {
                assert(front.deep_view() =~= first.take(left - 1));
                assert(backward.deep_view() =~= before.push(entry@));
                assert(before.push(entry@) =~= (seq![entry@] + tail).reverse());
                tail = seq![entry@] + tail;
            }
        } else {
            proof {
                assert(back.deep_view()[right - 1] == second[right - 1]);
                lemma_merging_moves_back(first, second, left, right, tail);
            }
            let entry = back.pop().unwrap();
            backward.push(entry);
            proof {
                assert(back.deep_view() =~= second.take(right - 1));
                assert(backward.deep_view() =~= before.push(entry@));
                assert(before.push(entry@) =~= (seq![entry@] + tail).reverse());
                tail = seq![entry@] + tail;
            }
        }
    }
    let merged = mirror(backward);
    proof {
        assert(tail.reverse().reverse() =~= tail);
        assert(first.skip(0) =~= first);
        assert(second.skip(0) =~= second);
    }
    merged
}

/// Ranks scored passages: the most similar first, passages of equal
/// similarity in the order in which they came, and those whose similarity is
/// not a number last.
pub fn rank(results: Vec<SimilarityResult>) -> (ranking: Vec<SimilarityResult>)
    ensures
        ranking.deep_view() == ranked(results.deep_view()),
        is_ranked(ranking.deep_view()),
        forall|score: Similarity| #[trigger]
            tied_entries(ranking.deep_view(), score) == tied_entries(results.deep_view(), score),
        ranking.deep_view().to_multiset() == results.deep_view().to_multiset(),
        ranking.len() == results.len(),
    decreases results.len(),
{
    let ghost entries = results.deep_view();
    proof {
        lemma_ranked_is_ranked(entries);
        lemma_ranked_is_permutation(entries);
        assert forall|score: Similarity| #[trigger]
            tied_entries(ranked(entries), score) == tied_entries(entries, score) by {
            lemma_ranked_keeps_ties_in_order(entries, score);
        }
    }
    if results.len() <= 1 {
        proof {
            if entries.len() == 1 {
                assert(ranked(entries.drop_first()) =~= Seq::empty());
                assert(entries =~= placed(entries[0], Seq::empty()));
            } else {
                assert(entries =~= Seq::empty());
            }
        }
        return results;
    }
    let mut front = results;
    let back = front.split_off(front.len() / 2);
    let ghost first = front.deep_view();
    let ghost second = back.deep_view();
    assert(entries =~= first + second);
    let front = rank(front);
    let back = rank(back);
    let ranking = merge(front, back);
    proof {
        assert forall|score: Similarity| #[trigger]
            tied_entries(ranking.deep_view(), score) == tied_entries(entries, score) by {
            let ties = |entry: SimilarityResultView| entry.similarity.ties_with(score);
            Seq::filter_distributes_over_add(first, second, ties);
            assert(tied_entries(front.deep_view(), score) == tied_entries(first, score));
            assert(tied_entries(back.deep_view(), score) == tied_entries(second, score));
        }
        lemma_ranking_is_unique(entries, ranking.deep_view());
    }
    ranking
}

} // verus!
