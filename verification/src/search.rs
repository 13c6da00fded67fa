//! Answering a query: which stored chunks take part, how the scored ones are
//! ranked, and how the best of them become one block of context.
//!
//! Scoring itself happens outside this library. The library says which chunks
//! are to be scored, and takes each of them back with its score.

use crate::embedding::{embedding_outcome, refusal_of, Embedding, ProviderReply};
use crate::ranker::{is_ranking, lemma_ranking_exists, positions, rank, ranking};
use crate::score::Score;
use crate::text::{join, joined, texts_of};
use vstd::prelude::*;
use vstd::string::*;

verus! {

/// A chunk as the store hands it out: its text and its embedding.
#[derive(Debug)]
pub struct StoredChunk {
    pub text: String,
    pub embedding: Embedding,
}

/// A chunk that has been scored against the query.
#[derive(Debug)]
pub struct ScoredChunk {
    pub text: String,
    pub score: Score,
}

/// Whether a chunk takes part in ranking: it has a vector.
pub open spec fn is_scorable(chunk: StoredChunk) -> bool {
    chunk.embedding@.len() > 0
}

/// The chunks that take part in ranking, in the order in which they came.
pub open spec fn scorable_of(rows: Seq<StoredChunk>) -> Seq<StoredChunk> {
    rows.filter(|chunk: StoredChunk| is_scorable(chunk))
}

impl StoredChunk {
    /// The chunk with the given text and embedding.
    pub fn new(text: String, embedding: Embedding) -> (chunk: StoredChunk)
        ensures
            chunk.text == text,
            chunk.embedding == embedding,
    {
        StoredChunk { text, embedding }
    }

    /// Tells whether the chunk takes part in ranking.
    pub fn takes_part(&self) -> (yes: bool)
        ensures
            yes == is_scorable(*self),
    {
        !self.embedding.is_absent()
    }

    /// The chunk with its score, ready to be ranked.
    pub fn scored(self, score: Score) -> (scored: ScoredChunk)
        ensures
            scored.text == self.text,
            scored.score == score,
    {
        ScoredChunk { text: self.text, score }
    }
}

/// Keeps the chunks that have a vector and drops the others, before anything
/// is scored. The order of those that stay is unchanged.
pub fn scorable(rows: Vec<StoredChunk>) -> (kept: Vec<StoredChunk>)
    ensures
        kept@ == scorable_of(rows@),
        forall|i: int| 0 <= i < kept@.len() ==> is_scorable(#[trigger] kept@[i]),
{
    let mut kept: Vec<StoredChunk> = Vec::new();
    let ghost all = rows@;
    let ghost pred = |chunk: StoredChunk| is_scorable(chunk);
    proof {
        assert(all.take(0).filter(pred) == Seq::<StoredChunk>::empty()) by {
            reveal(Seq::filter);
        }
    }
    for row in it: rows
        invariant
            it.seq() == all,
            pred == (|chunk: StoredChunk| is_scorable(chunk)),
            kept@ == it.seq().take(it.index()).filter(pred),
    {
        proof {
            let earlier = it.seq().take(it.index());
            assert(it.seq().take(it.index() + 1) == earlier.push(row));
            earlier.lemma_filter_push(row, pred);
        }
        if row.takes_part() {
            kept.push(row);
        }
    }
    proof {
        assert(all.take(all.len() as int) == all);
        assert forall|i: int| 0 <= i < kept@.len() implies is_scorable(#[trigger] kept@[i]) by {
            all.lemma_filter_pred(pred, i);
        }
    }
    kept
}

/// Decides whether a query can be searched: it can when the provider sent a
/// vector for it. Otherwise the search fails, with the text that the caller is
/// told.
pub fn query_vector(reply: ProviderReply) -> (outcome: Result<Embedding, String>)
    ensures
        outcome is Ok <==> reply is Vector,
        match outcome {
            Ok(vector) => reply matches ProviderReply::Vector { embedding } && vector@
                == embedding@,
            Err(told) => told@ == refusal_of(reply),
        },
{
    match embedding_outcome(reply) {
        Ok(vector) => Ok(vector),
        Err(error) => Err(error.message()),
    }
}

/// The separator between two chunks of a context.
pub fn context_delimiter() -> (delimiter: &'static str)
    ensures
        delimiter@ == "\n---\n"@,
{
    "\n---\n"
}

/// The scores of the candidates, in their order.
pub open spec fn scores_of(scored: Seq<ScoredChunk>) -> Seq<Score> {
    Seq::new(scored.len(), |i: int| scored[i].score)
}

/// The texts of the best `k` candidates, best first.
pub open spec fn ranked_texts(scored: Seq<ScoredChunk>, k: nat) -> Seq<Seq<char>> {
    let order = ranking(scores_of(scored), k);
    Seq::new(order.len(), |i: int| scored[order[i]].text@)
}

/// The context that answers a query: the texts of the best `k` candidates,
/// best first, with the delimiter between neighbours.
pub open spec fn context_of(scored: Seq<ScoredChunk>, k: nat) -> Seq<char> {
    joined(ranked_texts(scored, k), "\n---\n"@)
}

/// Ranks the candidates and returns the texts of the best `k`, best first:
/// by falling score, and among candidates whose scores rank alike, in the
/// order of the input. Where fewer than `k` candidates exist, all are returned.
pub fn top_texts(scored: &Vec<ScoredChunk>, k: usize) -> (texts: Vec<String>)
    ensures
        texts_of(texts@) == ranked_texts(scored@, k as nat),
        texts@.len() == if k <= scored@.len() {
            k as int
        } else {
            scored@.len() as int
        },
{
    let mut scores: Vec<Score> = Vec::new();
    let mut i: usize = 0;
    while i < scored.len()
        invariant
            i <= scored.len(),
            scores@ == scores_of(scored@).take(i as int),
        decreases scored.len() - i,
    {
        scores.push(scored[i].score);
        i = i + 1;
    }
    assert(scores@ == scores_of(scored@));
    let order = rank(&scores, k);
    let mut texts: Vec<String> = Vec::new();
    let mut j: usize = 0;
    while j < order.len()
        invariant
            j <= order.len(),
            scores@ == scores_of(scored@),
            is_ranking(scores@, k as nat, positions(order@)),
            positions(order@) == ranking(scores@, k as nat),
            texts@.len() == j,
            forall|m: int| 0 <= m < j ==> #[trigger] texts@[m]@ == scored@[order@[m] as int].text@,
        decreases order.len() - j,
    {
        assert(0 <= positions(order@)[j as int] < scored@.len());
        texts.push(scored[order[j]].text.clone());
        j = j + 1;
    }
    assert(texts_of(texts@) =~= ranked_texts(scored@, k as nat)) by {
        assert forall|m: int| 0 <= m < texts@.len() implies texts_of(texts@)[m] == ranked_texts(
            scored@,
            k as nat,
        )[m] by {
            assert(positions(order@)[m] == order@[m] as int);
        }
    }
    texts
}

/// Builds the context for a query from the scored candidates: the texts of
/// the best `k`, best first, joined by the delimiter. No candidates give an
/// empty context.
pub fn build_context(scored: &Vec<ScoredChunk>, k: usize) -> (context: String)
    ensures
        context@ == context_of(scored@, k as nat),
        scored@.len() == 0 ==> context@ == Seq::<char>::empty(),
{
    let texts = top_texts(scored, k);
    let context = join(&texts, context_delimiter());
    proof {
        if scored@.len() == 0 {
            assert(texts_of(texts@).len() == 0);
        }
    }
    context
}

/// The results come in ranked order: along them the score never rises, and of
/// two results whose scores rank alike the one that came first in the input
/// stands first. There are `k` results, or one for every candidate where
/// there are fewer than `k` candidates.
pub proof fn lemma_results_are_ranked(scored: Seq<ScoredChunk>, k: nat, i: int, j: int)
    requires
        0 <= i < j < ranked_texts(scored, k).len(),
    ensures
        ranked_texts(scored, k).len() == if k <= scored.len() {
            k
        } else {
            scored.len()
        },
        0 <= ranking(scores_of(scored), k)[i] < scored.len(),
        0 <= ranking(scores_of(scored), k)[j] < scored.len(),
        ranked_texts(scored, k)[i] == scored[ranking(scores_of(scored), k)[i]].text@,
        ranked_texts(scored, k)[j] == scored[ranking(scores_of(scored), k)[j]].text@,
        !scored[ranking(scores_of(scored), k)[j]].score.outranks(
            scored[ranking(scores_of(scored), k)[i]].score,
        ),
        !scored[ranking(scores_of(scored), k)[i]].score.outranks(
            scored[ranking(scores_of(scored), k)[j]].score,
        ) ==> ranking(scores_of(scored), k)[i] < ranking(scores_of(scored), k)[j],
{
    let scores = scores_of(scored);
    let order = ranking(scores, k);
    lemma_ranking_exists(scores, k);
    assert(crate::ranker::ranks_before(scores, order[i], order[j]));
}

/// Asking for more results than there are candidates is no error: every
/// candidate is returned.
pub proof fn lemma_fewer_candidates_than_asked(scored: Seq<ScoredChunk>, k: nat)
    requires
        scored.len() <= k,
    ensures
        ranked_texts(scored, k).len() == scored.len(),
{
    lemma_ranking_exists(scores_of(scored), k);
}

/// A chunk without a vector never reaches the results: whatever scores the
/// scorable chunks of `rows` are given, and however many results are asked
/// for, every result is one of the chunks of `rows` that has a vector.
pub proof fn lemma_absent_embeddings_never_rank(
    rows: Seq<StoredChunk>,
    scored: Seq<ScoredChunk>,
    k: nat,
    i: int,
)
    requires
        scored.len() == scorable_of(rows).len(),
        forall|m: int| 0 <= m < scored.len() ==> (#[trigger] scored[m]).text == scorable_of(
            rows,
        )[m].text,
        0 <= i < ranked_texts(scored, k).len(),
    ensures
        0 <= ranking(scores_of(scored), k)[i] < scorable_of(rows).len(),
        is_scorable(scorable_of(rows)[ranking(scores_of(scored), k)[i]]),
        rows.contains(scorable_of(rows)[ranking(scores_of(scored), k)[i]]),
        ranked_texts(scored, k)[i] == scorable_of(rows)[ranking(scores_of(scored), k)[i]].text@,
{
    let pred = |chunk: StoredChunk| is_scorable(chunk);
    let order = ranking(scores_of(scored), k);
    lemma_ranking_exists(scores_of(scored), k);
    assert(0 <= order[i] < scored.len());
    rows.lemma_filter_pred(pred, order[i]);
    assert(scorable_of(rows).contains(scorable_of(rows)[order[i]]));
    rows.lemma_filter_contains_rev(pred, scorable_of(rows)[order[i]]);
}

/// A query against an empty store is answered with an empty context.
pub proof fn lemma_empty_store_gives_empty_context(k: nat)
    ensures
        scorable_of(Seq::<StoredChunk>::empty()) == Seq::<StoredChunk>::empty(),
        context_of(Seq::<ScoredChunk>::empty(), k) == Seq::<char>::empty(),
{
    lemma_ranking_exists(scores_of(Seq::<ScoredChunk>::empty()), k);
    assert(ranked_texts(Seq::<ScoredChunk>::empty(), k).len() == 0);
}

} // verus!
