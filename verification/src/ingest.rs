//! Ingestion: from a list of documents to chunks in the store.
//!
//! Reading files, asking the embedding provider and writing to the store
//! happen outside this library. The library decides what is to be done next.
//! An `Ingestion` names one action at a time; whoever drives it performs the
//! action and reports what came of it as an event, and the ingestion moves on:
//!
//! * `Extract` is answered by `Extracted`, with the text of the document, or
//!   with an empty text where the document could not be read;
//! * `Embed` is answered by `Embedded`, with the reply of the provider;
//! * `Append` is answered by `Stored` or by `StoreFailed`;
//! * `Finish` ends the run, with the summary or with the cause of the failure.
//!
//! An event that does not answer the pending action changes nothing.

use crate::chunker::{chunks_of, lemma_window_positions, valid_window, ChunkConfig};
use crate::document::{Document, DocumentView, ExtractionStrategy};
use crate::embedding::{embedding_outcome, Embedding, ProviderReply};
use crate::text::{decimal, decimal_string, is_blank, text_is_blank, texts_of};
use vstd::prelude::*;
use vstd::string::*;

verus! {

/// What is to be done next.
#[derive(Debug)]
pub enum IngestAction {
    /// Read the text of the document at `path` in the given way.
    Extract { path: String, strategy: ExtractionStrategy },
    /// Ask the provider for the embedding of `text`.
    Embed { text: String },
    /// Put one chunk into the store.
    Append { source_path: String, text: String, embedding: Embedding },
    /// Nothing is left to do: the run ended with a summary, or failed with a
    /// cause.
    Finish { outcome: Result<String, String> },
}

/// An action, with texts as sequences of characters.
pub enum ActionView {
    Extract { path: Seq<char>, strategy: ExtractionStrategy },
    Embed { text: Seq<char> },
    Append { source_path: Seq<char>, text: Seq<char>, embedding: Seq<u64> },
    Finish { outcome: Result<Seq<char>, Seq<char>> },
}

impl View for IngestAction {
    type V = ActionView;

    open spec fn view(&self) -> ActionView {
        match self {
            IngestAction::Extract { path, strategy } => ActionView::Extract {
                path: path@,
                strategy: *strategy,
            },
            IngestAction::Embed { text } => ActionView::Embed { text: text@ },
            IngestAction::Append { source_path, text, embedding } => ActionView::Append {
                source_path: source_path@,
                text: text@,
                embedding: embedding@,
            },
            IngestAction::Finish { outcome } => ActionView::Finish {
                outcome: match outcome {
                    Ok(summary) => Ok(summary@),
                    Err(cause) => Err(cause@),
                },
            },
        }
    }
}

/// What came of an action.
#[derive(Debug)]
pub enum IngestEvent {
    /// The text of the document; empty where it could not be read.
    Extracted { text: String },
    /// What the provider answered.
    Embedded { reply: ProviderReply },
    /// The chunk is in the store, under the given row id.
    Stored { id: i64 },
    /// The store refused the chunk.
    StoreFailed { cause: String },
}

/// The vector that a reply of the provider carries; none where the reply is
/// no vector.
pub open spec fn vector_of(reply: ProviderReply) -> Seq<u64> {
    match reply {
        ProviderReply::Vector { embedding } => embedding@,
        _ => Seq::empty(),
    }
}

/// An event, reduced to what the ingestion reads of it.
pub enum EventView {
    Extracted { text: Seq<char> },
    Embedded { vector: Seq<u64> },
    Stored,
    StoreFailed { cause: Seq<char> },
}

impl View for IngestEvent {
    type V = EventView;

    open spec fn view(&self) -> EventView {
        match self {
            IngestEvent::Extracted { text } => EventView::Extracted { text: text@ },
            IngestEvent::Embedded { reply } => EventView::Embedded { vector: vector_of(*reply) },
            IngestEvent::Stored { id } => EventView::Stored,
            IngestEvent::StoreFailed { cause } => EventView::StoreFailed { cause: cause@ },
        }
    }
}

/// A chunk that the store has taken: where it came from, and its text.
pub struct StoredView {
    pub source_path: Seq<char>,
    pub text: Seq<char>,
}

/// What the ingestion is waiting for.
pub enum PhaseView {
    /// The text of the document at `position`.
    Extracting,
    /// The embedding of the chunk at `cursor`.
    Embedding,
    /// The store's word on the chunk at `cursor`, which goes there with
    /// `embedding`.
    Storing { embedding: Seq<u64> },
    /// Nothing: every document has been dealt with.
    Done,
    /// Nothing: the store failed.
    Failed { cause: Seq<char> },
}

/// The state of an ingestion.
pub struct IngestionView {
    /// The window size.
    pub size: nat,
    /// The window overlap.
    pub overlap: nat,
    /// The documents of the run.
    pub documents: Seq<DocumentView>,
    /// The document in work.
    pub position: nat,
    /// The chunks of the document in work.
    pub chunks: Seq<Seq<char>>,
    /// The chunk in work.
    pub cursor: nat,
    /// What is awaited.
    pub phase: PhaseView,
    /// The number of chunks stored, as it is reported.
    pub indexed: nat,
    /// The texts received so far, one for each document that the run has
    /// reached; the empty text for a document that was skipped.
    pub received: Seq<Seq<char>>,
    /// The chunks that the store has taken so far, in order.
    pub stored: Seq<StoredView>,
}

/// The first document from `from` on that is not skipped, or the number of
/// documents where there is none.
pub open spec fn seek(documents: Seq<DocumentView>, from: nat) -> nat
    decreases documents.len() - from,
{
    if from >= documents.len() {
        documents.len()
    } else if documents[from as int].strategy is Some {
        from
    } else {
        seek(documents, from + 1)
    }
}

/// The texts, filled up with empty texts to `n` entries.
pub open spec fn padded(texts: Seq<Seq<char>>, n: nat) -> Seq<Seq<char>> {
    Seq::new(
        n,
        |i: int|
            if i < texts.len() {
                texts[i]
            } else {
                Seq::empty()
            },
    )
}

/// The count after one more chunk has been stored. It stops at the largest
/// number that the counter can hold.
pub open spec fn bumped(indexed: nat) -> nat {
    if indexed < u64::MAX {
        indexed + 1
    } else {
        indexed
    }
}

/// The summary of a run that stored `indexed` chunks.
pub open spec fn summary_of(indexed: nat) -> Seq<char> {
    "Indexed "@ + decimal(indexed) + " text chunks from documents into local DB."@
}

/// What a document contributes to the store when its text is `text`: nothing
/// where the document is skipped or the text is blank, else its chunks in
/// order, each under the path of the document.
pub open spec fn planned_for(
    document: DocumentView,
    text: Seq<char>,
    size: nat,
    overlap: nat,
) -> Seq<StoredView> {
    if document.strategy is None || is_blank(text) {
        Seq::empty()
    } else {
        let chunks = chunks_of(text, size, overlap);
        Seq::new(
            chunks.len(),
            |i: int| StoredView { source_path: document.path, text: chunks[i] },
        )
    }
}

/// What the first `n` documents contribute to the store, in order.
pub open spec fn planned(
    documents: Seq<DocumentView>,
    texts: Seq<Seq<char>>,
    size: nat,
    overlap: nat,
    n: nat,
) -> Seq<StoredView>
    decreases n,
{
    if n == 0 {
        Seq::empty()
    } else {
        planned(documents, texts, size, overlap, (n - 1) as nat) + planned_for(
            documents[n - 1],
            texts[n - 1],
            size,
            overlap,
        )
    }
}

impl IngestionView {
    /// The state in which the run turns to the first document from `from` on
    /// that is not skipped, or ends where there is none.
    pub open spec fn entered(self, from: nat) -> IngestionView {
        let next = seek(self.documents, from);
        IngestionView {
            position: next,
            chunks: Seq::empty(),
            cursor: 0,
            phase: if next < self.documents.len() {
                PhaseView::Extracting
            } else {
                PhaseView::Done
            },
            received: padded(self.received, next),
            ..self
        }
    }

    /// The state after `event`.
    pub open spec fn after(self, event: EventView) -> IngestionView {
        match (self.phase, event) {
            (PhaseView::Extracting, EventView::Extracted { text }) => {
                let got = IngestionView { received: self.received.push(text), ..self };
                if is_blank(text) {
                    got.entered(self.position + 1)
                } else {
                    IngestionView {
                        chunks: chunks_of(text, self.size, self.overlap),
                        cursor: 0,
                        phase: PhaseView::Embedding,
                        ..got
                    }
                }
            },
            (PhaseView::Embedding, EventView::Embedded { vector }) => IngestionView {
                phase: PhaseView::Storing { embedding: vector },
                ..self
            },
            (PhaseView::Storing { embedding }, EventView::Stored) => {
                let counted = IngestionView {
                    indexed: bumped(self.indexed),
                    stored: self.stored.push(
                        StoredView {
                            source_path: self.documents[self.position as int].path,
                            text: self.chunks[self.cursor as int],
                        },
                    ),
                    ..self
                };
                if self.cursor + 1 < self.chunks.len() {
                    IngestionView {
                        cursor: self.cursor + 1,
                        phase: PhaseView::Embedding,
                        ..counted
                    }
                } else {
                    counted.entered(self.position + 1)
                }
            },
            (PhaseView::Storing { embedding }, EventView::StoreFailed { cause }) => IngestionView {
                phase: PhaseView::Failed { cause },
                ..self
            },
            _ => self,
        }
    }

    /// The action that the state asks for.
    pub open spec fn action(self) -> ActionView {
        match self.phase {
            PhaseView::Extracting => ActionView::Extract {
                path: self.documents[self.position as int].path,
                strategy: self.documents[self.position as int].strategy->0,
            },
            PhaseView::Embedding => ActionView::Embed { text: self.chunks[self.cursor as int] },
            PhaseView::Storing { embedding } => ActionView::Append {
                source_path: self.documents[self.position as int].path,
                text: self.chunks[self.cursor as int],
                embedding,
            },
            PhaseView::Done => ActionView::Finish { outcome: Ok(summary_of(self.indexed)) },
            PhaseView::Failed { cause } => ActionView::Finish { outcome: Err(cause) },
        }
    }

    /// Whether the run has ended.
    pub open spec fn finished(self) -> bool {
        self.phase is Done || self.phase is Failed
    }

    /// What holds of every state that a run can reach.
    ///
    /// The count is the number of chunks stored. While the run goes on, the
    /// store holds what the documents before the one in work contribute, and
    /// of the document in work the chunks before the cursor. At the end it
    /// holds what all documents contribute, and nothing else.
    pub open spec fn wf(self) -> bool {
        &&& valid_window(self.size, self.overlap)
        &&& self.position <= self.documents.len()
        &&& self.indexed == if self.stored.len() <= u64::MAX {
            self.stored.len()
        } else {
            u64::MAX as nat
        }
        &&& match self.phase {
            PhaseView::Extracting => {
                &&& self.position < self.documents.len()
                &&& self.documents[self.position as int].strategy is Some
                &&& self.received.len() == self.position
                &&& self.stored == planned(
                    self.documents,
                    self.received,
                    self.size,
                    self.overlap,
                    self.position,
                )
            },
            PhaseView::Embedding | PhaseView::Storing { .. } => {
                &&& self.position < self.documents.len()
                &&& self.documents[self.position as int].strategy is Some
                &&& self.received.len() == self.position + 1
                &&& !is_blank(self.received[self.position as int])
                &&& self.chunks == chunks_of(
                    self.received[self.position as int],
                    self.size,
                    self.overlap,
                )
                &&& self.cursor < self.chunks.len()
                &&& self.stored == planned(
                    self.documents,
                    self.received,
                    self.size,
                    self.overlap,
                    self.position,
                ) + planned_for(
                    self.documents[self.position as int],
                    self.received[self.position as int],
                    self.size,
                    self.overlap,
                ).take(self.cursor as int)
            },
            PhaseView::Done => {
                &&& self.position == self.documents.len()
                &&& self.received.len() == self.documents.len()
                &&& self.stored == planned(
                    self.documents,
                    self.received,
                    self.size,
                    self.overlap,
                    self.documents.len(),
                )
            },
            PhaseView::Failed { .. } => true,
        }
    }
}

/// The state in which a run over `documents` begins.
pub open spec fn initial(size: nat, overlap: nat, documents: Seq<DocumentView>) -> IngestionView {
    IngestionView {
        size,
        overlap,
        documents,
        position: 0,
        chunks: Seq::empty(),
        cursor: 0,
        phase: PhaseView::Done,
        indexed: 0,
        received: Seq::empty(),
        stored: Seq::empty(),
    }.entered(0)
}

/// Where `seek` lands: at or behind `from`, behind nothing but skipped
/// documents, and on a document that is not skipped unless it ran off the end.
pub proof fn lemma_seek(documents: Seq<DocumentView>, from: nat)
    requires
        from <= documents.len(),
    ensures
        from <= seek(documents, from) <= documents.len(),
        forall|i: int|
            from <= i < seek(documents, from) ==> (#[trigger] documents[i]).strategy is None,
        seek(documents, from) < documents.len() ==> documents[seek(
            documents,
            from,
        ) as int].strategy is Some,
    decreases documents.len() - from,
{
    if from < documents.len() && documents[from as int].strategy is None {
        lemma_seek(documents, from + 1);
    }
}

proof fn lemma_planned_same_prefix(
    documents: Seq<DocumentView>,
    a: Seq<Seq<char>>,
    b: Seq<Seq<char>>,
    size: nat,
    overlap: nat,
    n: nat,
)
    requires
        forall|i: int| 0 <= i < n ==> a[i] == b[i],
    ensures
        planned(documents, a, size, overlap, n) == planned(documents, b, size, overlap, n),
    decreases n,
{
    if n > 0 {
        lemma_planned_same_prefix(documents, a, b, size, overlap, (n - 1) as nat);
    }
}

proof fn lemma_planned_skips(
    documents: Seq<DocumentView>,
    texts: Seq<Seq<char>>,
    size: nat,
    overlap: nat,
    from: nat,
    to: nat,
)
    requires
        from <= to,
        forall|i: int| from <= i < to ==> (#[trigger] documents[i]).strategy is None,
    ensures
        planned(documents, texts, size, overlap, to) == planned(
            documents,
            texts,
            size,
            overlap,
            from,
        ),
    decreases to,
{
    if from < to {
        lemma_planned_skips(documents, texts, size, overlap, from, (to - 1) as nat);
        assert(documents[to - 1].strategy is None);
        assert(planned_for(documents[to - 1], texts[to - 1], size, overlap) =~= Seq::empty());
    }
}

proof fn lemma_entered_wf(s: IngestionView, from: nat)
    requires
        valid_window(s.size, s.overlap),
        from <= s.documents.len(),
        s.received.len() == from,
        s.stored == planned(s.documents, s.received, s.size, s.overlap, from),
        s.indexed == if s.stored.len() <= u64::MAX {
            s.stored.len()
        } else {
            u64::MAX as nat
        },
    ensures
        s.entered(from).wf(),
{
    let next = seek(s.documents, from);
    lemma_seek(s.documents, from);
    lemma_planned_same_prefix(
        s.documents,
        s.received,
        padded(s.received, next),
        s.size,
        s.overlap,
        from,
    );
    lemma_planned_skips(s.documents, padded(s.received, next), s.size, s.overlap, from, next);
}

/// A run begins in a state of which `wf` holds.
pub proof fn lemma_initial_wf(size: nat, overlap: nat, documents: Seq<DocumentView>)
    requires
        valid_window(size, overlap),
    ensures
        initial(size, overlap, documents).wf(),
{
    let start = IngestionView {
        size,
        overlap,
        documents,
        position: 0,
        chunks: Seq::empty(),
        cursor: 0,
        phase: PhaseView::Done,
        indexed: 0,
        received: Seq::empty(),
        stored: Seq::empty(),
    };
    lemma_entered_wf(start, 0);
}

/// Every event leads from a state of which `wf` holds to another such state.
/// So `wf` holds of every state that a run reaches.
pub proof fn lemma_after_wf(s: IngestionView, event: EventView)
    requires
        s.wf(),
    ensures
        s.after(event).wf(),
{
    match (s.phase, event) {
        (PhaseView::Extracting, EventView::Extracted { text }) => {
            let got = IngestionView { received: s.received.push(text), ..s };
            lemma_planned_same_prefix(
                s.documents,
                s.received,
                got.received,
                s.size,
                s.overlap,
                s.position,
            );
            if is_blank(text) {
                assert(planned_for(s.documents[s.position as int], text, s.size, s.overlap)
                    =~= Seq::empty());
                assert(got.stored == planned(
                    got.documents,
                    got.received,
                    got.size,
                    got.overlap,
                    s.position + 1,
                ));
                lemma_entered_wf(got, s.position + 1);
            } else {
                assert(text.len() > 0) by {
                    if text.len() == 0 {
                        assert(is_blank(text));
                    }
                }
                lemma_window_positions(text.len(), s.size, s.overlap);
                let next = s.after(event);
                assert(planned_for(
                    next.documents[next.position as int],
                    next.received[next.position as int],
                    next.size,
                    next.overlap,
                ).take(0) =~= Seq::empty());
            }
        },
        (PhaseView::Embedding, EventView::Embedded { vector }) => {},
        (PhaseView::Storing { embedding }, EventView::Stored) => {
            let all = planned_for(
                s.documents[s.position as int],
                s.received[s.position as int],
                s.size,
                s.overlap,
            );
            let before = planned(s.documents, s.received, s.size, s.overlap, s.position);
            let taken = StoredView {
                source_path: s.documents[s.position as int].path,
                text: s.chunks[s.cursor as int],
            };
            let counted = IngestionView {
                indexed: bumped(s.indexed),
                stored: s.stored.push(taken),
                ..s
            };
            assert(all[s.cursor as int] == taken);
            assert(all.take((s.cursor + 1) as int) =~= all.take(s.cursor as int).push(taken));
            assert(counted.stored =~= before + all.take((s.cursor + 1) as int));
            if s.cursor + 1 < s.chunks.len() {
            } else {
                assert(all.take((s.cursor + 1) as int) =~= all);
                lemma_entered_wf(counted, s.position + 1);
            }
        },
        (PhaseView::Storing { embedding }, EventView::StoreFailed { cause }) => {},
        _ => {},
    }
}

impl IngestionView {
    /// The state after a series of events, taken in one after the other.
    pub open spec fn after_all(self, events: Seq<EventView>) -> IngestionView
        decreases events.len(),
    {
        if events.len() == 0 {
            self
        } else {
            self.after_all(events.drop_last()).after(events.last())
        }
    }
}

/// Whatever events a run is given, in whatever order, `wf` holds of the state
/// that it reaches.
pub proof fn lemma_reached_state_wf(
    size: nat,
    overlap: nat,
    documents: Seq<DocumentView>,
    events: Seq<EventView>,
)
    requires
        valid_window(size, overlap),
    ensures
        initial(size, overlap, documents).after_all(events).wf(),
    decreases events.len(),
{
    if events.len() == 0 {
        lemma_initial_wf(size, overlap, documents);
    } else {
        lemma_reached_state_wf(size, overlap, documents, events.drop_last());
        lemma_after_wf(
            initial(size, overlap, documents).after_all(events.drop_last()),
            events.last(),
        );
    }
}

/// When a run ends without a failure, the store has taken what the documents
/// contribute, chunk by chunk and in order, and the count is their number.
pub proof fn lemma_finished_run(s: IngestionView)
    requires
        s.wf(),
        s.phase is Done,
    ensures
        s.stored == planned(s.documents, s.received, s.size, s.overlap, s.documents.len()),
        s.received.len() == s.documents.len(),
        s.stored.len() <= u64::MAX ==> s.indexed == s.stored.len(),
        s.action() == (ActionView::Finish { outcome: Ok(summary_of(s.indexed)) }),
{
}

/// What two lists of documents contribute together is what the first
/// contributes followed by what the second contributes. Nothing is left out
/// because it was stored before: a document that is listed twice is stored
/// twice.
pub proof fn lemma_planned_is_additive(
    first: Seq<DocumentView>,
    first_texts: Seq<Seq<char>>,
    second: Seq<DocumentView>,
    second_texts: Seq<Seq<char>>,
    size: nat,
    overlap: nat,
    n: nat,
)
    requires
        first_texts.len() == first.len(),
        second_texts.len() == second.len(),
        n <= second.len(),
    ensures
        planned(first + second, first_texts + second_texts, size, overlap, first.len() + n)
            == planned(first, first_texts, size, overlap, first.len()) + planned(
            second,
            second_texts,
            size,
            overlap,
            n,
        ),
    decreases n,
{
    let documents = first + second;
    let texts = first_texts + second_texts;
    if n == 0 {
        lemma_planned_on_prefix(first, first_texts, second, second_texts, size, overlap, first.len());
        assert(planned(second, second_texts, size, overlap, 0) =~= Seq::empty());
        assert(planned(first, first_texts, size, overlap, first.len()) + Seq::<StoredView>::empty()
            =~= planned(first, first_texts, size, overlap, first.len()));
    } else {
        lemma_planned_is_additive(
            first,
            first_texts,
            second,
            second_texts,
            size,
            overlap,
            (n - 1) as nat,
        );
        assert(documents[first.len() + n - 1] == second[n - 1]);
        assert(texts[first.len() + n - 1] == second_texts[n - 1]);
        let head = planned(first, first_texts, size, overlap, first.len());
        let middle = planned(second, second_texts, size, overlap, (n - 1) as nat);
        let tail = planned_for(second[n - 1], second_texts[n - 1], size, overlap);
        assert((head + middle) + tail =~= head + (middle + tail));
    }
}

proof fn lemma_planned_on_prefix(
    first: Seq<DocumentView>,
    first_texts: Seq<Seq<char>>,
    second: Seq<DocumentView>,
    second_texts: Seq<Seq<char>>,
    size: nat,
    overlap: nat,
    n: nat,
)
    requires
        first_texts.len() == first.len(),
        n <= first.len(),
    ensures
        planned(first + second, first_texts + second_texts, size, overlap, n) == planned(
            first,
            first_texts,
            size,
            overlap,
            n,
        ),
    decreases n,
{
    if n > 0 {
        lemma_planned_on_prefix(
            first,
            first_texts,
            second,
            second_texts,
            size,
            overlap,
            (n - 1) as nat,
        );
        assert((first + second)[n - 1] == first[n - 1]);
        assert((first_texts + second_texts)[n - 1] == first_texts[n - 1]);
    }
}

/// Indexing the same documents a second time stores every chunk a second
/// time: the store then holds twice as many chunks.
pub proof fn lemma_indexing_twice_doubles(
    documents: Seq<DocumentView>,
    texts: Seq<Seq<char>>,
    size: nat,
    overlap: nat,
)
    requires
        texts.len() == documents.len(),
    ensures
        planned(documents + documents, texts + texts, size, overlap, 2 * documents.len()).len()
            == 2 * planned(documents, texts, size, overlap, documents.len()).len(),
{
    lemma_planned_is_additive(
        documents,
        texts,
        documents,
        texts,
        size,
        overlap,
        documents.len(),
    );
}

impl IngestionView {
    /// Whether `event` answers the action that the state asks for.
    pub open spec fn answered_by(self, event: EventView) -> bool {
        match (self.phase, event) {
            (PhaseView::Extracting, EventView::Extracted { .. }) => true,
            (PhaseView::Embedding, EventView::Embedded { .. }) => true,
            (PhaseView::Storing { .. }, EventView::Stored) => true,
            (PhaseView::Storing { .. }, EventView::StoreFailed { .. }) => true,
            _ => false,
        }
    }

    /// What is left of the run, as three numbers: the documents from the one
    /// in work on; whether the text of the document in work is still awaited;
    /// and the actions left for the chunks of the document in work.
    pub open spec fn left(self) -> (int, int, int) {
        (
            self.documents.len() - self.position,
            if self.phase is Extracting {
                1
            } else {
                0
            },
            match self.phase {
                PhaseView::Embedding => 2 * (self.chunks.len() - self.cursor),
                PhaseView::Storing { .. } => 2 * (self.chunks.len() - self.cursor) - 1,
                _ => 0,
            },
        )
    }
}

/// Whether `a` is less than `b` when the numbers are compared one after the
/// other, the first deciding before the second and the second before the
/// third.
pub open spec fn less_left(a: (int, int, int), b: (int, int, int)) -> bool {
    a.0 < b.0 || (a.0 == b.0 && (a.1 < b.1 || (a.1 == b.1 && a.2 < b.2)))
}

/// Every answer brings the run nearer to its end: what is left gets less,
/// and it cannot get less for ever. An event that answers nothing leaves the
/// state as it is.
pub proof fn lemma_answer_makes_progress(s: IngestionView, event: EventView)
    requires
        s.wf(),
    ensures
        s.left().0 >= 0 && s.left().1 >= 0 && s.left().2 >= 0,
        s.answered_by(event) ==> s.after(event).finished() || less_left(
            s.after(event).left(),
            s.left(),
        ),
        !s.answered_by(event) ==> s.after(event) == s,
        s.finished() ==> !s.answered_by(event),
{
    if s.answered_by(event) {
        lemma_after_wf(s, event);
        lemma_seek(s.documents, s.position + 1);
    }
}

/// A chunk is counted when the store has taken it, and only then. What the
/// store has taken stays as it is: chunks are added behind it, never changed
/// and never removed.
pub proof fn lemma_count_follows_store(s: IngestionView, event: EventView)
    ensures
        s.phase is Storing && event is Stored ==> s.after(event).indexed == bumped(s.indexed)
            && s.after(event).stored.len() == s.stored.len() + 1,
        !(s.phase is Storing && event is Stored) ==> s.after(event).indexed == s.indexed
            && s.after(event).stored == s.stored,
        s.after(event).stored.take(s.stored.len() as int) == s.stored,
{
    assert(s.after(event).stored.take(s.stored.len() as int) =~= s.stored);
}

/// A chunk whose embedding could not be had is stored all the same, without
/// a vector; the run goes on.
pub proof fn lemma_failed_embedding_is_stored_absent(s: IngestionView)
    requires
        s.phase is Embedding,
    ensures
        s.after(EventView::Embedded { vector: Seq::empty() }).action() == (ActionView::Append {
            source_path: s.documents[s.position as int].path,
            text: s.chunks[s.cursor as int],
            embedding: Seq::empty(),
        }),
{
}

/// A failure of the store ends the run with the store's cause, and nothing
/// changes after that: what was stored before stays counted.
pub proof fn lemma_store_failure_ends_run(s: IngestionView, cause: Seq<char>, later: EventView)
    requires
        s.phase is Storing,
    ensures
        s.after(EventView::StoreFailed { cause }).action() == (ActionView::Finish {
            outcome: Err(cause),
        }),
        s.after(EventView::StoreFailed { cause }).indexed == s.indexed,
        s.after(EventView::StoreFailed { cause }).after(later) == s.after(
            EventView::StoreFailed { cause },
        ),
{
}

/// The views of the documents, in order.
pub open spec fn documents_of(documents: Seq<Document>) -> Seq<DocumentView> {
    Seq::new(documents.len(), |i: int| documents[i]@)
}

/// Writes the summary of a run that stored `indexed` chunks.
pub fn summary_message(indexed: u64) -> (summary: String)
    ensures
        summary@ == summary_of(indexed as nat),
{
    let mut summary = String::from_str("Indexed ");
    let count = decimal_string(indexed);
    summary.append(count.as_str());
    summary.append(" text chunks from documents into local DB.");
    summary
}

/// Finds the first document from `from` on that is not skipped.
fn find_next(documents: &Vec<Document>, from: usize) -> (next: usize)
    requires
        from <= documents.len(),
    ensures
        next == seek(documents_of(documents@), from as nat),
        from <= next <= documents.len(),
{
    let mut next: usize = from;
    while next < documents.len()
        invariant
            from <= next <= documents.len(),
            seek(documents_of(documents@), next as nat) == seek(
                documents_of(documents@),
                from as nat,
            ),
        decreases documents.len() - next,
    {
        let strategy = documents[next].strategy();
        if strategy.is_some() {
            return next;
        }
        next = next + 1;
    }
    next
}

#[derive(Clone, Copy, Debug)]
enum Phase {
    Extracting,
    Embedding,
    Storing,
    Done,
    Failed,
}

/// A run of the ingestion over a list of documents.
pub struct Ingestion {
    config: ChunkConfig,
    documents: Vec<Document>,
    position: usize,
    chunks: Vec<String>,
    cursor: usize,
    phase: Phase,
    pending: Embedding,
    failure: String,
    indexed: u64,
    received: Ghost<Seq<Seq<char>>>,
    stored: Ghost<Seq<StoredView>>,
}

impl View for Ingestion {
    type V = IngestionView;

    closed spec fn view(&self) -> IngestionView {
        IngestionView {
            size: self.config.window_size(),
            overlap: self.config.window_overlap(),
            documents: documents_of(self.documents@),
            position: self.position as nat,
            chunks: texts_of(self.chunks@),
            cursor: self.cursor as nat,
            phase: match self.phase {
                Phase::Extracting => PhaseView::Extracting,
                Phase::Embedding => PhaseView::Embedding,
                Phase::Storing => PhaseView::Storing { embedding: self.pending@ },
                Phase::Done => PhaseView::Done,
                Phase::Failed => PhaseView::Failed { cause: self.failure@ },
            },
            indexed: self.indexed as nat,
            received: self.received@,
            stored: self.stored@,
        }
    }
}

impl Ingestion {
    #[verifier::type_invariant]
    spec fn sound(self) -> bool {
        self@.wf()
    }

    /// Begins a run over `documents`, with the windows of `config`.
    pub fn begin(config: ChunkConfig, documents: Vec<Document>) -> (run: Ingestion)
        ensures
            run@ == initial(
                config.window_size(),
                config.window_overlap(),
                documents_of(documents@),
            ),
            run@.wf(),
    {
        let next = find_next(&documents, 0);
        let phase = if next < documents.len() {
            Phase::Extracting
        } else {
            Phase::Done
        };
        let _ = config.overlap();
        let ghost begun = initial(
            config.window_size(),
            config.window_overlap(),
            documents_of(documents@),
        );
        proof {
            lemma_initial_wf(
                config.window_size(),
                config.window_overlap(),
                documents_of(documents@),
            );
        }
        let chunks: Vec<String> = Vec::new();
        assert(texts_of(chunks@) =~= Seq::<Seq<char>>::empty());
        let run = Ingestion {
            config,
            documents,
            position: next,
            chunks,
            cursor: 0,
            phase,
            pending: Embedding::absent(),
            failure: String::new(),
            indexed: 0,
            received: Ghost(begun.received),
            stored: Ghost(begun.stored),
        };
        assert(run@ == begun);
        run
    }

    /// Whether the run has ended.
    pub fn is_finished(&self) -> (finished: bool)
        ensures
            finished == self@.finished(),
    {
        match self.phase {
            Phase::Done => true,
            Phase::Failed => true,
            _ => false,
        }
    }

    /// The number of chunks that the store has taken in this run.
    pub fn indexed(&self) -> (indexed: u64)
        ensures
            indexed == self@.indexed,
    {
        self.indexed
    }

    /// The action that is to be performed next. It stays the same until an
    /// event answers it.
    pub fn action(&self) -> (action: IngestAction)
        ensures
            action@ == self@.action(),
            self@.wf(),
    {
        proof {
            use_type_invariant(self);
        }
        match self.phase {
            Phase::Extracting => {
                let document = &self.documents[self.position];
                let strategy = document.strategy();
                IngestAction::Extract { path: document.path.clone(), strategy: strategy.unwrap() }
            },
            Phase::Embedding => IngestAction::Embed { text: self.chunks[self.cursor].clone() },
            Phase::Storing => IngestAction::Append {
                source_path: self.documents[self.position].path.clone(),
                text: self.chunks[self.cursor].clone(),
                embedding: self.pending.duplicate(),
            },
            Phase::Done => IngestAction::Finish { outcome: Ok(summary_message(self.indexed)) },
            Phase::Failed => IngestAction::Finish { outcome: Err(self.failure.clone()) },
        }
    }

    /// Takes in what came of the pending action and moves on.
    pub fn step(self, event: IngestEvent) -> (next: Ingestion)
        ensures
            next@ == self@.after(event@),
            next@.wf(),
    {
        proof {
            use_type_invariant(&self);
            lemma_after_wf(self@, event@);
        }
        let ghost target = self@.after(event@);
        match self.phase {
            Phase::Extracting => match event {
                IngestEvent::Extracted { text } => {
                    assert(self@.phase is Extracting);
                    assert(self.position < self.documents.len());
                    if text_is_blank(text.as_str()) {
                        let position = find_next(&self.documents, self.position + 1);
                        let phase = if position < self.documents.len() {
                            Phase::Extracting
                        } else {
                            Phase::Done
                        };
                        let chunks: Vec<String> = Vec::new();
                        assert(texts_of(chunks@) =~= Seq::<Seq<char>>::empty());
                        let next = Ingestion {
                            position,
                            chunks,
                            cursor: 0,
                            phase,
                            received: Ghost(target.received),
                            ..self
                        };
                        assert(next@ == target);
                        next
                    } else {
                        let chunks = self.config.chunk(text.as_str());
                        let next = Ingestion {
                            chunks,
                            cursor: 0,
                            phase: Phase::Embedding,
                            received: Ghost(target.received),
                            ..self
                        };
                        assert(next@ == target);
                        next
                    }
                },
                _ => self,
            },
            Phase::Embedding => match event {
                IngestEvent::Embedded { reply } => {
                    let pending = match embedding_outcome(reply) {
                        Ok(vector) => vector,
                        Err(_) => Embedding::absent(),
                    };
                    let next = Ingestion { phase: Phase::Storing, pending, ..self };
                    assert(next@ == target);
                    next
                },
                _ => self,
            },
            Phase::Storing => match event {
                IngestEvent::Stored { id } => {
                    assert(self@.phase is Storing);
                    assert(self.position < self.documents.len());
                    assert(self.cursor < self.chunks.len());
                    let indexed = if self.indexed < u64::MAX {
                        self.indexed + 1
                    } else {
                        self.indexed
                    };
                    if self.cursor + 1 < self.chunks.len() {
                        let next = Ingestion {
                            cursor: self.cursor + 1,
                            phase: Phase::Embedding,
                            indexed,
                            stored: Ghost(target.stored),
                            ..self
                        };
                        assert(next@ == target);
                        next
                    } else {
                        let position = find_next(&self.documents, self.position + 1);
                        let phase = if position < self.documents.len() {
                            Phase::Extracting
                        } else {
                            Phase::Done
                        };
                        let chunks: Vec<String> = Vec::new();
                        assert(texts_of(chunks@) =~= Seq::<Seq<char>>::empty());
                        let next = Ingestion {
                            position,
                            chunks,
                            cursor: 0,
                            phase,
                            indexed,
                            received: Ghost(target.received),
                            stored: Ghost(target.stored),
                            ..self
                        };
                        assert(next@ == target);
                        next
                    }
                },
                IngestEvent::StoreFailed { cause } => {
                    let next = Ingestion { phase: Phase::Failed, failure: cause, ..self };
                    assert(next@ == target);
                    next
                },
                _ => self,
            },
            Phase::Done => self,
            Phase::Failed => self,
        }
    }
}

} // verus!
