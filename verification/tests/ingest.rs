use semantic_index::chunker::ChunkConfig;
use semantic_index::document::{Document, ExtractionStrategy};
use semantic_index::embedding::{Embedding, ProviderReply};
use semantic_index::ingest::{summary_message, IngestAction, IngestEvent, Ingestion};
use semantic_index::score::Score;
use semantic_index::search::{build_context, scorable, top_texts, StoredChunk};

struct Record {
    path: String,
    text: String,
    embedding: Vec<u64>,
}

/// A text whose letter changes every 800 characters: a, b, c, ...
fn banded(len: usize) -> String {
    let letters: Vec<char> = "abcdefghijklmnopqrstuvwxyz".chars().collect();
    (0..len).map(|i| letters[(i / 800) % 26]).collect()
}

/// The stub embedding: how often each letter occurs.
fn histogram(text: &str) -> Vec<f64> {
    let mut counts = vec![0.0f64; 26];
    for c in text.chars() {
        if c.is_ascii_lowercase() {
            counts[(u32::from(c) - u32::from('a')) as usize] += 1.0;
        }
    }
    counts
}

fn vector_reply(text: &str) -> ProviderReply {
    ProviderReply::Vector {
        embedding: Embedding::from_components(histogram(text).iter().map(|v| v.to_bits()).collect()),
    }
}

fn cosine(a: &[f64], b: &[f64]) -> f64 {
    let dot: f64 = a.iter().zip(b).map(|(x, y)| x * y).sum();
    let na: f64 = a.iter().map(|x| x * x).sum::<f64>().sqrt();
    let nb: f64 = b.iter().map(|x| x * x).sum::<f64>().sqrt();
    if na == 0.0 || nb == 0.0 {
        0.0
    } else {
        dot / (na * nb)
    }
}

/// Runs an ingestion to its end against a store in memory.
fn ingest(
    documents: Vec<Document>,
    read: &dyn Fn(&str, ExtractionStrategy) -> String,
    embed: &dyn Fn(&str) -> ProviderReply,
    store: &mut Vec<Record>,
    capacity: usize,
) -> Result<String, String> {
    let mut run = Ingestion::begin(ChunkConfig::default(), documents);
    loop {
        let event = match run.action() {
            IngestAction::Extract { path, strategy } => {
                IngestEvent::Extracted { text: read(&path, strategy) }
            }
            IngestAction::Embed { text } => IngestEvent::Embedded { reply: embed(&text) },
            IngestAction::Append { source_path, text, embedding } => {
                if store.len() < capacity {
                    store.push(Record { path: source_path, text, embedding: embedding.components });
                    IngestEvent::Stored { id: store.len() as i64 }
                } else {
                    IngestEvent::StoreFailed { cause: "database or disk is full".to_string() }
                }
            }
            IngestAction::Finish { outcome } => {
                assert!(run.is_finished());
                return outcome;
            }
        };
        assert!(!run.is_finished());
        run = run.step(event);
    }
}

fn search(query: &str, store: &[Record], k: usize) -> Vec<String> {
    let rows: Vec<StoredChunk> = store
        .iter()
        .map(|r| StoredChunk::new(r.text.clone(), Embedding::from_components(r.embedding.clone())))
        .collect();
    let target = histogram(query);
    let mut candidates = Vec::new();
    for row in scorable(rows) {
        let vector: Vec<f64> = row.embedding.components.iter().map(|b| f64::from_bits(*b)).collect();
        let value = cosine(&target, &vector);
        candidates.push(row.scored(Score::from_bits(value.to_bits())));
    }
    top_texts(&candidates, k)
}

fn text_document(path: &str) -> Document {
    Document::from_path(path.to_string())
}

#[test]
fn summary_names_the_count() {
    assert_eq!(summary_message(0), "Indexed 0 text chunks from documents into local DB.");
    assert_eq!(summary_message(3), "Indexed 3 text chunks from documents into local DB.");
    assert_eq!(summary_message(1234), "Indexed 1234 text chunks from documents into local DB.");
}

#[test]
fn ingesting_one_document_of_2500_characters() {
    let text = banded(2500);
    let mut store = Vec::new();
    let outcome = ingest(
        vec![text_document("notes.txt")],
        &|_, _| banded(2500),
        &vector_reply,
        &mut store,
        usize::MAX,
    );
    assert_eq!(outcome, Ok("Indexed 3 text chunks from documents into local DB.".to_string()));
    assert_eq!(store.len(), 3);
    assert_eq!(store[0].text, text[0..1000]);
    assert_eq!(store[1].text, text[800..1800]);
    assert_eq!(store[2].text, text[1600..2500]);
    assert_eq!(store[0].text[800..], store[1].text[..200]);
    assert_eq!(store[1].text[800..], store[2].text[..200]);
    assert!(store.iter().all(|r| r.path == "notes.txt"));
    assert!(store.iter().all(|r| r.embedding.len() == 26));

    let found = search("bbbb", &store, 3);
    assert_eq!(found.len(), 3);
    assert_eq!(found[0], store[1].text);

    let rows: Vec<StoredChunk> = store
        .iter()
        .map(|r| StoredChunk::new(r.text.clone(), Embedding::from_components(r.embedding.clone())))
        .collect();
    let target = histogram("bbbb");
    let mut candidates = Vec::new();
    for row in scorable(rows) {
        let vector: Vec<f64> = row.embedding.components.iter().map(|b| f64::from_bits(*b)).collect();
        candidates.push(row.scored(Score::from_bits(cosine(&target, &vector).to_bits())));
    }
    let context = build_context(&candidates, 1);
    assert_eq!(context, store[1].text);
}

#[test]
fn ingesting_the_same_document_twice_doubles_the_store() {
    let mut store = Vec::new();
    let read = |_: &str, _: ExtractionStrategy| banded(2500);
    let first = ingest(vec![text_document("notes.txt")], &read, &vector_reply, &mut store, usize::MAX);
    assert_eq!(first, Ok("Indexed 3 text chunks from documents into local DB.".to_string()));
    assert_eq!(store.len(), 3);
    let second = ingest(vec![text_document("notes.txt")], &read, &vector_reply, &mut store, usize::MAX);
    assert_eq!(second, Ok("Indexed 3 text chunks from documents into local DB.".to_string()));
    assert_eq!(store.len(), 6);
    for i in 0..3 {
        assert_eq!(store[i].text, store[i + 3].text);
        assert_eq!(store[i].path, store[i + 3].path);
    }
}

#[test]
fn document_listed_twice_is_stored_twice() {
    let mut store = Vec::new();
    let outcome = ingest(
        vec![text_document("notes.txt"), text_document("notes.txt")],
        &|_, _| banded(2500),
        &vector_reply,
        &mut store,
        usize::MAX,
    );
    assert_eq!(outcome, Ok("Indexed 6 text chunks from documents into local DB.".to_string()));
    assert_eq!(store.len(), 6);
}

#[test]
fn no_documents_give_an_empty_run() {
    let mut store = Vec::new();
    let outcome = ingest(vec![], &|_, _| String::new(), &vector_reply, &mut store, usize::MAX);
    assert_eq!(outcome, Ok("Indexed 0 text chunks from documents into local DB.".to_string()));
    assert!(store.is_empty());
}

#[test]
fn unsupported_documents_are_never_read() {
    let mut store = Vec::new();
    let outcome = ingest(
        vec![text_document("a.exe"), text_document("README"), text_document("b.docx")],
        &|path, _| panic!("{} must not be read", path),
        &vector_reply,
        &mut store,
        usize::MAX,
    );
    assert_eq!(outcome, Ok("Indexed 0 text chunks from documents into local DB.".to_string()));
    assert!(store.is_empty());
}

#[test]
fn blank_and_unreadable_documents_contribute_nothing() {
    let mut store = Vec::new();
    let read = |path: &str, _: ExtractionStrategy| match path {
        "blank.txt" => " \n\t ".to_string(),
        "missing.md" => String::new(),
        "good.rs" => "fn main() {}".to_string(),
        other => panic!("{} must not be read", other),
    };
    let outcome = ingest(
        vec![
            text_document("blank.txt"),
            text_document("skipped.bin"),
            text_document("missing.md"),
            text_document("good.rs"),
            text_document("also.skipped"),
        ],
        &read,
        &vector_reply,
        &mut store,
        usize::MAX,
    );
    assert_eq!(outcome, Ok("Indexed 1 text chunks from documents into local DB.".to_string()));
    assert_eq!(store.len(), 1);
    assert_eq!(store[0].path, "good.rs");
    assert_eq!(store[0].text, "fn main() {}");
}

#[test]
fn strategy_follows_the_extension() {
    let run = Ingestion::begin(ChunkConfig::default(), vec![text_document("paper.PDF")]);
    assert!(matches!(
        run.action(),
        IngestAction::Extract { path, strategy: ExtractionStrategy::Pdf } if path == "paper.PDF"
    ));
    let run = Ingestion::begin(ChunkConfig::default(), vec![text_document("notes.md")]);
    assert!(matches!(
        run.action(),
        IngestAction::Extract { path, strategy: ExtractionStrategy::PlainText } if path == "notes.md"
    ));
}

#[test]
fn chunk_without_embedding_is_stored_and_counted() {
    let mut store = Vec::new();
    let embed = |text: &str| {
        if text.starts_with('b') {
            ProviderReply::Unreachable { cause: "timed out".to_string() }
        } else {
            vector_reply(text)
        }
    };
    let outcome = ingest(
        vec![text_document("notes.txt")],
        &|_, _| banded(2500),
        &embed,
        &mut store,
        usize::MAX,
    );
    assert_eq!(outcome, Ok("Indexed 3 text chunks from documents into local DB.".to_string()));
    assert_eq!(store.len(), 3);
    assert_eq!(store[0].embedding.len(), 26);
    assert!(store[1].embedding.is_empty());
    assert_eq!(store[2].embedding.len(), 26);

    let found = search("bbbb", &store, 3);
    assert_eq!(found.len(), 2);
    assert!(!found.contains(&store[1].text));
    assert_eq!(found[0], store[0].text);
}

#[test]
fn every_kind_of_failed_reply_gives_an_absent_embedding() {
    let replies: Vec<fn() -> ProviderReply> = vec![
        || ProviderReply::Unreachable { cause: "refused".to_string() },
        || ProviderReply::Malformed { cause: "bad json".to_string() },
        || ProviderReply::Rejected { status: 404, body: "no such model".to_string() },
    ];
    for reply in replies {
        let mut store = Vec::new();
        let outcome = ingest(
            vec![text_document("a.txt")],
            &|_, _| "some text".to_string(),
            &|_| reply(),
            &mut store,
            usize::MAX,
        );
        assert_eq!(outcome, Ok("Indexed 1 text chunks from documents into local DB.".to_string()));
        assert_eq!(store.len(), 1);
        assert!(store[0].embedding.is_empty());
    }
}

#[test]
fn store_failure_ends_the_run_and_keeps_what_was_stored() {
    let mut store = Vec::new();
    let outcome = ingest(
        vec![text_document("notes.txt"), text_document("more.txt")],
        &|_, _| banded(2500),
        &vector_reply,
        &mut store,
        2,
    );
    assert_eq!(outcome, Err("database or disk is full".to_string()));
    assert_eq!(store.len(), 2);
}

#[test]
fn nothing_moves_a_run_that_has_failed() {
    let mut run = Ingestion::begin(ChunkConfig::default(), vec![text_document("a.txt")]);
    run = run.step(IngestEvent::Extracted { text: "text".to_string() });
    run = run.step(IngestEvent::Embedded { reply: vector_reply("text") });
    run = run.step(IngestEvent::StoreFailed { cause: "locked".to_string() });
    assert!(run.is_finished());
    assert_eq!(run.indexed(), 0);
    for _ in 0..3 {
        run = run.step(IngestEvent::Stored { id: 1 });
        run = run.step(IngestEvent::Extracted { text: "again".to_string() });
        assert!(matches!(run.action(), IngestAction::Finish { outcome: Err(cause) } if cause == "locked"));
        assert_eq!(run.indexed(), 0);
    }
}

#[test]
fn event_that_answers_nothing_changes_nothing() {
    let mut run = Ingestion::begin(ChunkConfig::default(), vec![text_document("a.txt")]);
    run = run.step(IngestEvent::Stored { id: 1 });
    run = run.step(IngestEvent::Embedded { reply: vector_reply("x") });
    run = run.step(IngestEvent::StoreFailed { cause: "no".to_string() });
    assert!(matches!(run.action(), IngestAction::Extract { path, .. } if path == "a.txt"));
    assert_eq!(run.indexed(), 0);

    run = run.step(IngestEvent::Extracted { text: "hello".to_string() });
    run = run.step(IngestEvent::Extracted { text: "other".to_string() });
    run = run.step(IngestEvent::Stored { id: 1 });
    assert!(matches!(run.action(), IngestAction::Embed { text } if text == "hello"));
    assert_eq!(run.indexed(), 0);

    run = run.step(IngestEvent::Embedded { reply: vector_reply("hello") });
    run = run.step(IngestEvent::Embedded { reply: vector_reply("zzz") });
    run = run.step(IngestEvent::Extracted { text: "other".to_string() });
    match run.action() {
        IngestAction::Append { source_path, text, embedding } => {
            assert_eq!(source_path, "a.txt");
            assert_eq!(text, "hello");
            let expected: Vec<u64> = histogram("hello").iter().map(|v| v.to_bits()).collect();
            assert_eq!(embedding.components, expected);
        }
        other => panic!("unexpected action {:?}", other),
    }

    run = run.step(IngestEvent::Stored { id: 7 });
    assert_eq!(run.indexed(), 1);
    assert!(run.is_finished());
    run = run.step(IngestEvent::Stored { id: 8 });
    assert_eq!(run.indexed(), 1);
    assert!(matches!(
        run.action(),
        IngestAction::Finish { outcome: Ok(summary) }
            if summary == "Indexed 1 text chunks from documents into local DB."
    ));
}

#[test]
fn action_stays_the_same_until_it_is_answered() {
    let run = Ingestion::begin(ChunkConfig::default(), vec![text_document("a.txt")]);
    for _ in 0..3 {
        assert!(matches!(run.action(), IngestAction::Extract { path, .. } if path == "a.txt"));
    }
}

#[test]
fn run_uses_the_windows_it_was_given() {
    let config = ChunkConfig::new(4, 2).unwrap();
    let mut run = Ingestion::begin(config, vec![text_document("a.txt")]);
    run = run.step(IngestEvent::Extracted { text: "abcdefghij".to_string() });
    let mut texts = Vec::new();
    while !run.is_finished() {
        match run.action() {
            IngestAction::Embed { text } => {
                texts.push(text);
                run = run.step(IngestEvent::Embedded { reply: vector_reply("") });
            }
            IngestAction::Append { .. } => run = run.step(IngestEvent::Stored { id: 0 }),
            other => panic!("unexpected action {:?}", other),
        }
    }
    assert_eq!(texts, vec!["abcd", "cdef", "efgh", "ghij"]);
    assert_eq!(run.indexed(), 4);
}
