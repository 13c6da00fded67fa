//! Embedding vectors and what the embedding provider may answer.
//!
//! The provider is a service outside this library. Whoever talks to it hands
//! the library what came back as a `ProviderReply`; the library decides what
//! that means for the caller.

use vstd::prelude::*;
use vstd::string::*;

verus! {

/// An embedding vector. Each component is held as the 64 bits of a
/// double-precision number. A vector without components stands for "no
/// vector": the embedding is absent.
#[derive(Debug)]
pub struct Embedding {
    pub components: Vec<u64>,
}

impl View for Embedding {
    type V = Seq<u64>;

    open spec fn view(&self) -> Seq<u64> {
        self.components@
    }
}

impl Embedding {
    /// The marker for a chunk that has no vector.
    pub fn absent() -> (embedding: Embedding)
        ensures
            embedding@ == Seq::<u64>::empty(),
    {
        Embedding { components: Vec::new() }
    }

    /// The vector with the given components.
    pub fn from_components(components: Vec<u64>) -> (embedding: Embedding)
        ensures
            embedding@ == components@,
    {
        Embedding { components }
    }

    /// Whether there is no vector.
    pub fn is_absent(&self) -> (absent: bool)
        ensures
            absent == (self@.len() == 0),
    {
        self.components.len() == 0
    }

    /// The number of components.
    pub fn dimension(&self) -> (dimension: usize)
        ensures
            dimension == self@.len(),
    {
        self.components.len()
    }

    /// A copy of the vector.
    pub fn duplicate(&self) -> (copy: Embedding)
        ensures
            copy@ == self@,
    {
        let mut components: Vec<u64> = Vec::new();
        let mut i: usize = 0;
        while i < self.components.len()
            invariant
                i <= self.components.len(),
                components@ == self.components@.take(i as int),
            decreases self.components.len() - i,
        {
            components.push(self.components[i]);
            i = i + 1;
        }
        assert(self.components@.take(self.components.len() as int) == self.components@);
        Embedding { components }
    }
}

/// Why no embedding could be had.
#[derive(Debug)]
pub enum EmbeddingError {
    /// The provider could not be reached, did not answer in time, or sent
    /// something that is no embedding.
    ConnectionFailed { cause: String },
    /// The provider answered with a failure of its own.
    ProviderRejected { status: u16, body: String },
}

/// What came back from one request to the provider.
#[derive(Debug)]
pub enum ProviderReply {
    /// The request did not get through.
    Unreachable { cause: String },
    /// The provider reported success, but its answer could not be read as an
    /// embedding.
    Malformed { cause: String },
    /// The provider reported a failure.
    Rejected { status: u16, body: String },
    /// The provider sent a vector.
    Vector { embedding: Embedding },
}

/// The model that the provider is asked for.
pub fn embedding_model() -> (name: &'static str)
    ensures
        name@ == "nomic-embed-text"@,
{
    "nomic-embed-text"
}

/// The address at which the provider is asked for embeddings.
pub fn embedding_endpoint() -> (url: &'static str)
    ensures
        url@ == "http://localhost:11434/api/embeddings"@,
{
    "http://localhost:11434/api/embeddings"
}

/// What the store keeps in place of a vector for a chunk that has none.
pub fn no_vector_marker() -> (marker: &'static str)
    ensures
        marker@ == "[]"@,
{
    "[]"
}

/// Whether an HTTP status code reports success: the codes from 200 to 299.
pub fn is_success(status: u16) -> (success: bool)
    ensures
        success == (200 <= status <= 299),
{
    200 <= status && status <= 299
}

/// The cause that is reported when the provider cannot be reached.
pub open spec fn unreachable_cause(cause: Seq<char>) -> Seq<char> {
    "Connection error: "@ + cause + ". Make sure Ollama is running."@
}

/// The text that tells a caller that the provider refused the request.
pub open spec fn rejection_message(body: Seq<char>) -> Seq<char> {
    "Embedding model 'nomic-embed-text' not found or error: "@ + body
        + ". Try running 'ollama pull nomic-embed-text'"@
}

/// What the caller is told of a reply that carries no vector. A reply with a
/// vector has nothing to tell.
pub open spec fn refusal_of(reply: ProviderReply) -> Seq<char> {
    match reply {
        ProviderReply::Unreachable { cause } => unreachable_cause(cause@),
        ProviderReply::Malformed { cause } => cause@,
        ProviderReply::Rejected { status, body } => rejection_message(body@),
        ProviderReply::Vector { embedding } => Seq::empty(),
    }
}

impl ProviderReply {
    /// The text that tells why the reply carries no vector, or `None` where it
    /// carries one.
    pub fn refusal(&self) -> (told: Option<String>)
        ensures
            told is None <==> *self is Vector,
            told matches Some(text) ==> text@ == refusal_of(*self),
    {
        match self {
            ProviderReply::Unreachable { cause } => {
                let mut text = String::from_str("Connection error: ");
                text.append(cause.as_str());
                text.append(". Make sure Ollama is running.");
                Some(text)
            },
            ProviderReply::Malformed { cause } => Some(cause.clone()),
            ProviderReply::Rejected { status, body } => {
                let mut text = String::from_str(
                    "Embedding model 'nomic-embed-text' not found or error: ",
                );
                text.append(body.as_str());
                text.append(". Try running 'ollama pull nomic-embed-text'");
                Some(text)
            },
            ProviderReply::Vector { embedding } => None,
        }
    }
}

/// Decides what a reply of the provider means: a vector, or the error that
/// the caller is told.
pub fn embedding_outcome(reply: ProviderReply) -> (outcome: Result<Embedding, EmbeddingError>)
    ensures
        match reply {
            ProviderReply::Unreachable { cause } => outcome matches Err(
                EmbeddingError::ConnectionFailed { cause: told },
            ) && told@ == unreachable_cause(cause@),
            ProviderReply::Malformed { cause } => outcome matches Err(
                EmbeddingError::ConnectionFailed { cause: told },
            ) && told@ == cause@,
            ProviderReply::Rejected { status, body } => outcome matches Err(
                EmbeddingError::ProviderRejected { status: told_status, body: told_body },
            ) && told_status == status && told_body@ == body@,
            ProviderReply::Vector { embedding } => outcome matches Ok(vector) && vector@
                == embedding@,
        },
{
    match reply {
        ProviderReply::Unreachable { cause } => {
            let mut told = String::from_str("Connection error: ");
            told.append(cause.as_str());
            told.append(". Make sure Ollama is running.");
            Err(EmbeddingError::ConnectionFailed { cause: told })
        },
        ProviderReply::Malformed { cause } => Err(EmbeddingError::ConnectionFailed { cause }),
        ProviderReply::Rejected { status, body } => Err(
            EmbeddingError::ProviderRejected { status, body },
        ),
        ProviderReply::Vector { embedding } => Ok(embedding),
    }
}

impl EmbeddingError {
    /// What the error says, as a sequence of characters.
    pub open spec fn message_text(&self) -> Seq<char> {
        match self {
            EmbeddingError::ConnectionFailed { cause } => cause@,
            EmbeddingError::ProviderRejected { status, body } => rejection_message(body@),
        }
    }

    /// The text that is shown to the caller.
    pub fn message(&self) -> (text: String)
        ensures
            text@ == self.message_text(),
    {
        match self {
            EmbeddingError::ConnectionFailed { cause } => cause.clone(),
            EmbeddingError::ProviderRejected { status, body } => {
                let mut text = String::from_str(
                    "Embedding model 'nomic-embed-text' not found or error: ",
                );
                text.append(body.as_str());
                text.append(". Try running 'ollama pull nomic-embed-text'");
                text
            },
        }
    }
}

} // verus!
