//! Cutting a text into overlapping windows of characters.
//!
//! A text of `len` characters is covered by windows of `size` characters.
//! Each window starts `size - overlap` characters behind the start of the one
//! before it, so two neighbours share `overlap` characters. The last window is
//! the first one that reaches the end of the text; it may be shorter.

use crate::text::{chars_of, string_of, texts_of};
use vstd::prelude::*;

verus! {

/// The window size used when nothing else is configured.
pub const DEFAULT_CHUNK_SIZE: usize = 1000;

/// The overlap used when nothing else is configured.
pub const DEFAULT_CHUNK_OVERLAP: usize = 200;

/// Whether `size` and `overlap` make a usable configuration: the overlap is
/// positive and smaller than the window.
pub open spec fn valid_window(size: nat, overlap: nat) -> bool {
    0 < overlap < size
}

/// The number of windows that cover a text of `len` characters.
///
/// An empty text has none. A text that fits into one window has one. A longer
/// text has one more for every started stride of `size - overlap` characters
/// beyond the first window.
pub open spec fn chunk_count(len: nat, size: nat, overlap: nat) -> nat {
    if len == 0 {
        0
    } else if len <= size {
        1
    } else {
        let stride = size - overlap;
        (1 + (len - size + stride - 1) / stride) as nat
    }
}

/// The position of the first character of window `i`.
pub open spec fn chunk_start(size: nat, overlap: nat, i: int) -> int {
    i * (size - overlap)
}

/// The position just behind the last character of window `i`.
pub open spec fn chunk_end(len: nat, size: nat, overlap: nat, i: int) -> int {
    let full = chunk_start(size, overlap, i) + size;
    if full <= len {
        full
    } else {
        len as int
    }
}

/// Window `i` of `text`.
pub open spec fn chunk_at(text: Seq<char>, size: nat, overlap: nat, i: int) -> Seq<char> {
    text.subrange(chunk_start(size, overlap, i), chunk_end(text.len(), size, overlap, i))
}

/// The windows of `text`, first to last.
pub open spec fn chunks_of(text: Seq<char>, size: nat, overlap: nat) -> Seq<Seq<char>> {
    Seq::new(chunk_count(text.len(), size, overlap), |i: int| chunk_at(text, size, overlap, i))
}

/// Where the windows of a non-empty text lie: the last one starts inside the
/// text and reaches its end, and every earlier one ends before the end.
pub proof fn lemma_window_positions(len: nat, size: nat, overlap: nat)
    requires
        len > 0,
        len <= size || overlap < size,
    ensures
        chunk_count(len, size, overlap) >= 1,
        0 <= chunk_start(size, overlap, chunk_count(len, size, overlap) - 1) < len,
        chunk_start(size, overlap, chunk_count(len, size, overlap) - 1) + size >= len,
        forall|i: int|
            0 <= i < chunk_count(len, size, overlap) - 1 ==> 0 <= #[trigger] chunk_start(
                size,
                overlap,
                i,
            ) && chunk_start(size, overlap, i) + size < len,
{
    let stride = size - overlap;
    let n = chunk_count(len, size, overlap);
    if len <= size {
        assert(0 * stride == 0);
    } else {
        let d = len - size;
        let q = (d + stride - 1) / stride;
        let r = (d + stride - 1) % stride;
        vstd::arithmetic::div_mod::lemma_fundamental_div_mod(d + stride - 1, stride);
        assert(d + stride - 1 == stride * q + r);
        assert(0 <= r < stride);
        assert(q * stride == stride * q) by (nonlinear_arith);
        assert(q >= 1) by (nonlinear_arith)
            requires
                d + stride - 1 == stride * q + r,
                0 <= r < stride,
                d > 0,
                stride > 0,
        ;
        assert forall|i: int| 0 <= i < n - 1 implies 0 <= #[trigger] chunk_start(size, overlap, i)
            && chunk_start(size, overlap, i) + size < len by {
            assert(0 <= i * stride && i * stride <= (q - 1) * stride) by (nonlinear_arith)
                requires
                    0 <= i <= q - 1,
                    stride > 0,
            ;
            assert((q - 1) * stride == q * stride - stride) by (nonlinear_arith);
        }
    }
}

/// The text put together again from the first `n` windows, each cut down to
/// the `stride` characters that the next window does not repeat.
pub open spec fn stitched_heads(chunks: Seq<Seq<char>>, stride: nat, n: nat) -> Seq<char>
    decreases n,
{
    if n == 0 {
        Seq::empty()
    } else {
        stitched_heads(chunks, stride, (n - 1) as nat) + chunks[n - 1].take(stride as int)
    }
}

/// The text put together again from its windows: of every window but the last
/// its first `stride` characters, then the last window whole.
pub open spec fn reassembled(chunks: Seq<Seq<char>>, stride: nat) -> Seq<char> {
    if chunks.len() == 0 {
        Seq::empty()
    } else {
        stitched_heads(chunks, stride, (chunks.len() - 1) as nat) + chunks.last()
    }
}

proof fn lemma_stitched_heads(text: Seq<char>, size: nat, overlap: nat, n: nat)
    requires
        text.len() > 0,
        overlap < size,
        n < chunk_count(text.len(), size, overlap),
    ensures
        0 <= chunk_start(size, overlap, n as int) <= text.len(),
        stitched_heads(chunks_of(text, size, overlap), (size - overlap) as nat, n) == text.take(
            chunk_start(size, overlap, n as int),
        ),
    decreases n,
{
    let stride = (size - overlap) as nat;
    let chunks = chunks_of(text, size, overlap);
    lemma_window_positions(text.len(), size, overlap);
    if n == 0 {
        assert(0 * (size - overlap) == 0);
        assert(stitched_heads(chunks, stride, 0) =~= text.take(0));
    } else {
        lemma_stitched_heads(text, size, overlap, (n - 1) as nat);
        let from = chunk_start(size, overlap, n - 1);
        assert(from + size < text.len());
        assert(n * (size - overlap) == (n - 1) * (size - overlap) + (size - overlap))
            by (nonlinear_arith);
        assert(chunks[n - 1] == text.subrange(from, from + size));
        assert(chunks[n - 1].take(stride as int) =~= text.subrange(from, from + stride));
        assert(text.take(from) + text.subrange(from, from + stride) =~= text.take(from + stride));
    }
}

/// Putting the windows of a text together again gives the text back, and the
/// last window ends where the text ends.
pub proof fn lemma_chunks_reassemble(text: Seq<char>, size: nat, overlap: nat)
    requires
        valid_window(size, overlap),
    ensures
        reassembled(chunks_of(text, size, overlap), (size - overlap) as nat) == text,
        text.len() > 0 ==> chunk_end(
            text.len(),
            size,
            overlap,
            chunk_count(text.len(), size, overlap) - 1,
        ) == text.len(),
        text.len() > 0 ==> chunks_of(text, size, overlap).last() == text.subrange(
            text.len() - chunks_of(text, size, overlap).last().len(),
            text.len() as int,
        ),
{
    let chunks = chunks_of(text, size, overlap);
    if text.len() == 0 {
        assert(reassembled(chunks, (size - overlap) as nat) =~= text);
    } else {
        let last = (chunks.len() - 1) as nat;
        lemma_window_positions(text.len(), size, overlap);
        lemma_stitched_heads(text, size, overlap, last);
        let from = chunk_start(size, overlap, last as int);
        assert(chunks.last() == text.subrange(from, text.len() as int));
        assert(text.take(from) + text.subrange(from, text.len() as int) =~= text);
    }
}

/// A text that fits into one window is its own single window.
pub proof fn lemma_short_text_is_one_chunk(text: Seq<char>, size: nat, overlap: nat)
    requires
        0 < text.len() <= size,
    ensures
        chunks_of(text, size, overlap) == seq![text],
{
    assert(0 * (size - overlap) == 0);
    assert(chunk_at(text, size, overlap, 0) =~= text);
    assert(chunks_of(text, size, overlap) =~= seq![text]);
}

/// An empty text has no windows.
pub proof fn lemma_empty_text_has_no_chunks(size: nat, overlap: nat)
    ensures
        chunks_of(Seq::<char>::empty(), size, overlap) == Seq::<Seq<char>>::empty(),
{
    assert(chunks_of(Seq::<char>::empty(), size, overlap) =~= Seq::<Seq<char>>::empty());
}

/// No window is empty or longer than `size`, and every window but the last is
/// exactly `size` characters long.
pub proof fn lemma_chunk_lengths(text: Seq<char>, size: nat, overlap: nat, i: int)
    requires
        text.len() <= size || overlap < size,
        0 <= i < chunks_of(text, size, overlap).len(),
    ensures
        0 < chunks_of(text, size, overlap)[i].len() <= size,
        i + 1 < chunks_of(text, size, overlap).len() ==> chunks_of(text, size, overlap)[i].len()
            == size,
{
    lemma_window_positions(text.len(), size, overlap);
    let n = chunk_count(text.len(), size, overlap);
    if i < n - 1 {
        assert(chunk_start(size, overlap, i) + size < text.len());
    }
}

/// Two neighbouring windows share exactly `overlap` characters: the last
/// `overlap` characters of the earlier one are the first `overlap` characters
/// of the later one.
pub proof fn lemma_neighbours_overlap(text: Seq<char>, size: nat, overlap: nat, i: int)
    requires
        overlap < size,
        0 <= i,
        i + 1 < chunks_of(text, size, overlap).len(),
    ensures
        chunks_of(text, size, overlap)[i].len() == size,
        chunks_of(text, size, overlap)[i + 1].len() >= overlap,
        chunks_of(text, size, overlap)[i].subrange((size - overlap) as int, size as int)
            == chunks_of(text, size, overlap)[i + 1].take(overlap as int),
{
    lemma_window_positions(text.len(), size, overlap);
    let n = chunk_count(text.len(), size, overlap);
    let stride = size - overlap;
    let from = chunk_start(size, overlap, i);
    assert(from + size < text.len());
    assert((i + 1) * (size - overlap) == i * (size - overlap) + (size - overlap))
        by (nonlinear_arith);
    assert(chunk_start(size, overlap, i + 1) == from + stride);
    let this = chunks_of(text, size, overlap)[i];
    let next = chunks_of(text, size, overlap)[i + 1];
    assert(this == text.subrange(from, from + size));
    assert(next == text.subrange(from + stride, chunk_end(text.len(), size, overlap, i + 1)));
    assert(this.subrange(stride, size as int) =~= next.take(overlap as int));
}

/// Cuts `text` into windows of `size` characters, each starting `size - overlap`
/// characters behind the start of the one before, up to the window that
/// reaches the end of the text.
///
/// A text longer than `size` needs `overlap < size`, or the windows would not
/// advance.
pub fn chunk_text(text: &str, size: usize, overlap: usize) -> (chunks: Vec<String>)
    requires
        text@.len() <= size || overlap < size,
    ensures
        texts_of(chunks@) == chunks_of(text@, size as nat, overlap as nat),
        text@.len() == 0 ==> chunks@.len() == 0,
        0 < text@.len() <= size ==> texts_of(chunks@) == seq![text@],
{
    let chars = chars_of(text);
    let len = chars.len();
    let mut chunks: Vec<String> = Vec::new();
    if len == 0 {
        assert(texts_of(chunks@) =~= chunks_of(text@, size as nat, overlap as nat));
        return chunks;
    }
    let ghost total = chunk_count(len as nat, size as nat, overlap as nat);
    proof {
        lemma_window_positions(len as nat, size as nat, overlap as nat);
        assert(0 * (size - overlap) == 0);
    }
    let mut start: usize = 0;
    loop
        invariant_except_break
            chunks.len() < total,
            start == chunk_start(size as nat, overlap as nat, chunks.len() as int),
        invariant
            chars@ == text@,
            len == chars.len(),
            len > 0,
            len <= size || overlap < size,
            total == chunk_count(len as nat, size as nat, overlap as nat),
            chunks.len() <= total,
            0 <= chunk_start(size as nat, overlap as nat, total - 1) < len,
            chunk_start(size as nat, overlap as nat, total - 1) + size >= len,
            forall|i: int|
                0 <= i < total - 1 ==> 0 <= #[trigger] chunk_start(size as nat, overlap as nat, i)
                    && chunk_start(size as nat, overlap as nat, i) + size < len,
            forall|i: int|
                0 <= i < chunks.len() ==> #[trigger] chunks[i]@ == chunk_at(
                    text@,
                    size as nat,
                    overlap as nat,
                    i,
                ),
        ensures
            chunks.len() == total,
        decreases total - chunks.len(),
    {
        let ghost i = chunks.len() as int;
        proof {
            if i < total - 1 {
                assert(chunk_start(size as nat, overlap as nat, i) + size < len);
            }
        }
        let end: usize = if size >= len - start {
            len
        } else {
            start + size
        };
        chunks.push(string_of(&chars, start, end));
        if end == len {
            break ;
        }
        proof {
            assert((i + 1) * (size - overlap) == i * (size - overlap) + (size - overlap))
                by (nonlinear_arith);
        }
        start = start + (size - overlap);
    }
    proof {
        assert(texts_of(chunks@) =~= chunks_of(text@, size as nat, overlap as nat));
        if len <= size {
            lemma_short_text_is_one_chunk(text@, size as nat, overlap as nat);
        }
    }
    chunks
}

/// Why a window configuration is refused.
#[derive(Clone, Copy, Debug, PartialEq, Eq, Structural)]
pub enum ConfigError {
    /// The window is not larger than the overlap, so the windows would not
    /// advance.
    SizeNotAboveOverlap,
    /// The overlap is zero.
    ZeroOverlap,
}

/// A window size and an overlap that have been checked: the overlap is
/// positive and smaller than the size.
#[derive(Clone, Copy, Debug)]
pub struct ChunkConfig {
    size: usize,
    overlap: usize,
}

impl ChunkConfig {
    #[verifier::type_invariant]
    spec fn advances(self) -> bool {
        valid_window(self.size as nat, self.overlap as nat)
    }

    /// The configured window size.
    pub closed spec fn window_size(self) -> nat {
        self.size as nat
    }

    /// The configured overlap.
    pub closed spec fn window_overlap(self) -> nat {
        self.overlap as nat
    }

    /// Checks `size` and `overlap` before any text is cut. A size that is not
    /// above the overlap is refused first, then an overlap of zero.
    pub fn new(size: usize, overlap: usize) -> (checked: Result<ChunkConfig, ConfigError>)
        ensures
            checked is Ok <==> valid_window(size as nat, overlap as nat),
            checked matches Ok(config) ==> config.window_size() == size && config.window_overlap()
                == overlap,
            checked == Err::<ChunkConfig, ConfigError>(ConfigError::SizeNotAboveOverlap) <==> size
                <= overlap,
            checked == Err::<ChunkConfig, ConfigError>(ConfigError::ZeroOverlap) <==> overlap == 0
                && size > 0,
    {
        if size <= overlap {
            Err(ConfigError::SizeNotAboveOverlap)
        } else if overlap == 0 {
            Err(ConfigError::ZeroOverlap)
        } else {
            Ok(ChunkConfig { size, overlap })
        }
    }

    /// The window size.
    pub fn size(&self) -> (size: usize)
        ensures
            size == self.window_size(),
            size > 0,
    {
        proof {
            use_type_invariant(self);
        }
        self.size
    }

    /// The overlap.
    pub fn overlap(&self) -> (overlap: usize)
        ensures
            overlap == self.window_overlap(),
            0 < overlap < self.window_size(),
    {
        proof {
            use_type_invariant(self);
        }
        self.overlap
    }

    /// Cuts `text` into the windows of this configuration.
    pub fn chunk(&self, text: &str) -> (chunks: Vec<String>)
        ensures
            valid_window(self.window_size(), self.window_overlap()),
            texts_of(chunks@) == chunks_of(text@, self.window_size(), self.window_overlap()),
    {
        proof {
            use_type_invariant(self);
        }
        chunk_text(text, self.size, self.overlap)
    }
}

impl Default for ChunkConfig {
    /// Windows of 1000 characters that overlap by 200.
    fn default() -> (config: ChunkConfig)
        ensures
            config.window_size() == DEFAULT_CHUNK_SIZE,
            config.window_overlap() == DEFAULT_CHUNK_OVERLAP,
    {
        ChunkConfig { size: DEFAULT_CHUNK_SIZE, overlap: DEFAULT_CHUNK_OVERLAP }
    }
}

} // verus!
