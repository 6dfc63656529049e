//! Chunking of a line sequence that is held in memory.

use std::collections::VecDeque;
use vstd::prelude::*;
use crate::chunker::{Chunker, Step};
use crate::laws::{
    chunk_stream_length_is_bounded, chunks_are_the_nonempty_spans, feeding_in_two_parts,
};
use crate::model::{
    buffer_at, chunk_stream, chunks_of, emitted, failures, lines_pulled, pull_view, spans,
    stream_view, texts, Line,
};

verus! {

/// The state of a [`ChunkByLine`] as contracts see it.
pub struct ChunkByLineView<E> {
    /// The line that separates chunks.
    pub delimiter: Seq<char>,
    /// The text accumulated since the last chunk was handed out.
    pub buffer: Seq<char>,
    /// The lines that the source has not yet yielded.
    pub pending: Seq<Line<E>>,
}

impl<E> ChunkByLineView<E> {
    /// Everything the consumer will still receive.
    pub open spec fn remaining(self) -> Seq<Line<E>> {
        chunk_stream(self.buffer, self.delimiter, self.pending)
    }

    /// The number of lines that the next pull takes from the source.
    pub open spec fn pulled(self) -> int {
        lines_pulled(self.buffer, self.delimiter, self.pending) as int
    }

    /// Whether the lines still pending give rise to nothing, so that the next
    /// pull drains the source.
    pub open spec fn runs_dry(self) -> bool {
        emitted(self.buffer, self.delimiter, self.pending).len() == 0
    }
}

/// A pull-based sequence of chunks over a line sequence held in memory.
///
/// Each pull takes from the source only the lines it needs to produce one
/// element: the source is never read ahead.
#[derive(Debug)]
pub struct ChunkByLine<E> {
    source: VecDeque<Result<String, E>>,
    chunker: Chunker,
}

impl<E> View for ChunkByLine<E> {
    type V = ChunkByLineView<E>;

    closed spec fn view(&self) -> ChunkByLineView<E> {
        ChunkByLineView {
            delimiter: self.chunker@.delimiter,
            buffer: self.chunker@.buffer,
            pending: stream_view(self.source@),
        }
    }
}

impl<E> ChunkByLine<E> {
    /// The sequence of chunks of `lines`, split at the lines equal to
    /// `delimiter`. No line is fed to the chunker before the first pull.
    ///
    /// The chunks to come are the texts of the non-empty spans between the
    /// delimiters, in order; the failures among the lines come through
    /// unchanged, each at its place.
    pub fn new(lines: Vec<Result<String, E>>, delimiter: &str) -> (chunks: ChunkByLine<E>)
        ensures
            chunks@.delimiter == delimiter@,
            chunks@.buffer == Seq::<char>::empty(),
            chunks@.pending == stream_view(lines@),
            chunks@.remaining() == chunk_stream(Seq::empty(), delimiter@, stream_view(lines@)),
            texts(chunks@.remaining()) == chunks_of(spans(texts(stream_view(lines@)), delimiter@)),
            failures(chunks@.remaining()) == failures(stream_view(lines@)),
    {
        proof {
            chunks_are_the_nonempty_spans(delimiter@, stream_view(lines@));
        }
        let mut source: VecDeque<Result<String, E>> = VecDeque::new();
        for line in iter: lines
            invariant
                source@ == lines@.take(iter.index() as int),
        {
            source.push_back(line);
        }
        ChunkByLine { source, chunker: Chunker::new(delimiter) }
    }

    /// Pulls the next element: a chunk, a failure of the source, or `None`
    /// once the sequence is over.
    ///
    /// Lines are taken from the source up to and including the first one on
    /// which something is handed out. A failure is handed on at once and
    /// leaves the accumulator untouched. Where the source runs dry, a
    /// non-empty accumulator is flushed as the last chunk.
    pub fn next_chunk(&mut self) -> (item: Option<Result<String, E>>)
        ensures
            final(self)@.delimiter == old(self)@.delimiter,
            final(self)@.pending == old(self)@.pending.skip(old(self)@.pulled()),
            final(self)@.buffer == if old(self)@.runs_dry() {
                Seq::<char>::empty()
            } else {
                buffer_at(
                    old(self)@.buffer,
                    old(self)@.delimiter,
                    old(self)@.pending.take(old(self)@.pulled()),
                )
            },
            old(self)@.remaining().len() == 0 ==> item is None && final(self)@.remaining().len()
                == 0,
            old(self)@.remaining().len() > 0 ==> pull_view(item) == Some(
                old(self)@.remaining().first(),
            ) && final(self)@.remaining() == old(self)@.remaining().drop_first(),
            item matches Some(Ok(chunk)) ==> chunk@.len() > 0,
    {
        let ghost start = self@;
        let ghost mut taken: int = 0;
        loop
            invariant
                start == old(self)@,
                self@.delimiter == start.delimiter,
                0 <= taken <= start.pending.len(),
                self@.pending == start.pending.skip(taken),
                self@.buffer == buffer_at(start.buffer, start.delimiter, start.pending.take(taken)),
                emitted(start.buffer, start.delimiter, start.pending.take(taken)).len() == 0,
                lines_pulled(start.buffer, start.delimiter, start.pending) == taken + lines_pulled(
                    self@.buffer,
                    self@.delimiter,
                    self@.pending,
                ),
            decreases self@.pending.len(),
        {
            let event = self.source.pop_front();
            let step = self.chunker.advance(event);
            proof {
                let seen = start.pending.take(taken);
                let ahead = start.pending.skip(taken);
                assert(start.pending =~= seen + ahead);
                feeding_in_two_parts(start.buffer, start.delimiter, seen, ahead);
                if event is Some {
                    let seen_next = start.pending.take(taken + 1);
                    assert(self@.pending =~= ahead.drop_first());
                    assert(seen_next.drop_last() =~= seen);
                    assert(start.pending =~= seen_next + self@.pending);
                    feeding_in_two_parts(start.buffer, start.delimiter, seen_next, self@.pending);
                }
            }
            match step {
                Step::More => {
                    proof {
                        taken = taken + 1;
                    }
                },
                Step::Emit(item) => {
                    return Some(item);
                },
                Step::End => {
                    return None;
                },
            }
        }
    }

    /// Bounds on the number of elements that are still to come, as a pair of
    /// the least and, where it fits the machine word, the most.
    pub fn size_hint(&self) -> (hint: (usize, Option<usize>))
        ensures
            hint.0 == if self@.buffer.len() > 0 {
                1usize
            } else {
                0usize
            },
            hint.1 == if self@.pending.len() < usize::MAX {
                Some((self@.pending.len() + 1) as usize)
            } else {
                None
            },
            hint.0 <= self@.remaining().len(),
            hint.1 is Some ==> self@.remaining().len() <= hint.1->0,
    {
        proof {
            chunk_stream_length_is_bounded(self@.buffer, self@.delimiter, self@.pending);
        }
        let pending: usize = self.source.len();
        self.chunker.size_hint((pending, Some(pending)))
    }

    /// Pulls until the sequence is over and returns everything that came, in
    /// order.
    pub fn collect(self) -> (items: Vec<Result<String, E>>)
        ensures
            stream_view(items@) == self@.remaining(),
    {
        let mut chunks = self;
        let mut items: Vec<Result<String, E>> = Vec::new();
        loop
            invariant
                stream_view(items@) + chunks@.remaining() == self@.remaining(),
            decreases chunks@.remaining().len(),
        {
            match chunks.next_chunk() {
                Some(item) => {
                    items.push(item);
                },
                None => {
                    return items;
                },
            }
        }
    }
}

/// Groups `lines` into chunks, split at the lines equal to `delimiter`.
///
/// The chunks are the texts of the non-empty spans between the delimiters, in
/// order; the failures among the lines come through unchanged, each at its
/// place. The result is pulled element by element, or all at once with
/// [`ChunkByLine::collect`].
pub fn chunk_by_line<E>(lines: Vec<Result<String, E>>, delimiter: &str) -> (chunks: ChunkByLine<
    E,
>)
    ensures
        chunks@.delimiter == delimiter@,
        chunks@.buffer == Seq::<char>::empty(),
        chunks@.pending == stream_view(lines@),
        chunks@.remaining() == chunk_stream(Seq::empty(), delimiter@, stream_view(lines@)),
        texts(chunks@.remaining()) == chunks_of(spans(texts(stream_view(lines@)), delimiter@)),
        failures(chunks@.remaining()) == failures(stream_view(lines@)),
{
    ChunkByLine::new(lines, delimiter)
}

/// Chunking as a method of a line sequence.
pub trait LinesExt<E>: Sized {
    /// The lines of the sequence, in order.
    spec fn lines(&self) -> Seq<Line<E>>;

    /// Groups the lines into chunks, split at the lines equal to `delimiter`.
    ///
    /// The chunks are the texts of the non-empty spans between the
    /// delimiters, in order; the failures among the lines come through
    /// unchanged, each at its place.
    fn chunk_by_line(self, delimiter: &str) -> (chunks: ChunkByLine<E>)
        ensures
            chunks@.delimiter == delimiter@,
            chunks@.buffer == Seq::<char>::empty(),
            chunks@.pending == self.lines(),
            chunks@.remaining() == chunk_stream(Seq::empty(), delimiter@, self.lines()),
            texts(chunks@.remaining()) == chunks_of(spans(texts(self.lines()), delimiter@)),
            failures(chunks@.remaining()) == failures(self.lines()),
    ;
}

impl<E> LinesExt<E> for Vec<Result<String, E>> {
    open spec fn lines(&self) -> Seq<Line<E>> {
        stream_view(self@)
    }

    fn chunk_by_line(self, delimiter: &str) -> (chunks: ChunkByLine<E>) {
        ChunkByLine::new(self, delimiter)
    }
}

} // verus!
