//! The chunker: an accumulator and a delimiter, advanced one source event at
//! a time.

use vstd::prelude::*;
use crate::model::{buffer_after, line_view, outcome, pull_view, terminated, StepView};

verus! {

/// What the driver of a [`Chunker`] does after an event from the source.
#[derive(Debug)]
pub enum Step<E> {
    /// Nothing to hand out yet: ask the source for its next line.
    More,
    /// Hand this element to the consumer.
    Emit(Result<String, E>),
    /// The sequence of chunks is over.
    End,
}

impl<E> View for Step<E> {
    type V = StepView<E>;

    open spec fn view(&self) -> StepView<E> {
        match *self {
            Step::More => StepView::More,
            Step::Emit(item) => StepView::Emit(line_view(item)),
            Step::End => StepView::End,
        }
    }
}

/// The state of a chunker as contracts see it.
pub struct ChunkerView {
    /// The line that separates chunks.
    pub delimiter: Seq<char>,
    /// The text accumulated since the last chunk was handed out.
    pub buffer: Seq<char>,
}

/// Groups lines into chunks: text lines are accumulated until a line equal to
/// the delimiter arrives, or the source ends.
///
/// The chunker does not own its source. Its driver pulls the source and feeds
/// every event to [`Chunker::advance`].
#[derive(Debug)]
pub struct Chunker {
    delimiter: String,
    buffer: String,
}

impl View for Chunker {
    type V = ChunkerView;

    closed spec fn view(&self) -> ChunkerView {
        ChunkerView { delimiter: self.delimiter@, buffer: self.buffer@ }
    }
}

/// Appends `line` and one line terminator to `buffer`.
fn push_terminated(buffer: &mut String, line: &str)
    ensures
        final(buffer)@ == old(buffer)@ + terminated(line@),
{
    buffer.append(line);
    buffer.append("\n");
    proof {
        reveal_strlit("\n");
    }
}

impl Chunker {
    /// A chunker with an empty accumulator that splits at lines equal to
    /// `delimiter`. The delimiter is taken as it is: it is neither trimmed nor
    /// checked, and an empty one makes every empty line a boundary.
    pub fn new(delimiter: &str) -> (chunker: Chunker)
        ensures
            chunker@.delimiter == delimiter@,
            chunker@.buffer == Seq::<char>::empty(),
    {
        Chunker { delimiter: delimiter.to_owned(), buffer: String::new() }
    }

    /// The delimiter this chunker was made with.
    pub fn delimiter(&self) -> (delimiter: &str)
        ensures
            delimiter@ == self@.delimiter,
    {
        self.delimiter.as_str()
    }

    /// The text accumulated so far and not yet handed out.
    pub fn buffer(&self) -> (buffer: &str)
        ensures
            buffer@ == self@.buffer,
    {
        self.buffer.as_str()
    }

    /// Bounds on the number of elements that the consumer will still receive,
    /// as a pair of the least and, where one is known, the most, given such a
    /// pair for the number of lines that the source will still yield.
    ///
    /// A non-empty accumulator is sure to be handed out, whatever the lines
    /// are. Every line can bring one element and the end of the source one
    /// more, so the most is one above that of the source, where that fits
    /// the machine word.
    pub fn size_hint(&self, source: (usize, Option<usize>)) -> (hint: (usize, Option<usize>))
        ensures
            hint.0 == if self@.buffer.len() > 0 {
                1usize
            } else {
                0usize
            },
            hint.1 == match source.1 {
                Some(most) => if most < usize::MAX {
                    Some((most + 1) as usize)
                } else {
                    None
                },
                None => None,
            },
    {
        let least: usize = if self.buffer.as_str().is_empty() {
            0
        } else {
            1
        };
        let most: Option<usize> = match source.1 {
            Some(most) => if most < usize::MAX {
                Some(most + 1)
            } else {
                None
            },
            None => None,
        };
        (least, most)
    }

    /// Hands out the accumulated text as a chunk and empties the accumulator.
    /// An empty accumulator makes no chunk.
    pub fn flush(&mut self) -> (chunk: Option<String>)
        ensures
            final(self)@.delimiter == old(self)@.delimiter,
            final(self)@.buffer == Seq::<char>::empty(),
            old(self)@.buffer.len() == 0 ==> chunk is None,
            old(self)@.buffer.len() > 0 ==> chunk is Some && chunk->0@ == old(self)@.buffer,
    {
        if self.buffer.as_str().is_empty() {
            None
        } else {
            let mut chunk = String::new();
            core::mem::swap(&mut self.buffer, &mut chunk);
            Some(chunk)
        }
    }

    /// Feeds one text line. A line equal to the delimiter closes the current
    /// chunk, which is returned unless it is empty; any other line is
    /// appended to the accumulator, followed by one line terminator.
    pub fn push_line(&mut self, line: String) -> (chunk: Option<String>)
        ensures
            final(self)@.delimiter == old(self)@.delimiter,
            final(self)@.buffer == if line@ == old(self)@.delimiter {
                Seq::<char>::empty()
            } else {
                old(self)@.buffer + terminated(line@)
            },
            line@ == old(self)@.delimiter && old(self)@.buffer.len() > 0 ==> chunk is Some
                && chunk->0@ == old(self)@.buffer,
            !(line@ == old(self)@.delimiter && old(self)@.buffer.len() > 0) ==> chunk is None,
    {
        if line == self.delimiter {
            self.flush()
        } else {
            push_terminated(&mut self.buffer, line.as_str());
            None
        }
    }

    /// Feeds one event from the source: a line, a failure, or `None` once the
    /// source is exhausted, and says what the driver is to do next.
    ///
    /// A failure is handed on at once and leaves the accumulator as it was.
    /// Exhaustion flushes a non-empty accumulator as the last chunk; with an
    /// empty one the sequence is over.
    pub fn advance<E>(&mut self, event: Option<Result<String, E>>) -> (step: Step<E>)
        ensures
            final(self)@.delimiter == old(self)@.delimiter,
            final(self)@.buffer == buffer_after(
                old(self)@.buffer,
                old(self)@.delimiter,
                pull_view(event),
            ),
            step@ == outcome(old(self)@.buffer, old(self)@.delimiter, pull_view(event)),
    {
        match event {
            Some(Ok(line)) => match self.push_line(line) {
                Some(chunk) => Step::Emit(Ok(chunk)),
                None => Step::More,
            },
            Some(Err(failure)) => Step::Emit(Err(failure)),
            None => match self.flush() {
                Some(chunk) => Step::Emit(Ok(chunk)),
                None => Step::End,
            },
        }
    }
}

} // verus!
