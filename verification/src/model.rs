//! The mathematical model of chunking.
//!
//! A source yields lines one at a time; each is either text or a failure that
//! the source reports in place of a line. A chunker folds the text lines into
//! an accumulator and hands the accumulator out as a chunk whenever it meets
//! the delimiter line or the source runs dry. Everything here is ghost code:
//! the contracts of the executable functions are stated over these functions.

use vstd::prelude::*;

verus! {

/// One element of a line sequence: the text of a line, or the failure that
/// the source reported in its place.
pub type Line<E> = Result<Seq<char>, E>;

/// What a chunker tells its driver after one event from the source.
pub enum StepView<E> {
    /// Nothing to hand out yet: the source is to be asked again.
    More,
    /// The consumer receives this element.
    Emit(Line<E>),
    /// The sequence of chunks is over.
    End,
}

/// The model of a line as the source hands it over.
pub open spec fn line_view<E>(line: Result<String, E>) -> Line<E> {
    match line {
        Ok(text) => Ok(text@),
        Err(failure) => Err(failure),
    }
}

/// The model of what one pull yields: an element, or `None` once the sequence
/// is exhausted. It serves for a pull on the source of lines and for a pull on
/// the sequence of chunks alike.
pub open spec fn pull_view<E>(event: Option<Result<String, E>>) -> Option<Line<E>> {
    match event {
        Some(line) => Some(line_view(line)),
        None => None,
    }
}

/// The model of a sequence of lines or of chunks.
pub open spec fn stream_view<E>(items: Seq<Result<String, E>>) -> Seq<Line<E>> {
    items.map_values(|item: Result<String, E>| line_view(item))
}

/// The text that one line contributes to a chunk: the line itself followed by
/// exactly one line terminator.
pub open spec fn terminated(line: Seq<char>) -> Seq<char> {
    line.push('\n')
}

/// The accumulator after one event, given the accumulator before it.
///
/// A delimiter line and exhaustion leave it empty, any other text line is
/// appended with its terminator, and a failure does not touch it.
pub open spec fn buffer_after<E>(
    buffer: Seq<char>,
    delimiter: Seq<char>,
    event: Option<Line<E>>,
) -> Seq<char> {
    match event {
        Some(Ok(text)) => if text == delimiter {
            Seq::empty()
        } else {
            buffer + terminated(text)
        },
        Some(Err(_)) => buffer,
        None => Seq::empty(),
    }
}

/// What one event makes of an accumulator holding `buffer`.
///
/// A non-empty accumulator is handed out on a delimiter line and on
/// exhaustion; an empty one never is. A failure is handed on as it came.
pub open spec fn outcome<E>(
    buffer: Seq<char>,
    delimiter: Seq<char>,
    event: Option<Line<E>>,
) -> StepView<E> {
    match event {
        Some(Ok(text)) => if text == delimiter && buffer.len() > 0 {
            StepView::Emit(Ok(buffer))
        } else {
            StepView::More
        },
        Some(Err(failure)) => StepView::Emit(Err(failure)),
        None => if buffer.len() > 0 {
            StepView::Emit(Ok(buffer))
        } else {
            StepView::End
        },
    }
}

/// The accumulator of a chunker that started with `start` and has since been
/// fed all of `lines`.
pub open spec fn buffer_at<E>(start: Seq<char>, delimiter: Seq<char>, lines: Seq<Line<E>>) -> Seq<
    char,
>
    decreases lines.len(),
{
    if lines.len() == 0 {
        start
    } else {
        buffer_after(buffer_at(start, delimiter, lines.drop_last()), delimiter, Some(lines.last()))
    }
}

/// Everything a chunker that started with `start` has handed out while it was
/// fed `lines`, in order. The source is not yet exhausted, so whatever the
/// accumulator holds after `lines` is not part of it.
pub open spec fn emitted<E>(start: Seq<char>, delimiter: Seq<char>, lines: Seq<Line<E>>) -> Seq<
    Line<E>,
>
    decreases lines.len(),
{
    if lines.len() == 0 {
        Seq::empty()
    } else {
        let before = lines.drop_last();
        match outcome(buffer_at(start, delimiter, before), delimiter, Some(lines.last())) {
            StepView::Emit(item) => emitted(start, delimiter, before).push(item),
            _ => emitted(start, delimiter, before),
        }
    }
}

/// Everything the consumer receives from a chunker that starts with `start`
/// and whose source yields `lines` and then ends: what the lines give rise
/// to, followed by the final flush of a non-empty accumulator.
pub open spec fn chunk_stream<E>(
    start: Seq<char>,
    delimiter: Seq<char>,
    lines: Seq<Line<E>>,
) -> Seq<Line<E>> {
    match outcome::<E>(buffer_at(start, delimiter, lines), delimiter, None) {
        StepView::Emit(item) => emitted(start, delimiter, lines).push(item),
        _ => emitted(start, delimiter, lines),
    }
}

/// The number of lines that one pull takes from a source still holding
/// `lines`: all lines up to and including the first one on which something is
/// handed out, or every line where there is no such line.
pub open spec fn lines_pulled<E>(
    buffer: Seq<char>,
    delimiter: Seq<char>,
    lines: Seq<Line<E>>,
) -> nat
    decreases lines.len(),
{
    if lines.len() == 0 {
        0
    } else if outcome(buffer, delimiter, Some(lines.first())) is More {
        1 + lines_pulled(
            buffer_after(buffer, delimiter, Some(lines.first())),
            delimiter,
            lines.drop_first(),
        )
    } else {
        1
    }
}

/// The text lines among `lines`, in order, with the failures left out. Of
/// what a consumer receives, these are the chunks.
pub open spec fn texts<E>(lines: Seq<Line<E>>) -> Seq<Seq<char>>
    decreases lines.len(),
{
    if lines.len() == 0 {
        Seq::empty()
    } else {
        match lines.last() {
            Ok(text) => texts(lines.drop_last()).push(text),
            Err(_) => texts(lines.drop_last()),
        }
    }
}

/// The failures among `lines`, in order, with the text lines left out.
pub open spec fn failures<E>(lines: Seq<Line<E>>) -> Seq<E>
    decreases lines.len(),
{
    if lines.len() == 0 {
        Seq::empty()
    } else {
        match lines.last() {
            Ok(_) => failures(lines.drop_last()),
            Err(failure) => failures(lines.drop_last()).push(failure),
        }
    }
}

/// The text of a run of lines: every line followed by one line terminator,
/// in order.
pub open spec fn render(lines: Seq<Seq<char>>) -> Seq<char>
    decreases lines.len(),
{
    if lines.len() == 0 {
        Seq::empty()
    } else {
        render(lines.drop_last()) + terminated(lines.last())
    }
}

/// `lines` split at every line equal to `delimiter`: the maximal runs of
/// lines without a delimiter, in order. Lines with n delimiters among them
/// have n + 1 spans, and a span is empty where a delimiter comes first, last
/// or right after another.
pub open spec fn spans(lines: Seq<Seq<char>>, delimiter: Seq<char>) -> Seq<Seq<Seq<char>>>
    decreases lines.len(),
{
    if lines.len() == 0 {
        seq![Seq::empty()]
    } else {
        let before = spans(lines.drop_last(), delimiter);
        if lines.last() == delimiter {
            before.push(Seq::empty())
        } else {
            before.drop_last().push(before.last().push(lines.last()))
        }
    }
}

/// The spans that hold at least one line, in order.
pub open spec fn nonempty(spans: Seq<Seq<Seq<char>>>) -> Seq<Seq<Seq<char>>>
    decreases spans.len(),
{
    if spans.len() == 0 {
        Seq::empty()
    } else if spans.last().len() > 0 {
        nonempty(spans.drop_last()).push(spans.last())
    } else {
        nonempty(spans.drop_last())
    }
}

/// The chunks that `spans` make: the text of every span that holds at least
/// one line, in order.
pub open spec fn chunks_of(spans: Seq<Seq<Seq<char>>>) -> Seq<Seq<char>> {
    nonempty(spans).map_values(|span: Seq<Seq<char>>| render(span))
}

/// The lines of `spans` in order, with one delimiter line between every two
/// consecutive spans.
pub open spec fn joined(spans: Seq<Seq<Seq<char>>>, delimiter: Seq<char>) -> Seq<Seq<char>>
    decreases spans.len(),
{
    if spans.len() == 0 {
        Seq::empty()
    } else if spans.len() == 1 {
        spans.last()
    } else {
        joined(spans.drop_last(), delimiter).push(delimiter) + spans.last()
    }
}

/// The text of `chunks` in order, with the delimiter put back as a line of
/// its own between every two consecutive chunks.
pub open spec fn rejoined(chunks: Seq<Seq<char>>, delimiter: Seq<char>) -> Seq<char>
    decreases chunks.len(),
{
    if chunks.len() == 0 {
        Seq::empty()
    } else if chunks.len() == 1 {
        chunks.last()
    } else {
        rejoined(chunks.drop_last(), delimiter) + terminated(delimiter) + chunks.last()
    }
}

/// Every delimiter among `lines` comes right after a line that is none: no
/// delimiter comes first, and no two follow each other.
pub open spec fn delimiters_follow_text(lines: Seq<Seq<char>>, delimiter: Seq<char>) -> bool {
    forall|i: int|
        0 <= i < lines.len() && #[trigger] lines[i] == delimiter ==> i > 0 && lines[i - 1]
            != delimiter
}

} // verus!
