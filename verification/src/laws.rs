//! What holds of chunking in general, proved over the model.

use vstd::prelude::*;
use crate::model::{
    buffer_after, buffer_at, chunk_stream, chunks_of, delimiters_follow_text, emitted, failures,
    joined, lines_pulled, nonempty, outcome, rejoined, render, spans, terminated, texts, Line,
};

verus! {

/// Every element of a line sequence is either a text line or a failure.
pub proof fn texts_and_failures_make_up_the_lines<E>(lines: Seq<Line<E>>)
    ensures
        texts(lines).len() + failures(lines).len() == lines.len(),
    decreases lines.len(),
{
    if lines.len() > 0 {
        texts_and_failures_make_up_the_lines(lines.drop_last());
    }
}

/// Lines in two parts have the texts of the first part followed by those of
/// the second, and likewise the failures.
pub proof fn texts_and_failures_of_two_parts<E>(first: Seq<Line<E>>, rest: Seq<Line<E>>)
    ensures
        texts(first + rest) == texts(first) + texts(rest),
        failures(first + rest) == failures(first) + failures(rest),
    decreases rest.len(),
{
    if rest.len() > 0 {
        assert((first + rest).drop_last() =~= first + rest.drop_last());
        texts_and_failures_of_two_parts(first, rest.drop_last());
    }
}

/// The text of two runs of lines, one after the other, is the text of the
/// first followed by the text of the second.
pub proof fn render_of_two_parts(first: Seq<Seq<char>>, rest: Seq<Seq<char>>)
    ensures
        render(first + rest) == render(first) + render(rest),
    decreases rest.len(),
{
    if rest.len() > 0 {
        assert((first + rest).drop_last() =~= first + rest.drop_last());
        render_of_two_parts(first, rest.drop_last());
    }
}

/// The text of a run of lines is at least as long as the run: every line
/// brings its terminator. So a chunk is empty only where its span is.
pub proof fn render_is_empty_only_of_no_lines(lines: Seq<Seq<char>>)
    ensures
        render(lines).len() >= lines.len(),
        render(lines).len() == 0 <==> lines.len() == 0,
    decreases lines.len(),
{
    if lines.len() > 0 {
        render_is_empty_only_of_no_lines(lines.drop_last());
    }
}

/// One more line at the end of the last span is one more line at the end of
/// the joined lines.
proof fn lemma_joined_grows_with_last_span(
    spans: Seq<Seq<Seq<char>>>,
    delimiter: Seq<char>,
    line: Seq<char>,
)
    requires
        spans.len() > 0,
    ensures
        joined(spans.drop_last().push(spans.last().push(line)), delimiter) == joined(
            spans,
            delimiter,
        ).push(line),
{
    let grown = spans.drop_last().push(spans.last().push(line));
    assert(grown.drop_last() =~= spans.drop_last());
}

/// Splitting loses nothing: the spans of a line sequence hold no delimiter,
/// and joined again with one delimiter between every two of them they are
/// the line sequence.
pub proof fn spans_split_at_the_delimiters(lines: Seq<Seq<char>>, delimiter: Seq<char>)
    ensures
        spans(lines, delimiter).len() > 0,
        joined(spans(lines, delimiter), delimiter) == lines,
        forall|i: int, j: int|
            0 <= i < spans(lines, delimiter).len() && 0 <= j < spans(lines, delimiter)[i].len()
                ==> #[trigger] spans(lines, delimiter)[i][j] != delimiter,
    decreases lines.len(),
{
    if lines.len() > 0 {
        let before = spans(lines.drop_last(), delimiter);
        spans_split_at_the_delimiters(lines.drop_last(), delimiter);
        if lines.last() == delimiter {
            assert(before.push(Seq::empty()).drop_last() =~= before);
        } else {
            lemma_joined_grows_with_last_span(before, delimiter, lines.last());
        }
    }
}

/// There is one way only to split at the delimiters: spans that hold no
/// delimiter and that give `lines` when joined are the spans of `lines`.
pub proof fn spans_are_the_only_split(
    lines: Seq<Seq<char>>,
    delimiter: Seq<char>,
    parts: Seq<Seq<Seq<char>>>,
)
    requires
        parts.len() > 0,
        joined(parts, delimiter) == lines,
        forall|i: int, j: int|
            0 <= i < parts.len() && 0 <= j < parts[i].len() ==> #[trigger] parts[i][j]
                != delimiter,
    ensures
        parts == spans(lines, delimiter),
    decreases lines.len(),
{
    let last = parts.last();
    if last.len() > 0 {
        let shorter = parts.drop_last().push(last.drop_last());
        assert(shorter.last().push(last.last()) =~= last);
        assert(shorter.drop_last().push(shorter.last().push(last.last())) =~= parts);
        lemma_joined_grows_with_last_span(shorter, delimiter, last.last());
        assert(joined(shorter, delimiter) =~= lines.drop_last());
        spans_are_the_only_split(lines.drop_last(), delimiter, shorter);
    } else if parts.len() > 1 {
        let shorter = parts.drop_last();
        assert(last =~= Seq::<Seq<char>>::empty());
        assert(lines.drop_last() =~= joined(shorter, delimiter));
        spans_are_the_only_split(lines.drop_last(), delimiter, shorter);
    } else {
        assert(last =~= Seq::<Seq<char>>::empty());
    }
}

/// Feeding a chunker `first` and then `rest` is feeding it `first + rest`:
/// the accumulator that `first` leaves is all that `rest` needs to go on
/// from, and what is handed out is what `first` gave rise to followed by what
/// `rest` gives rise to from there.
pub proof fn feeding_in_two_parts<E>(
    start: Seq<char>,
    delimiter: Seq<char>,
    first: Seq<Line<E>>,
    rest: Seq<Line<E>>,
)
    ensures
        buffer_at(start, delimiter, first + rest) == buffer_at(
            buffer_at(start, delimiter, first),
            delimiter,
            rest,
        ),
        emitted(start, delimiter, first + rest) == emitted(start, delimiter, first) + emitted(
            buffer_at(start, delimiter, first),
            delimiter,
            rest,
        ),
        chunk_stream(start, delimiter, first + rest) == emitted(start, delimiter, first)
            + chunk_stream(buffer_at(start, delimiter, first), delimiter, rest),
    decreases rest.len(),
{
    if rest.len() > 0 {
        assert((first + rest).drop_last() =~= first + rest.drop_last());
        feeding_in_two_parts(start, delimiter, first, rest.drop_last());
    }
}

/// Every line gives rise to at most one element, and the end of the source
/// to at most one more. Text that is already accumulated is never lost: it
/// gives rise to at least one element.
pub proof fn chunk_stream_length_is_bounded<E>(
    start: Seq<char>,
    delimiter: Seq<char>,
    lines: Seq<Line<E>>,
)
    ensures
        emitted(start, delimiter, lines).len() <= lines.len(),
        chunk_stream(start, delimiter, lines).len() <= lines.len() + 1,
        start.len() > 0 ==> chunk_stream(start, delimiter, lines).len() >= 1,
        start.len() > 0 ==> emitted(start, delimiter, lines).len() > 0 || buffer_at(
            start,
            delimiter,
            lines,
        ).len() > 0,
    decreases lines.len(),
{
    if lines.len() > 0 {
        chunk_stream_length_is_bounded(start, delimiter, lines.drop_last());
    }
}

/// No chunk is empty: an empty accumulator is never handed out, neither at a
/// delimiter nor at the end of the source.
pub proof fn no_chunk_is_empty<E>(start: Seq<char>, delimiter: Seq<char>, lines: Seq<Line<E>>)
    ensures
        forall|i: int|
            0 <= i < emitted(start, delimiter, lines).len() ==> (#[trigger] emitted(
                start,
                delimiter,
                lines,
            )[i] matches Ok(chunk) ==> chunk.len() > 0),
        forall|i: int|
            0 <= i < chunk_stream(start, delimiter, lines).len() ==> (#[trigger] chunk_stream(
                start,
                delimiter,
                lines,
            )[i] matches Ok(chunk) ==> chunk.len() > 0),
    decreases lines.len(),
{
    if lines.len() > 0 {
        no_chunk_is_empty(start, delimiter, lines.drop_last());
    }
}

/// A pull never reads ahead: the lines it takes before the last one give rise
/// to nothing, and where the lines give rise to anything at all, those it
/// takes give rise to exactly one element. Where they give rise to nothing,
/// it takes them all.
pub proof fn pull_takes_no_more_than_it_needs<E>(
    buffer: Seq<char>,
    delimiter: Seq<char>,
    lines: Seq<Line<E>>,
)
    ensures
        lines_pulled(buffer, delimiter, lines) <= lines.len(),
        lines_pulled(buffer, delimiter, lines) == 0 <==> lines.len() == 0,
        lines.len() > 0 ==> emitted(
            buffer,
            delimiter,
            lines.take(lines_pulled(buffer, delimiter, lines) - 1),
        ).len() == 0,
        emitted(buffer, delimiter, lines).len() > 0 ==> emitted(
            buffer,
            delimiter,
            lines.take(lines_pulled(buffer, delimiter, lines) as int),
        ).len() == 1,
        emitted(buffer, delimiter, lines).len() == 0 ==> lines_pulled(buffer, delimiter, lines)
            == lines.len(),
    decreases lines.len(),
{
    if lines.len() > 0 {
        let one = seq![lines.first()];
        let rest = lines.drop_first();
        let next = buffer_after(buffer, delimiter, Some(lines.first()));
        let pulled: nat = lines_pulled(buffer, delimiter, lines);
        assert(buffer_at(buffer, delimiter, one.drop_last()) == buffer);
        assert(emitted(buffer, delimiter, one.drop_last()).len() == 0);
        assert(lines =~= one + rest);
        feeding_in_two_parts(buffer, delimiter, one, rest);
        assert(lines.take(1) =~= one);
        if outcome(buffer, delimiter, Some(lines.first())) is More {
            let more: nat = lines_pulled(next, delimiter, rest);
            pull_takes_no_more_than_it_needs(next, delimiter, rest);
            if rest.len() > 0 {
                assert(lines.take(pulled - 1) =~= one + rest.take(more - 1));
                feeding_in_two_parts(buffer, delimiter, one, rest.take(more - 1));
            }
            assert(lines.take(pulled as int) =~= one + rest.take(more as int));
            feeding_in_two_parts(buffer, delimiter, one, rest.take(more as int));
        }
    }
}

/// A failure reaches the consumer right after what the lines before it gave
/// rise to, and leaves the accumulator as those lines left it. What comes
/// after is chunked from there, so the chunks are those of the same lines
/// without the failure.
pub proof fn failure_passes_through<E>(
    start: Seq<char>,
    delimiter: Seq<char>,
    before: Seq<Line<E>>,
    failure: E,
    after: Seq<Line<E>>,
)
    ensures
        buffer_at(start, delimiter, before.push(Err(failure))) == buffer_at(
            start,
            delimiter,
            before,
        ),
        chunk_stream(start, delimiter, before.push(Err(failure)) + after) == emitted(
            start,
            delimiter,
            before,
        ).push(Err(failure)) + chunk_stream(buffer_at(start, delimiter, before), delimiter, after),
        texts(chunk_stream(start, delimiter, before.push(Err(failure)) + after)) == texts(
            chunk_stream(start, delimiter, before + after),
        ),
{
    let failed = before.push(Err(failure));
    let head = emitted(start, delimiter, before);
    let tail = chunk_stream(buffer_at(start, delimiter, before), delimiter, after);
    assert(failed.drop_last() =~= before);
    feeding_in_two_parts(start, delimiter, failed, after);
    feeding_in_two_parts(start, delimiter, before, after);
    texts_and_failures_of_two_parts(head.push(Err(failure)), tail);
    texts_and_failures_of_two_parts(head, tail);
    assert(head.push(Err(failure)).drop_last() =~= head);
}

/// Between the chunks it hands out, a chunker that started empty holds
/// exactly the text of the lines it has seen since the last delimiter, and
/// has handed out the text of every non-empty span that a delimiter has
/// closed, together with every failure, each in the order of arrival.
pub proof fn accumulator_holds_the_open_span<E>(delimiter: Seq<char>, lines: Seq<Line<E>>)
    ensures
        spans(texts(lines), delimiter).len() > 0,
        buffer_at(Seq::empty(), delimiter, lines) == render(spans(texts(lines), delimiter).last()),
        texts(emitted(Seq::empty(), delimiter, lines)) == chunks_of(
            spans(texts(lines), delimiter).drop_last(),
        ),
        failures(emitted(Seq::empty(), delimiter, lines)) == failures(lines),
    decreases lines.len(),
{
    let start = Seq::<char>::empty();
    if lines.len() > 0 {
        let before = lines.drop_last();
        accumulator_holds_the_open_span(delimiter, before);
        let closed = spans(texts(before), delimiter);
        let out = emitted(start, delimiter, before);
        let buffer = buffer_at(start, delimiter, before);
        match lines.last() {
            Err(failure) => {
                assert(out.push(Err(failure)).drop_last() =~= out);
            },
            Ok(text) => {
                assert(texts(before).push(text).drop_last() =~= texts(before));
                if text == delimiter {
                    assert(closed.push(Seq::empty()).drop_last() =~= closed);
                    render_is_empty_only_of_no_lines(closed.last());
                    if buffer.len() > 0 {
                        assert(out.push(Ok(buffer)).drop_last() =~= out);
                    }
                } else {
                    let open = closed.last().push(text);
                    assert(open.drop_last() =~= closed.last());
                    assert(closed.drop_last().push(open).drop_last() =~= closed.drop_last());
                }
            },
        }
    }
}

/// The chunks of a line sequence are the texts of its non-empty spans, in
/// order, and there are as many of them; the failures come through unchanged
/// and in order.
pub proof fn chunks_are_the_nonempty_spans<E>(delimiter: Seq<char>, lines: Seq<Line<E>>)
    ensures
        texts(chunk_stream(Seq::empty(), delimiter, lines)) == chunks_of(
            spans(texts(lines), delimiter),
        ),
        texts(chunk_stream(Seq::empty(), delimiter, lines)).len() == nonempty(
            spans(texts(lines), delimiter),
        ).len(),
        failures(chunk_stream(Seq::empty(), delimiter, lines)) == failures(lines),
        chunk_stream(Seq::empty(), delimiter, lines).len() == nonempty(
            spans(texts(lines), delimiter),
        ).len() + failures(lines).len(),
{
    let start = Seq::<char>::empty();
    accumulator_holds_the_open_span(delimiter, lines);
    texts_and_failures_make_up_the_lines(chunk_stream(start, delimiter, lines));
    let all = spans(texts(lines), delimiter);
    let out = emitted(start, delimiter, lines);
    let buffer = buffer_at(start, delimiter, lines);
    render_is_empty_only_of_no_lines(all.last());
    if buffer.len() > 0 {
        assert(out.push(Ok(buffer)).drop_last() =~= out);
    }
}

/// The text of joined spans is the texts of the spans rejoined.
proof fn lemma_render_of_joined(
    spans: Seq<Seq<Seq<char>>>,
    delimiter: Seq<char>,
    chunks: Seq<Seq<char>>,
)
    requires
        chunks.len() == spans.len(),
        forall|i: int| 0 <= i < spans.len() ==> #[trigger] chunks[i] == render(spans[i]),
    ensures
        render(joined(spans, delimiter)) == rejoined(chunks, delimiter),
    decreases spans.len(),
{
    if spans.len() > 1 {
        let before = joined(spans.drop_last(), delimiter);
        lemma_render_of_joined(spans.drop_last(), delimiter, chunks.drop_last());
        render_of_two_parts(before.push(delimiter), spans.last());
        assert(before.push(delimiter).drop_last() =~= before);
    }
}

/// Where no span is empty, none is left out.
proof fn lemma_nonempty_keeps_all(spans: Seq<Seq<Seq<char>>>)
    requires
        forall|i: int| 0 <= i < spans.len() ==> #[trigger] spans[i].len() > 0,
    ensures
        nonempty(spans) == spans,
    decreases spans.len(),
{
    if spans.len() > 0 {
        lemma_nonempty_keeps_all(spans.drop_last());
    }
}

/// Where every delimiter comes right after a line that is none, only the
/// last span can be empty, and it is exactly where the lines end in a
/// delimiter or there are none.
proof fn lemma_spans_between_delimiters(lines: Seq<Seq<char>>, delimiter: Seq<char>)
    requires
        delimiters_follow_text(lines, delimiter),
    ensures
        spans(lines, delimiter).len() > 0,
        forall|i: int|
            0 <= i < spans(lines, delimiter).len() - 1 ==> #[trigger] spans(
                lines,
                delimiter,
            )[i].len() > 0,
        spans(lines, delimiter).last().len() > 0 <==> lines.len() > 0 && lines.last()
            != delimiter,
    decreases lines.len(),
{
    if lines.len() > 0 {
        let before = lines.drop_last();
        lemma_spans_between_delimiters(before, delimiter);
    }
}

/// The chunks, with the delimiter put back between them, are the text of the
/// non-empty spans joined by the delimiter: the text of the lines less the
/// delimiters that come first, last, or right after another.
pub proof fn rejoined_chunks_are_the_nonempty_spans_joined<E>(
    delimiter: Seq<char>,
    lines: Seq<Line<E>>,
)
    ensures
        rejoined(texts(chunk_stream(Seq::empty(), delimiter, lines)), delimiter) == render(
            joined(nonempty(spans(texts(lines), delimiter)), delimiter),
        ),
{
    chunks_are_the_nonempty_spans(delimiter, lines);
    let kept = nonempty(spans(texts(lines), delimiter));
    lemma_render_of_joined(kept, delimiter, chunks_of(spans(texts(lines), delimiter)));
}

/// Where every delimiter comes right after a line that is none, the chunks
/// with the delimiter put back between them are the text of the lines, each
/// line followed by one line terminator. A delimiter at the very end closes
/// the last chunk and is not seen in the chunks: the text of the lines then
/// has it after the last chunk.
pub proof fn rejoined_chunks_reproduce_the_lines<E>(delimiter: Seq<char>, lines: Seq<Line<E>>)
    requires
        delimiters_follow_text(texts(lines), delimiter),
    ensures
        render(texts(lines)) == if texts(lines).len() > 0 && texts(lines).last() == delimiter {
            rejoined(texts(chunk_stream(Seq::empty(), delimiter, lines)), delimiter) + terminated(
                delimiter,
            )
        } else {
            rejoined(texts(chunk_stream(Seq::empty(), delimiter, lines)), delimiter)
        },
{
    let all_lines = texts(lines);
    let all = spans(all_lines, delimiter);
    rejoined_chunks_are_the_nonempty_spans_joined(delimiter, lines);
    spans_split_at_the_delimiters(all_lines, delimiter);
    if all_lines.len() == 0 {
        assert(nonempty(all.drop_last()) =~= Seq::empty());
    } else if all_lines.last() != delimiter {
        lemma_spans_between_delimiters(all_lines, delimiter);
        lemma_nonempty_keeps_all(all);
    } else {
        let before = all_lines.drop_last();
        lemma_spans_between_delimiters(before, delimiter);
        lemma_nonempty_keeps_all(spans(before, delimiter));
        spans_split_at_the_delimiters(before, delimiter);
        assert(all.drop_last() =~= spans(before, delimiter));
    }
}

} // verus!
