use lines_ext::{chunk_by_line, ChunkByLine, LinesExt};

const BYTES: &[u8; 39] = b"~~~
multi
line
chunk
~~~
another
chunk
";

const BYTES2: &[u8; 42] = b"~~~
mutli

line

chunk
~~~
another

chunk
";

fn lines(texts: &[&str]) -> Vec<Result<String, String>> {
    texts.iter().map(|text| Ok(text.to_string())).collect()
}

fn lines_of_bytes(bytes: &[u8]) -> Vec<Result<String, String>> {
    let text = std::str::from_utf8(bytes).unwrap();
    text.lines().map(|line| Ok(line.to_string())).collect()
}

fn chunks(texts: &[&str], delimiter: &str) -> Vec<String> {
    chunk_by_line(lines(texts), delimiter)
        .collect()
        .into_iter()
        .map(|item| item.unwrap())
        .collect()
}

fn rejoin(chunks: &[String], delimiter: &str) -> String {
    chunks.join(&format!("{}\n", delimiter))
}

fn render(texts: &[&str]) -> String {
    texts.iter().map(|text| format!("{}\n", text)).collect()
}

#[test]
fn chunks_by_line() {
    let docs: Vec<Result<String, String>> = lines_of_bytes(BYTES).chunk_by_line("~~~").collect();
    assert_eq!(
        docs,
        vec![Ok("multi\nline\nchunk\n".to_string()), Ok("another\nchunk\n".to_string())]
    );
    let docs: Vec<Result<String, String>> = lines_of_bytes(BYTES2).chunk_by_line("~~~").collect();
    assert_eq!(
        docs,
        vec![Ok("mutli\n\nline\n\nchunk\n".to_string()), Ok("another\n\nchunk\n".to_string())]
    );
}

#[test]
fn basic_split() {
    assert_eq!(
        chunks(&["~~~", "multi", "", "line", "chunk", "~~~", "another", "chunk"], "~~~"),
        vec!["multi\n\nline\nchunk\n", "another\nchunk\n"]
    );
}

#[test]
fn no_trailing_delimiter() {
    assert_eq!(chunks(&["a", "b"], "~~~"), vec!["a\nb\n"]);
}

#[test]
fn delimiter_terminated() {
    assert_eq!(chunks(&["a", "~~~"], "~~~"), vec!["a\n"]);
}

#[test]
fn consecutive_delimiters() {
    assert_eq!(chunks(&["~~~", "~~~", "a"], "~~~"), vec!["a\n"]);
}

#[test]
fn empty_input_gives_no_chunks() {
    assert_eq!(chunks(&[], "~~~"), Vec::<String>::new());
}

#[test]
fn delimiters_alone_give_no_chunks() {
    assert_eq!(chunks(&["~~~"], "~~~"), Vec::<String>::new());
    assert_eq!(chunks(&["~~~", "~~~", "~~~"], "~~~"), Vec::<String>::new());
}

#[test]
fn blank_lines_are_kept() {
    assert_eq!(chunks(&["", "", "~~~", ""], "~~~"), vec!["\n\n", "\n"]);
}

#[test]
fn lines_are_compared_untrimmed() {
    assert_eq!(
        chunks(&["a", " ~~~", "b", "~~~ ", "c", "~~~\t", "d"], "~~~"),
        vec!["a\n ~~~\nb\n~~~ \nc\n~~~\t\nd\n"]
    );
}

#[test]
fn delimiter_is_not_trimmed() {
    assert_eq!(chunks(&["a", "~~~", "b", " ~~~ ", "c"], " ~~~ "), vec!["a\n~~~\nb\n", "c\n"]);
}

#[test]
fn comparison_is_case_sensitive() {
    assert_eq!(chunks(&["a", "end", "b", "END", "c"], "END"), vec!["a\nend\nb\n", "c\n"]);
}

#[test]
fn delimiter_inside_a_line_is_no_boundary() {
    assert_eq!(chunks(&["a~~~b", "~~~~", "~~"], "~~~"), vec!["a~~~b\n~~~~\n~~\n"]);
}

#[test]
fn empty_delimiter_splits_at_empty_lines() {
    assert_eq!(chunks(&["a", "b", "", "", "c", ""], ""), vec!["a\nb\n", "c\n"]);
}

#[test]
fn text_is_not_limited_to_ascii() {
    assert_eq!(chunks(&["é", "—", "ü", "—", "日本"], "—"), vec!["é\n", "ü\n", "日本\n"]);
}

#[test]
fn chunk_count_is_the_count_of_nonempty_spans() {
    assert_eq!(chunks(&["a", "~~~", "~~~", "b", "~~~"], "~~~").len(), 2);
    assert_eq!(chunks(&["~~~", "a", "b", "c"], "~~~").len(), 1);
    assert_eq!(chunks(&["a", "~~~", "b", "~~~", "c", "~~~", "d"], "~~~").len(), 4);
    assert_eq!(chunks(&["~~~", "~~~"], "~~~").len(), 0);
}

#[test]
fn chunks_keep_the_order_of_their_spans() {
    assert_eq!(
        chunks(&["3", "~~~", "1", "~~~", "2", "2", "~~~", "1"], "~~~"),
        vec!["3\n", "1\n", "2\n2\n", "1\n"]
    );
}

#[test]
fn rejoined_chunks_reproduce_the_lines() {
    let texts = ["a", "b", "~~~", "c", "~~~", "", "d"];
    let out = chunks(&texts, "~~~");
    assert_eq!(out, vec!["a\nb\n", "c\n", "\nd\n"]);
    assert_eq!(rejoin(&out, "~~~"), "a\nb\n~~~\nc\n~~~\n\nd\n");
    assert_eq!(rejoin(&out, "~~~"), render(&texts));
}

#[test]
fn rejoined_chunks_lack_only_a_final_delimiter() {
    let texts = ["a", "~~~", "b", "c", "~~~"];
    let out = chunks(&texts, "~~~");
    assert_eq!(out, vec!["a\n", "b\nc\n"]);
    assert_eq!(format!("{}~~~\n", rejoin(&out, "~~~")), render(&texts));
}

#[test]
fn rejoined_chunks_leave_out_delimiters_without_neighbours() {
    let texts = ["~~~", "a", "~~~", "~~~", "b", "~~~"];
    let out = chunks(&texts, "~~~");
    assert_eq!(rejoin(&out, "~~~"), "a\n~~~\nb\n");
    assert_ne!(rejoin(&out, "~~~"), render(&texts));
}

#[test]
fn failure_passes_through() {
    let input: Vec<Result<String, String>> = vec![
        Ok("a".to_string()),
        Err("boom".to_string()),
        Ok("b".to_string()),
        Ok("~~~".to_string()),
        Ok("c".to_string()),
    ];
    assert_eq!(
        chunk_by_line(input, "~~~").collect(),
        vec![Err("boom".to_string()), Ok("a\nb\n".to_string()), Ok("c\n".to_string())]
    );
}

#[test]
fn failure_arrives_at_its_pull_position() {
    let input: Vec<Result<String, String>> = vec![
        Ok("a".to_string()),
        Ok("~~~".to_string()),
        Ok("b".to_string()),
        Err("boom".to_string()),
        Ok("c".to_string()),
        Ok("~~~".to_string()),
        Ok("d".to_string()),
    ];
    let mut chunks = chunk_by_line(input, "~~~");
    assert_eq!(chunks.next_chunk(), Some(Ok("a\n".to_string())));
    assert_eq!(chunks.next_chunk(), Some(Err("boom".to_string())));
    assert_eq!(chunks.next_chunk(), Some(Ok("b\nc\n".to_string())));
    assert_eq!(chunks.next_chunk(), Some(Ok("d\n".to_string())));
    assert_eq!(chunks.next_chunk(), None);
}

#[test]
fn failure_before_the_end_does_not_drop_the_last_chunk() {
    let input: Vec<Result<String, String>> = vec![Ok("a".to_string()), Err("boom".to_string())];
    assert_eq!(
        chunk_by_line(input, "~~~").collect(),
        vec![Err("boom".to_string()), Ok("a\n".to_string())]
    );
}

#[test]
fn failures_keep_their_order() {
    let input: Vec<Result<String, u32>> =
        vec![Err(1), Ok("a".to_string()), Err(2), Err(3), Ok("~~~".to_string()), Err(4)];
    assert_eq!(
        chunk_by_line(input, "~~~").collect(),
        vec![Err(1), Err(2), Err(3), Ok("a\n".to_string()), Err(4)]
    );
}

#[test]
fn failures_alone_pass_through() {
    let input: Vec<Result<String, u32>> = vec![Err(1), Err(2)];
    assert_eq!(chunk_by_line(input, "~~~").collect(), vec![Err(1), Err(2)]);
}

#[test]
fn io_failures_are_handed_on_unchanged() {
    let input: Vec<Result<String, std::io::Error>> = vec![
        Ok("a".to_string()),
        Err(std::io::Error::new(std::io::ErrorKind::UnexpectedEof, "cut short")),
        Ok("b".to_string()),
    ];
    let out = chunk_by_line(input, "~~~").collect();
    assert_eq!(out.len(), 2);
    match &out[0] {
        Err(failure) => {
            assert_eq!(failure.kind(), std::io::ErrorKind::UnexpectedEof);
            assert_eq!(failure.to_string(), "cut short");
        },
        Ok(chunk) => panic!("a chunk came in place of the failure: {:?}", chunk),
    }
    assert_eq!(out[1].as_ref().unwrap(), "a\nb\n");
}

#[test]
fn exhaustion_is_signalled_again_on_later_pulls() {
    let mut chunks = chunk_by_line(lines(&["a"]), "~~~");
    assert_eq!(chunks.next_chunk(), Some(Ok("a\n".to_string())));
    assert_eq!(chunks.next_chunk(), None);
    assert_eq!(chunks.next_chunk(), None);
    assert_eq!(chunks.collect(), Vec::<Result<String, String>>::new());
}

#[test]
fn pull_does_not_read_ahead() {
    let mut chunks = chunk_by_line(lines(&["~~~", "a", "~~~", "b", "c", "~~~", "d"]), "~~~");
    assert_eq!(chunks.size_hint(), (0, Some(8)));
    assert_eq!(chunks.next_chunk(), Some(Ok("a\n".to_string())));
    assert_eq!(chunks.size_hint(), (0, Some(5)));
    assert_eq!(chunks.next_chunk(), Some(Ok("b\nc\n".to_string())));
    assert_eq!(chunks.size_hint(), (0, Some(2)));
    assert_eq!(chunks.next_chunk(), Some(Ok("d\n".to_string())));
    assert_eq!(chunks.size_hint(), (0, Some(1)));
    assert_eq!(chunks.next_chunk(), None);
    assert_eq!(chunks.size_hint(), (0, Some(1)));
}

#[test]
fn size_hint_counts_accumulated_text() {
    let input: Vec<Result<String, u32>> =
        vec![Ok("a".to_string()), Err(7), Ok("b".to_string()), Ok("c".to_string())];
    let mut chunks = chunk_by_line(input, "~~~");
    assert_eq!(chunks.size_hint(), (0, Some(5)));
    assert_eq!(chunks.next_chunk(), Some(Err(7)));
    assert_eq!(chunks.size_hint(), (1, Some(3)));
    assert_eq!(chunks.next_chunk(), Some(Ok("a\nb\nc\n".to_string())));
    assert_eq!(chunks.size_hint(), (0, Some(1)));
}

#[test]
fn collect_after_some_pulls_gives_the_rest() {
    let mut chunks = chunk_by_line(lines(&["a", "~~~", "b", "~~~", "c"]), "~~~");
    assert_eq!(chunks.next_chunk(), Some(Ok("a\n".to_string())));
    assert_eq!(chunks.collect(), vec![Ok("b\n".to_string()), Ok("c\n".to_string())]);
}

#[test]
fn method_and_function_agree() {
    let texts = ["~~~", "a", "b", "~~~", "c"];
    let by_method: Vec<Result<String, String>> = lines(&texts).chunk_by_line("~~~").collect();
    let by_function: Vec<Result<String, String>> = chunk_by_line(lines(&texts), "~~~").collect();
    let by_constructor: Vec<Result<String, String>> =
        ChunkByLine::new(lines(&texts), "~~~").collect();
    assert_eq!(by_method, vec![Ok("a\nb\n".to_string()), Ok("c\n".to_string())]);
    assert_eq!(by_method, by_function);
    assert_eq!(by_method, by_constructor);
}
