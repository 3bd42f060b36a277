use http_source::charset::Charset;
use http_source::metadata::{HttpResponseMetadata, RawHeader};
use http_source::splitter::{first_delim_index, split_stream, transfer_encoding, RecordSplitter};

fn feed(chunks: &[&str], delimiter: &str) -> Vec<String> {
    let mut splitter = RecordSplitter::new(delimiter.as_bytes().to_vec(), Charset::utf8());
    let mut out = Vec::new();
    for chunk in chunks {
        out.extend(splitter.push_chunk(chunk.as_bytes()));
    }
    out
}

#[test]
fn test_read_http_stream_concatenates_chunks() {
    let records = feed(&["Hello", " world", "!", " Welcome", " to ", "NY!"], "!");
    assert_eq!(records[0], String::from("Hello world"));
    assert_eq!(records[1], String::from(" Welcome to NY"));
}

#[test]
fn test_read_http_stream_handles_remainders() {
    let records = feed(&["Hello wo", "rld! Wel", "come to NY!"], "!");
    assert_eq!(records[0], String::from("Hello world"));
    assert_eq!(records[1], String::from(" Welcome to NY"));
}

#[test]
fn test_read_http_stream_handles_multi_record_chunks() {
    let records = feed(&["Hello world! Welcome to NY! Glad you coul"], "!");
    assert_eq!(records[0], String::from("Hello world"));
    assert_eq!(records[1], String::from(" Welcome to NY"));
}

#[test]
fn test_read_http_stream_handles_chunks_beginning_with_delimiter() {
    let records = feed(&["Hello world", "! Welcome to NY!"], "!");
    assert_eq!(records[0], String::from("Hello world"));
    assert_eq!(records[1], String::from(" Welcome to NY"));
}

#[test]
fn test_read_http_stream_handles_chunks_ending_with_delimiter() {
    let records = feed(&["Hello wo", "rld!", " Welcome to NY!"], "!");
    assert_eq!(records[0], String::from("Hello world"));
    assert_eq!(records[1], String::from(" Welcome to NY"));
}

#[test]
fn test_first_delim_index_finds_single_byte_delimiters() {
    assert_eq!(first_delim_index(b"", b"\n"), None);
    assert_eq!(first_delim_index(b"0", b"\n"), None);
    assert_eq!(first_delim_index(b"\n", b"\n"), Some(0));
    assert_eq!(first_delim_index(b"0\n", b"\n"), Some(1));
    assert_eq!(first_delim_index(b"\n2", b"\n"), Some(0));
    assert_eq!(first_delim_index(b"\n2\n", b"\n"), Some(0));
    assert_eq!(first_delim_index(b"012345", b"\n"), None);
    assert_eq!(first_delim_index(b"0123\n6", b"\n"), Some(4));
    assert_eq!(first_delim_index(b"0123\n5\n", b"\n"), Some(4));
    assert_eq!(first_delim_index(b"0123\n56\n", b"\n"), Some(4));
    assert_eq!(first_delim_index(b"0123\n56\n8", b"\n"), Some(4));
}

#[test]
fn test_first_delim_index_finds_multi_byte_delimiters() {
    assert_eq!(first_delim_index(b"", b",\n"), None);
    assert_eq!(first_delim_index(b"0", b",\n"), None);
    assert_eq!(first_delim_index(b",\n", b",\n"), Some(0));
    assert_eq!(first_delim_index(b"0,\n", b",\n"), Some(1));
    assert_eq!(first_delim_index(b",\n2", b",\n"), Some(0));
    assert_eq!(first_delim_index(b",\n2,\n", b",\n"), Some(0));
    assert_eq!(first_delim_index(b"012345", b",\n"), None);
    assert_eq!(first_delim_index(b"0123,\n6", b",\n"), Some(4));
    assert_eq!(first_delim_index(b"0123,\n6,\n", b",\n"), Some(4));
    assert_eq!(first_delim_index(b"0123,\n67,\n", b",\n"), Some(4));
    assert_eq!(first_delim_index(b"0123,\n67,\n8", b",\n"), Some(4));
}

#[test]
fn empty_delimiter_never_matches() {
    assert_eq!(first_delim_index(b"abc", b""), None);
    assert!(feed(&["a!b", "c"], "").is_empty());
}

#[test]
fn no_delimiter_keeps_everything_buffered() {
    let mut splitter = RecordSplitter::new(b"!!".to_vec(), Charset::utf8());
    assert!(splitter.push_chunk(b"abc!").is_empty());
    assert!(splitter.push_chunk(b"def").is_empty());
    // The buffered bytes are all still there: the next delimiter completes one record.
    assert_eq!(splitter.push_chunk(b"!!"), vec!["abc!def".to_string()]);
}

#[test]
fn delimiter_split_across_chunks_is_found() {
    let records = feed(&["one,", "\ntwo,", "\n"], ",\n");
    assert_eq!(records, vec!["one".to_string(), "two".to_string()]);
}

#[test]
fn chunk_boundaries_do_not_change_records() {
    let stream = "a;;b;c;;;d;;e";
    let whole = feed(&[stream], ";;");
    for cut in 0..=stream.len() {
        let (x, y) = stream.split_at(cut);
        assert_eq!(feed(&[x, y], ";;"), whole);
    }
    let bytewise: Vec<String> = stream.chars().map(|c| c.to_string()).collect();
    let parts: Vec<&str> = bytewise.iter().map(|s| s.as_str()).collect();
    assert_eq!(feed(&parts, ";;"), whole);
    assert_eq!(whole, vec!["a", "b;c", ";d"]);
}

#[test]
fn split_stream_matches_one_chunk_reading() {
    let chunks: Vec<Vec<u8>> = vec![b"Hello wo".to_vec(), b"rld!".to_vec(), b" Welcome to NY!".to_vec()];
    let records = split_stream(&chunks, b"!".to_vec(), Charset::utf8());
    assert_eq!(records, vec!["Hello world".to_string(), " Welcome to NY".to_string()]);
    let whole = split_stream(&vec![chunks.concat()], b"!".to_vec(), Charset::utf8());
    assert_eq!(records, whole);
    assert_eq!(split_stream(&vec![b"aaaaa".to_vec()], b"aa".to_vec(), Charset::utf8()).len(), 2);
}

#[test]
fn delimiter_at_start_gives_empty_record() {
    assert_eq!(feed(&["!x!"], "!"), vec!["".to_string(), "x".to_string()]);
}

#[test]
fn hello_world_chunks_give_two_records() {
    let records = feed(&["Hello wo", "rld!", " Welcome to NY!"], "!");
    assert_eq!(records, vec!["Hello world".to_string(), " Welcome to NY".to_string()]);
}

#[test]
fn drain_after_append_returns_records() {
    let mut splitter = RecordSplitter::new(b"\n".to_vec(), Charset::utf8());
    splitter.append(b"x\ny\nz");
    assert_eq!(splitter.drain_records(), vec!["x".to_string(), "y".to_string()]);
    assert!(splitter.drain_records().is_empty());
}

fn metadata_with_content_type(value: &str) -> HttpResponseMetadata {
    HttpResponseMetadata::new(
        "HTTP/1.1".to_string(),
        200,
        vec![RawHeader {
            name: "content-type".to_string(),
            value: value.as_bytes().to_vec(),
        }],
    )
    .unwrap()
}

#[test]
fn charset_parameter_selects_the_decoder() {
    let charset = transfer_encoding(&metadata_with_content_type("text/plain; charset=iso-8859-1"));
    assert_eq!(charset.decode(&[0x63, 0x61, 0x66, 0xE9]), "caf\u{e9}");
    let mut splitter = RecordSplitter::new(b"\n".to_vec(), charset);
    assert_eq!(splitter.push_chunk(&[0xE9, b'\n']), vec!["\u{e9}".to_string()]);
}

#[test]
fn unknown_or_missing_charset_falls_back_to_utf8() {
    let unknown = transfer_encoding(&metadata_with_content_type("text/plain; charset=nonsense"));
    assert_eq!(unknown.decode("caf\u{e9}".as_bytes()), "caf\u{e9}");
    let none = transfer_encoding(&HttpResponseMetadata::empty());
    assert_eq!(none.decode("\u{e9}".as_bytes()), "\u{e9}");
}

#[test]
fn malformed_bytes_are_replaced_not_fatal() {
    let text = Charset::utf8().decode(&[b'a', 0xFF, b'b']);
    assert_eq!(text, "a\u{fffd}b");
}

#[test]
fn charset_for_label_resolves_known_labels() {
    let latin = Charset::for_label(b"latin1");
    assert_eq!(latin.decode(&[0xE9]), "\u{e9}");
    let fallback = Charset::for_label(b"no-such-label");
    assert_eq!(fallback.decode(&[0xC3, 0xA9]), "\u{e9}");
}
