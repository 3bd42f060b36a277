use http_source::config::{OutputParts, OutputType};
use http_source::formatter::{format_record, formatter};
use http_source::json::{headers_to_json, HttpJsonRecord, JsonHeadersValue};
use http_source::metadata::{HttpHeader, HttpResponseMetadata, MetadataError, RawHeader};
use http_source::record::HttpResponseRecord;

fn header(name: &str, value: &str) -> HttpHeader {
    HttpHeader {
        name: name.to_string(),
        value: value.to_string(),
    }
}

fn raw(name: &str, value: &str) -> RawHeader {
    RawHeader {
        name: name.to_string(),
        value: value.as_bytes().to_vec(),
    }
}

fn response_metadata() -> HttpResponseMetadata {
    HttpResponseMetadata::new(
        "HTTP/1.1".to_string(),
        201,
        vec![
            raw("connection", "close"),
            raw("content-type", "text/plain"),
            raw("x-api-key", "1234"),
            raw("x-api-attribute", "a1"),
            raw("x-api-attribute", "a2"),
            raw("content-length", "5"),
        ],
    )
    .unwrap()
}

fn response_record() -> HttpResponseRecord {
    HttpResponseRecord::new(response_metadata(), "world".to_string())
}

fn multiple_headers() -> Vec<HttpHeader> {
    vec![
        header("name1", "value1"),
        header("name2", "value21"),
        header("name2", "value22"),
    ]
}

#[test]
fn formatter_test_multiple_headers_to_json() {
    let map = headers_to_json(multiple_headers());
    assert_eq!(
        map,
        vec![
            (
                "name1".to_string(),
                JsonHeadersValue::One("value1".to_string())
            ),
            (
                "name2".to_string(),
                JsonHeadersValue::Many(vec!["value21".to_string(), "value22".to_string()])
            )
        ]
    )
}

#[test]
fn http_json_record_test_multiple_headers_to_json() {
    let map = headers_to_json(multiple_headers());
    assert_eq!(
        map,
        vec![
            (
                "name1".to_string(),
                JsonHeadersValue::One("value1".to_string())
            ),
            (
                "name2".to_string(),
                JsonHeadersValue::Many(vec!["value21".to_string(), "value22".to_string()])
            )
        ]
    )
}

#[test]
fn test_full_text_output() {
    let formatter = formatter(OutputType::Text, OutputParts::Full);
    let string = formatter.to_string(&response_record());
    assert_eq!(
        string,
        "HTTP/1.1 201 Created\nconnection: close\ncontent-type: text/plain\nx-api-key: 1234\nx-api-attribute: a1\nx-api-attribute: a2\ncontent-length: 5\n\nworld"
    );
}

#[test]
fn test_body_text_output() {
    let formatter = formatter(OutputType::Text, OutputParts::Body);
    let string = formatter.to_string(&response_record());
    assert_eq!(string, "world");
}

#[test]
fn test_full_json_output() {
    let formatter = formatter(OutputType::Json, OutputParts::Full);
    let string = formatter.to_string(&response_record());
    assert_eq!(
        string,
        r#"{"status":{"version":"HTTP/1.1","code":201,"string":"Created"},"header":{"connection":"close","content-length":"5","content-type":"text/plain","x-api-attribute":["a1","a2"],"x-api-key":"1234"},"body":"world"}"#
    );
}

#[test]
fn test_body_json_output() {
    let formatter = formatter(OutputType::Json, OutputParts::Body);
    let string = formatter.to_string(&response_record());
    assert_eq!(string, r#"{"body":"world"}"#);
}

#[test]
fn test_unparsable_header() {
    let res = HttpResponseMetadata::new(
        "HTTP/1.1".to_string(),
        201,
        vec![RawHeader {
            name: "bad-header".to_string(),
            value: "ðŸ¦„".as_bytes().to_vec(),
        }],
    );
    let err = res.unwrap_err();
    assert_eq!(err, MetadataError::UnreadableHeader);
    assert_eq!(err.message(), "Failed to read response headers");
}

#[test]
fn tabs_are_readable_but_control_bytes_are_not() {
    let ok = HttpResponseMetadata::new("HTTP/1.1".to_string(), 200, vec![raw("x", "a\tb")]);
    assert_eq!(ok.unwrap().headers.unwrap()[0].value, "a\tb");
    let bad = HttpResponseMetadata::new(
        "HTTP/1.1".to_string(),
        200,
        vec![RawHeader {
            name: "x".to_string(),
            value: vec![b'a', 0x7f],
        }],
    );
    assert_eq!(bad.unwrap_err(), MetadataError::UnreadableHeader);
}

#[test]
fn header_json_mapping_renders_single_and_repeated_names() {
    let record = HttpResponseRecord {
        metadata: HttpResponseMetadata {
            version: None,
            status_code: None,
            status_string: None,
            headers: Some(multiple_headers()),
        },
        body: None,
    };
    let json = HttpJsonRecord::from_record(&record).to_json();
    assert_eq!(
        json,
        r#"{"header":{"name1":"value1","name2":["value21","value22"]}}"#
    );
}

#[test]
fn json_escapes_quotes_and_newlines_in_body() {
    let formatter = formatter(OutputType::Json, OutputParts::Body);
    let out = format_record(
        "say \"hi\"\n".to_string(),
        HttpResponseMetadata::empty(),
        &formatter,
    );
    assert_eq!(out, r#"{"body":"say \"hi\"\n"}"#);
}

#[test]
fn format_record_pairs_body_with_metadata() {
    let formatter = formatter(OutputType::Text, OutputParts::Full);
    let out = format_record("abc".to_string(), response_metadata(), &formatter);
    assert!(out.starts_with("HTTP/1.1 201 Created\nconnection: close\n"));
    assert!(out.ends_with("content-length: 5\n\nabc"));
}

#[test]
fn full_text_without_metadata_uses_empty_status_parts() {
    let formatter = formatter(OutputType::Text, OutputParts::Full);
    let out = format_record("b".to_string(), HttpResponseMetadata::empty(), &formatter);
    assert_eq!(out, " 0 \n\nb");
}

#[test]
fn empty_header_list_renders_like_no_headers() {
    let m = HttpResponseMetadata::new("HTTP/1.1".to_string(), 200, vec![]).unwrap();
    let formatter = formatter(OutputType::Text, OutputParts::Full);
    let out = format_record("body".to_string(), m, &formatter);
    assert_eq!(out, "HTTP/1.1 200 OK\n\nbody");
}

#[test]
fn unknown_status_code_has_no_reason() {
    let m = HttpResponseMetadata::new("HTTP/2.0".to_string(), 299, vec![]).unwrap();
    assert_eq!(m.status_string, None);
    let formatter = formatter(OutputType::Json, OutputParts::Full);
    let out = format_record("x".to_string(), m, &formatter);
    assert_eq!(
        out,
        r#"{"status":{"version":"HTTP/2.0","code":299},"header":{},"body":"x"}"#
    );
}

#[test]
fn headers_to_json_orders_keys() {
    let map = headers_to_json(vec![
        header("b", "1"),
        header("a", "2"),
        header("c", "3"),
        header("a", "4"),
        header("a", "5"),
    ]);
    assert_eq!(
        map,
        vec![
            (
                "a".to_string(),
                JsonHeadersValue::Many(vec!["2".to_string(), "4".to_string(), "5".to_string()])
            ),
            ("b".to_string(), JsonHeadersValue::One("1".to_string())),
            ("c".to_string(), JsonHeadersValue::One("3".to_string())),
        ]
    );
}

#[test]
fn push_promotes_single_value_to_list() {
    let mut v = JsonHeadersValue::One("x".to_string());
    v.push("y".to_string());
    assert_eq!(
        v,
        JsonHeadersValue::Many(vec!["x".to_string(), "y".to_string()])
    );
    v.push("z".to_string());
    assert_eq!(
        v,
        JsonHeadersValue::Many(vec!["x".to_string(), "y".to_string(), "z".to_string()])
    );
}
