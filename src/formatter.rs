//! Selection of the output encoding, and formatting of one record.
use crate::config::{OutputParts, OutputType};
use crate::json::{
    is_grouping, lemma_groups_are_grouping, metadata_status, opt_view, record_json, HeaderGroups, HttpJsonRecord,
};
use crate::metadata::{header_views, HttpResponseMetadata};
use crate::record::HttpResponseRecord;
use crate::text::{text_output, TextFormatter};
use vstd::prelude::*;

verus! {

/// Whether `out` is the JSON rendering of `record` in the shape `parts`: only the body, or
/// status, headers grouped by name with keys in order, and body; absent fields omitted.
pub open spec fn json_output(parts: OutputParts, record: HttpResponseRecord, out: Seq<char>) -> bool {
    if parts == OutputParts::Body {
        out == record_json(None, None, opt_view(record.body))
    } else {
        exists|g: HeaderGroups|
            {
                &&& (record.metadata.headers matches Some(hs) ==> is_grouping(g, header_views(hs@)))
                &&& out == record_json(
                    metadata_status(record.metadata),
                    match record.metadata.headers {
                        Some(_) => Some(g),
                        None => None,
                    },
                    opt_view(record.body),
                )
            }
    }
}

/// Renders records as JSON objects.
#[derive(Debug, Clone, Copy)]
pub struct JsonFormatter(pub OutputParts);

impl JsonFormatter {
    /// Renders `record` as a JSON object of the configured shape.
    pub fn to_string(&self, record: &HttpResponseRecord) -> (r: String)
        ensures
            json_output(self.0, *record, r@),
    {
        let json_record = match self.0 {
            OutputParts::Body => HttpJsonRecord::from_record(
                &HttpResponseRecord { metadata: HttpResponseMetadata::empty(), body: clone_body(&record.body) },
            ),
            OutputParts::Full => HttpJsonRecord::from_record(record),
        };
        proof {
            if json_record.header is Some && self.0 == OutputParts::Full {
                lemma_groups_are_grouping(
                    json_record.header->0@,
                    header_views(record.metadata.headers->0@),
                );
            }
        }
        let r = json_record.to_json();
        proof {
            if self.0 == OutputParts::Full {
                let g = match json_record.header_view() {
                    Some(g) => g,
                    None => Seq::empty(),
                };
                assert(json_record.header_view() == match record.metadata.headers {
                    Some(_) => Some(g),
                    None => None::<HeaderGroups>,
                });
            }
        }
        r
    }
}

fn clone_body(s: &Option<String>) -> (r: Option<String>)
    ensures
        opt_view(r) == opt_view(*s),
{
    match s {
        Some(t) => Some(t.clone()),
        None => None,
    }
}

/// The formatter chosen once per connection from the output encoding and shape.
#[derive(Debug, Clone, Copy)]
pub enum Formatter {
    Text(TextFormatter),
    Json(JsonFormatter),
}

/// Whether `out` is what `f` renders for `record`.
pub open spec fn formats_to(f: Formatter, record: HttpResponseRecord, out: Seq<char>) -> bool {
    match f {
        Formatter::Text(t) => out == text_output(t.0, record),
        Formatter::Json(j) => json_output(j.0, record, out),
    }
}

/// The formatter for `output_type` records carrying `output_parts`.
pub fn formatter(output_type: OutputType, output_parts: OutputParts) -> (r: Formatter)
    ensures
        output_type == OutputType::Text ==> r == Formatter::Text(TextFormatter(output_parts)),
        output_type == OutputType::Json ==> r == Formatter::Json(JsonFormatter(output_parts)),
{
    match output_type {
        OutputType::Text => Formatter::Text(TextFormatter(output_parts)),
        OutputType::Json => Formatter::Json(JsonFormatter(output_parts)),
    }
}

impl Formatter {
    /// Renders `record` with the chosen encoding and shape.
    pub fn to_string(&self, record: &HttpResponseRecord) -> (r: String)
        ensures
            formats_to(*self, *record, r@),
    {
        match self {
            Formatter::Text(t) => t.to_string(record),
            Formatter::Json(j) => j.to_string(record),
        }
    }
}

/// Pairs a record body with its response's metadata and renders it.
pub fn format_record(record: String, response_metadata: HttpResponseMetadata, formatter: &Formatter) -> (r:
    String)
    ensures
        formats_to(
            *formatter,
            HttpResponseRecord { metadata: response_metadata, body: Some(record) },
            r@,
        ),
{
    let formatter_input = HttpResponseRecord::new(response_metadata, record);
    formatter.to_string(&formatter_input)
}

} // verus!
