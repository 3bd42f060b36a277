//! The plain-text rendering of a response record.
use crate::config::OutputParts;
use crate::json::{opt_str_view, opt_view};
use crate::metadata::{HttpHeader, HttpResponseMetadata};
use crate::record::HttpResponseRecord;
use crate::render::{decimal, join, join_strings, push_decimal, string_texts};
use vstd::prelude::*;

verus! {

/// The text of an optional value, empty when absent.
pub open spec fn or_empty(s: Option<Seq<char>>) -> Seq<char> {
    match s {
        Some(t) => t,
        None => seq![],
    }
}

/// The status line `<version> <code> <reason>`; absent parts are empty, an absent code is 0.
pub open spec fn status_line(m: HttpResponseMetadata) -> Seq<char> {
    or_empty(opt_view(m.version)) + " "@ + decimal(
        match m.status_code {
            Some(c) => c as nat,
            None => 0,
        },
    ) + " "@ + or_empty(opt_str_view(m.status_string))
}

/// Whether `m` has no header lines: headers absent, or an empty list.
pub open spec fn no_header_lines(m: HttpResponseMetadata) -> bool {
    match m.headers {
        Some(hs) => hs@.len() == 0,
        None => true,
    }
}

/// One header as the line `name: value`.
pub open spec fn header_line(h: HttpHeader) -> Seq<char> {
    h.name@ + ": "@ + h.value@
}

/// The lines of the text rendering before they are joined with newlines: for the full
/// shape the status line, the header lines (none when there are no headers), and an empty
/// line before a body; then the body.
pub open spec fn text_parts(parts: OutputParts, record: HttpResponseRecord) -> Seq<Seq<char>> {
    (if parts == OutputParts::Full {
        seq![status_line(record.metadata)] + (match record.metadata.headers {
            Some(hs) => if hs@.len() > 0 {
                seq![join(hs@.map_values(|h: HttpHeader| header_line(h)), "\n"@)]
            } else {
                seq![]
            },
            None => seq![],
        }) + (if record.body is Some {
            seq![Seq::<char>::empty()]
        } else {
            seq![]
        })
    } else {
        seq![]
    }) + (match record.body {
        Some(b) => seq![b@],
        None => seq![],
    })
}

/// The text rendering of `record`.
pub open spec fn text_output(parts: OutputParts, record: HttpResponseRecord) -> Seq<char> {
    join(text_parts(parts, record), "\n"@)
}

/// Renders records as plain text.
#[derive(Debug, Clone, Copy)]
pub struct TextFormatter(pub OutputParts);

fn status_line_text(m: &HttpResponseMetadata) -> (r: String)
    ensures
        r@ == status_line(*m),
{
    let mut out = String::new();
    if let Some(v) = &m.version {
        out.append(v.as_str());
    }
    out.append(" ");
    let code: u16 = match m.status_code {
        Some(c) => c,
        None => 0,
    };
    push_decimal(&mut out, code);
    out.append(" ");
    if let Some(s) = m.status_string {
        out.append(s);
    }
    proof {
        reveal_strlit(" ");
    }
    assert(out@ =~= status_line(*m));
    out
}

fn header_lines_text(hs: &Vec<HttpHeader>) -> (r: String)
    ensures
        r@ == join(hs@.map_values(|h: HttpHeader| header_line(h)), "\n"@),
{
    let mut lines: Vec<String> = Vec::new();
    let mut i: usize = 0;
    while i < hs.len()
        invariant
            i <= hs@.len(),
            string_texts(lines@) == hs@.subrange(0, i as int).map_values(
                |h: HttpHeader| header_line(h),
            ),
        decreases hs@.len() - i,
    {
        let mut line = hs[i].name.clone();
        line.append(": ");
        line.append(hs[i].value.as_str());
        let ghost before = lines@;
        lines.push(line);
        assert(string_texts(lines@) =~= string_texts(before).push(line@));
        assert(hs@.subrange(0, i + 1).map_values(|h: HttpHeader| header_line(h)) =~= hs@.subrange(
            0,
            i as int,
        ).map_values(|h: HttpHeader| header_line(h)).push(header_line(hs@[i as int])));
        i = i + 1;
    }
    assert(hs@.subrange(0, hs@.len() as int) =~= hs@);
    join_strings(&lines, "\n")
}

impl TextFormatter {
    /// Renders `record` as text: the body alone, or status line, header lines, an empty line
    /// and the body, joined with newlines.
    pub fn to_string(&self, record: &HttpResponseRecord) -> (r: String)
        ensures
            r@ == text_output(self.0, *record),
            self.0 == OutputParts::Full && no_header_lines(record.metadata) ==> (
            record.body matches Some(b) ==> r@ == status_line(record.metadata) + "\n\n"@ + b@),
    {
        let mut parts: Vec<String> = Vec::new();
        if self.0 == OutputParts::Full {
            parts.push(status_line_text(&record.metadata));
            if let Some(hs) = &record.metadata.headers {
                if hs.len() > 0 {
                    parts.push(header_lines_text(hs));
                }
            }
            if record.body.is_some() {
                parts.push(String::new());
            }
        }
        if let Some(b) = &record.body {
            parts.push(b.clone());
        }
        assert(string_texts(parts@) =~= text_parts(self.0, *record));
        let r = join_strings(&parts, "\n");
        proof {
            if self.0 == OutputParts::Full && no_header_lines(record.metadata) && record.body is Some {
                reveal_strlit("\n");
                reveal_strlit("\n\n");
                let t = text_parts(self.0, *record);
                let b = record.body->0@;
                assert(t =~= seq![status_line(record.metadata), Seq::<char>::empty(), b]);
                assert(t.drop_last() =~= seq![status_line(record.metadata), Seq::<char>::empty()]);
                assert(t.drop_last().drop_last() =~= seq![status_line(record.metadata)]);
                let sl = status_line(record.metadata);
                assert(join(seq![sl], "\n"@) == sl);
                assert(join(t.drop_last(), "\n"@) == join(seq![sl], "\n"@) + "\n"@ + Seq::<
                    char,
                >::empty());
                assert(join(t, "\n"@) == join(t.drop_last(), "\n"@) + "\n"@ + b);
                assert(r@ =~= sl + "\n\n"@ + b);
            }
        }
        r
    }
}

} // verus!
