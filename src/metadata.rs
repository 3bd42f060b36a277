//! Response metadata captured once per connection and shared by all its records.
use vstd::prelude::*;
use vstd::utf8::{decode_utf8, valid_utf8};

verus! {

/// The canonical reason phrase of HTTP status `code`, if the registry has one.
pub uninterp spec fn canonical_reason_of(code: u16) -> Option<Seq<char>>;

/// Relies on `http::StatusCode::from_u16` and `StatusCode::canonical_reason`: the reason
/// phrase registered for `code`; `None` for an unregistered or out-of-range code.
#[verifier::external_body]
fn canonical_reason(code: u16) -> (r: Option<&'static str>)
    ensures
        r matches Some(s) ==> canonical_reason_of(code) == Some(s@),
        r is None ==> canonical_reason_of(code) is None,
{
    http::StatusCode::from_u16(code).ok().and_then(|s| s.canonical_reason())
}

/// One response header as text. A name may repeat across headers.
#[derive(Debug, Clone)]
pub struct HttpHeader {
    pub name: String,
    pub value: String,
}

impl View for HttpHeader {
    type V = (Seq<char>, Seq<char>);

    open spec fn view(&self) -> (Seq<char>, Seq<char>) {
        (self.name@, self.value@)
    }
}

/// A header as received: its name, and the bytes of its value.
#[derive(Debug, Clone)]
pub struct RawHeader {
    pub name: String,
    pub value: Vec<u8>,
}

/// A byte that a header value may hold to be read as text: visible ASCII, or a tab.
pub open spec fn is_visible_ascii(b: u8) -> bool {
    (32 <= b && b < 127) || b == 9
}

/// Whether a header value reads as text: every byte is visible ASCII or a tab.
pub open spec fn readable(value: Seq<u8>) -> bool {
    forall|i: int| 0 <= i < value.len() ==> is_visible_ascii(#[trigger] value[i])
}

/// ASCII bytes are valid UTF-8.
proof fn lemma_ascii_valid_utf8(bytes: Seq<u8>)
    requires
        forall|i: int| 0 <= i < bytes.len() ==> #[trigger] bytes[i] < 128,
    ensures
        valid_utf8(bytes),
    decreases bytes.len(),
{
    if bytes.len() > 0 {
        let b = bytes[0];
        assert(b < 128);
        assert((b & 0x7F) <= 0x7F) by (bit_vector);
        let rest = bytes.subrange(1, bytes.len() as int);
        assert forall|i: int| 0 <= i < rest.len() implies #[trigger] rest[i] < 128 by {
            assert(rest[i] == bytes[i + 1]);
        }
        lemma_ascii_valid_utf8(rest);
    }
}

/// Whether every byte of `value` is visible ASCII or a tab.
fn is_readable(value: &[u8]) -> (r: bool)
    ensures
        r == readable(value@),
{
    let mut i: usize = 0;
    while i < value.len()
        invariant
            i <= value@.len(),
            forall|j: int| 0 <= j < i ==> is_visible_ascii(#[trigger] value@[j]),
        decreases value@.len() - i,
    {
        let b = value[i];
        if !((32 <= b && b < 127) || b == 9) {
            return false;
        }
        i = i + 1;
    }
    true
}

/// Why response metadata could not be captured.
#[derive(Debug, Clone, Copy, PartialEq, Eq, Structural)]
pub enum MetadataError {
    /// A header value is not readable as text.
    UnreadableHeader,
}

impl MetadataError {
    /// The message that reports this error.
    pub fn message(&self) -> (r: String)
        ensures
            r@ == "Failed to read response headers"@,
    {
        String::from_str("Failed to read response headers")
    }
}

/// Protocol version, status and headers of one response.
#[derive(Debug, Clone)]
pub struct HttpResponseMetadata {
    pub version: Option<String>,
    pub status_code: Option<u16>,
    pub status_string: Option<&'static str>,
    pub headers: Option<Vec<HttpHeader>>,
}

/// The views of `headers`.
pub open spec fn header_views(headers: Seq<HttpHeader>) -> Seq<(Seq<char>, Seq<char>)> {
    headers.map_values(|h: HttpHeader| h@)
}

/// Whether every raw header has a readable value.
pub open spec fn all_readable(raw: Seq<RawHeader>) -> bool {
    forall|i: int| 0 <= i < raw.len() ==> readable((#[trigger] raw[i]).value@)
}

/// The text headers of readable `raw` headers: each value's bytes read as text.
pub open spec fn readable_views(raw: Seq<RawHeader>) -> Seq<(Seq<char>, Seq<char>)> {
    raw.map_values(|h: RawHeader| (h.name@, decode_utf8(h.value@)))
}

/// Relies on `String::from_utf8`: `Ok` exactly when `data` is valid UTF-8, holding the
/// characters that `data` encodes.
#[verifier::external_body]
pub(crate) fn utf8_text(data: Vec<u8>) -> (r: Option<String>)
    ensures
        r is Some <==> valid_utf8(data@),
        r matches Some(s) ==> s@ == decode_utf8(data@),
{
    String::from_utf8(data).ok()
}

impl HttpResponseMetadata {
    /// Captures the metadata of a response from its protocol version text (`HTTP/1.1`), its
    /// status code and its headers in received order. Fails when a header value holds a byte
    /// that is neither visible ASCII nor a tab.
    pub fn new(version: String, status_code: u16, headers: Vec<RawHeader>) -> (r: Result<
        Self,
        MetadataError,
    >)
        ensures
            r is Ok <==> all_readable(headers@),
            r matches Ok(m) ==> {
                &&& m.version matches Some(v) && v@ == version@
                &&& m.status_code == Some(status_code)
                &&& match m.status_string {
                    Some(s) => canonical_reason_of(status_code) == Some(s@),
                    None => canonical_reason_of(status_code) is None,
                }
                &&& m.headers matches Some(hs) && header_views(hs@) == readable_views(headers@)
            },
    {
        let mut out: Vec<HttpHeader> = Vec::new();
        let mut i: usize = 0;
        while i < headers.len()
            invariant
                i <= headers@.len(),
                forall|j: int| 0 <= j < i ==> readable((#[trigger] headers@[j]).value@),
                header_views(out@) == readable_views(headers@.subrange(0, i as int)),
            decreases headers@.len() - i,
        {
            let h = &headers[i];
            if !is_readable(h.value.as_slice()) {
                return Err(MetadataError::UnreadableHeader);
            }
            proof {
                assert forall|k: int| 0 <= k < h.value@.len() implies #[trigger] h.value@[k]
                    < 128 by {
                    assert(is_visible_ascii(h.value@[k]));
                }
                lemma_ascii_valid_utf8(h.value@);
            }
            let text = match utf8_text(vstd::slice::slice_to_vec(h.value.as_slice())) {
                Some(t) => t,
                None => String::new(),
            };
            let ghost before = out@;
            out.push(HttpHeader { name: h.name.clone(), value: text });
            proof {
                assert(headers@.subrange(0, i + 1).drop_last() =~= headers@.subrange(
                    0,
                    i as int,
                ));
                assert(header_views(out@) =~= header_views(before).push(
                    (h.name@, decode_utf8(h.value@)),
                ));
                assert(readable_views(headers@.subrange(0, i + 1)) =~= readable_views(
                    headers@.subrange(0, i as int),
                ).push((h.name@, decode_utf8(h.value@))));
            }
            i = i + 1;
        }
        assert(headers@.subrange(0, headers@.len() as int) =~= headers@);
        Ok(HttpResponseMetadata {
            version: Some(version),
            status_code: Some(status_code),
            status_string: canonical_reason(status_code),
            headers: Some(out),
        })
    }

    /// Metadata with every field absent.
    pub fn empty() -> (r: Self)
        ensures
            r.version is None,
            r.status_code is None,
            r.status_string is None,
            r.headers is None,
    {
        HttpResponseMetadata { version: None, status_code: None, status_string: None, headers: None }
    }

    /// The value of the first header named `name`, compared exactly (header names arrive in
    /// lower case).
    pub fn first_header_value(&self, name: &str) -> (r: Option<&String>)
        ensures
            self.headers is None ==> r is None,
            r matches Some(v) ==> self.headers matches Some(hs) && exists|i: int|
                0 <= i < hs@.len() && (#[trigger] hs@[i]).name@ == name@ && hs@[i].value == *v
                    && forall|j: int| 0 <= j < i ==> (#[trigger] hs@[j]).name@ != name@,
            r is None ==> (self.headers matches Some(hs) ==> forall|j: int|
                0 <= j < hs@.len() ==> (#[trigger] hs@[j]).name@ != name@),
    {
        let hs = match &self.headers {
            None => return None,
            Some(hs) => hs,
        };
        assert(self.headers == Some(*hs));
        let mut i: usize = 0;
        while i < hs.len()
            invariant
                self.headers == Some(*hs),
                i <= hs@.len(),
                forall|j: int| 0 <= j < i ==> (#[trigger] hs@[j]).name@ != name@,
            decreases hs@.len() - i,
        {
            if str_eq(hs[i].name.as_str(), name) {
                let v = &hs[i].value;
                assert(hs@[i as int].name@ == name@ && hs@[i as int].value == *v);
                assert(exists|k: int|
                    0 <= k < hs@.len() && (#[trigger] hs@[k]).name@ == name@ && hs@[k].value == *v
                        && forall|j: int| 0 <= j < k ==> (#[trigger] hs@[j]).name@ != name@);
                assert(self.headers matches Some(hh) && hh == *hs);
                return Some(v);
            }
            i = i + 1;
        }
        None
    }
}

/// Whether `a` and `b` hold the same characters.
pub fn str_eq(a: &str, b: &str) -> (r: bool)
    ensures
        r == (a@ == b@),
{
    let n = a.unicode_len();
    if n != b.unicode_len() {
        return false;
    }
    let mut i: usize = 0;
    while i < n
        invariant
            n == a@.len(),
            n == b@.len(),
            i <= n,
            forall|j: int| 0 <= j < i ==> a@[j] == b@[j],
        decreases n - i,
    {
        if a.get_char(i) != b.get_char(i) {
            return false;
        }
        i = i + 1;
    }
    assert(a@ =~= b@);
    true
}

} // verus!
