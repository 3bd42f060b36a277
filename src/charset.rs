//! Character-encoding resolution and lossy decoding of record bodies.
use vstd::prelude::*;

verus! {

/// Whether `encoding_rs` knows `label` as the label of an encoding.
pub uninterp spec fn label_known(label: Seq<u8>) -> bool;

/// The text that the encoding labelled `label` decodes from `bytes`, malformed sequences
/// replaced.
pub uninterp spec fn decoded_as(label: Seq<u8>, bytes: Seq<u8>) -> Seq<char>;

/// The value of the `charset` parameter of the media type `content_type`, if it parses and
/// has one.
pub uninterp spec fn charset_param(content_type: Seq<char>) -> Option<Seq<char>>;

/// The label `utf-8`.
pub open spec fn utf8_label() -> Seq<u8> {
    seq![0x75u8, 0x74u8, 0x66u8, 0x2du8, 0x38u8]
}

/// Relies on `encoding_rs::Encoding::for_label`: whether it finds an encoding for `label`.
/// Its documentation shows `utf-8` as a label of UTF-8.
#[verifier::external_body]
fn is_known_label(label: &[u8]) -> (r: bool)
    ensures
        r == label_known(label@),
        label@ == utf8_label() ==> r,
{
    encoding_rs::Encoding::for_label(label).is_some()
}

/// Relies on `encoding_rs::Encoding::for_label` to find the encoding that `label` names, and
/// on `Encoding::decode`, which replaces malformed input and never fails.
#[verifier::external_body]
fn decode_labelled(label: &[u8], bytes: &[u8]) -> (r: Option<String>)
    ensures
        r is Some <==> label_known(label@),
        r matches Some(t) ==> t@ == decoded_as(label@, bytes@),
{
    encoding_rs::Encoding::for_label(label).map(|enc| enc.decode(bytes).0.into_owned())
}

/// Relies on `mime::Mime`'s `FromStr` and `Mime::get_param`: the `charset` parameter of a
/// media type, if the text parses as one.
#[verifier::external_body]
fn media_type_charset(content_type: &str) -> (r: Option<String>)
    ensures
        r matches Some(c) ==> charset_param(content_type@) == Some(c@),
        r is None ==> charset_param(content_type@) is None,
{
    content_type.parse::<mime::Mime>().ok().and_then(
        |m| m.get_param("charset").map(|c| c.as_str().to_string()),
    )
}

/// The character encoding that record bodies of one response are decoded with, named by a
/// label that `encoding_rs` knows.
pub struct Charset {
    label: Vec<u8>,
}

impl Charset {
    /// The label of the encoding.
    pub closed spec fn label(&self) -> Seq<u8> {
        self.label@
    }

    pub closed spec fn wf(&self) -> bool {
        label_known(self.label@)
    }

    /// The encoding that `label` names, or UTF-8 when `label` names none.
    pub fn for_label(label: &[u8]) -> (r: Charset)
        ensures
            r.wf(),
            r.label() == if label_known(label@) {
                label@
            } else {
                utf8_label()
            },
    {
        if is_known_label(label) {
            Charset { label: vstd::slice::slice_to_vec(label) }
        } else {
            Charset::utf8()
        }
    }

    /// UTF-8, the encoding used when a response names none that is known.
    pub fn utf8() -> (r: Charset)
        ensures
            r.wf(),
            r.label() == utf8_label(),
    {
        let label: Vec<u8> = vec![0x75u8, 0x74u8, 0x66u8, 0x2du8, 0x38u8];
        assert(label@ =~= utf8_label());
        let known = is_known_label(label.as_slice());
        Charset { label }
    }

    /// Decodes `bytes` with this encoding; malformed sequences are replaced, never fatal.
    pub fn decode(&self, bytes: &[u8]) -> (r: String)
        requires
            self.wf(),
        ensures
            r@ == decoded_as(self.label(), bytes@),
    {
        match decode_labelled(self.label.as_slice(), bytes) {
            Some(text) => text,
            None => String::new(),
        }
    }
}

/// The label named by the `charset` parameter of `content_type`, or `utf-8` when there is none.
pub open spec fn content_type_label(content_type: Option<Seq<char>>) -> Seq<u8> {
    match content_type {
        Some(ct) => match charset_param(ct) {
            Some(c) => vstd::utf8::encode_utf8(c),
            None => utf8_label(),
        },
        None => utf8_label(),
    }
}

/// The label of the encoding that a response with this `Content-Type` value is decoded with.
pub open spec fn resolved_label(content_type: Option<Seq<char>>) -> Seq<u8> {
    if label_known(content_type_label(content_type)) {
        content_type_label(content_type)
    } else {
        utf8_label()
    }
}

/// Resolves the encoding of a response from its `Content-Type` value: the `charset`
/// parameter when it names a known encoding, UTF-8 otherwise.
pub fn charset_for_content_type(content_type: Option<&str>) -> (r: Charset)
    ensures
        r.wf(),
        r.label() == resolved_label(
            match content_type {
                Some(c) => Some(c@),
                None => None,
            },
        ),
{
    match content_type {
        Some(ct) => match media_type_charset(ct) {
            Some(c) => Charset::for_label(c.as_str().as_bytes()),
            None => Charset::utf8(),
        },
        None => Charset::utf8(),
    }
}

} // verus!
