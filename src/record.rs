//! One record body paired with the metadata of the response it came from.
use crate::metadata::HttpResponseMetadata;
use vstd::prelude::*;

verus! {

/// A record body with the metadata of its response.
#[derive(Debug, Clone)]
pub struct HttpResponseRecord {
    pub metadata: HttpResponseMetadata,
    pub body: Option<String>,
}

impl HttpResponseRecord {
    /// Pairs `record_body` with the metadata of its response.
    pub fn new(response_metadata: HttpResponseMetadata, record_body: String) -> (r: Self)
        ensures
            r.metadata == response_metadata,
            r.body == Some(record_body),
    {
        HttpResponseRecord { metadata: response_metadata, body: Some(record_body) }
    }
}

} // verus!
