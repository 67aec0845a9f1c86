//! The archival store's upload response, as plain values: what a successful
//! upload returns and which of its fields the history keeps.

use vstd::prelude::*;

verus! {

/// The payload of a successful upload response.
#[derive(Debug)]
pub struct ImgBBData {
    /// The store's identifier for the uploaded object.
    pub id: String,
    /// The durable retrieval link: what a history row stores.
    pub url: String,
    /// The store's display variant of the link.
    pub display_url: String,
}

/// The decoded body of a successful upload response.
#[derive(Debug)]
pub struct ImgBBResponse {
    pub data: ImgBBData,
}

/// Why an archival upload failed. Carries the failure's description.
#[derive(Debug)]
pub enum ImgBBError {
    /// The upload request itself failed in transit or was rejected.
    RequestError(String),
    /// The response arrived but could not be decoded.
    ParseError(String),
}

impl ImgBBError {
    /// The failure's description.
    pub fn detail(&self) -> (m: String)
        ensures
            m@ == match self {
                ImgBBError::RequestError(s) => s@,
                ImgBBError::ParseError(s) => s@,
            },
    {
        match self {
            ImgBBError::RequestError(s) => s.clone(),
            ImgBBError::ParseError(s) => s.clone(),
        }
    }
}

/// The durable link a successful upload yields: the one field of the response
/// that a history row keeps.
pub fn archived_link(r: &ImgBBResponse) -> (l: String)
    ensures
        l@ == r.data.url@,
{
    r.data.url.clone()
}

} // verus!
