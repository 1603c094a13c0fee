//! HTTP/2 requests, as plain values.
use crate::number::{count_text, decimal};
use vstd::prelude::*;
use vstd::string::*;

verus! {

/// The path of the local server.
pub const LOCAL_PATH: &'static str = "/sbi";

/// What a request is made of.
#[derive(Debug, Clone)]
pub struct PostRequest {
    pub method: String,
    pub uri: String,
    pub content_type: String,
    pub content_length: String,
}

/// The request that sends `length` bytes to `uri`.
pub fn post_request(uri: &str, length: usize) -> (r: PostRequest)
    ensures
        r.method@ == "POST"@,
        r.uri@ == uri@,
        r.content_type@ == "application/json"@,
        r.content_length@ == decimal(length as nat),
{
    PostRequest {
        method: "POST".to_owned(),
        uri: uri.to_owned(),
        content_type: "application/json".to_owned(),
        content_length: count_text(length),
    }
}

} // verus!
