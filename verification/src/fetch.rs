//! Resource classification and payload decoding: the pure half of resource
//! fetching.  Network transport itself is an external collaborator.

use vstd::prelude::*;
use crate::ext::{utf8_decode, utf8_decode_of};
use crate::text::{
    chars_eq, contains_chars, contains_sub, lower_chars, lower_spec, str_to_chars, subvec,
};

verus! {

/// Kinds of web resources.
#[derive(Debug, Clone, Copy, PartialEq, Eq, Structural)]
pub enum ResourceType {
    Html,
    Css,
    Image,
    Script,
    Json,
    Xml,
    Font,
    Other,
}

/// Result of a fetch: the payload and its classification.
#[derive(Debug)]
pub struct FetchResult {
    pub url: Vec<char>,
    pub content_type: Vec<char>,
    pub data: Vec<u8>,
    pub resource_type: ResourceType,
}

/// Errors of the fetch logic.
#[derive(Debug, Clone, Copy, PartialEq, Eq, Structural)]
pub enum FetchError {
    Network,
    ContentTypeMismatch,
    DecodeError,
    UnexpectedType,
}

/// Classification of a `Content-Type` value, case-insensitively.
pub open spec fn detect_spec(ct: Seq<char>) -> ResourceType {
    let c = lower_spec(ct);
    if contains_sub(c, "text/html"@) {
        ResourceType::Html
    } else if contains_sub(c, "text/css"@) {
        ResourceType::Css
    } else if contains_sub(c, "javascript"@) || contains_sub(c, "ecmascript"@) {
        ResourceType::Script
    } else if c.len() >= 6 && c.subrange(0, 6) == "image/"@ {
        ResourceType::Image
    } else if contains_sub(c, "application/json"@) {
        ResourceType::Json
    } else if contains_sub(c, "application/xml"@) || contains_sub(c, "text/xml"@) {
        ResourceType::Xml
    } else if contains_sub(c, "font/"@) || contains_sub(c, "woff"@) || contains_sub(
        c,
        "truetype"@,
    ) {
        ResourceType::Font
    } else {
        ResourceType::Other
    }
}

/// Determine the resource type from a `Content-Type` value.
pub fn detect_type(content_type: &str) -> (r: ResourceType)
    ensures
        r == detect_spec(content_type@),
{
    let raw = str_to_chars(content_type);
    detect_type_chars(&raw)
}

/// Classify a fetched payload; a missing `Content-Type` defaults to
/// `application/octet-stream`.
pub fn classify_resource(url: &str, content_type: Option<&str>, data: Vec<u8>) -> (r: FetchResult)
    ensures
        r.url@ == url@,
        r.content_type@ == (match content_type {
            Some(ct) => ct@,
            None => "application/octet-stream"@,
        }),
        r.data@ == data@,
        r.resource_type == detect_spec(r.content_type@),
{
    let ct: Vec<char> = match content_type {
        Some(ct) => str_to_chars(ct),
        None => str_to_chars("application/octet-stream"),
    };
    let resource_type = detect_type_chars(&ct);
    FetchResult { url: str_to_chars(url), content_type: ct, data, resource_type }
}

/// As `detect_type`, over a character buffer.
pub fn detect_type_chars(content_type: &Vec<char>) -> (r: ResourceType)
    ensures
        r == detect_spec(content_type@),
{
    let c = lower_chars(content_type);
    if contains_chars(&c, "text/html") {
        ResourceType::Html
    } else if contains_chars(&c, "text/css") {
        ResourceType::Css
    } else if contains_chars(&c, "javascript") || contains_chars(&c, "ecmascript") {
        ResourceType::Script
    } else if c.len() >= 6 && chars_eq(&subvec(&c, 0, 6), "image/") {
        ResourceType::Image
    } else if contains_chars(&c, "application/json") {
        ResourceType::Json
    } else if contains_chars(&c, "application/xml") || contains_chars(&c, "text/xml") {
        ResourceType::Xml
    } else if contains_chars(&c, "font/") || contains_chars(&c, "woff") || contains_chars(
        &c,
        "truetype",
    ) {
        ResourceType::Font
    } else {
        ResourceType::Other
    }
}

/// The characters of an HTML payload: UTF-8 when the bytes decode, otherwise
/// a byte-preserving reinterpretation (each byte as the character with its
/// code point); a decode error only on an empty undecodable payload.
pub fn decode_html(data: &Vec<u8>) -> (r: Result<Vec<char>, FetchError>)
    ensures
        match utf8_decode_of(data@) {
            Some(cs) => r matches Ok(v) && v@ == cs,
            None => {
                if data@.len() == 0 {
                    r == Err::<Vec<char>, FetchError>(FetchError::DecodeError)
                } else {
                    r matches Ok(v) && v@ == data@.map_values(|b: u8| b as char)
                }
            },
        },
{
    let ghost bytes = data@;
    match utf8_decode(&data) {
        Some(s) => Ok(str_to_chars(s.as_str())),
        None => {
            if data.len() == 0 {
                Err(FetchError::DecodeError)
            } else {
                let mut out: Vec<char> = Vec::new();
                let mut i: usize = 0;
                while i < data.len()
                    invariant
                        data@ == bytes,
                        0 <= i <= bytes.len(),
                        out@ == bytes.subrange(0, i as int).map_values(|b: u8| b as char),
                    decreases bytes.len() - i,
                {
                    out.push(data[i] as char);
                    proof {
                        assert(out@ =~= bytes.subrange(0, i + 1).map_values(
                            |b: u8| b as char,
                        ));
                    }
                    i = i + 1;
                }
                proof {
                    assert(bytes.subrange(0, bytes.len() as int) =~= bytes);
                }
                Ok(out)
            }
        },
    }
}

} // verus!
