//! Resource request classification.

use vstd::prelude::*;

verus! {

/// The kind of resource being requested.
#[derive(Debug, Clone, Copy, PartialEq, Eq, Structural, Hash)]
pub enum RequestType {
    Document,
    Stylesheet,
    Script,
    Image,
    Font,
    Fetch,
    Other,
}

impl RequestType {
    /// The `Accept` header appropriate for this kind of request.
    pub fn accept_header(self) -> (r: &'static str)
        ensures
            r@ == (match self {
                RequestType::Document => "text/html,application/xhtml+xml"@,
                RequestType::Stylesheet => "text/css,*/*;q=0.1"@,
                RequestType::Script => "application/javascript,application/ecmascript"@,
                RequestType::Image => "image/webp,image/apng,image/*,*/*;q=0.8"@,
                RequestType::Font => "font/woff2,application/font-woff;q=0.9,*/*;q=0.1"@,
                RequestType::Fetch => "application/json,text/plain,*/*"@,
                RequestType::Other => "*/*"@,
            }),
    {
        match self {
            RequestType::Document => "text/html,application/xhtml+xml",
            RequestType::Stylesheet => "text/css,*/*;q=0.1",
            RequestType::Script => "application/javascript,application/ecmascript",
            RequestType::Image => "image/webp,image/apng,image/*,*/*;q=0.8",
            RequestType::Font => "font/woff2,application/font-woff;q=0.9,*/*;q=0.1",
            RequestType::Fetch => "application/json,text/plain,*/*",
            RequestType::Other => "*/*",
        }
    }

    /// Whether this kind of resource should be preloaded early.
    pub fn is_preloadable(self) -> (r: bool)
        ensures
            r == (self is Stylesheet || self is Script || self is Font),
    {
        matches!(self, RequestType::Stylesheet | RequestType::Script | RequestType::Font)
    }

    /// The kind's name, for reporting.
    pub fn label(self) -> (r: &'static str)
        ensures
            r@ == (match self {
                RequestType::Document => "Document"@,
                RequestType::Stylesheet => "Stylesheet"@,
                RequestType::Script => "Script"@,
                RequestType::Image => "Image"@,
                RequestType::Font => "Font"@,
                RequestType::Fetch => "Fetch"@,
                RequestType::Other => "Other"@,
            }),
    {
        match self {
            RequestType::Document => "Document",
            RequestType::Stylesheet => "Stylesheet",
            RequestType::Script => "Script",
            RequestType::Image => "Image",
            RequestType::Font => "Font",
            RequestType::Fetch => "Fetch",
            RequestType::Other => "Other",
        }
    }
}

} // verus!
