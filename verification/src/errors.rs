use vstd::prelude::*;
use vstd::string::*;
use crate::strings::{int_text, push_decimal};

verus! {

/// Why a request for a store or an exchange rate failed.
#[derive(Debug, Clone)]
pub enum RequestError {
    InvalidUrl(String),
    NotBoothUrl(),
    HttpError(u16, String),
    NetworkError(String),
    ParseError(String),
}

/// A `RequestError` with its texts as character sequences.
pub enum RequestErrorView {
    InvalidUrl(Seq<char>),
    NotBoothUrl,
    HttpError(u16, Seq<char>),
    NetworkError(Seq<char>),
    ParseError(Seq<char>),
}

impl View for RequestError {
    type V = RequestErrorView;

    open spec fn view(&self) -> RequestErrorView {
        match self {
            RequestError::InvalidUrl(s) => RequestErrorView::InvalidUrl(s@),
            RequestError::NotBoothUrl() => RequestErrorView::NotBoothUrl,
            RequestError::HttpError(status_code, reason) => RequestErrorView::HttpError(
                *status_code,
                reason@,
            ),
            RequestError::NetworkError(s) => RequestErrorView::NetworkError(s@),
            RequestError::ParseError(s) => RequestErrorView::ParseError(s@),
        }
    }
}

/// The message that describes an error.
pub open spec fn error_message_spec(e: RequestError) -> Seq<char> {
    match e {
        RequestError::InvalidUrl(s) => "Invalid URL: "@ + s@,
        RequestError::NotBoothUrl() => "Not a booth.pm URL!"@,
        RequestError::HttpError(status_code, reason) => "Request failed: "@ + int_text(
            status_code as int,
        ) + " - "@ + reason@,
        RequestError::NetworkError(s) => "Network error: "@ + s@,
        RequestError::ParseError(s) => "Parsing error: "@ + s@,
    }
}

impl RequestError {
    /// The message that describes the error (see `error_message_spec`).
    pub fn to_message(&self) -> (r: String)
        ensures
            r@ == error_message_spec(*self),
    {
        let mut r = String::new();
        match self {
            RequestError::InvalidUrl(s) => {
                r.append("Invalid URL: ");
                r.append(s.as_str());
            },
            RequestError::NotBoothUrl() => {
                r.append("Not a booth.pm URL!");
            },
            RequestError::HttpError(status_code, reason) => {
                r.append("Request failed: ");
                push_decimal(&mut r, *status_code as u64);
                r.append(" - ");
                r.append(reason.as_str());
            },
            RequestError::NetworkError(s) => {
                r.append("Network error: ");
                r.append(s.as_str());
            },
            RequestError::ParseError(s) => {
                r.append("Parsing error: ");
                r.append(s.as_str());
            },
        }
        assert(r@ =~= error_message_spec(*self));
        r
    }
}

} // verus!
