//! The decisions of the feed web service: its configuration and query
//! defaults, how a request's feed is made, cache keys, and the answer to a
//! failed request.

use vstd::prelude::*;
use vstd::string::*;
use crate::errors::{RequestError, error_message_spec};
use crate::strings::{bool_text, bool_to_text, int_text, u32_to_text};

verus! {

/// The settings of the web service.
pub struct ConfigData {
    pub currency_source: String,
    pub cache_minutes: u64,
    pub cache_size: u64,
}

impl Default for ConfigData {
    /// Prices in yen, and a cache of 50 stores kept for 15 minutes.
    fn default() -> (r: Self)
        ensures
            r.currency_source@ == "JPY"@,
            r.cache_minutes == 15,
            r.cache_size == 50,
    {
        ConfigData { currency_source: "JPY".to_string(), cache_minutes: 15, cache_size: 50 }
    }
}

/// The parameters of a request for a store's feed.
pub struct StoreParams {
    pub url: Option<String>,
    pub max_pages: u32,
    pub filter_unavailable: bool,
    pub unblur_nsfw: bool,
    pub allow_nsfw: bool,
    pub vrc_only: bool,
    pub currency: Option<String>,
}

impl Default for StoreParams {
    /// No address, at most 10 pages, unavailable items left out, the other
    /// switches off, and no currency named.
    fn default() -> (r: Self)
        ensures
            r.url is None,
            r.max_pages == 10,
            r.filter_unavailable,
            !r.unblur_nsfw,
            !r.allow_nsfw,
            !r.vrc_only,
            r.currency is None,
    {
        StoreParams {
            url: None,
            max_pages: 10,
            filter_unavailable: true,
            unblur_nsfw: false,
            allow_nsfw: false,
            vrc_only: false,
            currency: None,
        }
    }
}

/// How the feed for a request is made: how many pages to fetch, which items
/// to leave out, the feed's time to live in minutes, and the currencies to
/// convert prices from and to.
pub struct FeedPlan {
    pub max_pages: i32,
    pub filter_unavailable: bool,
    pub filter_nsfw: bool,
    pub vrc_only: bool,
    pub ttl: i32,
    pub source_currency: String,
    pub target_currency: String,
}

/// The currency a request asks prices in: the one it names, or euros when it
/// names none.
pub open spec fn target_currency_spec(currency: Option<String>) -> Seq<char> {
    match currency {
        Some(c) => if c@.len() > 0 {
            c@
        } else {
            "EUR"@
        },
        None => "EUR"@,
    }
}

/// The plan for a request's feed: at most the requested number of pages (as
/// many as an `i32` holds, at most); unavailable items left out as asked;
/// adult items left out unless allowed; only VRChat items if asked; a time to
/// live of 15 minutes; and prices, listed in yen, converted to the requested
/// currency.
pub fn feed_plan(params: &StoreParams) -> (r: FeedPlan)
    ensures
        r.max_pages == (if params.max_pages <= i32::MAX {
            params.max_pages as int
        } else {
            i32::MAX as int
        }),
        r.filter_unavailable == params.filter_unavailable,
        r.filter_nsfw == !params.allow_nsfw,
        r.vrc_only == params.vrc_only,
        r.ttl == 15,
        r.source_currency@ == "JPY"@,
        r.target_currency@ == target_currency_spec(params.currency),
{
    let max_pages: i32 = if params.max_pages <= 2147483647u32 {
        params.max_pages as i32
    } else {
        2147483647i32
    };
    let target_currency = match &params.currency {
        Some(c) => if c.as_str().is_empty() {
            "EUR".to_string()
        } else {
            c.clone()
        },
        None => "EUR".to_string(),
    };
    FeedPlan {
        max_pages,
        filter_unavailable: params.filter_unavailable,
        filter_nsfw: !params.allow_nsfw,
        vrc_only: params.vrc_only,
        ttl: 15,
        source_currency: "JPY".to_string(),
        target_currency,
    }
}

/// The store address of a request, when it names a non-empty one.
pub fn requested_store_url(url: &Option<String>) -> (r: Option<String>)
    ensures
        match url {
            Some(u) => if u@.len() > 0 {
                r matches Some(v) && v@ == u@
            } else {
                r is None
            },
            None => r is None,
        },
{
    match url {
        Some(u) => if u.as_str().is_empty() {
            None
        } else {
            Some(u.clone())
        },
        None => None,
    }
}

/// The key under which a fetched store is cached: the page limit, whether
/// adult thumbnails are unblurred, and the address.
pub open spec fn store_cache_key_spec(max_pages: u32, unblur_nsfw: bool, url: Seq<char>) -> Seq<char> {
    int_text(max_pages as int) + bool_text(unblur_nsfw) + "-"@ + url
}

pub fn store_cache_key(max_pages: u32, unblur_nsfw: bool, url: &str) -> (r: String)
    ensures
        r@ == store_cache_key_spec(max_pages, unblur_nsfw, url@),
{
    let mut key = u32_to_text(max_pages);
    let flag = bool_to_text(unblur_nsfw);
    key.append(flag.as_str());
    key.append("-");
    key.append(url);
    key
}

/// The key under which an exchange rate is cached: `<source>><target>`.
pub fn exchange_rate_cache_key(src: &str, tgt: &str) -> (r: String)
    ensures
        r@ == src@ + ">"@ + tgt@,
{
    let mut key = src.to_string();
    key.append(">");
    key.append(tgt);
    key
}

/// Whether a number is a valid HTTP status code (what
/// `http::StatusCode::from_u16` accepts).
pub open spec fn is_status_code(code: u16) -> bool {
    100 <= code < 1000
}

/// The status and body of the answer to a request whose store could not be
/// fetched: an HTTP error is passed on with its status (500 when that is no
/// valid status code) and reason; any other error is a 500 with the error's
/// message.
pub open spec fn error_response_spec(e: RequestError) -> (u16, Seq<char>) {
    match e {
        RequestError::HttpError(status_code, reason) => (
            if is_status_code(status_code) {
                status_code
            } else {
                500
            },
            reason@,
        ),
        _ => (500, error_message_spec(e)),
    }
}

pub fn error_response(e: &RequestError) -> (r: (u16, String))
    ensures
        r.0 == error_response_spec(*e).0,
        r.1@ == error_response_spec(*e).1,
{
    match e {
        RequestError::HttpError(status_code, reason) => {
            let status = if 100 <= *status_code && *status_code < 1000 {
                *status_code
            } else {
                500
            };
            (status, reason.clone())
        },
        _ => (500, e.to_message()),
    }
}

} // verus!
