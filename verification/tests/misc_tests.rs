use booth2rss::argparse::parse_arguments;
use booth2rss::errors::RequestError;
use booth2rss::service::{
    error_response, exchange_rate_cache_key, feed_plan, requested_store_url, store_cache_key, ConfigData,
    StoreParams,
};
use booth2rss::strings::{bool_to_text, i32_to_text, parse_i32, parse_u32, replace, to_ascii_uppercase, trim};

fn args(list: &[&str]) -> Vec<String> {
    list.iter().map(|s| s.to_string()).collect()
}

#[test]
fn arguments_defaults_and_switches() {
    let p = parse_arguments(&args(&["prog", "https://shop.booth.pm"])).unwrap();
    assert_eq!(p.url, "https://shop.booth.pm");
    assert_eq!(p.max_pages, 100);
    assert!(!p.unblur_nsfw && !p.allow_nsfw && !p.include_unavailable && !p.vrc_only && !p.convert_currency);

    let p = parse_arguments(&args(&[
        "prog",
        "--unblur-nsfw",
        "https://a.booth.pm",
        "--allow-nsfw",
        "--include-unavailable",
        "--vrc-only",
        "--max-pages=7",
        "--convert-currency=EUR",
        "https://b.booth.pm",
    ]))
    .unwrap();
    assert_eq!(p.url, "https://b.booth.pm");
    assert!(p.unblur_nsfw && p.allow_nsfw && p.include_unavailable && p.vrc_only && p.convert_currency);
    assert_eq!(p.max_pages, 7);
    assert_eq!(p.convert_target, "EUR");
}

#[test]
fn arguments_rejected() {
    assert!(parse_arguments(&args(&["prog"])).is_none());
    assert!(parse_arguments(&args(&[])).is_none());
    assert!(parse_arguments(&args(&["prog", "--vrc-only"])).is_none());
    assert!(parse_arguments(&args(&["prog", "https://x", "--max-pages=0"])).is_none());
    assert!(parse_arguments(&args(&["prog", "https://x", "--max-pages=-1"])).is_none());
    assert!(parse_arguments(&args(&["prog", "https://x", "--max-pages=ten"])).is_none());
    assert!(parse_arguments(&args(&["prog", "https://x", "--unknown"])).is_none());
    assert!(parse_arguments(&args(&["prog", "http://x"])).is_none());
    assert_eq!(parse_arguments(&args(&["prog", "https://x", "--max-pages=+4"])).unwrap().max_pages, 4);
}

#[test]
fn integer_text_round_trip() {
    for n in [0, 7, -7, 10, 1234, i32::MAX, i32::MIN] {
        let text = i32_to_text(n);
        assert_eq!(text, n.to_string());
        assert_eq!(parse_i32(&text), Some(n));
    }
}

#[test]
fn integer_parsing_edges() {
    assert_eq!(parse_i32("2147483648"), None);
    assert_eq!(parse_i32("-2147483649"), None);
    assert_eq!(parse_i32("+12"), Some(12));
    assert_eq!(parse_i32(""), None);
    assert_eq!(parse_i32("-"), None);
    assert_eq!(parse_i32(" 1"), None);
    assert_eq!(parse_u32("4294967295"), Some(u32::MAX));
    assert_eq!(parse_u32("4294967296"), None);
    assert_eq!(parse_u32("-0"), None);
    assert_eq!(parse_u32("007"), Some(7));
}

#[test]
fn string_helpers() {
    assert_eq!(trim("\u{3000} a b \t\n"), "a b");
    assert_eq!(trim(trim(" x ").as_str()), "x");
    assert_eq!(replace("a&quot;b&quot;", "&quot;", "\""), "a\"b\"");
    assert_eq!(replace("aaa", "aa", "b"), "ba");
    assert_eq!(to_ascii_uppercase("abzÄ1"), "ABZÄ1");
    assert_eq!(bool_to_text(true), "true");
    assert_eq!(bool_to_text(false), "false");
}

#[test]
fn service_defaults() {
    let c = ConfigData::default();
    assert_eq!(c.currency_source, "JPY");
    assert_eq!(c.cache_minutes, 15);
    assert_eq!(c.cache_size, 50);
    let p = StoreParams::default();
    assert!(p.url.is_none());
    assert_eq!(p.max_pages, 10);
    assert!(p.filter_unavailable && !p.unblur_nsfw && !p.allow_nsfw && !p.vrc_only);
    assert!(p.currency.is_none());
}

#[test]
fn service_feed_plan() {
    let p = StoreParams::default();
    let plan = feed_plan(&p);
    assert_eq!(plan.max_pages, 10);
    assert!(plan.filter_unavailable && plan.filter_nsfw && !plan.vrc_only);
    assert_eq!(plan.ttl, 15);
    assert_eq!(plan.source_currency, "JPY");
    assert_eq!(plan.target_currency, "EUR");

    let mut q = StoreParams::default();
    q.max_pages = u32::MAX;
    q.allow_nsfw = true;
    q.vrc_only = true;
    q.filter_unavailable = false;
    q.currency = Some("USD".to_string());
    let plan = feed_plan(&q);
    assert_eq!(plan.max_pages, i32::MAX);
    assert!(!plan.filter_unavailable && !plan.filter_nsfw && plan.vrc_only);
    assert_eq!(plan.target_currency, "USD");

    q.currency = Some(String::new());
    assert_eq!(feed_plan(&q).target_currency, "EUR");
}

#[test]
fn service_keys_and_url() {
    assert_eq!(store_cache_key(10, false, "https://x.booth.pm"), "10false-https://x.booth.pm");
    assert_eq!(store_cache_key(3, true, "u"), "3true-u");
    assert_eq!(exchange_rate_cache_key("JPY", "EUR"), "JPY>EUR");
    assert_eq!(requested_store_url(&None), None);
    assert_eq!(requested_store_url(&Some(String::new())), None);
    assert_eq!(requested_store_url(&Some("u".to_string())), Some("u".to_string()));
}

#[test]
fn service_error_responses() {
    assert_eq!(error_response(&RequestError::HttpError(404, "Not Found".to_string())), (404, "Not Found".to_string()));
    assert_eq!(error_response(&RequestError::HttpError(42, "odd".to_string())), (500, "odd".to_string()));
    assert_eq!(error_response(&RequestError::NotBoothUrl()), (500, "Not a booth.pm URL!".to_string()));
    assert_eq!(
        error_response(&RequestError::ParseError("x".to_string())),
        (500, "Parsing error: x".to_string())
    );
}
