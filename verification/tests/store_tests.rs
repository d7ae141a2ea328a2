use booth2rss::errors::RequestError;
use booth2rss::objects::booth_category::BoothCategory;
use booth2rss::objects::booth_item::BoothItem;
use booth2rss::objects::multi_language_name::MultiLanguageName;
use booth2rss::store_fetch::{PageStep, StorePager};
use booth2rss::store_page::{create_store_from_content, get_item_data_from_content, get_page_count_from_content};

#[test]
fn test_get_page_count_from_content() {
    let input = "<li><a class=\"nav-item last-page\" href=\"/items?page=5\"><i class=\"icon-angle-double-right no-margin s-1x\"></i></a></li>".to_string();
    let expected = 5;

    let result = get_page_count_from_content(&input);

    assert_eq!(result, expected);
}

#[test]
fn page_count_missing_or_not_a_number() {
    assert_eq!(get_page_count_from_content(&"<html></html>".to_string()), -1);
    let input = "<a class=\"nav-item last-page\" href=\"/items?page=abc\">".to_string();
    assert_eq!(get_page_count_from_content(&input), -1);
}

#[test]
fn page_count_with_more_parameters() {
    let input = "<a class=\"nav-item last-page\" href=\"/items?page=12&amp;tags=x\">".to_string();
    assert_eq!(get_page_count_from_content(&input), 12);
    let input = "<a class=\"nav-item last-page\" href=\"/items?page=-3\">".to_string();
    assert_eq!(get_page_count_from_content(&input), -3);
}

#[test]
fn item_data_is_unescaped_and_trimmed() {
    let content = "<div data-item=\" {&quot;id&quot;:1} \"></div><div data-item=\"{&quot;id&quot;:2}\"></div><p>end</p>".to_string();
    let items = get_item_data_from_content(&content);
    assert_eq!(items, vec!["{\"id\":1}".to_string(), "{\"id\":2}".to_string()]);
    assert!(get_item_data_from_content(&"none".to_string()).is_empty());
}

#[test]
fn store_details_from_page() {
    let content = "<a class=\"nav\" title=\"Home\" href=\"/\">nick</a><span class=\"shop-name-label display_title\">Real Name</span>\
<div class=\"avatar-image\" style=\"background-image: url(https://img/a.png)\"></div>".to_string();
    let s = create_store_from_content(&content, "https://x.booth.pm/items", Vec::new());
    assert_eq!(s.name, "Real Name");
    assert_eq!(s.description, "(not found)");
    assert_eq!(s.icon_url, "https://img/a.png");
    assert_eq!(s.url, "https://x.booth.pm/items");
}

#[test]
fn store_details_defaults() {
    let content = "<a class=\"nav\" title=\"Home\" href=\"/\">nick</a>".to_string();
    let s = create_store_from_content(&content, "u", Vec::new());
    assert_eq!(s.name, "nick");
    assert_eq!(s.icon_url, "https://booth.pm/favicon.ico");
    let s = create_store_from_content(&"".to_string(), "u", Vec::new());
    assert_eq!(s.name, "(parse error)");
}

fn item(id: i32) -> BoothItem {
    BoothItem {
        id,
        name: "n".to_string(),
        category: BoothCategory {
            name: MultiLanguageName { ja: String::new(), en: "c".to_string() },
            url: String::new(),
        },
        is_adult: false,
        is_end_of_sale: false,
        is_placeholder: false,
        is_sold_out: false,
        is_vrchat: false,
        minimum_stock: Some(1),
        price: "1 JPY".to_string(),
        local_price: None,
        thumbnail_image_urls: Vec::new(),
        url: String::new(),
    }
}

#[test]
fn pager_rejects_bad_addresses() {
    match StorePager::new("not a url", 3) {
        Err(RequestError::InvalidUrl(msg)) => assert_eq!(msg, "relative URL without a base"),
        _ => panic!("expected an invalid URL"),
    }
    match StorePager::new("https://example.com/items", 3) {
        Err(RequestError::NotBoothUrl()) => {},
        _ => panic!("expected a non-booth URL"),
    }
    match StorePager::new("https://127.0.0.1/", 3) {
        Err(RequestError::InvalidUrl(msg)) => assert_eq!(msg, "Missing domain in URL!"),
        _ => panic!("expected a missing domain"),
    }
}

#[test]
fn pager_walks_pages_until_the_announced_count() {
    let mut pager = StorePager::new("https://shop.booth.pm", 10).ok().unwrap();
    assert_eq!(pager.request_url(), "https://shop.booth.pm/items?page=1");
    let first = "<a class=\"nav-item last-page\" href=\"/items?page=2\">".to_string();
    pager = match pager.receive_page(&first, vec![item(1), item(2)]) {
        PageStep::Next(p) => p,
        PageStep::Done(_) => panic!("two pages were announced"),
    };
    assert_eq!(pager.request_url(), "https://shop.booth.pm/items?page=2");
    let second = "<span class=\"shop-name-label display_title\">Shop</span>".to_string();
    match pager.receive_page(&second, vec![item(3)]) {
        PageStep::Done(store) => {
            assert_eq!(store.name, "Shop");
            assert_eq!(store.url, "https://shop.booth.pm/items");
            let ids: Vec<i32> = store.items.iter().map(|i| i.id).collect();
            assert_eq!(ids, vec![1, 2, 3]);
        },
        PageStep::Next(_) => panic!("the last page was reached"),
    }
}

#[test]
fn pager_stops_on_empty_page_or_limit() {
    let mut pager = StorePager::new("https://shop.booth.pm/item_lists/abc", 1).ok().unwrap();
    assert_eq!(pager.request_url(), "https://shop.booth.pm/item_lists/abc?page=1");
    let page = "<a class=\"nav-item last-page\" href=\"/items?page=9\">".to_string();
    assert!(matches!(pager.receive_page(&page, vec![item(1)]), PageStep::Done(_)));

    let mut pager = StorePager::new("https://shop.booth.pm/items", 5).ok().unwrap();
    pager.request_url();
    assert!(matches!(pager.receive_page(&page, Vec::new()), PageStep::Done(_)));
}

#[test]
fn error_messages() {
    assert_eq!(RequestError::InvalidUrl("x".to_string()).to_message(), "Invalid URL: x");
    assert_eq!(RequestError::NotBoothUrl().to_message(), "Not a booth.pm URL!");
    assert_eq!(RequestError::HttpError(404, "Not Found".to_string()).to_message(), "Request failed: 404 - Not Found");
    assert_eq!(RequestError::NetworkError("down".to_string()).to_message(), "Network error: down");
    assert_eq!(RequestError::ParseError("bad".to_string()).to_message(), "Parsing error: bad");
}
