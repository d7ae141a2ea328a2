use booth2rss::objects::booth_category::BoothCategory;
use booth2rss::objects::booth_item::{price_number_text, BoothItem};
use booth2rss::objects::booth_store::BoothStore;
use booth2rss::objects::multi_language_name::MultiLanguageName;

fn category(en: &str) -> BoothCategory {
    BoothCategory {
        name: MultiLanguageName { ja: "ja".to_string(), en: en.to_string() },
        url: "https://booth.pm/en/browse/3D".to_string(),
    }
}

fn item(id: i32, name: &str) -> BoothItem {
    BoothItem {
        id,
        name: name.to_string(),
        category: category("3D Models"),
        is_adult: false,
        is_end_of_sale: false,
        is_placeholder: false,
        is_sold_out: false,
        is_vrchat: false,
        minimum_stock: None,
        price: "1,200 JPY".to_string(),
        local_price: None,
        thumbnail_image_urls: vec!["https://img/1.jpg".to_string(), "https://img/2.jpg".to_string()],
        url: format!("https://shop.booth.pm/items/{id}"),
    }
}

#[test]
fn category_name_and_display() {
    let c = category("Accessories");
    assert_eq!(c.get_name(), "Accessories");
    assert_eq!(c.to_display_string(), "[Accessories](https://booth.pm/en/browse/3D)");
}

#[test]
fn description_plain_item() {
    let i = item(1, "Hat");
    assert_eq!(i.get_description(), "Category: 3D Models\nPrice: 1,200 JPY");
}

#[test]
fn description_with_tags_local_price_and_availability() {
    let mut i = item(1, "Hat");
    i.is_adult = true;
    i.is_vrchat = true;
    i.is_placeholder = true;
    i.is_sold_out = true;
    i.is_end_of_sale = true;
    i.local_price = Some("7.50EUR".to_string());
    assert_eq!(
        i.get_description(),
        "[ADULT CONTENT] [VRChat] [PLACEHOLDER]\nCategory: 3D Models\nPrice: 1,200 JPY (~ 7.50EUR) (Sold Out) (End Of Sale)"
    );
}

#[test]
fn description_is_escaped() {
    let mut i = item(1, "Hat");
    i.category = category("A&B <x>");
    assert_eq!(i.get_description(), "Category: A&amp;B &lt;x&gt;\nPrice: 1,200 JPY");
}

#[test]
fn state_id_marks() {
    let mut i = item(-42, "Hat");
    assert_eq!(i.get_state_id(), "-42;1,200 JPY");
    i.is_sold_out = true;
    i.is_placeholder = true;
    assert_eq!(i.get_state_id(), "-42;1,200 JPY;EOS;PH");
    i.is_end_of_sale = true;
    assert_eq!(i.get_state_id(), "-42;1,200 JPY;EOS;END;PH");
    i.is_sold_out = false;
    i.is_placeholder = false;
    assert_eq!(i.get_state_id(), "-42;1,200 JPY;END");
}

#[test]
fn item_rss_element() {
    let mut i = item(7, "Cute <Hat>");
    i.is_adult = true;
    let expected = "<item><title>\u{1F51E} Cute &lt;Hat&gt;</title><link>https://shop.booth.pm/items/7</link>\
<enclosure url=\"https://img/1.jpg\" type=\"image/jpeg\" length=\"0\"/>\
<description>[ADULT CONTENT]\nCategory: 3D Models\nPrice: 1,200 JPY</description>\
<guid>7;1,200 JPY</guid><category>3D Models</category></item>";
    assert_eq!(i.as_rss(), expected);
}

#[test]
fn item_rss_without_thumbnail() {
    let mut i = item(7, "Hat");
    i.thumbnail_image_urls = Vec::new();
    assert!(i.as_rss().contains("<enclosure url=\"\" type=\"image/jpeg\" length=\"0\"/>"));
}

#[test]
fn item_display_string() {
    assert_eq!(item(3, "Hat").to_display_string(), "[Hat](https://shop.booth.pm/items/3)");
}

#[test]
fn detect_currency() {
    let mut i = item(1, "Hat");
    assert_eq!(i.try_detect_currency(), Some("JPY".to_string()));
    i.price = "  1,200 jpy \n".to_string();
    assert_eq!(i.try_detect_currency(), Some("JPY".to_string()));
    i.price = "12 $".to_string();
    assert_eq!(i.try_detect_currency(), None);
    i.price = "1200€".to_string();
    assert_eq!(i.try_detect_currency(), None);
    i.price = "ab".to_string();
    assert_eq!(i.try_detect_currency(), None);
    i.price = "1,5eur".to_string();
    assert_eq!(i.try_detect_currency(), Some("EUR".to_string()));
}

#[test]
fn price_number() {
    assert_eq!(price_number_text("1,200 JPY"), "1200");
    assert_eq!(price_number_text("3.000,50 EUR"), "300050");
    assert_eq!(price_number_text("500"), "500");
    assert_eq!(price_number_text(" 500"), "");
}

fn store(items: Vec<BoothItem>) -> BoothStore {
    BoothStore::new(
        "My Store".to_string(),
        "Things & more".to_string(),
        "https://shop.booth.pm/items",
        "https://img/icon.png".to_string(),
        items,
    )
}

fn channel_without_items(ttl: &str) -> String {
    let image = rss::ImageBuilder::default()
        .url("https://img/icon.png")
        .link("https://shop.booth.pm/items")
        .title("My Store")
        .build();
    rss::ChannelBuilder::default()
        .ttl(ttl.to_string())
        .title("My Store")
        .link("https://shop.booth.pm/items")
        .image(image)
        .description("Things & more")
        .generator("Booth2RSS".to_string())
        .category(rss::CategoryBuilder::default().name("store").build())
        .build()
        .to_string()
}

#[test]
fn store_new_and_display() {
    let s = store(vec![item(1, "Hat")]);
    assert_eq!(s.name, "My Store");
    assert_eq!(s.url, "https://shop.booth.pm/items");
    assert_eq!(s.items.len(), 1);
    assert_eq!(s.to_display_string(), "[My Store](https://shop.booth.pm/items)");
}

#[test]
fn store_rss_places_items_before_channel_end() {
    let a = item(1, "Hat");
    let b = item(2, "Shoe");
    let s = store(vec![a.clone(), b.clone()]);
    let shell = channel_without_items("15");
    assert!(shell.ends_with("</channel></rss>"));
    let head = &shell[..shell.len() - "</channel></rss>".len()];
    let expected = format!("{}{}{}</channel></rss>", head, a.as_rss(), b.as_rss());
    assert_eq!(s.as_rss(false, false, false, 15), expected);
}

#[test]
fn store_rss_filters() {
    let mut sold = item(1, "Sold");
    sold.is_sold_out = true;
    let mut ended = item(2, "Ended");
    ended.is_end_of_sale = true;
    let mut adult = item(3, "Adult");
    adult.is_adult = true;
    adult.is_vrchat = true;
    let mut vrc = item(4, "Vrc");
    vrc.is_vrchat = true;
    let plain = item(5, "Plain");
    let s = store(vec![sold.clone(), ended.clone(), adult.clone(), vrc.clone(), plain.clone()]);
    let shell = channel_without_items("0");
    let head = &shell[..shell.len() - "</channel></rss>".len()];

    let all = s.as_rss(false, false, false, 0);
    let expected_all = format!(
        "{}{}{}{}{}{}</channel></rss>",
        head,
        sold.as_rss(),
        ended.as_rss(),
        adult.as_rss(),
        vrc.as_rss(),
        plain.as_rss()
    );
    assert_eq!(all, expected_all);

    let available = s.as_rss(true, false, false, 0);
    assert_eq!(
        available,
        format!("{}{}{}{}</channel></rss>", head, adult.as_rss(), vrc.as_rss(), plain.as_rss())
    );

    let safe_vrc = s.as_rss(true, true, true, 0);
    assert_eq!(safe_vrc, format!("{}{}</channel></rss>", head, vrc.as_rss()));
}
