use vstd::prelude::*;
use vstd::string::*;
use crate::objects::booth_item::{BoothItem, item_rss_spec};
use crate::strings::{chars_of, ends_with_spec, i32_to_text, int_text, string_from_char_range};

verus! {

/// A store: its name, description, address and icon, and the items it lists.
#[derive(Clone)]
pub struct BoothStore {
    pub name: String,
    pub description: String,
    pub url: String,
    pub icon_url: String,
    pub items: Vec<BoothItem>,
}

/// Whether an item stays in the feed under the given filters.
pub open spec fn item_kept(item: BoothItem, filter_unavailable: bool, filter_nsfw: bool, vrc_only: bool) -> bool {
    !((filter_unavailable && (item.is_sold_out || item.is_end_of_sale)) || (filter_nsfw
        && item.is_adult) || (vrc_only && !item.is_vrchat))
}

/// The `<item>` elements of the items that stay in the feed, in store order.
pub open spec fn items_rss_spec(items: Seq<BoothItem>, filter_unavailable: bool, filter_nsfw: bool, vrc_only: bool) -> Seq<char>
    decreases items.len(),
{
    if items.len() == 0 {
        Seq::empty()
    } else {
        items_rss_spec(items.drop_last(), filter_unavailable, filter_nsfw, vrc_only) + if item_kept(
            items.last(),
            filter_unavailable,
            filter_nsfw,
            vrc_only,
        ) {
            item_rss_spec(items.last())
        } else {
            Seq::empty()
        }
    }
}

/// The XML that the `rss` crate writes for a channel without items that has
/// the given time to live, title, link, image (with the channel's link and
/// title), description, generator and one category.
pub uninterp spec fn rss_channel_xml(
    ttl: Seq<char>,
    title: Seq<char>,
    link: Seq<char>,
    icon_url: Seq<char>,
    description: Seq<char>,
    generator: Seq<char>,
    category: Seq<char>,
) -> Seq<char>;

/// The closing tags with which the `rss` crate ends a channel.
pub open spec fn channel_end() -> Seq<char> {
    "</channel></rss>"@
}

/// Builds an `rss::Channel` with `rss::ChannelBuilder` (and an
/// `rss::ImageBuilder` and `rss::CategoryBuilder` for its image and category)
/// and writes it with the channel's `Display` impl. The result is named by
/// `rss_channel_xml`. The `rss` source writes a channel as an XML declaration,
/// the `<rss>` start tag and the channel's elements, its items last, and then
/// `</channel></rss>`; its `Display` impl gives an empty text where writing
/// fails. The contract states no more of the text than that.
#[verifier::external_body]
fn render_channel(
    ttl: &str,
    title: &str,
    link: &str,
    icon_url: &str,
    description: &str,
    generator: &str,
    category: &str,
) -> (xml: String)
    ensures
        xml@ == rss_channel_xml(ttl@, title@, link@, icon_url@, description@, generator@, category@),
        xml@.len() == 0 || ends_with_spec(xml@, channel_end()),
{
    let image = rss::ImageBuilder::default().url(icon_url).link(link).title(title).build();
    rss::ChannelBuilder::default().ttl(ttl.to_string()).title(title).link(link).image(image)
        .description(description).generator(generator.to_string())
        .category(rss::CategoryBuilder::default().name(category).build()).build().to_string()
}

/// The RSS document of a store (see `BoothStore::as_rss`): the channel that
/// the `rss` crate writes for the store, with the `<item>` elements of the
/// items that pass the filters placed where the crate writes items, just
/// before the closing tags.
pub open spec fn store_rss_spec(store: BoothStore, filter_unavailable: bool, filter_nsfw: bool, vrc_only: bool, ttl: i32) -> Seq<char> {
    let shell = rss_channel_xml(
        int_text(ttl as int),
        store.name@,
        store.url@,
        store.icon_url@,
        store.description@,
        "Booth2RSS"@,
        "store"@,
    );
    if ends_with_spec(shell, channel_end()) {
        shell.subrange(0, shell.len() - channel_end().len()) + items_rss_spec(
            store.items@,
            filter_unavailable,
            filter_nsfw,
            vrc_only,
        ) + channel_end()
    } else {
        shell
    }
}

impl BoothStore {
    /// A store with the given details and items.
    pub fn new(name: String, description: String, url: &str, icon_url: String, items: Vec<BoothItem>) -> (r: BoothStore)
        ensures
            r.name == name,
            r.description == description,
            r.url@ == url@,
            r.icon_url == icon_url,
            r.items == items,
    {
        BoothStore { name: name, description: description, url: url.to_owned(), icon_url: icon_url, items: items }
    }

    /// The store as an RSS 2.0 document with time to live `ttl`, leaving out
    /// unavailable (sold out or no longer on sale) items when
    /// `filter_unavailable`, adult items when `filter_nsfw`, and items not for
    /// VRChat when `vrc_only`.
    pub fn as_rss(&self, filter_unavailable: bool, filter_nsfw: bool, vrc_only: bool, ttl: i32) -> (r: String)
        ensures
            r@ == store_rss_spec(*self, filter_unavailable, filter_nsfw, vrc_only, ttl),
    {
        let mut items = String::new();
        let mut i: usize = 0;
        while i < self.items.len()
            invariant
                i <= self.items.len(),
                items@ == items_rss_spec(self.items@.take(i as int), filter_unavailable, filter_nsfw, vrc_only),
            decreases self.items.len() - i,
        {
            let item = &self.items[i];
            assert(self.items@.take(i + 1).drop_last() =~= self.items@.take(i as int));
            let is_unavailable = item.is_sold_out || item.is_end_of_sale;
            if !((filter_unavailable && is_unavailable) || (filter_nsfw && item.is_adult) || (vrc_only
                && !item.is_vrchat)) {
                let item_rss = item.as_rss();
                items.append(item_rss.as_str());
            }
            assert(items@ =~= items_rss_spec(self.items@.take(i + 1), filter_unavailable, filter_nsfw, vrc_only));
            i = i + 1;
        }
        assert(self.items@.take(i as int) =~= self.items@);
        let ttl_text = i32_to_text(ttl);
        let shell = render_channel(
            ttl_text.as_str(),
            self.name.as_str(),
            self.url.as_str(),
            self.icon_url.as_str(),
            self.description.as_str(),
            "Booth2RSS",
            "store",
        );
        let end: &str = "</channel></rss>";
        let shell_chars = chars_of(shell.as_str());
        let end_chars = chars_of(end);
        if shell_chars.len() >= end_chars.len() {
            let head_len = shell_chars.len() - end_chars.len();
            let tail = string_from_char_range(shell_chars.as_slice(), head_len, shell_chars.len());
            if tail.eq(&end.to_string()) {
                let mut r = string_from_char_range(shell_chars.as_slice(), 0, head_len);
                r.append(items.as_str());
                r.append(end);
                return r;
            }
        }
        shell
    }

    /// The text that the store is shown as: `[<name>](<url>)`.
    pub fn to_display_string(&self) -> (r: String)
        ensures
            r@ == "["@ + self.name@ + "]("@ + self.url@ + ")"@,
    {
        let mut r = String::new();
        r.append("[");
        r.append(self.name.as_str());
        r.append("](");
        r.append(self.url.as_str());
        r.append(")");
        r
    }
}

} // verus!
