use vstd::prelude::*;
use vstd::string::*;
use crate::objects::booth_category::BoothCategory;
use crate::strings::{
    ascii_upper, before_first_space, chars_of, contains_spec, contains_text, int_text, i32_to_text,
    join_strs, replace, replace_spec, seq_join, str_views, string_from_char_range, to_ascii_uppercase,
    trim, trim_spec,
};
use crate::utils::utf8_len;
use vstd::utf8::is_ascii_chars;
use crate::utils::{sanitize_xml, sanitize_xml_spec};

verus! {

/// One item of a store, as the store page lists it.
#[derive(Debug, Clone)]
pub struct BoothItem {
    pub id: i32,
    pub name: String,
    pub category: BoothCategory,
    pub is_adult: bool,
    pub is_end_of_sale: bool,
    pub is_placeholder: bool,
    pub is_sold_out: bool,
    pub is_vrchat: bool,
    pub minimum_stock: Option<i32>,
    pub price: String,
    pub local_price: Option<String>,
    pub thumbnail_image_urls: Vec<String>,
    pub url: String,
}

/// The tags that mark an item's content, in the order they are shown.
pub open spec fn content_tags_spec(item: BoothItem) -> Seq<Seq<char>> {
    (if item.is_adult {
        seq!["[ADULT CONTENT]"@]
    } else {
        Seq::empty()
    }) + (if item.is_vrchat {
        seq!["[VRChat]"@]
    } else {
        Seq::empty()
    }) + (if item.is_placeholder {
        seq!["[PLACEHOLDER]"@]
    } else {
        Seq::empty()
    })
}

/// The description of an item before it is escaped for XML: the tags on a
/// line of their own, then category and price (with the converted price, if
/// any), then the notes on its availability.
pub open spec fn description_text(item: BoothItem) -> Seq<char> {
    let base = "Category: "@ + item.category.name.en@ + "\nPrice: "@ + item.price@ + match item.local_price {
        Some(lprice) => " (~ "@ + lprice@ + ")"@,
        None => Seq::empty(),
    };
    let tags = content_tags_spec(item);
    let tagged = if tags.len() > 0 {
        seq_join(tags, " "@) + "\n"@ + base
    } else {
        base
    };
    tagged + (if item.is_sold_out {
        " (Sold Out)"@
    } else {
        Seq::empty()
    }) + (if item.is_end_of_sale {
        " (End Of Sale)"@
    } else {
        Seq::empty()
    })
}

/// The marks that follow the price in a state id: `;EOS` for sold out,
/// `;END` for end of sale and `;PH` for a placeholder, in that order.
pub open spec fn state_marks_spec(sold_out: bool, end_of_sale: bool, placeholder: bool) -> Seq<char> {
    (if sold_out {
        ";EOS"@
    } else {
        Seq::empty()
    }) + (if end_of_sale {
        ";END"@
    } else {
        Seq::empty()
    }) + (if placeholder {
        ";PH"@
    } else {
        Seq::empty()
    })
}

/// The identifier of an item's current state: its id and price, then a mark
/// for each of being sold out, being at end of sale and being a placeholder.
/// Any change of price or availability gives a new identifier, so that feed
/// readers show it as a new entry.
pub open spec fn state_id_spec(item: BoothItem) -> Seq<char> {
    int_text(item.id as int) + ";"@ + item.price@ + state_marks_spec(
        item.is_sold_out,
        item.is_end_of_sale,
        item.is_placeholder,
    )
}

/// The title of an item's feed entry before escaping: its name, after a
/// marker for adult content.
pub open spec fn display_name_spec(item: BoothItem) -> Seq<char> {
    (if item.is_adult {
        "\u{1F51E} "@
    } else {
        Seq::empty()
    }) + item.name@
}

/// The first thumbnail of an item, or nothing.
pub open spec fn thumbnail_spec(item: BoothItem) -> Seq<char> {
    if item.thumbnail_image_urls@.len() > 0 {
        item.thumbnail_image_urls@[0]@
    } else {
        Seq::empty()
    }
}

/// The `<item>` element of an item's feed entry.
#[verifier::opaque]
pub open spec fn item_rss_spec(item: BoothItem) -> Seq<char> {
    "<item>"@ + "<title>"@ + sanitize_xml_spec(display_name_spec(item)) + "</title>"@ + "<link>"@
        + item.url@ + "</link>"@ + "<enclosure url=\""@ + thumbnail_spec(item)
        + "\" type=\"image/jpeg\" length=\"0\"/>"@ + "<description>"@ + sanitize_xml_spec(
        description_text(item),
    ) + "</description>"@ + "<guid>"@ + state_id_spec(item) + "</guid>"@ + "<category>"@
        + item.category.name.en@ + "</category>"@ + "</item>"@
}

/// The digits of a price: its text without `,` and `.`, up to the first
/// space.
pub open spec fn price_number_spec(price: Seq<char>) -> Seq<char> {
    before_first_space(replace_spec(replace_spec(price, ","@, Seq::empty()), "."@, Seq::empty()))
}

/// The text of a price with its separators removed, up to the first space
/// (the number part of, say, `1,200 JPY`).
pub fn price_number_text(price: &str) -> (r: String)
    ensures
        r@ == price_number_spec(price@),
{
    proof {
        reveal_strlit(",");
        reveal_strlit(".");
        reveal_strlit("");
    }
    assert(""@ =~= Seq::<char>::empty());
    let price_clean = replace(replace(price, ",", "").as_str(), ".", "");
    let v = chars_of(price_clean.as_str());
    let mut i: usize = 0;
    assert(v@.skip(0) =~= v@);
    assert(v@.take(0) =~= Seq::<char>::empty());
    while i < v.len() && v[i] != ' '
        invariant
            i <= v.len(),
            v@ == price_clean@,
            before_first_space(v@) == v@.take(i as int) + before_first_space(v@.skip(i as int)),
        decreases v.len() - i,
    {
        let ghost rest = v@.skip(i as int);
        assert(rest.drop_first() =~= v@.skip(i + 1));
        assert(v@.take(i + 1) =~= v@.take(i as int) + seq![v@[i as int]]);
        i = i + 1;
    }
    assert(before_first_space(v@.skip(i as int)) =~= Seq::<char>::empty());
    assert(v@.take(i as int) + Seq::<char>::empty() =~= v@.take(i as int));
    assert(v@.take(i as int) =~= v@.subrange(0, i as int));
    string_from_char_range(v.as_slice(), 0, i)
}

/// The price text has a character boundary three bytes before its end (after
/// trimming), so that its last three bytes can be cut out.
pub open spec fn currency_cut_defined(price: Seq<char>) -> bool {
    exists|k: int| 0 <= k <= trim_spec(price).len() && #[trigger] utf8_len(trim_spec(price).skip(k)) == 3
}

/// The currency that a price names in its last three characters (after
/// trimming), in upper case, when these are ASCII and hold no space.
pub open spec fn detect_currency_spec(price: Seq<char>) -> Option<Seq<char>> {
    let t = trim_spec(price);
    if t.len() >= 3 && is_ascii_chars(t.subrange(t.len() - 3, t.len() as int)) {
        let code = t.subrange(t.len() - 3, t.len() as int);
        if contains_spec(code, " "@) {
            None
        } else {
            Some(code.map_values(|c: char| ascii_upper(c)))
        }
    } else {
        None
    }
}

impl BoothItem {
    /// The currency of the item's price, read from its last three bytes (see
    /// `detect_currency_spec`).
    pub fn try_detect_currency(&self) -> (r: Option<String>)
        requires
            currency_cut_defined(self.price@),
        ensures
            r.deep_view() == detect_currency_spec(self.price@),
    {
        let price = trim(self.price.as_str());
        let v = chars_of(price.as_str());
        if v.len() < 3 {
            return None;
        }
        let start = v.len() - 3;
        let currency = string_from_char_range(v.as_slice(), start, v.len());
        assert(v@ == trim_spec(self.price@));
        if !currency.as_str().is_ascii() {
            return None;
        }
        if contains_text(currency.as_str(), " ") {
            return None;
        }
        let uppercase = to_ascii_uppercase(currency.as_str());
        Some(uppercase)
    }

    /// The description shown in the item's feed entry, escaped for XML.
    pub fn get_description(&self) -> (r: String)
        ensures
            r@ == sanitize_xml_spec(description_text(*self)),
    {
        let mut content_tags: Vec<&str> = Vec::new();
        if self.is_adult {
            content_tags.push("[ADULT CONTENT]");
        }
        if self.is_vrchat {
            content_tags.push("[VRChat]");
        }
        if self.is_placeholder {
            content_tags.push("[PLACEHOLDER]");
        }
        assert(str_views(content_tags@) =~= content_tags_spec(*self));
        let mut description = String::new();
        if content_tags.len() > 0 {
            let joined = join_strs(&content_tags, " ");
            description.append(joined.as_str());
            description.append("\n");
        }
        description.append("Category: ");
        description.append(self.category.get_name().as_str());
        description.append("\nPrice: ");
        description.append(self.price.as_str());
        if let Some(lprice) = &self.local_price {
            description.append(" (~ ");
            description.append(lprice.as_str());
            description.append(")");
        }
        if self.is_sold_out {
            description.append(" (Sold Out)");
        }
        if self.is_end_of_sale {
            description.append(" (End Of Sale)");
        }
        assert(description@ =~= description_text(*self));
        sanitize_xml(&description)
    }

    /// The identifier of the item's current state (see `state_id_spec`).
    pub fn get_state_id(&self) -> (r: String)
        ensures
            r@ == state_id_spec(*self),
    {
        let mut state_id = i32_to_text(self.id);
        state_id.append(";");
        state_id.append(self.price.as_str());
        if self.is_sold_out {
            state_id.append(";EOS");
        }
        if self.is_end_of_sale {
            state_id.append(";END");
        }
        if self.is_placeholder {
            state_id.append(";PH");
        }
        assert(state_id@ =~= state_id_spec(*self));
        state_id
    }

    /// The item's `<item>` element for an RSS feed.
    pub fn as_rss(&self) -> (r: String)
        ensures
            r@ == item_rss_spec(*self),
    {
        let mut display_name = String::new();
        if self.is_adult {
            display_name.append("\u{1F51E} ");
        }
        display_name.append(self.name.as_str());
        assert(display_name@ =~= display_name_spec(*self));
        let display_name_safe = sanitize_xml(&display_name);
        let thumbnail_url: &str = if self.thumbnail_image_urls.len() > 0 {
            self.thumbnail_image_urls[0].as_str()
        } else {
            ""
        };
        proof {
            reveal_strlit("");
        }
        assert(thumbnail_url@ =~= thumbnail_spec(*self));
        let state_id = self.get_state_id();
        let category_name = self.category.get_name();
        let description = self.get_description();
        let mut rss = String::new();
        rss.append("<item>");
        rss.append("<title>");
        rss.append(display_name_safe.as_str());
        rss.append("</title>");
        rss.append("<link>");
        rss.append(self.url.as_str());
        rss.append("</link>");
        rss.append("<enclosure url=\"");
        rss.append(thumbnail_url);
        rss.append("\" type=\"image/jpeg\" length=\"0\"/>");
        rss.append("<description>");
        rss.append(description.as_str());
        rss.append("</description>");
        rss.append("<guid>");
        rss.append(state_id.as_str());
        rss.append("</guid>");
        rss.append("<category>");
        rss.append(category_name.as_str());
        rss.append("</category>");
        rss.append("</item>");
        proof {
            reveal(item_rss_spec);
        }
        assert(rss@ =~= item_rss_spec(*self));
        rss
    }

    /// The text that the item is shown as: `[<name>](<url>)`.
    pub fn to_display_string(&self) -> (r: String)
        ensures
            r@ == "["@ + self.name@ + "]("@ + self.url@ + ")"@,
    {
        let mut r = String::new();
        r.append("[");
        r.append(self.name.as_str());
        r.append("](");
        r.append(self.url.as_str());
        r.append(")");
        r
    }
}

} // verus!
