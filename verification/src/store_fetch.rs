//! The decisions behind fetching a store page by page: which address to ask
//! for, when to stop, and what store the pages make up. Whoever runs the
//! requests hands each page to a `StorePager` and asks for the next address.

use vstd::prelude::*;
use vstd::string::*;
use crate::errors::{RequestError, RequestErrorView};
use crate::objects::booth_item::BoothItem;
use crate::objects::booth_store::BoothStore;
use crate::store_page::{
    create_store_from_content, fits_in_memory, get_page_count_from_content, page_count_spec,
    store_description_spec, store_icon_spec, store_name_spec,
};
use crate::strings::{contains_spec, contains_text, ends_with_spec, ends_with_text, i32_to_text, int_text};

verus! {

/// What `url::Url::parse` gives for `input`: the serialization of the parsed
/// URL, or the text of the parse error.
pub uninterp spec fn url_parse_outcome(input: Seq<char>) -> Result<Seq<char>, Seq<char>>;

/// What `url::Url::domain` gives for the URL with the given serialization.
pub uninterp spec fn url_domain(url: Seq<char>) -> Option<Seq<char>>;

/// What `url::Url::path` gives for the URL with the given serialization.
pub uninterp spec fn url_path(url: Seq<char>) -> Seq<char>;

/// The serialization of the URL after `url::Url::set_path(path)`.
pub uninterp spec fn url_with_path(url: Seq<char>, path: Seq<char>) -> Seq<char>;

/// The serialization of the URL after `url::Url::set_query(query)`.
pub uninterp spec fn url_with_query(url: Seq<char>, query: Option<Seq<char>>) -> Seq<char>;

/// `url` is the serialization of a parsed URL: parsing it gives it back.
pub open spec fn is_serialized_url(url: Seq<char>) -> bool {
    url_parse_outcome(url) == Ok::<Seq<char>, Seq<char>>(url)
}

/// Calls `url::Url::parse` and gives back the URL's serialization, or the
/// error's text (its `Display`). The `url` crate re-parses a URL's own
/// serialization to the same URL (its `check_invariants` asserts as much), so
/// a serialization given back parses to itself.
#[verifier::external_body]
fn parse_url(input: &str) -> (r: Result<String, String>)
    ensures
        match r {
            Ok(s) => url_parse_outcome(input@) == Ok::<Seq<char>, Seq<char>>(s@),
            Err(e) => url_parse_outcome(input@) == Err::<Seq<char>, Seq<char>>(e@),
        },
        r matches Ok(s) ==> is_serialized_url(s@),
{
    match url::Url::parse(input) {
        Ok(u) => Ok(u.into()),
        Err(e) => Err(e.to_string()),
    }
}

/// Calls `url::Url::domain` on the URL that `url` serializes.
#[verifier::external_body]
fn domain_of(url: &str) -> (r: Option<String>)
    requires
        is_serialized_url(url@),
    ensures
        r.deep_view() == url_domain(url@),
{
    url::Url::parse(url).unwrap().domain().map(|d| d.to_string())
}

/// Calls `url::Url::path` on the URL that `url` serializes.
#[verifier::external_body]
fn path_of(url: &str) -> (r: String)
    requires
        is_serialized_url(url@),
    ensures
        r@ == url_path(url@),
{
    url::Url::parse(url).unwrap().path().to_string()
}

/// Calls `url::Url::set_path` on the URL that `url` serializes and gives back
/// the new serialization.
#[verifier::external_body]
fn set_path_of(url: &str, path: &str) -> (r: String)
    requires
        is_serialized_url(url@),
    ensures
        r@ == url_with_path(url@, path@),
        is_serialized_url(r@),
{
    let mut u = url::Url::parse(url).unwrap();
    u.set_path(path);
    u.into()
}

/// Calls `url::Url::set_query` on the URL that `url` serializes and gives
/// back the new serialization.
#[verifier::external_body]
fn set_query_of(url: &str, query: Option<&str>) -> (r: String)
    requires
        is_serialized_url(url@),
    ensures
        r@ == url_with_query(url@, query.deep_view()),
        is_serialized_url(r@),
{
    let mut u = url::Url::parse(url).unwrap();
    u.set_query(query);
    u.into()
}

/// The address from which a store's item listing is fetched, for the store
/// address `url` that the user gave: the URL checked to be on a `booth.pm`
/// subdomain, its path extended by `items` unless it already names items or
/// item lists.
pub open spec fn store_url_spec(url: Seq<char>) -> Result<Seq<char>, RequestErrorView> {
    match url_parse_outcome(url) {
        Err(e) => Err(RequestErrorView::InvalidUrl(e)),
        Ok(serialized) => match url_domain(serialized) {
            None => Err(RequestErrorView::InvalidUrl("Missing domain in URL!"@)),
            Some(domain) => if !ends_with_spec(domain, ".booth.pm"@) {
                Err(RequestErrorView::NotBoothUrl)
            } else {
                let path = url_path(serialized);
                if contains_spec(path, "items"@) || contains_spec(path, "item_lists"@) {
                    Ok(serialized)
                } else {
                    Ok(url_with_path(serialized, path + "items"@))
                }
            },
        },
    }
}


/// The state of fetching a store: the address last asked for, the most pages
/// to fetch, the number of pages the first page announced (`-1` while not
/// known), the number of the current page, and the items gathered so far.
pub struct StorePager {
    url: String,
    max_pages: i32,
    page_count: i32,
    page: i32,
    items: Vec<BoothItem>,
}

/// The state of a `StorePager`, its texts as character sequences.
pub struct StorePagerView {
    pub url: Seq<char>,
    pub max_pages: i32,
    pub page_count: i32,
    pub page: i32,
    pub items: Seq<BoothItem>,
}

impl View for StorePager {
    type V = StorePagerView;

    closed spec fn view(&self) -> StorePagerView {
        StorePagerView {
            url: self.url@,
            max_pages: self.max_pages,
            page_count: self.page_count,
            page: self.page,
            items: self.items@,
        }
    }
}

/// What follows a page: the next page is to be fetched, or the store is
/// complete.
pub enum PageStep {
    Next(StorePager),
    Done(BoothStore),
}

/// The query that asks for page `page`.
pub open spec fn page_query(page: i32) -> Seq<char> {
    "page="@ + int_text(page as int)
}

/// Whether fetching ends with a page that held `new_items` items, given the
/// current page number, the most pages to fetch and the announced page count.
pub open spec fn fetch_done(new_items: nat, page: i32, max_pages: i32, page_count: i32) -> bool {
    new_items == 0 || page >= max_pages || page >= page_count
}

impl StorePager {
    #[verifier::type_invariant]
    spec fn well_formed(self) -> bool {
        &&& is_serialized_url(self.url@)
        &&& self.page >= 1
    }

    /// Starts fetching the store at `url`, at page 1, fetching at most
    /// `max_pages` pages (at least one). Fails where the address is not a URL
    /// on a `booth.pm` subdomain (see `store_url_spec`).
    pub fn new(url: &str, max_pages: i32) -> (r: Result<StorePager, RequestError>)
        ensures
            match r {
                Ok(p) => {
                    &&& store_url_spec(url@) == Ok::<Seq<char>, RequestErrorView>(p@.url)
                    &&& p@.max_pages == max_pages
                    &&& p@.page_count == -1
                    &&& p@.page == 1
                    &&& p@.items == Seq::<BoothItem>::empty()
                },
                Err(e) => store_url_spec(url@) == Err::<Seq<char>, RequestErrorView>(e@),
            },
    {
        let url_obj = match parse_url(url) {
            Ok(u) => u,
            Err(e) => return Err(RequestError::InvalidUrl(e)),
        };
        match domain_of(url_obj.as_str()) {
            Some(domain) => if !ends_with_text(domain.as_str(), ".booth.pm") {
                return Err(RequestError::NotBoothUrl());
            },
            None => return Err(RequestError::InvalidUrl("Missing domain in URL!".to_string())),
        }
        let url_path = path_of(url_obj.as_str());
        let store_url = if !(contains_text(url_path.as_str(), "items") || contains_text(
            url_path.as_str(),
            "item_lists",
        )) {
            let mut path = url_path.clone();
            path.append("items");
            set_path_of(url_obj.as_str(), path.as_str())
        } else {
            url_obj
        };
        Ok(StorePager { url: store_url, max_pages, page_count: -1, page: 1, items: Vec::new() })
    }

    /// The address of the current page, which is also the address last asked
    /// for from then on.
    pub fn request_url(&mut self) -> (r: String)
        ensures
            final(self)@.url == url_with_query(old(self)@.url, Some(page_query(old(self)@.page))),
            final(self)@.max_pages == old(self)@.max_pages,
            final(self)@.page_count == old(self)@.page_count,
            final(self)@.page == old(self)@.page,
            final(self)@.items == old(self)@.items,
            r@ == final(self)@.url,
    {
        proof {
            use_type_invariant(&*self);
        }
        let mut query = "page=".to_string();
        let page_text = i32_to_text(self.page);
        query.append(page_text.as_str());
        let next = set_query_of(self.url.as_str(), Some(query.as_str()));
        self.url = next.clone();
        next
    }

    /// Takes in the page fetched from the address last asked for, and the
    /// items read from it. Fetching ends when the page held no items, or it
    /// was the last page allowed or announced; the store is then made from
    /// this page, the address without its query, and all items gathered.
    /// Otherwise the next page is due. The page count is read from the first
    /// page that announces one.
    pub fn receive_page(self, content: &String, new_items: Vec<BoothItem>) -> (r: PageStep)
        requires
            fits_in_memory(content@),
        ensures
            ({
                let page_count = if self@.page_count == -1 {
                    page_count_spec(content@)
                } else {
                    self@.page_count
                };
                let items = self@.items + new_items@;
                if fetch_done(new_items@.len(), self@.page, self@.max_pages, page_count) {
                    r matches PageStep::Done(store) && {
                        &&& store.name@ == store_name_spec(content@)
                        &&& store.description@ == store_description_spec(content@)
                        &&& store.url@ == url_with_query(self@.url, None)
                        &&& store.icon_url@ == store_icon_spec(content@)
                        &&& store.items@ == items
                    }
                } else {
                    r matches PageStep::Next(next) && {
                        &&& next@.url == self@.url
                        &&& next@.max_pages == self@.max_pages
                        &&& next@.page_count == page_count
                        &&& next@.page == self@.page + 1
                        &&& next@.items == items
                    }
                }
            }),
    {
        proof {
            use_type_invariant(&self);
        }
        let StorePager { url, max_pages, page_count, page, items } = self;
        let page_count = if page_count == -1 {
            get_page_count_from_content(content)
        } else {
            page_count
        };
        let new_items_count = new_items.len();
        let mut all_items = items;
        let mut new_items = new_items;
        let ghost gathered = all_items@ + new_items@;
        all_items.append(&mut new_items);
        assert(all_items@ == gathered);
        if new_items_count == 0 || page >= max_pages || page >= page_count {
            let store_url = set_query_of(url.as_str(), None);
            PageStep::Done(create_store_from_content(content, store_url.as_str(), all_items))
        } else {
            PageStep::Next(
                StorePager { url, max_pages, page_count, page: page + 1, items: all_items },
            )
        }
    }
}

} // verus!
