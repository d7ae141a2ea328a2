use vstd::prelude::*;
use vstd::string::*;
use crate::objects::multi_language_name::MultiLanguageName;

verus! {

/// The category an item is listed under, with the link to its listing.
#[derive(Debug, Clone)]
pub struct BoothCategory {
    pub name: MultiLanguageName,
    pub url: String,
}

impl BoothCategory {
    /// The English name of the category.
    pub fn get_name(&self) -> (r: String)
        ensures
            r@ == self.name.en@,
    {
        self.name.en.clone()
    }

    /// The text that the category is shown as: `[<English name>](<url>)`.
    pub fn to_display_string(&self) -> (r: String)
        ensures
            r@ == "["@ + self.name.en@ + "]("@ + self.url@ + ")"@,
    {
        let mut r = String::new();
        r.append("[");
        r.append(self.name.en.as_str());
        r.append("](");
        r.append(self.url.as_str());
        r.append(")");
        r
    }
}

} // verus!
