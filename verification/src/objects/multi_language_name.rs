use vstd::prelude::*;

verus! {

/// A name given in Japanese and in English.
#[derive(Debug, Clone)]
pub struct MultiLanguageName {
    pub ja: String,
    pub en: String,
}

} // verus!
