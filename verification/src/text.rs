//! Interface language and translated labels.
use vstd::prelude::*;

verus! {

/// Language of the user interface.
#[derive(Clone, Copy, Debug, PartialEq, Eq)]
pub enum Language {
    English,
    Russian,
}

/// Picks the English or the Russian text.
pub fn tr<'a>(lang: Language, en: &'a str, ru: &'a str) -> (r: &'a str)
    ensures
        r@ == (match lang {
            Language::English => en@,
            Language::Russian => ru@,
        }),
{
    match lang {
        Language::English => en,
        Language::Russian => ru,
    }
}

} // verus!
