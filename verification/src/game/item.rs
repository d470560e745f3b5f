use vstd::prelude::*;

use super::ids::ItemId;
use crate::text::{
    ascii_lowercase_text, chars_vec, collapse_whitespace, collapse_whitespace_chars,
    is_ascii_text, lemma_collapse_ascii, str_to_lowercase, text_lowercase,
};

verus! {

/// The view of an [`Item`].
pub struct ItemView {
    pub id: Seq<char>,
    pub name: Seq<char>,
    pub description: Seq<char>,
}

/// A thing that can lie in a room, on a feature, or be carried.
#[derive(Debug, Clone)]
pub struct Item {
    pub id: ItemId,
    pub name: String,
    pub description: String,
}

impl View for Item {
    type V = ItemView;

    open spec fn view(&self) -> ItemView {
        ItemView { id: self.id@, name: self.name@, description: self.description@ }
    }
}

/// The name with its words joined by single spaces, then lower-cased as a whole.
pub open spec fn normalized_item_name(s: Seq<char>) -> Seq<char> {
    text_lowercase(collapse_whitespace(s))
}

/// An item name written in ASCII normalizes to its words joined by single spaces, with its
/// ASCII letters in lower case.
pub proof fn law_ascii_item_names_lowercase(s: Seq<char>)
    requires
        is_ascii_text(s),
    ensures
        normalized_item_name(s) == ascii_lowercase_text(collapse_whitespace(s)),
{
    lemma_collapse_ascii(s);
}

/// The older, item-only canonical form of a name: whitespace collapsed, then lower-cased.
pub fn normalize_item_name(name: &str) -> (normalized: String)
    ensures
        normalized@ == normalized_item_name(name@),
{
    let chars = chars_vec(name);
    let collapsed = collapse_whitespace_chars(&chars);
    str_to_lowercase(collapsed.as_str())
}

} // verus!
