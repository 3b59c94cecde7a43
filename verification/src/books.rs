//! Address books: texts by node id.

use crate::authority::NodeId;
use crate::text::copy_text;
use std::collections::BTreeMap;
use vstd::prelude::*;

verus! {

broadcast use {vstd::std_specs::btree::group_btree_axioms, vstd::laws_cmp::group_laws_cmp};

/// Texts by node id, viewed.
pub open spec fn book_view(m: Map<u64, String>) -> Map<u64, Seq<char>> {
    Map::new(|k: u64| m.contains_key(k), |k: u64| m[k]@)
}

/// What a book has for a node.
pub open spec fn entry(book: Map<u64, Seq<char>>, node_id: NodeId) -> Option<Seq<char>> {
    if book.contains_key(node_id.0) {
        Some(book[node_id.0])
    } else {
        None
    }
}

/// Looks a node up.
pub fn book_get(book: &BTreeMap<u64, String>, node_id: NodeId) -> (found: Option<String>)
    ensures
        crate::response::optional_text(found) == entry(book_view(book@), node_id),
{
    match book.get(&node_id.0) {
        None => None,
        Some(text) => Some(copy_text(text.as_str())),
    }
}

/// Writes a node's text into a book.
pub fn book_put(book: &mut BTreeMap<u64, String>, node_id: NodeId, text: &str)
    ensures
        book_view(final(book)@) == book_view(old(book)@).insert(node_id.0, text@),
{
    let copy = copy_text(text);
    book.insert(node_id.0, copy);
    assert(book_view(book@) =~= book_view(old(book)@).insert(node_id.0, text@));
}

} // verus!
