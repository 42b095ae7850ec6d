//! A clipboard history library: capture classification and debouncing,
//! content fingerprints, and a content-addressed, deduplicating record store
//! with a search index.

pub mod clipboard;
pub mod hash;
pub mod persist;
pub mod text;

use crate::persist::{
    content_of, id_at, is_ranking, window, ClipData, ClipItem, StoreError, Storage,
};
use crate::text::without_quotes;
use vstd::prelude::*;

verus! {

/// How many rows a history query without a search phrase lists.
pub const HISTORY_PAGE: usize = 50;

/// The history for a query: the most recent page when the query is empty,
/// else the search results for it.
pub fn query_history(storage: &Storage, query: &str) -> (r: Vec<ClipItem>)
    requires
        storage.wf(),
    ensures
        query@.len() == 0 ==> exists|order: Seq<usize>|
            is_ranking(storage.records(), order, true, false, Seq::empty()) && #[trigger] window(
                storage.records(),
                order,
                0,
                HISTORY_PAGE as int,
                r@,
                true,
            ),
        query@.len() > 0 ==> exists|order: Seq<usize>|
            is_ranking(storage.records(), order, false, true, without_quotes(query@)) && #[trigger] window(
                storage.records(),
                order,
                0,
                50,
                r@,
                false,
            ),
{
    if query.unicode_len() == 0 {
        storage.get_recent(HISTORY_PAGE, 0)
    } else {
        storage.search(query)
    }
}

/// The full content of a history entry, to be put back on the clipboard.
pub fn select_clip_item(storage: &Storage, id: i64) -> (r: Result<ClipData, StoreError>)
    requires
        storage.wf(),
    ensures
        (forall|i: int| !id_at(storage.records(), i, id)) ==> r == Err::<ClipData, StoreError>(StoreError::NotFound),
        forall|i: int| id_at(storage.records(), i, id) ==> content_of(storage.records()[i], storage.blobs(), r),
{
    storage.get_content(id)
}

} // verus!
