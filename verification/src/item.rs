//! The rows that a search shows.

use crate::directory::{views, Directory, DirectoryView};
use crate::ranking::{ranking, sort_and_filter_matching_directories};
use vstd::prelude::*;
use vstd::string::StringExecFns;

verus! {

/// One row of a result list: the title that is shown, a line below it that says
/// what choosing the row does, and the argument that is handed on when the row is
/// chosen.
#[derive(Debug, PartialEq, Eq)]
pub struct Item {
    pub title: String,
    pub subtitle: Option<String>,
    pub arg: Option<String>,
}

/// A row as texts.
pub struct ItemView {
    pub title: Seq<char>,
    pub subtitle: Option<Seq<char>>,
    pub arg: Option<Seq<char>>,
}

/// A text that may be missing, as a sequence of characters that may be missing.
pub open spec fn optional_text(text: Option<String>) -> Option<Seq<char>> {
    match text {
        Some(text) => Some(text@),
        None => None,
    }
}

impl View for Item {
    type V = ItemView;

    open spec fn view(&self) -> ItemView {
        ItemView {
            title: self.title@,
            subtitle: optional_text(self.subtitle),
            arg: optional_text(self.arg),
        }
    }
}

impl Clone for Item {
    fn clone(&self) -> (copy: Self)
        ensures
            copy@ == self@,
    {
        Item { title: self.title.clone(), subtitle: self.subtitle.clone(), arg: self.arg.clone() }
    }
}

/// The views of a sequence of rows, in the same order.
pub open spec fn item_views(items: Seq<Item>) -> Seq<ItemView> {
    items.map_values(|item: Item| item@)
}

/// The line below the title of a row: which program is run on which path.
pub open spec fn subtitle_of(binary_to_execute: Seq<char>, path: Seq<char>) -> Seq<char> {
    "execute → "@ + binary_to_execute + " "@ + path
}

/// The row for a directory that matched: titled by its name, with its path as
/// the argument.
pub open spec fn item_of(directory: DirectoryView, binary_to_execute: Seq<char>) -> ItemView {
    ItemView {
        title: directory.name,
        subtitle: Some(subtitle_of(binary_to_execute, directory.path)),
        arg: Some(directory.path),
    }
}

/// What is shown in place of results: a request for a pattern where the query is
/// empty, else the news that the query found nothing.
pub open spec fn message_of(query: Seq<char>) -> Seq<char> {
    if query.len() == 0 {
        "please add a search pattern"@
    } else {
        "nothing found for "@ + query + ", try to reformulate your search"@
    }
}

/// The row that stands for an empty result. Choosing it does nothing: it has no
/// argument.
pub open spec fn default_item(query: Seq<char>) -> ItemView {
    ItemView { title: message_of(query), subtitle: None, arg: None }
}

/// The rows for a ranked sequence of directories: one row each, in the same
/// order. An empty query is answered without a look at the directories, and so
/// is an empty sequence: with the one row that says what is amiss.
pub open spec fn rows_of(
    ranked: Seq<DirectoryView>,
    query: Seq<char>,
    binary_to_execute: Seq<char>,
) -> Seq<ItemView> {
    if query.len() == 0 || ranked.len() == 0 {
        seq![default_item(query)]
    } else {
        ranked.map_values(|directory: DirectoryView| item_of(directory, binary_to_execute))
    }
}

/// The rows that a search for `query` among `directories` shows.
pub open spec fn items_of(
    directories: Seq<DirectoryView>,
    query: Seq<char>,
    binary_to_execute: Seq<char>,
) -> Seq<ItemView> {
    rows_of(ranking(directories, query), query, binary_to_execute)
}

/// The row that is shown when a search for `query` has no result.
pub fn default(query: String) -> (item: Item)
    ensures
        item@ == default_item(query@),
{
    let message = if query.as_str().is_empty() {
        "please add a search pattern".to_owned()
    } else {
        let mut message = "nothing found for ".to_owned();
        message.append(query.as_str());
        message.append(", try to reformulate your search");
        message
    };
    Item { title: message, subtitle: None, arg: None }
}

/// The rows for directories that are ranked already. There is always a row to
/// show.
pub fn present(ranked: Vec<Directory>, query: String, binary_to_execute: String) -> (items: Vec<
    Item,
>)
    ensures
        item_views(items@) == rows_of(views(ranked@), query@, binary_to_execute@),
        items.len() > 0,
{
    if query.as_str().is_empty() || ranked.len() == 0 {
        let items = vec![default(query)];
        assert(item_views(items@) =~= seq![default_item(query@)]);
        return items;
    }
    let mut items: Vec<Item> = Vec::new();
    let mut i: usize = 0;
    while i < ranked.len()
        invariant
            i <= ranked.len(),
            items.len() == i,
            forall|j: int|
                0 <= j < i ==> (#[trigger] items[j])@ == item_of(ranked[j]@, binary_to_execute@),
        decreases ranked.len() - i,
    {
        items.push(ranked[i].to_item(binary_to_execute.clone()));
        i += 1;
    }
    assert(item_views(items@) =~= rows_of(views(ranked@), query@, binary_to_execute@));
    items
}

/// The rows that a search for `query` among `directories` shows: one for each
/// directory that matches, the best match first, or the one row that says that
/// nothing was found. An empty query is answered before anything is ranked.
pub fn to_items(directories: Vec<Directory>, query: String, binary_to_execute: String) -> (items:
    Vec<Item>)
    ensures
        item_views(items@) == items_of(views(directories@), query@, binary_to_execute@),
        items.len() > 0,
{
    if query.as_str().is_empty() {
        return present(Vec::new(), query, binary_to_execute);
    }
    let ranked = sort_and_filter_matching_directories(directories, query.clone());
    present(ranked, query, binary_to_execute)
}

/// The rows that are shown are never none: for every ranked sequence, every
/// query and every program there is at least one.
pub proof fn lemma_rows_are_never_empty(
    ranked: Seq<DirectoryView>,
    query: Seq<char>,
    binary_to_execute: Seq<char>,
)
    ensures
        rows_of(ranked, query, binary_to_execute).len() > 0,
{
}

/// Whatever the directories are, a search for the empty query shows the one row
/// that asks for a pattern.
pub proof fn lemma_empty_query_asks_for_pattern(
    directories: Seq<DirectoryView>,
    binary_to_execute: Seq<char>,
)
    ensures
        items_of(directories, Seq::empty(), binary_to_execute) == seq![
            ItemView { title: "please add a search pattern"@, subtitle: None, arg: None },
        ],
{
}

} // verus!
