//! A directory that can be searched for: a name and a path.

use crate::item::{item_of, item_views, items_of, to_items, Item};
use crate::matching::{fuzzy_match, score_from_match, score_of};
use crate::path::{file_name, path_file_name, path_text, to_str};
use crate::ranking::{ranking, sort_and_filter_matching_directories};
use std::path::PathBuf;
use vstd::prelude::*;
use vstd::string::StringExecFns;

verus! {

/// One candidate of a search. The name is what a query is matched against; the
/// path is handed back as it is when the candidate is chosen.
#[derive(Debug, PartialEq, Eq)]
pub struct Directory {
    pub name: String,
    pub path: String,
}

/// A directory as two texts.
pub struct DirectoryView {
    pub name: Seq<char>,
    pub path: Seq<char>,
}

impl View for Directory {
    type V = DirectoryView;

    open spec fn view(&self) -> DirectoryView {
        DirectoryView { name: self.name@, path: self.path@ }
    }
}

impl Clone for Directory {
    fn clone(&self) -> (copy: Self)
        ensures
            copy@ == self@,
    {
        Directory { name: self.name.clone(), path: self.path.clone() }
    }
}

/// The views of a sequence of directories, in the same order.
pub open spec fn views(directories: Seq<Directory>) -> Seq<DirectoryView> {
    directories.map_values(|directory: Directory| directory@)
}

/// A text that may be missing, taken as empty where it is.
pub open spec fn text_or_empty(text: Option<Seq<char>>) -> Seq<char> {
    match text {
        Some(text) => text,
        None => Seq::empty(),
    }
}

/// The directory that a path stands for: named by the last component of the
/// path, with the whole path as its path. A part that is missing or is not valid
/// Unicode is empty.
pub open spec fn directory_of(path: PathBuf) -> DirectoryView {
    DirectoryView {
        name: match path_file_name(path) {
            Some(last) => text_or_empty(path_text(last)),
            None => Seq::empty(),
        },
        path: text_or_empty(path_text(path)),
    }
}

impl Directory {
    /// The directory that `path` stands for.
    pub fn from_pathbuf(path: &PathBuf) -> (directory: Directory)
        ensures
            directory@ == directory_of(*path),
    {
        let name = match file_name(path) {
            Some(last) => match to_str(&last) {
                Some(text) => text.to_owned(),
                None => String::new(),
            },
            None => String::new(),
        };
        let path = match to_str(path) {
            Some(text) => text.to_owned(),
            None => String::new(),
        };
        Directory { name, path }
    }

    /// The row that shows this directory in a result list. `binary_to_execute`
    /// names the program that is run on the path when the row is chosen.
    pub fn to_item(&self, binary_to_execute: String) -> (item: Item)
        ensures
            item@ == item_of(self@, binary_to_execute@),
    {
        let mut subtitle = "execute → ".to_owned();
        subtitle.append(binary_to_execute.as_str());
        subtitle.append(" ");
        subtitle.append(self.path.as_str());
        Item { title: self.name.clone(), subtitle: Some(subtitle), arg: Some(self.path.clone()) }
    }

    /// The score of `query` against the name of this directory. A score below 0
    /// denotes a match, and the further below the better. The empty query scores
    /// 0, and so does a query that the name does not admit.
    pub fn calculate_matching_score(&self, query: String) -> (score: i64)
        ensures
            score == score_of(self@.name, query@),
    {
        score_from_match(fuzzy_match(self.name.as_str(), query.as_str()))
    }

    /// The directories whose name matches `query`, the best match first; the same
    /// as the function of this name that stands on its own.
    pub fn sort_and_filter_matching_directories(directories: Vec<Directory>, query: String) -> (ranked:
        Vec<Directory>)
        ensures
            views(ranked@) == ranking(views(directories@), query@),
    {
        sort_and_filter_matching_directories(directories, query)
    }

    /// The rows that a search for `query` among `directories` shows; the same as
    /// `to_items`.
    pub fn transform_to_items(
        directories: Vec<Directory>,
        query: String,
        binary_to_execute: String,
    ) -> (items: Vec<Item>)
        ensures
            item_views(items@) == items_of(views(directories@), query@, binary_to_execute@),
            items.len() > 0,
    {
        to_items(directories, query, binary_to_execute)
    }
}

} // verus!
