//! A search as the launcher asks for it: paths and a typed pattern in, rows out.

use crate::directory::{directory_of, views, Directory, DirectoryView};
use crate::item::{default_item, item_views, items_of, to_items, Item, ItemView};
use std::path::PathBuf;
use vstd::prelude::*;
use vstd::string::StrSliceExecFns;

verus! {

/// A text without the white space at its two ends.
pub uninterp spec fn trimmed(text: Seq<char>) -> Seq<char>;

/// Calls `str::trim`, which returns the text with leading and trailing white
/// space removed. What counts as white space is left to the standard library: the
/// contract says only that the outcome depends on the text alone.
#[verifier::external_body]
pub(crate) fn trim(text: &str) -> (inner: &str)
    ensures
        inner@ == trimmed(text@),
{
    text.trim()
}

/// How many characters of `text` stand before its first comma: all of them where
/// it has none.
pub open spec fn before_comma(text: Seq<char>) -> nat
    decreases text.len(),
{
    if text.len() == 0 || text[0] == ',' {
        0
    } else {
        1 + before_comma(text.skip(1))
    }
}

/// The locations that a list names: the pieces between its commas, each without
/// the white space at its two ends. A list without a comma names one location.
pub open spec fn locations_of(list: Seq<char>) -> Seq<Seq<char>>
    decreases list.len(),
{
    let first = before_comma(list) as int;
    if first >= list.len() {
        seq![trimmed(list)]
    } else {
        seq![trimmed(list.take(first))] + locations_of(list.skip(first + 1))
    }
}

/// The texts of a sequence of strings, in the same order.
pub open spec fn texts(strings: Seq<String>) -> Seq<Seq<char>> {
    strings.map_values(|string: String| string@)
}

/// Where the first comma of `text` stands, or that it has none: `first` is past
/// the characters that are no comma, at a comma or at the end.
proof fn lemma_before_comma(text: Seq<char>, first: int)
    requires
        0 <= first <= text.len(),
        forall|j: int| 0 <= j < first ==> text[j] != ',',
        first == text.len() || text[first] == ',',
    ensures
        before_comma(text) == first,
    decreases first,
{
    if first > 0 {
        let rest = text.skip(1);
        assert forall|j: int| 0 <= j < first - 1 implies rest[j] != ',' by {
            assert(rest[j] == text[j + 1]);
        }
        lemma_before_comma(rest, first - 1);
    }
}

/// The locations that `directory_path` names, a list with commas between its
/// entries.
pub fn root_locations(directory_path: &str) -> (locations: Vec<String>)
    ensures
        texts(locations@) == locations_of(directory_path@),
        locations.len() > 0,
{
    let length = directory_path.unicode_len();
    let mut locations: Vec<String> = Vec::new();
    let mut start: usize = 0;
    let mut i: usize = 0;
    proof {
        assert(directory_path@.skip(0) =~= directory_path@);
        assert(texts(locations@) + locations_of(directory_path@) =~= locations_of(
            directory_path@,
        ));
    }
    while i < length
        invariant
            start <= i <= length,
            length == directory_path@.len(),
            forall|j: int| start <= j < i ==> directory_path@[j] != ',',
            locations_of(directory_path@) == texts(locations@) + locations_of(
                directory_path@.skip(start as int),
            ),
        decreases length - i,
    {
        if directory_path.get_char(i) == ',' {
            let location = trim(directory_path.substring_char(start, i)).to_owned();
            proof {
                let rest = directory_path@.skip(start as int);
                lemma_before_comma(rest, i - start);
                assert(rest.take(i - start) =~= directory_path@.subrange(start as int, i as int));
                assert(rest.skip(i - start + 1) =~= directory_path@.skip(i + 1));
                assert(texts(locations@.push(location)) =~= texts(locations@) + seq![location@]);
            }
            locations.push(location);
            start = i + 1;
        }
        i += 1;
    }
    let location = trim(directory_path.substring_char(start, length)).to_owned();
    proof {
        let rest = directory_path@.skip(start as int);
        lemma_before_comma(rest, length - start);
        assert(rest =~= directory_path@.subrange(start as int, length as int));
        assert(texts(locations@.push(location)) =~= texts(locations@) + seq![location@]);
    }
    locations.push(location);
    locations
}

/// The directories that a sequence of paths stands for, in the same order.
pub open spec fn directories_of(paths: Seq<PathBuf>) -> Seq<DirectoryView> {
    paths.map_values(|path: PathBuf| directory_of(path))
}

/// A pattern that may be missing, as characters that may be missing.
pub open spec fn pattern_text(pattern: Option<&str>) -> Option<Seq<char>> {
    match pattern {
        Some(pattern) => Some(pattern@),
        None => None,
    }
}

/// The rows that a search shows: those for the pattern without the white space
/// around it, among the directories that the paths stand for. Without a pattern
/// it is the row that asks for one.
pub open spec fn search_of(
    paths: Seq<PathBuf>,
    pattern: Option<Seq<char>>,
    binary_to_execute: Seq<char>,
) -> Seq<ItemView> {
    match pattern {
        Some(pattern) => items_of(directories_of(paths), trimmed(pattern), binary_to_execute),
        None => seq![default_item(Seq::empty())],
    }
}

/// The directories that `paths` stand for.
pub fn directories_from(paths: &Vec<PathBuf>) -> (directories: Vec<Directory>)
    ensures
        views(directories@) == directories_of(paths@),
{
    let mut directories: Vec<Directory> = Vec::new();
    let mut i: usize = 0;
    while i < paths.len()
        invariant
            i <= paths.len(),
            directories.len() == i,
            forall|j: int| 0 <= j < i ==> (#[trigger] directories[j])@ == directory_of(paths[j]),
        decreases paths.len() - i,
    {
        directories.push(Directory::from_pathbuf(&paths[i]));
        i += 1;
    }
    assert(views(directories@) =~= directories_of(paths@));
    directories
}

/// Searches the directories at `paths` for `pattern` and returns the rows to
/// show. `binary_to_execute` names the program that a chosen row is opened with.
pub fn search_for_directories(
    paths: &Vec<PathBuf>,
    pattern: Option<&str>,
    binary_to_execute: String,
) -> (items: Vec<Item>)
    ensures
        item_views(items@) == search_of(paths@, pattern_text(pattern), binary_to_execute@),
        items.len() > 0,
{
    let directories = directories_from(paths);
    match pattern {
        Some(pattern) => to_items(directories, trim(pattern).to_owned(), binary_to_execute),
        None => {
            let items = vec![crate::item::default(String::new())];
            assert(item_views(items@) =~= seq![default_item(Seq::empty())]);
            items
        },
    }
}

} // verus!
