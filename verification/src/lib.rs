//! Ranking of directories against a typed query.
//!
//! A [`Directory`] is a name with a path. [`Directory::calculate_matching_score`]
//! measures how well a query matches a name, [`sort_and_filter_matching_directories`]
//! keeps the directories that match and puts the best first, and [`to_items`] turns
//! the outcome into the rows a launcher shows, with one row that explains the miss
//! when nothing is left.

pub mod directory;
pub mod item;
pub mod matching;
pub mod path;
pub mod ranking;
pub mod search;

pub use directory::Directory;
pub use item::{present, to_items, Item};
pub use matching::score_from_match;
pub use ranking::sort_and_filter_matching_directories;
pub use search::{directories_from, root_locations, search_for_directories};
