use open_directory::sort_and_filter_matching_directories;
use open_directory::Directory;

fn directory(name: &str, path: &str) -> Directory {
    Directory { name: String::from(name), path: String::from(path) }
}

#[test]
fn directory_sorts_and_keep_matchting_directories() {
    let directory1 = Directory {
        name: String::from("dashboard"),
        path: String::from("/test/dashboard"),
    };
    let directory2 = Directory {
        name: String::from("bookmarks"),
        path: String::from("/test/boomarks"),
    };
    let directories = vec![directory1.clone(), directory2.clone()];
    let expected_directories = vec![directory1.clone(), directory2.clone()];

    let matching_directories =
        Directory::sort_and_filter_matching_directories(directories, "o".to_owned());

    assert_eq!(matching_directories, expected_directories);
}

#[test]
fn main_sorts_and_keep_matchting_directories() {
    let directory1 = Directory {
        name: String::from("dashboard"),
        path: String::from("/test/dashboard"),
    };
    let directory2 = Directory {
        name: String::from("bookmarks"),
        path: String::from("/test/boomarks"),
    };
    let directories = vec![directory1.clone(), directory2.clone()];
    let expected_directories = vec![directory1.clone(), directory2.clone()];

    let matching_directories = sort_and_filter_matching_directories(directories, "o".to_owned());

    assert_eq!(matching_directories, expected_directories);
}

#[test]
fn directory_removes_not_matchting_directories() {
    let directory1 = Directory {
        name: String::from("Dashboard"),
        path: String::from("http://www.test.blub"),
    };
    let directory2 = Directory {
        name: String::from("Bookmarks"),
        path: String::from("http://www.bookmarks.blub"),
    };
    let directories = vec![directory1.clone(), directory2.clone()];
    let expected_directories = vec![directory1.clone()];

    let matching_directories =
        Directory::sort_and_filter_matching_directories(directories, "d".to_owned());

    assert_eq!(matching_directories, expected_directories);
}

#[test]
fn main_removes_not_matchting_directories() {
    let directory1 = Directory {
        name: String::from("Dashboard"),
        path: String::from("http://www.test.blub"),
    };
    let directory2 = Directory {
        name: String::from("Bookmarks"),
        path: String::from("http://www.bookmarks.blub"),
    };
    let directories = vec![directory1.clone(), directory2.clone()];
    let expected_directories = vec![directory1.clone()];

    let matching_directories = sort_and_filter_matching_directories(directories, "d".to_owned());

    assert_eq!(matching_directories, expected_directories);
}

#[test]
fn ranking_nothing_gives_nothing() {
    let ranked = sort_and_filter_matching_directories(Vec::new(), "d".to_owned());

    assert!(ranked.is_empty());
}

#[test]
fn empty_query_keeps_no_directory() {
    let directories = vec![directory("dashboard", "/a"), directory("bookmarks", "/b")];

    let ranked = sort_and_filter_matching_directories(directories, String::new());

    assert!(ranked.is_empty());
}

#[test]
fn white_space_is_matched_as_it_stands() {
    let directories = vec![directory("my notes", "/a"), directory("mynotes", "/b")];

    let ranked = sort_and_filter_matching_directories(directories, "y n".to_owned());

    assert_eq!(ranked, vec![directory("my notes", "/a")]);
}

#[test]
fn better_match_is_moved_to_the_front() {
    let apart = directory("acb", "/apart");
    let close = directory("ab", "/close");
    let none = directory("xyz", "/none");
    let directories = vec![none.clone(), apart.clone(), close.clone()];

    let ranked = sort_and_filter_matching_directories(directories, "ab".to_owned());

    assert_eq!(ranked, vec![close, apart]);
}

#[test]
fn equal_matches_stay_in_the_order_given() {
    let first = directory("dashboard", "/first");
    let second = directory("dashboard", "/second");
    let third = directory("dashboard", "/third");
    let directories = vec![second.clone(), third.clone(), first.clone()];

    let ranked = sort_and_filter_matching_directories(directories, "dash".to_owned());

    assert_eq!(ranked, vec![second, third, first]);
}

#[test]
fn ranking_holds_only_names_that_admit_the_query() {
    let names = ["Downloads", "music", "Documents", "old", "", "D", "nd"];
    let directories: Vec<Directory> = names.iter().map(|name| directory(name, "/x")).collect();

    let ranked = sort_and_filter_matching_directories(directories, "od".to_owned());

    let kept: Vec<&str> = ranked.iter().map(|kept| kept.name.as_str()).collect();
    assert_eq!(kept.len(), 2);
    assert!(kept.contains(&"Downloads"));
    assert!(kept.contains(&"old"));
}

#[test]
fn ranking_is_ordered_by_score() {
    let names = ["a_long_detour_board", "board", "b_o_a_r_d", "keyboard", "bored", "Board"];
    let directories: Vec<Directory> = names.iter().map(|name| directory(name, "/x")).collect();

    let ranked = sort_and_filter_matching_directories(directories, "board".to_owned());

    assert!(!ranked.is_empty());
    let scores: Vec<i64> =
        ranked.iter().map(|kept| kept.calculate_matching_score("board".to_owned())).collect();
    for score in &scores {
        assert!(*score < 0);
    }
    for pair in scores.windows(2) {
        assert!(pair[0] <= pair[1]);
    }
    assert!(ranked.iter().all(|kept| kept.name != "bored"));
}

#[test]
fn ranking_twice_gives_the_same() {
    let names = ["dashboard", "bookmarks", "Documents", "downloads", "desktop"];
    let directories: Vec<Directory> = names.iter().map(|name| directory(name, "/x")).collect();

    let first = sort_and_filter_matching_directories(directories.clone(), "do".to_owned());
    let second = sort_and_filter_matching_directories(directories.clone(), "do".to_owned());
    let third = Directory::sort_and_filter_matching_directories(directories, "do".to_owned());

    assert_eq!(first, second);
    assert_eq!(first, third);
}

#[test]
fn match_with_a_long_gap_is_not_kept() {
    let apart = directory(&format!("a{}b", "x".repeat(100)), "/apart");
    let close = directory("a_b", "/close");

    let ranked = sort_and_filter_matching_directories(vec![apart, close.clone()], "ab".to_owned());

    assert_eq!(ranked, vec![close]);
}
