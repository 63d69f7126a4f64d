use std::path::PathBuf;

use open_directory::matching::score_from_match;
use open_directory::Directory;

fn dashboard() -> Directory {
    Directory {
        name: String::from("Dashboard"),
        path: String::from("http://www.test.blub"),
    }
}

#[test]
fn directory_transforms_pathbuf_to_directory() {
    let path = PathBuf::from("tests/resources/target_dir/example_dir1");
    let expected = Directory {
        name: "example_dir1".to_string(),
        path: "tests/resources/target_dir/example_dir1".to_string(),
    };

    let actual = Directory::from_pathbuf(&path);

    assert_eq!(expected, actual);
}

#[test]
fn main_transforms_pathbuf_to_directory() {
    let path = PathBuf::from("tests/resources/target_dir/example_dir1");
    let expected = Directory {
        name: "example_dir1".to_string(),
        path: "tests/resources/target_dir/example_dir1".to_string(),
    };

    let actual = Directory::from_pathbuf(&path);

    assert_eq!(expected, actual);
}

#[test]
fn directory_does_not_matches_the_query() {
    let directory = dashboard();

    let score = directory.calculate_matching_score("z".to_string());

    assert_eq!(score, 0);
}

#[test]
fn main_does_not_matches_the_query() {
    let directory = Directory {
        name: String::from("Dashboard"),
        path: String::from("http://www.test.blub"),
    };

    let score = directory.calculate_matching_score("z".to_string());

    assert_eq!(score, 0);
}

#[test]
fn directory_matches_the_query() {
    let directory = dashboard();

    let score = directory.calculate_matching_score("d".to_string());

    assert_eq!(score, -29);
}

#[test]
fn main_matches_the_query() {
    let directory = Directory {
        name: String::from("Dashboard"),
        path: String::from("http://www.test.blub"),
    };

    let score = directory.calculate_matching_score("d".to_string());

    assert_eq!(score, -29);
}

#[test]
fn path_that_ends_in_a_slash_is_named_by_its_last_component() {
    let actual = Directory::from_pathbuf(&PathBuf::from("/srv/projects/notes/"));

    assert_eq!(actual.name, "notes");
    assert_eq!(actual.path, "/srv/projects/notes/");
}

#[test]
fn path_without_a_last_component_has_an_empty_name() {
    let root = Directory::from_pathbuf(&PathBuf::from("/"));
    assert_eq!(root.name, "");
    assert_eq!(root.path, "/");

    let parent = Directory::from_pathbuf(&PathBuf::from("projects/.."));
    assert_eq!(parent.name, "");
    assert_eq!(parent.path, "projects/..");

    let empty = Directory::from_pathbuf(&PathBuf::new());
    assert_eq!(empty.name, "");
    assert_eq!(empty.path, "");
}

#[test]
fn clone_keeps_name_and_path() {
    let directory = dashboard();

    let copy = directory.clone();

    assert_eq!(copy, directory);
    assert_eq!(copy.name, "Dashboard");
    assert_eq!(copy.path, "http://www.test.blub");
}

#[test]
fn score_turns_the_sign_of_the_quality() {
    assert_eq!(score_from_match(Some(29)), -29);
    assert_eq!(score_from_match(Some(-7)), 7);
    assert_eq!(score_from_match(Some(0)), 0);
    assert_eq!(score_from_match(None), 0);
    assert_eq!(score_from_match(Some(i64::MAX)), -i64::MAX);
}

#[test]
fn empty_query_scores_zero_against_any_name() {
    assert_eq!(dashboard().calculate_matching_score(String::new()), 0);
    let unnamed = Directory { name: String::new(), path: String::from("/") };
    assert_eq!(unnamed.calculate_matching_score(String::new()), 0);
}

#[test]
fn empty_query_scores_no_worse_than_a_query_that_does_not_match() {
    let directory = dashboard();
    let baseline = directory.calculate_matching_score(String::new());

    for query in ["z", "dz", "draobhsaD", "Dashboards", "ä"] {
        let score = directory.calculate_matching_score(query.to_string());
        assert_eq!(score, 0);
        assert!(baseline <= score);
    }
}

#[test]
fn lower_case_query_ignores_case() {
    let directory = dashboard();

    assert!(directory.calculate_matching_score("dash".to_string()) < 0);
    assert!(directory.calculate_matching_score("db".to_string()) < 0);
}

#[test]
fn query_with_upper_case_letter_respects_case() {
    let directory = dashboard();

    assert!(directory.calculate_matching_score("Dash".to_string()) < 0);
    assert_eq!(directory.calculate_matching_score("DASH".to_string()), 0);
    assert_eq!(directory.calculate_matching_score("dB".to_string()), 0);
}

#[test]
fn query_must_occur_in_order() {
    let directory = dashboard();

    assert!(directory.calculate_matching_score("ahb".to_string()) < 0);
    assert_eq!(directory.calculate_matching_score("bha".to_string()), 0);
}

#[test]
fn closer_match_scores_lower() {
    let close = Directory { name: String::from("ab"), path: String::new() };
    let apart = Directory { name: String::from("acb"), path: String::new() };

    let close_score = close.calculate_matching_score("ab".to_string());
    let apart_score = apart.calculate_matching_score("ab".to_string());

    assert!(close_score < apart_score);
    assert!(apart_score < 0);
}

#[test]
fn score_is_the_same_on_every_call() {
    let directory = dashboard();

    let first = directory.calculate_matching_score("board".to_string());
    let second = directory.calculate_matching_score("board".to_string());

    assert_eq!(first, second);
}

#[test]
fn match_with_a_long_gap_does_not_score_below_zero() {
    let name = format!("a{}b", "x".repeat(100));
    let directory = Directory { name, path: String::new() };

    let score = directory.calculate_matching_score("ab".to_string());

    assert!(score > 0);
}
