use uvcleaner::completion::{
    expand_home, listing_target, suggestion_label, suggestion_target, suggestions_from_entries,
    text_starts_with, DirEntryInfo,
};
use uvcleaner::model::Project;
use uvcleaner::scanner::{
    is_project_file, is_skipped_dir, is_stale, is_walked_entry, latest_modified,
    sort_by_last_modified, stale_candidates, total_size, VenvCandidate, NANOS_PER_DAY, SCAN_DAYS,
};
use uvcleaner::text::{chars_le, chars_of, sort_texts};

fn project(name: &str, modified: i128) -> Project {
    Project {
        path: name.to_string(),
        venv_path: format!("{}/.venv", name),
        last_modified: modified,
        venv_size: 1,
        selected: false,
    }
}

#[test]
fn skipped_directories() {
    for name in [".git", ".venv", "__pycache__", "node_modules", "target", ".tox", ".mypy_cache", ".pytest_cache"] {
        assert!(is_skipped_dir(name), "{}", name);
    }
    for name in ["src", ".github", "targets", "", "venv"] {
        assert!(!is_skipped_dir(name), "{}", name);
    }
    assert!(is_walked_entry(false, ".git"));
    assert!(!is_walked_entry(true, ".git"));
    assert!(is_walked_entry(true, "src"));
}

#[test]
fn project_marker_file() {
    assert!(is_project_file("pyproject.toml"));
    assert!(!is_project_file("setup.py"));
    assert!(!is_project_file("pyproject.toml.bak"));
}

#[test]
fn staleness_uses_thirty_days() {
    assert_eq!(SCAN_DAYS, 30);
    let now: i128 = 1_700_000_000 * 1_000_000_000;
    let limit = now - 30 * NANOS_PER_DAY;
    assert!(is_stale(limit - 1, now, SCAN_DAYS));
    assert!(is_stale(limit, now, SCAN_DAYS));
    assert!(!is_stale(limit + 1, now, SCAN_DAYS));
    assert!(!is_stale(now, now, SCAN_DAYS));
    assert!(is_stale(0, now, SCAN_DAYS));
    assert!(is_stale(now - 1, now, 0));
    assert!(is_stale(now, now, 0));
    // spans beyond i64::MAX seconds are fine while the limit is representable
    let far_future: i128 = (i64::MAX as i128) * 1_000_000_000;
    let big_days: u64 = (i64::MAX as u64) / 86_400 + 1;
    let far_limit = far_future - big_days as i128 * NANOS_PER_DAY;
    assert!(is_stale(far_limit, far_future, big_days));
    assert!(!is_stale(far_limit + 1, far_future, big_days));
}

#[test]
fn latest_modification() {
    assert_eq!(latest_modified(&vec![]), 0);
    assert_eq!(latest_modified(&vec![5, -3, 9, 2]), 9);
    assert_eq!(latest_modified(&vec![-7, -3]), -3);
}

#[test]
fn total_of_sizes() {
    assert_eq!(total_size(&vec![]), 0);
    assert_eq!(total_size(&vec![1, 2, 3]), 6);
    assert_eq!(total_size(&vec![u64::MAX - 1, 1]), u64::MAX);
}

#[test]
fn projects_sorted_oldest_first_and_stably() {
    let sorted = sort_by_last_modified(vec![
        project("c", 30),
        project("a1", 10),
        project("b", -5),
        project("a2", 10),
        project("d", 40),
        project("a3", 10),
    ]);
    let names: Vec<&str> = sorted.iter().map(|p| p.path.as_str()).collect();
    assert_eq!(names, vec!["b", "a1", "a2", "a3", "c", "d"]);
    assert!(sort_by_last_modified(vec![]).is_empty());
}

#[test]
fn sort_agrees_with_std_stable_sort() {
    let mut x: u64 = 12345;
    let mut input = Vec::new();
    for i in 0..200 {
        x = x.wrapping_mul(6364136223846793005).wrapping_add(1442695040888963407);
        input.push(project(&format!("p{}", i), ((x >> 33) % 17) as i128 - 8));
    }
    let mut expected = input.clone();
    expected.sort_by_key(|p| p.last_modified);
    let got = sort_by_last_modified(input);
    let a: Vec<String> = got.iter().map(|p| p.path.clone()).collect();
    let b: Vec<String> = expected.iter().map(|p| p.path.clone()).collect();
    assert_eq!(a, b);
}

#[test]
fn text_order_agrees_with_str_order() {
    let words = ["", "a", "ab", "b", "B", "é", "z", "zz", "/a/", "/a/b/", "/ab/", "ä", "日本", "a\u{10FFFF}"];
    for x in words {
        for y in words {
            assert_eq!(chars_le(&chars_of(x), &chars_of(y)), x <= y, "{:?} {:?}", x, y);
        }
    }
    let v: Vec<String> = words.iter().map(|w| w.to_string()).collect();
    let mut expected = v.clone();
    expected.sort();
    assert_eq!(sort_texts(v), expected);
}

#[test]
fn prefix_test() {
    assert!(text_starts_with("Development", "Dev"));
    assert!(text_starts_with("Development", ""));
    assert!(!text_starts_with("Dev", "Development"));
    assert!(!text_starts_with("Development", "dev"));
}

#[test]
fn home_expansion() {
    assert_eq!(expand_home("~/Development", Some("/home/u".to_string())), "/home/u/Development");
    assert_eq!(expand_home("~", Some("/home/u".to_string())), "/home/u");
    assert_eq!(expand_home("~/x", None), "~/x");
    assert_eq!(expand_home("/tmp/~", Some("/home/u".to_string())), "/tmp/~");
    assert_eq!(expand_home("", Some("/home/u".to_string())), "");
}

#[test]
fn listing_target_splits_path() {
    assert_eq!(listing_target("/home/u/De"), ("/home/u".to_string(), "De".to_string()));
    assert_eq!(listing_target("/home/u/"), ("/home/u/".to_string(), "".to_string()));
    assert_eq!(listing_target("/"), ("/".to_string(), "".to_string()));
    assert_eq!(listing_target(""), ("/".to_string(), "".to_string()));
    assert_eq!(listing_target("foo"), ("".to_string(), "foo".to_string()));
    assert_eq!(listing_target("/a/.."), ("/a".to_string(), "".to_string()));
}

#[test]
fn suggestion_target_without_tilde() {
    assert_eq!(suggestion_target("/srv/pro"), ("/srv".to_string(), "pro".to_string()));
}

fn entry(name: &str, is_dir: bool) -> DirEntryInfo {
    DirEntryInfo { name: name.to_string(), is_dir }
}

#[test]
fn suggestions_filter_and_sort() {
    let got = suggestions_from_entries(
        "/home/u",
        "D",
        vec![
            entry("Downloads", true),
            entry("Development", true),
            entry("Desktop.txt", false),
            entry(".Dotfiles", true),
            entry("Music", true),
            entry("Docs", true),
        ],
    );
    assert_eq!(got, vec!["/home/u/Development/", "/home/u/Docs/", "/home/u/Downloads/"]);
}

#[test]
fn suggestions_join_with_and_without_separator() {
    let got = suggestions_from_entries("/home/u/", "", vec![entry("b", true), entry("a", true)]);
    assert_eq!(got, vec!["/home/u/a/", "/home/u/b/"]);
    let got = suggestions_from_entries("", "", vec![entry("x", true)]);
    assert_eq!(got, vec!["x/"]);
}

#[test]
fn suggestion_labels() {
    assert_eq!(suggestion_label("/home/u/Development/"), "Development/");
    assert_eq!(suggestion_label("/"), "/");
    assert_eq!(suggestion_label("x/"), "x/");
}

#[test]
fn stale_candidates_keep_found_order() {
    let now: i128 = 100 * NANOS_PER_DAY;
    let limit = now - 30 * NANOS_PER_DAY;
    let c = |name: &str, modified: i128, at: usize| VenvCandidate {
        path: name.to_string(),
        venv_path: format!("{}/.venv", name),
        venv_modified: modified,
        found_at: at,
    };
    let listed = stale_candidates(
        vec![c("new", now, 0), c("edge", limit, 1), c("old", 0, 2), c("young", limit + 1, 3)],
        now,
        SCAN_DAYS,
    );
    let names: Vec<(&str, usize)> = listed.iter().map(|c| (c.path.as_str(), c.found_at)).collect();
    assert_eq!(names, vec![("edge", 1), ("old", 2)]);
}

#[test]
fn totals_grow_by_added_file_and_ignore_order() {
    assert_eq!(total_size(&vec![3, 1, 2]), total_size(&vec![1, 2, 3]));
    assert_eq!(total_size(&vec![3, 1, 9, 2]), total_size(&vec![3, 1, 2]) + 9);
}

#[test]
fn candidates_strictly_increase_for_distinct_names() {
    let got = suggestions_from_entries(
        "/r",
        "",
        vec![entry("b", true), entry("a", true), entry("c", true), entry("ab", true)],
    );
    assert_eq!(got, vec!["/r/a/", "/r/ab/", "/r/b/", "/r/c/"]);
    assert!(got.windows(2).all(|w| w[0] < w[1]));
    let twice = suggestions_from_entries("/r", "", vec![entry("a", true), entry("a", true)]);
    assert_eq!(twice, vec!["/r/a/", "/r/a/"]);
}
