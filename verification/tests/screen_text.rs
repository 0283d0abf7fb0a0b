use uvcleaner::model::{App, Project};
use uvcleaner::ui::{footer_line, largest_size, list_title, list_window, modified_date, row_header, FooterTone, ListWindow};

fn project(name: &str, size: u64, selected: bool) -> Project {
    Project {
        path: format!("/d/{}", name),
        venv_path: format!("/d/{}/.venv", name),
        last_modified: 0,
        venv_size: size,
        selected,
    }
}

#[test]
fn title_without_marks() {
    let app = App::new(vec![project("a", 10, false), project("b", 20, false)], "/d".to_string());
    let w = list_window(12, 0, 2);
    assert_eq!(list_title(&app, w), "uv venv cleaner  [0/2 selected  none selected]");
}

#[test]
fn title_with_marks_and_scrolling() {
    let mb = 1024 * 1024;
    let app = App::new(
        vec![project("a", 489 * mb, true), project("b", 20, false), project("c", 312 * mb, false)],
        "/d".to_string(),
    );
    let w = ListWindow { visible: 2, start: 1, end: 3 };
    assert_eq!(list_title(&app, w), "uv venv cleaner  [1/3 selected  489 MB to free]  [2-3/3]");
}

#[test]
fn footer_lines() {
    let mut app = App::new(vec![project("a", 2048, true)], "/d".to_string());
    assert_eq!(
        footer_line(&app),
        ("↑↓: move  Space: select  a: all/none  d: delete  Tab: edit path  q: quit".to_string(), FooterTone::Plain)
    );
    app.input_mode = true;
    assert_eq!(
        footer_line(&app),
        ("Type path  Tab/↓: next suggest  ↑: prev  Enter: apply/scan  Esc: cancel".to_string(), FooterTone::Plain)
    );
    app.confirm = true;
    assert_eq!(footer_line(&app), ("Delete 1 items (2 KB)? (y/n)".to_string(), FooterTone::Plain));
    app.last_error = Some("/d/a/.venv: denied".to_string());
    assert_eq!(footer_line(&app), ("Error: /d/a/.venv: denied".to_string(), FooterTone::Alert));
}

#[test]
fn largest_size_is_at_least_one() {
    assert_eq!(largest_size(&vec![]), 1);
    assert_eq!(largest_size(&vec![project("a", 0, false)]), 1);
    assert_eq!(largest_size(&vec![project("a", 5, false), project("b", 9, false)]), 9);
}

#[test]
fn row_headers() {
    assert_eq!(row_header(&project("a", 1, false), "2024-11-20"), "[ ] /d/a (2024-11-20)");
    assert_eq!(row_header(&project("b", 1, true), "2024-10-05"), "[x] /d/b (2024-10-05)");
}

#[test]
fn modified_date_has_calendar_shape() {
    let d = modified_date(1_725_029_869 * 1_000_000_000).expect("date in range");
    assert_eq!(d.len(), 10);
    assert!(d.starts_with("2024-08-"));
    assert!(modified_date(0).is_some());
}

fn looks_like_day(s: &str) -> bool {
    let b = s.as_bytes();
    let n = b.len();
    n >= 10
        && b[n - 6] == b'-'
        && b[n - 3] == b'-'
        && (1..=12).contains(&s[n - 5..n - 3].parse::<u32>().unwrap_or(0))
        && (1..=31).contains(&s[n - 2..].parse::<u32>().unwrap_or(0))
}

#[test]
fn modified_date_far_from_epoch() {
    let nanos: i128 = 1_000_000_000;
    for secs in [0i128, -1, 86_399, -62_135_596_800, 253_402_300_800, 7_999_999_999_999, -8_000_000_000_000] {
        let d = modified_date(secs * nanos).expect("date within the bound");
        assert!(looks_like_day(&d), "{}", d);
    }
    let far = modified_date(7_999_999_999_999 * nanos).unwrap();
    assert!(far.starts_with('+'), "{}", far);
    let before = modified_date(-8_000_000_000_000 * nanos).unwrap();
    assert!(before.starts_with('-'), "{}", before);
}

#[test]
fn modified_date_is_within_a_day_of_utc() {
    let nanos: i128 = 1_000_000_000;
    for secs in [0i64, 86_399, 1_725_029_869, -1, -62_135_596_800, 253_402_300_799] {
        let shown = modified_date(secs as i128 * nanos).unwrap();
        let candidates: Vec<String> = [-86_399i64, 0, 86_399]
            .iter()
            .map(|o| {
                chrono::DateTime::from_timestamp(secs + o, 0)
                    .unwrap()
                    .format("%Y-%m-%d")
                    .to_string()
            })
            .collect();
        assert!(candidates.contains(&shown), "{} {:?}", shown, candidates);
    }
    assert_eq!(
        chrono::DateTime::from_timestamp(-62_135_596_800 - 86_400, 0).unwrap().format("%Y-%m-%d").to_string(),
        "0000-12-31"
    );
}
