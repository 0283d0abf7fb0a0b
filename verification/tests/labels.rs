use uvcleaner::ui::{
    bar_cells, bar_color, decimal_text, list_window, popup_height, scan_root_title, size_label,
    split_seconds, visible_rows, BarColor, ListWindow,
};

const MB: u64 = 1024 * 1024;

fn float_label(bytes: u64) -> String {
    if bytes >= 1024 * MB {
        format!("{:.2} GB", bytes as f64 / (1024.0 * MB as f64))
    } else if bytes >= MB {
        format!("{:.0} MB", bytes as f64 / MB as f64)
    } else {
        format!("{} KB", bytes / 1024)
    }
}

#[test]
fn size_label_kilobytes() {
    assert_eq!(size_label(0), "0 KB");
    assert_eq!(size_label(1023), "0 KB");
    assert_eq!(size_label(2048), "2 KB");
    assert_eq!(size_label(MB - 1), "1023 KB");
}

#[test]
fn size_label_megabytes() {
    assert_eq!(size_label(MB), "1 MB");
    assert_eq!(size_label(312 * MB), "312 MB");
    assert_eq!(size_label(489 * MB), "489 MB");
    assert_eq!(size_label(MB + MB / 2), "2 MB");
    assert_eq!(size_label(2 * MB + MB / 2), "2 MB");
    assert_eq!(size_label(2 * MB + MB / 2 + 1), "3 MB");
    assert_eq!(size_label(1024 * MB - 1), "1024 MB");
}

#[test]
fn size_label_gigabytes() {
    assert_eq!(size_label(1024 * MB), "1.00 GB");
    assert_eq!(size_label(1536 * MB), "1.50 GB");
    assert_eq!(size_label(u64::MAX), float_label(u64::MAX));
}

#[test]
fn size_label_matches_float_formatting_on_boundaries() {
    let mut values: Vec<u64> = Vec::new();
    for base in [MB, 1024 * MB, 1u64 << 53, 1u64 << 60, u64::MAX / 2] {
        for d in 0..2000u64 {
            values.push(base.saturating_add(d));
            values.push(base.saturating_sub(d));
        }
    }
    // exact ties of the decimal rounding
    for k in 0..4000u64 {
        values.push(k * (1u64 << 20) + (1u64 << 19)); // whole MB, ties
        values.push(k * (1u64 << 28) + (1u64 << 27)); // hundredths of a GB, ties at 1/2
        values.push(k * 10737418 + 5368709);
    }
    let mut x: u64 = 0x9E37_79B9_7F4A_7C15;
    for _ in 0..200000 {
        x = x.wrapping_mul(6364136223846793005).wrapping_add(1442695040888963407);
        values.push(x >> (x % 40));
        values.push(x);
    }
    for v in values {
        assert_eq!(size_label(v), float_label(v), "bytes = {}", v);
    }
}

#[test]
fn size_label_ties_round_to_even() {
    assert_eq!(size_label(3 * MB + MB / 2), float_label(3 * MB + MB / 2));
    assert_eq!(size_label(4 * MB + MB / 2), float_label(4 * MB + MB / 2));
    assert_eq!(size_label(1024 * MB + 1024 * MB / 8), float_label(1024 * MB + 1024 * MB / 8));
}

#[test]
fn decimal_text_writes_digits() {
    assert_eq!(decimal_text(0), "0");
    assert_eq!(decimal_text(7), "7");
    assert_eq!(decimal_text(1200), "1200");
    assert_eq!(decimal_text(u64::MAX), u64::MAX.to_string());
}

#[test]
fn bar_color_thresholds() {
    assert_eq!(bar_color(0), BarColor::Green);
    assert_eq!(bar_color(100 * MB - 1), BarColor::Green);
    assert_eq!(bar_color(100 * MB), BarColor::Yellow);
    assert_eq!(bar_color(500 * MB - 1), BarColor::Yellow);
    assert_eq!(bar_color(500 * MB), BarColor::Red);
}

#[test]
fn bar_cells_scale_to_largest() {
    assert_eq!(bar_cells(0, 1), (0, 20));
    assert_eq!(bar_cells(489, 489), (20, 0));
    assert_eq!(bar_cells(312, 489), (12, 8));
    assert_eq!(bar_cells(1, 3), (6, 14));
}

#[test]
fn list_window_limits_rows() {
    assert_eq!(list_window(12, 0, 3), ListWindow { visible: 5, start: 0, end: 3 });
    assert_eq!(list_window(12, 2, 10), ListWindow { visible: 5, start: 2, end: 7 });
    assert_eq!(list_window(1, 0, 10), ListWindow { visible: 0, start: 0, end: 0 });
    assert_eq!(list_window(7, 4, 4), ListWindow { visible: 2, start: 4, end: 4 });
}

#[test]
fn visible_rows_of_terminal() {
    assert_eq!(visible_rows(0), 1);
    assert_eq!(visible_rows(9), 1);
    assert_eq!(visible_rows(24), 8);
    assert_eq!(visible_rows(25), 8);
    assert_eq!(visible_rows(26), 9);
}

#[test]
fn popup_height_is_capped() {
    assert_eq!(popup_height(0), 2);
    assert_eq!(popup_height(3), 5);
    assert_eq!(popup_height(8), 10);
    assert_eq!(popup_height(100), 10);
    assert_eq!(popup_height(65536), 2);
}

#[test]
fn scan_root_title_by_mode() {
    assert_eq!(scan_root_title(false), "Scan root  [Tab: edit]");
    assert_eq!(scan_root_title(true), "Scan root  [Enter: apply/scan  Tab/↑↓: suggest  Esc: cancel]");
}

#[test]
fn split_seconds_rounds_down() {
    assert_eq!(split_seconds(0), (0, 0));
    assert_eq!(split_seconds(1_500_000_000), (1, 500_000_000));
    assert_eq!(split_seconds(-1), (-1, 999_999_999));
    assert_eq!(split_seconds(-1_000_000_000), (-1, 0));
    assert_eq!(split_seconds(-1_000_000_001), (-2, 999_999_999));
}
