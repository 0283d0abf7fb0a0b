//! What the screen shows: sizes as text, the size bars and their colours,
//! which rows of the list are visible, and the titles and footer lines.

use vstd::prelude::*;
use crate::text::push_char;
use crate::model::{App, Project, selected_items, size_sum};

verus! {

/// The character of a decimal digit.
pub open spec fn digit_char(d: nat) -> char {
    if d == 0 { '0' }
    else if d == 1 { '1' }
    else if d == 2 { '2' }
    else if d == 3 { '3' }
    else if d == 4 { '4' }
    else if d == 5 { '5' }
    else if d == 6 { '6' }
    else if d == 7 { '7' }
    else if d == 8 { '8' }
    else { '9' }
}

/// The decimal notation of a number, without leading zeros.
pub open spec fn decimal(n: nat) -> Seq<char>
    decreases n,
{
    if n < 10 {
        seq![digit_char(n)]
    } else {
        decimal(n / 10).push(digit_char(n % 10))
    }
}

fn digit(d: u64) -> (c: char)
    requires
        d < 10,
    ensures
        c == digit_char(d as nat),
{
    if d == 0 { '0' }
    else if d == 1 { '1' }
    else if d == 2 { '2' }
    else if d == 3 { '3' }
    else if d == 4 { '4' }
    else if d == 5 { '5' }
    else if d == 6 { '6' }
    else if d == 7 { '7' }
    else if d == 8 { '8' }
    else { '9' }
}

/// Appends the decimal notation of `n`.
fn push_decimal(s: &mut String, n: u64)
    ensures
        final(s)@ == old(s)@ + decimal(n as nat),
    decreases n,
{
    if n < 10 {
        push_char(s, digit(n));
        assert(old(s)@.push(digit_char(n as nat)) =~= old(s)@ + decimal(n as nat));
    } else {
        push_decimal(s, n / 10);
        push_char(s, digit(n % 10));
        assert(old(s)@ + decimal((n / 10) as nat) + seq![digit_char((n % 10) as nat)]
            =~= old(s)@ + decimal(n as nat));
    }
}

/// The decimal notation of a number.
pub fn decimal_text(n: u64) -> (text: String)
    ensures
        text@ == decimal(n as nat),
{
    let mut text = String::new();
    push_decimal(&mut text, n);
    assert(Seq::<char>::empty() + decimal(n as nat) =~= decimal(n as nat));
    text
}

/// Bytes in a mebibyte.
pub const MB: u64 = 1024 * 1024;

/// Bytes in a gibibyte.
pub const GB: u64 = 1024 * MB;

/// The largest count that a double holds exactly together with every
/// smaller one: 2 to the 53rd.
pub const DOUBLE_EXACT_LIMIT: u64 = 0x20_0000_0000_0000;

/// Two to the power `e`.
pub open spec fn two_to(e: nat) -> nat
    decreases e,
{
    if e == 0 {
        1
    } else {
        2 * two_to((e - 1) as nat)
    }
}

/// `x / y` rounded to the nearest whole number, a tie going to the even
/// neighbour.
pub open spec fn rounded_div(x: nat, y: nat) -> nat {
    let q = x / y;
    let r = x % y;
    if 2 * r > y {
        q + 1
    } else if 2 * r < y {
        q
    } else if q % 2 == 0 {
        q
    } else {
        q + 1
    }
}

/// The least exponent `e`, from `start` on, by which `n` must be scaled down
/// to fit the 53 bits of a double's significand.
pub open spec fn double_scale(n: nat, start: nat) -> nat
    decreases 64 - start,
{
    if start >= 64 || n / two_to(start) < DOUBLE_EXACT_LIMIT {
        start
    } else {
        double_scale(n, start + 1)
    }
}

/// The value of the double nearest to `n` (ties to even), as `n as f64`
/// gives it for a `u64`.
pub open spec fn as_double(n: nat) -> nat {
    let p = two_to(double_scale(n, 0));
    rounded_div(n, p) * p
}

/// A count of hundredths written with two decimals.
pub open spec fn two_decimals(h: nat) -> Seq<char> {
    decimal(h / 100) + seq!['.', digit_char((h / 10) % 10), digit_char(h % 10)]
}

/// A size as the list shows it: gibibytes with two decimals from one
/// gibibyte on, whole mebibytes (the nearest, a tie going to the even one)
/// from one mebibyte on, else whole kibibytes (rounded down). The gibibyte
/// decimals are those of the double nearest to the size, rounded half to
/// even, as `format!("{:.2}", ...)` writes them.
pub open spec fn size_text(bytes: nat) -> Seq<char> {
    if bytes >= GB {
        two_decimals(rounded_div(as_double(bytes) * 100, GB as nat)) + " GB"@
    } else if bytes >= MB {
        decimal(rounded_div(bytes, MB as nat)) + " MB"@
    } else {
        decimal(bytes / 1024) + " KB"@
    }
}

fn rounded_quotient(x: u128, y: u128) -> (q: u128)
    requires
        y > 0,
        x / y < u128::MAX,
    ensures
        q == rounded_div(x as nat, y as nat),
{
    let q = x / y;
    let r = x % y;
    if r > y - r {
        q + 1
    } else if r < y - r {
        q
    } else if q % 2 == 0 {
        q
    } else {
        q + 1
    }
}

proof fn lemma_two_to_positive(e: nat)
    ensures
        two_to(e) >= 1,
    decreases e,
{
    if e > 0 {
        lemma_two_to_positive((e - 1) as nat);
    }
}

/// The value of `n as f64`, exactly.
fn double_value(n: u64) -> (v: u128)
    ensures
        v == as_double(n as nat),
        v <= 0x1_0000_0000_0000_0000,
{
    let mut e: u64 = 0;
    let mut p: u64 = 1;
    proof {
        reveal_with_fuel(two_to, 12);
    }
    while n / p >= DOUBLE_EXACT_LIMIT
        invariant
            p == two_to(e as nat),
            1 <= p,
            e <= 11,
            p * two_to((11 - e) as nat) == 2048,
            double_scale(n as nat, 0) == double_scale(n as nat, e as nat),
        decreases 11 - e,
    {
        proof {
            lemma_two_to_positive((11 - e) as nat);
        }
        assert(p * DOUBLE_EXACT_LIMIT <= n) by (nonlinear_arith)
            requires
                n / p >= DOUBLE_EXACT_LIMIT,
                p >= 1,
        ;
        assert(p < 2048) by (nonlinear_arith)
            requires
                p * DOUBLE_EXACT_LIMIT <= n,
                n <= u64::MAX,
        ;
        proof {
            if e == 11 {
                assert(two_to((11 - e) as nat) == 1);
                assert(p == 2048) by (nonlinear_arith)
                    requires
                        p * two_to((11 - e) as nat) == 2048,
                        two_to((11 - e) as nat) == 1,
                ;
            }
            assert(e < 11);
            lemma_two_to_positive((10 - e) as nat);
            assert(two_to((11 - e) as nat) == 2 * two_to((10 - e) as nat));
            assert(p <= 1024) by (nonlinear_arith)
                requires
                    p * two_to((11 - e) as nat) == 2048,
                    two_to((11 - e) as nat) == 2 * two_to((10 - e) as nat),
                    two_to((10 - e) as nat) >= 1,
            ;
            assert(2 * p * two_to((10 - e) as nat) == 2048) by (nonlinear_arith)
                requires
                    p * two_to((11 - e) as nat) == 2048,
                    two_to((11 - e) as nat) == 2 * two_to((10 - e) as nat),
            ;
        }
        e = e + 1;
        p = p * 2;
    }
    proof {
        lemma_two_to_positive((11 - e) as nat);
        assert(p <= 2048) by (nonlinear_arith)
            requires
                p * two_to((11 - e) as nat) == 2048,
                two_to((11 - e) as nat) >= 1,
        ;
    }
    let q = rounded_quotient(n as u128, p as u128);
    assert(q <= (n as nat) / (p as nat) + 1);
    assert((n as nat) / (p as nat) < DOUBLE_EXACT_LIMIT);
    assert(q * (p as u128) <= 0x1_0000_0000_0000_0000) by (nonlinear_arith)
        requires
            q <= DOUBLE_EXACT_LIMIT,
            p <= 2048,
    ;
    q * (p as u128)
}

/// A size as the list shows it; see [`size_text`].
pub fn size_label(bytes: u64) -> (label: String)
    ensures
        label@ == size_text(bytes as nat),
{
    let mut label = String::new();
    if bytes >= GB {
        let v = double_value(bytes);
        let h = rounded_quotient(v * 100, GB as u128);
        assert(h <= 0x100_0000_0000_0000) by (nonlinear_arith)
            requires
                h <= (v as int * 100) / (GB as int) + 1,
                v <= 0x1_0000_0000_0000_0000,
                GB == 0x4000_0000,
        ;
        let h = h as u64;
        push_decimal(&mut label, h / 100);
        push_char(&mut label, '.');
        push_char(&mut label, digit((h / 10) % 10));
        push_char(&mut label, digit(h % 10));
        label.append(" GB");
    } else if bytes >= MB {
        let h = rounded_quotient(bytes as u128, MB as u128);
        assert(h <= 0x1_0000) by (nonlinear_arith)
            requires
                h <= (bytes as int) / (MB as int) + 1,
                bytes < GB,
                GB == 0x4000_0000,
                MB == 0x10_0000,
        ;
        push_decimal(&mut label, h as u64);
        label.append(" MB");
    } else {
        push_decimal(&mut label, bytes / 1024);
        label.append(" KB");
    }
    label
}

/// The colour of a size bar.
#[derive(Clone, Copy, Debug, PartialEq, Eq, Structural)]
pub enum BarColor {
    Red,
    Yellow,
    Green,
}

/// The colour of the bar of an environment of `size` bytes: red from
/// 500 MB on, yellow from 100 MB on, green below.
pub open spec fn bar_color_of(size: nat) -> BarColor {
    if size >= 500 * MB {
        BarColor::Red
    } else if size >= 100 * MB {
        BarColor::Yellow
    } else {
        BarColor::Green
    }
}

/// The colour of the bar of an environment of `size` bytes.
pub fn bar_color(size: u64) -> (color: BarColor)
    ensures
        color == bar_color_of(size as nat),
{
    if size >= 500 * MB {
        BarColor::Red
    } else if size >= 100 * MB {
        BarColor::Yellow
    } else {
        BarColor::Green
    }
}

/// The number of cells of a size bar.
pub const BAR_WIDTH: usize = 20;

/// The filled and empty cells of the bar of an environment of `size` bytes
/// when the largest listed environment has `largest` bytes: the filled
/// share is `size / largest` of the bar, rounded down. `size * 20` must fit a
/// `u64`, and the filled share may not exceed the bar, as it does not when
/// `size` is at most `largest`.
pub fn bar_cells(size: u64, largest: u64) -> (cells: (usize, usize))
    requires
        largest >= 1,
        size * 20 <= u64::MAX,
        (size * 20) / (largest as int) <= 20,
    ensures
        cells.0 == (size as nat * 20) / (largest as nat),
        cells.0 + cells.1 == BAR_WIDTH,
{
    let filled = size * 20 / largest;
    let filled = filled as usize;
    (filled, BAR_WIDTH - filled)
}

/// The size the bars are scaled to: the largest listed environment, and at
/// least one byte.
pub fn largest_size(items: &Vec<Project>) -> (largest: u64)
    ensures
        largest >= 1,
        forall|i: int| 0 <= i < items@.len() ==> #[trigger] items@[i].venv_size <= largest,
        largest == 1 || exists|i: int| 0 <= i < items@.len() && #[trigger] items@[i].venv_size == largest,
{
    let mut largest: u64 = 1;
    let mut i: usize = 0;
    while i < items.len()
        invariant
            i <= items@.len(),
            largest >= 1,
            forall|j: int| 0 <= j < i ==> #[trigger] items@[j].venv_size <= largest,
            largest == 1 || exists|j: int| 0 <= j < items@.len() && #[trigger] items@[j].venv_size == largest,
        decreases items@.len() - i,
    {
        if items[i].venv_size > largest {
            largest = items[i].venv_size;
        }
        i = i + 1;
    }
    largest
}

/// The rows of the list that fit an area `height` lines high: two lines go
/// to the border and each project takes two lines.
pub open spec fn rows_in(height: nat) -> nat {
    if height >= 2 { ((height - 2) / 2) as nat } else { 0 }
}

/// The part of the list that is drawn.
#[derive(Clone, Copy, Debug, PartialEq, Eq, Structural)]
pub struct ListWindow {
    /// How many rows fit.
    pub visible: usize,
    /// The first row drawn.
    pub start: usize,
    /// One past the last row drawn.
    pub end: usize,
}

/// The rows drawn for a list of `len` projects in an area `height` lines
/// high whose first visible row is `scroll_offset`. The first visible row
/// may not lie past the end of the list, and `scroll_offset` plus the rows
/// that fit must be a `usize`.
pub fn list_window(height: u16, scroll_offset: usize, len: usize) -> (window: ListWindow)
    requires
        scroll_offset <= len,
        scroll_offset + rows_in(height as nat) <= usize::MAX,
    ensures
        window.visible == rows_in(height as nat),
        window.start == scroll_offset,
        window.end == if scroll_offset + window.visible < len { scroll_offset + window.visible } else { len as int },
        window.start <= window.end <= len,
{
    let h = height as usize;
    let visible = if h >= 2 { (h - 2) / 2 } else { 0 };
    let sum = scroll_offset + visible;
    let end = if sum < len { sum } else { len };
    ListWindow { visible, start: scroll_offset, end }
}

/// The rows of the list shown on a terminal `height` lines high, at least
/// one: six lines go to the scan root and the footer.
pub open spec fn visible_rows_for(height: nat) -> nat {
    let list_height: nat = if height >= 6 { (height - 6) as nat } else { 0 };
    let rows = rows_in(list_height);
    if rows >= 1 { rows } else { 1 }
}

/// The rows of the list shown on a terminal `height` lines high, at least
/// one; the cursor is kept among them.
pub fn visible_rows(height: u16) -> (rows: usize)
    ensures
        rows == visible_rows_for(height as nat),
{
    let h = height as usize;
    let list_height = if h >= 6 { h - 6 } else { 0 };
    let rows = if list_height >= 2 { (list_height - 2) / 2 } else { 0 };
    if rows >= 1 { rows } else { 1 }
}

/// The height of the list of candidates under the scan root: the candidates
/// plus the border, counted in a `u16` as the drawing does, and at most ten
/// lines.
pub open spec fn popup_height_for(count: nat) -> nat {
    let lines = (count % 65536) + 2;
    if lines < 10 { lines } else { 10 }
}

/// The height of the list of candidates. The candidate count, taken modulo
/// 65536, plus two must fit a `u16`.
pub fn popup_height(count: usize) -> (height: u16)
    requires
        (count as nat % 65536) + 2 <= u16::MAX,
    ensures
        height == popup_height_for(count as nat),
{
    let low = (count % 65536) as u16;
    let lines = low + 2;
    if lines < 10 { lines } else { 10 }
}

/// The note on the list title that tells which rows are drawn, when not all
/// of them fit: `"  [first-last/count]"`, counting from one.
pub open spec fn scroll_note(len: nat, window: ListWindow) -> Seq<char> {
    if len > window.visible && window.visible > 0 {
        "  ["@ + decimal(window.start as nat + 1) + "-"@ + decimal(window.end as nat) + "/"@ + decimal(len) + "]"@
    } else {
        Seq::empty()
    }
}

/// The title of the list: how many projects are marked out of how many, how
/// much their deletion frees, and which rows are drawn.
pub open spec fn list_title_text(count: nat, len: nat, total: nat, window: ListWindow) -> Seq<char> {
    "uv venv cleaner  ["@ + decimal(count) + "/"@ + decimal(len) + " selected  "@ + (if total > 0 {
        size_text(total) + " to free"@
    } else {
        "none selected"@
    }) + "]"@ + scroll_note(len, window)
}

/// The title of the list. The total size of the marked environments must
/// fit a `u64`.
pub fn list_title(app: &App, window: ListWindow) -> (title: String)
    requires
        size_sum(selected_items(app.items@)) <= u64::MAX,
        app.items@.len() > window.visible && window.visible > 0 ==> window.start < usize::MAX,
    ensures
        title@ == list_title_text(
            selected_items(app.items@).len(),
            app.items@.len(),
            size_sum(selected_items(app.items@)),
            window,
        ),
{
    let count = app.selected_count();
    let len = app.items.len();
    let total = app.selected_total();
    let mut title = "uv venv cleaner  [".to_owned();
    push_decimal(&mut title, count as u64);
    title.append("/");
    push_decimal(&mut title, len as u64);
    title.append(" selected  ");
    if total > 0 {
        let size = size_label(total);
        title.append(size.as_str());
        title.append(" to free");
    } else {
        title.append("none selected");
    }
    title.append("]");
    if len > window.visible && window.visible > 0 {
        title.append("  [");
        push_decimal(&mut title, (window.start + 1) as u64);
        title.append("-");
        push_decimal(&mut title, window.end as u64);
        title.append("/");
        push_decimal(&mut title, len as u64);
        title.append("]");
    }
    title
}

/// The help line of list mode.
pub open spec fn list_help() -> Seq<char> {
    "↑↓: move  Space: select  a: all/none  d: delete  Tab: edit path  q: quit"@
}

/// The help line while the scan root is edited.
pub open spec fn edit_help() -> Seq<char> {
    "Type path  Tab/↓: next suggest  ↑: prev  Enter: apply/scan  Esc: cancel"@
}

/// How the footer line is shown.
#[derive(Clone, Copy, Debug, PartialEq, Eq, Structural)]
pub enum FooterTone {
    /// In the colour of errors.
    Alert,
    /// In the ordinary colour.
    Plain,
}

/// The footer line: the last error if there is one, else the confirmation
/// question if a deletion waits for it, else the help of the current mode.
pub open spec fn footer_text(s: crate::model::AppState) -> (Seq<char>, FooterTone) {
    match s.last_error {
        Some(e) => ("Error: "@ + e, FooterTone::Alert),
        None => if s.confirm {
            (
                "Delete "@ + decimal(selected_items(s.items).len()) + " items ("@ + size_text(
                    size_sum(selected_items(s.items)),
                ) + ")? (y/n)"@,
                FooterTone::Plain,
            )
        } else if s.input_mode {
            (edit_help(), FooterTone::Plain)
        } else {
            (list_help(), FooterTone::Plain)
        },
    }
}

/// The number of marked projects, counted one by one.
pub open spec fn marked_count(items: Seq<Project>) -> nat
    decreases items.len(),
{
    if items.len() == 0 {
        0
    } else {
        marked_count(items.drop_last()) + if items.last().selected { 1nat } else { 0nat }
    }
}

proof fn lemma_marked_count_is_selected_len(items: Seq<Project>)
    ensures
        marked_count(items) == selected_items(items).len(),
        marked_count(items) <= items.len(),
    decreases items.len(),
{
    if items.len() > 0 {
        lemma_marked_count_is_selected_len(items.drop_last());
        assert(items.drop_last().push(items.last()) =~= items);
        items.drop_last().lemma_filter_push(items.last(), |p: Project| p.selected);
    }
}

/// The confirmation question counts the marked projects, not the listed
/// ones, and gives the size their deletion frees: with no error to show and
/// a deletion waiting, the footer reads `Delete n items (size)? (y/n)`
/// where `n` is the number of marked projects.
pub proof fn law_confirmation_counts_marked_projects(s: crate::model::AppState)
    requires
        s.last_error is None,
        s.confirm,
    ensures
        footer_text(s).0 == "Delete "@ + decimal(marked_count(s.items)) + " items ("@ + size_text(
            size_sum(selected_items(s.items)),
        ) + ")? (y/n)"@,
        footer_text(s).1 == FooterTone::Plain,
        marked_count(s.items) <= s.items.len(),
{
    lemma_marked_count_is_selected_len(s.items);
}

/// The footer line and how it is shown. When the confirmation question is
/// shown, the total size of the marked environments must fit a `u64`.
pub fn footer_line(app: &App) -> (line: (String, FooterTone))
    requires
        app.last_error is None && app.confirm ==> size_sum(selected_items(app.items@)) <= u64::MAX,
    ensures
        (line.0@, line.1) == footer_text(app@),
        app.last_error is None && app.confirm ==> line.0@ == "Delete "@ + decimal(marked_count(app.items@))
            + " items ("@ + size_text(size_sum(selected_items(app.items@))) + ")? (y/n)"@,
{
    proof {
        lemma_marked_count_is_selected_len(app.items@);
    }
    match &app.last_error {
        Some(e) => {
            let mut text = "Error: ".to_owned();
            text.append(e.as_str());
            (text, FooterTone::Alert)
        },
        None => {
            if app.confirm {
                let count = app.selected_count();
                let total = app.selected_total();
                let mut text = "Delete ".to_owned();
                push_decimal(&mut text, count as u64);
                text.append(" items (");
                let size = size_label(total);
                text.append(size.as_str());
                text.append(")? (y/n)");
                (text, FooterTone::Plain)
            } else if app.input_mode {
                ("Type path  Tab/↓: next suggest  ↑: prev  Enter: apply/scan  Esc: cancel".to_owned(), FooterTone::Plain)
            } else {
                ("↑↓: move  Space: select  a: all/none  d: delete  Tab: edit path  q: quit".to_owned(), FooterTone::Plain)
            }
        },
    }
}

/// The title of the scan root box, which tells the keys of the current mode.
pub open spec fn scan_root_title_text(input_mode: bool) -> Seq<char> {
    if input_mode {
        "Scan root  [Enter: apply/scan  Tab/↑↓: suggest  Esc: cancel]"@
    } else {
        "Scan root  [Tab: edit]"@
    }
}

/// The title of the scan root box.
pub fn scan_root_title(input_mode: bool) -> (title: String)
    ensures
        title@ == scan_root_title_text(input_mode),
{
    if input_mode {
        "Scan root  [Enter: apply/scan  Tab/↑↓: suggest  Esc: cancel]".to_owned()
    } else {
        "Scan root  [Tab: edit]".to_owned()
    }
}

/// The first line of a project's row: its check box, its path and the date
/// of its last modification.
pub open spec fn row_header_text(p: Project, date: Seq<char>) -> Seq<char> {
    (if p.selected { "[x]"@ } else { "[ ]"@ }) + " "@ + p.path@ + " ("@ + date + ")"@
}

/// The first line of a project's row, given the date to show.
pub fn row_header(p: &Project, date: &str) -> (header: String)
    ensures
        header@ == row_header_text(*p, date@),
{
    let mut header = if p.selected { "[x]".to_owned() } else { "[ ]".to_owned() };
    header.append(" ");
    header.append(p.path.as_str());
    header.append(" (");
    header.append(date);
    header.append(")");
    header
}

/// Whether `y` is a leap year of the proleptic Gregorian calendar.
pub open spec fn is_leap_year(y: int) -> bool {
    y % 4 == 0 && (y % 100 != 0 || y % 400 == 0)
}

/// The number of days of month `m` of year `y`.
pub open spec fn days_in_month(y: int, m: int) -> int {
    if m == 2 {
        if is_leap_year(y) { 29 } else { 28 }
    } else if m == 4 || m == 6 || m == 9 || m == 11 {
        30
    } else {
        31
    }
}

/// Whether year `y`, month `m`, day `d` is a date of the calendar.
pub open spec fn is_calendar_date(y: int, m: int, d: int) -> bool {
    1 <= m <= 12 && 1 <= d <= days_in_month(y, m)
}

/// The number of leap years among the years 1 to `n`, counted negatively
/// (years `n + 1` to 0) when `n` is below zero.
pub open spec fn leap_years_through(n: int) -> int {
    n / 4 - n / 100 + n / 400
}

/// The number of days from 1 January 1970 to 1 January of year `y`
/// (negative before 1970).
pub open spec fn days_before_year(y: int) -> int {
    365 * (y - 1970) + leap_years_through(y - 1) - leap_years_through(1969)
}

/// The number of days of the year before the first of month `m`.
pub open spec fn days_before_month(y: int, m: int) -> int {
    let common: int = if m == 1 { 0 }
        else if m == 2 { 31 }
        else if m == 3 { 59 }
        else if m == 4 { 90 }
        else if m == 5 { 120 }
        else if m == 6 { 151 }
        else if m == 7 { 181 }
        else if m == 8 { 212 }
        else if m == 9 { 243 }
        else if m == 10 { 273 }
        else if m == 11 { 304 }
        else { 334 };
    common + if m > 2 && is_leap_year(y) { 1int } else { 0int }
}

/// The number of the day `y`-`m`-`d`, counting 1 January 1970 as day 0.
pub open spec fn day_number(y: int, m: int, d: int) -> int {
    days_before_year(y) + days_before_month(y, m) + d - 1
}

/// The day, counted from 1 January 1970 as day 0, on which the moment
/// `secs` seconds after the epoch falls at a clock `offset` seconds ahead of
/// UTC.
pub open spec fn day_at_offset(secs: int, offset: int) -> int {
    (secs + offset) / 86_400
}

/// A decimal number padded with zeros to four digits.
pub open spec fn four_digits(n: nat) -> Seq<char> {
    let s = decimal(n);
    if s.len() >= 4 {
        s
    } else {
        Seq::new((4 - s.len()) as nat, |i: int| '0') + s
    }
}

/// A year as `%Y` writes it: four digits, zero-padded, for the years 0 to
/// 9999; a plus sign and the digits after 9999; a minus sign and at least
/// four digits before year 0.
pub open spec fn year_text(y: int) -> Seq<char> {
    if 0 <= y <= 9999 {
        four_digits(y as nat)
    } else if y > 9999 {
        seq!['+'] + decimal(y as nat)
    } else {
        seq!['-'] + four_digits((-y) as nat)
    }
}

/// A number below 100 written with two digits.
pub open spec fn two_digits(n: int) -> Seq<char> {
    seq![digit_char((n / 10) as nat), digit_char((n % 10) as nat)]
}

/// A date as `%Y-%m-%d` writes it.
pub open spec fn date_text(y: int, m: int, d: int) -> Seq<char> {
    year_text(y) + "-"@ + two_digits(m) + "-"@ + two_digits(d)
}

/// Whether `text` is the date, written `%Y-%m-%d`, of the moment `secs`
/// seconds after the epoch on a clock that is off UTC by less than a day:
/// some offset `o` with |o| < 86400 seconds makes the moment fall on that
/// date.
pub open spec fn is_local_date_of(text: Seq<char>, secs: int) -> bool {
    exists|o: int, y: int, m: int, d: int|
        #![trigger day_at_offset(secs, o), date_text(y, m, d)]
        -86_400 < o < 86_400 && is_calendar_date(y, m, d) && day_number(y, m, d) == day_at_offset(secs, o)
            && text == date_text(y, m, d)
}

/// A bound on whole seconds since the epoch that keeps a moment, in any time
/// zone, well inside the years -262144 to 262143 that `chrono` supports: it
/// is about 253,000 years.
pub const DATE_SECONDS_BOUND: i64 = 8_000_000_000_000;

/// `chrono`: the date, as `%Y-%m-%d` in the local time zone, of the moment
/// `secs` seconds and `nanos` nanoseconds after the epoch, via
/// `DateTime::from_timestamp` and `with_timezone(&Local)`. `from_timestamp`
/// is documented to give `None` only for out-of-range seconds or an invalid
/// nanosecond count, and the years it supports run from -262144 to 262143.
/// The dates are those of the proleptic Gregorian calendar; the local clock
/// is UTC shifted by the zone's `FixedOffset`, which lies strictly within a
/// day; the `strftime` table documents `%Y` as four zero-padded digits, with
/// a sign before year 0 and after 9999, and `%m`, `%d` as two digits. Which
/// offset the machine's time zone gives is not stated.
#[verifier::external_body]
fn local_date(secs: i64, nanos: u32) -> (date: Option<String>)
    ensures
        (nanos < 1_000_000_000 && -DATE_SECONDS_BOUND <= secs <= DATE_SECONDS_BOUND) ==> date is Some,
        date matches Some(text) ==> is_local_date_of(text@, secs as int),
{
    match chrono::DateTime::from_timestamp(secs, nanos) {
        Some(t) => Some(t.with_timezone(&chrono::Local).format("%Y-%m-%d").to_string()),
        None => None,
    }
}

/// Nanoseconds in a second.
pub const NANOS_PER_SECOND: i128 = 1_000_000_000;

/// The whole seconds (rounded down) and the remaining nanoseconds of a time
/// given in nanoseconds since the epoch.
pub fn split_seconds(t: i128) -> (parts: (i128, u32))
    ensures
        parts.0 * NANOS_PER_SECOND + parts.1 == t,
        parts.1 < NANOS_PER_SECOND,
{
    if t >= 0 {
        let secs = t / NANOS_PER_SECOND;
        let nanos = t % NANOS_PER_SECOND;
        (secs, nanos as u32)
    } else {
        let m = -(t + 1);
        let secs = -(m / NANOS_PER_SECOND) - 1;
        let nanos = NANOS_PER_SECOND - 1 - m % NANOS_PER_SECOND;
        (secs, nanos as u32)
    }
}

/// Whether a time, in nanoseconds since the epoch, lies in whole seconds
/// within [`DATE_SECONDS_BOUND`] of the epoch.
pub open spec fn has_local_date(t: i128) -> bool {
    -(DATE_SECONDS_BOUND as int) * NANOS_PER_SECOND <= t < (DATE_SECONDS_BOUND as int + 1) * NANOS_PER_SECOND
}

/// The local date of a modification time `t` (nanoseconds since the epoch),
/// as the list shows it: the `%Y-%m-%d` date on which the whole second of
/// `t` falls on the machine's clock, which is off UTC by less than a day; or
/// `None` where the time lies outside the dates that `chrono` handles. There
/// is a date for every time within [`DATE_SECONDS_BOUND`] seconds of the
/// epoch. The seconds of the time must fit an `i64`, as those of a
/// `SystemTime` do.
pub fn modified_date(t: i128) -> (date: Option<String>)
    requires
        i64::MIN * NANOS_PER_SECOND <= t < (i64::MAX + 1) * NANOS_PER_SECOND,
    ensures
        has_local_date(t) ==> date is Some,
        date matches Some(text) ==> is_local_date_of(text@, t / NANOS_PER_SECOND),
{
    let (secs, nanos) = split_seconds(t);
    proof {
        vstd::arithmetic::div_mod::lemma_fundamental_div_mod_converse(
            t as int,
            NANOS_PER_SECOND as int,
            secs as int,
            nanos as int,
        );
    }
    assert(i64::MIN <= secs <= i64::MAX) by (nonlinear_arith)
        requires
            secs * NANOS_PER_SECOND + nanos == t,
            0 <= nanos < NANOS_PER_SECOND,
            i64::MIN * NANOS_PER_SECOND <= t < (i64::MAX + 1) * NANOS_PER_SECOND,
            NANOS_PER_SECOND == 1_000_000_000,
    ;
    assert(has_local_date(t) ==> -(DATE_SECONDS_BOUND as int) <= secs <= DATE_SECONDS_BOUND) by (nonlinear_arith)
        requires
            secs * NANOS_PER_SECOND + nanos == t,
            0 <= nanos < NANOS_PER_SECOND,
            NANOS_PER_SECOND == 1_000_000_000,
            DATE_SECONDS_BOUND == 8_000_000_000_000,
    ;
    local_date(secs as i64, nanos)
}

} // verus!
