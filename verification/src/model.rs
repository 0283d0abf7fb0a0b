//! The data the tool works on: a project with its virtual environment, the
//! application state, the keys it reacts to and the effects it asks for.

use vstd::prelude::*;

verus! {

/// A Python project whose `.venv` is listed for deletion.
///
/// `last_modified` is the newest modification time found in the project,
/// in nanoseconds since the Unix epoch (negative before it).
#[derive(Clone, Debug)]
pub struct Project {
    pub path: String,
    pub venv_path: String,
    pub last_modified: i128,
    pub venv_size: u64,
    pub selected: bool,
}

impl Project {
    /// A project as a scan finds it: listed without a mark.
    pub fn unmarked(path: String, venv_path: String, last_modified: i128, venv_size: u64) -> (p: Project)
        ensures
            p == (Project { path, venv_path, last_modified, venv_size, selected: false }),
    {
        Project { path, venv_path, last_modified, venv_size, selected: false }
    }
}

/// The state of the application between two key presses.
pub struct App {
    pub items: Vec<Project>,
    pub index: usize,
    pub confirm: bool,
    pub input: String,
    pub input_mode: bool,
    pub suggestions: Vec<String>,
    pub suggestion_index: Option<usize>,
    pub suggestion_scroll_offset: usize,
    pub scroll_offset: usize,
    pub last_error: Option<String>,
}

/// The mathematical model of [`App`]: strings are taken by their characters.
pub struct AppState {
    pub items: Seq<Project>,
    pub index: usize,
    pub confirm: bool,
    pub input: Seq<char>,
    pub input_mode: bool,
    pub suggestions: Seq<Seq<char>>,
    pub suggestion_index: Option<usize>,
    pub suggestion_scroll_offset: usize,
    pub scroll_offset: usize,
    pub last_error: Option<Seq<char>>,
}

pub open spec fn opt_string_view(s: Option<String>) -> Option<Seq<char>> {
    match s {
        Some(t) => Some(t@),
        None => None,
    }
}

pub open spec fn strings_view(v: Seq<String>) -> Seq<Seq<char>> {
    v.map_values(|s: String| s@)
}

impl View for App {
    type V = AppState;

    open spec fn view(&self) -> AppState {
        AppState {
            items: self.items@,
            index: self.index,
            confirm: self.confirm,
            input: self.input@,
            input_mode: self.input_mode,
            suggestions: strings_view(self.suggestions@),
            suggestion_index: self.suggestion_index,
            suggestion_scroll_offset: self.suggestion_scroll_offset,
            scroll_offset: self.scroll_offset,
            last_error: opt_string_view(self.last_error),
        }
    }
}

/// A key press, as far as the application tells keys apart.
#[derive(Clone, Copy, Debug, PartialEq, Eq, Structural)]
pub enum Key {
    Enter,
    Esc,
    Backspace,
    Tab,
    Down,
    Up,
    Char(char),
    Other,
}

/// What the program around the state machine has to do after a key press.
#[derive(Clone, Copy, Debug, PartialEq, Eq, Structural)]
pub enum Effect {
    /// Nothing beyond redrawing.
    Continue,
    /// Leave the application.
    Quit,
    /// Recompute the completion candidates for the current input.
    RefreshSuggestions,
    /// Scan the directory named by the input and replace the listed projects.
    Rescan,
    /// Delete the virtual environments of the selected projects, then report
    /// the outcome through `App::delete_selected`.
    DeleteSelected,
}

/// The projects that are marked for deletion, in list order.
pub open spec fn selected_items(items: Seq<Project>) -> Seq<Project> {
    items.filter(|p: Project| p.selected)
}

/// The projects that are not marked for deletion, in list order.
pub open spec fn unselected_items(items: Seq<Project>) -> Seq<Project> {
    items.filter(|p: Project| !p.selected)
}

/// The sum of the environment sizes of the given projects.
pub open spec fn size_sum(items: Seq<Project>) -> nat
    decreases items.len(),
{
    if items.len() == 0 {
        0
    } else {
        size_sum(items.drop_last()) + items.last().venv_size as nat
    }
}

/// Whether every project is marked (true of an empty list).
pub open spec fn all_selected(items: Seq<Project>) -> bool {
    forall|i: int| 0 <= i < items.len() ==> #[trigger] items[i].selected
}

/// The project with its mark flipped.
pub open spec fn toggled(p: Project) -> Project {
    Project { selected: !p.selected, ..p }
}

/// Every project with its mark set to `value`.
pub open spec fn with_all_marks(items: Seq<Project>, value: bool) -> Seq<Project> {
    items.map_values(|p: Project| Project { selected: value, ..p })
}

} // verus!
