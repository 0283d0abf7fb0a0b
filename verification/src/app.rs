//! The application state machine: what each key does, how the list keeps
//! the cursor in view, and how a deletion is reflected in the state.

use vstd::prelude::*;
use crate::model::{
    App, AppState, Effect, Key, Project, selected_items, unselected_items, size_sum,
    all_selected, toggled, with_all_marks, strings_view,
};
use crate::text::{push_char, pop_char, drop_last_if_any, joined};

verus! {

/// The state right after start-up: the scanned projects, the scan root as the
/// input, the cursor on the first row and nothing else going on.
pub open spec fn initial_state(items: Seq<Project>, root: Seq<char>) -> AppState {
    AppState {
        items: items,
        index: 0,
        confirm: false,
        input: root,
        input_mode: false,
        suggestions: Seq::empty(),
        suggestion_index: None,
        suggestion_scroll_offset: 0,
        scroll_offset: 0,
        last_error: None,
    }
}

/// The effect of a key in list mode.
pub open spec fn normal_step(s: AppState, key: Key) -> (AppState, Effect) {
    match key {
        Key::Tab => (AppState { suggestion_index: None, input_mode: true, ..s }, Effect::RefreshSuggestions),
        Key::Down => (
            if s.index + 1 < s.items.len() { AppState { index: (s.index + 1) as usize, ..s } } else { s },
            Effect::Continue,
        ),
        Key::Up => (
            if s.index > 0 { AppState { index: (s.index - 1) as usize, ..s } } else { s },
            Effect::Continue,
        ),
        Key::Char(c) => {
            if c == 'q' {
                (s, Effect::Quit)
            } else if c == ' ' {
                (
                    AppState {
                        items: if s.index < s.items.len() {
                            s.items.update(s.index as int, toggled(s.items[s.index as int]))
                        } else {
                            s.items
                        },
                        last_error: None,
                        ..s
                    },
                    Effect::Continue,
                )
            } else if c == 'a' {
                (
                    AppState { items: with_all_marks(s.items, !all_selected(s.items)), last_error: None, ..s },
                    Effect::Continue,
                )
            } else if c == 'd' {
                (
                    if selected_items(s.items).len() > 0 { AppState { confirm: true, ..s } } else { s },
                    Effect::Continue,
                )
            } else if c == 'y' {
                if s.confirm {
                    (AppState { confirm: false, ..s }, Effect::DeleteSelected)
                } else {
                    (s, Effect::Continue)
                }
            } else if c == 'n' {
                (AppState { confirm: false, ..s }, Effect::Continue)
            } else {
                (s, Effect::Continue)
            }
        },
        _ => (s, Effect::Continue),
    }
}

/// The inputs on which a list-mode key would overflow the cursor.
pub open spec fn normal_step_overflows(s: AppState, key: Key) -> bool {
    key == Key::Down && s.index == usize::MAX
}

/// The effect of a key while the scan root is being edited.
pub open spec fn input_step(s: AppState, key: Key) -> (AppState, Effect) {
    match key {
        Key::Enter => match s.suggestion_index {
            Some(i) => if i < s.suggestions.len() {
                (AppState { input: s.suggestions[i as int], suggestion_index: None, ..s }, Effect::RefreshSuggestions)
            } else {
                (s, Effect::Continue)
            },
            None => (
                AppState {
                    index: 0,
                    scroll_offset: 0,
                    confirm: false,
                    input_mode: false,
                    suggestions: Seq::empty(),
                    suggestion_index: None,
                    last_error: None,
                    ..s
                },
                Effect::Rescan,
            ),
        },
        Key::Esc => (
            if s.suggestion_index is Some {
                AppState { suggestion_index: None, ..s }
            } else {
                AppState { input_mode: false, suggestions: Seq::empty(), ..s }
            },
            Effect::Continue,
        ),
        Key::Backspace => (
            AppState { input: drop_last_if_any(s.input), suggestion_index: None, ..s },
            Effect::RefreshSuggestions,
        ),
        Key::Tab => (
            if s.suggestions.len() > 0 {
                AppState {
                    suggestion_index: Some(
                        match s.suggestion_index {
                            None => 0,
                            Some(i) => ((i + 1) % (s.suggestions.len() as int)) as usize,
                        },
                    ),
                    ..s
                }
            } else {
                s
            },
            Effect::Continue,
        ),
        Key::Down => (
            if s.suggestions.len() > 0 {
                AppState {
                    suggestion_index: Some(
                        match s.suggestion_index {
                            None => 0,
                            Some(i) => if i + 1 < s.suggestions.len() { (i + 1) as usize } else { (s.suggestions.len() - 1) as usize },
                        },
                    ),
                    ..s
                }
            } else {
                s
            },
            Effect::Continue,
        ),
        Key::Up => (
            match s.suggestion_index {
                Some(i) => AppState { suggestion_index: if i == 0 { None } else { Some((i - 1) as usize) }, ..s },
                None => s,
            },
            Effect::Continue,
        ),
        Key::Char(c) => (AppState { input: s.input.push(c), suggestion_index: None, ..s }, Effect::RefreshSuggestions),
        Key::Other => (s, Effect::Continue),
    }
}

/// The inputs on which an editing key would overflow the candidate cursor.
pub open spec fn input_step_overflows(s: AppState, key: Key) -> bool {
    (key == Key::Tab || key == Key::Down) && s.suggestions.len() > 0 && s.suggestion_index == Some(usize::MAX)
}

/// The effect of a key in whichever mode the application is in.
pub open spec fn key_step(s: AppState, key: Key) -> (AppState, Effect) {
    if s.input_mode { input_step(s, key) } else { normal_step(s, key) }
}

/// The inputs on which a key would overflow a cursor.
pub open spec fn key_step_overflows(s: AppState, key: Key) -> bool {
    if s.input_mode { input_step_overflows(s, key) } else { normal_step_overflows(s, key) }
}

/// Where the list's first visible row moves so that the cursor row is among
/// the `visible` rows shown (nothing moves when no row is shown).
pub open spec fn cursor_visible_step(s: AppState, visible: usize) -> AppState {
    if visible == 0 {
        s
    } else if s.index < s.scroll_offset {
        AppState { scroll_offset: s.index, ..s }
    } else if s.index >= s.scroll_offset + visible {
        AppState { scroll_offset: (s.index + 1 - visible) as usize, ..s }
    } else {
        s
    }
}

/// The inputs on which keeping the cursor in view overflows.
pub open spec fn cursor_visible_overflows(s: AppState, visible: usize) -> bool {
    &&& visible > 0
    &&& s.index >= s.scroll_offset
    &&& (s.scroll_offset + visible > usize::MAX || (s.index >= s.scroll_offset + visible && s.index
        == usize::MAX))
}

/// The error lines of a deletion: for each marked project, in list order,
/// whose deletion failed, its environment path, `": "` and the failure.
pub open spec fn failure_messages(marked: Seq<Project>, failures: Seq<Option<String>>) -> Seq<Seq<char>>
    decreases failures.len(),
{
    if failures.len() == 0 || marked.len() == 0 {
        Seq::empty()
    } else {
        let rest = failure_messages(marked.drop_last(), failures.drop_last());
        match failures.last() {
            Some(m) => rest.push(marked.last().venv_path@ + ": "@ + m@),
            None => rest,
        }
    }
}

/// The state after the marked environments were deleted, `failures[k]`
/// telling how the deletion of the `k`-th marked one failed, if it did.
pub open spec fn deletion_step(s: AppState, failures: Seq<Option<String>>) -> AppState {
    let items = unselected_items(s.items);
    let index = if s.index >= items.len() && s.index > 0 { (s.index - 1) as usize } else { s.index };
    let messages = failure_messages(selected_items(s.items), failures);
    AppState {
        items: items,
        index: index,
        scroll_offset: if s.scroll_offset > index { index } else { s.scroll_offset },
        last_error: if messages.len() == 0 { None } else { Some(joined(messages, "; "@)) },
        ..s
    }
}

proof fn lemma_size_sum_add(a: Seq<Project>, b: Seq<Project>)
    ensures
        size_sum(a + b) == size_sum(a) + size_sum(b),
    decreases b.len(),
{
    if b.len() > 0 {
        assert((a + b).drop_last() =~= a + b.drop_last());
        lemma_size_sum_add(a, b.drop_last());
    } else {
        assert(a + b =~= a);
    }
}

impl App {
    /// A fresh state over the scanned `items`, with `root` as the scan root.
    pub fn new(items: Vec<Project>, root: String) -> (app: App)
        ensures
            app@ == initial_state(items@, root@),
    {
        let app = App {
            items,
            index: 0,
            confirm: false,
            input: root,
            input_mode: false,
            suggestions: Vec::new(),
            suggestion_index: None,
            suggestion_scroll_offset: 0,
            scroll_offset: 0,
            last_error: None,
        };
        assert(app@.suggestions =~= Seq::<Seq<char>>::empty());
        app
    }

    /// The number of projects marked for deletion.
    pub fn selected_count(&self) -> (n: usize)
        ensures
            n == selected_items(self.items@).len(),
    {
        let mut n: usize = 0;
        let mut i: usize = 0;
        while i < self.items.len()
            invariant
                i <= self.items@.len(),
                n == selected_items(self.items@.take(i as int)).len(),
            decreases self.items@.len() - i,
        {
            proof {
                let s = self.items@;
                assert(s.take(i + 1) =~= s.take(i as int).push(s[i as int]));
                s.take(i as int).lemma_filter_push(s[i as int], |p: Project| p.selected);
                s.take(i as int).lemma_filter_len(|p: Project| p.selected);
            }
            if self.items[i].selected {
                n = n + 1;
            }
            i = i + 1;
        }
        assert(self.items@.take(i as int) =~= self.items@);
        n
    }

    /// Whether every listed project is marked.
    fn every_item_selected(&self) -> (b: bool)
        ensures
            b == all_selected(self.items@),
    {
        let mut i: usize = 0;
        while i < self.items.len()
            invariant
                i <= self.items@.len(),
                forall|j: int| 0 <= j < i ==> #[trigger] self.items@[j].selected,
            decreases self.items@.len() - i,
        {
            if !self.items[i].selected {
                return false;
            }
            i = i + 1;
        }
        true
    }

    /// Sets the mark of every listed project to `value`.
    fn mark_all(&mut self, value: bool)
        ensures
            final(self)@ == (AppState { items: with_all_marks(old(self)@.items, value), ..old(self)@ }),
    {
        let ghost start = self.items@;
        let mut i: usize = 0;
        while i < self.items.len()
            invariant
                i <= self.items@.len(),
                self.items@.len() == start.len(),
                start == old(self)@.items,
                self@ == (AppState { items: self.items@, ..old(self)@ }),
                forall|j: int| 0 <= j < i ==> #[trigger] self.items@[j] == (Project { selected: value, ..start[j] }),
                forall|j: int| i <= j < start.len() ==> #[trigger] self.items@[j] == start[j],
            decreases self.items@.len() - i,
        {
            self.items[i].selected = value;
            i = i + 1;
        }
        assert(self.items@ =~= with_all_marks(start, value));
    }

    /// Handles a key in list mode. `Effect::Quit` asks to leave the
    /// application.
    pub fn handle_key_normal(&mut self, key: Key) -> (effect: Effect)
        requires
            !normal_step_overflows(old(self)@, key),
        ensures
            (final(self)@, effect) == normal_step(old(self)@, key),
    {
        match key {
            Key::Char('q') => Effect::Quit,
            Key::Tab => {
                self.suggestion_index = None;
                self.input_mode = true;
                Effect::RefreshSuggestions
            },
            Key::Down => {
                if self.index + 1 < self.items.len() {
                    self.index = self.index + 1;
                }
                Effect::Continue
            },
            Key::Up => {
                if self.index > 0 {
                    self.index = self.index - 1;
                }
                Effect::Continue
            },
            Key::Char(' ') => {
                if self.index < self.items.len() {
                    let flipped = !self.items[self.index].selected;
                    self.items[self.index].selected = flipped;
                }
                self.last_error = None;
                Effect::Continue
            },
            Key::Char('a') => {
                let all = self.every_item_selected();
                self.mark_all(!all);
                self.last_error = None;
                Effect::Continue
            },
            Key::Char('d') => {
                if self.selected_count() > 0 {
                    self.confirm = true;
                }
                Effect::Continue
            },
            Key::Char('y') => {
                if self.confirm {
                    self.confirm = false;
                    Effect::DeleteSelected
                } else {
                    Effect::Continue
                }
            },
            Key::Char('n') => {
                self.confirm = false;
                Effect::Continue
            },
            _ => Effect::Continue,
        }
    }
    /// Handles a key while the scan root is being edited. The application is
    /// never left from this mode.
    pub fn handle_key_input_mode(&mut self, key: Key) -> (effect: Effect)
        requires
            !input_step_overflows(old(self)@, key),
        ensures
            (final(self)@, effect) == input_step(old(self)@, key),
    {
        match key {
            Key::Enter => {
                match self.suggestion_index {
                    Some(idx) => {
                        if idx < self.suggestions.len() {
                            self.input = self.suggestions[idx].clone();
                            self.suggestion_index = None;
                            Effect::RefreshSuggestions
                        } else {
                            Effect::Continue
                        }
                    },
                    None => {
                        self.index = 0;
                        self.scroll_offset = 0;
                        self.confirm = false;
                        self.input_mode = false;
                        self.suggestions = Vec::new();
                        self.suggestion_index = None;
                        self.last_error = None;
                        assert(strings_view(self.suggestions@) =~= Seq::<Seq<char>>::empty());
                        Effect::Rescan
                    },
                }
            },
            Key::Esc => {
                if self.suggestion_index.is_some() {
                    self.suggestion_index = None;
                } else {
                    self.input_mode = false;
                    self.suggestions = Vec::new();
                    assert(strings_view(self.suggestions@) =~= Seq::<Seq<char>>::empty());
                }
                Effect::Continue
            },
            Key::Backspace => {
                pop_char(&mut self.input);
                self.suggestion_index = None;
                Effect::RefreshSuggestions
            },
            Key::Tab => {
                if self.suggestions.len() > 0 {
                    self.suggestion_index = Some(
                        match self.suggestion_index {
                            None => 0,
                            Some(i) => (i + 1) % self.suggestions.len(),
                        },
                    );
                }
                Effect::Continue
            },
            Key::Down => {
                if self.suggestions.len() > 0 {
                    let last = self.suggestions.len() - 1;
                    self.suggestion_index = Some(
                        match self.suggestion_index {
                            None => 0,
                            Some(i) => if i + 1 < last { i + 1 } else { last },
                        },
                    );
                }
                Effect::Continue
            },
            Key::Up => {
                if let Some(i) = self.suggestion_index {
                    self.suggestion_index = if i == 0 { None } else { Some(i - 1) };
                }
                Effect::Continue
            },
            Key::Char(c) => {
                push_char(&mut self.input, c);
                self.suggestion_index = None;
                Effect::RefreshSuggestions
            },
            Key::Other => Effect::Continue,
        }
    }

    /// Handles a key in the mode the application is in.
    pub fn handle_key(&mut self, key: Key) -> (effect: Effect)
        requires
            !key_step_overflows(old(self)@, key),
        ensures
            (final(self)@, effect) == key_step(old(self)@, key),
    {
        if self.input_mode {
            self.handle_key_input_mode(key)
        } else {
            self.handle_key_normal(key)
        }
    }
    /// The sum of the environment sizes of the marked projects. The sum must
    /// fit in a `u64`.
    pub fn selected_total(&self) -> (total: u64)
        requires
            size_sum(selected_items(self.items@)) <= u64::MAX,
        ensures
            total == size_sum(selected_items(self.items@)),
    {
        let ghost s = self.items@;
        let ghost pick = |p: Project| p.selected;
        let mut total: u64 = 0;
        let mut i: usize = 0;
        while i < self.items.len()
            invariant
                s == self.items@,
                pick == (|p: Project| p.selected),
                i <= s.len(),
                size_sum(s.filter(pick)) <= u64::MAX,
                total == size_sum(s.take(i as int).filter(pick)),
            decreases s.len() - i,
        {
            proof {
                assert(s.take(i + 1) =~= s.take(i as int).push(s[i as int]));
                s.take(i as int).lemma_filter_push(s[i as int], pick);
                assert(s =~= s.take(i + 1) + s.skip(i + 1));
                Seq::filter_distributes_over_add(s.take(i + 1), s.skip(i + 1), pick);
                lemma_size_sum_add(s.take(i + 1).filter(pick), s.skip(i + 1).filter(pick));
                assert(s.take(i as int).filter(pick).push(s[i as int]).drop_last()
                    =~= s.take(i as int).filter(pick));
            }
            if self.items[i].selected {
                total = total + self.items[i].venv_size;
            }
            i = i + 1;
        }
        assert(s.take(i as int) =~= s);
        total
    }

    /// The environment paths of the marked projects, in list order: the
    /// directories that a deletion removes.
    pub fn selected_venv_paths(&self) -> (paths: Vec<String>)
        ensures
            paths@ == selected_items(self.items@).map_values(|p: Project| p.venv_path),
    {
        let ghost s = self.items@;
        let ghost pick = |p: Project| p.selected;
        let mut paths: Vec<String> = Vec::new();
        let mut i: usize = 0;
        while i < self.items.len()
            invariant
                s == self.items@,
                pick == (|p: Project| p.selected),
                i <= s.len(),
                paths@ == s.take(i as int).filter(pick).map_values(|p: Project| p.venv_path),
            decreases s.len() - i,
        {
            proof {
                assert(s.take(i + 1) =~= s.take(i as int).push(s[i as int]));
                s.take(i as int).lemma_filter_push(s[i as int], pick);
            }
            if self.items[i].selected {
                paths.push(self.items[i].venv_path.clone());
                assert(paths@ =~= s.take(i + 1).filter(pick).map_values(|p: Project| p.venv_path));
            }
            i = i + 1;
        }
        assert(s.take(i as int) =~= s);
        paths
    }

    /// Moves the first visible row of the list so that the cursor row is
    /// among the `visible` rows shown.
    pub fn ensure_cursor_visible(&mut self, visible: usize)
        requires
            !cursor_visible_overflows(old(self)@, visible),
        ensures
            final(self)@ == cursor_visible_step(old(self)@, visible),
    {
        if visible == 0 {
            return;
        }
        if self.index < self.scroll_offset {
            self.scroll_offset = self.index;
        } else if self.index >= self.scroll_offset + visible {
            self.scroll_offset = self.index + 1 - visible;
        }
    }
    /// Takes the marked projects off the list after their environments were
    /// deleted. `failures[k]` tells how the deletion of the `k`-th marked
    /// project failed, or is `None` where it succeeded; every marked project
    /// leaves the list either way. The failures, each after its environment
    /// path and `": "`, joined by `"; "`, become the error line.
    pub fn delete_selected(&mut self, failures: Vec<Option<String>>)
        requires
            failures@.len() == selected_items(old(self)@.items).len(),
        ensures
            final(self)@ == deletion_step(old(self)@, failures@),
    {
        let ghost orig = self.items@;
        let ghost keep = |p: Project| !p.selected;
        let ghost pick = |p: Project| p.selected;
        let mut rest: Vec<Project> = Vec::new();
        std::mem::swap(&mut rest, &mut self.items);
        let mut kept: Vec<Project> = Vec::new();
        let mut message = String::new();
        let mut any = false;
        let mut j: usize = 0;
        let ghost mut k: int = 0;
        let failure_count = failures.len();
        while rest.len() > 0
            invariant
                failure_count == failures@.len(),
                keep == (|p: Project| !p.selected),
                pick == (|p: Project| p.selected),
                0 <= k <= orig.len(),
                rest@ == orig.skip(k),
                kept@ == orig.take(k).filter(keep),
                j == orig.take(k).filter(pick).len(),
                failures@.len() == orig.filter(pick).len(),
                any == (failure_messages(orig.take(k).filter(pick), failures@.take(j as int)).len() > 0),
                message@ == joined(
                    failure_messages(orig.take(k).filter(pick), failures@.take(j as int)),
                    "; "@,
                ),
                self@ == (AppState { items: self.items@, ..old(self)@ }),
            decreases rest@.len(),
        {
            let p = rest.remove(0);
            let ghost sel_before = orig.take(k).filter(pick);
            let ghost msgs_before = failure_messages(sel_before, failures@.take(j as int));
            proof {
                assert(orig.take(k + 1) =~= orig.take(k).push(p));
                orig.take(k).lemma_filter_push(p, pick);
                orig.take(k).lemma_filter_push(p, keep);
                assert(orig.skip(k + 1) =~= orig.skip(k).drop_first());
            }
            if p.selected {
                proof {
                    assert(orig =~= orig.take(k + 1) + orig.skip(k + 1));
                    Seq::filter_distributes_over_add(orig.take(k + 1), orig.skip(k + 1), pick);
                    assert(failures@.take(j + 1) =~= failures@.take(j as int).push(failures@[j as int]));
                    assert(sel_before.push(p).drop_last() =~= sel_before);
                    assert(j < failures@.len());
                    assert(failures@.take(j + 1).drop_last() =~= failures@.take(j as int));
                }
                match &failures[j] {
                    Some(m) => {
                        let ghost part = p.venv_path@ + ": "@ + m@;
                        proof {
                            assert(msgs_before.push(part).drop_last() =~= msgs_before);
                        }
                        if any {
                            message.append("; ");
                        }
                        message.append(p.venv_path.as_str());
                        message.append(": ");
                        message.append(m.as_str());
                        any = true;
                        proof {
                            if msgs_before.len() == 0 {
                                assert(message@ =~= part);
                            } else {
                                assert(message@ =~= joined(msgs_before, "; "@) + "; "@ + part);
                            }
                        }
                    },
                    None => {},
                }
                j = j + 1;
            } else {
                kept.push(p);
            }
            proof {
                k = k + 1;
            }
        }
        proof {
            assert(orig.take(k) =~= orig);
            assert(failures@.take(j as int) =~= failures@);
        }
        self.items = kept;
        if self.index >= self.items.len() && self.index > 0 {
            self.index = self.index - 1;
        }
        if self.scroll_offset > self.index {
            self.scroll_offset = self.index;
        }
        self.last_error = if any { Some(message) } else { None };
    }
}

} // verus!
