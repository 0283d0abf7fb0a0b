//! Properties of the application state machine that span several keys or
//! several states.

use vstd::prelude::*;
use crate::model::{AppState, Effect, Key, Project, selected_items, unselected_items, size_sum,
    all_selected, toggled};
use crate::app::{normal_step, input_step, key_step, cursor_visible_step, cursor_visible_overflows,
    deletion_step};
use crate::text::drop_last_if_any;

verus! {

/// In list mode no key changes how many projects are listed, and a cursor
/// that is on a row stays on a row.
pub proof fn law_list_keys_keep_cursor_on_a_row(s: AppState, key: Key)
    requires
        s.index < s.items.len(),
    ensures
        normal_step(s, key).0.items.len() == s.items.len(),
        normal_step(s, key).0.index < s.items.len(),
{
}

/// Pressing Space twice in list mode leaves every mark as it was.
pub proof fn law_space_twice_restores_marks(s: AppState)
    ensures
        normal_step(normal_step(s, Key::Char(' ')).0, Key::Char(' ')).0.items == s.items,
{
    let once = normal_step(s, Key::Char(' ')).0;
    if s.index < s.items.len() {
        assert(toggled(toggled(s.items[s.index as int])) == s.items[s.index as int]);
        assert(once.items.update(s.index as int, toggled(once.items[s.index as int])) =~= s.items);
    }
}

/// `a` marks every project when some project is unmarked, and unmarks every
/// project when all of them are marked; nothing else in the list changes.
pub proof fn law_mark_all_toggles_whole_list(s: AppState)
    ensures
        ({
            let after = normal_step(s, Key::Char('a')).0.items;
            &&& after.len() == s.items.len()
            &&& forall|i: int| 0 <= i < after.len() ==> #[trigger] after[i].selected == !all_selected(s.items)
            &&& forall|i: int| 0 <= i < after.len() ==> (Project { selected: s.items[i].selected, ..after[i] }) == s.items[i]
        }),
{
}

/// After a deletion no project is marked, the listed projects are exactly
/// the ones that were not marked, in their former order, and nothing is left
/// to free.
pub proof fn law_deletion_leaves_only_unmarked(s: AppState, failures: Seq<Option<String>>)
    ensures
        deletion_step(s, failures).items == unselected_items(s.items),
        selected_items(deletion_step(s, failures).items).len() == 0,
        size_sum(selected_items(deletion_step(s, failures).items)) == 0,
{
    let after = unselected_items(s.items);
    let pick = |p: Project| p.selected;
    let keep = |p: Project| !p.selected;
    broadcast use Seq::lemma_filter_pred;
    assert(after.filter(pick) =~= Seq::<Project>::empty()) by {
        after.lemma_filter_len(pick);
        if after.filter(pick).len() > 0 {
            after.lemma_filter_pred(pick, 0);
            let x = after.filter(pick)[0];
            assert(after.contains(x)) by {
                lemma_filter_element_comes_from_source(after, pick, 0);
            }
            let i = choose|i: int| 0 <= i < after.len() && after[i] == x;
            s.items.lemma_filter_pred(keep, i);
        }
    }
}

/// Every element of a filtered sequence occurs in the sequence filtered.
proof fn lemma_filter_element_comes_from_source(s: Seq<Project>, pred: spec_fn(Project) -> bool, i: int)
    requires
        0 <= i < s.filter(pred).len(),
    ensures
        s.contains(s.filter(pred)[i]),
    decreases s.len(),
{
    reveal(Seq::filter);
    if s.len() > 0 {
        let rest = s.drop_last().filter(pred);
        if i < rest.len() {
            lemma_filter_element_comes_from_source(s.drop_last(), pred, i);
            let j = choose|j: int| 0 <= j < s.drop_last().len() && s.drop_last()[j] == rest[i];
            assert(s[j] == s.filter(pred)[i]);
        } else {
            assert(s[s.len() - 1] == s.filter(pred)[i]);
        }
    }
}

/// Environments are deleted only when Y answers a pending confirmation, and
/// the confirmation is then withdrawn.
pub proof fn law_deletion_needs_confirmation(s: AppState, key: Key)
    ensures
        key_step(s, key).1 == Effect::DeleteSelected ==> {
            &&& !s.input_mode
            &&& s.confirm
            &&& key == Key::Char('y')
            &&& !key_step(s, key).0.confirm
        },
{
}

/// D asks for confirmation exactly when some project is marked.
pub proof fn law_confirmation_needs_a_mark(s: AppState)
    ensures
        normal_step(s, Key::Char('d')).0.confirm == (s.confirm || selected_items(s.items).len() > 0),
{
}

/// The application is left only by Q in list mode.
pub proof fn law_only_q_in_list_mode_quits(s: AppState, key: Key)
    ensures
        key_step(s, key).1 == Effect::Quit <==> (!s.input_mode && key == Key::Char('q')),
{
}

/// While the scan root is edited, a highlighted candidate is always one of
/// the candidates shown: the candidate cursor never leaves the list.
pub proof fn law_candidate_cursor_stays_in_list(s: AppState, key: Key)
    requires
        s.suggestion_index matches Some(i) ==> i < s.suggestions.len(),
    ensures
        input_step(s, key).0.suggestion_index matches Some(i) ==> i < input_step(s, key).0.suggestions.len(),
{
    if let Some(i) = s.suggestion_index {
        if key == Key::Tab && s.suggestions.len() > 0 {
            assert((i + 1) % (s.suggestions.len() as int) < s.suggestions.len());
        }
    }
}

/// Typing a character and then erasing one gives back the input as it was.
pub proof fn law_type_then_erase(s: AppState, c: char)
    ensures
        input_step(input_step(s, Key::Char(c)).0, Key::Backspace).0.input == s.input,
{
    assert(drop_last_if_any(s.input.push(c)) =~= s.input);
}

/// Two presses of Esc always end the editing of the scan root.
pub proof fn law_two_escapes_end_editing(s: AppState)
    ensures
        !input_step(input_step(s, Key::Esc).0, Key::Esc).0.input_mode,
{
}

/// After the list is scrolled to the cursor, the cursor row is among the
/// rows shown, and scrolling again changes nothing.
pub proof fn law_cursor_is_shown_after_scrolling(s: AppState, visible: usize)
    requires
        visible > 0,
        !cursor_visible_overflows(s, visible),
    ensures
        cursor_visible_step(s, visible).scroll_offset <= s.index,
        s.index < cursor_visible_step(s, visible).scroll_offset + visible,
        cursor_visible_step(cursor_visible_step(s, visible), visible) == cursor_visible_step(s, visible),
{
}


/// What the program around the state machine brings to one turn of its
/// loop: the key, and what the effect asked for turns out to be (the
/// recomputed candidates, the projects of a rescan, the outcome of each
/// deletion), and the number of list rows on the screen, when the screen's
/// size is known.
pub struct LoopEvent {
    pub key: Key,
    pub suggestions: Seq<Seq<char>>,
    pub scanned: Seq<Project>,
    pub failures: Seq<Option<String>>,
    pub visible: Option<usize>,
}

/// The state after the effect of a key has been carried out.
pub open spec fn effect_applied(t: AppState, effect: Effect, ev: LoopEvent) -> AppState {
    match effect {
        Effect::RefreshSuggestions => AppState { suggestions: ev.suggestions, ..t },
        Effect::Rescan => AppState { items: ev.scanned, ..t },
        Effect::DeleteSelected => deletion_step(t, ev.failures),
        _ => t,
    }
}

/// One turn of the event loop: the key is handled, its effect carried out,
/// and the list scrolled to the cursor when the screen's size is known.
pub open spec fn loop_step(s: AppState, ev: LoopEvent) -> AppState {
    let handled = key_step(s, ev.key);
    let done = effect_applied(handled.0, handled.1, ev);
    match ev.visible {
        Some(v) => cursor_visible_step(done, v),
        None => done,
    }
}

/// The state after the turns of the event loop, one after another.
pub open spec fn after_events(s: AppState, events: Seq<LoopEvent>) -> AppState
    decreases events.len(),
{
    if events.len() == 0 {
        s
    } else {
        loop_step(after_events(s, events.drop_last()), events.last())
    }
}

/// Whether the `j`-th turn handled a D in list mode while some project was
/// marked.
pub open spec fn confirmation_asked_at(s: AppState, events: Seq<LoopEvent>, j: int) -> bool {
    let before = after_events(s, events.take(j));
    events[j].key == Key::Char('d') && !before.input_mode && selected_items(before.items).len() > 0
}

/// Whether the confirmation stayed pending after every turn from the `j`-th
/// up to the first `i` turns.
pub open spec fn confirmation_pending_between(s: AppState, events: Seq<LoopEvent>, j: int, i: int) -> bool {
    forall|k: int| j < k <= i ==> #[trigger] after_events(s, events.take(k)).confirm
}

proof fn lemma_after_events_step(s: AppState, events: Seq<LoopEvent>, i: int)
    requires
        0 <= i < events.len(),
    ensures
        after_events(s, events.take(i + 1)) == loop_step(after_events(s, events.take(i)), events[i]),
{
    assert(events.take(i + 1).drop_last() =~= events.take(i));
}

/// A pending confirmation was asked for by an earlier D with a mark, and has
/// been pending ever since.
proof fn lemma_pending_confirmation_has_a_cause(s: AppState, events: Seq<LoopEvent>, i: int)
    requires
        !s.confirm,
        0 <= i <= events.len(),
        after_events(s, events.take(i)).confirm,
    ensures
        exists|j: int| 0 <= j < i && #[trigger] confirmation_asked_at(s, events, j)
            && confirmation_pending_between(s, events, j, i),
    decreases i,
{
    if i == 0 {
        assert(events.take(0) =~= Seq::<LoopEvent>::empty());
    } else {
        let before = after_events(s, events.take(i - 1));
        lemma_after_events_step(s, events, i - 1);
        if before.confirm {
            lemma_pending_confirmation_has_a_cause(s, events, i - 1);
            let j = choose|j: int| 0 <= j < i - 1 && #[trigger] confirmation_asked_at(s, events, j)
                && confirmation_pending_between(s, events, j, i - 1);
            assert(confirmation_pending_between(s, events, j, i));
        } else {
            assert(confirmation_asked_at(s, events, i - 1));
            assert(confirmation_pending_between(s, events, i - 1, i));
        }
    }
}

/// Over any run of the event loop from a state without a pending
/// confirmation (such as the state right after start-up), with whatever the
/// rescans, candidate lists and deletions turn out to be, environments are
/// deleted only in a turn whose key is Y and that answers a confirmation
/// asked for by an earlier D in list mode while some project was marked; the
/// confirmation stayed pending after every turn in between, so no N, no Y
/// and no rescan withdrew it.
pub proof fn law_deletion_follows_a_confirmed_d(s: AppState, events: Seq<LoopEvent>, i: int)
    requires
        !s.confirm,
        0 <= i < events.len(),
        key_step(after_events(s, events.take(i)), events[i].key).1 == Effect::DeleteSelected,
    ensures
        events[i].key == Key::Char('y'),
        exists|j: int| 0 <= j < i && #[trigger] confirmation_asked_at(s, events, j)
            && confirmation_pending_between(s, events, j, i),
{
    law_deletion_needs_confirmation(after_events(s, events.take(i)), events[i].key);
    lemma_pending_confirmation_has_a_cause(s, events, i);
}

/// After every turn of the event loop in which the screen's size is known
/// and at least one list row fits, the cursor row is among the rows shown.
pub proof fn law_cursor_shown_after_each_turn(s: AppState, ev: LoopEvent, visible: usize)
    requires
        ev.visible == Some(visible),
        visible > 0,
        !cursor_visible_overflows(effect_applied(key_step(s, ev.key).0, key_step(s, ev.key).1, ev), visible),
    ensures
        loop_step(s, ev).scroll_offset <= loop_step(s, ev).index,
        loop_step(s, ev).index < loop_step(s, ev).scroll_offset + visible,
{
    law_cursor_is_shown_after_scrolling(
        effect_applied(key_step(s, ev.key).0, key_step(s, ev.key).1, ev),
        visible,
    );
}

} // verus!
