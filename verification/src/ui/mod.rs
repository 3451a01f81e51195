//! The decisions of the interactive dashboard: when to sample and re-sort,
//! and what a key press does.

use vstd::prelude::*;

pub mod laws;
pub mod model;
pub mod presentation;

use std::time::Duration;

use crate::app::{has_selection, EntityMode, SortMode, UiState, ViewMode};
use crate::text::{chars_of, push_char, slice_range, string_of};
use crate::time::{duration_from_nanos, duration_nanos, nanos_of};

verus! {

/// How often processes are sampled, in nanoseconds.
pub open spec fn sample_interval() -> nat {
    1_000_000_000
}

/// How often the list is re-sorted, in nanoseconds.
pub open spec fn reorder_interval() -> nat {
    2_000_000_000
}

/// The longest wait for a key, in nanoseconds.
pub open spec fn event_poll() -> nat {
    100_000_000
}

/// What the dashboard does when no key was pressed.
#[derive(Debug, Clone, Copy, PartialEq, Eq, Structural)]
pub enum TickAction {
    Nothing,
    Sample,
    Reorder,
    SampleAndReorder,
}

/// What a key press asks of the dashboard's loop.
#[derive(Debug, Clone, Copy, PartialEq, Eq, Structural)]
pub enum InputAction {
    Nothing,
    Quit,
    RefreshNow,
    ResumeRefresh,
}

/// How long to wait for a key: until the next sample is due, and at most one
/// poll interval.
pub fn next_poll_timeout(elapsed: Duration) -> (r: Duration)
    ensures
        duration_nanos(r) == if duration_nanos(elapsed) >= sample_interval() {
            0
        } else if sample_interval() - duration_nanos(elapsed) < event_poll() {
            (sample_interval() - duration_nanos(elapsed)) as nat
        } else {
            event_poll()
        },
{
    let e = nanos_of(elapsed);
    let remaining: u128 = if e >= 1_000_000_000 { 0 } else { 1_000_000_000 - e };
    let wait: u128 = if remaining < 100_000_000 { remaining } else { 100_000_000 };
    duration_from_nanos(wait as u64)
}

/// What is due when no key was pressed: nothing while paused; else a sample
/// once a sample interval has passed and a re-sort once a reorder interval
/// has passed.
pub fn automatic_action(paused: bool, sample_elapsed: Duration, reorder_elapsed: Duration) -> (r: TickAction)
    ensures
        r == if paused {
            TickAction::Nothing
        } else {
            let sample = duration_nanos(sample_elapsed) >= sample_interval();
            let reorder = duration_nanos(reorder_elapsed) >= reorder_interval();
            if sample && reorder {
                TickAction::SampleAndReorder
            } else if sample {
                TickAction::Sample
            } else if reorder {
                TickAction::Reorder
            } else {
                TickAction::Nothing
            }
        },
{
    if paused {
        return TickAction::Nothing;
    }
    let sample = nanos_of(sample_elapsed) >= 1_000_000_000;
    let reorder = nanos_of(reorder_elapsed) >= 2_000_000_000;
    if sample && reorder {
        TickAction::SampleAndReorder
    } else if sample {
        TickAction::Sample
    } else if reorder {
        TickAction::Reorder
    } else {
        TickAction::Nothing
    }
}

/// Pauses or resumes; resuming asks for a fresh sample.
pub fn toggle_pause(state: &mut UiState) -> (r: InputAction)
    ensures
        *final(state) == (UiState { paused: !old(state).paused, ..*old(state) }),
        r == if old(state).paused {
            InputAction::ResumeRefresh
        } else {
            InputAction::Nothing
        },
{
    state.paused = !state.paused;
    if state.paused {
        InputAction::Nothing
    } else {
        InputAction::ResumeRefresh
    }
}

/// A manual refresh is only needed while paused.
pub fn manual_refresh_action(state: &UiState) -> (r: InputAction)
    ensures
        r == if state.paused {
            InputAction::RefreshNow
        } else {
            InputAction::Nothing
        },
{
    if state.paused {
        InputAction::RefreshNow
    } else {
        InputAction::Nothing
    }
}

/// A key the dashboard reacts to.
#[derive(Debug, Clone, Copy, PartialEq, Eq, Structural)]
pub enum UiKey {
    Esc,
    Enter,
    Backspace,
    Up,
    Down,
    PageUp,
    PageDown,
    Home,
    End,
    Char(char),
    Other,
}

/// What a key press asks of the presentation model.
#[derive(Debug, Clone, Copy, PartialEq, Eq, Structural)]
pub enum ModelEffect {
    Nothing,
    Reorder,
    MoveSelection(i32),
    MovePage(i32),
    SelectFirst,
    SelectLast,
}

/// A list key, which only acts while the list is shown.
pub open spec fn list_key(s: UiState) -> bool {
    s.view == ViewMode::List
}

/// The state, loop action and model effect of a key press; the query is
/// given apart (`query_after`).
pub open spec fn key_model(s: UiState, key: UiKey) -> (UiState, InputAction, ModelEffect) {
    if s.search_active {
        match key {
            UiKey::Esc | UiKey::Enter => (UiState { search_active: false, ..s }, InputAction::Nothing, ModelEffect::Nothing),
            UiKey::Backspace | UiKey::Char(_) => (s, InputAction::Nothing, ModelEffect::Reorder),
            _ => (s, InputAction::Nothing, ModelEffect::Nothing),
        }
    } else if s.help_open {
        match key {
            UiKey::Esc | UiKey::Char('q') | UiKey::Char('?') => (UiState { help_open: false, ..s }, InputAction::Nothing, ModelEffect::Nothing),
            _ => (s, InputAction::Nothing, ModelEffect::Nothing),
        }
    } else {
        match key {
            UiKey::Char('q') => if s.view == ViewMode::Detail {
                (UiState { view: ViewMode::List, ..s }, InputAction::Nothing, ModelEffect::Nothing)
            } else {
                (s, InputAction::Quit, ModelEffect::Nothing)
            },
            UiKey::Esc => if s.view == ViewMode::Detail {
                (UiState { view: ViewMode::List, ..s }, InputAction::Nothing, ModelEffect::Nothing)
            } else if s.query@.len() > 0 {
                (s, InputAction::Nothing, ModelEffect::Reorder)
            } else {
                (s, InputAction::Nothing, ModelEffect::Nothing)
            },
            UiKey::Char(' ') => (
                UiState { paused: !s.paused, ..s },
                if s.paused {
                    InputAction::ResumeRefresh
                } else {
                    InputAction::Nothing
                },
                ModelEffect::Nothing,
            ),
            UiKey::Char('r') => (
                s,
                if s.paused {
                    InputAction::RefreshNow
                } else {
                    InputAction::Nothing
                },
                ModelEffect::Nothing,
            ),
            UiKey::Char('?') => (UiState { help_open: true, ..s }, InputAction::Nothing, ModelEffect::Nothing),
            UiKey::Down | UiKey::Char('j') => if list_key(s) {
                (s, InputAction::Nothing, ModelEffect::MoveSelection(1))
            } else {
                (s, InputAction::Nothing, ModelEffect::Nothing)
            },
            UiKey::Up | UiKey::Char('k') => if list_key(s) {
                (s, InputAction::Nothing, ModelEffect::MoveSelection(-1i32))
            } else {
                (s, InputAction::Nothing, ModelEffect::Nothing)
            },
            UiKey::PageDown => if list_key(s) {
                (s, InputAction::Nothing, ModelEffect::MovePage(1))
            } else {
                (s, InputAction::Nothing, ModelEffect::Nothing)
            },
            UiKey::PageUp => if list_key(s) {
                (s, InputAction::Nothing, ModelEffect::MovePage(-1i32))
            } else {
                (s, InputAction::Nothing, ModelEffect::Nothing)
            },
            UiKey::Home => if list_key(s) {
                (s, InputAction::Nothing, ModelEffect::SelectFirst)
            } else {
                (s, InputAction::Nothing, ModelEffect::Nothing)
            },
            UiKey::End => if list_key(s) {
                (s, InputAction::Nothing, ModelEffect::SelectLast)
            } else {
                (s, InputAction::Nothing, ModelEffect::Nothing)
            },
            UiKey::Enter => (
                UiState {
                    view: if has_selection(s) {
                        ViewMode::Detail
                    } else {
                        s.view
                    },
                    ..s
                },
                InputAction::Nothing,
                ModelEffect::Nothing,
            ),
            UiKey::Char(c) => if !list_key(s) {
                (s, InputAction::Nothing, ModelEffect::Nothing)
            } else if c == '/' {
                (UiState { search_active: true, ..s }, InputAction::Nothing, ModelEffect::Nothing)
            } else if c == 'a' {
                (
                    UiState {
                        entity_mode: match s.entity_mode {
                            EntityMode::Process => EntityMode::Task,
                            EntityMode::Task => EntityMode::Process,
                        },
                        view: ViewMode::List,
                        tree_mode: if s.entity_mode == EntityMode::Process {
                            false
                        } else {
                            s.tree_mode
                        },
                        ..s
                    },
                    InputAction::Nothing,
                    ModelEffect::Reorder,
                )
            } else if c == 't' {
                if s.entity_mode == EntityMode::Task {
                    (s, InputAction::Nothing, ModelEffect::Nothing)
                } else {
                    (UiState { tree_mode: !s.tree_mode, ..s }, InputAction::Nothing, ModelEffect::Reorder)
                }
            } else if c == 'c' {
                (UiState { sort: SortMode::Cpu, tree_mode: false, ..s }, InputAction::Nothing, ModelEffect::Reorder)
            } else if c == 'm' {
                (UiState { sort: SortMode::Memory, tree_mode: false, ..s }, InputAction::Nothing, ModelEffect::Reorder)
            } else if c == 'g' {
                (UiState { sort: SortMode::Gpu, tree_mode: false, ..s }, InputAction::Nothing, ModelEffect::Reorder)
            } else if c == 'p' {
                (UiState { sort: SortMode::Pid, tree_mode: false, ..s }, InputAction::Nothing, ModelEffect::Reorder)
            } else {
                (s, InputAction::Nothing, ModelEffect::Nothing)
            },
            _ => (s, InputAction::Nothing, ModelEffect::Nothing),
        }
    }
}

/// The search query after a key press: typing while searching appends a
/// character, Backspace removes the last one, and Esc in the list clears it.
pub open spec fn query_after(s: UiState, key: UiKey) -> Seq<char> {
    if s.search_active {
        match key {
            UiKey::Backspace => if s.query@.len() > 0 {
                s.query@.drop_last()
            } else {
                s.query@
            },
            UiKey::Char(c) => s.query@.push(c),
            _ => s.query@,
        }
    } else if !s.help_open && key == UiKey::Esc && s.view != ViewMode::Detail {
        Seq::empty()
    } else {
        s.query@
    }
}

/// Reacts to a key: updates the state and says what the loop and the
/// presentation model must do.
pub fn handle_key(state: &mut UiState, key: UiKey) -> (r: (InputAction, ModelEffect))
    ensures
        r == (key_model(*old(state), key).1, key_model(*old(state), key).2),
        *final(state) == (UiState { query: final(state).query, ..key_model(*old(state), key).0 }),
        final(state).query@ == query_after(*old(state), key),
{
    if state.search_active {
        match key {
            UiKey::Esc | UiKey::Enter => {
                state.search_active = false;
                (InputAction::Nothing, ModelEffect::Nothing)
            },
            UiKey::Backspace => {
                let q = chars_of(state.query.as_str());
                if q.len() > 0 {
                    let shorter = slice_range(&q, 0, q.len() - 1);
                    assert(shorter@ =~= q@.drop_last());
                    state.query = string_of(&shorter);
                }
                (InputAction::Nothing, ModelEffect::Reorder)
            },
            UiKey::Char(c) => {
                let mut q = state.query.clone();
                push_char(&mut q, c);
                state.query = q;
                (InputAction::Nothing, ModelEffect::Reorder)
            },
            _ => (InputAction::Nothing, ModelEffect::Nothing),
        }
    } else if state.help_open {
        match key {
            UiKey::Esc | UiKey::Char('q') | UiKey::Char('?') => {
                state.help_open = false;
            },
            _ => {},
        }
        (InputAction::Nothing, ModelEffect::Nothing)
    } else {
        let list = state.view == ViewMode::List;
        match key {
            UiKey::Char('q') => {
                if state.view == ViewMode::Detail {
                    state.back();
                    (InputAction::Nothing, ModelEffect::Nothing)
                } else {
                    (InputAction::Quit, ModelEffect::Nothing)
                }
            },
            UiKey::Esc => {
                if state.view == ViewMode::Detail {
                    state.back();
                    (InputAction::Nothing, ModelEffect::Nothing)
                } else if chars_of(state.query.as_str()).len() > 0 {
                    state.query = String::new();
                    (InputAction::Nothing, ModelEffect::Reorder)
                } else {
                    (InputAction::Nothing, ModelEffect::Nothing)
                }
            },
            UiKey::Char(' ') => (toggle_pause(state), ModelEffect::Nothing),
            UiKey::Char('r') => (manual_refresh_action(state), ModelEffect::Nothing),
            UiKey::Char('?') => {
                state.help_open = true;
                (InputAction::Nothing, ModelEffect::Nothing)
            },
            UiKey::Down | UiKey::Char('j') => {
                if list {
                    (InputAction::Nothing, ModelEffect::MoveSelection(1))
                } else {
                    (InputAction::Nothing, ModelEffect::Nothing)
                }
            },
            UiKey::Up | UiKey::Char('k') => {
                if list {
                    (InputAction::Nothing, ModelEffect::MoveSelection(-1))
                } else {
                    (InputAction::Nothing, ModelEffect::Nothing)
                }
            },
            UiKey::PageDown => {
                if list {
                    (InputAction::Nothing, ModelEffect::MovePage(1))
                } else {
                    (InputAction::Nothing, ModelEffect::Nothing)
                }
            },
            UiKey::PageUp => {
                if list {
                    (InputAction::Nothing, ModelEffect::MovePage(-1))
                } else {
                    (InputAction::Nothing, ModelEffect::Nothing)
                }
            },
            UiKey::Home => {
                if list {
                    (InputAction::Nothing, ModelEffect::SelectFirst)
                } else {
                    (InputAction::Nothing, ModelEffect::Nothing)
                }
            },
            UiKey::End => {
                if list {
                    (InputAction::Nothing, ModelEffect::SelectLast)
                } else {
                    (InputAction::Nothing, ModelEffect::Nothing)
                }
            },
            UiKey::Enter => {
                state.open_detail();
                (InputAction::Nothing, ModelEffect::Nothing)
            },
            UiKey::Char(c) => {
                if !list {
                    (InputAction::Nothing, ModelEffect::Nothing)
                } else if c == '/' {
                    state.search_active = true;
                    (InputAction::Nothing, ModelEffect::Nothing)
                } else if c == 'a' {
                    state.toggle_entity_mode();
                    (InputAction::Nothing, ModelEffect::Reorder)
                } else if c == 't' {
                    if state.entity_mode == EntityMode::Task {
                        (InputAction::Nothing, ModelEffect::Nothing)
                    } else {
                        state.tree_mode = !state.tree_mode;
                        (InputAction::Nothing, ModelEffect::Reorder)
                    }
                } else if c == 'c' || c == 'm' || c == 'g' || c == 'p' {
                    state.sort = if c == 'c' {
                        SortMode::Cpu
                    } else if c == 'm' {
                        SortMode::Memory
                    } else if c == 'g' {
                        SortMode::Gpu
                    } else {
                        SortMode::Pid
                    };
                    state.tree_mode = false;
                    (InputAction::Nothing, ModelEffect::Reorder)
                } else {
                    (InputAction::Nothing, ModelEffect::Nothing)
                }
            },
            _ => (InputAction::Nothing, ModelEffect::Nothing),
        }
    }
}

/// The name of a sort order as the title bar shows it.
pub open spec fn sort_label_model(sort: SortMode) -> Seq<char> {
    match sort {
        SortMode::Cpu => "cpu"@,
        SortMode::Memory => "memory"@,
        SortMode::Gpu => "gpu"@,
        SortMode::Pid => "pid"@,
    }
}

/// The name of a sort order as the title bar shows it.
pub fn sort_label(sort: SortMode) -> (r: &'static str)
    ensures
        r@ == sort_label_model(sort),
{
    match sort {
        SortMode::Cpu => "cpu",
        SortMode::Memory => "memory",
        SortMode::Gpu => "gpu",
        SortMode::Pid => "pid",
    }
}

} // verus!
