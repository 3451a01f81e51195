use std::time::Duration;

use proc_lens::app::{EntityMode, SortMode, UiState, ViewMode};
use proc_lens::task::model::TaskId;
use proc_lens::ui::{
    automatic_action, handle_key, manual_refresh_action, next_poll_timeout, toggle_pause, InputAction, ModelEffect,
    TickAction, UiKey,
};

#[test]
fn next_poll_timeout_never_waits_past_refresh_deadline() {
    assert_eq!(
        next_poll_timeout(Duration::from_millis(900)),
        Duration::from_millis(100)
    );
    assert_eq!(
        next_poll_timeout(Duration::from_millis(950)),
        Duration::from_millis(50)
    );
    assert_eq!(next_poll_timeout(Duration::from_secs(1)), Duration::ZERO);
}

#[test]
fn paused_automatic_tick_does_nothing() {
    assert_eq!(
        automatic_action(true, Duration::from_secs(10), Duration::from_secs(10)),
        TickAction::Nothing
    );
}

#[test]
fn automatic_tick_separates_sampling_and_reordering() {
    assert_eq!(
        automatic_action(false, Duration::from_secs(1), Duration::from_secs(1)),
        TickAction::Sample
    );
    assert_eq!(
        automatic_action(false, Duration::from_millis(500), Duration::from_secs(2)),
        TickAction::Reorder
    );
    assert_eq!(
        automatic_action(false, Duration::from_secs(1), Duration::from_secs(2)),
        TickAction::SampleAndReorder
    );
}

#[test]
fn pause_transition_requests_refresh_only_on_resume() {
    let mut state = UiState::default();

    assert_eq!(toggle_pause(&mut state), InputAction::Nothing);
    assert!(state.paused);

    assert_eq!(toggle_pause(&mut state), InputAction::ResumeRefresh);
    assert!(!state.paused);
}

#[test]
fn manual_refresh_is_only_requested_while_paused() {
    let mut state = UiState::default();
    assert_eq!(manual_refresh_action(&state), InputAction::Nothing);

    state.paused = true;
    assert_eq!(manual_refresh_action(&state), InputAction::RefreshNow);
    assert!(state.paused);
}

#[test]
fn ui_state_defaults_to_no_selected_pid() {
    let state = UiState::default();

    assert_eq!(state.selected_pid, None);
    assert_eq!(state.view, ViewMode::List);
}

#[test]
fn detail_requires_a_selected_pid() {
    let mut state = UiState::default();

    state.open_detail();

    assert_eq!(state.view, ViewMode::List);
}

#[test]
fn detail_opens_for_selected_pid_and_back_returns_to_list() {
    let mut state = UiState {
        selected_pid: Some(42),
        ..UiState::default()
    };

    state.open_detail();
    assert_eq!(state.view, ViewMode::Detail);

    state.back();
    assert_eq!(state.view, ViewMode::List);
    assert_eq!(state.selected_pid, Some(42));
}

#[test]
fn task_mode_uses_the_task_selection_and_never_shows_a_tree() {
    let mut state = UiState { tree_mode: true, selected_pid: Some(3), ..UiState::default() };
    state.toggle_entity_mode();
    assert_eq!(state.entity_mode, EntityMode::Task);
    assert!(!state.tree_mode);
    state.open_detail();
    assert_eq!(state.view, ViewMode::List);
    state.selected_task_id = Some(TaskId::new("proc:3:1"));
    state.open_detail();
    assert_eq!(state.view, ViewMode::Detail);
    state.toggle_entity_mode();
    assert_eq!(state.entity_mode, EntityMode::Process);
    assert_eq!(state.view, ViewMode::List);
}

#[test]
fn search_keys_edit_the_query_and_ask_for_a_resort() {
    let mut state = UiState::default();
    assert_eq!(handle_key(&mut state, UiKey::Char('/')), (InputAction::Nothing, ModelEffect::Nothing));
    assert!(state.search_active);
    assert_eq!(handle_key(&mut state, UiKey::Char('q')), (InputAction::Nothing, ModelEffect::Reorder));
    assert_eq!(handle_key(&mut state, UiKey::Char('x')), (InputAction::Nothing, ModelEffect::Reorder));
    assert_eq!(state.query, "qx");
    assert_eq!(handle_key(&mut state, UiKey::Backspace), (InputAction::Nothing, ModelEffect::Reorder));
    assert_eq!(state.query, "q");
    handle_key(&mut state, UiKey::Enter);
    assert!(!state.search_active);
    assert_eq!(handle_key(&mut state, UiKey::Esc), (InputAction::Nothing, ModelEffect::Reorder));
    assert_eq!(state.query, "");
    assert_eq!(handle_key(&mut state, UiKey::Char('q')), (InputAction::Quit, ModelEffect::Nothing));
}

#[test]
fn list_keys_move_sort_and_only_act_in_the_list() {
    let mut state = UiState { tree_mode: true, ..UiState::default() };
    assert_eq!(handle_key(&mut state, UiKey::Down), (InputAction::Nothing, ModelEffect::MoveSelection(1)));
    assert_eq!(handle_key(&mut state, UiKey::Char('k')), (InputAction::Nothing, ModelEffect::MoveSelection(-1)));
    assert_eq!(handle_key(&mut state, UiKey::PageUp), (InputAction::Nothing, ModelEffect::MovePage(-1)));
    assert_eq!(handle_key(&mut state, UiKey::End), (InputAction::Nothing, ModelEffect::SelectLast));
    assert_eq!(handle_key(&mut state, UiKey::Char('m')), (InputAction::Nothing, ModelEffect::Reorder));
    assert_eq!(state.sort, SortMode::Memory);
    assert!(!state.tree_mode);
    state.view = ViewMode::Detail;
    assert_eq!(handle_key(&mut state, UiKey::Down), (InputAction::Nothing, ModelEffect::Nothing));
    assert_eq!(handle_key(&mut state, UiKey::Char('p')), (InputAction::Nothing, ModelEffect::Nothing));
    assert_eq!(state.sort, SortMode::Memory);
    assert_eq!(handle_key(&mut state, UiKey::Char('q')), (InputAction::Nothing, ModelEffect::Nothing));
    assert_eq!(state.view, ViewMode::List);
}

#[test]
fn help_swallows_keys_until_closed_and_space_pauses() {
    let mut state = UiState::default();
    handle_key(&mut state, UiKey::Char('?'));
    assert!(state.help_open);
    assert_eq!(handle_key(&mut state, UiKey::Down), (InputAction::Nothing, ModelEffect::Nothing));
    handle_key(&mut state, UiKey::Esc);
    assert!(!state.help_open);
    assert_eq!(handle_key(&mut state, UiKey::Char(' ')), (InputAction::Nothing, ModelEffect::Nothing));
    assert!(state.paused);
    assert_eq!(handle_key(&mut state, UiKey::Char('r')), (InputAction::RefreshNow, ModelEffect::Nothing));
    assert_eq!(handle_key(&mut state, UiKey::Char(' ')), (InputAction::ResumeRefresh, ModelEffect::Nothing));
}

#[test]
fn ui_defaults_to_process_mode_and_keeps_task_selection_separate() {
    let mut state = UiState::default();
    assert_eq!(state.entity_mode, EntityMode::Process);
    assert_eq!(state.selected_task_id, None);

    state.selected_pid = Some(42);
    state.selected_task_id = Some(TaskId::new("task-a"));
    state.entity_mode = EntityMode::Task;
    state.open_detail();

    assert_eq!(state.view, ViewMode::Detail);
    assert_eq!(state.selected_pid, Some(42));
    assert_eq!(state.selected_task_id, Some(TaskId::new("task-a")));
}

#[test]
fn tree_key_has_no_effect_in_task_view() {
    let mut state = UiState {
        entity_mode: EntityMode::Task,
        ..UiState::default()
    };
    let before = state.clone();
    assert_eq!(handle_key(&mut state, UiKey::Char('t')), (InputAction::Nothing, ModelEffect::Nothing));
    assert_eq!(state, before);
    assert!(!state.tree_mode);

    let mut process_state = UiState::default();
    assert_eq!(handle_key(&mut process_state, UiKey::Char('t')), (InputAction::Nothing, ModelEffect::Reorder));
    assert!(process_state.tree_mode);
}
