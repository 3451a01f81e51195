use proc_lens::app::{EnrichedProcess, SortMode, UiState};
use proc_lens::classifier::{Classification, Confidence, ProcessType};
use proc_lens::process::{LimitedEnvironment, ProcessIdentity, ProcessSnapshot};
use proc_lens::provenance::resolve_all_provenance;
use proc_lens::ui::presentation::{
    carry_order, move_page, move_selection, reconcile_selection, select_first, select_last, selected_index,
    sort_order, visible_pids,
};

fn process(pid: i32, start: u64, ram: u64) -> EnrichedProcess {
    EnrichedProcess {
        snapshot: ProcessSnapshot {
            identity: ProcessIdentity { pid, start_time_ticks: start },
            pid,
            ppid: 1,
            name: format!("p{pid}"),
            executable: None,
            cwd: None,
            command: vec![format!("p{pid}")],
            cgroup: Vec::new(),
            environment: LimitedEnvironment::new(),
            cpu_percent_bits: 0,
            memory_bytes: ram,
            gpu: None,
        },
        classification: Classification {
            process_type: ProcessType::Generic,
            confidence: Confidence::Low,
            score: 0,
            evidence: Vec::new(),
        },
        project: None,
        parent_chain: vec![1],
        tree_depth: 1,
        tree_order: pid as usize,
    }
}

/// The CPU band of a percentage, as the dashboard computes it.
fn band(cpu: f32) -> i32 {
    (cpu / 2.0).floor() as i32
}

fn visible(ordered: &Vec<i32>, processes: &[EnrichedProcess], state: &UiState) -> Vec<i32> {
    let provenance = resolve_all_provenance(processes);
    visible_pids(ordered, processes, &provenance, state)
}

#[test]
fn selected_pid_survives_reorder() {
    let processes = vec![process(10, 100, 100), process(20, 200, 200)];
    let mut state = UiState { selected_pid: Some(20), ..UiState::default() };
    let previous = sort_order(&vec![10, 20], &processes, &[band(20.0), band(10.0)], &vec![10, 20], &state);
    assert_eq!(previous, vec![10, 20]);

    let before = selected_index(&visible(&previous, &processes, &state), &state);
    let carried = carry_order(&previous, &vec![10, 20]);
    let ordered = sort_order(&carried, &processes, &[band(1.0), band(80.0)], &previous, &state);
    let rows = visible(&ordered, &processes, &state);
    reconcile_selection(&rows, &mut state, before);

    assert_eq!(state.selected_pid, Some(20));
    assert_eq!(selected_index(&rows, &state), Some(0));
}

#[test]
fn selected_pid_exit_falls_back_to_closest_visual_row() {
    let first = vec![process(10, 100, 100), process(20, 200, 100), process(30, 300, 100)];
    let mut state = UiState { selected_pid: Some(20), ..UiState::default() };
    let previous = sort_order(&vec![10, 20, 30], &first, &[band(30.0), band(20.0), band(10.0)], &vec![10, 20, 30], &state);
    let before = selected_index(&visible(&previous, &first, &state), &state);
    assert_eq!(before, Some(1));

    let next = vec![process(10, 100, 100), process(30, 300, 100)];
    let carried = carry_order(&previous, &vec![10, 30]);
    let ordered = sort_order(&carried, &next, &[band(30.0), band(10.0)], &previous, &state);
    let rows = visible(&ordered, &next, &state);
    reconcile_selection(&rows, &mut state, before);

    assert_eq!(state.selected_pid, Some(30));
    assert_eq!(selected_index(&rows, &state), Some(1));
}

#[test]
fn cpu_band_preserves_previous_order_for_small_fluctuations() {
    let processes = vec![process(10, 100, 100), process(20, 200, 100)];
    let state = UiState::default();
    let previous = sort_order(&vec![10, 20], &processes, &[band(11.6), band(11.2)], &vec![10, 20], &state);
    assert_eq!(previous, vec![10, 20]);

    let carried = carry_order(&previous, &vec![10, 20]);
    let ordered = sort_order(&carried, &processes, &[band(10.8), band(11.9)], &previous, &state);

    assert_eq!(ordered, vec![10, 20]);
}

#[test]
fn sort_mode_change_can_force_immediate_reorder() {
    let processes = vec![process(10, 100, 100), process(20, 200, 900)];
    let mut state = UiState::default();
    let bands = [band(30.0), band(10.0)];
    let ordered = sort_order(&vec![10, 20], &processes, &bands, &vec![10, 20], &state);
    assert_eq!(ordered, vec![10, 20]);

    state.sort = SortMode::Memory;
    let ordered = sort_order(&ordered, &processes, &bands, &ordered, &state);

    assert_eq!(ordered, vec![20, 10]);
}

#[test]
fn page_and_boundary_navigation_keep_pid_selection() {
    let rows = vec![10, 20, 30, 40];
    let mut state = UiState::default();

    select_first(&rows, &mut state);
    assert_eq!(state.selected_pid, Some(10));

    move_page(&rows, &mut state, 2, 1);
    assert_eq!(state.selected_pid, Some(30));

    select_last(&rows, &mut state);
    assert_eq!(state.selected_pid, Some(40));

    move_page(&rows, &mut state, 2, -1);
    assert_eq!(state.selected_pid, Some(20));
}

#[test]
fn search_filter_falls_back_to_closest_previous_visual_row() {
    let mut first = process(10, 100, 100);
    first.snapshot.name = "keep-first".into();
    first.snapshot.command = vec!["keep-first".into()];
    let mut selected = process(20, 200, 100);
    selected.snapshot.name = "drop-selected".into();
    selected.snapshot.command = vec!["drop-selected".into()];
    let mut last = process(30, 300, 100);
    last.snapshot.name = "keep-last".into();
    last.snapshot.command = vec!["keep-last".into()];
    let processes = vec![first, selected, last];

    let mut state = UiState { selected_pid: Some(20), ..UiState::default() };
    let ordered = sort_order(&vec![10, 20, 30], &processes, &[band(30.0), band(20.0), band(10.0)], &vec![10, 20, 30], &state);
    let previous_index = selected_index(&visible(&ordered, &processes, &state), &state);
    assert_eq!(previous_index, Some(1));

    state.query = "keep".into();
    let rows = visible(&ordered, &processes, &state);
    reconcile_selection(&rows, &mut state, previous_index);

    assert_eq!(state.selected_pid, Some(30));
    assert_eq!(selected_index(&rows, &state), Some(1));
}

#[test]
fn a_new_sample_keeps_survivors_in_place_and_appends_newcomers() {
    assert_eq!(carry_order(&vec![30, 10, 20], &vec![10, 20, 40, 10, 50]), vec![10, 20, 40, 50]);
    assert_eq!(carry_order(&vec![], &vec![5, 5, 6]), vec![5, 6]);
}

#[test]
fn moves_stay_within_the_rows_and_start_from_the_top_without_selection() {
    let rows = vec![1, 2, 3];
    let mut state = UiState::default();
    move_selection(&rows, &mut state, 1);
    assert_eq!(state.selected_pid, Some(2));
    move_selection(&rows, &mut state, 100);
    assert_eq!(state.selected_pid, Some(3));
    move_selection(&rows, &mut state, -100);
    assert_eq!(state.selected_pid, Some(1));
    move_selection(&vec![], &mut state, 1);
    assert_eq!(state.selected_pid, None);
}

#[test]
fn tree_mode_and_other_orders_sort_as_documented() {
    let mut a = process(10, 100, 50);
    a.tree_order = 2;
    let mut b = process(20, 200, 70);
    b.tree_order = 0;
    b.snapshot.gpu = Some(proc_lens::process::ProcessGpuUsage { gpu_index: Some(0), vram_bytes: Some(5), utilization_percent: Some(3) });
    let mut c = process(30, 300, 70);
    c.tree_order = 1;
    let processes = vec![a, b, c];
    let bands = [0, 0, 0];
    let ids = vec![10, 20, 30];

    let mut state = UiState { tree_mode: true, ..UiState::default() };
    assert_eq!(sort_order(&ids, &processes, &bands, &ids, &state), vec![20, 30, 10]);
    state.tree_mode = false;
    state.sort = SortMode::Memory;
    assert_eq!(sort_order(&ids, &processes, &bands, &ids, &state), vec![20, 30, 10]);
    state.sort = SortMode::Gpu;
    assert_eq!(sort_order(&ids, &processes, &bands, &ids, &state), vec![20, 10, 30]);
    state.sort = SortMode::Pid;
    assert_eq!(sort_order(&vec![30, 10, 20], &processes, &bands, &ids, &state), vec![10, 20, 30]);
}
