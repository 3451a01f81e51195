use proc_lens::app::{EnrichedProcess, EntityMode, SortMode, UiState, ViewMode};
use proc_lens::classifier::{Classification, Confidence, ProcessType};
use proc_lens::process::{LimitedEnvironment, ProcessIdentity, ProcessSnapshot};
use proc_lens::provenance::resolve_all_provenance;
use proc_lens::task::format::task_totals;
use proc_lens::task::group::{group_tasks, TaskGroup};
use proc_lens::task::model::TaskId;
use proc_lens::task::view::{
    move_task_selection, reconcile_task_selection, select_end_task, selected_task_index, visible_tasks,
};
use proc_lens::ui::{handle_key, InputAction, ModelEffect, UiKey};

#[allow(clippy::too_many_arguments)]
fn process(
    pid: i32,
    ppid: i32,
    start: u64,
    name: &str,
    command: &[&str],
    process_type: ProcessType,
    cpu: f32,
    rss: u64,
    parent_chain: &[i32],
) -> EnrichedProcess {
    EnrichedProcess {
        snapshot: ProcessSnapshot {
            identity: ProcessIdentity { pid, start_time_ticks: start },
            pid,
            ppid,
            name: name.into(),
            executable: None,
            cwd: None,
            command: command.iter().map(|value| (*value).into()).collect(),
            cgroup: Vec::new(),
            environment: LimitedEnvironment::new(),
            cpu_percent_bits: cpu.to_bits(),
            memory_bytes: rss,
            gpu: None,
        },
        classification: Classification {
            process_type,
            confidence: Confidence::Medium,
            score: 80,
            evidence: Vec::new(),
        },
        project: None,
        parent_chain: parent_chain.to_vec(),
        tree_depth: parent_chain.len(),
        tree_order: pid as usize,
    }
}

fn launcher_tree(owner_cpu: f32, child_cpu: f32) -> Vec<EnrichedProcess> {
    vec![
        process(
            10,
            1,
            100,
            "ros2",
            &["ros2", "launch", "agt_navigation", "bringup.launch.py"],
            ProcessType::Ros2,
            owner_cpu,
            100,
            &[1],
        ),
        process(
            11,
            10,
            101,
            "planner_server",
            &["planner_server", "--ros-args"],
            ProcessType::Ros2,
            child_cpu,
            200,
            &[10, 1],
        ),
    ]
}

/// The task view's rows: the groups, and the positions shown in order.
fn rows(processes: &[EnrichedProcess], state: &UiState) -> (Vec<TaskGroup>, Vec<usize>) {
    let provenance = resolve_all_provenance(processes);
    let groups = group_tasks(processes, &provenance);
    let bits: Vec<u32> = groups
        .iter()
        .map(|group| {
            group
                .members
                .iter()
                .map(|member| f32::from_bits(processes[*member].snapshot.cpu_percent_bits))
                .sum::<f32>()
                .to_bits()
        })
        .collect();
    let visible = visible_tasks(&groups, processes, &provenance, &bits, state);
    (groups, visible)
}

fn ids(groups: &[TaskGroup], visible: &[usize]) -> Vec<TaskId> {
    visible.iter().map(|position| groups[*position].task.id.clone()).collect()
}

#[test]
fn task_rows_aggregate_members_and_ignore_process_type_filter() {
    let state = UiState {
        entity_mode: EntityMode::Task,
        process_type_filter: Some(ProcessType::Browser),
        ..UiState::default()
    };
    let processes = launcher_tree(10.0, 20.0);
    let (groups, visible) = rows(&processes, &state);

    assert_eq!(visible.len(), 1);
    let group = &groups[visible[0]];
    assert_eq!(group.members.len(), 2);
    assert_eq!(group.task.label, "agt_navigation/bringup.launch.py");
    assert_eq!(task_totals(group, &processes, &[None, None]).rss_bytes, 300);
}

#[test]
fn task_search_matches_member_command() {
    let state = UiState {
        entity_mode: EntityMode::Task,
        query: "planner_server".into(),
        ..UiState::default()
    };
    let (_, visible) = rows(&launcher_tree(10.0, 20.0), &state);
    assert_eq!(visible.len(), 1);

    let nothing = UiState { entity_mode: EntityMode::Task, query: "nothing_here".into(), ..UiState::default() };
    assert!(rows(&launcher_tree(10.0, 20.0), &nothing).1.is_empty());
}

fn three(second_cpu: f32) -> Vec<EnrichedProcess> {
    vec![
        process(10, 1, 100, "first", &["first"], ProcessType::Generic, 30.0, 100, &[1]),
        process(20, 1, 200, "second", &["second"], ProcessType::Generic, second_cpu, 300, &[1]),
        process(30, 1, 300, "third", &["third"], ProcessType::Generic, 10.0, 200, &[1]),
    ]
}

#[test]
fn selected_task_survives_refresh_and_disappearance_falls_back() {
    let mut state = UiState {
        entity_mode: EntityMode::Task,
        selected_task_id: Some(TaskId::new("proc:20:200")),
        ..UiState::default()
    };
    let (groups, visible) = rows(&three(20.0), &state);
    assert_eq!(selected_task_index(&ids(&groups, &visible), &state), Some(1));

    let (groups, visible) = rows(&three(40.0), &state);
    reconcile_task_selection(&ids(&groups, &visible), &mut state, Some(1));
    assert_eq!(state.selected_task_id, Some(TaskId::new("proc:20:200")));
    assert_eq!(selected_task_index(&ids(&groups, &visible), &state), Some(0));

    let survivors = vec![three(40.0).remove(0), three(40.0).remove(2)];
    let (groups, visible) = rows(&survivors, &state);
    reconcile_task_selection(&ids(&groups, &visible), &mut state, Some(1));
    assert_eq!(state.selected_task_id, Some(TaskId::new("proc:30:300")));
    assert_eq!(selected_task_index(&ids(&groups, &visible), &state), Some(1));
}

#[test]
fn task_view_sorts_by_each_key_and_by_id_for_p() {
    let processes = three(20.0);
    let by = |sort: SortMode| {
        let state = UiState { entity_mode: EntityMode::Task, sort, ..UiState::default() };
        let (groups, visible) = rows(&processes, &state);
        ids(&groups, &visible).iter().map(|id| id.as_str().to_owned()).collect::<Vec<_>>()
    };
    assert_eq!(by(SortMode::Cpu), vec!["proc:10:100", "proc:20:200", "proc:30:300"]);
    assert_eq!(by(SortMode::Memory), vec!["proc:20:200", "proc:30:300", "proc:10:100"]);
    assert_eq!(by(SortMode::Pid), vec!["proc:10:100", "proc:20:200", "proc:30:300"]);
    assert_eq!(by(SortMode::Gpu), vec!["proc:10:100", "proc:20:200", "proc:30:300"]);
}

#[test]
fn task_selection_moves_within_the_shown_tasks() {
    let mut state = UiState { entity_mode: EntityMode::Task, sort: SortMode::Pid, ..UiState::default() };
    let (groups, visible) = rows(&three(20.0), &state);
    let shown = ids(&groups, &visible);
    select_end_task(&shown, &mut state, true);
    assert_eq!(state.selected_task_id, Some(TaskId::new("proc:30:300")));
    move_task_selection(&shown, &mut state, -5);
    assert_eq!(state.selected_task_id, Some(TaskId::new("proc:10:100")));
    move_task_selection(&shown, &mut state, 1);
    assert_eq!(state.selected_task_id, Some(TaskId::new("proc:20:200")));
    select_end_task(&[].to_vec(), &mut state, false);
    assert_eq!(state.selected_task_id, None);
}

#[test]
fn a_key_switches_between_process_and_task_view() {
    let mut state = UiState { tree_mode: true, ..UiState::default() };
    assert_eq!(handle_key(&mut state, UiKey::Char('a')), (InputAction::Nothing, ModelEffect::Reorder));
    assert_eq!(state.entity_mode, EntityMode::Task);
    assert_eq!(state.view, ViewMode::List);
    assert!(!state.tree_mode);
    assert_eq!(handle_key(&mut state, UiKey::Char('a')), (InputAction::Nothing, ModelEffect::Reorder));
    assert_eq!(state.entity_mode, EntityMode::Process);
}
