use proc_lens::collector::cpu::SystemCpuTicks;
use proc_lens::collector::process::ProcCollector;
use proc_lens::collector::sampler::{assemble_process_sample, assemble_thread_sample, ProcessReads};
use proc_lens::collector::thread::{ThreadCollector, ThreadIdentity};
use proc_lens::process::ProcessIdentity;

fn reads(name: &str, stat: Option<&str>) -> ProcessReads {
    ProcessReads {
        name: name.to_owned(),
        stat: stat.map(str::to_owned),
        status: Some("Name:\tworker\nVmRSS:\t   2048 kB\n".to_owned()),
        exe: Some("/usr/bin/worker".to_owned()),
        cwd: None,
        cmdline: Some(b"worker\0--flag\0".to_vec()),
        cgroup: Some("0::/user.slice/app.scope\n".to_owned()),
        environ: Some(b"ROS_DISTRO=humble\0".to_vec()),
    }
}

fn stat(pid: i32, name: &str, utime: u64, stime: u64, start: u64) -> String {
    format!("{pid} ({name}) S 1 0 0 0 0 0 0 0 0 0 {utime} {stime} 0 0 20 0 1 0 {start} 4096 42")
}

#[test]
fn process_sample_keeps_numeric_parsable_entries_sorted_by_pid() {
    let mut collector = ProcCollector::new("/proc");
    let system = SystemCpuTicks { total_ticks: 1000, idle_ticks: 800, cpu_count: 4 };
    let entries = vec![
        reads("30", Some(&stat(30, "late", 5, 5, 300))),
        reads("self", Some(&stat(1, "self", 1, 1, 1))),
        reads("12", Some("broken")),
        reads("7", Some(&stat(7, "ros_node", 10, 20, 70))),
        reads("9", None),
    ];
    let samples = assemble_process_sample(&mut collector, system, entries);
    let pids: Vec<i32> = samples.iter().map(|(p, _)| p.pid).collect();
    assert_eq!(pids, vec![7, 30]);
    let (first, deltas) = &samples[0];
    assert_eq!(first.identity, ProcessIdentity { pid: 7, start_time_ticks: 70 });
    assert_eq!(first.name, "ros_node");
    assert_eq!(first.ppid, 1);
    assert_eq!(first.memory_bytes, 2048 * 1024);
    assert_eq!(first.command, vec!["worker".to_owned(), "--flag".to_owned()]);
    assert_eq!(first.cgroup, vec!["/user.slice/app.scope".to_owned()]);
    assert_eq!(first.environment.get("ROS_DISTRO").map(String::as_str), Some("humble"));
    assert_eq!(samples[1].0.environment.get("ROS_DISTRO"), None);
    assert_eq!(first.cpu_percent_bits, 0);
    assert_eq!(*deltas, None);
    assert_eq!(collector.previous_system(), Some(system));
    assert_eq!(collector.previous_ticks(ProcessIdentity { pid: 7, start_time_ticks: 70 }), Some(30));
    assert_eq!(collector.previous_ticks(ProcessIdentity { pid: 30, start_time_ticks: 300 }), Some(10));
}

#[test]
fn process_sample_pairs_history_by_pid_and_start_time() {
    let mut collector = ProcCollector::new("/proc");
    let first = SystemCpuTicks { total_ticks: 1000, idle_ticks: 800, cpu_count: 4 };
    assemble_process_sample(&mut collector, first, vec![reads("7", Some(&stat(7, "n", 10, 20, 70)))]);
    let second = SystemCpuTicks { total_ticks: 1400, idle_ticks: 1100, cpu_count: 4 };
    let samples = assemble_process_sample(
        &mut collector,
        second,
        vec![reads("7", Some(&stat(7, "n", 50, 30, 70))), reads("8", Some(&stat(8, "m", 5, 5, 80)))],
    );
    assert_eq!(samples[0].1, Some((50, 400, 4)));
    assert_eq!(samples[1].1, None);

    // A reused PID with another start time has no history.
    let third = SystemCpuTicks { total_ticks: 1800, idle_ticks: 1300, cpu_count: 4 };
    let samples = assemble_process_sample(&mut collector, third, vec![reads("7", Some(&stat(7, "n", 60, 30, 99)))]);
    assert_eq!(samples[0].1, None);
    assert_eq!(collector.previous_ticks(ProcessIdentity { pid: 8, start_time_ticks: 80 }), None);
}

fn thread_stat(tid: i32, utime: u64, stime: u64, start: u64) -> String {
    format!(
        "{tid} (worker) S 1 0 0 0 0 0 0 0 0 0 0 {utime} {stime} 0 0 20 0 1 0 {start} 0 0 0 0 0 0 0 0 0 0 0 0 0 0 0 0 3 0 2"
    )
}

#[test]
fn thread_sample_is_sorted_and_unknown_without_history() {
    let mut collector = ThreadCollector::new("/proc");
    let process = ProcessIdentity { pid: 40, start_time_ticks: 400 };
    let other = ProcessIdentity { pid: 20, start_time_ticks: 200 };
    let system = SystemCpuTicks { total_ticks: 1000, idle_ticks: 800, cpu_count: 2 };
    let entries = vec![
        (process, "42".to_owned(), thread_stat(42, 10, 10, 420), None),
        (process, "41".to_owned(), thread_stat(41, 10, 0, 410), Some("Cpus_allowed_list:\t0-3\nvoluntary_ctxt_switches:\t7\n".to_owned())),
        (other, "21".to_owned(), thread_stat(21, 1, 1, 210), None),
        (other, "x".to_owned(), thread_stat(22, 1, 1, 220), None),
        (other, "23".to_owned(), "bad".to_owned(), None),
    ];
    let samples = assemble_thread_sample(&mut collector, system, entries);
    let keys: Vec<(i32, i32)> = samples.iter().map(|t| (t.pid, t.tid)).collect();
    assert_eq!(keys, vec![(20, 21), (40, 41), (40, 42)]);
    assert!(samples.iter().all(|t| t.cpu_deltas.is_none()));
    assert_eq!(samples[1].cpu_affinity.as_deref(), Some("0-3"));
    assert_eq!(samples[1].voluntary_context_switches, Some(7));
    assert_eq!(samples[1].involuntary_context_switches, None);
    assert_eq!(samples[1].scheduler.as_deref(), Some("SCHED_RR"));
    assert_eq!(samples[1].last_cpu, Some(3));

    let later = SystemCpuTicks { total_ticks: 1200, idle_ticks: 900, cpu_count: 2 };
    let samples = assemble_thread_sample(
        &mut collector,
        later,
        vec![(process, "41".to_owned(), thread_stat(41, 30, 0, 410), None)],
    );
    assert_eq!(samples[0].cpu_deltas, Some((20, 200, 2)));
    assert_eq!(
        collector.previous_ticks(ThreadIdentity { pid: 40, process_start_time_ticks: 400, tid: 41, start_time_ticks: 410 }),
        Some(30)
    );
}
