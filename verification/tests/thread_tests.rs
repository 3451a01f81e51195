use proc_lens::collector::thread::{parse_thread_stat, scheduler_name, status_u64, status_value};

#[test]
fn parses_thread_stat_with_cpu_and_policy() {
    let input = "4391 (mapping worker) S 4382 0 0 0 0 0 0 0 0 0 0 100 20 0 0 20 0 1 0 123456 0 0 0 0 0 0 0 0 0 0 0 0 0 0 0 0 4 0 0";
    let stat = parse_thread_stat(input).expect("thread stat should parse");
    assert_eq!(stat.tid, 4391);
    assert_eq!(stat.name, "mapping worker");
    assert_eq!(stat.cpu_ticks(), 120);
    assert_eq!(stat.start_time_ticks, 123456);
    assert_eq!(stat.last_cpu, 4);
    assert_eq!(stat.priority, 20);
    assert_eq!(stat.policy, 0);
}

#[test]
fn parses_optional_status_facts_without_fabricating_defaults() {
    let input = "Cpus_allowed_list:\t0-3\nvoluntary_ctxt_switches:\t42\n";
    assert_eq!(status_value(input, "Cpus_allowed_list").as_deref(), Some("0-3"));
    assert_eq!(status_u64(input, "voluntary_ctxt_switches"), Some(42));
    assert_eq!(status_u64(input, "nonvoluntary_ctxt_switches"), None);
}

#[test]
fn scheduler_policy_has_explicit_unknown_semantics() {
    assert_eq!(scheduler_name(0), "SCHED_OTHER");
    assert_eq!(scheduler_name(99), "UNKNOWN(99)");
}

#[test]
fn thread_stat_with_too_few_fields_is_rejected() {
    assert!(parse_thread_stat("4391 (w) S 1 2 3").is_err());
}
