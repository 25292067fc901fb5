use server_monitor::counters::ProcessCounters;
use server_monitor::matcher::NameMatcher;
use server_monitor::snapshot::{
    group_by_command, retrieve_process_stats, sample_with, skip_missing, CollectError,
    GroupSnapshot,
};

fn process(pid: i32, command: &str, utime: u64) -> ProcessCounters {
    ProcessCounters {
        pid,
        command: String::from(command),
        utime,
        stime: 0,
        cutime: 0,
        cstime: 0,
        minflt: 0,
        cminflt: 0,
        majflt: 0,
        cmajflt: 0,
    }
}

fn read(stats: Vec<ProcessCounters>) -> Option<Vec<Option<ProcessCounters>>> {
    Some(stats.into_iter().map(Some).collect())
}

fn sample(names: &[&str], stats: Vec<ProcessCounters>) -> GroupSnapshot {
    match retrieve_process_stats(names, read(stats)) {
        Ok(snapshot) => snapshot,
        Err(error) => panic!("no sample: {:?}", error),
    }
}

fn sorted_names(snapshot: &GroupSnapshot) -> Vec<String> {
    let mut names = snapshot.names();
    names.sort();
    names
}

#[test]
fn processes_are_grouped_by_command_name() {
    let snapshot = sample(
        &["nginx", "http"],
        vec![
            process(1, "init", 1),
            process(20, "nginx", 2),
            process(21, "http", 3),
            process(22, "nginx", 4),
            process(23, "bash", 5),
        ],
    );
    assert_eq!(sorted_names(&snapshot), vec![String::from("http"), String::from("nginx")]);
    let nginx = snapshot.get("nginx").expect("nginx");
    assert_eq!(nginx, &vec![process(20, "nginx", 2), process(22, "nginx", 4)]);
    let http = snapshot.get("http").expect("http");
    assert_eq!(http, &vec![process(21, "http", 3)]);
    assert!(snapshot.get("init").is_none());
    assert!(snapshot.get("bash").is_none());
}

#[test]
fn a_name_without_a_process_gets_no_group() {
    let snapshot = sample(&["nginx", "http"], vec![process(20, "nginx", 2)]);
    assert!(snapshot.contains("nginx"));
    assert!(!snapshot.contains("http"));
    assert!(snapshot.get("http").is_none());
    assert_eq!(snapshot.names(), vec![String::from("nginx")]);
}

#[test]
fn no_readings_give_an_empty_sample() {
    let snapshot = sample(&["nginx"], Vec::new());
    assert!(snapshot.names().is_empty());
    assert!(!snapshot.contains("nginx"));
}

#[test]
fn a_longer_name_is_not_taken_for_a_target() {
    let snapshot = sample(
        &["http"],
        vec![process(1, "http-worker", 1), process(2, "http", 2), process(3, "xhttp", 3)],
    );
    assert_eq!(snapshot.names(), vec![String::from("http")]);
    assert_eq!(snapshot.get("http").expect("http"), &vec![process(2, "http", 2)]);
    assert!(!snapshot.contains("http-worker"));
    assert!(!snapshot.contains("xhttp"));
}

#[test]
fn a_name_with_special_characters_is_taken_literally() {
    let snapshot = sample(
        &["tmux: server", "a.b*c"],
        vec![
            process(1, "tmux: server", 1),
            process(2, "axbc", 2),
            process(3, "a.b*c", 3),
            process(4, "a.bbbc", 4),
        ],
    );
    assert_eq!(sorted_names(&snapshot), vec![String::from("a.b*c"), String::from("tmux: server")]);
    assert_eq!(snapshot.get("a.b*c").expect("a.b*c"), &vec![process(3, "a.b*c", 3)]);
    assert_eq!(
        snapshot.get("tmux: server").expect("tmux"),
        &vec![process(1, "tmux: server", 1)]
    );
}

#[test]
fn members_keep_the_order_of_the_readings() {
    let snapshot = sample(
        &["w"],
        vec![process(9, "w", 1), process(3, "w", 2), process(5, "x", 0), process(7, "w", 3)],
    );
    let pids: Vec<i32> = snapshot.get("w").expect("w").iter().map(|p| p.pid).collect();
    assert_eq!(pids, vec![9, 3, 7]);
}

#[test]
fn a_repeated_pid_is_refused() {
    let outcome = retrieve_process_stats(
        &["w"],
        read(vec![process(9, "w", 1), process(3, "x", 2), process(9, "y", 3)]),
    );
    match outcome {
        Err(CollectError::RepeatedPid) => {}
        Err(other) => panic!("another error: {:?}", other),
        Ok(_) => panic!("a sample"),
    }
}

#[test]
fn a_matcher_groups_the_readings() {
    let stats = vec![process(9, "w", 1), process(8, "v", 3)];
    match sample_with(&NameMatcher::new(&["v"]), stats) {
        Ok(snapshot) => {
            assert_eq!(snapshot.names(), vec![String::from("v")]);
            assert_eq!(snapshot.get("v").expect("v"), &vec![process(8, "v", 3)]);
        }
        Err(error) => panic!("no sample: {:?}", error),
    }
}

#[test]
fn a_matcher_refuses_a_repeated_pid() {
    let stats = vec![process(9, "w", 1), process(9, "w", 3)];
    match sample_with(&NameMatcher::new(&["w"]), stats) {
        Err(error) => assert_eq!(error, CollectError::RepeatedPid),
        Ok(_) => panic!("a sample"),
    }
}

#[test]
fn a_table_that_cannot_be_listed_gives_no_sample() {
    match retrieve_process_stats(&["nginx"], None) {
        Err(error) => assert_eq!(error, CollectError::EnumerationFailed),
        Ok(_) => panic!("a sample"),
    }
    match retrieve_process_stats(&[], None) {
        Err(error) => assert_eq!(error, CollectError::EnumerationFailed),
        Ok(_) => panic!("a sample"),
    }
}

#[test]
fn names_of_any_characters_give_a_sample() {
    let names = ["a(b", "[", "*", "+?", "{1", "tmux: server"];
    let snapshot = sample(
        &names,
        vec![
            process(1, "a(b", 1),
            process(2, "[", 2),
            process(3, "ab", 3),
            process(4, "+?", 4),
            process(5, "{1", 5),
            process(6, "{1}", 6),
            process(7, "*", 7),
            process(8, "[", 8),
        ],
    );
    assert_eq!(
        sorted_names(&snapshot),
        vec![
            String::from("*"),
            String::from("+?"),
            String::from("["),
            String::from("a(b"),
            String::from("{1"),
        ]
    );
    assert_eq!(snapshot.get("[").expect("["), &vec![process(2, "[", 2), process(8, "[", 8)]);
    assert_eq!(snapshot.get("a(b").expect("a(b"), &vec![process(1, "a(b", 1)]);
    assert!(!snapshot.contains("ab"));
    assert!(!snapshot.contains("{1}"));
}

#[test]
fn grouping_takes_what_the_matcher_accepts() {
    let matcher = NameMatcher::new(&["a", "b"]);
    let snapshot = group_by_command(
        &matcher,
        vec![process(1, "a", 1), process(2, "c", 2), process(3, "b", 3), process(4, "a", 4)],
    );
    assert_eq!(sorted_names(&snapshot), vec![String::from("a"), String::from("b")]);
    assert_eq!(snapshot.get("a").expect("a").len(), 2);
    assert_eq!(snapshot.get("b").expect("b").len(), 1);
}

#[test]
fn too_many_target_names_for_an_expression_still_give_a_sample() {
    let owned: Vec<String> = (0..20_000).map(|i| format!("process-number-{}", i)).collect();
    let names: Vec<&str> = owned.iter().map(|s| s.as_str()).collect();
    let snapshot = sample(
        &names,
        vec![
            process(1, "process-number-7", 1),
            process(2, "process-number-20000", 2),
            process(3, "process-number-19999", 3),
            process(4, "process-number-7", 4),
        ],
    );
    assert_eq!(
        sorted_names(&snapshot),
        vec![String::from("process-number-19999"), String::from("process-number-7")]
    );
    assert_eq!(
        snapshot.get("process-number-7").expect("7"),
        &vec![process(1, "process-number-7", 1), process(4, "process-number-7", 4)]
    );
}

#[test]
fn a_thousand_target_names_give_a_sample() {
    let owned: Vec<String> = (0..1000).map(|i| format!("process-number-{}", i)).collect();
    let names: Vec<&str> = owned.iter().map(|s| s.as_str()).collect();
    let snapshot = sample(
        &names,
        vec![process(1, "process-number-999", 1), process(2, "process-number-1000", 2)],
    );
    assert_eq!(snapshot.names(), vec![String::from("process-number-999")]);
}

#[test]
fn a_process_that_could_not_be_read_is_left_out() {
    let entries = vec![
        None,
        Some(process(20, "nginx", 2)),
        None,
        None,
        Some(process(21, "http", 3)),
        Some(process(22, "nginx", 4)),
        None,
    ];
    assert_eq!(
        skip_missing(entries.clone()),
        vec![process(20, "nginx", 2), process(21, "http", 3), process(22, "nginx", 4)]
    );
    let snapshot = match retrieve_process_stats(&["nginx"], Some(entries)) {
        Ok(snapshot) => snapshot,
        Err(error) => panic!("no sample: {:?}", error),
    };
    assert_eq!(snapshot.names(), vec![String::from("nginx")]);
    assert_eq!(
        snapshot.get("nginx").expect("nginx"),
        &vec![process(20, "nginx", 2), process(22, "nginx", 4)]
    );
}

#[test]
fn nothing_readable_gives_an_empty_sample() {
    assert_eq!(skip_missing(Vec::new()), Vec::new());
    assert_eq!(skip_missing(vec![None, None]), Vec::new());
    let snapshot = match retrieve_process_stats(&["nginx"], Some(vec![None, None, None])) {
        Ok(snapshot) => snapshot,
        Err(error) => panic!("no sample: {:?}", error),
    };
    assert!(snapshot.names().is_empty());
}
