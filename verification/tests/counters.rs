use server_monitor::counters::{DiffStat, ProcessCounters, ProcessDiffStat};

fn sample_process() -> ProcessCounters {
    ProcessCounters {
        pid: 100,
        command: String::from("proc1"),
        utime: 50,
        stime: 7,
        cutime: 11,
        cstime: 13,
        minflt: 3,
        cminflt: 17,
        majflt: 19,
        cmajflt: 23,
    }
}

fn stat_of(values: [i128; 8]) -> DiffStat {
    DiffStat {
        utime: values[0],
        stime: values[1],
        cutime: values[2],
        cstime: values[3],
        minflt: values[4],
        cminflt: values[5],
        majflt: values[6],
        cmajflt: values[7],
    }
}

#[test]
fn new_diff_stat_is_zero_in_every_field() {
    assert_eq!(DiffStat::new(), stat_of([0; 8]));
}

#[test]
fn new_from_copies_each_counter_into_its_own_field() {
    let copy = DiffStat::new_from(&sample_process());
    assert_eq!(copy, stat_of([50, 7, 11, 13, 3, 17, 19, 23]));
}

#[test]
fn new_from_holds_the_largest_counter() {
    let mut process = sample_process();
    process.majflt = u64::MAX;
    let copy = DiffStat::new_from(&process);
    assert_eq!(copy.majflt, 18_446_744_073_709_551_615i128);
}

#[test]
fn add_is_field_wise() {
    let sum = stat_of([1, 2, 3, 4, 5, 6, 7, 8]).add(stat_of([10, 20, 30, 40, 50, 60, 70, 80]));
    assert_eq!(sum, stat_of([11, 22, 33, 44, 55, 66, 77, 88]));
}

#[test]
fn add_zero_changes_nothing() {
    let some = stat_of([1, -2, 3, -4, 5, -6, 7, -8]);
    assert_eq!(some.add(DiffStat::new()), some);
    assert_eq!(DiffStat::new().add(some), some);
}

#[test]
fn sub_is_field_wise_and_may_go_negative() {
    let difference =
        stat_of([1, 2, 3, 4, 5, 6, 7, 8]).sub(stat_of([10, 1, 30, 1, 50, 1, 70, 1]));
    assert_eq!(difference, stat_of([-9, 1, -27, 3, -45, 5, -63, 7]));
}

#[test]
fn sub_of_itself_is_zero() {
    let some = stat_of([1, 2, 3, 4, 5, 6, 7, 8]);
    assert_eq!(some.sub(some), DiffStat::new());
}

#[test]
fn add_stat_adds_the_counters_of_a_process() {
    let sum = stat_of([1, 1, 1, 1, 1, 1, 1, 1]).add_stat(&sample_process());
    assert_eq!(sum, stat_of([51, 8, 12, 14, 4, 18, 20, 24]));
}

#[test]
fn sub_stat_subtracts_the_counters_of_a_process() {
    let difference = stat_of([60, 7, 10, 13, 3, 17, 19, 0]).sub_stat(&sample_process());
    assert_eq!(difference, stat_of([10, 0, -1, 0, 0, 0, 0, -23]));
}

#[test]
fn process_diff_stat_keeps_pid_and_counters() {
    let entry = ProcessDiffStat::new_from(&sample_process());
    assert_eq!(entry.pid, 100);
    assert_eq!(entry.stat, stat_of([50, 7, 11, 13, 3, 17, 19, 23]));
}

#[test]
fn fields_of_the_process_table_give_a_reading() {
    let reading =
        ProcessCounters::from_fields(100, String::from("proc1"), 50, 7, 11, 13, 3, 17, 19, 23);
    assert_eq!(reading, Some(sample_process()));
}

#[test]
fn the_largest_fields_give_a_reading() {
    let reading = ProcessCounters::from_fields(
        i32::MAX,
        String::new(),
        i64::MAX,
        0,
        i64::MAX,
        0,
        u64::MAX,
        0,
        u64::MAX,
        0,
    );
    let reading = reading.expect("a reading");
    assert_eq!(reading.pid, i32::MAX);
    assert_eq!(reading.command, "");
    assert_eq!(reading.utime, 9_223_372_036_854_775_807);
    assert_eq!(reading.cutime, 9_223_372_036_854_775_807);
    assert_eq!(reading.minflt, u64::MAX);
    assert_eq!(reading.majflt, u64::MAX);
    assert_eq!(reading.stime + reading.cstime + reading.cminflt + reading.cmajflt, 0);
}

#[test]
fn a_negative_cpu_time_gives_no_reading() {
    let name = || String::from("proc1");
    assert_eq!(ProcessCounters::from_fields(1, name(), -1, 0, 0, 0, 0, 0, 0, 0), None);
    assert_eq!(ProcessCounters::from_fields(1, name(), 0, -1, 0, 0, 0, 0, 0, 0), None);
    assert_eq!(ProcessCounters::from_fields(1, name(), 0, 0, -1, 0, 0, 0, 0, 0), None);
    assert_eq!(ProcessCounters::from_fields(1, name(), 0, 0, 0, i64::MIN, 0, 0, 0, 0), None);
    assert!(ProcessCounters::from_fields(-1, name(), 0, 0, 0, 0, 0, 0, 0, 0).is_some());
}
