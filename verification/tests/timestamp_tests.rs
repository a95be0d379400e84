use traffic_link::timestamp::LastExecution;

#[test]
fn interval_between_two_sequential_commands() {
    // two commands 2.5 s apart are logged 2500 ms apart
    let mut le = LastExecution::new(10_000);
    let interval = le.record(12_500);
    assert_eq!(interval, 2500);
    assert_eq!(le.last_ms, 12_500);
}

#[test]
fn interval_is_floored_at_zero_on_clock_skew() {
    let mut le = LastExecution::new(5_000);
    let interval = le.record(4_000);
    assert_eq!(interval, 0);
    assert_eq!(le.last_ms, 4_000);
}

#[test]
fn n_commands_give_exactly_n_updates() {
    let mut le = LastExecution::new(0);
    let times: Vec<u64> = (1..=12).map(|i| i * 100).collect();
    let intervals = le.record_all(&times);
    assert_eq!(intervals.len(), 12);
    assert!(intervals.iter().all(|&iv| iv == 100));
    assert_eq!(le.last_ms, 1200);
}

#[test]
fn intervals_pair_each_command_with_its_predecessor() {
    let mut le = LastExecution::new(100);
    let times: Vec<u64> = vec![400, 450, 1450, 1400];
    let intervals = le.record_all(&times);
    assert_eq!(intervals, vec![300, 50, 1000, 0]);
    assert_eq!(le.last_ms, 1400);
}
