use traffic_link::phase::{current_time_seconds, phase_state};

#[test]
fn clock_step_is_three_seconds() {
    // t = 1.0 after ten steps of 0.1; one logical unit is thirty seconds.
    assert_eq!(current_time_seconds(0), 0);
    assert_eq!(current_time_seconds(1), 3);
    assert_eq!(current_time_seconds(10), 30);
}

#[test]
fn phase_cycles_every_thirty_seconds() {
    assert_eq!(phase_state(0).phase_index, 0);
    assert_eq!(phase_state(29).phase_index, 0);
    assert_eq!(phase_state(30).phase_index, 1);
    assert_eq!(phase_state(60).phase_index, 2);
    assert_eq!(phase_state(90).phase_index, 3);
    assert_eq!(phase_state(120).phase_index, 0);
}

#[test]
fn min_green_threshold_at_ten_seconds() {
    let early = phase_state(35);
    assert_eq!(early.time_in_phase, 5);
    assert!(!early.min_green);

    let late = phase_state(41);
    assert_eq!(late.time_in_phase, 11);
    assert!(late.min_green);

    assert!(!phase_state(39).min_green);
    assert!(phase_state(40).min_green);
}
