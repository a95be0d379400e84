use traffic_link::client::Detector;
use traffic_link::state_vector::{Mode, LANE_COUNT};

fn sample_curves(t_tenths: u64) -> (Vec<u32>, Vec<u32>) {
    // closed-form sinusoid sampling, as the detector process does it
    let t = t_tenths as f64 * 0.1;
    let density: Vec<u32> = (0..LANE_COUNT)
        .map(|i| ((((t + i as f64 * 0.1).sin() * 0.4 + 0.5) * 100.0 * 100.0).round() as u32).min(10000))
        .collect();
    let queue: Vec<u32> = (0..LANE_COUNT)
        .map(|i| ((((t + i as f64 * 0.2).cos() * 0.4 + 0.5) * 100.0 * 100.0).round() as u32).min(10000))
        .collect();
    (density, queue)
}

#[test]
fn the_logical_clock_advances_even_without_a_connection() {
    let mut det = Detector::new(Mode::Full);
    let (density, queue) = sample_curves(det.t_tenths);
    let payload = det.cycle(false, &density, &queue);
    assert!(payload.is_none());
    assert_eq!(det.t_tenths, 1);
    let (density, queue) = sample_curves(det.t_tenths);
    let payload = det.cycle(true, &density, &queue);
    assert!(payload.is_some());
    assert_eq!(det.t_tenths, 2);
}

#[test]
fn a_stub_agent_receives_a_valid_full_mode_payload() {
    // one cycle against a listening stub: the payload it reads is a valid
    // JSON array of 43 numbers
    let mut det = Detector::new(Mode::Full);
    let (density, queue) = sample_curves(det.t_tenths);
    let payload = det.cycle(true, &density, &queue).expect("connected cycle sends");
    let received: Vec<f64> = serde_json::from_slice(&payload).expect("valid JSON");
    assert_eq!(received.len(), 43);
    assert!(received.iter().all(|&v| (0.0..=100.0).contains(&v)));
    // phase 0 at t = 0, min-green not yet satisfied
    assert_eq!(&received[0..5], &[1.0, 0.0, 0.0, 0.0, 0.0]);
}

#[test]
fn a_stub_agent_receives_a_valid_reduced_mode_payload() {
    let mut det = Detector::new(Mode::Reduced);
    let (density, queue) = sample_curves(det.t_tenths);
    let payload = det.cycle(true, &density, &queue).expect("connected cycle sends");
    let received: Vec<f64> = serde_json::from_slice(&payload).expect("valid JSON");
    assert_eq!(received.len(), 38);
    assert!(received.iter().all(|&v| (0.0..=100.0).contains(&v)));
}

#[test]
fn a_cycle_payload_round_trips_through_the_wire_form() {
    let mut det = Detector::new(Mode::Full);
    let (density, queue) = sample_curves(3);
    det.cycle(false, &density, &queue);
    det.cycle(false, &density, &queue);
    det.cycle(false, &density, &queue);
    let payload = det.cycle(true, &density, &queue).expect("connected cycle sends");
    let values = traffic_link::wire::parse_payload(&payload).expect("own wire form parses");
    assert_eq!(values.len(), 43);
    assert_eq!(&values[5..24], density.as_slice());
    assert_eq!(&values[24..43], queue.as_slice());
}

#[test]
fn sampled_curves_stay_inside_the_documented_range() {
    for step in 0..300u64 {
        let (density, queue) = sample_curves(step);
        assert!(density.iter().all(|&q| q <= 10000));
        assert!(queue.iter().all(|&q| q <= 10000));
    }
}
