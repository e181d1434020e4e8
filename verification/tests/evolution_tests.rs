use dial_theory::evolution::{simulate, EvolutionTimeline};

fn move_toward(p: (f64, f64), target: (f64, f64), factor: f64) -> (f64, f64) {
    let w = 1.0 - factor;
    (p.0 * w + target.0 * (1.0 - w), p.1 * w + target.1 * (1.0 - w))
}

#[test]
fn test_timeline_current() {
    let tl = EvolutionTimeline::new("test", (42.0_f64, 0.0_f64));
    assert!((tl.current().0 - 42.0).abs() < 1e-10);
}

#[test]
fn record_makes_the_position_current() {
    let mut tl = EvolutionTimeline::new("test", (0.0, 0.0));
    tl.record(1, (3.0, 4.0));
    tl.record(2, (6.0, 8.0));
    assert_eq!(*tl.current(), (6.0, 8.0));
    assert_eq!(tl.steps, vec![0, 1, 2]);
    assert_eq!(tl.positions.len(), 3);
    assert_eq!(tl.name, "test");
}

#[test]
fn test_simulate_drift() {
    let names = vec!["a".to_string(), "b".to_string()];
    let initial = vec![(0.0, 0.0), (10.0, 0.0)];
    let targets = vec![(5.0, 0.0), (5.0, 0.0)];
    let timelines = simulate(&names, &initial, 10, |i, p| move_toward(p, targets[i], 0.5));
    assert_eq!(timelines.len(), 2);
    assert!(timelines[0].current().0 > 0.0);
    assert!(timelines[1].current().0 < 10.0);
}

#[test]
fn test_simulate_convergence() {
    let names = vec!["a".to_string(), "b".to_string()];
    let initial = vec![(0.0, 0.0), (10.0, 10.0)];
    let centroid = (5.0, 5.0);
    let timelines = simulate(&names, &initial, 50, |_, p| move_toward(p, centroid, 0.3));
    let pos_a = timelines[0].current();
    let pos_b = timelines[1].current();
    assert!((pos_a.0 - 5.0).abs() < 1.0);
    assert!((pos_b.0 - 5.0).abs() < 1.0);
}

#[test]
fn simulation_records_every_step() {
    let names = vec!["a".to_string()];
    let initial = vec![1u64];
    let timelines = simulate(&names, &initial, 3, |_, p| p * 2);
    assert_eq!(timelines[0].steps, vec![0, 1, 2, 3]);
    assert_eq!(timelines[0].positions, vec![1, 2, 4, 8]);
    assert_eq!(timelines[0].name, "a");
    let none = simulate(&names, &initial, 0, |_, p| p + 1);
    assert_eq!(none[0].positions, vec![1]);
}
