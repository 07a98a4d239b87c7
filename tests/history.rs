use arcade_desktop::history::RollingHistory;

fn contents(h: &RollingHistory<u32>) -> Vec<u32> {
    (0..h.len()).map(|i| *h.get(i)).collect()
}

#[test]
fn history_evicts_oldest_when_full() {
    let mut h = RollingHistory::new(3);
    for v in 1..=5u32 {
        h.push(v);
    }
    assert_eq!(contents(&h), vec![3, 4, 5]);
    assert_eq!(h.capacity(), 3);
}

#[test]
fn history_below_capacity_keeps_everything() {
    let mut h = RollingHistory::new(4);
    h.push(7);
    h.push(8);
    assert_eq!(contents(&h), vec![7, 8]);
}

#[test]
fn zero_capacity_history_stays_empty() {
    let mut h = RollingHistory::new(0);
    h.push(1);
    assert_eq!(h.len(), 0);
}

#[test]
fn history_of_levels_gives_mean_of_recent() {
    let mut h: RollingHistory<f32> = RollingHistory::new(2);
    for v in [0.5f32, 1.0, 0.0] {
        h.push(v);
    }
    let sum: f32 = (0..h.len()).map(|i| *h.get(i)).sum();
    assert_eq!(sum / h.len() as f32, 0.5);
}
