use audio_spectrum::refresh::{is_time_to_update, refresh_due, RefreshGate, TERMINAL_INTERVAL_MS, UPDATE_INTERVAL_MS};

#[test]
fn bar_displays_update_after_interval() {
    assert!(!is_time_to_update(99, 3));
    assert!(is_time_to_update(100, 3));
    assert!(!is_time_to_update(500, 0));
    assert_eq!(UPDATE_INTERVAL_MS, 100);
}

#[test]
fn terminal_refresh_due() {
    assert!(!refresh_due(999, TERMINAL_INTERVAL_MS, 5));
    assert!(refresh_due(1000, TERMINAL_INTERVAL_MS, 5));
}

#[test]
fn gate_counts_frames_until_refresh() {
    let mut gate = RefreshGate::new(100);
    assert_eq!(gate.on_frame(10), None);
    assert_eq!(gate.on_frame(50), None);
    assert_eq!(gate.count(), 2);
    assert_eq!(gate.on_frame(120), Some(3));
    assert_eq!(gate.count(), 0);
    assert_eq!(gate.on_frame(5), None);
    assert_eq!(gate.count(), 1);
}

#[test]
fn frames_conserved_over_a_run() {
    let mut gate = RefreshGate::new(1000);
    let elapsed = [0u64, 400, 1000, 1, 2, 3000, 7];
    let mut total = 0usize;
    for e in elapsed {
        if let Some(n) = gate.on_frame(e) {
            total += n;
        }
    }
    assert_eq!(total + gate.count(), elapsed.len());
    assert_eq!(total, 6);
}

#[test]
fn refreshes_are_spaced_by_the_interval() {
    let times = [50u64, 600, 999, 1000, 1500, 1999, 2000, 2600, 3100];
    let mut gate = RefreshGate::new(TERMINAL_INTERVAL_MS);
    let mut last = 0u64;
    let mut refreshes = Vec::new();
    for t in times {
        if gate.on_frame(t - last).is_some() {
            refreshes.push(t);
            last = t;
        }
    }
    assert_eq!(refreshes, vec![1000, 2000, 3100]);
}
