use rsi_processor::registry::Registry;

/// Runs one broadcast in which the connections listed in `failing` fail;
/// returns the connections a send was attempted on.
fn broadcast(reg: &mut Registry<u32>, failing: &[u32]) -> Vec<u32> {
    let attempted = reg.begin_broadcast();
    let seen = attempted.clone();
    let delivered: Vec<bool> = attempted.iter().map(|c| !failing.contains(c)).collect();
    reg.finish_broadcast(attempted, &delivered);
    seen
}

#[test]
fn failed_connections_are_pruned() {
    let mut reg: Registry<u32> = Registry::new();
    for c in 0..5 {
        reg.register(c);
    }
    assert_eq!(reg.len(), 5);
    assert_eq!(broadcast(&mut reg, &[1, 3]), vec![0, 1, 2, 3, 4]);
    assert_eq!(reg.len(), 3);
    assert_eq!(broadcast(&mut reg, &[]), vec![0, 2, 4]);
    assert_eq!(reg.len(), 3);
}

#[test]
fn empty_registry_broadcast_is_silent() {
    let mut reg: Registry<u32> = Registry::new();
    assert_eq!(broadcast(&mut reg, &[]), Vec::<u32>::new());
    assert_eq!(reg.len(), 0);
}

#[test]
fn registration_during_broadcast_is_kept() {
    let mut reg: Registry<u32> = Registry::new();
    reg.register(1);
    reg.register(2);
    let attempted = reg.begin_broadcast();
    assert_eq!(reg.len(), 0);
    reg.register(3);
    reg.finish_broadcast(attempted, &vec![false, true]);
    assert_eq!(reg.len(), 2);
    assert_eq!(broadcast(&mut reg, &[]), vec![2, 3]);
}

#[test]
fn all_failing_empties_registry() {
    let mut reg: Registry<u32> = Registry::new();
    for c in 0..4 {
        reg.register(c);
    }
    assert_eq!(broadcast(&mut reg, &[0, 1, 2, 3]).len(), 4);
    assert_eq!(reg.len(), 0);
    assert_eq!(broadcast(&mut reg, &[]).len(), 0);
}
