use ubiblk::push_gate::{PushGate, PushPermit};

#[test]
fn a_permit_returns_its_slot_when_dropped() {
    let mut gate = PushGate::new(2);
    let first = gate.acquire().unwrap();
    let _second = gate.acquire().unwrap();
    assert_eq!(gate.queued(), 2);
    gate.release(first);
    assert_eq!(gate.queued(), 1);
}

#[test]
fn acquiring_waits_while_the_worker_is_behind() {
    let mut gate = PushGate::new(1);
    let held = gate.acquire().unwrap();
    assert!(gate.acquire().is_none(), "the slot is taken, so the next push has to wait");
    gate.release(held);
    assert!(gate.acquire().is_some());
}

#[test]
fn an_unbounded_permit_gates_nothing() {
    let mut gate = PushGate::new(1);
    let _held = gate.acquire().unwrap();
    gate.release(PushPermit::unbounded());
    assert_eq!(gate.queued(), 1);
    assert!(gate.acquire().is_none());
}

/// What is queued is the permits that are out, whatever the order they come
/// back in.
#[test]
fn queued_counts_the_permits_that_are_out() {
    let mut gate = PushGate::new(3);
    let mut held = Vec::new();
    for taken in 1..=3 {
        held.push(gate.acquire().expect("a free slot"));
        assert_eq!(gate.queued(), taken);
    }
    assert!(gate.acquire().is_none());
    assert_eq!(gate.queued(), held.len());
    gate.release(held.remove(1));
    assert_eq!(gate.queued(), held.len());
    held.push(gate.acquire().expect("the slot that came back"));
    gate.release(PushPermit::unbounded());
    assert_eq!(gate.queued(), held.len());
    for permit in held {
        gate.release(permit);
    }
    assert_eq!(gate.queued(), 0);
}
