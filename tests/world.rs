use multipong::control::{ControlDelta, DIAG, UNIT};
use multipong::world::{ActorState, World};

#[test]
fn join_spawns_at_origin() {
    let mut w = World::new();
    assert_eq!(w.join(7), ActorState { actor_id: 7, x: 0, y: 0 });
    assert!(w.contains(7));
    assert_eq!(w.len(), 1);
}

#[test]
fn join_of_present_actor_changes_nothing() {
    let mut w = World::new();
    w.join(1);
    w.apply(1, ControlDelta { dx: UNIT, dy: 0 });
    assert_eq!(w.join(1), ActorState { actor_id: 1, x: 5 * UNIT as i64, y: 0 });
    assert_eq!(w.len(), 1);
}

#[test]
fn apply_moves_by_speed_times_delta() {
    let mut w = World::new();
    w.join(3);
    w.join(4);
    assert!(w.apply(3, ControlDelta { dx: 0, dy: -UNIT }));
    assert!(w.apply(4, ControlDelta { dx: UNIT, dy: 0 }));
    assert_eq!(
        w.snapshot(),
        vec![ActorState { actor_id: 3, x: 0, y: -5 * UNIT as i64 }, ActorState { actor_id: 4, x: 5 * UNIT as i64, y: 0 }]
    );
}

#[test]
fn apply_normalizes_a_diagonal() {
    let mut w = World::new();
    w.join(0);
    assert!(w.apply(0, ControlDelta { dx: UNIT, dy: UNIT }));
    assert_eq!(w.snapshot(), vec![ActorState { actor_id: 0, x: 5 * DIAG as i64, y: 5 * DIAG as i64 }]);
    assert!(w.apply(0, ControlDelta { dx: -DIAG, dy: DIAG }));
    assert_eq!(w.snapshot(), vec![ActorState { actor_id: 0, x: 0, y: 10 * DIAG as i64 }]);
    assert!(w.apply(0, ControlDelta { dx: -500000, dy: 300000 }));
    assert_eq!(w.snapshot(), vec![ActorState { actor_id: 0, x: -2500000, y: 10 * DIAG as i64 + 1500000 }]);
}

#[test]
fn apply_to_absent_actor_is_a_no_op() {
    let mut w = World::new();
    w.join(0);
    assert!(!w.apply(9, ControlDelta { dx: UNIT, dy: UNIT }));
    assert_eq!(w.snapshot(), vec![ActorState { actor_id: 0, x: 0, y: 0 }]);
}

#[test]
fn repeated_inputs_accumulate() {
    let mut w = World::new();
    w.join(0);
    let mut n: u64 = 0;
    while n < 3 {
        w.apply(0, ControlDelta { dx: UNIT, dy: -UNIT });
        n += 1;
    }
    assert_eq!(w.snapshot(), vec![ActorState { actor_id: 0, x: 15 * DIAG as i64, y: -15 * DIAG as i64 }]);
}

#[test]
fn join_then_leave_leaves_no_trace() {
    let mut w = World::new();
    w.join(0);
    let before = w.snapshot();
    w.join(5);
    assert!(w.leave(5));
    assert!(!w.contains(5));
    assert_eq!(w.snapshot(), before);
}

#[test]
fn leave_twice_is_leave_once() {
    let mut w = World::new();
    w.join(0);
    w.join(1);
    assert!(w.leave(0));
    let once = w.snapshot();
    assert!(!w.leave(0));
    assert_eq!(w.snapshot(), once);
}

#[test]
fn leave_keeps_the_order_of_the_rest() {
    let mut w = World::new();
    w.join(0);
    w.join(1);
    w.join(2);
    w.leave(1);
    let ids: Vec<u64> = w.snapshot().iter().map(|a| a.actor_id).collect();
    assert_eq!(ids, vec![0, 2]);
}

#[test]
fn snapshot_does_not_alias_the_world() {
    let mut w = World::new();
    w.join(0);
    let snap = w.snapshot();
    w.apply(0, ControlDelta { dx: 0, dy: UNIT });
    assert_eq!(snap, vec![ActorState { actor_id: 0, x: 0, y: 0 }]);
}
