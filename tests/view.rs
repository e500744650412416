use multipong::view::{player_id_from_state, reconcile, Spawn};
use multipong::world::ActorState;

fn actor(id: u64, x: i64, y: i64) -> ActorState {
    ActorState { actor_id: id, x, y }
}

#[test]
fn own_id_is_the_highest() {
    assert_eq!(player_id_from_state(&vec![actor(0, 0, 0), actor(5, 1, 1), actor(2, 0, 0)]), 5);
    assert_eq!(player_id_from_state(&vec![actor(3, 0, 0)]), 3);
}

#[test]
fn reconcile_splits_the_snapshot() {
    let shown = vec![0, 1, 2];
    let state = vec![actor(0, 10, 0), actor(2, 0, 0), actor(3, 0, 0)];
    let c = reconcile(&shown, &state, Some(0));
    assert_eq!(c.despawn, vec![1]);
    assert_eq!(c.update, vec![actor(0, 10, 0), actor(2, 0, 0)]);
    assert_eq!(c.spawn, vec![Spawn { actor: actor(3, 0, 0), own: false }]);
}

#[test]
fn reconcile_on_an_empty_display_spawns_all() {
    let state = vec![actor(7, 0, 0), actor(8, 0, 0)];
    let c = reconcile(&vec![], &state, Some(8));
    assert!(c.despawn.is_empty());
    assert!(c.update.is_empty());
    assert_eq!(
        c.spawn,
        vec![Spawn { actor: actor(7, 0, 0), own: false }, Spawn { actor: actor(8, 0, 0), own: true }]
    );
}

#[test]
fn reconcile_on_an_empty_snapshot_despawns_all() {
    let c = reconcile(&vec![4, 9], &vec![], None);
    assert_eq!(c.despawn, vec![4, 9]);
    assert!(c.update.is_empty());
    assert!(c.spawn.is_empty());
}

#[test]
fn reconcile_without_an_own_id_marks_nothing() {
    let c = reconcile(&vec![], &vec![actor(1, 0, 0)], None);
    assert_eq!(c.spawn, vec![Spawn { actor: actor(1, 0, 0), own: false }]);
}
