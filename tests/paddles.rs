use multipong::control::{Direction, UNIT};
use multipong::paddles::{JoinError, PaddleMatch, PaddleState, LEFT, RIGHT};

#[test]
fn fixed_roster_up_five_times() {
    let mut m: PaddleMatch<&str> = PaddleMatch::new();
    let (a, _) = m.join("A").ok().unwrap();
    let (b, _) = m.join("B").ok().unwrap();
    assert_eq!((a, b), (LEFT, RIGHT));
    let mut last = None;
    let mut n: u32 = 0;
    while n < 5 {
        last = m.input(a, Direction::Up);
        n += 1;
    }
    let last = last.unwrap();
    // 5 inputs of 5.0 units each: 25.0 units
    assert_eq!(last.state, PaddleState { left_y: 25 * UNIT as i64, right_y: 0 });
    assert_eq!(last.recipients, vec![LEFT, RIGHT]);
}

#[test]
fn third_connection_is_turned_away() {
    let mut m: PaddleMatch<u32> = PaddleMatch::new();
    m.join(1).ok().unwrap();
    m.join(2).ok().unwrap();
    let r = m.join(3);
    assert!(matches!(r, Err((JoinError::Full, 3))));
}

#[test]
fn freed_paddle_is_taken_by_the_next_join() {
    let mut m: PaddleMatch<u32> = PaddleMatch::new();
    m.join(1).ok().unwrap();
    m.join(2).ok().unwrap();
    m.input(LEFT, Direction::Down);
    let (h, b) = m.leave(LEFT).unwrap();
    assert_eq!(h, 1);
    assert_eq!(b.recipients, vec![RIGHT]);
    assert_eq!(b.state, PaddleState { left_y: -5 * UNIT as i64, right_y: 0 });
    let (id, b) = m.join(9).ok().unwrap();
    assert_eq!(id, LEFT);
    assert_eq!(b.recipients, vec![LEFT, RIGHT]);
    assert_eq!(m.handle(LEFT), Some(&9));
}

#[test]
fn input_for_unknown_paddle_is_dropped() {
    let mut m: PaddleMatch<u32> = PaddleMatch::new();
    m.join(1).ok().unwrap();
    assert!(m.input(3, Direction::Up).is_none());
    assert!(m.input(0, Direction::Up).is_none());
    assert_eq!(m.snapshot(), PaddleState { left_y: 0, right_y: 0 });
}

#[test]
fn still_direction_moves_nothing() {
    let mut m: PaddleMatch<u32> = PaddleMatch::new();
    m.join(1).ok().unwrap();
    let b = m.input(RIGHT, Direction::Still).unwrap();
    assert_eq!(b.state, PaddleState { left_y: 0, right_y: 0 });
    assert_eq!(b.recipients, vec![LEFT]);
}

#[test]
fn leave_of_free_paddle_is_a_no_op() {
    let mut m: PaddleMatch<u32> = PaddleMatch::new();
    m.join(1).ok().unwrap();
    assert!(m.leave(RIGHT).is_none());
    assert!(m.leave(LEFT).is_some());
    assert!(m.leave(LEFT).is_none());
}
