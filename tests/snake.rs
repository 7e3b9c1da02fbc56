use snake_game::snake::{Direction, Snake};

#[test]
fn array_direction_up() {
    assert_eq!(Direction::Up.as_array(), [0, -1])
}

#[test]
fn array_direction_down() {
    assert_eq!(Direction::Down.as_array(), [0, 1])
}

#[test]
fn array_direction_left() {
    assert_eq!(Direction::Left.as_array(), [-1, 0])
}

#[test]
fn array_direction_right() {
    assert_eq!(Direction::Right.as_array(), [1, 0])
}

#[test]
fn opposite_direction_up() {
    assert_eq!(Direction::Up.opposite(), Direction::Down)
}

#[test]
fn opposite_direction_down() {
    assert_eq!(Direction::Down.opposite(), Direction::Up)
}

#[test]
fn opposite_direction_left() {
    assert_eq!(Direction::Left.opposite(), Direction::Right)
}

#[test]
fn opposite_direction_right() {
    assert_eq!(Direction::Right.opposite(), Direction::Left)
}

const ALL: [Direction; 4] = [Direction::Up, Direction::Down, Direction::Left, Direction::Right];

#[test]
fn opposite_twice_is_identity() {
    for d in ALL {
        assert_eq!(d.opposite().opposite(), d);
    }
}

#[test]
fn opposite_step_is_negated() {
    for d in ALL {
        let a = d.as_array();
        let b = d.opposite().as_array();
        assert_eq!(b, [-a[0], -a[1]]);
    }
}

#[test]
fn new_snake_has_three_cells_heading_right() {
    let s = Snake::new(2, 2);
    assert_eq!(s.len(), 3);
    assert_eq!(s.head_direction(), Direction::Right);
    assert_eq!(s.head_position(), (4, 2));
    assert_eq!(s.cells(), vec![(4, 2), (3, 2), (2, 2)]);
}

#[test]
fn next_head_is_pure_and_repeatable() {
    let s = Snake::new(2, 2);
    let a = s.next_head(None);
    let b = s.next_head(None);
    assert_eq!(a, (5, 2));
    assert_eq!(a, b);
    assert_eq!(s.next_head(Some(Direction::Up)), (4, 1));
    assert_eq!(s.next_head(Some(Direction::Up)), (4, 1));
    assert_eq!(s.head_position(), (4, 2));
}

#[test]
fn move_forward_shifts_body_and_sets_heading() {
    let mut s = Snake::new(2, 2);
    s.move_forward(Some(Direction::Down));
    assert_eq!(s.cells(), vec![(4, 3), (4, 2), (3, 2)]);
    assert_eq!(s.head_direction(), Direction::Down);
    s.move_forward(None);
    assert_eq!(s.cells(), vec![(4, 4), (4, 3), (4, 2)]);
    assert_eq!(s.head_direction(), Direction::Down);
}

#[test]
fn restore_tail_puts_back_the_dropped_cell() {
    let mut s = Snake::new(2, 2);
    s.move_forward(None);
    s.restore_tail();
    assert_eq!(s.cells(), vec![(5, 2), (4, 2), (3, 2), (2, 2)]);
    assert_eq!(s.len(), 4);
    assert!(s.overlap_tail(2, 2));
}

#[test]
fn restore_tail_before_any_move_does_nothing() {
    let mut s = Snake::new(2, 2);
    s.restore_tail();
    assert_eq!(s.cells(), vec![(4, 2), (3, 2), (2, 2)]);
}

#[test]
fn overlap_tail_excludes_head_includes_tail() {
    let s = Snake::new(2, 2);
    assert!(!s.overlap_tail(4, 2));
    assert!(s.overlap_tail(3, 2));
    assert!(s.overlap_tail(2, 2));
    assert!(!s.overlap_tail(5, 2));
    assert!(s.covers(4, 2));
    assert!(!s.covers(5, 2));
}

#[test]
fn overlap_tail_follows_moves() {
    let mut s = Snake::new(2, 2);
    s.move_forward(Some(Direction::Up));
    assert!(!s.overlap_tail(2, 2));
    assert!(!s.covers(2, 2));
    assert!(s.overlap_tail(4, 2));
    assert!(!s.overlap_tail(4, 1));
}

#[test]
fn reversal_onto_the_body_is_seen_by_the_index() {
    let mut s = Snake::new(2, 2);
    s.move_forward(Some(Direction::Left));
    assert_eq!(s.cells(), vec![(3, 2), (4, 2), (3, 2)]);
    assert!(s.overlap_tail(3, 2));
    s.move_forward(Some(Direction::Right));
    assert_eq!(s.cells(), vec![(4, 2), (3, 2), (4, 2)]);
    assert!(!s.covers(2, 2));
    assert!(s.overlap_tail(4, 2));
    assert!(s.overlap_tail(3, 2));
}

#[test]
fn snake_works_at_negative_and_extreme_coordinates() {
    let mut s = Snake::new(-10, i32::MIN + 1);
    assert_eq!(s.head_position(), (-8, i32::MIN + 1));
    s.move_forward(Some(Direction::Up));
    assert_eq!(s.head_position(), (-8, i32::MIN));
    assert!(s.overlap_tail(-8, i32::MIN + 1));
    assert!(!s.covers(-10, i32::MIN + 1));
    let t = Snake::new(i32::MAX - 2, i32::MAX);
    assert_eq!(t.head_position(), (i32::MAX, i32::MAX));
    assert!(t.overlap_tail(i32::MAX - 2, i32::MAX));
}
