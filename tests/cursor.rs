use omnichat::cursor_vec::CursorVec;

#[test]
fn new_cursor_points_at_first() {
    let c = CursorVec::new(10);
    assert_eq!(*c.get(), 10);
    assert_eq!(*c.first(), 10);
}

#[test]
fn single_element_steps_are_no_ops() {
    let mut c = CursorVec::new("a");
    c.next();
    assert_eq!(*c.get(), "a");
    c.prev();
    assert_eq!(*c.get(), "a");
}

#[test]
fn next_wraps_forward() {
    let mut c = CursorVec::new(0);
    c.push(1);
    c.push(2);
    c.next();
    assert_eq!(*c.get(), 1);
    c.next();
    assert_eq!(*c.get(), 2);
    c.next();
    assert_eq!(*c.get(), 0);
}

#[test]
fn prev_wraps_backward_from_zero() {
    let mut c = CursorVec::new(0);
    c.push(1);
    c.push(2);
    c.prev();
    assert_eq!(*c.get(), 2);
    c.prev();
    assert_eq!(*c.get(), 1);
}

#[test]
fn next_then_prev_returns_to_start() {
    let mut c = CursorVec::new(0);
    for i in 1..5 {
        c.push(i);
    }
    c.wrapping_seek(3);
    c.next();
    c.prev();
    assert_eq!(*c.get(), 3);
    c.wrapping_seek(4);
    c.next();
    c.prev();
    assert_eq!(*c.get(), 4);
    c.wrapping_seek(0);
    c.prev();
    c.next();
    assert_eq!(*c.get(), 0);
}

#[test]
fn wrapping_seek_takes_the_remainder() {
    let mut c = CursorVec::new(0);
    c.push(1);
    c.push(2);
    c.wrapping_seek(7);
    assert_eq!(*c.get(), 1);
    c.wrapping_seek(usize::MAX);
    assert_eq!(*c.get(), usize::MAX % 3);
    c.wrapping_seek(2);
    assert_eq!(*c.get(), 2);
}

#[test]
fn try_get_at_does_not_move_the_cursor() {
    let mut c = CursorVec::new('x');
    c.push('y');
    assert_eq!(c.try_get_at(1), Some(&'y'));
    assert_eq!(c.try_get_at(2), None);
    assert_eq!(*c.get(), 'x');
}

#[test]
fn push_keeps_the_cursor() {
    let mut c = CursorVec::new(0);
    c.push(1);
    c.next();
    c.push(2);
    assert_eq!(*c.get(), 1);
    c.next();
    assert_eq!(*c.get(), 2);
}
