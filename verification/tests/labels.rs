use chetro::board::GridPosition;

fn pos(x: u16, y: u16) -> GridPosition {
    GridPosition { x, y }
}

#[test]
fn origin_is_a1() {
    assert_eq!(pos(0, 0).label(), "A1");
}

#[test]
fn single_letter_files() {
    assert_eq!(pos(1, 0).label(), "B1");
    assert_eq!(pos(25, 0).label(), "Z1");
}

#[test]
fn two_letter_files() {
    assert_eq!(pos(26, 0).label(), "AA1");
    assert_eq!(pos(27, 0).label(), "AB1");
    assert_eq!(pos(51, 0).label(), "AZ1");
    assert_eq!(pos(52, 0).label(), "BA1");
    assert_eq!(pos(701, 0).label(), "ZZ1");
}

#[test]
fn three_letter_files() {
    assert_eq!(pos(702, 0).label(), "AAA1");
}

#[test]
fn ranks_are_one_based_decimal() {
    assert_eq!(pos(0, 1).label(), "A2");
    assert_eq!(pos(0, 9).label(), "A10");
    assert_eq!(pos(0, 99).label(), "A100");
    assert_eq!(pos(0, 65535).label(), "A65536");
}

#[test]
fn board_squares_read_naturally() {
    assert_eq!(pos(3, 3).label(), "D4");
    assert_eq!(pos(7, 7).label(), "H8");
    assert_eq!(pos(4, 2).label(), "E3");
}

#[test]
fn try_add_moves_within_range() {
    assert_eq!(pos(3, 3).try_add(1, -1), Some(pos(4, 2)));
    assert_eq!(pos(3, 3).try_add(0, 0), Some(pos(3, 3)));
    assert_eq!(pos(3, 3).try_add(-3, 4), Some(pos(0, 7)));
}

#[test]
fn try_add_fails_closed_below_zero() {
    assert_eq!(pos(0, 5).try_add(-1, 0), None);
    assert_eq!(pos(5, 0).try_add(0, -1), None, "the y axis is checked too");
}

#[test]
fn try_add_fails_closed_at_the_ceiling() {
    assert_eq!(pos(65534, 0).try_add(1, 0), None);
    assert_eq!(pos(65533, 0).try_add(1, 0), Some(pos(65534, 0)));
    assert_eq!(pos(0, 65534).try_add(0, 1), None);
}
