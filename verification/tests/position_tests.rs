use nand7400::position::Position;

#[test]
fn test_position() {
    let position = Position::new(0, 1);
    assert_eq!(position.starting_char(), 0);
    assert_eq!(position.ending_char(), 0);
    assert_eq!(position.len(), 1);

    let position = Position::new(0, 2);
    assert_eq!(position.starting_char(), 0);
    assert_eq!(position.ending_char(), 1);
    assert_eq!(position.len(), 2);
}

/// Joining positions that are adjacent to each other.
#[test]
fn test_adjacent_joins() {
    let a = Position::new(0, 1);
    let b = Position::new(1, 2);

    let joined = a.join(&b);

    assert_eq!(joined.starting_char(), 0);
    assert_eq!(joined.ending_char(), 1);
    assert_eq!(joined.len(), 2);
}

/// Joining positions that are not adjacent to each other.
#[test]
fn test_non_adjacent_joins() {
    let a = Position::new(0, 1);
    let b = Position::new(5, 6);

    let joined = a.join(&b);

    assert_eq!(joined.starting_char(), 0);
    assert_eq!(joined.ending_char(), 5);
    assert_eq!(joined.len(), 6);
}

/// Joining is insensitive to argument order.
#[test]
fn test_join_commutes() {
    let a = Position::new(2, 4);
    let b = Position::new(1, 9);

    assert_eq!(a.join(&b), b.join(&a));
    assert_eq!(a.join(&b), Position::new(1, 9));
}
