use alacritree::row::Row;

/// Clearing a row that may own storage leaves every written cell blank.
#[test]
fn reset_releases_owned_storage() {
    let mut row = Row::<char>::from_vec(vec![' '; 8], 0);
    row.mark_owns_storage();
    *row.cell_mut(3) = 'x';

    row.reset(&' ');

    assert!(row.is_clear());
    assert_eq!(*row.cell(3), ' ');
    assert_eq!(row.occ(), 0);
}

/// A row of plain text takes the reset, which has to blank every written
/// cell and nothing past them.
#[test]
fn bulk_reset_blanks_every_written_cell() {
    let mut row = Row::<char>::new(8);
    for column in 0..5 {
        *row.cell_mut(column) = 'x';
    }
    assert_eq!(row.occ(), 5);

    row.reset(&' ');

    assert_eq!(row.occ(), 0);
    for column in 0..5 {
        assert_eq!(*row.cell(column), ' ');
    }
    // Untouched cells are left as they were.
    assert_eq!(*row.cell(7), char::default());
}

#[test]
fn shrink_returns_the_cut_cells_up_to_the_last_written_one() {
    let mut row = Row::from_vec(vec!['a', 'b', 'c', ' ', ' '], 5);
    assert_eq!(row.shrink(2), Some(vec!['c']));
    assert_eq!(row.len(), 2);
    assert_eq!(row.occ(), 2);
    let mut blank = Row::from_vec(vec!['a', ' ', ' '], 1);
    assert_eq!(blank.shrink(1), None);
    assert_eq!(blank.shrink(4), None);
}

#[test]
fn grow_pads_with_default_cells() {
    let mut row = Row::from_vec(vec!['a'], 1);
    row.grow(3);
    assert_eq!(row.len(), 3);
    assert_eq!(*row.cell(0), 'a');
    assert_eq!(*row.cell(2), char::default());
    row.grow(2);
    assert_eq!(row.len(), 3);
}

#[test]
fn splitting_and_appending_move_cells_between_rows() {
    let mut row = Row::from_vec(vec!['a', 'b', 'c', 'd'], 3);
    let front = row.front_split_off(2);
    assert_eq!(front, vec!['a', 'b']);
    assert_eq!(row.len(), 2);
    assert_eq!(row.occ(), 1);
    row.append_front(vec!['x']);
    assert_eq!(*row.cell(0), 'x');
    let mut tail = vec!['y', 'z'];
    row.append(&mut tail);
    assert!(tail.is_empty());
    assert_eq!(row.len(), 5);
    assert_eq!(row.last(), Some(&'z'));
    *row.last_mut().unwrap() = 'q';
    assert_eq!(row.last(), Some(&'q'));
    assert_eq!(row.occ(), 5);
}
