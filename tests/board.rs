use match3::{
    adjacent, cell_at, cell_in_run, matched_cells, random_colors, Board, BoardError, Cell, Color,
    Size, Tile,
};

const R: Color = Color::Red;
const G: Color = Color::Green;
const B: Color = Color::Blue;

fn palette() -> Vec<Color> {
    vec![R, G, B]
}

/// A 5 by 5 layout without any run of three: row r, column c has color
/// number (r + 2c) mod 3.
fn layout() -> Vec<Color> {
    let mut v = Vec::new();
    for r in 0..5usize {
        for c in 0..5usize {
            v.push([R, G, B][(r + 2 * c) % 3]);
        }
    }
    v
}

fn board_of(colors: Vec<Color>) -> Board {
    Board::from_colors(5, 5, palette(), colors).unwrap()
}

fn cell(r: usize, c: usize) -> Cell {
    Cell::new(r, c)
}

fn selected_count(b: &Board) -> usize {
    let mut n = 0;
    for r in 0..b.rows() {
        for c in 0..b.columns() {
            if b.is_selected(cell(r, c)) {
                n += 1;
            }
        }
    }
    n
}

fn colors_of(b: &Board) -> Vec<Color> {
    let mut v = Vec::new();
    for r in 0..b.rows() {
        for c in 0..b.columns() {
            v.push(b.color_at(cell(r, c)));
        }
    }
    v
}

const SIZE: Size = Size { width: 100, height: 100 };

#[test]
fn tile_setters_write_their_field() {
    let mut t = Tile::new(R);
    assert_eq!(t.color(), R);
    assert!(!t.is_selected());
    t.set_selected(true);
    t.set_color(B);
    assert_eq!(t.color(), B);
    assert!(t.is_selected());
}

#[test]
fn from_colors_rejects_bad_configuration() {
    assert_eq!(Board::from_colors(0, 5, palette(), vec![]).err(), Some(BoardError::EmptyGrid));
    assert_eq!(Board::from_colors(5, 0, palette(), vec![]).err(), Some(BoardError::EmptyGrid));
    assert_eq!(Board::from_colors(5, 5, vec![], layout()).err(), Some(BoardError::EmptyPalette));
    assert_eq!(
        Board::from_colors(5, 5, palette(), vec![R; 24]).err(),
        Some(BoardError::WrongCellCount)
    );
}

#[test]
fn from_colors_keeps_the_layout() {
    let b = board_of(layout());
    assert_eq!(b.rows(), 5);
    assert_eq!(b.columns(), 5);
    assert_eq!(b.cell_count(), 25);
    assert_eq!(colors_of(&b), layout());
    assert_eq!(b.pending_selection(), None);
    assert_eq!(selected_count(&b), 0);
    assert_eq!(b.color_at(cell(1, 2)), B);
}

#[test]
fn random_board_draws_from_the_palette() {
    let b = Board::random(5, 5, vec![G]).unwrap();
    assert_eq!(colors_of(&b), vec![G; 25]);
    assert_eq!(selected_count(&b), 0);
    assert_eq!(b.palette(), &vec![G]);
    let b = Board::random(3, 4, palette()).unwrap();
    assert_eq!(b.cell_count(), 12);
}

#[test]
fn random_board_rejects_bad_configuration() {
    assert_eq!(Board::random(0, 5, palette()).err(), Some(BoardError::EmptyGrid));
    assert_eq!(Board::random(5, 5, vec![]).err(), Some(BoardError::EmptyPalette));
    assert_eq!(Board::random(usize::MAX, 2, palette()).err(), Some(BoardError::TooLarge));
}

#[test]
fn random_colors_come_from_the_palette() {
    assert_eq!(random_colors(&vec![B], 7), vec![B; 7]);
    let v = random_colors(&palette(), 100);
    assert_eq!(v.len(), 100);
}

#[test]
fn point_maps_to_cell() {
    assert_eq!(cell_at(5, 5, SIZE, 0, 0), Some(cell(0, 0)));
    assert_eq!(cell_at(5, 5, SIZE, 150, 250), Some(cell(2, 1)));
    assert_eq!(cell_at(5, 5, SIZE, 499, 499), Some(cell(4, 4)));
    assert_eq!(cell_at(5, 5, SIZE, 500, 10), None);
    assert_eq!(cell_at(5, 5, SIZE, 10, 500), None);
    assert_eq!(cell_at(5, 5, SIZE, -1, 10), None);
    assert_eq!(cell_at(5, 5, Size { width: 0, height: 100 }, 10, 10), None);
}

#[test]
fn adjacency_is_four_neighbour() {
    assert!(adjacent(cell(2, 2), cell(2, 3)));
    assert!(adjacent(cell(2, 2), cell(1, 2)));
    assert!(!adjacent(cell(2, 2), cell(4, 4)));
    assert!(!adjacent(cell(2, 2), cell(3, 3)));
    assert!(!adjacent(cell(2, 2), cell(2, 2)));
    assert!(!adjacent(cell(0, 0), cell(0, 2)));
}

#[test]
fn swap_of_adjacent_cells_is_allowed() {
    let mut b = board_of(layout());
    let (p, q) = (b.color_at(cell(2, 2)), b.color_at(cell(2, 3)));
    assert_ne!(p, q);
    assert!(b.swap(cell(2, 2), cell(2, 3)));
    assert_eq!(b.color_at(cell(2, 2)), q);
    assert_eq!(b.color_at(cell(2, 3)), p);
}

#[test]
fn swap_of_distant_cells_changes_nothing() {
    let mut b = board_of(layout());
    assert!(!b.swap(cell(2, 2), cell(4, 4)));
    assert_eq!(colors_of(&b), layout());
}

#[test]
fn swap_twice_restores_colors() {
    let mut b = board_of(layout());
    assert!(b.swap(cell(3, 1), cell(4, 1)));
    assert_ne!(colors_of(&b), layout());
    assert!(b.swap(cell(3, 1), cell(4, 1)));
    assert_eq!(colors_of(&b), layout());
}

#[test]
fn first_click_selects_and_keeps_pending() {
    let mut b = board_of(layout());
    assert!(!b.click(Some(cell(1, 1))));
    assert_eq!(b.pending_selection(), Some(cell(1, 1)));
    assert!(b.is_selected(cell(1, 1)));
    assert_eq!(selected_count(&b), 1);
}

#[test]
fn clicking_selected_cell_again_cancels() {
    let mut b = board_of(layout());
    b.click(Some(cell(3, 3)));
    assert!(!b.click(Some(cell(3, 3))));
    assert_eq!(b.pending_selection(), None);
    assert!(!b.is_selected(cell(3, 3)));
    assert_eq!(colors_of(&b), layout());
}

#[test]
fn click_beside_grid_clears_selection() {
    let mut b = board_of(layout());
    b.click(Some(cell(0, 4)));
    assert!(!b.click(None));
    assert_eq!(b.pending_selection(), None);
    assert_eq!(selected_count(&b), 0);
    b.handle_click(SIZE, 120, 120);
    assert_eq!(selected_count(&b), 1);
    assert!(!b.handle_click(SIZE, 700, 20));
    assert_eq!(b.pending_selection(), None);
    assert_eq!(selected_count(&b), 0);
}

#[test]
fn at_most_one_tile_selected_over_clicks() {
    let mut b = board_of(layout());
    let hits = [
        Some(cell(0, 0)),
        Some(cell(4, 4)),
        Some(cell(2, 2)),
        Some(cell(2, 2)),
        None,
        Some(cell(1, 3)),
        Some(cell(1, 4)),
        Some(cell(3, 0)),
    ];
    for h in hits {
        b.click(h);
        assert!(selected_count(&b) <= 1);
    }
}

#[test]
fn disallowed_second_pick_still_clears_selection() {
    let mut b = board_of(layout());
    b.click(Some(cell(0, 0)));
    assert!(!b.click(Some(cell(2, 2))));
    assert_eq!(b.pending_selection(), None);
    assert_eq!(selected_count(&b), 0);
    assert_eq!(colors_of(&b), layout());
}

#[test]
fn two_adjacent_picks_exchange_colors() {
    let mut b = board_of(layout());
    let (a, c) = (b.color_at(cell(0, 0)), b.color_at(cell(0, 1)));
    assert_eq!((a, c), (R, B));
    assert!(!b.handle_click(SIZE, 50, 50));
    assert!(b.is_selected(cell(0, 0)));
    assert!(b.handle_click(SIZE, 150, 50));
    assert_eq!(b.color_at(cell(0, 0)), B);
    assert_eq!(b.color_at(cell(0, 1)), R);
    assert!(!b.is_selected(cell(0, 0)));
    assert!(!b.is_selected(cell(0, 1)));
    assert_eq!(b.pending_selection(), None);
}

fn with_first_row(row: [Color; 5]) -> Vec<Color> {
    let mut v = layout();
    v[..5].copy_from_slice(&row);
    v
}

#[test]
fn run_of_three_is_marked() {
    let b = board_of(with_first_row([R, R, R, G, B]));
    let marks = matched_cells(&b);
    let mut expected = vec![false; 25];
    expected[0] = true;
    expected[1] = true;
    expected[2] = true;
    assert_eq!(marks, expected);
    assert!(cell_in_run(&b, 0, 1));
    assert!(!cell_in_run(&b, 0, 3));
    assert!(!cell_in_run(&b, 1, 3));
}

#[test]
fn run_of_two_is_not_marked() {
    let b = board_of(with_first_row([R, R, G, G, B]));
    assert_eq!(matched_cells(&b), vec![false; 25]);
    assert_eq!(matched_cells(&board_of(layout())), vec![false; 25]);
}

#[test]
fn vertical_run_is_marked() {
    let mut v = layout();
    v[1 * 5 + 4] = v[4];
    v[2 * 5 + 4] = v[4];
    let b = board_of(v);
    let marks = matched_cells(&b);
    let on: Vec<usize> = (0..25).filter(|i| marks[*i]).collect();
    assert_eq!(on, vec![4, 9, 14, 19]);
}

#[test]
fn resolver_pass_refills_only_marked_cells() {
    let start = with_first_row([R, R, R, G, B]);
    let mut b = Board::from_colors(5, 5, vec![G], start.clone()).unwrap();
    assert!(b.resolve_pass());
    let after = colors_of(&b);
    assert_eq!(&after[..3], &[G, G, G]);
    assert_eq!(&after[3..], &start[3..]);
    let marks = matched_cells(&b);
    assert_eq!(&marks[..5], &[true, true, true, true, false]);
    assert!(b.resolve_pass());
    let mut quiet = board_of(layout());
    assert!(!quiet.resolve_pass());
    assert_eq!(colors_of(&quiet), layout());
}

#[test]
fn resolve_leaves_a_board_without_runs() {
    let mut b = board_of(with_first_row([B, B, B, B, R]));
    assert!(b.resolve());
    assert_eq!(matched_cells(&b), vec![false; 25]);
    let mut quiet = board_of(layout());
    assert!(quiet.resolve());
    assert_eq!(colors_of(&quiet), layout());
}

#[test]
fn click_on_cell_off_the_grid_is_a_miss() {
    let mut b = board_of(layout());
    b.click(Some(cell(2, 2)));
    assert!(!b.click(Some(cell(5, 0))));
    assert_eq!(b.pending_selection(), None);
    assert_eq!(selected_count(&b), 0);
    assert_eq!(colors_of(&b), layout());
}
