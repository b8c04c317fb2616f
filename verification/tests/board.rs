use game_of_life::{Cell, GameBoard};

fn board_of(w: u32, h: u32, alive: &[usize]) -> GameBoard {
    let mut cells: Vec<Cell> = (0..w * h).map(|_| Cell::Dead).collect();
    for &index in alive {
        cells[index] = Cell::Alive;
    }
    GameBoard::from_cells(w, h, cells).unwrap()
}

fn alive_indices(board: &GameBoard) -> Vec<usize> {
    let cells = board.cells();
    (0..cells.len()).filter(|&i| cells[i].is_alive()).collect()
}

#[test]
fn test_tick() {
    let w: u32 = 5;
    let h: u32 = w;
    let mut cells: Vec<Cell> = (0..w * h).map(|_| Cell::Dead).collect();
    cells[0] = Cell::Alive;
    let mut board = GameBoard::from_cells(w, h, cells).unwrap();
    assert_eq!(board.cells()[0], Cell::Alive);
    board.tick();

    assert_eq!(board.cells()[0], Cell::Dead);

    let mut cells: Vec<Cell> = board.cells().to_vec();
    cells[0] = Cell::Alive;
    cells[1] = Cell::Alive;
    cells[2] = Cell::Alive;
    let mut board = GameBoard::from_cells(w, h, cells).unwrap();
    board.tick();

    assert_eq!(board.cells()[0], Cell::Dead);
    assert_eq!(board.cells()[1], Cell::Alive);
    assert_eq!(board.cells()[2], Cell::Dead);
}

#[test]
fn isolated_cell_dies_and_nothing_is_born() {
    let mut board = board_of(5, 5, &[0]);
    board.tick();
    assert_eq!(alive_indices(&board), Vec::<usize>::new());
    assert_eq!(board.cells().len(), 25);
}

#[test]
fn triplet_in_the_top_row() {
    let mut board = board_of(5, 5, &[0, 1, 2]);
    board.tick();
    // The centre survives, the ends die, and the cell below the centre is born.
    assert_eq!(alive_indices(&board), vec![1, 6]);
}

#[test]
fn blinker_oscillates() {
    let mut board = board_of(5, 5, &[11, 12, 13]);
    board.tick();
    assert_eq!(alive_indices(&board), vec![7, 12, 17]);
    board.tick();
    assert_eq!(alive_indices(&board), vec![11, 12, 13]);
}

#[test]
fn block_is_still() {
    let mut board = board_of(4, 4, &[5, 6, 9, 10]);
    board.tick();
    assert_eq!(alive_indices(&board), vec![5, 6, 9, 10]);
}

#[test]
fn crowded_cell_dies() {
    // A plus sign: the centre has four live neighbours.
    let mut board = board_of(3, 3, &[1, 3, 4, 5, 7]);
    board.tick();
    assert_eq!(alive_indices(&board), vec![0, 1, 2, 3, 5, 6, 7, 8]);
}

#[test]
fn rows_do_not_wrap_on_a_wide_board() {
    // 4 columns, 2 rows: index 3 ends row 0 and index 4 starts row 1.
    let mut board = board_of(4, 2, &[2, 3, 4]);
    board.tick();
    assert_eq!(alive_indices(&board), Vec::<usize>::new());
    let mut board = board_of(4, 2, &[2, 3, 7]);
    board.tick();
    assert_eq!(alive_indices(&board), vec![2, 3, 6, 7]);
}

#[test]
fn update_reads_only_the_previous_generation() {
    // Glider on 5x5, checked against the generation computed by hand.
    let mut board = board_of(5, 5, &[1, 7, 10, 11, 12]);
    board.tick();
    assert_eq!(alive_indices(&board), vec![5, 7, 11, 12, 16]);
}

#[test]
fn new_seeds_the_default_pattern() {
    let board = GameBoard::new(5, 4);
    assert_eq!(board.width(), 5);
    assert_eq!(board.height(), 4);
    assert_eq!(board.cells().len(), 20);
    assert_eq!(alive_indices(&board), vec![0, 4, 7, 8, 12, 14, 16, 17]);
    let board = GameBoard::new(6, 6);
    assert_eq!(
        alive_indices(&board),
        vec![0, 4, 7, 8, 12, 14, 16, 17, 20, 21, 24, 28, 32, 34, 35]
    );
}

#[test]
fn new_then_tick() {
    let mut board = GameBoard::new(3, 3);
    assert_eq!(alive_indices(&board), vec![0, 4, 7, 8]);
    board.tick();
    assert_eq!(alive_indices(&board), vec![3, 4, 5, 7, 8]);
    assert_eq!(board.width(), 3);
    assert_eq!(board.height(), 3);
}

#[test]
fn zero_dimension_gives_an_empty_board() {
    for (w, h) in [(0u32, 0u32), (0, 5), (5, 0), (0, u32::MAX), (u32::MAX, 0)] {
        let mut board = GameBoard::new(w, h);
        assert_eq!(board.width(), w);
        assert_eq!(board.height(), h);
        assert_eq!(board.cells().len(), 0);
        board.tick();
        assert_eq!(board.width(), w);
        assert_eq!(board.height(), h);
        assert_eq!(board.cells().len(), 0);
    }
}

#[test]
fn single_cell_board() {
    let mut board = GameBoard::new(1, 1);
    assert_eq!(board.cells().to_vec(), vec![Cell::Alive]);
    board.tick();
    assert_eq!(board.cells().to_vec(), vec![Cell::Dead]);
}

#[test]
fn single_row_board() {
    let mut board = board_of(5, 1, &[0, 1, 2, 4]);
    board.tick();
    assert_eq!(alive_indices(&board), vec![1]);
}

#[test]
fn reads_repeat() {
    let board = GameBoard::new(7, 3);
    let first = (board.width(), board.height(), board.cells().to_vec());
    let second = (board.width(), board.height(), board.cells().to_vec());
    assert_eq!(first, second);
    assert_eq!(first.0, 7);
    assert_eq!(first.1, 3);
    assert_eq!(first.2.len(), 21);
}

#[test]
fn from_cells_takes_exactly_one_cell_per_position() {
    assert!(GameBoard::from_cells(2, 2, vec![Cell::Dead; 4]).is_some());
    assert!(GameBoard::from_cells(2, 2, vec![Cell::Dead; 3]).is_none());
    assert!(GameBoard::from_cells(2, 2, vec![Cell::Dead; 5]).is_none());
    assert!(GameBoard::from_cells(0, 9, vec![]).is_some());
    assert!(GameBoard::from_cells(0, 9, vec![Cell::Dead]).is_none());
    assert!(GameBoard::from_cells(65536, 65536, vec![]).is_none());
    assert!(GameBoard::from_cells(u32::MAX, u32::MAX, vec![Cell::Dead]).is_none());
}

#[test]
fn from_cells_keeps_the_cells() {
    let cells = vec![Cell::Alive, Cell::Dead, Cell::Dead, Cell::Alive, Cell::Dead, Cell::Alive];
    let board = GameBoard::from_cells(3, 2, cells.clone()).unwrap();
    assert_eq!(board.width(), 3);
    assert_eq!(board.height(), 2);
    assert_eq!(board.cells().to_vec(), cells);
}
