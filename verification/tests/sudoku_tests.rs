use broadcast_hub::sudoku::Sudoku;

fn board_from_rows(rows: [[u8; 9]; 9]) -> Vec<u8> {
    let mut v = Vec::new();
    for row in rows.iter() {
        for &c in row.iter() {
            v.push(c);
        }
    }
    v
}

fn cells(s: &Sudoku) -> Vec<u8> {
    let mut v = Vec::new();
    for r in 0..9 {
        for c in 0..9 {
            v.push(s.cell(r, c));
        }
    }
    v
}

const PUZZLE: [[u8; 9]; 9] = [
    [5, 3, 0, 0, 7, 0, 0, 0, 0],
    [6, 0, 0, 1, 9, 5, 0, 0, 0],
    [0, 9, 8, 0, 0, 0, 0, 6, 0],
    [8, 0, 0, 0, 6, 0, 0, 0, 3],
    [4, 0, 0, 8, 0, 3, 0, 0, 1],
    [7, 0, 0, 0, 2, 0, 0, 0, 6],
    [0, 6, 0, 0, 0, 0, 2, 8, 0],
    [0, 0, 0, 4, 1, 9, 0, 0, 5],
    [0, 0, 0, 0, 8, 0, 0, 7, 9],
];

fn assert_valid_and_full(s: &Sudoku) {
    for r in 0..9 {
        for c in 0..9 {
            let v = s.cell(r, c);
            assert!((1..=9).contains(&v));
            for c2 in 0..9 {
                if c2 != c {
                    assert_ne!(s.cell(r, c2), v);
                }
            }
            for r2 in 0..9 {
                if r2 != r {
                    assert_ne!(s.cell(r2, c), v);
                }
            }
            let (br, bc) = (r - r % 3, c - c % 3);
            for i in 0..3 {
                for j in 0..3 {
                    if (br + i, bc + j) != (r, c) {
                        assert_ne!(s.cell(br + i, bc + j), v);
                    }
                }
            }
        }
    }
}

#[test]
fn solves_a_classic_puzzle_keeping_clues() {
    let given = board_from_rows(PUZZLE);
    let mut s = Sudoku::new(given.clone());
    assert!(s.solve());
    let solved = cells(&s);
    for k in 0..81 {
        if given[k] != 0 {
            assert_eq!(solved[k], given[k]);
        }
    }
    assert_valid_and_full(&s);
}

#[test]
fn solves_the_empty_board() {
    let mut s = Sudoku::new(vec![0; 81]);
    assert!(s.solve());
    assert_valid_and_full(&s);
}

#[test]
fn unsolvable_board_is_left_untouched() {
    // row 0 holds 1..=8 and its last cell's column already holds a 9
    let mut rows = [[0u8; 9]; 9];
    rows[0] = [1, 2, 3, 4, 5, 6, 7, 8, 0];
    rows[1][8] = 9;
    let given = board_from_rows(rows);
    let mut s = Sudoku::new(given.clone());
    assert!(!s.solve());
    assert_eq!(cells(&s), given);
}

#[test]
fn is_safe_scans_row_column_and_box() {
    let mut rows = [[0u8; 9]; 9];
    rows[0][0] = 5;
    rows[4][4] = 7;
    let s = Sudoku::new(board_from_rows(rows));
    assert!(!s.is_safe(0, 8, 5)); // same row
    assert!(!s.is_safe(8, 0, 5)); // same column
    assert!(!s.is_safe(1, 1, 5)); // same box
    assert!(s.is_safe(1, 1, 6));
    assert!(!s.is_safe(3, 3, 7)); // box of the centre cell
    assert!(s.is_safe(3, 3, 2));
}
