use grid2048::cells::CellList;
use grid2048::grid::Field;
use grid2048::lines::{line_from, lines, valid};
use grid2048::push::good_number;

const DIRECTIONS: [(i32, i32); 8] =
    [(-1, -1), (0, -1), (1, -1), (-1, 0), (1, 0), (-1, 1), (0, 1), (1, 1)];

const STUCK: [[i32; 4]; 4] = [[2, 4, 2, 4], [8, 16, 8, 16], [2, 4, 2, 4], [8, 16, 8, 16]];

fn field_of(numbers: [[i32; 4]; 4]) -> Field {
    let mut field = Field::new();
    field.numbers = numbers;
    field
}

fn sum_of(field: &Field) -> i64 {
    field.numbers.iter().flatten().map(|v| *v as i64).sum()
}

fn push_row_left(row: [i32; 4]) -> ([i32; 4], bool) {
    let mut field = field_of([row, [0; 4], [0; 4], [0; 4]]);
    let changed = field.push_dir(-1, 0);
    assert_eq!(&field.numbers[1..], &[[0; 4]; 3]);
    (field.numbers[0], changed)
}

#[test]
fn fiend_is_fail() {
    let mut field = Field::new();
    field.numbers = [[4, 32, 2, 4], [2, 32, 16, 4], [8, 4, 16, 32], [2, 4, 2, 8]];
    assert!(!field.fail());
}

#[test]
fn new_field_is_empty_and_running() {
    for field in [Field::new(), Field::default()] {
        assert_eq!(field.numbers, [[0; 4]; 4]);
        assert!(!field.game_over);
        assert!(!field.fail());
        assert!(field.cells_in_range());
    }
}

#[test]
fn cells_in_range_tells_what_can_be_pushed() {
    let mut field = field_of(STUCK);
    assert!(field.cells_in_range());
    field.numbers[2][3] = 0x3FFF_FFFF;
    assert!(field.cells_in_range());
    field.numbers[2][3] = 0x4000_0000;
    assert!(!field.cells_in_range());
    field.numbers[2][3] = -1;
    assert!(!field.cells_in_range());
}

#[test]
fn full_grid_without_equal_neighbours_is_stuck() {
    assert!(field_of(STUCK).fail());
}

#[test]
fn an_empty_cell_means_not_stuck() {
    let mut numbers = STUCK;
    numbers[3][3] = 0;
    assert!(!field_of(numbers).fail());
}

#[test]
fn equal_neighbours_side_by_side_mean_not_stuck() {
    let mut numbers = STUCK;
    numbers[0][1] = 2;
    assert!(!field_of(numbers).fail());
}

#[test]
fn equal_neighbours_above_each_other_mean_not_stuck() {
    let mut numbers = STUCK;
    numbers[3][0] = 2;
    assert!(!field_of(numbers).fail());
}

#[test]
fn equal_neighbours_across_a_corner_mean_not_stuck() {
    let mut numbers = STUCK;
    numbers[2][2] = 16;
    assert!(!field_of(numbers).fail());
    let mut numbers = STUCK;
    numbers[1][0] = 4;
    numbers[0][1] = 32;
    numbers[2][1] = 64;
    assert!(field_of(numbers).fail());
    numbers[0][1] = 8;
    assert!(!field_of(numbers).fail());
}

#[test]
fn equal_values_that_do_not_touch_leave_the_grid_stuck() {
    let field = field_of(STUCK);
    assert_eq!(field.numbers[0][0], field.numbers[0][2]);
    assert_eq!(field.numbers[0][0], field.numbers[2][0]);
    assert!(field.fail());
}

#[test]
fn get_and_set_reach_one_cell() {
    let mut field = Field::new();
    field.set((2, 1), 8);
    assert_eq!(field.get((2, 1)), 8);
    let mut want = [[0; 4]; 4];
    want[2][1] = 8;
    assert_eq!(field.numbers, want);
    assert!(!field.game_over);
}

#[test]
fn two_equal_tiles_merge() {
    assert_eq!(push_row_left([2, 2, 0, 0]), ([4, 0, 0, 0], true));
}

#[test]
fn merged_tile_is_not_merged_again() {
    assert_eq!(push_row_left([2, 0, 2, 4]), ([4, 4, 0, 0], true));
}

#[test]
fn four_equal_tiles_merge_in_pairs() {
    assert_eq!(push_row_left([4, 4, 4, 4]), ([8, 8, 0, 0], true));
}

#[test]
fn tiles_slide_over_empty_cells() {
    assert_eq!(push_row_left([0, 0, 0, 2]), ([2, 0, 0, 0], true));
    assert_eq!(push_row_left([0, 2, 0, 4]), ([2, 4, 0, 0], true));
}

#[test]
fn settled_row_does_not_change() {
    assert_eq!(push_row_left([2, 4, 8, 16]), ([2, 4, 8, 16], false));
    assert_eq!(push_row_left([2, 4, 0, 0]), ([2, 4, 0, 0], false));
    assert_eq!(push_row_left([0, 0, 0, 0]), ([0, 0, 0, 0], false));
}

#[test]
fn three_equal_tiles_merge_the_front_pair() {
    assert_eq!(push_row_left([2, 2, 2, 0]), ([4, 2, 0, 0], true));
    assert_eq!(push_row_left([4, 2, 2, 0]), ([4, 4, 0, 0], true));
}

#[test]
fn merge_goes_by_the_sum_not_by_equality() {
    assert_eq!(push_row_left([6, 2, 0, 0]), ([8, 0, 0, 0], true));
    assert_eq!(push_row_left([1, 3, 0, 0]), ([4, 0, 0, 0], true));
    assert_eq!(push_row_left([3, 3, 0, 0]), ([3, 3, 0, 0], false));
    assert_eq!(push_row_left([2, 4, 4, 0]), ([2, 8, 0, 0], true));
}

#[test]
fn push_right_moves_toward_the_last_column() {
    let mut field = field_of([[2, 2, 0, 0], [2, 0, 2, 4], [4, 4, 4, 4], [0, 0, 0, 0]]);
    assert!(field.push_dir(1, 0));
    assert_eq!(field.numbers, [[0, 0, 0, 4], [0, 0, 4, 4], [0, 0, 8, 8], [0, 0, 0, 0]]);
}

#[test]
fn push_up_and_down_move_along_columns() {
    let start = [[2, 0, 4, 0], [2, 0, 0, 8], [0, 0, 4, 8], [4, 2, 0, 8]];
    let mut field = field_of(start);
    assert!(field.push_dir(0, -1));
    assert_eq!(field.numbers, [[4, 2, 8, 16], [4, 0, 0, 8], [0, 0, 0, 0], [0, 0, 0, 0]]);
    let mut field = field_of(start);
    assert!(field.push_dir(0, 1));
    assert_eq!(field.numbers, [[0, 0, 0, 0], [0, 0, 0, 0], [4, 0, 0, 8], [4, 2, 8, 16]]);
}

#[test]
fn diagonal_push_moves_along_diagonals() {
    let mut field = field_of([[0, 0, 0, 2], [0, 0, 4, 0], [0, 4, 0, 0], [8, 0, 0, 2]]);
    assert!(field.push_dir(-1, -1));
    assert_eq!(field.numbers, [[2, 4, 0, 2], [4, 0, 0, 0], [0, 0, 0, 0], [8, 0, 0, 0]]);
    let mut field = field_of([[0, 0, 0, 2], [0, 0, 2, 0], [0, 4, 0, 0], [4, 0, 0, 2]]);
    assert!(field.push_dir(1, -1));
    assert_eq!(field.numbers, [[0, 0, 0, 4], [0, 0, 8, 0], [0, 0, 0, 0], [0, 0, 0, 2]]);
    let mut field = field_of([[2, 0, 0, 0], [0, 2, 0, 8], [0, 0, 0, 0], [0, 0, 0, 0]]);
    assert!(field.push_dir(1, 1));
    assert_eq!(field.numbers, [[0, 0, 0, 0], [0, 0, 0, 8], [0, 0, 0, 0], [0, 0, 0, 4]]);
    assert!(!field.push_dir(1, 1));
    assert!(field.push_dir(-1, 1));
    assert_eq!(field.numbers, [[0, 0, 0, 0], [0, 0, 0, 0], [0, 0, 0, 0], [0, 8, 0, 4]]);
}

#[test]
fn stuck_grid_does_not_move_in_any_direction() {
    for (dx, dy) in DIRECTIONS {
        let mut field = field_of(STUCK);
        assert!(!field.push_dir(dx, dy), "direction ({dx}, {dy})");
        assert_eq!(field.numbers, STUCK);
        assert!(!field.game_over);
    }
}

#[test]
fn push_reports_a_change_exactly_when_the_grid_changed() {
    let starts = [
        [[2, 2, 0, 0], [0, 4, 0, 4], [8, 0, 0, 0], [0, 0, 0, 16]],
        [[2, 4, 8, 16], [0, 0, 0, 0], [0, 0, 0, 0], [0, 0, 0, 0]],
        [[2, 0, 0, 0], [4, 0, 0, 0], [8, 0, 0, 0], [16, 0, 0, 0]],
        [[0; 4]; 4],
        STUCK,
    ];
    for start in starts {
        for (dx, dy) in DIRECTIONS {
            let mut field = field_of(start);
            field.game_over = true;
            let changed = field.push_dir(dx, dy);
            assert_eq!(changed, field.numbers != start, "{start:?} ({dx}, {dy})");
            assert!(field.game_over);
        }
    }
}

#[test]
fn push_keeps_the_sum_of_the_grid() {
    let start = [[2, 2, 4, 4], [0, 8, 8, 0], [16, 0, 0, 16], [2, 4, 2, 4]];
    for (dx, dy) in DIRECTIONS {
        let mut field = field_of(start);
        field.push_dir(dx, dy);
        assert_eq!(sum_of(&field), 72, "direction ({dx}, {dy})");
    }
}

#[test]
fn push_keeps_every_tile_a_power_of_two() {
    let start = [[2, 2, 4, 4], [0, 8, 8, 0], [16, 0, 0, 16], [2, 4, 2, 4]];
    for (dx, dy) in DIRECTIONS {
        let mut field = field_of(start);
        field.push_dir(dx, dy);
        for v in field.numbers.iter().flatten() {
            assert!(*v == 0 || (*v >= 2 && v.count_ones() == 1), "{v}");
        }
    }
}

#[test]
fn largest_cells_merge_without_overflow() {
    let (row, changed) = push_row_left([0x2000_0000, 0x2000_0000, 0x3FFF_FFFF, 1]);
    assert_eq!(row, [0x4000_0000, 0x4000_0000, 0, 0]);
    assert!(changed);
}

#[test]
fn push_line_moves_only_the_cells_of_the_line() {
    let mut line = CellList::new();
    for cell in [(3, 0), (1, 1), (0, 3)] {
        line.push_cell(cell);
    }
    let mut field = field_of([[2, 2, 2, 4], [2, 0, 2, 2], [2, 2, 2, 2], [0, 2, 2, 2]]);
    assert!(field.push_line(&line));
    assert_eq!(field.numbers, [[2, 2, 2, 0], [2, 0, 2, 2], [2, 2, 2, 2], [4, 2, 2, 2]]);
    assert!(!field.push_line(&line));
    assert!(!field.push_line(&CellList::new()));
}

#[test]
fn line_of_one_cell_never_changes() {
    let mut line = CellList::new();
    line.push_cell((1, 2));
    let mut field = field_of([[0, 0, 0, 0], [0, 0, 8, 0], [0, 0, 0, 0], [0, 0, 0, 0]]);
    assert!(!field.push_line(&line));
    assert_eq!(field.numbers[1][2], 8);
}

#[test]
fn good_number_tells_powers_of_two() {
    for v in [0, 1, 2, 4, 8, 1024, 0x4000_0000] {
        assert!(good_number(v), "{v}");
    }
    for v in [3, 5, 6, 7, 12, 1023, 0x4000_0001, i32::MAX, -1, -2, -4, i32::MIN + 1] {
        assert!(!good_number(v), "{v}");
    }
}

#[test]
fn valid_tells_the_cells_of_the_grid() {
    assert!(valid(0, 0));
    assert!(valid(3, 3));
    assert!(!valid(4, 0));
    assert!(!valid(0, 4));
    assert!(!valid(-1, 2));
    assert!(!valid(2, -1));
}

fn cells(list: &CellList) -> Vec<(usize, usize)> {
    (0..list.len()).map(|k| list.get(k).unwrap()).collect()
}

#[test]
fn cell_list_keeps_the_order_of_pushes() {
    let mut list = CellList::new();
    assert_eq!(list.len(), 0);
    assert_eq!(list.get(0), None);
    list.push_cell((1, 2));
    list.push_cell((0, 3));
    assert_eq!(list.len(), 2);
    assert_eq!(list.cell(0), (1, 2));
    assert_eq!(list.get(1), Some((0, 3)));
    assert_eq!(list.get(2), None);
}

#[test]
fn line_runs_from_the_edge_against_the_direction() {
    assert_eq!(cells(&line_from(-1, 0, 0, 2)), [(2, 0), (2, 1), (2, 2), (2, 3)]);
    assert_eq!(cells(&line_from(0, 1, 1, 3)), [(3, 1), (2, 1), (1, 1), (0, 1)]);
    assert_eq!(cells(&line_from(1, 1, 3, 1)), [(1, 3), (0, 2)]);
    assert_eq!(cells(&line_from(-1, 1, 0, 0)), [(0, 0)]);
}

#[test]
fn straight_direction_has_four_lines_of_four() {
    let all = lines(1, 0);
    assert_eq!(all.len(), 4);
    for y in 0..4 {
        assert_eq!(cells(all.get(y).unwrap()), [(y, 3), (y, 2), (y, 1), (y, 0)]);
    }
    assert!(all.get(4).is_none());
}

#[test]
fn diagonal_direction_has_seven_lines() {
    let all = lines(-1, -1);
    assert_eq!(all.len(), 7);
    let want: [&[(usize, usize)]; 7] = [
        &[(0, 0), (1, 1), (2, 2), (3, 3)],
        &[(0, 1), (1, 2), (2, 3)],
        &[(0, 2), (1, 3)],
        &[(0, 3)],
        &[(1, 0), (2, 1), (3, 2)],
        &[(2, 0), (3, 1)],
        &[(3, 0)],
    ];
    for (m, line) in want.iter().enumerate() {
        assert_eq!(&cells(all.get(m).unwrap())[..], *line);
    }
}

#[test]
fn every_cell_lies_on_exactly_one_line() {
    for (dx, dy) in DIRECTIONS {
        let all = lines(dx, dy);
        let mut seen = [[0; 4]; 4];
        for m in 0..all.len() {
            for (y, x) in cells(all.get(m).unwrap()) {
                seen[y][x] += 1;
            }
        }
        assert_eq!(seen, [[1; 4]; 4], "direction ({dx}, {dy})");
    }
}
