use voxel_mesh::merge::{mark_row, merge_quads, row_is_free};
use voxel_mesh::quad::{InputQuad, OutputQuad};

fn quad(x: usize, y: usize, w: usize, h: usize) -> OutputQuad {
    OutputQuad { x, y, w, h }
}

/// Builds a grid from rows of text, `#` for a cell that exists. Rows and
/// columns that the text leaves out hold no cell that exists.
fn grid(rows: &[&str]) -> Vec<InputQuad> {
    let mut cells = Vec::new();
    for y in 0..16 {
        for x in 0..16 {
            let exists = rows.get(y).and_then(|r| r.as_bytes().get(x)).map_or(false, |&b| b == b'#');
            cells.push(InputQuad::new(x, y, exists));
        }
    }
    cells
}

fn merged(rows: &[&str]) -> Vec<OutputQuad> {
    let mut cells = grid(rows);
    merge_quads(&mut cells)
}

/// A grid whose cells exist by a fixed arithmetic pattern.
fn patterned(seed: u32) -> Vec<InputQuad> {
    let mut state: u32 = seed;
    let mut cells = Vec::new();
    for y in 0..16 {
        for x in 0..16 {
            state = state.wrapping_mul(1664525).wrapping_add(1013904223);
            cells.push(InputQuad::new(x, y, (state >> 16) % 3 != 0));
        }
    }
    cells
}

fn cover_counts(quads: &[OutputQuad]) -> Vec<usize> {
    let mut counts = vec![0usize; 256];
    for q in quads {
        assert!(q.w >= 1 && q.h >= 1 && q.x + q.w <= 16 && q.y + q.h <= 16);
        for y in q.y..q.y + q.h {
            for x in q.x..q.x + q.w {
                counts[y * 16 + x] += 1;
            }
        }
    }
    counts
}

#[test]
fn empty_grid_gives_no_quads() {
    assert!(merged(&[]).is_empty());
}

#[test]
fn full_grid_gives_one_quad() {
    let rows = ["################"; 16];
    assert_eq!(merged(&rows), vec![quad(0, 0, 16, 16)]);
}

#[test]
fn single_cell_gives_unit_quad() {
    assert_eq!(merged(&["", "", "...#"]), vec![quad(3, 2, 1, 1)]);
}

#[test]
fn run_in_a_row_merges_to_the_right() {
    assert_eq!(merged(&[".####."]), vec![quad(1, 0, 4, 1)]);
}

#[test]
fn gap_ends_a_quad_and_the_next_run_starts_a_new_one() {
    assert_eq!(merged(&["##.##"]), vec![quad(0, 0, 2, 1), quad(3, 0, 2, 1)]);
}

#[test]
fn width_does_not_run_over_the_end_of_a_row() {
    let rows = ["...............#", "#"];
    assert_eq!(merged(&rows), vec![quad(15, 0, 1, 1), quad(0, 1, 1, 1)]);
}

#[test]
fn full_row_then_short_row_do_not_merge() {
    let rows = ["################", "###############."];
    assert_eq!(merged(&rows), vec![quad(0, 0, 16, 1), quad(0, 1, 15, 1)]);
}

#[test]
fn rows_of_equal_width_merge_downwards() {
    let rows = [".###", ".###", ".###"];
    assert_eq!(merged(&rows), vec![quad(1, 0, 3, 3)]);
}

#[test]
fn height_growth_needs_the_whole_width() {
    let rows = ["###", "##."];
    assert_eq!(merged(&rows), vec![quad(0, 0, 3, 1), quad(0, 1, 2, 1)]);
}

#[test]
fn height_growth_stops_at_first_failing_row() {
    let rows = ["##", "##", "#.", "##"];
    assert_eq!(merged(&rows), vec![quad(0, 0, 2, 2), quad(0, 2, 1, 2), quad(1, 3, 1, 1)]);
}

#[test]
fn wider_row_below_leaves_its_rest_for_later() {
    let rows = ["#", "###"];
    assert_eq!(merged(&rows), vec![quad(0, 0, 1, 2), quad(1, 1, 2, 1)]);
}

#[test]
fn covered_cell_ends_width_growth() {
    let rows = [".#", "##"];
    assert_eq!(merged(&rows), vec![quad(1, 0, 1, 2), quad(0, 1, 1, 1)]);
}

#[test]
fn cell_that_ends_width_growth_may_start_the_next_quad() {
    // The second quad starts at the very cell that stopped the first: it
    // exists, but the row wrapped.
    let rows = ["..............##", "##"];
    assert_eq!(merged(&rows), vec![quad(14, 0, 2, 1), quad(0, 1, 2, 1)]);
}

#[test]
fn last_cell_alone_is_emitted() {
    let mut rows = vec![""; 15];
    rows.push("...............#");
    assert_eq!(merged(&rows), vec![quad(15, 15, 1, 1)]);
}

#[test]
fn quad_that_ends_at_the_last_cell_is_emitted() {
    let mut rows = vec![""; 15];
    rows.push(".............###");
    assert_eq!(merged(&rows), vec![quad(13, 15, 3, 1)]);
}

#[test]
fn last_row_in_full_is_emitted() {
    let mut rows = vec![""; 15];
    rows.push("################");
    assert_eq!(merged(&rows), vec![quad(0, 15, 16, 1)]);
}

#[test]
fn quad_reaches_the_bottom_of_the_grid() {
    let mut rows = vec![""; 13];
    rows.push("..##");
    rows.push("..##");
    rows.push("..##");
    assert_eq!(merged(&rows), vec![quad(2, 13, 2, 3)]);
}

#[test]
fn checkerboard_gives_one_unit_quad_per_cell() {
    let rows: Vec<String> = (0..16)
        .map(|y| (0..16).map(|x| if (x + y) % 2 == 0 { '#' } else { '.' }).collect())
        .collect();
    let rows: Vec<&str> = rows.iter().map(|r| r.as_str()).collect();
    let quads = merged(&rows);
    assert_eq!(quads.len(), 128);
    assert!(quads.iter().all(|q| q.w == 1 && q.h == 1));
    assert_eq!(quads[0], quad(0, 0, 1, 1));
    assert_eq!(quads[1], quad(2, 0, 1, 1));
    assert_eq!(quads[8], quad(1, 1, 1, 1));
    assert_eq!(quads[127], quad(15, 15, 1, 1));
}

#[test]
fn quads_come_in_scan_order_of_their_origins() {
    for seed in [1u32, 2, 3, 99, 12345] {
        let mut cells = patterned(seed);
        let quads = merge_quads(&mut cells);
        for pair in quads.windows(2) {
            assert!(pair[0].y * 16 + pair[0].x < pair[1].y * 16 + pair[1].x);
        }
    }
}

#[test]
fn quads_cover_each_existing_cell_once_and_nothing_else() {
    for seed in [1u32, 2, 3, 99, 12345] {
        let mut cells = patterned(seed);
        let before = cells.clone();
        let quads = merge_quads(&mut cells);
        let counts = cover_counts(&quads);
        for c in 0..256 {
            assert_eq!(counts[c], if before[c].exists { 1 } else { 0 });
        }
    }
}

#[test]
fn no_quad_could_have_grown_further_when_it_was_made() {
    for seed in [1u32, 2, 3, 99, 12345] {
        let mut cells = patterned(seed);
        let before = cells.clone();
        let quads = merge_quads(&mut cells);
        let mut taken = vec![false; 256];
        for q in quads.iter() {
            let free = |x: usize, y: usize, taken: &Vec<bool>| {
                x < 16 && y < 16 && before[y * 16 + x].exists && !taken[y * 16 + x]
            };
            for y in q.y..q.y + q.h {
                for x in q.x..q.x + q.w {
                    assert!(free(x, y, &taken));
                }
            }
            assert!(!free(q.x + q.w, q.y, &taken));
            assert!(!(q.x..q.x + q.w).all(|x| free(x, q.y + q.h, &taken)));
            for y in q.y..q.y + q.h {
                for x in q.x..q.x + q.w {
                    taken[y * 16 + x] = true;
                }
            }
        }
    }
}

#[test]
fn merging_the_same_grid_twice_gives_the_same_quads() {
    for seed in [7u32, 8, 9] {
        let mut first = patterned(seed);
        let mut second = patterned(seed);
        assert_eq!(merge_quads(&mut first), merge_quads(&mut second));
        assert_eq!(first, second);
    }
}

#[test]
fn merge_marks_every_existing_cell_done() {
    let mut cells = patterned(42);
    let before = cells.clone();
    merge_quads(&mut cells);
    for c in 0..256 {
        assert_eq!(cells[c].x, before[c].x);
        assert_eq!(cells[c].y, before[c].y);
        assert_eq!(cells[c].exists, before[c].exists);
        assert_eq!(cells[c].done, before[c].exists);
    }
}

#[test]
fn merging_a_merged_grid_gives_nothing() {
    let mut cells = patterned(5);
    assert!(!merge_quads(&mut cells).is_empty());
    let again = cells.clone();
    assert!(merge_quads(&mut cells).is_empty());
    assert_eq!(cells, again);
}

#[test]
fn cells_already_done_are_left_out() {
    let mut cells = grid(&["####", "####"]);
    cells[2].done = true;
    let quads = merge_quads(&mut cells);
    assert_eq!(quads, vec![quad(0, 0, 2, 2), quad(3, 0, 1, 2), quad(2, 1, 1, 1)]);
}

#[test]
fn row_is_free_tests_the_given_columns_only() {
    let mut cells = grid(&["", ".###."]);
    assert!(row_is_free(&cells, 1, 4, 1));
    assert!(row_is_free(&cells, 2, 3, 1));
    assert!(!row_is_free(&cells, 0, 4, 1));
    assert!(!row_is_free(&cells, 1, 5, 1));
    assert!(!row_is_free(&cells, 1, 4, 0));
    assert!(row_is_free(&cells, 3, 3, 0));
    cells[16 + 2].done = true;
    assert!(!row_is_free(&cells, 1, 4, 1));
    assert!(row_is_free(&cells, 3, 4, 1));
}

#[test]
fn mark_row_marks_the_given_columns_only() {
    let mut cells = grid(&["####", "####"]);
    let before = cells.clone();
    mark_row(&mut cells, 1, 3, 1);
    for c in 0..256 {
        assert_eq!(cells[c].x, before[c].x);
        assert_eq!(cells[c].y, before[c].y);
        assert_eq!(cells[c].exists, before[c].exists);
        assert_eq!(cells[c].done, c == 17 || c == 18);
    }
}
