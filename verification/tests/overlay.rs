use matrix_overlay::overlay::count_real;
use matrix_overlay::random::{
    BURST_END, BURST_MIN, GAP_END, GAP_MIN, GLYPH_END, GLYPH_MIN,
};
use matrix_overlay::{
    append_burst, build_column, build_trails, calc_lowest_char_changed_per_col, cutoffs, draw_plan,
    first_col, generate, generate_with, has_drifted, plan_suits_grid, reconcile, render, restore,
    screen_shot,
    snapshot_fits_grid, step, step_column, tick, tick_with, trails_fit_grid, undo, Burst, Cell,
    Color, Glyph, Grid, MatrixUndo, Reconciled, Rgb, TrailEntry, BOLD, COOLDOWN,
};

const FG: Color = Color::Named(7);
const BG: Color = Color::Named(0);

fn plain(c: char) -> Cell {
    Cell::new(c, FG, BG)
}

fn grid_from(lines: &[&str]) -> Grid {
    let cols = lines.first().map(|l| l.chars().count()).unwrap_or(0);
    let mut grid = Grid::new(lines.len(), cols, plain(' '));
    for (r, line) in lines.iter().enumerate() {
        for (c, ch) in line.chars().enumerate() {
            grid.set(r, c, plain(ch));
        }
    }
    grid
}

fn text(grid: &Grid) -> Vec<String> {
    (0..grid.num_lines())
        .map(|r| (0..grid.num_cols()).map(|c| grid.get(r, c).c).collect())
        .collect()
}

fn cells(grid: &Grid) -> Vec<Vec<Cell>> {
    (0..grid.num_lines())
        .map(|r| (0..grid.num_cols()).map(|c| grid.get(r, c)).collect())
        .collect()
}

fn synthetic_count(trail: &[TrailEntry]) -> usize {
    trail.iter().filter(|e| !e.is_real()).count()
}

fn burst(codes: &[(u8, bool)], gap: u8) -> Burst {
    Burst { glyphs: codes.iter().map(|&(code, bold)| Glyph { code, bold }).collect(), gap }
}

fn no_bursts(lines: usize, cols: usize) -> Vec<Vec<Burst>> {
    (0..cols).map(|_| (0..lines).map(|_| Burst::none()).collect()).collect()
}

fn green(level: u8) -> Color {
    Color::Spec(Rgb { r: 0, g: level, b: 0 })
}

#[test]
fn new_state_is_empty() {
    let state = MatrixUndo::new();
    assert_eq!(state.tick, 0);
    assert_eq!(state.last_change_detected, 0);
    assert!(state.original_columns.is_empty());
    assert!(state.columns.is_empty());
}

#[test]
fn cell_new_has_no_flags() {
    let cell = Cell::new('x', green(5), BG);
    assert_eq!(cell, Cell { c: 'x', fg: green(5), bg: BG, flags: 0 });
    assert!(!cell.is_blank());
    assert!(plain(' ').is_blank());
}

#[test]
fn grid_new_get_set() {
    let mut grid = Grid::new(2, 3, plain('.'));
    assert_eq!(grid.num_lines(), 2);
    assert_eq!(grid.num_cols(), 3);
    assert_eq!(text(&grid), vec!["...", "..."]);
    grid.set(1, 2, plain('Z'));
    assert_eq!(grid.get(1, 2), plain('Z'));
    assert_eq!(text(&grid), vec!["...", "..Z"]);
}

#[test]
fn grid_without_lines_keeps_its_columns() {
    let grid = Grid::new(0, 5, plain(' '));
    assert_eq!(grid.num_lines(), 0);
    assert_eq!(grid.num_cols(), 5);
    let shot = screen_shot(&grid);
    assert_eq!(shot.len(), 5);
    assert!(shot.iter().all(|col| col.is_empty()));
}

#[test]
fn screen_shot_is_column_major() {
    let grid = grid_from(&["ab", "cd", "ef"]);
    let shot = screen_shot(&grid);
    assert_eq!(shot.len(), 2);
    let col0: String = shot[0].iter().map(|c| c.c).collect();
    let col1: String = shot[1].iter().map(|c| c.c).collect();
    assert_eq!(col0, "ace");
    assert_eq!(col1, "bdf");
    assert!(snapshot_fits_grid(&shot, &grid));
    assert!(!snapshot_fits_grid(&shot, &grid_from(&["ab", "cd"])));
    assert!(!snapshot_fits_grid(&shot, &grid_from(&["abc", "cde", "efg"])));
}

#[test]
fn first_col_reads_one_column() {
    let grid = grid_from(&["ab", "cd", "ef"]);
    assert_eq!(first_col(&grid, 0), vec!['a', 'c', 'e']);
    assert_eq!(first_col(&grid, 1), vec!['b', 'd', 'f']);
}

#[test]
fn lowest_changed_line_per_column() {
    let before = grid_from(&["abc", "abc", "abc", "abc"]);
    let shot = screen_shot(&before);
    // column 0: lines 1 and 2 changed; column 1: nothing; column 2: only the top line.
    let after = grid_from(&["abX", "Xbc", "Xbc", "abc"]);
    assert_eq!(calc_lowest_char_changed_per_col(&after, &shot), vec![2, 0, 0]);
    let bottom = grid_from(&["abc", "abc", "abc", "Xbc"]);
    assert_eq!(calc_lowest_char_changed_per_col(&bottom, &shot), vec![3, 0, 0]);
}

#[test]
fn change_detection_compares_characters_only() {
    let before = grid_from(&["ab", "cd"]);
    let shot = screen_shot(&before);
    let mut after = grid_from(&["ab", "cd"]);
    after.set(1, 0, Cell { c: 'c', fg: green(9), bg: BG, flags: BOLD });
    assert_eq!(calc_lowest_char_changed_per_col(&after, &shot), vec![0, 0]);
}

#[test]
fn cutoffs_without_snapshot_admit_every_line() {
    let grid = grid_from(&["A  ", "   ", "   ", "   "]);
    let state = MatrixUndo::new();
    assert_eq!(cutoffs(&state, &grid), vec![4, 4, 4]);
}

#[test]
fn cutoffs_with_misshapen_snapshot_admit_no_line() {
    let grid = grid_from(&["A  ", "   ", "   ", "   "]);
    let mut state = MatrixUndo::new();
    state.original_columns = screen_shot(&grid_from(&["xx", "xx"]));
    assert_eq!(cutoffs(&state, &grid), vec![0, 0, 0]);
}

#[test]
fn cutoffs_with_snapshot_follow_the_lowest_change() {
    let mut state = MatrixUndo::new();
    state.original_columns = screen_shot(&grid_from(&["ab", "ab", "ab"]));
    let grid = grid_from(&["ab", "Xb", "ab"]);
    assert_eq!(cutoffs(&state, &grid), vec![1, 0]);
}

#[test]
fn burst_entries_ramp_and_gap() {
    let source = Cell { c: 'A', fg: Color::Indexed(3), bg: Color::Named(1), flags: 0 };
    let b = burst(&[(65, false), (66, true), (67, false)], 2);
    assert!(b.is_valid());
    let mut column = vec![TrailEntry::Real(source)];
    append_burst(&mut column, source, &b);
    let bg = Color::Named(1);
    assert_eq!(
        column,
        vec![
            TrailEntry::Real(source),
            TrailEntry::Synthetic(Cell { c: 'A', fg: green(180), bg, flags: 0 }),
            TrailEntry::Synthetic(Cell { c: 'B', fg: green(170), bg, flags: BOLD }),
            TrailEntry::Synthetic(Cell { c: 'C', fg: green(160), bg, flags: 0 }),
            TrailEntry::Synthetic(Cell { c: ' ', fg: Color::Indexed(3), bg, flags: 0 }),
            TrailEntry::Synthetic(Cell { c: ' ', fg: Color::Indexed(3), bg, flags: 0 }),
        ]
    );
}

#[test]
fn longest_burst_is_brightest_at_its_head() {
    let source = plain('q');
    let codes: Vec<(u8, bool)> = (0..9).map(|i| (40 + i, false)).collect();
    let b = burst(&codes, 7);
    assert!(b.is_valid());
    let mut column = Vec::new();
    append_burst(&mut column, source, &b);
    assert_eq!(column.len(), 16);
    assert_eq!(column[0].cell().fg, green(240));
    assert_eq!(column[8].cell().fg, green(160));
    assert_eq!(column[0].cell().c, '(');
}

#[test]
fn burst_validity_bounds() {
    assert!(!Burst::none().is_valid());
    assert!(!burst(&[(65, false)], 2).is_valid());
    assert!(burst(&[(65, false), (66, false)], 2).is_valid());
    assert!(!burst(&[(65, false), (66, false)], 1).is_valid());
    assert!(burst(&[(65, false), (66, false)], 7).is_valid());
    assert!(!burst(&[(65, false), (66, false)], 8).is_valid());
    assert!(!burst(&[(30, false), (66, false)], 2).is_valid());
    assert!(burst(&[(31, false), (125, false)], 2).is_valid());
    assert!(!burst(&[(31, false), (126, false)], 2).is_valid());
    let ten: Vec<(u8, bool)> = (0..10).map(|_| (65, false)).collect();
    assert!(!burst(&ten, 2).is_valid());
}

#[test]
fn drawn_bursts_are_valid_and_vary() {
    let mut lengths = std::collections::BTreeSet::new();
    let mut codes = std::collections::BTreeSet::new();
    let mut gaps = std::collections::BTreeSet::new();
    let mut bold = 0usize;
    let mut total = 0usize;
    for _ in 0..400 {
        let b = Burst::draw();
        assert!(b.is_valid());
        assert!((BURST_MIN as usize..BURST_END as usize).contains(&b.glyphs.len()));
        assert!((GAP_MIN..GAP_END).contains(&b.gap));
        lengths.insert(b.glyphs.len());
        gaps.insert(b.gap);
        for g in &b.glyphs {
            assert!((GLYPH_MIN..GLYPH_END).contains(&g.code));
            codes.insert(g.code);
            total += 1;
            if g.bold {
                bold += 1;
            }
        }
    }
    assert!(lengths.len() > 1);
    assert!(gaps.len() > 1);
    assert!(codes.len() > 10);
    assert!(bold > 0 && bold < total);
}

#[test]
fn build_column_places_bursts_above_the_cutoff_only() {
    let grid = grid_from(&["a", " ", "b", "c"]);
    let bursts = vec![
        burst(&[(65, false), (66, false)], 2),
        burst(&[(67, false), (68, false)], 2),
        burst(&[(69, true), (70, false)], 3),
        burst(&[(71, false), (72, false)], 2),
    ];
    // cutoff 3: lines 0..3 are eligible, line 1 is blank, line 3 is at the cutoff.
    let column = build_column(&grid, 0, 3, &bursts);
    let shape: String = column
        .iter()
        .map(|e| if e.is_real() { 'R' } else { 'S' })
        .collect();
    assert_eq!(shape, "RSSSSRRSSSSSR");
    let chars: String = column.iter().map(|e| e.cell().c).collect();
    assert_eq!(chars, "aAB   bEF   c");
    assert_eq!(count_real(&column), 4);
    assert_eq!(column[7].cell().flags, BOLD);
}

#[test]
fn lines_at_or_below_the_cutoff_stay_real() {
    let snapshot_grid = grid_from(&["abc", "abc", "abc", "abc"]);
    let mut state = MatrixUndo::new();
    state.original_columns = screen_shot(&snapshot_grid);
    let grid = grid_from(&["abc", "aXc", "abc", "abc"]);
    let lowest = cutoffs(&state, &grid);
    assert_eq!(lowest, vec![0, 1, 0]);
    let plan = draw_plan(&grid, &lowest);
    let trails = build_trails(&grid, &lowest, &plan);
    // Column 1 changed at line 1: only line 0 may carry a burst.
    let col = &trails[1];
    assert!(col[0].is_real());
    assert!(synthetic_count(col) >= 4);
    let tail = &col[col.len() - 3..];
    assert!(tail.iter().all(|e| e.is_real()));
    assert_eq!(tail.iter().map(|e| e.cell().c).collect::<String>(), "Xbb");
    // Columns without a change carry no synthetic entry at all.
    assert_eq!(trails[0].len(), 4);
    assert_eq!(trails[2].len(), 4);
}

#[test]
fn generate_with_fixed_plan_is_exact() {
    let grid = grid_from(&["A ", "  "]);
    let mut state = MatrixUndo::new();
    let plan = vec![
        vec![burst(&[(33, false), (34, true)], 2), Burst::none()],
        vec![Burst::none(), Burst::none()],
    ];
    generate_with(&mut state, &grid, &plan);
    assert_eq!(state.original_columns, screen_shot(&grid));
    assert_eq!(
        state.columns[0],
        vec![
            TrailEntry::Real(plain('A')),
            TrailEntry::Synthetic(Cell { c: '!', fg: green(170), bg: BG, flags: 0 }),
            TrailEntry::Synthetic(Cell { c: '"', fg: green(160), bg: BG, flags: BOLD }),
            TrailEntry::Synthetic(Cell { c: ' ', fg: FG, bg: BG, flags: 0 }),
            TrailEntry::Synthetic(Cell { c: ' ', fg: FG, bg: BG, flags: 0 }),
            TrailEntry::Real(plain(' ')),
        ]
    );
    assert_eq!(state.columns[1], vec![TrailEntry::Real(plain(' ')), TrailEntry::Real(plain(' '))]);
    assert!(trails_fit_grid(&state.columns, &grid));
}

#[test]
fn step_column_removes_the_lowest_synthetic() {
    let r = |c| TrailEntry::Real(plain(c));
    let s = |c| TrailEntry::Synthetic(plain(c));
    let mut trail = vec![r('a'), s('1'), s('2'), r('b'), r('c')];
    assert!(step_column(&mut trail));
    assert_eq!(trail, vec![r('a'), s('1'), r('b'), r('c')]);
    assert!(step_column(&mut trail));
    assert_eq!(trail, vec![r('a'), r('b'), r('c')]);
    assert!(!step_column(&mut trail));
    assert_eq!(trail, vec![r('a'), r('b'), r('c')]);
}

#[test]
fn step_column_edge_cases() {
    let mut empty: Vec<TrailEntry> = Vec::new();
    assert!(!step_column(&mut empty));
    assert!(empty.is_empty());
    let mut leading = vec![TrailEntry::Synthetic(plain('x')), TrailEntry::Real(plain('a'))];
    assert!(step_column(&mut leading));
    assert_eq!(leading, vec![TrailEntry::Real(plain('a'))]);
}

#[test]
fn trail_exhaustion_round_trip() {
    let grid = grid_from(&["a", "b", " ", "c"]);
    let bursts = vec![
        burst(&[(65, false), (66, false), (67, true)], 4),
        burst(&[(68, false), (69, false)], 2),
        Burst::none(),
        burst(&[(70, false), (71, false)], 7),
    ];
    let mut trail = build_column(&grid, 0, 4, &bursts);
    let rows = 4;
    let steps = trail.len() - rows;
    assert_eq!(steps, 7 + 4 + 9);
    for _ in 0..steps {
        assert!(step_column(&mut trail));
    }
    assert_eq!(synthetic_count(&trail), 0);
    assert_eq!(
        trail,
        vec![
            TrailEntry::Real(plain('a')),
            TrailEntry::Real(plain('b')),
            TrailEntry::Real(plain(' ')),
            TrailEntry::Real(plain('c')),
        ]
    );
    assert!(!step_column(&mut trail));
}

#[test]
fn render_writes_the_windows() {
    let mut grid = grid_from(&["a", "b"]);
    let trails = vec![vec![
        TrailEntry::Real(plain('a')),
        TrailEntry::Synthetic(plain('1')),
        TrailEntry::Synthetic(plain('2')),
        TrailEntry::Real(plain('b')),
    ]];
    assert!(trails_fit_grid(&trails, &grid));
    assert!(has_drifted(&trails, &grid));
    render(&trails, &mut grid);
    assert_eq!(text(&grid), vec!["2", "b"]);
    assert!(!has_drifted(&trails, &grid));
}

#[test]
fn trails_fit_checks_every_column() {
    let grid = grid_from(&["ab", "cd"]);
    let real2 = vec![TrailEntry::Real(plain('a')), TrailEntry::Real(plain('c'))];
    let real1 = vec![TrailEntry::Real(plain('a'))];
    assert!(trails_fit_grid(&vec![real2.clone(), real2.clone()], &grid));
    assert!(!trails_fit_grid(&vec![real2.clone()], &grid));
    assert!(!trails_fit_grid(&vec![real2.clone(), real1], &grid));
    assert!(!trails_fit_grid(&Vec::new(), &grid));
}

#[test]
fn restoration_fidelity() {
    let original = grid_from(&["ab", "cd", "ef"]);
    let mut state = MatrixUndo::new();
    let plan = vec![
        vec![burst(&[(49, false), (50, false)], 2), Burst::none(), Burst::none()],
        vec![Burst::none(), Burst::none(), Burst::none()],
    ];
    let mut grid = original.clone();
    state.tick = 9;
    generate_with(&mut state, &grid, &plan);
    assert_eq!(synthetic_count(&state.columns[0]), 4);
    assert!(step(&mut state, &mut grid));
    // Column 0 now shows  ' ', 'c', 'e'  (a gap blank fell into the top line).
    assert_eq!(text(&grid), vec![" b", "cd", "ef"]);
    // The outside writer changes one cell; another one it leaves alone.
    let outside = Cell { c: 'Q', fg: green(1), bg: BG, flags: BOLD };
    grid.set(2, 1, outside);
    assert!(has_drifted(&state.columns, &grid));
    undo(&mut state, &mut grid);
    assert_eq!(grid.get(2, 1), outside);
    assert_eq!(grid.get(0, 0), original.get(0, 0));
    assert_eq!(text(&grid), vec!["ab", "cd", "eQ"]);
    assert!(state.columns.is_empty());
    assert_eq!(state.last_change_detected, 9);
    assert_eq!(state.original_columns, screen_shot(&grid));
}

#[test]
fn restore_keeps_outside_writes_over_overlay_cells() {
    let snapshot = screen_shot(&grid_from(&["a", "b"]));
    let trails = vec![vec![
        TrailEntry::Real(plain('a')),
        TrailEntry::Synthetic(plain('1')),
        TrailEntry::Synthetic(plain('2')),
        TrailEntry::Real(plain('b')),
    ]];
    // The overlay wrote '1' and '2'; the outside writer then overwrote line 1.
    let mut grid = grid_from(&["1", "Z"]);
    let trails_now = vec![trails[0][..3].to_vec()];
    assert!(!trails_fit_grid(&trails_now, &grid));
    let window = vec![vec![
        TrailEntry::Real(plain('a')),
        TrailEntry::Synthetic(plain('1')),
        TrailEntry::Synthetic(plain('2')),
        TrailEntry::Real(plain('b')),
    ]];
    let mut shown = grid_from(&["2", "Z"]);
    restore(&window, &snapshot, &mut shown);
    assert_eq!(text(&shown), vec!["a", "Z"]);
    restore(&window, &snapshot, &mut grid);
    assert_eq!(text(&grid), vec!["1", "Z"]);
}

#[test]
fn undo_without_trails_changes_nothing() {
    let mut grid = grid_from(&["ab"]);
    let mut state = MatrixUndo::new();
    state.tick = 5;
    state.last_change_detected = 2;
    undo(&mut state, &mut grid);
    assert_eq!(state.last_change_detected, 2);
    assert!(state.original_columns.is_empty());
    assert_eq!(text(&grid), vec!["ab"]);
}

#[test]
fn undo_with_misshapen_trails_resets_without_restoring() {
    let mut grid = grid_from(&["ab", "cd"]);
    let mut state = MatrixUndo::new();
    state.tick = 3;
    state.original_columns = screen_shot(&grid_from(&["xy", "zw"]));
    state.columns = vec![vec![TrailEntry::Real(plain('a'))]];
    undo(&mut state, &mut grid);
    assert_eq!(text(&grid), vec!["ab", "cd"]);
    assert!(state.columns.is_empty());
    assert_eq!(state.last_change_detected, 3);
    assert_eq!(state.original_columns, screen_shot(&grid));
}

#[test]
fn resize_resets_cleanly() {
    let small = grid_from(&["ab", "cd"]);
    let mut state = MatrixUndo::new();
    generate(&mut state, &small);
    assert!(trails_fit_grid(&state.columns, &small));
    for (mut grid, name) in [
        (grid_from(&["ab", "cd", "ef"]), "taller"),
        (grid_from(&["abc", "def"]), "wider"),
        (grid_from(&["a"]), "smaller"),
    ] {
        let mut s = state.clone();
        let before = cells(&grid);
        let last = s.last_change_detected;
        assert_eq!(reconcile(&mut s, &mut grid), Reconciled::Resized, "{}", name);
        assert!(s.columns.is_empty());
        assert_eq!(s.original_columns, screen_shot(&grid));
        assert!(snapshot_fits_grid(&s.original_columns, &grid));
        assert_eq!(cells(&grid), before);
        assert_eq!(s.last_change_detected, last);
    }
}

#[test]
fn trail_shorter_than_the_grid_is_a_reset() {
    let mut grid = grid_from(&["a", "b", "c"]);
    let mut state = MatrixUndo::new();
    state.columns = vec![vec![TrailEntry::Real(plain('a'))]];
    tick(&mut state, &mut grid);
    assert_eq!(text(&grid), vec!["a", "b", "c"]);
    assert!(state.columns.is_empty());
    assert_eq!(state.original_columns, screen_shot(&grid));
}

#[test]
fn reconcile_outcomes() {
    let mut grid = grid_from(&["ab", "cd"]);
    let mut state = MatrixUndo::new();
    assert_eq!(reconcile(&mut state, &mut grid), Reconciled::Idle);
    generate_with(&mut state, &grid, &no_bursts(2, 2));
    assert_eq!(reconcile(&mut state, &mut grid), Reconciled::Steady);
    assert_eq!(state.columns.len(), 2);
    grid.set(0, 0, plain('!'));
    state.tick = 17;
    assert_eq!(reconcile(&mut state, &mut grid), Reconciled::Restored);
    assert!(state.columns.is_empty());
    assert_eq!(state.last_change_detected, 17);
    assert_eq!(text(&grid), vec!["!b", "cd"]);
}

#[test]
fn settled_step_takes_the_rest_snapshot_once() {
    let mut grid = grid_from(&["ab"]);
    let mut state = MatrixUndo::new();
    generate_with(&mut state, &grid, &no_bursts(1, 2));
    state.original_columns.clear();
    assert!(!step(&mut state, &mut grid));
    assert_eq!(state.original_columns, screen_shot(&grid));
    let kept = state.original_columns.clone();
    grid.set(0, 0, plain('z'));
    assert!(!step(&mut state, &mut grid));
    assert_eq!(state.original_columns, kept);
    assert_eq!(text(&grid), vec!["zb"]);
}

#[test]
fn step_without_trails_does_nothing() {
    let mut grid = grid_from(&["ab"]);
    let mut state = MatrixUndo::new();
    assert!(!step(&mut state, &mut grid));
    assert!(state.original_columns.is_empty());
    assert!(state.columns.is_empty());
}

#[test]
fn tick_counter_stops_at_its_largest_value() {
    let mut grid = grid_from(&["a"]);
    let mut state = MatrixUndo::new();
    state.tick = u64::MAX - 1;
    state.last_change_detected = u64::MAX - 1;
    tick(&mut state, &mut grid);
    assert_eq!(state.tick, u64::MAX);
    assert!(state.columns.is_empty());
    tick(&mut state, &mut grid);
    assert_eq!(state.tick, u64::MAX);
    assert!(state.columns.is_empty());
}

#[test]
fn cooldown_elapsed_is_exact() {
    let mut state = MatrixUndo::new();
    state.last_change_detected = 10;
    state.tick = 13;
    assert!(!state.cooldown_elapsed());
    state.tick = 14;
    assert!(state.cooldown_elapsed());
    state.tick = 3;
    state.last_change_detected = 0;
    assert!(!state.cooldown_elapsed());
    state.last_change_detected = u64::MAX;
    state.tick = u64::MAX;
    assert!(!state.cooldown_elapsed());
}

#[test]
fn cooldown_gates_generation() {
    let mut grid = grid_from(&["ab", "cd"]);
    let mut state = MatrixUndo::new();
    for _ in 0..COOLDOWN - 1 {
        tick(&mut state, &mut grid);
        assert!(state.columns.is_empty());
        assert_eq!(text(&grid), vec!["ab", "cd"]);
    }
    tick(&mut state, &mut grid);
    assert_eq!(state.tick, COOLDOWN);
    assert_eq!(state.columns.len(), 2);
}

#[test]
fn cooldown_restarts_after_a_detected_change() {
    let mut grid = grid_from(&["ab", "cd"]);
    let mut state = MatrixUndo::new();
    state.tick = 20;
    generate_with(&mut state, &grid, &no_bursts(2, 2));
    grid.set(1, 1, plain('X'));
    tick(&mut state, &mut grid);
    assert_eq!(state.tick, 21);
    assert_eq!(state.last_change_detected, 21);
    assert!(state.columns.is_empty());
    for _ in 0..COOLDOWN - 1 {
        tick(&mut state, &mut grid);
        assert!(state.columns.is_empty());
    }
    tick(&mut state, &mut grid);
    assert_eq!(state.tick, 25);
    assert_eq!(state.columns.len(), 2);
    assert_eq!(text(&grid), vec!["ab", "cX"]);
}

#[test]
fn end_to_end_scenario() {
    let lines = ["A  ", "   ", "   ", "   "];
    let mut grid = grid_from(&lines);
    let original = cells(&grid);
    let mut state = MatrixUndo::new();
    state.tick = COOLDOWN;
    generate(&mut state, &grid);
    assert_eq!(state.columns.len(), 3);
    let col0 = state.columns[0].clone();
    assert_eq!(col0[0], TrailEntry::Real(plain('A')));
    let synthetic = synthetic_count(&col0);
    assert_eq!(col0.len(), 4 + synthetic);
    assert!(col0[1..=synthetic].iter().all(|e| !e.is_real()));
    assert!(col0[synthetic + 1..].iter().all(|e| *e == TrailEntry::Real(plain(' '))));
    let glyphs = col0[1..=synthetic]
        .iter()
        .take_while(|e| matches!(e.cell().fg, Color::Spec(_)))
        .count();
    let gap = synthetic - glyphs;
    assert!((2..=9).contains(&glyphs));
    assert!((2..=7).contains(&gap));
    for (i, e) in col0[1..=glyphs].iter().enumerate() {
        assert_eq!(e.cell().fg, green((150 + (glyphs - i) * 10) as u8));
        assert_eq!(e.cell().bg, BG);
        assert!((31..126).contains(&(e.cell().c as u32)));
        assert!(e.cell().flags == 0 || e.cell().flags == BOLD);
    }
    for e in &col0[glyphs + 1..=synthetic] {
        assert_eq!(e.cell(), Cell { c: ' ', fg: FG, bg: BG, flags: 0 });
    }
    for c in 1..3 {
        assert_eq!(state.columns[c], vec![TrailEntry::Real(plain(' ')); 4]);
    }
    let full = col0.len();
    for i in 0..full {
        let progress = step(&mut state, &mut grid);
        assert_eq!(progress, i < synthetic);
        for c in 0..3 {
            let trail = &state.columns[c];
            for r in 0..4 {
                assert_eq!(grid.get(r, c).c, trail[trail.len() - 4 + r].cell().c);
            }
        }
    }
    assert_eq!(text(&grid), lines.to_vec());
    assert_eq!(cells(&grid), original);
    assert!(state.columns.iter().all(|t| synthetic_count(t) == 0));
}

#[test]
fn end_to_end_through_ticks() {
    let lines = ["A  ", "   ", "   ", "   "];
    let mut grid = grid_from(&lines);
    let mut state = MatrixUndo::new();
    for _ in 0..COOLDOWN - 1 {
        tick(&mut state, &mut grid);
        assert!(state.columns.is_empty());
    }
    tick(&mut state, &mut grid);
    assert_eq!(state.columns.len(), 3);
    assert!(synthetic_count(&state.columns[0]) >= 3);
    assert_eq!(state.columns[1].len(), 4);
    assert_eq!(state.columns[2].len(), 4);
    for _ in 0..32 {
        tick(&mut state, &mut grid);
        assert!(trails_fit_grid(&state.columns, &grid));
        assert!(!has_drifted(&state.columns, &grid));
    }
    assert_eq!(text(&grid), lines.to_vec());
    assert!(state.columns.iter().all(|t| synthetic_count(t) == 0));
    assert_eq!(state.last_change_detected, 0);
}

#[test]
fn outside_write_during_animation_survives() {
    let mut grid = grid_from(&["Ab", "cd", "ef", "gh"]);
    let mut state = MatrixUndo::new();
    for _ in 0..COOLDOWN + 2 {
        tick(&mut state, &mut grid);
    }
    assert!(synthetic_count(&state.columns[0]) > 0);
    grid.set(3, 1, plain('#'));
    tick(&mut state, &mut grid);
    assert!(state.columns.is_empty());
    assert_eq!(state.last_change_detected, state.tick);
    assert_eq!(grid.get(3, 1), plain('#'));
    assert_eq!(first_col(&grid, 1), vec!['b', 'd', 'f', '#']);
}

#[test]
fn empty_grid_ticks_without_trails() {
    let mut grid = Grid::new(0, 0, plain(' '));
    let mut state = MatrixUndo::new();
    for _ in 0..10 {
        tick(&mut state, &mut grid);
        assert!(state.columns.is_empty());
    }
    assert_eq!(state.tick, 10);
    let mut flat = Grid::new(0, 3, plain(' '));
    let mut state = MatrixUndo::new();
    for _ in 0..10 {
        tick(&mut state, &mut flat);
    }
    assert_eq!(state.columns.len(), 3);
    assert!(state.columns.iter().all(|t| t.is_empty()));
}

#[test]
fn ticks_with_a_fixed_plan_are_exact() {
    let lines = ["A ", "  ", "b "];
    let mut grid = grid_from(&lines);
    let mut state = MatrixUndo::new();
    let one = || burst(&[(33, false), (34, false)], 2);
    let plan: Vec<Vec<Burst>> = (0..2).map(|_| (0..3).map(|_| one()).collect()).collect();
    for _ in 0..COOLDOWN - 1 {
        tick_with(&mut state, &mut grid, &plan);
        assert!(state.columns.is_empty());
    }
    tick_with(&mut state, &mut grid, &plan);
    // Generated: A ! " _ _ ' ' b ! " _ _ ; the first step drops the last gap blank.
    let chars: String = state.columns[0].iter().map(|e| e.cell().c).collect();
    assert_eq!(chars, "A!\"   b!\" ");
    assert_eq!(state.columns[1].len(), 3);
    assert_eq!(text(&grid), vec!["! ", "\" ", "  "]);
    let expected = [
        ["b ", "! ", "\" "],
        ["  ", "b ", "! "],
        ["  ", "  ", "b "],
        ["  ", "  ", "b "],
        ["\" ", "  ", "b "],
        ["! ", "  ", "b "],
        ["A ", "  ", "b "],
        ["A ", "  ", "b "],
    ];
    for (i, frame) in expected.iter().enumerate() {
        tick_with(&mut state, &mut grid, &plan);
        assert_eq!(text(&grid), frame.to_vec(), "frame {}", i);
    }
    assert!(state.columns.iter().all(|t| synthetic_count(t) == 0));
    assert_eq!(state.tick, COOLDOWN + 8);
    assert_eq!(state.original_columns, screen_shot(&grid_from(&lines)));
}

#[test]
fn plan_suitability_is_checked_against_the_cutoffs() {
    let grid = grid_from(&["A ", "  "]);
    let state = MatrixUndo::new();
    let good = vec![
        vec![burst(&[(33, false), (34, true)], 2), Burst::none()],
        vec![Burst::none(), Burst::none()],
    ];
    assert!(plan_suits_grid(&state, &grid, &good));
    assert!(!plan_suits_grid(&state, &grid, &no_bursts(2, 2)));
    assert!(!plan_suits_grid(&state, &grid, &no_bursts(2, 1)));
    assert!(!plan_suits_grid(&state, &grid, &no_bursts(1, 2)));
    // Against a snapshot that shows no change, no cell needs a burst.
    let mut settled = MatrixUndo::new();
    settled.original_columns = screen_shot(&grid);
    assert!(plan_suits_grid(&settled, &grid, &no_bursts(2, 2)));
    assert!(plan_suits_grid(&settled, &grid, &good));
}
