use ant_paths::armyants::{add_settling_constraints, armyants_formula, InnerGridEdges};
use ant_paths::assignment::Assignment;
use ant_paths::formula::{Constraint, Formula, Rule};
use ant_paths::movement::{
    add_movement_constraints, clues_in_domain, label_bound, BuildError,
};

fn to_bool_2d(rows: Vec<Vec<i32>>) -> Vec<Vec<bool>> {
    rows.into_iter()
        .map(|row| row.into_iter().map(|x| x != 0).collect())
        .collect()
}

fn to_option_2d(rows: Vec<Vec<i32>>) -> Vec<Vec<Option<i32>>> {
    rows.into_iter()
        .map(|row| row.into_iter().map(Some).collect())
        .collect()
}

fn to_option_bool_2d(rows: Vec<Vec<i32>>) -> Vec<Vec<Option<bool>>> {
    rows.into_iter()
        .map(|row| row.into_iter().map(|x| Some(x != 0)).collect())
        .collect()
}

fn problem_for_tests() -> (InnerGridEdges, Vec<Vec<Option<i32>>>) {
    let borders = InnerGridEdges {
        horizontal: to_bool_2d(vec![vec![0, 1, 1, 0], vec![1, 1, 1, 1], vec![0, 1, 1, 0]]),
        vertical: to_bool_2d(vec![
            vec![1, 0, 1],
            vec![1, 0, 0],
            vec![0, 0, 1],
            vec![1, 0, 1],
        ]),
    };

    let clues = vec![
        vec![None, None, Some(1), None],
        vec![Some(2), None, None, Some(4)],
        vec![Some(3), None, None, Some(1)],
        vec![None, Some(2), None, None],
    ];

    (borders, clues)
}

fn solution_for_tests() -> Assignment {
    Assignment {
        direction: vec![
            vec![0, 0, 3, 0],
            vec![1, 0, 0, 3],
            vec![4, 4, 0, 2],
            vec![0, 4, 0, 0],
        ],
        label: vec![
            vec![2, 1, 1, -2],
            vec![2, -2, 4, 4],
            vec![3, 3, 3, 1],
            vec![-2, 2, 2, 1],
        ],
        end_state: vec![
            vec![2, 1, -2, -2],
            vec![-2, -2, 4, -2],
            vec![-2, -2, 3, -2],
            vec![-2, -2, 2, 1],
        ],
        has_incoming: to_bool_2d(vec![
            vec![1, 1, 0, 0],
            vec![0, 0, 1, 0],
            vec![0, 1, 1, 0],
            vec![0, 0, 1, 1],
        ]),
        horizontal: to_bool_2d(vec![
            vec![0, 1, 0],
            vec![0, 0, 1],
            vec![1, 1, 0],
            vec![0, 1, 0],
        ]),
        vertical: to_bool_2d(vec![vec![1, 0, 0, 0], vec![0, 0, 0, 0], vec![0, 0, 0, 1]]),
    }
}

fn wrap_bools(rows: &Vec<Vec<bool>>) -> Vec<Vec<Option<bool>>> {
    rows.iter()
        .map(|row| row.iter().map(|&b| Some(b)).collect())
        .collect()
}

fn wrap_ints(rows: &Vec<Vec<i32>>) -> Vec<Vec<Option<i32>>> {
    rows.iter()
        .map(|row| row.iter().map(|&n| Some(n)).collect())
        .collect()
}

/// Every assignment to a grid of one row and two columns, labels and end
/// states up to `max`, that satisfies `formula`.
fn solutions_of_pair(formula: &Formula, max: i32) -> Vec<Assignment> {
    let mut found = vec![];
    let values: Vec<i32> = (-2..=max).collect();
    for edge in [false, true] {
        for d0 in 0u8..=4 {
            for d1 in 0u8..=4 {
                for &n0 in &values {
                    for &n1 in &values {
                        for &e0 in &values {
                            for &e1 in &values {
                                for i0 in [false, true] {
                                    for i1 in [false, true] {
                                        let a = Assignment {
                                            direction: vec![vec![d0, d1]],
                                            label: vec![vec![n0, n1]],
                                            end_state: vec![vec![e0, e1]],
                                            has_incoming: vec![vec![i0, i1]],
                                            horizontal: vec![vec![edge]],
                                            vertical: vec![],
                                        };
                                        if formula.satisfied_by(&a) {
                                            found.push(a);
                                        }
                                    }
                                }
                            }
                        }
                    }
                }
            }
        }
    }
    found
}

/// Every assignment to a grid of a single cell, labels and end states up to
/// `max`, that satisfies `formula`.
fn solutions_of_single(formula: &Formula, max: i32) -> Vec<Assignment> {
    let mut found = vec![];
    for d in 0u8..=5 {
        for n in -3..=max + 1 {
            for e in -3..=max + 1 {
                for i in [false, true] {
                    let a = Assignment {
                        direction: vec![vec![d]],
                        label: vec![vec![n]],
                        end_state: vec![vec![e]],
                        has_incoming: vec![vec![i]],
                        horizontal: vec![vec![]],
                        vertical: vec![],
                    };
                    if formula.satisfied_by(&a) {
                        found.push(a);
                    }
                }
            }
        }
    }
    found
}

/// The cell one step from `(y, x)` in direction `d`, where it lies on the grid.
fn target(h: usize, w: usize, y: usize, x: usize, d: u8) -> Option<(usize, usize)> {
    match d {
        1 if y > 0 => Some((y - 1, x)),
        2 if y + 1 < h => Some((y + 1, x)),
        3 if x > 0 => Some((y, x - 1)),
        4 if x + 1 < w => Some((y, x + 1)),
        _ => None,
    }
}

/// Tries every label for the paths of `dir` and keeps the assignments that
/// satisfy `formula`. Cells of one path carry one label, so a label is chosen
/// once for each path.
fn label_paths(
    formula: &Formula,
    clues: &Vec<Vec<Option<i32>>>,
    max: i32,
    dir: &Vec<Vec<u8>>,
    inc: &Vec<Vec<u8>>,
    found: &mut Vec<Assignment>,
) {
    let (h, w) = (dir.len(), dir[0].len());
    let mut pred = vec![vec![None; w]; h];
    for y in 0..h {
        for x in 0..w {
            if let Some((ty, tx)) = target(h, w, y, x, dir[y][x]) {
                pred[ty][tx] = Some((y, x));
            }
        }
    }
    // The first cell of each path; for a closed path its least cell.
    let mut root = vec![vec![(0usize, 0usize); w]; h];
    for y in 0..h {
        for x in 0..w {
            let mut at = (y, x);
            let mut least = at;
            for _ in 0..h * w {
                match pred[at.0][at.1] {
                    Some(p) => {
                        at = p;
                        least = least.min(p);
                    }
                    None => {
                        least = at;
                        break;
                    }
                }
            }
            root[y][x] = least;
        }
    }
    let mut roots = vec![];
    let mut choices: Vec<Vec<i32>> = vec![];
    for y in 0..h {
        for x in 0..w {
            if root[y][x] == (y, x) {
                roots.push((y, x));
                choices.push(match clues[y][x] {
                    Some(n) if n >= 0 && pred[y][x].is_none() => vec![n],
                    Some(_) if pred[y][x].is_none() => (0..=max).collect(),
                    _ if dir[y][x] == 0 => vec![-2],
                    _ => (-1..=max).collect(),
                });
            }
        }
    }
    let mut pick = vec![0usize; roots.len()];
    loop {
        let mut label = vec![vec![0i32; w]; h];
        for y in 0..h {
            for x in 0..w {
                let i = roots.iter().position(|&r| r == root[y][x]).unwrap();
                label[y][x] = choices[i][pick[i]];
            }
        }
        let a = Assignment {
            direction: dir.clone(),
            end_state: (0..h)
                .map(|y| (0..w).map(|x| if dir[y][x] != 0 { -2 } else { label[y][x] }).collect())
                .collect(),
            label,
            has_incoming: inc.iter().map(|row| row.iter().map(|&n| n == 1).collect()).collect(),
            horizontal: (0..h)
                .map(|y| (0..w - 1).map(|x| dir[y][x] == 4 || dir[y][x + 1] == 3).collect())
                .collect(),
            vertical: (0..h - 1)
                .map(|y| (0..w).map(|x| dir[y][x] == 2 || dir[y + 1][x] == 1).collect())
                .collect(),
        };
        if formula.satisfied_by(&a) {
            found.push(a);
        }
        let mut i = 0;
        while i < pick.len() && pick[i] + 1 == choices[i].len() {
            pick[i] = 0;
            i += 1;
        }
        if i == pick.len() {
            break;
        }
        pick[i] += 1;
    }
}

/// Chooses a direction for the cell number `pos` and every later cell. A
/// direction is left out where no solution can have it: off the grid, across
/// a wall, into a clue cell, or into a cell that is entered already.
fn place(
    formula: &Formula,
    borders: &InnerGridEdges,
    clues: &Vec<Vec<Option<i32>>>,
    max: i32,
    pos: usize,
    dir: &mut Vec<Vec<u8>>,
    inc: &mut Vec<Vec<u8>>,
    found: &mut Vec<Assignment>,
) {
    let (h, w) = (dir.len(), dir[0].len());
    if pos == h * w {
        label_paths(formula, clues, max, dir, inc, found);
        return;
    }
    let (y, x) = (pos / w, pos % w);
    place(formula, borders, clues, max, pos + 1, dir, inc, found);
    for d in 1u8..=4 {
        let Some((ty, tx)) = target(h, w, y, x, d) else {
            continue;
        };
        let walled = match d {
            1 => borders.horizontal[y - 1][x],
            2 => borders.horizontal[y][x],
            3 => borders.vertical[y][x - 1],
            _ => borders.vertical[y][x],
        };
        if walled || clues[ty][tx].is_some() || inc[ty][tx] >= 1 {
            continue;
        }
        dir[y][x] = d;
        inc[ty][tx] += 1;
        place(formula, borders, clues, max, pos + 1, dir, inc, found);
        inc[ty][tx] -= 1;
        dir[y][x] = 0;
    }
}

/// Every assignment that satisfies the formula of the puzzle.
fn all_solutions(borders: &InnerGridEdges, clues: &Vec<Vec<Option<i32>>>) -> Vec<Assignment> {
    let formula = armyants_formula(borders, clues).unwrap();
    let (h, w) = (formula.height, formula.width);
    let mut found = vec![];
    place(
        &formula,
        borders,
        clues,
        label_bound(clues),
        0,
        &mut vec![vec![0u8; w]; h],
        &mut vec![vec![0u8; w]; h],
        &mut found,
    );
    found
}

/// For each position, the value that every one of `solutions` gives it.
fn facts<T: Copy + PartialEq>(
    solutions: &Vec<Assignment>,
    grid: fn(&Assignment) -> &Vec<Vec<T>>,
) -> Vec<Vec<Option<T>>> {
    let first = grid(&solutions[0]);
    first
        .iter()
        .enumerate()
        .map(|(y, row)| {
            row.iter()
                .enumerate()
                .map(|(x, &v)| {
                    if solutions.iter().all(|a| grid(a)[y][x] == v) {
                        Some(v)
                    } else {
                        None
                    }
                })
                .collect()
        })
        .collect()
}

fn horizontal_of(a: &Assignment) -> &Vec<Vec<bool>> {
    &a.horizontal
}

fn vertical_of(a: &Assignment) -> &Vec<Vec<bool>> {
    &a.vertical
}

fn end_state_of(a: &Assignment) -> &Vec<Vec<i32>> {
    &a.end_state
}

#[test]
fn test_armyants_problem() {
    let (borders, clues) = problem_for_tests();
    let formula = armyants_formula(&borders, &clues);
    assert!(formula.is_ok());
    assert!(formula.unwrap().satisfied_by(&solution_for_tests()));
    let solutions = all_solutions(&borders, &clues);
    assert!(!solutions.is_empty());
    let movement_horizontal = facts(&solutions, horizontal_of);
    let movement_vertical = facts(&solutions, vertical_of);
    let final_state = facts(&solutions, end_state_of);

    let expected_nums = to_option_2d(vec![
        vec![2, 1, -2, -2],
        vec![-2, -2, 4, -2],
        vec![-2, -2, 3, -2],
        vec![-2, -2, 2, 1],
    ]);

    let expected_horizontal = to_option_bool_2d(vec![
        vec![0, 1, 0],
        vec![0, 0, 1],
        vec![1, 1, 0],
        vec![0, 1, 0],
    ]);
    let expected_vertical =
        to_option_bool_2d(vec![vec![1, 0, 0, 0], vec![0, 0, 0, 0], vec![0, 0, 0, 1]]);
    assert_eq!(movement_horizontal, expected_horizontal);
    assert_eq!(movement_vertical, expected_vertical);
    assert_eq!(final_state, expected_nums);
}

#[test]
fn every_clue_arrives_at_its_end_state() {
    let (borders, clues) = problem_for_tests();
    let solutions = all_solutions(&borders, &clues);
    assert!(!solutions.is_empty());
    for a in &solutions {
        for y in 0..4 {
            for x in 0..4 {
                let Some(n) = clues[y][x] else {
                    continue;
                };
                let mut at = (y, x);
                let mut steps = 0;
                while let Some(next) = target(4, 4, at.0, at.1, a.direction[at.0][at.1]) {
                    assert_eq!(a.end_state[at.0][at.1], -2);
                    assert_eq!(a.label[at.0][at.1], n);
                    at = next;
                    steps += 1;
                    assert!(steps < 16);
                }
                assert_eq!(a.direction[at.0][at.1], 0);
                assert_eq!(a.end_state[at.0][at.1], n);
            }
        }
    }
}

#[test]
fn search_agrees_with_exhaustive_enumeration() {
    let borders = InnerGridEdges { horizontal: vec![], vertical: vec![vec![false]] };
    for clues in [
        vec![vec![Some(1), None]],
        vec![vec![None, None]],
        vec![vec![Some(1), Some(2)]],
        vec![vec![Some(-1), None]],
        vec![vec![Some(2), Some(0)]],
    ] {
        let formula = armyants_formula(&borders, &clues).unwrap();
        let mut exhaustive = solutions_of_pair(&formula, label_bound(&clues));
        let mut searched = all_solutions(&borders, &clues);
        let key = |a: &Assignment| (a.direction.clone(), a.label.clone(), a.end_state.clone());
        exhaustive.sort_by_key(key);
        searched.sort_by_key(key);
        assert_eq!(searched, exhaustive);
    }
}

#[test]
fn one_beside_zero_is_not_settled() {
    let borders = InnerGridEdges { horizontal: vec![], vertical: vec![vec![false]] };
    let clues = vec![vec![Some(1), Some(0)]];
    let formula = armyants_formula(&borders, &clues).unwrap();
    let a = Assignment {
        direction: vec![vec![0, 0]],
        label: vec![vec![1, 0]],
        end_state: vec![vec![1, 0]],
        has_incoming: vec![vec![false, false]],
        horizontal: vec![vec![false]],
        vertical: vec![],
    };
    assert_eq!(a.count_settled(1, 2, 0, 0), 1);
    assert_eq!(a.sum_neighbors(1, 2, 0, 0), 0);
    assert!(!formula.satisfied_by(&a));
    assert!(solutions_of_pair(&formula, 1).is_empty());
}

#[test]
fn two_between_zero_and_one_is_not_settled() {
    let borders = InnerGridEdges { horizontal: vec![], vertical: vec![vec![false, false]] };
    let clues = vec![vec![Some(0), Some(2), Some(1)]];
    let formula = armyants_formula(&borders, &clues).unwrap();
    let a = Assignment {
        direction: vec![vec![0, 0, 0]],
        label: vec![vec![0, 2, 1]],
        end_state: vec![vec![0, 2, 1]],
        has_incoming: vec![vec![false, false, false]],
        horizontal: vec![vec![false, false]],
        vertical: vec![],
    };
    assert_eq!(a.count_settled(1, 3, 0, 1), 2);
    assert_eq!(a.sum_neighbors(1, 3, 0, 1), 1);
    assert!(!formula.satisfied_by(&a));
    assert!(all_solutions(&borders, &clues).is_empty());
}

#[test]
fn worked_example_has_the_grid_shape() {
    let (borders, clues) = problem_for_tests();
    let formula = armyants_formula(&borders, &clues).unwrap();
    assert_eq!(formula.height, 4);
    assert_eq!(formula.width, 4);
    assert!(formula.constraints.iter().all(|c| c.is_placed(4, 4)));
    assert!(borders.has_base_shape(4, 4));
    assert!(!borders.has_base_shape(4, 3));
    assert!(solution_for_tests().has_grid_shape(4, 4));
    assert!(!solution_for_tests().has_grid_shape(3, 4));
}

#[test]
fn every_end_state_of_the_worked_example_is_forced() {
    let (borders, clues) = problem_for_tests();
    let formula = armyants_formula(&borders, &clues).unwrap();
    let ans = solution_for_tests();
    for y in 0..4 {
        for x in 0..4 {
            for e in -2..=4 {
                let mut other = ans.clone();
                other.end_state[y][x] = e;
                assert_eq!(formula.satisfied_by(&other), e == ans.end_state[y][x]);
            }
        }
    }
}

#[test]
fn every_edge_of_the_worked_example_is_forced() {
    let (borders, clues) = problem_for_tests();
    let formula = armyants_formula(&borders, &clues).unwrap();
    let ans = solution_for_tests();
    for y in 0..4 {
        for x in 0..3 {
            let mut other = ans.clone();
            other.horizontal[y][x] = !other.horizontal[y][x];
            assert!(!formula.satisfied_by(&other));
        }
    }
    for y in 0..3 {
        for x in 0..4 {
            let mut other = ans.clone();
            other.vertical[y][x] = !other.vertical[y][x];
            assert!(!formula.satisfied_by(&other));
        }
    }
}

#[test]
fn label_must_be_conserved_along_a_path() {
    let (borders, clues) = problem_for_tests();
    let formula = armyants_formula(&borders, &clues).unwrap();
    let mut ans = solution_for_tests();
    // (2, 0) moves right into (2, 1) carrying 3.
    ans.label[2][1] = 2;
    assert!(!formula.satisfied_by(&ans));
}

#[test]
fn two_paths_may_not_merge() {
    let mut formula = Formula::new(1, 3);
    let clues = vec![vec![Some(1), None, Some(1)]];
    assert_eq!(add_movement_constraints(&mut formula, &clues, 1, 3), Ok(()));
    let merged = Assignment {
        direction: vec![vec![4, 0, 3]],
        label: vec![vec![1, 1, 1]],
        end_state: vec![vec![-2, 1, -2]],
        has_incoming: vec![vec![false, true, false]],
        horizontal: vec![vec![true, true]],
        vertical: vec![],
    };
    assert!(!formula.satisfied_by(&merged));
    let one_moves = Assignment {
        direction: vec![vec![4, 0, 0]],
        label: vec![vec![1, 1, 1]],
        end_state: vec![vec![-2, 1, 1]],
        has_incoming: vec![vec![false, true, false]],
        horizontal: vec![vec![true, false]],
        vertical: vec![],
    };
    assert!(formula.satisfied_by(&one_moves));
    assert_eq!(one_moves.count_incoming(1, 3, 0, 1), 1);
    assert_eq!(merged.count_incoming(1, 3, 0, 1), 2);
    assert_eq!(merged.count_active_edges(1, 3, 0, 1), 2);
    assert_eq!(one_moves.count_active_edges(1, 3, 0, 2), 0);
}

#[test]
fn a_wall_forces_its_edge_off() {
    let borders = InnerGridEdges { horizontal: vec![], vertical: vec![vec![true]] };
    let clues = vec![vec![Some(2), None]];
    let walled = armyants_formula(&borders, &clues).unwrap();
    assert!(walled.constraints.contains(&Constraint { rule: Rule::HorizontalOff, row: 0, col: 0 }));
    for a in solutions_of_pair(&walled, 2) {
        assert!(!a.horizontal[0][0]);
    }
    let open = InnerGridEdges { horizontal: vec![], vertical: vec![vec![false]] };
    let free = armyants_formula(&open, &clues).unwrap();
    assert!(!free.constraints.contains(&Constraint { rule: Rule::HorizontalOff, row: 0, col: 0 }));
}

#[test]
fn end_state_follows_direction_and_label() {
    let mut formula = Formula::new(1, 2);
    let clues = vec![vec![Some(2), None]];
    assert_eq!(add_movement_constraints(&mut formula, &clues, 1, 2), Ok(()));
    let solutions = solutions_of_pair(&formula, 2);
    assert!(!solutions.is_empty());
    for a in &solutions {
        for x in 0..2 {
            if a.direction[0][x] != 0 {
                assert_eq!(a.end_state[0][x], -2);
                assert_ne!(a.label[0][x], -2);
            } else {
                assert_eq!(a.end_state[0][x], a.label[0][x]);
            }
            assert!(a.direction[0][x] <= 4);
            assert!(a.count_incoming(1, 2, 0, x) <= 1);
        }
        if a.horizontal[0][0] {
            assert_eq!(a.label[0][0], a.label[0][1]);
        }
        assert_eq!(a.label[0][0], 2);
        assert!(!a.has_incoming[0][0]);
    }
    // The piece stays, or moves right and settles there.
    assert_eq!(solutions.len(), 2);
}

#[test]
fn single_cell_with_fixed_clue() {
    let mut formula = Formula::new(1, 1);
    let clues = vec![vec![Some(5)]];
    assert_eq!(add_movement_constraints(&mut formula, &clues, 1, 1), Ok(()));
    let solutions = solutions_of_single(&formula, 5);
    assert_eq!(solutions.len(), 1);
    let a = &solutions[0];
    assert_eq!(a.end_state, vec![vec![5]]);
    assert_eq!(a.label, vec![vec![5]]);
    assert_eq!(a.direction, vec![vec![0]]);
    assert_eq!(a.has_incoming, vec![vec![false]]);
    assert!(a.horizontal[0].is_empty());
    assert!(a.vertical.is_empty());
}

#[test]
fn single_five_is_no_army() {
    let borders = InnerGridEdges { horizontal: vec![], vertical: vec![vec![]] };
    let five = armyants_formula(&borders, &vec![vec![Some(5)]]).unwrap();
    assert!(solutions_of_single(&five, 5).is_empty());
    let one = armyants_formula(&borders, &vec![vec![Some(1)]]).unwrap();
    let solutions = solutions_of_single(&one, 1);
    assert_eq!(solutions.len(), 1);
    assert_eq!(solutions[0].end_state, vec![vec![1]]);
}

#[test]
fn single_cell_with_open_clue() {
    let mut formula = Formula::new(1, 1);
    let clues = vec![vec![Some(-1)]];
    assert_eq!(add_movement_constraints(&mut formula, &clues, 1, 1), Ok(()));
    let solutions = solutions_of_single(&formula, 3);
    // The label is 0, the only number up to the largest clue.
    assert_eq!(solutions.len(), 1);
    assert_eq!(solutions[0].label, vec![vec![0]]);
    assert_eq!(solutions[0].end_state, vec![vec![0]]);
}

#[test]
fn single_empty_cell_settles_nothing() {
    let mut formula = Formula::new(1, 1);
    let clues = vec![vec![None]];
    assert_eq!(add_movement_constraints(&mut formula, &clues, 1, 1), Ok(()));
    let solutions = solutions_of_single(&formula, 3);
    assert_eq!(solutions.len(), 1);
    assert_eq!(solutions[0].end_state, vec![vec![-2]]);
    assert_eq!(solutions[0].direction, vec![vec![0]]);
}

#[test]
fn adjacent_equal_clues_behind_a_wall_have_no_solution() {
    let borders = InnerGridEdges { horizontal: vec![], vertical: vec![vec![true]] };
    for n in 1..=3 {
        let clues = vec![vec![Some(n), Some(n)]];
        let formula = armyants_formula(&borders, &clues);
        assert!(formula.is_ok());
        assert!(solutions_of_pair(&formula.unwrap(), n).is_empty());
    }
}

#[test]
fn adjacent_one_and_two_form_an_army() {
    let borders = InnerGridEdges { horizontal: vec![], vertical: vec![vec![true]] };
    let clues = vec![vec![Some(1), Some(2)]];
    let formula = armyants_formula(&borders, &clues).unwrap();
    let solutions = solutions_of_pair(&formula, 2);
    assert_eq!(solutions.len(), 1);
    assert_eq!(solutions[0].end_state, vec![vec![1, 2]]);
    assert_eq!(solutions[0].horizontal, vec![vec![false]]);
    assert_eq!(solutions[0].count_settled(1, 2, 0, 0), 1);
    assert_eq!(solutions[0].sum_neighbors(1, 2, 0, 0), 2);
    assert_eq!(solutions[0].sum_neighbors(1, 2, 0, 1), 1);
}

#[test]
fn a_lone_one_is_an_army() {
    let borders = InnerGridEdges { horizontal: vec![], vertical: vec![vec![false]] };
    let clues = vec![vec![Some(1), None]];
    let formula = armyants_formula(&borders, &clues).unwrap();
    let solutions = solutions_of_pair(&formula, 1);
    let mut ends: Vec<Vec<Vec<i32>>> = solutions.iter().map(|a| a.end_state.clone()).collect();
    ends.sort();
    assert_eq!(ends, vec![vec![vec![-2, 1]], vec![vec![1, -2]]]);
}

#[test]
fn middle_of_an_army_sees_twice_its_number() {
    let borders = InnerGridEdges { horizontal: vec![], vertical: vec![vec![true, true]] };
    let clues = vec![vec![Some(1), Some(2), Some(3)]];
    let formula = armyants_formula(&borders, &clues).unwrap();
    let a = Assignment {
        direction: vec![vec![0, 0, 0]],
        label: vec![vec![1, 2, 3]],
        end_state: vec![vec![1, 2, 3]],
        has_incoming: vec![vec![false, false, false]],
        horizontal: vec![vec![false, false]],
        vertical: vec![],
    };
    assert!(formula.satisfied_by(&a));
    assert_eq!(a.count_settled(1, 3, 0, 1), 2);
    assert_eq!(a.sum_neighbors(1, 3, 0, 1), 4);
    let clues = vec![vec![Some(1), Some(2), Some(2)]];
    let formula = armyants_formula(&borders, &clues).unwrap();
    let b = Assignment { label: vec![vec![1, 2, 2]], end_state: vec![vec![1, 2, 2]], ..a };
    assert!(!formula.satisfied_by(&b));
}

#[test]
fn shape_mismatch_is_reported_before_anything_is_added() {
    let mut formula = Formula::new(2, 2);
    let ragged = vec![vec![None, Some(1)], vec![None]];
    assert_eq!(
        add_movement_constraints(&mut formula, &ragged, 2, 2),
        Err(BuildError::ShapeMismatch)
    );
    assert!(formula.constraints.is_empty());
    let square = vec![vec![None, Some(1)], vec![None, None]];
    assert_eq!(
        add_movement_constraints(&mut formula, &square, 2, 3),
        Err(BuildError::ShapeMismatch)
    );
    assert_eq!(
        add_movement_constraints(&mut formula, &square, 3, 2),
        Err(BuildError::ShapeMismatch)
    );
    assert!(formula.constraints.is_empty());
    assert_eq!(add_movement_constraints(&mut formula, &square, 2, 2), Ok(()));
    assert!(!formula.constraints.is_empty());
}

#[test]
fn border_shape_mismatch_is_reported() {
    let (borders, mut clues) = problem_for_tests();
    clues.pop();
    assert_eq!(armyants_formula(&borders, &clues).err(), Some(BuildError::ShapeMismatch));
    let (mut borders, clues) = problem_for_tests();
    borders.vertical[2].push(false);
    assert_eq!(armyants_formula(&borders, &clues).err(), Some(BuildError::ShapeMismatch));
    let (borders, _) = problem_for_tests();
    assert_eq!(armyants_formula(&borders, &vec![]).err(), Some(BuildError::ShapeMismatch));
}

#[test]
fn settling_rules_need_fitting_walls() {
    let mut formula = Formula::new(2, 2);
    let borders = InnerGridEdges { horizontal: vec![vec![false, true]], vertical: vec![vec![false]] };
    assert_eq!(
        add_settling_constraints(&mut formula, &borders, 3),
        Err(BuildError::ShapeMismatch)
    );
    assert!(formula.constraints.is_empty());
}

#[test]
fn clue_below_the_open_marker_is_rejected() {
    let mut formula = Formula::new(1, 2);
    let clues = vec![vec![Some(-2), None]];
    assert!(!clues_in_domain(&clues));
    assert_eq!(
        add_movement_constraints(&mut formula, &clues, 1, 2),
        Err(BuildError::InvalidClue)
    );
    assert!(formula.constraints.is_empty());
    let borders = InnerGridEdges { horizontal: vec![], vertical: vec![vec![false]] };
    assert_eq!(armyants_formula(&borders, &clues).err(), Some(BuildError::InvalidClue));
    assert!(clues_in_domain(&vec![vec![Some(-1), Some(0), None]]));
}

#[test]
fn label_bound_is_the_largest_clue() {
    let (_, clues) = problem_for_tests();
    assert_eq!(label_bound(&clues), 4);
    assert_eq!(label_bound(&vec![vec![None, None]]), 0);
    assert_eq!(label_bound(&vec![vec![Some(-1)], vec![None]]), 0);
    assert_eq!(label_bound(&vec![]), 0);
    assert_eq!(label_bound(&vec![vec![Some(7)], vec![Some(9), Some(3)]]), 9);
}

#[test]
fn building_twice_gives_the_same_formula() {
    let (borders, clues) = problem_for_tests();
    let first = armyants_formula(&borders, &clues).unwrap();
    let second = armyants_formula(&borders, &clues).unwrap();
    assert_eq!(first, second);
    let ans = solution_for_tests();
    assert_eq!(first.satisfied_by(&ans), second.satisfied_by(&ans));
}

#[test]
fn formulas_only_grow() {
    let mut formula = Formula::new(2, 2);
    formula.emit(Rule::LabelIs(3), 1, 1);
    let before = formula.constraints.clone();
    let clues = vec![vec![None, Some(3)], vec![None, None]];
    assert_eq!(add_movement_constraints(&mut formula, &clues, 2, 2), Ok(()));
    assert_eq!(&formula.constraints[..before.len()], &before[..]);
    let moved = formula.constraints.clone();
    let borders = InnerGridEdges {
        horizontal: vec![vec![false, true]],
        vertical: vec![vec![false], vec![true]],
    };
    assert_eq!(add_settling_constraints(&mut formula, &borders, 3), Ok(()));
    assert_eq!(&formula.constraints[..moved.len()], &moved[..]);
    assert!(formula.constraints.len() > moved.len());
}

#[test]
fn misplaced_constraint_is_never_satisfied() {
    let mut formula = Formula::new(1, 1);
    formula.emit(Rule::HorizontalOff, 0, 0);
    let a = Assignment {
        direction: vec![vec![0]],
        label: vec![vec![0]],
        end_state: vec![vec![0]],
        has_incoming: vec![vec![false]],
        horizontal: vec![vec![]],
        vertical: vec![],
    };
    assert!(!formula.satisfied_by(&a));
    assert!(Formula::new(1, 1).satisfied_by(&a));
    assert!(!Formula::new(1, 2).satisfied_by(&a));
    assert!(!Constraint { rule: Rule::Conserve(1), row: 0, col: 0 }.is_placed(1, 1));
    assert!(Constraint { rule: Rule::Conserve(2), row: 0, col: 0 }.is_placed(2, 1));
    assert!(a.meets(&Constraint { rule: Rule::LabelIs(0), row: 0, col: 0 }, 1, 1));
    assert!(!a.meets(&Constraint { rule: Rule::LabelIs(1), row: 0, col: 0 }, 1, 1));
}
