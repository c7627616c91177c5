use game_of_life::direction::{Direction, Offset};
use game_of_life::{Board, Coords};

fn population(board: &Board) -> usize {
    let mut count = 0;
    for y in 0..board.dim_y() {
        for x in 0..board.dim_x() {
            if board.alive(&Coords { x, y }) {
                count += 1;
            }
        }
    }
    count
}

/// The three by three cells whose upper left corner is at `(x, y)`, as text.
fn window(board: &Board, x: usize, y: usize) -> String {
    let mut text = String::new();
    for dy in 0..3 {
        for dx in 0..3 {
            text.push(if board.alive(&Coords { x: x + dx, y: y + dy }) { 'x' } else { '-' });
        }
        text.push('\n');
    }
    text
}

/// The pattern turned by a quarter.
fn turned(pattern: [[bool; 3]; 3]) -> [[bool; 3]; 3] {
    let mut out = [[false; 3]; 3];
    for y in 0..3 {
        for x in 0..3 {
            out[x][2 - y] = pattern[y][x];
        }
    }
    out
}

/// The pattern as a mirror shows it.
fn mirrored(pattern: [[bool; 3]; 3]) -> [[bool; 3]; 3] {
    let mut out = [[false; 3]; 3];
    for y in 0..3 {
        for x in 0..3 {
            out[y][2 - x] = pattern[y][x];
        }
    }
    out
}

/// Whether the pattern is a glider in one of its phases, flying in any direction.
fn is_glider(pattern: [[bool; 3]; 3]) -> bool {
    let phases = [
        [[false, true, false], [false, false, true], [true, true, true]],
        [[true, false, true], [false, true, true], [false, true, false]],
    ];
    for phase in phases {
        let mut shown = phase;
        for _ in 0..4 {
            if pattern == shown || pattern == mirrored(shown) {
                return true;
            }
            shown = turned(shown);
        }
    }
    false
}

/// Whether a glider stands alone in the five by five cells whose upper left
/// corner is at `(x, y)`: a glider in the middle and a ring of dead cells.
fn glider_at(board: &Board, x: usize, y: usize) -> bool {
    let mut inner = [[false; 3]; 3];
    for dy in 0..5 {
        for dx in 0..5 {
            let alive = board.alive(&Coords { x: x + dx, y: y + dy });
            if dx == 0 || dx == 4 || dy == 0 || dy == 4 {
                if alive {
                    return false;
                }
            } else {
                inner[dy - 1][dx - 1] = alive;
            }
        }
    }
    is_glider(inner)
}

fn count_gliders(board: &Board) -> usize {
    let mut found = 0;
    for y in 0..board.dim_y() - 4 {
        for x in 0..board.dim_x() - 4 {
            if glider_at(board, x, y) {
                found += 1;
            }
        }
    }
    found
}

#[test]
fn directions_run_clockwise_from_north() {
    assert_eq!(
        Direction::all(),
        [
            Direction::N,
            Direction::NE,
            Direction::E,
            Direction::SE,
            Direction::S,
            Direction::SW,
            Direction::W,
            Direction::NW,
        ]
    );
}

#[test]
fn each_direction_has_its_offset() {
    assert_eq!(Direction::N.offset(), Offset { x: 0, y: 1 });
    assert_eq!(Direction::NE.offset(), Offset { x: 1, y: 1 });
    assert_eq!(Direction::E.offset(), Offset { x: 1, y: 0 });
    assert_eq!(Direction::SE.offset(), Offset { x: 1, y: -1 });
    assert_eq!(Direction::S.offset(), Offset { x: 0, y: -1 });
    assert_eq!(Direction::SW.offset(), Offset { x: -1, y: -1 });
    assert_eq!(Direction::W.offset(), Offset { x: -1, y: 0 });
    assert_eq!(Direction::NW.offset(), Offset { x: -1, y: 1 });
}

#[test]
fn the_offsets_are_the_eight_neighbours() {
    let mut seen = Vec::new();
    for dir in Direction::all() {
        let step = dir.offset();
        assert!((-1..=1).contains(&step.x) && (-1..=1).contains(&step.y));
        assert!(step.x != 0 || step.y != 0);
        assert!(!seen.contains(&(step.x, step.y)));
        seen.push((step.x, step.y));
    }
    assert_eq!(seen.len(), 8);
}

#[test]
fn neighbor_coords_inside_the_board() {
    let board = Board::new(Coords { x: 3, y: 3 }, None).unwrap();
    let centre = Coords { x: 1, y: 1 };
    assert_eq!(board.neighbor_coords(&centre, &Direction::N), Some(Coords { x: 1, y: 2 }));
    assert_eq!(board.neighbor_coords(&centre, &Direction::NE), Some(Coords { x: 2, y: 2 }));
    assert_eq!(board.neighbor_coords(&centre, &Direction::E), Some(Coords { x: 2, y: 1 }));
    assert_eq!(board.neighbor_coords(&centre, &Direction::SE), Some(Coords { x: 2, y: 0 }));
    assert_eq!(board.neighbor_coords(&centre, &Direction::S), Some(Coords { x: 1, y: 0 }));
    assert_eq!(board.neighbor_coords(&centre, &Direction::SW), Some(Coords { x: 0, y: 0 }));
    assert_eq!(board.neighbor_coords(&centre, &Direction::W), Some(Coords { x: 0, y: 1 }));
    assert_eq!(board.neighbor_coords(&centre, &Direction::NW), Some(Coords { x: 0, y: 2 }));
}

#[test]
fn neighbor_coords_stop_at_the_edges() {
    let board = Board::new(Coords { x: 3, y: 2 }, None).unwrap();
    let origin = Coords { x: 0, y: 0 };
    assert_eq!(board.neighbor_coords(&origin, &Direction::S), None);
    assert_eq!(board.neighbor_coords(&origin, &Direction::SW), None);
    assert_eq!(board.neighbor_coords(&origin, &Direction::W), None);
    assert_eq!(board.neighbor_coords(&origin, &Direction::NW), None);
    assert_eq!(board.neighbor_coords(&origin, &Direction::SE), None);
    assert_eq!(board.neighbor_coords(&origin, &Direction::N), Some(Coords { x: 0, y: 1 }));
    let far = Coords { x: 2, y: 1 };
    assert_eq!(board.neighbor_coords(&far, &Direction::N), None);
    assert_eq!(board.neighbor_coords(&far, &Direction::NE), None);
    assert_eq!(board.neighbor_coords(&far, &Direction::E), None);
    assert_eq!(board.neighbor_coords(&far, &Direction::SE), None);
    assert_eq!(board.neighbor_coords(&far, &Direction::NW), None);
    assert_eq!(board.neighbor_coords(&far, &Direction::SW), Some(Coords { x: 1, y: 0 }));
}

#[test]
fn neighbor_coords_of_a_position_off_the_board() {
    let board = Board::new(Coords { x: 3, y: 3 }, None).unwrap();
    let beside = Coords { x: 3, y: 1 };
    assert_eq!(board.neighbor_coords(&beside, &Direction::W), Some(Coords { x: 2, y: 1 }));
    assert_eq!(board.neighbor_coords(&beside, &Direction::N), None);
    let end = Coords { x: usize::MAX, y: usize::MAX };
    assert_eq!(board.neighbor_coords(&end, &Direction::NE), None);
    assert_eq!(board.neighbor_coords(&end, &Direction::SW), None);
}

#[test]
fn neighbor_alive_looks_one_step_away() {
    let board = Board::parse("---\n--x\n---").unwrap();
    let centre = Coords { x: 1, y: 1 };
    assert!(board.neighbor_alive(&centre, &Direction::E));
    assert!(!board.neighbor_alive(&centre, &Direction::W));
    assert!(!board.neighbor_alive(&centre, &Direction::N));
    assert!(board.neighbor_alive(&Coords { x: 1, y: 0 }, &Direction::NE));
    assert!(board.neighbor_alive(&Coords { x: 2, y: 2 }, &Direction::S));
    assert!(!board.neighbor_alive(&Coords { x: 2, y: 1 }, &Direction::E));
}

#[test]
fn num_alive_neighbors_counts_from_none_to_eight() {
    let rings = [
        ("---\n---\n---", 0),
        ("x--\n---\n---", 1),
        ("x-x\n---\n---", 2),
        ("x-x\n---\nx--", 3),
        ("x-x\n---\nx-x", 4),
        ("xxx\n---\nx-x", 5),
        ("xxx\nx--\nx-x", 6),
        ("xxx\nx-x\nx-x", 7),
        ("xxx\nx-x\nxxx", 8),
        ("xxx\nxxx\nxxx", 8),
        ("---\n-x-\n---", 0),
    ];
    for (pattern, around) in rings {
        let board = Board::parse(pattern).unwrap();
        assert_eq!(board.num_alive_neighbors(&Coords { x: 1, y: 1 }), around, "{pattern}");
    }
}

#[test]
fn num_alive_neighbors_counts_nothing_beyond_the_edges() {
    let board = Board::parse("xxx\nxxx\nxxx").unwrap();
    assert_eq!(board.num_alive_neighbors(&Coords { x: 0, y: 0 }), 3);
    assert_eq!(board.num_alive_neighbors(&Coords { x: 1, y: 0 }), 5);
    assert_eq!(board.num_alive_neighbors(&Coords { x: 2, y: 2 }), 3);
    assert_eq!(board.num_alive_neighbors(&Coords { x: 0, y: 1 }), 5);
    let single = Board::parse("x").unwrap();
    assert_eq!(single.num_alive_neighbors(&Coords { x: 0, y: 0 }), 0);
}

#[test]
fn live_cell_without_neighbors_dies() {
    let board = Board::parse("---\n-x-\n---").unwrap();
    assert!(!board.next_cell_state(&Coords { x: 1, y: 1 }));
    assert!(!board.next().alive(&Coords { x: 1, y: 1 }));
    assert_eq!(population(&board.next()), 0);
}

#[test]
fn live_cell_with_one_neighbor_dies() {
    let board = Board::parse("x--\n-x-\n---").unwrap();
    assert!(!board.next_cell_state(&Coords { x: 1, y: 1 }));
    assert!(!board.next().alive(&Coords { x: 1, y: 1 }));
}

#[test]
fn live_cell_with_two_neighbors_survives() {
    let board = Board::parse("x--\n-x-\n--x").unwrap();
    assert_eq!(board.num_alive_neighbors(&Coords { x: 1, y: 1 }), 2);
    assert!(board.next_cell_state(&Coords { x: 1, y: 1 }));
    assert!(board.next().alive(&Coords { x: 1, y: 1 }));
}

#[test]
fn live_cell_with_three_neighbors_survives() {
    let board = Board::parse("x-x\n-x-\n--x").unwrap();
    assert_eq!(board.num_alive_neighbors(&Coords { x: 1, y: 1 }), 3);
    assert!(board.next_cell_state(&Coords { x: 1, y: 1 }));
    assert!(board.next().alive(&Coords { x: 1, y: 1 }));
}

#[test]
fn live_cell_with_four_or_more_neighbors_dies() {
    for pattern in ["x-x\n-x-\nx-x", "xxx\n-x-\nx-x", "xxx\nxxx\nxxx"] {
        let board = Board::parse(pattern).unwrap();
        assert!(!board.next_cell_state(&Coords { x: 1, y: 1 }), "{pattern}");
        assert!(!board.next().alive(&Coords { x: 1, y: 1 }), "{pattern}");
    }
}

#[test]
fn dead_cell_with_three_neighbors_comes_alive() {
    let board = Board::parse("x-x\n---\n--x").unwrap();
    assert_eq!(board.num_alive_neighbors(&Coords { x: 1, y: 1 }), 3);
    assert!(board.next_cell_state(&Coords { x: 1, y: 1 }));
    assert!(board.next().alive(&Coords { x: 1, y: 1 }));
}

#[test]
fn dead_cell_with_any_other_number_stays_dead() {
    for pattern in
        ["---\n---\n---", "x--\n---\n---", "x-x\n---\n---", "x-x\n---\nx-x", "xxx\nx-x\nxxx"]
    {
        let board = Board::parse(pattern).unwrap();
        assert!(!board.next_cell_state(&Coords { x: 1, y: 1 }), "{pattern}");
        assert!(!board.next().alive(&Coords { x: 1, y: 1 }), "{pattern}");
    }
}

#[test]
fn next_of_a_dead_board_is_dead() {
    for (width, height) in [(1, 1), (1, 6), (6, 1), (2, 2), (5, 4), (20, 15)] {
        let board = Board::new(Coords { x: width, y: height }, None).unwrap();
        let after = board.next();
        assert_eq!(after, board);
        assert_eq!(after.next(), board);
    }
}

#[test]
fn next_keeps_the_size() {
    let board = Board::parse("x-x-x-x\n-x-x-x-").unwrap();
    let after = board.next();
    assert_eq!((after.dim_x(), after.dim_y()), (7, 2));
}

#[test]
fn next_leaves_the_board_as_it_was() {
    let board = Board::blinker();
    let before = board.clone();
    let _ = board.next();
    assert_eq!(board, before);
}

#[test]
fn blinker_turns_and_turns_back() {
    let start = Board::parse("-----\n--x--\n--x--\n--x--\n-----").unwrap();
    let turned = Board::parse("-----\n-----\n-xxx-\n-----\n-----").unwrap();
    let once = start.next();
    assert_eq!(once, turned);
    assert_eq!(once.format(), "-----\n-----\n-xxx-\n-----\n-----\n");
    let twice = once.next();
    assert_eq!(twice, start);
}

#[test]
fn block_stands_still() {
    let block = Board::parse("----\n-xx-\n-xx-\n----").unwrap();
    assert_eq!(block.next(), block);
}

#[test]
fn next_uses_the_old_generation_for_every_cell() {
    // Updated in place from the top left, this row would come out otherwise.
    let row = Board::parse("xxxx").unwrap();
    assert_eq!(row.next().format(), "-xx-\n");
    let column = Board::parse("x x x x").unwrap();
    assert_eq!(column.next().format(), "-\nx\nx\n-\n");
}

#[test]
fn edges_do_not_wrap_around() {
    // On a torus each of these cells would have neighbours across the edge.
    let board = Board::parse("x--x\n----\n----\nx--x").unwrap();
    assert_eq!(population(&board.next()), 0);
    let line = Board::parse("x---x\nx---x\nx---x").unwrap();
    assert_eq!(line.next().format(), "-----\nxx-xx\n-----\n");
}

#[test]
fn glider_moves_one_cell_along_the_diagonal_in_four_generations() {
    let start = Board::parse(
        "
        -x------
        --x-----
        xxx-----
        --------
        --------
        --------
        --------
        --------
        ",
    )
    .unwrap();
    let mut board = start.clone();
    for _ in 0..4 {
        board = board.next();
    }
    let moved = Board::parse(
        "
        --------
        --x-----
        ---x----
        -xxx----
        --------
        --------
        --------
        --------
        ",
    )
    .unwrap();
    assert_eq!(board, moved);
    assert_eq!(count_gliders(&start), 0);
    assert!(glider_at(&moved, 0, 0));
    assert_eq!(count_gliders(&moved), 1);
    let mut flying = moved;
    for _ in 0..3 {
        flying = flying.next();
        assert_eq!(count_gliders(&flying), 1);
    }
}

#[test]
fn gosper_gun_grows_as_known_on_its_own_board() {
    let mut board = Board::gosper();
    let mut populations = Vec::new();
    for _ in 0..8 {
        populations.push(population(&board));
        board = board.next();
    }
    assert_eq!(populations, vec![36, 39, 43, 48, 51, 44, 51, 48]);
    let first = "\
---------------------------------------
-------------------------x-------------
-----------------------x-x-------------
--------------x-------x-x-----------xx-
-------------xx------x--x-----------xx-
--xx--------xx----xx--x-x--------------
--xx-------xxx----xx---x-x-------------
------------xx----xx-----x-------------
-------------xx------------------------
--------------x------------------------
---------------------------------------
";
    assert_eq!(Board::gosper().next().format(), first);
}

#[test]
fn gosper_gun_emits_gliders() {
    let field = Board::new(Coords { x: 120, y: 120 }, None).unwrap();
    let mut board = field.add(Board::gosper(), Coords { x: 15, y: 15 }).unwrap();
    assert_eq!(count_gliders(&board), 0);
    for _ in 0..30 {
        board = board.next();
    }
    assert_eq!(population(&board), 41);
    assert_eq!(window(&board, 40, 25), "x--\n-xx\nxx-\n");
    assert!(glider_at(&board, 39, 24));
    assert_eq!(count_gliders(&board), 1);
    for _ in 0..4 {
        board = board.next();
    }
    assert_eq!(window(&board, 41, 26), "x--\n-xx\nxx-\n");
    for _ in 0..26 {
        board = board.next();
    }
    assert_eq!(population(&board), 46);
    assert_eq!(window(&board, 40, 25), "x--\n-xx\nxx-\n");
    assert_eq!(window(&board, 47, 33), "x-x\n-xx\n-x-\n");
    assert_eq!(count_gliders(&board), 2);
}
