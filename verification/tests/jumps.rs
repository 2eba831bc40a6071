use foretold::board::{CheckerMap, Coord, Team};

fn c(x: i32, y: i32) -> Coord {
    Coord::new(x, y)
}

fn board(red: &[(i32, i32)], black: &[(i32, i32)]) -> CheckerMap {
    let mut map = CheckerMap::new();
    let mut id = 0;
    for (x, y) in red {
        map.set_place(c(*x, *y), Some((id, Team::Red)));
        id += 1;
    }
    for (x, y) in black {
        map.set_place(c(*x, *y), Some((id, Team::Black)));
        id += 1;
    }
    map
}

fn chain(jumped: &[(i32, i32)], landings: &[(i32, i32)]) -> (Vec<Coord>, Vec<Coord>) {
    (
        jumped.iter().map(|(x, y)| c(*x, *y)).collect(),
        landings.iter().map(|(x, y)| c(*x, *y)).collect(),
    )
}

#[test]
fn no_chain_without_a_neighbour() {
    let map = board(&[(2, 2)], &[]);
    assert!(map.get_jumps(c(2, 2), Team::Red, false).is_empty());
    assert!(map.get_jumps(c(2, 2), Team::Red, true).is_empty());
}

#[test]
fn single_capture_is_one_chain() {
    let map = board(&[(2, 2)], &[(3, 3)]);
    assert_eq!(map.get_jumps(c(2, 2), Team::Red, false), vec![chain(&[(3, 3)], &[(4, 4)])]);
}

#[test]
fn black_king_captures_up_the_board() {
    let map = board(&[(3, 3)], &[(2, 2)]);
    assert_eq!(map.get_jumps(c(2, 2), Team::Black, true), vec![chain(&[(3, 3)], &[(4, 4)])]);
}

#[test]
fn ordinary_black_piece_does_not_capture_backwards() {
    let map = board(&[(3, 3)], &[(2, 2)]);
    assert!(map.get_jumps(c(2, 2), Team::Black, false).is_empty());
}

#[test]
fn ordinary_black_piece_captures_down_the_board() {
    let map = board(&[(3, 3)], &[(4, 4)]);
    assert_eq!(map.get_jumps(c(4, 4), Team::Black, false), vec![chain(&[(3, 3)], &[(2, 2)])]);
}

#[test]
fn own_piece_is_not_captured() {
    let map = board(&[(2, 2), (3, 3)], &[]);
    assert!(map.get_jumps(c(2, 2), Team::Red, false).is_empty());
}

#[test]
fn occupied_landing_cell_prevents_capture() {
    let map = board(&[(2, 2)], &[(3, 3), (4, 4)]);
    assert!(map.get_jumps(c(2, 2), Team::Red, false).is_empty());
    let map = board(&[(2, 2), (4, 4)], &[(3, 3)]);
    assert!(map.get_jumps(c(2, 2), Team::Red, false).is_empty());
}

#[test]
fn landing_cell_off_the_board_prevents_capture() {
    let map = board(&[(6, 2)], &[(7, 3)]);
    assert!(map.get_jumps(c(6, 2), Team::Red, false).is_empty());
    let map = board(&[(2, 6)], &[(3, 7)]);
    assert!(map.get_jumps(c(2, 6), Team::Red, false).is_empty());
}

#[test]
fn three_in_a_row_gives_a_chain_of_two() {
    let map = board(&[(4, 4), (2, 2)], &[(5, 5)]);
    assert_eq!(
        map.get_jumps(c(5, 5), Team::Black, false),
        vec![chain(&[(4, 4), (2, 2)], &[(3, 3), (1, 1)])]
    );
}

#[test]
fn only_chains_that_cannot_go_on_are_reported() {
    let map = board(&[(1, 1)], &[(2, 2), (4, 4), (6, 6)]);
    let found = map.get_jumps(c(1, 1), Team::Red, false);
    assert_eq!(found, vec![chain(&[(2, 2), (4, 4), (6, 6)], &[(3, 3), (5, 5), (7, 7)])]);
}

#[test]
fn branches_are_reported_in_the_order_found() {
    let map = board(&[(3, 1)], &[(2, 2), (4, 2), (6, 4)]);
    let found = map.get_jumps(c(3, 1), Team::Red, false);
    assert_eq!(
        found,
        vec![chain(&[(2, 2)], &[(1, 3)]), chain(&[(4, 2), (6, 4)], &[(5, 3), (7, 5)])]
    );
}

#[test]
fn equal_chains_are_both_reported() {
    let map = board(&[(3, 1)], &[(2, 2), (4, 2)]);
    let found = map.get_jumps(c(3, 1), Team::Red, false);
    assert_eq!(found, vec![chain(&[(2, 2)], &[(1, 3)]), chain(&[(4, 2)], &[(5, 3)])]);
}

#[test]
fn a_king_going_round_stops_before_its_own_cell() {
    let map = board(&[(1, 3)], &[(2, 4), (4, 4), (4, 2), (2, 2)]);
    let found = map.get_jumps(c(1, 3), Team::Red, true);
    assert_eq!(
        found,
        vec![
            chain(&[(2, 4), (4, 4)], &[(3, 5), (5, 3)]),
            chain(&[(2, 2), (4, 2)], &[(3, 1), (5, 3)]),
        ]
    );
}

#[test]
fn jumped_and_landing_cells_alternate() {
    let map = board(&[(1, 3)], &[(2, 4), (4, 4), (4, 2), (2, 2)]);
    for (jumped, landings) in map.get_jumps(c(1, 3), Team::Red, true) {
        assert_eq!(jumped.len(), landings.len());
        let mut from = c(1, 3);
        for k in 0..jumped.len() {
            assert_eq!((jumped[k].x - from.x).abs(), 1);
            assert_eq!((jumped[k].y - from.y).abs(), 1);
            assert_eq!(landings[k].x - from.x, 2 * (jumped[k].x - from.x));
            assert_eq!(landings[k].y - from.y, 2 * (jumped[k].y - from.y));
            assert_eq!(map.get_place_team(jumped[k]), Some(Team::Black));
            assert!(map.is_place_free(landings[k]));
            from = landings[k];
        }
    }
}

#[test]
fn search_from_a_cell_off_the_board() {
    let map = board(&[], &[(0, 0)]);
    assert_eq!(map.get_jumps(c(-1, -1), Team::Red, false), vec![chain(&[(0, 0)], &[(1, 1)])]);
    assert!(map.get_jumps(c(-5, -5), Team::Red, true).is_empty());
    assert!(map.get_jumps(c(i32::MAX, i32::MAX), Team::Red, true).is_empty());
}

#[test]
fn starting_position_has_no_captures() {
    let board = foretold::game::set_up_checkerboard();
    for piece in board.checkers() {
        assert!(board.map().get_jumps(piece.pos, piece.team, piece.king).is_empty());
    }
}

#[test]
fn copies_hold_the_same_cells() {
    let cells = vec![c(1, 2), c(3, 4), c(-1, -1)];
    assert_eq!(foretold::jumps::copy_coords(&cells), cells);
    assert!(foretold::jumps::copy_coords(&vec![]).is_empty());
}

#[test]
fn no_chain_captures_a_piece_twice() {
    let map = board(
        &[(3, 3)],
        &[(2, 2), (4, 2), (2, 4), (4, 4), (6, 2), (6, 4), (2, 6), (4, 6), (6, 6)],
    );
    let found = map.get_jumps(c(3, 3), Team::Red, true);
    assert!(!found.is_empty());
    for (jumped, landings) in found {
        for i in 0..jumped.len() {
            assert!(landings[i] != c(3, 3));
            for j in 0..i {
                assert!(jumped[i] != jumped[j]);
                assert!(landings[i] != landings[j]);
            }
        }
    }
}
