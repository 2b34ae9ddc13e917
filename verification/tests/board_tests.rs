use geister::board::{Board, Diff, MoveResult, Transition};
use geister::cell::{Cell, GhostID, GhostKind, OwnedCell};
use geister::error::ErrorKind;
use geister::geometry::{Direction, Move, Position};
use geister::metadata::MetaDataList;
use geister::player::PlayerID;
use geister::proto::GpwPosition;
use geister::simulator;

fn all_kinds() -> Vec<GhostKind> {
    vec![GhostKind::Unknown, GhostKind::Red, GhostKind::Blue]
}

fn all_owners() -> Vec<PlayerID> {
    vec![PlayerID::P1, PlayerID::P2]
}

fn all_ids() -> Vec<GhostID> {
    vec![
        GhostID::A,
        GhostID::B,
        GhostID::C,
        GhostID::D,
        GhostID::E,
        GhostID::F,
        GhostID::G,
        GhostID::H,
    ]
}

fn boards_equal(a: &Board, b: &Board) -> bool {
    a.diff(b).is_empty()
}

fn standard_board() -> Board {
    let pos = [
        Position::new(1, 0),
        Position::new(2, 1),
        Position::new(3, 0),
        Position::new(4, 1),
    ];
    Board::init_for_player(pos, PlayerID::P1).unwrap()
}

#[test]
fn print_board() {
    let pos = [
        Position::new(1, 0),
        Position::new(2, 1),
        Position::new(3, 0),
        Position::new(4, 1),
    ];
    let board = Board::init_for_player(pos, PlayerID::P1).unwrap();
    println!("{:?}", board);
}

#[test]
fn cell_roundtrip_all_triples() {
    for kind in all_kinds() {
        for owner in all_owners() {
            for id in all_ids() {
                let cell = Cell::owned(kind, owner, id);
                match cell {
                    Cell::Owned(o) => {
                        assert_eq!(o.ghost(), kind);
                        assert_eq!(o.owner(), owner);
                        assert_eq!(o.id(), id);
                    }
                    Cell::Empty => panic!("owned cell expected"),
                }
            }
        }
    }
}

#[test]
fn ghost_id_codes_roundtrip() {
    for (i, id) in all_ids().into_iter().enumerate() {
        assert_eq!(id.as_u8(), i as u8);
        assert_eq!(GhostID::from_u8(i as u8), Some(id));
    }
    assert_eq!(GhostID::from_u8(8), None);
    assert_eq!(GhostID::from_u8(255), None);
}

fn count_pieces(board: &Board, owner: PlayerID, kind: GhostKind) -> usize {
    let mut n = 0;
    for pos in Board::iter() {
        if let Cell::Owned(o) = board.cell_at(pos) {
            if o.owner() == owner && o.ghost() == kind {
                n += 1;
            }
        }
    }
    n
}

#[test]
fn init_piece_counts() {
    let board = standard_board();
    assert_eq!(count_pieces(&board, PlayerID::P1, GhostKind::Red), 4);
    assert_eq!(count_pieces(&board, PlayerID::P1, GhostKind::Blue), 4);
    assert_eq!(count_pieces(&board, PlayerID::P2, GhostKind::Unknown), 8);
    assert_eq!(count_pieces(&board, PlayerID::P2, GhostKind::Red), 0);
}

#[test]
fn init_rejects_bad_placements() {
    // A position outside the home area.
    let out = [
        Position::new(0, 0),
        Position::new(2, 1),
        Position::new(3, 0),
        Position::new(4, 1),
    ];
    assert!(Board::init_for_player(out, PlayerID::P1).is_none());
    // A duplicate position: fewer than four distinct valid cells.
    let dup = [
        Position::new(1, 0),
        Position::new(1, 0),
        Position::new(3, 0),
        Position::new(4, 1),
    ];
    assert!(Board::init_for_player(dup, PlayerID::P1).is_none());
    // The right cells for the other player.
    let other = [
        Position::new(1, 4),
        Position::new(2, 4),
        Position::new(3, 4),
        Position::new(4, 4),
    ];
    assert!(Board::init_for_player(other, PlayerID::P1).is_none());
    assert!(Board::init_for_player(other, PlayerID::P2).is_some());
}

#[test]
fn init_scenario_row_zero() {
    let pos = [
        Position::new(1, 0),
        Position::new(2, 0),
        Position::new(3, 0),
        Position::new(4, 0),
    ];
    let board = Board::init_for_player(pos, PlayerID::P1).unwrap();
    for x in 1..=4i8 {
        match board.cell_at(Position::new(x, 0)) {
            Cell::Owned(o) => {
                assert_eq!(o.ghost(), GhostKind::Red);
                assert_eq!(o.owner(), PlayerID::P1);
            }
            Cell::Empty => panic!("red piece expected at row 0"),
        }
        match board.cell_at(Position::new(x, 1)) {
            Cell::Owned(o) => {
                assert_eq!(o.ghost(), GhostKind::Blue);
                assert_eq!(o.owner(), PlayerID::P1);
            }
            Cell::Empty => panic!("blue piece expected at row 1"),
        }
        for y in [4i8, 5] {
            match board.cell_at(Position::new(x, y)) {
                Cell::Owned(o) => {
                    assert_eq!(o.ghost(), GhostKind::Unknown);
                    assert_eq!(o.owner(), PlayerID::P2);
                }
                Cell::Empty => panic!("unknown piece expected in rows 4-5"),
            }
        }
    }
    // Edge columns stay empty.
    for y in 0..6i8 {
        assert_eq!(board.cell_at(Position::new(0, y)), Cell::Empty);
        assert_eq!(board.cell_at(Position::new(5, y)), Cell::Empty);
    }
}

#[test]
fn can_move_and_transit_agree() {
    let board = standard_board();
    for pos in Board::iter() {
        for direction in Direction::iter() {
            let mov = Move { pos, direction };
            let verdict = board.can_move(mov);
            let mut copy = board.clone();
            let outcome = copy.transit(mov);
            match verdict {
                MoveResult::Invalid => {
                    assert_eq!(outcome, Err(ErrorKind::InvalidMove(mov)));
                    assert!(boards_equal(&board, &copy));
                }
                MoveResult::Valid | MoveResult::Win => {
                    assert!(outcome.is_ok());
                }
            }
        }
    }
}

#[test]
fn transit_moves_piece_and_clears_origin() {
    let mut board = standard_board();
    let mov = Move { pos: Position::new(1, 1), direction: Direction::Down };
    let before = board.cell_at(Position::new(1, 1));
    let outcome = board.transit(mov).unwrap();
    assert_eq!(outcome, Transition::Nothing);
    assert_eq!(board.cell_at(Position::new(1, 1)), Cell::Empty);
    assert_eq!(board.cell_at(Position::new(1, 2)), before);
}

#[test]
fn transit_capture_reports_lost() {
    let mut board = Board::default();
    let attacker = Cell::owned(GhostKind::Red, PlayerID::P1, GhostID::A);
    let victim = Cell::owned(GhostKind::Blue, PlayerID::P2, GhostID::B);
    board.set_cell(Position::new(2, 2), attacker);
    board.set_cell(Position::new(2, 3), victim);
    let mov = Move { pos: Position::new(2, 2), direction: Direction::Down };
    assert_eq!(board.can_move(mov), MoveResult::Valid);
    match board.transit(mov).unwrap() {
        Transition::Lost(lost) => {
            assert_eq!(Cell::Owned(lost), victim);
        }
        other => panic!("capture expected, got {:?}", other),
    }
    assert_eq!(board.cell_at(Position::new(2, 2)), Cell::Empty);
    assert_eq!(board.cell_at(Position::new(2, 3)), attacker);
}

#[test]
fn blue_escape_wins() {
    let mut board = Board::default();
    let runner = Cell::owned(GhostKind::Blue, PlayerID::P1, GhostID::C);
    board.set_cell(Position::new(0, 5), runner);
    let mov = Move { pos: Position::new(0, 5), direction: Direction::Left };
    assert_eq!(board.can_move(mov), MoveResult::Win);
    assert_eq!(board.transit(mov), Ok(Transition::End(PlayerID::P1)));
    assert_eq!(board.cell_at(Position::new(0, 5)), Cell::Empty);
}

#[test]
fn red_cannot_escape() {
    let mut board = Board::default();
    let runner = Cell::owned(GhostKind::Red, PlayerID::P1, GhostID::C);
    board.set_cell(Position::new(0, 5), runner);
    let mov = Move { pos: Position::new(0, 5), direction: Direction::Left };
    assert_eq!(board.can_move(mov), MoveResult::Invalid);
    assert_eq!(board.transit(mov), Err(ErrorKind::InvalidMove(mov)));
    assert_eq!(board.cell_at(Position::new(0, 5)), runner);
}

#[test]
fn own_piece_blocks_destination() {
    let mut board = Board::default();
    let mover = Cell::owned(GhostKind::Red, PlayerID::P1, GhostID::A);
    let blocker = Cell::owned(GhostKind::Blue, PlayerID::P1, GhostID::B);
    board.set_cell(Position::new(2, 2), mover);
    board.set_cell(Position::new(3, 2), blocker);
    let mov = Move { pos: Position::new(2, 2), direction: Direction::Right };
    assert_eq!(board.can_move(mov), MoveResult::Invalid);
    let snapshot = board.clone();
    assert_eq!(board.transit(mov), Err(ErrorKind::InvalidMove(mov)));
    assert!(boards_equal(&snapshot, &board));
}

#[test]
fn transit_rejects_empty_and_off_board_origin() {
    let mut board = standard_board();
    let empty_origin = Move { pos: Position::new(0, 3), direction: Direction::Up };
    assert_eq!(
        board.transit(empty_origin),
        Err(ErrorKind::InvalidMove(empty_origin))
    );
    let off_board = Move { pos: Position::new(-1, 2), direction: Direction::Up };
    assert_eq!(board.can_move(off_board), MoveResult::Invalid);
    assert_eq!(board.transit(off_board), Err(ErrorKind::InvalidMove(off_board)));
}

#[test]
fn diff_of_identical_boards_is_empty() {
    let board = standard_board();
    assert!(board.diff(&board).is_empty());
    let copy = board.clone();
    assert!(board.diff(&copy).is_empty());
}

#[test]
fn diff_is_symmetric_in_positions() {
    let a = standard_board();
    let mut b = a.clone();
    let mov = Move { pos: Position::new(1, 1), direction: Direction::Down };
    b.transit(mov).unwrap();
    let ab = a.diff(&b);
    let ba = b.diff(&a);
    assert_eq!(ab.len(), 2);
    let mut ab_pos: Vec<Position> = ab.iter().map(|d| d.pos).collect();
    let mut ba_pos: Vec<Position> = ba.iter().map(|d| d.pos).collect();
    ab_pos.sort_by_key(|p| (p.x, p.y));
    ba_pos.sort_by_key(|p| (p.x, p.y));
    assert_eq!(ab_pos, ba_pos);
}

#[test]
fn diff_records_before_and_after() {
    let a = standard_board();
    let mut b = a.clone();
    let origin = Position::new(1, 1);
    let target = Position::new(1, 2);
    let piece = a.cell_at(origin);
    b.transit(Move { pos: origin, direction: Direction::Down }).unwrap();
    let records = a.diff(&b);
    for Diff { pos, before, after } in records {
        if pos == origin {
            assert_eq!(before, piece);
            assert_eq!(after, Cell::Empty);
        } else if pos == target {
            assert_eq!(before, Cell::Empty);
            assert_eq!(after, piece);
        } else {
            panic!("unexpected diff at {:?}", pos);
        }
    }
}

#[test]
fn into_transition_cases() {
    let blue = Cell::owned(GhostKind::Blue, PlayerID::P1, GhostID::A);
    let red = Cell::owned(GhostKind::Red, PlayerID::P2, GhostID::B);
    // Owned cell replaced by another owned cell: the occupant was lost.
    let captured = Diff { pos: Position::new(2, 2), before: red, after: blue };
    match captured.into_transition() {
        Transition::Lost(lost) => assert_eq!(Cell::Owned(lost), red),
        other => panic!("loss expected, got {:?}", other),
    }
    // A blue piece vanishing from its owner's escape cell: a win.
    let escaped = Diff { pos: Position::new(5, 5), before: blue, after: Cell::Empty };
    assert_eq!(escaped.into_transition(), Transition::End(PlayerID::P1));
    // A blue piece vanishing elsewhere means nothing.
    let moved = Diff { pos: Position::new(2, 2), before: blue, after: Cell::Empty };
    assert_eq!(moved.into_transition(), Transition::Nothing);
    // A cell being filled means nothing.
    let filled = Diff { pos: Position::new(2, 2), before: Cell::Empty, after: blue };
    assert_eq!(filled.into_transition(), Transition::Nothing);
}

#[test]
fn simulator_infers_transitions() {
    let start = standard_board();
    let mut sim = simulator::Simulator::new(start.clone(), PlayerID::P1);
    // A quiet move is inferred as nothing.
    let mut next = start.clone();
    next.transit(Move { pos: Position::new(1, 1), direction: Direction::Down })
        .unwrap();
    assert_eq!(sim.transit(next.clone()), simulator::Transition::Nothing);
    // A capture is inferred as a loss.
    let mut sim = simulator::Simulator::new(Board::default(), PlayerID::P1);
    let mut captured = Board::default();
    let victim = Cell::owned(GhostKind::Blue, PlayerID::P2, GhostID::B);
    captured.set_cell(Position::new(2, 3), victim);
    sim.transit(captured.clone());
    let mut after = captured.clone();
    after.set_cell(
        Position::new(2, 3),
        Cell::owned(GhostKind::Red, PlayerID::P1, GhostID::A),
    );
    match sim.transit(after) {
        simulator::Transition::Lost(lost) => assert_eq!(Cell::Owned(lost), victim),
        other => panic!("loss expected, got {:?}", other),
    }
    // An emptied escape cell is inferred as the owner's win.
    let mut escape_board = Board::default();
    let runner = Cell::owned(GhostKind::Blue, PlayerID::P2, GhostID::C);
    escape_board.set_cell(Position::new(5, 0), runner);
    let mut sim = simulator::Simulator::new(escape_board, PlayerID::P2);
    assert_eq!(
        sim.transit(Board::default()),
        simulator::Transition::End(PlayerID::P2)
    );
}

#[test]
fn playout_returns_start() {
    assert_eq!(simulator::Simulator::playout(PlayerID::P2), Ok(PlayerID::P2));
}

#[test]
fn position_predicates() {
    assert!(Position::new(0, 0).is_valid());
    assert!(Position::new(5, 5).is_valid());
    assert!(!Position::new(-1, 0).is_valid());
    assert!(!Position::new(0, 6).is_valid());
    assert_eq!(Position::new(2, 0).in_init_area(), Some(PlayerID::P1));
    assert_eq!(Position::new(2, 4).in_init_area(), Some(PlayerID::P2));
    assert_eq!(Position::new(0, 0).in_init_area(), None);
    assert_eq!(Position::new(2, 3).in_init_area(), None);
    assert!(Position::new(0, 5).is_escape(PlayerID::P1));
    assert!(Position::new(5, 5).is_escape(PlayerID::P1));
    assert!(!Position::new(0, 5).is_escape(PlayerID::P2));
    assert!(Position::new(0, 0).is_escape(PlayerID::P2));
    assert_eq!(Position::new(2, 3).to_index(), 2 + 3 * 6);
    assert_eq!(Position::new(-1, 3).to_index(), 36);
}

#[test]
fn direction_and_move_helpers() {
    assert!(!Direction::Up.is_ordinal());
    assert!(!Direction::Down.is_ordinal());
    assert!(Direction::Left.is_ordinal());
    assert!(Direction::Right.is_ordinal());
    let mov = Move { pos: Position::new(2, 3), direction: Direction::Right };
    assert_eq!(mov.to(), Position::new(3, 3));
    assert_eq!(mov.to_indices(), (2 + 3 * 6, 3 + 3 * 6));
    assert!(Move { pos: Position::new(0, 5), direction: Direction::Left }
        .can_escape(PlayerID::P1));
    assert!(!Move { pos: Position::new(0, 5), direction: Direction::Up }
        .can_escape(PlayerID::P1));
    assert_eq!(PlayerID::P1.rev(), PlayerID::P2);
    assert_eq!(PlayerID::P2.rev(), PlayerID::P1);
}

#[test]
fn gpw_position_codes() {
    assert_eq!(Position::new(1, 0).init_pos(), Some(b'h'));
    assert_eq!(Position::new(4, 0).init_pos(), Some(b'e'));
    assert_eq!(Position::new(1, 1).init_pos(), Some(b'd'));
    assert_eq!(Position::new(4, 1).init_pos(), Some(b'a'));
    assert_eq!(Position::new(1, 4).init_pos(), Some(b'A'));
    assert_eq!(Position::new(4, 4).init_pos(), Some(b'D'));
    assert_eq!(Position::new(1, 5).init_pos(), Some(b'E'));
    assert_eq!(Position::new(4, 5).init_pos(), Some(b'H'));
    assert_eq!(Position::new(0, 0).init_pos(), None);
    assert_eq!(Position::new(2, 3).init_pos(), None);
}

#[test]
fn check_inv_rejects_malformed_cells() {
    let mut board = Board::default();
    assert!(board.check_inv());
    // Kind code 3 is outside the encoding contract.
    board.set_cell(Position::new(0, 0), Cell::Owned(OwnedCell(0b11)));
    assert!(!board.check_inv());
    // High bits outside the three fields are refused too.
    let mut board = Board::default();
    board.set_cell(Position::new(0, 0), Cell::Owned(OwnedCell(0b1000001)));
    assert!(!board.check_inv());
    assert!(standard_board().check_inv());
}

#[test]
fn metadata_starts_clear() {
    let list = MetaDataList::new();
    let _ = list.get(GhostID::C, PlayerID::P1);
    let _ = list.get(GhostID::H, PlayerID::P2);
}
