use chess_moves::board::{Board, Color, Coord, IllegalMove, ParseError, PieceType};

#[test]
fn moving_piece() {
    let mut board = Board::construct_board();
    board.move_piece(0, 1, 0, 3).unwrap();
    assert_eq!(
        board.get_square(0, 3).piece.unwrap().piece_type,
        PieceType::Pawn
    );
    assert_eq!(board.get_square(0, 1).piece, None);
}

#[test]
fn fen_string() {
    let board =
        Board::board_from_fen_string("rnbqkbnr/pppppppp/8/8/8/8/PPPPPPPP/RNBQKBNR w".to_string())
            .unwrap();
    assert_eq!(
        board.get_square(0, 7).piece.unwrap().piece_type,
        PieceType::Rook
    );
    assert_eq!(board.get_square(0, 7).piece.unwrap().color, Color::Black);
    //Check a white piece
    assert_eq!(
        board.get_square(0, 0).piece.unwrap().piece_type,
        PieceType::Rook
    );
    assert_eq!(board.get_square(0, 0).piece.unwrap().color, Color::White);
    //Check and empty space
    assert_eq!(board.get_square(3, 3).piece, None);
}

#[test]
fn pawn_moves() {
    //White home pawn
    let board = Board::construct_board();
    let moves = board.get_available_moves_for_square(0, 1);
    assert_eq!(moves.len(), 2);
    assert_eq!(moves[0].to, Coord { x: 0, y: 2 });
    assert_eq!(moves[1].to, Coord { x: 0, y: 3 });

    //Black home pawn
    let board = Board::construct_board();
    let moves = board.get_available_moves_for_square(0, 6);
    assert_eq!(moves.len(), 2);
    assert_eq!(moves[0].to, Coord { x: 0, y: 5 });
    assert_eq!(moves[1].to, Coord { x: 0, y: 4 });

    //Test moves for a non home pawn
    let board = Board::board_from_fen_string("8/8/8/8/3p4/8/8/8 b".to_string()).unwrap();
    let moves = board.get_available_moves_for_square(3, 3);
    assert_eq!(moves.len(), 1);

    //Test moves for a pawn that can't move
    let board = Board::board_from_fen_string("8/8/8/8/3p4/3p4/8/8 b".to_string()).unwrap();
    let moves = board.get_available_moves_for_square(3, 3);
    assert_eq!(moves.len(), 0, "Blocked pawn should have no moves");

    //Capture moves
    let board = Board::board_from_fen_string("8/8/8/8/3p4/4P3/8/8 b".to_string()).unwrap();
    let moves = board.get_available_moves_for_square(3, 3);
    assert_eq!(
        moves.len(),
        2,
        "Pawn should have one capture move and one forward move"
    );
}

#[test]
fn knight_moves() {
    let board = Board::construct_board();
    let moves = board.get_available_moves_for_square(1, 0);
    assert_eq!(moves.len(), 2);
    assert_eq!(moves[1].to, Coord { x: 2, y: 2 });
    assert_eq!(moves[0].to, Coord { x: 0, y: 2 });

    let board = Board::board_from_fen_string("8/8/8/8/3n4/8/8/8 b".to_string()).unwrap();
    let moves = board.get_available_moves_for_square(3, 3);
    assert_eq!(moves.len(), 8);
}

#[test]
fn bishop_moves() {
    let board = Board::board_from_fen_string("8/8/8/8/3b4/8/8/8 b".to_string()).unwrap();
    let moves = board.get_available_moves_for_square(3, 3);
    assert_eq!(moves.len(), 13)
}

#[test]
fn rook_moves() {
    let board = Board::board_from_fen_string("8/8/8/8/3r4/8/8/8 b".to_string()).unwrap();
    let moves = board.get_available_moves_for_square(3, 3);
    assert_eq!(moves.len(), 14);

    //A rook boxed in by its own pieces has nowhere to go
    let board = Board::board_from_fen_string("8/8/8/3p4/2prp3/3p4/8/8 b".to_string()).unwrap();
    let moves = board.get_available_moves_for_square(3, 3);
    assert_eq!(moves.len(), 0);
}

#[test]
fn queen_moves() {
    let board = Board::board_from_fen_string("8/8/8/8/3q4/8/8/8 b".to_string()).unwrap();
    let moves = board.get_available_moves_for_square(3, 3);
    assert_eq!(moves.len(), 27);
}

#[test]
fn king_moves() {
    let board = Board::board_from_fen_string("8/8/8/8/3k4/8/8/8 b".to_string()).unwrap();
    let moves = board.get_available_moves_for_square(3, 3);
    assert_eq!(moves.len(), 8);

    //Clipped to three moves in a corner
    let board = Board::board_from_fen_string("8/8/8/8/8/8/8/k7 b".to_string()).unwrap();
    let moves = board.get_available_moves_for_square(0, 0);
    assert_eq!(moves.len(), 3);
}

#[test]
fn empty_square_has_no_moves() {
    let board = Board::construct_board();
    let moves = board.get_available_moves_for_square(4, 4);
    assert_eq!(moves.len(), 0);
}

#[test]
fn starting_position() {
    let board = Board::construct_board();
    let rook = board.get_square(0, 0).piece.unwrap();
    assert_eq!(rook.piece_type, PieceType::Rook);
    assert_eq!(rook.color, Color::White);
    let rook = board.get_square(0, 7).piece.unwrap();
    assert_eq!(rook.piece_type, PieceType::Rook);
    assert_eq!(rook.color, Color::Black);
    assert_eq!(board.get_square(3, 3).piece, None);
}

#[test]
fn relocation_preserves_piece() {
    let mut board = Board::construct_board();
    let before = board.get_square(0, 1).piece.unwrap();
    board.move_piece(0, 1, 0, 3).unwrap();
    assert_eq!(board.get_square(0, 1).piece, None);
    let after = board.get_square(0, 3).piece.unwrap();
    assert_eq!(after.piece_type, before.piece_type);
    assert_eq!(after.color, before.color);
}

#[test]
fn move_from_empty_square_is_rejected() {
    let mut board = Board::construct_board();
    assert_eq!(board.move_piece(3, 3, 3, 4), Err(IllegalMove));
    //The board is left untouched
    assert_eq!(board.to_fen_string(), Board::construct_board().to_fen_string());
}

#[test]
fn fen_round_trip() {
    let start = "rnbqkbnr/pppppppp/8/8/8/8/PPPPPPPP/RNBQKBNR w";
    assert_eq!(Board::construct_board().to_fen_string(), start);
    let board = Board::board_from_fen_string(start.to_string()).unwrap();
    assert_eq!(board.to_fen_string(), start);

    let sparse = "8/8/8/8/3p4/4P3/8/8 b";
    let board = Board::board_from_fen_string(sparse.to_string()).unwrap();
    assert_eq!(board.to_fen_string(), sparse);

    let mixed = "r1bqkbnr/pp1ppppp/2n5/2p5/4P3/5N2/PPPP1PPP/RNBQKB1R w";
    let board = Board::board_from_fen_string(mixed.to_string()).unwrap();
    assert_eq!(board.to_fen_string(), mixed);
}

#[test]
fn fen_errors() {
    //No side-to-move token at all
    assert_eq!(
        Board::board_from_fen_string("8/8/8/8/8/8/8/8".to_string()).err(),
        Some(ParseError::MissingField)
    );
    //An unrecognized side token
    assert_eq!(
        Board::board_from_fen_string("8/8/8/8/8/8/8/8 x".to_string()).err(),
        Some(ParseError::InvalidSideToken)
    );
    //An empty side token (two consecutive spaces)
    assert_eq!(
        Board::board_from_fen_string("8/8/8/8/8/8/8/8  w".to_string()).err(),
        Some(ParseError::InvalidSideToken)
    );
    //A rank with nine files
    assert_eq!(
        Board::board_from_fen_string("ppppppppp/8/8/8/8/8/8/8 w".to_string()).err(),
        Some(ParseError::PlacementOverflow)
    );
    //A ninth rank
    assert_eq!(
        Board::board_from_fen_string("8/8/8/8/8/8/8/8/8 w".to_string()).err(),
        Some(ParseError::PlacementOverflow)
    );
}

#[test]
fn fen_ignores_unknown_characters() {
    let plain = Board::board_from_fen_string("4k3/8/8/8/8/8/8/4K3 w".to_string()).unwrap();
    let noisy = Board::board_from_fen_string("4k3/8/8/8/8/8/8/4K3_! w".to_string()).unwrap();
    assert_eq!(noisy.to_fen_string(), plain.to_fen_string());
}

#[test]
fn board_display() {
    let board = Board::construct_board();
    let expected = "White to move\n\
                    rnbqkbnr\n\
                    pppppppp\n\
                    --------\n\
                    --------\n\
                    --------\n\
                    --------\n\
                    PPPPPPPP\n\
                    RNBQKBNR\n";
    assert_eq!(board.to_display_string(), expected);
    assert_eq!(Color::Black.to_display_string(), "Black");
}
