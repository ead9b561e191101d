//! Pure geometric move generators, one per piece kind. Each returns raw
//! candidate moves from a given origin; bounds and same-color filtering
//! happen in the board's shared validator, not here.

use vstd::prelude::*;

use crate::board::{on_board, Board, Color, Coord, Move, Piece, PieceType};

verus! {

/// The eight knight targets, in emission order.
pub open spec fn spec_knight_moves(x: int, y: int) -> Seq<Move> {
    seq![
        Move { from: Coord { x: x as isize, y: y as isize }, to: Coord { x: (x - 1) as isize, y: (y - 2) as isize } },
        Move { from: Coord { x: x as isize, y: y as isize }, to: Coord { x: (x - 1) as isize, y: (y + 2) as isize } },
        Move { from: Coord { x: x as isize, y: y as isize }, to: Coord { x: (x + 1) as isize, y: (y + 2) as isize } },
        Move { from: Coord { x: x as isize, y: y as isize }, to: Coord { x: (x + 1) as isize, y: (y - 2) as isize } },
        Move { from: Coord { x: x as isize, y: y as isize }, to: Coord { x: (x + 2) as isize, y: (y + 1) as isize } },
        Move { from: Coord { x: x as isize, y: y as isize }, to: Coord { x: (x + 2) as isize, y: (y - 1) as isize } },
        Move { from: Coord { x: x as isize, y: y as isize }, to: Coord { x: (x - 2) as isize, y: (y - 1) as isize } },
        Move { from: Coord { x: x as isize, y: y as isize }, to: Coord { x: (x - 2) as isize, y: (y + 1) as isize } },
    ]
}

/// Emits all 8 fixed knight offsets unconditionally; board-independent.
pub fn knight_moves(x: isize, y: isize) -> (r: Vec<Move>)
    requires
        on_board(x as int, y as int),
    ensures
        r@ == spec_knight_moves(x as int, y as int),
{
    let from = Coord { x, y };
    let mut moves: Vec<Move> = Vec::new();
    moves.push(Move { from, to: Coord { x: x - 1, y: y - 2 } });
    moves.push(Move { from, to: Coord { x: x - 1, y: y + 2 } });
    moves.push(Move { from, to: Coord { x: x + 1, y: y + 2 } });
    moves.push(Move { from, to: Coord { x: x + 1, y: y - 2 } });
    moves.push(Move { from, to: Coord { x: x + 2, y: y + 1 } });
    moves.push(Move { from, to: Coord { x: x + 2, y: y - 1 } });
    moves.push(Move { from, to: Coord { x: x - 2, y: y - 1 } });
    moves.push(Move { from, to: Coord { x: x - 2, y: y + 1 } });
    proof {
        assert(moves@ =~= spec_knight_moves(x as int, y as int));
    }
    moves
}

/// The rank a pawn of the given color starts on, where the two-step
/// advance is offered.
pub open spec fn spec_starting_rank(c: Color) -> int {
    if c is White {
        1
    } else {
        6
    }
}

/// The direction a pawn of the given color advances in.
pub open spec fn spec_pawn_dir(c: Color) -> int {
    if c is White {
        1
    } else {
        -1
    }
}

/// The pawn candidates, in emission order: the single step forward
/// (always, with no occupancy check), the two-step forward when on the
/// starting rank (again unchecked), then the right and left diagonals,
/// each offered only when its target is on the board and occupied by a
/// piece of either color. The left diagonal is skipped entirely on
/// file 0.
pub open spec fn spec_pawn_moves(b: Board, x: int, y: int, piece: Piece) -> Seq<Move> {
    let from = Coord { x: x as isize, y: y as isize };
    let dir = spec_pawn_dir(piece.color);
    let fwd1 = seq![Move { from, to: Coord { x: x as isize, y: (y + dir) as isize } }];
    let fwd2 = if y == spec_starting_rank(piece.color) {
        seq![Move { from, to: Coord { x: x as isize, y: (y + 2 * dir) as isize } }]
    } else {
        Seq::<Move>::empty()
    };
    let right = if on_board(x + 1, y + dir) && b.spec_piece_at(x + 1, y + dir) is Some {
        seq![Move { from, to: Coord { x: (x + 1) as isize, y: (y + dir) as isize } }]
    } else {
        Seq::<Move>::empty()
    };
    let left = if x != 0 && on_board(x - 1, y + dir) && b.spec_piece_at(x - 1, y + dir) is Some {
        seq![Move { from, to: Coord { x: (x - 1) as isize, y: (y + dir) as isize } }]
    } else {
        Seq::<Move>::empty()
    };
    fwd1 + fwd2 + right + left
}

/// Pawn candidates for the pawn `piece` standing at (x, y). Forward
/// moves are emitted unconditionally; only the diagonal captures
/// consult the board, and only for occupancy, not color (a wrong-color
/// diagonal is filtered out later by the shared validator).
pub fn pawn_moves(board: &Board, x: isize, y: isize, piece: Piece) -> (r: Vec<Move>)
    requires
        board.wf(),
        on_board(x as int, y as int),
    ensures
        r@ == spec_pawn_moves(*board, x as int, y as int, piece),
{
    let from = Coord { x, y };
    let dir: isize = match piece.color {
        Color::White => 1,
        Color::Black => -1,
    };
    let starting_rank: isize = match piece.color {
        Color::White => 1,
        Color::Black => 6,
    };
    let mut moves: Vec<Move> = Vec::new();
    moves.push(Move { from, to: Coord { x, y: y + dir } });
    if y == starting_rank {
        moves.push(Move { from, to: Coord { x, y: y + 2 * dir } });
    }
    let ry = y + dir;
    if x + 1 <= 7 && 0 <= ry && ry <= 7 {
        if board.get_square(x + 1, ry).piece.is_some() {
            moves.push(Move { from, to: Coord { x: x + 1, y: ry } });
        }
    }
    if x != 0 && 0 <= ry && ry <= 7 {
        if board.get_square(x - 1, ry).piece.is_some() {
            moves.push(Move { from, to: Coord { x: x - 1, y: ry } });
        }
    }
    proof {
        assert(moves@ =~= spec_pawn_moves(*board, x as int, y as int, piece));
    }
    moves
}

/// The eight king targets, in emission order.
pub open spec fn spec_king_moves(x: int, y: int) -> Seq<Move> {
    seq![
        Move { from: Coord { x: x as isize, y: y as isize }, to: Coord { x: (x + 1) as isize, y: y as isize } },
        Move { from: Coord { x: x as isize, y: y as isize }, to: Coord { x: (x - 1) as isize, y: y as isize } },
        Move { from: Coord { x: x as isize, y: y as isize }, to: Coord { x: x as isize, y: (y + 1) as isize } },
        Move { from: Coord { x: x as isize, y: y as isize }, to: Coord { x: x as isize, y: (y - 1) as isize } },
        Move { from: Coord { x: x as isize, y: y as isize }, to: Coord { x: (x + 1) as isize, y: (y + 1) as isize } },
        Move { from: Coord { x: x as isize, y: y as isize }, to: Coord { x: (x - 1) as isize, y: (y + 1) as isize } },
        Move { from: Coord { x: x as isize, y: y as isize }, to: Coord { x: (x + 1) as isize, y: (y - 1) as isize } },
        Move { from: Coord { x: x as isize, y: y as isize }, to: Coord { x: (x - 1) as isize, y: (y - 1) as isize } },
    ]
}

/// Emits all 8 unit offsets (including diagonals) unconditionally;
/// board-independent.
pub fn king_moves(x: isize, y: isize) -> (r: Vec<Move>)
    requires
        on_board(x as int, y as int),
    ensures
        r@ == spec_king_moves(x as int, y as int),
{
    let from = Coord { x, y };
    let mut moves: Vec<Move> = Vec::new();
    moves.push(Move { from, to: Coord { x: x + 1, y } });
    moves.push(Move { from, to: Coord { x: x - 1, y } });
    moves.push(Move { from, to: Coord { x, y: y + 1 } });
    moves.push(Move { from, to: Coord { x, y: y - 1 } });
    moves.push(Move { from, to: Coord { x: x + 1, y: y + 1 } });
    moves.push(Move { from, to: Coord { x: x - 1, y: y + 1 } });
    moves.push(Move { from, to: Coord { x: x + 1, y: y - 1 } });
    moves.push(Move { from, to: Coord { x: x - 1, y: y - 1 } });
    proof {
        assert(moves@ =~= spec_king_moves(x as int, y as int));
    }
    moves
}

/// The moves along one ray from (x, y) in direction (dx, dy), starting
/// at step `i`: the ray extends over empty squares, stops just before a
/// same-color piece or the board edge, and includes the square of an
/// opposite-color piece as a capture before stopping. The mover's color
/// is that of the piece at the origin.
pub open spec fn spec_ray_moves_from(
    b: Board,
    x: int,
    y: int,
    dx: int,
    dy: int,
    i: int,
) -> Seq<Move>
    decreases 8 - i,
{
    if i >= 8 {
        Seq::<Move>::empty()
    } else {
        let tx = x + i * dx;
        let ty = y + i * dy;
        if !on_board(tx, ty) {
            Seq::<Move>::empty()
        } else {
            let m = Move {
                from: Coord { x: x as isize, y: y as isize },
                to: Coord { x: tx as isize, y: ty as isize },
            };
            match b.spec_piece_at(tx, ty) {
                Some(q) => if q.color != b.spec_piece_at(x, y).unwrap().color {
                    seq![m]
                } else {
                    Seq::<Move>::empty()
                },
                None => seq![m] + spec_ray_moves_from(b, x, y, dx, dy, i + 1),
            }
        }
    }
}

/// The full ray in direction (dx, dy), from distance 1 outward.
pub open spec fn spec_ray_moves(b: Board, x: int, y: int, dx: int, dy: int) -> Seq<Move> {
    spec_ray_moves_from(b, x, y, dx, dy, 1)
}

/// Bishop candidates: the four diagonal rays, northeast, northwest,
/// southeast, southwest, each cast independently.
pub open spec fn spec_bishop_moves(b: Board, x: int, y: int) -> Seq<Move> {
    spec_ray_moves(b, x, y, 1, 1) + spec_ray_moves(b, x, y, -1, 1) + spec_ray_moves(b, x, y, 1, -1)
        + spec_ray_moves(b, x, y, -1, -1)
}

/// Rook candidates: the four orthogonal rays, north, south, east, west.
pub open spec fn spec_rook_moves(b: Board, x: int, y: int) -> Seq<Move> {
    spec_ray_moves(b, x, y, 0, 1) + spec_ray_moves(b, x, y, 0, -1) + spec_ray_moves(b, x, y, 1, 0)
        + spec_ray_moves(b, x, y, -1, 0)
}

/// Queen candidates: exactly the rook candidates followed by the bishop
/// candidates from the same origin, computed independently.
pub open spec fn spec_queen_moves(b: Board, x: int, y: int) -> Seq<Move> {
    spec_rook_moves(b, x, y) + spec_bishop_moves(b, x, y)
}

/// Casts one ray: steps outward from distance 1, pushing a move per
/// empty square, and stops at the board edge or the first occupied
/// square, which is included only as an opposite-color capture.
fn ray_moves(board: &Board, x: isize, y: isize, dx: isize, dy: isize) -> (r: Vec<Move>)
    requires
        board.wf(),
        on_board(x as int, y as int),
        board.spec_piece_at(x as int, y as int) is Some,
        -1 <= dx <= 1,
        -1 <= dy <= 1,
    ensures
        r@ == spec_ray_moves(*board, x as int, y as int, dx as int, dy as int),
{
    let from = Coord { x, y };
    let mover_color = board.get_square(x, y).piece.unwrap().color;
    let mut moves: Vec<Move> = Vec::new();
    let mut i: isize = 1;
    while i < 8
        invariant_except_break
            moves@ + spec_ray_moves_from(*board, x as int, y as int, dx as int, dy as int, i as int)
                == spec_ray_moves(*board, x as int, y as int, dx as int, dy as int),
        invariant
            board.wf(),
            on_board(x as int, y as int),
            board.spec_piece_at(x as int, y as int) is Some,
            mover_color == board.spec_piece_at(x as int, y as int).unwrap().color,
            from == (Coord { x, y }),
            -1 <= dx <= 1,
            -1 <= dy <= 1,
            1 <= i <= 8,
        ensures
            moves@ == spec_ray_moves(*board, x as int, y as int, dx as int, dy as int),
        decreases 8 - i,
    {
        proof {
            assert(-8 <= i as int * dx as int <= 8 && -8 <= i as int * dy as int
                <= 8) by (nonlinear_arith)
                requires
                    1 <= i as int <= 8,
                    -1 <= dx as int <= 1,
                    -1 <= dy as int <= 1,
            ;
        }
        let tx = x + i * dx;
        let ty = y + i * dy;
        if tx < 0 || tx > 7 || ty < 0 || ty > 7 {
            proof {
                assert(moves@ + Seq::<Move>::empty() =~= moves@);
            }
            break ;
        }
        let m = Move { from, to: Coord { x: tx, y: ty } };
        let ghost pre = moves@;
        match board.get_square(tx, ty).piece {
            Some(q) => {
                if q.color != mover_color {
                    moves.push(m);
                    proof {
                        assert(moves@ =~= pre + seq![m]);
                    }
                } else {
                    proof {
                        assert(moves@ + Seq::<Move>::empty() =~= moves@);
                    }
                }
                break ;
            },
            None => {
                moves.push(m);
                proof {
                    assert(moves@ + spec_ray_moves_from(
                        *board,
                        x as int,
                        y as int,
                        dx as int,
                        dy as int,
                        i as int + 1,
                    ) =~= pre + (seq![m] + spec_ray_moves_from(
                        *board,
                        x as int,
                        y as int,
                        dx as int,
                        dy as int,
                        i as int + 1,
                    )));
                }
            },
        }
        i = i + 1;
    }
    proof {
        assert(moves@ + Seq::<Move>::empty() =~= moves@);
    }
    moves
}

/// Bishop candidates for the piece at (x, y): four diagonal rays.
pub fn bishop_moves(board: &Board, x: isize, y: isize) -> (r: Vec<Move>)
    requires
        board.wf(),
        on_board(x as int, y as int),
        board.spec_piece_at(x as int, y as int) is Some,
    ensures
        r@ == spec_bishop_moves(*board, x as int, y as int),
{
    let mut moves: Vec<Move> = ray_moves(board, x, y, 1, 1);
    let mut nw = ray_moves(board, x, y, -1, 1);
    let mut se = ray_moves(board, x, y, 1, -1);
    let mut sw = ray_moves(board, x, y, -1, -1);
    moves.append(&mut nw);
    moves.append(&mut se);
    moves.append(&mut sw);
    moves
}

/// Rook candidates for the piece at (x, y): four orthogonal rays.
pub fn rook_moves(board: &Board, x: isize, y: isize) -> (r: Vec<Move>)
    requires
        board.wf(),
        on_board(x as int, y as int),
        board.spec_piece_at(x as int, y as int) is Some,
    ensures
        r@ == spec_rook_moves(*board, x as int, y as int),
{
    let mut moves: Vec<Move> = ray_moves(board, x, y, 0, 1);
    let mut s = ray_moves(board, x, y, 0, -1);
    let mut e = ray_moves(board, x, y, 1, 0);
    let mut w = ray_moves(board, x, y, -1, 0);
    moves.append(&mut s);
    moves.append(&mut e);
    moves.append(&mut w);
    moves
}

/// Queen candidates: the rook candidates then the bishop candidates.
pub fn queen_moves(board: &Board, x: isize, y: isize) -> (r: Vec<Move>)
    requires
        board.wf(),
        on_board(x as int, y as int),
        board.spec_piece_at(x as int, y as int) is Some,
    ensures
        r@ == spec_queen_moves(*board, x as int, y as int),
{
    let mut moves: Vec<Move> = rook_moves(board, x, y);
    let mut diag = bishop_moves(board, x, y);
    moves.append(&mut diag);
    moves
}

/// Every move in `ms` starts at (x, y).
pub open spec fn moves_from(ms: Seq<Move>, x: int, y: int) -> bool {
    forall|k: int|
        0 <= k < ms.len() ==> (#[trigger] ms[k]).from == (Coord {
            x: x as isize,
            y: y as isize,
        })
}

proof fn lemma_ray_moves_origin(b: Board, x: int, y: int, dx: int, dy: int, i: int)
    ensures
        moves_from(spec_ray_moves_from(b, x, y, dx, dy, i), x, y),
    decreases 8 - i,
{
    if i < 8 {
        lemma_ray_moves_origin(b, x, y, dx, dy, i + 1);
    }
}

/// The raw candidates of the piece `p` at (x, y): the dispatch table
/// from piece kind to generator.
pub open spec fn spec_candidate_moves(b: Board, x: int, y: int, p: Piece) -> Seq<Move> {
    match p.piece_type {
        PieceType::Pawn => spec_pawn_moves(b, x, y, p),
        PieceType::Knight => spec_knight_moves(x, y),
        PieceType::Bishop => spec_bishop_moves(b, x, y),
        PieceType::Rook => spec_rook_moves(b, x, y),
        PieceType::Queen => spec_queen_moves(b, x, y),
        PieceType::King => spec_king_moves(x, y),
    }
}

/// Every candidate a generator emits starts at the queried square.
pub proof fn lemma_candidates_origin(b: Board, x: int, y: int, p: Piece)
    ensures
        moves_from(spec_candidate_moves(b, x, y, p), x, y),
{
    match p.piece_type {
        PieceType::Pawn => {
            assert(moves_from(spec_pawn_moves(b, x, y, p), x, y));
        },
        PieceType::Knight => {
            assert(moves_from(spec_knight_moves(x, y), x, y));
        },
        PieceType::Bishop => {
            lemma_ray_moves_origin(b, x, y, 1, 1, 1);
            lemma_ray_moves_origin(b, x, y, -1, 1, 1);
            lemma_ray_moves_origin(b, x, y, 1, -1, 1);
            lemma_ray_moves_origin(b, x, y, -1, -1, 1);
        },
        PieceType::Rook => {
            lemma_ray_moves_origin(b, x, y, 0, 1, 1);
            lemma_ray_moves_origin(b, x, y, 0, -1, 1);
            lemma_ray_moves_origin(b, x, y, 1, 0, 1);
            lemma_ray_moves_origin(b, x, y, -1, 0, 1);
        },
        PieceType::Queen => {
            lemma_ray_moves_origin(b, x, y, 0, 1, 1);
            lemma_ray_moves_origin(b, x, y, 0, -1, 1);
            lemma_ray_moves_origin(b, x, y, 1, 0, 1);
            lemma_ray_moves_origin(b, x, y, -1, 0, 1);
            lemma_ray_moves_origin(b, x, y, 1, 1, 1);
            lemma_ray_moves_origin(b, x, y, -1, 1, 1);
            lemma_ray_moves_origin(b, x, y, 1, -1, 1);
            lemma_ray_moves_origin(b, x, y, -1, -1, 1);
        },
        PieceType::King => {
            assert(moves_from(spec_king_moves(x, y), x, y));
        },
    }
}

} // verus!
