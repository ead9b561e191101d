//! The chessboard: an 8x8 grid of optionally-occupied squares plus the side
//! to move, with unchecked-by-design coordinates made safe through explicit
//! preconditions, piece relocation, and a FEN (placement + side only) codec.

use vstd::prelude::*;

use crate::piece_moves;
use crate::piece_moves::{moves_from, spec_candidate_moves};

verus! {

/// The two sides. A piece's color never changes once assigned.
#[derive(Copy, Clone, Debug, PartialEq, Eq, Structural)]
pub enum Color {
    White,
    Black,
}

/// A file/rank pair. Out-of-range values are representable on purpose:
/// move generators emit raw targets and validation rejects off-board ones.
#[derive(Copy, Clone, Debug, PartialEq, Eq, Structural)]
pub struct Coord {
    pub x: isize,
    pub y: isize,
}

/// A purely geometric relocation intent: no capture, promotion or
/// special-move flags.
#[derive(Copy, Clone, Debug, PartialEq, Eq, Structural)]
pub struct Move {
    pub from: Coord,
    pub to: Coord,
}

/// The six piece kinds.
#[derive(Copy, Clone, Debug, PartialEq, Eq, Structural)]
pub enum PieceType {
    Pawn,
    Knight,
    Bishop,
    Rook,
    Queen,
    King,
}

/// An immutable (kind, color) pair.
#[derive(Copy, Clone, Debug, PartialEq, Eq, Structural)]
pub struct Piece {
    pub piece_type: PieceType,
    pub color: Color,
}

impl Piece {
    fn new(color: Color, piece_type: PieceType) -> (p: Piece)
        ensures
            p == (Piece { piece_type, color }),
    {
        Piece { piece_type, color }
    }
}

/// One board cell: holds at most one piece.
#[derive(Copy, Clone, Debug)]
pub struct Square {
    pub piece: Option<Piece>,
}

/// Rejecting a malformed FEN string instead of aborting: which of the
/// three checks failed.
#[derive(Copy, Clone, Debug, PartialEq, Eq, Structural)]
pub enum ParseError {
    /// No side-to-move token after the placement field.
    MissingField,
    /// The side-to-move token is neither `w` nor `b`.
    InvalidSideToken,
    /// The placement field runs off the 8x8 grid.
    PlacementOverflow,
}

/// Rejecting a relocation whose source square is empty.
#[derive(Copy, Clone, Debug, PartialEq, Eq, Structural)]
pub struct IllegalMove;

/// True when (x, y) lies on the 8x8 grid.
pub open spec fn on_board(x: int, y: int) -> bool {
    0 <= x < 8 && 0 <= y < 8
}

/// The 8x8 grid, stored file-major: the square at (x, y) sits at index
/// x * 8 + y. The fields are private; `wf` is the invariant every
/// constructor establishes and every method preserves.
#[derive(Clone, Debug)]
pub struct Board {
    current_turn: Color,
    squares: Vec<Square>,
}

impl Board {
    /// Well-formedness: the grid holds exactly 64 squares.
    pub closed spec fn wf(self) -> bool {
        self.squares@.len() == 64
    }

    /// The piece (if any) on the square at (x, y).
    pub closed spec fn spec_piece_at(self, x: int, y: int) -> Option<Piece> {
        self.squares@[x * 8 + y].piece
    }

    /// Whose move it nominally is. Never consulted by move generation.
    pub closed spec fn spec_turn(self) -> Color {
        self.current_turn
    }

    /// Read access to the square at (x, y). Coordinate validity is an
    /// explicit precondition; there is no bounds check at this layer.
    pub fn get_square(&self, x: isize, y: isize) -> (r: &Square)
        requires
            self.wf(),
            on_board(x as int, y as int),
        ensures
            r.piece == self.spec_piece_at(x as int, y as int),
    {
        &self.squares[(x as usize) * 8 + (y as usize)]
    }

    fn set_square(&mut self, x: isize, y: isize, square: Square)
        requires
            old(self).wf(),
            on_board(x as int, y as int),
        ensures
            final(self).wf(),
            final(self).spec_turn() == old(self).spec_turn(),
            final(self).spec_piece_at(x as int, y as int) == square.piece,
            forall|i: int, j: int|
                on_board(i, j) && !(i == x as int && j == y as int) ==> (#[trigger] final(self).spec_piece_at(i, j)) == old(self).spec_piece_at(i, j),
    {
        self.squares[(x as usize) * 8 + (y as usize)] = square;
        proof {
            assert forall|i: int, j: int|
                on_board(i, j) && !(i == x as int && j == y as int)
                    implies final(self).spec_piece_at(i, j) == old(self).spec_piece_at(i, j) by {
                assert(i * 8 + j != x as int * 8 + y as int);
            }
        }
    }

    fn get_piece(&self, x: isize, y: isize) -> (r: Option<Piece>)
        requires
            self.wf(),
            on_board(x as int, y as int),
        ensures
            r == self.spec_piece_at(x as int, y as int),
    {
        self.get_square(x, y).piece
    }

    fn set_piece(&mut self, x: isize, y: isize, piece: Piece)
        requires
            old(self).wf(),
            on_board(x as int, y as int),
        ensures
            final(self).wf(),
            final(self).spec_turn() == old(self).spec_turn(),
            final(self).spec_piece_at(x as int, y as int) == Some(piece),
            forall|i: int, j: int|
                on_board(i, j) && !(i == x as int && j == y as int) ==> (#[trigger] final(self).spec_piece_at(i, j)) == old(self).spec_piece_at(i, j),
    {
        let mut square = *self.get_square(x, y);
        square.piece = Some(piece);
        self.set_square(x, y, square);
    }

    fn remove_piece(&mut self, x: isize, y: isize)
        requires
            old(self).wf(),
            on_board(x as int, y as int),
        ensures
            final(self).wf(),
            final(self).spec_turn() == old(self).spec_turn(),
            final(self).spec_piece_at(x as int, y as int) is None,
            forall|i: int, j: int|
                on_board(i, j) && !(i == x as int && j == y as int) ==> (#[trigger] final(self).spec_piece_at(i, j)) == old(self).spec_piece_at(i, j),
    {
        let mut square = *self.get_square(x, y);
        square.piece = None;
        self.set_square(x, y, square);
    }

    /// Relocates whatever piece occupies the source square to the
    /// destination, overwriting any occupant there (capture is implicit
    /// overwrite) and clearing the source. An empty source square is
    /// reported as `IllegalMove` and leaves the board untouched. No
    /// legality check happens at this layer.
    pub fn move_piece(&mut self, x1: isize, y1: isize, x2: isize, y2: isize) -> (r: Result<
        (),
        IllegalMove,
    >)
        requires
            old(self).wf(),
            on_board(x1 as int, y1 as int),
            on_board(x2 as int, y2 as int),
        ensures
            final(self).wf(),
            final(self).spec_turn() == old(self).spec_turn(),
            old(self).spec_piece_at(x1 as int, y1 as int) is None ==> r == Err::<
                (),
                IllegalMove,
            >(IllegalMove) && *final(self) == *old(self),
            old(self).spec_piece_at(x1 as int, y1 as int) is Some ==> {
                &&& r is Ok
                &&& final(self).spec_piece_at(x2 as int, y2 as int) == old(self).spec_piece_at(
                    x1 as int,
                    y1 as int,
                )
                &&& !(x1 == x2 && y1 == y2) ==> final(self).spec_piece_at(
                    x1 as int,
                    y1 as int,
                ) is None
                &&& forall|i: int, j: int|
                    on_board(i, j) && !(i == x1 as int && j == y1 as int) && !(i == x2 as int && j
                        == y2 as int) ==> (#[trigger] final(self).spec_piece_at(i, j)) == old(
                        self,
                    ).spec_piece_at(i, j)
            },
    {
        let piece = self.get_piece(x1, y1);
        match piece {
            None => Err(IllegalMove),
            Some(p) => {
                self.remove_piece(x1, y1);
                self.set_piece(x2, y2, p);
                Ok(())
            },
        }
    }
}

/// Appends the FEN letter of `p` to `fen`.
fn push_piece_char(fen: &mut String, p: Piece)
    ensures
        final(fen)@ == old(fen)@.push(spec_piece_char(p)),
{
    match p.piece_type {
        PieceType::Pawn => {
            if p.color == Color::White {
                fen.append("P");
                proof {
                    reveal_strlit("P");
                    assert(fen@ =~= old(fen)@.push(spec_piece_char(p)));
                }
            } else {
                fen.append("p");
                proof {
                    reveal_strlit("p");
                    assert(fen@ =~= old(fen)@.push(spec_piece_char(p)));
                }
            }
        },
        PieceType::Knight => {
            if p.color == Color::White {
                fen.append("N");
                proof {
                    reveal_strlit("N");
                    assert(fen@ =~= old(fen)@.push(spec_piece_char(p)));
                }
            } else {
                fen.append("n");
                proof {
                    reveal_strlit("n");
                    assert(fen@ =~= old(fen)@.push(spec_piece_char(p)));
                }
            }
        },
        PieceType::Bishop => {
            if p.color == Color::White {
                fen.append("B");
                proof {
                    reveal_strlit("B");
                    assert(fen@ =~= old(fen)@.push(spec_piece_char(p)));
                }
            } else {
                fen.append("b");
                proof {
                    reveal_strlit("b");
                    assert(fen@ =~= old(fen)@.push(spec_piece_char(p)));
                }
            }
        },
        PieceType::Rook => {
            if p.color == Color::White {
                fen.append("R");
                proof {
                    reveal_strlit("R");
                    assert(fen@ =~= old(fen)@.push(spec_piece_char(p)));
                }
            } else {
                fen.append("r");
                proof {
                    reveal_strlit("r");
                    assert(fen@ =~= old(fen)@.push(spec_piece_char(p)));
                }
            }
        },
        PieceType::Queen => {
            if p.color == Color::White {
                fen.append("Q");
                proof {
                    reveal_strlit("Q");
                    assert(fen@ =~= old(fen)@.push(spec_piece_char(p)));
                }
            } else {
                fen.append("q");
                proof {
                    reveal_strlit("q");
                    assert(fen@ =~= old(fen)@.push(spec_piece_char(p)));
                }
            }
        },
        PieceType::King => {
            if p.color == Color::White {
                fen.append("K");
                proof {
                    reveal_strlit("K");
                    assert(fen@ =~= old(fen)@.push(spec_piece_char(p)));
                }
            } else {
                fen.append("k");
                proof {
                    reveal_strlit("k");
                    assert(fen@ =~= old(fen)@.push(spec_piece_char(p)));
                }
            }
        },
    }
}

/// Appends the digit for a run of `n` empty squares to `fen`.
fn push_digit_char(fen: &mut String, n: usize)
    requires
        1 <= n <= 8,
    ensures
        final(fen)@ == old(fen)@.push(spec_digit_char(n as int)),
{
    if n == 1 {
        fen.append("1");
        proof {
            reveal_strlit("1");
            assert(fen@ =~= old(fen)@.push(spec_digit_char(n as int)));
        }
    } else if n == 2 {
        fen.append("2");
        proof {
            reveal_strlit("2");
            assert(fen@ =~= old(fen)@.push(spec_digit_char(n as int)));
        }
    } else if n == 3 {
        fen.append("3");
        proof {
            reveal_strlit("3");
            assert(fen@ =~= old(fen)@.push(spec_digit_char(n as int)));
        }
    } else if n == 4 {
        fen.append("4");
        proof {
            reveal_strlit("4");
            assert(fen@ =~= old(fen)@.push(spec_digit_char(n as int)));
        }
    } else if n == 5 {
        fen.append("5");
        proof {
            reveal_strlit("5");
            assert(fen@ =~= old(fen)@.push(spec_digit_char(n as int)));
        }
    } else if n == 6 {
        fen.append("6");
        proof {
            reveal_strlit("6");
            assert(fen@ =~= old(fen)@.push(spec_digit_char(n as int)));
        }
    } else if n == 7 {
        fen.append("7");
        proof {
            reveal_strlit("7");
            assert(fen@ =~= old(fen)@.push(spec_digit_char(n as int)));
        }
    } else {
        fen.append("8");
        proof {
            reveal_strlit("8");
            assert(fen@ =~= old(fen)@.push(spec_digit_char(n as int)));
        }
    }
}

/// The FEN letter of a piece: standard algebraic letters, uppercase
/// for White, lowercase for Black.
pub open spec fn spec_piece_char(p: Piece) -> char {
    match p.piece_type {
        PieceType::Pawn => if p.color is White {
            'P'
        } else {
            'p'
        },
        PieceType::Knight => if p.color is White {
            'N'
        } else {
            'n'
        },
        PieceType::Bishop => if p.color is White {
            'B'
        } else {
            'b'
        },
        PieceType::Rook => if p.color is White {
            'R'
        } else {
            'r'
        },
        PieceType::Queen => if p.color is White {
            'Q'
        } else {
            'q'
        },
        PieceType::King => if p.color is White {
            'K'
        } else {
            'k'
        },
    }
}

/// The decimal digit for a run of 1 to 8 empty squares.
pub open spec fn spec_digit_char(n: int) -> char {
    if n == 1 {
        '1'
    } else if n == 2 {
        '2'
    } else if n == 3 {
        '3'
    } else if n == 4 {
        '4'
    } else if n == 5 {
        '5'
    } else if n == 6 {
        '6'
    } else if n == 7 {
        '7'
    } else {
        '8'
    }
}

/// The FEN text of rank `y` from file `x` rightward, with `empty`
/// not-yet-flushed empty squares pending to its left: runs of empty
/// squares collapse to one digit, emitted just before the next piece
/// letter or at the end of the rank.
pub open spec fn spec_rank_fen_from(b: Board, y: int, x: int, empty: int) -> Seq<char>
    decreases 8 - x,
{
    if x >= 8 {
        if empty > 0 {
            seq![spec_digit_char(empty)]
        } else {
            Seq::<char>::empty()
        }
    } else {
        match b.spec_piece_at(x, y) {
            Some(p) => (if empty > 0 {
                seq![spec_digit_char(empty)]
            } else {
                Seq::<char>::empty()
            }) + seq![spec_piece_char(p)] + spec_rank_fen_from(b, y, x + 1, 0),
            None => spec_rank_fen_from(b, y, x + 1, empty + 1),
        }
    }
}

/// The placement field from rank `y` down to rank 1 (bottom), ranks
/// separated by `/`.
pub open spec fn spec_placement_fen(b: Board, y: int) -> Seq<char>
    decreases y + 1,
{
    if y < 0 {
        Seq::<char>::empty()
    } else {
        spec_rank_fen_from(b, y, 0, 0) + (if y > 0 {
            seq!['/']
        } else {
            Seq::<char>::empty()
        }) + spec_placement_fen(b, y - 1)
    }
}

/// The side-to-move character.
pub open spec fn spec_side_char(c: Color) -> char {
    if c is White {
        'w'
    } else {
        'b'
    }
}

/// The full serialized form: placement for ranks 8 down to 1, a space,
/// and the side to move. No other FEN fields are represented.
pub open spec fn spec_fen(b: Board) -> Seq<char> {
    spec_placement_fen(b, 7) + seq![' ', spec_side_char(b.spec_turn())]
}

impl Board {
    /// Serializes the board: ranks 8 down to 1 (top to bottom), each
    /// rank left to right, runs of empty squares collapsed to a decimal
    /// digit, ranks separated by `/`, then a single space and the
    /// side-to-move character.
    pub fn to_fen_string(&self) -> (r: String)
        requires
            self.wf(),
        ensures
            r@ == spec_fen(*self),
    {
        let ghost b = *self;
        let mut fen = String::new();
        let mut yy: usize = 8;
        proof {
            assert(fen@ + spec_placement_fen(b, 7) =~= spec_placement_fen(b, 7));
        }
        while yy > 0
            invariant
                self.wf(),
                b == *self,
                yy <= 8,
                fen@ + spec_placement_fen(b, yy as int - 1) == spec_placement_fen(b, 7),
            decreases yy,
        {
            let y = yy - 1;
            let ghost yi = y as int;
            let mut x: usize = 0;
            let mut empty: usize = 0;
            proof {
                assert(fen@ + spec_rank_fen_from(b, yi, 0, 0) + (if yi > 0 {
                    seq!['/']
                } else {
                    Seq::<char>::empty()
                }) + spec_placement_fen(b, yi - 1) =~= fen@ + spec_placement_fen(b, yi));
            }
            while x < 8
                invariant
                    self.wf(),
                    b == *self,
                    yi == y as int,
                    0 <= yi <= 7,
                    x <= 8,
                    empty <= x,
                    fen@ + spec_rank_fen_from(b, yi, x as int, empty as int) + (if yi > 0 {
                        seq!['/']
                    } else {
                        Seq::<char>::empty()
                    }) + spec_placement_fen(b, yi - 1) == spec_placement_fen(b, 7),
                decreases 8 - x,
            {
                let ghost pre = fen@;
                match self.get_piece(x as isize, y as isize) {
                    Some(piece) => {
                        if empty > 0 {
                            push_digit_char(&mut fen, empty);
                        }
                        push_piece_char(&mut fen, piece);
                        proof {
                            assert(fen@ + spec_rank_fen_from(b, yi, x as int + 1, 0) =~= pre
                                + spec_rank_fen_from(b, yi, x as int, empty as int));
                        }
                        empty = 0;
                    },
                    None => {
                        empty = empty + 1;
                    },
                }
                x = x + 1;
            }
            if empty > 0 {
                let ghost pre = fen@;
                push_digit_char(&mut fen, empty);
                proof {
                    assert(fen@ =~= pre + spec_rank_fen_from(b, yi, 8, empty as int));
                }
            }
            if y > 0 {
                let ghost pre = fen@;
                fen.append("/");
                proof {
                    reveal_strlit("/");
                    assert(fen@ =~= pre + (if yi > 0 {
                        seq!['/']
                    } else {
                        Seq::<char>::empty()
                    }));
                }
            }
            yy = y;
        }
        proof {
            assert(fen@ + spec_placement_fen(b, -1) =~= fen@);
        }
        fen.append(" ");
        match self.current_turn {
            Color::White => fen.append("w"),
            Color::Black => fen.append("b"),
        }
        proof {
            reveal_strlit(" ");
            reveal_strlit("w");
            reveal_strlit("b");
            assert(fen@ =~= spec_fen(b));
        }
        fen
    }
}

/// The piece kind on the back rank at file `x` in the standard
/// starting position.
pub open spec fn spec_back_rank(x: int) -> PieceType {
    if x == 0 || x == 7 {
        PieceType::Rook
    } else if x == 1 || x == 6 {
        PieceType::Knight
    } else if x == 2 || x == 5 {
        PieceType::Bishop
    } else if x == 3 {
        PieceType::Queen
    } else {
        PieceType::King
    }
}

/// The occupant of (x, y) in the standard starting position: White's
/// back rank on rank index 0 and pawns on 1, Black's pawns on 6 and
/// back rank on 7, everything between empty.
pub open spec fn spec_start_piece(x: int, y: int) -> Option<Piece> {
    if y == 0 {
        Some(Piece { piece_type: spec_back_rank(x), color: Color::White })
    } else if y == 1 {
        Some(Piece { piece_type: PieceType::Pawn, color: Color::White })
    } else if y == 6 {
        Some(Piece { piece_type: PieceType::Pawn, color: Color::Black })
    } else if y == 7 {
        Some(Piece { piece_type: spec_back_rank(x), color: Color::Black })
    } else {
        None
    }
}

fn start_piece(x: usize, y: usize) -> (r: Option<Piece>)
    requires
        x < 8,
        y < 8,
    ensures
        r == spec_start_piece(x as int, y as int),
{
    let color = if y <= 1 {
        Color::White
    } else {
        Color::Black
    };
    if y == 0 || y == 7 {
        let piece_type = if x == 0 || x == 7 {
            PieceType::Rook
        } else if x == 1 || x == 6 {
            PieceType::Knight
        } else if x == 2 || x == 5 {
            PieceType::Bishop
        } else if x == 3 {
            PieceType::Queen
        } else {
            PieceType::King
        };
        Some(Piece { piece_type, color })
    } else if y == 1 || y == 6 {
        Some(Piece { piece_type: PieceType::Pawn, color })
    } else {
        None
    }
}

impl Board {
    /// The standard starting position, White to move.
    pub fn construct_board() -> (b: Board)
        ensures
            b.wf(),
            b.spec_turn() == Color::White,
            forall|x: int, y: int|
                on_board(x, y) ==> (#[trigger] b.spec_piece_at(x, y)) == spec_start_piece(x, y),
    {
        let mut squares: Vec<Square> = Vec::new();
        let mut x: usize = 0;
        while x < 8
            invariant
                x <= 8,
                squares@.len() == x * 8,
                forall|i: int, j: int|
                    0 <= i < x as int && 0 <= j < 8 ==> squares@[i * 8 + j] == (Square {
                        piece: spec_start_piece(i, j),
                    }),
            decreases 8 - x,
        {
            let mut y: usize = 0;
            while y < 8
                invariant
                    x < 8,
                    y <= 8,
                    squares@.len() == x * 8 + y,
                    forall|i: int, j: int|
                        0 <= i < x as int && 0 <= j < 8 ==> squares@[i * 8 + j] == (Square {
                            piece: spec_start_piece(i, j),
                        }),
                    forall|j: int|
                        0 <= j < y as int ==> squares@[x as int * 8 + j] == (Square {
                            piece: spec_start_piece(x as int, j),
                        }),
                decreases 8 - y,
            {
                squares.push(Square { piece: start_piece(x, y) });
                y = y + 1;
            }
            x = x + 1;
        }
        let board = Board { current_turn: Color::White, squares };
        proof {
            assert forall|x: int, y: int| on_board(x, y) implies board.spec_piece_at(x, y)
                == spec_start_piece(x, y) by {
            }
        }
        board
    }
}

/// The piece a FEN placement letter stands for, or None for any other
/// character.
pub open spec fn spec_letter_piece(c: char) -> Option<Piece> {
    if c == 'P' {
        Some(Piece { piece_type: PieceType::Pawn, color: Color::White })
    } else if c == 'N' {
        Some(Piece { piece_type: PieceType::Knight, color: Color::White })
    } else if c == 'B' {
        Some(Piece { piece_type: PieceType::Bishop, color: Color::White })
    } else if c == 'R' {
        Some(Piece { piece_type: PieceType::Rook, color: Color::White })
    } else if c == 'Q' {
        Some(Piece { piece_type: PieceType::Queen, color: Color::White })
    } else if c == 'K' {
        Some(Piece { piece_type: PieceType::King, color: Color::White })
    } else if c == 'p' {
        Some(Piece { piece_type: PieceType::Pawn, color: Color::Black })
    } else if c == 'n' {
        Some(Piece { piece_type: PieceType::Knight, color: Color::Black })
    } else if c == 'b' {
        Some(Piece { piece_type: PieceType::Bishop, color: Color::Black })
    } else if c == 'r' {
        Some(Piece { piece_type: PieceType::Rook, color: Color::Black })
    } else if c == 'q' {
        Some(Piece { piece_type: PieceType::Queen, color: Color::Black })
    } else if c == 'k' {
        Some(Piece { piece_type: PieceType::King, color: Color::Black })
    } else {
        None
    }
}

/// The value of a FEN empty-run digit, 1 through 8.
pub open spec fn spec_digit_val(c: char) -> Option<int> {
    if c == '1' {
        Some(1)
    } else if c == '2' {
        Some(2)
    } else if c == '3' {
        Some(3)
    } else if c == '4' {
        Some(4)
    } else if c == '5' {
        Some(5)
    } else if c == '6' {
        Some(6)
    } else if c == '7' {
        Some(7)
    } else if c == '8' {
        Some(8)
    } else {
        None
    }
}

/// A 64-square grid with every square empty.
pub open spec fn spec_empty64() -> Seq<Square> {
    Seq::new(64, |i: int| Square { piece: None })
}

/// Runs the placement-field walk over `s` from parser state (x, y, sq):
/// a piece letter places at the current square and advances x, a digit
/// advances x by its value, `/` resets x and moves one rank down, and
/// any other character is silently ignored. Walking off the 8x8 grid is
/// the error case (None). Returns the final state on success.
pub open spec fn spec_run_placement(s: Seq<char>, x: int, y: int, sq: Seq<Square>) -> Option<
    (int, int, Seq<Square>),
>
    decreases s.len(),
{
    if s.len() == 0 {
        Some((x, y, sq))
    } else {
        let c = s[0];
        let rest = s.subrange(1, s.len() as int);
        if spec_letter_piece(c) is Some {
            if !on_board(x, y) {
                None
            } else {
                spec_run_placement(
                    rest,
                    x + 1,
                    y,
                    sq.update(x * 8 + y, Square { piece: spec_letter_piece(c) }),
                )
            }
        } else if c == '/' {
            if y <= 0 {
                None
            } else {
                spec_run_placement(rest, 0, y - 1, sq)
            }
        } else if spec_digit_val(c) is Some {
            if x + spec_digit_val(c).unwrap() > 8 {
                None
            } else {
                spec_run_placement(rest, x + spec_digit_val(c).unwrap(), y, sq)
            }
        } else {
            spec_run_placement(rest, x, y, sq)
        }
    }
}

/// The index of the first space at or after `i`, or the length when
/// there is none.
pub open spec fn spec_first_space(s: Seq<char>, i: int) -> int
    decreases s.len() - i,
{
    if i >= s.len() {
        s.len() as int
    } else if s[i] == ' ' {
        i
    } else {
        spec_first_space(s, i + 1)
    }
}

/// What parsing a FEN string yields: the grid contents and the side to
/// move, or the first applicable error. The placement field is the text
/// before the first space, the side token the text between the first
/// space and the next one (or the end); text after a second space is
/// ignored. The side token is checked before the placement field is
/// walked, as the errors' precedence.
pub open spec fn spec_parse_fen(s: Seq<char>) -> Result<(Seq<Square>, Color), ParseError> {
    let p1 = spec_first_space(s, 0);
    if p1 >= s.len() {
        Err(ParseError::MissingField)
    } else {
        let side = s.subrange(p1 + 1, spec_first_space(s, p1 + 1));
        if side == seq!['w'] || side == seq!['b'] {
            let color = if side == seq!['w'] {
                Color::White
            } else {
                Color::Black
            };
            match spec_run_placement(s.subrange(0, p1), 0, 7, spec_empty64()) {
                Some(st) => Ok((st.2, color)),
                None => Err(ParseError::PlacementOverflow),
            }
        } else {
            Err(ParseError::InvalidSideToken)
        }
    }
}

fn letter_piece(c: char) -> (r: Option<Piece>)
    ensures
        r == spec_letter_piece(c),
{
    match c {
        'P' => Some(Piece::new(Color::White, PieceType::Pawn)),
        'N' => Some(Piece::new(Color::White, PieceType::Knight)),
        'B' => Some(Piece::new(Color::White, PieceType::Bishop)),
        'R' => Some(Piece::new(Color::White, PieceType::Rook)),
        'Q' => Some(Piece::new(Color::White, PieceType::Queen)),
        'K' => Some(Piece::new(Color::White, PieceType::King)),
        'p' => Some(Piece::new(Color::Black, PieceType::Pawn)),
        'n' => Some(Piece::new(Color::Black, PieceType::Knight)),
        'b' => Some(Piece::new(Color::Black, PieceType::Bishop)),
        'r' => Some(Piece::new(Color::Black, PieceType::Rook)),
        'q' => Some(Piece::new(Color::Black, PieceType::Queen)),
        'k' => Some(Piece::new(Color::Black, PieceType::King)),
        _ => None,
    }
}

fn digit_val(c: char) -> (r: Option<usize>)
    ensures
        match r {
            Some(d) => spec_digit_val(c) == Some(d as int),
            None => spec_digit_val(c) is None,
        },
{
    match c {
        '1' => Some(1),
        '2' => Some(2),
        '3' => Some(3),
        '4' => Some(4),
        '5' => Some(5),
        '6' => Some(6),
        '7' => Some(7),
        '8' => Some(8),
        _ => None,
    }
}

fn find_space(s: &str, start: usize) -> (r: usize)
    requires
        start as int <= s@.len(),
    ensures
        start <= r <= s@.len(),
        r as int == spec_first_space(s@, start as int),
{
    let n = s.unicode_len();
    let mut i: usize = start;
    while i < n
        invariant
            start <= i <= n,
            n == s@.len(),
            spec_first_space(s@, start as int) == spec_first_space(s@, i as int),
        decreases n - i,
    {
        if s.get_char(i) == ' ' {
            return i;
        }
        i = i + 1;
    }
    i
}

impl Board {
    /// Parses a FEN string (placement and side to move): splits at the
    /// first space, reads the side token (`w` or `b`), then walks the
    /// placement field from the top-left of the diagram, file 0 of rank
    /// 7. Every malformed input is reported as a structured error:
    /// a missing side field, an unrecognized side token, or a placement
    /// walking off the grid. Unrecognized placement characters are
    /// ignored, not rejected.
    #[verifier::loop_isolation(false)]
    pub fn board_from_fen_string(fen: String) -> (r: Result<Board, ParseError>)
        ensures
            spec_parse_fen(fen@) matches Err(e) ==> r == Err::<Board, ParseError>(e),
            spec_parse_fen(fen@) matches Ok(st) ==> {
                &&& r matches Ok(b)
                &&& b.wf()
                &&& b.spec_turn() == st.1
                &&& forall|x: int, y: int|
                    on_board(x, y) ==> (#[trigger] b.spec_piece_at(x, y)) == st.0[x * 8 + y].piece
            },
    {
        let s = fen.as_str();
        let n = s.unicode_len();
        let p1 = find_space(s, 0);
        if p1 == n {
            return Err(ParseError::MissingField);
        }
        let p2 = find_space(s, p1 + 1);
        let ghost side = fen@.subrange(p1 as int + 1, p2 as int);
        let current_turn: Color;
        if p2 - p1 == 2 && s.get_char(p1 + 1) == 'w' {
            proof {
                assert(side =~= seq!['w']);
            }
            current_turn = Color::White;
        } else if p2 - p1 == 2 && s.get_char(p1 + 1) == 'b' {
            proof {
                assert(side =~= seq!['b']);
                assert(seq!['b'][0] == 'b' && seq!['w'][0] == 'w');
                assert(side != seq!['w']);
            }
            current_turn = Color::Black;
        } else {
            proof {
                assert(seq!['w'].len() == 1 && seq!['w'][0] == 'w');
                assert(seq!['b'].len() == 1 && seq!['b'][0] == 'b');
                assert(side.len() == p2 - (p1 + 1));
                if p2 - p1 == 2 {
                    assert(side[0] == fen@[p1 as int + 1]);
                }
                assert(side != seq!['w'] && side != seq!['b']);
            }
            return Err(ParseError::InvalidSideToken);
        }
        let mut squares: Vec<Square> = Vec::new();
        let mut k: usize = 0;
        while k < 64
            invariant
                squares@.len() == k,
                k <= 64,
                forall|j: int| 0 <= j < k as int ==> squares@[j] == (Square { piece: None }),
            decreases 64 - k,
        {
            squares.push(Square { piece: None });
            k = k + 1;
        }
        proof {
            assert(squares@ =~= spec_empty64());
        }
        let ghost pl = fen@.subrange(0, p1 as int);
        proof {
            assert(pl.subrange(0, p1 as int) =~= pl);
        }
        let mut x: usize = 0;
        let mut y: usize = 7;
        let mut i: usize = 0;
        while i < p1
            invariant
                i <= p1,
                p1 < n,
                n == fen@.len(),
                fen@ == s@,
                pl == fen@.subrange(0, p1 as int),
                x <= 8,
                y <= 7,
                squares@.len() == 64,
                spec_run_placement(
                    pl.subrange(i as int, p1 as int),
                    x as int,
                    y as int,
                    squares@,
                ) == spec_run_placement(pl, 0, 7, spec_empty64()),
            decreases p1 - i,
        {
            let c = s.get_char(i);
            proof {
                assert(pl.subrange(i as int, p1 as int)[0] == c);
                assert(pl.subrange(i as int, p1 as int).subrange(
                    1,
                    pl.subrange(i as int, p1 as int).len() as int,
                ) =~= pl.subrange(i as int + 1, p1 as int));
            }
            match letter_piece(c) {
                Some(piece) => {
                    if x >= 8 {
                        return Err(ParseError::PlacementOverflow);
                    }
                    squares[x * 8 + y] = Square { piece: Some(piece) };
                    x = x + 1;
                },
                None => {
                    if c == '/' {
                        if y == 0 {
                            return Err(ParseError::PlacementOverflow);
                        }
                        x = 0;
                        y = y - 1;
                    } else {
                        match digit_val(c) {
                            Some(d) => {
                                if x + d > 8 {
                                    return Err(ParseError::PlacementOverflow);
                                }
                                x = x + d;
                            },
                            None => {},
                        }
                    }
                },
            }
            i = i + 1;
        }
        proof {
            assert(pl.subrange(p1 as int, p1 as int) =~= Seq::<char>::empty());
        }
        Ok(Board { current_turn, squares })
    }
}

/// No character of `s` is a space.
spec fn no_space(s: Seq<char>) -> bool {
    forall|k: int| 0 <= k < s.len() ==> s[k] != ' '
}

/// The placement walk treats a concatenation as the first part followed
/// by the second, continued from wherever the first part left off.
proof fn lemma_run_placement_concat(a: Seq<char>, b: Seq<char>, x: int, y: int, sq: Seq<Square>)
    ensures
        spec_run_placement(a + b, x, y, sq) == (match spec_run_placement(a, x, y, sq) {
            Some(st) => spec_run_placement(b, st.0, st.1, st.2),
            None => None,
        }),
    decreases a.len(),
{
    if a.len() == 0 {
        assert(a + b =~= b);
    } else {
        let s = a + b;
        let c = a[0];
        let arest = a.subrange(1, a.len() as int);
        assert(s[0] == c);
        assert(s.subrange(1, s.len() as int) =~= arest + b);
        if spec_letter_piece(c) is Some {
            if on_board(x, y) {
                lemma_run_placement_concat(
                    arest,
                    b,
                    x + 1,
                    y,
                    sq.update(x * 8 + y, Square { piece: spec_letter_piece(c) }),
                );
            }
        } else if c == '/' {
            if y > 0 {
                lemma_run_placement_concat(arest, b, 0, y - 1, sq);
            }
        } else if spec_digit_val(c) is Some {
            if x + spec_digit_val(c).unwrap() <= 8 {
                lemma_run_placement_concat(arest, b, x + spec_digit_val(c).unwrap(), y, sq);
            }
        } else {
            lemma_run_placement_concat(arest, b, x, y, sq);
        }
    }
}

proof fn lemma_rank_fen_no_space(b: Board, y: int, x: int, e: int)
    ensures
        no_space(spec_rank_fen_from(b, y, x, e)),
    decreases 8 - x,
{
    if x < 8 {
        match b.spec_piece_at(x, y) {
            Some(p) => {
                lemma_rank_fen_no_space(b, y, x + 1, 0);
            },
            None => {
                lemma_rank_fen_no_space(b, y, x + 1, e + 1);
            },
        }
    }
}

proof fn lemma_placement_fen_no_space(b: Board, y: int)
    ensures
        no_space(spec_placement_fen(b, y)),
    decreases y + 1,
{
    if y >= 0 {
        lemma_rank_fen_no_space(b, y, 0, 0);
        lemma_placement_fen_no_space(b, y - 1);
    }
}

/// The first space of `p + " " + rest`, sought from anywhere inside
/// the space-free prefix `p`, is the one right after `p`.
proof fn lemma_first_space_concat(p: Seq<char>, rest: Seq<char>, i: int)
    requires
        no_space(p),
        0 <= i <= p.len(),
    ensures
        spec_first_space(p + seq![' '] + rest, i) == p.len(),
    decreases p.len() - i,
{
    let s = p + seq![' '] + rest;
    if i < p.len() {
        assert(s[i] == p[i]);
        lemma_first_space_concat(p, rest, i + 1);
    } else {
        assert(s[i] == ' ');
    }
}

/// The grid after writing rank `y`'s occupants from file `x` rightward.
spec fn spec_write_rank(sq: Seq<Square>, b: Board, y: int, x: int) -> Seq<Square>
    decreases 8 - x,
{
    if x >= 8 {
        sq
    } else {
        let sq2 = if b.spec_piece_at(x, y) is Some {
            sq.update(x * 8 + y, Square { piece: b.spec_piece_at(x, y) })
        } else {
            sq
        };
        spec_write_rank(sq2, b, y, x + 1)
    }
}

/// The grid after writing ranks `y` down to 0.
spec fn spec_write_ranks(sq: Seq<Square>, b: Board, y: int) -> Seq<Square>
    decreases y + 1,
{
    if y < 0 {
        sq
    } else {
        spec_write_ranks(spec_write_rank(sq, b, y, 0), b, y - 1)
    }
}

proof fn lemma_run_empty(x: int, y: int, sq: Seq<Square>)
    ensures
        spec_run_placement(Seq::<char>::empty(), x, y, sq) == Some((x, y, sq)),
{
}

/// Walking the FEN text of one rank re-places exactly that rank's
/// pieces and leaves the parser at the rank's right edge.
proof fn lemma_parse_rank(b: Board, y: int, x: int, e: int, sq: Seq<Square>)
    requires
        0 <= y <= 7,
        0 <= e <= x <= 8,
        forall|f: int| x - e <= f < x ==> b.spec_piece_at(f, y) is None,
    ensures
        spec_run_placement(spec_rank_fen_from(b, y, x, e), x - e, y, sq) == Some(
            (8int, y, spec_write_rank(sq, b, y, x)),
        ),
    decreases 8 - x,
{
    let chars = spec_rank_fen_from(b, y, x, e);
    if x >= 8 {
        if e > 0 {
            assert(chars[0] == spec_digit_char(e));
            assert(spec_letter_piece(spec_digit_char(e)) is None);
            assert(spec_digit_char(e) != '/');
            assert(spec_digit_val(spec_digit_char(e)) == Some(e));
            assert(chars.subrange(1, chars.len() as int) =~= Seq::<char>::empty());
            lemma_run_empty(x, y, sq);
        }
    } else {
        match b.spec_piece_at(x, y) {
            Some(p) => {
                let d: Seq<char> = if e > 0 {
                    seq![spec_digit_char(e)]
                } else {
                    Seq::<char>::empty()
                };
                let letter = seq![spec_piece_char(p)];
                let tail = spec_rank_fen_from(b, y, x + 1, 0);
                assert(chars =~= d + (letter + tail));
                lemma_run_placement_concat(d, letter + tail, x - e, y, sq);
                if e > 0 {
                    assert(d[0] == spec_digit_char(e));
                    assert(spec_letter_piece(spec_digit_char(e)) is None);
                    assert(spec_digit_char(e) != '/');
                    assert(spec_digit_val(spec_digit_char(e)) == Some(e));
                    assert(d.subrange(1, d.len() as int) =~= Seq::<char>::empty());
                }
                lemma_run_empty(x, y, sq);
                assert(spec_run_placement(d, x - e, y, sq) == Some((x, y, sq)));
                lemma_run_placement_concat(letter, tail, x, y, sq);
                assert(letter.subrange(1, letter.len() as int) =~= Seq::<char>::empty());
                let sq2 = sq.update(x * 8 + y, Square { piece: Some(p) });
                assert(spec_letter_piece(spec_piece_char(p)) == Some(p));
                lemma_run_empty(x + 1, y, sq2);
                assert(spec_run_placement(letter, x, y, sq) == Some((x + 1, y, sq2)));
                lemma_parse_rank(b, y, x + 1, 0, sq2);
            },
            None => {
                lemma_parse_rank(b, y, x + 1, e + 1, sq);
            },
        }
    }
}

/// Walking the whole placement text from the top rank re-places every
/// rank.
proof fn lemma_parse_placement(b: Board, y: int, sq: Seq<Square>)
    requires
        0 <= y <= 7,
    ensures
        spec_run_placement(spec_placement_fen(b, y), 0, y, sq) == Some(
            (8int, 0int, spec_write_ranks(sq, b, y)),
        ),
    decreases y,
{
    let rank = spec_rank_fen_from(b, y, 0, 0);
    let wr = spec_write_rank(sq, b, y, 0);
    lemma_parse_rank(b, y, 0, 0, sq);
    if y > 0 {
        let tail = spec_placement_fen(b, y - 1);
        assert(spec_placement_fen(b, y) =~= rank + (seq!['/'] + tail));
        lemma_run_placement_concat(rank, seq!['/'] + tail, 0, y, sq);
        lemma_run_placement_concat(seq!['/'], tail, 8, y, wr);
        assert(seq!['/'][0] == '/' && spec_letter_piece('/') is None);
        assert(seq!['/'].subrange(1, 1) =~= Seq::<char>::empty());
        lemma_run_empty(0, y - 1, wr);
        assert(spec_run_placement(seq!['/'], 8, y, wr) == Some((0int, y - 1, wr)));
        lemma_parse_placement(b, y - 1, wr);
        assert(spec_write_ranks(sq, b, y) == spec_write_ranks(wr, b, y - 1));
    } else {
        assert(spec_placement_fen(b, -1) == Seq::<char>::empty());
        assert(spec_placement_fen(b, 0) =~= rank);
        assert(spec_write_ranks(wr, b, -1) == wr);
        assert(spec_write_ranks(sq, b, 0) == wr);
    }
}

/// Pointwise contents of a written rank.
proof fn lemma_write_rank_at(sq: Seq<Square>, b: Board, y: int, x: int)
    requires
        sq.len() == 64,
        0 <= y <= 7,
        0 <= x,
    ensures
        spec_write_rank(sq, b, y, x).len() == 64,
        forall|i: int, j: int|
            on_board(i, j) ==> spec_write_rank(sq, b, y, x)[i * 8 + j] == (if j == y && x <= i
                && b.spec_piece_at(i, y) is Some {
                Square { piece: b.spec_piece_at(i, y) }
            } else {
                sq[i * 8 + j]
            }),
    decreases 8 - x,
{
    if x < 8 {
        let sq2 = if b.spec_piece_at(x, y) is Some {
            sq.update(x * 8 + y, Square { piece: b.spec_piece_at(x, y) })
        } else {
            sq
        };
        lemma_write_rank_at(sq2, b, y, x + 1);
    }
}

/// Pointwise contents of the written ranks `y` down to 0.
proof fn lemma_write_ranks_at(sq: Seq<Square>, b: Board, y: int)
    requires
        sq.len() == 64,
        -1 <= y <= 7,
    ensures
        spec_write_ranks(sq, b, y).len() == 64,
        forall|i: int, j: int|
            on_board(i, j) ==> spec_write_ranks(sq, b, y)[i * 8 + j] == (if j <= y
                && b.spec_piece_at(i, j) is Some {
                Square { piece: b.spec_piece_at(i, j) }
            } else {
                sq[i * 8 + j]
            }),
    decreases y + 1,
{
    if y >= 0 {
        lemma_write_rank_at(sq, b, y, 0);
        lemma_write_ranks_at(spec_write_rank(sq, b, y, 0), b, y - 1);
    }
}

/// Round-trip law: parsing the serialized form of any well-formed
/// board succeeds and reproduces the same occupied-square contents and
/// the same side to move.
pub proof fn lemma_fen_round_trip(b: Board)
    requires
        b.wf(),
    ensures
        spec_parse_fen(spec_fen(b)) is Ok,
        spec_parse_fen(spec_fen(b)) matches Ok(st) ==> st.1 == b.spec_turn() && forall|
            x: int,
            y: int,
        |
            on_board(x, y) ==> st.0[x * 8 + y].piece == (#[trigger] b.spec_piece_at(x, y)),
{
    let p = spec_placement_fen(b, 7);
    let side = spec_side_char(b.spec_turn());
    let s = spec_fen(b);
    assert(s =~= p + seq![' '] + seq![side]);
    lemma_placement_fen_no_space(b, 7);
    lemma_first_space_concat(p, seq![side], 0);
    let p1 = spec_first_space(s, 0);
    assert(p1 == p.len());
    assert(s[p1 + 1] == side && side != ' ');
    assert(spec_first_space(s, p1 + 2) == s.len());
    assert(spec_first_space(s, p1 + 1) == s.len());
    let tok = s.subrange(p1 + 1, s.len() as int);
    assert(tok =~= seq![side]);
    assert(seq!['w'][0] == 'w' && seq!['b'][0] == 'b' && tok[0] == side);
    if b.spec_turn() is White {
        assert(tok == seq!['w']) by {
            assert(tok =~= seq!['w']);
        }
        assert(tok != seq!['b']);
    } else {
        assert(tok == seq!['b']) by {
            assert(tok =~= seq!['b']);
        }
        assert(tok != seq!['w']);
    }
    assert(s.subrange(0, p1) =~= p);
    lemma_parse_placement(b, 7, spec_empty64());
    lemma_write_ranks_at(spec_empty64(), b, 7);
}

/// The name of a side, as the textual dump announces it.
pub open spec fn spec_color_name(c: Color) -> Seq<char> {
    if c is White {
        "White"@
    } else {
        "Black"@
    }
}

/// The dump character of one square: the piece's FEN letter, or `-`
/// when empty.
pub open spec fn spec_square_char(op: Option<Piece>) -> char {
    match op {
        Some(p) => spec_piece_char(p),
        None => '-',
    }
}

/// The dump text of rank `y` from file `x` rightward, ending in a
/// newline.
pub open spec fn spec_display_rank_from(b: Board, y: int, x: int) -> Seq<char>
    decreases 8 - x,
{
    if x >= 8 {
        seq!['\n']
    } else {
        seq![spec_square_char(b.spec_piece_at(x, y))] + spec_display_rank_from(b, y, x + 1)
    }
}

/// The dump lines of ranks `y` down to 1.
pub open spec fn spec_display_ranks(b: Board, y: int) -> Seq<char>
    decreases y + 1,
{
    if y < 0 {
        Seq::<char>::empty()
    } else {
        spec_display_rank_from(b, y, 0) + spec_display_ranks(b, y - 1)
    }
}

/// The full diagnostic dump: whose turn it is, then 8 ranks, rank 8
/// first, one character per file. Not round-trippable.
pub open spec fn spec_board_display(b: Board) -> Seq<char> {
    spec_color_name(b.spec_turn()) + " to move\n"@ + spec_display_ranks(b, 7)
}

impl Color {
    /// The side's name as text.
    pub fn to_display_string(&self) -> (r: String)
        ensures
            r@ == spec_color_name(*self),
    {
        match self {
            Color::White => String::from_str("White"),
            Color::Black => String::from_str("Black"),
        }
    }
}

/// Appends the dump character of one square to `out`.
fn push_square_char(out: &mut String, op: Option<Piece>)
    ensures
        final(out)@ == old(out)@.push(spec_square_char(op)),
{
    match op {
        Some(p) => push_piece_char(out, p),
        None => {
            out.append("-");
            proof {
                reveal_strlit("-");
                assert(out@ =~= old(out)@.push(spec_square_char(op)));
            }
        },
    }
}

impl Board {
    /// The diagnostic dump as text: one line announcing whose turn it
    /// is, then 8 ranks (rank 8 first) of one character per file,
    /// uppercase for White, lowercase for Black, `-` for empty.
    #[verifier::loop_isolation(false)]
    pub fn to_display_string(&self) -> (r: String)
        requires
            self.wf(),
        ensures
            r@ == spec_board_display(*self),
    {
        let ghost b = *self;
        let mut out = self.current_turn.to_display_string();
        out.append(" to move\n");
        let mut yy: usize = 8;
        proof {
            assert(out@ + spec_display_ranks(b, 7) == spec_board_display(b));
        }
        while yy > 0
            invariant
                yy <= 8,
                out@ + spec_display_ranks(b, yy as int - 1) == spec_board_display(b),
            decreases yy,
        {
            let y = yy - 1;
            let ghost yi = y as int;
            let mut x: usize = 0;
            proof {
                assert(out@ + spec_display_rank_from(b, yi, 0) + spec_display_ranks(b, yi - 1)
                    =~= out@ + spec_display_ranks(b, yi));
            }
            while x < 8
                invariant
                    yi == y as int,
                    0 <= yi <= 7,
                    x <= 8,
                    out@ + spec_display_rank_from(b, yi, x as int) + spec_display_ranks(b, yi - 1)
                        == spec_board_display(b),
                decreases 8 - x,
            {
                let ghost pre = out@;
                push_square_char(&mut out, self.get_piece(x as isize, y as isize));
                proof {
                    assert(out@ + spec_display_rank_from(b, yi, x as int + 1) =~= pre
                        + spec_display_rank_from(b, yi, x as int));
                }
                x = x + 1;
            }
            let ghost pre = out@;
            out.append("\n");
            proof {
                reveal_strlit("\n");
                assert(out@ =~= pre + spec_display_rank_from(b, yi, 8));
            }
            yy = y;
        }
        proof {
            assert(out@ + spec_display_ranks(b, -1) =~= out@);
        }
        out
    }
}

/// A candidate move survives validation when its destination is on the
/// board and is not occupied by a piece of the same color as the piece
/// on its origin square. A move whose origin square is empty passes
/// through unfiltered: validation compares colors only when both origin
/// and destination are occupied.
pub open spec fn spec_move_ok(b: Board, m: Move) -> bool {
    &&& on_board(m.to.x as int, m.to.y as int)
    &&& !{
        &&& b.spec_piece_at(m.to.x as int, m.to.y as int) is Some
        &&& b.spec_piece_at(m.from.x as int, m.from.y as int) is Some
        &&& b.spec_piece_at(m.to.x as int, m.to.y as int).unwrap().color == b.spec_piece_at(
            m.from.x as int,
            m.from.y as int,
        ).unwrap().color
    }
}

/// The final answer of the move query at (x, y): nothing for an empty
/// square, else the piece's raw candidates with the off-board and
/// same-color destinations filtered out.
pub open spec fn spec_available_moves(b: Board, x: int, y: int) -> Seq<Move> {
    match b.spec_piece_at(x, y) {
        None => Seq::<Move>::empty(),
        Some(p) => spec_candidate_moves(b, x, y, p).filter(|m: Move| spec_move_ok(b, m)),
    }
}

proof fn lemma_filter_push<A>(s: Seq<A>, pred: spec_fn(A) -> bool, x: A)
    ensures
        s.push(x).filter(pred) == if pred(x) {
            s.filter(pred).push(x)
        } else {
            s.filter(pred)
        },
{
    reveal(Seq::filter);
    assert(s.push(x).drop_last() =~= s);
    assert(s.push(x).last() == x);
}

impl Board {
    /// Keeps the subset of `moves` that `spec_move_ok` admits, in order.
    /// Every origin square must be on the board: it is read without a
    /// bounds check whenever the destination is occupied.
    fn validate_piece_moves(&self, moves: Vec<Move>) -> (r: Vec<Move>)
        requires
            self.wf(),
            forall|k: int|
                0 <= k < moves@.len() ==> on_board(
                    (#[trigger] moves@[k]).from.x as int,
                    moves@[k].from.y as int,
                ),
        ensures
            r@ == moves@.filter(|m: Move| spec_move_ok(*self, m)),
    {
        let ghost pred = |m: Move| spec_move_ok(*self, m);
        let mut validated_moves: Vec<Move> = Vec::new();
        let mut idx: usize = 0;
        while idx < moves.len()
            invariant
                self.wf(),
                idx <= moves@.len(),
                forall|k: int|
                    0 <= k < moves@.len() ==> on_board(
                        (#[trigger] moves@[k]).from.x as int,
                        moves@[k].from.y as int,
                    ),
                pred == (|m: Move| spec_move_ok(*self, m)),
                validated_moves@ == moves@.subrange(0, idx as int).filter(pred),
            decreases moves@.len() - idx,
        {
            let m = moves[idx];
            proof {
                assert(moves@.subrange(0, idx as int + 1) =~= moves@.subrange(
                    0,
                    idx as int,
                ).push(m));
                lemma_filter_push(moves@.subrange(0, idx as int), pred, m);
            }
            let keep = if m.to.x > 7 || m.to.x < 0 || m.to.y > 7 || m.to.y < 0 {
                // moves to squares outside the board are dropped
                false
            } else {
                match self.get_square(m.to.x, m.to.y).piece {
                    None => true,
                    Some(target_piece) => match self.get_square(m.from.x, m.from.y).piece {
                        None => true,
                        // moves onto pieces of the same color are dropped
                        Some(piece) => piece.color != target_piece.color,
                    },
                }
            };
            if keep {
                validated_moves.push(m);
            }
            idx = idx + 1;
        }
        proof {
            assert(moves@.subrange(0, moves@.len() as int) =~= moves@);
        }
        validated_moves
    }

    /// The move-generation entry point: an empty square yields no moves
    /// at all; an occupied one dispatches on the piece's kind to the
    /// matching generator, then validates the raw candidates.
    pub fn get_available_moves_for_square(&self, x: isize, y: isize) -> (r: Vec<Move>)
        requires
            self.wf(),
            on_board(x as int, y as int),
        ensures
            r@ == spec_available_moves(*self, x as int, y as int),
            self.spec_piece_at(x as int, y as int) is None ==> r@ == Seq::<Move>::empty(),
    {
        let piece = match self.get_square(x, y).piece {
            None => {
                return Vec::new();
            },
            Some(piece) => piece,
        };
        let moves = match piece.piece_type {
            PieceType::Pawn => piece_moves::pawn_moves(self, x, y, piece),
            PieceType::Knight => piece_moves::knight_moves(x, y),
            PieceType::Bishop => piece_moves::bishop_moves(self, x, y),
            PieceType::Rook => piece_moves::rook_moves(self, x, y),
            PieceType::Queen => piece_moves::queen_moves(self, x, y),
            PieceType::King => piece_moves::king_moves(x, y),
        };
        proof {
            piece_moves::lemma_candidates_origin(*self, x as int, y as int, piece);
            assert(moves_from(moves@, x as int, y as int));
        }
        self.validate_piece_moves(moves)
    }
}

} // verus!
