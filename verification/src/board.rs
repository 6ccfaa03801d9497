//! Position state: the 64-square board, game metadata, and move application.
use vstd::prelude::*;

verus! {

/// The two sides.
#[derive(Copy, Clone, Debug, PartialEq, Eq, Structural)]
pub enum Color {
    White,
    Black,
}

/// The six piece kinds.
#[derive(Copy, Clone, Debug, PartialEq, Eq, Structural)]
pub enum Kind {
    Pawn,
    Knight,
    Bishop,
    Rook,
    Queen,
    King,
}

/// A piece: kind and color.
#[derive(Copy, Clone, Debug, PartialEq, Eq, Structural)]
pub struct Piece {
    pub kind: Kind,
    pub color: Color,
}

/// A move: source and destination square indices (0..63), an optional
/// promotion kind, and flags for capture, en passant, and castling.
#[derive(Copy, Clone, Debug, PartialEq, Eq, Structural)]
pub struct Move {
    pub from: usize,
    pub to: usize,
    pub promo: Option<Kind>,
    pub is_capture: bool,
    pub is_en_passant: bool,
    pub is_castle_kingside: bool,
    pub is_castle_queenside: bool,
}

/// A chess position: piece placement, side to move, castling rights,
/// en-passant target, and the two move counters.
pub struct Board {
    pub sq: Vec<Option<Piece>>,
    pub side: Color,
    pub castle_wk: bool,
    pub castle_wq: bool,
    pub castle_bk: bool,
    pub castle_bq: bool,
    pub ep_square: Option<usize>,
    pub halfmove_clock: u32,
    pub fullmove_number: u32,
}

/// The mathematical model of a position.
pub ghost struct BoardV {
    pub sq: Seq<Option<Piece>>,
    pub side: Color,
    pub castle_wk: bool,
    pub castle_wq: bool,
    pub castle_bk: bool,
    pub castle_bq: bool,
    pub ep_square: Option<usize>,
    pub halfmove_clock: u32,
    pub fullmove_number: u32,
}

impl View for Board {
    type V = BoardV;

    open spec fn view(&self) -> BoardV {
        BoardV {
            sq: self.sq@,
            side: self.side,
            castle_wk: self.castle_wk,
            castle_wq: self.castle_wq,
            castle_bk: self.castle_bk,
            castle_bq: self.castle_bq,
            ep_square: self.ep_square,
            halfmove_clock: self.halfmove_clock,
            fullmove_number: self.fullmove_number,
        }
    }
}

impl BoardV {
    /// Well-formedness: 64 squares, and an en-passant target (when present)
    /// on the third or sixth rank.
    pub open spec fn wf(self) -> bool {
        &&& self.sq.len() == 64
        &&& match self.ep_square {
            Some(e) => e < 64 && 1 <= spec_rank(e as int) <= 6,
            None => true,
        }
    }

    /// The piece on square `i`.
    pub open spec fn at(self, i: int) -> Option<Piece> {
        self.sq[i]
    }

    /// Square `i` holds a piece of color `c` and kind `k`.
    pub open spec fn has(self, i: int, c: Color, k: Kind) -> bool {
        0 <= i < 64 && self.sq[i] == Some(Piece { kind: k, color: c })
    }
}

/// File (column) of a square index.
pub open spec fn spec_file(i: int) -> int {
    i % 8
}

/// Rank (row) of a square index.
pub open spec fn spec_rank(i: int) -> int {
    i / 8
}

/// Absolute value.
pub open spec fn iabs(x: int) -> int {
    if x >= 0 {
        x
    } else {
        -x
    }
}

/// The opposite color.
pub open spec fn spec_other(c: Color) -> Color {
    if c == Color::White {
        Color::Black
    } else {
        Color::White
    }
}

/// Forward rank direction for a pawn of color `c`.
pub open spec fn pawn_dir(c: Color) -> int {
    if c == Color::White {
        1
    } else {
        -1
    }
}

/// Board index of the square in the given file and rank.
pub fn idx(file: usize, rank: usize) -> (r: usize)
    requires
        file < 8,
        rank < 8,
    ensures
        r == rank * 8 + file,
        r < 64,
        spec_file(r as int) == file,
        spec_rank(r as int) == rank,
{
    rank * 8 + file
}

/// File number (0..7) of a board index.
pub fn file_of(i: usize) -> (r: usize)
    requires
        i < 64,
    ensures
        r == spec_file(i as int),
        r < 8,
{
    i % 8
}

/// Rank number (0..7) of a board index.
pub fn rank_of(i: usize) -> (r: usize)
    requires
        i < 64,
    ensures
        r == spec_rank(i as int),
        r < 8,
{
    i / 8
}

/// Whether a (file, rank) pair lies on the board.
pub fn in_bounds(file: isize, rank: isize) -> (r: bool)
    ensures
        r == (0 <= file < 8 && 0 <= rank < 8),
{
    0 <= file && file < 8 && 0 <= rank && rank < 8
}

/// Board index of an in-bounds (file, rank) pair given as signed numbers.
pub fn to_idx(file: isize, rank: isize) -> (r: usize)
    requires
        0 <= file < 8,
        0 <= rank < 8,
    ensures
        r == rank * 8 + file,
        r < 64,
        spec_file(r as int) == file as int,
        spec_rank(r as int) == rank as int,
{
    (rank as usize) * 8 + (file as usize)
}

/// Piece kind on the back rank at file `f` in the standard starting position.
pub open spec fn start_back_kind(f: int) -> Kind {
    if f == 0 || f == 7 {
        Kind::Rook
    } else if f == 1 || f == 6 {
        Kind::Knight
    } else if f == 2 || f == 5 {
        Kind::Bishop
    } else if f == 3 {
        Kind::Queen
    } else {
        Kind::King
    }
}

/// Contents of square `i` in the standard starting position.
pub open spec fn start_sq(i: int) -> Option<Piece> {
    let r = spec_rank(i);
    let f = spec_file(i);
    if r == 0 {
        Some(Piece { kind: start_back_kind(f), color: Color::White })
    } else if r == 1 {
        Some(Piece { kind: Kind::Pawn, color: Color::White })
    } else if r == 6 {
        Some(Piece { kind: Kind::Pawn, color: Color::Black })
    } else if r == 7 {
        Some(Piece { kind: start_back_kind(f), color: Color::Black })
    } else {
        None
    }
}

/// The standard starting position as a model value.
pub open spec fn start_board() -> BoardV {
    BoardV {
        sq: Seq::new(64, |i: int| start_sq(i)),
        side: Color::White,
        castle_wk: true,
        castle_wq: true,
        castle_bk: true,
        castle_bq: true,
        ep_square: None,
        halfmove_clock: 0,
        fullmove_number: 1,
    }
}

impl Board {
    /// The standard starting position.
    pub fn new() -> (r: Board)
        ensures
            r@ == start_board(),
            r@.wf(),
    {
        let mut sq: Vec<Option<Piece>> = Vec::new();
        let mut i: usize = 0;
        while i < 64
            invariant
                i <= 64,
                sq@.len() == i,
                forall|j: int| 0 <= j < i ==> sq@[j] == start_sq(j),
            decreases 64 - i,
        {
            sq.push(start_square(i));
            i += 1;
        }
        let b = Board {
            sq,
            side: Color::White,
            castle_wk: true,
            castle_wq: true,
            castle_bk: true,
            castle_bq: true,
            ep_square: None,
            halfmove_clock: 0,
            fullmove_number: 1,
        };
        proof {
            assert(b@.sq =~= start_board().sq);
        }
        b
    }

    /// The piece on square `i`, if any.
    pub fn piece_at(&self, i: usize) -> (r: Option<Piece>)
        requires
            i < self@.sq.len(),
        ensures
            r == self@.at(i as int),
    {
        self.sq[i]
    }

    /// Place `p` on square `i` (or clear it with `None`).
    pub fn set_piece(&mut self, i: usize, p: Option<Piece>)
        requires
            i < old(self)@.sq.len(),
        ensures
            final(self)@ == (BoardV { sq: old(self)@.sq.update(i as int, p), ..old(self)@ }),
    {
        self.sq.set(i, p);
    }

    /// The opposite color.
    pub fn other(c: Color) -> (r: Color)
        ensures
            r == spec_other(c),
    {
        if let Color::White = c {
            Color::Black
        } else {
            Color::White
        }
    }

    /// An exact copy of this position.
    pub fn clone_board(&self) -> (r: Board)
        ensures
            r@ == self@,
    {
        let mut sq: Vec<Option<Piece>> = Vec::new();
        let mut i: usize = 0;
        while i < self.sq.len()
            invariant
                i <= self.sq@.len(),
                sq@.len() == i,
                forall|j: int| 0 <= j < i ==> sq@[j] == self.sq@[j],
            decreases self.sq@.len() - i,
        {
            sq.push(self.sq[i]);
            i += 1;
        }
        let r = Board {
            sq,
            side: self.side,
            castle_wk: self.castle_wk,
            castle_wq: self.castle_wq,
            castle_bk: self.castle_bk,
            castle_bq: self.castle_bq,
            ep_square: self.ep_square,
            halfmove_clock: self.halfmove_clock,
            fullmove_number: self.fullmove_number,
        };
        proof {
            assert(r@.sq =~= self@.sq);
        }
        r
    }
}

/// King and rook squares involved in a castle: (king from, king to,
/// rook from, rook to).
pub open spec fn castle_squares(c: Color, kingside: bool) -> (int, int, int, int) {
    if c == Color::White {
        if kingside {
            (4, 6, 7, 5)
        } else {
            (4, 2, 0, 3)
        }
    } else {
        if kingside {
            (60, 62, 63, 61)
        } else {
            (60, 58, 56, 59)
        }
    }
}

/// Square of the pawn captured by an en-passant move to `to` played by `c`.
pub open spec fn ep_captured_sq(to: int, c: Color) -> int {
    to - 8 * pawn_dir(c)
}

/// Piece placement after the en-passant shape of `m`.
pub open spec fn sq_after_ep(bv: BoardV, m: Move) -> Seq<Option<Piece>> {
    let moved = bv.sq[m.from as int]->0;
    bv.sq.update(m.to as int, Some(moved)).update(m.from as int, None).update(
        ep_captured_sq(m.to as int, moved.color),
        None,
    )
}

/// Piece placement after the castle shape of `m`: the king and then the
/// rook are repositioned, each only if its home square is occupied.
pub open spec fn sq_after_castle(bv: BoardV, m: Move) -> Seq<Option<Piece>> {
    let moved = bv.sq[m.from as int]->0;
    let (kf, kt, rf, rt) = castle_squares(moved.color, m.is_castle_kingside);
    let s1 = if bv.sq[kf] is Some {
        bv.sq.update(kf, None).update(kt, bv.sq[kf])
    } else {
        bv.sq
    };
    if s1[rf] is Some {
        s1.update(rf, None).update(rt, s1[rf])
    } else {
        s1
    }
}

/// Piece placement after the normal shape of `m`.
pub open spec fn sq_after_normal(bv: BoardV, m: Move) -> Seq<Option<Piece>> {
    let moved = bv.sq[m.from as int]->0;
    bv.sq.update(m.to as int, Some(moved)).update(m.from as int, None)
}

/// Piece placement after the shape of `m`, before the promotion overwrite.
pub open spec fn sq_after_shape(bv: BoardV, m: Move) -> Seq<Option<Piece>> {
    if m.is_en_passant {
        sq_after_ep(bv, m)
    } else if m.is_castle_kingside || m.is_castle_queenside {
        sq_after_castle(bv, m)
    } else {
        sq_after_normal(bv, m)
    }
}

/// Piece placement after applying `m`: the en-passant, castle, or normal
/// shape, then the promotion overwrite.
pub open spec fn sq_after(bv: BoardV, m: Move) -> Seq<Option<Piece>> {
    let moved = bv.sq[m.from as int]->0;
    let placed = sq_after_shape(bv, m);
    match m.promo {
        Some(pk) => placed.update(m.to as int, Some(Piece { kind: pk, color: moved.color })),
        None => placed,
    }
}

/// The white kingside castling right after a move by `c`.
pub open spec fn wk_right_upd(wk: bool, m: Move, c: Color) -> bool {
    if c == Color::White {
        wk && m.from != 4 && m.from != 7 && m.to != 7
    } else {
        wk && m.to != 7
    }
}

/// The white queenside castling right after a move by `c`.
pub open spec fn wq_right_upd(wq: bool, m: Move, c: Color) -> bool {
    if c == Color::White {
        wq && m.from != 4 && m.from != 0 && m.to != 0
    } else {
        wq && m.to != 0
    }
}

/// The black kingside castling right after a move by `c`.
pub open spec fn bk_right_upd(bk: bool, m: Move, c: Color) -> bool {
    if c == Color::Black {
        bk && m.from != 60 && m.from != 63 && m.to != 63
    } else {
        bk && m.to != 63
    }
}

/// The black queenside castling right after a move by `c`.
pub open spec fn bq_right_upd(bq: bool, m: Move, c: Color) -> bool {
    if c == Color::Black {
        bq && m.from != 60 && m.from != 56 && m.to != 56
    } else {
        bq && m.to != 56
    }
}

/// The white kingside castling right after applying `m`.
pub open spec fn wk_right_after(bv: BoardV, m: Move) -> bool {
    wk_right_upd(bv.castle_wk, m, bv.sq[m.from as int]->0.color)
}

/// The white queenside castling right after applying `m`.
pub open spec fn wq_right_after(bv: BoardV, m: Move) -> bool {
    wq_right_upd(bv.castle_wq, m, bv.sq[m.from as int]->0.color)
}

/// The black kingside castling right after applying `m`.
pub open spec fn bk_right_after(bv: BoardV, m: Move) -> bool {
    bk_right_upd(bv.castle_bk, m, bv.sq[m.from as int]->0.color)
}

/// The black queenside castling right after applying `m`.
pub open spec fn bq_right_after(bv: BoardV, m: Move) -> bool {
    bq_right_upd(bv.castle_bq, m, bv.sq[m.from as int]->0.color)
}

/// `m` moves a pawn two ranks forward.
pub open spec fn is_double_push(bv: BoardV, m: Move) -> bool {
    bv.sq[m.from as int]->0.kind == Kind::Pawn && iabs(
        spec_rank(m.from as int) - spec_rank(m.to as int),
    ) == 2
}

/// The en-passant target after applying `m`: the skipped square of a
/// two-rank pawn push, cleared by every other move.
pub open spec fn ep_after(bv: BoardV, m: Move) -> Option<usize> {
    if is_double_push(bv, m) {
        Some(
            ((spec_rank(m.from as int) + spec_rank(m.to as int)) / 2 * 8 + spec_file(
                m.from as int,
            )) as usize,
        )
    } else {
        None
    }
}

/// The halfmove clock after applying `m`: reset by a pawn move or capture,
/// otherwise incremented (saturating at the type's maximum).
pub open spec fn halfmove_after(bv: BoardV, m: Move) -> u32 {
    if bv.sq[m.from as int]->0.kind == Kind::Pawn || m.is_capture {
        0
    } else if bv.halfmove_clock < u32::MAX {
        (bv.halfmove_clock + 1) as u32
    } else {
        bv.halfmove_clock
    }
}

/// The fullmove counter after applying `m`: incremented after Black's move
/// (saturating at the type's maximum).
pub open spec fn fullmove_after(bv: BoardV, m: Move) -> u32 {
    if bv.side == Color::Black && bv.fullmove_number < u32::MAX {
        (bv.fullmove_number + 1) as u32
    } else {
        bv.fullmove_number
    }
}

/// The position after applying `m`: the single transition function of the
/// engine. Placement follows the move's shape, castling rights are revoked
/// on king/rook home-square activity, the en-passant target is recomputed,
/// the clocks advance, and the side to move flips.
pub open spec fn board_after(bv: BoardV, m: Move) -> BoardV {
    BoardV {
        sq: sq_after(bv, m),
        side: spec_other(bv.side),
        castle_wk: wk_right_after(bv, m),
        castle_wq: wq_right_after(bv, m),
        castle_bk: bk_right_after(bv, m),
        castle_bq: bq_right_after(bv, m),
        ep_square: ep_after(bv, m),
        halfmove_clock: halfmove_after(bv, m),
        fullmove_number: fullmove_after(bv, m),
    }
}

impl Board {
    /// Apply the placement part of `m` (en-passant, castle, or normal shape,
    /// then the promotion overwrite), leaving the metadata untouched.
    #[verifier::rlimit(100)]
    fn apply_shape(&mut self, m: Move, moved: Piece)
        requires
            old(self)@.wf(),
            m.from < 64,
            m.to < 64,
            old(self)@.sq[m.from as int] == Some(moved),
            m.is_en_passant ==> 8 <= m.to < 56,
        ensures
            final(self)@ == (BoardV { sq: sq_after(old(self)@, m), ..old(self)@ }),
    {
        if m.is_en_passant {
            self.set_piece(m.to, Some(moved));
            self.set_piece(m.from, None);
            let cap_sq = if moved.color == Color::White {
                m.to - 8
            } else {
                m.to + 8
            };
            self.set_piece(cap_sq, None);
            proof {
                assert(self@.sq =~= sq_after_shape(old(self)@, m));
            }
        } else if m.is_castle_kingside || m.is_castle_queenside {
            let rank: usize = if moved.color == Color::White {
                0
            } else {
                7
            };
            let (kf, kt, rf, rt) = if m.is_castle_kingside {
                (idx(4, rank), idx(6, rank), idx(7, rank), idx(5, rank))
            } else {
                (idx(4, rank), idx(2, rank), idx(0, rank), idx(3, rank))
            };
            if let Some(king) = self.piece_at(kf) {
                self.set_piece(kf, None);
                self.set_piece(kt, Some(king));
            }
            if let Some(rook) = self.piece_at(rf) {
                self.set_piece(rf, None);
                self.set_piece(rt, Some(rook));
            }
            proof {
                assert(self@.sq =~= sq_after_shape(old(self)@, m));
            }
        } else {
            self.set_piece(m.to, Some(moved));
            self.set_piece(m.from, None);
            proof {
                assert(self@.sq =~= sq_after_shape(old(self)@, m));
            }
        }

        if let Some(pk) = m.promo {
            self.set_piece(m.to, Some(Piece { kind: pk, color: moved.color }));
        }
        proof {
            assert(self@.sq =~= sq_after(old(self)@, m));
        }
    }

    /// Revoke castling rights affected by `m`, a move of a piece of color `c`.
    fn apply_rights(&mut self, m: Move, c: Color)
        ensures
            *final(self) == (Board {
                castle_wk: wk_right_upd(old(self).castle_wk, m, c),
                castle_wq: wq_right_upd(old(self).castle_wq, m, c),
                castle_bk: bk_right_upd(old(self).castle_bk, m, c),
                castle_bq: bq_right_upd(old(self).castle_bq, m, c),
                ..*old(self)
            }),
    {
        match c {
            Color::White => {
                if m.from == 4 {
                    self.castle_wk = false;
                    self.castle_wq = false;
                }
                if m.from == 0 || m.to == 0 {
                    self.castle_wq = false;
                }
                if m.from == 7 || m.to == 7 {
                    self.castle_wk = false;
                }
                if m.to == 56 {
                    self.castle_bq = false;
                }
                if m.to == 63 {
                    self.castle_bk = false;
                }
            },
            Color::Black => {
                if m.from == 60 {
                    self.castle_bk = false;
                    self.castle_bq = false;
                }
                if m.from == 56 || m.to == 56 {
                    self.castle_bq = false;
                }
                if m.from == 63 || m.to == 63 {
                    self.castle_bk = false;
                }
                if m.to == 0 {
                    self.castle_wq = false;
                }
                if m.to == 7 {
                    self.castle_wk = false;
                }
            },
        }
    }

    /// Apply `m` to this position. Performs no legality checking: the caller
    /// must supply a move sourced from generation or parsing.
    #[verifier::rlimit(100)]
    pub fn make_move(&mut self, m: Move)
        requires
            old(self)@.wf(),
            m.from < 64,
            m.to < 64,
            old(self)@.sq[m.from as int] is Some,
            m.is_en_passant ==> 8 <= m.to < 56,
        ensures
            final(self)@ == board_after(old(self)@, m),
            final(self)@.wf(),
    {
        let moved = self.piece_at(m.from).unwrap();

        self.apply_shape(m, moved);
        self.apply_rights(m, moved.color);

        self.ep_square = None;
        if moved.kind == Kind::Pawn {
            let r_from = rank_of(m.from);
            let r_to = rank_of(m.to);
            let diff = if r_from >= r_to {
                r_from - r_to
            } else {
                r_to - r_from
            };
            if diff == 2 {
                let mid = idx(file_of(m.from), (r_from + r_to) / 2);
                self.ep_square = Some(mid);
            }
        }

        if moved.kind == Kind::Pawn || m.is_capture {
            self.halfmove_clock = 0;
        } else if self.halfmove_clock < u32::MAX {
            self.halfmove_clock = self.halfmove_clock + 1;
        }

        if self.side == Color::Black && self.fullmove_number < u32::MAX {
            self.fullmove_number = self.fullmove_number + 1;
        }
        self.side = Board::other(self.side);
        proof {
            assert(self@.ep_square == ep_after(old(self)@, m));
        }
    }
}

/// The en-passant target after a move is set exactly when that move was a
/// two-square pawn push, and then to the skipped-over square; every other
/// move clears it.
pub proof fn lemma_ep_iff_double_push(bv: BoardV, m: Move)
    requires
        bv.wf(),
        m.from < 64,
        m.to < 64,
        bv.sq[m.from as int] is Some,
    ensures
        board_after(bv, m).ep_square is Some <==> is_double_push(bv, m),
        is_double_push(bv, m) ==> board_after(bv, m).ep_square == Some(
            (((spec_rank(m.from as int) + spec_rank(m.to as int)) / 2) * 8 + spec_file(
                m.from as int,
            )) as usize,
        ),
{
}

/// Contents of square `i` in the starting position (executable form).

fn start_square(i: usize) -> (p: Option<Piece>)
    requires
        i < 64,
    ensures
        p == start_sq(i as int),
{
    let r = rank_of(i);
    let f = file_of(i);
    if r == 0 || r == 7 {
        let color = if r == 0 {
            Color::White
        } else {
            Color::Black
        };
        let kind = if f == 0 || f == 7 {
            Kind::Rook
        } else if f == 1 || f == 6 {
            Kind::Knight
        } else if f == 2 || f == 5 {
            Kind::Bishop
        } else if f == 3 {
            Kind::Queen
        } else {
            Kind::King
        };
        Some(Piece { kind, color })
    } else if r == 1 {
        Some(Piece { kind: Kind::Pawn, color: Color::White })
    } else if r == 6 {
        Some(Piece { kind: Kind::Pawn, color: Color::Black })
    } else {
        None
    }
}

} // verus!
