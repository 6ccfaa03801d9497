//! Move generator: per-kind pseudo-legal move enumeration, castling safety,
//! and the king-safety legality filter.
use vstd::prelude::*;

use crate::attack::aligned;
use crate::attack::attack_geom;
use crate::attack::first_king;
use crate::attack::has_king;
use crate::attack::lemma_first_king_characterizes;
use crate::attack::path_clear;
use crate::attack::seg_len;
use crate::attack::seg_square;
use crate::attack::sgn;
use crate::attack::sign;
use crate::attack::square_attacked;
use crate::attack::steps;
use crate::board::Board;
use crate::board::BoardV;
use crate::board::Color;
use crate::board::Kind;
use crate::board::Move;
use crate::board::Piece;
use crate::board::board_after;
use crate::board::file_of;
use crate::board::iabs;
use crate::board::idx;
use crate::board::in_bounds;
use crate::board::pawn_dir;
use crate::board::rank_of;
use crate::board::spec_file;
use crate::board::spec_other;
use crate::board::spec_rank;
use crate::board::to_idx;

verus! {

/// The rank a pawn of color `c` promotes on.
pub open spec fn promo_rank(c: Color) -> int {
    if c == Color::White {
        7
    } else {
        0
    }
}

/// The home rank of pawns of color `c`.
pub open spec fn pawn_start_rank(c: Color) -> int {
    if c == Color::White {
        1
    } else {
        6
    }
}

/// A move to `to` carries a promotion kind exactly when `to` lies on the
/// mover's promotion rank, and then one of the four piece kinds.
pub open spec fn promo_ok(to: int, c: Color, promo: Option<Kind>) -> bool {
    if spec_rank(to) == promo_rank(c) {
        ||| promo == Some(Kind::Queen)
        ||| promo == Some(Kind::Rook)
        ||| promo == Some(Kind::Bishop)
        ||| promo == Some(Kind::Knight)
    } else {
        promo is None
    }
}

/// The destination square is empty for a quiet move, or holds an enemy piece
/// for a capture, matching the move's capture flag.
pub open spec fn occupancy_ok(bv: BoardV, m: Move) -> bool {
    if m.is_capture {
        bv.sq[m.to as int] is Some && bv.sq[m.to as int]->0.color != bv.sq[m.from as int]->0.color
    } else {
        bv.sq[m.to as int] is None
    }
}

/// A normal (non-pawn, non-castle) pseudo-legal move of the piece on `from`:
/// its kind's attack geometry reaches the destination, and the destination
/// is empty or holds an enemy piece.
pub open spec fn norm_move_ok(bv: BoardV, from: int, m: Move) -> bool {
    &&& m.from == from
    &&& m.to < 64
    &&& m.from != m.to
    &&& attack_geom(bv.sq, bv.sq[from]->0, from, m.to as int)
    &&& occupancy_ok(bv, m)
    &&& m.promo is None
    &&& !m.is_en_passant
    &&& !m.is_castle_kingside
    &&& !m.is_castle_queenside
}

/// A single-square pawn push (with promotion on the last rank).
pub open spec fn pawn_push_ok(bv: BoardV, from: int, m: Move) -> bool {
    let c = bv.sq[from]->0.color;
    let d = pawn_dir(c);
    let r = spec_rank(from);
    let f = spec_file(from);
    &&& m.from == from
    &&& 0 <= r + d < 8
    &&& m.to == (r + d) * 8 + f
    &&& bv.sq[m.to as int] is None
    &&& !m.is_capture
    &&& !m.is_en_passant
    &&& !m.is_castle_kingside
    &&& !m.is_castle_queenside
    &&& promo_ok(m.to as int, c, m.promo)
}

/// A two-square pawn push from the home rank through two empty squares.
pub open spec fn pawn_double_ok(bv: BoardV, from: int, m: Move) -> bool {
    let c = bv.sq[from]->0.color;
    let d = pawn_dir(c);
    let r = spec_rank(from);
    let f = spec_file(from);
    &&& m.from == from
    &&& r == pawn_start_rank(c)
    &&& 0 <= r + 2 * d < 8
    &&& m.to == (r + 2 * d) * 8 + f
    &&& bv.sq[(r + d) * 8 + f] is None
    &&& bv.sq[m.to as int] is None
    &&& !m.is_capture
    &&& !m.is_en_passant
    &&& !m.is_castle_kingside
    &&& !m.is_castle_queenside
    &&& m.promo is None
}

/// A diagonal pawn capture toward file offset `s`: either an ordinary
/// capture of an enemy piece, or an en-passant capture of the current
/// en-passant target square.
pub open spec fn pawn_cap_ok(bv: BoardV, from: int, m: Move, s: int) -> bool {
    let c = bv.sq[from]->0.color;
    let d = pawn_dir(c);
    let r = spec_rank(from);
    let f = spec_file(from);
    &&& m.from == from
    &&& 0 <= r + d < 8
    &&& 0 <= f + s < 8
    &&& m.to == (r + d) * 8 + (f + s)
    &&& m.is_capture
    &&& !m.is_castle_kingside
    &&& !m.is_castle_queenside
    &&& promo_ok(m.to as int, c, m.promo)
    &&& {
        ||| (bv.sq[m.to as int] is Some && bv.sq[m.to as int]->0.color != c && !m.is_en_passant)
        ||| (bv.sq[m.to as int] is None && bv.ep_square == Some(m.to) && m.is_en_passant)
    }
}

/// Any pseudo-legal move of the pawn on `from`.
pub open spec fn pawn_move_ok(bv: BoardV, from: int, m: Move) -> bool {
    ||| pawn_push_ok(bv, from, m)
    ||| pawn_double_ok(bv, from, m)
    ||| pawn_cap_ok(bv, from, m, -1)
    ||| pawn_cap_ok(bv, from, m, 1)
}

/// Castling of color `c` on the kingside is possible: the two transit
/// squares are empty and the king's start, transit, and destination squares
/// are unattacked by the opponent.
pub open spec fn can_castle_ks(bv: BoardV, c: Color) -> bool {
    let r0 = if c == Color::White {
        0int
    } else {
        56int
    };
    &&& bv.sq[r0 + 5] is None
    &&& bv.sq[r0 + 6] is None
    &&& !square_attacked(bv, r0 + 4, spec_other(c))
    &&& !square_attacked(bv, r0 + 5, spec_other(c))
    &&& !square_attacked(bv, r0 + 6, spec_other(c))
}

/// Castling of color `c` on the queenside is possible: the three transit
/// squares are empty and the king's start, transit, and destination squares
/// are unattacked by the opponent.
pub open spec fn can_castle_qs(bv: BoardV, c: Color) -> bool {
    let r0 = if c == Color::White {
        0int
    } else {
        56int
    };
    &&& bv.sq[r0 + 1] is None
    &&& bv.sq[r0 + 2] is None
    &&& bv.sq[r0 + 3] is None
    &&& !square_attacked(bv, r0 + 2, spec_other(c))
    &&& !square_attacked(bv, r0 + 3, spec_other(c))
    &&& !square_attacked(bv, r0 + 4, spec_other(c))
}

/// The kingside castle move of the king on `from`: its right is still held
/// and the castling squares are free and safe.
pub open spec fn castle_ks_ok(bv: BoardV, from: int, m: Move) -> bool {
    let c = bv.sq[from]->0.color;
    let r0 = if c == Color::White {
        0int
    } else {
        56int
    };
    &&& if c == Color::White {
        bv.castle_wk
    } else {
        bv.castle_bk
    }
    &&& can_castle_ks(bv, c)
    &&& m == (Move {
        from: from as usize,
        to: (r0 + 6) as usize,
        promo: None,
        is_capture: false,
        is_en_passant: false,
        is_castle_kingside: true,
        is_castle_queenside: false,
    })
}

/// The queenside castle move of the king on `from`.
pub open spec fn castle_qs_ok(bv: BoardV, from: int, m: Move) -> bool {
    let c = bv.sq[from]->0.color;
    let r0 = if c == Color::White {
        0int
    } else {
        56int
    };
    &&& if c == Color::White {
        bv.castle_wq
    } else {
        bv.castle_bq
    }
    &&& can_castle_qs(bv, c)
    &&& m == (Move {
        from: from as usize,
        to: (r0 + 2) as usize,
        promo: None,
        is_capture: false,
        is_en_passant: false,
        is_castle_kingside: false,
        is_castle_queenside: true,
    })
}

/// Any pseudo-legal move of the side-to-move piece on `from`.
pub open spec fn pseudo_from(bv: BoardV, from: int, m: Move) -> bool {
    match bv.sq[from] {
        Some(p) => p.color == bv.side && match p.kind {
            Kind::Pawn => pawn_move_ok(bv, from, m),
            Kind::King => norm_move_ok(bv, from, m) || castle_ks_ok(bv, from, m) || castle_qs_ok(
                bv,
                from,
                m,
            ),
            _ => norm_move_ok(bv, from, m),
        },
        None => false,
    }
}

/// `m` is a pseudo-legal move in `bv`: it obeys its piece's movement
/// geometry, ignoring whether it exposes the mover's king.
pub open spec fn pseudo_legal(bv: BoardV, m: Move) -> bool {
    m.from < 64 && pseudo_from(bv, m.from as int, m)
}

/// `m` can be handed to move application without violating its contract.
pub open spec fn applicable(bv: BoardV, m: Move) -> bool {
    &&& m.from < 64
    &&& m.to < 64
    &&& bv.sq[m.from as int] is Some
    &&& m.is_en_passant ==> 8 <= m.to < 56
}

/// `m`, once applied, leaves the mover's own king unattacked. This is the
/// sole defense against pins, discovered checks, and moving into check.
pub open spec fn move_is_legal(bv: BoardV, m: Move) -> bool {
    let after = board_after(bv, m);
    let k = first_king(after, bv.side);
    k < 64 && !square_attacked(after, k, spec_other(bv.side))
}

/// Every pseudo-legal move can be applied.
pub proof fn lemma_pseudo_applicable(bv: BoardV, m: Move)
    requires
        bv.wf(),
        pseudo_legal(bv, m),
    ensures
        applicable(bv, m),
{
}

/// Append `m` to the move list.
fn push_move(moves: &mut Vec<Move>, m: Move)
    ensures
        final(moves)@ == old(moves)@.push(m),
        forall|x: Move| final(moves)@.contains(x) <==> old(moves)@.contains(x) || x == m,
{
    moves.push(m);
    proof {
        assert forall|x: Move| #[trigger]
            final(moves)@.contains(x) <==> old(moves)@.contains(x) || x == m by {
            if old(moves)@.contains(x) {
                let i = choose|i: int| 0 <= i < old(moves)@.len() && old(moves)@[i] == x;
                assert(final(moves)@[i] == x);
            }
            if final(moves)@.contains(x) {
                let i = choose|i: int| 0 <= i < final(moves)@.len() && final(moves)@[i] == x;
                if i < old(moves)@.len() {
                    assert(old(moves)@[i] == x);
                }
            }
            assert(final(moves)@[old(moves)@.len() as int] == m);
        }
    }
}

/// The move produced when a knight or king on `from` steps by `(df, dr)`.
pub open spec fn leap_ok(bv: BoardV, from: int, m: Move, df: int, dr: int) -> bool {
    let f = spec_file(from) + df;
    let r = spec_rank(from) + dr;
    let to = r * 8 + f;
    &&& 0 <= f < 8
    &&& 0 <= r < 8
    &&& (bv.sq[to] is None || bv.sq[to]->0.color != bv.sq[from]->0.color)
    &&& m == (Move {
        from: from as usize,
        to: to as usize,
        promo: None,
        is_capture: bv.sq[to] is Some,
        is_en_passant: false,
        is_castle_kingside: false,
        is_castle_queenside: false,
    })
}

impl Board {
    /// Push the single leaper move from `from` by `(df, dr)`, if its target
    /// is on the board and empty or enemy-held.
    fn try_leap(&self, from: usize, df: isize, dr: isize, moves: &mut Vec<Move>)
        requires
            self@.wf(),
            from < 64,
            self@.sq[from as int] is Some,
            -2 <= df <= 2,
            -2 <= dr <= 2,
        ensures
            forall|m: Move|
                final(moves)@.contains(m) <==> old(moves)@.contains(m) || leap_ok(
                    self@,
                    from as int,
                    m,
                    df as int,
                    dr as int,
                ),
    {
        let f = file_of(from) as isize + df;
        let r = rank_of(from) as isize + dr;
        if in_bounds(f, r) {
            let to = to_idx(f, r);
            match self.piece_at(to) {
                Some(target) => {
                    if target.color != self.piece_at(from).unwrap().color {
                        push_move(
                            moves,
                            Move {
                                from,
                                to,
                                promo: None,
                                is_capture: true,
                                is_en_passant: false,
                                is_castle_kingside: false,
                                is_castle_queenside: false,
                            },
                        );
                    }
                },
                None => {
                    push_move(
                        moves,
                        Move {
                            from,
                            to,
                            promo: None,
                            is_capture: false,
                            is_en_passant: false,
                            is_castle_kingside: false,
                            is_castle_queenside: false,
                        },
                    );
                },
            }
        }
    }

    /// Generate the pseudo-legal moves of the knight on `from`.
    pub fn generate_knight_moves(&self, from: usize, moves: &mut Vec<Move>)
        requires
            self@.wf(),
            from < 64,
            self@.sq[from as int] is Some,
            self@.sq[from as int]->0.kind == Kind::Knight,
        ensures
            forall|m: Move|
                final(moves)@.contains(m) <==> old(moves)@.contains(m) || norm_move_ok(
                    self@,
                    from as int,
                    m,
                ),
    {
        self.try_leap(from, -2, -1, moves);
        self.try_leap(from, -2, 1, moves);
        self.try_leap(from, -1, -2, moves);
        self.try_leap(from, -1, 2, moves);
        self.try_leap(from, 1, -2, moves);
        self.try_leap(from, 1, 2, moves);
        self.try_leap(from, 2, -1, moves);
        self.try_leap(from, 2, 1, moves);
        proof {
            lemma_knight_leaps(self@, from as int);
        }
    }
}

/// A knight move is exactly a leap by one of the eight knight offsets.
proof fn lemma_knight_leaps(bv: BoardV, from: int)
    requires
        bv.sq.len() == 64,
        0 <= from < 64,
        bv.sq[from] is Some,
        bv.sq[from]->0.kind == Kind::Knight,
    ensures
        forall|m: Move|
            norm_move_ok(bv, from, m) <==> {
                ||| leap_ok(bv, from, m, -2, -1)
                ||| leap_ok(bv, from, m, -2, 1)
                ||| leap_ok(bv, from, m, -1, -2)
                ||| leap_ok(bv, from, m, -1, 2)
                ||| leap_ok(bv, from, m, 1, -2)
                ||| leap_ok(bv, from, m, 1, 2)
                ||| leap_ok(bv, from, m, 2, -1)
                ||| leap_ok(bv, from, m, 2, 1)
            },
{
    assert forall|m: Move|
        norm_move_ok(bv, from, m) <==> {
            ||| leap_ok(bv, from, m, -2, -1)
            ||| leap_ok(bv, from, m, -2, 1)
            ||| leap_ok(bv, from, m, -1, -2)
            ||| leap_ok(bv, from, m, -1, 2)
            ||| leap_ok(bv, from, m, 1, -2)
            ||| leap_ok(bv, from, m, 1, 2)
            ||| leap_ok(bv, from, m, 2, -1)
            ||| leap_ok(bv, from, m, 2, 1)
        } by {
        if norm_move_ok(bv, from, m) {
            let df = spec_file(m.to as int) - spec_file(from);
            let dr = spec_rank(m.to as int) - spec_rank(from);
            assert(m.to as int == (spec_rank(from) + dr) * 8 + (spec_file(from) + df));
        }
    }
}


/// The square reached from `from` after `j` unit steps in direction
/// `(df, dr)`.
pub open spec fn dir_square(from: int, df: int, dr: int, j: int) -> int {
    (spec_rank(from) + steps(j, dr)) * 8 + (spec_file(from) + steps(j, df))
}

/// A sliding move from `from` in direction `(df, dr)`: the destination lies
/// on that ray, every square strictly between is empty, and the destination
/// is empty or enemy-held.
pub open spec fn slide_ok(bv: BoardV, from: int, m: Move, df: int, dr: int) -> bool {
    &&& m.from == from
    &&& m.to < 64
    &&& m.from != m.to
    &&& sgn(spec_file(m.to as int) - spec_file(from)) == df
    &&& sgn(spec_rank(m.to as int) - spec_rank(from)) == dr
    &&& aligned(from, m.to as int)
    &&& path_clear(bv.sq, from, m.to as int)
    &&& occupancy_ok(bv, m)
    &&& m.promo is None
    &&& !m.is_en_passant
    &&& !m.is_castle_kingside
    &&& !m.is_castle_queenside
}

impl Board {
    /// Whether `color` may castle kingside as far as board geometry goes:
    /// transit squares empty, king path unattacked. The castling right
    /// itself is checked by the caller.
    pub fn can_castle_kingside(&self, color: Color) -> (res: bool)
        requires
            self@.wf(),
        ensures
            res == can_castle_ks(self@, color),
    {
        let rank: usize = if color == Color::White {
            0
        } else {
            7
        };
        self.piece_at(idx(5, rank)).is_none() && self.piece_at(idx(6, rank)).is_none()
            && !self.is_square_attacked(idx(4, rank), Board::other(color))
            && !self.is_square_attacked(idx(5, rank), Board::other(color))
            && !self.is_square_attacked(idx(6, rank), Board::other(color))
    }

    /// Whether `color` may castle queenside as far as board geometry goes.
    pub fn can_castle_queenside(&self, color: Color) -> (res: bool)
        requires
            self@.wf(),
        ensures
            res == can_castle_qs(self@, color),
    {
        let rank: usize = if color == Color::White {
            0
        } else {
            7
        };
        self.piece_at(idx(1, rank)).is_none() && self.piece_at(idx(2, rank)).is_none()
            && self.piece_at(idx(3, rank)).is_none()
            && !self.is_square_attacked(idx(2, rank), Board::other(color))
            && !self.is_square_attacked(idx(3, rank), Board::other(color))
            && !self.is_square_attacked(idx(4, rank), Board::other(color))
    }

    /// Generate the pseudo-legal moves of the king on `from`, castling
    /// included.
    pub fn generate_king_moves(&self, from: usize, moves: &mut Vec<Move>)
        requires
            self@.wf(),
            from < 64,
            self@.sq[from as int] is Some,
            self@.sq[from as int]->0.kind == Kind::King,
            self@.sq[from as int]->0.color == self@.side,
        ensures
            forall|m: Move|
                final(moves)@.contains(m) <==> old(moves)@.contains(m) || norm_move_ok(
                    self@,
                    from as int,
                    m,
                ) || castle_ks_ok(self@, from as int, m) || castle_qs_ok(self@, from as int, m),
    {
        self.try_leap(from, -1, -1, moves);
        self.try_leap(from, -1, 0, moves);
        self.try_leap(from, -1, 1, moves);
        self.try_leap(from, 0, -1, moves);
        self.try_leap(from, 0, 1, moves);
        self.try_leap(from, 1, -1, moves);
        self.try_leap(from, 1, 0, moves);
        self.try_leap(from, 1, 1, moves);
        proof {
            lemma_king_leaps(self@, from as int);
        }

        if self.side == Color::White {
            if self.castle_wk && self.can_castle_kingside(Color::White) {
                push_move(
                    moves,
                    Move {
                        from,
                        to: idx(6, 0),
                        promo: None,
                        is_capture: false,
                        is_en_passant: false,
                        is_castle_kingside: true,
                        is_castle_queenside: false,
                    },
                );
            }
            if self.castle_wq && self.can_castle_queenside(Color::White) {
                push_move(
                    moves,
                    Move {
                        from,
                        to: idx(2, 0),
                        promo: None,
                        is_capture: false,
                        is_en_passant: false,
                        is_castle_kingside: false,
                        is_castle_queenside: true,
                    },
                );
            }
        } else {
            if self.castle_bk && self.can_castle_kingside(Color::Black) {
                push_move(
                    moves,
                    Move {
                        from,
                        to: idx(6, 7),
                        promo: None,
                        is_capture: false,
                        is_en_passant: false,
                        is_castle_kingside: true,
                        is_castle_queenside: false,
                    },
                );
            }
            if self.castle_bq && self.can_castle_queenside(Color::Black) {
                push_move(
                    moves,
                    Move {
                        from,
                        to: idx(2, 7),
                        promo: None,
                        is_capture: false,
                        is_en_passant: false,
                        is_castle_kingside: false,
                        is_castle_queenside: true,
                    },
                );
            }
        }
    }

    /// Walk the ray from `from` in direction `(df, dr)`, generating a move
    /// to every empty square and to the first enemy-held square.
    pub fn generate_sliding_moves(&self, from: usize, df: isize, dr: isize, moves: &mut Vec<Move>)
        requires
            self@.wf(),
            from < 64,
            self@.sq[from as int] is Some,
            -1 <= df <= 1,
            -1 <= dr <= 1,
            !(df == 0 && dr == 0),
        ensures
            forall|m: Move|
                final(moves)@.contains(m) <==> old(moves)@.contains(m) || slide_ok(
                    self@,
                    from as int,
                    m,
                    df as int,
                    dr as int,
                ),
    {
        let ghost a = from as int;
        let ghost gdf = df as int;
        let ghost gdr = dr as int;
        let own_color = self.piece_at(from).unwrap().color;
        let mut f: isize = file_of(from) as isize + df;
        let mut r: isize = rank_of(from) as isize + dr;
        let ghost mut k: int = 1;
        while in_bounds(f, r)
            invariant
                self@.wf(),
                from < 64,
                a == from as int,
                gdf == df as int,
                gdr == dr as int,
                self@.sq[a] is Some,
                own_color == self@.sq[a]->0.color,
                -1 <= df <= 1,
                -1 <= dr <= 1,
                !(df == 0 && dr == 0),
                1 <= k <= 8,
                f == spec_file(a) + steps(k, gdf),
                r == spec_rank(a) + steps(k, gdr),
                forall|j: int| 1 <= j < k ==> self@.sq[#[trigger] dir_square(a, gdf, gdr, j)] is None,
                forall|m: Move|
                    moves@.contains(m) <==> old(moves)@.contains(m) || (slide_ok(
                        self@,
                        a,
                        m,
                        gdf,
                        gdr,
                    ) && seg_len(a, m.to as int) < k),
            decreases 8 - k,
        {
            let to = to_idx(f, r);
            proof {
                assert(to as int == dir_square(a, gdf, gdr, k));
                assert(seg_len(a, to as int) == k);
                assert(sgn(spec_file(to as int) - spec_file(a)) == gdf);
                assert(sgn(spec_rank(to as int) - spec_rank(a)) == gdr);
                assert(aligned(a, to as int));
                assert(a != to as int);
                assert forall|j: int| 1 <= j < seg_len(a, to as int) implies self@.sq[
                    #[trigger] seg_square(a, to as int, j)
                ] is None by {
                    assert(seg_square(a, to as int, j) == dir_square(a, gdf, gdr, j));
                }
                assert(path_clear(self@.sq, a, to as int));
            }
            match self.piece_at(to) {
                Some(target) => {
                    if target.color != own_color {
                        push_move(
                            moves,
                            Move {
                                from,
                                to,
                                promo: None,
                                is_capture: true,
                                is_en_passant: false,
                                is_castle_kingside: false,
                                is_castle_queenside: false,
                            },
                        );
                    }
                    proof {
                        assert forall|m: Move| slide_ok(self@, a, m, gdf, gdr) implies seg_len(
                            a,
                            m.to as int,
                        ) <= k by {
                            if seg_len(a, m.to as int) > k {
                                assert(seg_square(a, m.to as int, k) == dir_square(a, gdf, gdr, k));
                            }
                        }
                        assert forall|m: Move|
                            slide_ok(self@, a, m, gdf, gdr) && seg_len(a, m.to as int) == k implies m.to
                            == to by {
                            assert(m.to as int == dir_square(a, gdf, gdr, k));
                        }
                    }
                    return ;
                },
                None => {
                    push_move(
                        moves,
                        Move {
                            from,
                            to,
                            promo: None,
                            is_capture: false,
                            is_en_passant: false,
                            is_castle_kingside: false,
                            is_castle_queenside: false,
                        },
                    );
                    proof {
                        assert forall|m: Move|
                            slide_ok(self@, a, m, gdf, gdr) && seg_len(a, m.to as int) == k implies m
                            == (Move {
                            from,
                            to,
                            promo: None,
                            is_capture: false,
                            is_en_passant: false,
                            is_castle_kingside: false,
                            is_castle_queenside: false,
                        }) by {
                            assert(m.to as int == dir_square(a, gdf, gdr, k));
                        }
                    }
                },
            }
            f = f + df;
            r = r + dr;
            proof {
                k = k + 1;
            }
        }
        proof {
            assert forall|m: Move| slide_ok(self@, a, m, gdf, gdr) implies seg_len(a, m.to as int)
                < k by {
                let n = seg_len(a, m.to as int);
                if n >= k {
                    assert(seg_square(a, m.to as int, n) == m.to as int);
                    assert(0 <= spec_file(a) + steps(n, gdf) < 8);
                    assert(0 <= spec_rank(a) + steps(n, gdr) < 8);
                }
            }
        }
    }

    /// Generate the pseudo-legal moves of the bishop on `from`.
    pub fn generate_bishop_moves(&self, from: usize, moves: &mut Vec<Move>)
        requires
            self@.wf(),
            from < 64,
            self@.sq[from as int] is Some,
            self@.sq[from as int]->0.kind == Kind::Bishop,
        ensures
            forall|m: Move|
                final(moves)@.contains(m) <==> old(moves)@.contains(m) || norm_move_ok(
                    self@,
                    from as int,
                    m,
                ),
    {
        self.generate_sliding_moves(from, -1, -1, moves);
        self.generate_sliding_moves(from, -1, 1, moves);
        self.generate_sliding_moves(from, 1, -1, moves);
        self.generate_sliding_moves(from, 1, 1, moves);
        proof {
            lemma_slide_cover(self@, from as int);
        }
    }

    /// Generate the pseudo-legal moves of the rook on `from`.
    pub fn generate_rook_moves(&self, from: usize, moves: &mut Vec<Move>)
        requires
            self@.wf(),
            from < 64,
            self@.sq[from as int] is Some,
            self@.sq[from as int]->0.kind == Kind::Rook,
        ensures
            forall|m: Move|
                final(moves)@.contains(m) <==> old(moves)@.contains(m) || norm_move_ok(
                    self@,
                    from as int,
                    m,
                ),
    {
        self.generate_sliding_moves(from, -1, 0, moves);
        self.generate_sliding_moves(from, 1, 0, moves);
        self.generate_sliding_moves(from, 0, -1, moves);
        self.generate_sliding_moves(from, 0, 1, moves);
        proof {
            lemma_slide_cover(self@, from as int);
        }
    }

    /// Generate the pseudo-legal moves of the queen on `from`.
    pub fn generate_queen_moves(&self, from: usize, moves: &mut Vec<Move>)
        requires
            self@.wf(),
            from < 64,
            self@.sq[from as int] is Some,
            self@.sq[from as int]->0.kind == Kind::Queen,
        ensures
            forall|m: Move|
                final(moves)@.contains(m) <==> old(moves)@.contains(m) || norm_move_ok(
                    self@,
                    from as int,
                    m,
                ),
    {
        self.generate_sliding_moves(from, -1, -1, moves);
        self.generate_sliding_moves(from, -1, 0, moves);
        self.generate_sliding_moves(from, -1, 1, moves);
        self.generate_sliding_moves(from, 0, -1, moves);
        self.generate_sliding_moves(from, 0, 1, moves);
        self.generate_sliding_moves(from, 1, -1, moves);
        self.generate_sliding_moves(from, 1, 0, moves);
        self.generate_sliding_moves(from, 1, 1, moves);
        proof {
            lemma_slide_cover(self@, from as int);
        }
    }
}

/// A king move is exactly a leap by one of the eight unit offsets.
proof fn lemma_king_leaps(bv: BoardV, from: int)
    requires
        bv.sq.len() == 64,
        0 <= from < 64,
        bv.sq[from] is Some,
        bv.sq[from]->0.kind == Kind::King,
    ensures
        forall|m: Move|
            norm_move_ok(bv, from, m) <==> {
                ||| leap_ok(bv, from, m, -1, -1)
                ||| leap_ok(bv, from, m, -1, 0)
                ||| leap_ok(bv, from, m, -1, 1)
                ||| leap_ok(bv, from, m, 0, -1)
                ||| leap_ok(bv, from, m, 0, 1)
                ||| leap_ok(bv, from, m, 1, -1)
                ||| leap_ok(bv, from, m, 1, 0)
                ||| leap_ok(bv, from, m, 1, 1)
            },
{
    assert forall|m: Move|
        norm_move_ok(bv, from, m) <==> {
            ||| leap_ok(bv, from, m, -1, -1)
            ||| leap_ok(bv, from, m, -1, 0)
            ||| leap_ok(bv, from, m, -1, 1)
            ||| leap_ok(bv, from, m, 0, -1)
            ||| leap_ok(bv, from, m, 0, 1)
            ||| leap_ok(bv, from, m, 1, -1)
            ||| leap_ok(bv, from, m, 1, 0)
            ||| leap_ok(bv, from, m, 1, 1)
        } by {
        if norm_move_ok(bv, from, m) {
            let df = spec_file(m.to as int) - spec_file(from);
            let dr = spec_rank(m.to as int) - spec_rank(from);
            assert(m.to as int == (spec_rank(from) + dr) * 8 + (spec_file(from) + df));
        }
    }
}

/// A sliding piece's moves are exactly the union of its rays' moves.
proof fn lemma_slide_cover(bv: BoardV, from: int)
    requires
        bv.sq.len() == 64,
        0 <= from < 64,
        bv.sq[from] is Some,
        bv.sq[from]->0.kind == Kind::Bishop || bv.sq[from]->0.kind == Kind::Rook
            || bv.sq[from]->0.kind == Kind::Queen,
    ensures
        bv.sq[from]->0.kind == Kind::Bishop ==> forall|m: Move|
            norm_move_ok(bv, from, m) <==> {
                ||| slide_ok(bv, from, m, -1, -1)
                ||| slide_ok(bv, from, m, -1, 1)
                ||| slide_ok(bv, from, m, 1, -1)
                ||| slide_ok(bv, from, m, 1, 1)
            },
        bv.sq[from]->0.kind == Kind::Rook ==> forall|m: Move|
            norm_move_ok(bv, from, m) <==> {
                ||| slide_ok(bv, from, m, -1, 0)
                ||| slide_ok(bv, from, m, 1, 0)
                ||| slide_ok(bv, from, m, 0, -1)
                ||| slide_ok(bv, from, m, 0, 1)
            },
        bv.sq[from]->0.kind == Kind::Queen ==> forall|m: Move|
            norm_move_ok(bv, from, m) <==> {
                ||| slide_ok(bv, from, m, -1, -1)
                ||| slide_ok(bv, from, m, -1, 0)
                ||| slide_ok(bv, from, m, -1, 1)
                ||| slide_ok(bv, from, m, 0, -1)
                ||| slide_ok(bv, from, m, 0, 1)
                ||| slide_ok(bv, from, m, 1, -1)
                ||| slide_ok(bv, from, m, 1, 0)
                ||| slide_ok(bv, from, m, 1, 1)
            },
{
}


impl Board {
    /// Push the pawn capture from `from` toward file offset `s`, if any:
    /// a capture of an enemy piece (with the four promotion variants on the
    /// last rank) or an en-passant capture of the current target square.
    fn try_pawn_cap(&self, from: usize, s: isize, moves: &mut Vec<Move>)
        requires
            self@.wf(),
            from < 64,
            self@.sq[from as int] is Some,
            self@.sq[from as int]->0.kind == Kind::Pawn,
            s == -1 || s == 1,
        ensures
            forall|m: Move|
                final(moves)@.contains(m) <==> old(moves)@.contains(m) || pawn_cap_ok(
                    self@,
                    from as int,
                    m,
                    s as int,
                ),
    {
        let piece = self.piece_at(from).unwrap();
        let d: isize = if piece.color == Color::White {
            1
        } else {
            -1
        };
        let promo_rank: usize = if piece.color == Color::White {
            7
        } else {
            0
        };
        let f = file_of(from) as isize;
        let to_r = rank_of(from) as isize + d;
        if in_bounds(f + s, to_r) {
            let to = to_idx(f + s, to_r);
            match self.piece_at(to) {
                Some(target) => {
                    if target.color != piece.color {
                        if rank_of(to) == promo_rank {
                            push_move(moves, capture_promo(from, to, Kind::Queen));
                            push_move(moves, capture_promo(from, to, Kind::Rook));
                            push_move(moves, capture_promo(from, to, Kind::Bishop));
                            push_move(moves, capture_promo(from, to, Kind::Knight));
                        } else {
                            push_move(
                                moves,
                                Move {
                                    from,
                                    to,
                                    promo: None,
                                    is_capture: true,
                                    is_en_passant: false,
                                    is_castle_kingside: false,
                                    is_castle_queenside: false,
                                },
                            );
                        }
                    }
                },
                None => {
                    if let Some(ep) = self.ep_square {
                        if ep == to {
                            push_move(
                                moves,
                                Move {
                                    from,
                                    to,
                                    promo: None,
                                    is_capture: true,
                                    is_en_passant: true,
                                    is_castle_kingside: false,
                                    is_castle_queenside: false,
                                },
                            );
                        }
                    }
                },
            }
        }
    }

    /// Generate the pseudo-legal moves of the pawn on `from`: single and
    /// double pushes, diagonal and en-passant captures, and the four
    /// promotion variants on the last rank.
    pub fn generate_pawn_moves(&self, from: usize, moves: &mut Vec<Move>)
        requires
            self@.wf(),
            from < 64,
            self@.sq[from as int] is Some,
            self@.sq[from as int]->0.kind == Kind::Pawn,
        ensures
            forall|m: Move|
                final(moves)@.contains(m) <==> old(moves)@.contains(m) || pawn_move_ok(
                    self@,
                    from as int,
                    m,
                ),
    {
        let piece = self.piece_at(from).unwrap();
        let d: isize = if piece.color == Color::White {
            1
        } else {
            -1
        };
        let start_rank: usize = if piece.color == Color::White {
            1
        } else {
            6
        };
        let promo_rank: usize = if piece.color == Color::White {
            7
        } else {
            0
        };
        let f = file_of(from) as isize;
        let r = rank_of(from) as isize;
        let to_r = r + d;

        if in_bounds(f, to_r) {
            let to = to_idx(f, to_r);
            if self.piece_at(to).is_none() {
                if rank_of(to) == promo_rank {
                    push_move(moves, quiet_promo(from, to, Kind::Queen));
                    push_move(moves, quiet_promo(from, to, Kind::Rook));
                    push_move(moves, quiet_promo(from, to, Kind::Bishop));
                    push_move(moves, quiet_promo(from, to, Kind::Knight));
                } else {
                    push_move(
                        moves,
                        Move {
                            from,
                            to,
                            promo: None,
                            is_capture: false,
                            is_en_passant: false,
                            is_castle_kingside: false,
                            is_castle_queenside: false,
                        },
                    );
                    if rank_of(from) == start_rank && in_bounds(f, to_r + d) {
                        let to2 = to_idx(f, to_r + d);
                        if self.piece_at(to2).is_none() {
                            push_move(
                                moves,
                                Move {
                                    from,
                                    to: to2,
                                    promo: None,
                                    is_capture: false,
                                    is_en_passant: false,
                                    is_castle_kingside: false,
                                    is_castle_queenside: false,
                                },
                            );
                        }
                    }
                }
            }
        }
        proof {
            assert forall|m: Move| moves@.contains(m) <==> old(moves)@.contains(m) || pawn_push_ok(
                self@,
                from as int,
                m,
            ) || pawn_double_ok(self@, from as int, m) by {}
        }

        self.try_pawn_cap(from, -1, moves);
        self.try_pawn_cap(from, 1, moves);
    }
}

/// A quiet promotion move.
fn quiet_promo(from: usize, to: usize, k: Kind) -> (m: Move)
    ensures
        m == (Move {
            from,
            to,
            promo: Some(k),
            is_capture: false,
            is_en_passant: false,
            is_castle_kingside: false,
            is_castle_queenside: false,
        }),
{
    Move {
        from,
        to,
        promo: Some(k),
        is_capture: false,
        is_en_passant: false,
        is_castle_kingside: false,
        is_castle_queenside: false,
    }
}

/// A capturing promotion move.
fn capture_promo(from: usize, to: usize, k: Kind) -> (m: Move)
    ensures
        m == (Move {
            from,
            to,
            promo: Some(k),
            is_capture: true,
            is_en_passant: false,
            is_castle_kingside: false,
            is_castle_queenside: false,
        }),
{
    Move {
        from,
        to,
        promo: Some(k),
        is_capture: true,
        is_en_passant: false,
        is_castle_kingside: false,
        is_castle_queenside: false,
    }
}


/// No legal move exists in `bv`.
pub open spec fn no_legal_move(bv: BoardV) -> bool {
    forall|m: Move| !(pseudo_legal(bv, m) && move_is_legal(bv, m))
}

/// The side `c` has a king and it is attacked by the opponent.
pub open spec fn in_check(bv: BoardV, c: Color) -> bool {
    has_king(bv, c) && square_attacked(bv, first_king(bv, c), spec_other(c))
}

/// The side to move is checkmated: its king is attacked and it has no
/// legal move.
pub open spec fn spec_checkmate(bv: BoardV) -> bool {
    has_king(bv, bv.side) && in_check(bv, bv.side) && no_legal_move(bv)
}

/// The side to move is stalemated: its king is not attacked and it has no
/// legal move.
pub open spec fn spec_stalemate(bv: BoardV) -> bool {
    has_king(bv, bv.side) && !in_check(bv, bv.side) && no_legal_move(bv)
}

proof fn lemma_subrange_push<T>(s: Seq<T>, i: int)
    requires
        0 <= i < s.len(),
    ensures
        s.subrange(0, i + 1) =~= s.subrange(0, i).push(s[i]),
{
}

proof fn lemma_push_contains<T>(s: Seq<T>, e: T)
    ensures
        forall|x: T| #[trigger] s.push(e).contains(x) <==> s.contains(x) || x == e,
{
    assert forall|x: T| #[trigger] s.push(e).contains(x) <==> s.contains(x) || x == e by {
        if s.contains(x) {
            let i = choose|i: int| 0 <= i < s.len() && s[i] == x;
            assert(s.push(e)[i] == x);
        }
        if s.push(e).contains(x) {
            let i = choose|i: int| 0 <= i < s.push(e).len() && s.push(e)[i] == x;
            if i < s.len() {
                assert(s[i] == x);
            }
        }
        assert(s.push(e)[s.len() as int] == e);
    }
}

impl Board {
    /// Whether `m`, played on a copy of this position, leaves the mover's
    /// own king unattacked. A kingless mover has no legal moves.
    pub fn is_legal_move(&self, m: Move) -> (res: bool)
        requires
            self@.wf(),
            applicable(self@, m),
        ensures
            res == move_is_legal(self@, m),
    {
        let current_side = self.side;
        let mut temp_board = self.clone_board();
        temp_board.make_move(m);
        match temp_board.find_king(current_side) {
            Some(king_square) => !temp_board.is_square_attacked(
                king_square,
                Board::other(current_side),
            ),
            None => false,
        }
    }

    /// Generate every legal move of the side to move: all pseudo-legal
    /// moves that do not leave the mover's own king attacked.
    pub fn generate_legal_moves(&self) -> (res: Vec<Move>)
        requires
            self@.wf(),
        ensures
            forall|m: Move|
                res@.contains(m) <==> pseudo_legal(self@, m) && move_is_legal(self@, m),
    {
        let mut moves: Vec<Move> = Vec::new();
        let mut from: usize = 0;
        while from < 64
            invariant
                self@.wf(),
                from <= 64,
                forall|m: Move|
                    moves@.contains(m) <==> (m.from < from && pseudo_from(
                        self@,
                        m.from as int,
                        m,
                    )),
            decreases 64 - from,
        {
            if let Some(piece) = self.piece_at(from) {
                if piece.color == self.side {
                    match piece.kind {
                        Kind::Pawn => self.generate_pawn_moves(from, &mut moves),
                        Kind::Knight => self.generate_knight_moves(from, &mut moves),
                        Kind::Bishop => self.generate_bishop_moves(from, &mut moves),
                        Kind::Rook => self.generate_rook_moves(from, &mut moves),
                        Kind::Queen => self.generate_queen_moves(from, &mut moves),
                        Kind::King => self.generate_king_moves(from, &mut moves),
                    }
                }
            }
            from += 1;
        }

        let mut legal: Vec<Move> = Vec::new();
        let mut i: usize = 0;
        while i < moves.len()
            invariant
                self@.wf(),
                i <= moves@.len(),
                forall|m: Move| moves@.contains(m) <==> pseudo_legal(self@, m),
                forall|m: Move|
                    legal@.contains(m) <==> (moves@.subrange(0, i as int).contains(m)
                        && move_is_legal(self@, m)),
            decreases moves@.len() - i,
        {
            let m = moves[i];
            proof {
                assert(moves@.contains(m));
                lemma_pseudo_applicable(self@, m);
                lemma_subrange_push(moves@, i as int);
                lemma_push_contains(moves@.subrange(0, i as int), m);
            }
            if self.is_legal_move(m) {
                push_move(&mut legal, m);
            }
            i += 1;
        }
        proof {
            assert(moves@.subrange(0, moves@.len() as int) =~= moves@);
        }
        legal
    }

    /// The side to move is checkmated: its king is attacked and no legal
    /// move exists.
    pub fn is_checkmate(&self) -> (res: bool)
        requires
            self@.wf(),
        ensures
            res == spec_checkmate(self@),
    {
        match self.find_king(self.side) {
            Some(king_square) => {
                if self.is_square_attacked(king_square, Board::other(self.side)) {
                    let legal = self.generate_legal_moves();
                    let empty = legal.is_empty();
                    proof {
                        if !empty {
                            assert(legal@.contains(legal@[0]));
                        }
                    }
                    empty
                } else {
                    false
                }
            },
            None => false,
        }
    }

    /// The side to move is stalemated: its king is not attacked and no
    /// legal move exists.
    pub fn is_stalemate(&self) -> (res: bool)
        requires
            self@.wf(),
        ensures
            res == spec_stalemate(self@),
    {
        match self.find_king(self.side) {
            Some(king_square) => {
                if !self.is_square_attacked(king_square, Board::other(self.side)) {
                    let legal = self.generate_legal_moves();
                    let empty = legal.is_empty();
                    proof {
                        if !empty {
                            assert(legal@.contains(legal@[0]));
                        }
                    }
                    empty
                } else {
                    false
                }
            },
            None => false,
        }
    }

    /// The game is over: the side to move is checkmated or stalemated.
    pub fn is_game_over(&self) -> (res: bool)
        requires
            self@.wf(),
        ensures
            res == (spec_checkmate(self@) || spec_stalemate(self@)),
    {
        self.is_checkmate() || self.is_stalemate()
    }
}

/// Checkmate and stalemate are mutually exclusive, and (for a side that has
/// a king) the game is over exactly when legal-move generation is empty.
pub proof fn lemma_game_over_iff_no_moves(bv: BoardV)
    requires
        bv.wf(),
    ensures
        !(spec_checkmate(bv) && spec_stalemate(bv)),
        has_king(bv, bv.side) ==> ((spec_checkmate(bv) || spec_stalemate(bv)) <==> no_legal_move(
            bv,
        )),
{
}


/// A pawn on `from` can reach `to` under unrestricted movement geometry:
/// a capture reaches diagonally forward onto an occupied square or the
/// en-passant target; a push reaches one square forward onto an empty
/// square, or two from the home rank through empty squares.
pub open spec fn pawn_reach_ok(bv: BoardV, from: int, to: int, cap: bool) -> bool {
    let c = bv.sq[from]->0.color;
    let d = pawn_dir(c);
    let df = spec_file(to) - spec_file(from);
    let dr = spec_rank(to) - spec_rank(from);
    if cap {
        dr == d && iabs(df) == 1 && (bv.sq[to] is Some || bv.ep_square == Some(to as usize))
    } else {
        ||| (df == 0 && dr == d && bv.sq[to] is None)
        ||| (df == 0 && dr == 2 * d && spec_rank(from) == pawn_start_rank(c) && bv.sq[from + 8 * d]
            is None && bv.sq[to] is None)
    }
}

/// The piece on `from` can reach `to` under unrestricted movement geometry
/// (ignoring king safety), given the move's capture flag. Used only for
/// notation disambiguation, never for play.
pub open spec fn reach_ok(bv: BoardV, from: int, to: int, cap: bool) -> bool {
    &&& from != to
    &&& bv.sq[from] is Some
    &&& (bv.sq[to] is Some ==> bv.sq[to]->0.color != bv.sq[from]->0.color)
    &&& match bv.sq[from]->0.kind {
        Kind::Pawn => pawn_reach_ok(bv, from, to, cap),
        _ => attack_geom(bv.sq, bv.sq[from]->0, from, to),
    }
}

impl Board {
    /// Whether the piece on `from` (if any) can reach `to` under
    /// unrestricted movement geometry, ignoring king safety.
    pub fn naive_can_reach(&self, from: usize, to: usize, is_capture: bool) -> (res: bool)
        requires
            self@.wf(),
            from < 64,
            to < 64,
        ensures
            res == reach_ok(self@, from as int, to as int, is_capture),
    {
        if from == to {
            return false;
        }
        let me = match self.piece_at(from) {
            Some(p) => p,
            None => {
                return false;
            },
        };
        if let Some(dst) = self.piece_at(to) {
            if dst.color == me.color {
                return false;
            }
        }

        let f_from = file_of(from) as isize;
        let r_from = rank_of(from) as isize;
        let f_to = file_of(to) as isize;
        let r_to = rank_of(to) as isize;
        let df = f_to - f_from;
        let dr = r_to - r_from;
        let adf = if df >= 0 {
            df
        } else {
            -df
        };
        let adr = if dr >= 0 {
            dr
        } else {
            -dr
        };

        match me.kind {
            Kind::Knight => (adf == 1 && adr == 2) || (adf == 2 && adr == 1),
            Kind::King => adf <= 1 && adr <= 1,
            Kind::Bishop => {
                if adf != adr || df == 0 {
                    return false;
                }
                self.line_clear(from, to, sign(df), sign(dr))
            },
            Kind::Rook => {
                if !(df == 0 || dr == 0) {
                    return false;
                }
                self.line_clear(from, to, sign(df), sign(dr))
            },
            Kind::Queen => {
                if !(df == 0 || dr == 0 || adf == adr) {
                    return false;
                }
                self.line_clear(from, to, sign(df), sign(dr))
            },
            Kind::Pawn => {
                let d: isize = if me.color == Color::White {
                    1
                } else {
                    -1
                };
                if is_capture {
                    if dr == d && adf == 1 {
                        if self.piece_at(to).is_some() {
                            return true;
                        }
                        if let Some(ep) = self.ep_square {
                            if ep == to {
                                return true;
                            }
                        }
                    }
                    false
                } else {
                    if df == 0 && dr == d && self.piece_at(to).is_none() {
                        return true;
                    }
                    let start_rank: usize = if me.color == Color::White {
                        1
                    } else {
                        6
                    };
                    if df == 0 && dr == 2 * d && rank_of(from) == start_rank {
                        let mid = to_idx(f_from, r_from + d);
                        if self.piece_at(mid).is_none() && self.piece_at(to).is_none() {
                            return true;
                        }
                    }
                    false
                }
            },
        }
    }

    /// Enumerate the squares of side-to-move pieces of kind `kind` that can
    /// reach `to` under unrestricted movement geometry.
    pub fn generate_reach(&self, kind: Kind, to: usize, is_capture: bool) -> (res: Vec<usize>)
        requires
            self@.wf(),
            to < 64,
        ensures
            forall|i: usize|
                res@.contains(i) <==> i < 64 && self@.sq[i as int] == Some(
                    Piece { kind, color: self@.side },
                ) && reach_ok(self@, i as int, to as int, is_capture),
            forall|k1: int, k2: int| 0 <= k1 < k2 < res@.len() ==> res@[k1] < res@[k2],
    {
        let mut v: Vec<usize> = Vec::new();
        let mut i: usize = 0;
        while i < 64
            invariant
                self@.wf(),
                to < 64,
                i <= 64,
                forall|x: usize|
                    v@.contains(x) <==> x < i && self@.sq[x as int] == Some(
                        Piece { kind, color: self@.side },
                    ) && reach_ok(self@, x as int, to as int, is_capture),
                forall|k: int| 0 <= k < v@.len() ==> v@[k] < i,
                forall|k1: int, k2: int| 0 <= k1 < k2 < v@.len() ==> v@[k1] < v@[k2],
            decreases 64 - i,
        {
            if let Some(p) = self.piece_at(i) {
                if p.color == self.side && p.kind == kind && self.naive_can_reach(
                    i,
                    to,
                    is_capture,
                ) {
                    proof {
                        lemma_push_contains(v@, i);
                    }
                    v.push(i);
                }
            }
            i += 1;
        }
        v
    }
}

/// Applying a pseudo-legal move never removes the mover's own king, so long
/// as the mover's king does not stand on the square an en-passant capture
/// clears.
pub proof fn lemma_king_preserved(bv: BoardV, m: Move)
    requires
        bv.wf(),
        has_king(bv, bv.side),
        pseudo_legal(bv, m),
        m.is_en_passant ==> bv.sq[crate::board::ep_captured_sq(
            m.to as int,
            bv.sq[m.from as int]->0.color,
        )] != Some(Piece { kind: Kind::King, color: bv.side }),
    ensures
        has_king(board_after(bv, m), bv.side),
{
    let after = board_after(bv, m);
    let p = bv.sq[m.from as int]->0;
    let king = Piece { kind: Kind::King, color: bv.side };
    if p.kind == Kind::King {
        if m.is_castle_kingside || m.is_castle_queenside {
            let c = p.color;
            let r0: int = if c == Color::White {
                0
            } else {
                56
            };
            let kf = r0 + 4;
            let kt = if m.is_castle_kingside {
                r0 + 6
            } else {
                r0 + 2
            };
            let rf = if m.is_castle_kingside {
                r0 + 7
            } else {
                r0
            };
            let rt = if m.is_castle_kingside {
                r0 + 5
            } else {
                r0 + 3
            };
            if m.from == kf {
                assert(after.sq[kt] == Some(king));
            } else if m.from == rf {
                assert(after.sq[rt] == Some(king));
            } else {
                assert(after.sq[m.from as int] == Some(king));
            }
        } else {
            assert(after.sq[m.to as int] == Some(king));
        }
    } else {
        let k = choose|i: int| 0 <= i < 64 && #[trigger] bv.sq[i] == Some(king);
        assert(after.sq[k] == Some(king));
    }
}

/// Legality closure: a pseudo-legal move passes the legality filter exactly
/// when playing it leaves the mover's own king unattacked. Together with the
/// legal-move generator's contract, every generated move is king-safe and
/// every pseudo-legal move excluded from that set leaves the king attacked.
/// The position must give the mover a king, and (for an en-passant move) the
/// mover's king must not itself stand on the square the capture clears.
pub proof fn lemma_legality_closure(bv: BoardV, m: Move)
    requires
        bv.wf(),
        has_king(bv, bv.side),
        pseudo_legal(bv, m),
        m.is_en_passant ==> bv.sq[crate::board::ep_captured_sq(
            m.to as int,
            bv.sq[m.from as int]->0.color,
        )] != Some(Piece { kind: Kind::King, color: bv.side }),
    ensures
        has_king(board_after(bv, m), bv.side),
        move_is_legal(bv, m) <==> !square_attacked(
            board_after(bv, m),
            first_king(board_after(bv, m), bv.side),
            spec_other(bv.side),
        ),
{
    lemma_king_preserved(bv, m);
    lemma_first_king_characterizes(board_after(bv, m), bv.side);
}

} // verus!
