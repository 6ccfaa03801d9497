//! Attack oracle: pure geometric queries over a position answering whether a
//! square is attacked by a color. This single mechanism underlies check
//! detection, castling safety, and the legality filter.
use vstd::prelude::*;

use crate::board::Board;
use crate::board::BoardV;
use crate::board::Color;
use crate::board::Kind;
use crate::board::Piece;
use crate::board::file_of;
use crate::board::iabs;
use crate::board::in_bounds;
use crate::board::pawn_dir;
use crate::board::rank_of;
use crate::board::spec_file;
use crate::board::spec_rank;
use crate::board::to_idx;

verus! {

/// Sign of an integer: -1, 0, or 1.
pub open spec fn sgn(x: int) -> int {
    if x > 0 {
        1
    } else if x < 0 {
        -1
    } else {
        0
    }
}

/// `k` steps in direction `d`, where `d` is -1, 0, or 1.
pub open spec fn steps(k: int, d: int) -> int {
    if d == 1 {
        k
    } else if d == -1 {
        -k
    } else {
        0
    }
}

/// The two squares lie on a common rank, file, or diagonal.
pub open spec fn aligned(a: int, b: int) -> bool {
    ||| spec_rank(a) == spec_rank(b)
    ||| spec_file(a) == spec_file(b)
    ||| iabs(spec_file(b) - spec_file(a)) == iabs(spec_rank(b) - spec_rank(a))
}

/// Number of king-steps from `a` to `b` along their common line.
pub open spec fn seg_len(a: int, b: int) -> int {
    if iabs(spec_file(b) - spec_file(a)) >= iabs(spec_rank(b) - spec_rank(a)) {
        iabs(spec_file(b) - spec_file(a))
    } else {
        iabs(spec_rank(b) - spec_rank(a))
    }
}

/// The square reached from `a` after `j` unit steps toward `b`.
pub open spec fn seg_square(a: int, b: int, j: int) -> int {
    let f = spec_file(a) + steps(j, sgn(spec_file(b) - spec_file(a)));
    let r = spec_rank(a) + steps(j, sgn(spec_rank(b) - spec_rank(a)));
    r * 8 + f
}

/// Every square strictly between `a` and `b` on their common line is empty.
/// Meaningful only when `aligned(a, b)` holds.
pub open spec fn path_clear(sq: Seq<Option<Piece>>, a: int, b: int) -> bool {
    forall|j: int| 1 <= j < seg_len(a, b) ==> sq[#[trigger] seg_square(a, b, j)] is None
}

/// Per-kind attack geometry: whether a piece `p` standing on `from` attacks
/// `to`, taking board occupancy into account for sliding pieces.
pub open spec fn attack_geom(sq: Seq<Option<Piece>>, p: Piece, from: int, to: int) -> bool {
    let df = spec_file(to) - spec_file(from);
    let dr = spec_rank(to) - spec_rank(from);
    match p.kind {
        Kind::Pawn => dr == pawn_dir(p.color) && iabs(df) == 1,
        Kind::Knight => (iabs(df) == 1 && iabs(dr) == 2) || (iabs(df) == 2 && iabs(dr) == 1),
        Kind::King => iabs(df) <= 1 && iabs(dr) <= 1,
        Kind::Bishop => iabs(df) == iabs(dr) && df != 0 && path_clear(sq, from, to),
        Kind::Rook => (df == 0 || dr == 0) && path_clear(sq, from, to),
        Kind::Queen => (df == 0 || dr == 0 || iabs(df) == iabs(dr)) && path_clear(sq, from, to),
    }
}

/// The piece on `from` (if any) attacks `to`.
pub open spec fn attacks(bv: BoardV, from: int, to: int) -> bool {
    match bv.sq[from] {
        None => false,
        Some(p) => from != to && attack_geom(bv.sq, p, from, to),
    }
}

/// Some piece of color `c` attacks square `t`.
pub open spec fn square_attacked(bv: BoardV, t: int, c: Color) -> bool {
    exists|i: int|
        0 <= i < 64 && (#[trigger] bv.sq[i]) is Some && bv.sq[i]->0.color == c && attacks(bv, i, t)
}

/// The smallest index in `i..64` holding a king of color `c`, or 64 if none.
pub open spec fn first_king_from(bv: BoardV, c: Color, i: int) -> int
    decreases 64 - i,
{
    if 0 <= i < 64 {
        if bv.sq[i] == Some(Piece { kind: Kind::King, color: c }) {
            i
        } else {
            first_king_from(bv, c, i + 1)
        }
    } else {
        64
    }
}

/// The smallest index holding a king of color `c`, or 64 if none.
pub open spec fn first_king(bv: BoardV, c: Color) -> int {
    first_king_from(bv, c, 0)
}

/// A king of color `c` stands somewhere on the board.
pub open spec fn has_king(bv: BoardV, c: Color) -> bool {
    exists|i: int| 0 <= i < 64 && #[trigger] bv.sq[i] == Some(Piece { kind: Kind::King, color: c })
}

/// If no king of `c` sits below `i`, the search from 0 and from `i` agree.
proof fn lemma_first_king_skip(bv: BoardV, c: Color, i: int)
    requires
        0 <= i <= 64,
        forall|j: int| 0 <= j < i ==> bv.sq[j] != Some(Piece { kind: Kind::King, color: c }),
    ensures
        first_king(bv, c) == first_king_from(bv, c, i),
    decreases i,
{
    if i > 0 {
        lemma_first_king_skip(bv, c, i - 1);
    }
}

/// The first-king search finds a king iff one exists, and finds the least one.
pub proof fn lemma_first_king_characterizes(bv: BoardV, c: Color)
    requires
        bv.sq.len() == 64,
    ensures
        0 <= first_king(bv, c) <= 64,
        has_king(bv, c) <==> first_king(bv, c) < 64,
        first_king(bv, c) < 64 ==> bv.sq[first_king(bv, c)] == Some(
            Piece { kind: Kind::King, color: c },
        ),
{
    lemma_first_king_from_characterizes(bv, c, 0);
}

proof fn lemma_first_king_from_characterizes(bv: BoardV, c: Color, i: int)
    requires
        bv.sq.len() == 64,
        0 <= i <= 64,
    ensures
        i <= first_king_from(bv, c, i) <= 64,
        (exists|j: int|
            i <= j < 64 && #[trigger] bv.sq[j] == Some(Piece { kind: Kind::King, color: c }))
            <==> first_king_from(bv, c, i) < 64,
        first_king_from(bv, c, i) < 64 ==> i <= first_king_from(bv, c, i) < 64 && bv.sq[
            first_king_from(bv, c, i)
        ] == Some(Piece { kind: Kind::King, color: c }),
    decreases 64 - i,
{
    if i < 64 {
        lemma_first_king_from_characterizes(bv, c, i + 1);
    }
}

/// Sign of `x` as an executable value.
pub fn sign(x: isize) -> (r: isize)
    ensures
        r as int == sgn(x as int),
{
    if x > 0 {
        1
    } else if x < 0 {
        -1
    } else {
        0
    }
}

impl Board {
    /// Walk from `from` one step at a time in direction `(df, dr)`: true if
    /// `to` is reached before any occupied square.
    pub fn line_clear(&self, from: usize, to: usize, df: isize, dr: isize) -> (res: bool)
        requires
            self@.wf(),
            from < 64,
            to < 64,
            from != to,
            aligned(from as int, to as int),
            df == sgn(spec_file(to as int) - spec_file(from as int)),
            dr == sgn(spec_rank(to as int) - spec_rank(from as int)),
        ensures
            res == path_clear(self@.sq, from as int, to as int),
    {
        let ghost a = from as int;
        let ghost b = to as int;
        let ghost n = seg_len(a, b);
        let mut f: isize = file_of(from) as isize + df;
        let mut r: isize = rank_of(from) as isize + dr;
        let ghost mut k: int = 1;
        proof {
            assert(1 <= n);
        }
        while in_bounds(f, r)
            invariant
                self@.wf(),
                from < 64,
                to < 64,
                from != to,
                aligned(a, b),
                a == from as int,
                b == to as int,
                n == seg_len(a, b),
                df == sgn(spec_file(b) - spec_file(a)),
                dr == sgn(spec_rank(b) - spec_rank(a)),
                1 <= k <= n,
                f == spec_file(a) + steps(k, df as int),
                r == spec_rank(a) + steps(k, dr as int),
                forall|j: int| 1 <= j < k ==> self@.sq[#[trigger] seg_square(a, b, j)] is None,
            decreases n - k,
        {
            let cur = to_idx(f, r);
            proof {
                assert(cur as int == seg_square(a, b, k));
            }
            if cur == to {
                proof {
                    assert(k == n);
                }
                return true;
            }
            if self.piece_at(cur).is_some() {
                proof {
                    assert(k < n);
                    assert(!path_clear(self@.sq, a, b));
                }
                return false;
            }
            f = f + df;
            r = r + dr;
            proof {
                assert(k < n) by {
                    assert(seg_square(a, b, n) == b);
                }
                k = k + 1;
            }
        }
        proof {
            assert(0 <= spec_file(a) + steps(k, df as int) < 8) by {
                assert(seg_square(a, b, k) == spec_rank(a) + steps(k, dr as int) * 8 + spec_file(a)
                    + steps(k, df as int));
            }
            assert(false);
        }
        false
    }

    /// Whether the piece on `from` (if any) attacks `to`.
    pub fn can_attack(&self, from: usize, to: usize) -> (res: bool)
        requires
            self@.wf(),
            from < 64,
            to < 64,
        ensures
            res == attacks(self@, from as int, to as int),
    {
        if from == to {
            return false;
        }
        let piece = match self.piece_at(from) {
            Some(p) => p,
            None => {
                return false;
            },
        };

        let f_from = file_of(from) as isize;
        let r_from = rank_of(from) as isize;
        let f_to = file_of(to) as isize;
        let r_to = rank_of(to) as isize;
        let df = f_to - f_from;
        let dr = r_to - r_from;
        let adf = if df >= 0 {
            df
        } else {
            -df
        };
        let adr = if dr >= 0 {
            dr
        } else {
            -dr
        };

        match piece.kind {
            Kind::Pawn => {
                let forward: isize = if piece.color == Color::White {
                    1
                } else {
                    -1
                };
                dr == forward && adf == 1
            },
            Kind::Knight => (adf == 1 && adr == 2) || (adf == 2 && adr == 1),
            Kind::King => adf <= 1 && adr <= 1,
            Kind::Bishop => {
                if adf != adr || df == 0 {
                    return false;
                }
                self.line_clear(from, to, sign(df), sign(dr))
            },
            Kind::Rook => {
                if !(df == 0 || dr == 0) {
                    return false;
                }
                self.line_clear(from, to, sign(df), sign(dr))
            },
            Kind::Queen => {
                if !(df == 0 || dr == 0 || adf == adr) {
                    return false;
                }
                self.line_clear(from, to, sign(df), sign(dr))
            },
        }
    }

    /// Whether `square` is attacked by any piece of `by_color`.
    pub fn is_square_attacked(&self, square: usize, by_color: Color) -> (res: bool)
        requires
            self@.wf(),
            square < 64,
        ensures
            res == square_attacked(self@, square as int, by_color),
    {
        let mut from: usize = 0;
        while from < 64
            invariant
                self@.wf(),
                square < 64,
                from <= 64,
                forall|i: int|
                    0 <= i < from ==> !((#[trigger] self@.sq[i]) is Some && self@.sq[i]->0.color
                        == by_color && attacks(self@, i, square as int)),
            decreases 64 - from,
        {
            if let Some(piece) = self.piece_at(from) {
                if piece.color == by_color && self.can_attack(from, square) {
                    return true;
                }
            }
            from += 1;
        }
        false
    }

    /// The square of the first king of `color`, scanning from square 0.
    pub fn find_king(&self, color: Color) -> (res: Option<usize>)
        requires
            self@.wf(),
        ensures
            0 <= first_king(self@, color) <= 64,
            res == if first_king(self@, color) < 64 {
                Some(first_king(self@, color) as usize)
            } else {
                None::<usize>
            },
            res is Some <==> has_king(self@, color),
    {
        proof {
            lemma_first_king_characterizes(self@, color);
        }
        let mut i: usize = 0;
        while i < 64
            invariant
                self@.wf(),
                i <= 64,
                forall|j: int|
                    0 <= j < i ==> self@.sq[j] != Some(Piece { kind: Kind::King, color }),
            decreases 64 - i,
        {
            if let Some(piece) = self.piece_at(i) {
                if piece.kind == Kind::King && piece.color == color {
                    proof {
                        lemma_first_king_skip(self@, color, i as int);
                    }
                    return Some(i);
                }
            }
            i += 1;
        }
        proof {
            lemma_first_king_skip(self@, color, 64);
        }
        None
    }
}

} // verus!
