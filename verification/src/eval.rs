//! Evaluation: scores a position under one of two selectable strategies.
//! "Classic" sums simple material values; "advanced" adds centipawn material,
//! piece-square-table bonuses, and bishop-pair and castling-rights bonuses.
use vstd::prelude::*;

use crate::board::Board;
use crate::board::BoardV;
use crate::board::Color;
use crate::board::Kind;
use crate::board::Piece;
use crate::board::file_of;
use crate::board::idx;
use crate::board::rank_of;
use crate::board::spec_file;
use crate::board::spec_rank;

verus! {

/// The two evaluation strategies.
#[derive(Copy, Clone, Debug, PartialEq, Eq, Structural)]
pub enum EvaluatorType {
    Advanced,
    Classic,
}

/// Select the evaluation strategy used by subsequent search calls: the
/// configuration value is threaded explicitly into evaluation and search.
pub fn set_evaluator_type(current: &mut EvaluatorType, evaluator_type: EvaluatorType)
    ensures
        *final(current) == evaluator_type,
{
    *current = evaluator_type;
}

/// Simple material value of a piece kind (pawn = 1 up to king = 999).
pub open spec fn classic_piece_value(k: Kind) -> int {
    match k {
        Kind::Pawn => 1,
        Kind::Knight => 3,
        Kind::Bishop => 3,
        Kind::Rook => 5,
        Kind::Queen => 9,
        Kind::King => 999,
    }
}

/// Classic score contribution of one square: material value signed by color.
pub open spec fn classic_cell(o: Option<Piece>) -> int {
    match o {
        None => 0,
        Some(p) => if p.color == Color::White {
            classic_piece_value(p.kind)
        } else {
            -classic_piece_value(p.kind)
        },
    }
}

/// Sum of the classic cell scores of the first `n` squares.
pub open spec fn classic_sum(sq: Seq<Option<Piece>>, n: int) -> int
    decreases n,
{
    if n <= 0 {
        0
    } else {
        classic_sum(sq, n - 1) + classic_cell(sq[n - 1])
    }
}

/// Classic score of a position: material summed over the board, positive
/// values favoring White.
pub open spec fn classic_score(bv: BoardV) -> int {
    classic_sum(bv.sq, 64)
}

impl Board {
    /// Classic evaluation of this position: the sum of simple material
    /// values signed by color.
    pub fn evaluate(&self) -> (score: i32)
        requires
            self@.wf(),
        ensures
            score == classic_score(self@),
    {
        evaluate_classic(self)
    }
}

/// Classic evaluation: material values only, positive favoring White.
pub fn evaluate_classic(board: &Board) -> (score: i32)
    requires
        board@.wf(),
    ensures
        score == classic_score(board@),
{
    let mut score: i32 = 0;
    let mut i: usize = 0;
    while i < 64
        invariant
            board@.wf(),
            i <= 64,
            score == classic_sum(board@.sq, i as int),
            -999 * i <= score <= 999 * i,
        decreases 64 - i,
    {
        if let Some(piece) = board.piece_at(i) {
            let value: i32 = match piece.kind {
                Kind::Pawn => 1,
                Kind::Knight => 3,
                Kind::Bishop => 3,
                Kind::Rook => 5,
                Kind::Queen => 9,
                Kind::King => 999,
            };
            if piece.color == Color::White {
                score = score + value;
            } else {
                score = score - value;
            }
        }
        i += 1;
    }
    score
}

/// Centipawn material value of a piece kind.
pub open spec fn piece_value_cp(k: Kind) -> int {
    match k {
        Kind::Pawn => 100,
        Kind::Knight => 320,
        Kind::Bishop => 330,
        Kind::Rook => 500,
        Kind::Queen => 900,
        Kind::King => 20000,
    }
}

/// The square `i` mirrored vertically (ranks reversed, files kept).
pub open spec fn mirror_sq(i: int) -> int {
    (7 - spec_rank(i)) * 8 + spec_file(i)
}

/// Piece-square table for pawns, from White's point of view.
pub open spec fn pawn_pst() -> Seq<int> {
    seq![
        0int, 0, 0, 0, 0, 0, 0, 0,
        50, 50, 50, 50, 50, 50, 50, 50,
        10, 10, 20, 30, 30, 20, 10, 10,
        5, 5, 10, 25, 25, 10, 5, 5,
        0, 0, 0, 20, 20, 0, 0, 0,
        5, -5, -10, 0, 0, -10, -5, 5,
        5, 10, 10, -20, -20, 10, 10, 5,
        0, 0, 0, 0, 0, 0, 0, 0,
    ]
}

/// Piece-square table for knights.
pub open spec fn knight_pst() -> Seq<int> {
    seq![
        -50int, -40, -30, -30, -30, -30, -40, -50,
        -40, -20, 0, 0, 0, 0, -20, -40,
        -30, 0, 10, 15, 15, 10, 0, -30,
        -30, 5, 15, 20, 20, 15, 5, -30,
        -30, 0, 15, 20, 20, 15, 0, -30,
        -30, 5, 10, 15, 15, 10, 5, -30,
        -40, -20, 0, 5, 5, 0, -20, -40,
        -50, -40, -30, -30, -30, -30, -40, -50,
    ]
}

/// Piece-square table for bishops.
pub open spec fn bishop_pst() -> Seq<int> {
    seq![
        -20int, -10, -10, -10, -10, -10, -10, -20,
        -10, 0, 0, 0, 0, 0, 0, -10,
        -10, 0, 5, 10, 10, 5, 0, -10,
        -10, 5, 5, 10, 10, 5, 5, -10,
        -10, 0, 10, 10, 10, 10, 0, -10,
        -10, 10, 10, 10, 10, 10, 10, -10,
        -10, 5, 0, 0, 0, 0, 5, -10,
        -20, -10, -10, -10, -10, -10, -10, -20,
    ]
}

/// Piece-square table for rooks.
pub open spec fn rook_pst() -> Seq<int> {
    seq![
        0int, 0, 0, 0, 0, 0, 0, 0,
        5, 10, 10, 10, 10, 10, 10, 5,
        -5, 0, 0, 0, 0, 0, 0, -5,
        -5, 0, 0, 0, 0, 0, 0, -5,
        -5, 0, 0, 0, 0, 0, 0, -5,
        -5, 0, 0, 0, 0, 0, 0, -5,
        -5, 0, 0, 0, 0, 0, 0, -5,
        0, 0, 0, 5, 5, 0, 0, 0,
    ]
}

/// Piece-square table for queens.
pub open spec fn queen_pst() -> Seq<int> {
    seq![
        -20int, -10, -10, -5, -5, -10, -10, -20,
        -10, 0, 0, 0, 0, 0, 0, -10,
        -10, 0, 5, 5, 5, 5, 0, -10,
        -5, 0, 5, 5, 5, 5, 0, -5,
        0, 0, 5, 5, 5, 5, 0, -5,
        -10, 5, 5, 5, 5, 5, 0, -10,
        -10, 0, 5, 0, 0, 0, 0, -10,
        -20, -10, -10, -5, -5, -10, -10, -20,
    ]
}

/// Piece-square table for the king in the middlegame.
pub open spec fn king_mid_pst() -> Seq<int> {
    seq![
        -30int, -40, -40, -50, -50, -40, -40, -30,
        -30, -40, -40, -50, -50, -40, -40, -30,
        -30, -40, -40, -50, -50, -40, -40, -30,
        -30, -40, -40, -50, -50, -40, -40, -30,
        -20, -30, -30, -40, -40, -30, -30, -20,
        -10, -20, -20, -20, -20, -20, -20, -10,
        20, 20, 0, 0, 0, 0, 20, 20,
        20, 30, 10, 0, 0, 10, 30, 20,
    ]
}

/// Piece-square table for the king in the endgame.
pub open spec fn king_end_pst() -> Seq<int> {
    seq![
        -50int, -40, -30, -20, -20, -30, -40, -50,
        -30, -20, -10, 0, 0, -10, -20, -30,
        -30, -10, 20, 30, 30, 20, -10, -30,
        -30, -10, 30, 40, 40, 30, -10, -30,
        -30, -10, 30, 40, 40, 30, -10, -30,
        -30, -10, 20, 30, 30, 20, -10, -30,
        -30, -30, 0, 0, 0, 0, -30, -30,
        -50, -30, -30, -30, -30, -30, -30, -50,
    ]
}

/// The table entry for a piece kind on (White-oriented) square `i`.
pub open spec fn pst_value(k: Kind, endgame: bool, i: int) -> int {
    match k {
        Kind::Pawn => pawn_pst()[i],
        Kind::Knight => knight_pst()[i],
        Kind::Bishop => bishop_pst()[i],
        Kind::Rook => rook_pst()[i],
        Kind::Queen => queen_pst()[i],
        Kind::King => if endgame {
            king_end_pst()[i]
        } else {
            king_mid_pst()[i]
        },
    }
}

/// Positional value of `p` on square `i`: its kind's table entry, read on
/// the vertically mirrored square for Black.
pub open spec fn spec_positional_value(p: Piece, i: int, endgame: bool) -> int {
    if p.color == Color::White {
        pst_value(p.kind, endgame, i)
    } else {
        pst_value(p.kind, endgame, mirror_sq(i))
    }
}

/// Number of pieces among the first `n` squares.
pub open spec fn count_pieces(sq: Seq<Option<Piece>>, n: int) -> int
    decreases n,
{
    if n <= 0 {
        0
    } else {
        count_pieces(sq, n - 1) + if sq[n - 1] is Some {
            1int
        } else {
            0int
        }
    }
}

/// Number of bishops of color `c` among the first `n` squares.
pub open spec fn count_bishops(sq: Seq<Option<Piece>>, c: Color, n: int) -> int
    decreases n,
{
    if n <= 0 {
        0
    } else {
        count_bishops(sq, c, n - 1) + if sq[n - 1] == Some(
            Piece { kind: Kind::Bishop, color: c },
        ) {
            1int
        } else {
            0int
        }
    }
}

/// Advanced score contribution of one square: centipawn material plus the
/// positional table value, signed by color.
pub open spec fn advanced_cell(o: Option<Piece>, i: int, endgame: bool) -> int {
    match o {
        None => 0,
        Some(p) => {
            let v = piece_value_cp(p.kind) + spec_positional_value(p, i, endgame);
            if p.color == Color::White {
                v
            } else {
                -v
            }
        },
    }
}

/// Sum of the advanced cell scores of the first `n` squares.
pub open spec fn advanced_sum(sq: Seq<Option<Piece>>, endgame: bool, n: int) -> int
    decreases n,
{
    if n <= 0 {
        0
    } else {
        advanced_sum(sq, endgame, n - 1) + advanced_cell(sq[n - 1], n - 1, endgame)
    }
}

/// The endgame king table applies once at most 14 pieces remain.
pub open spec fn spec_is_endgame(bv: BoardV) -> bool {
    count_pieces(bv.sq, 64) <= 14
}

/// The bishop-pair bonus.
pub open spec fn bishop_pair_bonus() -> int {
    50
}

/// The castling-rights bonus.
pub open spec fn castling_rights_bonus() -> int {
    15
}

/// Advanced score of a position: material and positional sum, plus fixed
/// bonuses for holding a bishop pair and for retaining any castling right.
pub open spec fn advanced_score(bv: BoardV) -> int {
    advanced_sum(bv.sq, spec_is_endgame(bv), 64) + (if count_bishops(bv.sq, Color::White, 64)
        >= 2 {
        bishop_pair_bonus()
    } else {
        0int
    }) - (if count_bishops(bv.sq, Color::Black, 64) >= 2 {
        bishop_pair_bonus()
    } else {
        0int
    }) + (if bv.castle_wk || bv.castle_wq {
        castling_rights_bonus()
    } else {
        0int
    }) - (if bv.castle_bk || bv.castle_bq {
        castling_rights_bonus()
    } else {
        0int
    })
}

/// The score of `bv` under strategy `t`.
pub open spec fn spec_evaluate(bv: BoardV, t: EvaluatorType) -> int {
    match t {
        EvaluatorType::Classic => classic_score(bv),
        EvaluatorType::Advanced => advanced_score(bv),
    }
}

/// Centipawn material value of a piece kind.
pub fn get_piece_value(kind: Kind) -> (v: i32)
    ensures
        v == piece_value_cp(kind),
        100 <= v <= 20000,
{
    match kind {
        Kind::Pawn => 100,
        Kind::Knight => 320,
        Kind::Bishop => 330,
        Kind::Rook => 500,
        Kind::Queen => 900,
        Kind::King => 20000,
    }
}

fn pawn_table(i: usize) -> (v: i32)
    requires
        i < 64,
    ensures
        v == pawn_pst()[i as int],
        -50 <= v <= 50,
{
    let t: [i32; 64] = [
        0, 0, 0, 0, 0, 0, 0, 0,
        50, 50, 50, 50, 50, 50, 50, 50,
        10, 10, 20, 30, 30, 20, 10, 10,
        5, 5, 10, 25, 25, 10, 5, 5,
        0, 0, 0, 20, 20, 0, 0, 0,
        5, -5, -10, 0, 0, -10, -5, 5,
        5, 10, 10, -20, -20, 10, 10, 5,
        0, 0, 0, 0, 0, 0, 0, 0,
    ];
    t[i]
}

fn knight_table(i: usize) -> (v: i32)
    requires
        i < 64,
    ensures
        v == knight_pst()[i as int],
        -50 <= v <= 50,
{
    let t: [i32; 64] = [
        -50, -40, -30, -30, -30, -30, -40, -50,
        -40, -20, 0, 0, 0, 0, -20, -40,
        -30, 0, 10, 15, 15, 10, 0, -30,
        -30, 5, 15, 20, 20, 15, 5, -30,
        -30, 0, 15, 20, 20, 15, 0, -30,
        -30, 5, 10, 15, 15, 10, 5, -30,
        -40, -20, 0, 5, 5, 0, -20, -40,
        -50, -40, -30, -30, -30, -30, -40, -50,
    ];
    t[i]
}

fn bishop_table(i: usize) -> (v: i32)
    requires
        i < 64,
    ensures
        v == bishop_pst()[i as int],
        -50 <= v <= 50,
{
    let t: [i32; 64] = [
        -20, -10, -10, -10, -10, -10, -10, -20,
        -10, 0, 0, 0, 0, 0, 0, -10,
        -10, 0, 5, 10, 10, 5, 0, -10,
        -10, 5, 5, 10, 10, 5, 5, -10,
        -10, 0, 10, 10, 10, 10, 0, -10,
        -10, 10, 10, 10, 10, 10, 10, -10,
        -10, 5, 0, 0, 0, 0, 5, -10,
        -20, -10, -10, -10, -10, -10, -10, -20,
    ];
    t[i]
}

fn rook_table(i: usize) -> (v: i32)
    requires
        i < 64,
    ensures
        v == rook_pst()[i as int],
        -50 <= v <= 50,
{
    let t: [i32; 64] = [
        0, 0, 0, 0, 0, 0, 0, 0,
        5, 10, 10, 10, 10, 10, 10, 5,
        -5, 0, 0, 0, 0, 0, 0, -5,
        -5, 0, 0, 0, 0, 0, 0, -5,
        -5, 0, 0, 0, 0, 0, 0, -5,
        -5, 0, 0, 0, 0, 0, 0, -5,
        -5, 0, 0, 0, 0, 0, 0, -5,
        0, 0, 0, 5, 5, 0, 0, 0,
    ];
    t[i]
}

fn queen_table(i: usize) -> (v: i32)
    requires
        i < 64,
    ensures
        v == queen_pst()[i as int],
        -50 <= v <= 50,
{
    let t: [i32; 64] = [
        -20, -10, -10, -5, -5, -10, -10, -20,
        -10, 0, 0, 0, 0, 0, 0, -10,
        -10, 0, 5, 5, 5, 5, 0, -10,
        -5, 0, 5, 5, 5, 5, 0, -5,
        0, 0, 5, 5, 5, 5, 0, -5,
        -10, 5, 5, 5, 5, 5, 0, -10,
        -10, 0, 5, 0, 0, 0, 0, -10,
        -20, -10, -10, -5, -5, -10, -10, -20,
    ];
    t[i]
}

fn king_mid_table(i: usize) -> (v: i32)
    requires
        i < 64,
    ensures
        v == king_mid_pst()[i as int],
        -50 <= v <= 50,
{
    let t: [i32; 64] = [
        -30, -40, -40, -50, -50, -40, -40, -30,
        -30, -40, -40, -50, -50, -40, -40, -30,
        -30, -40, -40, -50, -50, -40, -40, -30,
        -30, -40, -40, -50, -50, -40, -40, -30,
        -20, -30, -30, -40, -40, -30, -30, -20,
        -10, -20, -20, -20, -20, -20, -20, -10,
        20, 20, 0, 0, 0, 0, 20, 20,
        20, 30, 10, 0, 0, 10, 30, 20,
    ];
    t[i]
}

fn king_end_table(i: usize) -> (v: i32)
    requires
        i < 64,
    ensures
        v == king_end_pst()[i as int],
        -50 <= v <= 50,
{
    let t: [i32; 64] = [
        -50, -40, -30, -20, -20, -30, -40, -50,
        -30, -20, -10, 0, 0, -10, -20, -30,
        -30, -10, 20, 30, 30, 20, -10, -30,
        -30, -10, 30, 40, 40, 30, -10, -30,
        -30, -10, 30, 40, 40, 30, -10, -30,
        -30, -10, 20, 30, 30, 20, -10, -30,
        -30, -30, 0, 0, 0, 0, -30, -30,
        -50, -30, -30, -30, -30, -30, -30, -50,
    ];
    t[i]
}

/// Positional table value of `piece` on `square`, reading the vertically
/// mirrored square for Black, with the king's table selected by game phase.
pub fn get_positional_value(piece: Piece, square: usize, is_endgame: bool) -> (v: i32)
    requires
        square < 64,
    ensures
        v == spec_positional_value(piece, square as int, is_endgame),
        -50 <= v <= 50,
{
    let index: usize = if piece.color == Color::White {
        square
    } else {
        idx(file_of(square), 7 - rank_of(square))
    };
    match piece.kind {
        Kind::Pawn => pawn_table(index),
        Kind::Knight => knight_table(index),
        Kind::Bishop => bishop_table(index),
        Kind::Rook => rook_table(index),
        Kind::Queen => queen_table(index),
        Kind::King => {
            if is_endgame {
                king_end_table(index)
            } else {
                king_mid_table(index)
            }
        },
    }
}

/// Advanced evaluation: centipawn material plus positional table values,
/// plus bishop-pair and castling-rights bonuses, positive favoring White.
pub fn evaluate_advanced(board: &Board) -> (score: i32)
    requires
        board@.wf(),
    ensures
        score == advanced_score(board@),
{
    let mut piece_count: i32 = 0;
    let mut i: usize = 0;
    while i < 64
        invariant
            board@.wf(),
            i <= 64,
            piece_count == count_pieces(board@.sq, i as int),
            0 <= piece_count <= i,
        decreases 64 - i,
    {
        if board.piece_at(i).is_some() {
            piece_count = piece_count + 1;
        }
        i += 1;
    }
    let is_endgame = piece_count <= 14;

    let mut score: i32 = 0;
    let mut white_bishops: i32 = 0;
    let mut black_bishops: i32 = 0;
    let mut j: usize = 0;
    while j < 64
        invariant
            board@.wf(),
            j <= 64,
            is_endgame == spec_is_endgame(board@),
            score == advanced_sum(board@.sq, is_endgame, j as int),
            -20050 * j <= score <= 20050 * j,
            white_bishops == count_bishops(board@.sq, Color::White, j as int),
            black_bishops == count_bishops(board@.sq, Color::Black, j as int),
            0 <= white_bishops <= j,
            0 <= black_bishops <= j,
        decreases 64 - j,
    {
        if let Some(piece) = board.piece_at(j) {
            let material_value = get_piece_value(piece.kind);
            let positional_value = get_positional_value(piece, j, is_endgame);
            let total_value = material_value + positional_value;
            if piece.color == Color::White {
                score = score + total_value;
                if piece.kind == Kind::Bishop {
                    white_bishops = white_bishops + 1;
                }
            } else {
                score = score - total_value;
                if piece.kind == Kind::Bishop {
                    black_bishops = black_bishops + 1;
                }
            }
        }
        j += 1;
    }

    if white_bishops >= 2 {
        score = score + 50;
    }
    if black_bishops >= 2 {
        score = score - 50;
    }

    if board.castle_wk || board.castle_wq {
        score = score + 15;
    }
    if board.castle_bk || board.castle_bq {
        score = score - 15;
    }

    score
}

/// Evaluate `board` under the selected strategy, positive favoring White.
pub fn evaluate(board: &Board, evaluator_type: EvaluatorType) -> (score: i32)
    requires
        board@.wf(),
    ensures
        score == spec_evaluate(board@, evaluator_type),
{
    match evaluator_type {
        EvaluatorType::Classic => evaluate_classic(board),
        EvaluatorType::Advanced => evaluate_advanced(board),
    }
}


/// Sum of `f` over `0 <= i < n`.
pub open spec fn fsum(f: spec_fn(int) -> int, n: int) -> int
    decreases n,
{
    if n <= 0 {
        0
    } else {
        fsum(f, n - 1) + f(n - 1)
    }
}

/// The sum of a negated function is the negated sum.
proof fn lemma_fsum_neg(f: spec_fn(int) -> int, g: spec_fn(int) -> int, n: int)
    requires
        forall|i: int| 0 <= i < n ==> #[trigger] f(i) == -g(i),
    ensures
        fsum(f, n) == -fsum(g, n),
    decreases n,
{
    if n > 0 {
        lemma_fsum_neg(f, g, n - 1);
    }
}

/// Sum of `f` over the `k` first files of rank `r`.
pub open spec fn frow(f: spec_fn(int) -> int, r: int, k: int) -> int
    decreases k,
{
    if k <= 0 {
        0
    } else {
        frow(f, r, k - 1) + f(r * 8 + (k - 1))
    }
}

/// A prefix sum splits into whole rows plus a partial row.
proof fn lemma_fsum_row_split(f: spec_fn(int) -> int, r: int, k: int)
    requires
        0 <= r,
        0 <= k <= 8,
    ensures
        fsum(f, r * 8 + k) == fsum(f, r * 8) + frow(f, r, k),
    decreases k,
{
    if k > 0 {
        lemma_fsum_row_split(f, r, k - 1);
    }
}

/// Corresponding rows of a function and its rank-mirrored reindexing sum
/// alike.
proof fn lemma_frow_mirror(f: spec_fn(int) -> int, g: spec_fn(int) -> int, r: int, k: int)
    requires
        0 <= r < 8,
        0 <= k <= 8,
        forall|i: int| 0 <= i < 64 ==> #[trigger] g(i) == f(mirror_sq(i)),
    ensures
        frow(g, r, k) == frow(f, 7 - r, k),
    decreases k,
{
    if k > 0 {
        lemma_frow_mirror(f, g, r, k - 1);
        assert(g(r * 8 + (k - 1)) == f(mirror_sq(r * 8 + (k - 1))));
        assert(mirror_sq(r * 8 + (k - 1)) == (7 - r) * 8 + (k - 1));
    }
}

/// Reindexing a 64-square sum by the vertical mirror leaves it unchanged.
proof fn lemma_fsum_mirror_reindex(f: spec_fn(int) -> int, g: spec_fn(int) -> int)
    requires
        forall|i: int| 0 <= i < 64 ==> #[trigger] g(i) == f(mirror_sq(i)),
    ensures
        fsum(g, 64) == fsum(f, 64),
{
    assert forall|rr: int| 0 <= rr < 8 implies frow(g, rr, 8) == frow(f, 7 - rr, 8) by {
        lemma_frow_mirror(f, g, rr, 8);
    }
    lemma_fsum_row_split(g, 0, 8);
    lemma_fsum_row_split(g, 1, 8);
    lemma_fsum_row_split(g, 2, 8);
    lemma_fsum_row_split(g, 3, 8);
    lemma_fsum_row_split(g, 4, 8);
    lemma_fsum_row_split(g, 5, 8);
    lemma_fsum_row_split(g, 6, 8);
    lemma_fsum_row_split(g, 7, 8);
    lemma_fsum_row_split(f, 0, 8);
    lemma_fsum_row_split(f, 1, 8);
    lemma_fsum_row_split(f, 2, 8);
    lemma_fsum_row_split(f, 3, 8);
    lemma_fsum_row_split(f, 4, 8);
    lemma_fsum_row_split(f, 5, 8);
    lemma_fsum_row_split(f, 6, 8);
    lemma_fsum_row_split(f, 7, 8);
    assert(fsum(g, 64) == frow(g, 0, 8) + frow(g, 1, 8) + frow(g, 2, 8) + frow(g, 3, 8) + frow(
        g,
        4,
        8,
    ) + frow(g, 5, 8) + frow(g, 6, 8) + frow(g, 7, 8));
    assert(fsum(f, 64) == frow(f, 0, 8) + frow(f, 1, 8) + frow(f, 2, 8) + frow(f, 3, 8) + frow(
        f,
        4,
        8,
    ) + frow(f, 5, 8) + frow(f, 6, 8) + frow(f, 7, 8));
}

/// A prefix material sum in indexed-sum form.
proof fn lemma_classic_sum_fsum(sq: Seq<Option<Piece>>, n: int)
    ensures
        classic_sum(sq, n) == fsum(|i: int| classic_cell(sq[i]), n),
    decreases n,
{
    if n > 0 {
        lemma_classic_sum_fsum(sq, n - 1);
    }
}

/// A prefix advanced sum in indexed-sum form.
proof fn lemma_advanced_sum_fsum(sq: Seq<Option<Piece>>, endgame: bool, n: int)
    ensures
        advanced_sum(sq, endgame, n) == fsum(|i: int| advanced_cell(sq[i], i, endgame), n),
    decreases n,
{
    if n > 0 {
        lemma_advanced_sum_fsum(sq, endgame, n - 1);
    }
}

/// A prefix piece count in indexed-sum form.
proof fn lemma_count_pieces_fsum(sq: Seq<Option<Piece>>, n: int)
    ensures
        count_pieces(sq, n) == fsum(
            |i: int|
                if sq[i] is Some {
                    1int
                } else {
                    0int
                },
            n,
        ),
    decreases n,
{
    if n > 0 {
        lemma_count_pieces_fsum(sq, n - 1);
    }
}

/// A prefix bishop count in indexed-sum form.
proof fn lemma_count_bishops_fsum(sq: Seq<Option<Piece>>, c: Color, n: int)
    ensures
        count_bishops(sq, c, n) == fsum(
            |i: int|
                if sq[i] == Some(Piece { kind: Kind::Bishop, color: c }) {
                    1int
                } else {
                    0int
                },
            n,
        ),
    decreases n,
{
    if n > 0 {
        lemma_count_bishops_fsum(sq, c, n - 1);
    }
}

/// The same piece for the other side.
pub open spec fn mirror_piece(p: Piece) -> Piece {
    Piece { kind: p.kind, color: crate::board::spec_other(p.color) }
}

/// The cell's piece for the other side.
pub open spec fn mirror_cell(o: Option<Piece>) -> Option<Piece> {
    match o {
        None => None,
        Some(p) => Some(mirror_piece(p)),
    }
}

/// The position with all piece colors swapped and all ranks mirrored: side
/// to move, castling rights, and the en-passant target mirror along.
pub open spec fn mirror_board(bv: BoardV) -> BoardV {
    BoardV {
        sq: Seq::new(64, |i: int| mirror_cell(bv.sq[mirror_sq(i)])),
        side: crate::board::spec_other(bv.side),
        castle_wk: bv.castle_bk,
        castle_wq: bv.castle_bq,
        castle_bk: bv.castle_wk,
        castle_bq: bv.castle_wq,
        ep_square: match bv.ep_square {
            Some(e) => Some(mirror_sq(e as int) as usize),
            None => None,
        },
        halfmove_clock: bv.halfmove_clock,
        fullmove_number: bv.fullmove_number,
    }
}

/// Evaluation is antisymmetric under swapping all piece colors and
/// mirroring ranks, for both strategies.
pub proof fn lemma_eval_antisymmetric(bv: BoardV, t: EvaluatorType)
    requires
        bv.wf(),
    ensures
        spec_evaluate(mirror_board(bv), t) == -spec_evaluate(bv, t),
{
    let m = mirror_board(bv);
    assert forall|i: int| 0 <= i < 64 implies mirror_sq(mirror_sq(i)) == i by {}

    // classic
    let cg = |i: int| classic_cell(m.sq[i]);
    let cf = |i: int| -classic_cell(bv.sq[i]);
    assert forall|i: int| 0 <= i < 64 implies #[trigger] cg(i) == cf(mirror_sq(i)) by {
        assert(m.sq[i] == mirror_cell(bv.sq[mirror_sq(i)]));
    }
    lemma_fsum_mirror_reindex(cf, cg);
    lemma_classic_sum_fsum(m.sq, 64);
    lemma_classic_sum_fsum(bv.sq, 64);
    lemma_fsum_neg(cf, |i: int| classic_cell(bv.sq[i]), 64);
    assert(classic_score(m) == -classic_score(bv));

    // piece count
    let pg = |i: int|
        if m.sq[i] is Some {
            1int
        } else {
            0int
        };
    let pf = |i: int|
        if bv.sq[i] is Some {
            1int
        } else {
            0int
        };
    assert forall|i: int| 0 <= i < 64 implies #[trigger] pg(i) == pf(mirror_sq(i)) by {
        assert(m.sq[i] == mirror_cell(bv.sq[mirror_sq(i)]));
    }
    lemma_fsum_mirror_reindex(pf, pg);
    lemma_count_pieces_fsum(m.sq, 64);
    lemma_count_pieces_fsum(bv.sq, 64);
    assert(count_pieces(m.sq, 64) == count_pieces(bv.sq, 64));
    let endgame = spec_is_endgame(bv);
    assert(spec_is_endgame(m) == endgame);

    // advanced positional and material sum
    let ag = |i: int| advanced_cell(m.sq[i], i, endgame);
    let af = |i: int| -advanced_cell(bv.sq[i], i, endgame);
    assert forall|i: int| 0 <= i < 64 implies #[trigger] ag(i) == af(mirror_sq(i)) by {
        let j = mirror_sq(i);
        assert(m.sq[i] == mirror_cell(bv.sq[j]));
        match bv.sq[j] {
            None => {},
            Some(p) => {
                assert(spec_positional_value(mirror_piece(p), i, endgame)
                    == spec_positional_value(p, j, endgame)) by {
                    assert(mirror_sq(i) == j && mirror_sq(j) == i);
                }
            },
        }
    }
    lemma_fsum_mirror_reindex(af, ag);
    lemma_advanced_sum_fsum(m.sq, endgame, 64);
    lemma_advanced_sum_fsum(bv.sq, endgame, 64);
    lemma_fsum_neg(af, |i: int| advanced_cell(bv.sq[i], i, endgame), 64);
    assert(advanced_sum(m.sq, endgame, 64) == -advanced_sum(bv.sq, endgame, 64));

    // bishop counts swap colors
    let bwg = |i: int|
        if m.sq[i] == Some(Piece { kind: Kind::Bishop, color: Color::White }) {
            1int
        } else {
            0int
        };
    let bbf = |i: int|
        if bv.sq[i] == Some(Piece { kind: Kind::Bishop, color: Color::Black }) {
            1int
        } else {
            0int
        };
    assert forall|i: int| 0 <= i < 64 implies #[trigger] bwg(i) == bbf(mirror_sq(i)) by {
        assert(m.sq[i] == mirror_cell(bv.sq[mirror_sq(i)]));
    }
    lemma_fsum_mirror_reindex(bbf, bwg);
    lemma_count_bishops_fsum(m.sq, Color::White, 64);
    lemma_count_bishops_fsum(bv.sq, Color::Black, 64);
    assert(count_bishops(m.sq, Color::White, 64) == count_bishops(bv.sq, Color::Black, 64));

    let bbg = |i: int|
        if m.sq[i] == Some(Piece { kind: Kind::Bishop, color: Color::Black }) {
            1int
        } else {
            0int
        };
    let bwf = |i: int|
        if bv.sq[i] == Some(Piece { kind: Kind::Bishop, color: Color::White }) {
            1int
        } else {
            0int
        };
    assert forall|i: int| 0 <= i < 64 implies #[trigger] bbg(i) == bwf(mirror_sq(i)) by {
        assert(m.sq[i] == mirror_cell(bv.sq[mirror_sq(i)]));
    }
    lemma_fsum_mirror_reindex(bwf, bbg);
    lemma_count_bishops_fsum(m.sq, Color::Black, 64);
    lemma_count_bishops_fsum(bv.sq, Color::White, 64);
    assert(count_bishops(m.sq, Color::Black, 64) == count_bishops(bv.sq, Color::White, 64));

    assert(advanced_score(m) == -advanced_score(bv));
}

/// Both strategies score the standard starting position as zero: it is its
/// own color-swapped rank mirror, so its score equals its own negation.
pub proof fn lemma_start_eval_zero(t: EvaluatorType)
    ensures
        spec_evaluate(crate::board::start_board(), t) == 0,
{
    let s = crate::board::start_board();
    let m = mirror_board(s);
    assert forall|i: int| 0 <= i < 64 implies m.sq[i] == s.sq[i] by {
        let j = mirror_sq(i);
        assert(0 <= j < 64);
        assert(m.sq[i] == mirror_cell(crate::board::start_sq(j)));
        assert(s.sq[i] == crate::board::start_sq(i));
        assert(spec_rank(j) == 7 - spec_rank(i) && spec_file(j) == spec_file(i));
    }
    assert(m.sq =~= s.sq);
    lemma_eval_antisymmetric(s, t);
    assert(classic_score(m) == classic_score(s));
    assert(advanced_score(m) == advanced_score(s));
}

} // verus!
