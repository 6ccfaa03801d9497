//! Search engine: iterative-deepening minimax over the legal-move generator
//! and the evaluation, bounded by a wall-clock deadline. A timeout never
//! surfaces as an error: the search returns the last fully completed answer.
use vstd::prelude::*;

use std::time::Duration;
use std::time::Instant;

use crate::board::Board;
use crate::board::BoardV;
use crate::board::Color;
use crate::board::Move;
use crate::board::board_after;
use crate::eval::EvaluatorType;
use crate::eval::evaluate;
use crate::eval::spec_evaluate;
use crate::movegen::lemma_pseudo_applicable;
use crate::movegen::no_legal_move;
use crate::movegen::pseudo_legal;
use crate::movegen::spec_checkmate;
use crate::movegen::spec_stalemate;
use crate::notation::legal_move_of;

verus! {

#[verifier::external_type_specification]
#[verifier::external_body]
pub struct ExInstant(Instant);

/// Relies on Instant::now: reads the wall clock; nothing is promised of the
/// instant it returns.
#[verifier::external_body]
fn instant_now() -> Instant {
    Instant::now()
}

/// Relies on Instant::elapsed: the wall-clock time since `start`; nothing is
/// promised of the duration it returns.
#[verifier::external_body]
fn instant_elapsed(start: &Instant) -> Duration {
    start.elapsed()
}

/// Relies on Duration's total order: whether `a` is at least `b`. Callers
/// treat the answer as arbitrary, so nothing is promised of it.
#[verifier::external_body]
fn duration_at_least(a: &Duration, b: &Duration) -> bool {
    *a >= *b
}

/// Whether the wall clock has passed `start` by at least `timeout`. The
/// search is verified for every answer this gives.
fn deadline_expired(start: &Instant, timeout: &Duration) -> bool {
    let elapsed = instant_elapsed(start);
    duration_at_least(&elapsed, timeout)
}

/// The score of a position treated as a search leaf: a large-magnitude
/// value favoring the side not to move for checkmate, zero for stalemate,
/// and otherwise the evaluation under the selected strategy.
pub open spec fn leaf_value(bv: BoardV, maximizing: bool, t: EvaluatorType) -> int {
    if spec_checkmate(bv) {
        if maximizing {
            -100000int
        } else {
            100000int
        }
    } else if spec_stalemate(bv) {
        0int
    } else {
        spec_evaluate(bv, t)
    }
}

/// What minimax may return for `bv` searched to `depth`: at depth zero or a
/// finished game exactly the leaf score; with no legal move the mate
/// sentinel; at an inner node a value bounded by the accumulator's sentinel.
pub open spec fn minimax_post(
    bv: BoardV,
    depth: int,
    maximizing: bool,
    t: EvaluatorType,
    v: int,
) -> bool {
    if depth <= 0 || spec_checkmate(bv) || spec_stalemate(bv) {
        v == leaf_value(bv, maximizing, t)
    } else if no_legal_move(bv) {
        v == if maximizing {
            -100000int
        } else {
            100000int
        }
    } else if maximizing {
        v >= -100001
    } else {
        v <= 100001
    }
}

impl Board {
    /// Minimax value of this position searched to `depth`, or nothing when
    /// the deadline passed before the subtree was fully explored.
    #[verifier::rlimit(100)]
    pub fn minimax(
        &self,
        depth: u32,
        maximizing: bool,
        start_time: &Instant,
        timeout: &Duration,
        evaluator: EvaluatorType,
    ) -> (res: Option<i32>)
        requires
            self@.wf(),
        ensures
            res is Some ==> minimax_post(self@, depth as int, maximizing, evaluator, res->0 as int),
        decreases depth,
    {
        if deadline_expired(start_time, timeout) {
            return None;
        }

        if depth == 0 || self.is_game_over() {
            if self.is_checkmate() {
                return Some(
                    if maximizing {
                        -100000
                    } else {
                        100000
                    },
                );
            }
            if self.is_stalemate() {
                return Some(0);
            }
            return Some(evaluate(self, evaluator));
        }

        let moves = self.generate_legal_moves();
        if moves.len() == 0 {
            proof {
                assert forall|m: Move| !(crate::movegen::pseudo_legal(self@, m)
                    && crate::movegen::move_is_legal(self@, m)) by {
                    if crate::movegen::pseudo_legal(self@, m) && crate::movegen::move_is_legal(
                        self@,
                        m,
                    ) {
                        assert(moves@.contains(m));
                    }
                }
                assert(no_legal_move(self@));
            }
            return Some(
                if maximizing {
                    -100000
                } else {
                    100000
                },
            );
        }
        proof {
            assert(moves@.contains(moves@[0]));
            assert(legal_move_of(self@, moves@[0]));
            assert(!no_legal_move(self@));
        }

        if maximizing {
            let mut max_eval: i32 = -100001;
            let mut i: usize = 0;
            while i < moves.len()
                invariant
                    self@.wf(),
                    depth >= 1,
                    i <= moves@.len(),
                    forall|m: Move| moves@.contains(m) <==> legal_move_of(self@, m),
                    max_eval >= -100001,
                decreases moves@.len() - i,
            {
                let m = moves[i];
                proof {
                    assert(moves@.contains(moves@[i as int]));
                    lemma_pseudo_applicable(self@, m);
                }
                let mut board_copy = self.clone_board();
                board_copy.make_move(m);
                let eval = match board_copy.minimax(
                    depth - 1,
                    false,
                    start_time,
                    timeout,
                    evaluator,
                ) {
                    Some(v) => v,
                    None => {
                        return None;
                    },
                };
                if eval > max_eval {
                    max_eval = eval;
                }
                i += 1;
            }
            Some(max_eval)
        } else {
            let mut min_eval: i32 = 100001;
            let mut i: usize = 0;
            while i < moves.len()
                invariant
                    self@.wf(),
                    depth >= 1,
                    i <= moves@.len(),
                    forall|m: Move| moves@.contains(m) <==> legal_move_of(self@, m),
                    min_eval <= 100001,
                decreases moves@.len() - i,
            {
                let m = moves[i];
                proof {
                    assert(moves@.contains(moves@[i as int]));
                    lemma_pseudo_applicable(self@, m);
                }
                let mut board_copy = self.clone_board();
                board_copy.make_move(m);
                let eval = match board_copy.minimax(
                    depth - 1,
                    true,
                    start_time,
                    timeout,
                    evaluator,
                ) {
                    Some(v) => v,
                    None => {
                        return None;
                    },
                };
                if eval < min_eval {
                    min_eval = eval;
                }
                i += 1;
            }
            Some(min_eval)
        }
    }

    /// The best move found by a full-width minimax of this position at
    /// `depth`, or nothing when the deadline passed first or no legal move
    /// exists. A returned move is legal, and unless no subtree beat the
    /// initial sentinel, the tracked best value is its subtree's value.
    #[verifier::rlimit(100)]
    pub fn search_at_depth(
        &self,
        depth: u32,
        start_time: &Instant,
        timeout: &Duration,
        evaluator: EvaluatorType,
    ) -> (res: Option<Move>)
        requires
            self@.wf(),
            depth >= 1,
        ensures
            res is Some ==> legal_move_of(self@, res->0),
            res is Some && depth == 1 && self@.side == Color::White ==> forall|m: Move|
                #[trigger] legal_move_of(self@, m) ==> leaf_value(
                    board_after(self@, m),
                    false,
                    evaluator,
                ) <= leaf_value(board_after(self@, res->0), false, evaluator) || leaf_value(
                    board_after(self@, m),
                    false,
                    evaluator,
                ) <= -100001,
            res is Some && depth == 1 && self@.side == Color::Black ==> forall|m: Move|
                #[trigger] legal_move_of(self@, m) ==> leaf_value(
                    board_after(self@, m),
                    true,
                    evaluator,
                ) >= leaf_value(board_after(self@, res->0), true, evaluator) || leaf_value(
                    board_after(self@, m),
                    true,
                    evaluator,
                ) >= 100001,
    {
        let moves = self.generate_legal_moves();
        if moves.len() == 0 {
            return None;
        }
        proof {
            assert(moves@.contains(moves@[0]));
        }

        let maximizing = self.side == Color::White;
        let mut best_move = moves[0];
        let mut best_eval: i32 = if maximizing {
            -100001
        } else {
            100001
        };

        let mut i: usize = 0;
        while i < moves.len()
            invariant
                self@.wf(),
                depth >= 1,
                i <= moves@.len(),
                forall|m: Move| moves@.contains(m) <==> legal_move_of(self@, m),
                legal_move_of(self@, best_move),
                maximizing ==> best_eval >= -100001,
                !maximizing ==> best_eval <= 100001,
                depth == 1 && maximizing && best_eval > -100001 ==> best_eval == leaf_value(
                    board_after(self@, best_move),
                    false,
                    evaluator,
                ),
                depth == 1 && !maximizing && best_eval < 100001 ==> best_eval == leaf_value(
                    board_after(self@, best_move),
                    true,
                    evaluator,
                ),
                depth == 1 && maximizing ==> forall|k: int|
                    0 <= k < i ==> leaf_value(
                        board_after(self@, #[trigger] moves@[k]),
                        false,
                        evaluator,
                    ) <= best_eval,
                depth == 1 && !maximizing ==> forall|k: int|
                    0 <= k < i ==> leaf_value(
                        board_after(self@, #[trigger] moves@[k]),
                        true,
                        evaluator,
                    ) >= best_eval,
            decreases moves@.len() - i,
        {
            if deadline_expired(start_time, timeout) {
                return None;
            }
            let m = moves[i];
            proof {
                assert(moves@.contains(moves@[i as int]));
                lemma_pseudo_applicable(self@, m);
            }
            let mut board_copy = self.clone_board();
            board_copy.make_move(m);
            let eval = match board_copy.minimax(
                depth - 1,
                !maximizing,
                start_time,
                timeout,
                evaluator,
            ) {
                Some(v) => v,
                None => {
                    return None;
                },
            };
            if maximizing && eval > best_eval {
                best_eval = eval;
                best_move = m;
            } else if !maximizing && eval < best_eval {
                best_eval = eval;
                best_move = m;
            }
            i += 1;
        }
        proof {
            if depth == 1 {
                if maximizing {
                    assert forall|m: Move| #[trigger] legal_move_of(self@, m) implies leaf_value(
                        board_after(self@, m),
                        false,
                        evaluator,
                    ) <= leaf_value(board_after(self@, best_move), false, evaluator) || leaf_value(
                        board_after(self@, m),
                        false,
                        evaluator,
                    ) <= -100001 by {
                        assert(moves@.contains(m));
                        let k = choose|k: int| 0 <= k < moves@.len() && moves@[k] == m;
                        assert(moves@[k] == m);
                    }
                } else {
                    assert forall|m: Move| #[trigger] legal_move_of(self@, m) implies leaf_value(
                        board_after(self@, m),
                        true,
                        evaluator,
                    ) >= leaf_value(board_after(self@, best_move), true, evaluator) || leaf_value(
                        board_after(self@, m),
                        true,
                        evaluator,
                    ) >= 100001 by {
                        assert(moves@.contains(m));
                        let k = choose|k: int| 0 <= k < moves@.len() && moves@[k] == m;
                        assert(moves@[k] == m);
                    }
                }
            }
        }
        Some(best_move)
    }

    /// Find a move by iterative deepening: run a full minimax at depth 1, 2,
    /// and so on, and return the last fully completed answer once the
    /// deadline passes. Returns a move exactly when a legal move exists.
    pub fn find_best_move(&self, timeout: Duration, evaluator: EvaluatorType) -> (res: Option<
        Move,
    >)
        requires
            self@.wf(),
        ensures
            res is Some <==> !no_legal_move(self@),
            res is Some ==> legal_move_of(self@, res->0),
    {
        let moves = self.generate_legal_moves();
        if moves.len() == 0 {
            proof {
                assert forall|m: Move| !(pseudo_legal(self@, m) && crate::movegen::move_is_legal(
                    self@,
                    m,
                )) by {
                    if pseudo_legal(self@, m) && crate::movegen::move_is_legal(self@, m) {
                        assert(moves@.contains(m));
                    }
                }
            }
            return None;
        }
        proof {
            assert(moves@.contains(moves@[0]));
        }

        let start_time = instant_now();
        let mut best_move = moves[0];
        let mut current_depth: u32 = 1;

        while current_depth < u32::MAX
            invariant
                self@.wf(),
                current_depth >= 1,
                legal_move_of(self@, best_move),
            decreases u32::MAX - current_depth,
        {
            if let Some(result) = self.search_at_depth(
                current_depth,
                &start_time,
                &timeout,
                evaluator,
            ) {
                best_move = result;
            } else {
                return Some(best_move);
            }

            if deadline_expired(&start_time, &timeout) {
                return Some(best_move);
            }
            current_depth = current_depth + 1;
        }

        Some(best_move)
    }
}

} // verus!
