//! Opening book: a static lookup from serialized positions to recommended
//! next moves, built by replaying a fixed set of opening lines.
use vstd::prelude::*;

use crate::board::Board;
use crate::notation::serial_chars;

verus! {

/// A static opening book keyed by the canonical position serialization.
pub struct OpeningBook {
    pub book: Vec<(String, Vec<String>)>,
}

/// The keys of the book entries are pairwise distinct.
pub open spec fn keys_unique(book: Seq<(String, Vec<String>)>) -> bool {
    forall|j1: int, j2: int| 0 <= j1 < j2 < book.len() ==> book[j1].0@ != book[j2].0@
}

/// Every entry of the book recommends at least one move.
pub open spec fn entries_nonempty(book: Seq<(String, Vec<String>)>) -> bool {
    forall|j: int| 0 <= j < book.len() ==> (#[trigger] book[j]).1@.len() > 0
}

impl OpeningBook {
    /// Register `recommended` under `key`: appended to the existing entry,
    /// or put in a fresh one.
    fn insert(&mut self, key: String, recommended: String)
        requires
            keys_unique(old(self).book@),
            entries_nonempty(old(self).book@),
        ensures
            keys_unique(final(self).book@),
            entries_nonempty(final(self).book@),
    {
        let mut j: usize = 0;
        while j < self.book.len()
            invariant
                keys_unique(self.book@),
                entries_nonempty(self.book@),
                j <= self.book@.len(),
                forall|k: int| 0 <= k < j ==> (#[trigger] self.book@[k]).0@ != key@,
            decreases self.book@.len() - j,
        {
            if self.book[j].0 == key {
                let (k, mut vals) = self.book.remove(j);
                vals.push(recommended);
                self.book.push((k, vals));
                return ;
            }
            j += 1;
        }
        let mut vals: Vec<String> = Vec::new();
        vals.push(recommended);
        self.book.push((key, vals));
    }

    /// Build the book: for each prefix of each opening line, replay the
    /// prefix from the starting position and register the line's next move
    /// under the resulting position's serialization.
    pub fn new() -> (r: OpeningBook)
        ensures
            keys_unique(r.book@),
            entries_nonempty(r.book@),
    {
        let opening_lines: Vec<Vec<&str>> = vec![
            vec!["e4", "e5", "Nf3", "Nc6", "Bc4", "Bc5", "c3", "Nf6", "d4"],
            vec!["e4", "e5", "Nf3", "Nc6", "Bc4", "Nf6", "d3"],
            vec!["e4", "e5", "Nf3", "Nc6", "Bb5", "a6", "Ba4", "Nf6", "O-O", "Be7"],
            vec!["e4", "e5", "Nf3", "Nf6", "Nxe5", "d6", "Nf3"],
            vec!["e4", "c5", "Nf3", "d6", "d4", "cxd4", "Nxd4", "Nf6"],
            vec!["e4", "c5", "Nf3", "Nc6", "d4", "cxd4", "Nxd4"],
            vec!["e4", "e6", "d4", "d5", "Nc3", "Nf6"],
            vec!["e4", "e6", "d4", "d5", "e5", "c5"],
            vec!["e4", "c6", "d4", "d5", "Nc3"],
            vec!["d4", "d5", "c4", "e6", "Nc3", "Nf6"],
            vec!["d4", "d5", "c4", "c6", "Nf3"],
            vec!["d4", "d5", "c4", "dxc4", "Nf3"],
            vec!["d4", "Nf6", "c4", "g6", "Nc3", "Bg7", "e4"],
            vec!["c4", "e5", "Nc3"],
            vec!["c4", "Nf6", "Nc3"],
            vec!["c4", "c5", "Nf3"],
        ];

        let mut result = OpeningBook { book: Vec::new() };
        let mut li: usize = 0;
        while li < opening_lines.len()
            invariant
                keys_unique(result.book@),
                entries_nonempty(result.book@),
            decreases opening_lines@.len() - li,
        {
            let line = &opening_lines[li];
            let mut n: usize = 0;
            while n < line.len()
                invariant
                    keys_unique(result.book@),
                    entries_nonempty(result.book@),
                    n <= line@.len(),
                decreases line@.len() - n,
            {
                let mut board = Board::new();
                let mut i: usize = 0;
                while i < n
                    invariant
                        board@.wf(),
                        n < line@.len(),
                    decreases n - i,
                {
                    if board.parse_and_play_token(line[i]).is_err() {
                        break ;
                    }
                    i += 1;
                }

                let key = board.serialize();
                let recommended = String::from_str(line[n]);
                result.insert(key, recommended);
                n += 1;
            }
            li += 1;
        }
        result
    }

    /// The first recommended move for `board`'s position, if the book holds
    /// its serialization.
    pub fn lookup(&self, board: &Board) -> (res: Option<String>)
        requires
            board@.wf(),
            keys_unique(self.book@),
            entries_nonempty(self.book@),
        ensures
            res is Some <==> exists|j: int|
                0 <= j < self.book@.len() && (#[trigger] self.book@[j]).0@ == serial_chars(board@),
            res is Some ==> exists|j: int|
                0 <= j < self.book@.len() && (#[trigger] self.book@[j]).0@ == serial_chars(board@)
                    && self.book@[j].1@.len() > 0 && res->0@ == self.book@[j].1@[0]@,
    {
        let key = board.serialize();
        let mut j: usize = 0;
        while j < self.book.len()
            invariant
                key@ == serial_chars(board@),
                entries_nonempty(self.book@),
                j <= self.book@.len(),
                forall|k: int| 0 <= k < j ==> (#[trigger] self.book@[k]).0@ != key@,
            decreases self.book@.len() - j,
        {
            if self.book[j].0 == key {
                let entry = &self.book[j];
                let first = entry.1[0].clone();
                proof {
                    assert((self.book@[j as int]).0@ == serial_chars(board@));
                }
                return Some(first);
            }
            j += 1;
        }
        None
    }
}

} // verus!
