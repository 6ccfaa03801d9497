//! Notation codec: parses coordinate and SAN move text into moves, applies
//! tokens to a position, and serializes moves back to SAN and positions to
//! their canonical string form.
use vstd::prelude::*;

use crate::board::Board;
use crate::board::BoardV;
use crate::board::Color;
use crate::board::Kind;
use crate::board::Move;
use crate::board::Piece;
use crate::board::board_after;
use crate::board::file_of;
use crate::board::rank_of;
use crate::board::spec_file;
use crate::board::spec_rank;
use crate::movegen::reach_ok;

verus! {

/// Relies on String::push: appends exactly the one character.
#[verifier::external_body]
pub(crate) fn push_char(s: &mut String, c: char)
    ensures
        final(s)@ == old(s)@.push(c),
{
    s.push(c);
}

/// ASCII whitespace, as stripped from the ends of a move token.
pub open spec fn is_ws(c: char) -> bool {
    c == ' ' || c == '\t' || c == '\n' || c == '\r'
}

/// `s` with leading whitespace removed.
pub open spec fn trim_front(s: Seq<char>) -> Seq<char>
    decreases s.len(),
{
    if s.len() > 0 && is_ws(s[0]) {
        trim_front(s.drop_first())
    } else {
        s
    }
}

/// `s` with trailing whitespace removed.
pub open spec fn trim_back(s: Seq<char>) -> Seq<char>
    decreases s.len(),
{
    if s.len() > 0 && is_ws(s[s.len() - 1]) {
        trim_back(s.drop_last())
    } else {
        s
    }
}

/// `s` with whitespace removed from both ends.
pub open spec fn spec_trim(s: Seq<char>) -> Seq<char> {
    trim_back(trim_front(s))
}

/// Strip leading whitespace.
fn trim_front_exec<'a>(s: &'a str) -> (res: &'a str)
    ensures
        res@ == trim_front(s@),
    decreases s@.len(),
{
    let n = s.unicode_len();
    if n > 0 {
        let c = s.get_char(0);
        if c == ' ' || c == '\t' || c == '\n' || c == '\r' {
            let rest = s.substring_char(1, n);
            proof {
                assert(rest@ =~= s@.drop_first());
            }
            return trim_front_exec(rest);
        }
    }
    s
}

/// Strip trailing whitespace.
fn trim_back_exec<'a>(s: &'a str) -> (res: &'a str)
    ensures
        res@ == trim_back(s@),
    decreases s@.len(),
{
    let n = s.unicode_len();
    if n > 0 {
        let c = s.get_char(n - 1);
        if c == ' ' || c == '\t' || c == '\n' || c == '\r' {
            let rest = s.substring_char(0, n - 1);
            proof {
                assert(rest@ =~= s@.drop_last());
            }
            return trim_back_exec(rest);
        }
    }
    s
}

/// Strip whitespace from both ends.
fn trim_exec<'a>(s: &'a str) -> (res: &'a str)
    ensures
        res@ == spec_trim(s@),
{
    trim_back_exec(trim_front_exec(s))
}

/// Whether two strings hold the same characters.
fn str_eq(a: &str, b: &str) -> (res: bool)
    ensures
        res == (a@ == b@),
{
    let n = a.unicode_len();
    if n != b.unicode_len() {
        return false;
    }
    let mut i: usize = 0;
    while i < n
        invariant
            n == a@.len(),
            n == b@.len(),
            i <= n,
            forall|j: int| 0 <= j < i ==> a@[j] == b@[j],
        decreases n - i,
    {
        if a.get_char(i) != b.get_char(i) {
            return false;
        }
        i += 1;
    }
    proof {
        assert(a@ =~= b@);
    }
    true
}

/// The two characters name a board square: a file letter then a rank digit.
pub open spec fn is_square_chars(c0: char, c1: char) -> bool {
    'a' <= c0 <= 'h' && '1' <= c1 <= '8'
}

/// The square index named by a file letter and a rank digit.
pub open spec fn sq_from_chars(c0: char, c1: char) -> int {
    (c1 as int - 49) * 8 + (c0 as int - 97)
}

/// The file letter of square `i`.
pub open spec fn file_char(i: int) -> char {
    ((97 + spec_file(i)) as u8) as char
}

/// The rank digit of square `i`.
pub open spec fn rank_char(i: int) -> char {
    ((49 + spec_rank(i)) as u8) as char
}

/// Parse a two-character square name such as `e4` into a board index.
pub fn parse_square(s: &str) -> (res: Result<usize, String>)
    ensures
        res is Ok <==> (s@.len() == 2 && is_square_chars(s@[0], s@[1])),
        res is Ok ==> res->Ok_0 < 64 && res->Ok_0 == sq_from_chars(s@[0], s@[1]),
{
    if s.unicode_len() != 2 {
        return Err(String::from_str("bad square: ").concat(s));
    }
    let c0 = s.get_char(0);
    let c1 = s.get_char(1);
    if !('a' <= c0 && c0 <= 'h') || !('1' <= c1 && c1 <= '8') {
        return Err(String::from_str("bad square: ").concat(s));
    }
    let f = (c0 as u8 - 97) as usize;
    let r = (c1 as u8 - 49) as usize;
    Ok(crate::board::idx(f, r))
}

/// The castle move of color `c` on the given side: the king's home square
/// to its castling destination, with the matching castle flag.
pub open spec fn castle_token_move(c: Color, kingside: bool) -> Move {
    let r0: int = if c == Color::White {
        0
    } else {
        56
    };
    Move {
        from: (r0 + 4) as usize,
        to: if kingside {
            (r0 + 6) as usize
        } else {
            (r0 + 2) as usize
        },
        promo: None,
        is_capture: false,
        is_en_passant: false,
        is_castle_kingside: kingside,
        is_castle_queenside: !kingside,
    }
}

impl Board {
    /// Build the side-to-move's castle move toward the given side. The move
    /// is built from the fixed castle squares without any legality check.
    pub fn build_castle(&self, kingside: bool) -> (res: Result<Move, String>)
        ensures
            res == Ok::<Move, String>(castle_token_move(self@.side, kingside)),
    {
        let (from, to): (usize, usize) = match self.side {
            Color::White => {
                if kingside {
                    (4, 6)
                } else {
                    (4, 2)
                }
            },
            Color::Black => {
                if kingside {
                    (60, 62)
                } else {
                    (60, 58)
                }
            },
        };
        Ok(
            Move {
                from,
                to,
                promo: None,
                is_capture: false,
                is_en_passant: false,
                is_castle_kingside: kingside,
                is_castle_queenside: !kingside,
            },
        )
    }
}

/// The promotion kind named by a coordinate-notation suffix letter.
pub open spec fn promo_of_char(c: char) -> Option<Kind> {
    if c == 'q' || c == 'Q' {
        Some(Kind::Queen)
    } else if c == 'r' || c == 'R' {
        Some(Kind::Rook)
    } else if c == 'b' || c == 'B' {
        Some(Kind::Bishop)
    } else if c == 'n' || c == 'N' {
        Some(Kind::Knight)
    } else {
        None
    }
}

/// The move described by a coordinate token such as `e2e4` or `e7e8q`, if
/// the token has that shape: capture and en-passant flags are inferred from
/// board occupancy and the current en-passant target, never from the text.
pub open spec fn uci_move(bv: BoardV, s: Seq<char>) -> Option<Move> {
    if s.len() >= 4 && is_square_chars(s[0], s[1]) && is_square_chars(s[2], s[3]) {
        let from = sq_from_chars(s[0], s[1]);
        let to = sq_from_chars(s[2], s[3]);
        let promo = if s.len() >= 5 {
            promo_of_char(s[4])
        } else {
            None
        };
        let cap0 = bv.sq[to] is Some;
        let ep = bv.sq[from] is Some && bv.sq[from]->0.kind == Kind::Pawn && !cap0 && bv.ep_square
            == Some(to as usize);
        Some(
            Move {
                from: from as usize,
                to: to as usize,
                promo,
                is_capture: cap0 || ep,
                is_en_passant: ep,
                is_castle_kingside: false,
                is_castle_queenside: false,
            },
        )
    } else {
        None
    }
}

impl Board {
    /// Try to read `t` as a coordinate move. Returns `Ok(None)` when the
    /// token does not have that shape.
    pub fn try_parse_uci_like(&self, t: &str) -> (res: Result<Option<Move>, String>)
        requires
            self@.wf(),
        ensures
            res == Ok::<Option<Move>, String>(uci_move(self@, t@)),
    {
        let n = t.unicode_len();
        if n < 4 {
            return Ok(None);
        }
        let c0 = t.get_char(0);
        let c1 = t.get_char(1);
        let c2 = t.get_char(2);
        let c3 = t.get_char(3);
        if !('a' <= c0 && c0 <= 'h' && '1' <= c1 && c1 <= '8') || !('a' <= c2 && c2 <= 'h' && '1'
            <= c3 && c3 <= '8') {
            return Ok(None);
        }
        let from = crate::board::idx((c0 as u8 - 97) as usize, (c1 as u8 - 49) as usize);
        let to = crate::board::idx((c2 as u8 - 97) as usize, (c3 as u8 - 49) as usize);

        let promo = if n >= 5 {
            match t.get_char(4) {
                'q' | 'Q' => Some(Kind::Queen),
                'r' | 'R' => Some(Kind::Rook),
                'b' | 'B' => Some(Kind::Bishop),
                'n' | 'N' => Some(Kind::Knight),
                _ => None,
            }
        } else {
            None
        };

        let mut is_capture = self.piece_at(to).is_some();
        let mut is_ep = false;
        if let Some(p) = self.piece_at(from) {
            if p.kind == Kind::Pawn && !is_capture {
                if let Some(ep) = self.ep_square {
                    if ep == to {
                        is_ep = true;
                        is_capture = true;
                    }
                }
            }
        }

        Ok(
            Some(
                Move {
                    from,
                    to,
                    promo,
                    is_capture,
                    is_en_passant: is_ep,
                    is_castle_kingside: false,
                    is_castle_queenside: false,
                },
            ),
        )
    }
}


/// `s` with every check and mate mark (`+`, `#`) removed.
pub open spec fn remove_marks(s: Seq<char>) -> Seq<char>
    decreases s.len(),
{
    if s.len() == 0 {
        Seq::empty()
    } else {
        let pre = remove_marks(s.drop_last());
        let c = s[s.len() - 1];
        if c == '+' || c == '#' {
            pre
        } else {
            pre.push(c)
        }
    }
}

/// `s` with trailing annotation marks (`!`, `?`) removed.
pub open spec fn strip_annotations(s: Seq<char>) -> Seq<char>
    decreases s.len(),
{
    if s.len() > 0 && (s[s.len() - 1] == '!' || s[s.len() - 1] == '?') {
        strip_annotations(s.drop_last())
    } else {
        s
    }
}

/// The first index at or after `i` holding `=`, or the length if none.
pub open spec fn eq_index(s: Seq<char>, i: int) -> int
    decreases s.len() - i,
{
    if i < 0 || i >= s.len() {
        s.len() as int
    } else if s[i] == '=' {
        i
    } else {
        eq_index(s, i + 1)
    }
}

/// The promotion kind named by a SAN `=X` suffix letter.
pub open spec fn promo_of_upper(c: char) -> Option<Kind> {
    if c == 'Q' {
        Some(Kind::Queen)
    } else if c == 'R' {
        Some(Kind::Rook)
    } else if c == 'B' {
        Some(Kind::Bishop)
    } else if c == 'N' {
        Some(Kind::Knight)
    } else {
        None
    }
}

/// `s` holds a capture mark.
pub open spec fn contains_x(s: Seq<char>) -> bool {
    exists|i: int| 0 <= i < s.len() && s[i] == 'x'
}

/// `s` with every capture mark removed.
pub open spec fn remove_x(s: Seq<char>) -> Seq<char>
    decreases s.len(),
{
    if s.len() == 0 {
        Seq::empty()
    } else {
        let pre = remove_x(s.drop_last());
        if s[s.len() - 1] == 'x' {
            pre
        } else {
            pre.push(s[s.len() - 1])
        }
    }
}

/// `c` is a SAN piece letter.
pub open spec fn is_piece_letter(c: char) -> bool {
    c == 'K' || c == 'Q' || c == 'R' || c == 'B' || c == 'N'
}

/// The piece kind named by a SAN leading letter (absent means pawn).
pub open spec fn kind_of_letter(c: char) -> Kind {
    if c == 'K' {
        Kind::King
    } else if c == 'Q' {
        Kind::Queen
    } else if c == 'R' {
        Kind::Rook
    } else if c == 'B' {
        Kind::Bishop
    } else if c == 'N' {
        Kind::Knight
    } else {
        Kind::Pawn
    }
}

/// The file constraint given by the last file letter among the
/// disambiguation characters, if any.
pub open spec fn last_dis_file(s: Seq<char>) -> Option<int>
    decreases s.len(),
{
    if s.len() == 0 {
        None
    } else if 'a' <= s[s.len() - 1] <= 'h' {
        Some(s[s.len() - 1] as int - 97)
    } else {
        last_dis_file(s.drop_last())
    }
}

/// The rank constraint given by the last rank digit among the
/// disambiguation characters, if any.
pub open spec fn last_dis_rank(s: Seq<char>) -> Option<int>
    decreases s.len(),
{
    if s.len() == 0 {
        None
    } else if '1' <= s[s.len() - 1] <= '8' {
        Some(s[s.len() - 1] as int - 49)
    } else {
        last_dis_rank(s.drop_last())
    }
}

/// Square `i` holds a side-to-move piece of kind `kind` that can reach `to`
/// and meets the file and rank disambiguation constraints.
pub open spec fn san_cand(
    bv: BoardV,
    kind: Kind,
    to: int,
    cap: bool,
    df: Option<int>,
    dr: Option<int>,
    i: int,
) -> bool {
    &&& 0 <= i < 64
    &&& bv.sq[i] == Some(Piece { kind, color: bv.side })
    &&& reach_ok(bv, i, to, cap)
    &&& (df is Some ==> spec_file(i) == df->0)
    &&& (dr is Some ==> spec_rank(i) == dr->0)
}

/// Resolution of a parsed SAN body: the unique candidate source square, or
/// nothing when no candidate or more than one candidate matches.
pub open spec fn san_resolve(
    bv: BoardV,
    kind: Kind,
    to: int,
    cap: bool,
    df: Option<int>,
    dr: Option<int>,
    promo: Option<Kind>,
) -> Option<Move> {
    if (exists|i: int| san_cand(bv, kind, to, cap, df, dr, i)) && (forall|i: int, j: int|
        san_cand(bv, kind, to, cap, df, dr, i) && san_cand(bv, kind, to, cap, df, dr, j) ==> i
            == j) {
        let i = choose|i: int| san_cand(bv, kind, to, cap, df, dr, i);
        Some(
            Move {
                from: i as usize,
                to: to as usize,
                promo,
                is_capture: cap,
                is_en_passant: kind == Kind::Pawn && cap && bv.sq[to] is None && bv.ep_square
                    == Some(to as usize),
                is_castle_kingside: false,
                is_castle_queenside: false,
            },
        )
    } else {
        None
    }
}

/// SAN parse after the piece letter was taken: the last two characters name
/// the destination, the characters before them disambiguate.
pub open spec fn san_from_rest(
    bv: BoardV,
    kind: Kind,
    rest: Seq<char>,
    promo: Option<Kind>,
    cap: bool,
) -> Option<Move> {
    if rest.len() < 2 {
        None
    } else {
        let c0 = rest[rest.len() - 2];
        let c1 = rest[rest.len() - 1];
        if !is_square_chars(c0, c1) {
            None
        } else {
            let to = sq_from_chars(c0, c1);
            let dis = rest.subrange(0, rest.len() - 2);
            san_resolve(bv, kind, to, cap, last_dis_file(dis), last_dis_rank(dis), promo)
        }
    }
}

/// SAN parse after the promotion suffix was taken: read the capture mark and
/// the optional leading piece letter.
pub open spec fn san_from_s3(bv: BoardV, s3: Seq<char>, promo: Option<Kind>) -> Option<Move> {
    let cap = contains_x(s3);
    let s4 = remove_x(s3);
    if s4.len() > 0 && (s4[0] == 'O' || s4[0] == '0') {
        None
    } else {
        let kind = if s4.len() == 0 {
            Kind::Pawn
        } else {
            kind_of_letter(s4[0])
        };
        let rest = if s4.len() > 0 && is_piece_letter(s4[0]) {
            s4.drop_first()
        } else {
            s4
        };
        san_from_rest(bv, kind, rest, promo, cap)
    }
}

/// SAN parse after check, mate, and annotation marks were stripped: read the
/// optional `=X` promotion suffix.
pub open spec fn san_from_s2(bv: BoardV, s2: Seq<char>) -> Option<Move> {
    let eq = eq_index(s2, 0);
    if eq < s2.len() && eq + 1 >= s2.len() {
        None
    } else {
        let promo = if eq < s2.len() {
            promo_of_upper(s2[eq + 1])
        } else {
            None
        };
        let s3 = if eq < s2.len() {
            s2.subrange(0, eq)
        } else {
            s2
        };
        san_from_s3(bv, s3, promo)
    }
}

/// The move denoted by the SAN token `t` in `bv`, or nothing if the token
/// is malformed, names no reachable source, or stays ambiguous after its
/// disambiguation characters.
pub open spec fn san_move(bv: BoardV, t: Seq<char>) -> Option<Move> {
    san_from_s2(bv, strip_annotations(remove_marks(t)))
}

/// Remove every check and mate mark from `s`.
fn remove_marks_exec(s: &str) -> (res: String)
    ensures
        res@ == remove_marks(s@),
{
    let n = s.unicode_len();
    let mut out = String::new();
    let mut i: usize = 0;
    while i < n
        invariant
            n == s@.len(),
            i <= n,
            out@ == remove_marks(s@.subrange(0, i as int)),
        decreases n - i,
    {
        let c = s.get_char(i);
        if c != '+' && c != '#' {
            push_char(&mut out, c);
        }
        proof {
            assert(s@.subrange(0, i + 1).drop_last() =~= s@.subrange(0, i as int));
        }
        i += 1;
    }
    proof {
        assert(s@.subrange(0, n as int) =~= s@);
    }
    out
}

/// Strip trailing annotation marks from `s`.
fn strip_annotations_exec<'a>(s: &'a str) -> (res: &'a str)
    ensures
        res@ == strip_annotations(s@),
    decreases s@.len(),
{
    let n = s.unicode_len();
    if n > 0 {
        let c = s.get_char(n - 1);
        if c == '!' || c == '?' {
            let rest = s.substring_char(0, n - 1);
            proof {
                assert(rest@ =~= s@.drop_last());
            }
            return strip_annotations_exec(rest);
        }
    }
    s
}

/// The first index at or after `i` holding `=`, or the length if none.
fn eq_index_exec(s: &str, i: usize) -> (res: usize)
    requires
        i <= s@.len(),
    ensures
        res == eq_index(s@, i as int),
        i <= res <= s@.len(),
    decreases s@.len() - i,
{
    let n = s.unicode_len();
    if i >= n {
        n
    } else if s.get_char(i) == '=' {
        i
    } else {
        eq_index_exec(s, i + 1)
    }
}

/// Whether `s` holds a capture mark.
fn contains_x_exec(s: &str) -> (res: bool)
    ensures
        res == contains_x(s@),
{
    let n = s.unicode_len();
    let mut i: usize = 0;
    while i < n
        invariant
            n == s@.len(),
            i <= n,
            forall|j: int| 0 <= j < i ==> s@[j] != 'x',
        decreases n - i,
    {
        if s.get_char(i) == 'x' {
            return true;
        }
        i += 1;
    }
    false
}

/// Remove every capture mark from `s`.
fn remove_x_exec(s: &str) -> (res: String)
    ensures
        res@ == remove_x(s@),
{
    let n = s.unicode_len();
    let mut out = String::new();
    let mut i: usize = 0;
    while i < n
        invariant
            n == s@.len(),
            i <= n,
            out@ == remove_x(s@.subrange(0, i as int)),
        decreases n - i,
    {
        let c = s.get_char(i);
        if c != 'x' {
            push_char(&mut out, c);
        }
        proof {
            assert(s@.subrange(0, i + 1).drop_last() =~= s@.subrange(0, i as int));
        }
        i += 1;
    }
    proof {
        assert(s@.subrange(0, n as int) =~= s@);
    }
    out
}

impl Board {
    /// Parse the SAN token `t` and resolve it to the unique matching move.
    /// Zero matches and two or more matches are both reported as errors:
    /// ambiguity is never heuristically resolved.
    #[verifier::rlimit(100)]
    pub fn parse_san_and_find_move(&self, t: &str) -> (res: Result<Move, String>)
        requires
            self@.wf(),
        ensures
            res is Ok <==> san_move(self@, t@) is Some,
            res is Ok ==> Some(res->Ok_0) == san_move(self@, t@),
    {
        let cleaned = remove_marks_exec(t);
        let s2 = strip_annotations_exec(cleaned.as_str());
        let n2 = s2.unicode_len();

        let eq = eq_index_exec(s2, 0);
        let mut promo: Option<Kind> = None;
        if eq < n2 {
            if eq + 1 >= n2 {
                return Err(String::from_str("truncated promotion in SAN: ").concat(t));
            }
            promo = match s2.get_char(eq + 1) {
                'Q' => Some(Kind::Queen),
                'R' => Some(Kind::Rook),
                'B' => Some(Kind::Bishop),
                'N' => Some(Kind::Knight),
                _ => None,
            };
        }
        let s3 = if eq < n2 {
            s2.substring_char(0, eq)
        } else {
            s2
        };
        proof {
            if eq < n2 {
                assert(s3@ =~= s2@.subrange(0, eq as int));
            }
        }

        let is_capture = contains_x_exec(s3);
        let s4_own = remove_x_exec(s3);
        let s4 = s4_own.as_str();
        let n4 = s4.unicode_len();

        let mut kind = Kind::Pawn;
        let mut rest = s4;
        if n4 > 0 {
            let c = s4.get_char(0);
            if c == 'O' || c == '0' {
                return Err(String::from_str("castling token in SAN position: ").concat(t));
            }
            if c == 'K' || c == 'Q' || c == 'R' || c == 'B' || c == 'N' {
                kind = match c {
                    'K' => Kind::King,
                    'Q' => Kind::Queen,
                    'R' => Kind::Rook,
                    'B' => Kind::Bishop,
                    _ => Kind::Knight,
                };
                rest = s4.substring_char(1, n4);
                proof {
                    assert(rest@ =~= s4@.drop_first());
                }
            }
        }

        let nr = rest.unicode_len();
        if nr < 2 {
            return Err(String::from_str("SAN too short: ").concat(t));
        }
        let c0 = rest.get_char(nr - 2);
        let c1 = rest.get_char(nr - 1);
        if !('a' <= c0 && c0 <= 'h' && '1' <= c1 && c1 <= '8') {
            return Err(String::from_str("bad destination square in SAN: ").concat(t));
        }
        let to = crate::board::idx((c0 as u8 - 97) as usize, (c1 as u8 - 49) as usize);

        let mut dis_file: Option<usize> = None;
        let mut dis_rank: Option<usize> = None;
        let ghost dis = rest@.subrange(0, nr - 2);
        let mut i: usize = 0;
        while i < nr - 2
            invariant
                nr == rest@.len(),
                2 <= nr,
                i <= nr - 2,
                dis == rest@.subrange(0, nr - 2),
                (match dis_file {
                    Some(v) => Some(v as int),
                    None => None::<int>,
                }) == last_dis_file(dis.subrange(0, i as int)),
                (match dis_rank {
                    Some(v) => Some(v as int),
                    None => None::<int>,
                }) == last_dis_rank(dis.subrange(0, i as int)),
                dis_file is Some ==> dis_file->0 < 8,
                dis_rank is Some ==> dis_rank->0 < 8,
            decreases nr - 2 - i,
        {
            let ch = rest.get_char(i);
            if 'a' <= ch && ch <= 'h' {
                dis_file = Some((ch as u8 - 97) as usize);
            } else if '1' <= ch && ch <= '8' {
                dis_rank = Some((ch as u8 - 49) as usize);
            }
            proof {
                assert(dis.subrange(0, i + 1).drop_last() =~= dis.subrange(0, i as int));
                assert(dis.subrange(0, i + 1)[i as int] == dis[i as int] == rest@[i as int]);
            }
            i += 1;
        }
        proof {
            assert(dis.subrange(0, nr - 2) =~= dis);
        }

        let ghost gdf = last_dis_file(dis);
        let ghost gdr = last_dis_rank(dis);

        let candidates = self.generate_reach(kind, to, is_capture);
        let mut filtered: Vec<usize> = Vec::new();
        let mut j: usize = 0;
        while j < candidates.len()
            invariant
                self@.wf(),
                to < 64,
                j <= candidates@.len(),
                forall|x: usize|
                    candidates@.contains(x) <==> x < 64 && self@.sq[x as int] == Some(
                        Piece { kind, color: self@.side },
                    ) && reach_ok(self@, x as int, to as int, is_capture),
                forall|k1: int, k2: int|
                    0 <= k1 < k2 < candidates@.len() ==> candidates@[k1] < candidates@[k2],
                (match dis_file {
                    Some(v) => Some(v as int),
                    None => None::<int>,
                }) == gdf,
                (match dis_rank {
                    Some(v) => Some(v as int),
                    None => None::<int>,
                }) == gdr,
                forall|x: usize|
                    filtered@.contains(x) <==> (candidates@.subrange(0, j as int).contains(x)
                        && san_cand(self@, kind, to as int, is_capture, gdf, gdr, x as int)),
                forall|k1: int, k2: int|
                    0 <= k1 < k2 < filtered@.len() ==> filtered@[k1] < filtered@[k2],
                forall|k: int|
                    0 <= k < filtered@.len() ==> candidates@.subrange(0, j as int).contains(
                        filtered@[k],
                    ),
            decreases candidates@.len() - j,
        {
            let sq_from = candidates[j];
            proof {
                assert(candidates@.contains(candidates@[j as int]));
            }
            let mut keep = true;
            if let Some(df) = dis_file {
                if file_of(sq_from) != df {
                    keep = false;
                }
            }
            if let Some(dr) = dis_rank {
                if rank_of(sq_from) != dr {
                    keep = false;
                }
            }
            proof {
                lemma_inc_subrange_push(candidates@, j as int);
                lemma_push_contains_usize(candidates@.subrange(0, j as int), candidates@[j as int]);
            }
            if keep {
                proof {
                    lemma_push_contains_usize(filtered@, sq_from);
                }
                filtered.push(sq_from);
            }
            j += 1;
        }
        proof {
            assert(candidates@.subrange(0, candidates@.len() as int) =~= candidates@);
        }

        if filtered.len() == 0 {
            proof {
                assert forall|i0: int| !san_cand(
                    self@,
                    kind,
                    to as int,
                    is_capture,
                    gdf,
                    gdr,
                    i0,
                ) by {
                    if san_cand(self@, kind, to as int, is_capture, gdf, gdr, i0) {
                        assert(candidates@.contains(i0 as usize));
                        assert(filtered@.contains(i0 as usize));
                    }
                }
            }
            return Err(String::from_str("no reachable source for SAN: ").concat(t));
        }
        if filtered.len() > 1 {
            proof {
                let a0 = filtered@[0];
                let a1 = filtered@[1];
                assert(filtered@.contains(a0) && filtered@.contains(a1));
                assert(san_cand(self@, kind, to as int, is_capture, gdf, gdr, a0 as int));
                assert(san_cand(self@, kind, to as int, is_capture, gdf, gdr, a1 as int));
                assert(a0 != a1);
            }
            return Err(String::from_str("ambiguous SAN, more disambiguation needed: ").concat(t));
        }
        let from = filtered[0];
        proof {
            assert(filtered@.contains(filtered@[0]));
        }

        let mut is_ep = false;
        if kind == Kind::Pawn && is_capture && self.piece_at(to).is_none() {
            if let Some(ep) = self.ep_square {
                if ep == to {
                    is_ep = true;
                }
            }
        }

        let result = Move {
            from,
            to,
            promo,
            is_capture,
            is_en_passant: is_ep,
            is_castle_kingside: false,
            is_castle_queenside: false,
        };
        proof {
            assert forall|i0: int, j0: int|
                san_cand(self@, kind, to as int, is_capture, gdf, gdr, i0) && san_cand(
                    self@,
                    kind,
                    to as int,
                    is_capture,
                    gdf,
                    gdr,
                    j0,
                ) implies i0 == j0 by {
                assert(candidates@.contains(i0 as usize));
                assert(filtered@.contains(i0 as usize));
                assert(candidates@.contains(j0 as usize));
                assert(filtered@.contains(j0 as usize));
            }
            assert(san_cand(self@, kind, to as int, is_capture, gdf, gdr, from as int));
            let ci = choose|i0: int| san_cand(self@, kind, to as int, is_capture, gdf, gdr, i0);
            assert(ci == from as int);
            assert(san_resolve(
                self@,
                kind,
                to as int,
                is_capture,
                gdf,
                gdr,
                promo,
            ) == Some(result));
            assert(san_move(self@, t@) == Some(result));
        }
        Ok(result)
    }
}

proof fn lemma_inc_subrange_push<T>(s: Seq<T>, i: int)
    requires
        0 <= i < s.len(),
    ensures
        s.subrange(0, i + 1) =~= s.subrange(0, i).push(s[i]),
{
}

proof fn lemma_push_contains_usize(s: Seq<usize>, e: usize)
    ensures
        forall|x: usize| #[trigger] s.push(e).contains(x) <==> s.contains(x) || x == e,
{
    assert forall|x: usize| #[trigger] s.push(e).contains(x) <==> s.contains(x) || x == e by {
        if s.contains(x) {
            let i = choose|i: int| 0 <= i < s.len() && s[i] == x;
            assert(s.push(e)[i] == x);
        }
        if s.push(e).contains(x) {
            let i = choose|i: int| 0 <= i < s.push(e).len() && s.push(e)[i] == x;
            if i < s.len() {
                assert(s[i] == x);
            }
        }
        assert(s.push(e)[s.len() as int] == e);
    }
}


/// The SAN letter sequence of a piece kind (empty for pawns).
pub open spec fn san_piece_letter(k: Kind) -> Seq<char> {
    match k {
        Kind::Pawn => Seq::empty(),
        Kind::Knight => seq!['N'],
        Kind::Bishop => seq!['B'],
        Kind::Rook => seq!['R'],
        Kind::Queen => seq!['Q'],
        Kind::King => seq!['K'],
    }
}

/// `m` is a legal move in `bv`.
pub open spec fn legal_move_of(bv: BoardV, m: Move) -> bool {
    crate::movegen::pseudo_legal(bv, m) && crate::movegen::move_is_legal(bv, m)
}

/// Another legal move of the same piece kind reaches `m`'s destination.
pub open spec fn similar_exists(bv: BoardV, m: Move, k: Kind) -> bool {
    exists|o: Move|
        #[trigger] legal_move_of(bv, o) && o.to == m.to && o.from != m.from && bv.sq[
            o.from as int
        ]->0.kind == k
}

/// Another such move starts on the same file as `m`.
pub open spec fn similar_same_file_exists(bv: BoardV, m: Move, k: Kind) -> bool {
    exists|o: Move|
        #[trigger] legal_move_of(bv, o) && o.to == m.to && o.from != m.from && bv.sq[
            o.from as int
        ]->0.kind == k && spec_file(o.from as int) == spec_file(m.from as int)
}

/// The SAN promotion letter.
pub open spec fn promo_letter(k: Kind) -> char {
    match k {
        Kind::Queen => 'Q',
        Kind::Rook => 'R',
        Kind::Bishop => 'B',
        Kind::Knight => 'N',
        _ => ' ',
    }
}

/// The SAN text of `m` in `bv`: castle literal, or piece letter,
/// disambiguation (source file unless shared, else source rank), capture
/// mark (with the source file for pawn captures), destination square, and
/// promotion suffix.
pub open spec fn san_of(bv: BoardV, m: Move) -> Seq<char> {
    if m.is_castle_kingside {
        seq!['O', '-', 'O']
    } else if m.is_castle_queenside {
        seq!['O', '-', 'O', '-', 'O']
    } else {
        let p = bv.sq[m.from as int]->0;
        let letter = san_piece_letter(p.kind);
        let dis = if similar_exists(bv, m, p.kind) {
            if !similar_same_file_exists(bv, m, p.kind) {
                seq![file_char(m.from as int)]
            } else {
                seq![rank_char(m.from as int)]
            }
        } else {
            Seq::<char>::empty()
        };
        let cap_part = if m.is_capture {
            (if p.kind == Kind::Pawn && dis.len() == 0 {
                seq![file_char(m.from as int)]
            } else {
                Seq::<char>::empty()
            }) + seq!['x']
        } else {
            Seq::<char>::empty()
        };
        let dest = seq![file_char(m.to as int), rank_char(m.to as int)];
        let promo_part = match m.promo {
            Some(pk) => seq!['=', promo_letter(pk)],
            None => Seq::<char>::empty(),
        };
        letter + dis + cap_part + dest + promo_part
    }
}

/// The file letter of square `i`, as executable code.
fn file_char_exec(i: usize) -> (c: char)
    requires
        i < 64,
    ensures
        c == file_char(i as int),
{
    ((97 + file_of(i) as u8)) as char
}

/// The rank digit of square `i`, as executable code.
fn rank_char_exec(i: usize) -> (c: char)
    requires
        i < 64,
    ensures
        c == rank_char(i as int),
{
    ((49 + rank_of(i) as u8)) as char
}

impl Board {
    /// Serialize `m` to SAN, assuming it is legal in this position.
    #[verifier::rlimit(100)]
    pub fn move_to_san(&self, m: Move) -> (res: String)
        requires
            self@.wf(),
            m.from < 64,
            m.to < 64,
            !(m.is_castle_kingside || m.is_castle_queenside) ==> self@.sq[m.from as int] is Some,
        ensures
            res@ == san_of(self@, m),
    {
        if m.is_castle_kingside {
            let s = String::from_str("O-O");
            proof {
                reveal_strlit("O-O");
                assert(s@ =~= seq!['O', '-', 'O']);
            }
            return s;
        }
        if m.is_castle_queenside {
            let s = String::from_str("O-O-O");
            proof {
                reveal_strlit("O-O-O");
                assert(s@ =~= seq!['O', '-', 'O', '-', 'O']);
            }
            return s;
        }

        let piece = self.piece_at(m.from).unwrap();
        let mut san = String::new();

        if piece.kind != Kind::Pawn {
            push_char(
                &mut san,
                match piece.kind {
                    Kind::King => 'K',
                    Kind::Queen => 'Q',
                    Kind::Rook => 'R',
                    Kind::Bishop => 'B',
                    _ => 'N',
                },
            );
        }

        let legal = self.generate_legal_moves();
        let mut any_similar = false;
        let mut any_same_file = false;
        let mut i: usize = 0;
        while i < legal.len()
            invariant
                self@.wf(),
                m.from < 64,
                i <= legal@.len(),
                forall|o: Move| legal@.contains(o) <==> legal_move_of(self@, o),
                any_similar == exists|k: int|
                    0 <= k < i && {
                        let o = #[trigger] legal@[k];
                        o.to == m.to && o.from != m.from && self@.sq[o.from as int]->0.kind
                            == piece.kind
                    },
                any_same_file == exists|k: int|
                    0 <= k < i && {
                        let o = #[trigger] legal@[k];
                        o.to == m.to && o.from != m.from && self@.sq[o.from as int]->0.kind
                            == piece.kind && spec_file(o.from as int) == spec_file(m.from as int)
                    },
            decreases legal@.len() - i,
        {
            let other = legal[i];
            proof {
                assert(legal@.contains(legal@[i as int]));
            }
            if other.to == m.to && other.from != m.from {
                let op = self.piece_at(other.from).unwrap();
                if op.kind == piece.kind {
                    any_similar = true;
                    if file_of(other.from) == file_of(m.from) {
                        any_same_file = true;
                    }
                }
            }
            i += 1;
        }
        proof {
            assert(any_similar == similar_exists(self@, m, piece.kind)) by {
                if any_similar {
                    let k = choose|k: int|
                        0 <= k < legal@.len() && {
                            let o = #[trigger] legal@[k];
                            o.to == m.to && o.from != m.from && self@.sq[o.from as int]->0.kind
                                == piece.kind
                        };
                    assert(legal@.contains(legal@[k]));
                    assert(legal_move_of(self@, legal@[k]));
                }
                if similar_exists(self@, m, piece.kind) {
                    let o = choose|o: Move|
                        #[trigger] legal_move_of(self@, o) && o.to == m.to && o.from != m.from
                            && self@.sq[o.from as int]->0.kind == piece.kind;
                    assert(legal@.contains(o));
                    let k = choose|k: int| 0 <= k < legal@.len() && legal@[k] == o;
                    assert(legal@[k] == o);
                }
            }
            assert(any_same_file == similar_same_file_exists(self@, m, piece.kind)) by {
                if any_same_file {
                    let k = choose|k: int|
                        0 <= k < legal@.len() && {
                            let o = #[trigger] legal@[k];
                            o.to == m.to && o.from != m.from && self@.sq[o.from as int]->0.kind
                                == piece.kind && spec_file(o.from as int) == spec_file(
                                m.from as int,
                            )
                        };
                    assert(legal@.contains(legal@[k]));
                    assert(legal_move_of(self@, legal@[k]));
                }
                if similar_same_file_exists(self@, m, piece.kind) {
                    let o = choose|o: Move|
                        #[trigger] legal_move_of(self@, o) && o.to == m.to && o.from != m.from
                            && self@.sq[o.from as int]->0.kind == piece.kind && spec_file(
                            o.from as int,
                        ) == spec_file(m.from as int);
                    assert(legal@.contains(o));
                    let k = choose|k: int| 0 <= k < legal@.len() && legal@[k] == o;
                    assert(legal@[k] == o);
                }
            }
        }

        let mut added_dis = false;
        if any_similar {
            added_dis = true;
            if !any_same_file {
                push_char(&mut san, file_char_exec(m.from));
            } else {
                push_char(&mut san, rank_char_exec(m.from));
            }
        }

        if m.is_capture {
            if piece.kind == Kind::Pawn && !added_dis {
                push_char(&mut san, file_char_exec(m.from));
            }
            push_char(&mut san, 'x');
        }

        push_char(&mut san, file_char_exec(m.to));
        push_char(&mut san, rank_char_exec(m.to));

        if let Some(promo) = m.promo {
            push_char(&mut san, '=');
            push_char(
                &mut san,
                match promo {
                    Kind::Queen => 'Q',
                    Kind::Rook => 'R',
                    Kind::Bishop => 'B',
                    Kind::Knight => 'N',
                    _ => ' ',
                },
            );
        }

        proof {
            assert(san@ =~= san_of(self@, m));
        }
        san
    }
}


/// The serialization letter of a piece: uppercase for White, lowercase for
/// Black.
pub open spec fn piece_char(p: Piece) -> char {
    match (p.kind, p.color) {
        (Kind::Pawn, Color::White) => 'P',
        (Kind::Knight, Color::White) => 'N',
        (Kind::Bishop, Color::White) => 'B',
        (Kind::Rook, Color::White) => 'R',
        (Kind::Queen, Color::White) => 'Q',
        (Kind::King, Color::White) => 'K',
        (Kind::Pawn, Color::Black) => 'p',
        (Kind::Knight, Color::Black) => 'n',
        (Kind::Bishop, Color::Black) => 'b',
        (Kind::Rook, Color::Black) => 'r',
        (Kind::Queen, Color::Black) => 'q',
        (Kind::King, Color::Black) => 'k',
    }
}

/// The serialization character of a square: its piece's letter, or `.`.
pub open spec fn square_char(o: Option<Piece>) -> char {
    match o {
        None => '.',
        Some(p) => piece_char(p),
    }
}

/// The characters of the first `n` squares of the piece grid.
pub open spec fn board_chars(sq: Seq<Option<Piece>>, n: int) -> Seq<char>
    decreases n,
{
    if n <= 0 {
        Seq::empty()
    } else {
        board_chars(sq, n - 1).push(square_char(sq[n - 1]))
    }
}

/// The castling-rights letters, or `-` when no right remains.
pub open spec fn castle_chars(bv: BoardV) -> Seq<char> {
    let s = (if bv.castle_wk {
        seq!['K']
    } else {
        Seq::<char>::empty()
    }) + (if bv.castle_wq {
        seq!['Q']
    } else {
        Seq::<char>::empty()
    }) + (if bv.castle_bk {
        seq!['k']
    } else {
        Seq::<char>::empty()
    }) + (if bv.castle_bq {
        seq!['q']
    } else {
        Seq::<char>::empty()
    });
    if s.len() == 0 {
        seq!['-']
    } else {
        s
    }
}

/// The en-passant field: the target square's name, or `-`.
pub open spec fn ep_chars(bv: BoardV) -> Seq<char> {
    match bv.ep_square {
        Some(e) => seq![file_char(e as int), rank_char(e as int)],
        None => seq!['-'],
    }
}

/// The side-to-move marker.
pub open spec fn side_char(c: Color) -> char {
    if c == Color::White {
        'W'
    } else {
        'B'
    }
}

/// The canonical string encoding of a position: the 64-character piece grid,
/// then the side marker, castling letters, and en-passant square, separated
/// by `|`. Byte-stable for identical logical positions.
pub open spec fn serial_chars(bv: BoardV) -> Seq<char> {
    board_chars(bv.sq, 64) + seq!['|', side_char(bv.side), '|'] + castle_chars(bv) + seq!['|']
        + ep_chars(bv)
}

impl Board {
    /// Serialize this position to its canonical string encoding, the key
    /// external collaborators use for lookups.
    #[verifier::rlimit(100)]
    pub fn serialize(&self) -> (res: String)
        requires
            self@.wf(),
        ensures
            res@ == serial_chars(self@),
    {
        let mut result = String::new();

        let mut i: usize = 0;
        while i < 64
            invariant
                self@.wf(),
                i <= 64,
                result@ == board_chars(self@.sq, i as int),
            decreases 64 - i,
        {
            match self.piece_at(i) {
                None => push_char(&mut result, '.'),
                Some(p) => {
                    let c = match (p.kind, p.color) {
                        (Kind::Pawn, Color::White) => 'P',
                        (Kind::Knight, Color::White) => 'N',
                        (Kind::Bishop, Color::White) => 'B',
                        (Kind::Rook, Color::White) => 'R',
                        (Kind::Queen, Color::White) => 'Q',
                        (Kind::King, Color::White) => 'K',
                        (Kind::Pawn, Color::Black) => 'p',
                        (Kind::Knight, Color::Black) => 'n',
                        (Kind::Bishop, Color::Black) => 'b',
                        (Kind::Rook, Color::Black) => 'r',
                        (Kind::Queen, Color::Black) => 'q',
                        (Kind::King, Color::Black) => 'k',
                    };
                    push_char(&mut result, c);
                },
            }
            i += 1;
        }

        push_char(&mut result, '|');
        push_char(
            &mut result,
            match self.side {
                Color::White => 'W',
                Color::Black => 'B',
            },
        );

        push_char(&mut result, '|');
        if self.castle_wk {
            push_char(&mut result, 'K');
        }
        if self.castle_wq {
            push_char(&mut result, 'Q');
        }
        if self.castle_bk {
            push_char(&mut result, 'k');
        }
        if self.castle_bq {
            push_char(&mut result, 'q');
        }
        if !self.castle_wk && !self.castle_wq && !self.castle_bk && !self.castle_bq {
            push_char(&mut result, '-');
        }

        push_char(&mut result, '|');
        match self.ep_square {
            Some(ep) => {
                push_char(&mut result, file_char_exec(ep));
                push_char(&mut result, rank_char_exec(ep));
            },
            None => push_char(&mut result, '-'),
        }

        proof {
            assert(result@ =~= serial_chars(self@));
        }
        result
    }
}

/// What a move token asks of the position: nothing (a decorative token), a
/// move to apply, or a rejection.
pub ghost enum TokenAction {
    Skip,
    Play(Move),
    Reject,
}

/// Play `m`, or reject it when its source square is empty.
pub open spec fn play_or_reject(bv: BoardV, m: Move) -> TokenAction {
    if bv.sq[m.from as int] is Some {
        TokenAction::Play(m)
    } else {
        TokenAction::Reject
    }
}

/// What the token `raw` asks of position `bv`: empty, game-result, and
/// move-number tokens are skipped; castle literals map to the side's fixed
/// castle move; a coordinate-shaped token is read as one; anything else is
/// read as SAN.
pub open spec fn token_action(bv: BoardV, raw: Seq<char>) -> TokenAction {
    let s = spec_trim(raw);
    if s.len() == 0 {
        TokenAction::Skip
    } else if s == seq!['1', '-', '0'] || s == seq!['0', '-', '1'] || s == seq![
        '1',
        '/',
        '2',
        '-',
        '1',
        '/',
        '2',
    ] || s == seq!['*'] {
        TokenAction::Skip
    } else if s[s.len() - 1] == '.' {
        TokenAction::Skip
    } else if s == seq!['O', '-', 'O'] || s == seq!['0', '-', '0'] {
        play_or_reject(bv, castle_token_move(bv.side, true))
    } else if s == seq!['O', '-', 'O', '-', 'O'] || s == seq!['0', '-', '0', '-', '0'] {
        play_or_reject(bv, castle_token_move(bv.side, false))
    } else {
        match uci_move(bv, s) {
            Some(m) => play_or_reject(bv, m),
            None => match san_move(bv, s) {
                Some(m) => TokenAction::Play(m),
                None => TokenAction::Reject,
            },
        }
    }
}

impl Board {
    /// Apply one move token to this position: skip decorative tokens, parse
    /// castle literals, coordinate moves, and SAN, and play the move. On
    /// failure an error is returned and the position is left unmodified.
    #[verifier::rlimit(100)]
    pub fn parse_and_play_token(&mut self, token: &str) -> (res: Result<(), String>)
        requires
            old(self)@.wf(),
        ensures
            final(self)@.wf(),
            match token_action(old(self)@, token@) {
                TokenAction::Skip => res is Ok && final(self)@ == old(self)@,
                TokenAction::Play(m) => res is Ok && final(self)@ == board_after(old(self)@, m),
                TokenAction::Reject => res is Err && final(self)@ == old(self)@,
            },
    {
        let t = trim_exec(token);
        proof {
            reveal_strlit("1-0");
            reveal_strlit("0-1");
            reveal_strlit("1/2-1/2");
            reveal_strlit("*");
            reveal_strlit("O-O");
            reveal_strlit("0-0");
            reveal_strlit("O-O-O");
            reveal_strlit("0-0-0");
            assert("1-0"@ =~= seq!['1', '-', '0']);
            assert("0-1"@ =~= seq!['0', '-', '1']);
            assert("1/2-1/2"@ =~= seq!['1', '/', '2', '-', '1', '/', '2']);
            assert("*"@ =~= seq!['*']);
            assert("O-O"@ =~= seq!['O', '-', 'O']);
            assert("0-0"@ =~= seq!['0', '-', '0']);
            assert("O-O-O"@ =~= seq!['O', '-', 'O', '-', 'O']);
            assert("0-0-0"@ =~= seq!['0', '-', '0', '-', '0']);
        }
        let n = t.unicode_len();
        if n == 0 {
            return Ok(());
        }

        if str_eq(t, "1-0") || str_eq(t, "0-1") || str_eq(t, "1/2-1/2") || str_eq(t, "*") {
            return Ok(());
        }
        if t.get_char(n - 1) == '.' {
            return Ok(());
        }

        if str_eq(t, "O-O") || str_eq(t, "0-0") {
            let mv = match self.build_castle(true) {
                Ok(mv) => mv,
                Err(e) => {
                    return Err(e);
                },
            };
            if self.piece_at(mv.from).is_none() {
                return Err(String::from_str("castling with an empty king square: ").concat(t));
            }
            self.make_move(mv);
            return Ok(());
        }
        if str_eq(t, "O-O-O") || str_eq(t, "0-0-0") {
            let mv = match self.build_castle(false) {
                Ok(mv) => mv,
                Err(e) => {
                    return Err(e);
                },
            };
            if self.piece_at(mv.from).is_none() {
                return Err(String::from_str("castling with an empty king square: ").concat(t));
            }
            self.make_move(mv);
            return Ok(());
        }

        let parsed = match self.try_parse_uci_like(t) {
            Ok(p) => p,
            Err(e) => {
                return Err(e);
            },
        };
        if let Some(mv) = parsed {
            if self.piece_at(mv.from).is_none() {
                return Err(String::from_str("no piece on the source square: ").concat(t));
            }
            self.make_move(mv);
            return Ok(());
        }

        let mv = match self.parse_san_and_find_move(t) {
            Ok(mv) => mv,
            Err(e) => {
                return Err(e);
            },
        };
        self.make_move(mv);
        Ok(())
    }
}


/// Stripping check and mate marks from text without them changes nothing.
proof fn lemma_remove_marks_id(s: Seq<char>)
    requires
        forall|i: int| 0 <= i < s.len() ==> !(s[i] == '+' || s[i] == '#'),
    ensures
        remove_marks(s) == s,
    decreases s.len(),
{
    if s.len() > 0 {
        lemma_remove_marks_id(s.drop_last());
        assert(remove_marks(s) =~= s);
    } else {
        assert(remove_marks(s) =~= s);
    }
}

/// Text without an equals sign has none to find.
proof fn lemma_eq_index_none(s: Seq<char>, i: int)
    requires
        0 <= i <= s.len(),
        forall|j: int| 0 <= j < s.len() ==> s[j] != '=',
    ensures
        eq_index(s, i) == s.len(),
    decreases s.len() - i,
{
    if i < s.len() {
        lemma_eq_index_none(s, i + 1);
    }
}

/// Removing capture marks from text without them changes nothing.
proof fn lemma_remove_x_id(s: Seq<char>)
    requires
        forall|i: int| 0 <= i < s.len() ==> s[i] != 'x',
    ensures
        remove_x(s) == s,
    decreases s.len(),
{
    if s.len() > 0 {
        lemma_remove_x_id(s.drop_last());
        assert(remove_x(s) =~= s);
    } else {
        assert(remove_x(s) =~= s);
    }
}

/// Round trip for quiet pawn pushes: the SAN text of a legal single or
/// double pawn push that does not promote parses back, on the identical
/// position, to exactly the same move. Its source square is provably
/// unambiguous: a second pushing pawn on the same file would have to stand
/// on a square the move itself requires to be empty.
pub proof fn lemma_pawn_push_round_trip(bv: BoardV, m: Move)
    requires
        bv.wf(),
        legal_move_of(bv, m),
        bv.sq[m.from as int]->0.kind == Kind::Pawn,
        !m.is_capture,
        m.promo is None,
    ensures
        san_move(bv, san_of(bv, m)) == Some(m),
{
    let c = bv.sq[m.from as int]->0.color;
    let d = crate::board::pawn_dir(c);
    let f = spec_file(m.from as int);
    let r = spec_rank(m.from as int);
    let to = m.to as int;
    assert(crate::movegen::pawn_move_ok(bv, m.from as int, m));
    assert(crate::movegen::pawn_push_ok(bv, m.from as int, m) || crate::movegen::pawn_double_ok(
        bv,
        m.from as int,
        m,
    ));
    assert(spec_file(to) == f && 0 <= to < 64 && bv.sq[to] is None);

    let san = san_of(bv, m);
    let fc = file_char(to);
    let rc = rank_char(to);
    let dis = if similar_exists(bv, m, Kind::Pawn) {
        if !similar_same_file_exists(bv, m, Kind::Pawn) {
            seq![file_char(m.from as int)]
        } else {
            seq![rank_char(m.from as int)]
        }
    } else {
        Seq::<char>::empty()
    };
    assert(san == dis + seq![fc, rc]);
    assert(forall|i: int|
        0 <= i < san.len() ==> (('a' <= #[trigger] san[i] <= 'h') || ('1' <= san[i] <= '8')));

    lemma_remove_marks_id(san);
    assert(strip_annotations(san) == san);
    lemma_eq_index_none(san, 0);
    assert(!contains_x(san));
    lemma_remove_x_id(san);

    let s4 = san;
    assert(!(s4[0] == 'O' || s4[0] == '0'));
    assert(!is_piece_letter(s4[0]));
    assert(kind_of_letter(s4[0]) == Kind::Pawn);
    let rest = s4;
    assert(rest.len() >= 2);
    let c0 = rest[rest.len() - 2];
    let c1 = rest[rest.len() - 1];
    assert(c0 == fc && c1 == rc);
    assert(is_square_chars(c0, c1));
    assert(sq_from_chars(c0, c1) == to);

    let seg = rest.subrange(0, rest.len() - 2);
    assert(seg =~= dis);
    let df = last_dis_file(seg);
    let dr = last_dis_rank(seg);
    assert(file_char(m.from as int) as int == 97 + f);
    assert(rank_char(m.from as int) as int == 49 + r);
    assert(last_dis_rank(Seq::<char>::empty()) is None);
    assert(last_dis_file(Seq::<char>::empty()) is None);
    assert(seq![file_char(m.from as int)].drop_last() =~= Seq::<char>::empty());
    assert(seq![rank_char(m.from as int)].drop_last() =~= Seq::<char>::empty());
    assert(df is Some ==> df->0 == f);
    assert(dr is Some ==> dr->0 == r);

    // The move's own source is a candidate.
    assert(crate::movegen::pawn_reach_ok(bv, m.from as int, to, false));
    assert(san_cand(bv, Kind::Pawn, to, false, df, dr, m.from as int));

    // And it is the only one: another pushing pawn on the file would stand
    // on a square this push requires to be empty.
    assert forall|i: int| san_cand(bv, Kind::Pawn, to, false, df, dr, i) implies i == m.from
        as int by {
        let ci = bv.sq[i]->0.color;
        assert(ci == bv.side && ci == c);
        assert(crate::movegen::pawn_reach_ok(bv, i, to, false));
        let di = crate::board::pawn_dir(ci);
        assert(spec_file(i) == spec_file(to));
        assert(spec_rank(to) == spec_rank(i) + di || spec_rank(to) == spec_rank(i) + 2 * di);
        assert(i == to - 8 * d || i == to - 16 * d);
        assert(m.from as int == to - 8 * d || m.from as int == to - 16 * d);
        if i != m.from as int {
            // One of the two is the single-push source, which the other's
            // double push requires to be empty.
            assert(bv.sq[to - 8 * d] is Some && bv.sq[to - 8 * d] is None);
        }
    }

    assert(san_resolve(bv, Kind::Pawn, to, false, df, dr, None) == Some(m)) by {
        let w = choose|i: int| san_cand(bv, Kind::Pawn, to, false, df, dr, i);
        assert(w == m.from as int);
    }
    assert(san_move(bv, san) == Some(m));
}


/// Round trip for quiet piece moves that need no disambiguation: the SAN
/// text of a legal non-castle, non-capturing piece move parses back, on the
/// identical position, to exactly the same move, provided no other piece of
/// the same kind can geometrically reach the destination.
pub proof fn lemma_piece_move_round_trip(bv: BoardV, m: Move)
    requires
        bv.wf(),
        legal_move_of(bv, m),
        !m.is_castle_kingside,
        !m.is_castle_queenside,
        bv.sq[m.from as int]->0.kind != Kind::Pawn,
        !m.is_capture,
        m.promo is None,
        !similar_exists(bv, m, bv.sq[m.from as int]->0.kind),
        forall|i: int|
            san_cand(bv, bv.sq[m.from as int]->0.kind, m.to as int, false, None, None, i) ==> i
                == m.from as int,
    ensures
        san_move(bv, san_of(bv, m)) == Some(m),
{
    let kind = bv.sq[m.from as int]->0.kind;
    let to = m.to as int;
    assert(crate::movegen::norm_move_ok(bv, m.from as int, m));

    let san = san_of(bv, m);
    let letter = san_piece_letter(kind)[0];
    let fc = file_char(to);
    let rc = rank_char(to);
    assert(san == seq![letter, fc, rc]);
    assert(letter == 'K' || letter == 'Q' || letter == 'R' || letter == 'B' || letter == 'N');
    assert(fc as int == 97 + spec_file(to) && rc as int == 49 + spec_rank(to));

    lemma_remove_marks_id(san);
    assert(strip_annotations(san) == san);
    lemma_eq_index_none(san, 0);
    assert(!contains_x(san));
    lemma_remove_x_id(san);

    let s4 = san;
    assert(is_piece_letter(s4[0]) && kind_of_letter(s4[0]) == kind);
    let rest = s4.drop_first();
    assert(rest =~= seq![fc, rc]);
    assert(is_square_chars(rest[0], rest[1]));
    assert(sq_from_chars(rest[0], rest[1]) == to);

    let seg = rest.subrange(0, 0);
    assert(seg =~= Seq::<char>::empty());
    assert(last_dis_file(seg) is None && last_dis_rank(seg) is None);

    assert(crate::movegen::reach_ok(bv, m.from as int, to, false));
    assert(san_cand(bv, kind, to, false, None, None, m.from as int));

    assert(san_resolve(bv, kind, to, false, None, None, None) == Some(m)) by {
        let w = choose|i: int| san_cand(bv, kind, to, false, None, None, i);
        assert(w == m.from as int);
    }
    assert(san_move(bv, san) == Some(m));
}

} // verus!
