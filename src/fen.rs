//! Forsyth-Edwards Notation: six whitespace-separated fields (placement,
//! side to move, castling rights, en-passant target, halfmove clock,
//! fullmove number) read into a board.

use crate::bits::{group_bits, has_sq};
use crate::board::{
    has_right, lemma_put_at, put_at, Board, BLACK_LONG, BLACK_SHORT, WHITE_LONG,
    WHITE_SHORT,
};
use crate::utils::{PieceColor, PieceType};
use vstd::prelude::*;
use vstd::string::StringSliceAdditionalSpecFns;

verus! {

broadcast use group_bits;

pub open spec fn is_space(c: u8) -> bool {
    c == 32 || c == 9 || c == 10 || c == 13
}

/// The whitespace-separated fields of `s` from byte `i` on, after the
/// field `cur` under way and the fields `acc` already read.
pub open spec fn split_fields(s: Seq<u8>, i: int, cur: Seq<u8>, acc: Seq<Seq<u8>>) -> Seq<
    Seq<u8>,
>
    decreases s.len() - i,
{
    if i >= s.len() || i < 0 {
        if cur.len() > 0 {
            acc.push(cur)
        } else {
            acc
        }
    } else if is_space(s[i]) {
        split_fields(
            s,
            i + 1,
            seq![],
            if cur.len() > 0 {
                acc.push(cur)
            } else {
                acc
            },
        )
    } else {
        split_fields(s, i + 1, cur.push(s[i]), acc)
    }
}

pub open spec fn fields(s: Seq<u8>) -> Seq<Seq<u8>> {
    split_fields(s, 0, seq![], seq![])
}

/// The piece a placement letter stands for: upper case white, lower case black.
pub open spec fn piece_of_char(ch: u8) -> Option<(PieceColor, PieceType)> {
    if ch == 80 {
        Some((PieceColor::White, PieceType::Pawn))
    } else if ch == 78 {
        Some((PieceColor::White, PieceType::Knight))
    } else if ch == 66 {
        Some((PieceColor::White, PieceType::Bishop))
    } else if ch == 82 {
        Some((PieceColor::White, PieceType::Rook))
    } else if ch == 81 {
        Some((PieceColor::White, PieceType::Queen))
    } else if ch == 75 {
        Some((PieceColor::White, PieceType::King))
    } else if ch == 112 {
        Some((PieceColor::Black, PieceType::Pawn))
    } else if ch == 110 {
        Some((PieceColor::Black, PieceType::Knight))
    } else if ch == 98 {
        Some((PieceColor::Black, PieceType::Bishop))
    } else if ch == 114 {
        Some((PieceColor::Black, PieceType::Rook))
    } else if ch == 113 {
        Some((PieceColor::Black, PieceType::Queen))
    } else if ch == 107 {
        Some((PieceColor::Black, PieceType::King))
    } else {
        None
    }
}

/// Reads the placement field from byte `i` on, standing on rank `r` and
/// file `f`: ranks from 8 down to 1 separated by '/', each exactly eight
/// squares of letters and digit runs of empty squares.
pub open spec fn placement(s: Seq<u8>, i: int, r: int, f: int, b: Board) -> Option<Board>
    decreases s.len() - i,
{
    if i >= s.len() || i < 0 {
        if r == 0 && f == 8 {
            Some(b)
        } else {
            None
        }
    } else {
        let ch = s[i];
        if ch == 47 {
            if f == 8 && r > 0 {
                placement(s, i + 1, r - 1, 0, b)
            } else {
                None
            }
        } else if 49 <= ch <= 56 {
            if f + (ch - 48) <= 8 {
                placement(s, i + 1, r, f + (ch - 48), b)
            } else {
                None
            }
        } else {
            match piece_of_char(ch) {
                Some((c, t)) => if f < 8 {
                    placement(s, i + 1, r, f + 1, put_at(b, t, c, (r * 8 + f) as u64))
                } else {
                    None
                },
                None => None,
            }
        }
    }
}

pub open spec fn empty_board() -> Board {
    Board {
        white_board: 0,
        black_board: 0,
        pawns_board: 0,
        knights_board: 0,
        bishops_board: 0,
        rooks_board: 0,
        queens_board: 0,
        kings_board: 0,
        turn: PieceColor::White,
        castling_rights: 0,
        en_passant: None,
    }
}

pub open spec fn castle_char_flag(ch: u8) -> u8 {
    if ch == 75 {
        WHITE_SHORT
    } else if ch == 81 {
        WHITE_LONG
    } else if ch == 107 {
        BLACK_SHORT
    } else if ch == 113 {
        BLACK_LONG
    } else {
        0
    }
}

/// The rights that the castling field names from byte `i` on; other
/// letters, and '-', name none.
pub open spec fn castle_rights_of(s: Seq<u8>, i: int) -> u8
    decreases s.len() - i,
{
    if i >= s.len() || i < 0 {
        0
    } else {
        castle_char_flag(s[i]) | castle_rights_of(s, i + 1)
    }
}

/// The rights of `rights` whose king and rook stand at home on `b`.
pub open spec fn rights_supported(b: Board, rights: u8) -> u8 {
    (if has_right(rights, WHITE_SHORT) && b.holds(4, PieceColor::White, PieceType::King) && b.holds(
        7,
        PieceColor::White,
        PieceType::Rook,
    ) {
        WHITE_SHORT
    } else {
        0
    }) | (if has_right(rights, WHITE_LONG) && b.holds(4, PieceColor::White, PieceType::King)
        && b.holds(0, PieceColor::White, PieceType::Rook) {
        WHITE_LONG
    } else {
        0
    }) | (if has_right(rights, BLACK_SHORT) && b.holds(60, PieceColor::Black, PieceType::King)
        && b.holds(63, PieceColor::Black, PieceType::Rook) {
        BLACK_SHORT
    } else {
        0
    }) | (if has_right(rights, BLACK_LONG) && b.holds(60, PieceColor::Black, PieceType::King)
        && b.holds(56, PieceColor::Black, PieceType::Rook) {
        BLACK_LONG
    } else {
        0
    })
}

/// The en-passant field: '-' or a square such as "e3".
pub open spec fn en_passant_field(s: Seq<u8>) -> Option<Option<i8>> {
    if s == seq![45u8] {
        Some(None)
    } else if s.len() == 2 && 97 <= s[0] <= 104 && 49 <= s[1] <= 56 {
        Some(Some(((s[1] - 49) * 8 + (s[0] - 97)) as i8))
    } else {
        None
    }
}

pub open spec fn all_digits(s: Seq<u8>) -> bool {
    forall|i: int| 0 <= i < s.len() ==> 48 <= #[trigger] s[i] <= 57
}

pub open spec fn decimal_value(s: Seq<u8>) -> nat
    decreases s.len(),
{
    if s.len() == 0 {
        0
    } else {
        decimal_value(s.drop_last()) * 10 + (s.last() - 48) as nat
    }
}

/// A counter field: a non-empty run of decimal digits whose value fits in a `u16`.
pub open spec fn counter_field(s: Seq<u8>) -> Option<u16> {
    if s.len() > 0 && all_digits(s) && decimal_value(s) <= u16::MAX {
        Some(decimal_value(s) as u16)
    } else {
        None
    }
}

/// The board, halfmove clock and fullmove number that a FEN text gives;
/// `None` when the text is malformed. Castling rights whose king or rook is
/// not at home, and an en-passant target that no double push can have left,
/// are dropped.
pub open spec fn parse_fen_spec(s: Seq<u8>) -> Option<(Board, u16, u16)> {
    let fs = fields(s);
    if fs.len() != 6 {
        None
    } else {
        let turn = if fs[1] == seq![119u8] {
            Some(PieceColor::White)
        } else if fs[1] == seq![98u8] {
            Some(PieceColor::Black)
        } else {
            None
        };
        match (placement(fs[0], 0, 7, 0, empty_board()), turn, en_passant_field(fs[3]), counter_field(fs[4]), counter_field(fs[5])) {
            (Some(pb), Some(t), Some(ep), Some(half), Some(full)) => {
                let b = Board {
                    turn: t,
                    castling_rights: rights_supported(pb, castle_rights_of(fs[2], 0)),
                    en_passant: ep,
                    ..pb
                };
                let b = if b.en_passant_ok() {
                    b
                } else {
                    Board { en_passant: None, ..b }
                };
                Some((b, half, full))
            },
            _ => None,
        }
    }
}

/// The whitespace-separated fields of `s` after its first `start` bytes.
pub open spec fn fields_after(s: Seq<u8>, start: int) -> Seq<Seq<u8>> {
    split_fields(s, start, seq![], seq![])
}

pub fn split_fields_exec(s: &[u8], start: usize) -> (r: Vec<Vec<u8>>)
    ensures
        r@.len() == fields_after(s@, start as int).len(),
        forall|k: int| 0 <= k < r@.len() ==> #[trigger] r@[k]@ == fields_after(s@, start as int)[k],
{
    let mut acc: Vec<Vec<u8>> = Vec::new();
    let ghost mut acc_v: Seq<Seq<u8>> = seq![];
    let mut cur: Vec<u8> = Vec::new();
    let mut i: usize = start;
    if i > s.len() {
        i = s.len();
    }
    assert(split_fields(s@, i as int, cur@, acc_v) == fields_after(s@, start as int));
    while i < s.len()
        invariant
            i <= s.len(),
            acc@.len() == acc_v.len(),
            forall|k: int| 0 <= k < acc@.len() ==> #[trigger] acc@[k]@ == acc_v[k],
            split_fields(s@, i as int, cur@, acc_v) == fields_after(s@, start as int),
        decreases s.len() - i,
    {
        let ch = s[i];
        if ch == 32 || ch == 9 || ch == 10 || ch == 13 {
            if cur.len() == 0 {
                assert(cur@ =~= seq![]);
            }
            if cur.len() > 0 {
                proof {
                    acc_v = acc_v.push(cur@);
                }
                acc.push(cur);
                cur = Vec::new();
            }
        } else {
            cur.push(ch);
        }
        i += 1;
    }
    if cur.len() > 0 {
        proof {
            acc_v = acc_v.push(cur@);
        }
        acc.push(cur);
    }
    acc
}

pub open spec fn visited(r: int, f: int, s: u64) -> bool {
    (s / 8) > r || ((s / 8) == r && (s % 8) < f)
}

pub open spec fn no_piece(b: Board, s: u64) -> bool {
    !has_sq(b.white_board, s) && !has_sq(b.black_board, s) && !has_sq(b.pawns_board, s)
        && !has_sq(b.knights_board, s) && !has_sq(b.bishops_board, s) && !has_sq(
        b.rooks_board,
        s,
    ) && !has_sq(b.queens_board, s) && !has_sq(b.kings_board, s)
}

fn piece_of_char_exec(ch: u8) -> (r: Option<(PieceColor, PieceType)>)
    ensures
        r == piece_of_char(ch),
{
    match ch {
        80 => Some((PieceColor::White, PieceType::Pawn)),
        78 => Some((PieceColor::White, PieceType::Knight)),
        66 => Some((PieceColor::White, PieceType::Bishop)),
        82 => Some((PieceColor::White, PieceType::Rook)),
        81 => Some((PieceColor::White, PieceType::Queen)),
        75 => Some((PieceColor::White, PieceType::King)),
        112 => Some((PieceColor::Black, PieceType::Pawn)),
        110 => Some((PieceColor::Black, PieceType::Knight)),
        98 => Some((PieceColor::Black, PieceType::Bishop)),
        114 => Some((PieceColor::Black, PieceType::Rook)),
        113 => Some((PieceColor::Black, PieceType::Queen)),
        107 => Some((PieceColor::Black, PieceType::King)),
        _ => None,
    }
}

/// Reads the placement field into an empty board.
fn placement_exec(s: &Vec<u8>) -> (r: Option<Board>)
    ensures
        r == placement(s@, 0, 7, 0, empty_board()),
        r matches Some(b) ==> forall|q: u64| q < 64 ==> #[trigger] b.square_ok(q),
{
    let mut b = Board {
        white_board: 0,
        black_board: 0,
        pawns_board: 0,
        knights_board: 0,
        bishops_board: 0,
        rooks_board: 0,
        queens_board: 0,
        kings_board: 0,
        turn: PieceColor::White,
        castling_rights: 0,
        en_passant: None,
    };
    let mut r: i64 = 7;
    let mut f: i64 = 0;
    let mut i: usize = 0;
    while i < s.len()
        invariant
            i <= s.len(),
            0 <= r <= 7,
            0 <= f <= 8,
            placement(s@, i as int, r as int, f as int, b) == placement(s@, 0, 7, 0, empty_board()),
            forall|q: u64| q < 64 && visited(r as int, f as int, q) ==> #[trigger] b.square_ok(q),
            forall|q: u64| q < 64 && !visited(r as int, f as int, q) ==> #[trigger] no_piece(b, q),
        decreases s.len() - i,
    {
        let ch = s[i];
        if ch == 47 {
            if f == 8 && r > 0 {
                assert forall|q: u64| q < 64 implies visited(r as int, 8, q) == visited(
                    (r - 1) as int,
                    0,
                    q,
                ) by {}
                r -= 1;
                f = 0;
            } else {
                return None;
            }
        } else if 49 <= ch && ch <= 56 {
            let nf = f + (ch - 48) as i64;
            if nf <= 8 {
                assert forall|q: u64| q < 64 && visited(r as int, nf as int, q) && !visited(
                    r as int,
                    f as int,
                    q,
                ) implies #[trigger] b.square_ok(q) by {
                    assert(no_piece(b, q));
                }
                f = nf;
            } else {
                return None;
            }
        } else {
            match piece_of_char_exec(ch) {
                Some((c, t)) => {
                    if f < 8 {
                        let sq = (r * 8 + f) as u64;
                        assert(sq / 8 == r && sq % 8 == f) by (nonlinear_arith)
                            requires
                                sq == r * 8 + f,
                                0 <= f < 8,
                                0 <= r < 8,
                        ;
                        let ghost old_b = b;
                        b.put_square(t, c, sq);
                        assert forall|q: u64|
                            q < 64 && visited(r as int, (f + 1) as int, q) implies #[trigger] b.square_ok(
                            q,
                        ) by {
                            lemma_put_at(old_b, t, c, sq, q);
                            if q == sq {
                                assert(!visited(r as int, f as int, q));
                                assert(no_piece(old_b, q));
                            } else {
                                assert(old_b.square_ok(q));
                            }
                        }
                        assert forall|q: u64|
                            q < 64 && !visited(r as int, (f + 1) as int, q) implies #[trigger] no_piece(
                            b,
                            q,
                        ) by {
                            lemma_put_at(old_b, t, c, sq, q);
                            assert(no_piece(old_b, q));
                        }
                        f += 1;
                    } else {
                        return None;
                    }
                },
                None => {
                    return None;
                },
            }
        }
        i += 1;
    }
    if r == 0 && f == 8 {
        Some(b)
    } else {
        None
    }
}

fn castle_rights_exec(s: &Vec<u8>) -> (r: u8)
    ensures
        r == castle_rights_of(s@, 0),
{
    let mut acc: u8 = 0;
    let mut i: usize = 0;
    assert(forall|x: u8| #![auto] 0u8 | x == x) by (bit_vector);
    while i < s.len()
        invariant
            i <= s.len(),
            acc | castle_rights_of(s@, i as int) == castle_rights_of(s@, 0),
        decreases s.len() - i,
    {
        let ch = s[i];
        let flag: u8 = if ch == 75 {
            WHITE_SHORT
        } else if ch == 81 {
            WHITE_LONG
        } else if ch == 107 {
            BLACK_SHORT
        } else if ch == 113 {
            BLACK_LONG
        } else {
            0
        };
        let ghost rest = castle_rights_of(s@, (i + 1) as int);
        assert(acc | (flag | rest) == (acc | flag) | rest) by (bit_vector);
        acc = acc | flag;
        i += 1;
    }
    assert(acc | 0u8 == acc) by (bit_vector);
    acc
}

proof fn lemma_rights_bits(a: u8, b: u8, c: u8, d: u8)
    requires
        a == 0 || a == 1,
        b == 0 || b == 2,
        c == 0 || c == 4,
        d == 0 || d == 8,
    ensures
        (a | b | c | d) & 1 != 0 ==> a == 1,
        (a | b | c | d) & 2 != 0 ==> b == 2,
        (a | b | c | d) & 4 != 0 ==> c == 4,
        (a | b | c | d) & 8 != 0 ==> d == 8,
{
    assert((a | b | c | d) & 1 != 0 ==> a == 1) by (bit_vector)
        requires
            a == 0 || a == 1,
            b == 0 || b == 2,
            c == 0 || c == 4,
            d == 0 || d == 8,
    ;
    assert((a | b | c | d) & 2 != 0 ==> b == 2) by (bit_vector)
        requires
            a == 0 || a == 1,
            b == 0 || b == 2,
            c == 0 || c == 4,
            d == 0 || d == 8,
    ;
    assert((a | b | c | d) & 4 != 0 ==> c == 4) by (bit_vector)
        requires
            a == 0 || a == 1,
            b == 0 || b == 2,
            c == 0 || c == 4,
            d == 0 || d == 8,
    ;
    assert((a | b | c | d) & 8 != 0 ==> d == 8) by (bit_vector)
        requires
            a == 0 || a == 1,
            b == 0 || b == 2,
            c == 0 || c == 4,
            d == 0 || d == 8,
    ;
}

impl Board {
    pub fn holds_exec(&self, s: u64, c: PieceColor, t: PieceType) -> (r: bool)
        requires
            s < 64,
        ensures
            r == self.holds(s, c, t),
    {
        self.color_at_exec(s) == c && self.type_at_exec(s) == t
    }

    pub fn is_empty_exec(&self, s: u64) -> (r: bool)
        requires
            s < 64,
        ensures
            r == self.is_empty(s),
    {
        self.holds_exec(s, PieceColor::NoColor, PieceType::NoPiece)
    }

    fn en_passant_ok_exec(&self) -> (r: bool)
        ensures
            r == self.en_passant_ok(),
    {
        match self.en_passant {
            None => true,
            Some(e) => {
                if self.turn == PieceColor::White {
                    40 <= e && e < 48 && self.is_empty_exec(e as u64) && self.holds_exec(
                        (e - 8) as u64,
                        PieceColor::Black,
                        PieceType::Pawn,
                    )
                } else {
                    16 <= e && e < 24 && self.is_empty_exec(e as u64) && self.holds_exec(
                        (e + 8) as u64,
                        PieceColor::White,
                        PieceType::Pawn,
                    )
                }
            },
        }
    }
}

fn rights_supported_exec(b: &Board, rights: u8) -> (r: u8)
    ensures
        r == rights_supported(*b, rights),
{
    let ws: u8 = if rights & WHITE_SHORT != 0 && b.holds_exec(4, PieceColor::White, PieceType::King)
        && b.holds_exec(7, PieceColor::White, PieceType::Rook) {
        WHITE_SHORT
    } else {
        0
    };
    let wl: u8 = if rights & WHITE_LONG != 0 && b.holds_exec(4, PieceColor::White, PieceType::King)
        && b.holds_exec(0, PieceColor::White, PieceType::Rook) {
        WHITE_LONG
    } else {
        0
    };
    let bs: u8 = if rights & BLACK_SHORT != 0 && b.holds_exec(60, PieceColor::Black, PieceType::King)
        && b.holds_exec(63, PieceColor::Black, PieceType::Rook) {
        BLACK_SHORT
    } else {
        0
    };
    let bl: u8 = if rights & BLACK_LONG != 0 && b.holds_exec(60, PieceColor::Black, PieceType::King)
        && b.holds_exec(56, PieceColor::Black, PieceType::Rook) {
        BLACK_LONG
    } else {
        0
    };
    ws | wl | bs | bl
}

fn en_passant_field_exec(s: &Vec<u8>) -> (r: Option<Option<i8>>)
    ensures
        r == en_passant_field(s@),
{
    if s.len() == 1 && s[0] == 45 {
        assert(s@ =~= seq![45u8]);
        Some(None)
    } else if s.len() == 2 && 97 <= s[0] && s[0] <= 104 && 49 <= s[1] && s[1] <= 56 {
        assert(s@ != seq![45u8]);
        Some(Some(((s[1] - 49) * 8 + (s[0] - 97)) as i8))
    } else {
        None
    }
}

proof fn lemma_decimal_prefix(s: Seq<u8>, k: int)
    requires
        0 <= k <= s.len(),
    ensures
        decimal_value(s.take(k)) <= decimal_value(s),
    decreases s.len(),
{
    if k < s.len() {
        lemma_decimal_prefix(s.drop_last(), k);
        assert(s.drop_last().take(k) =~= s.take(k));
    } else {
        assert(s.take(k) =~= s);
    }
}

fn counter_field_exec(s: &Vec<u8>) -> (r: Option<u16>)
    ensures
        r == counter_field(s@),
{
    if s.len() == 0 {
        return None;
    }
    let mut acc: u32 = 0;
    let mut i: usize = 0;
    while i < s.len()
        invariant
            i <= s.len(),
            acc == decimal_value(s@.take(i as int)),
            acc <= u16::MAX,
            forall|j: int| 0 <= j < i ==> 48 <= #[trigger] s@[j] <= 57,
        decreases s.len() - i,
    {
        let ch = s[i];
        if ch < 48 || ch > 57 {
            return None;
        }
        assert(s@.take(i + 1).drop_last() =~= s@.take(i as int));
        acc = acc * 10 + (ch - 48) as u32;
        if acc > 65535 {
            proof {
                lemma_decimal_prefix(s@, i + 1);
            }
            return None;
        }
        i += 1;
    }
    assert(s@.take(s.len() as int) =~= s@);
    Some(acc as u16)
}

/// Reads a FEN text: the board, halfmove clock and fullmove number, or
/// `None` when the text is malformed.
pub fn parse_fen(fen: &str) -> (r: Option<(Board, u16, u16)>)
    ensures
        r == parse_fen_spec(fen.spec_bytes()),
        r matches Some((b, _, _)) ==> b.wf(),
{
    let bytes = fen.as_bytes();
    let fs = split_fields_exec(bytes, 0);
    if fs.len() != 6 {
        return None;
    }
    let turn = if fs[1].len() == 1 && fs[1][0] == 119 {
        assert(fs@[1]@ =~= seq![119u8]);
        Some(PieceColor::White)
    } else if fs[1].len() == 1 && fs[1][0] == 98 {
        assert(fs@[1]@ =~= seq![98u8]);
        Some(PieceColor::Black)
    } else {
        assert(fs@[1]@ != seq![119u8]);
        assert(fs@[1]@ != seq![98u8]);
        None
    };
    let pb = placement_exec(&fs[0]);
    let ep = en_passant_field_exec(&fs[3]);
    let half = counter_field_exec(&fs[4]);
    let full = counter_field_exec(&fs[5]);
    match (pb, turn, ep, half, full) {
        (Some(pb), Some(t), Some(ep), Some(half), Some(full)) => {
            let rights = rights_supported_exec(&pb, castle_rights_exec(&fs[2]));
            let mut b = Board { turn: t, castling_rights: rights, en_passant: ep, ..pb };
            if !b.en_passant_ok_exec() {
                b = Board { en_passant: None, ..b };
            }
            proof {
                let a: u8 = if has_right(castle_rights_of(fs@[2]@, 0), WHITE_SHORT) && pb.holds(4, PieceColor::White, PieceType::King) && pb.holds(7, PieceColor::White, PieceType::Rook) { WHITE_SHORT } else { 0 };
                let bb: u8 = if has_right(castle_rights_of(fs@[2]@, 0), WHITE_LONG) && pb.holds(4, PieceColor::White, PieceType::King) && pb.holds(0, PieceColor::White, PieceType::Rook) { WHITE_LONG } else { 0 };
                let c: u8 = if has_right(castle_rights_of(fs@[2]@, 0), BLACK_SHORT) && pb.holds(60, PieceColor::Black, PieceType::King) && pb.holds(63, PieceColor::Black, PieceType::Rook) { BLACK_SHORT } else { 0 };
                let d: u8 = if has_right(castle_rights_of(fs@[2]@, 0), BLACK_LONG) && pb.holds(60, PieceColor::Black, PieceType::King) && pb.holds(56, PieceColor::Black, PieceType::Rook) { BLACK_LONG } else { 0 };
                lemma_rights_bits(a, bb, c, d);
                assert(b.castling_ok());
                assert forall|q: u64| q < 64 implies #[trigger] b.square_ok(q) by {
                    assert(pb.square_ok(q));
                }
            }
            Some((b, half, full))
        },
        _ => None,
    }
}

} // verus!
