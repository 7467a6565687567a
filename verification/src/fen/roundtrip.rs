//! Reading back the FEN text of a position gives the position.
use vstd::prelude::*;

use crate::color::Color;
use crate::fen::{board_text, empty_board, fen_outcome_ok, fen_reading, fen_text, parse_rank, parse_ranks, rank_text};
use crate::piece::{color_of_code, fen_letter, kind_of_code, lemma_code_decompose, piece_code, piece_of_fen_letter, valid_code};
use crate::position::{Position, Snap, kings_of, lemma_kings_of_sole, snap_ok, sound_board};
use crate::square::{col, in_palace_spec, lemma_index_decompose, lemma_sq_components, row, sq};
use crate::text::{all_digits, decimal, digit_value, digits_value, fields, fields_from, is_digit, is_ws, split_from, split_on, u16_of};

verus! {

/// Decimal text is a non-empty run of digits whose value is the number.
pub proof fn lemma_decimal_digits(n: nat)
    ensures
        decimal(n).len() > 0,
        all_digits(decimal(n)),
        digits_value(decimal(n)) == n,
    decreases n,
{
    if n >= 10 {
        lemma_decimal_digits(n / 10);
        let t = decimal(n / 10);
        let d = ((n % 10) + 48) as char;
        assert((d as int) == (n % 10) + 48);
        assert(decimal(n) == t.push(d));
        assert(decimal(n).drop_last() =~= t);
        assert forall|i: int| 0 <= i < decimal(n).len() implies is_digit(#[trigger] decimal(n)[i]) by {
            if i < t.len() {
                assert(decimal(n)[i] == t[i]);
            }
        }
        assert(decimal(n).last() == d);
        assert(digits_value(decimal(n)) == digits_value(t) * 10 + digit_value(d));
        assert(n == (n / 10) * 10 + n % 10) by (nonlinear_arith);
    } else {
        let d = (n + 48) as char;
        assert((d as int) == n + 48);
        assert(decimal(n) == seq![d]);
        assert(decimal(n).drop_last() =~= Seq::<char>::empty());
        assert(decimal(n).last() == d);
        assert(digits_value(Seq::<char>::empty()) == 0);
        assert(digits_value(decimal(n)) == digits_value(Seq::<char>::empty()) * 10 + digit_value(d));
    }
}

/// Decimal text of a 16-bit number reads back as that number.
pub proof fn lemma_decimal_u16(n: u16)
    ensures
        u16_of(decimal(n as nat)) == Some(n),
{
    lemma_decimal_digits(n as nat);
    assert(is_digit(decimal(n as nat)[0]));
}

/// Whether no character of `t` is white space.
pub open spec fn no_ws(t: Seq<char>) -> bool {
    forall|k: int| 0 <= k < t.len() ==> !is_ws(#[trigger] t[k])
}

/// Fields are read the same after a prefix as from the start of the rest.
proof fn lemma_fields_shift(a: Seq<char>, b: Seq<char>, i: int, cur: Seq<char>, acc: Seq<Seq<char>>)
    requires
        0 <= i <= b.len(),
    ensures
        fields_from(a + b, a.len() + i, cur, acc) == fields_from(b, i, cur, acc),
    decreases b.len() - i,
{
    if i < b.len() {
        assert((a + b)[a.len() + i] == b[i]);
        let next = if cur.len() > 0 {
            acc.push(cur)
        } else {
            acc
        };
        lemma_fields_shift(a, b, i + 1, Seq::empty(), next);
        lemma_fields_shift(a, b, i + 1, cur.push(b[i]), acc);
    }
}

/// A run of characters without white space extends the field in progress.
proof fn lemma_fields_run(s: Seq<char>, i: int, len: int, cur: Seq<char>, acc: Seq<Seq<char>>)
    requires
        0 <= i,
        0 <= len,
        i + len <= s.len(),
        forall|k: int| i <= k < i + len ==> !is_ws(#[trigger] s[k]),
    ensures
        fields_from(s, i, cur, acc) == fields_from(s, i + len, cur + s.subrange(i, i + len), acc),
    decreases len,
{
    if len > 0 {
        lemma_fields_run(s, i + 1, len - 1, cur.push(s[i]), acc);
        assert(cur.push(s[i]) + s.subrange(i + 1, i + len) =~= cur + s.subrange(i, i + len));
    } else {
        assert(cur + s.subrange(i, i) =~= cur);
    }
}

/// A word, a space, then the rest: the word is a field and the rest is read on.
proof fn lemma_fields_word(w: Seq<char>, rest: Seq<char>, acc: Seq<Seq<char>>)
    requires
        w.len() > 0,
        no_ws(w),
    ensures
        fields_from(w + seq![' '] + rest, 0, Seq::empty(), acc) == fields_from(
            rest,
            0,
            Seq::empty(),
            acc.push(w),
        ),
{
    let s = w + seq![' '] + rest;
    lemma_fields_run(s, 0, w.len() as int, Seq::empty(), acc);
    assert(Seq::<char>::empty() + s.subrange(0, w.len() as int) =~= w);
    assert(s[w.len() as int] == ' ');
    lemma_fields_shift(w + seq![' '], rest, 0, Seq::empty(), acc.push(w));
}

/// A last word is the last field.
proof fn lemma_fields_last(w: Seq<char>, acc: Seq<Seq<char>>)
    requires
        w.len() > 0,
        no_ws(w),
    ensures
        fields_from(w, 0, Seq::empty(), acc) == acc.push(w),
{
    lemma_fields_run(w, 0, w.len() as int, Seq::empty(), acc);
    assert(Seq::<char>::empty() + w.subrange(0, w.len() as int) =~= w);
}

/// Pieces between separators are read the same after a prefix as from the
/// start of the rest.
proof fn lemma_split_shift(a: Seq<char>, b: Seq<char>, sep: char, i: int, cur: Seq<char>, acc: Seq<Seq<char>>)
    requires
        0 <= i <= b.len(),
    ensures
        split_from(a + b, sep, a.len() + i, cur, acc) == split_from(b, sep, i, cur, acc),
    decreases b.len() - i,
{
    if i < b.len() {
        assert((a + b)[a.len() + i] == b[i]);
        lemma_split_shift(a, b, sep, i + 1, Seq::empty(), acc.push(cur));
        lemma_split_shift(a, b, sep, i + 1, cur.push(b[i]), acc);
    }
}

/// A run without the separator extends the piece in progress.
proof fn lemma_split_run(s: Seq<char>, sep: char, i: int, len: int, cur: Seq<char>, acc: Seq<Seq<char>>)
    requires
        0 <= i,
        0 <= len,
        i + len <= s.len(),
        forall|k: int| i <= k < i + len ==> #[trigger] s[k] != sep,
    ensures
        split_from(s, sep, i, cur, acc) == split_from(s, sep, i + len, cur + s.subrange(i, i + len), acc),
    decreases len,
{
    if len > 0 {
        lemma_split_run(s, sep, i + 1, len - 1, cur.push(s[i]), acc);
        assert(cur.push(s[i]) + s.subrange(i + 1, i + len) =~= cur + s.subrange(i, i + len));
    } else {
        assert(cur + s.subrange(i, i) =~= cur);
    }
}

/// A character of rank text: a gap digit `1`..`9` or a FEN piece letter.
pub open spec fn rank_char(ch: char) -> bool {
    ('1' <= ch && ch <= '9') || piece_of_fen_letter(ch) is Some
}

/// Every FEN letter names its piece back.
proof fn lemma_letter_reads_back(k: crate::piece::PieceKind, c: Color)
    ensures
        piece_of_fen_letter(fen_letter(k, c)) == Some((k, c)),
        !is_digit(fen_letter(k, c)),
        !is_ws(fen_letter(k, c)),
        fen_letter(k, c) != '/',
{
}

/// Rank text is made of rank characters, and is not empty while a file or
/// a pending gap remains.
proof fn lemma_rank_text_chars(b: Seq<u8>, r: int, c: int, g: int)
    requires
        sound_board(b),
        0 <= r < 10,
        0 <= g <= c <= 9,
    ensures
        forall|k: int| 0 <= k < rank_text(b, r, c, g).len() ==> rank_char(#[trigger] rank_text(b, r, c, g)[k]),
        forall|k: int| 0 <= k < rank_text(b, r, c, g).len() ==> !is_ws(#[trigger] rank_text(b, r, c, g)[k]),
        forall|k: int| 0 <= k < rank_text(b, r, c, g).len() ==> #[trigger] rank_text(b, r, c, g)[k] != '/',
        (g > 0 || c < 9) ==> rank_text(b, r, c, g).len() > 0,
    decreases 9 - c,
{
    let pending = if g > 0 {
        seq![(g + 48) as char]
    } else {
        Seq::<char>::empty()
    };
    if g > 0 {
        let d = (g + 48) as char;
        assert((d as int) == g + 48);
        assert(rank_char(d) && !is_ws(d) && d != '/');
    }
    if c < 9 {
        lemma_sq_components(c, r);
        let p = b[sq(c, r)];
        if p == 0 {
            lemma_rank_text_chars(b, r, c + 1, g + 1);
        } else {
            lemma_rank_text_chars(b, r, c + 1, 0);
            assert(valid_code(p));
            lemma_code_decompose(p);
            let letter = fen_letter(kind_of_code(p).unwrap(), color_of_code(p).unwrap());
            lemma_letter_reads_back(kind_of_code(p).unwrap(), color_of_code(p).unwrap());
            let rest = rank_text(b, r, c + 1, 0);
            let t = rank_text(b, r, c, g);
            assert(t == pending + seq![letter] + rest);
            assert forall|k: int| 0 <= k < t.len() implies rank_char(#[trigger] t[k]) && !is_ws(t[k]) && t[k] != '/' by {
                if k < pending.len() {
                    assert(t[k] == pending[k]);
                } else if k == pending.len() {
                    assert(t[k] == letter);
                } else {
                    assert(t[k] == rest[k - pending.len() - 1]);
                }
            }
        }
    } else {
        assert(rank_text(b, r, c, g) == pending);
    }
}

/// Board `acc` with files `f..9` of row `r` taken from `b`.
pub open spec fn with_row(acc: Seq<u8>, b: Seq<u8>, r: int, f: int) -> Seq<u8> {
    Seq::new(90, |i: int| if row(i) == r && col(i) >= f { b[i] } else { acc[i] })
}

/// Parsing rank text fills its row: with `g` empty files pending before
/// file `c`, the text from `j` on writes files `c - g..9` of row `r` as `b`
/// has them onto a board that is empty there.
proof fn lemma_parse_rank_text(b: Seq<u8>, acc: Seq<u8>, seg: Seq<char>, r: int, j: int, c: int, g: int)
    requires
        sound_board(b),
        acc.len() == 90,
        0 <= r < 10,
        0 <= g <= c <= 9,
        0 <= j <= seg.len(),
        seg.subrange(j, seg.len() as int) == rank_text(b, r, c, g),
        forall|f: int| c - g <= f < c ==> b[#[trigger] sq(f, r)] == 0,
        forall|f: int| c - g <= f < 9 ==> acc[#[trigger] sq(f, r)] == 0,
    ensures
        parse_rank(seg, r, j, c - g, acc) == Ok::<Seq<u8>, crate::fen::FenError>(with_row(acc, b, r, c - g)),
    decreases 9 - c,
{
    let t = seg.subrange(j, seg.len() as int);
    assert(t.len() == seg.len() - j);
    assert forall|m: int| 0 <= m < t.len() implies #[trigger] t[m] == seg[j + m] by {}
    if c >= 9 {
        if g > 0 {
            assert(t == seq![(g + 48) as char]);
            assert(t.len() == 1);
            assert(seg[j + 0] == t[0]);
            assert(seg.len() == j + 1);
        } else {
            assert(t.len() == 0);
        }
        assert forall|i: int| 0 <= i < 90 implies #[trigger] with_row(acc, b, r, c - g)[i] == acc[i] by {
            lemma_index_decompose(i);
            if row(i) == r && col(i) >= c - g {
                assert(b[sq(col(i), row(i))] == 0);
                assert(acc[sq(col(i), row(i))] == 0);
            }
        }
        assert(with_row(acc, b, r, c - g) =~= acc);
    } else {
        lemma_sq_components(c, r);
        let p = b[sq(c, r)];
        if p == 0 {
            lemma_parse_rank_text(b, acc, seg, r, j, c + 1, g + 1);
        } else {
            assert(valid_code(p));
            lemma_code_decompose(p);
            let k = kind_of_code(p).unwrap();
            let col_ = color_of_code(p).unwrap();
            lemma_letter_reads_back(k, col_);
            let jl = if g > 0 {
                j + 1
            } else {
                j
            };
            if g > 0 {
                assert(t[0] == (g + 48) as char);
                assert(seg[j + 0] == t[0]);
                assert(parse_rank(seg, r, j, c - g, acc) == parse_rank(seg, r, j + 1, c, acc));
            }
            assert(seg[jl] == fen_letter(k, col_)) by {
                assert(t[jl - j] == fen_letter(k, col_));
                assert(seg[j + (jl - j)] == t[jl - j]);
            }
            let acc2 = acc.update(sq(c, r), piece_code(col_, k));
            assert(parse_rank(seg, r, jl, c, acc) == parse_rank(seg, r, jl + 1, c + 1, acc2));
            assert(seg.subrange(jl + 1, seg.len() as int) =~= rank_text(b, r, c + 1, 0)) by {
                let rest = rank_text(b, r, c + 1, 0);
                let pre = (if g > 0 {
                    seq![(g + 48) as char]
                } else {
                    Seq::empty()
                }) + seq![fen_letter(k, col_)];
                assert(t =~= pre + rest);
                assert(pre.len() == jl + 1 - j);
                assert forall|m: int| 0 <= m < rest.len() implies #[trigger] seg.subrange(jl + 1, seg.len() as int)[m] == rest[m] by {
                    assert(t[pre.len() + m] == rest[m]);
                    assert(seg[j + (pre.len() + m)] == t[pre.len() + m]);
                }
            }
            assert forall|f: int| c + 1 <= f < 9 implies acc2[#[trigger] sq(f, r)] == 0 by {
                lemma_sq_components(f, r);
            }
            lemma_parse_rank_text(b, acc2, seg, r, jl + 1, c + 1, 0);
            assert forall|i: int| 0 <= i < 90 implies #[trigger] with_row(acc2, b, r, c + 1)[i]
                == with_row(acc, b, r, c - g)[i] by {
                lemma_index_decompose(i);
                if row(i) == r && c - g <= col(i) < c {
                    assert(b[sq(col(i), row(i))] == 0);
                    assert(acc[sq(col(i), row(i))] == 0);
                }
            }
            assert(with_row(acc2, b, r, c + 1) =~= with_row(acc, b, r, c - g));
        }
    }
}

/// The rank texts of a board, from text rank `i` on (text rank `i` is row
/// `9 - i`).
pub open spec fn ranks_of(b: Seq<u8>, i: int) -> Seq<Seq<char>> {
    Seq::new((10 - i) as nat, |k: int| rank_text(b, 9 - (i + k), 0, 0))
}

/// Board text splits at `/` into its rank texts.
proof fn lemma_split_board(b: Seq<u8>, i: int, acc: Seq<Seq<char>>)
    requires
        sound_board(b),
        0 <= i < 10,
    ensures
        split_from(board_text(b, i), '/', 0, Seq::empty(), acc) == acc + ranks_of(b, i),
    decreases 10 - i,
{
    let w = rank_text(b, 9 - i, 0, 0);
    lemma_rank_text_chars(b, 9 - i, 0, 0);
    if i + 1 < 10 {
        let rest = board_text(b, i + 1);
        let s = board_text(b, i);
        assert(s == w + seq!['/'] + rest);
        lemma_split_run(s, '/', 0, w.len() as int, Seq::empty(), acc);
        assert(Seq::<char>::empty() + s.subrange(0, w.len() as int) =~= w);
        assert(s[w.len() as int] == '/');
        lemma_split_shift(w + seq!['/'], rest, '/', 0, Seq::empty(), acc.push(w));
        lemma_split_board(b, i + 1, acc.push(w));
        assert(acc.push(w) + ranks_of(b, i + 1) =~= acc + ranks_of(b, i));
    } else {
        let s = board_text(b, i);
        assert(board_text(b, i + 1) =~= Seq::<char>::empty());
        assert(s =~= w);
        lemma_split_run(s, '/', 0, w.len() as int, Seq::empty(), acc);
        assert(Seq::<char>::empty() + s.subrange(0, w.len() as int) =~= w);
        assert(acc.push(w) =~= acc + ranks_of(b, i));
    }
}

/// Board text has no white space and is not empty.
proof fn lemma_board_text_word(b: Seq<u8>, i: int)
    requires
        sound_board(b),
        0 <= i < 10,
    ensures
        board_text(b, i).len() > 0,
        no_ws(board_text(b, i)),
    decreases 10 - i,
{
    lemma_rank_text_chars(b, 9 - i, 0, 0);
    if i + 1 < 10 {
        lemma_board_text_word(b, i + 1);
    }
    let w = rank_text(b, 9 - i, 0, 0);
    let tail = (if i + 1 < 10 {
        seq!['/']
    } else {
        Seq::empty()
    }) + board_text(b, i + 1);
    assert(board_text(b, i) == w + tail);
    assert forall|k: int| 0 <= k < board_text(b, i).len() implies !is_ws(#[trigger] board_text(b, i)[k]) by {
        if k < w.len() {
            assert(board_text(b, i)[k] == w[k]);
        } else if i + 1 < 10 {
            if k == w.len() {
                assert(board_text(b, i)[k] == '/');
            } else {
                assert(board_text(b, i)[k] == board_text(b, i + 1)[k - w.len() - 1]);
            }
        }
    }
}

/// Parsing the rank texts of `b` from text rank `i` on rebuilds `b` on a
/// board that has `b`'s rows above and nothing on the rest.
proof fn lemma_parse_ranks(b: Seq<u8>, rows: Seq<Seq<char>>, i: int, acc: Seq<u8>)
    requires
        sound_board(b),
        rows == ranks_of(b, 0),
        0 <= i <= 10,
        acc.len() == 90,
        forall|x: int| 0 <= x < 90 && row(x) > 9 - i ==> #[trigger] acc[x] == b[x],
        forall|x: int| 0 <= x < 90 && row(x) <= 9 - i ==> #[trigger] acc[x] == 0,
    ensures
        parse_ranks(rows, i, acc) == Ok::<Seq<u8>, crate::fen::FenError>(b),
    decreases 10 - i,
{
    if i < 10 {
        let r = 9 - i;
        let seg = rows[i];
        assert(seg == rank_text(b, r, 0, 0));
        assert(seg.subrange(0, seg.len() as int) =~= seg);
        assert forall|f: int| 0 <= f < 9 implies acc[#[trigger] sq(f, r)] == 0 by {
            lemma_sq_components(f, r);
        }
        lemma_parse_rank_text(b, acc, seg, r, 0, 0, 0);
        let acc2 = with_row(acc, b, r, 0);
        assert forall|x: int| 0 <= x < 90 && row(x) > 9 - (i + 1) implies #[trigger] acc2[x] == b[x] by {
            lemma_index_decompose(x);
        }
        assert forall|x: int| 0 <= x < 90 && row(x) <= 9 - (i + 1) implies #[trigger] acc2[x] == 0 by {
            lemma_index_decompose(x);
        }
        lemma_parse_ranks(b, rows, i + 1, acc2);
    } else {
        assert forall|x: int| 0 <= x < 90 implies #[trigger] acc[x] == b[x] by {
            lemma_index_decompose(x);
        }
        assert(acc =~= b);
    }
}

/// Reading back the FEN text of a sound state whose kings stand in their
/// palaces gives that state: the board, the side to move, both counters and
/// the kings.
pub proof fn law_fen_roundtrip(s: Snap)
    requires
        snap_ok(s),
        in_palace_spec(Color::Red, col(s.4 as int), row(s.4 as int)),
        in_palace_spec(Color::Black, col(s.5 as int), row(s.5 as int)),
    ensures
        fen_reading(fen_text(s)) == Ok::<Snap, Seq<char>>(s),
{
    let b = s.0;
    let side = if s.1 == Color::Red {
        'w'
    } else {
        'b'
    };
    let w0 = board_text(b, 0);
    let w4 = decimal(s.2 as nat);
    let w5 = decimal(s.3 as nat);
    lemma_board_text_word(b, 0);
    lemma_decimal_digits(s.2 as nat);
    lemma_decimal_digits(s.3 as nat);
    assert(no_ws(w4));
    assert(no_ws(w5));
    let t5 = w5;
    let t4 = w4 + seq![' '] + t5;
    let t3 = seq!['-'] + seq![' '] + t4;
    let t2 = seq!['-'] + seq![' '] + t3;
    let t1 = seq![side] + seq![' '] + t2;
    let t0 = w0 + seq![' '] + t1;
    assert(fen_text(s) =~= t0);
    let a0 = Seq::<Seq<char>>::empty();
    let a1 = a0.push(w0);
    let a2 = a1.push(seq![side]);
    let a3 = a2.push(seq!['-']);
    let a4 = a3.push(seq!['-']);
    let a5 = a4.push(w4);
    lemma_fields_word(w0, t1, a0);
    lemma_fields_word(seq![side], t2, a1);
    lemma_fields_word(seq!['-'], t3, a2);
    lemma_fields_word(seq!['-'], t4, a3);
    lemma_fields_word(w4, t5, a4);
    lemma_fields_last(w5, a5);
    let fs = fields(fen_text(s));
    assert(fs == a5.push(w5));
    assert(fs.len() == 6);
    assert(fs[0] == w0 && fs[1] == seq![side] && fs[4] == w4 && fs[5] == w5);
    lemma_decimal_u16(s.2);
    lemma_decimal_u16(s.3);
    lemma_split_board(b, 0, Seq::empty());
    let rows = split_on(w0, '/');
    assert(rows =~= ranks_of(b, 0));
    assert forall|x: int| 0 <= x < 90 && row(x) <= 9 - 0 implies #[trigger] empty_board()[x] == 0 by {}
    lemma_parse_ranks(b, rows, 0, empty_board());
    lemma_kings_of_sole(b, s.4, s.5);
}

/// FEN text read back by [`crate::fen::from_fen`] gives a position in the
/// same state (for a sound state whose kings stand in their palaces).
pub proof fn law_from_fen_of_fen_text(s: Snap, r: Result<Position, crate::fen::FenError>)
    requires
        snap_ok(s),
        in_palace_spec(Color::Red, col(s.4 as int), row(s.4 as int)),
        in_palace_spec(Color::Black, col(s.5 as int), row(s.5 as int)),
        fen_outcome_ok(fen_text(s), r),
    ensures
        r matches Ok(p) && p.wf() && p.snap() == s,
{
    law_fen_roundtrip(s);
}

} // verus!
