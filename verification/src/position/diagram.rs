//! A picture of the board, to read a position at a glance.
use vstd::prelude::*;

use crate::color::{Color, side_zh};
use crate::piece::{color_of, color_of_code, glyph_of, kind_of, kind_of_code};
use crate::position::Position;
use crate::square::{index, sq};
use crate::text::{decimal, push_char, push_decimal, push_str};

verus! {

/// Lower-case hexadecimal digit of `d` (`0..16`).
pub open spec fn hex_char(d: int) -> char {
    if d < 10 {
        (d + 48) as char
    } else {
        (d + 87) as char
    }
}

/// The last `k` hexadecimal digits of `n`, most significant first.
pub open spec fn hex_digits(n: nat, k: nat) -> Seq<char>
    decreases k,
{
    if k == 0 {
        Seq::empty()
    } else {
        hex_digits(n / 16, (k - 1) as nat).push(hex_char((n % 16) as int))
    }
}

/// What a point holding `p` shows: the piece's glyph, or a dot when empty.
pub open spec fn cell_char(p: u8) -> char {
    match (color_of_code(p), kind_of_code(p)) {
        (Some(c), Some(k)) => glyph_of(k, c),
        _ => '·',
    }
}

/// Points of files `c..9` of row `r`, separated by spaces.
pub open spec fn row_cells(b: Seq<u8>, r: int, c: int) -> Seq<char>
    decreases 9 - c,
{
    if c >= 9 {
        Seq::empty()
    } else {
        seq![cell_char(b[sq(c, r)])] + (if c + 1 < 9 {
            seq![' ']
        } else {
            Seq::empty()
        }) + row_cells(b, r, c + 1)
    }
}

/// Lines of rows `r` down to 0, each labelled with its row.
pub open spec fn rows_text(b: Seq<u8>, r: int) -> Seq<char>
    decreases r + 1,
{
    if r < 0 {
        Seq::empty()
    } else {
        "  row "@ + decimal(r as nat) + "  "@ + row_cells(b, r, 0) + seq!['\n'] + rows_text(b, r - 1)
    }
}

/// The picture of a position: a line with the side to move, both counters
/// and the hash (`0x` and sixteen hexadecimal digits), then the rows from
/// row 9 down to row 0, then the file letters.
pub open spec fn diagram_text(side: Color, hm: u16, fm: u16, hash: u64, b: Seq<u8>) -> Seq<char> {
    "Position("@ + side_zh(side) + " to move, halfmove="@ + decimal(hm as nat) + ", fullmove="@
        + decimal(fm as nat) + ", hash=0x"@ + hex_digits(hash as nat, 16) + ")\n"@ + rows_text(b, 9)
        + "          a b c d e f g h i"@
}

/// Appends the last `k` hexadecimal digits of `n`.
fn push_hex(s: &mut String, n: u64, k: u8)
    ensures
        final(s)@ == old(s)@ + hex_digits(n as nat, k as nat),
    decreases k,
{
    if k > 0 {
        push_hex(s, n / 16, k - 1);
        let d = (n % 16) as u8;
        let ch = if d < 10 {
            (d + 48) as char
        } else {
            (d + 87) as char
        };
        push_char(s, ch);
    }
}

impl Position {
    /// Appends the points of row `r`.
    fn push_row_cells(&self, s: &mut String, r: u8)
        requires
            self.wf(),
            r < 10,
        ensures
            final(s)@ == old(s)@ + row_cells(self.board(), r as int, 0),
    {
        let ghost goal = old(s)@ + row_cells(self.board(), r as int, 0);
        let mut c: u8 = 0;
        proof {
            assert(s@ + row_cells(self.board(), r as int, 0) =~= goal);
        }
        while c < 9
            invariant
                self.wf(),
                r < 10,
                c <= 9,
                goal == s@ + row_cells(self.board(), r as int, c as int),
            decreases 9 - c,
        {
            let p = self.piece_at(index(c, r));
            let ch = match (color_of(p), kind_of(p)) {
                (Some(col), Some(k)) => k.name_zh(col),
                _ => '·',
            };
            push_char(s, ch);
            if c + 1 < 9 {
                push_char(s, ' ');
            }
            assert(s@ + row_cells(self.board(), r as int, c as int + 1) =~= goal);
            c += 1;
        }
        assert(s@ =~= goal);
    }

    /// A picture of the board with the side to move, the counters and the
    /// hash, such as a failing test prints.
    pub fn diagram(&self) -> (r: String)
        requires
            self.wf(),
        ensures
            r@ == diagram_text(self.side(), self.halfmove(), self.fullmove(), self.hash_val(), self.board()),
    {
        let mut s = String::new();
        push_str(&mut s, "Position(");
        push_str(&mut s, self.side_to_move().name_zh());
        push_str(&mut s, " to move, halfmove=");
        push_decimal(&mut s, self.halfmove_clock());
        push_str(&mut s, ", fullmove=");
        push_decimal(&mut s, self.fullmove_number());
        push_str(&mut s, ", hash=0x");
        push_hex(&mut s, self.hash(), 16);
        push_str(&mut s, ")\n");
        let ghost head = s@;
        let mut i: u8 = 0;
        proof {
            assert(s@ + rows_text(self.board(), 9) =~= head + rows_text(self.board(), 9));
        }
        while i < 10
            invariant
                self.wf(),
                i <= 10,
                head + rows_text(self.board(), 9) == s@ + rows_text(self.board(), 9 - i as int),
            decreases 10 - i,
        {
            let r = 9 - i;
            let ghost s0 = s@;
            push_str(&mut s, "  row ");
            push_decimal(&mut s, r as u16);
            push_str(&mut s, "  ");
            self.push_row_cells(&mut s, r);
            push_char(&mut s, '\n');
            proof {
                assert(s@ + rows_text(self.board(), 9 - (i as int + 1)) =~= s0 + rows_text(
                    self.board(),
                    9 - i as int,
                ));
            }
            i += 1;
        }
        push_str(&mut s, "          a b c d e f g h i");
        assert(rows_text(self.board(), -1) =~= Seq::<char>::empty());
        assert(s@ =~= diagram_text(self.side(), self.halfmove(), self.fullmove(), self.hash_val(), self.board()));
        s
    }
}

} // verus!
