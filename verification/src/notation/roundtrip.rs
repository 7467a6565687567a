//! Reading back the notation of a move gives the move.
use vstd::prelude::*;

use crate::board::holds;
use crate::color::Color;
use crate::mv::{Move, mv_from, mv_to};
use crate::notation::{
    Action, MoveDesc, NotationError, Subject, action_char, action_of_char, column_ordered,
    column_upto, desc_is, desc_of, disambig_of, first_pos, from_notation_spec, glyph_allowed,
    not_ws, numeral_of, numeral_text, parse_spec, render_spec,
};
use crate::piece::{PieceKind, color_of_code, glyph_of, kind_of_code, lemma_code_decompose, piece_of_glyph};
use crate::position::{Snap, legal_list, lemma_legal_on_board, snap_ok};
use crate::square::{col, lemma_index_decompose, lemma_sq_components, row, sq};
use crate::text::is_ws;

verus! {

/// Whether every number in notation parts can be written as a numeral:
/// the value and a route in `1..=9`, an ordinal in `2..=9`.
pub open spec fn desc_writable(d: MoveDesc) -> bool {
    &&& 1 <= d.value <= 9
    &&& match d.subject {
        Subject::Route(r) => 1 <= r <= 9,
        Subject::Nth(n) => 2 <= n <= 9,
        _ => true,
    }
}

/// Filtering by a test that every element passes keeps the sequence.
proof fn lemma_filter_keeps_all(t: Seq<char>, p: spec_fn(char) -> bool)
    requires
        forall|k: int| 0 <= k < t.len() ==> p(#[trigger] t[k]),
    ensures
        t.filter(p) == t,
    decreases t.len(),
{
    reveal(Seq::filter);
    if t.len() > 0 {
        let u = t.drop_last();
        assert forall|k: int| 0 <= k < u.len() implies p(#[trigger] u[k]) by {
            assert(u[k] == t[k]);
        }
        lemma_filter_keeps_all(u, p);
        assert(p(t[t.len() - 1]));
        assert(u.push(t.last()) =~= t);
    }
}

/// A numeral is one character that reads back as its number, is no glyph
/// and no white space, and names an ordinal from two on.
proof fn lemma_numeral_reads_back(color: Color, n: u8)
    requires
        1 <= n <= 9,
    ensures
        numeral_text(color, n) is Some,
        numeral_text(color, n)->Some_0.len() == 1,
        numeral_of(numeral_text(color, n)->Some_0[0]) == Some(n),
        !is_ws(numeral_text(color, n)->Some_0[0]),
        piece_of_glyph(numeral_text(color, n)->Some_0[0]) is None,
        n >= 2 ==> disambig_of(numeral_text(color, n)->Some_0[0]) == Some(Subject::Nth(n)),
{
    if color == Color::Black {
        let ch = (n + 48) as char;
        assert((ch as int) == n + 48);
    }
}

/// A glyph names its piece back for its own side, and is no position word,
/// no numeral and no white space.
proof fn lemma_glyph_reads_back(k: PieceKind, c: Color)
    ensures
        piece_of_glyph(glyph_of(k, c)) matches Some((k2, gc)) && k2 == k && glyph_allowed(k, gc, c),
        disambig_of(glyph_of(k, c)) is None,
        numeral_of(glyph_of(k, c)) is None,
        !is_ws(glyph_of(k, c)),
{
}

/// An action character names its action back and is no white space.
proof fn lemma_action_reads_back(a: Action)
    ensures
        action_of_char(action_char(a)) == Some(a),
        !is_ws(action_char(a)),
{
}

/// The action and number at positions 2 and 3 complete the parts.
proof fn lemma_tail(cs: Seq<char>, d: MoveDesc)
    requires
        cs.len() == 4,
        action_of_char(cs[2]) == Some(d.action),
        numeral_of(cs[3]) == Some(d.value),
    ensures
        crate::notation::parse_tail(cs, 2, d.color, d.subject, d.kind) == Ok::<MoveDesc, NotationError>(d),
{
}

/// Text led by a position word or an ordinal, then the glyph, reads back.
proof fn lemma_parse_worded(cs: Seq<char>, d: MoveDesc)
    requires
        cs.len() == 4,
        disambig_of(cs[0]) == Some(d.subject),
        cs[1] == glyph_of(d.kind, d.color),
        action_of_char(cs[2]) == Some(d.action),
        numeral_of(cs[3]) == Some(d.value),
    ensures
        parse_spec(cs, d.color) == Ok::<MoveDesc, NotationError>(d),
{
    lemma_glyph_reads_back(d.kind, d.color);
    lemma_tail(cs, d);
}

/// Text led by the glyph, then the route, reads back.
proof fn lemma_parse_routed(cs: Seq<char>, d: MoveDesc, r: u8)
    requires
        cs.len() == 4,
        d.subject == Subject::Route(r),
        cs[0] == glyph_of(d.kind, d.color),
        numeral_of(cs[1]) == Some(r),
        action_of_char(cs[2]) == Some(d.action),
        numeral_of(cs[3]) == Some(d.value),
    ensures
        parse_spec(cs, d.color) == Ok::<MoveDesc, NotationError>(d),
{
    lemma_glyph_reads_back(d.kind, d.color);
    lemma_tail(cs, d);
}

/// The head of the notation text: glyph and route, or position word (or
/// ordinal) and glyph.
spec fn head_text(d: MoveDesc) -> Seq<char> {
    let g = glyph_of(d.kind, d.color);
    match d.subject {
        Subject::Route(r) => seq![g] + numeral_text(d.color, r)->Some_0,
        Subject::Front => seq!['前', g],
        Subject::Back => seq!['后', g],
        Subject::Middle => seq!['中', g],
        Subject::Nth(n) => numeral_text(d.color, n)->Some_0 + seq![g],
    }
}

/// The notation text is the head, the action character and the value.
proof fn lemma_render(d: MoveDesc)
    requires
        desc_writable(d),
    ensures
        head_text(d).len() == 2,
        !is_ws(head_text(d)[0]),
        !is_ws(head_text(d)[1]),
        render_spec(d) == Ok::<Seq<char>, NotationError>(
            head_text(d) + seq![action_char(d.action)] + numeral_text(d.color, d.value)->Some_0,
        ),
{
    lemma_glyph_reads_back(d.kind, d.color);
    lemma_numeral_reads_back(d.color, d.value);
    match d.subject {
        Subject::Route(r) => {
            lemma_numeral_reads_back(d.color, r);
        },
        Subject::Nth(n) => {
            lemma_numeral_reads_back(d.color, n);
        },
        _ => {},
    }
}

/// The notation text has no white space, so reading drops nothing.
#[verifier::rlimit(100)]
proof fn lemma_text_clean(d: MoveDesc)
    requires
        desc_writable(d),
    ensures
        render_spec(d) is Ok,
        render_spec(d)->Ok_0.filter(not_ws()) == render_spec(d)->Ok_0,
        render_spec(d)->Ok_0.len() == 4,
        render_spec(d)->Ok_0[0] == head_text(d)[0],
        render_spec(d)->Ok_0[1] == head_text(d)[1],
        action_of_char(render_spec(d)->Ok_0[2]) == Some(d.action),
        numeral_of(render_spec(d)->Ok_0[3]) == Some(d.value),
{
    lemma_render(d);
    lemma_action_reads_back(d.action);
    lemma_numeral_reads_back(d.color, d.value);
    let head = head_text(d);
    let v = numeral_text(d.color, d.value)->Some_0;
    let t = head + seq![action_char(d.action)] + v;
    assert(t[0] == head[0] && t[1] == head[1]);
    assert(t[2] == action_char(d.action));
    assert(t[3] == v[0]);
    assert forall|k: int| 0 <= k < t.len() implies (#[trigger] not_ws()(t[k])) by {
        if k == 0 {
        } else if k == 1 {
        } else if k == 2 {
        } else {
        }
    }
    lemma_filter_keeps_all(t, not_ws());
}

/// The head names the piece: glyph then route, or position word (or
/// ordinal) then glyph.
proof fn lemma_head(d: MoveDesc)
    requires
        desc_writable(d),
    ensures
        match d.subject {
            Subject::Route(r) => head_text(d)[0] == glyph_of(d.kind, d.color) && numeral_of(
                head_text(d)[1],
            ) == Some(r),
            _ => head_text(d)[1] == glyph_of(d.kind, d.color) && disambig_of(head_text(d)[0]) == Some(
                d.subject,
            ),
        },
{
    match d.subject {
        Subject::Route(r) => {
            lemma_numeral_reads_back(d.color, r);
        },
        Subject::Nth(n) => {
            lemma_numeral_reads_back(d.color, n);
        },
        _ => {},
    }
}

/// Notation text read back for the side that wrote it gives the parts it
/// was written from.
#[verifier::spinoff_prover]
pub proof fn law_notation_reads_back(d: MoveDesc)
    requires
        desc_writable(d),
    ensures
        render_spec(d) is Ok,
        parse_spec(render_spec(d)->Ok_0.filter(not_ws()), d.color) == Ok::<MoveDesc, NotationError>(d),
{
    lemma_text_clean(d);
    lemma_head(d);
    let t = render_spec(d)->Ok_0;
    if let Subject::Route(r) = d.subject {
        lemma_parse_routed(t, d, r);
    } else {
        lemma_parse_worded(t, d);
    }
}

/// The points of a file holding a given piece are at most as many as the
/// rows looked at, and include each such point.
proof fn lemma_column_upto(b: Seq<u8>, c: int, color: Color, kind: PieceKind, n: int, r: int)
    requires
        0 <= n,
    ensures
        column_upto(b, c, color, kind, n).len() <= n,
        0 <= r < n && holds(b, sq(c, r), color, kind) ==> column_upto(b, c, color, kind, n).contains(
            sq(c, r),
        ),
    decreases n,
{
    if n > 0 {
        lemma_column_upto(b, c, color, kind, n - 1, r);
        let prev = column_upto(b, c, color, kind, n - 1);
        let last = if holds(b, sq(c, n - 1), color, kind) {
            seq![sq(c, n - 1)]
        } else {
            Seq::<int>::empty()
        };
        let v = column_upto(b, c, color, kind, n);
        assert(v == prev + last);
        if 0 <= r < n && holds(b, sq(c, r), color, kind) {
            if r == n - 1 {
                assert(v[prev.len() as int] == sq(c, r));
            } else {
                let j = choose|j: int| 0 <= j < prev.len() && prev[j] == sq(c, r);
                assert(v[j] == sq(c, r));
            }
        }
    }
}

/// The first position of an element that occurs at `j` is at most `j`.
proof fn lemma_first_pos(v: Seq<int>, x: int, i: int, j: int)
    requires
        0 <= i <= j < v.len(),
        v[j] == x,
    ensures
        i <= first_pos(v, x, i) <= j,
    decreases j - i,
{
    if v[i] != x {
        lemma_first_pos(v, x, i + 1, j);
    }
}

/// A legal move has notation parts, whose numbers can all be written.
pub proof fn lemma_legal_desc(s: Snap, mv: Move)
    requires
        snap_ok(s),
        legal_list(s).contains(mv),
    ensures
        desc_of(s, mv) is Ok,
        desc_writable(desc_of(s, mv)->Ok_0),
        desc_of(s, mv)->Ok_0.color == s.1,
{
    lemma_legal_on_board(s, mv);
    let b = s.0;
    let from = mv_from(mv) as int;
    let to = mv_to(mv) as int;
    let p = b[from];
    assert(crate::piece::valid_code(p));
    lemma_code_decompose(p);
    let color = color_of_code(p).unwrap();
    let kind = kind_of_code(p).unwrap();
    lemma_index_decompose(from);
    lemma_index_decompose(to);
    let c = col(from);
    assert(holds(b, sq(c, row(from)), color, kind));
    lemma_column_upto(b, c, color, kind, 10, row(from));
    let v = column_upto(b, c, color, kind, 10);
    let line = column_ordered(b, c, color, kind);
    let j0 = choose|j: int| 0 <= j < v.len() && v[j] == from;
    let j = if color == Color::Red {
        v.len() - 1 - j0
    } else {
        j0
    };
    assert(line[j] == from);
    lemma_first_pos(line, from, 0, j);
    assert(line.len() <= 10);
}

/// Whether exactly one entry of the legal move list carries the notation
/// parts of `mv`, so that its notation names it alone.
pub open spec fn notation_unique(s: Snap, mv: Move) -> bool {
    match desc_of(s, mv) {
        Ok(d) => legal_list(s).filter(desc_is(s, d)).len() == 1,
        Err(_) => false,
    }
}

/// The notation of a legal move is written without error, and reading it
/// back in the same state gives the move, wherever no other legal move
/// shares its notation parts.
pub proof fn law_notation_roundtrip(s: Snap, mv: Move)
    requires
        snap_ok(s),
        legal_list(s).contains(mv),
        notation_unique(s, mv),
    ensures
        desc_of(s, mv) is Ok,
        render_spec(desc_of(s, mv)->Ok_0) is Ok,
        from_notation_spec(s, render_spec(desc_of(s, mv)->Ok_0)->Ok_0) == Ok::<Move, NotationError>(mv),
{
    lemma_legal_desc(s, mv);
    let d = desc_of(s, mv)->Ok_0;
    law_notation_reads_back(d);
    let list = legal_list(s);
    let found = list.filter(desc_is(s, d));
    let k = choose|k: int| 0 <= k < list.len() && list[k] == mv;
    list.lemma_filter_contains(desc_is(s, d), k);
    assert(found.contains(mv));
    let f = choose|f: int| 0 <= f < found.len() && found[f] == mv;
    assert(f == 0);
}

} // verus!
