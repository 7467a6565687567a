//! Matching a game's moves against the book of openings.
//!
//! A book line is fully played when it is a prefix of the game's moves; it
//! is in progress when the game's moves (at least two of them) are a
//! prefix of the line. A fully played line beats one in progress, and
//! between lines of the same kind the longer match wins, so that a short
//! line such as 中炮 never hides a long one that contains it.
use vstd::prelude::*;

use crate::coach::knowledge::OpeningDef;
use crate::coach::llm::string_views;
use crate::color::Color;
use crate::text::str_eq;

verus! {

/// A line of the book that the game's moves match.
#[derive(Clone, Debug)]
pub struct OpeningMatch<'a> {
    /// The line.
    pub opening: &'a OpeningDef,
    /// Whether all of the line has been played.
    pub fully_played: bool,
    /// Plies matched so far.
    pub matched_plies: usize,
}

/// How book line `line` matches game moves `h`: fully played with the
/// line's length, in progress with the game's length (from two plies on),
/// or not at all. An empty line never matches.
pub open spec fn line_match(line: Seq<Seq<char>>, h: Seq<Seq<char>>) -> Option<(bool, int)> {
    if line.len() == 0 {
        None
    } else if h.len() >= line.len() && h.take(line.len() as int) == line {
        Some((true, line.len() as int))
    } else if h.len() >= 2 && h.len() < line.len() && line.take(h.len() as int) == h {
        Some((false, h.len() as int))
    } else {
        None
    }
}

/// Whether match `c` is better than the best so far: a full match beats a
/// partial one; otherwise more plies win.
pub open spec fn beats(c: (bool, int), best: Option<(int, bool, int)>) -> bool {
    match best {
        None => true,
        Some((_, full, plies)) => if c.0 && !full {
            true
        } else if !c.0 && full {
            false
        } else {
            c.1 > plies
        },
    }
}

/// Best match among the first `n` lines: the line's index, whether it is
/// fully played, and the plies matched. A later line replaces the best
/// only when it beats it.
pub open spec fn best_upto(lines: Seq<Seq<Seq<char>>>, h: Seq<Seq<char>>, n: int) -> Option<
    (int, bool, int),
>
    decreases n,
{
    if n <= 0 {
        None
    } else {
        let prev = best_upto(lines, h, n - 1);
        match line_match(lines[n - 1], h) {
            Some(c) => if beats(c, prev) {
                Some((n - 1, c.0, c.1))
            } else {
                prev
            },
            None => prev,
        }
    }
}

/// The best match is a match of its line, and no line matches better; when
/// there is none, no line matches at all. A line in progress has at least
/// two plies played.
pub proof fn law_best_match_is_unbeaten(lines: Seq<Seq<Seq<char>>>, h: Seq<Seq<char>>, n: int)
    requires
        0 <= n <= lines.len(),
    ensures
        match best_upto(lines, h, n) {
            None => forall|j: int| 0 <= j < n ==> #[trigger] line_match(lines[j], h) is None,
            Some((k, full, plies)) => {
                &&& 0 <= k < n
                &&& line_match(lines[k], h) == Some((full, plies))
                &&& (!full ==> plies >= 2)
                &&& forall|j: int|
                    0 <= j < n && #[trigger] line_match(lines[j], h) is Some ==> !beats(
                        line_match(lines[j], h).unwrap(),
                        Some((k, full, plies)),
                    )
            },
        },
    decreases n,
{
    if n > 0 {
        law_best_match_is_unbeaten(lines, h, n - 1);
    }
}

/// The ICCS lines of the book, as text.
pub open spec fn book_lines(openings: Seq<OpeningDef>) -> Seq<Seq<Seq<char>>> {
    Seq::new(openings.len(), |i: int| string_views(openings[i].sequence_iccs@))
}

/// Whether the first `n` strings of `a` and `b` hold the same text.
fn same_prefix(a: &Vec<String>, b: &[String], n: usize) -> (r: bool)
    requires
        n <= a@.len(),
        n <= b@.len(),
    ensures
        r == (string_views(a@).take(n as int) == string_views(b@).take(n as int)),
{
    let mut i: usize = 0;
    while i < n
        invariant
            n <= a@.len(),
            n <= b@.len(),
            i <= n,
            forall|k: int| 0 <= k < i ==> a@[k]@ == b@[k]@,
        decreases n - i,
    {
        if !str_eq(a[i].as_str(), b[i].as_str()) {
            proof {
                assert(string_views(a@).take(n as int)[i as int] != string_views(b@).take(
                    n as int,
                )[i as int]);
            }
            return false;
        }
        i += 1;
    }
    assert(string_views(a@).take(n as int) =~= string_views(b@).take(n as int));
    true
}

/// The book line that the game's moves `history_iccs` (ICCS, from the
/// first move on) match best, if any; see [`best_upto`]. No moves match
/// nothing.
pub fn match_opening<'a>(openings: &'a [OpeningDef], history_iccs: &[String]) -> (r: Option<
    OpeningMatch<'a>,
>)
    ensures
        history_iccs@.len() == 0 ==> r is None,
        history_iccs@.len() > 0 ==> match best_upto(
            book_lines(openings@),
            string_views(history_iccs@),
            openings@.len() as int,
        ) {
            None => r is None,
            Some((k, full, plies)) => r matches Some(m) && *m.opening == openings@[k]
                && m.fully_played == full && m.matched_plies == plies,
        },
{
    if history_iccs.len() == 0 {
        return None;
    }
    let ghost lines = book_lines(openings@);
    let ghost h = string_views(history_iccs@);
    let hn = history_iccs.len();
    let mut best: Option<OpeningMatch<'a>> = None;
    let mut i: usize = 0;
    while i < openings.len()
        invariant
            i <= openings@.len(),
            lines == book_lines(openings@),
            h == string_views(history_iccs@),
            hn == h.len(),
            match best_upto(lines, h, i as int) {
                None => best is None,
                Some((k, full, plies)) => best matches Some(m) && *m.opening == openings@[k]
                    && m.fully_played == full && m.matched_plies == plies && 0 <= k < i,
            },
        decreases openings@.len() - i,
    {
        let opening = &openings[i];
        let seq = &opening.sequence_iccs;
        let sn = seq.len();
        proof {
            assert(lines[i as int] == string_views(seq@));
            assert(string_views(seq@).take(sn as int) =~= string_views(seq@));
            assert(h.take(hn as int) =~= h);
        }
        let found: Option<(bool, usize)> = if sn == 0 {
            None
        } else if hn >= sn && same_prefix(seq, history_iccs, sn) {
            Some((true, sn))
        } else if hn >= 2 && hn < sn && same_prefix(seq, history_iccs, hn) {
            Some((false, hn))
        } else {
            None
        };
        match found {
            None => {},
            Some((full, plies)) => {
                let wins = match &best {
                    None => true,
                    Some(b) => if full && !b.fully_played {
                        true
                    } else if !full && b.fully_played {
                        false
                    } else {
                        plies > b.matched_plies
                    },
                };
                if wins {
                    best = Some(OpeningMatch { opening, fully_played: full, matched_plies: plies });
                }
            },
        }
        i += 1;
    }
    best
}

/// The plan of a line for `side`: that side's text, or the other side's
/// when it has none.
pub open spec fn idea_text(o: OpeningDef, side: Color) -> Seq<char> {
    let (preferred, fallback) = if side == Color::Red {
        (o.idea_red@, o.idea_black@)
    } else {
        (o.idea_black@, o.idea_red@)
    };
    if preferred.len() > 0 {
        preferred
    } else {
        fallback
    }
}

/// The plan of a line for `side`; see [`idea_text`]. The same line means
/// different things to the two sides.
pub fn idea_for(opening: &OpeningDef, side: Color) -> (r: &str)
    ensures
        r@ == idea_text(*opening, side),
{
    let (preferred, fallback) = match side {
        Color::Red => (&opening.idea_red, &opening.idea_black),
        Color::Black => (&opening.idea_black, &opening.idea_red),
    };
    if !preferred.as_str().is_empty() {
        preferred.as_str()
    } else {
        fallback.as_str()
    }
}

} // verus!
