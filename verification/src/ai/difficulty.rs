//! Five playing levels. A weak level keeps a normal search horizon and
//! plays a slightly worse move now and then: it may only pick among the
//! root moves that lose at most its tolerance against the best one.
use vstd::prelude::*;

use crate::ai::search::SearchLimits;
use crate::mv::Move;
use crate::position::lemma_filter_take;
use crate::text::chars_of;

verus! {

/// A playing level, weakest first.
#[derive(Clone, Copy, PartialEq, Eq, Structural, PartialOrd, Ord, Hash, Debug)]
pub enum Difficulty {
    /// Beginner.
    L1,
    /// Novice.
    L2,
    /// Intermediate.
    L3,
    /// Advanced.
    L4,
    /// Master.
    L5,
}

/// Stable identifier of a level.
pub open spec fn level_id(d: Difficulty) -> Seq<char> {
    match d {
        Difficulty::L1 => seq!['l', '1'],
        Difficulty::L2 => seq!['l', '2'],
        Difficulty::L3 => seq!['l', '3'],
        Difficulty::L4 => seq!['l', '4'],
        Difficulty::L5 => seq!['l', '5'],
    }
}

/// Chinese name of a level.
pub open spec fn level_label(d: Difficulty) -> Seq<char> {
    match d {
        Difficulty::L1 => "入门"@,
        Difficulty::L2 => "初级"@,
        Difficulty::L3 => "中级"@,
        Difficulty::L4 => "高级"@,
        Difficulty::L5 => "大师"@,
    }
}

/// The level whose identifier is `t`, if any.
pub open spec fn level_of_id(t: Seq<char>) -> Option<Difficulty> {
    if t == level_id(Difficulty::L1) {
        Some(Difficulty::L1)
    } else if t == level_id(Difficulty::L2) {
        Some(Difficulty::L2)
    } else if t == level_id(Difficulty::L3) {
        Some(Difficulty::L3)
    } else if t == level_id(Difficulty::L4) {
        Some(Difficulty::L4)
    } else if t == level_id(Difficulty::L5) {
        Some(Difficulty::L5)
    } else {
        None
    }
}

/// Search limits of a level.
pub open spec fn level_limits(d: Difficulty) -> SearchLimits {
    match d {
        Difficulty::L1 => SearchLimits { max_depth: 2, max_nodes: None, use_quiescence: false, use_tt: false },
        Difficulty::L2 => SearchLimits { max_depth: 4, max_nodes: None, use_quiescence: true, use_tt: false },
        Difficulty::L3 => SearchLimits { max_depth: 6, max_nodes: None, use_quiescence: true, use_tt: true },
        Difficulty::L4 => SearchLimits { max_depth: 8, max_nodes: None, use_quiescence: true, use_tt: true },
        Difficulty::L5 => SearchLimits { max_depth: 255, max_nodes: None, use_quiescence: true, use_tt: true },
    }
}

/// Largest score loss (in hundredths of a pawn) a level accepts when it
/// plays a worse move than the best.
pub open spec fn level_tolerance(d: Difficulty) -> i32 {
    match d {
        Difficulty::L1 => 80,
        Difficulty::L2 => 40,
        Difficulty::L3 => 20,
        Difficulty::L4 => 0,
        Difficulty::L5 => 0,
    }
}

impl Difficulty {
    /// Every level, weakest first.
    pub const ALL: [Difficulty; 5] = [
        Difficulty::L1,
        Difficulty::L2,
        Difficulty::L3,
        Difficulty::L4,
        Difficulty::L5,
    ];

    /// Stable identifier (saved games, protocol).
    pub fn id(self) -> (r: &'static str)
        ensures
            r@ == level_id(self),
    {
        match self {
            Difficulty::L1 => {
                proof {
                    reveal_strlit("l1");
                }
                "l1"
            },
            Difficulty::L2 => {
                proof {
                    reveal_strlit("l2");
                }
                "l2"
            },
            Difficulty::L3 => {
                proof {
                    reveal_strlit("l3");
                }
                "l3"
            },
            Difficulty::L4 => {
                proof {
                    reveal_strlit("l4");
                }
                "l4"
            },
            Difficulty::L5 => {
                proof {
                    reveal_strlit("l5");
                }
                "l5"
            },
        }
    }

    /// The level with identifier `id`, if any.
    pub fn from_id(id: &str) -> (r: Option<Difficulty>)
        ensures
            r == level_of_id(id@),
    {
        let cs = chars_of(id);
        if cs.len() != 2 || cs[0] != 'l' {
            proof {
                assert(level_id(Difficulty::L1)[0] == 'l');
                assert(level_id(Difficulty::L1).len() == 2);
                assert(level_id(Difficulty::L2)[0] == 'l');
                assert(level_id(Difficulty::L3)[0] == 'l');
                assert(level_id(Difficulty::L4)[0] == 'l');
                assert(level_id(Difficulty::L5)[0] == 'l');
            }
            return None;
        }
        let c = cs[1];
        let r = if c == '1' {
            Some(Difficulty::L1)
        } else if c == '2' {
            Some(Difficulty::L2)
        } else if c == '3' {
            Some(Difficulty::L3)
        } else if c == '4' {
            Some(Difficulty::L4)
        } else if c == '5' {
            Some(Difficulty::L5)
        } else {
            None
        };
        proof {
            assert(id@ == seq![id@[0], id@[1]]);
            assert(level_id(Difficulty::L1)[1] == '1');
            assert(level_id(Difficulty::L2)[1] == '2');
            assert(level_id(Difficulty::L3)[1] == '3');
            assert(level_id(Difficulty::L4)[1] == '4');
            assert(level_id(Difficulty::L5)[1] == '5');
        }
        r
    }

    /// Label shown in menus.
    pub fn label(self) -> (r: &'static str)
        ensures
            r@ == level_label(self),
            self == Difficulty::L1 ==> r@ == "入门"@,
            self == Difficulty::L2 ==> r@ == "初级"@,
            self == Difficulty::L3 ==> r@ == "中级"@,
            self == Difficulty::L4 ==> r@ == "高级"@,
            self == Difficulty::L5 ==> r@ == "大师"@,
    {
        match self {
            Difficulty::L1 => "入门",
            Difficulty::L2 => "初级",
            Difficulty::L3 => "中级",
            Difficulty::L4 => "高级",
            Difficulty::L5 => "大师",
        }
    }

    /// One-line description shown under the label.
    pub fn subtitle(self) -> (r: &'static str)
        ensures
            self == Difficulty::L1 ==> r@ == "刚学会走法，适合熟悉规则"@,
            self == Difficulty::L2 ==> r@ == "会基本的吃子与防守"@,
            self == Difficulty::L3 ==> r@ == "有基本战术意识，会计算几步"@,
            self == Difficulty::L4 ==> r@ == "会布局与组合战术，算得较深"@,
            self == Difficulty::L5 ==> r@ == "接近业余强手水平"@,
    {
        match self {
            Difficulty::L1 => "刚学会走法，适合熟悉规则",
            Difficulty::L2 => "会基本的吃子与防守",
            Difficulty::L3 => "有基本战术意识，会计算几步",
            Difficulty::L4 => "会布局与组合战术，算得较深",
            Difficulty::L5 => "接近业余强手水平",
        }
    }

    /// Search limits of the level: the beginner level searches two plies
    /// without capture search or table; the master level has no depth limit
    /// of its own and relies on the caller's stop signal.
    pub fn limits(self) -> (r: SearchLimits)
        ensures
            r == level_limits(self),
    {
        match self {
            Difficulty::L1 => SearchLimits { max_depth: 2, max_nodes: None, use_quiescence: false, use_tt: false },
            Difficulty::L2 => SearchLimits { max_depth: 4, max_nodes: None, use_quiescence: true, use_tt: false },
            Difficulty::L3 => SearchLimits { max_depth: 6, max_nodes: None, use_quiescence: true, use_tt: true },
            Difficulty::L4 => SearchLimits { max_depth: 8, max_nodes: None, use_quiescence: true, use_tt: true },
            Difficulty::L5 => SearchLimits { max_depth: 255, max_nodes: None, use_quiescence: true, use_tt: true },
        }
    }

    /// Largest score loss the level accepts against the best move; from
    /// the advanced level on it is zero and the best move is always played.
    pub fn tolerance(self) -> (r: i32)
        ensures
            r == level_tolerance(self),
    {
        match self {
            Difficulty::L1 => 80,
            Difficulty::L2 => 40,
            Difficulty::L3 => 20,
            Difficulty::L4 => 0,
            Difficulty::L5 => 0,
        }
    }
}

/// Whether root move `p` loses at most `tolerance` against a best score of `best`.
pub open spec fn within(best: i32, tolerance: i32) -> spec_fn((Move, i32)) -> bool {
    |p: (Move, i32)| best - p.1 <= tolerance
}

/// The alternatives a level may pick instead of the best root move: the
/// root moves after the first whose score is within `tolerance` of the
/// first's, in their order.
pub open spec fn alternatives(rs: Seq<(Move, i32)>, tolerance: i32) -> Seq<(Move, i32)> {
    if rs.len() == 0 {
        Seq::empty()
    } else {
        rs.skip(1).filter(within(rs[0].1, tolerance))
    }
}

/// The root moves after the best (first) one whose score loses at most
/// `tolerance` against it, in order.
pub fn candidates(root_moves: &[(Move, i32)], tolerance: i32) -> (r: Vec<(Move, i32)>)
    requires
        forall|i: int|
            0 <= i < root_moves@.len() ==> i32::MIN <= root_moves@[0].1 - #[trigger] root_moves@[i].1
                <= i32::MAX,
    ensures
        r@ == alternatives(root_moves@, tolerance),
{
    let mut out: Vec<(Move, i32)> = Vec::new();
    if root_moves.len() == 0 {
        return out;
    }
    let best = root_moves[0].1;
    let ghost rest = root_moves@.skip(1);
    let n = root_moves.len();
    let mut i: usize = 1;
    proof {
        reveal(Seq::filter);
        assert(rest.take(0) =~= Seq::<(Move, i32)>::empty());
    }
    while i < n
        invariant
            n == root_moves@.len(),
            1 <= i <= n,
            rest == root_moves@.skip(1),
            best == root_moves@[0].1,
            forall|k: int|
                0 <= k < root_moves@.len() ==> i32::MIN <= root_moves@[0].1
                    - #[trigger] root_moves@[k].1 <= i32::MAX,
            out@ == rest.take(i - 1).filter(within(best, tolerance)),
        decreases n - i,
    {
        let entry = root_moves[i];
        proof {
            lemma_filter_take(rest, within(best, tolerance), i - 1);
            assert(rest[i - 1] == root_moves@[i as int]);
        }
        if best - entry.1 <= tolerance {
            out.push(entry);
        }
        i += 1;
    }
    proof {
        assert(rest.take(n - 1) =~= rest);
    }
    out
}

} // verus!
