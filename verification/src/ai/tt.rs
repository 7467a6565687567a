//! Transposition table: a hash-indexed cache of search results.
//!
//! Each slot holds the upper 32 bits of a position hash as its key, the
//! best move found, a score, the depth searched, a bound flag and the
//! search generation that wrote it. Mate scores are stored relative to the
//! stored position and converted back relative to the root on probing.
use vstd::prelude::*;

use crate::mv::Move;

verus! {

/// The stored score is exact.
pub const FLAG_EXACT: u8 = 0;
/// The stored score is a lower bound (the search failed high).
pub const FLAG_LOWER: u8 = 1;
/// The stored score is an upper bound (the search failed low).
pub const FLAG_UPPER: u8 = 2;

/// Default table size in MiB.
pub const DEFAULT_TT_MB: usize = 32;

/// Size of one slot in bytes.
pub const ENTRY_BYTES: usize = 16;

/// Scores at least this far from zero announce a forced mate.
pub const MATE_LIMIT: i32 = 29_904;

/// One slot of the table.
#[derive(Clone, Copy, Debug)]
pub struct TtEntry {
    /// Upper 32 bits of the position hash.
    pub key: u32,
    /// Best move (0 for none).
    pub best: u16,
    /// Score, mate scores relative to this position.
    pub score: i16,
    /// Depth searched; negative for an empty slot.
    pub depth: i8,
    /// Bound flag.
    pub flag: u8,
    /// Generation that wrote the slot.
    pub generation: u8,
    /// Unused; rounds the slot up to [`ENTRY_BYTES`].
    pub pad: [u8; 2],
}

/// An empty slot.
pub open spec fn empty_entry() -> TtEntry {
    TtEntry { key: 0, best: 0, score: 0, depth: -1i8, flag: FLAG_EXACT, generation: 0, pad: [0u8, 0u8] }
}

/// What a successful probe reports.
#[derive(Clone, Copy, Debug)]
pub struct TtProbe {
    /// Score relative to the root.
    pub score: i32,
    /// Depth the score was searched to.
    pub depth: i8,
    /// Bound flag.
    pub flag: u8,
    /// Best move, if one was stored.
    pub best: Option<Move>,
}

/// Converts a stored (position-relative) score back to a root-relative one
/// at distance `ply` from the root.
pub open spec fn from_tt(score: int, ply: int) -> int {
    if score >= MATE_LIMIT {
        score - ply
    } else if score <= -MATE_LIMIT {
        score + ply
    } else {
        score
    }
}

/// Converts a root-relative score found at distance `ply` from the root to
/// a position-relative one for storing.
pub open spec fn to_tt(score: int, ply: int) -> int {
    if score >= MATE_LIMIT {
        score + ply
    } else if score <= -MATE_LIMIT {
        score - ply
    } else {
        score
    }
}

/// Root-relative score from a stored one.
pub fn score_from_tt(score: i32, ply: i32) -> (r: i32)
    requires
        i32::MIN <= from_tt(score as int, ply as int) <= i32::MAX,
    ensures
        r == from_tt(score as int, ply as int),
{
    if score >= MATE_LIMIT {
        score - ply
    } else if score <= -MATE_LIMIT {
        score + ply
    } else {
        score
    }
}

/// Stored score from a root-relative one.
pub fn score_to_tt(score: i32, ply: i32) -> (r: i32)
    requires
        i32::MIN <= to_tt(score as int, ply as int) <= i32::MAX,
    ensures
        r == to_tt(score as int, ply as int),
{
    if score >= MATE_LIMIT {
        score + ply
    } else if score <= -MATE_LIMIT {
        score - ply
    } else {
        score
    }
}

/// Converting to the stored form and back at the same non-negative ply
/// gives the score back.
pub proof fn law_tt_score_roundtrip(score: int, ply: int)
    requires
        ply >= 0,
    ensures
        from_tt(to_tt(score, ply), ply) == score,
{
}

/// A mate found `n` plies from the root, stored at ply `p` and read back at
/// ply `q`, is a mate `n - p + q` plies from the new root: the distance
/// stored is the one from the position itself.
pub proof fn law_tt_mate_distance(n: int, p: int, q: int)
    requires
        0 <= p <= n <= 96,
        0 <= q,
        n - p + q <= 96,
    ensures
        from_tt(to_tt(30_000 - n, p), q) == 30_000 - (n - p + q),
        from_tt(to_tt(-(30_000 - n), p), q) == -(30_000 - (n - p + q)),
{
}

/// Largest power of two not above `n` (for `n >= 1`).
pub open spec fn pow2_floor(n: nat) -> nat
    decreases n,
{
    if n <= 1 {
        1
    } else {
        2 * pow2_floor(n / 2)
    }
}

/// Whether `n` is a power of two.
pub open spec fn is_pow2(n: nat) -> bool
    decreases n,
{
    if n == 1 {
        true
    } else if n == 0 || n % 2 == 1 {
        false
    } else {
        is_pow2(n / 2)
    }
}

/// Number of slots of a table of `size_mb` MiB: the largest power of two
/// not above the number of slots that fit, and at least 1024.
pub open spec fn slot_count(size_mb: nat) -> nat {
    let mb = if size_mb < 1 {
        1
    } else {
        size_mb
    };
    let want = mb * 1024 * 1024 / ENTRY_BYTES as nat;
    pow2_floor(if want < 1024 {
        1024
    } else {
        want
    })
}

/// Facts about the largest power of two below a number.
proof fn lemma_pow2_floor(n: nat)
    requires
        n >= 1,
    ensures
        is_pow2(pow2_floor(n)),
        1 <= pow2_floor(n) <= n,
        n < 2 * pow2_floor(n),
    decreases n,
{
    if n > 1 {
        lemma_pow2_floor(n / 2);
    }
}

/// Masking never exceeds the mask.
proof fn lemma_mask_index(x: usize, m: usize)
    ensures
        (x & m) <= m,
{
    assert((x & m) <= m) by (bit_vector);
}

/// A power of two not above `n` is not above `pow2_floor(n)`.
proof fn lemma_pow2_floor_ge(n: nat, m: nat)
    requires
        is_pow2(m),
        1 <= m <= n,
    ensures
        m <= pow2_floor(n),
    decreases n,
{
    lemma_pow2_floor(n);
    if m > 1 {
        lemma_pow2_floor_ge(n / 2, m / 2);
    }
}

/// A hash table of search results.
pub struct TranspositionTable {
    entries: Vec<TtEntry>,
    mask: usize,
    generation: u8,
    hits: u64,
    probes: u64,
}

impl TranspositionTable {
    /// Slots of the table.
    pub closed spec fn slots(&self) -> Seq<TtEntry> {
        self.entries@
    }

    /// Current search generation.
    pub closed spec fn gen(&self) -> u8 {
        self.generation
    }

    /// Probes that found the position.
    pub closed spec fn hit_count(&self) -> u64 {
        self.hits
    }

    /// Probes made.
    pub closed spec fn probe_count(&self) -> u64 {
        self.probes
    }

    /// Slot used for hash `h`.
    pub closed spec fn slot_of(&self, h: u64) -> int {
        ((h as usize) & self.mask) as int
    }

    /// The table is consistent: a power-of-two number of slots, the mask one
    /// less, and a non-zero generation.
    pub closed spec fn wf(&self) -> bool {
        self.shape_ok() && self.generation >= 1
    }

    /// A power-of-two number of slots and the matching mask.
    pub closed spec fn shape_ok(&self) -> bool {
        &&& self.entries@.len() == self.mask + 1
        &&& is_pow2(self.entries@.len())
    }

    /// The slot index of a hash lies inside the table.
    pub proof fn lemma_slot_in_range(&self, h: u64)
        requires
            self.wf(),
        ensures
            0 <= self.slot_of(h) < self.slots().len(),
    {
        lemma_mask_index(h as usize, self.mask);
    }

    /// A consistent table has a consistent shape.
    pub proof fn lemma_wf_shape(&self)
        requires
            self.wf(),
        ensures
            self.shape_ok(),
    {
    }

    /// A table of about `size_mb` MiB, every slot empty.
    pub fn new(size_mb: usize) -> (r: TranspositionTable)
        requires
            size_mb <= 4095,
        ensures
            r.wf(),
            r.slots().len() == slot_count(size_mb as nat),
            r.slots().len() >= 1024,
            forall|i: int| 0 <= i < r.slots().len() ==> #[trigger] r.slots()[i] == empty_entry(),
            r.gen() == 1,
            r.hit_count() == 0,
            r.probe_count() == 0,
    {
        let mb = if size_mb < 1 {
            1
        } else {
            size_mb
        };
        let want0: usize = mb * 1024 * 1024 / ENTRY_BYTES;
        let want: usize = if want0 < 1024 {
            1024
        } else {
            want0
        };
        let mut count: usize = 1;
        let mut rest: usize = want;
        proof {
            lemma_pow2_floor(want as nat);
        }
        while rest > 1
            invariant
                1 <= rest <= want,
                count >= 1,
                count * pow2_floor(rest as nat) == pow2_floor(want as nat),
                pow2_floor(want as nat) <= want,
            decreases rest,
        {
            let ghost pr = pow2_floor(rest as nat);
            let ghost ph = pow2_floor((rest / 2) as nat);
            proof {
                lemma_pow2_floor((rest / 2) as nat);
                assert(pr == 2 * ph);
                assert(count * pr == (count * 2) * ph) by (nonlinear_arith)
                    requires
                        pr == 2 * ph,
                ;
                assert(count * 2 <= count * pr) by (nonlinear_arith)
                    requires
                        pr == 2 * ph,
                        ph >= 1,
                        count >= 1,
                ;
            }
            count = count * 2;
            rest = rest / 2;
        }
        proof {
            reveal_with_fuel(is_pow2, 12);
            assert(is_pow2(1024));
            lemma_pow2_floor_ge(want as nat, 1024);
        }
        proof {
            assert(rest == 1);
            assert(pow2_floor(rest as nat) == 1);
            assert(count * pow2_floor(rest as nat) == count * 1);
            assert(count == pow2_floor(want as nat));
        }
        let mut entries: Vec<TtEntry> = Vec::new();
        let mut i: usize = 0;
        while i < count
            invariant
                count == pow2_floor(want as nat),
                want >= 1024,
                mb >= 1,
                mb <= 4095,
                want0 as int == (mb as int * 1024 * 1024) / 16,
                want == (if want0 < 1024 {
                    1024
                } else {
                    want0
                }),
                i <= count,
                entries@.len() == i,
                forall|j: int| 0 <= j < i ==> #[trigger] entries@[j] == empty_entry(),
            decreases count - i,
        {
            entries.push(TtEntry { key: 0, best: 0, score: 0, depth: -1, flag: FLAG_EXACT, generation: 0, pad: [0, 0] });
            i += 1;
        }
        proof {
            lemma_pow2_floor(want as nat);
            assert(want as nat == (if (mb as nat * 1024 * 1024 / ENTRY_BYTES as nat) < 1024 {
                1024
            } else {
                mb as nat * 1024 * 1024 / ENTRY_BYTES as nat
            }));
        }
        TranspositionTable { entries, mask: count - 1, generation: 1, hits: 0, probes: 0 }
    }

    /// Number of slots.
    pub fn capacity(&self) -> (r: usize)
        ensures
            r == self.slots().len(),
    {
        self.entries.len()
    }

    /// Probes that found the position and probes made, since the table was
    /// made or last cleared.
    pub fn hit_counts(&self) -> (r: (u64, u64))
        ensures
            r == (self.hit_count(), self.probe_count()),
    {
        (self.hits, self.probes)
    }

    /// Empties every slot and restarts the generation count.
    pub fn clear(&mut self)
        requires
            old(self).shape_ok(),
        ensures
            final(self).wf(),
            final(self).slots().len() == old(self).slots().len(),
            forall|i: int|
                0 <= i < final(self).slots().len() ==> #[trigger] final(self).slots()[i]
                    == empty_entry(),
            final(self).gen() == 1,
            final(self).hit_count() == 0,
            final(self).probe_count() == 0,
            forall|h: u64| #[trigger] final(self).slot_of(h) == old(self).slot_of(h),
    {
        let n = self.entries.len();
        let mut i: usize = 0;
        while i < n
            invariant
                n == self.entries@.len(),
                i <= n,
                self.entries@.len() == self.mask + 1,
                is_pow2(self.entries@.len()),
                forall|j: int| 0 <= j < i ==> #[trigger] self.entries@[j] == empty_entry(),
            decreases n - i,
        {
            self.entries.set(i, TtEntry { key: 0, best: 0, score: 0, depth: -1, flag: FLAG_EXACT, generation: 0, pad: [0, 0] });
            i += 1;
        }
        self.generation = 1;
        self.hits = 0;
        self.probes = 0;
    }

    /// Starts a new search generation (clearing the table when the counter
    /// wraps).
    pub fn new_generation(&mut self)
        requires
            old(self).wf(),
        ensures
            final(self).wf(),
            final(self).slots().len() == old(self).slots().len(),
            old(self).gen() < 255 ==> final(self).gen() == old(self).gen() + 1,
            old(self).gen() < 255 ==> final(self).slots() == old(self).slots(),
            old(self).gen() == 255 ==> final(self).gen() == 1,
            old(self).gen() == 255 ==> forall|i: int|
                0 <= i < final(self).slots().len() ==> #[trigger] final(self).slots()[i]
                    == empty_entry(),
            old(self).gen() < 255 ==> final(self).hit_count() == old(self).hit_count()
                && final(self).probe_count() == old(self).probe_count(),
            old(self).gen() == 255 ==> final(self).hit_count() == 0 && final(self).probe_count()
                == 0,
            forall|h: u64| #[trigger] final(self).slot_of(h) == old(self).slot_of(h),
    {
        self.generation = self.generation.wrapping_add(1);
        if self.generation == 0 {
            self.clear();
        }
    }

    /// Slot of a hash.
    fn index_of(&self, hash: u64) -> (r: usize)
        requires
            self.wf(),
        ensures
            r == self.slot_of(hash),
            r < self.slots().len(),
    {
        proof {
            self.lemma_slot_in_range(hash);
        }
        (hash as usize) & self.mask
    }

    /// Looks up the stored result for `hash` at distance `ply` from the root.
    pub fn probe(&mut self, hash: u64, ply: i32) -> (r: Option<TtProbe>)
        requires
            old(self).wf(),
            -0x7fff_0000 <= ply <= 0x7fff_0000,
        ensures
            final(self).wf(),
            final(self).slots() == old(self).slots(),
            final(self).gen() == old(self).gen(),
            r == probe_spec(old(self).slots()[old(self).slot_of(hash)], hash, ply as int),
            final(self).probe_count() == old(self).probe_count().wrapping_add(1),
            final(self).hit_count() == (if r is Some {
                old(self).hit_count().wrapping_add(1)
            } else {
                old(self).hit_count()
            }),
            forall|h: u64| #[trigger] final(self).slot_of(h) == old(self).slot_of(h),
    {
        let entry = self.entries[self.index_of(hash)];
        self.probes = self.probes.wrapping_add(1);
        if entry.depth < 0 || entry.key != (hash >> 32) as u32 {
            return None;
        }
        self.hits = self.hits.wrapping_add(1);
        Some(
            TtProbe {
                score: score_from_tt(entry.score as i32, ply),
                depth: entry.depth,
                flag: entry.flag,
                best: if entry.best != 0 {
                    Some(Move(entry.best))
                } else {
                    None
                },
            },
        )
    }

    /// The best move stored for `hash`, if any.
    pub fn probe_move(&self, hash: u64) -> (r: Option<Move>)
        requires
            self.wf(),
        ensures
            r == (match probe_spec(self.slots()[self.slot_of(hash)], hash, 0) {
                Some(p) => p.best,
                None => None,
            }),
    {
        let entry = self.entries[self.index_of(hash)];
        if entry.depth < 0 || entry.key != (hash >> 32) as u32 || entry.best == 0 {
            return None;
        }
        Some(Move(entry.best))
    }

    /// Stores a result for `hash`, unless the slot holds a deeper result of
    /// the same position, or a deeper result of another position written in
    /// the current generation.
    pub fn store(&mut self, hash: u64, depth: i8, score: i32, flag: u8, best: Option<Move>, ply: i32)
        requires
            old(self).wf(),
            -32767 < score < 32767,
            i32::MIN <= to_tt(score as int, ply as int) <= i32::MAX,
        ensures
            final(self).wf(),
            final(self).gen() == old(self).gen(),
            final(self).hit_count() == old(self).hit_count(),
            final(self).probe_count() == old(self).probe_count(),
            final(self).slots() == (if replaces(old(self).slots()[old(self).slot_of(hash)], hash, depth, old(self).gen()) {
                old(self).slots().update(
                    old(self).slot_of(hash),
                    stored_entry(hash, depth, score, flag, best, ply, old(self).gen()),
                )
            } else {
                old(self).slots()
            }),
            forall|h: u64| #[trigger] final(self).slot_of(h) == old(self).slot_of(h),
            depth >= 0 && 0 <= ply <= 96 && i16::MIN <= to_tt(score as int, ply as int) <= i16::MAX
                && replaces(old(self).slots()[old(self).slot_of(hash)], hash, depth, old(self).gen())
                ==> probe_spec(final(self).slots()[final(self).slot_of(hash)], hash, ply as int) == Some(
                TtProbe {
                    score,
                    depth,
                    flag,
                    best: match best {
                        Some(m) => if m.0 != 0 {
                            Some(m)
                        } else {
                            None
                        },
                        None => None,
                    },
                },
            ),
    {
        proof {
            if depth >= 0 && 0 <= ply <= 96 && i16::MIN <= to_tt(score as int, ply as int) <= i16::MAX {
                law_store_then_probe(hash, depth, score, flag, best, ply, self.gen());
            }
        }
        let idx = self.index_of(hash);
        let existing = self.entries[idx];
        let key = (hash >> 32) as u32;
        let same_position = existing.key == key && existing.depth >= 0;
        let should_replace = if !same_position {
            depth >= existing.depth || existing.generation != self.generation
        } else {
            depth >= existing.depth
        };
        if !should_replace {
            return ;
        }
        let stored = score_to_tt(score, ply);
        self.entries.set(
            idx,
            TtEntry {
                key,
                best: match best {
                    Some(m) => m.0,
                    None => 0,
                },
                score: #[verifier::truncate] (stored as i16),
                depth,
                flag,
                generation: self.generation,
                pad: [0, 0],
            },
        );
    }
}

/// What probing slot `e` for hash `h` at ply `ply` reports.
pub open spec fn probe_spec(e: TtEntry, h: u64, ply: int) -> Option<TtProbe> {
    if e.depth < 0 || e.key != (h >> 32u64) as u32 {
        None
    } else {
        Some(
            TtProbe {
                score: from_tt(e.score as int, ply) as i32,
                depth: e.depth,
                flag: e.flag,
                best: if e.best != 0 {
                    Some(Move(e.best))
                } else {
                    None
                },
            },
        )
    }
}

/// Whether a store of hash `h` at `depth` replaces slot `e` in generation `g`.
pub open spec fn replaces(e: TtEntry, h: u64, depth: i8, g: u8) -> bool {
    let same = e.key == (h >> 32u64) as u32 && e.depth >= 0;
    if !same {
        depth >= e.depth || e.generation != g
    } else {
        depth >= e.depth
    }
}

/// The slot written by a store.
pub open spec fn stored_entry(h: u64, depth: i8, score: i32, flag: u8, best: Option<Move>, ply: i32, g: u8) -> TtEntry {
    TtEntry {
        key: (h >> 32u64) as u32,
        best: match best {
            Some(m) => m.0,
            None => 0,
        },
        score: to_tt(score as int, ply as int) as i16,
        depth,
        flag,
        generation: g,
        pad: [0u8, 0u8],
    }
}

/// Probing right after a store that replaced the slot finds what was
/// stored: the same score (read back at the same ply), depth, flag and
/// move (a stored null move reads as none).
pub proof fn law_store_then_probe(h: u64, depth: i8, score: i32, flag: u8, best: Option<Move>, ply: i32, g: u8)
    requires
        depth >= 0,
        0 <= ply <= 96,
        i16::MIN <= to_tt(score as int, ply as int) <= i16::MAX,
    ensures
        probe_spec(stored_entry(h, depth, score, flag, best, ply, g), h, ply as int) == Some(
            TtProbe {
                score,
                depth,
                flag,
                best: match best {
                    Some(m) => if m.0 != 0 {
                        Some(m)
                    } else {
                        None
                    },
                    None => None,
                },
            },
        ),
{
    law_tt_score_roundtrip(score as int, ply as int);
}

} // verus!
