//! Shapes of the coaching knowledge: formations, templates and openings.
use vstd::prelude::*;

use crate::coach::note::Verbosity;

verus! {

/// A formation: constraints on the piece just moved and on the position.
#[derive(Clone, Debug)]
pub struct PatternDef {
    /// Constraint on the piece just moved.
    pub attacker: AttackerDef,
    /// Constraints that must all hold.
    pub constraints: Vec<ConstraintDef>,
}

/// Constraint on the piece just moved.
#[derive(Clone, Debug)]
pub struct AttackerDef {
    /// Piece kind name, or `any`.
    pub kind: String,
}

/// One constraint of a formation: a predicate and its parameters.
#[derive(Clone, Debug)]
pub struct ConstraintDef {
    /// Predicate id.
    pub predicate: String,
    /// `kind` parameter.
    pub kind: Option<String>,
    /// `min` parameter.
    pub min: Option<u8>,
    /// `max` parameter.
    pub max: Option<u8>,
    /// `distance` parameter.
    pub distance: Option<u8>,
    /// `col` parameter.
    pub col: Option<u8>,
    /// Row offset from the enemy's base row.
    pub row_offset_from_enemy_base: Option<u8>,
    /// Number of plies.
    pub plies: Option<u8>,
}

/// A commentary template.
#[derive(Clone, Debug)]
pub struct TemplateDef {
    /// Template id.
    pub id: String,
    /// Tactic ids the template serves (empty for level and fallback templates).
    pub used_by: Vec<String>,
    /// One-line conclusion, with placeholders.
    pub headline: String,
    /// Details by verbosity.
    pub detail: TemplateDetail,
    /// Whether this is the fallback template.
    pub is_fallback: bool,
}

/// Details of a template by verbosity.
#[derive(Clone, Debug)]
pub struct TemplateDetail {
    /// One sentence.
    pub concise: String,
    /// Two or three sentences.
    pub standard: String,
    /// With variations.
    pub verbose: String,
}

impl TemplateDetail {
    /// The text for `verbosity`.
    pub open spec fn pick_spec(&self, verbosity: Verbosity) -> Seq<char> {
        match verbosity {
            Verbosity::Concise => self.concise@,
            Verbosity::Standard => self.standard@,
            Verbosity::Verbose => self.verbose@,
        }
    }

    /// The text for `verbosity`.
    pub fn pick(&self, verbosity: Verbosity) -> (r: &str)
        ensures
            r@ == self.pick_spec(verbosity),
    {
        match verbosity {
            Verbosity::Concise => self.concise.as_str(),
            Verbosity::Standard => self.standard.as_str(),
            Verbosity::Verbose => self.verbose.as_str(),
        }
    }
}

/// Placeholders templates may use, and those that must never be empty.
#[derive(Clone, Debug)]
pub struct PlaceholderSpec {
    /// Allowed placeholders.
    pub allowed: Vec<String>,
    /// Placeholders that must have a non-empty value.
    pub required_always: Vec<String>,
}

/// An opening line.
#[derive(Clone, Debug)]
pub struct OpeningDef {
    /// Stable id.
    pub id: String,
    /// Name of the opening.
    pub name: String,
    /// Other names.
    pub aliases: Vec<String>,
    /// Moves in ICCS notation.
    pub sequence_iccs: Vec<String>,
    /// The same moves in Chinese notation.
    pub sequence_names: Vec<String>,
    /// Longest ply it is matched up to.
    pub max_ply: u16,
    /// `red`, `black` or `both`.
    pub side: String,
    /// One-line conclusion.
    pub headline: String,
    /// Red's plan.
    pub idea_red: String,
    /// Black's plan.
    pub idea_black: String,
    /// Key points.
    pub key_points: Vec<String>,
    /// Tags.
    pub tags: Vec<String>,
}

/// What commentary reads of a tactic: its id and name, the recogniser that
/// reports it, and the template that explains it.
#[derive(Clone, Debug)]
pub struct TacticEntry {
    /// Stable id.
    pub id: String,
    /// Display name.
    pub name: String,
    /// Recogniser, such as `opening_sequence`.
    pub detector: String,
    /// Id of its template (empty for none).
    pub explanation_template: String,
}

/// The knowledge that commentary reads: tactics, templates, openings and
/// placeholder rules.
#[derive(Clone, Debug)]
pub struct Knowledge {
    /// Tactics.
    pub tactics: Vec<TacticEntry>,
    /// Templates.
    pub templates: Vec<TemplateDef>,
    /// Opening lines.
    pub openings: Vec<OpeningDef>,
    /// Placeholder rules.
    pub placeholders: PlaceholderSpec,
}

/// Index of the first tactic from `i` on whose id is `id`.
pub open spec fn tactic_index(ts: Seq<TacticEntry>, id: Seq<char>, i: int) -> Option<int>
    decreases ts.len() - i,
{
    if i < 0 || i >= ts.len() {
        None
    } else if ts[i].id@ == id {
        Some(i)
    } else {
        tactic_index(ts, id, i + 1)
    }
}

/// Index of the first template from `i` on whose id is `id`.
pub open spec fn template_index(ts: Seq<TemplateDef>, id: Seq<char>, i: int) -> Option<int>
    decreases ts.len() - i,
{
    if i < 0 || i >= ts.len() {
        None
    } else if ts[i].id@ == id {
        Some(i)
    } else {
        template_index(ts, id, i + 1)
    }
}

/// Index of the first fallback template from `i` on.
pub open spec fn fallback_index(ts: Seq<TemplateDef>, i: int) -> Option<int>
    decreases ts.len() - i,
{
    if i < 0 || i >= ts.len() {
        None
    } else if ts[i].is_fallback {
        Some(i)
    } else {
        fallback_index(ts, i + 1)
    }
}

/// Templates from index `i` on that serve tactic `id`, in order.
pub open spec fn serving_from(ts: Seq<TemplateDef>, id: Seq<char>, i: int) -> Seq<int>
    decreases ts.len() - i,
{
    if i < 0 || i >= ts.len() {
        Seq::empty()
    } else if crate::coach::llm::string_views(ts[i].used_by@).contains(id) {
        seq![i] + serving_from(ts, id, i + 1)
    } else {
        serving_from(ts, id, i + 1)
    }
}

impl Knowledge {
    /// The tactic with id `id`.
    pub fn tactic(&self, id: &str) -> (r: Option<&TacticEntry>)
        ensures
            match tactic_index(self.tactics@, id@, 0) {
                Some(i) => r == Some(&self.tactics@[i]),
                None => r is None,
            },
    {
        let mut i: usize = 0;
        while i < self.tactics.len()
            invariant
                i <= self.tactics@.len(),
                tactic_index(self.tactics@, id@, 0) == tactic_index(self.tactics@, id@, i as int),
            decreases self.tactics@.len() - i,
        {
            if crate::text::str_eq(self.tactics[i].id.as_str(), id) {
                return Some(&self.tactics[i]);
            }
            i += 1;
        }
        None
    }

    /// The template with id `id`.
    pub fn template(&self, id: &str) -> (r: Option<&TemplateDef>)
        ensures
            match template_index(self.templates@, id@, 0) {
                Some(i) => r == Some(&self.templates@[i]),
                None => r is None,
            },
    {
        let mut i: usize = 0;
        while i < self.templates.len()
            invariant
                i <= self.templates@.len(),
                template_index(self.templates@, id@, 0) == template_index(
                    self.templates@,
                    id@,
                    i as int,
                ),
            decreases self.templates@.len() - i,
        {
            if crate::text::str_eq(self.templates[i].id.as_str(), id) {
                return Some(&self.templates[i]);
            }
            i += 1;
        }
        None
    }

    /// The templates that serve tactic `tactic_id`, in order.
    pub fn templates_for(&self, tactic_id: &str) -> (r: Vec<&TemplateDef>)
        ensures
            r@.len() == serving_from(self.templates@, tactic_id@, 0).len(),
            forall|k: int|
                0 <= k < r@.len() ==> *r@[k] == self.templates@[serving_from(
                    self.templates@,
                    tactic_id@,
                    0,
                )[k]],
    {
        let ghost ts = self.templates@;
        let mut out: Vec<&TemplateDef> = Vec::new();
        let mut i: usize = self.templates.len();
        let mut picked: Vec<usize> = Vec::new();
        while i > 0
            invariant
                i <= ts.len(),
                ts == self.templates@,
                picked@.len() == serving_from(ts, tactic_id@, i as int).len(),
                forall|k: int|
                    0 <= k < picked@.len() ==> picked@[k] == serving_from(ts, tactic_id@, i as int)[k],
                forall|k: int| 0 <= k < picked@.len() ==> picked@[k] < ts.len(),
            decreases i,
        {
            i -= 1;
            let used = &self.templates[i].used_by;
            let mut found = false;
            let mut j: usize = 0;
            while j < used.len()
                invariant
                    j <= used@.len(),
                    found == crate::coach::llm::string_views(used@).take(j as int).contains(tactic_id@),
                decreases used@.len() - j,
            {
                let hit = crate::text::str_eq(used[j].as_str(), tactic_id);
                proof {
                    let v = crate::coach::llm::string_views(used@);
                    let t = v.take(j as int);
                    let u = v.take(j + 1);
                    assert(u =~= t.push(v[j as int]));
                    if hit {
                        assert(u[j as int] == tactic_id@);
                    }
                    if t.contains(tactic_id@) {
                        let w = choose|w: int| 0 <= w < t.len() && t[w] == tactic_id@;
                        assert(u[w] == tactic_id@);
                    }
                    if u.contains(tactic_id@) {
                        let w = choose|w: int| 0 <= w < u.len() && u[w] == tactic_id@;
                        if w < j {
                            assert(t[w] == tactic_id@);
                        }
                    }
                }
                found = found || hit;
                j += 1;
            }
            proof {
                let v = crate::coach::llm::string_views(used@);
                assert(v.take(used@.len() as int) =~= v);
            }
            if found {
                let ghost before = picked@;
                picked.insert(0, i);
                proof {
                    assert(picked@ =~= seq![i] + before);
                }
            }
        }
        let mut k: usize = 0;
        while k < picked.len()
            invariant
                k <= picked@.len(),
                ts == self.templates@,
                forall|m: int| 0 <= m < picked@.len() ==> picked@[m] < ts.len(),
                out@.len() == k,
                forall|m: int| 0 <= m < k ==> *out@[m] == ts[picked@[m] as int],
            decreases picked@.len() - k,
        {
            out.push(&self.templates[picked[k]]);
            k += 1;
        }
        out
    }

    /// The fallback template, if the knowledge has one.
    pub fn fallback_template(&self) -> (r: Option<&TemplateDef>)
        ensures
            match fallback_index(self.templates@, 0) {
                Some(i) => r == Some(&self.templates@[i]),
                None => r is None,
            },
    {
        let mut i: usize = 0;
        while i < self.templates.len()
            invariant
                i <= self.templates@.len(),
                fallback_index(self.templates@, 0) == fallback_index(self.templates@, i as int),
            decreases self.templates@.len() - i,
        {
            if self.templates[i].is_fallback {
                return Some(&self.templates[i]);
            }
            i += 1;
        }
        None
    }
}

} // verus!
