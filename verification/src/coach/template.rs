//! Filling commentary templates.
//!
//! A template may name placeholders in braces. Rendering gives up on the
//! template (so that the caller moves on to the next one) when a
//! placeholder is unknown, when a required placeholder has an empty value,
//! when a brace is left open, or when a closing brace is left over: a raw
//! `{name}` never reaches the reader.
use vstd::prelude::*;

use std::collections::HashMap;

use crate::coach::knowledge::{Knowledge, TemplateDef, fallback_index, tactic_index, template_index};
use crate::coach::llm::string_views;
use crate::coach::note::{MoveLevel, Verbosity, generic_template};
use crate::text::{owned, push_str};
use crate::text::{chars_of, str_eq, string_of};

verus! {

/// Values of every allowed placeholder.
#[derive(Clone, Debug)]
pub struct RenderContext {
    /// `{side}`: the side to move, 红 or 黑.
    pub side: String,
    /// `{notation}`: the move in Chinese notation.
    pub notation: String,
    /// `{piece_name}`: the piece moved.
    pub piece_name: String,
    /// `{captured_piece}`: the piece captured.
    pub captured_piece: String,
    /// `{best_move_notation}`: the engine's best move.
    pub best_move_notation: String,
    /// `{score_loss}`: the score lost.
    pub score_loss: String,
    /// `{level_text}`: the verdict.
    pub level_text: String,
    /// `{opening_name}`: the opening.
    pub opening_name: String,
    /// `{tactic_names}`: the tactics found.
    pub tactic_names: String,
    /// `{best_reply_hint}`: the best reply.
    pub best_reply_hint: String,
    /// `{threat_targets}`: the pieces threatened.
    pub threat_targets: String,
    /// `{defended_piece}`: the piece defended.
    pub defended_piece: String,
}

impl Default for RenderContext {
    fn default() -> (r: RenderContext)
        ensures
            r.side@.len() == 0 && r.notation@.len() == 0 && r.piece_name@.len() == 0
                && r.captured_piece@.len() == 0 && r.best_move_notation@.len() == 0
                && r.score_loss@.len() == 0 && r.level_text@.len() == 0
                && r.opening_name@.len() == 0 && r.tactic_names@.len() == 0
                && r.best_reply_hint@.len() == 0 && r.threat_targets@.len() == 0
                && r.defended_piece@.len() == 0,
    {
        RenderContext {
            side: String::new(),
            notation: String::new(),
            piece_name: String::new(),
            captured_piece: String::new(),
            best_move_notation: String::new(),
            score_loss: String::new(),
            level_text: String::new(),
            opening_name: String::new(),
            tactic_names: String::new(),
            best_reply_hint: String::new(),
            threat_targets: String::new(),
            defended_piece: String::new(),
        }
    }
}

/// Names of the allowed placeholders.
pub const ALLOWED_PLACEHOLDERS: [&'static str; 12] = [
    "side",
    "notation",
    "piece_name",
    "captured_piece",
    "best_move_notation",
    "score_loss",
    "level_text",
    "opening_name",
    "tactic_names",
    "best_reply_hint",
    "threat_targets",
    "defended_piece",
];

/// Value of placeholder `name` in `c`, if `name` is an allowed placeholder.
pub open spec fn placeholder_value(c: RenderContext, name: Seq<char>) -> Option<Seq<char>> {
    if name == "side"@ {
        Some(c.side@)
    } else if name == "notation"@ {
        Some(c.notation@)
    } else if name == "piece_name"@ {
        Some(c.piece_name@)
    } else if name == "captured_piece"@ {
        Some(c.captured_piece@)
    } else if name == "best_move_notation"@ {
        Some(c.best_move_notation@)
    } else if name == "score_loss"@ {
        Some(c.score_loss@)
    } else if name == "level_text"@ {
        Some(c.level_text@)
    } else if name == "opening_name"@ {
        Some(c.opening_name@)
    } else if name == "tactic_names"@ {
        Some(c.tactic_names@)
    } else if name == "best_reply_hint"@ {
        Some(c.best_reply_hint@)
    } else if name == "threat_targets"@ {
        Some(c.threat_targets@)
    } else if name == "defended_piece"@ {
        Some(c.defended_piece@)
    } else {
        None
    }
}

/// The placeholder table of `c`.
pub open spec fn placeholder_map(c: RenderContext) -> Map<&'static str, String> {
    Map::empty().insert("side", c.side).insert("notation", c.notation).insert(
        "piece_name",
        c.piece_name,
    ).insert("captured_piece", c.captured_piece).insert(
        "best_move_notation",
        c.best_move_notation,
    ).insert("score_loss", c.score_loss).insert("level_text", c.level_text).insert(
        "opening_name",
        c.opening_name,
    ).insert("tactic_names", c.tactic_names).insert("best_reply_hint", c.best_reply_hint).insert(
        "threat_targets",
        c.threat_targets,
    ).insert("defended_piece", c.defended_piece)
}

impl RenderContext {
    /// The placeholder table: each allowed name with its value.
    pub fn to_map(&self) -> (r: HashMap<&'static str, String>)
        ensures
            vstd::std_specs::hash::obeys_key_model::<&'static str>() ==> r@ == placeholder_map(
                *self,
            ),
    {
        broadcast use vstd::std_specs::hash::group_hash_axioms;

        let mut map: HashMap<&'static str, String> = HashMap::new();
        map.insert("side", self.side.clone());
        map.insert("notation", self.notation.clone());
        map.insert("piece_name", self.piece_name.clone());
        map.insert("captured_piece", self.captured_piece.clone());
        map.insert("best_move_notation", self.best_move_notation.clone());
        map.insert("score_loss", self.score_loss.clone());
        map.insert("level_text", self.level_text.clone());
        map.insert("opening_name", self.opening_name.clone());
        map.insert("tactic_names", self.tactic_names.clone());
        map.insert("best_reply_hint", self.best_reply_hint.clone());
        map.insert("threat_targets", self.threat_targets.clone());
        map.insert("defended_piece", self.defended_piece.clone());
        map
    }

    /// The value of placeholder `name`, if it is an allowed placeholder.
    pub fn value_of(&self, name: &str) -> (r: Option<&String>)
        ensures
            placeholder_value(*self, name@) is None ==> r is None,
            placeholder_value(*self, name@) matches Some(v) ==> r matches Some(s) && s@ == v,
    {
        if str_eq(name, "side") {
            Some(&self.side)
        } else if str_eq(name, "notation") {
            Some(&self.notation)
        } else if str_eq(name, "piece_name") {
            Some(&self.piece_name)
        } else if str_eq(name, "captured_piece") {
            Some(&self.captured_piece)
        } else if str_eq(name, "best_move_notation") {
            Some(&self.best_move_notation)
        } else if str_eq(name, "score_loss") {
            Some(&self.score_loss)
        } else if str_eq(name, "level_text") {
            Some(&self.level_text)
        } else if str_eq(name, "opening_name") {
            Some(&self.opening_name)
        } else if str_eq(name, "tactic_names") {
            Some(&self.tactic_names)
        } else if str_eq(name, "best_reply_hint") {
            Some(&self.best_reply_hint)
        } else if str_eq(name, "threat_targets") {
            Some(&self.threat_targets)
        } else if str_eq(name, "defended_piece") {
            Some(&self.defended_piece)
        } else {
            None
        }
    }
}

/// A rendered commentary.
#[derive(Clone, Debug)]
pub struct Rendered {
    /// Id of the template used.
    pub template_id: String,
    /// One-line conclusion.
    pub headline: String,
    /// Details.
    pub detail: String,
    /// Whether the fallback was used.
    pub used_fallback: bool,
}

/// First index from `i` on where `cs` holds `ch` (the length when none).
pub open spec fn find_from(cs: Seq<char>, ch: char, i: int) -> int
    decreases cs.len() - i,
{
    if i >= cs.len() {
        cs.len() as int
    } else if cs[i] == ch {
        i
    } else {
        find_from(cs, ch, i + 1)
    }
}

/// [`find_from`] stays between its start and the length.
pub proof fn lemma_find_from_bounds(cs: Seq<char>, ch: char, i: int)
    requires
        0 <= i <= cs.len(),
    ensures
        i <= find_from(cs, ch, i) <= cs.len(),
        find_from(cs, ch, i) < cs.len() ==> cs[find_from(cs, ch, i)] == ch,
    decreases cs.len() - i,
{
    if i < cs.len() && cs[i] != ch {
        lemma_find_from_bounds(cs, ch, i + 1);
    }
}

/// Whether `name` is among the required placeholders.
pub open spec fn is_required(req: Seq<String>, name: Seq<char>) -> bool {
    exists|k: int| 0 <= k < req.len() && #[trigger] req[k]@ == name
}

/// Text `cs` from index `i` on with its placeholders filled from `c`, or
/// `None` when a brace is left open, a placeholder is unknown, or a
/// required placeholder is empty.
pub open spec fn fill_from(cs: Seq<char>, i: int, c: RenderContext, req: Seq<String>) -> Option<Seq<char>>
    decreases cs.len() - i,
{
    if i < 0 || i > cs.len() {
        None
    } else {
        let s = find_from(cs, '{', i);
        if s >= cs.len() {
            Some(cs.subrange(i, cs.len() as int))
        } else {
            proof {
                lemma_find_from_bounds(cs, '{', i);
                lemma_find_from_bounds(cs, '}', s + 1);
            }
            let e = find_from(cs, '}', s + 1);
            if e >= cs.len() {
                None
            } else {
                let name = cs.subrange(s + 1, e);
                match placeholder_value(c, name) {
                    None => None,
                    Some(v) => if v.len() == 0 && is_required(req, name) {
                        None
                    } else {
                        match fill_from(cs, e + 1, c, req) {
                            None => None,
                            Some(t) => Some(cs.subrange(i, s) + v + t),
                        }
                    },
                }
            }
        }
    }
}

/// Text `t` with its placeholders filled from `c`, refused as
/// [`fill_from`] says or when a closing brace remains in the result.
pub open spec fn filled(t: Seq<char>, c: RenderContext, req: Seq<String>) -> Option<Seq<char>> {
    match fill_from(t, 0, c, req) {
        Some(o) => if o.contains('}') {
            None
        } else {
            Some(o)
        },
        None => None,
    }
}

/// `o` followed by the result `x`, if any.
pub open spec fn after_prefix(o: Seq<char>, x: Option<Seq<char>>) -> Option<Seq<char>> {
    match x {
        Some(t) => Some(o + t),
        None => None,
    }
}

/// First index from `from` on where `cs` holds `ch`, or the length.
fn find_char(cs: &Vec<char>, ch: char, from: usize) -> (r: usize)
    requires
        from <= cs@.len(),
    ensures
        r == find_from(cs@, ch, from as int),
        from <= r <= cs@.len(),
{
    let mut j = from;
    while j < cs.len() && cs[j] != ch
        invariant
            from <= j <= cs@.len(),
            find_from(cs@, ch, from as int) == find_from(cs@, ch, j as int),
        decreases cs@.len() - j,
    {
        j += 1;
    }
    j
}

/// Whether `name` is among the required placeholders.
fn required_has(required: &[String], name: &str) -> (r: bool)
    ensures
        r == is_required(required@, name@),
{
    let mut k: usize = 0;
    while k < required.len()
        invariant
            k <= required@.len(),
            forall|j: int| 0 <= j < k ==> required@[j]@ != name@,
        decreases required@.len() - k,
    {
        if str_eq(required[k].as_str(), name) {
            return true;
        }
        k += 1;
    }
    false
}

/// Appends the characters of `s` to `out`.
fn append_chars(out: &mut Vec<char>, s: &str)
    ensures
        final(out)@ == old(out)@ + s@,
{
    let cs = chars_of(s);
    let mut k: usize = 0;
    while k < cs.len()
        invariant
            k <= cs@.len(),
            cs@ == s@,
            out@ == old(out)@ + cs@.take(k as int),
        decreases cs@.len() - k,
    {
        out.push(cs[k]);
        k += 1;
        assert(out@ =~= old(out)@ + cs@.take(k as int));
    }
    assert(cs@.take(cs@.len() as int) =~= cs@);
}

/// `text` with its placeholders filled from `ctx`; `None` when a brace is
/// left open, a placeholder is unknown, a placeholder in `required` is
/// empty, or a closing brace remains.
pub fn substitute(text: &str, ctx: &RenderContext, required: &[String]) -> (r: Option<String>)
    ensures
        r is None <==> filled(text@, *ctx, required@) is None,
        r matches Some(s) ==> filled(text@, *ctx, required@) == Some(s@),
{
    let cs = chars_of(text);
    let n = cs.len();
    let mut out: Vec<char> = Vec::new();
    let mut i: usize = 0;
    proof {
        assert(out@ + cs@.subrange(0, 0) =~= out@);
    }
    loop
        invariant_except_break
            fill_from(cs@, 0, *ctx, required@) == after_prefix(
                out@,
                fill_from(cs@, i as int, *ctx, required@),
            ),
        invariant
            n == cs@.len(),
            cs@ == text@,
            i <= n,
        ensures
            fill_from(cs@, 0, *ctx, required@) == Some(out@),
        decreases n - i,
    {
        let s = find_char(&cs, '{', i);
        if s >= n {
            proof {
                assert(fill_from(cs@, i as int, *ctx, required@) == Some(
                    cs@.subrange(i as int, n as int),
                ));
            }
            let mut k = i;
            while k < n
                invariant
                    i <= k <= n,
                    n == cs@.len(),
                    fill_from(cs@, 0, *ctx, required@) == after_prefix(
                        out@,
                        Some(cs@.subrange(k as int, n as int)),
                    ),
                decreases n - k,
            {
                let ghost before = out@;
                out.push(cs[k]);
                proof {
                    assert(before + cs@.subrange(k as int, n as int) =~= out@ + cs@.subrange(
                        k + 1,
                        n as int,
                    ));
                }
                k += 1;
            }
            proof {
                assert(out@ + cs@.subrange(n as int, n as int) =~= out@);
            }
            break ;
        }
        let e = find_char(&cs, '}', s + 1);
        if e >= n {
            proof {
                assert(fill_from(cs@, i as int, *ctx, required@) is None);
            }
            return None;
        }
        let mut name_chars: Vec<char> = Vec::new();
        let mut k = s + 1;
        while k < e
            invariant
                s + 1 <= k <= e,
                e < n,
                n == cs@.len(),
                name_chars@ == cs@.subrange(s + 1, k as int),
            decreases e - k,
        {
            name_chars.push(cs[k]);
            k += 1;
            assert(name_chars@ =~= cs@.subrange(s + 1, k as int));
        }
        let name = string_of(&name_chars);
        proof {
            assert(name@ == cs@.subrange(s + 1, e as int));
        }
        match ctx.value_of(name.as_str()) {
            None => {
                proof {
                    assert(fill_from(cs@, i as int, *ctx, required@) is None);
                }
                return None;
            },
            Some(v) => {
                let vs = chars_of(v.as_str());
                if vs.len() == 0 && required_has(required, name.as_str()) {
                    proof {
                        assert(fill_from(cs@, i as int, *ctx, required@) is None);
                    }
                    return None;
                }
                let ghost before = out@;
                let mut k2 = i;
                while k2 < s
                    invariant
                        i <= k2 <= s,
                        s < n,
                        n == cs@.len(),
                        out@ == before + cs@.subrange(i as int, k2 as int),
                    decreases s - k2,
                {
                    out.push(cs[k2]);
                    k2 += 1;
                    assert(out@ =~= before + cs@.subrange(i as int, k2 as int));
                }
                append_chars(&mut out, v.as_str());
                proof {
                    assert(name@ == cs@.subrange(s + 1, e as int));
                    let x = fill_from(cs@, e + 1, *ctx, required@);
                    assert(fill_from(cs@, i as int, *ctx, required@) == after_prefix(
                        cs@.subrange(i as int, s as int) + v@,
                        x,
                    ));
                    if let Some(t) = x {
                        assert(before + (cs@.subrange(i as int, s as int) + v@ + t) =~= out@ + t);
                    }
                }
                i = e + 1;
            },
        }
    }
    let mut k: usize = 0;
    while k < out.len()
        invariant
            k <= out@.len(),
            forall|j: int| 0 <= j < k ==> out@[j] != '}',
            fill_from(cs@, 0, *ctx, required@) == Some(out@),
            cs@ == text@,
        decreases out@.len() - k,
    {
        if out[k] == '}' {
            proof {
                assert(out@.contains('}'));
            }
            return None;
        }
        k += 1;
    }
    proof {
        assert(!out@.contains('}'));
    }
    Some(string_of(&out))
}

/// The headline and the detail for `verbosity` of `tpl`, both filled from
/// `ctx`; `None` when either cannot be filled.
pub fn try_render(tpl: &TemplateDef, ctx: &RenderContext, required: &[String], verbosity: Verbosity) -> (r: Option<(String, String)>)
    ensures
        r is None <==> (filled(tpl.headline@, *ctx, required@) is None || filled(
            tpl.detail.pick_spec(verbosity),
            *ctx,
            required@,
        ) is None),
        r matches Some(p) ==> filled(tpl.headline@, *ctx, required@) == Some(p.0@) && filled(
            tpl.detail.pick_spec(verbosity),
            *ctx,
            required@,
        ) == Some(p.1@),
{
    let headline = substitute(tpl.headline.as_str(), ctx, required);
    match headline {
        None => None,
        Some(h) => {
            let detail = substitute(tpl.detail.pick(verbosity), ctx, required);
            match detail {
                None => None,
                Some(d) => Some((h, d)),
            }
        },
    }
}

/// The template that explains tactic `id`, if the tactic and its template
/// are known.
pub open spec fn tactic_template(kb: Knowledge, id: Seq<char>) -> Option<TemplateDef> {
    match tactic_index(kb.tactics@, id, 0) {
        None => None,
        Some(i) => match template_index(kb.templates@, kb.tactics@[i].explanation_template@, 0) {
            None => None,
            Some(j) => Some(kb.templates@[j]),
        },
    }
}

/// Headline and detail of `tpl`, both filled, if both can be.
pub open spec fn filled_pair(tpl: TemplateDef, c: RenderContext, req: Seq<String>, v: Verbosity) -> Option<
    (Seq<char>, Seq<char>),
> {
    match (filled(tpl.headline@, c, req), filled(tpl.detail.pick_spec(v), c, req)) {
        (Some(h), Some(d)) => Some((h, d)),
        _ => None,
    }
}

/// The last resort when even the fallback template cannot be filled: side
/// and notation in one sentence.
pub open spec fn last_resort(c: RenderContext) -> (Seq<char>, Seq<char>, Seq<char>, bool) {
    ("builtin.last_resort"@, c.side@ + "方 "@ + c.notation@ + "。"@, Seq::empty(), true)
}

/// Rendering past the tactics: the level's generic template, then the
/// fallback template, then the last resort.
pub open spec fn render_general(kb: Knowledge, c: RenderContext, level: MoveLevel, v: Verbosity) -> (
    Seq<char>,
    Seq<char>,
    Seq<char>,
    bool,
) {
    let req = kb.placeholders.required_always@;
    let generic = match template_index(kb.templates@, generic_template(level), 0) {
        Some(i) => match filled_pair(kb.templates@[i], c, req, v) {
            Some((h, d)) => Some((kb.templates@[i].id@, h, d, false)),
            None => None,
        },
        None => None,
    };
    match generic {
        Some(r) => r,
        None => match fallback_index(kb.templates@, 0) {
            Some(f) => match filled_pair(kb.templates@[f], c, req, v) {
                Some((h, d)) => (kb.templates@[f].id@, h, d, true),
                None => last_resort(c),
            },
            None => last_resort(c),
        },
    }
}

/// Rendering down the chain from tactic `k` of `ids` on: the template of
/// the first tactic whose template can be filled, else [`render_general`].
/// Each result is the template id, headline, detail and whether the
/// fallback was used.
pub open spec fn render_from(
    kb: Knowledge,
    c: RenderContext,
    level: MoveLevel,
    ids: Seq<Seq<char>>,
    v: Verbosity,
    k: int,
) -> (Seq<char>, Seq<char>, Seq<char>, bool)
    decreases ids.len() - k,
{
    if k < 0 || k >= ids.len() {
        render_general(kb, c, level, v)
    } else {
        match tactic_template(kb, ids[k]) {
            Some(tpl) => match filled_pair(tpl, c, kb.placeholders.required_always@, v) {
                Some((h, d)) => (tpl.id@, h, d, false),
                None => render_from(kb, c, level, ids, v, k + 1),
            },
            None => render_from(kb, c, level, ids, v, k + 1),
        }
    }
}

/// Renders down the chain: the templates of the tactics found (in the
/// order given, the most confident first), the level's generic template,
/// the fallback template, and as a last resort one plain sentence. A raw
/// placeholder never reaches the reader.
pub fn render(kb: &Knowledge, ctx: &RenderContext, level: MoveLevel, tactic_ids: &Vec<String>, verbosity: Verbosity) -> (r: Rendered)
    requires
        fallback_index(kb.templates@, 0) is Some,
    ensures
        (r.template_id@, r.headline@, r.detail@, r.used_fallback) == render_from(
            *kb,
            *ctx,
            level,
            string_views(tactic_ids@),
            verbosity,
            0,
        ),
{
    let required = kb.placeholders.required_always.as_slice();
    let ghost ids = string_views(tactic_ids@);
    let mut k: usize = 0;
    while k < tactic_ids.len()
        invariant
            k <= tactic_ids@.len(),
            ids == string_views(tactic_ids@),
            required@ == kb.placeholders.required_always@,
            render_from(*kb, *ctx, level, ids, verbosity, 0) == render_from(
                *kb,
                *ctx,
                level,
                ids,
                verbosity,
                k as int,
            ),
        decreases tactic_ids@.len() - k,
    {
        let id = tactic_ids[k].as_str();
        if let Some(def) = kb.tactic(id) {
            if let Some(tpl) = kb.template(def.explanation_template.as_str()) {
                if let Some((headline, detail)) = try_render(tpl, ctx, required, verbosity) {
                    return Rendered { template_id: tpl.id.clone(), headline, detail, used_fallback: false };
                }
            }
        }
        k += 1;
    }
    if let Some(tpl) = kb.template(level.generic_template_id()) {
        if let Some((headline, detail)) = try_render(tpl, ctx, required, verbosity) {
            return Rendered { template_id: tpl.id.clone(), headline, detail, used_fallback: false };
        }
    }
    let fb = kb.fallback_template().unwrap();
    match try_render(fb, ctx, required, verbosity) {
        Some((headline, detail)) => Rendered {
            template_id: fb.id.clone(),
            headline,
            detail,
            used_fallback: true,
        },
        None => {
            let mut headline = owned(ctx.side.as_str());
            push_str(&mut headline, "方 ");
            push_str(&mut headline, ctx.notation.as_str());
            push_str(&mut headline, "。");
            Rendered {
                template_id: owned("builtin.last_resort"),
                headline,
                detail: String::new(),
                used_fallback: true,
            }
        },
    }
}

} // verus!
