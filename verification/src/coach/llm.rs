//! Checks on commentary rewritten by a language model.
//!
//! The model only polishes language; it is fed structured facts, never the
//! board. What it writes is refused when it names an entity (a coordinate
//! or a move in notation) that the facts do not hold, when its length is out
//! of range, when it uses Markdown, or when it holds odd characters. A
//! refused rewrite changes nothing: the local commentary stays.
use vstd::prelude::*;

use crate::coach::note::{MoveLevel, level_text};
use crate::color::Color;
use crate::text::{chars_of, decimal, owned, push_char, push_number, push_str, str_eq, string_of, trim, trimmed};

verus! {

/// Views of a sequence of strings.
pub open spec fn string_views(v: Seq<String>) -> Seq<Seq<char>> {
    Seq::new(v.len(), |i: int| v[i]@)
}

/// A piece glyph, as Chinese notation starts with.
pub open spec fn piece_glyph(c: char) -> bool {
    c == '帅' || c == '将' || c == '仕' || c == '士' || c == '相' || c == '象' || c == '马' || c
        == '车' || c == '炮' || c == '兵' || c == '卒'
}

/// Whether `c` is a piece glyph.
pub fn is_piece_char(c: char) -> (r: bool)
    ensures
        r == piece_glyph(c),
{
    c == '帅' || c == '将' || c == '仕' || c == '士' || c == '相' || c == '象' || c == '马' || c
        == '车' || c == '炮' || c == '兵' || c == '卒'
}

/// A numeral of notation: Chinese 一 to 九 or a digit 1 to 9.
pub open spec fn numeral(c: char) -> bool {
    c == '一' || c == '二' || c == '三' || c == '四' || c == '五' || c == '六' || c == '七' || c
        == '八' || c == '九' || ('1' <= c && c <= '9')
}

/// Whether `c` is a numeral of notation.
pub fn is_numeral(c: char) -> (r: bool)
    ensures
        r == numeral(c),
{
    c == '一' || c == '二' || c == '三' || c == '四' || c == '五' || c == '六' || c == '七' || c
        == '八' || c == '九' || ('1' <= c && c <= '9')
}

/// An action of notation: 进, 退 or 平.
pub open spec fn action_char(c: char) -> bool {
    c == '进' || c == '退' || c == '平'
}

/// The entity that starts at position `i` of `cs`, if one does: an ICCS
/// coordinate (a file `a`..`i` and a digit) or a move in notation (glyph,
/// numeral, action, numeral).
pub open spec fn entity_at(cs: Seq<char>, i: int) -> Option<Seq<char>> {
    if 'a' <= cs[i] && cs[i] <= 'i' && i + 1 < cs.len() && '0' <= cs[i + 1] && cs[i + 1] <= '9' {
        Some(seq![cs[i], cs[i + 1]])
    } else if piece_glyph(cs[i]) && i + 3 < cs.len() && numeral(cs[i + 1]) && action_char(cs[i + 2])
        && numeral(cs[i + 3]) {
        Some(cs.subrange(i, i + 4))
    } else {
        None
    }
}

/// Entities starting in the first `n` positions of `cs`, in order.
pub open spec fn entities_upto(cs: Seq<char>, n: int) -> Seq<Seq<char>>
    decreases n,
{
    if n <= 0 {
        Seq::empty()
    } else {
        let prev = entities_upto(cs, n - 1);
        match entity_at(cs, n - 1) {
            Some(e) => prev.push(e),
            None => prev,
        }
    }
}

/// Entities of `cs`, in order of their start.
pub open spec fn entities(cs: Seq<char>) -> Seq<Seq<char>> {
    entities_upto(cs, cs.len() as int)
}

/// The entity starting at position `i`.
fn entity_at_index(cs: &Vec<char>, i: usize) -> (r: Option<Vec<char>>)
    requires
        i < cs@.len(),
    ensures
        match entity_at(cs@, i as int) {
            Some(e) => r matches Some(v) && v@ == e,
            None => r is None,
        },
{
    let c = cs[i];
    if 'a' <= c && c <= 'i' && i < cs.len() - 1 && '0' <= cs[i + 1] && cs[i + 1] <= '9' {
        let v = vec![c, cs[i + 1]];
        assert(v@ =~= seq![cs@[i as int], cs@[i + 1]]);
        return Some(v);
    }
    if is_piece_char(c) && cs.len() - i > 3 && is_numeral(cs[i + 1]) && (cs[i + 2] == '进'
        || cs[i + 2] == '退' || cs[i + 2] == '平') && is_numeral(cs[i + 3]) {
        let v = vec![c, cs[i + 1], cs[i + 2], cs[i + 3]];
        assert(v@ =~= cs@.subrange(i as int, i + 4));
        return Some(v);
    }
    None
}

/// Entities of a character vector, in order.
fn entities_of(cs: &Vec<char>) -> (r: Vec<String>)
    ensures
        string_views(r@) == entities(cs@),
{
    let mut out: Vec<String> = Vec::new();
    let mut i: usize = 0;
    while i < cs.len()
        invariant
            i <= cs@.len(),
            string_views(out@) == entities_upto(cs@, i as int),
        decreases cs@.len() - i,
    {
        let ghost prev = out@;
        match entity_at_index(cs, i) {
            Some(v) => {
                out.push(string_of(&v));
                assert(string_views(out@) =~= string_views(prev).push(v@));
            },
            None => {},
        }
        i += 1;
    }
    out
}

/// The likely entities of a text: ICCS coordinates such as `h2`, and moves
/// in notation such as `炮二平五` or `马8进7`. Ordinary words are never
/// taken for entities: a missed entity is better than a false alarm.
pub fn extract_entities(text: &str) -> (r: Vec<String>)
    ensures
        string_views(r@) == entities(text@),
{
    let cs = chars_of(text);
    entities_of(&cs)
}

/// Whether `v` holds a string with the characters of `s`.
fn has_string(v: &Vec<String>, s: &str) -> (r: bool)
    ensures
        r == string_views(v@).contains(s@),
{
    let mut i: usize = 0;
    while i < v.len()
        invariant
            i <= v@.len(),
            forall|j: int| 0 <= j < i ==> string_views(v@)[j] != s@,
        decreases v@.len() - i,
    {
        if str_eq(v[i].as_str(), s) {
            assert(string_views(v@)[i as int] == s@);
            return true;
        }
        i += 1;
    }
    false
}

/// Entities that may appear in a rewrite.
///
/// Built from the local commentary: the entities allowed are exactly those
/// fed to the model. No entity is held twice.
#[derive(Debug)]
pub struct FactSet {
    allowed: Vec<String>,
}

impl View for FactSet {
    type V = Set<Seq<char>>;

    closed spec fn view(&self) -> Set<Seq<char>> {
        string_views(self.allowed@).to_set()
    }
}

impl Default for FactSet {
    fn default() -> (r: FactSet)
        ensures
            r@ == Set::<Seq<char>>::empty(),
    {
        let r = FactSet { allowed: Vec::new() };
        assert(r@ =~= Set::<Seq<char>>::empty());
        r
    }
}

/// Words of ordinary play: piece names, sides and numerals, which a rewrite
/// may always use.
pub open spec fn common_words() -> Seq<Seq<char>> {
    seq![
        "帅"@, "将"@, "仕"@, "士"@, "相"@, "象"@, "马"@, "车"@, "炮"@, "兵"@, "卒"@, "红"@, "黑"@, "方"@,
        "一"@, "二"@, "三"@, "四"@, "五"@, "六"@, "七"@, "八"@, "九"@, "1"@, "2"@, "3"@, "4"@, "5"@,
        "6"@, "7"@, "8"@, "9"@,
    ]
}

impl FactSet {
    #[verifier::type_invariant]
    spec fn distinct(&self) -> bool {
        string_views(self.allowed@).no_duplicates()
    }

    /// Allows one more entity.
    pub fn allow(&mut self, entity: &str)
        ensures
            final(self)@ == old(self)@.insert(entity@),
    {
        proof {
            use_type_invariant(&*self);
        }
        if has_string(&self.allowed, entity) {
            assert(old(self)@ =~= old(self)@.insert(entity@));
            return;
        }
        let ghost before = string_views(self.allowed@);
        let mut items = Vec::new();
        std::mem::swap(&mut items, &mut self.allowed);
        items.push(owned(entity));
        proof {
            assert(string_views(items@) =~= before.push(entity@));
            assert(string_views(items@).no_duplicates());
            before.lemma_push_to_set_commute(entity@);
        }
        self.allowed = items;
    }

    /// Whether an entity is allowed.
    pub fn contains(&self, entity: &str) -> (r: bool)
        ensures
            r == self@.contains(entity@),
    {
        has_string(&self.allowed, entity)
    }

    /// Number of allowed entities.
    pub fn len(&self) -> (r: usize)
        ensures
            r == self@.len(),
    {
        proof {
            use_type_invariant(self);
            string_views(self.allowed@).unique_seq_to_set();
        }
        self.allowed.len()
    }

    /// Whether nothing is allowed.
    pub fn is_empty(&self) -> (r: bool)
        ensures
            r == (self@.len() == 0),
    {
        self.len() == 0
    }

    /// Allows every entity found in `text`.
    pub fn collect_entities(&mut self, text: &str)
        ensures
            final(self)@ == old(self)@.union(entities(text@).to_set()),
    {
        let found = extract_entities(text);
        let ghost es = string_views(found@);
        let mut i: usize = 0;
        while i < found.len()
            invariant
                i <= found@.len(),
                es == string_views(found@),
                self@ == old(self)@.union(es.take(i as int).to_set()),
            decreases found@.len() - i,
        {
            self.allow(found[i].as_str());
            proof {
                assert(es.take(i + 1) =~= es.take(i as int).push(es[i as int]));
                es.take(i as int).lemma_push_to_set_commute(es[i as int]);
            }
            i += 1;
            assert(self@ =~= old(self)@.union(es.take(i as int).to_set()));
        }
        assert(es.take(found@.len() as int) =~= es);
    }

    /// Allows the words of ordinary play (see [`common_words`]).
    pub fn allow_common_words(&mut self)
        ensures
            final(self)@ == old(self)@.union(common_words().to_set()),
    {
        let words = [
            "帅", "将", "仕", "士", "相", "象", "马", "车", "炮", "兵", "卒", "红", "黑", "方", "一",
            "二", "三", "四", "五", "六", "七", "八", "九", "1", "2", "3", "4", "5", "6", "7", "8",
            "9",
        ];
        let ghost ws = common_words();
        assert(forall|k: int| 0 <= k < 32 ==> (#[trigger] words@[k])@ == ws[k]);
        let mut i: usize = 0;
        while i < 32
            invariant
                i <= 32,
                ws == common_words(),
                ws.len() == 32,
                forall|k: int| 0 <= k < 32 ==> (#[trigger] words@[k])@ == ws[k],
                self@ == old(self)@.union(ws.take(i as int).to_set()),
            decreases 32 - i,
        {
            self.allow(words[i]);
            proof {
                assert(ws.take(i + 1) =~= ws.take(i as int).push(ws[i as int]));
                ws.take(i as int).lemma_push_to_set_commute(ws[i as int]);
            }
            i += 1;
            assert(self@ =~= old(self)@.union(ws.take(i as int).to_set()));
        }
        assert(ws.take(32) =~= ws);
    }
}

/// Fewest characters a rewrite may have.
pub const MIN_OUTPUT_CHARS: usize = 8;

/// Most characters a rewrite may have.
pub const MAX_OUTPUT_CHARS: usize = 200;

/// Why a rewrite was refused.
#[derive(Clone, Debug, PartialEq, Eq)]
pub enum RejectReason {
    /// It names entities that the facts do not hold (each listed once).
    Hallucination(Vec<String>),
    /// Its length, in characters, is out of range.
    Length(usize),
    /// It holds Markdown marks.
    Markdown,
    /// It holds control characters or too many line breaks.
    WeirdChars,
    /// It is empty.
    Empty,
}

/// `p` occurs in `t` as a run of consecutive characters.
pub open spec fn occurs(t: Seq<char>, p: Seq<char>) -> bool {
    exists|i: int| 0 <= i && i + p.len() <= t.len() && #[trigger] t.subrange(i, i + p.len()) == p
}

/// Whether `p` occurs in `t`.
pub(crate) fn occurs_in(t: &Vec<char>, p: &Vec<char>) -> (r: bool)
    ensures
        r == occurs(t@, p@),
{
    if p.len() > t.len() {
        return false;
    }
    if p.len() == 0 {
        assert(t@.subrange(0, 0 + p@.len() as int) =~= p@);
        return true;
    }
    let n = t.len();
    let last = n - p.len();
    let mut i: usize = 0;
    while i <= last
        invariant
            n == t@.len(),
            0 < p@.len() <= t@.len(),
            last == t@.len() - p@.len(),
            i <= last + 1,
            forall|k: int| 0 <= k < i ==> #[trigger] t@.subrange(k, k + p@.len()) != p@,
        decreases last + 1 - i,
    {
        let mut j: usize = 0;
        let mut same = true;
        while j < p.len()
            invariant
                n == t@.len(),
                0 < p@.len() <= t@.len(),
                last == t@.len() - p@.len(),
                i <= last,
                j <= p@.len(),
                same == (forall|m: int| 0 <= m < j ==> t@[i + m] == p@[m]),
            decreases p@.len() - j,
        {
            if t[i + j] != p[j] {
                same = false;
            }
            j += 1;
        }
        if same {
            assert(t@.subrange(i as int, i + p@.len()) =~= p@);
            return true;
        }
        proof {
            let m = choose|m: int| 0 <= m < p@.len() && t@[i + m] != p@[m];
            assert(t@.subrange(i as int, i + p@.len())[m] != p@[m]);
        }
        i += 1;
    }
    proof {
        if occurs(t@, p@) {
            let k = choose|k: int| 0 <= k && k + p@.len() <= t@.len() && #[trigger] t@.subrange(k, k + p@.len()) == p@;
            assert(t@.subrange(k, k + p@.len()) != p@);
        }
    }
    false
}

/// Whether text `t` holds a Markdown mark: `**`, `##`, a code fence, or a
/// list item (`- `, `1. `).
pub open spec fn markdown(t: Seq<char>) -> bool {
    occurs(t, "**"@) || occurs(t, "##"@) || occurs(t, "```"@) || occurs(t, "- "@) || occurs(t, "1. "@)
}

/// A control character (Unicode category Cc).
pub open spec fn control(c: char) -> bool {
    c <= '\u{1f}' || ('\u{7f}' <= c && c <= '\u{9f}')
}

/// Number of line breaks in `t`.
pub open spec fn line_breaks(t: Seq<char>) -> nat {
    t.filter(|c: char| c == '\n').len()
}

/// Text `t` holds more than two line breaks, or a control character other
/// than a line break.
pub open spec fn odd_chars(t: Seq<char>) -> bool {
    line_breaks(t) > 2 || exists|i: int| 0 <= i < t.len() && control(#[trigger] t[i]) && t[i] != '\n'
}

/// The entities among the first `n` of `es` that `allowed` lacks, each
/// once, in order of first appearance.
pub open spec fn unknown_upto(es: Seq<Seq<char>>, allowed: Set<Seq<char>>, n: int) -> Seq<
    Seq<char>,
>
    decreases n,
{
    if n <= 0 {
        Seq::empty()
    } else {
        let prev = unknown_upto(es, allowed, n - 1);
        let e = es[n - 1];
        if !allowed.contains(e) && !prev.contains(e) {
            prev.push(e)
        } else {
            prev
        }
    }
}

/// The verdict on rewrite `t` given the allowed entities, checked in this
/// order on the text without its outer white space: empty; length out of
/// `8..=200` characters; Markdown; odd characters; entities the facts lack.
pub open spec fn verdict_ok(t: Seq<char>, allowed: Set<Seq<char>>, r: Result<(), RejectReason>) -> bool {
    let tr = trim(t);
    if tr.len() == 0 {
        r == Err::<(), RejectReason>(RejectReason::Empty)
    } else if tr.len() < MIN_OUTPUT_CHARS || tr.len() > MAX_OUTPUT_CHARS {
        r == Err::<(), RejectReason>(RejectReason::Length(tr.len() as usize))
    } else if markdown(tr) {
        r == Err::<(), RejectReason>(RejectReason::Markdown)
    } else if odd_chars(tr) {
        r == Err::<(), RejectReason>(RejectReason::WeirdChars)
    } else {
        let es = entities(tr);
        let h = unknown_upto(es, allowed, es.len() as int);
        if h.len() > 0 {
            r matches Err(RejectReason::Hallucination(v)) && string_views(v@) == h
        } else {
            r is Ok
        }
    }
}

/// Every entity among the first `n` that `allowed` lacks is listed.
proof fn lemma_unknown_listed(es: Seq<Seq<char>>, allowed: Set<Seq<char>>, n: int)
    requires
        0 <= n <= es.len(),
    ensures
        forall|i: int|
            0 <= i < n && !allowed.contains(#[trigger] es[i]) ==> unknown_upto(es, allowed, n).contains(
                es[i],
            ),
    decreases n,
{
    if n > 0 {
        lemma_unknown_listed(es, allowed, n - 1);
        let prev = unknown_upto(es, allowed, n - 1);
        assert forall|i: int| 0 <= i < n && !allowed.contains(#[trigger] es[i]) implies unknown_upto(
            es,
            allowed,
            n,
        ).contains(es[i]) by {
            let now = unknown_upto(es, allowed, n);
            if i < n - 1 {
                let k = choose|k: int| 0 <= k < prev.len() && prev[k] == es[i];
                if now != prev {
                    assert(now == prev.push(es[n - 1]));
                    assert(now[k] == es[i]);
                }
            } else {
                if prev.contains(es[i]) {
                    assert(now == prev);
                } else {
                    assert(now == prev.push(es[i]));
                    assert(now[prev.len() as int] == es[i]);
                }
            }
        }
    }
}

/// A rewrite that passes the checks names only entities that the facts
/// hold, and has, without its outer white space, 8 to 200 characters, no
/// Markdown and no odd characters.
pub proof fn law_accepted_rewrite_is_faithful(t: Seq<char>, allowed: Set<Seq<char>>)
    requires
        verdict_ok(t, allowed, Ok(())),
    ensures
        MIN_OUTPUT_CHARS <= trim(t).len() <= MAX_OUTPUT_CHARS,
        !markdown(trim(t)),
        !odd_chars(trim(t)),
        forall|e: Seq<char>| entities(trim(t)).contains(e) ==> allowed.contains(e),
{
    let es = entities(trim(t));
    lemma_unknown_listed(es, allowed, es.len() as int);
    assert forall|e: Seq<char>| es.contains(e) implies allowed.contains(e) by {
        let i = choose|i: int| 0 <= i < es.len() && es[i] == e;
        if !allowed.contains(es[i]) {
            assert(unknown_upto(es, allowed, es.len() as int).contains(es[i]));
        }
    }
}

/// Whether `t` has a Markdown mark.
fn has_markdown(t: &Vec<char>) -> (r: bool)
    ensures
        r == markdown(t@),
{
    occurs_in(t, &chars_of("**")) || occurs_in(t, &chars_of("##")) || occurs_in(t, &chars_of("```"))
        || occurs_in(t, &chars_of("- ")) || occurs_in(t, &chars_of("1. "))
}

/// Whether `t` has odd characters.
fn has_odd_chars(t: &Vec<char>) -> (r: bool)
    ensures
        r == odd_chars(t@),
{
    let ghost nl = |c: char| c == '\n';
    let mut breaks: usize = 0;
    let mut bad = false;
    let mut i: usize = 0;
    while i < t.len()
        invariant
            i <= t@.len(),
            nl == (|c: char| c == '\n'),
            breaks == t@.take(i as int).filter(nl).len(),
            bad == (exists|k: int| 0 <= k < i && control(#[trigger] t@[k]) && t@[k] != '\n'),
        decreases t@.len() - i,
    {
        proof {
            crate::position::lemma_filter_take(t@, nl, i as int);
        }
        let c = t[i];
        if c == '\n' {
            breaks += 1;
        } else if c <= '\u{1f}' || ('\u{7f}' <= c && c <= '\u{9f}') {
            bad = true;
        }
        i += 1;
    }
    assert(t@.take(t@.len() as int) =~= t@);
    breaks > 2 || bad
}

/// Checks a rewrite; see [`verdict_ok`]. Any failure means the rewrite is
/// dropped and the local commentary kept.
pub fn validate_output(text: &str, facts: &FactSet) -> (r: Result<(), RejectReason>)
    ensures
        verdict_ok(text@, facts@, r),
{
    let cs = chars_of(text);
    let tr = trimmed(&cs);
    if tr.len() == 0 {
        return Err(RejectReason::Empty);
    }
    let n = tr.len();
    if n < MIN_OUTPUT_CHARS || n > MAX_OUTPUT_CHARS {
        return Err(RejectReason::Length(n));
    }
    if has_markdown(&tr) {
        return Err(RejectReason::Markdown);
    }
    if has_odd_chars(&tr) {
        return Err(RejectReason::WeirdChars);
    }
    let found = entities_of(&tr);
    let ghost es = string_views(found@);
    let mut unknown: Vec<String> = Vec::new();
    let mut i: usize = 0;
    while i < found.len()
        invariant
            i <= found@.len(),
            es == string_views(found@),
            string_views(unknown@) == unknown_upto(es, facts@, i as int),
        decreases found@.len() - i,
    {
        let e = found[i].as_str();
        if !facts.contains(e) && !has_string(&unknown, e) {
            let ghost prev = unknown@;
            unknown.push(found[i].clone());
            assert(string_views(unknown@) =~= string_views(prev).push(es[i as int]));
        }
        i += 1;
    }
    if unknown.len() > 0 {
        return Err(RejectReason::Hallucination(unknown));
    }
    Ok(())
}

/// `v` joined with `sep` between neighbours.
pub open spec fn joined(v: Seq<Seq<char>>, sep: Seq<char>) -> Seq<char>
    decreases v.len(),
{
    if v.len() == 0 {
        Seq::empty()
    } else if v.len() == 1 {
        v[0]
    } else {
        joined(v.drop_last(), sep) + sep + v.last()
    }
}

impl RejectReason {
    /// The message for logs.
    pub open spec fn text(self) -> Seq<char> {
        match self {
            RejectReason::Hallucination(items) => "出现未提供的实体："@ + joined(
                string_views(items@),
                "、"@,
            ),
            RejectReason::Length(n) => "长度 "@ + decimal(n as nat) + " 字，超出允许区间"@,
            RejectReason::Markdown => "含 Markdown 标记"@,
            RejectReason::WeirdChars => "含异常字符"@,
            RejectReason::Empty => "输出为空"@,
        }
    }

    /// The message for logs, such as `长度 1 字，超出允许区间`.
    pub fn describe(&self) -> (r: String)
        ensures
            r@ == self.text(),
    {
        match self {
            RejectReason::Hallucination(items) => {
                let mut s = owned("出现未提供的实体：");
                let ghost head = s@;
                let ghost vs = string_views(items@);
                let mut i: usize = 0;
                while i < items.len()
                    invariant
                        i <= items@.len(),
                        vs == string_views(items@),
                        s@ == head + joined(vs.take(i as int), "、"@),
                    decreases items@.len() - i,
                {
                    if i > 0 {
                        push_str(&mut s, "、");
                    }
                    push_str(&mut s, items[i].as_str());
                    proof {
                        let t = vs.take(i + 1);
                        assert(t.drop_last() =~= vs.take(i as int));
                        if i == 0 {
                            assert(joined(vs.take(0), "、"@) =~= Seq::<char>::empty());
                            assert(s@ =~= head + joined(t, "、"@));
                        } else {
                            assert(s@ =~= head + joined(t, "、"@));
                        }
                    }
                    i += 1;
                }
                assert(vs.take(items@.len() as int) =~= vs);
                s
            },
            RejectReason::Length(n) => {
                let mut s = owned("长度 ");
                push_number(&mut s, *n as u64);
                push_str(&mut s, " 字，超出允许区间");
                s
            },
            RejectReason::Markdown => owned("含 Markdown 标记"),
            RejectReason::WeirdChars => owned("含异常字符"),
            RejectReason::Empty => owned("输出为空"),
        }
    }
}

/// A model's answer.
#[derive(Clone, Debug)]
pub struct LlmResponse {
    /// The text written.
    pub text: String,
    /// Tokens used, for budgeting.
    pub usage: Option<TokenUsage>,
}

/// Tokens used by one call.
#[derive(Clone, Copy, Debug, Default)]
pub struct TokenUsage {
    /// Tokens read.
    pub prompt_tokens: u32,
    /// Tokens written.
    pub completion_tokens: u32,
}

/// Why a call to a model failed.
#[derive(Clone, Debug, PartialEq, Eq)]
pub enum LlmError {
    /// The call ran out of time.
    Timeout,
    /// The network or the HTTP exchange failed.
    Transport(String),
    /// The service refused the request (rate limits, content policy).
    Rejected(String),
}

impl LlmError {
    /// The message shown for this error.
    pub open spec fn text(self) -> Seq<char> {
        match self {
            LlmError::Timeout => "LLM 调用超时"@,
            LlmError::Transport(e) => "LLM 传输错误："@ + e@,
            LlmError::Rejected(e) => "LLM 拒绝请求："@ + e@,
        }
    }

    /// The message shown for this error, such as `LLM 调用超时`.
    pub fn message(&self) -> (r: String)
        ensures
            r@ == self.text(),
    {
        match self {
            LlmError::Timeout => owned("LLM 调用超时"),
            LlmError::Transport(e) => {
                let mut s = owned("LLM 传输错误：");
                push_str(&mut s, e.as_str());
                s
            },
            LlmError::Rejected(e) => {
                let mut s = owned("LLM 拒绝请求：");
                push_str(&mut s, e.as_str());
                s
            },
        }
    }
}

/// The client used when no model is configured: every call is refused, so
/// callers need no special case.
#[derive(Debug, Default, Clone, Copy)]
pub struct NoLlm;

impl NoLlm {
    /// The answer to every call.
    pub fn refusal(&self) -> (r: LlmError)
        ensures
            r matches LlmError::Rejected(m) && m@ == "未配置 LLM 客户端"@,
    {
        LlmError::Rejected(owned("未配置 LLM 客户端"))
    }
}

/// Instructions given to the model: rewrite the analysis in plain Chinese,
/// use only the facts given, keep the verdict, invent no lines of play, two
/// or three sentences without lists or Markdown.
pub const SYSTEM_PROMPT: &'static str = "你是一位中国象棋教练。你的任务是把给定的局面分析结果改写成自然、易懂的中文点评。\n\n严格约束：\n1. 只能使用【分析结果】中提供的事实，不得添加任何未提供的棋子位置、着法或战法名称。\n2. 不得改变评价等级与评分结论。\n3. 不得编造变化推演。若【分析结果】中未给出后续变化，就不要推演后续。\n4. 输出 2~3 句中文，不要使用列表、标题、Markdown 标记。\n5. 不要重复「这步棋」等无信息量的开头。";

/// The facts of a commentary that a prompt may carry.
#[derive(Clone, Debug)]
pub struct PromptFacts {
    /// The side that moved.
    pub side: Color,
    /// Notation of the move.
    pub notation: String,
    /// Grade of the move.
    pub level: MoveLevel,
    /// Score lost against the best move, in centipawns.
    pub score_loss: i32,
    /// Names of the tactics recognised.
    pub tactic_names: Vec<String>,
    /// Name of the opening, if one was recognised.
    pub opening_name: Option<String>,
    /// The engine's suggestion, if any.
    pub suggestion: Option<String>,
}

/// Decimal text of an integer, with a minus sign when negative.
pub open spec fn signed_decimal(n: int) -> Seq<char> {
    if n < 0 {
        seq!['-'] + decimal((-n) as nat)
    } else {
        decimal(n as nat)
    }
}

/// One labelled line of a prompt: the label, the text, a line break.
pub open spec fn prompt_line(label: Seq<char>, body: Seq<char>) -> Seq<char> {
    label + body + seq!['\n']
}

/// Lines for the extra facts, in order.
pub open spec fn extra_lines(extra: Seq<Seq<char>>) -> Seq<char>
    decreases extra.len(),
{
    if extra.len() == 0 {
        Seq::empty()
    } else {
        extra_lines(extra.drop_last()) + prompt_line("【补充事实】"@, extra.last())
    }
}

/// The user prompt for `f` and extra facts: side, move, grade, then the
/// tactics, opening and suggestion where present, then each extra fact,
/// then the request. Only structured facts go in, never the board.
pub open spec fn prompt_text(f: PromptFacts, extra: Seq<Seq<char>>) -> Seq<char> {
    "【局面】"@ + (if f.side == Color::Red {
        "红方走子\n"@
    } else {
        "黑方走子\n"@
    }) + prompt_line("【着法】"@, f.notation@) + "【评价】"@ + level_text(f.level) + "（分差 "@
        + signed_decimal(f.score_loss as int) + " 厘兵）\n"@ + (if f.tactic_names@.len() > 0 {
        prompt_line("【战术】"@, joined(string_views(f.tactic_names@), "、"@))
    } else {
        Seq::empty()
    }) + (match f.opening_name {
        Some(o) => prompt_line("【开局】"@, o@),
        None => Seq::empty(),
    }) + (match f.suggestion {
        Some(g) => prompt_line("【引擎分析】"@, g@),
        None => Seq::empty(),
    }) + extra_lines(extra) + "\n请改写为教练点评。"@
}

/// Appends a labelled line.
fn push_line(s: &mut String, label: &str, body: &str)
    ensures
        final(s)@ == old(s)@ + prompt_line(label@, body@),
{
    push_str(s, label);
    push_str(s, body);
    push_char(s, '\n');
    assert(final(s)@ =~= old(s)@ + prompt_line(label@, body@));
}

/// Appends `v` joined with `sep`.
pub(crate) fn push_joined(s: &mut String, v: &Vec<String>, sep: &str)
    ensures
        final(s)@ == old(s)@ + joined(string_views(v@), sep@),
{
    let ghost head = s@;
    let ghost vs = string_views(v@);
    let mut i: usize = 0;
    while i < v.len()
        invariant
            i <= v@.len(),
            vs == string_views(v@),
            s@ == head + joined(vs.take(i as int), sep@),
        decreases v@.len() - i,
    {
        if i > 0 {
            push_str(s, sep);
        }
        push_str(s, v[i].as_str());
        proof {
            let t = vs.take(i + 1);
            assert(t.drop_last() =~= vs.take(i as int));
            if i == 0 {
                assert(joined(vs.take(0), sep@) =~= Seq::<char>::empty());
            }
            assert(s@ =~= head + joined(t, sep@));
        }
        i += 1;
    }
    assert(vs.take(v@.len() as int) =~= vs);
}

/// Appends the decimal text of `n`, with a minus sign when negative.
pub(crate) fn push_signed(s: &mut String, n: i32)
    ensures
        final(s)@ == old(s)@ + signed_decimal(n as int),
{
    if n < 0 {
        push_char(s, '-');
        let m: i64 = -(n as i64);
        push_number(s, m as u64);
        assert(final(s)@ =~= old(s)@ + signed_decimal(n as int));
    } else {
        push_number(s, n as u64);
    }
}

/// Builds the user prompt; see [`prompt_text`].
pub fn user_prompt(facts: &PromptFacts, extra: &Vec<String>) -> (r: String)
    ensures
        r@ == prompt_text(*facts, string_views(extra@)),
{
    let mut out = owned("【局面】");
    match facts.side {
        Color::Red => push_str(&mut out, "红方走子\n"),
        Color::Black => push_str(&mut out, "黑方走子\n"),
    }
    push_line(&mut out, "【着法】", facts.notation.as_str());
    push_str(&mut out, "【评价】");
    push_str(&mut out, facts.level.label());
    push_str(&mut out, "（分差 ");
    push_signed(&mut out, facts.score_loss);
    push_str(&mut out, " 厘兵）\n");
    let ghost a = out@;
    if facts.tactic_names.len() > 0 {
        push_str(&mut out, "【战术】");
        push_joined(&mut out, &facts.tactic_names, "、");
        push_char(&mut out, '\n');
    } else {
        assert(out@ =~= a + Seq::<char>::empty());
    }
    let ghost b = out@;
    match &facts.opening_name {
        Some(o) => push_line(&mut out, "【开局】", o.as_str()),
        None => {
            assert(out@ =~= b + Seq::<char>::empty());
        },
    }
    let ghost c = out@;
    match &facts.suggestion {
        Some(g) => push_line(&mut out, "【引擎分析】", g.as_str()),
        None => {
            assert(out@ =~= c + Seq::<char>::empty());
        },
    }
    let ghost d = out@;
    let ghost xs = string_views(extra@);
    let mut i: usize = 0;
    while i < extra.len()
        invariant
            i <= extra@.len(),
            xs == string_views(extra@),
            out@ == d + extra_lines(xs.take(i as int)),
        decreases extra@.len() - i,
    {
        push_line(&mut out, "【补充事实】", extra[i].as_str());
        proof {
            assert(xs.take(i + 1).drop_last() =~= xs.take(i as int));
        }
        i += 1;
        assert(out@ =~= d + extra_lines(xs.take(i as int)));
    }
    assert(xs.take(extra@.len() as int) =~= xs);
    push_str(&mut out, "\n请改写为教练点评。");
    proof {
        let f = *facts;
        assert(out@ =~= prompt_text(f, xs));
    }
    out
}

/// The rewrite to show instead of the local detail: the text without its
/// outer white space, when it passes [`validate_output`]; otherwise none,
/// and the local commentary stays.
pub fn accepted_rewrite(text: &str, facts: &FactSet) -> (r: Option<String>)
    ensures
        match r {
            Some(t) => verdict_ok(text@, facts@, Ok(())) && t@ == trim(text@),
            None => !verdict_ok(text@, facts@, Ok(())),
        },
{
    match validate_output(text, facts) {
        Ok(()) => {
            let cs = chars_of(text);
            Some(string_of(&trimmed(&cs)))
        },
        Err(_) => None,
    }
}

} // verus!
