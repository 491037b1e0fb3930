//! Rule matching over the lexeme (token) stream.
//!
//! Single `match` rules scan tokens; `sequence` rules run over the whole stream or
//! over each `{}` block (paired via the lexer's `jmp` links).

use vstd::prelude::*;
use vstd::std_specs::hash::*;

use crate::compile::concat;
use crate::event::{token_element, ElementModel, EventKind};
use crate::number::{decimal_denotes_itself, whole};
use crate::outside::{regex_accepts, regex_is_match, set_is_match};
use crate::rules::{
    any_glob,
    clause_holds,
    covers_language,
    covers_path,
    kind_fits,
    pred_attr,
    pred_holds,
    preds_hold,
    AttrPred,
    ClauseMatcher,
    ClauseModel,
    CompiledRule,
    CompiledSequence,
    CompiledWhereScope,
    PredModel,
    RuleModel,
    SequenceModel,
    WhereModel,
};
use crate::schema::Severity;
use crate::sequence::{anchors_of, elements, link_models, match_sequence, positions};
use crate::text::{copy_text, decimal, decimal_of, list_has, opt_text, same, texts, views};
use crate::token::{
    field_of,
    field_texts,
    token_field,
    token_model,
    token_span,
    Interner,
    Span,
    StreamModel,
    Token,
    TokenField,
    TokenModel,
    TokenRef,
    TokenStream,
    NO_JMP,
};
use std::collections::HashSet;

verus! {

// ---------------------------------------------------------------------------
// Escape hatches
// ---------------------------------------------------------------------------

/// A structured waiver: a file-scoped exception for one rule.
#[derive(Debug)]
pub struct WaiverRecord {
    pub rule: String,
    pub file: String,
}

/// A decision record: a repository-wide decision, matched by topic.
#[derive(Debug)]
pub struct AdrRecord {
    pub topic: String,
    pub accepted: bool,
}

/// The escape-hatch context consulted by `unless` guards.
#[derive(Debug)]
pub struct MatchContext {
    pub waivers: Vec<WaiverRecord>,
    pub adrs: Vec<AdrRecord>,
}

/// The model of [`MatchContext`]: rule and file of each waiver, topic and
/// acceptance of each decision.
pub struct ContextModel {
    pub waivers: Seq<(Seq<char>, Seq<char>)>,
    pub adrs: Seq<(Seq<char>, bool)>,
}

impl View for MatchContext {
    type V = ContextModel;

    open spec fn view(&self) -> ContextModel {
        ContextModel {
            waivers: self.waivers@.map_values(|w: WaiverRecord| (w.rule@, w.file@)),
            adrs: self.adrs@.map_values(|a: AdrRecord| (a.topic@, a.accepted)),
        }
    }
}

impl Default for MatchContext {
    fn default() -> (r: Self)
        ensures
            r@.waivers == Seq::<(Seq<char>, Seq<char>)>::empty(),
            r@.adrs == Seq::<(Seq<char>, bool)>::empty(),
    {
        let r = MatchContext { waivers: Vec::new(), adrs: Vec::new() };
        assert(r@.waivers =~= Seq::<(Seq<char>, Seq<char>)>::empty());
        assert(r@.adrs =~= Seq::<(Seq<char>, bool)>::empty());
        r
    }
}

/// Whether a waiver covers a rule in a file.
pub open spec fn waived(ctx: ContextModel, rule: Seq<char>, file: Seq<char>) -> bool {
    ctx.waivers.contains((rule, file))
}

/// Whether a decision on a topic is accepted.
pub open spec fn decided(ctx: ContextModel, topic: Seq<char>) -> bool {
    ctx.adrs.contains((topic, true))
}

impl MatchContext {
    /// Whether a structured waiver covers `rule` at `file`.
    pub fn waiver_covers(&self, rule: &str, file: &str) -> (r: bool)
        ensures
            r == waived(self@, rule@, file@),
    {
        let ghost list = self@.waivers;
        let mut i: usize = 0;
        while i < self.waivers.len()
            invariant
                i <= self.waivers@.len(),
                list == self@.waivers,
                forall|k: int| 0 <= k < i ==> #[trigger] list[k] != (rule@, file@),
            decreases self.waivers@.len() - i,
        {
            assert(list[i as int] == (self.waivers@[i as int].rule@, self.waivers@[i as int].file@));
            if same(self.waivers[i].rule.as_str(), rule) && same(self.waivers[i].file.as_str(), file) {
                return true;
            }
            i += 1;
        }
        false
    }

    /// Whether a decision on a topic is accepted.
    pub fn adr_accepts(&self, topic: &str) -> (r: bool)
        ensures
            r == decided(self@, topic@),
    {
        let ghost list = self@.adrs;
        let mut i: usize = 0;
        while i < self.adrs.len()
            invariant
                i <= self.adrs@.len(),
                list == self@.adrs,
                forall|k: int| 0 <= k < i ==> #[trigger] list[k] != (topic@, true),
            decreases self.adrs@.len() - i,
        {
            assert(list[i as int] == (self.adrs@[i as int].topic@, self.adrs@[i as int].accepted));
            if self.adrs[i].accepted && same(self.adrs[i].topic.as_str(), topic) {
                return true;
            }
            i += 1;
        }
        false
    }
}

/// Whether a rule's `unless` guards exempt a file: by path, by a waiver, or by an
/// accepted decision.
pub open spec fn exempted(rule: RuleModel, file: Seq<char>, ctx: ContextModel) -> bool {
    match rule.unless {
        None => false,
        Some(u) => {
            ||| match u.path_matches {
                Some(globs) => any_glob(globs, file),
                None => false,
            }
            ||| match u.waiver_rule {
                Some(id) => waived(ctx, id, file),
                None => false,
            }
            ||| match u.adr_topic {
                Some(topic) => decided(ctx, topic),
                None => false,
            }
        },
    }
}

/// Whether a rule says nothing about a file: a waiver covers it there, or a guard
/// exempts the file.
pub open spec fn silenced(rule: RuleModel, file: Seq<char>, ctx: ContextModel) -> bool {
    waived(ctx, rule.id, file) || exempted(rule, file, ctx)
}

/// Whether guards exempt a file, given what each says of it, where it is there: one
/// that holds is enough.
pub fn guard_verdict(path: Option<bool>, waiver: Option<bool>, decision: Option<bool>) -> (r: bool)
    ensures
        r == (path == Some(true) || waiver == Some(true) || decision == Some(true)),
{
    let by_path = match path {
        Some(b) => b,
        None => false,
    };
    let by_waiver = match waiver {
        Some(b) => b,
        None => false,
    };
    let by_decision = match decision {
        Some(b) => b,
        None => false,
    };
    by_path || by_waiver || by_decision
}

fn suppressed(rule: &CompiledRule, file: &str, ctx: &MatchContext) -> (r: bool)
    ensures
        r == exempted(rule@, file@, ctx@),
{
    match &rule.unless {
        None => false,
        Some(unless) => {
            let path = match &unless.path_matches {
                Some(globs) => Some(set_is_match(globs, file)),
                None => None,
            };
            let waiver = match &unless.waiver_rule {
                Some(id) => Some(ctx.waiver_covers(id.as_str(), file)),
                None => None,
            };
            let decision = match &unless.adr_topic {
                Some(topic) => Some(ctx.adr_accepts(topic.as_str())),
                None => None,
            };
            guard_verdict(path, waiver, decision)
        },
    }
}

/// Whether a rule says nothing about a file.
pub fn is_silenced(rule: &CompiledRule, file: &str, ctx: &MatchContext) -> (r: bool)
    ensures
        r == silenced(rule@, file@, ctx@),
{
    ctx.waiver_covers(rule.id.as_str(), file) || suppressed(rule, file, ctx)
}

// ---------------------------------------------------------------------------
// Violations
// ---------------------------------------------------------------------------

/// The lexeme a violation matched, for reporting.
#[derive(Debug)]
pub struct Matched {
    pub node_kind: String,
    pub class: String,
    pub text: String,
    pub named: bool,
    pub function: String,
}

/// A place at which a rule is violated.
#[derive(Debug)]
pub struct Violation {
    pub rule_id: String,
    pub severity: Severity,
    pub description: Option<String>,
    pub message: Option<String>,
    pub file: String,
    pub span: Span,
    pub matched: Matched,
}

/// The model of [`Matched`].
pub struct MatchedModel {
    pub node_kind: Seq<char>,
    pub class: Seq<char>,
    pub text: Seq<char>,
    pub named: bool,
    pub function: Seq<char>,
}

/// The model of [`Violation`].
pub struct ViolationModel {
    pub rule_id: Seq<char>,
    pub severity: Severity,
    pub description: Option<Seq<char>>,
    pub message: Option<Seq<char>>,
    pub file: Seq<char>,
    pub span: Span,
    pub matched: MatchedModel,
}

impl View for Matched {
    type V = MatchedModel;

    open spec fn view(&self) -> MatchedModel {
        MatchedModel {
            node_kind: self.node_kind@,
            class: self.class@,
            text: self.text@,
            named: self.named,
            function: self.function@,
        }
    }
}

impl View for Violation {
    type V = ViolationModel;

    open spec fn view(&self) -> ViolationModel {
        ViolationModel {
            rule_id: self.rule_id@,
            severity: self.severity,
            description: opt_text(self.description),
            message: opt_text(self.message),
            file: self.file@,
            span: self.span,
            matched: self.matched@,
        }
    }
}

/// What is reported of a token.
pub open spec fn matched_of(t: TokenModel) -> MatchedModel {
    MatchedModel {
        node_kind: t.kind,
        class: t.class,
        text: t.text,
        named: t.token.named,
        function: t.func,
    }
}

/// A violation of a rule at some place.
pub open spec fn violation(
    rule: RuleModel,
    file: Seq<char>,
    span: Span,
    matched: MatchedModel,
) -> ViolationModel {
    ViolationModel {
        rule_id: rule.id,
        severity: rule.severity,
        description: rule.description,
        message: rule.message,
        file,
        span,
        matched,
    }
}

/// The violation of a rule at a token.
pub open spec fn violation_at(rule: RuleModel, file: Seq<char>, t: TokenModel) -> ViolationModel {
    violation(rule, file, token_span(t.token), matched_of(t))
}

fn violation_from_token(rule: &CompiledRule, ts: &TokenStream, token: &Token) -> (r: Violation)
    ensures
        r@ == violation_at(rule@, ts.file@, token_model(*token, ts.interner@)),
{
    Violation {
        rule_id: rule.id.clone(),
        severity: rule.severity,
        description: copy_text(&rule.description),
        message: copy_text(&rule.message),
        file: ts.file.clone(),
        span: ts.span_of(token),
        matched: Matched {
            node_kind: ts.interner.resolve(token.kind).to_owned(),
            class: ts.interner.resolve(token.class).to_owned(),
            text: ts.interner.resolve(token.text).to_owned(),
            named: token.named,
            function: ts.interner.resolve(token.func).to_owned(),
        },
    }
}

// ---------------------------------------------------------------------------
// Single tokens
// ---------------------------------------------------------------------------

fn list_has_text(list: &Vec<String>, s: &str) -> (r: bool)
    ensures
        r == texts(list@).contains(s@),
{
    list_has(list.as_slice(), s)
}

/// Whether a predicate holds of a token. This reads the field without copying it,
/// and agrees with evaluating the predicate on the field's string forms where
/// nothing is captured.
pub fn token_pred(pred: &AttrPred, token: &Token, it: &Interner) -> (r: bool)
    ensures
        r == pred_holds(
            pred@,
            field_texts(field_of(token_model(*token, it@), pred_attr(pred@))),
            Seq::empty(),
        ),
{
    let field = token_field(token, pred.attr_name(), it);
    let ghost model = field_of(token_model(*token, it@), pred_attr(pred@));
    let ghost forms = field_texts(model);
    match field {
        Some(TokenField::Str(s)) => {
            assert(forms =~= seq![s@]);
            assert(forms[0] == s@);
            match pred {
                AttrPred::Eq { value, .. } => same(s, value.as_str()),
                AttrPred::AnyOf { values, .. } => list_has_text(values, s),
                AttrPred::Regex { re, .. } => regex_is_match(re, s),
                AttrPred::NotRegex { re, .. } => !regex_is_match(re, s),
                AttrPred::Cmp { op, n, .. } => match crate::number::parse_number(s) {
                    Some(x) => op.test(x, *n),
                    None => false,
                },
                AttrPred::EqRef { .. } => false,
                AttrPred::NeRef { .. } => false,
            }
        },
        Some(TokenField::Num(x)) => {
            assert(forms =~= seq![decimal_of(x as nat)]);
            assert(forms[0] == decimal_of(x as nat));
            match pred {
                AttrPred::Cmp { op, n, .. } => {
                    proof {
                        decimal_denotes_itself(x as nat);
                    }
                    op.test(whole(x), *n)
                },
                _ => {
                    let d = decimal(x as u128);
                    match pred {
                        AttrPred::Eq { value, .. } => same(d.as_str(), value.as_str()),
                        AttrPred::AnyOf { values, .. } => list_has_text(values, d.as_str()),
                        AttrPred::Regex { re, .. } => regex_is_match(re, d.as_str()),
                        AttrPred::NotRegex { re, .. } => !regex_is_match(re, d.as_str()),
                        _ => false,
                    }
                },
            }
        },
        None => {
            assert(forms =~= Seq::<Seq<char>>::empty());
            match pred {
                AttrPred::NotRegex { .. } => true,
                _ => false,
            }
        },
    }
}

/// Whether a token matches a single pattern.
pub open spec fn token_fits(kind: Option<EventKind>, preds: Seq<PredModel>, t: TokenModel) -> bool {
    kind_fits(kind, token_element(t)) && preds_hold(preds, token_element(t), Seq::empty())
}

/// Whether a token matches a single pattern.
pub fn token_matches(
    kind: Option<EventKind>,
    preds: &Vec<AttrPred>,
    token: &Token,
    it: &Interner,
) -> (r: bool)
    ensures
        r == token_fits(kind, views(preds@), token_model(*token, it@)),
{
    if let Some(k) = kind {
        if k != EventKind::Token {
            return false;
        }
    }
    let ghost models = views(preds@);
    let ghost e = token_element(token_model(*token, it@));
    let mut i: usize = 0;
    while i < preds.len()
        invariant
            i <= preds@.len(),
            models == views(preds@),
            e == token_element(token_model(*token, it@)),
            kind_fits(kind, e),
            forall|k: int|
                0 <= k < i ==> pred_holds(
                    #[trigger] models[k],
                    (e.fields)(pred_attr(models[k])),
                    Seq::empty(),
                ),
        decreases preds@.len() - i,
    {
        assert(models[i as int] == preds@[i as int]@);
        if !token_pred(&preds[i], token, it) {
            return false;
        }
        i += 1;
    }
    true
}

// ---------------------------------------------------------------------------
// Blocks
// ---------------------------------------------------------------------------

/// Whether a token opens a `{}` block.
pub open spec fn opens(t: TokenModel) -> bool {
    t.kind == "{"@ && t.token.jmp != NO_JMP
}

/// The blocks of a stream: for each `{` the tokens strictly between it and the `}`
/// that it is linked to, as a start and an end position.
pub open spec fn blocks(tokens: Seq<TokenModel>) -> Seq<(int, int)> {
    positions(
        tokens.len() as int,
        |i: int| opens(tokens[i]) && i < tokens[i].token.jmp <= tokens.len(),
    ).map_values(|i: int| (i + 1, tokens[i].token.jmp as int))
}

/// The innermost `{` before `n` whose block holds position `i`.
pub open spec fn opener(tokens: Seq<TokenModel>, i: int, n: int) -> Option<int>
    decreases n,
{
    if n <= 0 {
        None
    } else if opens(tokens[n - 1]) && i < tokens[n - 1].token.jmp {
        Some(n - 1)
    } else {
        opener(tokens, i, n - 1)
    }
}

/// Whether position `k` lies in the innermost block around position `i`, which is
/// the whole stream where no block is around it, and is not `i` itself.
pub open spec fn in_scope(tokens: Seq<TokenModel>, i: int, k: int) -> bool {
    k != i && match opener(tokens, i, i) {
        Some(o) => o < k < tokens[o].token.jmp,
        None => true,
    }
}

/// Whether a clause's pattern matches a token in scope, where only those after
/// position `i` count if asked for.
pub open spec fn scope_has(c: ClauseModel, tokens: Seq<TokenModel>, i: int, after: bool) -> bool {
    exists|k: int|
        0 <= k < tokens.len() && (after ==> i < k) && in_scope(tokens, i, k) && clause_holds(
            c,
            token_element(#[trigger] tokens[k]),
        )
}

/// Whether each clause of a list finds what it asks for in scope (or nothing, where
/// that is wanted).
pub open spec fn clauses_hold(
    cs: Seq<ClauseModel>,
    tokens: Seq<TokenModel>,
    i: int,
    after: bool,
    want: bool,
) -> bool {
    forall|c: int| 0 <= c < cs.len() ==> scope_has(#[trigger] cs[c], tokens, i, after) == want
}

/// Whether all scope clauses hold of the token at position `i`: each `contains` finds a
/// token in scope, each `not contains` none, and each `followed by` a later one.
pub open spec fn scope_holds(w: WhereModel, tokens: Seq<TokenModel>, i: int) -> bool {
    &&& clauses_hold(w.contains, tokens, i, false, true)
    &&& clauses_hold(w.not_contains, tokens, i, false, false)
    &&& clauses_hold(w.followed_by, tokens, i, true, true)
}

/// The tokens behind references.
pub open spec fn ref_models(refs: Seq<TokenRef<'_>>) -> Seq<TokenModel> {
    refs.map_values(|r: TokenRef<'_>| r@)
}

fn token_refs<'a>(ts: &'a TokenStream) -> (r: Vec<TokenRef<'a>>)
    ensures
        ref_models(r@) == ts@.tokens,
        forall|i: int|
            0 <= i < r@.len() ==> *(#[trigger] r@[i]).token == ts.tokens@[i] && r@[i].interner@
                == ts.interner@,
{
    let mut out: Vec<TokenRef<'a>> = Vec::new();
    let mut i: usize = 0;
    while i < ts.tokens.len()
        invariant
            i <= ts.tokens@.len(),
            out@.len() == i,
            forall|k: int|
                0 <= k < i ==> *(#[trigger] out@[k]).token == ts.tokens@[k] && out@[k].interner@
                    == ts.interner@,
        decreases ts.tokens@.len() - i,
    {
        out.push(TokenRef { token: &ts.tokens[i], interner: &ts.interner });
        i += 1;
    }
    assert(ref_models(out@) =~= ts@.tokens);
    out
}

fn is_opener(r: &TokenRef<'_>) -> (b: bool)
    ensures
        b == opens(r@),
{
    same(r.interner.resolve(r.token.kind), "{") && r.token.jmp != NO_JMP
}

fn find_opener(refs: &Vec<TokenRef<'_>>, target: usize) -> (r: Option<usize>)
    requires
        target < refs@.len(),
    ensures
        match r {
            Some(o) => opener(ref_models(refs@), target as int, target as int) == Some(o as int) && o
                < target,
            None => opener(ref_models(refs@), target as int, target as int) is None,
        },
{
    let ghost tokens = ref_models(refs@);
    let mut n: usize = target;
    while n > 0
        invariant
            n <= target < refs@.len(),
            tokens == ref_models(refs@),
            opener(tokens, target as int, target as int) == opener(tokens, target as int, n as int),
        decreases n,
    {
        n -= 1;
        assert(tokens[n as int] == refs@[n as int]@);
        if is_opener(&refs[n]) && target < refs[n].token.jmp as usize {
            return Some(n);
        }
    }
    None
}

fn any_in_scope(c: &ClauseMatcher, refs: &Vec<TokenRef<'_>>, target: usize, after: bool) -> (r: bool)
    requires
        target < refs@.len(),
    ensures
        r == scope_has(c@, ref_models(refs@), target as int, after),
{
    let ghost tokens = ref_models(refs@);
    let opened = find_opener(refs, target);
    let mut k: usize = if after {
        target
    } else {
        0
    };
    while k < refs.len()
        invariant
            k <= refs@.len(),
            after ==> target <= k,
            target < refs@.len(),
            tokens == ref_models(refs@),
            match opened {
                Some(o) => opener(tokens, target as int, target as int) == Some(o as int) && o
                    < target,
                None => opener(tokens, target as int, target as int) is None,
            },
            forall|j: int|
                0 <= j < k && (after ==> target < j) ==> !(in_scope(tokens, target as int, j)
                    && clause_holds(c@, token_element(#[trigger] tokens[j]))),
        decreases refs@.len() - k,
    {
        assert(tokens[k as int] == refs@[k as int]@);
        let inside = match opened {
            Some(o) => {
                assert(tokens[o as int] == refs@[o as int]@);
                o < k && k < refs[o].token.jmp as usize
            },
            None => true,
        };
        if k != target && inside && c.matches(&refs[k]) {
            return true;
        }
        k += 1;
    }
    false
}

// Whether each clause of a list matches (or does not match) a token in scope.
fn clauses_agree(
    cs: &Vec<ClauseMatcher>,
    refs: &Vec<TokenRef<'_>>,
    target: usize,
    after: bool,
    want: bool,
) -> (r: bool)
    requires
        target < refs@.len(),
    ensures
        r == clauses_hold(views(cs@), ref_models(refs@), target as int, after, want),
{
    let ghost models = views(cs@);
    let mut i: usize = 0;
    while i < cs.len()
        invariant
            i <= cs@.len(),
            target < refs@.len(),
            models == views(cs@),
            forall|c: int|
                0 <= c < i ==> scope_has(
                    #[trigger] models[c],
                    ref_models(refs@),
                    target as int,
                    after,
                ) == want,
        decreases cs@.len() - i,
    {
        assert(models[i as int] == cs@[i as int]@);
        if any_in_scope(&cs[i], refs, target, after) != want {
            return false;
        }
        i += 1;
    }
    true
}

fn where_scope_holds(ws: &CompiledWhereScope, refs: &Vec<TokenRef<'_>>, target: usize) -> (r: bool)
    requires
        target < refs@.len(),
    ensures
        r == scope_holds(ws@, ref_models(refs@), target as int),
{
    clauses_agree(&ws.contains, refs, target, false, true) && clauses_agree(
        &ws.not_contains,
        refs,
        target,
        false,
        false,
    ) && clauses_agree(&ws.followed_by, refs, target, true, true)
}

fn scope_regions(refs: &Vec<TokenRef<'_>>) -> (r: Vec<(usize, usize)>)
    ensures
        r@.map_values(|p: (usize, usize)| (p.0 as int, p.1 as int)) == blocks(ref_models(refs@)),
        forall|i: int| 0 <= i < r@.len() ==> (#[trigger] r@[i]).0 <= r@[i].1 <= refs@.len(),
{
    let ghost tokens = ref_models(refs@);
    let ghost f = |i: int| opens(tokens[i]) && i < tokens[i].token.jmp <= tokens.len();
    let ghost g = |i: int| (i + 1, tokens[i].token.jmp as int);
    let mut out: Vec<(usize, usize)> = Vec::new();
    let mut i: usize = 0;
    assert(out@.map_values(|p: (usize, usize)| (p.0 as int, p.1 as int)) =~= positions(0, f).map_values(
        g,
    ));
    while i < refs.len()
        invariant
            i <= refs@.len(),
            tokens == ref_models(refs@),
            f == (|i: int| opens(tokens[i]) && i < tokens[i].token.jmp <= tokens.len()),
            g == (|i: int| (i + 1, tokens[i].token.jmp as int)),
            out@.map_values(|p: (usize, usize)| (p.0 as int, p.1 as int)) == positions(
                i as int,
                f,
            ).map_values(g),
            forall|k: int| 0 <= k < out@.len() ==> (#[trigger] out@[k]).0 <= out@[k].1 <= refs@.len(),
        decreases refs@.len() - i,
    {
        assert(tokens[i as int] == refs@[i as int]@);
        let ghost before = out@;
        if is_opener(&refs[i]) {
            let j: usize = refs[i].token.jmp as usize;
            if j > i && j <= refs.len() {
                out.push((i + 1, j));
                assert(positions(i + 1, f) == positions(i as int, f).push(i as int));
                assert(out@.map_values(|p: (usize, usize)| (p.0 as int, p.1 as int))
                    =~= before.map_values(|p: (usize, usize)| (p.0 as int, p.1 as int)).push(
                    (i + 1, j as int),
                ));
                assert(positions(i as int, f).push(i as int).map_values(g) =~= positions(
                    i as int,
                    f,
                ).map_values(g).push(g(i as int)));
            }
        }
        i += 1;
    }
    out
}

// ---------------------------------------------------------------------------
// Matches of one rule in one stream
// ---------------------------------------------------------------------------

/// What patterns see of tokens.
pub open spec fn token_elements(tokens: Seq<TokenModel>) -> Seq<ElementModel> {
    tokens.map_values(|t: TokenModel| token_element(t))
}

/// Where each token of a region links to within the region.
pub open spec fn region_links(tokens: Seq<TokenModel>, lo: int, hi: int) -> Seq<Option<int>> {
    Seq::new(
        (hi - lo) as nat,
        |i: int|
            {
                let j = tokens[lo + i].token.jmp;
                if j != NO_JMP && lo <= j < hi {
                    Some(j - lo)
                } else {
                    None
                }
            },
    )
}

/// The tokens of a region at which a sequence matches.
pub open spec fn region_hits(s: SequenceModel, tokens: Seq<TokenModel>, region: (int, int)) -> Seq<
    TokenModel,
> {
    anchors_of(
        s,
        token_elements(tokens.subrange(region.0, region.1)),
        region_links(tokens, region.0, region.1),
    ).map_values(|p: int| tokens[region.0 + p])
}

/// Whether one of several tokens starts at a byte.
pub open spec fn starts_at(ts: Seq<TokenModel>, byte: u32) -> bool {
    exists|i: int| 0 <= i < ts.len() && (#[trigger] ts[i]).token.start_byte == byte
}

/// The tokens of a list without those that start where an earlier one does.
pub open spec fn distinct_starts(ts: Seq<TokenModel>) -> Seq<TokenModel>
    decreases ts.len(),
{
    if ts.len() == 0 {
        Seq::empty()
    } else if starts_at(ts.drop_last(), ts.last().token.start_byte) {
        distinct_starts(ts.drop_last())
    } else {
        distinct_starts(ts.drop_last()).push(ts.last())
    }
}

/// The tokens at which a sequence matches, in each block or in the whole stream. A
/// token inside several nested blocks is reported at most once.
pub open spec fn sequence_hits(s: SequenceModel, tokens: Seq<TokenModel>) -> Seq<TokenModel> {
    if s.within_scope {
        distinct_starts(
            concat(blocks(tokens).map_values(|b: (int, int)| region_hits(s, tokens, b))),
        )
    } else {
        distinct_starts(region_hits(s, tokens, (0, tokens.len() as int)))
    }
}

/// The tokens at given positions.
pub open spec fn tokens_at(tokens: Seq<TokenModel>, at: Seq<int>) -> Seq<TokenModel> {
    at.map_values(|i: int| tokens[i])
}

/// Whether a single pattern with its scope clauses matches at a position.
pub open spec fn match_at(r: RuleModel, tokens: Seq<TokenModel>, i: int) -> bool {
    token_fits(r.event, r.preds, tokens[i]) && match r.where_scope {
        Some(w) => scope_holds(w, tokens, i),
        None => true,
    }
}

/// The tokens at which a single pattern with its scope clauses matches.
pub open spec fn match_hits(r: RuleModel, tokens: Seq<TokenModel>) -> Seq<TokenModel> {
    tokens_at(tokens, positions(tokens.len() as int, |i: int| match_at(r, tokens, i)))
}

/// The tokens at which a rule matches in a stream.
pub open spec fn rule_hits(r: RuleModel, tokens: Seq<TokenModel>) -> Seq<TokenModel> {
    match r.sequence {
        Some(s) => sequence_hits(s, tokens),
        None => match_hits(r, tokens),
    }
}

/// Whether a rule is asked about a stream: the language and the path are in its
/// scope, and nothing silences it there.
pub open spec fn applies(r: RuleModel, s: StreamModel, ctx: ContextModel) -> bool {
    covers_language(r, s.language) && covers_path(r, s.file) && !silenced(r, s.file, ctx)
}

/// The violations of a rule in one stream.
pub open spec fn stream_violations(r: RuleModel, s: StreamModel, ctx: ContextModel) -> Seq<
    ViolationModel,
> {
    if applies(r, s, ctx) {
        rule_hits(r, s.tokens).map_values(|t: TokenModel| violation_at(r, s.file, t))
    } else {
        Seq::empty()
    }
}

/// The violations of a rule in several streams, stream by stream.
pub open spec fn rule_violations(r: RuleModel, streams: Seq<StreamModel>, ctx: ContextModel) -> Seq<
    ViolationModel,
> {
    concat(streams.map_values(|s: StreamModel| stream_violations(r, s, ctx)))
}

/// Token positions as tokens.
pub open spec fn indexed(tokens: Seq<TokenModel>, at: Seq<usize>) -> Seq<TokenModel> {
    at.map_values(|i: usize| tokens[i as int])
}

fn find_links(refs: &Vec<TokenRef<'_>>, lo: usize, hi: usize) -> (r: Vec<Option<usize>>)
    requires
        lo <= hi <= refs@.len(),
    ensures
        link_models(r@) == region_links(ref_models(refs@), lo as int, hi as int),
{
    let ghost tokens = ref_models(refs@);
    let ghost all = region_links(tokens, lo as int, hi as int);
    let mut out: Vec<Option<usize>> = Vec::new();
    let mut i: usize = lo;
    while i < hi
        invariant
            lo <= i <= hi <= refs@.len(),
            tokens == ref_models(refs@),
            all == region_links(tokens, lo as int, hi as int),
            out@.len() == i - lo,
            forall|k: int| 0 <= k < out@.len() ==> link_models(out@)[k] == #[trigger] all[k],
        decreases hi - i,
    {
        let ghost before = out@;
        assert(tokens[i as int] == refs@[i as int]@);
        let jmp: u32 = refs[i].token.jmp;
        let j: usize = jmp as usize;
        if jmp != NO_JMP && lo <= j && j < hi {
            out.push(Some(j - lo));
        } else {
            out.push(None);
        }
        assert forall|k: int| 0 <= k < out@.len() implies link_models(out@)[k] == #[trigger] all[k] by {
            if k < before.len() {
                assert(link_models(before)[k] == all[k]);
                assert(out@[k] == before[k]);
            } else {
                assert(tokens[lo + k] == refs@[i as int]@);
            }
        }
        i += 1;
    }
    assert(link_models(out@) =~= all);
    out
}

fn find_in_region(
    seq: &CompiledSequence,
    refs: &Vec<TokenRef<'_>>,
    lo: usize,
    hi: usize,
) -> (r: Vec<usize>)
    requires
        lo <= hi <= refs@.len(),
        crate::rules::sequence_wf(seq@),
    ensures
        indexed(ref_models(refs@), r@) == region_hits(seq@, ref_models(refs@), (lo as int, hi as int)),
        forall|i: int| 0 <= i < r@.len() ==> #[trigger] r@[i] < refs@.len(),
{
    let ghost tokens = ref_models(refs@);
    let region = vstd::slice::slice_subrange(refs.as_slice(), lo, hi);
    let links = find_links(refs, lo, hi);
    let anchors = match_sequence(seq, region, &links);
    let ghost es = token_elements(tokens.subrange(lo as int, hi as int));
    let ghost ls = region_links(tokens, lo as int, hi as int);
    let ghost found = anchors_of(seq@, es, ls);
    proof {
        assert(elements(region@) =~= es);
        crate::sequence::every_occurrence_is_found(seq@, es, ls);
    }
    let n: usize = refs.len();
    let mut out: Vec<usize> = Vec::new();
    let mut i: usize = 0;
    while i < anchors.len()
        invariant
            i <= anchors@.len(),
            lo <= hi <= n,
            n == refs@.len(),
            tokens == ref_models(refs@),
            es.len() == hi - lo,
            found == anchors_of(seq@, es, ls),
            anchors@.map_values(|p: usize| p as int) == found,
            forall|p: int| #[trigger] found.contains(p) ==> 0 <= p < es.len(),
            out@.len() == i,
            forall|k: int| 0 <= k < i ==> #[trigger] out@[k] == lo + found[k],
            forall|k: int| 0 <= k < i ==> #[trigger] out@[k] < refs@.len(),
        decreases anchors@.len() - i,
    {
        assert(found[i as int] == anchors@[i as int]);
        assert(found.contains(found[i as int]));
        out.push(lo + anchors[i]);
        i += 1;
    }
    proof {
        assert(found.len() == anchors@.len());
        assert(indexed(tokens, out@) =~= region_hits(seq@, tokens, (lo as int, hi as int)));
    }
    out
}

fn find_in_regions(
    seq: &CompiledSequence,
    refs: &Vec<TokenRef<'_>>,
    regions: &Vec<(usize, usize)>,
) -> (r: Vec<usize>)
    requires
        forall|i: int|
            0 <= i < regions@.len() ==> (#[trigger] regions@[i]).0 <= regions@[i].1 <= refs@.len(),
        crate::rules::sequence_wf(seq@),
    ensures
        indexed(ref_models(refs@), r@) == concat(
            regions@.map_values(|p: (usize, usize)| (p.0 as int, p.1 as int)).map_values(
                |b: (int, int)| region_hits(seq@, ref_models(refs@), b),
            ),
        ),
        forall|i: int| 0 <= i < r@.len() ==> #[trigger] r@[i] < refs@.len(),
{
    let ghost tokens = ref_models(refs@);
    let ghost all = regions@.map_values(|p: (usize, usize)| (p.0 as int, p.1 as int)).map_values(
        |b: (int, int)| region_hits(seq@, tokens, b),
    );
    let mut out: Vec<usize> = Vec::new();
    let mut i: usize = 0;
    assert(all.take(0) =~= Seq::<Seq<TokenModel>>::empty());
    assert(indexed(tokens, out@) =~= Seq::<TokenModel>::empty());
    while i < regions.len()
        invariant
            i <= regions@.len(),
            tokens == ref_models(refs@),
            crate::rules::sequence_wf(seq@),
            forall|i: int|
                0 <= i < regions@.len() ==> (#[trigger] regions@[i]).0 <= regions@[i].1 <= refs@.len(),
            all == regions@.map_values(|p: (usize, usize)| (p.0 as int, p.1 as int)).map_values(
                |b: (int, int)| region_hits(seq@, tokens, b),
            ),
            indexed(tokens, out@) == concat(all.take(i as int)),
            forall|k: int| 0 <= k < out@.len() ==> #[trigger] out@[k] < refs@.len(),
        decreases regions@.len() - i,
    {
        let mut more = find_in_region(seq, refs, regions[i].0, regions[i].1);
        let ghost before = out@;
        let ghost added = more@;
        out.append(&mut more);
        proof {
            assert(all.take(i + 1).drop_last() =~= all.take(i as int));
            assert(all.take(i + 1).last() == indexed(tokens, added));
            assert(indexed(tokens, out@) =~= indexed(tokens, before) + indexed(tokens, added));
            assert forall|k: int| 0 <= k < out@.len() implies #[trigger] out@[k] < refs@.len() by {
                if k < before.len() {
                    assert(out@[k] == before[k]);
                } else {
                    assert(out@[k] == added[k - before.len()]);
                }
            }
        }
        i += 1;
    }
    assert(all.take(i as int) =~= all);
    out
}

fn keep_distinct(refs: &Vec<TokenRef<'_>>, hits: &Vec<usize>) -> (r: Vec<usize>)
    requires
        forall|i: int| 0 <= i < hits@.len() ==> #[trigger] hits@[i] < refs@.len(),
    ensures
        indexed(ref_models(refs@), r@) == distinct_starts(indexed(ref_models(refs@), hits@)),
        forall|i: int| 0 <= i < r@.len() ==> #[trigger] r@[i] < refs@.len(),
{
    broadcast use group_hash_axioms;

    let ghost tokens = ref_models(refs@);
    let ghost all = indexed(tokens, hits@);
    let mut seen: HashSet<u32> = HashSet::new();
    let mut out: Vec<usize> = Vec::new();
    let mut i: usize = 0;
    assert(all.take(0) =~= Seq::<TokenModel>::empty());
    assert(indexed(tokens, out@) =~= Seq::<TokenModel>::empty());
    while i < hits.len()
        invariant
            i <= hits@.len(),
            tokens == ref_models(refs@),
            all == indexed(tokens, hits@),
            forall|i: int| 0 <= i < hits@.len() ==> #[trigger] hits@[i] < refs@.len(),
            forall|b: u32| #[trigger] seen@.contains(b) <==> starts_at(all.take(i as int), b),
            indexed(tokens, out@) == distinct_starts(all.take(i as int)),
            forall|k: int| 0 <= k < out@.len() ==> #[trigger] out@[k] < refs@.len(),
        decreases hits@.len() - i,
    {
        let h: usize = hits[i];
        let b: u32 = refs[h].token.start_byte;
        let ghost before = all.take(i as int);
        let ghost next = all.take(i + 1);
        let ghost seen_before = seen@;
        let ghost out_before = out@;
        assert(next.drop_last() =~= before);
        assert(next.last() == refs@[h as int]@);
        assert(refs@[h as int]@.token.start_byte == b);
        let fresh = !seen.contains(&b);
        if fresh {
            seen.insert(b);
            out.push(h);
            assert(indexed(tokens, out@) =~= indexed(tokens, out_before).push(tokens[h as int]));
        }
        proof {
            assert forall|c: u32| #[trigger] seen@.contains(c) <==> starts_at(next, c) by {
                if starts_at(before, c) {
                    let k = choose|k: int|
                        0 <= k < before.len() && (#[trigger] before[k]).token.start_byte == c;
                    assert(next[k] == before[k]);
                }
                if starts_at(next, c) && c != b {
                    let k = choose|k: int|
                        0 <= k < next.len() && (#[trigger] next[k]).token.start_byte == c;
                    assert(before[k] == next[k]);
                }
                if c == b {
                    assert(next[i as int].token.start_byte == b);
                }
                assert(seen_before.contains(c) <==> starts_at(before, c));
            }
        }
        i += 1;
    }
    assert(all.take(i as int) =~= all);
    out
}

fn run_sequence(seq: &CompiledSequence, refs: &Vec<TokenRef<'_>>) -> (r: Vec<usize>)
    requires
        crate::rules::sequence_wf(seq@),
    ensures
        indexed(ref_models(refs@), r@) == sequence_hits(seq@, ref_models(refs@)),
        forall|i: int| 0 <= i < r@.len() ==> #[trigger] r@[i] < refs@.len(),
{
    let hits = if seq.within_scope {
        let regions = scope_regions(refs);
        find_in_regions(seq, refs, &regions)
    } else {
        find_in_region(seq, refs, 0, refs.len())
    };
    keep_distinct(refs, &hits)
}

fn run_match(rule: &CompiledRule, ts: &TokenStream, refs: &Vec<TokenRef<'_>>) -> (r: Vec<usize>)
    requires
        ref_models(refs@) == ts@.tokens,
    ensures
        indexed(ts@.tokens, r@) == match_hits(rule@, ts@.tokens),
        forall|i: int| 0 <= i < r@.len() ==> #[trigger] r@[i] < ts.tokens@.len(),
{
    let ghost tokens = ts@.tokens;
    let ghost f = |i: int| match_at(rule@, tokens, i);
    let mut out: Vec<usize> = Vec::new();
    let mut i: usize = 0;
    assert(indexed(tokens, out@) =~= tokens_at(tokens, positions(0, f)));
    while i < ts.tokens.len()
        invariant
            i <= ts.tokens@.len(),
            tokens == ts@.tokens,
            ref_models(refs@) == tokens,
            f == (|i: int| match_at(rule@, tokens, i)),
            indexed(tokens, out@) == tokens_at(tokens, positions(i as int, f)),
            forall|k: int| 0 <= k < out@.len() ==> #[trigger] out@[k] < ts.tokens@.len(),
        decreases ts.tokens@.len() - i,
    {
        assert(tokens[i as int] == token_model(ts.tokens@[i as int], ts.interner@));
        assert(refs@.len() == tokens.len());
        let mut hit = token_matches(rule.event, &rule.preds, &ts.tokens[i], &ts.interner);
        if hit {
            if let Some(w) = &rule.where_scope {
                hit = where_scope_holds(w, refs, i);
            }
        }
        assert(hit == f(i as int));
        let ghost before = out@;
        if hit {
            out.push(i);
            assert(indexed(tokens, out@) =~= indexed(tokens, before).push(tokens[i as int]));
            assert(tokens_at(tokens, positions(i as int, f).push(i as int)) =~= tokens_at(
                tokens,
                positions(i as int, f),
            ).push(tokens[i as int]));
        }
        i += 1;
    }
    out
}

fn run_stream(
    rule: &CompiledRule,
    ts: &TokenStream,
    ctx: &MatchContext,
    out: &mut Vec<Violation>,
)
    requires
        rule.wf(),
    ensures
        views(final(out)@) == views(old(out)@) + stream_violations(rule@, ts@, ctx@),
{
    let ghost first = views(out@);
    let file = ts.file.as_str();
    if !rule.applies_to_language(ts.language) || !rule.path_in_scope(file) || is_silenced(
        rule,
        file,
        ctx,
    ) {
        assert(first + Seq::<ViolationModel>::empty() =~= first);
        return ;
    }
    let refs = token_refs(ts);
    let hits = match &rule.sequence {
        Some(seq) => run_sequence(seq, &refs),
        None => run_match(rule, ts, &refs),
    };
    let ghost found = rule_hits(rule@, ts@.tokens);
    let ghost all = found.map_values(|t: TokenModel| violation_at(rule@, ts@.file, t));
    assert(indexed(ts@.tokens, hits@) == found);
    let mut i: usize = 0;
    assert(first + all.take(0) =~= first);
    while i < hits.len()
        invariant
            i <= hits@.len(),
            found == indexed(ts@.tokens, hits@),
            all == found.map_values(|t: TokenModel| violation_at(rule@, ts@.file, t)),
            forall|k: int| 0 <= k < hits@.len() ==> #[trigger] hits@[k] < ts.tokens@.len(),
            views(out@) == first + all.take(i as int),
        decreases hits@.len() - i,
    {
        let h: usize = hits[i];
        let v = violation_from_token(rule, ts, &ts.tokens[h]);
        assert(found[i as int] == ts@.tokens[h as int]);
        assert(v@ == all[i as int]);
        let ghost before = out@;
        out.push(v);
        assert(views(out@) =~= views(before).push(v@));
        assert(first + all.take(i + 1) =~= (first + all.take(i as int)).push(all[i as int]));
        i += 1;
    }
    assert(all.take(i as int) =~= all);
}

/// The models of several streams.
pub open spec fn stream_models(streams: Seq<TokenStream>) -> Seq<StreamModel> {
    streams.map_values(|s: TokenStream| s@)
}

/// Adds the violations of a rule in several streams.
pub fn run_rule(
    rule: &CompiledRule,
    streams: &[TokenStream],
    ctx: &MatchContext,
    out: &mut Vec<Violation>,
)
    requires
        rule.wf(),
    ensures
        views(final(out)@) == views(old(out)@) + rule_violations(
            rule@,
            stream_models(streams@),
            ctx@,
        ),
{
    let ghost first = views(out@);
    let ghost all = stream_models(streams@).map_values(
        |s: StreamModel| stream_violations(rule@, s, ctx@),
    );
    let mut i: usize = 0;
    assert(all.take(0) =~= Seq::<Seq<ViolationModel>>::empty());
    assert(first + concat(all.take(0)) =~= first);
    while i < streams.len()
        invariant
            i <= streams@.len(),
            rule.wf(),
            all == stream_models(streams@).map_values(
                |s: StreamModel| stream_violations(rule@, s, ctx@),
            ),
            views(out@) == first + concat(all.take(i as int)),
        decreases streams@.len() - i,
    {
        run_stream(rule, &streams[i], ctx, out);
        assert(all.take(i + 1).drop_last() =~= all.take(i as int));
        assert(all.take(i + 1).last() == stream_violations(rule@, streams@[i as int]@, ctx@));
        assert(first + concat(all.take(i + 1)) =~= first + concat(all.take(i as int))
            + stream_violations(rule@, streams@[i as int]@, ctx@));
        i += 1;
    }
    assert(all.take(i as int) =~= all);
}

/// The block that a scope clause reads is the innermost one around the token: its
/// brace opens before the token and closes after it, and no later brace does.
pub proof fn opener_is_innermost(tokens: Seq<TokenModel>, i: int, n: int)
    requires
        0 <= n <= i < tokens.len(),
    ensures
        match opener(tokens, i, n) {
            Some(o) => 0 <= o < n && opens(tokens[o]) && i < tokens[o].token.jmp && forall|k: int|
                o < k < n ==> !(opens(#[trigger] tokens[k]) && i < tokens[k].token.jmp),
            None => forall|k: int|
                0 <= k < n ==> !(opens(#[trigger] tokens[k]) && i < tokens[k].token.jmp),
        },
    decreases n,
{
    if n > 0 && !(opens(tokens[n - 1]) && i < tokens[n - 1].token.jmp) {
        opener_is_innermost(tokens, i, n - 1);
    }
}

proof fn lemma_distinct_from(ts: Seq<TokenModel>)
    ensures
        forall|i: int|
            0 <= i < distinct_starts(ts).len() ==> starts_at(
                ts,
                (#[trigger] distinct_starts(ts)[i]).token.start_byte,
            ),
    decreases ts.len(),
{
    if ts.len() > 0 {
        let t = ts.drop_last();
        lemma_distinct_from(t);
        let d = distinct_starts(ts);
        let e = distinct_starts(t);
        assert forall|i: int| 0 <= i < d.len() implies starts_at(
            ts,
            (#[trigger] d[i]).token.start_byte,
        ) by {
            if i < e.len() {
                assert(d[i] == e[i]);
                let k = choose|k: int|
                    0 <= k < t.len() && (#[trigger] t[k]).token.start_byte == e[i].token.start_byte;
                assert(ts[k].token.start_byte == d[i].token.start_byte);
            } else {
                assert(ts[ts.len() - 1].token.start_byte == d[i].token.start_byte);
            }
        }
    }
}

/// A sequence reports a token at most once, however many nested blocks hold it: no
/// two reported tokens start at the same byte.
pub proof fn tokens_are_reported_once(ts: Seq<TokenModel>)
    ensures
        forall|i: int, j: int|
            0 <= i < j < distinct_starts(ts).len() ==> (#[trigger] distinct_starts(
                ts,
            )[i]).token.start_byte != (#[trigger] distinct_starts(ts)[j]).token.start_byte,
    decreases ts.len(),
{
    if ts.len() > 0 {
        let t = ts.drop_last();
        tokens_are_reported_once(t);
        lemma_distinct_from(t);
        let d = distinct_starts(ts);
        let e = distinct_starts(t);
        assert forall|i: int, j: int| 0 <= i < j < d.len() implies (
        #[trigger] d[i]).token.start_byte != (#[trigger] d[j]).token.start_byte by {
            assert(d[i] == e[i]);
            if j < e.len() {
                assert(d[j] == e[j]);
            } else {
                assert(starts_at(t, e[i].token.start_byte));
            }
        }
    }
}

proof fn lemma_text_field(t: TokenModel)
    ensures
        (token_element(t).fields)("text"@) == seq![t.text],
        (token_element(t).fields)("class"@) == seq![t.class],
{
    reveal_strlit("node_kind");
    reveal_strlit("class");
    reveal_strlit("text");
    assert("node_kind"@.len() == 9 && "class"@.len() == 5 && "text"@.len() == 4);
}

/// A literal pattern matches a lexeme by its exact text, never a part of it.
pub proof fn literals_match_exact_text(t: TokenModel, s: Seq<char>)
    ensures
        token_fits(None, seq![PredModel::Eq { attr: "text"@, value: s }], t) <==> t.text == s,
{
    let ps = seq![PredModel::Eq { attr: "text"@, value: s }];
    lemma_text_field(t);
    assert(ps[0] == (PredModel::Eq { attr: "text"@, value: s }));
    assert(seq![t.text][0] == t.text);
    if t.text == s {
        assert(seq![t.text].contains(s));
    }
}

/// `@class` matches the class that the frontend gave the lexeme.
pub proof fn class_patterns_match_the_class(t: TokenModel, s: Seq<char>)
    ensures
        token_fits(None, seq![PredModel::Eq { attr: "class"@, value: s }], t) <==> t.class == s,
{
    let ps = seq![PredModel::Eq { attr: "class"@, value: s }];
    lemma_text_field(t);
    assert(ps[0] == (PredModel::Eq { attr: "class"@, value: s }));
    assert(seq![t.class][0] == t.class);
    if t.class == s {
        assert(seq![t.class].contains(s));
    }
}

/// `/regex/` matches a lexeme whose text matches, and `^/regex/` one whose text does
/// not.
pub proof fn regex_patterns_test_the_text(t: TokenModel, re: Seq<char>)
    ensures
        token_fits(None, seq![PredModel::Regex { attr: "text"@, re }], t) <==> regex_accepts(
            re,
            t.text,
        ),
        token_fits(None, seq![PredModel::NotRegex { attr: "text"@, re }], t) <==> !regex_accepts(
            re,
            t.text,
        ),
{
    let ps = seq![PredModel::Regex { attr: "text"@, re }];
    let qs = seq![PredModel::NotRegex { attr: "text"@, re }];
    lemma_text_field(t);
    assert(ps[0] == (PredModel::Regex { attr: "text"@, re }));
    assert(qs[0] == (PredModel::NotRegex { attr: "text"@, re }));
    assert(seq![t.text][0] == t.text);
}

/// A backreference means the same text again: after the text of one lexeme was bound
/// to a variable, the reference matches a lexeme exactly when it has that text.
pub proof fn backreferences_mean_the_same_text(
    first: TokenModel,
    second: TokenModel,
    var: Seq<char>,
    binds: crate::schema::BindsModel,
)
    ensures
        pred_holds(
            PredModel::EqRef { attr: "text"@, var },
            (token_element(second).fields)("text"@),
            crate::rules::captured(seq![(var, "text"@)], token_element(first), binds),
        ) <==> second.text == first.text,
{
    let bind = seq![(var, "text"@)];
    lemma_text_field(first);
    lemma_text_field(second);
    assert(bind.drop_last() =~= Seq::<(Seq<char>, Seq<char>)>::empty());
    assert(crate::rules::captured(bind.drop_last(), token_element(first), binds) == binds);
    assert(bind.last() == (var, "text"@));
    assert(seq![first.text][0] == first.text);
    crate::order::find_after_put(binds, var, first.text, var);
    assert(seq![second.text][0] == second.text);
    if second.text == first.text {
        assert(seq![second.text].contains(first.text));
    }
}

/// Every lexeme that a single pattern matches is reported, and nothing else.
pub proof fn every_match_is_reported(r: RuleModel, tokens: Seq<TokenModel>)
    ensures
        forall|i: int|
            0 <= i < tokens.len() && match_at(r, tokens, i) ==> match_hits(r, tokens).contains(
                #[trigger] tokens[i],
            ),
        forall|t: TokenModel| #[trigger]
            match_hits(r, tokens).contains(t) ==> exists|i: int|
                0 <= i < tokens.len() && match_at(r, tokens, i) && #[trigger] tokens[i] == t,
{
    let n = tokens.len() as int;
    let f = |i: int| match_at(r, tokens, i);
    let at = positions(n, f);
    let hits = match_hits(r, tokens);
    assert(hits == tokens_at(tokens, at));
    assert forall|i: int| 0 <= i < tokens.len() && match_at(r, tokens, i) implies hits.contains(
        #[trigger] tokens[i],
    ) by {
        crate::sequence::lemma_positions(n, f, i);
        let k = at.index_of(i);
        assert(hits[k] == tokens[i]);
    }
    assert forall|t: TokenModel| #[trigger] hits.contains(t) implies exists|i: int|
        0 <= i < tokens.len() && match_at(r, tokens, i) && #[trigger] tokens[i] == t by {
        let k = hits.index_of(t);
        crate::sequence::lemma_positions(n, f, at[k]);
        assert(at.contains(at[k]));
        assert(tokens[at[k]] == hits[k]);
    }
}

/// Whether a context grants all that another grants, and perhaps more.
pub open spec fn grants_more(more: ContextModel, less: ContextModel) -> bool {
    &&& forall|w: (Seq<char>, Seq<char>)| #[trigger]
        less.waivers.contains(w) ==> more.waivers.contains(w)
    &&& forall|a: (Seq<char>, bool)| #[trigger] less.adrs.contains(a) ==> more.adrs.contains(a)
}

/// Escape hatches only remove: with further waivers or decisions, a primary rule
/// reports in a file what it reported before, or nothing.
pub proof fn escape_hatches_only_remove(
    r: RuleModel,
    s: StreamModel,
    less: ContextModel,
    more: ContextModel,
)
    requires
        grants_more(more, less),
    ensures
        stream_violations(r, s, more) == stream_violations(r, s, less) || stream_violations(r, s, more)
            == Seq::<ViolationModel>::empty(),
{
    if silenced(r, s.file, less) {
        if waived(less, r.id, s.file) {
            assert(more.waivers.contains((r.id, s.file)));
        }
        if let Some(u) = r.unless {
            if let Some(id) = u.waiver_rule {
                if waived(less, id, s.file) {
                    assert(more.waivers.contains((id, s.file)));
                }
            }
            if let Some(topic) = u.adr_topic {
                if decided(less, topic) {
                    assert(more.adrs.contains((topic, true)));
                }
            }
        }
    }
}

proof fn lemma_one_more_clause(
    cs: Seq<ClauseModel>,
    c: ClauseModel,
    tokens: Seq<TokenModel>,
    i: int,
    after: bool,
    want: bool,
)
    ensures
        clauses_hold(cs.push(c), tokens, i, after, want) <==> clauses_hold(
            cs,
            tokens,
            i,
            after,
            want,
        ) && scope_has(c, tokens, i, after) == want,
{
    let more = cs.push(c);
    assert(more[cs.len() as int] == c);
    if clauses_hold(more, tokens, i, after, want) {
        assert forall|k: int| 0 <= k < cs.len() implies scope_has(#[trigger] cs[k], tokens, i, after)
            == want by {
            assert(more[k] == cs[k]);
        }
    }
}

/// Clauses are ANDed: one more clause, of whatever kind, is one more condition.
pub proof fn scope_clauses_are_anded(
    w: WhereModel,
    c: ClauseModel,
    tokens: Seq<TokenModel>,
    i: int,
)
    ensures
        scope_holds(WhereModel { contains: w.contains.push(c), ..w }, tokens, i) <==> scope_holds(
            w,
            tokens,
            i,
        ) && scope_has(c, tokens, i, false),
        scope_holds(WhereModel { not_contains: w.not_contains.push(c), ..w }, tokens, i)
            <==> scope_holds(w, tokens, i) && !scope_has(c, tokens, i, false),
        scope_holds(WhereModel { followed_by: w.followed_by.push(c), ..w }, tokens, i)
            <==> scope_holds(w, tokens, i) && scope_has(c, tokens, i, true),
{
    lemma_one_more_clause(w.contains, c, tokens, i, false, true);
    lemma_one_more_clause(w.not_contains, c, tokens, i, false, false);
    lemma_one_more_clause(w.followed_by, c, tokens, i, true, true);
}

} // verus!
