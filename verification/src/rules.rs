//! Compiled rules: predicates, step matchers, and what a rule applies to.

use vstd::prelude::*;

use crate::event::{Element, ElementModel, EventKind};
use crate::number::{number_of, parse_number, Number};
use crate::order::{find, put};
use crate::outside::{
    glob_accepts,
    regex_accepts,
    regex_clone,
    regex_is_match,
    set_is_match,
    PathGlobs,
    Pattern,
};
use crate::schema::{opt_items, Bindings, BindsModel, Severity};
use crate::text::{list_has, opt_text, opt_view, texts, views};
use crate::token::Language;

verus! {

// ---------------------------------------------------------------------------
// Predicates
// ---------------------------------------------------------------------------

/// A numeric comparison.
#[derive(Debug, Clone, Copy, PartialEq, Eq, Structural)]
pub enum CmpOp {
    Gt,
    Lt,
    Ge,
    Le,
}

/// Whether a comparison holds. Not-a-number compares with nothing.
pub open spec fn compares(op: CmpOp, x: Number, n: Number) -> bool {
    match (x.place, n.place) {
        (Some(a), Some(b)) => match op {
            CmpOp::Gt => a > b,
            CmpOp::Lt => a < b,
            CmpOp::Ge => a >= b,
            CmpOp::Le => a <= b,
        },
        _ => false,
    }
}

impl CmpOp {
    /// Whether the comparison of `x` with `n` holds.
    pub fn test(self, x: Number, n: Number) -> (r: bool)
        ensures
            r == compares(self, x, n),
    {
        match (x.place, n.place) {
            (Some(a), Some(b)) => match self {
                CmpOp::Gt => a > b,
                CmpOp::Lt => a < b,
                CmpOp::Ge => a >= b,
                CmpOp::Le => a <= b,
            },
            _ => false,
        }
    }
}

/// One compiled field predicate.
#[derive(Debug)]
pub enum AttrPred {
    /// Some string form equals the value.
    Eq { attr: String, value: String },
    /// Some string form is in the set.
    AnyOf { attr: String, values: Vec<String> },
    /// Some string form matches the expression.
    Regex { attr: String, re: Pattern },
    /// No string form matches the expression.
    NotRegex { attr: String, re: Pattern },
    /// Some string form is a number that compares with `n`.
    Cmp { attr: String, op: CmpOp, n: Number },
    /// Some string form equals a captured value.
    EqRef { attr: String, var: String },
    /// There is a string form, and none equals the captured value.
    NeRef { attr: String, var: String },
}

/// The model of [`AttrPred`]; an expression is modelled by its pattern.
pub enum PredModel {
    Eq { attr: Seq<char>, value: Seq<char> },
    AnyOf { attr: Seq<char>, values: Seq<Seq<char>> },
    Regex { attr: Seq<char>, re: Seq<char> },
    NotRegex { attr: Seq<char>, re: Seq<char> },
    Cmp { attr: Seq<char>, op: CmpOp, n: Number },
    EqRef { attr: Seq<char>, var: Seq<char> },
    NeRef { attr: Seq<char>, var: Seq<char> },
}

impl View for AttrPred {
    type V = PredModel;

    open spec fn view(&self) -> PredModel {
        match *self {
            AttrPred::Eq { attr, value } => PredModel::Eq { attr: attr@, value: value@ },
            AttrPred::AnyOf { attr, values } => PredModel::AnyOf {
                attr: attr@,
                values: texts(values@),
            },
            AttrPred::Regex { attr, re } => PredModel::Regex { attr: attr@, re: re@ },
            AttrPred::NotRegex { attr, re } => PredModel::NotRegex {
                attr: attr@,
                re: re@,
            },
            AttrPred::Cmp { attr, op, n } => PredModel::Cmp { attr: attr@, op, n },
            AttrPred::EqRef { attr, var } => PredModel::EqRef { attr: attr@, var: var@ },
            AttrPred::NeRef { attr, var } => PredModel::NeRef { attr: attr@, var: var@ },
        }
    }
}

/// The field that a predicate reads.
pub open spec fn pred_attr(p: PredModel) -> Seq<char> {
    match p {
        PredModel::Eq { attr, .. } => attr,
        PredModel::AnyOf { attr, .. } => attr,
        PredModel::Regex { attr, .. } => attr,
        PredModel::NotRegex { attr, .. } => attr,
        PredModel::Cmp { attr, .. } => attr,
        PredModel::EqRef { attr, .. } => attr,
        PredModel::NeRef { attr, .. } => attr,
    }
}

/// Whether a text is a number that compares with another.
pub open spec fn text_compares(op: CmpOp, s: Seq<char>, n: Number) -> bool {
    match number_of(s) {
        Some(x) => compares(op, x, n),
        None => false,
    }
}

/// Whether a predicate holds of the string forms of its field, where the captures
/// are those given.
pub open spec fn pred_holds(p: PredModel, values: Seq<Seq<char>>, binds: BindsModel) -> bool {
    match p {
        PredModel::Eq { value, .. } => values.contains(value),
        PredModel::AnyOf { values: set, .. } => exists|i: int|
            0 <= i < values.len() && set.contains(#[trigger] values[i]),
        PredModel::Regex { re, .. } => exists|i: int|
            0 <= i < values.len() && regex_accepts(re, #[trigger] values[i]),
        PredModel::NotRegex { re, .. } => forall|i: int|
            0 <= i < values.len() ==> !regex_accepts(re, #[trigger] values[i]),
        PredModel::Cmp { op, n, .. } => exists|i: int|
            0 <= i < values.len() && text_compares(op, #[trigger] values[i], n),
        PredModel::EqRef { var, .. } => match find(binds, var) {
            Some(bound) => values.contains(bound),
            None => false,
        },
        PredModel::NeRef { var, .. } => match find(binds, var) {
            Some(bound) => values.len() > 0 && !values.contains(bound),
            None => false,
        },
    }
}

/// The text of a captured variable.
pub fn bound_text<'a>(binds: &'a Bindings, var: &str) -> (r: Option<&'a String>)
    ensures
        match r {
            Some(s) => find(binds@, var@) == Some(s@),
            None => find(binds@, var@) is None,
        },
{
    binds.get(var)
}

impl AttrPred {
    /// The field that the predicate reads.
    pub fn attr_name(&self) -> (r: &str)
        ensures
            r@ == pred_attr(self@),
    {
        match self {
            AttrPred::Eq { attr, .. } => attr.as_str(),
            AttrPred::AnyOf { attr, .. } => attr.as_str(),
            AttrPred::Regex { attr, .. } => attr.as_str(),
            AttrPred::NotRegex { attr, .. } => attr.as_str(),
            AttrPred::Cmp { attr, .. } => attr.as_str(),
            AttrPred::EqRef { attr, .. } => attr.as_str(),
            AttrPred::NeRef { attr, .. } => attr.as_str(),
        }
    }

    /// Evaluates the predicate against the string forms of its field, with a
    /// capture environment for references (empty for single-pattern rules).
    pub fn eval(&self, values: &[String], binds: &Bindings) -> (r: bool)
        ensures
            r == pred_holds(self@, texts(values@), binds@),
    {
        match self {
            AttrPred::Eq { value, .. } => list_has(values, value.as_str()),
            AttrPred::AnyOf { values: set, .. } => any_in(set, values),
            AttrPred::Regex { re, .. } => regex_holds(re, values, false),
            AttrPred::NotRegex { re, .. } => regex_holds(re, values, true),
            AttrPred::Cmp { op, n, .. } => any_compares(*op, *n, values),
            AttrPred::EqRef { var, .. } => match bound_text(binds, var.as_str()) {
                Some(bound) => list_has(values, bound.as_str()),
                None => false,
            },
            AttrPred::NeRef { var, .. } => match bound_text(binds, var.as_str()) {
                Some(bound) => values.len() > 0 && !list_has(values, bound.as_str()),
                None => false,
            },
        }
    }

    /// A copy of the predicate.
    pub fn duplicate(&self) -> (r: AttrPred)
        ensures
            r@ == self@,
    {
        match self {
            AttrPred::Eq { attr, value } => AttrPred::Eq { attr: attr.clone(), value: value.clone() },
            AttrPred::AnyOf { attr, values } => AttrPred::AnyOf {
                attr: attr.clone(),
                values: values.clone(),
            },
            AttrPred::Regex { attr, re } => AttrPred::Regex {
                attr: attr.clone(),
                re: regex_clone(re),
            },
            AttrPred::NotRegex { attr, re } => AttrPred::NotRegex {
                attr: attr.clone(),
                re: regex_clone(re),
            },
            AttrPred::Cmp { attr, op, n } => AttrPred::Cmp { attr: attr.clone(), op: *op, n: *n },
            AttrPred::EqRef { attr, var } => AttrPred::EqRef { attr: attr.clone(), var: var.clone() },
            AttrPred::NeRef { attr, var } => AttrPred::NeRef { attr: attr.clone(), var: var.clone() },
        }
    }
}

fn any_in(set: &Vec<String>, values: &[String]) -> (r: bool)
    ensures
        r == (exists|i: int|
            0 <= i < texts(values@).len() && texts(set@).contains(#[trigger] texts(values@)[i])),
{
    let ghost forms = texts(values@);
    let mut i: usize = 0;
    while i < values.len()
        invariant
            i <= values@.len(),
            forms == texts(values@),
            forall|k: int| 0 <= k < i ==> !texts(set@).contains(#[trigger] forms[k]),
        decreases values@.len() - i,
    {
        assert(forms[i as int] == values@[i as int]@);
        if list_has(set.as_slice(), values[i].as_str()) {
            return true;
        }
        i += 1;
    }
    false
}

fn any_compares(op: CmpOp, n: Number, values: &[String]) -> (r: bool)
    ensures
        r == (exists|i: int|
            0 <= i < texts(values@).len() && text_compares(op, #[trigger] texts(values@)[i], n)),
{
    let ghost forms = texts(values@);
    let mut i: usize = 0;
    while i < values.len()
        invariant
            i <= values@.len(),
            forms == texts(values@),
            forall|k: int| 0 <= k < i ==> !text_compares(op, #[trigger] forms[k], n),
        decreases values@.len() - i,
    {
        assert(forms[i as int] == values@[i as int]@);
        if let Some(x) = parse_number(values[i].as_str()) {
            if op.test(x, n) {
                return true;
            }
        }
        i += 1;
    }
    false
}

fn regex_hits(re: &Pattern, values: &[String]) -> (r: Vec<bool>)
    ensures
        r@.len() == values@.len(),
        forall|i: int|
            0 <= i < r@.len() ==> #[trigger] r@[i] == regex_accepts(
                re@,
                texts(values@)[i],
            ),
{
    let mut out: Vec<bool> = Vec::new();
    let mut i: usize = 0;
    while i < values.len()
        invariant
            i <= values@.len(),
            out@.len() == i,
            forall|k: int|
                0 <= k < i ==> #[trigger] out@[k] == regex_accepts(
                    re@,
                    texts(values@)[k],
                ),
        decreases values@.len() - i,
    {
        assert(texts(values@)[i as int] == values@[i as int]@);
        out.push(regex_is_match(re, values[i].as_str()));
        i += 1;
    }
    out
}

/// Whether an expression that matches the string forms of a field as given makes its
/// predicate hold: some form matches, or none does where the predicate is negated.
pub fn regex_verdict(hits: &[bool], negated: bool) -> (r: bool)
    ensures
        r == (hits@.contains(true) != negated),
{
    let mut i: usize = 0;
    while i < hits.len()
        invariant
            i <= hits@.len(),
            forall|k: int| 0 <= k < i ==> !#[trigger] hits@[k],
        decreases hits@.len() - i,
    {
        if hits[i] {
            assert(hits@[i as int] == true);
            return !negated;
        }
        i += 1;
    }
    negated
}

fn regex_holds(re: &Pattern, values: &[String], negated: bool) -> (r: bool)
    ensures
        r == ((exists|i: int|
            0 <= i < texts(values@).len() && regex_accepts(
                re@,
                #[trigger] texts(values@)[i],
            )) != negated),
{
    let hits = regex_hits(re, values);
    proof {
        let forms = texts(values@);
        if hits@.contains(true) {
            let i = hits@.index_of(true);
            assert(hits@[i]);
            assert(regex_accepts(re@, forms[i]));
        }
        if exists|i: int|
            0 <= i < forms.len() && regex_accepts(re@, #[trigger] forms[i]) {
            let i = choose|i: int|
                0 <= i < forms.len() && regex_accepts(re@, #[trigger] forms[i]);
            assert(hits@[i] == true);
        }
    }
    regex_verdict(hits.as_slice(), negated)
}

// ---------------------------------------------------------------------------
// Patterns and steps
// ---------------------------------------------------------------------------

/// Whether all predicates hold of an element.
pub open spec fn preds_hold(preds: Seq<PredModel>, e: ElementModel, binds: BindsModel) -> bool {
    forall|i: int|
        0 <= i < preds.len() ==> pred_holds(
            #[trigger] preds[i],
            (e.fields)(pred_attr(preds[i])),
            binds,
        )
}

/// Whether an element is of the kind asked for, if one is.
pub open spec fn kind_fits(kind: Option<EventKind>, e: ElementModel) -> bool {
    match kind {
        Some(k) => e.kind == k,
        None => true,
    }
}

/// A quantifier on a sequence step. One-or-more is expanded into `One` and
/// `ZeroOrMore`.
#[derive(Debug, Clone, Copy, PartialEq, Eq, Structural)]
pub enum Quant {
    One,
    Optional,
    ZeroOrMore,
}

/// What a single sequence step matches against one element.
#[derive(Debug)]
pub enum StepMatcher {
    /// A pattern: the kind fits (if any is asked for) and all predicates hold.
    Pat { kind: Option<EventKind>, preds: Vec<AttrPred> },
    /// Match if any alternative matches.
    Alt(Vec<StepMatcher>),
}

/// The model of [`StepMatcher`].
pub enum MatcherModel {
    Pat { kind: Option<EventKind>, preds: Seq<PredModel> },
    Alt(Seq<MatcherModel>),
}

/// What a matcher stands for.
pub open spec fn matcher_model(m: StepMatcher) -> MatcherModel
    decreases m,
{
    match m {
        StepMatcher::Pat { kind, preds } => MatcherModel::Pat { kind, preds: views(preds@) },
        StepMatcher::Alt(alts) => MatcherModel::Alt(
            Seq::new(
                alts@.len(),
                |i: int|
                    if 0 <= i < alts@.len() {
                        matcher_model(alts@[i])
                    } else {
                        MatcherModel::Alt(Seq::empty())
                    },
            ),
        ),
    }
}

impl View for StepMatcher {
    type V = MatcherModel;

    open spec fn view(&self) -> MatcherModel {
        matcher_model(*self)
    }
}

/// Whether a matcher matches an element.
pub open spec fn matcher_holds(m: MatcherModel, e: ElementModel, binds: BindsModel) -> bool
    decreases m,
{
    match m {
        MatcherModel::Pat { kind, preds } => kind_fits(kind, e) && preds_hold(preds, e, binds),
        MatcherModel::Alt(alts) => exists|i: int|
            0 <= i < alts.len() && matcher_holds(#[trigger] alts[i], e, binds),
    }
}

fn all_hold<E: Element>(preds: &Vec<AttrPred>, e: &E, binds: &Bindings) -> (r: bool)
    ensures
        r == preds_hold(views(preds@), e.element(), binds@),
{
    let ghost models = views(preds@);
    let mut i: usize = 0;
    while i < preds.len()
        invariant
            i <= preds@.len(),
            models == views(preds@),
            forall|k: int|
                0 <= k < i ==> pred_holds(
                    #[trigger] models[k],
                    (e.element().fields)(pred_attr(models[k])),
                    binds@,
                ),
        decreases preds@.len() - i,
    {
        assert(models[i as int] == preds@[i as int]@);
        let forms = e.strings_of(preds[i].attr_name());
        if !preds[i].eval(forms.as_slice(), binds) {
            return false;
        }
        i += 1;
    }
    true
}

fn fits<E: Element>(kind: &Option<EventKind>, e: &E) -> (r: bool)
    ensures
        r == kind_fits(*kind, e.element()),
{
    match kind {
        Some(k) => e.kind_of() == *k,
        None => true,
    }
}

impl StepMatcher {
    /// Whether the matcher matches an element.
    pub fn matches<E: Element>(&self, e: &E, binds: &Bindings) -> (r: bool)
        ensures
            r == matcher_holds(self@, e.element(), binds@),
        decreases self,
    {
        match self {
            StepMatcher::Pat { kind, preds } => fits(kind, e) && all_hold(preds, e, binds),
            StepMatcher::Alt(alts) => {
                let ghost models = self@->Alt_0;
                let mut i: usize = 0;
                while i < alts.len()
                    invariant
                        i <= alts@.len(),
                        *self == StepMatcher::Alt(*alts),
                        models == self@->Alt_0,
                        models.len() == alts@.len(),
                        forall|k: int|
                            0 <= k < i ==> !matcher_holds(#[trigger] models[k], e.element(), binds@),
                    decreases alts@.len() - i,
                {
                    assert(decreases_to!(self => self->Alt_0));
                    assert(models[i as int] == alts@[i as int]@);
                    if alts[i].matches(e, binds) {
                        return true;
                    }
                    i += 1;
                }
                false
            },
        }
    }

    /// A copy of the matcher.
    pub fn duplicate(&self) -> (r: StepMatcher)
        ensures
            r@ == self@,
        decreases self,
    {
        match self {
            StepMatcher::Pat { kind, preds } => {
                let mut out: Vec<AttrPred> = Vec::new();
                let mut i: usize = 0;
                while i < preds.len()
                    invariant
                        i <= preds@.len(),
                        out@.len() == i,
                        forall|k: int| 0 <= k < i ==> (#[trigger] out@[k])@ == preds@[k]@,
                    decreases preds@.len() - i,
                {
                    out.push(preds[i].duplicate());
                    i += 1;
                }
                assert(views(out@) =~= views(preds@));
                StepMatcher::Pat { kind: *kind, preds: out }
            },
            StepMatcher::Alt(alts) => {
                let mut out: Vec<StepMatcher> = Vec::new();
                let mut i: usize = 0;
                while i < alts.len()
                    invariant
                        i <= alts@.len(),
                        out@.len() == i,
                        *self == StepMatcher::Alt(*alts),
                        forall|k: int| 0 <= k < i ==> (#[trigger] out@[k])@ == alts@[k]@,
                    decreases alts@.len() - i,
                {
                    assert(decreases_to!(self => self->Alt_0));
                    out.push(alts[i].duplicate());
                    i += 1;
                }
                let r = StepMatcher::Alt(out);
                assert(r@->Alt_0 =~= self@->Alt_0);
                r
            },
        }
    }
}

/// One compiled step of a sequence.
#[derive(Debug)]
pub struct CompiledStep {
    pub matcher: StepMatcher,
    pub quant: Quant,
    pub negate: bool,
    /// `(variable, field)` pairs: the first string form of each field is captured
    /// when the step matches.
    pub bind: Vec<(String, String)>,
}

/// The model of [`CompiledStep`].
pub struct StepModel {
    pub matcher: MatcherModel,
    pub quant: Quant,
    pub negate: bool,
    pub bind: BindsModel,
}

/// The views of pairs of strings.
pub open spec fn pair_texts(v: Seq<(String, String)>) -> BindsModel {
    v.map_values(|p: (String, String)| (p.0@, p.1@))
}

impl View for CompiledStep {
    type V = StepModel;

    open spec fn view(&self) -> StepModel {
        StepModel {
            matcher: self.matcher@,
            quant: self.quant,
            negate: self.negate,
            bind: pair_texts(self.bind@),
        }
    }
}

/// Whether a step accepts an element: its matcher matches, or does not where the
/// step is negated.
pub open spec fn step_accepts(s: StepModel, e: ElementModel, binds: BindsModel) -> bool {
    matcher_holds(s.matcher, e, binds) != s.negate
}

/// The captures after those of a list were made, in order. A field without string
/// forms captures nothing.
pub open spec fn captured(bind: BindsModel, e: ElementModel, binds: BindsModel) -> BindsModel
    decreases bind.len(),
{
    if bind.len() == 0 {
        binds
    } else {
        let before = captured(bind.drop_last(), e, binds);
        let forms = (e.fields)(bind.last().1);
        if forms.len() > 0 {
            put(before, bind.last().0, forms[0])
        } else {
            before
        }
    }
}

/// A copy of captures.
pub fn copy_bindings(b: &Bindings) -> (r: Bindings)
    ensures
        r@ == b@,
{
    let mut entries: Vec<(String, String)> = Vec::new();
    let mut i: usize = 0;
    while i < b.entries.len()
        invariant
            i <= b.entries@.len(),
            entries@.len() == i,
            forall|k: int| 0 <= k < i ==> #[trigger] entries@[k] == b.entries@[k],
        decreases b.entries@.len() - i,
    {
        entries.push((b.entries[i].0.clone(), b.entries[i].1.clone()));
        i += 1;
    }
    let r = Bindings { entries };
    assert(r@ =~= b@);
    r
}

impl CompiledStep {
    /// Whether this step accepts the given element (honoring `negate`).
    pub fn accepts<E: Element>(&self, e: &E, binds: &Bindings) -> (r: bool)
        ensures
            r == step_accepts(self@, e.element(), binds@),
    {
        let m = self.matcher.matches(e, binds);
        if self.negate {
            !m
        } else {
            m
        }
    }

    /// The captures after this step's own are made.
    pub fn apply_bind<E: Element>(&self, e: &E, binds: &Bindings) -> (r: Bindings)
        ensures
            r@ == captured(self@.bind, e.element(), binds@),
    {
        let ghost list = self@.bind;
        let mut next = copy_bindings(binds);
        let mut i: usize = 0;
        while i < self.bind.len()
            invariant
                i <= self.bind@.len(),
                list == pair_texts(self.bind@),
                next@ == captured(list.take(i as int), e.element(), binds@),
            decreases self.bind@.len() - i,
        {
            assert(list.take(i + 1).drop_last() == list.take(i as int));
            assert(list.take(i + 1).last() == list[i as int]);
            assert(list[i as int] == (self.bind@[i as int].0@, self.bind@[i as int].1@));
            let forms = e.strings_of(self.bind[i].1.as_str());
            assert(texts(forms@).len() == forms@.len());
            if forms.len() > 0 {
                next.insert(self.bind[i].0.clone(), forms[0].clone());
            }
            i += 1;
        }
        assert(list.take(i as int) == list);
        next
    }
}

// ---------------------------------------------------------------------------
// Rules
// ---------------------------------------------------------------------------

/// A pattern used by `where_scope` clauses.
#[derive(Debug)]
pub struct ClauseMatcher {
    pub kind: Option<EventKind>,
    pub preds: Vec<AttrPred>,
}

/// A pattern over events: a clause's pattern that names a kind.
pub type EventMatcher = ClauseMatcher;

/// The model of [`ClauseMatcher`].
pub struct ClauseModel {
    pub kind: Option<EventKind>,
    pub preds: Seq<PredModel>,
}

impl View for ClauseMatcher {
    type V = ClauseModel;

    open spec fn view(&self) -> ClauseModel {
        ClauseModel { kind: self.kind, preds: views(self.preds@) }
    }
}

/// Whether a clause's pattern matches an element. There are no captures.
pub open spec fn clause_holds(c: ClauseModel, e: ElementModel) -> bool {
    kind_fits(c.kind, e) && preds_hold(c.preds, e, Seq::empty())
}

impl ClauseMatcher {
    /// Whether the pattern matches an element.
    pub fn matches<E: Element>(&self, e: &E) -> (r: bool)
        ensures
            r == clause_holds(self@, e.element()),
    {
        let empty = Bindings::new();
        fits(&self.kind, e) && all_hold(&self.preds, e, &empty)
    }
}

/// Scope-relative predicates on the enclosing `{}` block of the matched element.
/// All clauses must hold.
#[derive(Debug)]
pub struct CompiledWhereScope {
    pub contains: Vec<ClauseMatcher>,
    pub not_contains: Vec<ClauseMatcher>,
    pub followed_by: Vec<ClauseMatcher>,
}

/// The model of [`CompiledWhereScope`].
pub struct WhereModel {
    pub contains: Seq<ClauseModel>,
    pub not_contains: Seq<ClauseModel>,
    pub followed_by: Seq<ClauseModel>,
}

impl View for CompiledWhereScope {
    type V = WhereModel;

    open spec fn view(&self) -> WhereModel {
        WhereModel {
            contains: views(self.contains@),
            not_contains: views(self.not_contains@),
            followed_by: views(self.followed_by@),
        }
    }
}

/// Set-algebra operator for `compose`.
#[derive(Debug, Clone, Copy, PartialEq, Eq, Structural)]
pub enum SetOp {
    Intersection,
    Union,
    Difference,
}

/// One component of the key that violations are grouped by.
#[derive(Debug, Clone, Copy, PartialEq, Eq, Structural)]
pub enum KeyPart {
    File,
    Function,
}

/// A set operation over other rules.
#[derive(Debug)]
pub struct CompiledCompose {
    pub op: SetOp,
    pub of: Vec<String>,
    pub key: Vec<KeyPart>,
}

/// The model of [`CompiledCompose`].
pub struct ComposeModel {
    pub op: SetOp,
    pub of: Seq<Seq<char>>,
    pub key: Seq<KeyPart>,
}

impl View for CompiledCompose {
    type V = ComposeModel;

    open spec fn view(&self) -> ComposeModel {
        ComposeModel { op: self.op, of: texts(self.of@), key: self.key@ }
    }
}

/// Scope over which a `count` rule aggregates.
#[derive(Debug, Clone, Copy, PartialEq, Eq, Structural)]
pub enum CountScope {
    File,
    Function,
}

/// Comparison operator for a `count` threshold.
#[derive(Debug, Clone, Copy, PartialEq, Eq, Structural)]
pub enum CountOp {
    Gt,
    Lt,
    Ge,
    Le,
    Eq,
}

/// Whether a threshold comparison holds.
pub open spec fn count_compares(op: CountOp, x: int, n: int) -> bool {
    match op {
        CountOp::Gt => x > n,
        CountOp::Lt => x < n,
        CountOp::Ge => x >= n,
        CountOp::Le => x <= n,
        CountOp::Eq => x == n,
    }
}

impl CountOp {
    /// Whether the comparison of `x` with `n` holds.
    pub fn test(self, x: u64, n: u64) -> (r: bool)
        ensures
            r == count_compares(self, x as int, n as int),
    {
        match self {
            CountOp::Gt => x > n,
            CountOp::Lt => x < n,
            CountOp::Ge => x >= n,
            CountOp::Le => x <= n,
            CountOp::Eq => x == n,
        }
    }
}

/// A threshold on the number of another rule's violations.
#[derive(Debug)]
pub struct CompiledCount {
    pub rule: String,
    pub scope: CountScope,
    pub op: CountOp,
    pub n: u64,
}

/// The model of [`CompiledCount`].
pub struct CountModel {
    pub rule: Seq<char>,
    pub scope: CountScope,
    pub op: CountOp,
    pub n: u64,
}

impl View for CompiledCount {
    type V = CountModel;

    open spec fn view(&self) -> CountModel {
        CountModel { rule: self.rule@, scope: self.scope, op: self.op, n: self.n }
    }
}

/// What a step has to do with the delimiters of its sequence.
#[derive(Debug, Clone, Copy, PartialEq, Eq, Structural)]
pub enum Balance {
    /// Nothing.
    Free,
    /// It matches an opening delimiter that a later step closes.
    Opens,
    /// It matches the closing delimiter of an earlier step.
    Closes,
}

/// A compiled sequence.
#[derive(Debug)]
pub struct CompiledSequence {
    /// True when anchored to a single `{}` block.
    pub within_scope: bool,
    pub steps: Vec<CompiledStep>,
    /// Whether any step captures or refers to a capture.
    pub has_captures: bool,
    /// For each step, what it has to do with delimiters.
    pub balance: Vec<Balance>,
}

/// The model of [`CompiledSequence`].
pub struct SequenceModel {
    pub within_scope: bool,
    pub steps: Seq<StepModel>,
    pub has_captures: bool,
    pub balance: Seq<Balance>,
}

impl View for CompiledSequence {
    type V = SequenceModel;

    open spec fn view(&self) -> SequenceModel {
        SequenceModel {
            within_scope: self.within_scope,
            steps: views(self.steps@),
            has_captures: self.has_captures,
            balance: self.balance@,
        }
    }
}

/// Whether a predicate refers to a capture.
pub open spec fn pred_refers(p: PredModel) -> bool {
    p is EqRef || p is NeRef
}

/// Whether a matcher refers to a capture.
pub open spec fn matcher_refers(m: MatcherModel) -> bool
    decreases m,
{
    match m {
        MatcherModel::Pat { preds, .. } => exists|i: int|
            0 <= i < preds.len() && pred_refers(#[trigger] preds[i]),
        MatcherModel::Alt(alts) => exists|i: int|
            0 <= i < alts.len() && matcher_refers(#[trigger] alts[i]),
    }
}

/// Whether a step captures or refers to a capture.
pub open spec fn step_captures(s: StepModel) -> bool {
    s.bind.len() > 0 || matcher_refers(s.matcher)
}

/// Whether one of several steps captures or refers to a capture.
pub open spec fn any_captures(steps: Seq<StepModel>) -> bool {
    exists|i: int| 0 <= i < steps.len() && step_captures(#[trigger] steps[i])
}

/// The delimiter of an explicit step: one that matches a token by its exact text or
/// kind, once.
pub open spec fn delimiter(s: StepModel) -> Option<Seq<char>> {
    if s.quant != Quant::One || s.negate {
        None
    } else {
        match s.matcher {
            MatcherModel::Pat { kind, preds } => if kind is None && preds.len() == 1 {
                match preds[0] {
                    PredModel::Eq { attr, value } => if attr == "text"@ || attr == "node_kind"@ {
                        Some(value)
                    } else {
                        None
                    },
                    _ => None,
                }
            } else {
                None
            },
            _ => None,
        }
    }
}

/// Whether a step is an explicit opening delimiter.
pub open spec fn opens_delimiter(s: StepModel) -> bool {
    delimiter(s) == Some("("@) || delimiter(s) == Some("{"@) || delimiter(s) == Some("["@)
}

/// Whether one step is the explicit closing delimiter of another.
pub open spec fn closes_delimiter(open: StepModel, close: StepModel) -> bool {
    ||| delimiter(open) == Some("("@) && delimiter(close) == Some(")"@)
    ||| delimiter(open) == Some("{"@) && delimiter(close) == Some("}"@)
    ||| delimiter(open) == Some("["@) && delimiter(close) == Some("]"@)
}

/// What the first `n` steps have to do with delimiters, and the positions of the
/// opening ones that are not closed yet. A closing delimiter closes the innermost open
/// one where that is its counterpart.
pub open spec fn balanced(steps: Seq<StepModel>, n: int) -> (Seq<Balance>, Seq<int>)
    decreases n,
{
    if n <= 0 {
        (Seq::new(steps.len(), |i: int| Balance::Free), Seq::empty())
    } else {
        let (roles, open) = balanced(steps, n - 1);
        let s = steps[n - 1];
        if opens_delimiter(s) {
            (roles, open.push(n - 1))
        } else if open.len() > 0 && closes_delimiter(steps[open.last()], s) {
            (
                roles.update(open.last(), Balance::Opens).update(n - 1, Balance::Closes),
                open.drop_last(),
            )
        } else {
            (roles, open)
        }
    }
}

/// What each step has to do with delimiters.
pub open spec fn balance_of(steps: Seq<StepModel>) -> Seq<Balance> {
    balanced(steps, steps.len() as int).0
}

/// The step that closes a pair, given what the steps have to do with delimiters: the
/// first closing one from `k` on, past `depth` pairs that are open inside and all that
/// open later.
pub open spec fn closer(roles: Seq<Balance>, k: int, depth: nat) -> Option<int>
    decreases roles.len() - k,
{
    if k < 0 || k >= roles.len() {
        None
    } else {
        match roles[k] {
            Balance::Free => closer(roles, k + 1, depth),
            Balance::Opens => closer(roles, k + 1, depth + 1),
            Balance::Closes => if depth == 0 {
                Some(k)
            } else {
                closer(roles, k + 1, (depth - 1) as nat)
            },
        }
    }
}

/// A sequence says truthfully whether it has captures, and which steps pair
/// delimiters.
pub open spec fn sequence_wf(s: SequenceModel) -> bool {
    s.has_captures == any_captures(s.steps) && s.balance == balance_of(s.steps)
}

/// The exemptions of a rule.
#[derive(Debug)]
pub struct CompiledUnless {
    pub path_matches: Option<PathGlobs>,
    pub waiver_rule: Option<String>,
    pub adr_topic: Option<String>,
}

/// The model of [`CompiledUnless`]; a set of globs is modelled by its patterns.
pub struct UnlessModel {
    pub path_matches: Option<Seq<Seq<char>>>,
    pub waiver_rule: Option<Seq<char>>,
    pub adr_topic: Option<Seq<char>>,
}

/// The patterns of an optional set of globs.
pub open spec fn opt_globs(o: Option<PathGlobs>) -> Option<Seq<Seq<char>>> {
    match o {
        Some(s) => Some(s@),
        None => None,
    }
}

impl View for CompiledUnless {
    type V = UnlessModel;

    open spec fn view(&self) -> UnlessModel {
        UnlessModel {
            path_matches: opt_globs(self.path_matches),
            waiver_rule: opt_text(self.waiver_rule),
            adr_topic: opt_text(self.adr_topic),
        }
    }
}

/// A compiled rule.
#[derive(Debug)]
pub struct CompiledRule {
    pub id: String,
    pub severity: Severity,
    pub description: Option<String>,
    pub message: Option<String>,
    pub languages: Option<Vec<Language>>,
    pub includes: Option<PathGlobs>,
    pub excludes: Option<PathGlobs>,
    /// The kind that a single `match` asks for, if any.
    pub event: Option<EventKind>,
    /// The predicates of a single `match`.
    pub preds: Vec<AttrPred>,
    /// Present for `match_sequence` rules.
    pub sequence: Option<CompiledSequence>,
    /// Present for a single `match` carrying a `where_scope` clause.
    pub where_scope: Option<CompiledWhereScope>,
    /// Present for `compose` rules; a post-pass over other violations.
    pub compose: Option<CompiledCompose>,
    /// Present for `count` rules; a post-pass over other violations.
    pub count: Option<CompiledCount>,
    pub unless: Option<CompiledUnless>,
}

/// The model of [`CompiledRule`].
pub struct RuleModel {
    pub id: Seq<char>,
    pub severity: Severity,
    pub description: Option<Seq<char>>,
    pub message: Option<Seq<char>>,
    pub languages: Option<Seq<Language>>,
    pub includes: Option<Seq<Seq<char>>>,
    pub excludes: Option<Seq<Seq<char>>>,
    pub event: Option<EventKind>,
    pub preds: Seq<PredModel>,
    pub sequence: Option<SequenceModel>,
    pub where_scope: Option<WhereModel>,
    pub compose: Option<ComposeModel>,
    pub count: Option<CountModel>,
    pub unless: Option<UnlessModel>,
}

impl View for CompiledRule {
    type V = RuleModel;

    open spec fn view(&self) -> RuleModel {
        RuleModel {
            id: self.id@,
            severity: self.severity,
            description: opt_text(self.description),
            message: opt_text(self.message),
            languages: opt_items(self.languages),
            includes: opt_globs(self.includes),
            excludes: opt_globs(self.excludes),
            event: self.event,
            preds: views(self.preds@),
            sequence: opt_view(self.sequence),
            where_scope: opt_view(self.where_scope),
            compose: opt_view(self.compose),
            count: opt_view(self.count),
            unless: opt_view(self.unless),
        }
    }
}

/// Whether a rule is a post-pass over other rules' results.
pub open spec fn aggregates(r: RuleModel) -> bool {
    r.compose is Some || r.count is Some
}

/// Whether a rule applies to a language.
pub open spec fn covers_language(r: RuleModel, l: Language) -> bool {
    match r.languages {
        Some(langs) => langs.contains(l),
        None => true,
    }
}

/// Whether one of several globs matches a path.
pub open spec fn any_glob(patterns: Seq<Seq<char>>, path: Seq<char>) -> bool {
    exists|i: int| 0 <= i < patterns.len() && #[trigger] glob_accepts(patterns[i], path)
}

/// Whether a path is in a rule's scope: some include glob matches it (where there
/// are any) and no exclude glob does.
pub open spec fn covers_path(r: RuleModel, path: Seq<char>) -> bool {
    &&& match r.excludes {
        Some(globs) => !any_glob(globs, path),
        None => true,
    }
    &&& match r.includes {
        Some(globs) => any_glob(globs, path),
        None => true,
    }
}

/// Whether a matcher asks for a kind.
pub open spec fn matcher_names(m: MatcherModel, kind: EventKind) -> bool
    decreases m,
{
    match m {
        MatcherModel::Pat { kind: k, .. } => k == Some(kind),
        MatcherModel::Alt(alts) => exists|i: int|
            0 <= i < alts.len() && matcher_names(#[trigger] alts[i], kind),
    }
}

/// Whether one of several clauses asks for a kind.
pub open spec fn clause_names(cs: Seq<ClauseModel>, kind: EventKind) -> bool {
    exists|i: int| 0 <= i < cs.len() && (#[trigger] cs[i]).kind == Some(kind)
}

/// Whether a rule asks for elements of a kind: in its single pattern, in a clause
/// or in a step.
pub open spec fn rule_names(r: RuleModel, kind: EventKind) -> bool {
    ||| r.sequence is None && r.compose is None && r.count is None && r.event == Some(kind)
    ||| match r.where_scope {
        Some(w) => clause_names(w.contains, kind) || clause_names(w.not_contains, kind)
            || clause_names(w.followed_by, kind),
        None => false,
    }
    ||| match r.sequence {
        Some(s) => exists|i: int|
            0 <= i < s.steps.len() && matcher_names((#[trigger] s.steps[i]).matcher, kind),
        None => false,
    }
}

fn names_kind(m: &StepMatcher, kind: EventKind) -> (r: bool)
    ensures
        r == matcher_names(m@, kind),
    decreases m,
{
    match m {
        StepMatcher::Pat { kind: k, .. } => match k {
            Some(x) => *x == kind,
            None => false,
        },
        StepMatcher::Alt(alts) => {
            let ghost models = m@->Alt_0;
            let mut i: usize = 0;
            while i < alts.len()
                invariant
                    i <= alts@.len(),
                    *m == StepMatcher::Alt(*alts),
                    models == m@->Alt_0,
                    models.len() == alts@.len(),
                    forall|k: int| 0 <= k < i ==> !matcher_names(#[trigger] models[k], kind),
                decreases alts@.len() - i,
            {
                assert(decreases_to!(m => m->Alt_0));
                assert(models[i as int] == alts@[i as int]@);
                if names_kind(&alts[i], kind) {
                    return true;
                }
                i += 1;
            }
            false
        },
    }
}

fn clause_of_kind(cs: &Vec<ClauseMatcher>, kind: EventKind) -> (r: bool)
    ensures
        r == clause_names(views(cs@), kind),
{
    let ghost models = views(cs@);
    let mut i: usize = 0;
    while i < cs.len()
        invariant
            i <= cs@.len(),
            models == views(cs@),
            forall|k: int| 0 <= k < i ==> (#[trigger] models[k]).kind != Some(kind),
        decreases cs@.len() - i,
    {
        assert(models[i as int] == cs@[i as int]@);
        if let Some(k) = cs[i].kind {
            if k == kind {
                return true;
            }
        }
        i += 1;
    }
    false
}

/// Whether a path is in scope, given whether the include and the exclude globs match
/// it, where there are any: excludes win, and without include globs any path is in.
pub fn scope_verdict(included: Option<bool>, excluded: Option<bool>) -> (r: bool)
    ensures
        r == (excluded != Some(true) && included != Some(false)),
{
    match excluded {
        Some(true) => false,
        _ => match included {
            Some(b) => b,
            None => true,
        },
    }
}

fn has_language(langs: &Vec<Language>, language: Language) -> (r: bool)
    ensures
        r == langs@.contains(language),
{
    let mut i: usize = 0;
    while i < langs.len()
        invariant
            i <= langs@.len(),
            forall|k: int| 0 <= k < i ==> langs@[k] != language,
        decreases langs@.len() - i,
    {
        if langs[i] == language {
            return true;
        }
        i += 1;
    }
    false
}

fn step_of_kind(steps: &Vec<CompiledStep>, kind: EventKind) -> (r: bool)
    ensures
        r == (exists|i: int|
            0 <= i < views(steps@).len() && matcher_names(
                (#[trigger] views(steps@)[i]).matcher,
                kind,
            )),
{
    let ghost models = views(steps@);
    let mut i: usize = 0;
    while i < steps.len()
        invariant
            i <= steps@.len(),
            models == views(steps@),
            forall|k: int| 0 <= k < i ==> !matcher_names((#[trigger] models[k]).matcher, kind),
        decreases steps@.len() - i,
    {
        assert(models[i as int] == steps@[i as int]@);
        if names_kind(&steps[i].matcher, kind) {
            return true;
        }
        i += 1;
    }
    false
}

impl CompiledRule {
    /// What a sequence says of captures and delimiters is true.
    pub open spec fn wf(&self) -> bool {
        match self@.sequence {
            Some(s) => sequence_wf(s),
            None => true,
        }
    }

    /// Whether this rule is a post-pass aggregation over other rules' results.
    pub fn is_aggregate(&self) -> (r: bool)
        ensures
            r == aggregates(self@),
    {
        self.compose.is_some() || self.count.is_some()
    }

    /// Whether the rule applies to a language.
    pub fn applies_to_language(&self, language: Language) -> (r: bool)
        ensures
            r == covers_language(self@, language),
    {
        match &self.languages {
            None => true,
            Some(langs) => has_language(langs, language),
        }
    }

    /// Whether a path relative to the checked directory is in the rule's scope.
    pub fn path_in_scope(&self, rel_path: &str) -> (r: bool)
        ensures
            r == covers_path(self@, rel_path@),
    {
        let included = match &self.includes {
            Some(set) => Some(set_is_match(set, rel_path)),
            None => None,
        };
        let excluded = match &self.excludes {
            Some(set) => Some(set_is_match(set, rel_path)),
            None => None,
        };
        scope_verdict(included, excluded)
    }

    /// Whether any pattern of this rule asks for elements of a kind.
    pub fn references_kind(&self, kind: EventKind) -> (r: bool)
        ensures
            r == rule_names(self@, kind),
    {
        if self.sequence.is_none() && self.compose.is_none() && self.count.is_none() {
            if let Some(k) = self.event {
                if k == kind {
                    return true;
                }
            }
        }
        if let Some(ws) = &self.where_scope {
            if clause_of_kind(&ws.contains, kind) || clause_of_kind(&ws.not_contains, kind)
                || clause_of_kind(&ws.followed_by, kind) {
                return true;
            }
        }
        if let Some(seq) = &self.sequence {
            if step_of_kind(&seq.steps, kind) {
                return true;
            }
        }
        false
    }
}

/// Excludes win: a path that an exclude glob matches is out of scope, whatever the
/// include globs say.
pub proof fn excludes_win(r: RuleModel, path: Seq<char>)
    requires
        r.excludes is Some,
        any_glob(r.excludes->0, path),
    ensures
        !covers_path(r, path),
{
}

/// The wildcard matches any one element.
pub proof fn wildcard_matches_anything(e: ElementModel, binds: BindsModel)
    ensures
        matcher_holds(MatcherModel::Pat { kind: None, preds: Seq::empty() }, e, binds),
        clause_holds(ClauseModel { kind: None, preds: Seq::empty() }, e),
{
}

} // verus!
