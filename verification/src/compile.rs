//! Compilation of rules: from what a rule file says to matchers with globs and
//! expressions built.

use vstd::prelude::*;

use crate::event::{kind_of_name, EventKind};
use crate::number::{number_of, parse_number, Number};
use crate::outside::{
    builder_add,
    builder_build,
    builder_globs,
    builder_new,
    glob_fault,
    glob_new,
    globset_fault,
    regex_fault,
    regex_new,
    PathGlobs,
    Pattern,
};
use crate::rules::{
    any_captures,
    balance_of,
    balanced,
    closer,
    closes_delimiter,
    delimiter,
    matcher_refers,
    opens_delimiter,
    pair_texts,
    pred_refers,
    rule_names,
    sequence_wf,
    step_captures,
    AttrPred,
    Balance,
    ClauseMatcher,
    ClauseModel,
    CmpOp,
    CompiledCompose,
    CompiledCount,
    CompiledRule,
    CompiledSequence,
    CompiledStep,
    CompiledUnless,
    CompiledWhereScope,
    ComposeModel,
    CountModel,
    CountOp,
    CountScope,
    KeyPart,
    MatcherModel,
    PredModel,
    Quant,
    RuleModel,
    SequenceModel,
    SetOp,
    StepMatcher,
    StepModel,
    UnlessModel,
    WhereModel,
};
use crate::schema::{
    Attrs,
    AttrsModel,
    RawCompose,
    RawComposeModel,
    RawCount,
    RawCountModel,
    RawMatch,
    RawMatchModel,
    RawRule,
    RawRuleModel,
    RawSequence,
    RawSequenceModel,
    RawStep,
    RawStepModel,
    RawUnless,
    RawUnlessModel,
    RawWhereModel,
    RawWhereScope,
    RuleFile,
};
use crate::text::{
    contains_text,
    copy_text,
    has_text,
    join2,
    join3,
    join_list,
    joined,
    opt_text,
    same,
    split,
    split_on,
    texts,
    views,
};
use crate::value::{scalar_form, string_forms, yaml_scalar, yaml_strings, Datum, DatumModel};

verus! {

/// Why a rule file was rejected.
#[derive(Debug)]
pub enum RuleError {
    /// The file could not be read as rules.
    Parse(String),
    /// A rule does not compile.
    Compile { rule: String, msg: String },
}

/// The text of an error.
pub open spec fn error_text(e: RuleError) -> Seq<char> {
    match e {
        RuleError::Parse(msg) => "failed to parse rules: "@ + msg@,
        RuleError::Compile { rule, msg } => rule_fault(rule@, msg@),
    }
}

/// The text of a compile error.
pub open spec fn rule_fault(rule: Seq<char>, msg: Seq<char>) -> Seq<char> {
    "rule `"@ + rule + "`: "@ + msg
}

impl RuleError {
    /// The text of the error.
    pub fn message(&self) -> (r: String)
        ensures
            r@ == error_text(*self),
    {
        match self {
            RuleError::Parse(msg) => join2("failed to parse rules: ", msg.as_str()),
            RuleError::Compile { rule, msg } => {
                let head = join3("rule `", rule.as_str(), "`: ");
                join2(head.as_str(), msg.as_str())
            },
        }
    }
}

/// A list of results as a result of a list: the first failure, or all successes.
pub open spec fn collected<T, E>(items: Seq<Result<T, E>>) -> Result<Seq<T>, E>
    decreases items.len(),
{
    if items.len() == 0 {
        Ok(Seq::empty())
    } else {
        match collected(items.drop_last()) {
            Err(e) => Err(e),
            Ok(done) => match items.last() {
                Err(e) => Err(e),
                Ok(x) => Ok(done.push(x)),
            },
        }
    }
}

/// Once a list of results has failed, further results change nothing.
pub proof fn lemma_collected_fails<T, E>(items: Seq<Result<T, E>>, i: int)
    requires
        0 <= i <= items.len(),
        collected(items.take(i)) is Err,
    ensures
        collected(items) == collected(items.take(i)),
    decreases items.len() - i,
{
    if i < items.len() {
        assert(items.take(i + 1).drop_last() == items.take(i));
        lemma_collected_fails(items, i + 1);
    } else {
        assert(items.take(i) == items);
    }
}

// ---------------------------------------------------------------------------
// Globs
// ---------------------------------------------------------------------------

/// A glob that parses, or the message about one that does not.
pub open spec fn checked_glob(p: Seq<char>) -> Result<Seq<char>, Seq<char>> {
    match glob_fault(p) {
        Some(e) => Err("invalid path glob `"@ + p + "`: "@ + e),
        None => Ok(p),
    }
}

/// The set of globs of a list: none for an empty list, else the first fault of a
/// glob, else a fault of the set as a whole, else the set.
pub open spec fn glob_set(patterns: Seq<Seq<char>>) -> Result<Option<Seq<Seq<char>>>, Seq<char>> {
    if patterns.len() == 0 {
        Ok(None)
    } else {
        match collected(patterns.map_values(|p: Seq<char>| checked_glob(p))) {
            Err(e) => Err(e),
            Ok(globs) => match globset_fault(globs) {
                Some(e) => Err("could not build glob set: "@ + e),
                None => Ok(Some(globs)),
            },
        }
    }
}

fn build_globset(patterns: &Vec<String>) -> (r: Result<Option<PathGlobs>, String>)
    ensures
        match r {
            Ok(s) => glob_set(texts(patterns@)) == Ok::<Option<Seq<Seq<char>>>, Seq<char>>(
                crate::rules::opt_globs(s),
            ),
            Err(e) => glob_set(texts(patterns@)) == Err::<Option<Seq<Seq<char>>>, Seq<char>>(e@),
        },
{
    if patterns.len() == 0 {
        return Ok(None);
    }
    let ghost all = texts(patterns@).map_values(|p: Seq<char>| checked_glob(p));
    let mut b = builder_new();
    let mut i: usize = 0;
    assert(all.take(0) == Seq::<Result<Seq<char>, Seq<char>>>::empty());
    while i < patterns.len()
        invariant
            i <= patterns@.len(),
            all == texts(patterns@).map_values(|p: Seq<char>| checked_glob(p)),
            collected(all.take(i as int)) == Ok::<Seq<Seq<char>>, Seq<char>>(builder_globs(b)),
        decreases patterns@.len() - i,
    {
        assert(all.take(i + 1).drop_last() == all.take(i as int));
        assert(all.take(i + 1).last() == checked_glob(patterns@[i as int]@));
        match glob_new(patterns[i].as_str()) {
            Ok(g) => {
                builder_add(&mut b, g);
            },
            Err(e) => {
                proof {
                    lemma_collected_fails(all, i + 1);
                }
                let head = join3("invalid path glob `", patterns[i].as_str(), "`: ");
                return Err(join2(head.as_str(), e.as_str()));
            },
        }
        i += 1;
    }
    assert(all.take(i as int) == all);
    match builder_build(&b) {
        Ok(s) => Ok(Some(s)),
        Err(e) => Err(join2("could not build glob set: ", e.as_str())),
    }
}

// ---------------------------------------------------------------------------
// Predicates
// ---------------------------------------------------------------------------

/// A scalar value, or the message that one was expected.
pub open spec fn scalar_or_fault(key: Seq<char>, v: DatumModel) -> Result<Seq<char>, Seq<char>> {
    match scalar_form(v) {
        Some(s) => Ok(s),
        None => Err("attr `"@ + key + "` expects a scalar value"@),
    }
}

/// A number, or the message that one was expected.
pub open spec fn number_or_fault(key: Seq<char>, v: DatumModel) -> Result<Number, Seq<char>> {
    let n = match scalar_form(v) {
        Some(s) => number_of(s),
        None => None,
    };
    match n {
        Some(x) => Ok(x),
        None => Err("attr `"@ + key + "` expects a number"@),
    }
}

/// A pattern that compiles, or the message about one that does not.
pub open spec fn regex_or_fault(key: Seq<char>, v: DatumModel) -> Result<Seq<char>, Seq<char>> {
    match scalar_or_fault(key, v) {
        Err(e) => Err(e),
        Ok(s) => match regex_fault(s) {
            Some(e) => Err("invalid regex for attr `"@ + key + "`: "@ + e),
            None => Ok(s),
        },
    }
}

/// A comparison with a number.
pub open spec fn cmp_or_fault(
    attr: Seq<char>,
    op: CmpOp,
    n: Result<Number, Seq<char>>,
) -> Result<PredModel, Seq<char>> {
    match n {
        Ok(n) => Ok(PredModel::Cmp { attr, op, n }),
        Err(e) => Err(e),
    }
}

/// The predicate of a key and a value. The key is a field name, followed by an
/// operator after a dot.
pub open spec fn pred_of(key: Seq<char>, v: DatumModel) -> Result<PredModel, Seq<char>> {
    let parts = split_on(key, '.');
    let attr = parts[0];
    let ops = parts.drop_first();
    if ops == Seq::<Seq<char>>::empty() {
        match scalar_or_fault(key, v) {
            Ok(value) => Ok(PredModel::Eq { attr, value }),
            Err(e) => Err(e),
        }
    } else if ops == seq!["any"@] {
        Ok(PredModel::AnyOf { attr, values: string_forms(v) })
    } else if ops == seq!["regex"@] || ops == seq!["any"@, "regex"@] {
        match regex_or_fault(key, v) {
            Ok(re) => Ok(PredModel::Regex { attr, re }),
            Err(e) => Err(e),
        }
    } else if ops == seq!["not"@, "regex"@] {
        match regex_or_fault(key, v) {
            Ok(re) => Ok(PredModel::NotRegex { attr, re }),
            Err(e) => Err(e),
        }
    } else if ops == seq!["gt"@] {
        cmp_or_fault(attr, CmpOp::Gt, number_or_fault(key, v))
    } else if ops == seq!["lt"@] {
        cmp_or_fault(attr, CmpOp::Lt, number_or_fault(key, v))
    } else if ops == seq!["ge"@] {
        cmp_or_fault(attr, CmpOp::Ge, number_or_fault(key, v))
    } else if ops == seq!["le"@] {
        cmp_or_fault(attr, CmpOp::Le, number_or_fault(key, v))
    } else if ops == seq!["eq_ref"@] {
        match scalar_or_fault(key, v) {
            Ok(var) => Ok(PredModel::EqRef { attr, var }),
            Err(e) => Err(e),
        }
    } else if ops == seq!["ne_ref"@] {
        match scalar_or_fault(key, v) {
            Ok(var) => Ok(PredModel::NeRef { attr, var }),
            Err(e) => Err(e),
        }
    } else {
        Err("unknown attribute operator `."@ + joined(ops, "."@) + "` on `"@ + attr + "`"@)
    }
}

fn scalar_of(key: &str, v: &Datum) -> (r: Result<String, String>)
    ensures
        match r {
            Ok(s) => scalar_or_fault(key@, v@) == Ok::<Seq<char>, Seq<char>>(s@),
            Err(e) => scalar_or_fault(key@, v@) == Err::<Seq<char>, Seq<char>>(e@),
        },
{
    match yaml_scalar(v) {
        Some(s) => Ok(s),
        None => Err(join3("attr `", key, "` expects a scalar value")),
    }
}

fn number_in(key: &str, v: &Datum) -> (r: Result<Number, String>)
    ensures
        match r {
            Ok(n) => number_or_fault(key@, v@) == Ok::<Number, Seq<char>>(n),
            Err(e) => number_or_fault(key@, v@) == Err::<Number, Seq<char>>(e@),
        },
{
    if let Some(s) = yaml_scalar(v) {
        if let Some(n) = parse_number(s.as_str()) {
            return Ok(n);
        }
    }
    Err(join3("attr `", key, "` expects a number"))
}

fn regex_of(key: &str, v: &Datum) -> (r: Result<Pattern, String>)
    ensures
        match r {
            Ok(re) => regex_or_fault(key@, v@) == Ok::<Seq<char>, Seq<char>>(re@),
            Err(e) => regex_or_fault(key@, v@) == Err::<Seq<char>, Seq<char>>(e@),
        },
{
    match scalar_of(key, v) {
        Err(e) => Err(e),
        Ok(s) => match regex_new(s.as_str()) {
            Ok(re) => Ok(re),
            Err(e) => {
                let head = join3("invalid regex for attr `", key, "`: ");
                Err(join2(head.as_str(), e.as_str()))
            },
        },
    }
}

fn cmp_of(key: &str, attr: String, op: CmpOp, v: &Datum) -> (r: Result<AttrPred, String>)
    ensures
        match r {
            Ok(p) => cmp_or_fault(attr@, op, number_or_fault(key@, v@)) == Ok::<PredModel, Seq<char>>(p@),
            Err(e) => cmp_or_fault(attr@, op, number_or_fault(key@, v@)) == Err::<PredModel, Seq<char>>(
                e@,
            ),
        },
{
    match number_in(key, v) {
        Ok(n) => Ok(AttrPred::Cmp { attr, op, n }),
        Err(e) => Err(e),
    }
}

// Whether the parts of a key after the first are a given operator.
fn is_op1(parts: &Vec<String>, a: &str) -> (r: bool)
    requires
        parts@.len() > 0,
    ensures
        r == (texts(parts@).drop_first() == seq![a@]),
{
    let ghost ops = texts(parts@).drop_first();
    assert(ops.len() == parts@.len() - 1 && seq![a@].len() == 1);
    if parts.len() != 2 {
        return false;
    }
    let r = same(parts[1].as_str(), a);
    assert(ops[0] == parts@[1]@);
    assert(r ==> ops =~= seq![a@]);
    r
}

fn is_op2(parts: &Vec<String>, a: &str, b: &str) -> (r: bool)
    requires
        parts@.len() > 0,
    ensures
        r == (texts(parts@).drop_first() == seq![a@, b@]),
{
    let ghost ops = texts(parts@).drop_first();
    assert(ops.len() == parts@.len() - 1 && seq![a@, b@].len() == 2);
    if parts.len() != 3 {
        return false;
    }
    let r = same(parts[1].as_str(), a) && same(parts[2].as_str(), b);
    assert(ops[0] == parts@[1]@);
    assert(ops[1] == parts@[2]@);
    assert(r ==> ops =~= seq![a@, b@]);
    r
}

/// Compiles the predicate of a key and a value.
pub fn compile_pred(key: &str, value: &Datum) -> (r: Result<AttrPred, String>)
    ensures
        match r {
            Ok(p) => pred_of(key@, value@) == Ok::<PredModel, Seq<char>>(p@),
            Err(e) => pred_of(key@, value@) == Err::<PredModel, Seq<char>>(e@),
        },
{
    let mut parts = split(key, '.');
    let ghost all = texts(parts@);
    let attr = parts[0].clone();
    assert(attr@ == all[0]);
    if parts.len() == 1 {
        assert(all.drop_first() =~= Seq::<Seq<char>>::empty());
        return match scalar_of(key, value) {
            Ok(value) => Ok(AttrPred::Eq { attr, value }),
            Err(e) => Err(e),
        };
    }
    assert(all.drop_first().len() > 0);
    if is_op1(&parts, "any") {
        return Ok(AttrPred::AnyOf { attr, values: yaml_strings(value) });
    }
    if is_op1(&parts, "regex") || is_op2(&parts, "any", "regex") {
        return match regex_of(key, value) {
            Ok(re) => Ok(AttrPred::Regex { attr, re }),
            Err(e) => Err(e),
        };
    }
    if is_op2(&parts, "not", "regex") {
        return match regex_of(key, value) {
            Ok(re) => Ok(AttrPred::NotRegex { attr, re }),
            Err(e) => Err(e),
        };
    }
    if is_op1(&parts, "gt") {
        return cmp_of(key, attr, CmpOp::Gt, value);
    }
    if is_op1(&parts, "lt") {
        return cmp_of(key, attr, CmpOp::Lt, value);
    }
    if is_op1(&parts, "ge") {
        return cmp_of(key, attr, CmpOp::Ge, value);
    }
    if is_op1(&parts, "le") {
        return cmp_of(key, attr, CmpOp::Le, value);
    }
    if is_op1(&parts, "eq_ref") {
        return match scalar_of(key, value) {
            Ok(var) => Ok(AttrPred::EqRef { attr, var }),
            Err(e) => Err(e),
        };
    }
    if is_op1(&parts, "ne_ref") {
        return match scalar_of(key, value) {
            Ok(var) => Ok(AttrPred::NeRef { attr, var }),
            Err(e) => Err(e),
        };
    }
    let first = parts.remove(0);
    assert(texts(parts@) =~= all.drop_first());
    let ops = join_list(&parts, ".");
    let head = join3("unknown attribute operator `.", ops.as_str(), "` on `");
    Err(join3(head.as_str(), attr.as_str(), "`"))
}

/// The predicates of a pattern, in the order of their keys.
pub open spec fn preds_of(attrs: AttrsModel) -> Result<Seq<PredModel>, Seq<char>> {
    collected(attrs.map_values(|e: (Seq<char>, DatumModel)| pred_of(e.0, e.1)))
}

fn compile_preds(attrs: &Attrs) -> (r: Result<Vec<AttrPred>, String>)
    ensures
        match r {
            Ok(v) => preds_of(attrs@) == Ok::<Seq<PredModel>, Seq<char>>(views(v@)),
            Err(e) => preds_of(attrs@) == Err::<Seq<PredModel>, Seq<char>>(e@),
        },
{
    let ghost all = attrs@.map_values(|e: (Seq<char>, DatumModel)| pred_of(e.0, e.1));
    let mut out: Vec<AttrPred> = Vec::new();
    let mut i: usize = 0;
    assert(all.take(0) =~= Seq::<Result<PredModel, Seq<char>>>::empty());
    assert(views(out@) =~= Seq::<PredModel>::empty());
    while i < attrs.entries.len()
        invariant
            i <= attrs.entries@.len(),
            all == attrs@.map_values(|e: (Seq<char>, DatumModel)| pred_of(e.0, e.1)),
            collected(all.take(i as int)) == Ok::<Seq<PredModel>, Seq<char>>(views(out@)),
        decreases attrs.entries@.len() - i,
    {
        assert(all.take(i + 1).drop_last() =~= all.take(i as int));
        assert(attrs@[i as int] == crate::order::entry_view(attrs.entries@[i as int]));
        assert(all.take(i + 1).last() == pred_of(
            attrs.entries@[i as int].0@,
            attrs.entries@[i as int].1@,
        ));
        match compile_pred(attrs.entries[i].0.as_str(), &attrs.entries[i].1) {
            Ok(p) => {
                let ghost before = out@;
                out.push(p);
                assert(views(out@) =~= views(before).push(p@));
            },
            Err(e) => {
                proof {
                    lemma_collected_fails(all, i + 1);
                }
                return Err(e);
            },
        }
        i += 1;
    }
    assert(all.take(i as int) =~= all);
    Ok(out)
}

// ---------------------------------------------------------------------------
// Steps and sequences
// ---------------------------------------------------------------------------

/// The kind that a step asks for: none, or one by its name.
pub open spec fn step_kind(event: Option<Seq<char>>) -> Result<Option<EventKind>, Seq<char>> {
    match event {
        None => Ok(None),
        Some(name) => if name == "Any"@ {
            Ok(None)
        } else {
            match kind_of_name(name) {
                Some(k) => Ok(Some(k)),
                None => Err("unknown event kind `"@ + name + "`"@),
            }
        },
    }
}

/// The matcher of a step.
pub open spec fn matcher_of(raw: RawStepModel) -> Result<MatcherModel, Seq<char>>
    decreases raw,
{
    match raw.alt {
        Some(alts) => match collected(alternatives_of(alts)) {
            Ok(ms) => Ok(MatcherModel::Alt(ms)),
            Err(e) => Err(e),
        },
        None => match step_kind(raw.event) {
            Err(e) => Err(e),
            Ok(kind) => match preds_of(raw.attrs) {
                Ok(preds) => Ok(MatcherModel::Pat { kind, preds }),
                Err(e) => Err(e),
            },
        },
    }
}

/// The matchers of alternatives, each of which has to be a single step.
pub open spec fn alternatives_of(alts: Seq<Seq<RawStepModel>>) -> Seq<Result<MatcherModel, Seq<char>>>
    decreases alts,
{
    Seq::new(
        alts.len(),
        |i: int|
            if 0 <= i < alts.len() && alts[i].len() == 1 {
                matcher_of(alts[i][0])
            } else {
                Err("each `alt` alternative must be a single step"@)
            },
    )
}

fn parse_kind(event: &Option<String>) -> (r: Result<Option<EventKind>, String>)
    ensures
        match r {
            Ok(k) => step_kind(opt_text(*event)) == Ok::<Option<EventKind>, Seq<char>>(k),
            Err(e) => step_kind(opt_text(*event)) == Err::<Option<EventKind>, Seq<char>>(e@),
        },
{
    match event {
        None => Ok(None),
        Some(name) => if same(name.as_str(), "Any") {
            Ok(None)
        } else {
            match EventKind::from_name(name.as_str()) {
                Some(k) => Ok(Some(k)),
                None => Err(join3("unknown event kind `", name.as_str(), "`")),
            }
        },
    }
}

fn step_matcher(raw: &RawStep) -> (r: Result<StepMatcher, String>)
    ensures
        match r {
            Ok(m) => matcher_of(raw@) == Ok::<MatcherModel, Seq<char>>(m@),
            Err(e) => matcher_of(raw@) == Err::<MatcherModel, Seq<char>>(e@),
        },
    decreases raw,
{
    if let Some(alts) = &raw.alt {
        let ghost all = alternatives_of(raw@.alt->0);
        let mut matchers: Vec<StepMatcher> = Vec::new();
        let mut i: usize = 0;
        assert(all.take(0) =~= Seq::<Result<MatcherModel, Seq<char>>>::empty());
        assert(views(matchers@) =~= Seq::<MatcherModel>::empty());
        while i < alts.len()
            invariant
                i <= alts@.len(),
                raw.alt == Some(*alts),
                raw@.alt is Some,
                all == alternatives_of(raw@.alt->0),
                all.len() == alts@.len(),
                collected(all.take(i as int)) == Ok::<Seq<MatcherModel>, Seq<char>>(views(matchers@)),
            decreases alts@.len() - i,
        {
            assert(all.take(i + 1).drop_last() =~= all.take(i as int));
            assert(raw@.alt->0[i as int].len() == alts@[i as int]@.len());
            if alts[i].len() != 1 {
                proof {
                    lemma_collected_fails(all, i + 1);
                }
                return Err("each `alt` alternative must be a single step".to_owned());
            }
            assert(raw@.alt->0[i as int][0] == alts@[i as int]@[0]@);
            assert(decreases_to!(raw => raw.alt));
            assert(decreases_to!(raw.alt => raw.alt->0));
            assert(decreases_to!(alts@[i as int] => alts@[i as int]@[0]));
            match step_matcher(&alts[i][0]) {
                Ok(m) => {
                    let ghost before = matchers@;
                    matchers.push(m);
                    assert(views(matchers@) =~= views(before).push(m@));
                },
                Err(e) => {
                    proof {
                        lemma_collected_fails(all, i + 1);
                    }
                    return Err(e);
                },
            }
            i += 1;
        }
        assert(all.take(i as int) =~= all);
        let r = StepMatcher::Alt(matchers);
        assert(r@->Alt_0 =~= views(matchers@));
        return Ok(r);
    }
    match parse_kind(&raw.event) {
        Err(e) => Err(e),
        Ok(kind) => match compile_preds(&raw.attrs) {
            Ok(preds) => Ok(StepMatcher::Pat { kind, preds }),
            Err(e) => Err(e),
        },
    }
}

/// The quantifier of a name. One-or-more is expanded elsewhere and is `One` here.
pub open spec fn quant_of(quant: Option<Seq<char>>) -> Result<Quant, Seq<char>> {
    match quant {
        None => Ok(Quant::One),
        Some(q) => if q == "one"@ || q == "one_or_more"@ {
            Ok(Quant::One)
        } else if q == "optional"@ {
            Ok(Quant::Optional)
        } else if q == "zero_or_more"@ {
            Ok(Quant::ZeroOrMore)
        } else {
            Err("unknown quantifier `"@ + q + "`"@)
        },
    }
}

fn parse_quant(quant: &Option<String>) -> (r: Result<Quant, String>)
    ensures
        match r {
            Ok(q) => quant_of(opt_text(*quant)) == Ok::<Quant, Seq<char>>(q),
            Err(e) => quant_of(opt_text(*quant)) == Err::<Quant, Seq<char>>(e@),
        },
{
    match quant {
        None => Ok(Quant::One),
        Some(q) => if same(q.as_str(), "one") || same(q.as_str(), "one_or_more") {
            Ok(Quant::One)
        } else if same(q.as_str(), "optional") {
            Ok(Quant::Optional)
        } else if same(q.as_str(), "zero_or_more") {
            Ok(Quant::ZeroOrMore)
        } else {
            Err(join3("unknown quantifier `", q.as_str(), "`"))
        },
    }
}

/// The compiled steps of one step: itself, or for one-or-more a first match
/// followed by a repetition that captures nothing.
pub open spec fn steps_of(raw: RawStepModel) -> Result<Seq<StepModel>, Seq<char>> {
    match matcher_of(raw) {
        Err(e) => Err(e),
        Ok(matcher) => match quant_of(raw.quant) {
            Err(e) => Err(e),
            Ok(quant) => {
                let negate = raw.negate == Some(true);
                let bind = match raw.bind {
                    Some(b) => b,
                    None => Seq::empty(),
                };
                let first = StepModel { matcher, quant, negate, bind };
                if raw.quant == Some("one_or_more"@) {
                    let more = StepModel {
                        matcher,
                        quant: Quant::ZeroOrMore,
                        negate,
                        bind: Seq::empty(),
                    };
                    Ok(seq![first, more])
                } else {
                    Ok(seq![first])
                }
            },
        },
    }
}

fn bind_list(raw: &RawStep) -> (r: Vec<(String, String)>)
    ensures
        pair_texts(r@) == (match raw@.bind {
            Some(b) => b,
            None => Seq::empty(),
        }),
{
    let mut out: Vec<(String, String)> = Vec::new();
    if let Some(b) = &raw.bind {
        let mut i: usize = 0;
        while i < b.entries.len()
            invariant
                i <= b.entries@.len(),
                out@.len() == i,
                forall|k: int| 0 <= k < i ==> #[trigger] out@[k] == b.entries@[k],
            decreases b.entries@.len() - i,
        {
            out.push((b.entries[i].0.clone(), b.entries[i].1.clone()));
            i += 1;
        }
        assert(pair_texts(out@) =~= b@);
    } else {
        assert(pair_texts(out@) =~= Seq::<(Seq<char>, Seq<char>)>::empty());
    }
    out
}

/// Compiles one step.
pub fn compile_step(raw: &RawStep) -> (r: Result<Vec<CompiledStep>, String>)
    ensures
        match r {
            Ok(v) => steps_of(raw@) == Ok::<Seq<StepModel>, Seq<char>>(views(v@)),
            Err(e) => steps_of(raw@) == Err::<Seq<StepModel>, Seq<char>>(e@),
        },
{
    let matcher = match step_matcher(raw) {
        Ok(m) => m,
        Err(e) => {
            return Err(e);
        },
    };
    let negate = match raw.negate {
        Some(b) => b,
        None => false,
    };
    let bind = bind_list(raw);
    let quant = match parse_quant(&raw.quant) {
        Ok(q) => q,
        Err(e) => {
            return Err(e);
        },
    };
    let repeats = match &raw.quant {
        Some(q) => same(q.as_str(), "one_or_more"),
        None => false,
    };
    let mut out: Vec<CompiledStep> = Vec::new();
    if repeats {
        let again = matcher.duplicate();
        let none: Vec<(String, String)> = Vec::new();
        assert(pair_texts(none@) =~= Seq::<(Seq<char>, Seq<char>)>::empty());
        out.push(CompiledStep { matcher, quant, negate, bind });
        out.push(CompiledStep { matcher: again, quant: Quant::ZeroOrMore, negate, bind: none });
        assert(views(out@) =~= seq![out@[0]@, out@[1]@]);
    } else {
        out.push(CompiledStep { matcher, quant, negate, bind });
        assert(views(out@) =~= seq![out@[0]@]);
    }
    Ok(out)
}

fn matcher_has_refs(m: &StepMatcher) -> (r: bool)
    ensures
        r == matcher_refers(m@),
    decreases m,
{
    match m {
        StepMatcher::Pat { preds, .. } => {
            let ghost models = views(preds@);
            let mut i: usize = 0;
            while i < preds.len()
                invariant
                    i <= preds@.len(),
                    m@ is Pat,
                    models == views(preds@),
                    models == m@->preds,
                    forall|k: int| 0 <= k < i ==> !pred_refers(#[trigger] models[k]),
                decreases preds@.len() - i,
            {
                assert(models[i as int] == preds@[i as int]@);
                match &preds[i] {
                    AttrPred::EqRef { .. } => {
                        return true;
                    },
                    AttrPred::NeRef { .. } => {
                        return true;
                    },
                    _ => {},
                }
                i += 1;
            }
            false
        },
        StepMatcher::Alt(alts) => {
            let ghost models = m@->Alt_0;
            let mut i: usize = 0;
            while i < alts.len()
                invariant
                    i <= alts@.len(),
                    *m == StepMatcher::Alt(*alts),
                    models == m@->Alt_0,
                    models.len() == alts@.len(),
                    forall|k: int| 0 <= k < i ==> !matcher_refers(#[trigger] models[k]),
                decreases alts@.len() - i,
            {
                assert(decreases_to!(m => m->Alt_0));
                assert(models[i as int] == alts@[i as int]@);
                if matcher_has_refs(&alts[i]) {
                    return true;
                }
                i += 1;
            }
            false
        },
    }
}

fn step_has_captures(step: &CompiledStep) -> (r: bool)
    ensures
        r == step_captures(step@),
{
    step.bind.len() > 0 || matcher_has_refs(&step.matcher)
}

/// Several lists, one after the other.
pub open spec fn concat<T>(lists: Seq<Seq<T>>) -> Seq<T>
    decreases lists.len(),
{
    if lists.len() == 0 {
        Seq::empty()
    } else {
        concat(lists.drop_last()) + lists.last()
    }
}

/// Whether an anchor restricts a sequence to one block: it names the start and the
/// end of a scope.
pub open spec fn anchored(anchor: Option<Option<Seq<char>>>) -> bool {
    match anchor {
        Some(Some(w)) => has_text(w, "ScopeStart"@) && has_text(w, "ScopeEnd"@),
        _ => false,
    }
}

/// The compiled form of a sequence.
pub open spec fn sequence_of(raw: RawSequenceModel) -> Result<SequenceModel, Seq<char>> {
    match collected(raw.steps.map_values(|s: RawStepModel| steps_of(s))) {
        Err(e) => Err(e),
        Ok(lists) => Ok(
            SequenceModel {
                within_scope: anchored(raw.anchor),
                steps: concat(lists),
                has_captures: any_captures(concat(lists)),
                balance: balance_of(concat(lists)),
            },
        ),
    }
}

fn have_captures(steps: &Vec<CompiledStep>) -> (r: bool)
    ensures
        r == any_captures(views(steps@)),
{
    let ghost models = views(steps@);
    let mut i: usize = 0;
    while i < steps.len()
        invariant
            i <= steps@.len(),
            models == views(steps@),
            forall|k: int| 0 <= k < i ==> !step_captures(#[trigger] models[k]),
        decreases steps@.len() - i,
    {
        assert(models[i as int] == steps@[i as int]@);
        if step_has_captures(&steps[i]) {
            return true;
        }
        i += 1;
    }
    false
}

fn step_delimiter(step: &CompiledStep) -> (r: Option<&str>)
    ensures
        match r {
            Some(d) => delimiter(step@) == Some(d@),
            None => delimiter(step@) is None,
        },
{
    if step.quant != Quant::One || step.negate {
        return None;
    }
    match &step.matcher {
        StepMatcher::Pat { kind, preds } => {
            if kind.is_none() && preds.len() == 1 {
                assert(views(preds@)[0] == preds@[0]@);
                if let AttrPred::Eq { attr, value } = &preds[0] {
                    if same(attr.as_str(), "text") || same(attr.as_str(), "node_kind") {
                        return Some(value.as_str());
                    }
                }
            }
            None
        },
        StepMatcher::Alt(_) => None,
    }
}

fn is_delimiter(step: &CompiledStep, d: &str) -> (r: bool)
    ensures
        r == (delimiter(step@) == Some(d@)),
{
    match step_delimiter(step) {
        Some(s) => same(s, d),
        None => false,
    }
}

pub proof fn lemma_balanced_shape(steps: Seq<StepModel>, n: int)
    requires
        0 <= n <= steps.len(),
    ensures
        balanced(steps, n).0.len() == steps.len(),
        forall|i: int| 0 <= i < balanced(steps, n).1.len() ==> 0 <= #[trigger] balanced(steps, n).1[i] < n,
    decreases n,
{
    if n > 0 {
        lemma_balanced_shape(steps, n - 1);
        let open = balanced(steps, n - 1).1;
        let next = balanced(steps, n).1;
        assert forall|i: int| 0 <= i < next.len() implies 0 <= #[trigger] next[i] < n by {
            if i < open.len() {
                assert(0 <= open[i] < n - 1);
            }
        }
    }
}

fn find_balance(steps: &Vec<CompiledStep>) -> (r: Vec<Balance>)
    ensures
        r@ == balance_of(views(steps@)),
{
    let ghost models = views(steps@);
    let mut roles: Vec<Balance> = Vec::new();
    let mut k: usize = 0;
    while k < steps.len()
        invariant
            k <= steps@.len(),
            roles@ == Seq::new(k as nat, |i: int| Balance::Free),
        decreases steps@.len() - k,
    {
        roles.push(Balance::Free);
        k += 1;
        assert(roles@ =~= Seq::new(k as nat, |i: int| Balance::Free));
    }
    let mut open: Vec<usize> = Vec::new();
    let mut i: usize = 0;
    assert(open@.map_values(|p: usize| p as int) =~= Seq::<int>::empty());
    while i < steps.len()
        invariant
            i <= steps@.len(),
            models == views(steps@),
            roles@.len() == steps@.len(),
            balanced(models, i as int) == (roles@, open@.map_values(|p: usize| p as int)),
        decreases steps@.len() - i,
    {
        let ghost places = open@.map_values(|p: usize| p as int);
        proof {
            lemma_balanced_shape(models, i as int);
            assert(models[i as int] == steps@[i as int]@);
        }
        let step = &steps[i];
        if is_delimiter(step, "(") || is_delimiter(step, "{") || is_delimiter(step, "[") {
            open.push(i);
            assert(open@.map_values(|p: usize| p as int) =~= places.push(i as int));
        } else if open.len() > 0 {
            let top: usize = open[open.len() - 1];
            assert(places.last() == top);
            assert(balanced(models, i as int).1[places.len() - 1] == top);
            assert(models[top as int] == steps@[top as int]@);
            let first = &steps[top];
            let closes = (is_delimiter(first, "(") && is_delimiter(step, ")")) || (is_delimiter(
                first,
                "{",
            ) && is_delimiter(step, "}")) || (is_delimiter(first, "[") && is_delimiter(step, "]"));
            if closes {
                let gone = open.pop();
                assert(open@.map_values(|p: usize| p as int) =~= places.drop_last());
                roles[top] = Balance::Opens;
                roles[i] = Balance::Closes;
            }
        }
        i += 1;
    }
    roles
}

/// Compiles a sequence.
pub fn compile_sequence(raw: &RawSequence) -> (r: Result<CompiledSequence, String>)
    ensures
        match r {
            Ok(s) => sequence_of(raw@) == Ok::<SequenceModel, Seq<char>>(s@) && sequence_wf(s@),
            Err(e) => sequence_of(raw@) == Err::<SequenceModel, Seq<char>>(e@),
        },
{
    let within_scope = match &raw.anchor {
        Some(a) => match &a.within {
            Some(w) => contains_text(w.as_str(), "ScopeStart") && contains_text(
                w.as_str(),
                "ScopeEnd",
            ),
            None => false,
        },
        None => false,
    };
    let ghost all = raw@.steps.map_values(|s: RawStepModel| steps_of(s));
    let ghost mut lists: Seq<Seq<StepModel>> = Seq::empty();
    let mut steps: Vec<CompiledStep> = Vec::new();
    let mut i: usize = 0;
    assert(all.take(0) =~= Seq::<Result<Seq<StepModel>, Seq<char>>>::empty());
    assert(views(steps@) =~= Seq::<StepModel>::empty());
    while i < raw.steps.len()
        invariant
            i <= raw.steps@.len(),
            all == raw@.steps.map_values(|s: RawStepModel| steps_of(s)),
            collected(all.take(i as int)) == Ok::<Seq<Seq<StepModel>>, Seq<char>>(lists),
            views(steps@) == concat(lists),
        decreases raw.steps@.len() - i,
    {
        assert(all.take(i + 1).drop_last() =~= all.take(i as int));
        assert(all.take(i + 1).last() == steps_of(raw.steps@[i as int]@));
        match compile_step(&raw.steps[i]) {
            Ok(mut more) => {
                let ghost before = steps@;
                let ghost added = more@;
                steps.append(&mut more);
                assert(views(steps@) =~= views(before) + views(added));
                proof {
                    let next = lists.push(views(added));
                    assert(next.drop_last() =~= lists);
                    lists = next;
                }
            },
            Err(e) => {
                proof {
                    lemma_collected_fails(all, i + 1);
                }
                return Err(e);
            },
        }
        i += 1;
    }
    assert(all.take(i as int) =~= all);
    let has_captures = have_captures(&steps);
    let balance = find_balance(&steps);
    Ok(CompiledSequence { within_scope, steps, has_captures, balance })
}

// ---------------------------------------------------------------------------
// Clauses, set operations, thresholds
// ---------------------------------------------------------------------------

/// The compiled form of a clause's pattern.
pub open spec fn clause_of(raw: RawMatchModel) -> Result<ClauseModel, Seq<char>> {
    match preds_of(raw.attrs) {
        Ok(preds) => Ok(ClauseModel { kind: raw.event, preds }),
        Err(e) => Err(e),
    }
}

/// The compiled form of the patterns of several clauses.
pub open spec fn clauses_of(raws: Seq<RawMatchModel>) -> Result<Seq<ClauseModel>, Seq<char>> {
    collected(raws.map_values(|m: RawMatchModel| clause_of(m)))
}

/// The compiled form of the clauses of a `where scope` predicate.
pub open spec fn where_of(raw: RawWhereModel) -> Result<WhereModel, Seq<char>> {
    match clauses_of(raw.contains) {
        Err(e) => Err(e),
        Ok(contains) => match clauses_of(raw.not_contains) {
            Err(e) => Err(e),
            Ok(not_contains) => match clauses_of(raw.followed_by) {
                Err(e) => Err(e),
                Ok(followed_by) => Ok(WhereModel { contains, not_contains, followed_by }),
            },
        },
    }
}

fn compile_clause(raw: &RawMatch) -> (r: Result<ClauseMatcher, String>)
    ensures
        match r {
            Ok(c) => clause_of(raw@) == Ok::<ClauseModel, Seq<char>>(c@),
            Err(e) => clause_of(raw@) == Err::<ClauseModel, Seq<char>>(e@),
        },
{
    match compile_preds(&raw.attrs) {
        Ok(preds) => Ok(ClauseMatcher { kind: raw.event, preds }),
        Err(e) => Err(e),
    }
}

fn compile_clauses(raws: &Vec<RawMatch>) -> (r: Result<Vec<ClauseMatcher>, String>)
    ensures
        match r {
            Ok(v) => clauses_of(views(raws@)) == Ok::<Seq<ClauseModel>, Seq<char>>(views(v@)),
            Err(e) => clauses_of(views(raws@)) == Err::<Seq<ClauseModel>, Seq<char>>(e@),
        },
{
    let ghost all = views(raws@).map_values(|m: RawMatchModel| clause_of(m));
    let mut out: Vec<ClauseMatcher> = Vec::new();
    let mut i: usize = 0;
    assert(all.take(0) =~= Seq::<Result<ClauseModel, Seq<char>>>::empty());
    assert(views(out@) =~= Seq::<ClauseModel>::empty());
    while i < raws.len()
        invariant
            i <= raws@.len(),
            all == views(raws@).map_values(|m: RawMatchModel| clause_of(m)),
            collected(all.take(i as int)) == Ok::<Seq<ClauseModel>, Seq<char>>(views(out@)),
        decreases raws@.len() - i,
    {
        assert(all.take(i + 1).drop_last() =~= all.take(i as int));
        assert(all.take(i + 1).last() == clause_of(raws@[i as int]@));
        match compile_clause(&raws[i]) {
            Ok(c) => {
                let ghost before = out@;
                out.push(c);
                assert(views(out@) =~= views(before).push(c@));
            },
            Err(e) => {
                proof {
                    lemma_collected_fails(all, i + 1);
                }
                return Err(e);
            },
        }
        i += 1;
    }
    assert(all.take(i as int) =~= all);
    Ok(out)
}

/// Compiles the clauses of a `where scope` predicate.
pub fn compile_where_scope(raw: &RawWhereScope) -> (r: Result<CompiledWhereScope, String>)
    ensures
        match r {
            Ok(w) => where_of(raw@) == Ok::<WhereModel, Seq<char>>(w@),
            Err(e) => where_of(raw@) == Err::<WhereModel, Seq<char>>(e@),
        },
{
    let contains = match compile_clauses(&raw.contains) {
        Ok(c) => c,
        Err(e) => {
            return Err(e);
        },
    };
    let not_contains = match compile_clauses(&raw.not_contains) {
        Ok(c) => c,
        Err(e) => {
            return Err(e);
        },
    };
    let followed_by = match compile_clauses(&raw.followed_by) {
        Ok(c) => c,
        Err(e) => {
            return Err(e);
        },
    };
    Ok(CompiledWhereScope { contains, not_contains, followed_by })
}

/// The set operation of a name.
pub open spec fn set_op_of(op: Seq<char>) -> Result<SetOp, Seq<char>> {
    if op == "intersection"@ {
        Ok(SetOp::Intersection)
    } else if op == "union"@ {
        Ok(SetOp::Union)
    } else if op == "difference"@ {
        Ok(SetOp::Difference)
    } else {
        Err("unknown compose op `"@ + op + "`"@)
    }
}

/// The key component of a name.
pub open spec fn key_part_of(k: Seq<char>) -> Result<KeyPart, Seq<char>> {
    if k == "file"@ {
        Ok(KeyPart::File)
    } else if k == "function"@ {
        Ok(KeyPart::Function)
    } else {
        Err("unknown compose key `"@ + k + "`"@)
    }
}

/// The compiled form of a set operation. Without a key, violations are grouped by
/// file.
pub open spec fn compose_of(raw: RawComposeModel) -> Result<ComposeModel, Seq<char>> {
    match set_op_of(raw.op) {
        Err(e) => Err(e),
        Ok(op) => if raw.of.len() == 0 {
            Err("`compose.of` must list at least one rule id"@)
        } else if raw.key.len() == 0 {
            Ok(ComposeModel { op, of: raw.of, key: seq![KeyPart::File] })
        } else {
            match collected(raw.key.map_values(|k: Seq<char>| key_part_of(k))) {
                Err(e) => Err(e),
                Ok(key) => Ok(ComposeModel { op, of: raw.of, key }),
            }
        },
    }
}

fn parse_set_op(op: &str) -> (r: Result<SetOp, String>)
    ensures
        match r {
            Ok(o) => set_op_of(op@) == Ok::<SetOp, Seq<char>>(o),
            Err(e) => set_op_of(op@) == Err::<SetOp, Seq<char>>(e@),
        },
{
    if same(op, "intersection") {
        Ok(SetOp::Intersection)
    } else if same(op, "union") {
        Ok(SetOp::Union)
    } else if same(op, "difference") {
        Ok(SetOp::Difference)
    } else {
        Err(join3("unknown compose op `", op, "`"))
    }
}

fn parse_key_part(k: &str) -> (r: Result<KeyPart, String>)
    ensures
        match r {
            Ok(p) => key_part_of(k@) == Ok::<KeyPart, Seq<char>>(p),
            Err(e) => key_part_of(k@) == Err::<KeyPart, Seq<char>>(e@),
        },
{
    if same(k, "file") {
        Ok(KeyPart::File)
    } else if same(k, "function") {
        Ok(KeyPart::Function)
    } else {
        Err(join3("unknown compose key `", k, "`"))
    }
}

/// Compiles a set operation.
pub fn compile_compose(raw: &RawCompose) -> (r: Result<CompiledCompose, String>)
    ensures
        match r {
            Ok(c) => compose_of(raw@) == Ok::<ComposeModel, Seq<char>>(c@),
            Err(e) => compose_of(raw@) == Err::<ComposeModel, Seq<char>>(e@),
        },
{
    let op = match parse_set_op(raw.op.as_str()) {
        Ok(o) => o,
        Err(e) => {
            return Err(e);
        },
    };
    if raw.of.len() == 0 {
        return Err("`compose.of` must list at least one rule id".to_owned());
    }
    let mut key: Vec<KeyPart> = Vec::new();
    if raw.key.len() == 0 {
        key.push(KeyPart::File);
        assert(key@ =~= seq![KeyPart::File]);
        return Ok(CompiledCompose { op, of: raw.of.clone(), key });
    }
    let ghost all = raw@.key.map_values(|k: Seq<char>| key_part_of(k));
    let mut i: usize = 0;
    assert(all.take(0) =~= Seq::<Result<KeyPart, Seq<char>>>::empty());
    while i < raw.key.len()
        invariant
            i <= raw.key@.len(),
            all == raw@.key.map_values(|k: Seq<char>| key_part_of(k)),
            set_op_of(raw@.op) == Ok::<SetOp, Seq<char>>(op),
            raw.of@.len() > 0,
            raw.key@.len() > 0,
            collected(all.take(i as int)) == Ok::<Seq<KeyPart>, Seq<char>>(key@),
        decreases raw.key@.len() - i,
    {
        assert(all.take(i + 1).drop_last() =~= all.take(i as int));
        assert(all.take(i + 1).last() == key_part_of(raw.key@[i as int]@));
        match parse_key_part(raw.key[i].as_str()) {
            Ok(p) => {
                key.push(p);
            },
            Err(e) => {
                proof {
                    lemma_collected_fails(all, i + 1);
                }
                return Err(e);
            },
        }
        i += 1;
    }
    assert(all.take(i as int) =~= all);
    Ok(CompiledCompose { op, of: raw.of.clone(), key })
}

/// The scope of a name.
pub open spec fn count_scope_of(s: Seq<char>) -> Result<CountScope, Seq<char>> {
    if s == "file"@ {
        Ok(CountScope::File)
    } else if s == "function"@ {
        Ok(CountScope::Function)
    } else {
        Err("unknown count scope `"@ + s + "`"@)
    }
}

/// The threshold comparison of a name.
pub open spec fn count_op_of(s: Seq<char>) -> Result<CountOp, Seq<char>> {
    if s == "gt"@ {
        Ok(CountOp::Gt)
    } else if s == "lt"@ {
        Ok(CountOp::Lt)
    } else if s == "ge"@ {
        Ok(CountOp::Ge)
    } else if s == "le"@ {
        Ok(CountOp::Le)
    } else if s == "eq"@ {
        Ok(CountOp::Eq)
    } else {
        Err("unknown count op `"@ + s + "`"@)
    }
}

/// The compiled form of a threshold.
pub open spec fn count_of(raw: RawCountModel) -> Result<CountModel, Seq<char>> {
    match count_scope_of(raw.scope) {
        Err(e) => Err(e),
        Ok(scope) => match count_op_of(raw.op) {
            Err(e) => Err(e),
            Ok(op) => Ok(CountModel { rule: raw.rule, scope, op, n: raw.n }),
        },
    }
}

/// Compiles a threshold.
pub fn compile_count(raw: &RawCount) -> (r: Result<CompiledCount, String>)
    ensures
        match r {
            Ok(c) => count_of(raw@) == Ok::<CountModel, Seq<char>>(c@),
            Err(e) => count_of(raw@) == Err::<CountModel, Seq<char>>(e@),
        },
{
    let s = raw.scope.as_str();
    let scope = if same(s, "file") {
        CountScope::File
    } else if same(s, "function") {
        CountScope::Function
    } else {
        return Err(join3("unknown count scope `", s, "`"));
    };
    let o = raw.op.as_str();
    let op = if same(o, "gt") {
        CountOp::Gt
    } else if same(o, "lt") {
        CountOp::Lt
    } else if same(o, "ge") {
        CountOp::Ge
    } else if same(o, "le") {
        CountOp::Le
    } else if same(o, "eq") {
        CountOp::Eq
    } else {
        return Err(join3("unknown count op `", o, "`"));
    };
    Ok(CompiledCount { rule: raw.rule.clone(), scope, op, n: raw.n })
}

// ---------------------------------------------------------------------------
// Rules
// ---------------------------------------------------------------------------

/// The compiled include and exclude globs of a rule.
pub open spec fn paths_of(raw: RawRuleModel) -> Result<
    (Option<Seq<Seq<char>>>, Option<Seq<Seq<char>>>),
    Seq<char>,
> {
    match raw.applies_to {
        Some(a) => match a.paths {
            Some(p) => match glob_set(p.0) {
                Err(e) => Err(e),
                Ok(includes) => match glob_set(p.1) {
                    Err(e) => Err(e),
                    Ok(excludes) => Ok((includes, excludes)),
                },
            },
            None => Ok((None, None)),
        },
        None => Ok((None, None)),
    }
}

/// The compiled exemptions of a rule.
pub open spec fn unless_of(raw: RawUnlessModel, id: Seq<char>) -> Result<UnlessModel, Seq<char>> {
    let globs = match raw.path_matches {
        Some(patterns) => glob_set(patterns),
        None => Ok(None),
    };
    match globs {
        Err(e) => Err(e),
        Ok(path_matches) => Ok(
            UnlessModel {
                path_matches,
                waiver_rule: match raw.waiver_exists {
                    Some(Some(rule)) => Some(rule),
                    Some(None) => Some(id),
                    None => None,
                },
                adr_topic: raw.adr_exists,
            },
        ),
    }
}

/// The number of bodies that a rule has.
pub open spec fn bodies(raw: RawRuleModel) -> int {
    (if raw.match_ is Some {
        1int
    } else {
        0
    }) + (if raw.match_sequence is Some {
        1int
    } else {
        0
    }) + (if raw.compose is Some {
        1int
    } else {
        0
    }) + (if raw.count is Some {
        1int
    } else {
        0
    })
}

/// A rule without a body, with what every rule has.
pub open spec fn envelope(
    raw: RawRuleModel,
    paths: (Option<Seq<Seq<char>>>, Option<Seq<Seq<char>>>),
    unless: Option<UnlessModel>,
) -> RuleModel {
    RuleModel {
        id: raw.id,
        severity: raw.severity,
        description: raw.description,
        message: raw.message,
        languages: match raw.applies_to {
            Some(a) => a.languages,
            None => None,
        },
        includes: paths.0,
        excludes: paths.1,
        event: None,
        preds: Seq::empty(),
        sequence: None,
        where_scope: None,
        compose: None,
        count: None,
        unless,
    }
}

/// A rule with its body: of a rule with exactly one, the one that it has.
pub open spec fn with_body(raw: RawRuleModel, rule: RuleModel) -> Result<RuleModel, Seq<char>> {
    if bodies(raw) != 1 {
        Err("rule must have exactly one of `match`, `match_sequence`, `compose`, `count`"@)
    } else if raw.match_ is Some {
        match preds_of(raw.match_->0.attrs) {
            Ok(preds) => Ok(RuleModel { event: raw.match_->0.event, preds, ..rule }),
            Err(e) => Err(e),
        }
    } else if raw.match_sequence is Some {
        match sequence_of(raw.match_sequence->0) {
            Ok(s) => Ok(RuleModel { sequence: Some(s), ..rule }),
            Err(e) => Err(e),
        }
    } else if raw.compose is Some {
        match compose_of(raw.compose->0) {
            Ok(c) => Ok(RuleModel { compose: Some(c), ..rule }),
            Err(e) => Err(e),
        }
    } else {
        match count_of(raw.count->0) {
            Ok(c) => Ok(RuleModel { count: Some(c), ..rule }),
            Err(e) => Err(e),
        }
    }
}

/// A rule with its scope clauses, which only a single `match` can have.
pub open spec fn with_where(raw: RawRuleModel, rule: RuleModel) -> Result<RuleModel, Seq<char>> {
    match raw.where_scope {
        None => Ok(rule),
        Some(w) => if raw.match_ is None {
            Err("`where_scope` is only valid on a single `match` rule"@)
        } else {
            match where_of(w) {
                Ok(w) => Ok(RuleModel { where_scope: Some(w), ..rule }),
                Err(e) => Err(e),
            }
        },
    }
}

/// The compiled form of a rule. A pattern that names the kind `Token` can only
/// stand as a single `match` without scope clauses.
pub open spec fn rule_of(raw: RawRuleModel) -> Result<RuleModel, Seq<char>> {
    match paths_of(raw) {
        Err(e) => Err(e),
        Ok(paths) => {
            let unless = match raw.unless {
                None => Ok(None),
                Some(u) => match unless_of(u, raw.id) {
                    Ok(m) => Ok(Some(m)),
                    Err(e) => Err(e),
                },
            };
            match unless {
                Err(e) => Err(e),
                Ok(unless) => match with_body(raw, envelope(raw, paths, unless)) {
                    Err(e) => Err(e),
                    Ok(body) => match with_where(raw, body) {
                        Err(e) => Err(e),
                        Ok(rule) => if rule_names(rule, EventKind::Token) && (rule.sequence is Some
                            || rule.where_scope is Some) {
                            Err(
                                "Token matching is single-event only (`match Token[...]`); sequences and where_scope over tokens are not supported"@,
                            )
                        } else {
                            Ok(rule)
                        },
                    },
                },
            }
        },
    }
}

fn compile_unless(raw: &RawUnless, id: &String) -> (r: Result<CompiledUnless, String>)
    ensures
        match r {
            Ok(u) => unless_of(raw@, id@) == Ok::<UnlessModel, Seq<char>>(u@),
            Err(e) => unless_of(raw@, id@) == Err::<UnlessModel, Seq<char>>(e@),
        },
{
    let path_matches = match &raw.path_matches {
        Some(globs) => match build_globset(globs) {
            Ok(s) => s,
            Err(e) => {
                return Err(e);
            },
        },
        None => None,
    };
    let waiver_rule = match &raw.waiver_exists {
        Some(w) => match &w.rule {
            Some(rule) => Some(rule.clone()),
            None => Some(id.clone()),
        },
        None => None,
    };
    let adr_topic = match &raw.adr_exists {
        Some(a) => Some(a.topic.clone()),
        None => None,
    };
    Ok(CompiledUnless { path_matches, waiver_rule, adr_topic })
}

fn compile_paths(raw: &RawRule) -> (r: Result<
    (Option<PathGlobs>, Option<PathGlobs>),
    String,
>)
    ensures
        match r {
            Ok(p) => paths_of(raw@) == Ok::<
                (Option<Seq<Seq<char>>>, Option<Seq<Seq<char>>>),
                Seq<char>,
            >((crate::rules::opt_globs(p.0), crate::rules::opt_globs(p.1))),
            Err(e) => paths_of(raw@) == Err::<
                (Option<Seq<Seq<char>>>, Option<Seq<Seq<char>>>),
                Seq<char>,
            >(e@),
        },
{
    if let Some(applies) = &raw.applies_to {
        if let Some(filter) = &applies.paths {
            let includes = match build_globset(&filter.includes) {
                Ok(s) => s,
                Err(e) => {
                    return Err(e);
                },
            };
            let excludes = match build_globset(&filter.excludes) {
                Ok(s) => s,
                Err(e) => {
                    return Err(e);
                },
            };
            return Ok((includes, excludes));
        }
    }
    Ok((None, None))
}

fn copy_languages(raw: &RawRule) -> (r: Option<Vec<crate::token::Language>>)
    ensures
        crate::schema::opt_items(r) == (match raw@.applies_to {
            Some(a) => a.languages,
            None => None,
        }),
{
    if let Some(applies) = &raw.applies_to {
        if let Some(langs) = &applies.languages {
            let mut out: Vec<crate::token::Language> = Vec::new();
            let mut i: usize = 0;
            while i < langs.len()
                invariant
                    i <= langs@.len(),
                    out@ == langs@.take(i as int),
                decreases langs@.len() - i,
            {
                out.push(langs[i]);
                i += 1;
                assert(out@ =~= langs@.take(i as int));
            }
            assert(out@ =~= langs@);
            return Some(out);
        }
    }
    None
}

fn compile_body(raw: &RawRule) -> (r: Result<CompiledRule, String>)
    ensures
        match r {
            Ok(c) => rule_of(raw@) == Ok::<RuleModel, Seq<char>>(c@) && c.wf(),
            Err(e) => rule_of(raw@) == Err::<RuleModel, Seq<char>>(e@),
        },
{
    let (includes, excludes) = match compile_paths(raw) {
        Ok(p) => p,
        Err(e) => {
            return Err(e);
        },
    };
    let unless = match &raw.unless {
        None => None,
        Some(u) => match compile_unless(u, &raw.id) {
            Ok(c) => Some(c),
            Err(e) => {
                return Err(e);
            },
        },
    };
    let mut n: u8 = 0;
    if raw.match_.is_some() {
        n = n + 1;
    }
    if raw.match_sequence.is_some() {
        n = n + 1;
    }
    if raw.compose.is_some() {
        n = n + 1;
    }
    if raw.count.is_some() {
        n = n + 1;
    }
    if n != 1 {
        return Err(
            "rule must have exactly one of `match`, `match_sequence`, `compose`, `count`".to_owned(),
        );
    }
    let mut event: Option<EventKind> = None;
    let mut preds: Vec<AttrPred> = Vec::new();
    let mut sequence: Option<CompiledSequence> = None;
    let mut compose: Option<CompiledCompose> = None;
    let mut count: Option<CompiledCount> = None;
    assert(views(preds@) =~= Seq::<PredModel>::empty());
    if let Some(m) = &raw.match_ {
        event = m.event;
        preds =
        match compile_preds(&m.attrs) {
            Ok(v) => v,
            Err(e) => {
                return Err(e);
            },
        };
    } else if let Some(s) = &raw.match_sequence {
        sequence =
        match compile_sequence(s) {
            Ok(v) => Some(v),
            Err(e) => {
                return Err(e);
            },
        };
    } else if let Some(c) = &raw.compose {
        compose =
        match compile_compose(c) {
            Ok(v) => Some(v),
            Err(e) => {
                return Err(e);
            },
        };
    } else if let Some(c) = &raw.count {
        count =
        match compile_count(c) {
            Ok(v) => Some(v),
            Err(e) => {
                return Err(e);
            },
        };
    }
    let where_scope = match &raw.where_scope {
        None => None,
        Some(w) => {
            if raw.match_.is_none() {
                return Err("`where_scope` is only valid on a single `match` rule".to_owned());
            }
            match compile_where_scope(w) {
                Ok(v) => Some(v),
                Err(e) => {
                    return Err(e);
                },
            }
        },
    };
    let rule = CompiledRule {
        id: raw.id.clone(),
        severity: raw.severity,
        description: copy_text(&raw.description),
        message: copy_text(&raw.message),
        languages: copy_languages(raw),
        includes,
        excludes,
        event,
        preds,
        sequence,
        where_scope,
        compose,
        count,
        unless,
    };
    if rule.references_kind(EventKind::Token) && (rule.sequence.is_some()
        || rule.where_scope.is_some()) {
        return Err(
            "Token matching is single-event only (`match Token[...]`); sequences and where_scope over tokens are not supported".to_owned(),
        );
    }
    Ok(rule)
}

/// Compiles a rule, or says why it cannot be.
pub fn compile_rule(raw: &RawRule) -> (r: Result<CompiledRule, RuleError>)
    ensures
        match r {
            Ok(c) => rule_of(raw@) == Ok::<RuleModel, Seq<char>>(c@) && c.wf(),
            Err(RuleError::Compile { rule, msg }) => rule@ == raw@.id && rule_of(raw@) == Err::<
                RuleModel,
                Seq<char>,
            >(msg@),
            Err(RuleError::Parse(_)) => false,
        },
{
    match compile_body(raw) {
        Ok(c) => Ok(c),
        Err(msg) => Err(RuleError::Compile { rule: raw.id.clone(), msg }),
    }
}

/// A rule compiled, or the text of its error.
pub open spec fn checked_rule(raw: RawRuleModel) -> Result<RuleModel, Seq<char>> {
    match rule_of(raw) {
        Ok(m) => Ok(m),
        Err(msg) => Err(rule_fault(raw.id, msg)),
    }
}

/// The compiled rules of a file, or the text of the first error.
pub open spec fn rules_of(rules: Seq<RawRuleModel>) -> Result<Seq<RuleModel>, Seq<char>> {
    collected(rules.map_values(|r: RawRuleModel| checked_rule(r)))
}

/// Whether each of several rules is well-formed.
pub open spec fn rules_wf(rules: Seq<CompiledRule>) -> bool {
    forall|i: int| 0 <= i < rules.len() ==> (#[trigger] rules[i]).wf()
}

/// Compiles the rules of a file, up to the first that cannot be.
pub fn compile_rules(rules: &Vec<RawRule>) -> (r: Result<Vec<CompiledRule>, RuleError>)
    ensures
        match r {
            Ok(v) => rules_of(views(rules@)) == Ok::<Seq<RuleModel>, Seq<char>>(views(v@)) && rules_wf(
                v@,
            ),
            Err(e) => e is Compile && rules_of(views(rules@)) == Err::<Seq<RuleModel>, Seq<char>>(
                error_text(e),
            ),
        },
{
    let ghost all = views(rules@).map_values(|r: RawRuleModel| checked_rule(r));
    let mut out: Vec<CompiledRule> = Vec::new();
    let mut i: usize = 0;
    assert(all.take(0) =~= Seq::<Result<RuleModel, Seq<char>>>::empty());
    assert(views(out@) =~= Seq::<RuleModel>::empty());
    while i < rules.len()
        invariant
            i <= rules@.len(),
            all == views(rules@).map_values(|r: RawRuleModel| checked_rule(r)),
            collected(all.take(i as int)) == Ok::<Seq<RuleModel>, Seq<char>>(views(out@)),
            rules_wf(out@),
        decreases rules@.len() - i,
    {
        assert(all.take(i + 1).drop_last() =~= all.take(i as int));
        assert(all.take(i + 1).last() == checked_rule(rules@[i as int]@));
        match compile_rule(&rules[i]) {
            Ok(c) => {
                let ghost before = out@;
                out.push(c);
                assert(views(out@) =~= views(before).push(c@));
            },
            Err(e) => {
                proof {
                    lemma_collected_fails(all, i + 1);
                }
                return Err(e);
            },
        }
        i += 1;
    }
    assert(all.take(i as int) =~= all);
    Ok(out)
}

/// Compiles a rule file that was read from its structured form, or passes on why
/// it could not be read.
pub fn load(file: Result<RuleFile, String>) -> (r: Result<(Vec<CompiledRule>, RuleFile), RuleError>)
    ensures
        match file {
            Err(msg) => match r {
                Err(RuleError::Parse(e)) => e == msg,
                _ => false,
            },
            Ok(f) => match r {
                Ok((v, g)) => g == f && rules_of(f@.rules) == Ok::<Seq<RuleModel>, Seq<char>>(
                    views(v@),
                ) && rules_wf(v@),
                Err(e) => e is Compile && rules_of(f@.rules) == Err::<Seq<RuleModel>, Seq<char>>(
                    error_text(e),
                ),
            },
        },
{
    match file {
        Err(msg) => Err(RuleError::Parse(msg)),
        Ok(f) => match compile_rules(&f.rules) {
            Ok(v) => Ok((v, f)),
            Err(e) => Err(e),
        },
    }
}

/// A rule that compiles has exactly one body, and scope clauses only beside a single
/// pattern.
pub proof fn compiled_rules_have_one_body(raw: RawRuleModel)
    requires
        rule_of(raw) is Ok,
    ensures
        bodies(raw) == 1,
        ({
            let r = rule_of(raw)->Ok_0;
            &&& r.id == raw.id
            &&& r.sequence is Some <==> raw.match_sequence is Some
            &&& r.compose is Some <==> raw.compose is Some
            &&& r.count is Some <==> raw.count is Some
            &&& r.where_scope is Some ==> r.sequence is None && r.compose is None && r.count is None
        }),
{
}

pub proof fn lemma_collected_all<T, E>(items: Seq<Result<T, E>>, v: Seq<T>)
    requires
        v.len() == items.len(),
        forall|i: int| 0 <= i < items.len() ==> #[trigger] items[i] == Ok::<T, E>(v[i]),
    ensures
        collected(items) == Ok::<Seq<T>, E>(v),
    decreases items.len(),
{
    if items.len() == 0 {
        assert(v =~= Seq::empty());
    } else {
        assert forall|i: int| 0 <= i < items.drop_last().len() implies #[trigger] items.drop_last()[i]
            == Ok::<T, E>(v.drop_last()[i]) by {
            assert(items.drop_last()[i] == items[i]);
        }
        lemma_collected_all(items.drop_last(), v.drop_last());
        assert(items[items.len() - 1] == Ok::<T, E>(v[v.len() - 1]));
        assert(v.drop_last().push(v.last()) =~= v);
    }
}

pub proof fn lemma_collected_each<T, E>(items: Seq<Result<T, E>>)
    requires
        collected(items) is Ok,
    ensures
        collected(items)->Ok_0.len() == items.len(),
        forall|i: int|
            0 <= i < items.len() ==> #[trigger] items[i] == Ok::<T, E>(collected(items)->Ok_0[i]),
    decreases items.len(),
{
    if items.len() > 0 {
        lemma_collected_each(items.drop_last());
        let v = collected(items)->Ok_0;
        assert forall|i: int| 0 <= i < items.len() implies #[trigger] items[i] == Ok::<T, E>(v[i]) by {
            if i < items.len() - 1 {
                assert(items.drop_last()[i] == items[i]);
            }
        }
    }
}

proof fn lemma_also_inserts<M>(s: Seq<(Seq<char>, M)>, k: Seq<char>, m: M)
    ensures
        exists|i: int| 0 <= i <= s.len() && crate::order::also(s, k, m) == #[trigger] s.insert(i, (k, m)),
    decreases s.len(),
{
    if s.len() == 0 {
        assert(crate::order::also(s, k, m) =~= s.insert(0, (k, m)));
    } else if crate::order::text_lt(k, s[0].0) {
        assert(crate::order::also(s, k, m) =~= s.insert(0, (k, m)));
    } else {
        let t = s.drop_first();
        lemma_also_inserts(t, k, m);
        let i = choose|i: int|
            0 <= i <= t.len() && crate::order::also(t, k, m) == #[trigger] t.insert(i, (k, m));
        assert(seq![s[0]] + t.insert(i, (k, m)) =~= s.insert(i + 1, (k, m)));
    }
}

/// `&` conjoins: a lexeme matches a chain with one more atom exactly when it matches
/// the chain and the atom.
pub proof fn conjunction_means_both(
    attrs: AttrsModel,
    k: Seq<char>,
    v: DatumModel,
    e: crate::event::ElementModel,
    binds: crate::schema::BindsModel,
)
    requires
        preds_of(attrs) is Ok,
        pred_of(k, v) is Ok,
    ensures
        preds_of(crate::order::also(attrs, k, v)) is Ok,
        ({
            let p = pred_of(k, v)->Ok_0;
            crate::rules::preds_hold(preds_of(crate::order::also(attrs, k, v))->Ok_0, e, binds) <==> (
            crate::rules::preds_hold(preds_of(attrs)->Ok_0, e, binds) && crate::rules::pred_holds(
                p,
                (e.fields)(crate::rules::pred_attr(p)),
                binds,
            ))
        }),
{
    let f = |x: (Seq<char>, DatumModel)| pred_of(x.0, x.1);
    let more = crate::order::also(attrs, k, v);
    let ps = preds_of(attrs)->Ok_0;
    let p = pred_of(k, v)->Ok_0;
    lemma_also_inserts(attrs, k, v);
    let i = choose|i: int| 0 <= i <= attrs.len() && more == #[trigger] attrs.insert(i, (k, v));
    let items = attrs.map_values(f);
    lemma_collected_each(items);
    let qs = ps.insert(i, p);
    let all = more.map_values(f);
    assert forall|j: int| 0 <= j < all.len() implies #[trigger] all[j] == Ok::<PredModel, Seq<char>>(
        qs[j],
    ) by {
        if j < i {
            assert(more[j] == attrs[j]);
            assert(items[j] == Ok::<PredModel, Seq<char>>(ps[j]));
        } else if j > i {
            assert(more[j] == attrs[j - 1]);
            assert(items[j - 1] == Ok::<PredModel, Seq<char>>(ps[j - 1]));
        }
    }
    lemma_collected_all(all, qs);
    let a = crate::rules::preds_hold(qs, e, binds);
    let b = crate::rules::preds_hold(ps, e, binds);
    let c = crate::rules::pred_holds(p, (e.fields)(crate::rules::pred_attr(p)), binds);
    if a {
        assert(qs[i] == p);
        assert forall|j: int| 0 <= j < ps.len() implies crate::rules::pred_holds(
            #[trigger] ps[j],
            (e.fields)(crate::rules::pred_attr(ps[j])),
            binds,
        ) by {
            if j < i {
                assert(qs[j] == ps[j]);
            } else {
                assert(qs[j + 1] == ps[j]);
            }
        }
    }
    if b && c {
        assert forall|j: int| 0 <= j < qs.len() implies crate::rules::pred_holds(
            #[trigger] qs[j],
            (e.fields)(crate::rules::pred_attr(qs[j])),
            binds,
        ) by {
            if j < i {
                assert(qs[j] == ps[j]);
            } else if j > i {
                assert(qs[j] == ps[j - 1]);
            }
        }
    }
}

proof fn lemma_settled(steps: Seq<StepModel>, n: int, m: int, x: int)
    requires
        0 <= x < n <= m <= steps.len(),
        !balanced(steps, n).1.contains(x),
    ensures
        balanced(steps, m).0[x] == balanced(steps, n).0[x],
        !balanced(steps, m).1.contains(x),
    decreases m - n,
{
    if m > n {
        lemma_settled(steps, n, m - 1, x);
        lemma_balanced_shape(steps, m - 1);
        let (roles, open) = balanced(steps, m - 1);
        let next = balanced(steps, m).1;
        if open.len() > 0 {
            assert(open[open.len() - 1] == open.last());
            assert(open.contains(open.last()));
        }
        if next.contains(x) {
            let i = next.index_of(x);
            assert(next[i] == x);
            if i < open.len() {
                assert(open[i] == x);
                assert(open.contains(x));
            }
        }
    }
}

proof fn lemma_open_increase(steps: Seq<StepModel>, n: int)
    requires
        0 <= n <= steps.len(),
    ensures
        forall|i: int, j: int|
            0 <= i < j < balanced(steps, n).1.len() ==> #[trigger] balanced(steps, n).1[i]
                < #[trigger] balanced(steps, n).1[j],
    decreases n,
{
    if n > 0 {
        lemma_open_increase(steps, n - 1);
        lemma_balanced_shape(steps, n - 1);
        let open = balanced(steps, n - 1).1;
        let next = balanced(steps, n).1;
        assert forall|i: int, j: int| 0 <= i < j < next.len() implies #[trigger] next[i]
            < #[trigger] next[j] by {
            assert(open[i] < n - 1);
            if j < open.len() {
                assert(open[i] < open[j]);
            }
        }
    }
}

/// An opening delimiter, a repetition and the closing delimiter pair up.
pub proof fn delimiters_around_a_repetition_pair(steps: Seq<StepModel>, i: int)
    requires
        0 <= i,
        i + 2 < steps.len(),
        opens_delimiter(steps[i]),
        steps[i + 1].quant == Quant::ZeroOrMore,
        closes_delimiter(steps[i], steps[i + 2]),
    ensures
        balance_of(steps)[i] == Balance::Opens,
        balance_of(steps)[i + 2] == Balance::Closes,
{
    lemma_balanced_shape(steps, i);
    lemma_balanced_shape(steps, i + 3);
    lemma_open_increase(steps, i);
    reveal_strlit("(");
    reveal_strlit("{");
    reveal_strlit("[");
    reveal_strlit(")");
    reveal_strlit("}");
    reveal_strlit("]");
    assert("("@[0] == '(' && "{"@[0] == '{' && "["@[0] == '[');
    assert(")"@[0] == ')' && "}"@[0] == '}' && "]"@[0] == ']');
    let (roles, open) = balanced(steps, i);
    assert(balanced(steps, i + 1) == (roles, open.push(i)));
    assert(balanced(steps, i + 2) == (roles, open.push(i)));
    assert(open.push(i).last() == i);
    let (after, left) = balanced(steps, i + 3);
    assert(open.push(i).drop_last() =~= open);
    assert(left == open);
    assert(after == roles.update(i, Balance::Opens).update(i + 2, Balance::Closes));
    assert forall|k: int| 0 <= k < left.len() implies left[k] < i by {
        assert(0 <= open[k] < i);
    }
    lemma_settled(steps, i + 3, steps.len() as int, i);
    lemma_settled(steps, i + 3, steps.len() as int, i + 2);
}

/// How many pairs are open before step `n`, where `depth` are open before step `k`;
/// nothing where a step closes one too many.
pub open spec fn open_before(roles: Seq<Balance>, k: int, n: int, depth: nat) -> Option<nat>
    decreases n - k,
{
    if k >= n {
        Some(depth)
    } else {
        match roles[k] {
            Balance::Free => open_before(roles, k + 1, n, depth),
            Balance::Opens => open_before(roles, k + 1, n, depth + 1),
            Balance::Closes => if depth == 0 {
                None
            } else {
                open_before(roles, k + 1, n, (depth - 1) as nat)
            },
        }
    }
}

proof fn lemma_deeper(roles: Seq<Balance>, k: int, n: int, depth: nat, more: nat)
    requires
        open_before(roles, k, n, depth) is Some,
    ensures
        open_before(roles, k, n, depth + more) == Some(open_before(roles, k, n, depth)->0 + more),
    decreases n - k,
{
    if k < n {
        match roles[k] {
            Balance::Free => lemma_deeper(roles, k + 1, n, depth, more),
            Balance::Opens => lemma_deeper(roles, k + 1, n, depth + 1, more),
            Balance::Closes => lemma_deeper(roles, k + 1, n, (depth - 1) as nat, more),
        }
    }
}

proof fn lemma_open_splits(roles: Seq<Balance>, k: int, m: int, n: int, depth: nat)
    requires
        k <= m <= n,
    ensures
        open_before(roles, k, n, depth) == (match open_before(roles, k, m, depth) {
            Some(d) => open_before(roles, m, n, d),
            None => None,
        }),
    decreases m - k,
{
    if k < m {
        match roles[k] {
            Balance::Free => lemma_open_splits(roles, k + 1, m, n, depth),
            Balance::Opens => lemma_open_splits(roles, k + 1, m, n, depth + 1),
            Balance::Closes => if depth > 0 {
                lemma_open_splits(roles, k + 1, m, n, (depth - 1) as nat)
            },
        }
    }
}

proof fn lemma_open_local(a: Seq<Balance>, b: Seq<Balance>, k: int, n: int, depth: nat)
    requires
        forall|i: int| k <= i < n ==> a[i] == b[i],
    ensures
        open_before(a, k, n, depth) == open_before(b, k, n, depth),
    decreases n - k,
{
    if k < n {
        assert(a[k] == b[k]);
        lemma_open_local(a, b, k + 1, n, depth);
        lemma_open_local(a, b, k + 1, n, depth + 1);
        if depth > 0 {
            lemma_open_local(a, b, k + 1, n, (depth - 1) as nat);
        }
    }
}

proof fn lemma_closer_found(roles: Seq<Balance>, k: int, n: int, depth: nat)
    requires
        0 <= k <= n < roles.len(),
        open_before(roles, k, n, depth) == Some(0nat),
        roles[n] == Balance::Closes,
    ensures
        closer(roles, k, depth) == Some(n),
    decreases n - k,
{
    if k < n {
        match roles[k] {
            Balance::Free => lemma_closer_found(roles, k + 1, n, depth),
            Balance::Opens => lemma_closer_found(roles, k + 1, n, depth + 1),
            Balance::Closes => lemma_closer_found(roles, k + 1, n, (depth - 1) as nat),
        }
    }
}

proof fn lemma_closer_local(a: Seq<Balance>, b: Seq<Balance>, k: int, depth: nat)
    requires
        a.len() == b.len(),
        closer(a, k, depth) is Some,
        forall|i: int| k <= i <= closer(a, k, depth)->0 ==> a[i] == b[i],
    ensures
        closer(b, k, depth) == closer(a, k, depth),
        k <= closer(a, k, depth)->0 < a.len(),
        a[closer(a, k, depth)->0] == Balance::Closes,
    decreases a.len() - k,
{
    match a[k] {
        Balance::Free => lemma_closer_local(a, b, k + 1, depth),
        Balance::Opens => lemma_closer_local(a, b, k + 1, depth + 1),
        Balance::Closes => if depth > 0 {
            lemma_closer_local(a, b, k + 1, (depth - 1) as nat);
        },
    }
}

// Whether a step that opens a pair has the step that closes it among the first `n`,
// with no step between that is open still.
spec fn pair_closed(steps: Seq<StepModel>, n: int, roles: Seq<Balance>, open: Seq<int>, x: int) -> bool {
    match closer(roles, x + 1, 0) {
        Some(y) => {
            &&& x < y < n
            &&& closes_delimiter(steps[x], steps[y])
            &&& forall|p: int| 0 <= p < open.len() ==> !(x <= #[trigger] open[p] <= y)
        },
        None => false,
    }
}

// Whether all pairs between an open step and the end of the first `n` are closed.
spec fn waits(n: int, roles: Seq<Balance>, q: int) -> bool {
    roles[q] == Balance::Free && open_before(roles, q + 1, n, 0) == Some(0nat)
}

proof fn lemma_pairing(steps: Seq<StepModel>, n: int)
    requires
        0 <= n <= steps.len(),
    ensures
        forall|x: int|
            n <= x < steps.len() ==> #[trigger] balanced(steps, n).0[x] == Balance::Free,
        forall|x: int|
            0 <= x < steps.len() && #[trigger] balanced(steps, n).0[x] != Balance::Free ==> delimiter(
                steps[x],
            ) is Some,
        forall|p: int|
            0 <= p < balanced(steps, n).1.len() ==> waits(
                n,
                balanced(steps, n).0,
                #[trigger] balanced(steps, n).1[p],
            ),
        forall|x: int|
            0 <= x < steps.len() && #[trigger] balanced(steps, n).0[x] == Balance::Opens
                ==> pair_closed(steps, n, balanced(steps, n).0, balanced(steps, n).1, x),
        open_before(balanced(steps, n).0, 0, n, 0) == Some(0nat),
    decreases n,
{
    if n > 0 {
        let m = n - 1;
        lemma_pairing(steps, m);
        lemma_balanced_shape(steps, m);
        lemma_open_increase(steps, m);
        let (roles, open) = balanced(steps, m);
        let (after, left) = balanced(steps, n);
        let s = steps[m];
        assert(roles[m] == Balance::Free);
        if !opens_delimiter(s) && open.len() > 0 && closes_delimiter(steps[open.last()], s) {
            let top = open.last();
            assert(open[open.len() - 1] == top);
            assert(waits(m, roles, top));
            assert(after == roles.update(top, Balance::Opens).update(m, Balance::Closes));
            lemma_open_local(roles, after, top + 1, m, 0);
            lemma_closer_found(after, top + 1, m, 0);
            lemma_deeper(after, top + 1, m, 0, 1);
            lemma_open_splits(after, top + 1, m, n, 1);
            assert(open_before(after, m, n, 1) == open_before(after, n, n, 0));
            assert(open_before(after, top, n, 0) == Some(0nat));
            lemma_open_splits(roles, 0, top, m, 0);
            let f = open_before(roles, 0, top, 0)->0;
            lemma_deeper(roles, top + 1, m, 0, f);
            assert(f == 0);
            lemma_open_local(roles, after, 0, top, 0);
            lemma_open_splits(after, 0, top, n, 0);
            assert forall|p: int| 0 <= p < left.len() implies waits(n, after, #[trigger] left[p]) by {
                let q = open[p];
                assert(left[p] == q && q < top);
                assert(waits(m, roles, q));
                lemma_open_splits(roles, q + 1, top, m, 0);
                let f = open_before(roles, q + 1, top, 0)->0;
                lemma_deeper(roles, top + 1, m, 0, f);
                assert(f == 0);
                lemma_open_local(roles, after, q + 1, top, 0);
                lemma_open_splits(after, q + 1, top, n, 0);
            }
            assert forall|x: int|
                0 <= x < steps.len() && #[trigger] after[x] == Balance::Opens implies pair_closed(
                steps,
                n,
                after,
                left,
                x,
            ) by {
                if x == top {
                    assert forall|p: int| 0 <= p < left.len() implies !(x <= #[trigger] left[p]
                        <= m) by {
                        assert(left[p] == open[p] && open[p] < top);
                    }
                } else {
                    assert(roles[x] == Balance::Opens);
                    assert(pair_closed(steps, m, roles, open, x));
                    let y = closer(roles, x + 1, 0)->0;
                    assert(!(x <= open[open.len() - 1] <= y));
                    lemma_closer_local(roles, after, x + 1, 0);
                    assert forall|p: int| 0 <= p < left.len() implies !(x <= #[trigger] left[p]
                        <= y) by {
                        assert(left[p] == open[p]);
                    }
                }
            }
        } else {
            assert(after == roles);
            lemma_open_splits(roles, 0, m, n, 0);
            assert(open_before(roles, m, n, 0) == open_before(roles, n, n, 0));
            assert forall|p: int| 0 <= p < left.len() implies waits(n, after, #[trigger] left[p]) by {
                if p < open.len() {
                    let q = open[p];
                    assert(left[p] == q);
                    assert(waits(m, roles, q));
                    lemma_open_splits(roles, q + 1, m, n, 0);
                    assert(open_before(roles, m, n, 0) == open_before(roles, n, n, 0));
                }
            }
            assert forall|x: int|
                0 <= x < steps.len() && #[trigger] after[x] == Balance::Opens implies pair_closed(
                steps,
                n,
                after,
                left,
                x,
            ) by {
                assert(pair_closed(steps, m, roles, open, x));
                let y = closer(roles, x + 1, 0)->0;
                assert forall|p: int| 0 <= p < left.len() implies !(x <= #[trigger] left[p] <= y) by {
                    if p < open.len() {
                        assert(left[p] == open[p]);
                    }
                }
            }
        }
    }
}

/// A step that opens a pair is followed by the step that closes it, which is its
/// counterpart. Both match exactly once.
pub proof fn opening_steps_are_closed(steps: Seq<StepModel>, i: int)
    requires
        0 <= i < steps.len(),
        balance_of(steps)[i] == Balance::Opens,
    ensures
        match closer(balance_of(steps), i + 1, 0) {
            Some(j) => {
                &&& i < j < steps.len()
                &&& balance_of(steps)[j] == Balance::Closes
                &&& closes_delimiter(steps[i], steps[j])
                &&& steps[i].quant == Quant::One
                &&& steps[j].quant == Quant::One
            },
            None => false,
        },
{
    let n = steps.len() as int;
    lemma_balanced_shape(steps, n);
    lemma_pairing(steps, n);
    let (roles, open) = balanced(steps, n);
    assert(pair_closed(steps, n, roles, open, i));
    lemma_closer_local(roles, roles, i + 1, 0);
}

/// The steps that open and close pairs nest: none closes a pair that is not open.
pub proof fn pairing_steps_nest(steps: Seq<StepModel>)
    ensures
        open_before(balance_of(steps), 0, steps.len() as int, 0) == Some(0nat),
        balance_of(steps).len() == steps.len(),
{
    lemma_balanced_shape(steps, steps.len() as int);
    lemma_pairing(steps, steps.len() as int);
}

/// Only a step that matches exactly once opens or closes a pair.
pub proof fn pairing_steps_match_once(steps: Seq<StepModel>, i: int)
    requires
        0 <= i < steps.len(),
        balance_of(steps)[i] != Balance::Free,
    ensures
        steps[i].quant == Quant::One,
{
    lemma_pairing(steps, steps.len() as int);
    assert(delimiter(steps[i]) is Some);
}


/// Whether a step asks for exactly one lexeme with a given text: a literal, or `Token[…]` with
/// one predicate on the text or the kind.
pub open spec fn asks_for(s: StepModel, w: Seq<char>) -> bool {
    &&& s.quant == Quant::One
    &&& !s.negate
    &&& s.matcher is Pat
    &&& s.matcher->kind is None
    &&& s.matcher->preds.len() == 1
    &&& s.matcher->preds[0] == (PredModel::Eq { attr: "text"@, value: w }) || s.matcher->preds[0] == (
    PredModel::Eq { attr: "node_kind"@, value: w })
}

/// Whether a step asks for one of the six delimiters.
pub open spec fn asks_for_delimiter(s: StepModel) -> bool {
    ||| asks_for(s, "("@)
    ||| asks_for(s, ")"@)
    ||| asks_for(s, "{"@)
    ||| asks_for(s, "}"@)
    ||| asks_for(s, "["@)
    ||| asks_for(s, "]"@)
}

/// Whether two steps ask for an opening delimiter and its counterpart.
pub open spec fn ask_for_pair(a: StepModel, b: StepModel) -> bool {
    ||| asks_for(a, "("@) && asks_for(b, ")"@)
    ||| asks_for(a, "{"@) && asks_for(b, "}"@)
    ||| asks_for(a, "["@) && asks_for(b, "]"@)
}

/// Whether the delimiters that the steps from `lo` up to `hi` ask for are balanced.
pub open spec fn steps_nest(steps: Seq<StepModel>, lo: int, hi: int) -> bool
    decreases hi - lo,
{
    if lo >= hi {
        lo == hi
    } else if !asks_for_delimiter(steps[lo]) {
        steps_nest(steps, lo + 1, hi)
    } else {
        exists|j: int|
            lo < j < hi && ask_for_pair(steps[lo], #[trigger] steps[j]) && steps_nest(
                steps,
                lo + 1,
                j,
            ) && steps_nest(steps, j + 1, hi)
    }
}

proof fn lemma_six()
    ensures
        "("@ != ")"@ && "("@ != "{"@ && "("@ != "}"@ && "("@ != "["@ && "("@ != "]"@,
        ")"@ != "{"@ && ")"@ != "}"@ && ")"@ != "["@ && ")"@ != "]"@,
        "{"@ != "}"@ && "{"@ != "["@ && "{"@ != "]"@,
        "}"@ != "["@ && "}"@ != "]"@,
        "["@ != "]"@,
{
    reveal_strlit("(");
    reveal_strlit(")");
    reveal_strlit("{");
    reveal_strlit("}");
    reveal_strlit("[");
    reveal_strlit("]");
    assert("("@[0] == '(' && "{"@[0] == '{' && "["@[0] == '[');
    assert(")"@[0] == ')' && "}"@[0] == '}' && "]"@[0] == ']');
}

proof fn lemma_asks(s: StepModel, w: Seq<char>)
    ensures
        asks_for(s, w) == (delimiter(s) == Some(w)),
{
}

proof fn lemma_not_asked(s: StepModel)
    requires
        !asks_for_delimiter(s),
    ensures
        !opens_delimiter(s),
        forall|o: StepModel| !#[trigger] closes_delimiter(o, s),
{
    lemma_asks(s, "("@);
    lemma_asks(s, ")"@);
    lemma_asks(s, "{"@);
    lemma_asks(s, "}"@);
    lemma_asks(s, "["@);
    lemma_asks(s, "]"@);
}

proof fn lemma_pair_asked(a: StepModel, b: StepModel)
    requires
        ask_for_pair(a, b),
    ensures
        opens_delimiter(a),
        !opens_delimiter(b),
        closes_delimiter(a, b),
{
    lemma_six();
    lemma_asks(a, "("@);
    lemma_asks(a, "{"@);
    lemma_asks(a, "["@);
    lemma_asks(b, ")"@);
    lemma_asks(b, "}"@);
    lemma_asks(b, "]"@);
}

proof fn lemma_nest_restores(steps: Seq<StepModel>, lo: int, hi: int)
    requires
        0 <= lo <= hi <= steps.len(),
        steps_nest(steps, lo, hi),
    ensures
        balanced(steps, hi).1 == balanced(steps, lo).1,
    decreases hi - lo,
{
    if lo < hi {
        let open = balanced(steps, lo).1;
        if !asks_for_delimiter(steps[lo]) {
            lemma_not_asked(steps[lo]);
            assert(balanced(steps, lo + 1).1 == open) by {
                if open.len() > 0 {
                    assert(!closes_delimiter(steps[open.last()], steps[lo]));
                }
            }
            lemma_nest_restores(steps, lo + 1, hi);
        } else {
            let j = choose|j: int|
                lo < j < hi && ask_for_pair(steps[lo], #[trigger] steps[j]) && steps_nest(
                    steps,
                    lo + 1,
                    j,
                ) && steps_nest(steps, j + 1, hi);
            lemma_pair_asked(steps[lo], steps[j]);
            assert(balanced(steps, lo + 1).1 == open.push(lo));
            lemma_nest_restores(steps, lo + 1, j);
            assert(open.push(lo).last() == lo);
            assert(balanced(steps, j + 1).1 == open.push(lo).drop_last());
            assert(open.push(lo).drop_last() =~= open);
            lemma_nest_restores(steps, j + 1, hi);
        }
    }
}

/// A step that asks for `(`, `{` or `[` and the step that asks for its counterpart pair up,
/// whatever balanced steps stand between them.
pub proof fn delimiters_pair_up(steps: Seq<StepModel>, i: int, j: int)
    requires
        0 <= i < j < steps.len(),
        ask_for_pair(steps[i], steps[j]),
        steps_nest(steps, i + 1, j),
    ensures
        balance_of(steps)[i] == Balance::Opens,
        balance_of(steps)[j] == Balance::Closes,
        closer(balance_of(steps), i + 1, 0) == Some(j),
{
    let n = steps.len() as int;
    lemma_pair_asked(steps[i], steps[j]);
    lemma_balanced_shape(steps, i);
    lemma_balanced_shape(steps, j);
    lemma_balanced_shape(steps, j + 1);
    lemma_balanced_shape(steps, n);
    lemma_nest_restores(steps, i + 1, j);
    let open = balanced(steps, i).1;
    let (roles, now) = balanced(steps, j);
    assert(now == open.push(i));
    assert(now.last() == i && now[now.len() - 1] == i);
    let (after, left) = balanced(steps, j + 1);
    assert(after == roles.update(i, Balance::Opens).update(j, Balance::Closes));
    assert(left =~= open);
    lemma_pairing(steps, j);
    assert(waits(j, roles, now[now.len() - 1]));
    lemma_open_local(roles, after, i + 1, j, 0);
    lemma_closer_found(after, i + 1, j, 0);
    let last = balance_of(steps);
    assert forall|x: int| i <= x <= j implies last[x] == after[x] by {
        assert(!left.contains(x)) by {
            if left.contains(x) {
                let k = left.index_of(x);
                assert(left[k] == x);
                assert(0 <= open[k] < i);
            }
        }
        lemma_settled(steps, j + 1, n, x);
    }
    lemma_closer_local(after, last, i + 1, 0);
}

/// A step that asks for no delimiter pairs with nothing.
pub proof fn other_steps_are_free(steps: Seq<StepModel>, i: int)
    requires
        0 <= i < steps.len(),
        !asks_for_delimiter(steps[i]),
    ensures
        balance_of(steps)[i] == Balance::Free,
{
    lemma_not_asked(steps[i]);
    lemma_pairing_roles(steps, steps.len() as int, i);
}

// Only steps that open or close something get a role.
proof fn lemma_pairing_roles(steps: Seq<StepModel>, n: int, i: int)
    requires
        0 <= n <= steps.len(),
        0 <= i < steps.len(),
        !opens_delimiter(steps[i]),
        forall|o: StepModel| !#[trigger] closes_delimiter(o, steps[i]),
    ensures
        balanced(steps, n).0[i] == Balance::Free,
        !balanced(steps, n).1.contains(i),
    decreases n,
{
    if n > 0 {
        lemma_pairing_roles(steps, n - 1, i);
        lemma_balanced_shape(steps, n - 1);
        let (roles, open) = balanced(steps, n - 1);
        let next = balanced(steps, n).1;
        if open.len() > 0 {
            assert(open[open.len() - 1] == open.last());
            assert(open.contains(open.last()));
        }
        if next.contains(i) {
            let k = next.index_of(i);
            assert(next[k] == i);
            if k < open.len() {
                assert(open[k] == i);
                assert(open.contains(i));
            }
        }
    }
}


} // verus!
