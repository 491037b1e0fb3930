//! The rule schema: what a rule file says, before it is compiled.

use vstd::prelude::*;

use crate::event::EventKind;
use crate::order::TextMap;
use crate::text::{opt_text, opt_view, texts, views};
use crate::token::Language;
use crate::value::{Datum, DatumModel};

verus! {

/// Severity of a rule violation.
#[derive(Debug, Clone, Copy, PartialEq, Eq, Structural)]
pub enum Severity {
    Error,
    Warning,
}

/// The label of a severity in reports.
pub open spec fn severity_label(s: Severity) -> Seq<char> {
    match s {
        Severity::Error => "ERROR"@,
        Severity::Warning => "WARNING"@,
    }
}

impl Severity {
    /// The label in reports.
    pub fn label(self) -> (r: &'static str)
        ensures
            r@ == severity_label(self),
    {
        match self {
            Severity::Error => "ERROR",
            Severity::Warning => "WARNING",
        }
    }
}

/// A list of predicates, by key.
pub type Attrs = TextMap<Datum>;

/// Variables with the names of fields, or with captured texts.
pub type Bindings = TextMap<String>;

/// The model of [`Attrs`].
pub type AttrsModel = Seq<(Seq<char>, DatumModel)>;

/// The model of [`Bindings`].
pub type BindsModel = Seq<(Seq<char>, Seq<char>)>;

/// Top-level config file: a list of rules plus optional escape-hatch dirs.
#[derive(Debug)]
pub struct RuleFile {
    pub rules: Vec<RawRule>,
    /// Directory of structured waivers. Default `.codepolicy/waivers`.
    pub waivers_dir: Option<String>,
    /// Directory of decision records. Default `docs/adr`.
    pub adr_dir: Option<String>,
}

/// One rule as written.
#[derive(Debug)]
pub struct RawRule {
    pub id: String,
    pub severity: Severity,
    pub description: Option<String>,
    pub message: Option<String>,
    pub applies_to: Option<AppliesTo>,
    /// Single-pattern body. Mutually exclusive with the others.
    pub match_: Option<RawMatch>,
    /// Sequence body: an ordered run of patterns.
    pub match_sequence: Option<RawSequence>,
    /// Scope-relative predicates on a single `match`.
    pub where_scope: Option<RawWhereScope>,
    /// Set algebra over other rules' violations.
    pub compose: Option<RawCompose>,
    /// Cardinality threshold over another rule's violations.
    pub count: Option<RawCount>,
    pub unless: Option<RawUnless>,
}

/// The clauses of a `where scope` predicate, by kind. All of them have to hold.
#[derive(Debug)]
pub struct RawWhereScope {
    pub contains: Vec<RawMatch>,
    pub not_contains: Vec<RawMatch>,
    pub followed_by: Vec<RawMatch>,
}

/// A set operation over other rules.
#[derive(Debug)]
pub struct RawCompose {
    pub op: String,
    pub of: Vec<String>,
    pub key: Vec<String>,
}

/// A threshold on the number of another rule's violations.
#[derive(Debug)]
pub struct RawCount {
    pub rule: String,
    pub scope: String,
    pub op: String,
    pub n: u64,
}

/// The languages and paths that a rule is limited to.
#[derive(Debug)]
pub struct AppliesTo {
    pub languages: Option<Vec<Language>>,
    pub paths: Option<PathFilter>,
}

/// Path globs that a file must or must not match.
#[derive(Debug)]
pub struct PathFilter {
    pub includes: Vec<String>,
    pub excludes: Vec<String>,
}

/// A pattern: a set of field predicates (`node_kind`, `class`, `text`,
/// `text.regex`, `curly_depth.gt`, …), and an event kind where the pattern is
/// about events. Without either it matches anything.
#[derive(Debug)]
pub struct RawMatch {
    pub event: Option<EventKind>,
    pub attrs: Attrs,
}

/// A sequence of steps.
#[derive(Debug)]
pub struct RawSequence {
    pub anchor: Option<RawAnchor>,
    pub steps: Vec<RawStep>,
}

/// Where a sequence has to lie.
#[derive(Debug)]
pub struct RawAnchor {
    /// `"ScopeStart..ScopeEnd"` restricts the sequence to one `{}` block.
    pub within: Option<String>,
}

/// One step of a sequence.
#[derive(Debug)]
pub struct RawStep {
    /// Event kind, or `"Any"` for any kind.
    pub event: Option<String>,
    /// Predicates. Empty matches anything (the wildcard).
    pub attrs: Attrs,
    pub quant: Option<String>,
    pub negate: Option<bool>,
    /// Captures: the first string form of a field is bound to a variable.
    pub bind: Option<Bindings>,
    /// Alternation: a list of single-step alternatives.
    pub alt: Option<Vec<Vec<RawStep>>>,
}

/// The exemptions of a rule.
#[derive(Debug)]
pub struct RawUnless {
    pub path_matches: Option<Vec<String>>,
    pub waiver_exists: Option<WaiverGuard>,
    pub adr_exists: Option<AdrGuard>,
}

/// Exempts a file with a waiver for a rule, by default for the rule itself.
#[derive(Debug)]
pub struct WaiverGuard {
    pub rule: Option<String>,
}

/// Exempts everything once a decision on a topic is accepted.
#[derive(Debug)]
pub struct AdrGuard {
    pub topic: String,
}

// ---------------------------------------------------------------------------
// Models
// ---------------------------------------------------------------------------

/// The model of [`RawMatch`].
pub struct RawMatchModel {
    pub event: Option<EventKind>,
    pub attrs: AttrsModel,
}

/// The model of [`RawStep`].
pub struct RawStepModel {
    pub event: Option<Seq<char>>,
    pub attrs: AttrsModel,
    pub quant: Option<Seq<char>>,
    pub negate: Option<bool>,
    pub bind: Option<BindsModel>,
    pub alt: Option<Seq<Seq<RawStepModel>>>,
}

/// The model of [`RawSequence`]; the anchor is modelled by its `within`.
pub struct RawSequenceModel {
    pub anchor: Option<Option<Seq<char>>>,
    pub steps: Seq<RawStepModel>,
}

/// The model of [`RawWhereScope`].
pub struct RawWhereModel {
    pub contains: Seq<RawMatchModel>,
    pub not_contains: Seq<RawMatchModel>,
    pub followed_by: Seq<RawMatchModel>,
}

/// The model of [`RawCompose`].
pub struct RawComposeModel {
    pub op: Seq<char>,
    pub of: Seq<Seq<char>>,
    pub key: Seq<Seq<char>>,
}

/// The model of [`RawCount`].
pub struct RawCountModel {
    pub rule: Seq<char>,
    pub scope: Seq<char>,
    pub op: Seq<char>,
    pub n: u64,
}

/// The model of [`AppliesTo`]; the paths are the include and the exclude list.
pub struct AppliesModel {
    pub languages: Option<Seq<Language>>,
    pub paths: Option<(Seq<Seq<char>>, Seq<Seq<char>>)>,
}

/// The model of [`RawUnless`]; a waiver guard is modelled by its rule, and a
/// decision guard by its topic.
pub struct RawUnlessModel {
    pub path_matches: Option<Seq<Seq<char>>>,
    pub waiver_exists: Option<Option<Seq<char>>>,
    pub adr_exists: Option<Seq<char>>,
}

/// The model of [`RawRule`].
pub struct RawRuleModel {
    pub id: Seq<char>,
    pub severity: Severity,
    pub description: Option<Seq<char>>,
    pub message: Option<Seq<char>>,
    pub applies_to: Option<AppliesModel>,
    pub match_: Option<RawMatchModel>,
    pub match_sequence: Option<RawSequenceModel>,
    pub where_scope: Option<RawWhereModel>,
    pub compose: Option<RawComposeModel>,
    pub count: Option<RawCountModel>,
    pub unless: Option<RawUnlessModel>,
}

/// The model of [`RuleFile`].
pub struct RuleFileModel {
    pub rules: Seq<RawRuleModel>,
    pub waivers_dir: Option<Seq<char>>,
    pub adr_dir: Option<Seq<char>>,
}

/// What a step says.
pub open spec fn raw_step_model(s: RawStep) -> RawStepModel
    decreases s,
{
    RawStepModel {
        event: opt_text(s.event),
        attrs: s.attrs@,
        quant: opt_text(s.quant),
        negate: s.negate,
        bind: opt_view(s.bind),
        alt: match s.alt {
            Some(alts) => Some(
                Seq::new(
                    alts@.len(),
                    |i: int|
                        if 0 <= i < alts@.len() {
                            Seq::new(
                                alts@[i]@.len(),
                                |j: int|
                                    if 0 <= j < alts@[i]@.len() {
                                        raw_step_model(alts@[i]@[j])
                                    } else {
                                        arbitrary()
                                    },
                            )
                        } else {
                            Seq::empty()
                        },
                ),
            ),
            None => None,
        },
    }
}

impl View for RawStep {
    type V = RawStepModel;

    open spec fn view(&self) -> RawStepModel {
        raw_step_model(*self)
    }
}

impl View for RawMatch {
    type V = RawMatchModel;

    open spec fn view(&self) -> RawMatchModel {
        RawMatchModel { event: self.event, attrs: self.attrs@ }
    }
}

impl View for RawAnchor {
    type V = Option<Seq<char>>;

    open spec fn view(&self) -> Option<Seq<char>> {
        opt_text(self.within)
    }
}

impl View for RawSequence {
    type V = RawSequenceModel;

    open spec fn view(&self) -> RawSequenceModel {
        RawSequenceModel { anchor: opt_view(self.anchor), steps: views(self.steps@) }
    }
}

impl View for RawWhereScope {
    type V = RawWhereModel;

    open spec fn view(&self) -> RawWhereModel {
        RawWhereModel {
            contains: views(self.contains@),
            not_contains: views(self.not_contains@),
            followed_by: views(self.followed_by@),
        }
    }
}

impl View for RawCompose {
    type V = RawComposeModel;

    open spec fn view(&self) -> RawComposeModel {
        RawComposeModel { op: self.op@, of: texts(self.of@), key: texts(self.key@) }
    }
}

impl View for RawCount {
    type V = RawCountModel;

    open spec fn view(&self) -> RawCountModel {
        RawCountModel { rule: self.rule@, scope: self.scope@, op: self.op@, n: self.n }
    }
}

impl View for PathFilter {
    type V = (Seq<Seq<char>>, Seq<Seq<char>>);

    open spec fn view(&self) -> (Seq<Seq<char>>, Seq<Seq<char>>) {
        (texts(self.includes@), texts(self.excludes@))
    }
}

/// The items of an optional list.
pub open spec fn opt_items<T>(o: Option<Vec<T>>) -> Option<Seq<T>> {
    match o {
        Some(v) => Some(v@),
        None => None,
    }
}

/// The texts of an optional list.
pub open spec fn opt_texts(o: Option<Vec<String>>) -> Option<Seq<Seq<char>>> {
    match o {
        Some(v) => Some(texts(v@)),
        None => None,
    }
}

impl View for AppliesTo {
    type V = AppliesModel;

    open spec fn view(&self) -> AppliesModel {
        AppliesModel { languages: opt_items(self.languages), paths: opt_view(self.paths) }
    }
}

impl View for WaiverGuard {
    type V = Option<Seq<char>>;

    open spec fn view(&self) -> Option<Seq<char>> {
        opt_text(self.rule)
    }
}

impl View for AdrGuard {
    type V = Seq<char>;

    open spec fn view(&self) -> Seq<char> {
        self.topic@
    }
}

impl View for RawUnless {
    type V = RawUnlessModel;

    open spec fn view(&self) -> RawUnlessModel {
        RawUnlessModel {
            path_matches: opt_texts(self.path_matches),
            waiver_exists: opt_view(self.waiver_exists),
            adr_exists: opt_view(self.adr_exists),
        }
    }
}

impl View for RawRule {
    type V = RawRuleModel;

    open spec fn view(&self) -> RawRuleModel {
        RawRuleModel {
            id: self.id@,
            severity: self.severity,
            description: opt_text(self.description),
            message: opt_text(self.message),
            applies_to: opt_view(self.applies_to),
            match_: opt_view(self.match_),
            match_sequence: opt_view(self.match_sequence),
            where_scope: opt_view(self.where_scope),
            compose: opt_view(self.compose),
            count: opt_view(self.count),
            unless: opt_view(self.unless),
        }
    }
}

impl View for RuleFile {
    type V = RuleFileModel;

    open spec fn view(&self) -> RuleFileModel {
        RuleFileModel {
            rules: views(self.rules@),
            waivers_dir: opt_text(self.waivers_dir),
            adr_dir: opt_text(self.adr_dir),
        }
    }
}

/// The scope of a `count` rule that names none.
pub fn default_count_scope() -> (r: String)
    ensures
        r@ == "file"@,
{
    "file".to_owned()
}

} // verus!
