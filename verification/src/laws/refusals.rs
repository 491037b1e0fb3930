//! What is refused, and what the refusal says.

use vstd::prelude::*;

use crate::compile::{
    checked_rule,
    collected,
    compose_of,
    count_of,
    error_text,
    glob_set,
    lemma_collected_each,
    pred_of,
    preds_of,
    quant_of,
    rule_of,
    rules_of,
    sequence_of,
    where_of,
    RuleError,
};
use crate::dsl::{
    fault,
    file_from,
    is_mark,
    langs_from,
    parsed,
    severity_at,
    statement_at,
    tok_at,
    Toks,
};
use crate::event::EventKind;
use crate::laws::predicates::keyed_by;
use crate::lexer::{lex_from, lexed, string_at, regex_at, Mark, TokModel};
use crate::number::number_of;
use crate::outside::{glob_fault, regex_fault};
use crate::rules::{clause_names, matcher_names, rule_names, ClauseModel, RuleModel};
use crate::schema::{RawComposeModel, RawCountModel, RawRuleModel, RuleFileModel};
use crate::text::{ascii_lower_text, decimal_of};
use crate::token::Language;
use crate::value::DatumModel;

verus! {

/// An error in rule text names the line of the token at which it came up; past the end of the
/// text, that of the last token. Lines are counted from one, rows from zero.
pub proof fn errors_name_their_line(t: Toks, p: int, msg: Seq<char>, row: nat)
    ensures
        0 <= p < t.len() ==> exists|found: Seq<char>|
            fault(t, p, msg) == #[trigger] ("line "@ + decimal_of(t[p].1 + 1) + ": "@ + msg
                + ", found "@ + found),
        p >= t.len() && t.len() > 0 ==> fault(t, p, msg) == "line "@ + decimal_of(t.last().1 + 1)
            + ": "@ + msg + ", found "@ + "None"@,
        crate::lexer::line_fault(row, msg) == "line "@ + decimal_of(row + 1) + ": "@ + msg,
{
    let found = crate::dsl::found_at(t, p);
    if 0 <= p < t.len() {
        assert(fault(t, p, msg) == "line "@ + decimal_of(t[p].1 + 1) + ": "@ + msg + ", found "@
            + found);
    }
}

/// Whether a word begins a statement of a rule.
pub open spec fn begins_statement(w: Seq<char>) -> bool {
    ||| w == "lang"@
    ||| w == "in"@
    ||| w == "not"@
    ||| w == "desc"@
    ||| w == "message"@
    ||| w == "unless"@
    ||| w == "match"@
    ||| w == "sequence"@
    ||| w == "compose"@
    ||| w == "count"@
}

/// A rule holds only statements, a file only rules and directives, and a severity is error or
/// warning: anything else is refused.
pub proof fn unknown_words_are_refused(
    t: Toks,
    p: int,
    d: crate::dsl::DraftModel,
    f: RuleFileModel,
    w: Seq<char>,
)
    requires
        tok_at(t, p) == Some(TokModel::Ident(w)),
    ensures
        !begins_statement(w) ==> statement_at(t, p, d) is Err,
        w != "rule"@ && w != "waivers"@ && w != "adrs"@ ==> file_from(t, p, f) is Err,
        is_mark(t, p - 1, Mark::LParen) && w != "error"@ && w != "warning"@ ==> severity_at(t, p - 1) is Err,
{
}

/// Whether a text is the name of a language.
pub open spec fn names_language(s: Seq<char>) -> bool {
    ||| s == "typescript"@
    ||| s == "javascript"@
    ||| s == "go"@
    ||| s == "python"@
    ||| s == "rust"@
}

/// A language that is none is refused.
pub proof fn unknown_languages_are_refused(t: Toks, p: int, done: Seq<Language>, w: Seq<char>)
    requires
        tok_at(t, p) == Some(TokModel::Ident(w)),
        !names_language(ascii_lower_text(w)),
    ensures
        langs_from(t, p, done) is Err,
{
}

/// Only the set operations, keys, scopes, comparisons and quantifiers that there are compile.
pub proof fn unknown_operations_are_refused(
    c: RawComposeModel,
    n: RawCountModel,
    q: Seq<char>,
    i: int,
)
    ensures
        compose_of(c) is Ok ==> c.of.len() > 0 && (c.op == "intersection"@ || c.op == "union"@ || c.op
            == "difference"@),
        compose_of(c) is Ok && 0 <= i < c.key.len() ==> c.key[i] == "file"@ || c.key[i]
            == "function"@,
        count_of(n) is Ok ==> (n.scope == "file"@ || n.scope == "function"@) && (n.op == "gt"@ || n.op
            == "lt"@ || n.op == "ge"@ || n.op == "le"@ || n.op == "eq"@),
        quant_of(Some(q)) is Ok ==> q == "one"@ || q == "one_or_more"@ || q == "optional"@ || q
            == "zero_or_more"@,
{
    if compose_of(c) is Ok && 0 <= i < c.key.len() {
        let items = c.key.map_values(|k: Seq<char>| crate::compile::key_part_of(k));
        lemma_collected_each(items);
        let key = collected(items)->Ok_0;
        assert(items[i] == Ok::<crate::rules::KeyPart, Seq<char>>(key[i]));
    }
}

/// A glob and a regular expression that are none, and a comparison with what is no number, are
/// refused.
pub proof fn faulty_values_are_refused(
    list: Seq<Seq<char>>,
    i: int,
    attr: Seq<char>,
    s: Seq<char>,
)
    requires
        !attr.contains('.'),
    ensures
        0 <= i < list.len() && glob_fault(list[i]) is Some ==> glob_set(list) is Err,
        regex_fault(s) is Some ==> pred_of(keyed_by(attr, "regex"@), DatumModel::Text(s)) is Err,
        regex_fault(s) is Some ==> pred_of(
            keyed_by(attr, "not"@ + seq!['.'] + "regex"@),
            DatumModel::Text(s),
        ) is Err,
        number_of(s) is None ==> pred_of(keyed_by(attr, "gt"@), DatumModel::Text(s)) is Err,
        number_of(s) is None ==> pred_of(keyed_by(attr, "lt"@), DatumModel::Text(s)) is Err,
        number_of(s) is None ==> pred_of(keyed_by(attr, "ge"@), DatumModel::Text(s)) is Err,
        number_of(s) is None ==> pred_of(keyed_by(attr, "le"@), DatumModel::Text(s)) is Err,
{
    if 0 <= i < list.len() && glob_fault(list[i]) is Some && glob_set(list) is Ok {
        let items = list.map_values(|p: Seq<char>| crate::compile::checked_glob(p));
        lemma_collected_each(items);
        let v = collected(items)->Ok_0;
        assert(items[i] == Ok::<Seq<char>, Seq<char>>(v[i]));
        assert(false);
    }
    crate::laws::predicates::lemma_refused(attr, s);
}

/// A rule that does not compile is refused together with its file, and the refusal names the
/// first such rule and says why.
pub proof fn refusals_name_the_rule(rules: Seq<RawRuleModel>, i: int, msg: Seq<char>)
    requires
        0 <= i < rules.len(),
        rule_of(rules[i]) == Err::<RuleModel, Seq<char>>(msg),
        forall|k: int| 0 <= k < i ==> rule_of(#[trigger] rules[k]) is Ok,
    ensures
        rules_of(rules) == Err::<Seq<RuleModel>, Seq<char>>(
            "rule `"@ + rules[i].id + "`: "@ + msg,
        ),
{
    let items = rules.map_values(|r: RawRuleModel| checked_rule(r));
    let head = items.take(i + 1);
    let done = head.drop_last();
    assert(done =~= items.take(i));
    let v = Seq::new(i as nat, |k: int| rule_of(rules[k])->Ok_0);
    assert forall|k: int| 0 <= k < done.len() implies #[trigger] done[k] == Ok::<
        RuleModel,
        Seq<char>,
    >(v[k]) by {
        assert(rule_of(rules[k]) is Ok);
    }
    crate::compile::lemma_collected_all(done, v);
    assert(head.last() == items[i]);
    crate::compile::lemma_collected_fails(items, i + 1);
}

/// A text that does not lex is refused with what is wrong with it.
pub proof fn faulty_text_is_refused(text: Seq<char>, e: Seq<char>)
    requires
        lexed(text) == Err::<Seq<(TokModel, nat)>, Seq<char>>(e),
    ensures
        parsed(text) == Err::<RuleFileModel, Seq<char>>(e),
{
}

proof fn lemma_unclosed(s: Seq<char>, i: int)
    requires
        0 <= i,
    ensures
        (forall|k: int| i <= k < s.len() ==> #[trigger] s[k] != '"') ==> string_at(s, i) is None,
        (forall|k: int| i <= k < s.len() ==> #[trigger] s[k] != '/') ==> regex_at(s, i) is None,
    decreases s.len() - i,
{
    if i < s.len() {
        lemma_unclosed(s, i + 1);
        if i + 1 < s.len() {
            lemma_unclosed(s, i + 2);
        }
    }
}

/// A string or a regex that is never closed is refused, and so is `@` without a name.
pub proof fn unclosed_literals_are_refused(s: Seq<char>, i: int, row: nat)
    requires
        0 <= i < s.len(),
    ensures
        s[i] == '"' && (forall|k: int| i < k < s.len() ==> #[trigger] s[k] != '"') ==> lex_from(
            s,
            i,
            row,
        ) == Err::<Seq<(TokModel, nat)>, Seq<char>>(
            "line "@ + decimal_of(row + 1) + ": "@ + "unterminated string"@,
        ),
        s[i] == '/' && (forall|k: int| i < k < s.len() ==> #[trigger] s[k] != '/') ==> lex_from(
            s,
            i,
            row,
        ) == Err::<Seq<(TokModel, nat)>, Seq<char>>(
            "line "@ + decimal_of(row + 1) + ": "@ + "unterminated /regex/"@,
        ),
{
    lemma_unclosed(s, i + 1);
}

/// Whether each glob of a rule compiles.
pub open spec fn globs_are_sound(raw: RawRuleModel) -> bool {
    &&& raw.applies_to is Some && raw.applies_to->0.paths is Some ==> {
        let (includes, excludes) = raw.applies_to->0.paths->0;
        glob_set(includes) is Ok && glob_set(excludes) is Ok
    }
    &&& raw.unless is Some && raw.unless->0.path_matches is Some ==> glob_set(
        raw.unless->0.path_matches->0,
    ) is Ok
}

/// Whether no clause is about events.
pub open spec fn about_tokens(cs: Seq<ClauseModel>) -> bool {
    forall|i: int| 0 <= i < cs.len() ==> (#[trigger] cs[i]).kind is None
}

/// A rule compiles where it has one body, whose parts compile, and globs that do; a pattern
/// may have scope clauses, if these compile too.
pub proof fn sound_rules_compile(raw: RawRuleModel)
    requires
        globs_are_sound(raw),
    ensures
        raw.match_ is Some && raw.match_sequence is None && raw.compose is None && raw.count is None
            && preds_of(raw.match_->0.attrs) is Ok && raw.where_scope is None ==> rule_of(raw) is Ok,
        raw.match_ is Some && raw.match_sequence is None && raw.compose is None && raw.count is None
            && preds_of(raw.match_->0.attrs) is Ok && raw.match_->0.event is None
            && raw.where_scope is Some && where_of(raw.where_scope->0) is Ok && about_tokens(
            where_of(raw.where_scope->0)->Ok_0.contains,
        ) && about_tokens(where_of(raw.where_scope->0)->Ok_0.not_contains) && about_tokens(
            where_of(raw.where_scope->0)->Ok_0.followed_by,
        ) ==> rule_of(raw) is Ok,
        raw.match_ is None && raw.match_sequence is Some && raw.compose is None && raw.count is None
            && raw.where_scope is None && sequence_of(raw.match_sequence->0) is Ok && (forall|i: int|
            0 <= i < sequence_of(raw.match_sequence->0)->Ok_0.steps.len() ==> (
            #[trigger] sequence_of(raw.match_sequence->0)->Ok_0.steps[i]).matcher is Pat
                && sequence_of(raw.match_sequence->0)->Ok_0.steps[i].matcher->Pat_kind is None)
            ==> rule_of(raw) is Ok,
        raw.match_ is None && raw.match_sequence is None && raw.compose is Some && raw.count is None
            && raw.where_scope is None && compose_of(raw.compose->0) is Ok ==> rule_of(raw) is Ok,
        raw.match_ is None && raw.match_sequence is None && raw.compose is None && raw.count is Some
            && raw.where_scope is None && count_of(raw.count->0) is Ok ==> rule_of(raw) is Ok,
{
}

/// A rule with scope clauses and no single pattern is refused. Tokens as events stand in
/// single patterns without scope clauses alone: no step that is one pattern asks for them, no
/// clause does, and no pattern with clauses.
pub proof fn clauses_need_a_pattern(raw: RawRuleModel)
    ensures
        raw.where_scope is Some && raw.match_ is None ==> rule_of(raw) is Err,
        rule_of(raw) is Ok && rule_of(raw)->Ok_0.sequence is Some ==> forall|i: int|
            0 <= i < rule_of(raw)->Ok_0.sequence->0.steps.len() ==> !((
            #[trigger] rule_of(raw)->Ok_0.sequence->0.steps[i]).matcher is Pat && rule_of(
                raw,
            )->Ok_0.sequence->0.steps[i].matcher->Pat_kind == Some(EventKind::Token)),
        rule_of(raw) is Ok && rule_of(raw)->Ok_0.where_scope is Some ==> {
            let r = rule_of(raw)->Ok_0;
            let w = r.where_scope->0;
            &&& r.event != Some(EventKind::Token)
            &&& forall|i: int|
                0 <= i < w.contains.len() ==> (#[trigger] w.contains[i]).kind != Some(
                    EventKind::Token,
                )
            &&& forall|i: int|
                0 <= i < w.not_contains.len() ==> (#[trigger] w.not_contains[i]).kind != Some(
                    EventKind::Token,
                )
            &&& forall|i: int|
                0 <= i < w.followed_by.len() ==> (#[trigger] w.followed_by[i]).kind != Some(
                    EventKind::Token,
                )
        },
{
    if rule_of(raw) is Ok {
        let r = rule_of(raw)->Ok_0;
        if r.sequence is Some {
            assert(!rule_names(r, EventKind::Token));
            let steps = r.sequence->0.steps;
            assert forall|i: int| 0 <= i < steps.len() implies !((#[trigger] steps[i]).matcher is Pat
                && steps[i].matcher->Pat_kind == Some(EventKind::Token)) by {
                assert(!matcher_names(steps[i].matcher, EventKind::Token));
            }
        }
        if r.where_scope is Some {
            assert(!rule_names(r, EventKind::Token));
            let w = r.where_scope->0;
            assert(!clause_names(w.contains, EventKind::Token));
            assert(!clause_names(w.not_contains, EventKind::Token));
            assert(!clause_names(w.followed_by, EventKind::Token));
        }
    }
}

/// The text of an error says that rules could not be parsed, or names the rule that could not
/// be compiled, and why.
pub proof fn errors_say_what_failed(e: RuleError)
    ensures
        e is Parse ==> error_text(e) == "failed to parse rules: "@ + e->Parse_0@,
        e is Compile ==> error_text(e) == "rule `"@ + e->Compile_rule@ + "`: "@ + e->Compile_msg@,
{
}

} // verus!
