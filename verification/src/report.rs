//! Violation reporting in three formats.

use vstd::prelude::*;

use crate::aggregate::{severity_count, summarize};
use crate::matching::{Matched, MatchedModel, Violation, ViolationModel};
use crate::outside::{debug_string, debug_text, json_build, json_pretty, pretty_json};
use crate::schema::{severity_label, Severity};
use crate::text::{decimal, decimal_of, views};
use crate::token::{span_object, token_object, Span, Token, TokenModel, TokenStream};
use crate::value::{
    count_value,
    entry,
    json_ready,
    mapping,
    pair_models,
    sequence,
    text_value,
    value_models,
    Datum,
    DatumModel,
};

verus! {

/// An output format.
#[derive(Debug, Clone, Copy, PartialEq, Eq, Structural)]
pub enum Format {
    Human,
    Json,
    Agent,
}

/// A line of text that is there only where its text is.
pub open spec fn opt_line(before: Seq<char>, s: Option<Seq<char>>) -> Seq<char> {
    match s {
        Some(t) => before + t + "\n"@,
        None => Seq::empty(),
    }
}

/// The matched lexeme as evidence.
pub open spec fn evidence(m: MatchedModel) -> Seq<char> {
    "node_kind="@ + debug_text(m.node_kind) + " class="@ + debug_text(m.class) + " text="@ + debug_text(
        m.text,
    ) + (if m.function.len() > 0 {
        " function="@ + debug_text(m.function)
    } else {
        Seq::empty()
    })
}

/// `file:line:column` of a violation.
pub open spec fn location(v: ViolationModel) -> Seq<char> {
    v.file + ":"@ + decimal_of(v.span.start_line as nat) + ":"@ + decimal_of(v.span.start_col as nat)
}

/// One violation for people.
pub open spec fn human_block(v: ViolationModel) -> Seq<char> {
    severity_label(v.severity) + " "@ + v.rule_id + "\n"@ + location(v) + "\n"@ + opt_line(
        "\n"@,
        v.description,
    ) + "\nMatched:\n  "@ + evidence(v.matched) + "\n"@ + opt_line("\nRemediation:\n  "@, v.message)
        + "\n"@
}

/// One violation for an agent.
pub open spec fn agent_block(v: ViolationModel) -> Seq<char> {
    severity_label(v.severity) + " "@ + v.rule_id + " at "@ + location(v) + "\n  matched: "@ + evidence(
        v.matched,
    ) + "\n"@ + opt_line("  why: "@, v.description) + opt_line("  fix: "@, v.message) + "\n"@
}

/// The blocks of several violations.
pub open spec fn blocks(vs: Seq<ViolationModel>, agent: bool) -> Seq<char>
    decreases vs.len(),
{
    if vs.len() == 0 {
        Seq::empty()
    } else {
        blocks(vs.drop_last(), agent) + (if agent {
            agent_block(vs.last())
        } else {
            human_block(vs.last())
        })
    }
}

/// The number of errors as a numeral.
pub open spec fn errors_text(vs: Seq<ViolationModel>) -> Seq<char> {
    decimal_of(severity_count(vs, Severity::Error))
}

/// The number of warnings as a numeral.
pub open spec fn warnings_text(vs: Seq<ViolationModel>) -> Seq<char> {
    decimal_of(severity_count(vs, Severity::Warning))
}

/// The report for people: a block for each violation, then the totals.
pub open spec fn human_report(vs: Seq<ViolationModel>) -> Seq<char> {
    blocks(vs, false) + decimal_of(vs.len()) + " violation(s): "@ + errors_text(vs) + " error(s), "@
        + warnings_text(vs) + " warning(s)\n"@
}

/// The report for an agent.
pub open spec fn agent_report(vs: Seq<ViolationModel>) -> Seq<char> {
    if vs.len() == 0 {
        "codepolicy: no violations.\n"@
    } else {
        blocks(vs, true) + "codepolicy: "@ + errors_text(vs) + " error(s), "@ + warnings_text(vs)
            + " warning(s). Fix the errors above before committing.\n"@
    }
}

fn matched_summary(m: &Matched) -> (r: String)
    ensures
        r@ == evidence(m@),
{
    let mut out = "node_kind=".to_owned();
    out.append(debug_string(m.node_kind.as_str()).as_str());
    out.append(" class=");
    out.append(debug_string(m.class.as_str()).as_str());
    out.append(" text=");
    out.append(debug_string(m.text.as_str()).as_str());
    let ghost head = out@;
    if !text_is_empty(&m.function) {
        let mut tail = " function=".to_owned();
        tail.append(debug_string(m.function.as_str()).as_str());
        out.append(tail.as_str());
    } else {
        assert(head + Seq::<char>::empty() =~= head);
    }
    out
}

fn text_is_empty(s: &String) -> (r: bool)
    ensures
        r == (s@.len() == 0),
{
    proof {
        reveal_strlit("");
        if s@.len() == 0 {
            assert(s@ =~= ""@);
        }
    }
    crate::text::same(s.as_str(), "")
}

fn write_location(v: &Violation) -> (r: String)
    ensures
        r@ == location(v@),
{
    let mut out = v.file.clone();
    out.append(":");
    out.append(decimal(v.span.start_line as u128).as_str());
    out.append(":");
    out.append(decimal(v.span.start_col as u128).as_str());
    out
}

fn write_opt_line(before: &str, s: &Option<String>) -> (r: String)
    ensures
        r@ == opt_line(before@, crate::text::opt_text(*s)),
{
    match s {
        Some(t) => {
            let mut out = before.to_owned();
            out.append(t.as_str());
            out.append("\n");
            out
        },
        None => String::new(),
    }
}

fn write_human(v: &Violation) -> (r: String)
    ensures
        r@ == human_block(v@),
{
    let mut out = v.severity.label().to_owned();
    out.append(" ");
    out.append(v.rule_id.as_str());
    out.append("\n");
    out.append(write_location(v).as_str());
    out.append("\n");
    out.append(write_opt_line("\n", &v.description).as_str());
    out.append("\nMatched:\n  ");
    out.append(matched_summary(&v.matched).as_str());
    out.append("\n");
    out.append(write_opt_line("\nRemediation:\n  ", &v.message).as_str());
    out.append("\n");
    out
}

fn write_agent(v: &Violation) -> (r: String)
    ensures
        r@ == agent_block(v@),
{
    let mut out = v.severity.label().to_owned();
    out.append(" ");
    out.append(v.rule_id.as_str());
    out.append(" at ");
    out.append(write_location(v).as_str());
    out.append("\n  matched: ");
    out.append(matched_summary(&v.matched).as_str());
    out.append("\n");
    out.append(write_opt_line("  why: ", &v.description).as_str());
    out.append(write_opt_line("  fix: ", &v.message).as_str());
    out.append("\n");
    out
}

fn write_blocks(violations: &[Violation], agent: bool) -> (r: String)
    ensures
        r@ == blocks(views(violations@), agent),
{
    let ghost models = views(violations@);
    let mut out = String::new();
    let mut i: usize = 0;
    assert(models.take(0) =~= Seq::<ViolationModel>::empty());
    while i < violations.len()
        invariant
            i <= violations@.len(),
            models == views(violations@),
            out@ == blocks(models.take(i as int), agent),
        decreases violations@.len() - i,
    {
        assert(models.take(i + 1).drop_last() =~= models.take(i as int));
        assert(models.take(i + 1).last() == violations@[i as int]@);
        if agent {
            out.append(write_agent(&violations[i]).as_str());
        } else {
            out.append(write_human(&violations[i]).as_str());
        }
        i += 1;
    }
    assert(models.take(i as int) =~= models);
    out
}

fn render_human(violations: &[Violation]) -> (r: String)
    ensures
        r@ == human_report(views(violations@)),
{
    let mut out = write_blocks(violations, false);
    let (errors, warnings) = summarize(violations);
    out.append(decimal(violations.len() as u128).as_str());
    out.append(" violation(s): ");
    out.append(decimal(errors as u128).as_str());
    out.append(" error(s), ");
    out.append(decimal(warnings as u128).as_str());
    out.append(" warning(s)\n");
    out
}

fn render_agent(violations: &[Violation]) -> (r: String)
    ensures
        r@ == agent_report(views(violations@)),
{
    if violations.len() == 0 {
        return "codepolicy: no violations.\n".to_owned();
    }
    let mut out = write_blocks(violations, true);
    let (errors, warnings) = summarize(violations);
    out.append("codepolicy: ");
    out.append(decimal(errors as u128).as_str());
    out.append(" error(s), ");
    out.append(decimal(warnings as u128).as_str());
    out.append(" warning(s). Fix the errors above before committing.\n");
    out
}

// ---------------------------------------------------------------------------
// JSON
// ---------------------------------------------------------------------------

/// An object with the given members.
pub open spec fn object(members: Seq<(Seq<char>, DatumModel)>) -> DatumModel {
    DatumModel::Mapping(
        members.map_values(|m: (Seq<char>, DatumModel)| (DatumModel::Text(m.0), m.1)),
    )
}

/// A number in JSON.
pub open spec fn number(n: nat) -> DatumModel {
    DatumModel::Number(decimal_of(n))
}

/// A member that is there only where its text is.
pub open spec fn opt_member(k: Seq<char>, s: Option<Seq<char>>) -> Seq<(Seq<char>, DatumModel)> {
    match s {
        Some(t) => seq![(k, DatumModel::Text(t))],
        None => Seq::empty(),
    }
}

/// The name of a severity.
pub open spec fn severity_name(s: Severity) -> Seq<char> {
    match s {
        Severity::Error => "error"@,
        Severity::Warning => "warning"@,
    }
}

/// The members of a span.
pub open spec fn span_members(s: Span) -> Seq<(Seq<char>, DatumModel)> {
    seq![
        ("start_byte"@, number(s.start_byte as nat)),
        ("end_byte"@, number(s.end_byte as nat)),
        ("start_line"@, number(s.start_line as nat)),
        ("start_col"@, number(s.start_col as nat)),
        ("end_line"@, number(s.end_line as nat)),
        ("end_col"@, number(s.end_col as nat)),
    ]
}

/// The members of a matched lexeme. The function is left out where there is none.
pub open spec fn matched_members(m: MatchedModel) -> Seq<(Seq<char>, DatumModel)> {
    seq![
        ("node_kind"@, DatumModel::Text(m.node_kind)),
        ("class"@, DatumModel::Text(m.class)),
        ("text"@, DatumModel::Text(m.text)),
        ("named"@, DatumModel::Bool(m.named)),
    ] + opt_member(
        "function"@,
        if m.function.len() > 0 {
            Some(m.function)
        } else {
            None
        },
    )
}

/// The members of a violation. The description and the message are left out where
/// there are none.
pub open spec fn violation_members(v: ViolationModel) -> Seq<(Seq<char>, DatumModel)> {
    seq![
        ("rule_id"@, DatumModel::Text(v.rule_id)),
        ("severity"@, DatumModel::Text(severity_name(v.severity))),
    ] + opt_member("description"@, v.description) + opt_member("message"@, v.message) + seq![
        ("file"@, DatumModel::Text(v.file)),
        ("span"@, object(span_members(v.span))),
        ("matched"@, object(matched_members(v.matched))),
    ]
}

/// The members of the totals.
pub open spec fn summary_members(vs: Seq<ViolationModel>) -> Seq<(Seq<char>, DatumModel)> {
    seq![
        ("errors"@, number(severity_count(vs, Severity::Error))),
        ("warnings"@, number(severity_count(vs, Severity::Warning))),
        ("total"@, number(vs.len())),
    ]
}

/// The members of the report.
pub open spec fn report_members(vs: Seq<ViolationModel>) -> Seq<(Seq<char>, DatumModel)> {
    seq![
        (
            "violations"@,
            DatumModel::Sequence(vs.map_values(|v: ViolationModel| object(violation_members(v)))),
        ),
        ("summary"@, object(summary_members(vs))),
    ]
}

/// The report as a value: the violations and the totals.
pub open spec fn report_value(vs: Seq<ViolationModel>) -> DatumModel {
    object(report_members(vs))
}

/// Whether the keys of members are pairwise distinct and their values fit JSON.
pub open spec fn members_ready(ms: Seq<(Seq<char>, DatumModel)>) -> bool {
    &&& forall|i: int| 0 <= i < ms.len() ==> json_ready((#[trigger] ms[i]).1)
    &&& forall|i: int, j: int|
        0 <= i < j < ms.len() ==> (#[trigger] ms[i]).0 != (#[trigger] ms[j]).0
}

proof fn lemma_object_ready(ms: Seq<(Seq<char>, DatumModel)>)
    requires
        members_ready(ms),
    ensures
        json_ready(object(ms)),
{
    let items = object(ms)->Mapping_0;
    assert forall|i: int| 0 <= i < items.len() implies (#[trigger] items[i]).0 is Text && json_ready(
        items[i].1,
    ) by {
        assert(items[i] == (DatumModel::Text(ms[i].0), ms[i].1));
    }
    assert forall|i: int, j: int| 0 <= i < j < items.len() implies (#[trigger] items[i]).0 != (
    #[trigger] items[j]).0 by {
        assert(items[i].0 == DatumModel::Text(ms[i].0));
        assert(items[j].0 == DatumModel::Text(ms[j].0));
        assert(ms[i].0 != ms[j].0);
    }
}

proof fn lemma_number_ready(n: u64)
    ensures
        json_ready(number(n as nat)),
{
    assert(decimal_of(n as nat) == decimal_of(n as nat));
}

proof fn lemma_span_ready(s: Span)
    ensures
        json_ready(object(span_members(s))),
{
    let ms = span_members(s);
    reveal_strlit("start_byte");
    reveal_strlit("end_byte");
    reveal_strlit("start_line");
    reveal_strlit("start_col");
    reveal_strlit("end_line");
    reveal_strlit("end_col");
    assert("start_byte"@.len() == 10 && "start_byte"@[0] == 's' && "start_byte"@[6] == 'b');
    assert("end_byte"@.len() == 8 && "end_byte"@[0] == 'e' && "end_byte"@[6] == 't');
    assert("start_line"@.len() == 10 && "start_line"@[0] == 's' && "start_line"@[6] == 'l');
    assert("start_col"@.len() == 9 && "start_col"@[0] == 's' && "start_col"@[6] == 'c');
    assert("end_line"@.len() == 8 && "end_line"@[0] == 'e' && "end_line"@[6] == 'n');
    assert("end_col"@.len() == 7 && "end_col"@[0] == 'e' && "end_col"@[6] == 'l');
    assert("end_byte"@[4] == 'b' && "end_line"@[4] == 'l');
    lemma_number_ready(s.start_byte as u64);
    lemma_number_ready(s.end_byte as u64);
    lemma_number_ready(s.start_line as u64);
    lemma_number_ready(s.start_col as u64);
    lemma_number_ready(s.end_line as u64);
    lemma_number_ready(s.end_col as u64);
    assert(ms[0].0 == "start_byte"@);
    assert(ms[1].0 == "end_byte"@);
    assert(ms[2].0 == "start_line"@);
    assert(ms[3].0 == "start_col"@);
    assert(ms[4].0 == "end_line"@);
    assert(ms[5].0 == "end_col"@);
    assert(ms.len() == 6);
    assert forall|i: int, j: int| 0 <= i < j < ms.len() implies (#[trigger] ms[i]).0 != (
    #[trigger] ms[j]).0 by {
        assert(i == 0 || i == 1 || i == 2 || i == 3 || i == 4 || i == 5);
        assert(j == 0 || j == 1 || j == 2 || j == 3 || j == 4 || j == 5);
    }
    assert forall|i: int| 0 <= i < ms.len() implies json_ready((#[trigger] ms[i]).1) by {
        assert(i == 0 || i == 1 || i == 2 || i == 3 || i == 4 || i == 5);
    }
    lemma_object_ready(ms);
}

proof fn lemma_matched_ready(m: MatchedModel)
    ensures
        json_ready(object(matched_members(m))),
{
    let ms = matched_members(m);
    reveal_strlit("node_kind");
    reveal_strlit("class");
    reveal_strlit("text");
    reveal_strlit("named");
    reveal_strlit("function");
    assert("node_kind"@.len() == 9 && "node_kind"@[0] == 'n' && "node_kind"@[6] == 'i');
    assert("class"@.len() == 5 && "class"@[0] == 'c' && "class"@[4] == 's');
    assert("text"@.len() == 4 && "text"@[0] == 't' && "text"@[3] == 't');
    assert("named"@.len() == 5 && "named"@[0] == 'n' && "named"@[4] == 'd');
    assert("function"@.len() == 8 && "function"@[0] == 'f' && "function"@[6] == 'o');
    if m.function.len() > 0 {
        assert(ms[0].0 == "node_kind"@);
        assert(ms[1].0 == "class"@);
        assert(ms[2].0 == "text"@);
        assert(ms[3].0 == "named"@);
        assert(ms[4].0 == "function"@);
        assert(ms.len() == 5);
        assert forall|i: int, j: int| 0 <= i < j < ms.len() implies (#[trigger] ms[i]).0 != (
        #[trigger] ms[j]).0 by {
            assert(i == 0 || i == 1 || i == 2 || i == 3 || i == 4);
            assert(j == 0 || j == 1 || j == 2 || j == 3 || j == 4);
        }
        assert forall|i: int| 0 <= i < ms.len() implies json_ready((#[trigger] ms[i]).1) by {
            assert(i == 0 || i == 1 || i == 2 || i == 3 || i == 4);
        }
    } else {
        assert(ms[0].0 == "node_kind"@);
        assert(ms[1].0 == "class"@);
        assert(ms[2].0 == "text"@);
        assert(ms[3].0 == "named"@);
        assert(ms.len() == 4);
        assert forall|i: int, j: int| 0 <= i < j < ms.len() implies (#[trigger] ms[i]).0 != (
        #[trigger] ms[j]).0 by {
            assert(i == 0 || i == 1 || i == 2 || i == 3);
            assert(j == 0 || j == 1 || j == 2 || j == 3);
        }
        assert forall|i: int| 0 <= i < ms.len() implies json_ready((#[trigger] ms[i]).1) by {
            assert(i == 0 || i == 1 || i == 2 || i == 3);
        }
    }
    lemma_object_ready(ms);
}

proof fn lemma_violation_ready(v: ViolationModel)
    ensures
        json_ready(object(violation_members(v))),
{
    let ms = violation_members(v);
    lemma_span_ready(v.span);
    lemma_matched_ready(v.matched);
    reveal_strlit("rule_id");
    reveal_strlit("severity");
    reveal_strlit("description");
    reveal_strlit("message");
    reveal_strlit("file");
    reveal_strlit("span");
    reveal_strlit("matched");
    assert("rule_id"@.len() == 7 && "rule_id"@[0] == 'r' && "rule_id"@[6] == 'd');
    assert("severity"@.len() == 8 && "severity"@[0] == 's' && "severity"@[6] == 't');
    assert("description"@.len() == 11 && "description"@[0] == 'd' && "description"@[6] == 'p');
    assert("message"@.len() == 7 && "message"@[0] == 'm' && "message"@[6] == 'e');
    assert("file"@.len() == 4 && "file"@[0] == 'f' && "file"@[3] == 'e');
    assert("span"@.len() == 4 && "span"@[0] == 's' && "span"@[3] == 'n');
    assert("matched"@.len() == 7 && "matched"@[0] == 'm' && "matched"@[6] == 'd');
    assert("message"@[1] == 'e' && "matched"@[1] == 'a');
    if v.description is Some && v.message is Some {
        assert(ms[0].0 == "rule_id"@);
        assert(ms[1].0 == "severity"@);
        assert(ms[2].0 == "description"@);
        assert(ms[3].0 == "message"@);
        assert(ms[4].0 == "file"@);
        assert(ms[5].0 == "span"@);
        assert(ms[6].0 == "matched"@);
        assert(ms.len() == 7);
        assert forall|i: int, j: int| 0 <= i < j < ms.len() implies (#[trigger] ms[i]).0 != (
        #[trigger] ms[j]).0 by {
            assert(i == 0 || i == 1 || i == 2 || i == 3 || i == 4 || i == 5 || i == 6);
            assert(j == 0 || j == 1 || j == 2 || j == 3 || j == 4 || j == 5 || j == 6);
        }
        assert forall|i: int| 0 <= i < ms.len() implies json_ready((#[trigger] ms[i]).1) by {
            assert(i == 0 || i == 1 || i == 2 || i == 3 || i == 4 || i == 5 || i == 6);
        }
    } else if v.description is Some {
        assert(ms[0].0 == "rule_id"@);
        assert(ms[1].0 == "severity"@);
        assert(ms[2].0 == "description"@);
        assert(ms[3].0 == "file"@);
        assert(ms[4].0 == "span"@);
        assert(ms[5].0 == "matched"@);
        assert(ms.len() == 6);
        assert forall|i: int, j: int| 0 <= i < j < ms.len() implies (#[trigger] ms[i]).0 != (
        #[trigger] ms[j]).0 by {
            assert(i == 0 || i == 1 || i == 2 || i == 3 || i == 4 || i == 5);
            assert(j == 0 || j == 1 || j == 2 || j == 3 || j == 4 || j == 5);
        }
        assert forall|i: int| 0 <= i < ms.len() implies json_ready((#[trigger] ms[i]).1) by {
            assert(i == 0 || i == 1 || i == 2 || i == 3 || i == 4 || i == 5);
        }
    } else if v.message is Some {
        assert(ms[0].0 == "rule_id"@);
        assert(ms[1].0 == "severity"@);
        assert(ms[2].0 == "message"@);
        assert(ms[3].0 == "file"@);
        assert(ms[4].0 == "span"@);
        assert(ms[5].0 == "matched"@);
        assert(ms.len() == 6);
        assert forall|i: int, j: int| 0 <= i < j < ms.len() implies (#[trigger] ms[i]).0 != (
        #[trigger] ms[j]).0 by {
            assert(i == 0 || i == 1 || i == 2 || i == 3 || i == 4 || i == 5);
            assert(j == 0 || j == 1 || j == 2 || j == 3 || j == 4 || j == 5);
        }
        assert forall|i: int| 0 <= i < ms.len() implies json_ready((#[trigger] ms[i]).1) by {
            assert(i == 0 || i == 1 || i == 2 || i == 3 || i == 4 || i == 5);
        }
    } else {
        assert(ms[0].0 == "rule_id"@);
        assert(ms[1].0 == "severity"@);
        assert(ms[2].0 == "file"@);
        assert(ms[3].0 == "span"@);
        assert(ms[4].0 == "matched"@);
        assert(ms.len() == 5);
        assert forall|i: int, j: int| 0 <= i < j < ms.len() implies (#[trigger] ms[i]).0 != (
        #[trigger] ms[j]).0 by {
            assert(i == 0 || i == 1 || i == 2 || i == 3 || i == 4);
            assert(j == 0 || j == 1 || j == 2 || j == 3 || j == 4);
        }
        assert forall|i: int| 0 <= i < ms.len() implies json_ready((#[trigger] ms[i]).1) by {
            assert(i == 0 || i == 1 || i == 2 || i == 3 || i == 4);
        }
    }
    lemma_object_ready(ms);
}

proof fn lemma_report_ready(vs: Seq<ViolationModel>)
    requires
        vs.len() <= u64::MAX,
        severity_count(vs, Severity::Error) <= u64::MAX,
        severity_count(vs, Severity::Warning) <= u64::MAX,
    ensures
        json_ready(report_value(vs)),
{
    let totals = summary_members(vs);
    reveal_strlit("errors");
    reveal_strlit("warnings");
    reveal_strlit("total");
    reveal_strlit("violations");
    reveal_strlit("summary");
    assert("errors"@.len() == 6 && "errors"@[0] == 'e' && "errors"@[5] == 's');
    assert("warnings"@.len() == 8 && "warnings"@[0] == 'w' && "warnings"@[6] == 'g');
    assert("total"@.len() == 5 && "total"@[0] == 't' && "total"@[4] == 'l');
    assert("violations"@.len() == 10 && "violations"@[0] == 'v' && "violations"@[6] == 'i');
    assert("summary"@.len() == 7 && "summary"@[0] == 's' && "summary"@[6] == 'y');
    lemma_number_ready(severity_count(vs, Severity::Error) as u64);
    lemma_number_ready(severity_count(vs, Severity::Warning) as u64);
    lemma_number_ready(vs.len() as u64);
    assert(totals[0].0 == "errors"@);
    assert(totals[1].0 == "warnings"@);
    assert(totals[2].0 == "total"@);
    assert(totals.len() == 3);
    assert forall|i: int, j: int| 0 <= i < j < totals.len() implies (#[trigger] totals[i]).0 != (
    #[trigger] totals[j]).0 by {
        assert(i == 0 || i == 1 || i == 2);
        assert(j == 0 || j == 1 || j == 2);
    }
    assert forall|i: int| 0 <= i < totals.len() implies json_ready((#[trigger] totals[i]).1) by {
        assert(i == 0 || i == 1 || i == 2);
    }
    lemma_object_ready(totals);
    let list = vs.map_values(|v: ViolationModel| object(violation_members(v)));
    assert forall|i: int| 0 <= i < list.len() implies json_ready(#[trigger] list[i]) by {
        lemma_violation_ready(vs[i]);
    }
    assert(json_ready(DatumModel::Sequence(list)));
    let ms = report_members(vs);
    assert(ms[0].0 == "violations"@);
    assert(ms[1].0 == "summary"@);
    assert(ms.len() == 2);
    assert forall|i: int, j: int| 0 <= i < j < ms.len() implies (#[trigger] ms[i]).0 != (
    #[trigger] ms[j]).0 by {
        assert(i == 0 || i == 1);
        assert(j == 0 || j == 1);
    }
    assert forall|i: int| 0 <= i < ms.len() implies json_ready((#[trigger] ms[i]).1) by {
        assert(i == 0 || i == 1);
    }
    lemma_object_ready(ms);
}

fn span_value(s: &Span) -> (r: Datum)
    ensures
        r@ == object(span_members(*s)),
{
    let mut items: Vec<(Datum, Datum)> = Vec::new();
    items.push(entry("start_byte", count_value(s.start_byte as u64)));
    items.push(entry("end_byte", count_value(s.end_byte as u64)));
    items.push(entry("start_line", count_value(s.start_line as u64)));
    items.push(entry("start_col", count_value(s.start_col as u64)));
    items.push(entry("end_line", count_value(s.end_line as u64)));
    items.push(entry("end_col", count_value(s.end_col as u64)));
    assert(pair_models(items@) =~= object(span_members(*s))->Mapping_0);
    mapping(items)
}

fn matched_value(m: &Matched) -> (r: Datum)
    ensures
        r@ == object(matched_members(m@)),
{
    let mut items: Vec<(Datum, Datum)> = Vec::new();
    items.push(entry("node_kind", text_value(m.node_kind.as_str())));
    items.push(entry("class", text_value(m.class.as_str())));
    items.push(entry("text", text_value(m.text.as_str())));
    items.push(entry("named", Datum::Bool(m.named)));
    if !text_is_empty(&m.function) {
        items.push(entry("function", text_value(m.function.as_str())));
    }
    assert(pair_models(items@) =~= object(matched_members(m@))->Mapping_0);
    mapping(items)
}

fn violation_value(v: &Violation) -> (r: Datum)
    ensures
        r@ == object(violation_members(v@)),
{
    let name = match v.severity {
        Severity::Error => "error",
        Severity::Warning => "warning",
    };
    let mut items: Vec<(Datum, Datum)> = Vec::new();
    items.push(entry("rule_id", text_value(v.rule_id.as_str())));
    items.push(entry("severity", text_value(name)));
    if let Some(s) = &v.description {
        items.push(entry("description", text_value(s.as_str())));
    }
    if let Some(s) = &v.message {
        items.push(entry("message", text_value(s.as_str())));
    }
    items.push(entry("file", text_value(v.file.as_str())));
    items.push(entry("span", span_value(&v.span)));
    items.push(entry("matched", matched_value(&v.matched)));
    assert(pair_models(items@) =~= object(violation_members(v@))->Mapping_0);
    mapping(items)
}

/// The report as a value.
pub fn report_datum(violations: &[Violation]) -> (r: Datum)
    ensures
        r@ == report_value(views(violations@)),
        json_ready(r@),
{
    let ghost models = views(violations@);
    let mut list: Vec<Datum> = Vec::new();
    let mut i: usize = 0;
    while i < violations.len()
        invariant
            i <= violations@.len(),
            models == views(violations@),
            list@.len() == i,
            forall|k: int|
                0 <= k < i ==> (#[trigger] list@[k])@ == object(violation_members(models[k])),
        decreases violations@.len() - i,
    {
        list.push(violation_value(&violations[i]));
        i += 1;
    }
    assert(value_models(list@) =~= models.map_values(
        |v: ViolationModel| object(violation_members(v)),
    ));
    let (errors, warnings) = summarize(violations);
    let mut totals: Vec<(Datum, Datum)> = Vec::new();
    totals.push(entry("errors", count_value(errors as u64)));
    totals.push(entry("warnings", count_value(warnings as u64)));
    totals.push(entry("total", count_value(violations.len() as u64)));
    assert(pair_models(totals@) =~= object(summary_members(models))->Mapping_0);
    let mut items: Vec<(Datum, Datum)> = Vec::new();
    items.push(entry("violations", sequence(list)));
    items.push(entry("summary", mapping(totals)));
    assert(pair_models(items@) =~= report_value(models)->Mapping_0);
    proof {
        lemma_report_ready(models);
    }
    mapping(items)
}

/// Writes a value as JSON over several lines.
pub fn write_json(v: &Datum) -> (r: String)
    requires
        json_ready(v@),
    ensures
        r@ == pretty_json(v@),
{
    let json = json_build(v);
    json_pretty(&json)
}

fn render_json(violations: &[Violation]) -> (r: String)
    ensures
        r@ == pretty_json(report_value(views(violations@))),
{
    let v = report_datum(violations);
    write_json(&v)
}

/// The report of violations in a format.
pub open spec fn rendered(vs: Seq<ViolationModel>, format: Format) -> Seq<char> {
    match format {
        Format::Human => human_report(vs),
        Format::Json => pretty_json(report_value(vs)),
        Format::Agent => agent_report(vs),
    }
}

/// Renders violations in the requested format.
pub fn render(violations: &[Violation], format: Format) -> (r: String)
    ensures
        r@ == rendered(views(violations@), format),
{
    match format {
        Format::Human => render_human(violations),
        Format::Json => render_json(violations),
        Format::Agent => render_agent(violations),
    }
}

// ---------------------------------------------------------------------------
// Token streams
// ---------------------------------------------------------------------------

/// The tokens of a stream as a list of objects.
pub open spec fn tokens_value(tokens: Seq<TokenModel>) -> DatumModel {
    DatumModel::Sequence(tokens.map_values(|m: TokenModel| token_object(m)))
}

proof fn lemma_token_span_ready(t: Token)
    ensures
        json_ready(span_object(t)),
{
    let items = span_object(t)->Mapping_0;
    reveal_strlit("end_byte");
    reveal_strlit("end_col");
    reveal_strlit("end_line");
    reveal_strlit("start_byte");
    reveal_strlit("start_col");
    reveal_strlit("start_line");
    assert("end_byte"@.len() == 8 && "end_byte"@[0] == 'e' && "end_byte"@[6] == 't');
    assert("end_col"@.len() == 7 && "end_col"@[0] == 'e' && "end_col"@[6] == 'l');
    assert("end_line"@.len() == 8 && "end_line"@[0] == 'e' && "end_line"@[6] == 'n');
    assert("start_byte"@.len() == 10 && "start_byte"@[0] == 's' && "start_byte"@[6] == 'b');
    assert("start_col"@.len() == 9 && "start_col"@[0] == 's' && "start_col"@[6] == 'c');
    assert("start_line"@.len() == 10 && "start_line"@[0] == 's' && "start_line"@[6] == 'l');
    assert("end_byte"@[4] == 'b' && "end_line"@[4] == 'l');
    lemma_number_ready(t.end_byte as u64);
    lemma_number_ready(t.end_col as u64);
    lemma_number_ready(t.end_line as u64);
    lemma_number_ready(t.start_byte as u64);
    lemma_number_ready(t.start_col as u64);
    lemma_number_ready(t.start_line as u64);
    assert(items[0].0 == DatumModel::Text("end_byte"@));
    assert(items[1].0 == DatumModel::Text("end_col"@));
    assert(items[2].0 == DatumModel::Text("end_line"@));
    assert(items[3].0 == DatumModel::Text("start_byte"@));
    assert(items[4].0 == DatumModel::Text("start_col"@));
    assert(items[5].0 == DatumModel::Text("start_line"@));
    assert(items.len() == 6);
    assert forall|i: int, j: int| 0 <= i < j < items.len() implies (#[trigger] items[i]).0 != (
    #[trigger] items[j]).0 by {
        assert(i == 0 || i == 1 || i == 2 || i == 3 || i == 4 || i == 5);
        assert(j == 0 || j == 1 || j == 2 || j == 3 || j == 4 || j == 5);
    }
    assert forall|i: int| 0 <= i < items.len() implies (#[trigger] items[i]).0 is Text && json_ready(items[i].1) by {
        assert(i == 0 || i == 1 || i == 2 || i == 3 || i == 4 || i == 5);
    }
}

proof fn lemma_token_ready(m: TokenModel)
    ensures
        json_ready(token_object(m)),
{
    let items = token_object(m)->Mapping_0;
    reveal_strlit("bracket_depth");
    reveal_strlit("class");
    reveal_strlit("curly_depth");
    reveal_strlit("function");
    reveal_strlit("jmp");
    reveal_strlit("named");
    reveal_strlit("node_kind");
    reveal_strlit("round_depth");
    reveal_strlit("span");
    reveal_strlit("text");
    assert("bracket_depth"@.len() == 13 && "bracket_depth"@[0] == 'b' && "bracket_depth"@[6] == 't');
    assert("class"@.len() == 5 && "class"@[0] == 'c' && "class"@[4] == 's');
    assert("curly_depth"@.len() == 11 && "curly_depth"@[0] == 'c' && "curly_depth"@[6] == 'd');
    assert("function"@.len() == 8 && "function"@[0] == 'f' && "function"@[6] == 'o');
    assert("jmp"@.len() == 3 && "jmp"@[0] == 'j' && "jmp"@[2] == 'p');
    assert("named"@.len() == 5 && "named"@[0] == 'n' && "named"@[4] == 'd');
    assert("node_kind"@.len() == 9 && "node_kind"@[0] == 'n' && "node_kind"@[6] == 'i');
    assert("round_depth"@.len() == 11 && "round_depth"@[0] == 'r' && "round_depth"@[6] == 'd');
    assert("span"@.len() == 4 && "span"@[0] == 's' && "span"@[3] == 'n');
    assert("text"@.len() == 4 && "text"@[0] == 't' && "text"@[3] == 't');
    assert("curly_depth"@[1] == 'u' && "round_depth"@[1] == 'o');
    lemma_number_ready(m.token.bracket as u64);
    lemma_number_ready(m.token.curly as u64);
    lemma_number_ready(m.token.round as u64);
    lemma_number_ready(m.token.jmp as u64);
    lemma_token_span_ready(m.token);
    assert(items[0].0 == DatumModel::Text("bracket_depth"@));
    assert(items[1].0 == DatumModel::Text("class"@));
    assert(items[2].0 == DatumModel::Text("curly_depth"@));
    assert(items[3].0 == DatumModel::Text("function"@));
    assert(items[4].0 == DatumModel::Text("jmp"@));
    assert(items[5].0 == DatumModel::Text("named"@));
    assert(items[6].0 == DatumModel::Text("node_kind"@));
    assert(items[7].0 == DatumModel::Text("round_depth"@));
    assert(items[8].0 == DatumModel::Text("span"@));
    assert(items[9].0 == DatumModel::Text("text"@));
    assert(items.len() == 10);
    assert forall|i: int, j: int| 0 <= i < j < items.len() implies (#[trigger] items[i]).0 != (
    #[trigger] items[j]).0 by {
        assert(i == 0 || i == 1 || i == 2 || i == 3 || i == 4 || i == 5 || i == 6 || i == 7 || i == 8 || i == 9);
        assert(j == 0 || j == 1 || j == 2 || j == 3 || j == 4 || j == 5 || j == 6 || j == 7 || j == 8 || j == 9);
    }
    assert forall|i: int| 0 <= i < items.len() implies (#[trigger] items[i]).0 is Text && json_ready(items[i].1) by {
        assert(i == 0 || i == 1 || i == 2 || i == 3 || i == 4 || i == 5 || i == 6 || i == 7 || i == 8 || i == 9);
    }
}

/// Writes the tokens of a stream as JSON.
pub fn render_tokens(ts: &TokenStream) -> (r: String)
    ensures
        r@ == pretty_json(tokens_value(ts@.tokens)),
{
    let list = ts.resolved_json();
    let v = sequence(list);
    proof {
        let items = tokens_value(ts@.tokens)->Sequence_0;
        assert forall|i: int| 0 <= i < items.len() implies json_ready(#[trigger] items[i]) by {
            lemma_token_ready(ts@.tokens[i]);
        }
        assert(json_ready(v@));
    }
    write_json(&v)
}

} // verus!
