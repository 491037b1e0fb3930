//! What reports say.

use vstd::prelude::*;

use crate::aggregate::severity_count;
use crate::matching::ViolationModel;
use crate::outside::{debug_text, pretty_json};
use crate::report::{
    agent_block,
    blocks,
    human_block,
    rendered,
    report_value,
    tokens_value,
    violation_members,
    Format,
};
use crate::schema::Severity;
use crate::text::{all_digits, decimal_of, digits_value};
use crate::token::{Span, TokenModel};
use crate::value::DatumModel;

verus! {

/// The place of a violation as reports write it: the file, the line and the column on which
/// its span starts, with colons between them.
pub open spec fn place(v: ViolationModel) -> Seq<char> {
    v.file + ":"@ + decimal_of(v.span.start_line as nat) + ":"@ + decimal_of(
        v.span.start_col as nat,
    )
}

/// The lexeme as evidence: its kind, class and text, and its function if it is in one, each
/// quoted.
pub open spec fn shown(v: ViolationModel) -> Seq<char> {
    let m = v.matched;
    let rest = if m.function.len() > 0 {
        " function="@ + debug_text(m.function)
    } else {
        Seq::empty()
    };
    "node_kind="@ + debug_text(m.node_kind) + " class="@ + debug_text(m.class) + " text="@
        + debug_text(m.text) + rest
}

/// What a severity is called at the head of a block.
pub open spec fn label(s: Severity) -> Seq<char> {
    match s {
        Severity::Error => "ERROR"@,
        Severity::Warning => "WARNING"@,
    }
}

/// A text between two others, or nothing where there is no text.
pub open spec fn around(before: Seq<char>, s: Option<Seq<char>>, after: Seq<char>) -> Seq<char> {
    match s {
        Some(t) => before + t + after,
        None => Seq::empty(),
    }
}

/// A block for an agent is the line `SEVERITY rule_id at file:line:col`, a line with the
/// matched lexeme, a line `why:` with the description and a line `fix:` with the message, as
/// far as there are any, and an empty line.
pub proof fn agent_blocks_say_where_and_what(v: ViolationModel)
    ensures
        agent_block(v) == label(v.severity) + " "@ + v.rule_id + " at "@ + place(v) + "\n"@
            + "  matched: "@ + shown(v) + "\n"@ + around("  why: "@, v.description, "\n"@) + around(
            "  fix: "@,
            v.message,
            "\n"@,
        ) + "\n"@,
{
    reveal_strlit("\n  matched: ");
    reveal_strlit("\n");
    reveal_strlit("  matched: ");
    assert("\n  matched: "@ =~= "\n"@ + "  matched: "@);
    let head = label(v.severity) + " "@ + v.rule_id + " at "@ + place(v);
    assert(head + "\n  matched: "@ =~= head + "\n"@ + "  matched: "@);
}

/// A block for people is a line with the severity and the rule, the line `file:line:col`, the
/// description, the matched lexeme and the remediation, as far as there are any, each set off
/// by an empty line.
pub proof fn human_blocks_say_where_and_what(v: ViolationModel)
    ensures
        human_block(v) == label(v.severity) + " "@ + v.rule_id + "\n"@ + place(v) + "\n"@ + around(
            "\n"@,
            v.description,
            "\n"@,
        ) + "\nMatched:\n  "@ + shown(v) + "\n"@ + around("\nRemediation:\n  "@, v.message, "\n"@)
            + "\n"@,
{
}

/// A report for people or for an agent is the blocks of the violations, in order, and a line
/// with the totals; an agent is told where there are none.
pub proof fn reports_hold_every_violation(vs: Seq<ViolationModel>, v: ViolationModel)
    ensures
        blocks(vs.push(v), true) == blocks(vs, true) + agent_block(v),
        blocks(vs.push(v), false) == blocks(vs, false) + human_block(v),
        blocks(Seq::empty(), true).len() == 0,
        blocks(Seq::empty(), false).len() == 0,
        rendered(vs, Format::Human) == blocks(vs, false) + decimal_of(vs.len()) + " violation(s): "@
            + decimal_of(severity_count(vs, Severity::Error)) + " error(s), "@ + decimal_of(
            severity_count(vs, Severity::Warning),
        ) + " warning(s)\n"@,
        vs.len() > 0 ==> rendered(vs, Format::Agent) == blocks(vs, true) + "codepolicy: "@
            + decimal_of(severity_count(vs, Severity::Error)) + " error(s), "@ + decimal_of(
            severity_count(vs, Severity::Warning),
        ) + " warning(s). Fix the errors above before committing.\n"@,
        vs.len() == 0 ==> rendered(vs, Format::Agent) == "codepolicy: no violations.\n"@,
        rendered(vs, Format::Json) == pretty_json(report_value(vs)),
{
    assert(vs.push(v).drop_last() =~= vs);
}

/// The totals count the violations of each severity.
pub proof fn totals_count_severities(vs: Seq<ViolationModel>, v: ViolationModel, s: Severity)
    ensures
        severity_count(Seq::empty(), s) == 0,
        v.severity == s ==> severity_count(vs.push(v), s) == severity_count(vs, s) + 1,
        v.severity != s ==> severity_count(vs.push(v), s) == severity_count(vs, s),
        severity_count(vs, Severity::Error) + severity_count(vs, Severity::Warning) == vs.len(),
    decreases vs.len(),
{
    assert(vs.push(v).drop_last() =~= vs);
    if vs.len() > 0 {
        totals_count_severities(vs.drop_last(), vs.last(), s);
        assert(vs =~= vs.drop_last().push(vs.last()));
    }
}

/// A decimal numeral is a run of digits that denotes the number and has no leading zero.
pub proof fn numerals_denote_numbers(n: nat)
    ensures
        decimal_of(n).len() > 0,
        all_digits(decimal_of(n)),
        digits_value(decimal_of(n)) == n,
        n > 0 ==> decimal_of(n)[0] != '0',
    decreases n,
{
    let d = decimal_of(n);
    if n >= 10 {
        numerals_denote_numbers(n / 10);
        assert(d.drop_last() =~= decimal_of(n / 10));
        assert(d[0] == decimal_of(n / 10)[0]);
    } else {
        assert(d.drop_last() =~= Seq::<char>::empty());
        assert(digits_value(Seq::<char>::empty()) == 0);
    }
    let k = n % 10;
    let c = crate::text::digit_char(k);
    assert(c as u32 == 0x30 + k);
    assert(d.last() == c);
    assert forall|i: int| 0 <= i < d.len() implies crate::text::digit_ok(#[trigger] d[i]) by {
        if i < d.len() - 1 {
            assert(d[i] == decimal_of(n / 10)[i]);
        }
    }
}

/// A member of a JSON object.
pub open spec fn named(k: Seq<char>, v: DatumModel) -> (DatumModel, DatumModel) {
    (DatumModel::Text(k), v)
}

/// A number in JSON.
pub open spec fn num(n: int) -> DatumModel {
    DatumModel::Number(decimal_of(n as nat))
}

/// A member with a text, or none where there is no text.
pub open spec fn perhaps(k: Seq<char>, s: Option<Seq<char>>) -> Seq<(DatumModel, DatumModel)> {
    match s {
        Some(t) => seq![named(k, DatumModel::Text(t))],
        None => Seq::empty(),
    }
}

/// A span in JSON.
pub open spec fn json_span(s: Span) -> DatumModel {
    DatumModel::Mapping(
        seq![
            named("start_byte"@, num(s.start_byte as int)),
            named("end_byte"@, num(s.end_byte as int)),
            named("start_line"@, num(s.start_line as int)),
            named("start_col"@, num(s.start_col as int)),
            named("end_line"@, num(s.end_line as int)),
            named("end_col"@, num(s.end_col as int)),
        ],
    )
}

/// A violation in JSON: the rule, the severity in lower case, the description and the message
/// if there are any, the file, the span, and the matched lexeme with its function if it is in
/// one.
pub open spec fn json_violation(v: ViolationModel) -> DatumModel {
    let m = v.matched;
    let severity = match v.severity {
        Severity::Error => "error"@,
        Severity::Warning => "warning"@,
    };
    let lexeme = seq![
        named("node_kind"@, DatumModel::Text(m.node_kind)),
        named("class"@, DatumModel::Text(m.class)),
        named("text"@, DatumModel::Text(m.text)),
        named("named"@, DatumModel::Bool(m.named)),
    ] + perhaps(
        "function"@,
        if m.function.len() > 0 {
            Some(m.function)
        } else {
            None
        },
    );
    DatumModel::Mapping(
        seq![
            named("rule_id"@, DatumModel::Text(v.rule_id)),
            named("severity"@, DatumModel::Text(severity)),
        ] + perhaps("description"@, v.description) + perhaps("message"@, v.message) + seq![
            named("file"@, DatumModel::Text(v.file)),
            named("span"@, json_span(v.span)),
            named("matched"@, DatumModel::Mapping(lexeme)),
        ],
    )
}

/// The report in JSON is an object with the violations, in order, and a summary: how many are
/// errors, how many are warnings, and how many there are.
pub proof fn json_reports_hold_everything(vs: Seq<ViolationModel>)
    ensures
        report_value(vs) == DatumModel::Mapping(
            seq![
                named(
                    "violations"@,
                    DatumModel::Sequence(vs.map_values(|v: ViolationModel| json_violation(v))),
                ),
                named(
                    "summary"@,
                    DatumModel::Mapping(
                        seq![
                            named("errors"@, num(severity_count(vs, Severity::Error) as int)),
                            named("warnings"@, num(severity_count(vs, Severity::Warning) as int)),
                            named("total"@, num(vs.len() as int)),
                        ],
                    ),
                ),
            ],
        ),
{
    assert forall|v: ViolationModel| #[trigger] json_violation(v) == crate::report::object(
        violation_members(v),
    ) by {
        lemma_json_violation(v);
    }
    let items = vs.map_values(|v: ViolationModel| json_violation(v));
    let others = vs.map_values(|v: ViolationModel| crate::report::object(violation_members(v)));
    assert forall|i: int| 0 <= i < vs.len() implies items[i] == others[i] by {
        lemma_json_violation(vs[i]);
    }
    assert(items =~= others);
    let summary = crate::report::object(crate::report::summary_members(vs));
    assert(summary->Mapping_0 =~= seq![
        named("errors"@, num(severity_count(vs, Severity::Error) as int)),
        named("warnings"@, num(severity_count(vs, Severity::Warning) as int)),
        named("total"@, num(vs.len() as int)),
    ]);
    assert(report_value(vs)->Mapping_0 =~= seq![
        named("violations"@, DatumModel::Sequence(items)),
        named("summary"@, summary),
    ]);
}

proof fn lemma_json_violation(v: ViolationModel)
    ensures
        json_violation(v) == crate::report::object(violation_members(v)),
{
    let span = crate::report::object(crate::report::span_members(v.span));
    assert(span->Mapping_0 =~= json_span(v.span)->Mapping_0);
    let m = v.matched;
    let ms = crate::report::matched_members(m);
    let function = if m.function.len() > 0 {
        Some(m.function)
    } else {
        None
    };
    let lexeme = seq![
        named("node_kind"@, DatumModel::Text(m.node_kind)),
        named("class"@, DatumModel::Text(m.class)),
        named("text"@, DatumModel::Text(m.text)),
        named("named"@, DatumModel::Bool(m.named)),
    ] + perhaps("function"@, function);
    assert(crate::report::object(ms)->Mapping_0 =~= lexeme);
    assert(crate::report::object(violation_members(v))->Mapping_0 =~= json_violation(
        v,
    )->Mapping_0);
}

/// The listing of a file's lexemes holds one object for each, in order: its depths, class,
/// function, link, kind, place and text.
pub proof fn listings_show_every_lexeme(ts: Seq<TokenModel>, i: int)
    requires
        0 <= i < ts.len(),
    ensures
        tokens_value(ts) is Sequence,
        tokens_value(ts)->Sequence_0.len() == ts.len(),
        ({
            let t = ts[i];
            tokens_value(ts)->Sequence_0[i] == DatumModel::Mapping(
                seq![
                    named("bracket_depth"@, num(t.token.bracket as int)),
                    named("class"@, DatumModel::Text(t.class)),
                    named("curly_depth"@, num(t.token.curly as int)),
                    named("function"@, DatumModel::Text(t.func)),
                    named(
                        "jmp"@,
                        if t.token.jmp == 0xffff_ffff {
                            DatumModel::Null
                        } else {
                            num(t.token.jmp as int)
                        },
                    ),
                    named("named"@, DatumModel::Bool(t.token.named)),
                    named("node_kind"@, DatumModel::Text(t.kind)),
                    named("round_depth"@, num(t.token.round as int)),
                    named(
                        "span"@,
                        DatumModel::Mapping(
                            seq![
                                named("end_byte"@, num(t.token.end_byte as int)),
                                named("end_col"@, num(t.token.end_col as int)),
                                named("end_line"@, num(t.token.end_line as int)),
                                named("start_byte"@, num(t.token.start_byte as int)),
                                named("start_col"@, num(t.token.start_col as int)),
                                named("start_line"@, num(t.token.start_line as int)),
                            ],
                        ),
                    ),
                    named("text"@, DatumModel::Text(t.text)),
                ],
            )
        }),
{
}

} // verus!
