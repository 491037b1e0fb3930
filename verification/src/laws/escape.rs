//! Where a rule applies, and what keeps it quiet.

use vstd::prelude::*;

use crate::laws::lists::concat_holds_all;
use crate::matching::{
    rule_hits,
    rule_violations,
    silenced,
    stream_violations,
    ContextModel,
    ViolationModel,
};
use crate::outside::glob_accepts;
use crate::rules::RuleModel;
use crate::token::{StreamModel, TokenModel};

verus! {

/// Whether one of several globs matches a path.
pub open spec fn globbed(globs: Seq<Seq<char>>, path: Seq<char>) -> bool {
    exists|i: int| 0 <= i < globs.len() && glob_accepts(#[trigger] globs[i], path)
}

/// Whether something keeps a rule quiet in a file: a waiver with the rule's id and the
/// file, or one of its guards, which are a path that a glob matches, a waiver with the id
/// that the guard names and the file, and an accepted decision on a topic.
pub open spec fn quiet(r: RuleModel, file: Seq<char>, ctx: ContextModel) -> bool {
    ||| ctx.waivers.contains((r.id, file))
    ||| match r.unless {
        Some(u) => {
            ||| u.path_matches is Some && globbed(u.path_matches->0, file)
            ||| u.waiver_rule is Some && ctx.waivers.contains((u.waiver_rule->0, file))
            ||| u.adr_topic is Some && ctx.adrs.contains((u.adr_topic->0, true))
        },
        None => false,
    }
}

/// Whether a file is in a rule's scope: its language is one of those listed, some include
/// glob matches its path and no exclude glob does, where the rule has such lists.
pub open spec fn in_reach(r: RuleModel, s: StreamModel) -> bool {
    &&& r.languages is Some ==> r.languages->0.contains(s.language)
    &&& r.includes is Some ==> globbed(r.includes->0, s.file)
    &&& r.excludes is Some ==> !globbed(r.excludes->0, s.file)
}

pub proof fn lemma_quiet(r: RuleModel, file: Seq<char>, ctx: ContextModel)
    ensures
        silenced(r, file, ctx) == quiet(r, file, ctx),
{
    if let Some(u) = r.unless {
        if let Some(globs) = u.path_matches {
            lemma_globbed(globs, file);
        }
    }
}

proof fn lemma_globbed(globs: Seq<Seq<char>>, path: Seq<char>)
    ensures
        crate::rules::any_glob(globs, path) == globbed(globs, path),
{
    if crate::rules::any_glob(globs, path) {
        let i = choose|i: int| 0 <= i < globs.len() && #[trigger] glob_accepts(globs[i], path);
        assert(glob_accepts(globs[i], path));
    }
    if globbed(globs, path) {
        let i = choose|i: int| 0 <= i < globs.len() && glob_accepts(#[trigger] globs[i], path);
        assert(glob_accepts(globs[i], path));
    }
}

/// Whether a violation says what a rule says, of a lexeme of a file: the rule's id,
/// severity, description and message, the file, and the lexeme's place, kind, class, text
/// and function.
pub open spec fn speaks_of(v: ViolationModel, r: RuleModel, file: Seq<char>, t: TokenModel) -> bool {
    &&& v.rule_id == r.id
    &&& v.severity == r.severity
    &&& v.description == r.description
    &&& v.message == r.message
    &&& v.file == file
    &&& v.span.start_byte == t.token.start_byte
    &&& v.span.end_byte == t.token.end_byte
    &&& v.span.start_line == t.token.start_line
    &&& v.span.start_col == t.token.start_col
    &&& v.span.end_line == t.token.end_line
    &&& v.span.end_col == t.token.end_col
    &&& v.matched.node_kind == t.kind
    &&& v.matched.class == t.class
    &&& v.matched.text == t.text
    &&& v.matched.named == t.token.named
    &&& v.matched.function == t.func
}

/// In a file that is in its scope, a rule that nothing keeps quiet reports each lexeme that
/// it matches, in order, and says so of that lexeme; in any other file it reports nothing.
pub proof fn rules_report_where_they_reach(r: RuleModel, s: StreamModel, ctx: ContextModel)
    ensures
        !(in_reach(r, s) && !quiet(r, s.file, ctx)) ==> stream_violations(r, s, ctx).len() == 0,
        in_reach(r, s) && !quiet(r, s.file, ctx) ==> {
            &&& stream_violations(r, s, ctx).len() == rule_hits(r, s.tokens).len()
            &&& forall|i: int|
                0 <= i < rule_hits(r, s.tokens).len() ==> speaks_of(
                    #[trigger] stream_violations(r, s, ctx)[i],
                    r,
                    s.file,
                    rule_hits(r, s.tokens)[i],
                )
        },
{
    lemma_quiet(r, s.file, ctx);
    if let Some(globs) = r.includes {
        lemma_globbed(globs, s.file);
    }
    if let Some(globs) = r.excludes {
        lemma_globbed(globs, s.file);
    }
}

/// A rule reports in each of several files what it reports in that file alone.
pub proof fn rules_look_at_each_file(
    r: RuleModel,
    streams: Seq<StreamModel>,
    ctx: ContextModel,
    v: ViolationModel,
)
    ensures
        rule_violations(r, streams, ctx).contains(v) <==> exists|i: int|
            0 <= i < streams.len() && stream_violations(r, #[trigger] streams[i], ctx).contains(v),
{
    let f = |s: StreamModel| stream_violations(r, s, ctx);
    let lists = streams.map_values(f);
    concat_holds_all(lists, v);
    if rule_violations(r, streams, ctx).contains(v) {
        let i = choose|i: int| 0 <= i < lists.len() && (#[trigger] lists[i]).contains(v);
        assert(stream_violations(r, streams[i], ctx).contains(v));
    }
    if exists|i: int|
        0 <= i < streams.len() && stream_violations(r, #[trigger] streams[i], ctx).contains(v) {
        let i = choose|i: int|
            0 <= i < streams.len() && stream_violations(r, #[trigger] streams[i], ctx).contains(v);
        assert(lists[i].contains(v));
    }
}

/// What the context holds on other rules, other files and other topics does not matter: a
/// rule reports the same in two contexts that agree on the waivers of the file under the
/// rule's id and the id that its guard names, and on the topic of its guard.
pub proof fn only_its_own_exceptions_matter(
    r: RuleModel,
    s: StreamModel,
    one: ContextModel,
    other: ContextModel,
)
    requires
        one.waivers.contains((r.id, s.file)) == other.waivers.contains((r.id, s.file)),
        r.unless is Some && r.unless->0.waiver_rule is Some ==> one.waivers.contains(
            (r.unless->0.waiver_rule->0, s.file),
        ) == other.waivers.contains((r.unless->0.waiver_rule->0, s.file)),
        r.unless is Some && r.unless->0.adr_topic is Some ==> one.adrs.contains(
            (r.unless->0.adr_topic->0, true),
        ) == other.adrs.contains((r.unless->0.adr_topic->0, true)),
    ensures
        stream_violations(r, s, one) == stream_violations(r, s, other),
{
    lemma_quiet(r, s.file, one);
    lemma_quiet(r, s.file, other);
}

} // verus!
