//! Decisions around a check: which rule file to read, what waivers and decision
//! records say, and how a run ends.

use vstd::prelude::*;

use crate::aggregate::{severity_count, summarize};
use crate::matching::{AdrRecord, Violation, ViolationModel, WaiverRecord};
use crate::outside::{yaml_of, yaml_parse, yaml_plain};
use crate::paths::{extension, extension_of};
use crate::schema::Severity;
use crate::text::{ascii_lower_text, lower, same, views};
use crate::value::{member, untagged, Datum, DatumModel};

verus! {

/// The string under a key of a mapping, behind its tags.
pub open spec fn text_under(v: DatumModel, key: Seq<char>) -> Option<Seq<char>> {
    match member(v, key) {
        Some(found) => match untagged(found) {
            DatumModel::Text(s) => Some(s),
            _ => None,
        },
        None => None,
    }
}

fn find_text<'a>(v: &'a Datum, key: &str) -> (r: Option<&'a str>)
    ensures
        match r {
            Some(s) => text_under(v@, key@) == Some(s@),
            None => text_under(v@, key@) is None,
        },
{
    match v.get(key) {
        Some(found) => found.as_str(),
        None => None,
    }
}

/// The rule and the file of a waiver, which needs both.
pub open spec fn waiver_of(v: DatumModel) -> Option<(Seq<char>, Seq<char>)> {
    match (text_under(v, "rule"@), text_under(v, "file"@)) {
        (Some(rule), Some(file)) => Some((rule, file)),
        _ => None,
    }
}

/// The topic of a decision record and whether it is accepted. The case of the status
/// does not matter, and a record without one is not accepted.
pub open spec fn adr_of(v: DatumModel) -> Option<(Seq<char>, bool)> {
    match text_under(v, "topic"@) {
        Some(topic) => Some(
            (
                topic,
                match text_under(v, "status"@) {
                    Some(s) => ascii_lower_text(s) == "accepted"@,
                    None => false,
                },
            ),
        ),
        None => None,
    }
}

/// Reads a waiver from a value.
pub fn waiver_from(v: &Datum) -> (r: Option<WaiverRecord>)
    ensures
        match r {
            Some(w) => waiver_of(v@) == Some((w.rule@, w.file@)),
            None => waiver_of(v@) is None,
        },
{
    match find_text(v, "rule") {
        Some(rule) => match find_text(v, "file") {
            Some(file) => Some(WaiverRecord { rule: rule.to_owned(), file: file.to_owned() }),
            None => None,
        },
        None => None,
    }
}

/// Reads a decision record from a value.
pub fn adr_from(v: &Datum) -> (r: Option<AdrRecord>)
    ensures
        match r {
            Some(a) => adr_of(v@) == Some((a.topic@, a.accepted)),
            None => adr_of(v@) is None,
        },
{
    match find_text(v, "topic") {
        Some(topic) => {
            let accepted = match find_text(v, "status") {
                Some(s) => {
                    let low = lower(s);
                    same(low.as_str(), "accepted")
                },
                None => false,
            };
            Some(AdrRecord { topic: topic.to_owned(), accepted })
        },
        None => None,
    }
}

/// Reads a waiver from the text of its file. The outer result is none where the text
/// is not YAML, the inner one where it says no waiver.
pub fn read_waiver(text: &str) -> (r: Option<Option<WaiverRecord>>)
    ensures
        match yaml_of(text@) {
            None => r is None,
            Some(v) => match r {
                Some(Some(w)) => waiver_of(v) == Some((w.rule@, w.file@)),
                Some(None) => waiver_of(v) is None,
                None => false,
            },
        },
{
    match yaml_parse(text) {
        Some(y) => {
            let v = yaml_plain(y);
            Some(waiver_from(&v))
        },
        None => None,
    }
}

/// Reads a decision record from the text of its file. The outer result is none where
/// the text is not YAML, the inner one where it says no decision.
pub fn read_adr(text: &str) -> (r: Option<Option<AdrRecord>>)
    ensures
        match yaml_of(text@) {
            None => r is None,
            Some(v) => match r {
                Some(Some(a)) => adr_of(v) == Some((a.topic@, a.accepted)),
                Some(None) => adr_of(v) is None,
                None => false,
            },
        },
{
    match yaml_parse(text) {
        Some(y) => {
            let v = yaml_plain(y);
            Some(adr_from(&v))
        },
        None => None,
    }
}

/// Whether a path has the extension of a YAML file.
pub open spec fn yaml_path(path: Seq<char>) -> bool {
    match extension_of(path) {
        Some(e) => e == "yaml"@ || e == "yml"@,
        None => false,
    }
}

/// Whether a path has the extension of a YAML file. Rule files with any other one
/// are in the textual grammar.
pub fn is_yaml(path: &str) -> (r: bool)
    ensures
        r == yaml_path(path@),
{
    match extension(path) {
        Some(e) => same(e.as_str(), "yaml") || same(e.as_str(), "yml"),
        None => false,
    }
}

/// The name of the rule file that is looked for at the root: the structured one,
/// unless only the textual one is there.
pub fn rules_file(yaml_exists: bool, text_exists: bool) -> (r: &'static str)
    ensures
        r@ == (if !yaml_exists && text_exists {
            "codepolicy.rules"@
        } else {
            "codepolicy.yaml"@
        }),
{
    if !yaml_exists && text_exists {
        "codepolicy.rules"
    } else {
        "codepolicy.yaml"
    }
}

/// The directory of waivers: the configured one, or the default.
pub fn waivers_dir(configured: &Option<String>) -> (r: String)
    ensures
        r@ == (match *configured {
            Some(d) => d@,
            None => ".codepolicy/waivers"@,
        }),
{
    match configured {
        Some(d) => d.clone(),
        None => ".codepolicy/waivers".to_owned(),
    }
}

/// The directory of decision records: the configured one, or the default.
pub fn adr_dir(configured: &Option<String>) -> (r: String)
    ensures
        r@ == (match *configured {
            Some(d) => d@,
            None => "docs/adr"@,
        }),
{
    match configured {
        Some(d) => d.clone(),
        None => "docs/adr".to_owned(),
    }
}

/// The exit code of a check: 1 where there is an error, else 0.
pub fn exit_code(violations: &[Violation]) -> (r: i32)
    ensures
        r == (if exists|i: int|
            0 <= i < violations@.len() && (#[trigger] views(violations@)[i]).severity
                == Severity::Error {
            1i32
        } else {
            0i32
        }),
{
    let (errors, _) = summarize(violations);
    proof {
        lemma_errors(views(violations@));
    }
    if errors > 0 {
        1
    } else {
        0
    }
}

proof fn lemma_errors(vs: Seq<ViolationModel>)
    ensures
        severity_count(vs, Severity::Error) > 0 <==> exists|i: int|
            0 <= i < vs.len() && (#[trigger] vs[i]).severity == Severity::Error,
    decreases vs.len(),
{
    if vs.len() > 0 {
        let t = vs.drop_last();
        lemma_errors(t);
        if vs.last().severity == Severity::Error {
            assert(vs[vs.len() - 1].severity == Severity::Error);
        }
        if exists|i: int| 0 <= i < t.len() && (#[trigger] t[i]).severity == Severity::Error {
            let i = choose|i: int| 0 <= i < t.len() && (#[trigger] t[i]).severity == Severity::Error;
            assert(vs[i].severity == Severity::Error);
        }
        if exists|i: int| 0 <= i < vs.len() && (#[trigger] vs[i]).severity == Severity::Error {
            let i = choose|i: int|
                0 <= i < vs.len() && (#[trigger] vs[i]).severity == Severity::Error;
            if i < t.len() {
                assert(t[i].severity == Severity::Error);
            }
        }
    }
}

} // verus!
