//! Waivers, decisions and package manifests: what is read from their values.

use vstd::prelude::*;

use crate::event::{
    attr_forms,
    kind_name,
    kind_names_round_trip,
    kind_of_name,
    EventKind,
    EventModel,
};
use crate::laws::lexemes::extensions_follow_the_last_dot;
use crate::manifest::{extracted, manifest_events, section_events};
use crate::order::{find, find_after_put, put};
use crate::outside::{json_of, path_parts, path_rest, PartModel};
use crate::paths::relative_to;
use crate::project::{adr_of, waiver_of, yaml_path};
use crate::text::ascii_lower_text;
use crate::token::{language_of_extension, Language};
use crate::value::{key_position, member, scalar_form, string_forms, DatumModel};

verus! {

/// Whether a mapping holds a value under a key, and none before it.
pub open spec fn holds_at(items: Seq<(DatumModel, DatumModel)>, k: Seq<char>, i: int) -> bool {
    &&& 0 <= i < items.len()
    &&& items[i].0 == DatumModel::Text(k)
    &&& forall|j: int| 0 <= j < i ==> (#[trigger] items[j]).0 != DatumModel::Text(k)
}

proof fn lemma_key(items: Seq<(DatumModel, DatumModel)>, k: Seq<char>, from: int, i: int)
    requires
        0 <= from <= i,
        holds_at(items, k, i),
    ensures
        key_position(items, k, from) == Some(i),
    decreases i - from,
{
    if from < i {
        assert(items[from].0 != DatumModel::Text(k));
        lemma_key(items, k, from + 1, i);
    }
}

proof fn lemma_no_key(items: Seq<(DatumModel, DatumModel)>, k: Seq<char>, from: int)
    requires
        0 <= from,
        forall|j: int| 0 <= j < items.len() ==> (#[trigger] items[j]).0 != DatumModel::Text(k),
    ensures
        key_position(items, k, from) is None,
    decreases items.len() - from,
{
    if from < items.len() {
        assert(items[from].0 != DatumModel::Text(k));
        lemma_no_key(items, k, from + 1);
    }
}

/// A member of a mapping is what stands under its key; other values have no members.
pub proof fn members_stand_under_their_key(v: DatumModel, k: Seq<char>, i: int)
    ensures
        v is Mapping && holds_at(v->Mapping_0, k, i) ==> member(v, k) == Some(v->Mapping_0[i].1),
        v is Mapping && (forall|j: int|
            0 <= j < v->Mapping_0.len() ==> (#[trigger] v->Mapping_0[j]).0 != DatumModel::Text(k))
            ==> member(v, k) is None,
        v is Null || v is Bool || v is Number || v is Text || v is Sequence ==> member(v, k) is None,
        v is Tagged ==> member(v, k) == member(*v->Tagged_1, k),
{
    if v is Mapping && holds_at(v->Mapping_0, k, i) {
        lemma_key(v->Mapping_0, k, 0, i);
    }
    if v is Mapping && (forall|j: int|
        0 <= j < v->Mapping_0.len() ==> (#[trigger] v->Mapping_0[j]).0 != DatumModel::Text(k)) {
        lemma_no_key(v->Mapping_0, k, 0);
    }
}

/// A waiver needs the texts under `rule` and `file` and is for that rule in that file.
pub proof fn waivers_name_a_rule_and_a_file(v: DatumModel, rule: Seq<char>, file: Seq<char>)
    ensures
        member(v, "rule"@) == Some(DatumModel::Text(rule)) && member(v, "file"@) == Some(
            DatumModel::Text(file),
        ) ==> waiver_of(v) == Some((rule, file)),
        member(v, "rule"@) is None || member(v, "file"@) is None ==> waiver_of(v) is None,
{
}

/// A decision needs the text under `topic`; it is accepted exactly where the text under
/// `status` is `accepted`, letters in either case.
pub proof fn decisions_are_accepted_by_status(v: DatumModel, topic: Seq<char>, status: Seq<char>)
    ensures
        member(v, "topic"@) == Some(DatumModel::Text(topic)) && member(v, "status"@) == Some(
            DatumModel::Text(status),
        ) ==> adr_of(v) == Some((topic, ascii_lower_text(status) == "accepted"@)),
        member(v, "topic"@) == Some(DatumModel::Text(topic)) && member(v, "status"@) is None
            ==> adr_of(v) == Some((topic, false)),
        member(v, "topic"@) is None ==> adr_of(v) is None,
{
}

/// Lower case changes the letters from `A` to `Z` and nothing else.
pub proof fn lower_case_changes_letters_only(s: Seq<char>, i: int)
    requires
        0 <= i < s.len(),
    ensures
        ascii_lower_text(s).len() == s.len(),
        'A' <= s[i] <= 'Z' ==> ascii_lower_text(s)[i] as u32 == s[i] as u32 + 32,
        !('A' <= s[i] <= 'Z') ==> ascii_lower_text(s)[i] == s[i],
{
}

/// The texts of a value: its own for a text, a number or a truth value, those of its items for
/// a sequence, and none for anything else.
pub proof fn values_have_texts(s: Seq<char>)
    ensures
        scalar_form(DatumModel::Text(s)) == Some(s),
        scalar_form(DatumModel::Number(s)) == Some(s),
        scalar_form(DatumModel::Bool(true)) == Some("true"@),
        scalar_form(DatumModel::Bool(false)) == Some("false"@),
        scalar_form(DatumModel::Null) is None,
        string_forms(DatumModel::Text(s)) == seq![s],
        string_forms(DatumModel::Number(s)) == seq![s],
        string_forms(DatumModel::Bool(true)) == seq!["true"@],
        string_forms(DatumModel::Bool(false)) == seq!["false"@],
        string_forms(DatumModel::Null).len() == 0,
{
}

/// Whether an event says that a package was declared in a section of a file.
pub open spec fn declares(
    e: EventModel,
    file: Seq<char>,
    section: Seq<char>,
    name: Seq<char>,
    version: DatumModel,
) -> bool {
    &&& e.kind == EventKind::PackageAdded
    &&& e.language == Language::Javascript
    &&& e.file == file
    &&& e.span.start_line == 1
    &&& e.span.start_col == 1
    &&& find(e.attrs, "name"@) == Some(DatumModel::Text(name))
    &&& find(e.attrs, "version"@) == Some(version)
    &&& find(e.attrs, "section"@) == Some(DatumModel::Text(section))
}

proof fn lemma_declares(file: Seq<char>, section: Seq<char>, name: Seq<char>, version: DatumModel)
    ensures
        declares(
            crate::manifest::package_of(file, section, name, version),
            file,
            section,
            name,
            version,
        ),
{
    let a = DatumModel::Text(name);
    let c = DatumModel::Text(section);
    let s0 = Seq::<(Seq<char>, DatumModel)>::empty();
    let s1 = crate::order::put(s0, "name"@, a);
    let s2 = crate::order::put(s1, "version"@, version);
    reveal_strlit("name");
    reveal_strlit("version");
    reveal_strlit("section");
    assert("name"@.len() == 4 && "version"@.len() == 7 && "section"@.len() == 7);
    assert("version"@[0] == 'v' && "section"@[0] == 's');
    crate::order::find_after_put(s2, "section"@, c, "name"@);
    crate::order::find_after_put(s2, "section"@, c, "version"@);
    crate::order::find_after_put(s2, "section"@, c, "section"@);
    crate::order::find_after_put(s1, "version"@, version, "name"@);
    crate::order::find_after_put(s1, "version"@, version, "version"@);
    crate::order::find_after_put(s0, "name"@, a, "name"@);
}

/// A manifest declares the packages of its sections `dependencies`, `devDependencies`,
/// `peerDependencies` and `optionalDependencies`, in this order.
pub proof fn manifests_have_four_sections(file: Seq<char>, v: DatumModel)
    ensures
        manifest_events(file, v) == section_events(file, "dependencies"@, v) + section_events(
            file,
            "devDependencies"@,
            v,
        ) + section_events(file, "peerDependencies"@, v) + section_events(
            file,
            "optionalDependencies"@,
            v,
        ),
{
    let f = |s: Seq<char>| section_events(file, s, v);
    let lists = crate::manifest::sections().map_values(f);
    let a = section_events(file, "dependencies"@, v);
    let b = section_events(file, "devDependencies"@, v);
    let c = section_events(file, "peerDependencies"@, v);
    let d = section_events(file, "optionalDependencies"@, v);
    assert(lists =~= seq![a, b, c, d]);
    let l3 = lists.drop_last();
    let l2 = l3.drop_last();
    let l1 = l2.drop_last();
    assert(l3 =~= seq![a, b, c] && l2 =~= seq![a, b] && l1 =~= seq![a]);
    assert(l1.drop_last() =~= Seq::<Seq<EventModel>>::empty());
    reveal_with_fuel(crate::compile::concat, 5);
    assert(crate::compile::concat(l1) =~= a);
    assert(crate::compile::concat(l2) =~= a + b);
    assert(crate::compile::concat(l3) =~= a + b + c);
}

/// Each event of a section declares one of the packages listed there.
pub proof fn sections_declare_their_packages(
    file: Seq<char>,
    section: Seq<char>,
    v: DatumModel,
    i: int,
)
    requires
        0 <= i < section_events(file, section, v).len(),
    ensures
        exists|name: Seq<char>, version: DatumModel|
            #[trigger] declares(section_events(file, section, v)[i], file, section, name, version)
                && member(v, section) is Some && member(v, section)->0 is Mapping
                && member(v, section)->0->Mapping_0.contains((DatumModel::Text(name), version)),
{
    let items = member(v, section)->0->Mapping_0;
    let deps = crate::manifest::dependencies(items);
    let (name, version) = deps[i];
    lemma_declares(file, section, name, version);
    lemma_dependency(items, i);
    assert(section_events(file, section, v)[i] == crate::manifest::package_of(
        file,
        section,
        name,
        version,
    ));
    assert(declares(section_events(file, section, v)[i], file, section, name, version));
}

proof fn lemma_dependency(items: Seq<(DatumModel, DatumModel)>, i: int)
    requires
        0 <= i < crate::manifest::dependencies(items).len(),
    ensures
        ({
            let d = crate::manifest::dependencies(items)[i];
            items.contains((DatumModel::Text(d.0), d.1))
        }),
    decreases items.len(),
{
    if items.len() > 0 {
        let init = items.drop_last();
        let before = crate::manifest::dependencies(init);
        let all = crate::manifest::dependencies(items);
        let d = all[i];
        let last = items.last();
        if let DatumModel::Text(name) = last.0 {
            lemma_put_from(before, name, last.1, i);
            if d == (name, last.1) {
                assert(items[items.len() - 1] == (DatumModel::Text(d.0), d.1));
            } else {
                let k = choose|k: int| 0 <= k < before.len() && #[trigger] before[k] == d;
                lemma_dependency(init, k);
                let j = init.index_of((DatumModel::Text(d.0), d.1));
                assert(items[j] == (DatumModel::Text(d.0), d.1));
            }
        } else {
            lemma_dependency(init, i);
            let j = init.index_of((DatumModel::Text(d.0), d.1));
            assert(items[j] == (DatumModel::Text(d.0), d.1));
        }
    }
}

proof fn lemma_put_from<M>(s: Seq<(Seq<char>, M)>, k: Seq<char>, m: M, i: int)
    requires
        0 <= i < crate::order::put(s, k, m).len(),
    ensures
        crate::order::put(s, k, m)[i] == (k, m) || exists|j: int|
            0 <= j < s.len() && #[trigger] s[j] == crate::order::put(s, k, m)[i],
    decreases s.len(),
{
    let r = crate::order::put(s, k, m);
    if s.len() > 0 {
        if s[0].0 == k {
            if i > 0 {
                assert(s[i] == r[i]);
            }
        } else if crate::order::text_lt(k, s[0].0) {
            if i > 0 {
                assert(s[i - 1] == r[i]);
            }
        } else {
            let t = s.drop_first();
            if i > 0 {
                lemma_put_from(t, k, m, i - 1);
                if r[i] != (k, m) {
                    let j = choose|j: int|
                        0 <= j < t.len() && #[trigger] t[j] == crate::order::put(t, k, m)[i - 1];
                    assert(s[j + 1] == r[i]);
                }
            } else {
                assert(s[0] == r[0]);
            }
        }
    }
}

/// Files are told apart by their extension.
pub proof fn extensions_name_languages(ext: Seq<char>)
    ensures
        language_of_extension("ts"@) == Some(Language::Typescript),
        language_of_extension("tsx"@) == Some(Language::Typescript),
        language_of_extension("mts"@) == Some(Language::Typescript),
        language_of_extension("cts"@) == Some(Language::Typescript),
        language_of_extension("js"@) == Some(Language::Javascript),
        language_of_extension("jsx"@) == Some(Language::Javascript),
        language_of_extension("mjs"@) == Some(Language::Javascript),
        language_of_extension("cjs"@) == Some(Language::Javascript),
        language_of_extension("go"@) == Some(Language::Go),
        language_of_extension("py"@) == Some(Language::Python),
        language_of_extension("rs"@) == Some(Language::Rust),
        language_of_extension(ext) is Some ==> ext == "ts"@ || ext == "tsx"@ || ext == "mts"@ || ext
            == "cts"@ || ext == "js"@ || ext == "jsx"@ || ext == "mjs"@ || ext == "cjs"@ || ext
            == "go"@ || ext == "py"@ || ext == "rs"@,
{
    reveal_strlit("ts");
    reveal_strlit("tsx");
    reveal_strlit("mts");
    reveal_strlit("cts");
    reveal_strlit("js");
    reveal_strlit("jsx");
    reveal_strlit("mjs");
    reveal_strlit("cjs");
    reveal_strlit("go");
    reveal_strlit("py");
    reveal_strlit("rs");
    assert("ts"@[0] == 't' && "tsx"@[0] == 't' && "mts"@[0] == 'm' && "cts"@[0] == 'c');
    assert("js"@[0] == 'j' && "jsx"@[0] == 'j' && "mjs"@[0] == 'm' && "cjs"@[0] == 'c');
    assert("mts"@[1] == 't' && "mjs"@[1] == 'j' && "cts"@[1] == 't' && "cjs"@[1] == 'j');
    assert("go"@[0] == 'g' && "py"@[0] == 'p' && "rs"@[0] == 'r');
    assert("ts"@.len() == 2 && "tsx"@.len() == 3 && "mts"@.len() == 3 && "cts"@.len() == 3);
    assert("js"@.len() == 2 && "jsx"@.len() == 3 && "mjs"@.len() == 3 && "cjs"@.len() == 3);
}

/// A kind of event is written as it is called, and a name that no kind has means none.
pub proof fn kinds_are_written_as_they_are_called(k: EventKind, s: Seq<char>)
    ensures
        k is File ==> kind_name(k) == "File"@,
        k is PackageAdded ==> kind_name(k) == "PackageAdded"@,
        k is Import ==> kind_name(k) == "Import"@,
        k is Export ==> kind_name(k) == "Export"@,
        k is Call ==> kind_name(k) == "Call"@,
        k is NewExpr ==> kind_name(k) == "NewExpr"@,
        k is TypeDecl ==> kind_name(k) == "TypeDecl"@,
        k is FunctionDecl ==> kind_name(k) == "FunctionDecl"@,
        k is MethodDecl ==> kind_name(k) == "MethodDecl"@,
        k is ClassDecl ==> kind_name(k) == "ClassDecl"@,
        k is Attribute ==> kind_name(k) == "Attribute"@,
        k is EnvAccess ==> kind_name(k) == "EnvAccess"@,
        k is StringLiteral ==> kind_name(k) == "StringLiteral"@,
        k is Comment ==> kind_name(k) == "Comment"@,
        k is ScopeStart ==> kind_name(k) == "ScopeStart"@,
        k is ScopeEnd ==> kind_name(k) == "ScopeEnd"@,
        k is GraphqlOperation ==> kind_name(k) == "GraphqlOperation"@,
        k is GeneratedFile ==> kind_name(k) == "GeneratedFile"@,
        k is ConfigFile ==> kind_name(k) == "ConfigFile"@,
        k is Token ==> kind_name(k) == "Token"@,
        kind_of_name(s) == Some(k) <==> s == kind_name(k),
{
    kind_names_round_trip(k);
}

/// A rule file is structured where its extension is `yaml` or `yml`, as these are written;
/// any other one is textual.
pub proof fn extensions_settle_the_grammar_of_rules(
    path: Seq<char>,
    stem: Seq<char>,
    ext: Seq<char>,
)
    requires
        path_parts(path).len() > 0,
        path_parts(path).last() == PartModel::Name(stem + seq!['.'] + ext),
        !ext.contains('.'),
    ensures
        yaml_path(path) <==> stem.len() > 0 && (ext == "yaml"@ || ext == "yml"@),
{
    extensions_follow_the_last_dot(path, stem, ext);
}

/// A manifest that is a JSON text has the events of its value; one that is none is refused,
/// with its path and the reason.
pub proof fn manifests_are_json(file: Seq<char>, text: Seq<char>, v: DatumModel, e: Seq<char>)
    ensures
        json_of(text) == Ok::<DatumModel, Seq<char>>(v) ==> extracted(file, text) == Ok::<
            Seq<EventModel>,
            Seq<char>,
        >(manifest_events(file, v)),
        json_of(text) == Err::<DatumModel, Seq<char>>(e) ==> extracted(file, text) == Err::<
            Seq<EventModel>,
            Seq<char>,
        >("invalid package.json "@ + file + ": "@ + e),
{
}

/// A path below a root is shown as what follows the root, any other as it is.
pub proof fn paths_are_shown_below_their_root(path: Seq<char>, root: Seq<char>)
    ensures
        path_rest(path, root) is Some ==> relative_to(path, root) == path_rest(path, root)->0,
        path_rest(path, root) is None ==> relative_to(path, root) == path,
{
}

/// An attribute set on an event has the texts of its value, and the other attributes keep
/// theirs.
pub proof fn attributes_have_the_texts_of_their_value(
    attrs: Seq<(Seq<char>, DatumModel)>,
    key: Seq<char>,
    v: DatumModel,
    other: Seq<char>,
)
    ensures
        attr_forms(put(attrs, key, v), key) == string_forms(v),
        other != key ==> attr_forms(put(attrs, key, v), other) == attr_forms(attrs, other),
        attr_forms(Seq::empty(), key).len() == 0,
{
    find_after_put(attrs, key, v, other);
    find_after_put(attrs, key, v, key);
}

} // verus!
