//! The manifest frontend: an event for each dependency that a `package.json`
//! declares, meaning "present in the manifest".

use vstd::prelude::*;

use crate::compile::concat;
use crate::event::{Event, EventKind, EventModel};
use crate::frontend::SourceFile;
use crate::order::{put, TextMap};
use crate::outside::{json_of, json_parse, json_plain};
use crate::paths::{file_name, name_of};
use crate::text::{join3, same, views};
use crate::token::{Language, Span};
use crate::value::{member, text_value, Datum, DatumModel};

verus! {

/// The manifest frontend. It produces events and no token stream.
#[derive(Debug, Clone, Copy)]
pub struct ManifestFrontend;

/// The span of a manifest event: a unit span at the top of the file, as a manifest
/// is not source code.
pub open spec fn top_span() -> Span {
    Span { start_byte: 0, end_byte: 0, start_line: 1, start_col: 1, end_line: 1, end_col: 1 }
}

/// The sections of a manifest that declare dependencies, in order.
pub open spec fn sections() -> Seq<Seq<char>> {
    seq![
        "dependencies"@,
        "devDependencies"@,
        "peerDependencies"@,
        "optionalDependencies"@,
    ]
}

/// The event of one dependency.
pub open spec fn package_of(
    file: Seq<char>,
    section: Seq<char>,
    name: Seq<char>,
    version: DatumModel,
) -> EventModel {
    EventModel {
        kind: EventKind::PackageAdded,
        language: Language::Javascript,
        file,
        span: top_span(),
        attrs: put(
            put(
                put(Seq::empty(), "name"@, DatumModel::Text(name)),
                "version"@,
                version,
            ),
            "section"@,
            DatumModel::Text(section),
        ),
    }
}

/// The dependencies of an object, in the order of their names.
pub open spec fn dependencies(items: Seq<(DatumModel, DatumModel)>) -> Seq<(Seq<char>, DatumModel)>
    decreases items.len(),
{
    if items.len() == 0 {
        Seq::empty()
    } else {
        let before = dependencies(items.drop_last());
        match items.last().0 {
            DatumModel::Text(name) => put(before, name, items.last().1),
            _ => before,
        }
    }
}

/// The events of one section. A section that is not an object has none.
pub open spec fn section_events(file: Seq<char>, section: Seq<char>, v: DatumModel) -> Seq<EventModel> {
    match member(v, section) {
        Some(DatumModel::Mapping(items)) => dependencies(items).map_values(
            |d: (Seq<char>, DatumModel)| package_of(file, section, d.0, d.1),
        ),
        _ => Seq::empty(),
    }
}

/// The events of a manifest, section by section.
pub open spec fn manifest_events(file: Seq<char>, v: DatumModel) -> Seq<EventModel> {
    concat(sections().map_values(|s: Seq<char>| section_events(file, s, v)))
}

fn package_event(file: &str, section: &str, name: &str, version: &Datum) -> (r: Event)
    ensures
        r@ == package_of(file@, section@, name@, version@),
{
    let span = Span {
        start_byte: 0,
        end_byte: 0,
        start_line: 1,
        start_col: 1,
        end_line: 1,
        end_col: 1,
    };
    Event::new(EventKind::PackageAdded, Language::Javascript, file.to_owned(), span).with(
        "name",
        text_value(name),
    ).with("version", version.duplicate()).with("section", text_value(section))
}

fn collect_dependencies(items: &Vec<(Datum, Datum)>) -> (r: TextMap<Datum>)
    ensures
        r@ == dependencies(crate::value::pair_models(items@)),
{
    let ghost models = crate::value::pair_models(items@);
    let mut out: TextMap<Datum> = TextMap::new();
    let mut i: usize = 0;
    assert(models.take(0) =~= Seq::<(DatumModel, DatumModel)>::empty());
    while i < items.len()
        invariant
            i <= items@.len(),
            models == crate::value::pair_models(items@),
            out@ == dependencies(models.take(i as int)),
        decreases items@.len() - i,
    {
        assert(models.take(i + 1).drop_last() =~= models.take(i as int));
        assert(models.take(i + 1).last() == (items@[i as int].0@, items@[i as int].1@));
        if let Datum::Text(name) = &items[i].0 {
            out.insert(name.clone(), items[i].1.duplicate());
        }
        i += 1;
    }
    assert(models.take(i as int) =~= models);
    out
}

fn read_section(file: &str, section: &str, v: &Datum, out: &mut Vec<Event>)
    ensures
        views(final(out)@) == views(old(out)@) + section_events(file@, section@, v@),
{
    let ghost first = views(out@);
    if let Some(found) = v.get(section) {
        if let Datum::Mapping(items) = found {
            proof {
                assert(found@->Mapping_0 =~= crate::value::pair_models(items@));
            }
            let deps = collect_dependencies(items);
            let ghost all = deps@.map_values(
                |d: (Seq<char>, DatumModel)| package_of(file@, section@, d.0, d.1),
            );
            assert(all == section_events(file@, section@, v@));
            let mut i: usize = 0;
            assert(first + all.take(0) =~= first);
            while i < deps.entries.len()
                invariant
                    i <= deps.entries@.len(),
                    all == deps@.map_values(
                        |d: (Seq<char>, DatumModel)| package_of(file@, section@, d.0, d.1),
                    ),
                    views(out@) == first + all.take(i as int),
                decreases deps.entries@.len() - i,
            {
                assert(deps@[i as int] == crate::order::entry_view(deps.entries@[i as int]));
                let ghost before = out@;
                let e = package_event(
                    file,
                    section,
                    deps.entries[i].0.as_str(),
                    &deps.entries[i].1,
                );
                out.push(e);
                assert(views(out@) =~= views(before).push(e@));
                assert(first + all.take(i + 1) =~= (first + all.take(i as int)).push(all[i as int]));
                i += 1;
            }
            assert(all.take(i as int) =~= all);
            return ;
        }
    }
    assert(first + Seq::<EventModel>::empty() =~= first);
}

/// The events of a manifest that was read as a value.
pub fn package_events(file: &str, v: &Datum) -> (r: Vec<Event>)
    ensures
        views(r@) == manifest_events(file@, v@),
{
    let ghost all = sections().map_values(|s: Seq<char>| section_events(file@, s, v@));
    let mut out: Vec<Event> = Vec::new();
    assert(views(out@) =~= Seq::<EventModel>::empty());
    read_section(file, "dependencies", v, &mut out);
    read_section(file, "devDependencies", v, &mut out);
    read_section(file, "peerDependencies", v, &mut out);
    read_section(file, "optionalDependencies", v, &mut out);
    proof {
        assert(all.take(0) =~= Seq::<Seq<EventModel>>::empty());
        assert forall|n: int| 0 <= n < 4 implies #[trigger] concat(all.take(n + 1)) == concat(
            all.take(n),
        ) + all[n] by {
            assert(all.take(n + 1).drop_last() =~= all.take(n));
            assert(all.take(n + 1).last() == all[n]);
        }
        assert(concat(all.take(0int + 1)) == concat(all.take(0)) + all[0]);
        assert(concat(all.take(1int + 1)) == concat(all.take(1)) + all[1]);
        assert(concat(all.take(2int + 1)) == concat(all.take(2)) + all[2]);
        assert(concat(all.take(3int + 1)) == concat(all.take(3)) + all[3]);
        assert(all.take(4) =~= all);
    }
    out
}

/// The events of a manifest's text, or the message about a text that is not JSON.
pub open spec fn extracted(file: Seq<char>, text: Seq<char>) -> Result<Seq<EventModel>, Seq<char>> {
    match json_of(text) {
        Ok(v) => Ok(manifest_events(file, v)),
        Err(e) => Err("invalid package.json "@ + file + ": "@ + e),
    }
}

impl ManifestFrontend {
    /// Human-readable name (for diagnostics).
    pub fn name(&self) -> (r: &'static str)
        ensures
            r@ == "manifest"@,
    {
        "manifest"
    }

    /// Whether a path is that of a manifest.
    pub fn supports_file(&self, path: &str) -> (r: bool)
        ensures
            r == (name_of(path@) == Some("package.json"@)),
    {
        match file_name(path) {
            Some(name) => same(name.as_str(), "package.json"),
            None => false,
        }
    }

    /// The events of a manifest.
    pub fn extract(&self, file: &SourceFile<'_>) -> (r: Result<Vec<Event>, String>)
        ensures
            match r {
                Ok(v) => extracted(file.path@, file.text@) == Ok::<Seq<EventModel>, Seq<char>>(
                    views(v@),
                ),
                Err(e) => extracted(file.path@, file.text@) == Err::<Seq<EventModel>, Seq<char>>(e@),
            },
    {
        match json_parse(file.text) {
            Ok(json) => {
                let v = json_plain(json);
                Ok(package_events(file.path.as_str(), &v))
            },
            Err(e) => {
                let head = join3("invalid package.json ", file.path.as_str(), ": ");
                Err(crate::text::join2(head.as_str(), e.as_str()))
            },
        }
    }
}

} // verus!
