//! The calls into other crates, each behind a contract that is taken on trust.

use vstd::prelude::*;

use camino::{Utf8Component, Utf8Path, Utf8Prefix};

use crate::syntax::NodeModel;
use crate::value::{json_ready, Datum, DatumModel};

verus! {

// ---------------------------------------------------------------------------
// regex
// ---------------------------------------------------------------------------

/// A compiled regular expression of the `regex` crate.
#[verifier::external_type_specification]
#[verifier::external_body]
pub struct ExRegex(regex::Regex);

/// A regular expression with the default options. Its field is private and
/// [`regex_new`] and [`regex_clone`] alone make values of this type, so the pattern
/// settles what an expression matches.
#[derive(Debug)]
pub struct Pattern {
    re: regex::Regex,
}

/// The message with which `regex::Regex::new` rejects a pattern, or nothing where
/// it accepts the pattern.
pub uninterp spec fn regex_fault(pattern: Seq<char>) -> Option<Seq<char>>;

/// Whether a regular expression has a match somewhere in a text.
pub uninterp spec fn regex_accepts(pattern: Seq<char>, text: Seq<char>) -> bool;

/// The pattern that a regular expression was compiled from.
pub uninterp spec fn regex_source(re: Pattern) -> Seq<char>;

impl View for Pattern {
    type V = Seq<char>;

    open spec fn view(&self) -> Seq<char> {
        regex_source(*self)
    }
}

impl Pattern {
    /// The pattern that the expression was compiled from.
    pub fn as_str(&self) -> (r: &str)
        ensures
            r@ == self@,
    {
        regex_text(self)
    }
}

/// `regex::Regex::new`: compiles a pattern. Whether it fails, and with what
/// message, is a function of the pattern; the expression keeps its pattern.
#[verifier::external_body]
pub(crate) fn regex_new(pattern: &str) -> (r: Result<Pattern, String>)
    ensures
        match r {
            Ok(re) => regex_fault(pattern@) is None && regex_source(re) == pattern@,
            Err(e) => regex_fault(pattern@) == Some(e@),
        },
{
    regex::Regex::new(pattern).map(|re| Pattern { re }).map_err(|e| e.to_string())
}

/// `regex::Regex::is_match`: whether the expression matches anywhere in the text,
/// which depends on its pattern and the text alone, the options being the default
/// ones.
#[verifier::external_body]
pub(crate) fn regex_is_match(re: &Pattern, text: &str) -> (r: bool)
    ensures
        r == regex_accepts(regex_source(*re), text@),
{
    re.re.is_match(text)
}

/// `regex::Regex::as_str`: the pattern of the expression.
#[verifier::external_body]
pub(crate) fn regex_text(re: &Pattern) -> (r: &str)
    ensures
        r@ == regex_source(*re),
{
    re.re.as_str()
}

/// `regex::Regex::clone`: the copy has the same pattern and the same options.
#[verifier::external_body]
pub(crate) fn regex_clone(re: &Pattern) -> (r: Pattern)
    ensures
        regex_source(r) == regex_source(*re),
{
    Pattern { re: re.re.clone() }
}

// ---------------------------------------------------------------------------
// globset
// ---------------------------------------------------------------------------

/// A parsed path glob of the `globset` crate.
#[verifier::external_type_specification]
#[verifier::external_body]
pub struct ExGlob(globset::Glob);

/// A list of globs from which a set is built.
#[verifier::external_type_specification]
#[verifier::external_body]
pub struct ExGlobSetBuilder(globset::GlobSetBuilder);

/// A compiled set of globs.
#[verifier::external_type_specification]
#[verifier::external_body]
pub struct ExGlobSet(globset::GlobSet);

/// A set of path globs with the default options. Its field is private and
/// [`builder_build`] alone makes values of this type, from globs that [`glob_new`]
/// made, so the patterns settle what a set matches.
#[derive(Debug)]
pub struct PathGlobs {
    set: globset::GlobSet,
}

/// The message with which `globset::Glob::new` rejects a pattern, or nothing where
/// it accepts the pattern.
pub uninterp spec fn glob_fault(pattern: Seq<char>) -> Option<Seq<char>>;

/// The message with which `globset::GlobSetBuilder::build` rejects a list of
/// globs, or nothing where it accepts the list.
pub uninterp spec fn globset_fault(patterns: Seq<Seq<char>>) -> Option<Seq<char>>;

/// Whether a glob matches a whole path.
pub uninterp spec fn glob_accepts(pattern: Seq<char>, path: Seq<char>) -> bool;

/// The pattern of a glob.
pub uninterp spec fn glob_source(glob: globset::Glob) -> Seq<char>;

/// The patterns added to a builder, in order.
pub uninterp spec fn builder_globs(builder: globset::GlobSetBuilder) -> Seq<Seq<char>>;

/// The patterns that a set was built from, in order.
pub uninterp spec fn set_globs(set: PathGlobs) -> Seq<Seq<char>>;

impl View for PathGlobs {
    type V = Seq<Seq<char>>;

    open spec fn view(&self) -> Seq<Seq<char>> {
        set_globs(*self)
    }
}

/// `globset::Glob::new`: parses a pattern with the default options. Whether it
/// fails, and with what message, is a function of the pattern.
#[verifier::external_body]
pub(crate) fn glob_new(pattern: &str) -> (r: Result<globset::Glob, String>)
    ensures
        match r {
            Ok(g) => glob_fault(pattern@) is None && glob_source(g) == pattern@,
            Err(e) => glob_fault(pattern@) == Some(e@),
        },
{
    globset::Glob::new(pattern).map_err(|e| e.to_string())
}

/// `globset::GlobSetBuilder::new`: a builder without globs.
#[verifier::external_body]
pub(crate) fn builder_new() -> (r: globset::GlobSetBuilder)
    ensures
        builder_globs(r) == Seq::<Seq<char>>::empty(),
{
    globset::GlobSetBuilder::new()
}

/// `globset::GlobSetBuilder::add`: the glob joins the others at the end.
#[verifier::external_body]
pub(crate) fn builder_add(builder: &mut globset::GlobSetBuilder, glob: globset::Glob)
    ensures
        builder_globs(*final(builder)) == builder_globs(*old(builder)).push(glob_source(glob)),
{
    builder.add(glob);
}

/// `globset::GlobSetBuilder::build`: compiles the globs into one set. Whether it
/// fails, and with what message, is a function of the patterns.
#[verifier::external_body]
pub(crate) fn builder_build(builder: &globset::GlobSetBuilder) -> (r: Result<PathGlobs, String>)
    ensures
        match r {
            Ok(s) => globset_fault(builder_globs(*builder)) is None && set_globs(s)
                == builder_globs(*builder),
            Err(e) => globset_fault(builder_globs(*builder)) == Some(e@),
        },
{
    builder.build().map(|set| PathGlobs { set }).map_err(|e| e.to_string())
}

/// `globset::GlobSet::is_match`: whether any glob of the set matches the path.
#[verifier::external_body]
pub(crate) fn set_is_match(set: &PathGlobs, path: &str) -> (r: bool)
    ensures
        r == (exists|i: int|
            0 <= i < set_globs(*set).len() && #[trigger] glob_accepts(set_globs(*set)[i], path@)),
{
    set.set.is_match(path)
}

// ---------------------------------------------------------------------------
// camino
// ---------------------------------------------------------------------------

/// One component of a path.
#[derive(Debug)]
pub enum Part {
    /// A verbatim prefix such as `\\?\cat_pics`, on systems that have prefixes.
    Verbatim(String),
    /// A verbatim share: the server and the share.
    VerbatimShare(String, String),
    /// A verbatim drive, by its letter.
    VerbatimDrive(u8),
    /// A device.
    Device(String),
    /// A share: the server and the share.
    Share(String, String),
    /// A drive, by its letter.
    Drive(u8),
    /// The separator in front of an absolute path.
    Root,
    /// `.` at the start of a path.
    Here,
    /// `..`.
    Parent,
    /// The name of a file or directory.
    Name(String),
}

/// The model of [`Part`].
pub enum PartModel {
    Verbatim(Seq<char>),
    VerbatimShare(Seq<char>, Seq<char>),
    VerbatimDrive(u8),
    Device(Seq<char>),
    Share(Seq<char>, Seq<char>),
    Drive(u8),
    Root,
    Here,
    Parent,
    Name(Seq<char>),
}

impl View for Part {
    type V = PartModel;

    open spec fn view(&self) -> PartModel {
        match *self {
            Part::Verbatim(s) => PartModel::Verbatim(s@),
            Part::VerbatimShare(s, t) => PartModel::VerbatimShare(s@, t@),
            Part::VerbatimDrive(d) => PartModel::VerbatimDrive(d),
            Part::Device(s) => PartModel::Device(s@),
            Part::Share(s, t) => PartModel::Share(s@, t@),
            Part::Drive(d) => PartModel::Drive(d),
            Part::Root => PartModel::Root,
            Part::Here => PartModel::Here,
            Part::Parent => PartModel::Parent,
            Part::Name(s) => PartModel::Name(s@),
        }
    }
}

/// The components of a path, in order.
pub uninterp spec fn path_parts(path: Seq<char>) -> Seq<PartModel>;

/// `camino::Utf8Path::components`: the components of a path, which depend on its
/// text alone, a prefix in the form that `camino::Utf8PrefixComponent::kind` gives.
/// Which characters separate them, and whether there are prefixes, is fixed by the
/// platform that the library is built for.
#[verifier::external_body]
pub(crate) fn path_components(path: &str) -> (r: Vec<Part>)
    ensures
        r@.map_values(|p: Part| p@) == path_parts(path@),
{
    Utf8Path::new(path).components().map(|c| match c {
        Utf8Component::Prefix(p) => match p.kind() {
            Utf8Prefix::Verbatim(s) => Part::Verbatim(s.into()),
            Utf8Prefix::VerbatimUNC(s, t) => Part::VerbatimShare(s.into(), t.into()),
            Utf8Prefix::VerbatimDisk(d) => Part::VerbatimDrive(d),
            Utf8Prefix::DeviceNS(s) => Part::Device(s.into()),
            Utf8Prefix::UNC(s, t) => Part::Share(s.into(), t.into()),
            Utf8Prefix::Disk(d) => Part::Drive(d),
        },
        Utf8Component::RootDir => Part::Root,
        Utf8Component::CurDir => Part::Here,
        Utf8Component::ParentDir => Part::Parent,
        Utf8Component::Normal(s) => Part::Name(s.into()),
    }).collect()
}

/// The rest of a path after a base, where the base is a prefix of it.
pub uninterp spec fn path_rest(path: Seq<char>, base: Seq<char>) -> Option<Seq<char>>;

/// `camino::Utf8Path::strip_prefix`: the path after the base, component by
/// component, or nothing where the base is not a prefix of the path. What comes
/// back is a function of the two texts, on a given platform.
#[verifier::external_body]
pub(crate) fn path_strip(path: &str, base: &str) -> (r: Option<String>)
    ensures
        match r {
            Some(s) => path_rest(path@, base@) == Some(s@),
            None => path_rest(path@, base@) is None,
        },
{
    Utf8Path::new(path).strip_prefix(base).ok().map(|p| p.as_str().to_owned())
}

// ---------------------------------------------------------------------------
// serde_json and serde_yaml_ng
// ---------------------------------------------------------------------------

/// A JSON value of the `serde_json` crate.
#[verifier::external_type_specification]
#[verifier::external_body]
pub struct ExJson(serde_json::Value);

/// A YAML value of the `serde_yaml_ng` crate.
#[verifier::external_type_specification]
#[verifier::external_body]
pub struct ExYaml(serde_yaml_ng::Value);

/// What a JSON value holds. Object members are in the order of the text.
pub uninterp spec fn json_model(v: serde_json::Value) -> DatumModel;

/// What a YAML value holds, with its tags.
pub uninterp spec fn yaml_model(v: serde_yaml_ng::Value) -> DatumModel;

/// The value of a JSON text, or the message with which `serde_json::from_str`
/// rejects the text.
pub uninterp spec fn json_of(text: Seq<char>) -> Result<DatumModel, Seq<char>>;

/// The value of a YAML text, where `serde_yaml_ng::from_str` accepts the text.
pub uninterp spec fn yaml_of(text: Seq<char>) -> Option<DatumModel>;

/// The text that `serde_json::to_string_pretty` writes for what a value holds.
pub uninterp spec fn pretty_json(v: DatumModel) -> Seq<char>;

/// `serde_json::from_str`: parses a JSON text. The value, or the error message, is
/// a function of the text.
#[verifier::external_body]
pub(crate) fn json_parse(text: &str) -> (r: Result<serde_json::Value, String>)
    ensures
        match r {
            Ok(v) => json_of(text@) == Ok::<DatumModel, Seq<char>>(json_model(v)),
            Err(e) => json_of(text@) == Err::<DatumModel, Seq<char>>(e@),
        },
{
    serde_json::from_str(text).map_err(|e| e.to_string())
}

/// A `serde_json::Value` as a plain value, variant by variant. A number becomes its
/// numeral.
#[verifier::external_body]
pub(crate) fn json_plain(v: serde_json::Value) -> (r: Datum)
    ensures
        r@ == json_model(v),
{
    match v {
        serde_json::Value::Null => Datum::Null,
        serde_json::Value::Bool(b) => Datum::Bool(b),
        serde_json::Value::Number(n) => Datum::Number(n.to_string()),
        serde_json::Value::String(s) => Datum::Text(s),
        serde_json::Value::Array(a) => Datum::Sequence(a.into_iter().map(json_plain).collect()),
        serde_json::Value::Object(m) => Datum::Mapping(
            m.into_iter().map(|e| (Datum::Text(e.0), json_plain(e.1))).collect(),
        ),
    }
}

/// A plain value as a `serde_json::Value`, variant by variant. The value has to be
/// one that JSON can hold.
#[verifier::external_body]
pub(crate) fn json_build(v: &Datum) -> (r: serde_json::Value)
    requires
        json_ready(v@),
    ensures
        json_model(r) == v@,
{
    match v {
        Datum::Null => serde_json::Value::Null,
        Datum::Bool(b) => serde_json::Value::Bool(*b),
        Datum::Number(n) => serde_json::Value::Number(n.parse().unwrap()),
        Datum::Text(s) => serde_json::Value::String(s.clone()),
        Datum::Sequence(a) => serde_json::Value::Array(a.iter().map(json_build).collect()),
        Datum::Mapping(m) => serde_json::Value::Object(
            m.iter().map(|e| (e.0.as_str().unwrap().to_owned(), json_build(&e.1))).collect(),
        ),
        Datum::Tagged(_, v) => json_build(v),
    }
}

/// `serde_json::to_string_pretty`: writes a JSON value over several lines. The text
/// depends on what the value holds alone.
#[verifier::external_body]
pub(crate) fn json_pretty(v: &serde_json::Value) -> (r: String)
    ensures
        r@ == pretty_json(json_model(*v)),
{
    serde_json::to_string_pretty(v).unwrap_or_default()
}

/// `serde_yaml_ng::from_str`: parses a YAML text. Whether it succeeds, and the
/// value, are functions of the text.
#[verifier::external_body]
pub(crate) fn yaml_parse(text: &str) -> (r: Option<serde_yaml_ng::Value>)
    ensures
        match r {
            Some(v) => yaml_of(text@) == Some(yaml_model(v)),
            None => yaml_of(text@) is None,
        },
{
    serde_yaml_ng::from_str(text).ok()
}

/// A `serde_yaml_ng::Value` as a plain value, variant by variant. A number becomes
/// its numeral, and a tag its text.
#[verifier::external_body]
pub(crate) fn yaml_plain(v: serde_yaml_ng::Value) -> (r: Datum)
    ensures
        r@ == yaml_model(v),
{
    match v {
        serde_yaml_ng::Value::Null => Datum::Null,
        serde_yaml_ng::Value::Bool(b) => Datum::Bool(b),
        serde_yaml_ng::Value::Number(n) => Datum::Number(n.to_string()),
        serde_yaml_ng::Value::String(s) => Datum::Text(s),
        serde_yaml_ng::Value::Sequence(a) => Datum::Sequence(a.into_iter().map(yaml_plain).collect()),
        serde_yaml_ng::Value::Mapping(m) => Datum::Mapping(
            m.into_iter().map(|e| (yaml_plain(e.0), yaml_plain(e.1))).collect(),
        ),
        serde_yaml_ng::Value::Tagged(t) => Datum::Tagged(
            t.tag.to_string(),
            Box::new(yaml_plain(t.value)),
        ),
    }
}

// ---------------------------------------------------------------------------
// tree-sitter
// ---------------------------------------------------------------------------

/// A grammar that source text can be parsed with.
#[derive(Debug, Clone, Copy, PartialEq, Eq, Structural)]
pub enum Grammar {
    Tsx,
    Typescript,
    Javascript,
}

/// Why source text could not be parsed.
#[derive(Debug)]
pub enum ParseFault {
    /// The grammar could not be loaded.
    Grammar(String),
    /// The parser returned no tree.
    NoTree,
}

/// A syntax tree of the `tree-sitter` crate.
#[verifier::external_type_specification]
#[verifier::external_body]
pub struct ExTree(tree_sitter::Tree);

/// A node of a syntax tree of the `tree-sitter` crate.
#[verifier::external_type_specification]
#[verifier::external_body]
pub struct ExNode<'a>(tree_sitter::Node<'a>);

/// The message with which `tree_sitter::Parser::set_language` rejects a grammar, or
/// nothing where it accepts the grammar.
pub uninterp spec fn grammar_fault(grammar: Grammar) -> Option<Seq<char>>;

/// The root of the tree that `tree_sitter::Parser::parse` makes of a text, or
/// nothing where it makes none.
pub uninterp spec fn syntax_of(grammar: Grammar, text: Seq<char>) -> Option<NodeModel>;

/// What a tree holds: its root, with everything below.
pub uninterp spec fn tree_model(tree: tree_sitter::Tree) -> NodeModel;

/// What a node holds: itself, with everything below.
pub uninterp spec fn node_model(node: tree_sitter::Node<'_>) -> NodeModel;

/// `tree_sitter::Parser::set_language` and `tree_sitter::Parser::parse`: parses a
/// text with a grammar. What comes back is a function of the two.
#[verifier::external_body]
pub(crate) fn tree_parse(grammar: Grammar, text: &str) -> (r: Result<tree_sitter::Tree, ParseFault>)
    ensures
        match r {
            Ok(t) => grammar_fault(grammar) is None && syntax_of(grammar, text@) == Some(
                tree_model(t),
            ),
            Err(ParseFault::Grammar(e)) => grammar_fault(grammar) == Some(e@),
            Err(ParseFault::NoTree) => grammar_fault(grammar) is None && syntax_of(
                grammar,
                text@,
            ) is None,
        },
{
    let mut parser = tree_sitter::Parser::new();
    let language: tree_sitter::Language = match grammar {
        Grammar::Tsx => tree_sitter_typescript::LANGUAGE_TSX.into(),
        Grammar::Typescript => tree_sitter_typescript::LANGUAGE_TYPESCRIPT.into(),
        Grammar::Javascript => tree_sitter_javascript::LANGUAGE.into(),
    };
    parser.set_language(&language).map_err(|e| ParseFault::Grammar(e.to_string()))?;
    parser.parse(text.as_bytes(), None).ok_or(ParseFault::NoTree)
}

/// `tree_sitter::Tree::root_node`: the root of a tree.
#[verifier::external_body]
pub(crate) fn tree_root(tree: &tree_sitter::Tree) -> (r: tree_sitter::Node<'_>)
    ensures
        node_model(r) == tree_model(*tree),
{
    tree.root_node()
}

/// `tree_sitter::Node::children`: the nodes directly below, in order.
#[verifier::external_body]
pub(crate) fn node_children<'a>(node: &tree_sitter::Node<'a>) -> (r: Vec<tree_sitter::Node<'a>>)
    ensures
        r@.map_values(|c: tree_sitter::Node<'a>| node_model(c)) == node_model(*node).children,
{
    let mut cursor = node.walk();
    node.children(&mut cursor).collect()
}

/// `tree_sitter::Node::kind`: the name of the node's kind.
#[verifier::external_body]
pub(crate) fn node_kind(node: &tree_sitter::Node<'_>) -> (r: String)
    ensures
        r@ == node_model(*node).kind,
{
    node.kind().to_owned()
}

/// `tree_sitter::Node::is_named`: whether the node is a named one.
#[verifier::external_body]
pub(crate) fn node_named(node: &tree_sitter::Node<'_>) -> (r: bool)
    ensures
        r == node_model(*node).named,
{
    node.is_named()
}

/// `tree_sitter::Node::start_byte`: where the node starts, in bytes.
#[verifier::external_body]
pub(crate) fn node_start_byte(node: &tree_sitter::Node<'_>) -> (r: usize)
    ensures
        r == node_model(*node).start_byte,
{
    node.start_byte()
}

/// `tree_sitter::Node::end_byte`: where the node ends, in bytes.
#[verifier::external_body]
pub(crate) fn node_end_byte(node: &tree_sitter::Node<'_>) -> (r: usize)
    ensures
        r == node_model(*node).end_byte,
{
    node.end_byte()
}

/// `tree_sitter::Node::start_position`: the row and column where the node starts.
#[verifier::external_body]
pub(crate) fn node_start(node: &tree_sitter::Node<'_>) -> (r: (usize, usize))
    ensures
        r == (node_model(*node).start_row, node_model(*node).start_col),
{
    let p = node.start_position();
    (p.row, p.column)
}

/// `tree_sitter::Node::end_position`: the row and column where the node ends.
#[verifier::external_body]
pub(crate) fn node_end(node: &tree_sitter::Node<'_>) -> (r: (usize, usize))
    ensures
        r == (node_model(*node).end_row, node_model(*node).end_col),
{
    let p = node.end_position();
    (p.row, p.column)
}

/// `tree_sitter::Node::child_by_field_name`: the bytes of the child that stands in a
/// field of the node, where there is one.
#[verifier::external_body]
pub(crate) fn node_field(node: &tree_sitter::Node<'_>, field: &str) -> (r: Option<(usize, usize)>)
    ensures
        r == node_model(*node).fields[field@],
{
    node.child_by_field_name(field).map(|n| (n.start_byte(), n.end_byte()))
}

// ---------------------------------------------------------------------------
// std
// ---------------------------------------------------------------------------

/// A string as its `Debug` form writes it: quoted, with escapes.
pub uninterp spec fn debug_text(s: Seq<char>) -> Seq<char>;

/// The `Debug` form of a string of std, which depends on its characters alone.
#[verifier::external_body]
pub(crate) fn debug_string(s: &str) -> (r: String)
    ensures
        r@ == debug_text(s@),
{
    format!("{:?}", s)
}

} // verus!
