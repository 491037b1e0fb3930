//! Canonical, language-neutral events, and what tokens and events have in common
//! for a pattern.

use vstd::prelude::*;

use crate::order::{find, put, TextMap};
use crate::text::{same, texts};
use crate::token::{field_of, field_texts, Language, Span, TokenModel, TokenRef};
use crate::value::{string_forms, value_strings, Datum, DatumModel};

verus! {

/// The canonical event vocabulary. A kind is written by its exact name.
#[derive(Debug, Clone, Copy, PartialEq, Eq, Hash, Structural)]
pub enum EventKind {
    File,
    PackageAdded,
    Import,
    Export,
    Call,
    NewExpr,
    TypeDecl,
    FunctionDecl,
    MethodDecl,
    ClassDecl,
    Attribute,
    EnvAccess,
    StringLiteral,
    Comment,
    ScopeStart,
    ScopeEnd,
    GraphqlOperation,
    GeneratedFile,
    ConfigFile,
    /// A generic, language-local lexeme.
    Token,
}

/// The name of a kind.
pub open spec fn kind_name(k: EventKind) -> Seq<char> {
    match k {
        EventKind::File => "File"@,
        EventKind::PackageAdded => "PackageAdded"@,
        EventKind::Import => "Import"@,
        EventKind::Export => "Export"@,
        EventKind::Call => "Call"@,
        EventKind::NewExpr => "NewExpr"@,
        EventKind::TypeDecl => "TypeDecl"@,
        EventKind::FunctionDecl => "FunctionDecl"@,
        EventKind::MethodDecl => "MethodDecl"@,
        EventKind::ClassDecl => "ClassDecl"@,
        EventKind::Attribute => "Attribute"@,
        EventKind::EnvAccess => "EnvAccess"@,
        EventKind::StringLiteral => "StringLiteral"@,
        EventKind::Comment => "Comment"@,
        EventKind::ScopeStart => "ScopeStart"@,
        EventKind::ScopeEnd => "ScopeEnd"@,
        EventKind::GraphqlOperation => "GraphqlOperation"@,
        EventKind::GeneratedFile => "GeneratedFile"@,
        EventKind::ConfigFile => "ConfigFile"@,
        EventKind::Token => "Token"@,
    }
}

/// The kind of a name.
pub open spec fn kind_of_name(s: Seq<char>) -> Option<EventKind> {
    if s == "File"@ {
        Some(EventKind::File)
    } else if s == "PackageAdded"@ {
        Some(EventKind::PackageAdded)
    } else if s == "Import"@ {
        Some(EventKind::Import)
    } else if s == "Export"@ {
        Some(EventKind::Export)
    } else if s == "Call"@ {
        Some(EventKind::Call)
    } else if s == "NewExpr"@ {
        Some(EventKind::NewExpr)
    } else if s == "TypeDecl"@ {
        Some(EventKind::TypeDecl)
    } else if s == "FunctionDecl"@ {
        Some(EventKind::FunctionDecl)
    } else if s == "MethodDecl"@ {
        Some(EventKind::MethodDecl)
    } else if s == "ClassDecl"@ {
        Some(EventKind::ClassDecl)
    } else if s == "Attribute"@ {
        Some(EventKind::Attribute)
    } else if s == "EnvAccess"@ {
        Some(EventKind::EnvAccess)
    } else if s == "StringLiteral"@ {
        Some(EventKind::StringLiteral)
    } else if s == "Comment"@ {
        Some(EventKind::Comment)
    } else if s == "ScopeStart"@ {
        Some(EventKind::ScopeStart)
    } else if s == "ScopeEnd"@ {
        Some(EventKind::ScopeEnd)
    } else if s == "GraphqlOperation"@ {
        Some(EventKind::GraphqlOperation)
    } else if s == "GeneratedFile"@ {
        Some(EventKind::GeneratedFile)
    } else if s == "ConfigFile"@ {
        Some(EventKind::ConfigFile)
    } else if s == "Token"@ {
        Some(EventKind::Token)
    } else {
        None
    }
}

/// A kind is found again by its name.
pub proof fn kind_names_round_trip(k: EventKind)
    ensures
        kind_of_name(kind_name(k)) == Some(k),
{
    reveal_strlit("File");
    reveal_strlit("PackageAdded");
    reveal_strlit("Import");
    reveal_strlit("Export");
    reveal_strlit("Call");
    reveal_strlit("NewExpr");
    reveal_strlit("TypeDecl");
    reveal_strlit("FunctionDecl");
    reveal_strlit("MethodDecl");
    reveal_strlit("ClassDecl");
    reveal_strlit("Attribute");
    reveal_strlit("EnvAccess");
    reveal_strlit("StringLiteral");
    reveal_strlit("Comment");
    reveal_strlit("ScopeStart");
    reveal_strlit("ScopeEnd");
    reveal_strlit("GraphqlOperation");
    reveal_strlit("GeneratedFile");
    reveal_strlit("ConfigFile");
    reveal_strlit("Token");
    assert("File"@.len() == 4 && "File"@[0] == 'F' && "File"@[1] == 'i' && "File"@[3] == 'e');
    assert("PackageAdded"@.len() == 12 && "PackageAdded"@[0] == 'P' && "PackageAdded"@[1] == 'a' && "PackageAdded"@[11] == 'd');
    assert("Import"@.len() == 6 && "Import"@[0] == 'I' && "Import"@[1] == 'm' && "Import"@[5] == 't');
    assert("Export"@.len() == 6 && "Export"@[0] == 'E' && "Export"@[1] == 'x' && "Export"@[5] == 't');
    assert("Call"@.len() == 4 && "Call"@[0] == 'C' && "Call"@[1] == 'a' && "Call"@[3] == 'l');
    assert("NewExpr"@.len() == 7 && "NewExpr"@[0] == 'N' && "NewExpr"@[1] == 'e' && "NewExpr"@[6] == 'r');
    assert("TypeDecl"@.len() == 8 && "TypeDecl"@[0] == 'T' && "TypeDecl"@[1] == 'y' && "TypeDecl"@[7] == 'l');
    assert("FunctionDecl"@.len() == 12 && "FunctionDecl"@[0] == 'F' && "FunctionDecl"@[1] == 'u' && "FunctionDecl"@[11] == 'l');
    assert("MethodDecl"@.len() == 10 && "MethodDecl"@[0] == 'M' && "MethodDecl"@[1] == 'e' && "MethodDecl"@[9] == 'l');
    assert("ClassDecl"@.len() == 9 && "ClassDecl"@[0] == 'C' && "ClassDecl"@[1] == 'l' && "ClassDecl"@[8] == 'l');
    assert("Attribute"@.len() == 9 && "Attribute"@[0] == 'A' && "Attribute"@[1] == 't' && "Attribute"@[8] == 'e');
    assert("EnvAccess"@.len() == 9 && "EnvAccess"@[0] == 'E' && "EnvAccess"@[1] == 'n' && "EnvAccess"@[8] == 's');
    assert("StringLiteral"@.len() == 13 && "StringLiteral"@[0] == 'S' && "StringLiteral"@[1] == 't' && "StringLiteral"@[12] == 'l');
    assert("Comment"@.len() == 7 && "Comment"@[0] == 'C' && "Comment"@[1] == 'o' && "Comment"@[6] == 't');
    assert("ScopeStart"@.len() == 10 && "ScopeStart"@[0] == 'S' && "ScopeStart"@[1] == 'c' && "ScopeStart"@[9] == 't');
    assert("ScopeEnd"@.len() == 8 && "ScopeEnd"@[0] == 'S' && "ScopeEnd"@[1] == 'c' && "ScopeEnd"@[7] == 'd');
    assert("GraphqlOperation"@.len() == 16 && "GraphqlOperation"@[0] == 'G' && "GraphqlOperation"@[1] == 'r' && "GraphqlOperation"@[15] == 'n');
    assert("GeneratedFile"@.len() == 13 && "GeneratedFile"@[0] == 'G' && "GeneratedFile"@[1] == 'e' && "GeneratedFile"@[12] == 'e');
    assert("ConfigFile"@.len() == 10 && "ConfigFile"@[0] == 'C' && "ConfigFile"@[1] == 'o' && "ConfigFile"@[9] == 'e');
    assert("Token"@.len() == 5 && "Token"@[0] == 'T' && "Token"@[1] == 'o' && "Token"@[4] == 'n');
}

impl EventKind {
    /// The exact name of the kind.
    pub fn name(self) -> (r: &'static str)
        ensures
            r@ == kind_name(self),
    {
        match self {
            EventKind::File => "File",
            EventKind::PackageAdded => "PackageAdded",
            EventKind::Import => "Import",
            EventKind::Export => "Export",
            EventKind::Call => "Call",
            EventKind::NewExpr => "NewExpr",
            EventKind::TypeDecl => "TypeDecl",
            EventKind::FunctionDecl => "FunctionDecl",
            EventKind::MethodDecl => "MethodDecl",
            EventKind::ClassDecl => "ClassDecl",
            EventKind::Attribute => "Attribute",
            EventKind::EnvAccess => "EnvAccess",
            EventKind::StringLiteral => "StringLiteral",
            EventKind::Comment => "Comment",
            EventKind::ScopeStart => "ScopeStart",
            EventKind::ScopeEnd => "ScopeEnd",
            EventKind::GraphqlOperation => "GraphqlOperation",
            EventKind::GeneratedFile => "GeneratedFile",
            EventKind::ConfigFile => "ConfigFile",
            EventKind::Token => "Token",
        }
    }

    /// The kind of an exact name.
    pub fn from_name(s: &str) -> (r: Option<EventKind>)
        ensures
            r == kind_of_name(s@),
    {
        if same(s, "File") {
            Some(EventKind::File)
        } else if same(s, "PackageAdded") {
            Some(EventKind::PackageAdded)
        } else if same(s, "Import") {
            Some(EventKind::Import)
        } else if same(s, "Export") {
            Some(EventKind::Export)
        } else if same(s, "Call") {
            Some(EventKind::Call)
        } else if same(s, "NewExpr") {
            Some(EventKind::NewExpr)
        } else if same(s, "TypeDecl") {
            Some(EventKind::TypeDecl)
        } else if same(s, "FunctionDecl") {
            Some(EventKind::FunctionDecl)
        } else if same(s, "MethodDecl") {
            Some(EventKind::MethodDecl)
        } else if same(s, "ClassDecl") {
            Some(EventKind::ClassDecl)
        } else if same(s, "Attribute") {
            Some(EventKind::Attribute)
        } else if same(s, "EnvAccess") {
            Some(EventKind::EnvAccess)
        } else if same(s, "StringLiteral") {
            Some(EventKind::StringLiteral)
        } else if same(s, "Comment") {
            Some(EventKind::Comment)
        } else if same(s, "ScopeStart") {
            Some(EventKind::ScopeStart)
        } else if same(s, "ScopeEnd") {
            Some(EventKind::ScopeEnd)
        } else if same(s, "GraphqlOperation") {
            Some(EventKind::GraphqlOperation)
        } else if same(s, "GeneratedFile") {
            Some(EventKind::GeneratedFile)
        } else if same(s, "ConfigFile") {
            Some(EventKind::ConfigFile)
        } else if same(s, "Token") {
            Some(EventKind::Token)
        } else {
            None
        }
    }
}

/// A single canonical event with its evidence.
#[derive(Debug)]
pub struct Event {
    pub kind: EventKind,
    pub language: Language,
    pub file: String,
    pub span: Span,
    pub attrs: TextMap<Datum>,
}

/// The model of [`Event`].
pub struct EventModel {
    pub kind: EventKind,
    pub language: Language,
    pub file: Seq<char>,
    pub span: Span,
    pub attrs: Seq<(Seq<char>, DatumModel)>,
}

impl View for Event {
    type V = EventModel;

    open spec fn view(&self) -> EventModel {
        EventModel {
            kind: self.kind,
            language: self.language,
            file: self.file@,
            span: self.span,
            attrs: self.attrs@,
        }
    }
}

/// The string forms of an attribute; an absent one has none.
pub open spec fn attr_forms(attrs: Seq<(Seq<char>, DatumModel)>, key: Seq<char>) -> Seq<Seq<char>> {
    match find(attrs, key) {
        Some(v) => string_forms(v),
        None => Seq::empty(),
    }
}

impl Event {
    /// An event without attributes.
    pub fn new(kind: EventKind, language: Language, file: String, span: Span) -> (r: Self)
        ensures
            r@ == (EventModel { kind, language, file: file@, span, attrs: Seq::empty() }),
    {
        Event { kind, language, file, span, attrs: TextMap::new() }
    }

    /// The event with an attribute set.
    pub fn with(self, key: &str, value: Datum) -> (r: Self)
        ensures
            r@ == (EventModel { attrs: put(self@.attrs, key@, value@), ..self@ }),
    {
        let mut attrs = self.attrs;
        attrs.insert(key.to_owned(), value);
        Event { kind: self.kind, language: self.language, file: self.file, span: self.span, attrs }
    }

    /// The string forms of an attribute, or none where it is absent.
    pub fn attr_strings(&self, key: &str) -> (r: Vec<String>)
        ensures
            texts(r@) == attr_forms(self@.attrs, key@),
    {
        match self.attrs.get(key) {
            Some(v) => value_strings(v),
            None => {
                let r: Vec<String> = Vec::new();
                assert(texts(r@) =~= Seq::<Seq<char>>::empty());
                r
            },
        }
    }
}

// ---------------------------------------------------------------------------
// Elements
// ---------------------------------------------------------------------------

/// What a pattern sees of an element: its kind, and its fields by name.
pub struct ElementModel {
    pub kind: EventKind,
    pub fields: spec_fn(Seq<char>) -> Seq<Seq<char>>,
}

/// A token as an element.
pub open spec fn token_element(m: TokenModel) -> ElementModel {
    ElementModel { kind: EventKind::Token, fields: |key: Seq<char>| field_texts(field_of(m, key)) }
}

/// What a pattern can be held against: a token or an event.
pub trait Element {
    /// What a pattern sees of the element.
    spec fn element(&self) -> ElementModel;

    /// The kind of the element.
    fn kind_of(&self) -> (r: EventKind)
        ensures
            r == self.element().kind,
    ;

    /// The string forms of a field of the element.
    fn strings_of(&self, key: &str) -> (r: Vec<String>)
        ensures
            texts(r@) == (self.element().fields)(key@),
    ;
}

impl<'a> Element for TokenRef<'a> {
    open spec fn element(&self) -> ElementModel {
        token_element(self@)
    }

    fn kind_of(&self) -> (r: EventKind) {
        EventKind::Token
    }

    fn strings_of(&self, key: &str) -> (r: Vec<String>) {
        self.field_strings(key)
    }
}

impl Element for Event {
    open spec fn element(&self) -> ElementModel {
        ElementModel { kind: self.kind, fields: |key: Seq<char>| attr_forms(self@.attrs, key) }
    }

    fn kind_of(&self) -> (r: EventKind) {
        self.kind
    }

    fn strings_of(&self, key: &str) -> (r: Vec<String>) {
        self.attr_strings(key)
    }
}

} // verus!
