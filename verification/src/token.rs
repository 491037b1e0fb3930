//! The lexeme model: the lexer's output as a flat, compact token stream.
//!
//! Rules match over this stream of lexemes (keywords, operators, identifiers,
//! literals, punctuation, comments), never over raw source text.

use vstd::prelude::*;

use crate::text::{decimal, decimal_of, same, texts};
use crate::value::{
    bool_text,
    count_value,
    entry,
    mapping,
    pair_models,
    text_value,
    value_models,
    Datum,
    DatumModel,
};

verus! {

/// The languages a frontend can lex.
#[derive(Debug, Clone, Copy, PartialEq, Eq, Hash, Structural)]
pub enum Language {
    Typescript,
    Javascript,
    Go,
    Python,
    Rust,
}

/// The name of a language, as rules write it.
pub open spec fn language_name(l: Language) -> Seq<char> {
    match l {
        Language::Typescript => "typescript"@,
        Language::Javascript => "javascript"@,
        Language::Go => "go"@,
        Language::Python => "python"@,
        Language::Rust => "rust"@,
    }
}

/// The language of a name.
pub open spec fn language_of_name(s: Seq<char>) -> Option<Language> {
    if s == "typescript"@ {
        Some(Language::Typescript)
    } else if s == "javascript"@ {
        Some(Language::Javascript)
    } else if s == "go"@ {
        Some(Language::Go)
    } else if s == "python"@ {
        Some(Language::Python)
    } else if s == "rust"@ {
        Some(Language::Rust)
    } else {
        None
    }
}

/// The language of files with a given extension.
pub open spec fn language_of_extension(ext: Seq<char>) -> Option<Language> {
    if ext == "ts"@ || ext == "tsx"@ || ext == "mts"@ || ext == "cts"@ {
        Some(Language::Typescript)
    } else if ext == "js"@ || ext == "jsx"@ || ext == "mjs"@ || ext == "cjs"@ {
        Some(Language::Javascript)
    } else if ext == "go"@ {
        Some(Language::Go)
    } else if ext == "py"@ {
        Some(Language::Python)
    } else if ext == "rs"@ {
        Some(Language::Rust)
    } else {
        None
    }
}

/// A language is found again by its name.
pub proof fn language_names_round_trip(l: Language)
    ensures
        language_of_name(language_name(l)) == Some(l),
{
    reveal_strlit("typescript");
    reveal_strlit("javascript");
    reveal_strlit("go");
    reveal_strlit("python");
    reveal_strlit("rust");
    assert("typescript"@.len() == 10 && "javascript"@.len() == 10);
    assert("typescript"@[0] == 't' && "javascript"@[0] == 'j');
    assert("go"@.len() == 2 && "python"@.len() == 6 && "rust"@.len() == 4);
}

impl Language {
    /// Best-effort language detection from a file extension (no leading dot).
    pub fn from_extension(ext: &str) -> (r: Option<Language>)
        ensures
            r == language_of_extension(ext@),
    {
        if same(ext, "ts") || same(ext, "tsx") || same(ext, "mts") || same(ext, "cts") {
            Some(Language::Typescript)
        } else if same(ext, "js") || same(ext, "jsx") || same(ext, "mjs") || same(ext, "cjs") {
            Some(Language::Javascript)
        } else if same(ext, "go") {
            Some(Language::Go)
        } else if same(ext, "py") {
            Some(Language::Python)
        } else if same(ext, "rs") {
            Some(Language::Rust)
        } else {
            None
        }
    }

    /// The language of a lower-case name.
    pub fn from_name(s: &str) -> (r: Option<Language>)
        ensures
            r == language_of_name(s@),
    {
        if same(s, "typescript") {
            Some(Language::Typescript)
        } else if same(s, "javascript") {
            Some(Language::Javascript)
        } else if same(s, "go") {
            Some(Language::Go)
        } else if same(s, "python") {
            Some(Language::Python)
        } else if same(s, "rust") {
            Some(Language::Rust)
        } else {
            None
        }
    }

    /// The lower-case name of the language.
    pub fn name(self) -> (r: &'static str)
        ensures
            r@ == language_name(self),
    {
        match self {
            Language::Typescript => "typescript",
            Language::Javascript => "javascript",
            Language::Go => "go",
            Language::Python => "python",
            Language::Rust => "rust",
        }
    }
}

/// A source span. Lines and columns are 1-based; the ends are exclusive. The byte
/// offsets are 0-based.
#[derive(Debug, Clone, Copy, PartialEq, Eq, Structural)]
pub struct Span {
    pub start_byte: usize,
    pub end_byte: usize,
    pub start_line: usize,
    pub start_col: usize,
    pub end_line: usize,
    pub end_col: usize,
}

// ---------------------------------------------------------------------------
// Interned strings
// ---------------------------------------------------------------------------

/// An interned-string id within one [`TokenStream`].
pub type Sym = u32;

/// Sentinel for "no matching delimiter".
pub const NO_JMP: u32 = 0xffff_ffff;

/// The id of the string that was stored as the `n`-th one.
pub open spec fn sym_of(n: int) -> Sym {
    (n % 0x1_0000_0000) as u32
}

/// The position of a string among those stored, or their number.
pub open spec fn position_of(strings: Seq<Seq<char>>, s: Seq<char>) -> int {
    if strings.contains(s) {
        strings.index_of(s)
    } else {
        strings.len() as int
    }
}

/// The strings after interning one more.
pub open spec fn interned(strings: Seq<Seq<char>>, s: Seq<char>) -> Seq<Seq<char>> {
    if strings.contains(s) {
        strings
    } else {
        strings.push(s)
    }
}

/// The string of an id; an id that was never given out has the empty string.
pub open spec fn resolved(strings: Seq<Seq<char>>, id: Sym) -> Seq<char> {
    if id < strings.len() {
        strings[id as int]
    } else {
        ""@
    }
}

/// A per-stream string interner. Node kinds, classes and token texts repeat
/// heavily, so a [`Token`] holds small ids in place of owned strings.
pub struct Interner {
    strings: Vec<String>,
    map: vstd::hash_map::StringHashMap<Sym>,
}

impl View for Interner {
    type V = Seq<Seq<char>>;

    closed spec fn view(&self) -> Seq<Seq<char>> {
        texts(self.strings@)
    }
}

impl Interner {
    /// No string is stored twice, and the map gives each stored string its id.
    pub closed spec fn wf(&self) -> bool {
        &&& self@.no_duplicates()
        &&& forall|s: Seq<char>| #[trigger] self.map@.contains_key(s) <==> self@.contains(s)
        &&& forall|i: int| 0 <= i < self@.len() ==> self.map@[#[trigger] self@[i]] == sym_of(i)
    }

    /// An interner without strings.
    pub fn new() -> (r: Self)
        ensures
            r.wf(),
            r@.no_duplicates(),
            r@ == Seq::<Seq<char>>::empty(),
    {
        let r = Interner { strings: Vec::new(), map: vstd::hash_map::StringHashMap::new() };
        assert(r@ == Seq::<Seq<char>>::empty());
        r
    }

    /// Stores a string, unless it is stored already, and returns its id.
    pub fn intern(&mut self, s: &str) -> (id: Sym)
        requires
            old(self).wf(),
        ensures
            final(self).wf(),
            final(self)@.no_duplicates(),
            final(self)@ == interned(old(self)@, s@),
            id == sym_of(position_of(old(self)@, s@)),
    {
        let ghost before = self@;
        match self.map.get(s) {
            Some(id) => {
                let id: Sym = *id;
                proof {
                    let i = before.index_of(s@);
                    assert(before[i] == s@);
                    assert(self.map@[before[i]] == sym_of(i));
                }
                return id;
            },
            None => {},
        }
        let id: Sym = ((self.strings.len() as u64) % 0x1_0000_0000) as u32;
        self.strings.push(s.to_owned());
        self.map.insert(s.to_owned(), id);
        proof {
            assert(self@ == before.push(s@));
            assert(self@[before.len() as int] == s@);
            assert forall|t: Seq<char>| #[trigger] self.map@.contains_key(t) <==> self@.contains(t) by {
                if before.contains(t) {
                    let i = before.index_of(t);
                    assert(self@[i] == t);
                }
                if self@.contains(t) && t != s@ {
                    let i = self@.index_of(t);
                    assert(before[i] == t);
                }
            }
            assert forall|i: int| 0 <= i < self@.len() implies self.map@[#[trigger] self@[i]] == sym_of(
                i,
            ) by {
                if i < before.len() {
                    assert(self@[i] == before[i]);
                    assert(before.contains(before[i]));
                }
            }
        }
        id
    }

    /// The string of an id, or the empty string.
    pub fn resolve(&self, id: Sym) -> (r: &str)
        ensures
            r@ == resolved(self@, id),
    {
        if (id as u64) < (self.strings.len() as u64) {
            self.strings[id as usize].as_str()
        } else {
            ""
        }
    }
}

impl Default for Interner {
    fn default() -> (r: Self)
        ensures
            r.wf(),
            r@.no_duplicates(),
            r@ == Seq::<Seq<char>>::empty(),
    {
        Interner::new()
    }
}

/// An interned string is found again under its id, as long as fewer than 2^32
/// strings are stored.
pub proof fn interned_string_resolves(strings: Seq<Seq<char>>, s: Seq<char>)
    requires
        strings.len() < 0x1_0000_0000,
    ensures
        resolved(interned(strings, s), sym_of(position_of(strings, s))) == s,
{
    if strings.contains(s) {
        assert(strings[strings.index_of(s)] == s);
    }
}

/// Interning changes no id that was given out before.
pub proof fn interning_keeps_ids(strings: Seq<Seq<char>>, s: Seq<char>, id: Sym)
    requires
        id < strings.len(),
    ensures
        resolved(interned(strings, s), id) == resolved(strings, id),
{
}

/// Interning a string again changes nothing and gives the same id.
pub proof fn interning_twice_is_once(strings: Seq<Seq<char>>, s: Seq<char>)
    requires
        strings.no_duplicates(),
    ensures
        interned(interned(strings, s), s) == interned(strings, s),
        position_of(interned(strings, s), s) == position_of(strings, s),
{
    let t = interned(strings, s);
    if !strings.contains(s) {
        assert(t[strings.len() as int] == s);
        let i = t.index_of(s);
        assert(t[i] == s);
        if i < strings.len() {
            assert(strings[i] == s);
        }
    }
}

/// Interning another string moves no string that is stored: where no string is stored
/// twice, each keeps its position, and so the id that interning it gives.
pub proof fn interning_keeps_positions(strings: Seq<Seq<char>>, s: Seq<char>, t: Seq<char>)
    requires
        strings.no_duplicates(),
        strings.contains(t),
    ensures
        interned(strings, s).no_duplicates(),
        interned(strings, s).contains(t),
        position_of(interned(strings, s), t) == position_of(strings, t),
{
    let more = interned(strings, s);
    let i = strings.index_of(t);
    assert(strings[i] == t && more[i] == t);
    assert forall|a: int, b: int|
        0 <= a < more.len() && 0 <= b < more.len() && a != b implies more[a] != more[b] by {
        assert(a < strings.len() ==> strings.contains(strings[a]));
        assert(b < strings.len() ==> strings.contains(strings[b]));
    }
    assert(more[more.index_of(t)] == t);
}

// ---------------------------------------------------------------------------
// Tokens
// ---------------------------------------------------------------------------

/// A compact lexeme. It is `Copy` and field-packed, so a stream is one contiguous
/// `Vec`; `jmp` links matching delimiters.
#[derive(Debug, Clone, Copy, PartialEq, Eq, Structural)]
pub struct Token {
    /// Interned native node kind (`identifier`, `switch`, `==`, `{`).
    pub kind: Sym,
    /// Interned source text (capped).
    pub text: Sym,
    /// Interned name of the enclosing function (the empty string for none).
    pub func: Sym,
    /// Interned normalized lexeme class (`ident`, `str`, `num`, `symbol`).
    pub class: Sym,
    /// Whether this is a named node or a bare symbol.
    pub named: bool,
    pub start_byte: u32,
    pub end_byte: u32,
    pub start_line: u32,
    pub start_col: u32,
    pub end_line: u32,
    pub end_col: u32,
    pub curly: u16,
    pub round: u16,
    pub bracket: u16,
    /// Index of the matching delimiter, or [`NO_JMP`].
    pub jmp: u32,
}

/// A token with its strings.
pub struct TokenModel {
    pub kind: Seq<char>,
    pub text: Seq<char>,
    pub func: Seq<char>,
    pub class: Seq<char>,
    pub token: Token,
}

/// A token with its strings, given those of its stream.
pub open spec fn token_model(t: Token, strings: Seq<Seq<char>>) -> TokenModel {
    TokenModel {
        kind: resolved(strings, t.kind),
        text: resolved(strings, t.text),
        func: resolved(strings, t.func),
        class: resolved(strings, t.class),
        token: t,
    }
}

/// A count of lines or bytes in 32 bits.
pub open spec fn count32(n: int) -> nat {
    (n % 0x1_0000_0000) as nat
}

/// The lines that a token spans.
pub open spec fn lines_of(t: Token) -> nat {
    count32(t.end_line - t.start_line + 1)
}

/// The bytes that a token spans.
pub open spec fn bytes_of(t: Token) -> nat {
    count32(t.end_byte - t.start_byte)
}

/// The field of a token that a predicate reads: text, a number, or nothing.
pub enum FieldModel {
    Text(Seq<char>),
    Count(nat),
    Absent,
}

/// The value of a token's field, by the name of the field.
pub open spec fn field_of(m: TokenModel, key: Seq<char>) -> FieldModel {
    if key == "node_kind"@ {
        FieldModel::Text(m.kind)
    } else if key == "class"@ {
        FieldModel::Text(m.class)
    } else if key == "text"@ {
        FieldModel::Text(m.text)
    } else if key == "function"@ {
        FieldModel::Text(m.func)
    } else if key == "named"@ {
        FieldModel::Text(bool_text(m.token.named))
    } else if key == "curly_depth"@ {
        FieldModel::Count(m.token.curly as nat)
    } else if key == "round_depth"@ {
        FieldModel::Count(m.token.round as nat)
    } else if key == "bracket_depth"@ {
        FieldModel::Count(m.token.bracket as nat)
    } else if key == "range_lines"@ {
        FieldModel::Count(lines_of(m.token))
    } else if key == "text_len"@ {
        FieldModel::Count(bytes_of(m.token))
    } else {
        FieldModel::Absent
    }
}

/// The string forms of a field.
pub open spec fn field_texts(f: FieldModel) -> Seq<Seq<char>> {
    match f {
        FieldModel::Text(s) => seq![s],
        FieldModel::Count(n) => seq![decimal_of(n)],
        FieldModel::Absent => Seq::empty(),
    }
}

/// A token's field, as text or as a number.
pub enum TokenField<'a> {
    Str(&'a str),
    Num(u64),
}

/// What a field stands for.
pub open spec fn field_model(f: Option<TokenField<'_>>) -> FieldModel {
    match f {
        Some(TokenField::Str(s)) => FieldModel::Text(s@),
        Some(TokenField::Num(n)) => FieldModel::Count(n as nat),
        None => FieldModel::Absent,
    }
}

fn count_between(start: u32, end: u32, more: u64) -> (r: u64)
    requires
        more <= 1,
    ensures
        r == count32(end - start + more),
        r <= 0xffff_ffff,
{
    let n: u64 = (0x1_0000_0000 + (end as u64) - (start as u64)) + more;
    n % 0x1_0000_0000
}

/// Looks up a field of a token by its name.
pub fn token_field<'a>(token: &Token, key: &str, it: &'a Interner) -> (r: Option<TokenField<'a>>)
    ensures
        field_model(r) == field_of(token_model(*token, it@), key@),
{
    if same(key, "node_kind") {
        Some(TokenField::Str(it.resolve(token.kind)))
    } else if same(key, "class") {
        Some(TokenField::Str(it.resolve(token.class)))
    } else if same(key, "text") {
        Some(TokenField::Str(it.resolve(token.text)))
    } else if same(key, "function") {
        Some(TokenField::Str(it.resolve(token.func)))
    } else if same(key, "named") {
        Some(
            TokenField::Str(
                if token.named {
                    "true"
                } else {
                    "false"
                },
            ),
        )
    } else if same(key, "curly_depth") {
        Some(TokenField::Num(token.curly as u64))
    } else if same(key, "round_depth") {
        Some(TokenField::Num(token.round as u64))
    } else if same(key, "bracket_depth") {
        Some(TokenField::Num(token.bracket as u64))
    } else if same(key, "range_lines") {
        Some(TokenField::Num(count_between(token.start_line, token.end_line, 1)))
    } else if same(key, "text_len") {
        Some(TokenField::Num(count_between(token.start_byte, token.end_byte, 0)))
    } else {
        None
    }
}

/// A token together with the interner of its stream: what a pattern is held
/// against.
#[derive(Clone, Copy)]
pub struct TokenRef<'a> {
    pub token: &'a Token,
    pub interner: &'a Interner,
}

impl<'a> View for TokenRef<'a> {
    type V = TokenModel;

    open spec fn view(&self) -> TokenModel {
        token_model(*self.token, self.interner@)
    }
}

impl<'a> TokenRef<'a> {
    /// The string forms of a field: one string, or none where no field has the
    /// name.
    pub fn field_strings(&self, key: &str) -> (r: Vec<String>)
        ensures
            texts(r@) == field_texts(field_of(self@, key@)),
    {
        let mut out: Vec<String> = Vec::new();
        match token_field(self.token, key, self.interner) {
            Some(TokenField::Str(s)) => {
                out.push(s.to_owned());
            },
            Some(TokenField::Num(n)) => {
                out.push(decimal(n as u128));
            },
            None => {},
        }
        assert(texts(out@) =~= field_texts(field_of(self@, key@)));
        out
    }
}

// ---------------------------------------------------------------------------
// Streams
// ---------------------------------------------------------------------------

/// The token stream for one file.
pub struct TokenStream {
    pub file: String,
    pub language: Language,
    pub interner: Interner,
    pub tokens: Vec<Token>,
}

/// The mathematical form of a stream.
pub struct StreamModel {
    pub file: Seq<char>,
    pub language: Language,
    pub tokens: Seq<TokenModel>,
}

/// The tokens of a stream with their strings.
pub open spec fn token_models(tokens: Seq<Token>, strings: Seq<Seq<char>>) -> Seq<TokenModel> {
    tokens.map_values(|t: Token| token_model(t, strings))
}

impl View for TokenStream {
    type V = StreamModel;

    open spec fn view(&self) -> StreamModel {
        StreamModel {
            file: self.file@,
            language: self.language,
            tokens: token_models(self.tokens@, self.interner@),
        }
    }
}

/// The span of a token.
pub open spec fn token_span(t: Token) -> Span {
    Span {
        start_byte: t.start_byte as usize,
        end_byte: t.end_byte as usize,
        start_line: t.start_line as usize,
        start_col: t.start_col as usize,
        end_line: t.end_line as usize,
        end_col: t.end_col as usize,
    }
}

/// An object member.
pub open spec fn json_member(k: Seq<char>, v: DatumModel) -> (DatumModel, DatumModel) {
    (DatumModel::Text(k), v)
}

/// A number as a value.
pub open spec fn json_number(n: nat) -> DatumModel {
    DatumModel::Number(decimal_of(n))
}

/// The span of a token as an object.
pub open spec fn span_object(t: Token) -> DatumModel {
    DatumModel::Mapping(
        seq![
            json_member("end_byte"@, json_number(t.end_byte as nat)),
            json_member("end_col"@, json_number(t.end_col as nat)),
            json_member("end_line"@, json_number(t.end_line as nat)),
            json_member("start_byte"@, json_number(t.start_byte as nat)),
            json_member("start_col"@, json_number(t.start_col as nat)),
            json_member("start_line"@, json_number(t.start_line as nat)),
        ],
    )
}

/// A token as a readable object, its members in the order of their names.
pub open spec fn token_object(m: TokenModel) -> DatumModel {
    DatumModel::Mapping(
        seq![
            json_member("bracket_depth"@, json_number(m.token.bracket as nat)),
            json_member("class"@, DatumModel::Text(m.class)),
            json_member("curly_depth"@, json_number(m.token.curly as nat)),
            json_member("function"@, DatumModel::Text(m.func)),
            json_member(
                "jmp"@,
                if m.token.jmp == NO_JMP {
                    DatumModel::Null
                } else {
                    json_number(m.token.jmp as nat)
                },
            ),
            json_member("named"@, DatumModel::Bool(m.token.named)),
            json_member("node_kind"@, DatumModel::Text(m.kind)),
            json_member("round_depth"@, json_number(m.token.round as nat)),
            json_member("span"@, span_object(m.token)),
            json_member("text"@, DatumModel::Text(m.text)),
        ],
    )
}

fn span_value(t: &Token) -> (r: Datum)
    ensures
        r@ == span_object(*t),
{
    let mut items: Vec<(Datum, Datum)> = Vec::new();
    items.push(entry("end_byte", count_value(t.end_byte as u64)));
    items.push(entry("end_col", count_value(t.end_col as u64)));
    items.push(entry("end_line", count_value(t.end_line as u64)));
    items.push(entry("start_byte", count_value(t.start_byte as u64)));
    items.push(entry("start_col", count_value(t.start_col as u64)));
    items.push(entry("start_line", count_value(t.start_line as u64)));
    assert(pair_models(items@) =~= span_object(*t)->Mapping_0);
    mapping(items)
}

fn token_value(t: &Token, it: &Interner) -> (r: Datum)
    ensures
        r@ == token_object(token_model(*t, it@)),
{
    let jmp = if t.jmp == NO_JMP {
        Datum::Null
    } else {
        count_value(t.jmp as u64)
    };
    let mut items: Vec<(Datum, Datum)> = Vec::new();
    items.push(entry("bracket_depth", count_value(t.bracket as u64)));
    items.push(entry("class", text_value(it.resolve(t.class))));
    items.push(entry("curly_depth", count_value(t.curly as u64)));
    items.push(entry("function", text_value(it.resolve(t.func))));
    items.push(entry("jmp", jmp));
    items.push(entry("named", Datum::Bool(t.named)));
    items.push(entry("node_kind", text_value(it.resolve(t.kind))));
    items.push(entry("round_depth", count_value(t.round as u64)));
    items.push(entry("span", span_value(t)));
    items.push(entry("text", text_value(it.resolve(t.text))));
    assert(pair_models(items@) =~= token_object(token_model(*t, it@))->Mapping_0);
    mapping(items)
}

impl TokenStream {
    /// The span of a token.
    pub fn span_of(&self, t: &Token) -> (r: Span)
        ensures
            r == token_span(*t),
    {
        Span {
            start_byte: t.start_byte as usize,
            end_byte: t.end_byte as usize,
            start_line: t.start_line as usize,
            start_col: t.start_col as usize,
            end_line: t.end_line as usize,
            end_col: t.end_col as usize,
        }
    }

    /// The tokens as readable objects, with their strings in place of ids.
    pub fn resolved_json(&self) -> (r: Vec<Datum>)
        ensures
            value_models(r@) == self@.tokens.map_values(|m: TokenModel| token_object(m)),
    {
        let mut out: Vec<Datum> = Vec::new();
        let mut i: usize = 0;
        while i < self.tokens.len()
            invariant
                i <= self.tokens@.len(),
                out@.len() == i,
                forall|k: int|
                    0 <= k < i ==> (#[trigger] out@[k])@ == token_object(self@.tokens[k]),
            decreases self.tokens@.len() - i,
        {
            out.push(token_value(&self.tokens[i], &self.interner));
            i += 1;
        }
        assert(value_models(out@) =~= self@.tokens.map_values(|m: TokenModel| token_object(m)));
        out
    }
}

} // verus!
