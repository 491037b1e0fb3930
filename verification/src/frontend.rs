//! Language frontends: from a source file to its token (lexeme) stream.
//!
//! The TypeScript/JavaScript frontend takes the leaves of a syntax tree. A string or
//! template literal is one atomic token (matching never reaches inside it); comments
//! are tokens too; composite nodes are not. Each lexeme has a normalized class, so
//! that patterns stay language-agnostic.

use vstd::prelude::*;
use vstd::string::*;
use vstd::utf8::*;

use crate::outside::{Grammar, ParseFault};
use crate::paths::{extension, extension_of};
use crate::syntax::{parse_source, parsed_tree, SyntaxModel, SyntaxNode};
use crate::text::{join2, same, slice_text, to_chars};
use crate::token::{
    count32,
    interned,
    language_of_extension,
    position_of,
    resolved,
    sym_of,
    token_model,
    Interner,
    Language,
    Sym,
    Token,
    TokenModel,
    TokenStream,
    NO_JMP,
};

verus! {

// ---------------------------------------------------------------------------
// Text of a node
// ---------------------------------------------------------------------------

/// Whether bytes `lo..hi` of a text are whole characters.
pub open spec fn whole_bytes(bytes: Seq<u8>, lo: int, hi: int) -> bool {
    lo <= hi && is_char_boundary(bytes, lo) && is_char_boundary(bytes, hi)
}

/// The text in bytes `lo..hi`, or nothing where these are not whole characters.
pub open spec fn text_between(s: Seq<char>, lo: int, hi: int) -> Seq<char> {
    let bytes = encode_utf8(s);
    if whole_bytes(bytes, lo, hi) {
        decode_utf8(bytes.subrange(lo, hi))
    } else {
        ""@
    }
}

pub proof fn lemma_boundary_inside(bytes: Seq<u8>, lo: int, hi: int)
    requires
        valid_utf8(bytes),
        0 <= lo <= hi,
        is_char_boundary(bytes, lo),
        is_char_boundary(bytes, hi),
    ensures
        hi <= bytes.len(),
        is_char_boundary(bytes.subrange(0, hi), lo),
{
    assert(hi <= bytes.len());
    let head = bytes.subrange(0, hi);
    valid_utf8_split(bytes, hi);
    if lo == hi {
        assert(head.len() == hi);
        is_char_boundary_start_end_of_seq(head);
    } else {
        is_char_boundary_iff_not_is_continuation_byte(bytes, lo);
        is_char_boundary_iff_not_is_continuation_byte(head, lo);
        assert(head[lo] == bytes[lo]);
    }
}

fn slice_bytes(s: &str, lo: usize, hi: usize) -> (r: &str)
    ensures
        r@ == text_between(s@, lo as int, hi as int),
{
    if lo > hi || !s.is_char_boundary(lo) || !s.is_char_boundary(hi) {
        return "";
    }
    let ghost bytes = s.spec_bytes();
    proof {
        encode_utf8_valid_utf8(s@);
        lemma_boundary_inside(bytes, lo as int, hi as int);
    }
    let (head, _) = s.split_at(hi);
    let (_, mid) = head.split_at(lo);
    proof {
        assert(mid.spec_bytes() =~= bytes.subrange(lo as int, hi as int));
        encode_utf8_decode_utf8(mid@);
    }
    mid
}

/// The number of characters that a lexeme's text is cut to.
pub const TEXT_LIMIT: usize = 120;

/// A text in at most `max` characters: the text itself where it fits, else its
/// beginning with an ellipsis in the last place.
pub open spec fn capped_text(s: Seq<char>, max: nat) -> Seq<char> {
    if s.len() <= max {
        s
    } else if max == 0 {
        Seq::empty()
    } else {
        s.take(max - 1).push('…')
    }
}

/// Cuts a text to at most `max` characters.
pub fn capped(s: &str, max: usize) -> (r: String)
    ensures
        r@ == capped_text(s@, max as nat),
        r@.len() <= max,
        s@.len() <= max ==> r@ == s@,
{
    let b = to_chars(s);
    if b.len() <= max {
        s.to_owned()
    } else if max == 0 {
        String::new()
    } else {
        let mut t = slice_text(b.as_slice(), 0, max - 1);
        assert(t@ =~= s@.take(max - 1));
        t.push('…');
        t
    }
}

// ---------------------------------------------------------------------------
// Lexemes
// ---------------------------------------------------------------------------

/// The normalized, language-neutral class of a lexeme.
pub open spec fn class_of(kind: Seq<char>, named: bool) -> Seq<char> {
    if kind == "identifier"@ {
        "ident"@
    } else if kind == "property_identifier"@ || kind == "shorthand_property_identifier"@ {
        "prop"@
    } else if kind == "number"@ {
        "num"@
    } else if kind == "string"@ || kind == "template_string"@ {
        "str"@
    } else if kind == "true"@ || kind == "false"@ {
        "bool"@
    } else if kind == "regex"@ {
        "regex"@
    } else if kind == "null"@ {
        "null"@
    } else if kind == "undefined"@ {
        "undefined"@
    } else if kind == "comment"@ {
        "comment"@
    } else if named {
        "other"@
    } else {
        "symbol"@
    }
}

/// The normalized class of a lexeme. A symbol (keyword, operator, punctuation) is
/// matched by its text; any other named lexeme without a class is `other`.
pub fn classify(kind: &str, named: bool) -> (r: &'static str)
    ensures
        r@ == class_of(kind@, named),
{
    if same(kind, "identifier") {
        "ident"
    } else if same(kind, "property_identifier") || same(kind, "shorthand_property_identifier") {
        "prop"
    } else if same(kind, "number") {
        "num"
    } else if same(kind, "string") || same(kind, "template_string") {
        "str"
    } else if same(kind, "true") || same(kind, "false") {
        "bool"
    } else if same(kind, "regex") {
        "regex"
    } else if same(kind, "null") {
        "null"
    } else if same(kind, "undefined") {
        "undefined"
    } else if same(kind, "comment") {
        "comment"
    } else if named {
        "other"
    } else {
        "symbol"
    }
}

/// Nesting depths and the enclosing function at a node.
pub struct FrameModel {
    pub curly: nat,
    pub round: nat,
    pub bracket: nat,
    pub function: Seq<char>,
}

/// The frame at the root.
pub open spec fn outermost() -> FrameModel {
    FrameModel { curly: 0, round: 0, bracket: 0, function: ""@ }
}

/// Whether a kind is a code scope. Object literals are none.
pub open spec fn is_scope(kind: Seq<char>) -> bool {
    kind == "statement_block"@ || kind == "class_body"@
}

/// Whether a kind is in parentheses.
pub open spec fn is_round(kind: Seq<char>) -> bool {
    kind == "arguments"@ || kind == "formal_parameters"@ || kind == "parenthesized_expression"@
}

/// Whether a kind is in square brackets.
pub open spec fn is_bracketed(kind: Seq<char>) -> bool {
    kind == "array"@ || kind == "array_pattern"@
}

/// Whether a kind is a function with a name.
pub open spec fn is_function(kind: Seq<char>) -> bool {
    kind == "function_declaration"@ || kind == "function_signature"@ || kind
        == "generator_function_declaration"@ || kind == "method_definition"@
}

/// The frame of a node's children.
pub open spec fn inner_frame(n: SyntaxModel, text: Seq<char>, f: FrameModel) -> FrameModel {
    FrameModel {
        curly: f.curly + (if is_scope(n.kind) {
            1nat
        } else {
            0
        }),
        round: f.round + (if is_round(n.kind) {
            1nat
        } else {
            0
        }),
        bracket: f.bracket + (if is_bracketed(n.kind) {
            1nat
        } else {
            0
        }),
        function: match n.name {
            Some((lo, hi)) => if is_function(n.kind) {
                text_between(text, lo as int, hi as int)
            } else {
                f.function
            },
            None => f.function,
        },
    }
}

/// A leaf with the frame that it stands in.
pub struct LexemeModel {
    pub node: SyntaxModel,
    pub frame: FrameModel,
}

/// Whether a node is one lexeme: a string or template literal as a whole, and
/// anything without children.
pub open spec fn is_lexeme(n: SyntaxModel) -> bool {
    n.kind == "string"@ || n.kind == "template_string"@ || n.children.len() == 0
}

/// The lexemes of a node, in source order.
pub open spec fn lexemes(n: SyntaxModel, text: Seq<char>, f: FrameModel) -> Seq<LexemeModel>
    decreases n,
{
    if is_lexeme(n) {
        seq![LexemeModel { node: n, frame: f }]
    } else {
        all_lexemes(n.children, text, inner_frame(n, text, f))
    }
}

/// The lexemes of several nodes, in source order.
pub open spec fn all_lexemes(ns: Seq<SyntaxModel>, text: Seq<char>, f: FrameModel) -> Seq<LexemeModel>
    decreases ns,
{
    if ns.len() == 0 {
        Seq::empty()
    } else {
        all_lexemes(ns.drop_last(), text, f) + lexemes(ns.last(), text, f)
    }
}

/// A depth in 16 bits.
pub open spec fn depth16(n: nat) -> u16 {
    if n > 0xffff {
        0xffffu16
    } else {
        n as u16
    }
}

/// The strings and tokens of a stream that is being made.
pub struct BuilderModel {
    pub strings: Seq<Seq<char>>,
    pub tokens: Seq<Token>,
}

/// A stream with one more string, and the id of that string.
pub open spec fn with_string(strings: Seq<Seq<char>>, s: Seq<char>) -> (Seq<Seq<char>>, Sym) {
    (interned(strings, s), sym_of(position_of(strings, s)))
}

/// A stream with one more token: that of a lexeme, without a link.
pub open spec fn with_lexeme(b: BuilderModel, l: LexemeModel, text: Seq<char>) -> BuilderModel {
    let n = l.node;
    let (s1, kind) = with_string(b.strings, n.kind);
    let (s2, words) = with_string(
        s1,
        capped_text(
            text_between(text, n.start_byte as int, n.end_byte as int),
            TEXT_LIMIT as nat,
        ),
    );
    let (s3, func) = with_string(s2, l.frame.function);
    let (s4, class) = with_string(s3, class_of(n.kind, n.named));
    BuilderModel {
        strings: s4,
        tokens: b.tokens.push(
            Token {
                kind,
                text: words,
                func,
                class,
                named: n.named,
                start_byte: count32(n.start_byte as int) as u32,
                end_byte: count32(n.end_byte as int) as u32,
                start_line: count32(n.start_row + 1) as u32,
                start_col: count32(n.start_col + 1) as u32,
                end_line: count32(n.end_row + 1) as u32,
                end_col: count32(n.end_col + 1) as u32,
                curly: depth16(l.frame.curly),
                round: depth16(l.frame.round),
                bracket: depth16(l.frame.bracket),
                jmp: NO_JMP,
            },
        ),
    }
}

/// A stream with the tokens of several lexemes.
pub open spec fn with_lexemes(b: BuilderModel, ls: Seq<LexemeModel>, text: Seq<char>) -> BuilderModel
    decreases ls.len(),
{
    if ls.len() == 0 {
        b
    } else {
        with_lexeme(with_lexemes(b, ls.drop_last(), text), ls.last(), text)
    }
}

proof fn lemma_with_lexemes_add(
    b: BuilderModel,
    x: Seq<LexemeModel>,
    y: Seq<LexemeModel>,
    text: Seq<char>,
)
    ensures
        with_lexemes(b, x + y, text) == with_lexemes(with_lexemes(b, x, text), y, text),
    decreases y.len(),
{
    if y.len() == 0 {
        assert(x + y =~= x);
    } else {
        lemma_with_lexemes_add(b, x, y.drop_last(), text);
        assert((x + y).drop_last() =~= x + y.drop_last());
        assert((x + y).last() == y.last());
    }
}

struct Frame {
    curly: u16,
    round: u16,
    bracket: u16,
    function: String,
}

spec fn frame_ok(f: Frame, m: FrameModel) -> bool {
    &&& f.curly == depth16(m.curly)
    &&& f.round == depth16(m.round)
    &&& f.bracket == depth16(m.bracket)
    &&& f.function@ == m.function
}

fn deeper(n: u16, more: bool) -> (r: u16)
    ensures
        forall|d: nat|
            n == #[trigger] depth16(d) ==> r == depth16(
                d + (if more {
                    1nat
                } else {
                    0
                }),
            ),
{
    if more && n < 0xffff {
        n + 1
    } else {
        n
    }
}

struct TokenBuilder {
    interner: Interner,
    tokens: Vec<Token>,
}

impl View for TokenBuilder {
    type V = BuilderModel;

    closed spec fn view(&self) -> BuilderModel {
        BuilderModel { strings: self.interner@, tokens: self.tokens@ }
    }
}

fn low32(n: usize, more: u128) -> (r: u32)
    requires
        more <= 1,
    ensures
        r == count32(n + more) as u32,
{
    (((n as u128) + more) % 0x1_0000_0000) as u32
}

impl TokenBuilder {
    fn push(&mut self, n: &SyntaxNode, text: &str, f: &Frame, frame: Ghost<FrameModel>)
        requires
            old(self).interner.wf(),
            frame_ok(*f, frame@),
        ensures
            final(self).interner.wf(),
            final(self)@ == with_lexeme(
                old(self)@,
                LexemeModel { node: n@, frame: frame@ },
                text@,
            ),
    {
        let words = capped(slice_bytes(text, n.start_byte, n.end_byte), TEXT_LIMIT);
        let kind: Sym = self.interner.intern(n.kind.as_str());
        let text: Sym = self.interner.intern(words.as_str());
        let func: Sym = self.interner.intern(f.function.as_str());
        let class: Sym = self.interner.intern(classify(n.kind.as_str(), n.named));
        self.tokens.push(
            Token {
                kind,
                text,
                func,
                class,
                named: n.named,
                start_byte: low32(n.start_byte, 0),
                end_byte: low32(n.end_byte, 0),
                start_line: low32(n.start_row, 1),
                start_col: low32(n.start_col, 1),
                end_line: low32(n.end_row, 1),
                end_col: low32(n.end_col, 1),
                curly: f.curly,
                round: f.round,
                bracket: f.bracket,
                jmp: NO_JMP,
            },
        );
    }
}

fn child_frame(n: &SyntaxNode, text: &str, f: &Frame, frame: Ghost<FrameModel>) -> (r: Frame)
    requires
        frame_ok(*f, frame@),
    ensures
        frame_ok(r, inner_frame(n@, text@, frame@)),
{
    let k = n.kind.as_str();
    let scope = same(k, "statement_block") || same(k, "class_body");
    let parens = same(k, "arguments") || same(k, "formal_parameters") || same(
        k,
        "parenthesized_expression",
    );
    let brackets = same(k, "array") || same(k, "array_pattern");
    let function = same(k, "function_declaration") || same(k, "function_signature") || same(
        k,
        "generator_function_declaration",
    ) || same(k, "method_definition");
    let mut name = f.function.clone();
    if function {
        if let Some((lo, hi)) = n.name {
            name = slice_bytes(text, lo, hi).to_owned();
        }
    }
    Frame {
        curly: deeper(f.curly, scope),
        round: deeper(f.round, parens),
        bracket: deeper(f.bracket, brackets),
        function: name,
    }
}

fn walk_tokens(
    n: &SyntaxNode,
    text: &str,
    tb: &mut TokenBuilder,
    f: &Frame,
    frame: Ghost<FrameModel>,
)
    requires
        old(tb).interner.wf(),
        frame_ok(*f, frame@),
    ensures
        final(tb).interner.wf(),
        final(tb)@ == with_lexemes(old(tb)@, lexemes(n@, text@, frame@), text@),
    decreases n,
{
    let ghost first = tb@;
    if same(n.kind.as_str(), "string") || same(n.kind.as_str(), "template_string")
        || n.children.len() == 0 {
        let ghost one = LexemeModel { node: n@, frame: frame@ };
        tb.push(n, text, f, frame);
        proof {
            let ls = lexemes(n@, text@, frame@);
            assert(ls =~= seq![one]);
            assert(ls.drop_last() =~= Seq::<LexemeModel>::empty());
            assert(with_lexemes(first, ls.drop_last(), text@) == first);
        }
        return ;
    }
    let inner = child_frame(n, text, f, frame);
    let ghost deep = inner_frame(n@, text@, frame@);
    let ghost below = n@.children;
    let mut i: usize = 0;
    assert(below.take(0) =~= Seq::<SyntaxModel>::empty());
    while i < n.children.len()
        invariant
            i <= n.children@.len(),
            below == n@.children,
            below.len() == n.children@.len(),
            frame_ok(inner, deep),
            tb.interner.wf(),
            tb@ == with_lexemes(first, all_lexemes(below.take(i as int), text@, deep), text@),
        decreases n.children@.len() - i,
    {
        assert(decreases_to!(n => n.children));
        assert(below[i as int] == n.children@[i as int]@);
        walk_tokens(&n.children[i], text, tb, &inner, Ghost(deep));
        proof {
            assert(below.take(i + 1).drop_last() =~= below.take(i as int));
            assert(below.take(i + 1).last() == n.children@[i as int]@);
            lemma_with_lexemes_add(
                first,
                all_lexemes(below.take(i as int), text@, deep),
                lexemes(below[i as int], text@, deep),
                text@,
            );
        }
        i += 1;
    }
    assert(below.take(i as int) =~= below);
}

// ---------------------------------------------------------------------------
// Delimiter links
// ---------------------------------------------------------------------------

/// The ids of the delimiters: round, curly and square, opening and closing.
pub struct Delimiters {
    pub lp: Sym,
    pub rp: Sym,
    pub lb: Sym,
    pub rb: Sym,
    pub ls: Sym,
    pub rs: Sym,
}

/// Whether a kind is an opening delimiter.
pub open spec fn is_opening(d: Delimiters, k: Sym) -> bool {
    k == d.lp || k == d.lb || k == d.ls
}

/// Whether a kind is a closing delimiter.
pub open spec fn is_closing(d: Delimiters, k: Sym) -> bool {
    k == d.rp || k == d.rb || k == d.rs
}

/// The opening delimiter of a closing one.
pub open spec fn opening_of(d: Delimiters, k: Sym) -> Sym {
    if k == d.rp {
        d.lp
    } else if k == d.rb {
        d.lb
    } else {
        d.ls
    }
}

/// Tokens with the link of one of them set.
pub open spec fn with_link(tokens: Seq<Token>, i: int, to: int) -> Seq<Token> {
    tokens.update(i, Token { jmp: count32(to) as u32, ..tokens[i] })
}

/// The tokens with the delimiters before position `n` linked, and the positions of
/// those that are still open. A closing delimiter is linked with the innermost open
/// one where that is its counterpart, and is passed over where it is not.
pub open spec fn linked(d: Delimiters, tokens: Seq<Token>, n: int) -> (Seq<Token>, Seq<int>)
    decreases n,
{
    if n <= 0 {
        (tokens, Seq::empty())
    } else {
        let (ts, open) = linked(d, tokens, n - 1);
        let k = tokens[n - 1].kind;
        if is_opening(d, k) {
            (ts, open.push(n - 1))
        } else if is_closing(d, k) && open.len() > 0 && tokens[open.last()].kind == opening_of(d, k) {
            (with_link(with_link(ts, open.last(), n - 1), n - 1, open.last()), open.drop_last())
        } else {
            (ts, open)
        }
    }
}

/// The strings with the six delimiters among them, and the ids of these.
pub open spec fn with_delimiters(strings: Seq<Seq<char>>) -> (Seq<Seq<char>>, Delimiters) {
    let (s1, lp) = with_string(strings, "("@);
    let (s2, rp) = with_string(s1, ")"@);
    let (s3, lb) = with_string(s2, "{"@);
    let (s4, rb) = with_string(s3, "}"@);
    let (s5, ls) = with_string(s4, "["@);
    let (s6, rs) = with_string(s5, "]"@);
    (s6, Delimiters { lp, rp, lb, rb, ls, rs })
}

/// The strings and tokens of a syntax tree: a token for each lexeme, with the
/// delimiters linked.
pub open spec fn stream_of(root: SyntaxModel, text: Seq<char>) -> BuilderModel {
    let empty = BuilderModel { strings: Seq::empty(), tokens: Seq::empty() };
    let b = with_lexemes(empty, lexemes(root, text, outermost()), text);
    let (strings, d) = with_delimiters(b.strings);
    BuilderModel { strings, tokens: linked(d, b.tokens, b.tokens.len() as int).0 }
}

proof fn lemma_linked_shape(d: Delimiters, tokens: Seq<Token>, n: int)
    requires
        0 <= n <= tokens.len(),
    ensures
        linked(d, tokens, n).0.len() == tokens.len(),
        forall|i: int|
            0 <= i < tokens.len() ==> (#[trigger] linked(d, tokens, n).0[i]) == (Token {
                jmp: linked(d, tokens, n).0[i].jmp,
                ..tokens[i]
            }),
        forall|i: int|
            0 <= i < linked(d, tokens, n).1.len() ==> 0 <= #[trigger] linked(d, tokens, n).1[i] < n,
    decreases n,
{
    if n > 0 {
        lemma_linked_shape(d, tokens, n - 1);
        let (ts, open) = linked(d, tokens, n - 1);
        if open.len() > 0 {
            assert(0 <= open[open.len() - 1] < n - 1);
        }
        let r = linked(d, tokens, n);
        assert forall|i: int| 0 <= i < r.1.len() implies 0 <= #[trigger] r.1[i] < n by {
            if i < open.len() {
                assert(0 <= open[i] < n - 1);
            }
        }
        assert forall|i: int| 0 <= i < tokens.len() implies (#[trigger] r.0[i]) == (Token {
            jmp: r.0[i].jmp,
            ..tokens[i]
        }) by {
            assert(ts[i] == (Token { jmp: ts[i].jmp, ..tokens[i] }));
        }
    }
}

fn link_at(tokens: &mut Vec<Token>, i: usize, to: usize)
    requires
        i < old(tokens)@.len(),
    ensures
        final(tokens)@ == with_link(old(tokens)@, i as int, to as int),
{
    let t: Token = tokens[i];
    let jmp: u32 = low32(to, 0);
    tokens[i] = Token { jmp, ..t };
}

impl TokenBuilder {
    fn delimiters(&mut self) -> (d: Delimiters)
        requires
            old(self).interner.wf(),
        ensures
            final(self).interner.wf(),
            final(self).tokens == old(self).tokens,
            (final(self)@.strings, d) == with_delimiters(old(self)@.strings),
    {
        let lp: Sym = self.interner.intern("(");
        let rp: Sym = self.interner.intern(")");
        let lb: Sym = self.interner.intern("{");
        let rb: Sym = self.interner.intern("}");
        let ls: Sym = self.interner.intern("[");
        let rs: Sym = self.interner.intern("]");
        Delimiters { lp, rp, lb, rb, ls, rs }
    }

    fn finish_jmp(&mut self)
        requires
            old(self).interner.wf(),
        ensures
            final(self).interner.wf(),
            ({
                let (strings, d) = with_delimiters(old(self)@.strings);
                final(self)@ == (BuilderModel {
                    strings,
                    tokens: linked(d, old(self)@.tokens, old(self)@.tokens.len() as int).0,
                })
            }),
    {
        let ghost first = self.tokens@;
        let d = self.delimiters();
        let ghost strings = self@.strings;
        let mut open: Vec<usize> = Vec::new();
        let mut i: usize = 0;
        let n: usize = self.tokens.len();
        assert(open@.map_values(|p: usize| p as int) =~= Seq::<int>::empty());
        while i < n
            invariant
                i <= n,
                n == first.len(),
                self.tokens@.len() == n,
                self.interner.wf(),
                self@.strings == strings,
                linked(d, first, i as int) == (
                    self.tokens@,
                    open@.map_values(|p: usize| p as int),
                ),
            decreases n - i,
        {
            proof {
                lemma_linked_shape(d, first, i as int);
            }
            let ghost before = open@;
            let ghost places = open@.map_values(|p: usize| p as int);
            let k: Sym = self.tokens[i].kind;
            assert(self.tokens@[i as int] == linked(d, first, i as int).0[i as int]);
            assert(k == first[i as int].kind);
            if k == d.lp || k == d.lb || k == d.ls {
                open.push(i);
                assert(open@.map_values(|p: usize| p as int) =~= places.push(i as int));
            } else if k == d.rp || k == d.rb || k == d.rs {
                let want: Sym = if k == d.rp {
                    d.lp
                } else if k == d.rb {
                    d.lb
                } else {
                    d.ls
                };
                if open.len() > 0 {
                    let top: usize = open[open.len() - 1];
                    assert(places.last() == top);
                    assert(linked(d, first, i as int).1[places.len() - 1] == top);
                    assert(self.tokens@[top as int] == linked(d, first, i as int).0[top as int]);
                    if self.tokens[top].kind == want {
                        let gone = open.pop();
                        assert(open@.map_values(|p: usize| p as int) =~= places.drop_last());
                        link_at(&mut self.tokens, top, i);
                        link_at(&mut self.tokens, i, top);
                    }
                }
            }
            i += 1;
        }
    }
}

/// The tokens of a syntax tree of a text, with their strings.
pub fn tokenize(root: &SyntaxNode, text: &str) -> (r: (Interner, Vec<Token>))
    ensures
        r.0.wf(),
        r.0@ == stream_of(root@, text@).strings,
        r.1@ == stream_of(root@, text@).tokens,
{
    let mut tb = TokenBuilder { interner: Interner::new(), tokens: Vec::new() };
    let f = Frame { curly: 0, round: 0, bracket: 0, function: "".to_owned() };
    assert(tb@.tokens =~= Seq::<Token>::empty());
    walk_tokens(root, text, &mut tb, &f, Ghost(outermost()));
    tb.finish_jmp();
    (tb.interner, tb.tokens)
}

// ---------------------------------------------------------------------------
// Frontends
// ---------------------------------------------------------------------------

/// A source file handed to a frontend: its path and a borrow of its text.
pub struct SourceFile<'a> {
    pub path: String,
    pub text: &'a str,
}

/// Lexes a file into its compact token stream.
pub trait Frontend {
    /// Whether the frontend handles a path.
    spec fn supports(&self, path: Seq<char>) -> bool;

    /// The name of the frontend.
    spec fn label(&self) -> Seq<char>;

    /// Human-readable name (for diagnostics).
    fn name(&self) -> (r: &'static str)
        ensures
            r@ == self.label(),
    ;

    /// Whether this frontend handles the given path.
    fn supports_file(&self, path: &str) -> (r: bool)
        ensures
            r == self.supports(path@),
    ;

    /// Whether an outcome is that of lexing a text with a path.
    spec fn outcome(&self, path: Seq<char>, text: Seq<char>, r: Result<TokenStream, String>) -> bool;

    /// Lexes the file into its token stream.
    fn lex(&self, file: &SourceFile<'_>) -> (r: Result<TokenStream, String>)
        ensures
            self.outcome(file.path@, file.text@, r),
    ;
}

/// The TypeScript/JavaScript frontend.
#[derive(Debug, Clone, Copy)]
pub struct TsJsFrontend;

/// The language and the grammar of files with an extension.
pub open spec fn grammar_of(ext: Option<Seq<char>>) -> (Language, Grammar) {
    match ext {
        Some(e) => if e == "tsx"@ {
            (Language::Typescript, Grammar::Tsx)
        } else if e == "ts"@ || e == "mts"@ || e == "cts"@ {
            (Language::Typescript, Grammar::Typescript)
        } else {
            (Language::Javascript, Grammar::Javascript)
        },
        None => (Language::Javascript, Grammar::Javascript),
    }
}

/// Whether files with an extension are TypeScript or JavaScript.
pub open spec fn is_ts_js(ext: Option<Seq<char>>) -> bool {
    match ext {
        Some(e) => match language_of_extension(e) {
            Some(l) => l == Language::Typescript || l == Language::Javascript,
            None => false,
        },
        None => false,
    }
}

/// The message about a file that could not be parsed.
pub open spec fn parse_message(e: Option<Seq<char>>, path: Seq<char>) -> Seq<char> {
    match e {
        Some(msg) => "failed to load grammar: "@ + msg,
        None => "parser returned no tree for "@ + path,
    }
}

fn select_language(ext: &Option<String>) -> (r: (Language, Grammar))
    ensures
        r == grammar_of(crate::text::opt_text(*ext)),
{
    match ext {
        Some(e) => if same(e.as_str(), "tsx") {
            (Language::Typescript, Grammar::Tsx)
        } else if same(e.as_str(), "ts") || same(e.as_str(), "mts") || same(e.as_str(), "cts") {
            (Language::Typescript, Grammar::Typescript)
        } else {
            (Language::Javascript, Grammar::Javascript)
        },
        None => (Language::Javascript, Grammar::Javascript),
    }
}

/// Whether an outcome is that of lexing a text with the grammar of its path's
/// extension: the tokens of the tree, or the message about the text.
pub open spec fn lexed_as(path: Seq<char>, text: Seq<char>, r: Result<TokenStream, String>) -> bool {
    let (language, grammar) = grammar_of(extension_of(path));
    match parsed_tree(grammar, text) {
        Ok(root) => match r {
            Ok(ts) => {
                &&& ts.file@ == path
                &&& ts.language == language
                &&& ts.interner.wf()
                &&& ts.interner@ == stream_of(root, text).strings
                &&& ts.tokens@ == stream_of(root, text).tokens
            },
            Err(_) => false,
        },
        Err(e) => match r {
            Ok(_) => false,
            Err(msg) => msg@ == parse_message(e, path),
        },
    }
}

impl Frontend for TsJsFrontend {
    open spec fn supports(&self, path: Seq<char>) -> bool {
        is_ts_js(extension_of(path))
    }

    open spec fn label(&self) -> Seq<char> {
        "ts_js"@
    }

    fn name(&self) -> (r: &'static str) {
        "ts_js"
    }

    fn supports_file(&self, path: &str) -> (r: bool) {
        match extension(path) {
            Some(e) => match Language::from_extension(e.as_str()) {
                Some(l) => l == Language::Typescript || l == Language::Javascript,
                None => false,
            },
            None => false,
        }
    }

    open spec fn outcome(&self, path: Seq<char>, text: Seq<char>, r: Result<TokenStream, String>) -> bool {
        lexed_as(path, text, r)
    }

    fn lex(&self, file: &SourceFile<'_>) -> (r: Result<TokenStream, String>) {
        let ext = extension(file.path.as_str());
        let (language, grammar) = select_language(&ext);
        match parse_source(grammar, file.text) {
            Ok(root) => {
                let (interner, tokens) = tokenize(&root, file.text);
                Ok(TokenStream { file: file.path.clone(), language, interner, tokens })
            },
            Err(ParseFault::Grammar(e)) => Err(join2("failed to load grammar: ", e.as_str())),
            Err(ParseFault::NoTree) => Err(
                join2("parser returned no tree for ", file.path.as_str()),
            ),
        }
    }
}

/// The frontends shipped by default.
pub fn frontends() -> (r: Vec<TsJsFrontend>)
    ensures
        r@ == seq![TsJsFrontend],
{
    let mut out: Vec<TsJsFrontend> = Vec::new();
    out.push(TsJsFrontend);
    assert(out@ =~= seq![TsJsFrontend]);
    out
}

/// The first frontend that supports a path.
pub fn frontend_for<'a, F: Frontend>(frontends: &'a [F], path: &str) -> (r: Option<&'a F>)
    ensures
        match r {
            Some(f) => exists|i: int|
                0 <= i < frontends@.len() && *f == #[trigger] frontends@[i] && f.supports(path@)
                    && forall|k: int| 0 <= k < i ==> !(#[trigger] frontends@[k]).supports(path@),
            None => forall|k: int|
                0 <= k < frontends@.len() ==> !(#[trigger] frontends@[k]).supports(path@),
        },
{
    let mut i: usize = 0;
    while i < frontends.len()
        invariant
            i <= frontends@.len(),
            forall|k: int| 0 <= k < i ==> !(#[trigger] frontends@[k]).supports(path@),
        decreases frontends@.len() - i,
    {
        if frontends[i].supports_file(path) {
            return Some(&frontends[i]);
        }
        i += 1;
    }
    None
}

// ---------------------------------------------------------------------------
// Laws
// ---------------------------------------------------------------------------

// What holds while delimiters are being linked.
spec fn links_ok(d: Delimiters, tokens: Seq<Token>, ts: Seq<Token>, open: Seq<int>, n: int) -> bool {
    &&& forall|i: int, j: int| 0 <= i < j < open.len() ==> #[trigger] open[i] < #[trigger] open[j]
    &&& forall|i: int|
        0 <= i < open.len() ==> 0 <= #[trigger] open[i] < n && is_opening(d, tokens[open[i]].kind)
            && ts[open[i]].jmp == NO_JMP
    &&& forall|i: int| n <= i < ts.len() ==> (#[trigger] ts[i]).jmp == NO_JMP
    &&& forall|i: int|
        0 <= i < n && (#[trigger] ts[i]).jmp != NO_JMP ==> ts[i].jmp < n && ts[i].jmp != i
            && ts[ts[i].jmp as int].jmp == i
    &&& forall|i: int|
        0 <= i < n && (#[trigger] ts[i]).jmp != NO_JMP && i < ts[i].jmp ==> {
            let j = ts[i].jmp as int;
            is_opening(d, tokens[i].kind) && is_closing(d, tokens[j].kind) && tokens[i].kind
                == opening_of(d, tokens[j].kind)
        }
    &&& forall|i: int, s: int|
        0 <= i < n && (#[trigger] ts[i]).jmp != NO_JMP && i < ts[i].jmp && 0 <= s < open.len()
            ==> !(i < #[trigger] open[s] < ts[i].jmp)
    &&& forall|i: int, k: int|
        0 <= i < k < n && (#[trigger] ts[i]).jmp != NO_JMP && (#[trigger] ts[k]).jmp != NO_JMP && i
            < k < ts[i].jmp ==> i < ts[k].jmp < ts[i].jmp
}

proof fn lemma_links(d: Delimiters, tokens: Seq<Token>, n: int)
    requires
        0 <= n <= tokens.len() < NO_JMP,
        forall|i: int| 0 <= i < tokens.len() ==> (#[trigger] tokens[i]).jmp == NO_JMP,
    ensures
        links_ok(d, tokens, linked(d, tokens, n).0, linked(d, tokens, n).1, n),
    decreases n,
{
    lemma_linked_shape(d, tokens, n);
    if n > 0 {
        lemma_links(d, tokens, n - 1);
        lemma_linked_shape(d, tokens, n - 1);
        let (ts, open) = linked(d, tokens, n - 1);
        let (us, left) = linked(d, tokens, n);
        let k = tokens[n - 1].kind;
        assert(ts[n - 1].jmp == NO_JMP);
        if is_opening(d, k) {
            assert(us == ts && left == open.push(n - 1));
            assert forall|i: int|
                0 <= i < n && (#[trigger] us[i]).jmp != NO_JMP implies us[i].jmp < n && us[i].jmp != i
                && us[us[i].jmp as int].jmp == i by {
                assert(i < n - 1);
            }
            assert forall|i: int, s: int|
                0 <= i < n && (#[trigger] us[i]).jmp != NO_JMP && i < us[i].jmp && 0 <= s
                    < left.len() implies !(i < #[trigger] left[s] < us[i].jmp) by {
                assert(i < n - 1);
                if s < open.len() {
                    assert(left[s] == open[s]);
                }
            }
        } else if is_closing(d, k) && open.len() > 0 && tokens[open.last()].kind == opening_of(d, k) {
            let top = open.last();
            let m = n - 1;
            assert(open[open.len() - 1] == top);
            assert(0 <= top < m);
            assert(us[top].jmp == m && us[m].jmp == top);
            assert forall|i: int| 0 <= i < us.len() && i != top && i != m implies us[i] == ts[i] by {}
            assert(left == open.drop_last());
            assert forall|i: int|
                0 <= i < n && (#[trigger] us[i]).jmp != NO_JMP implies us[i].jmp < n && us[i].jmp != i
                && us[us[i].jmp as int].jmp == i by {
                if i != top && i != m {
                    assert(ts[i].jmp != NO_JMP);
                    let j = ts[i].jmp as int;
                    assert(ts[j].jmp == i);
                    assert(j != top);
                    assert(j != m);
                }
            }
            assert forall|i: int|
                0 <= i < left.len() implies 0 <= #[trigger] left[i] < n && is_opening(
                d,
                tokens[left[i]].kind,
            ) && us[left[i]].jmp == NO_JMP by {
                assert(left[i] == open[i]);
                assert(open[i] < open[open.len() - 1]);
            }
            assert forall|i: int|
                0 <= i < n && (#[trigger] us[i]).jmp != NO_JMP && i < us[i].jmp implies ({
                let j = us[i].jmp as int;
                is_opening(d, tokens[i].kind) && is_closing(d, tokens[j].kind) && tokens[i].kind
                    == opening_of(d, tokens[j].kind)
            }) by {
                if i != top && i != m {
                    assert(ts[i] == us[i]);
                }
            }
            assert forall|i: int, s: int|
                0 <= i < n && (#[trigger] us[i]).jmp != NO_JMP && i < us[i].jmp && 0 <= s
                    < left.len() implies !(i < #[trigger] left[s] < us[i].jmp) by {
                assert(left[s] == open[s]);
                assert(open[s] < open[open.len() - 1]);
                if i != top && i != m {
                    assert(ts[i] == us[i]);
                }
            }
            assert forall|i: int, c: int|
                0 <= i < c < n && (#[trigger] us[i]).jmp != NO_JMP && (#[trigger] us[c]).jmp
                    != NO_JMP && i < c < us[i].jmp implies i < us[c].jmp < us[i].jmp by {
                if i == m {
                } else if i == top {
                    // c lies strictly between the new pair
                    assert(c != top && c != m);
                    assert(ts[c] == us[c]);
                    let e = ts[c].jmp as int;
                    assert(ts[e].jmp == c);
                    assert(e < m);
                    assert(e != top);
                    if e < top {
                        assert(ts[e].jmp != NO_JMP);
                        assert(e < ts[e].jmp);
                        assert(!(e < open[open.len() - 1] < ts[e].jmp));
                    }
                } else {
                    assert(ts[i] == us[i]);
                    if c == top {
                        assert(!(i < open[open.len() - 1] < ts[i].jmp));
                    } else if c == m {
                        assert(ts[i].jmp < m);
                    } else {
                        assert(ts[c] == us[c]);
                    }
                }
            }
        } else {
            assert(us == ts && left == open);
            assert forall|i: int|
                0 <= i < n && (#[trigger] us[i]).jmp != NO_JMP implies us[i].jmp < n && us[i].jmp != i
                && us[us[i].jmp as int].jmp == i by {
                assert(i < n - 1);
            }
        }
    }
}

proof fn lemma_unlinked(b: BuilderModel, ls: Seq<LexemeModel>, text: Seq<char>)
    requires
        forall|i: int| 0 <= i < b.tokens.len() ==> (#[trigger] b.tokens[i]).jmp == NO_JMP,
    ensures
        with_lexemes(b, ls, text).tokens.len() == b.tokens.len() + ls.len(),
        forall|i: int|
            0 <= i < with_lexemes(b, ls, text).tokens.len() ==> (#[trigger] with_lexemes(
                b,
                ls,
                text,
            ).tokens[i]).jmp == NO_JMP,
    decreases ls.len(),
{
    if ls.len() > 0 {
        lemma_unlinked(b, ls.drop_last(), text);
        let before = with_lexemes(b, ls.drop_last(), text).tokens;
        let after = with_lexemes(b, ls, text).tokens;
        assert forall|i: int| 0 <= i < after.len() implies (#[trigger] after[i]).jmp == NO_JMP by {
            if i < before.len() {
                assert(after[i] == before[i]);
            }
        }
    }
}

/// Links pair delimiters: where a token has one, the token that it leads to leads
/// back, the first of the two opens and the second closes what the first opened, and
/// no two pairs cross.
pub proof fn links_pair_delimiters(root: SyntaxModel, text: Seq<char>)
    requires
        stream_of(root, text).tokens.len() < NO_JMP,
    ensures
        ({
            let ts = stream_of(root, text).tokens;
            let b = with_lexemes(
                BuilderModel { strings: Seq::empty(), tokens: Seq::empty() },
                lexemes(root, text, outermost()),
                text,
            );
            let d = with_delimiters(b.strings).1;
            &&& forall|i: int|
                0 <= i < ts.len() && (#[trigger] ts[i]).jmp != NO_JMP ==> ts[i].jmp < ts.len()
                    && ts[i].jmp != i && ts[ts[i].jmp as int].jmp == i
            &&& forall|i: int|
                0 <= i < ts.len() && (#[trigger] ts[i]).jmp != NO_JMP && i < ts[i].jmp ==> is_opening(
                    d,
                    ts[i].kind,
                ) && ts[i].kind == opening_of(d, ts[ts[i].jmp as int].kind)
            &&& forall|i: int, k: int|
                0 <= i < k < ts.len() && (#[trigger] ts[i]).jmp != NO_JMP && (#[trigger] ts[k]).jmp
                    != NO_JMP && i < k < ts[i].jmp ==> i < ts[k].jmp < ts[i].jmp
        }),
{
    let empty = BuilderModel { strings: Seq::empty(), tokens: Seq::empty() };
    let ls = lexemes(root, text, outermost());
    let b = with_lexemes(empty, ls, text);
    let d = with_delimiters(b.strings).1;
    lemma_unlinked(empty, ls, text);
    let n = b.tokens.len() as int;
    lemma_linked_shape(d, b.tokens, n);
    lemma_links(d, b.tokens, n);
    let ts = stream_of(root, text).tokens;
    assert(ts == linked(d, b.tokens, n).0);
    assert forall|i: int|
        0 <= i < ts.len() && (#[trigger] ts[i]).jmp != NO_JMP && i < ts[i].jmp implies is_opening(
        d,
        ts[i].kind,
    ) && ts[i].kind == opening_of(d, ts[ts[i].jmp as int].kind) by {
        assert(ts[i] == (Token { jmp: ts[i].jmp, ..b.tokens[i] }));
        let j = ts[i].jmp as int;
        assert(ts[j] == (Token { jmp: ts[j].jmp, ..b.tokens[j] }));
    }
}

/// Only leaves and whole string or template literals become tokens.
pub proof fn only_lexemes_are_tokens(n: SyntaxModel, text: Seq<char>, f: FrameModel)
    ensures
        forall|i: int|
            0 <= i < lexemes(n, text, f).len() ==> is_lexeme((#[trigger] lexemes(n, text, f)[i]).node),
    decreases n,
{
    if !is_lexeme(n) {
        let g = inner_frame(n, text, f);
        lemma_only_lexemes(n.children, text, g);
    }
}

proof fn lemma_only_lexemes(ns: Seq<SyntaxModel>, text: Seq<char>, f: FrameModel)
    ensures
        forall|i: int|
            0 <= i < all_lexemes(ns, text, f).len() ==> is_lexeme(
                (#[trigger] all_lexemes(ns, text, f)[i]).node,
            ),
    decreases ns,
{
    if ns.len() > 0 {
        lemma_only_lexemes(ns.drop_last(), text, f);
        only_lexemes_are_tokens(ns.last(), text, f);
        let a = all_lexemes(ns.drop_last(), text, f);
        let b = lexemes(ns.last(), text, f);
        let c = all_lexemes(ns, text, f);
        assert forall|i: int| 0 <= i < c.len() implies is_lexeme((#[trigger] c[i]).node) by {
            if i < a.len() {
                assert(c[i] == a[i]);
            } else {
                assert(c[i] == b[i - a.len()]);
            }
        }
    }
}

// Whether strings extend others.
spec fn extends(s: Seq<Seq<char>>, t: Seq<Seq<char>>) -> bool {
    s.len() <= t.len() && forall|i: int| 0 <= i < s.len() ==> s[i] == #[trigger] t[i]
}

proof fn lemma_with_string(s: Seq<Seq<char>>, x: Seq<char>, t: Seq<Seq<char>>)
    requires
        extends(with_string(s, x).0, t),
        t.len() < 0x1_0000_0000,
    ensures
        resolved(t, with_string(s, x).1) == x,
        extends(s, t),
        extends(s, with_string(s, x).0),
{
    let s1 = with_string(s, x).0;
    let p = position_of(s, x);
    if s.contains(x) {
        assert(s[s.index_of(x)] == x);
        assert(s1[p] == t[p]);
    } else {
        assert(s1[p] == x);
        assert(s1[p] == t[p]);
    }
    assert forall|i: int| 0 <= i < s.len() implies s[i] == #[trigger] t[i] by {
        assert(s1[i] == t[i]);
        assert(s1[i] == s[i]);
    }
}

/// Whether a token with the given strings shows a lexeme.
pub open spec fn shows(t: TokenModel, l: LexemeModel, text: Seq<char>) -> bool {
    &&& t.kind == l.node.kind
    &&& t.text == capped_text(
        text_between(text, l.node.start_byte as int, l.node.end_byte as int),
        TEXT_LIMIT as nat,
    )
    &&& t.func == l.frame.function
    &&& t.class == class_of(l.node.kind, l.node.named)
    &&& t.token.named == l.node.named
    &&& t.token.start_byte == count32(l.node.start_byte as int)
    &&& t.token.end_byte == count32(l.node.end_byte as int)
    &&& t.token.start_line == count32(l.node.start_row + 1)
    &&& t.token.start_col == count32(l.node.start_col + 1)
    &&& t.token.end_line == count32(l.node.end_row + 1)
    &&& t.token.end_col == count32(l.node.end_col + 1)
    &&& t.token.curly == depth16(l.frame.curly)
    &&& t.token.round == depth16(l.frame.round)
    &&& t.token.bracket == depth16(l.frame.bracket)
}

proof fn lemma_shows(
    b: BuilderModel,
    ls: Seq<LexemeModel>,
    text: Seq<char>,
    t: Seq<Seq<char>>,
)
    requires
        b.tokens.len() == 0,
        extends(with_lexemes(b, ls, text).strings, t),
        t.len() < 0x1_0000_0000,
    ensures
        with_lexemes(b, ls, text).tokens.len() == ls.len(),
        forall|i: int|
            0 <= i < ls.len() ==> shows(
                token_model(#[trigger] with_lexemes(b, ls, text).tokens[i], t),
                ls[i],
                text,
            ),
    decreases ls.len(),
{
    if ls.len() > 0 {
        let before = with_lexemes(b, ls.drop_last(), text);
        let after = with_lexemes(b, ls, text);
        let l = ls.last();
        let n = l.node;
        let w = capped_text(
            text_between(text, n.start_byte as int, n.end_byte as int),
            TEXT_LIMIT as nat,
        );
        let s0 = before.strings;
        let s1 = with_string(s0, n.kind).0;
        let s2 = with_string(s1, w).0;
        let s3 = with_string(s2, l.frame.function).0;
        lemma_with_string(s3, class_of(n.kind, n.named), t);
        lemma_with_string(s2, l.frame.function, t);
        lemma_with_string(s1, w, t);
        lemma_with_string(s0, n.kind, t);
        lemma_shows(b, ls.drop_last(), text, t);
        assert forall|i: int| 0 <= i < ls.len() implies shows(
            token_model(#[trigger] after.tokens[i], t),
            ls[i],
            text,
        ) by {
            if i < ls.len() - 1 {
                assert(after.tokens[i] == before.tokens[i]);
                assert(ls.drop_last()[i] == ls[i]);
            }
        }
    }
}

/// The stream of a tree shows its lexemes, one token for each, in source order, as
/// long as fewer than 2^32 strings are stored.
pub proof fn tokens_show_their_lexemes(root: SyntaxModel, text: Seq<char>)
    requires
        stream_of(root, text).strings.len() < 0x1_0000_0000,
    ensures
        ({
            let ls = lexemes(root, text, outermost());
            let s = stream_of(root, text);
            s.tokens.len() == ls.len() && forall|i: int|
                0 <= i < ls.len() ==> shows(
                    token_model(#[trigger] s.tokens[i], s.strings),
                    ls[i],
                    text,
                )
        }),
{
    let empty = BuilderModel { strings: Seq::empty(), tokens: Seq::empty() };
    let ls = lexemes(root, text, outermost());
    let b = with_lexemes(empty, ls, text);
    let s = stream_of(root, text);
    let t = s.strings;
    let d = with_delimiters(b.strings).1;
    let s1 = with_string(b.strings, "("@).0;
    let s2 = with_string(s1, ")"@).0;
    let s3 = with_string(s2, "{"@).0;
    let s4 = with_string(s3, "}"@).0;
    let s5 = with_string(s4, "["@).0;
    lemma_with_string(s5, "]"@, t);
    lemma_with_string(s4, "["@, t);
    lemma_with_string(s3, "}"@, t);
    lemma_with_string(s2, "{"@, t);
    lemma_with_string(s1, ")"@, t);
    lemma_with_string(b.strings, "("@, t);
    lemma_shows(empty, ls, text, t);
    lemma_linked_shape(d, b.tokens, b.tokens.len() as int);
    assert forall|i: int| 0 <= i < ls.len() implies shows(
        token_model(#[trigger] s.tokens[i], t),
        ls[i],
        text,
    ) by {
        assert(s.tokens[i] == (Token { jmp: s.tokens[i].jmp, ..b.tokens[i] }));
        assert(shows(token_model(b.tokens[i], t), ls[i], text));
    }
}

/// Whether two kinds are an opening delimiter and its counterpart.
pub open spec fn counterparts(a: Seq<char>, b: Seq<char>) -> bool {
    (a == "("@ && b == ")"@) || (a == "{"@ && b == "}"@) || (a == "["@ && b == "]"@)
}

/// A link leads from `(` to `)`, from `{` to `}` or from `[` to `]`, and back.
pub proof fn links_lead_to_counterparts(root: SyntaxModel, text: Seq<char>)
    requires
        stream_of(root, text).tokens.len() < NO_JMP,
        stream_of(root, text).strings.len() < 0x1_0000_0000,
    ensures
        ({
            let s = stream_of(root, text);
            forall|i: int|
                0 <= i < s.tokens.len() && (#[trigger] s.tokens[i]).jmp != NO_JMP && i
                    < s.tokens[i].jmp ==> counterparts(
                    resolved(s.strings, s.tokens[i].kind),
                    resolved(s.strings, s.tokens[s.tokens[i].jmp as int].kind),
                )
        }),
{
    let empty = BuilderModel { strings: Seq::empty(), tokens: Seq::empty() };
    let ls = lexemes(root, text, outermost());
    let b = with_lexemes(empty, ls, text);
    let s = stream_of(root, text);
    let t = s.strings;
    let ts = s.tokens;
    let d = with_delimiters(b.strings).1;
    let s1 = with_string(b.strings, "("@).0;
    let s2 = with_string(s1, ")"@).0;
    let s3 = with_string(s2, "{"@).0;
    let s4 = with_string(s3, "}"@).0;
    let s5 = with_string(s4, "["@).0;
    lemma_with_string(s5, "]"@, t);
    lemma_with_string(s4, "["@, t);
    lemma_with_string(s3, "}"@, t);
    lemma_with_string(s2, "{"@, t);
    lemma_with_string(s1, ")"@, t);
    lemma_with_string(b.strings, "("@, t);
    reveal_strlit("(");
    reveal_strlit("{");
    reveal_strlit("[");
    assert("("@[0] == '(' && "{"@[0] == '{' && "["@[0] == '[');
    lemma_unlinked(empty, ls, text);
    let n = b.tokens.len() as int;
    lemma_linked_shape(d, b.tokens, n);
    lemma_links(d, b.tokens, n);
    assert forall|i: int|
        0 <= i < ts.len() && (#[trigger] ts[i]).jmp != NO_JMP && i < ts[i].jmp implies counterparts(
        resolved(t, ts[i].kind),
        resolved(t, ts[ts[i].jmp as int].kind),
    ) by {
        let j = ts[i].jmp as int;
        assert(ts[i] == (Token { jmp: ts[i].jmp, ..b.tokens[i] }));
        assert(ts[j] == (Token { jmp: ts[j].jmp, ..b.tokens[j] }));
        assert(is_closing(d, ts[j].kind));
        assert(ts[i].kind == opening_of(d, ts[j].kind));
    }
}

/// Whether a kind is one of the six delimiters.
pub open spec fn is_delimiter_kind(k: Seq<char>) -> bool {
    k == "("@ || k == ")"@ || k == "{"@ || k == "}"@ || k == "["@ || k == "]"@
}

/// Whether the delimiters among the kinds from `lo` up to `hi` are balanced: anything
/// else may stand anywhere, and each opening delimiter is followed by balanced kinds,
/// its counterpart, and balanced kinds.
pub open spec fn well_nested(kinds: Seq<Seq<char>>, lo: int, hi: int) -> bool
    decreases hi - lo,
{
    if lo >= hi {
        lo == hi
    } else if !is_delimiter_kind(kinds[lo]) {
        well_nested(kinds, lo + 1, hi)
    } else {
        exists|j: int|
            lo < j < hi && counterparts(kinds[lo], #[trigger] kinds[j]) && well_nested(
                kinds,
                lo + 1,
                j,
            ) && well_nested(kinds, j + 1, hi)
    }
}

/// The kinds of tokens, by their strings.
pub open spec fn kinds_of(tokens: Seq<Token>, strings: Seq<Seq<char>>) -> Seq<Seq<char>> {
    tokens.map_values(|t: Token| resolved(strings, t.kind))
}

proof fn lemma_delimiter_texts()
    ensures
        "("@ != ")"@ && "("@ != "{"@ && "("@ != "}"@ && "("@ != "["@ && "("@ != "]"@,
        ")"@ != "{"@ && ")"@ != "}"@ && ")"@ != "["@ && ")"@ != "]"@,
        "{"@ != "}"@ && "{"@ != "["@ && "{"@ != "]"@,
        "}"@ != "["@ && "}"@ != "]"@ && "["@ != "]"@,
        "("@.len() == 1 && ")"@.len() == 1 && "{"@.len() == 1 && "}"@.len() == 1 && "["@.len() == 1
            && "]"@.len() == 1 && ""@.len() == 0,
{
    reveal_strlit("(");
    reveal_strlit(")");
    reveal_strlit("{");
    reveal_strlit("}");
    reveal_strlit("[");
    reveal_strlit("]");
    reveal_strlit("");
    assert("("@[0] == '(' && ")"@[0] == ')' && "{"@[0] == '{');
    assert("}"@[0] == '}' && "["@[0] == '[' && "]"@[0] == ']');
}

// The ids of the delimiters are those of their texts, and of no other.
spec fn ids_ok(d: Delimiters, strings: Seq<Seq<char>>) -> bool {
    &&& forall|id: Sym| #[trigger] resolved(strings, id) == "("@ <==> id == d.lp
    &&& forall|id: Sym| #[trigger] resolved(strings, id) == ")"@ <==> id == d.rp
    &&& forall|id: Sym| #[trigger] resolved(strings, id) == "{"@ <==> id == d.lb
    &&& forall|id: Sym| #[trigger] resolved(strings, id) == "}"@ <==> id == d.rb
    &&& forall|id: Sym| #[trigger] resolved(strings, id) == "["@ <==> id == d.ls
    &&& forall|id: Sym| #[trigger] resolved(strings, id) == "]"@ <==> id == d.rs
}

proof fn lemma_interned_distinct(s: Seq<Seq<char>>, x: Seq<char>)
    requires
        s.no_duplicates(),
    ensures
        interned(s, x).no_duplicates(),
{
    let t = interned(s, x);
    assert forall|i: int, j: int| 0 <= i < t.len() && 0 <= j < t.len() && i != j implies t[i] != t[j] by {
        if !s.contains(x) {
            if i < s.len() && j == s.len() {
                assert(s.contains(s[i]));
            }
            if j < s.len() && i == s.len() {
                assert(s.contains(s[j]));
            }
        }
    }
}

proof fn lemma_strings_distinct(b: BuilderModel, ls: Seq<LexemeModel>, text: Seq<char>)
    requires
        b.strings.no_duplicates(),
    ensures
        with_lexemes(b, ls, text).strings.no_duplicates(),
    decreases ls.len(),
{
    if ls.len() > 0 {
        lemma_strings_distinct(b, ls.drop_last(), text);
        let before = with_lexemes(b, ls.drop_last(), text);
        let l = ls.last();
        let n = l.node;
        let w = capped_text(
            text_between(text, n.start_byte as int, n.end_byte as int),
            TEXT_LIMIT as nat,
        );
        let s1 = interned(before.strings, n.kind);
        let s2 = interned(s1, w);
        let s3 = interned(s2, l.frame.function);
        lemma_interned_distinct(before.strings, n.kind);
        lemma_interned_distinct(s1, w);
        lemma_interned_distinct(s2, l.frame.function);
        lemma_interned_distinct(s3, class_of(n.kind, n.named));
    }
}

proof fn lemma_id_of(strings: Seq<Seq<char>>, id: Sym, x: Seq<char>)
    requires
        strings.no_duplicates(),
        resolved(strings, id) == x,
        x.len() > 0,
    ensures
        forall|other: Sym| #[trigger] resolved(strings, other) == x <==> other == id,
{
    lemma_delimiter_texts();
    assert forall|other: Sym| #[trigger] resolved(strings, other) == x <==> other == id by {
        if resolved(strings, other) == x && other != id {
            assert(strings[other as int] == strings[id as int]);
        }
    }
}

proof fn lemma_delimiter_ids(strings: Seq<Seq<char>>)
    requires
        strings.no_duplicates(),
        with_delimiters(strings).0.len() < 0x1_0000_0000,
    ensures
        ids_ok(with_delimiters(strings).1, with_delimiters(strings).0),
        extends(strings, with_delimiters(strings).0),
{
    let (t, d) = with_delimiters(strings);
    let s1 = with_string(strings, "("@).0;
    let s2 = with_string(s1, ")"@).0;
    let s3 = with_string(s2, "{"@).0;
    let s4 = with_string(s3, "}"@).0;
    let s5 = with_string(s4, "["@).0;
    lemma_interned_distinct(strings, "("@);
    lemma_interned_distinct(s1, ")"@);
    lemma_interned_distinct(s2, "{"@);
    lemma_interned_distinct(s3, "}"@);
    lemma_interned_distinct(s4, "["@);
    lemma_interned_distinct(s5, "]"@);
    lemma_with_string(s5, "]"@, t);
    lemma_with_string(s4, "["@, t);
    lemma_with_string(s3, "}"@, t);
    lemma_with_string(s2, "{"@, t);
    lemma_with_string(s1, ")"@, t);
    lemma_with_string(strings, "("@, t);
    lemma_delimiter_texts();
    lemma_id_of(t, d.lp, "("@);
    lemma_id_of(t, d.rp, ")"@);
    lemma_id_of(t, d.lb, "{"@);
    lemma_id_of(t, d.rb, "}"@);
    lemma_id_of(t, d.ls, "["@);
    lemma_id_of(t, d.rs, "]"@);
}

// Over balanced tokens, linking opens and closes the same delimiters, links each one
// and leaves those before as they are.
proof fn lemma_nested_linked(
    d: Delimiters,
    tokens: Seq<Token>,
    strings: Seq<Seq<char>>,
    lo: int,
    hi: int,
)
    requires
        0 <= lo <= hi <= tokens.len() < NO_JMP,
        ids_ok(d, strings),
        well_nested(kinds_of(tokens, strings), lo, hi),
    ensures
        linked(d, tokens, hi).1 == linked(d, tokens, lo).1,
        forall|i: int|
            0 <= i < lo ==> #[trigger] linked(d, tokens, hi).0[i] == linked(d, tokens, lo).0[i],
        forall|i: int|
            lo <= i < hi && is_delimiter_kind(#[trigger] kinds_of(tokens, strings)[i]) ==> linked(
                d,
                tokens,
                hi,
            ).0[i].jmp != NO_JMP,
    decreases hi - lo,
{
    let kinds = kinds_of(tokens, strings);
    lemma_delimiter_texts();
    lemma_linked_shape(d, tokens, lo);
    if lo < hi {
        assert(kinds[lo] == resolved(strings, tokens[lo].kind));
        if !is_delimiter_kind(kinds[lo]) {
            assert(linked(d, tokens, lo + 1) == linked(d, tokens, lo));
            lemma_nested_linked(d, tokens, strings, lo + 1, hi);
        } else {
            let j = choose|j: int|
                lo < j < hi && counterparts(kinds[lo], #[trigger] kinds[j]) && well_nested(
                    kinds,
                    lo + 1,
                    j,
                ) && well_nested(kinds, j + 1, hi);
            assert(kinds[j] == resolved(strings, tokens[j].kind));
            let (ts, open) = linked(d, tokens, lo);
            assert(linked(d, tokens, lo + 1) == (ts, open.push(lo)));
            lemma_nested_linked(d, tokens, strings, lo + 1, j);
            lemma_linked_shape(d, tokens, j);
            let (us, held) = linked(d, tokens, j);
            assert(held.last() == lo);
            assert(held.drop_last() =~= open);
            assert(is_closing(d, tokens[j].kind) && !is_opening(d, tokens[j].kind));
            assert(tokens[lo].kind == opening_of(d, tokens[j].kind));
            let vs = with_link(with_link(us, lo, j), j, lo);
            assert(linked(d, tokens, j + 1) == (vs, open));
            lemma_nested_linked(d, tokens, strings, j + 1, hi);
            let (ws, left) = linked(d, tokens, hi);
            assert forall|i: int| 0 <= i < lo implies #[trigger] ws[i] == ts[i] by {
                assert(ws[i] == vs[i]);
                assert(us[i] == ts[i]);
            }
            assert forall|i: int| lo <= i < hi && is_delimiter_kind(#[trigger] kinds[i]) implies ws[i].jmp
                != NO_JMP by {
                if i <= j {
                    assert(ws[i] == vs[i]);
                }
            }
        }
    }
}

/// In a stream whose delimiters are balanced, each of them has a link.
pub proof fn balanced_delimiters_are_all_linked(root: SyntaxModel, text: Seq<char>)
    requires
        stream_of(root, text).tokens.len() < NO_JMP,
        stream_of(root, text).strings.len() < 0x1_0000_0000,
        ({
            let s = stream_of(root, text);
            well_nested(kinds_of(s.tokens, s.strings), 0, s.tokens.len() as int)
        }),
    ensures
        ({
            let s = stream_of(root, text);
            forall|i: int|
                0 <= i < s.tokens.len() && is_delimiter_kind(
                    resolved(s.strings, (#[trigger] s.tokens[i]).kind),
                ) ==> s.tokens[i].jmp != NO_JMP
        }),
{
    let empty = BuilderModel { strings: Seq::empty(), tokens: Seq::empty() };
    let ls = lexemes(root, text, outermost());
    let b = with_lexemes(empty, ls, text);
    let s = stream_of(root, text);
    let d = with_delimiters(b.strings).1;
    let n = b.tokens.len() as int;
    lemma_strings_distinct(empty, ls, text);
    lemma_delimiter_ids(b.strings);
    lemma_linked_shape(d, b.tokens, n);
    let kinds = kinds_of(s.tokens, s.strings);
    assert(kinds =~= kinds_of(b.tokens, s.strings)) by {
        assert forall|i: int| 0 <= i < n implies s.tokens[i].kind == b.tokens[i].kind by {
            assert(s.tokens[i] == (Token { jmp: s.tokens[i].jmp, ..b.tokens[i] }));
        }
    }
    lemma_nested_linked(d, b.tokens, s.strings, 0, n);
    assert forall|i: int|
        0 <= i < s.tokens.len() && is_delimiter_kind(
            resolved(s.strings, (#[trigger] s.tokens[i]).kind),
        ) implies s.tokens[i].jmp != NO_JMP by {
        assert(kinds[i] == resolved(s.strings, s.tokens[i].kind));
    }
}

/// Whether the opening delimiter at `i` is the innermost open one again at `hi`, seen
/// from `lo`: what stands between is no delimiter, a closing one that is not its
/// counterpart, or an opening one with its own counterpart further on.
pub open spec fn stays_open(kinds: Seq<Seq<char>>, i: int, lo: int, hi: int) -> bool
    decreases hi - lo,
{
    if lo >= hi {
        lo == hi
    } else if kinds[lo] == "("@ || kinds[lo] == "{"@ || kinds[lo] == "["@ {
        exists|j: int|
            lo < j < hi && counterparts(kinds[lo], #[trigger] kinds[j]) && stays_open(
                kinds,
                lo,
                lo + 1,
                j,
            ) && stays_open(kinds, i, j + 1, hi)
    } else {
        !counterparts(kinds[i], kinds[lo]) && stays_open(kinds, i, lo + 1, hi)
    }
}

// Linking over such a stretch leaves what is open and what is linked before it.
proof fn lemma_stays_open(
    d: Delimiters,
    tokens: Seq<Token>,
    strings: Seq<Seq<char>>,
    i: int,
    lo: int,
    hi: int,
)
    requires
        0 <= i < lo <= hi <= tokens.len() < NO_JMP,
        ids_ok(d, strings),
        linked(d, tokens, lo).1.len() > 0,
        linked(d, tokens, lo).1.last() == i,
        stays_open(kinds_of(tokens, strings), i, lo, hi),
    ensures
        linked(d, tokens, hi).1 == linked(d, tokens, lo).1,
        forall|k: int|
            0 <= k < lo ==> #[trigger] linked(d, tokens, hi).0[k] == linked(d, tokens, lo).0[k],
    decreases hi - lo,
{
    let kinds = kinds_of(tokens, strings);
    lemma_delimiter_texts();
    lemma_linked_shape(d, tokens, lo);
    if lo < hi {
        assert(kinds[lo] == resolved(strings, tokens[lo].kind));
        assert(kinds[i] == resolved(strings, tokens[i].kind));
        let (ts, open) = linked(d, tokens, lo);
        if kinds[lo] == "("@ || kinds[lo] == "{"@ || kinds[lo] == "["@ {
            let j = choose|j: int|
                lo < j < hi && counterparts(kinds[lo], #[trigger] kinds[j]) && stays_open(
                    kinds,
                    lo,
                    lo + 1,
                    j,
                ) && stays_open(kinds, i, j + 1, hi);
            assert(linked(d, tokens, lo + 1) == (ts, open.push(lo)));
            lemma_stays_open(d, tokens, strings, lo, lo + 1, j);
            lemma_closes(d, tokens, strings, lo, j);
            lemma_linked_shape(d, tokens, j);
            assert(open.push(lo).drop_last() =~= open);
            lemma_stays_open(d, tokens, strings, i, j + 1, hi);
            let (ws, left) = linked(d, tokens, hi);
            assert forall|k: int| 0 <= k < lo implies #[trigger] ws[k] == ts[k] by {
                assert(ws[k] == linked(d, tokens, j + 1).0[k]);
                assert(linked(d, tokens, j).0[k] == linked(d, tokens, lo + 1).0[k]);
            }
        } else {
            assert(linked(d, tokens, lo + 1) == (ts, open));
            lemma_stays_open(d, tokens, strings, i, lo + 1, hi);
            let (ws, left) = linked(d, tokens, hi);
            assert forall|k: int| 0 <= k < lo implies #[trigger] ws[k] == ts[k] by {
                assert(ws[k] == linked(d, tokens, lo + 1).0[k]);
            }
        }
    }
}

// The counterpart of the innermost open delimiter closes it.
proof fn lemma_closes(
    d: Delimiters,
    tokens: Seq<Token>,
    strings: Seq<Seq<char>>,
    i: int,
    j: int,
)
    requires
        0 <= i < j < tokens.len() < NO_JMP,
        ids_ok(d, strings),
        linked(d, tokens, j).1.len() > 0,
        linked(d, tokens, j).1.last() == i,
        counterparts(kinds_of(tokens, strings)[i], kinds_of(tokens, strings)[j]),
    ensures
        linked(d, tokens, j + 1).1 == linked(d, tokens, j).1.drop_last(),
        linked(d, tokens, j + 1).0 == with_link(with_link(linked(d, tokens, j).0, i, j), j, i),
{
    let kinds = kinds_of(tokens, strings);
    lemma_delimiter_texts();
    assert(kinds[i] == resolved(strings, tokens[i].kind));
    assert(kinds[j] == resolved(strings, tokens[j].kind));
    assert(is_closing(d, tokens[j].kind) && !is_opening(d, tokens[j].kind));
    assert(tokens[i].kind == opening_of(d, tokens[j].kind));
}

// What is linked stays linked to the same place.
proof fn lemma_links_stay(d: Delimiters, tokens: Seq<Token>, m: int, n: int, k: int)
    requires
        0 <= m <= n <= tokens.len() < NO_JMP,
        0 <= k < m,
        !linked(d, tokens, m).1.contains(k),
    ensures
        linked(d, tokens, n).0[k] == linked(d, tokens, m).0[k],
        !linked(d, tokens, n).1.contains(k),
    decreases n - m,
{
    if m < n {
        lemma_links_stay(d, tokens, m, n - 1, k);
        let (ts, open) = linked(d, tokens, n - 1);
        lemma_linked_shape(d, tokens, n - 1);
        if open.len() > 0 {
            assert(open.contains(open[open.len() - 1]));
        }
        let left = linked(d, tokens, n).1;
        if left.contains(k) {
            let q = left.index_of(k);
            assert(left[q] == k);
            assert(open[q] == k || k == n - 1);
        }
    }
}

// Counterparts with nothing left open between them are linked, whatever follows.
proof fn lemma_linked_pair(
    d: Delimiters,
    tokens: Seq<Token>,
    strings: Seq<Seq<char>>,
    i: int,
    j: int,
)
    requires
        0 <= i < j < tokens.len() < NO_JMP,
        ids_ok(d, strings),
        counterparts(kinds_of(tokens, strings)[i], kinds_of(tokens, strings)[j]),
        stays_open(kinds_of(tokens, strings), i, i + 1, j),
    ensures
        linked(d, tokens, tokens.len() as int).0[i].jmp == j,
        linked(d, tokens, tokens.len() as int).0[j].jmp == i,
{
    let kinds = kinds_of(tokens, strings);
    let n = tokens.len() as int;
    lemma_delimiter_texts();
    lemma_linked_shape(d, tokens, i);
    assert(kinds[i] == resolved(strings, tokens[i].kind));
    assert(is_opening(d, tokens[i].kind));
    let open = linked(d, tokens, i).1;
    assert(linked(d, tokens, i + 1).1 == open.push(i));
    lemma_stays_open(d, tokens, strings, i, i + 1, j);
    lemma_linked_shape(d, tokens, j);
    lemma_closes(d, tokens, strings, i, j);
    assert(open.push(i).drop_last() =~= open);
    let (ts, left) = linked(d, tokens, j + 1);
    assert(ts[i].jmp == j && ts[j].jmp == i);
    if left.contains(i) {
        let q = left.index_of(i);
        assert(open[q] == i);
    }
    if left.contains(j) {
        let q = left.index_of(j);
        assert(open[q] == j);
    }
    lemma_links_stay(d, tokens, j + 1, n, i);
    lemma_links_stay(d, tokens, j + 1, n, j);
}

/// An opening delimiter is linked with a later one, and that one with it, where the two
/// are counterparts and everything between closes itself or is a closing delimiter that
/// fits nothing open. Nothing before or after the two bears on it.
pub proof fn delimiters_link_over_what_they_enclose(
    root: SyntaxModel,
    text: Seq<char>,
    i: int,
    j: int,
)
    requires
        stream_of(root, text).tokens.len() < NO_JMP,
        stream_of(root, text).strings.len() < 0x1_0000_0000,
        ({
            let s = stream_of(root, text);
            let kinds = kinds_of(s.tokens, s.strings);
            &&& 0 <= i < j < s.tokens.len()
            &&& counterparts(kinds[i], kinds[j])
            &&& stays_open(kinds, i, i + 1, j)
        }),
    ensures
        stream_of(root, text).tokens[i].jmp == j,
        stream_of(root, text).tokens[j].jmp == i,
{
    let empty = BuilderModel { strings: Seq::empty(), tokens: Seq::empty() };
    let ls = lexemes(root, text, outermost());
    let b = with_lexemes(empty, ls, text);
    let s = stream_of(root, text);
    let d = with_delimiters(b.strings).1;
    let n = b.tokens.len() as int;
    lemma_strings_distinct(empty, ls, text);
    lemma_delimiter_ids(b.strings);
    lemma_linked_shape(d, b.tokens, n);
    let kinds = kinds_of(s.tokens, s.strings);
    assert(kinds =~= kinds_of(b.tokens, s.strings)) by {
        assert forall|k: int| 0 <= k < n implies s.tokens[k].kind == b.tokens[k].kind by {
            assert(s.tokens[k] == (Token { jmp: s.tokens[k].jmp, ..b.tokens[k] }));
        }
    }
    lemma_linked_pair(d, b.tokens, s.strings, i, j);
}

} // verus!
