//! From a syntax tree to the lexemes of a file.

use vstd::prelude::*;
use vstd::utf8::*;

use crate::compile::concat;
use crate::frontend::{
    all_lexemes,
    capped_text,
    class_of,
    grammar_of,
    inner_frame,
    is_ts_js,
    lexed_as,
    lexemes,
    outermost,
    stream_of,
    text_between,
    tokens_show_their_lexemes,
    FrameModel,
    LexemeModel,
};
use crate::outside::{path_parts, Grammar, PartModel};
use crate::paths::extension_of;
use crate::syntax::{parsed_tree, SyntaxModel};
use crate::token::{language_of_extension, token_model, Language, TokenModel, TokenStream};

verus! {

/// Whether a node is one lexeme: a string or template literal, or a leaf.
pub open spec fn atomic(n: SyntaxModel) -> bool {
    n.kind == "string"@ || n.kind == "template_string"@ || n.children.len() == 0
}

/// Whether a kind is that of a function that may have a name.
pub open spec fn names_function(kind: Seq<char>) -> bool {
    ||| kind == "function_declaration"@
    ||| kind == "function_signature"@
    ||| kind == "generator_function_declaration"@
    ||| kind == "method_definition"@
}

/// Whether what stands directly below a node in one frame stands in another: one deeper in
/// braces below a block or the body of a class, one deeper in parentheses below arguments,
/// parameters or a parenthesized expression, one deeper in brackets below an array or an
/// array pattern, and in the function of the node's name below a function that has one.
pub open spec fn stands_below(
    n: SyntaxModel,
    text: Seq<char>,
    outer: FrameModel,
    inner: FrameModel,
) -> bool {
    let k = n.kind;
    &&& (k == "statement_block"@ || k == "class_body"@) ==> inner.curly == outer.curly + 1
    &&& !(k == "statement_block"@ || k == "class_body"@) ==> inner.curly == outer.curly
    &&& (k == "arguments"@ || k == "formal_parameters"@ || k == "parenthesized_expression"@)
        ==> inner.round == outer.round + 1
    &&& !(k == "arguments"@ || k == "formal_parameters"@ || k == "parenthesized_expression"@)
        ==> inner.round == outer.round
    &&& (k == "array"@ || k == "array_pattern"@) ==> inner.bracket == outer.bracket + 1
    &&& !(k == "array"@ || k == "array_pattern"@) ==> inner.bracket == outer.bracket
    &&& names_function(k) && n.name is Some ==> inner.function == text_between(
        text,
        (n.name->0).0 as int,
        (n.name->0).1 as int,
    )
    &&& !(names_function(k) && n.name is Some) ==> inner.function == outer.function
}

/// A string or template literal and a leaf are one lexeme each. Any other node has the
/// lexemes of its children, in order, which stand directly below it.
pub proof fn lexemes_are_those_of_the_children(n: SyntaxModel, text: Seq<char>, f: FrameModel)
    ensures
        atomic(n) ==> lexemes(n, text, f) == seq![LexemeModel { node: n, frame: f }],
        !atomic(n) ==> exists|g: FrameModel|
            #[trigger] stands_below(n, text, f, g) && lexemes(n, text, f) == concat(
                n.children.map_values(|c: SyntaxModel| lexemes(c, text, g)),
            ),
{
    let g = inner_frame(n, text, f);
    assert(stands_below(n, text, f, g));
    if !atomic(n) {
        lemma_all(n.children, text, g);
    }
}

proof fn lemma_all(ns: Seq<SyntaxModel>, text: Seq<char>, g: FrameModel)
    ensures
        all_lexemes(ns, text, g) == concat(
            ns.map_values(|c: SyntaxModel| lexemes(c, text, g)),
        ),
    decreases ns.len(),
{
    let lists = ns.map_values(|c: SyntaxModel| lexemes(c, text, g));
    if ns.len() > 0 {
        lemma_all(ns.drop_last(), text, g);
        assert(lists.drop_last() =~= ns.drop_last().map_values(
            |c: SyntaxModel| lexemes(c, text, g),
        ));
        assert(lists.last() == lexemes(ns.last(), text, g));
    } else {
        assert(lists =~= Seq::<Seq<LexemeModel>>::empty());
    }
}

/// A lexeme directly below a function with a name is in that function, whatever kind of
/// function it is; directly below any other node it is in the function that the node is in.
pub proof fn lexemes_know_their_function(n: SyntaxModel, text: Seq<char>, f: FrameModel, i: int)
    requires
        !atomic(n),
        0 <= i < n.children.len(),
        atomic(n.children[i]),
    ensures
        exists|l: LexemeModel|
            #[trigger] lexemes(n, text, f).contains(l) && l.node == n.children[i]
                && l.frame.function == (if n.name is Some && (n.kind == "function_declaration"@
                || n.kind == "function_signature"@ || n.kind == "generator_function_declaration"@
                || n.kind == "method_definition"@) {
                text_between(text, (n.name->0).0 as int, (n.name->0).1 as int)
            } else {
                f.function
            }),
{
    lexemes_are_those_of_the_children(n, text, f);
    let g = choose|g: FrameModel|
        #[trigger] stands_below(n, text, f, g) && lexemes(n, text, f) == concat(
            n.children.map_values(|c: SyntaxModel| lexemes(c, text, g)),
        );
    let lists = n.children.map_values(|c: SyntaxModel| lexemes(c, text, g));
    let c = n.children[i];
    let l = LexemeModel { node: c, frame: g };
    lexemes_are_those_of_the_children(c, text, g);
    assert(lists[i] == seq![l]);
    assert(lists[i][0] == l);
    assert(lists[i].contains(l));
    crate::laws::lists::concat_holds_all(lists, l);
    assert(lexemes(n, text, f).contains(l));
}

/// The class of a lexeme, by its kind.
pub open spec fn lexeme_class(kind: Seq<char>, named: bool) -> Seq<char> {
    if kind == "identifier"@ {
        "ident"@
    } else if kind == "property_identifier"@ || kind == "shorthand_property_identifier"@ {
        "prop"@
    } else if kind == "number"@ {
        "num"@
    } else if kind == "string"@ || kind == "template_string"@ {
        "str"@
    } else if kind == "true"@ || kind == "false"@ {
        "bool"@
    } else if kind == "regex"@ || kind == "null"@ || kind == "undefined"@ || kind == "comment"@ {
        kind
    } else if named {
        "other"@
    } else {
        "symbol"@
    }
}

/// A text in at most 120 characters, of which the last is an ellipsis where it was cut.
pub open spec fn shortened(s: Seq<char>) -> Seq<char> {
    if s.len() > 120 {
        s.subrange(0, 119) + seq!['…']
    } else {
        s
    }
}

/// The smaller of a depth and the largest that a token can hold.
pub open spec fn at_most_65535(n: nat) -> nat {
    if n < 65535 {
        n
    } else {
        65535
    }
}

/// Whether a token shows a lexeme of a text: its kind, its text shortened to what a token
/// holds, its class, its function, where it stands, with lines and columns counted from one,
/// and how deep.
pub open spec fn presents(t: TokenModel, l: LexemeModel, text: Seq<char>) -> bool {
    let n = l.node;
    &&& t.kind == n.kind
    &&& t.text == shortened(text_between(text, n.start_byte as int, n.end_byte as int))
    &&& t.class == lexeme_class(n.kind, n.named)
    &&& t.func == l.frame.function
    &&& t.token.named == n.named
    &&& n.start_byte < 0x1_0000_0000 ==> t.token.start_byte == n.start_byte
    &&& n.end_byte < 0x1_0000_0000 ==> t.token.end_byte == n.end_byte
    &&& n.start_row < 0xffff_ffff ==> t.token.start_line == n.start_row + 1
    &&& n.start_col < 0xffff_ffff ==> t.token.start_col == n.start_col + 1
    &&& n.end_row < 0xffff_ffff ==> t.token.end_line == n.end_row + 1
    &&& n.end_col < 0xffff_ffff ==> t.token.end_col == n.end_col + 1
    &&& t.token.curly == at_most_65535(l.frame.curly)
    &&& t.token.round == at_most_65535(l.frame.round)
    &&& t.token.bracket == at_most_65535(l.frame.bracket)
}

/// A file has one token for each lexeme of its tree, in order, which shows the lexeme; the
/// root stands at no depth and in no function.
pub proof fn tokens_present_the_lexemes(root: SyntaxModel, text: Seq<char>, i: int)
    requires
        stream_of(root, text).strings.len() < 0x1_0000_0000,
    ensures
        ({
            let top = FrameModel { curly: 0, round: 0, bracket: 0, function: Seq::empty() };
            let ls = lexemes(root, text, top);
            let s = stream_of(root, text);
            &&& s.tokens.len() == ls.len()
            &&& 0 <= i < ls.len() ==> presents(token_model(s.tokens[i], s.strings), ls[i], text)
        }),
{
    reveal_strlit("");
    let top = FrameModel { curly: 0, round: 0, bracket: 0, function: Seq::empty() };
    assert(""@ =~= Seq::<char>::empty());
    assert(outermost() == top);
    tokens_show_their_lexemes(root, text);
    let ls = lexemes(root, text, top);
    let s = stream_of(root, text);
    if 0 <= i < ls.len() {
        let t = token_model(s.tokens[i], s.strings);
        assert(crate::frontend::shows(t, ls[i], text));
        lemma_presents(t, ls[i], text);
    }
}

proof fn lemma_presents(t: TokenModel, l: LexemeModel, text: Seq<char>)
    requires
        crate::frontend::shows(t, l, text),
    ensures
        presents(t, l, text),
{
    let n = l.node;
    let w = text_between(text, n.start_byte as int, n.end_byte as int);
    assert(capped_text(w, 120) == shortened(w)) by {
        if w.len() > 120 {
            assert(w.take(119).push('…') =~= w.subrange(0, 119) + seq!['…']);
        }
    }
    lemma_class(n.kind, n.named);
}

proof fn lemma_class(kind: Seq<char>, named: bool)
    ensures
        class_of(kind, named) == lexeme_class(kind, named),
{
}

/// The text of a lexeme is that of its bytes in the file.
pub proof fn texts_are_the_bytes_of_the_file(s: Seq<char>, lo: int, hi: int)
    requires
        0 <= lo <= hi,
        is_char_boundary(encode_utf8(s), lo),
        is_char_boundary(encode_utf8(s), hi),
    ensures
        hi <= encode_utf8(s).len(),
        encode_utf8(text_between(s, lo, hi)) == encode_utf8(s).subrange(lo, hi),
{
    let bytes = encode_utf8(s);
    encode_utf8_valid_utf8(s);
    crate::frontend::lemma_boundary_inside(bytes, lo, hi);
    let head = bytes.subrange(0, hi);
    valid_utf8_split(bytes, hi);
    valid_utf8_split(head, lo);
    assert(head.subrange(lo, head.len() as int) =~= bytes.subrange(lo, hi));
    decode_utf8_encode_utf8(bytes.subrange(lo, hi));
}

/// The grammar and the language go by the extension: TypeScript for `ts`, `mts` and `cts`,
/// TypeScript with JSX for `tsx`, and JavaScript for the rest. The frontend takes the files
/// with these extensions, and `js`, `jsx`, `mjs` and `cjs`, and no others.
pub proof fn extensions_settle_the_grammar(ext: Seq<char>)
    ensures
        grammar_of(Some(ext)) == (if ext == "tsx"@ {
            (Language::Typescript, Grammar::Tsx)
        } else if ext == "ts"@ || ext == "mts"@ || ext == "cts"@ {
            (Language::Typescript, Grammar::Typescript)
        } else {
            (Language::Javascript, Grammar::Javascript)
        }),
        is_ts_js(Some(ext)) <==> ext == "ts"@ || ext == "tsx"@ || ext == "mts"@ || ext == "cts"@
            || ext == "js"@ || ext == "jsx"@ || ext == "mjs"@ || ext == "cjs"@,
        !is_ts_js(None),
        is_ts_js(Some(ext)) ==> language_of_extension(ext) == Some(grammar_of(Some(ext)).0),
{
    reveal_strlit("ts");
    reveal_strlit("tsx");
    reveal_strlit("mts");
    reveal_strlit("cts");
    reveal_strlit("js");
    reveal_strlit("jsx");
    reveal_strlit("mjs");
    reveal_strlit("cjs");
    reveal_strlit("go");
    reveal_strlit("py");
    reveal_strlit("rs");
    assert("ts"@[0] == 't' && "tsx"@[0] == 't' && "mts"@[0] == 'm' && "cts"@[0] == 'c');
    assert("js"@[0] == 'j' && "jsx"@[0] == 'j' && "mjs"@[0] == 'm' && "cjs"@[0] == 'c');
    assert("mts"@[1] == 't' && "mjs"@[1] == 'j' && "cts"@[1] == 't' && "cjs"@[1] == 'j');
}

/// The extension of a file is what follows the last dot of its name, unless that dot comes
/// first.
pub proof fn extensions_follow_the_last_dot(path: Seq<char>, stem: Seq<char>, ext: Seq<char>)
    requires
        path_parts(path).len() > 0,
        path_parts(path).last() == PartModel::Name(stem + seq!['.'] + ext),
        !ext.contains('.'),
    ensures
        extension_of(path) == (if stem.len() > 0 {
            Some(ext)
        } else {
            None
        }),
{
    let name = stem + seq!['.'] + ext;
    lemma_last_dot(name, stem.len() as int, name.len() as int);
    assert(name.skip(stem.len() as int + 1) =~= ext);
}

proof fn lemma_last_dot(s: Seq<char>, p: int, n: int)
    requires
        0 <= p < n <= s.len(),
        s[p] == '.',
        forall|i: int| p < i < n ==> s[i] != '.',
    ensures
        crate::paths::last_dot(s, n) == Some(p),
    decreases n,
{
    if n - 1 > p {
        lemma_last_dot(s, p, n - 1);
    }
}

/// A file that is lexed keeps its path, has the language of its extension, and holds the
/// tokens of the tree that the grammar of its extension makes of its text.
pub proof fn files_lex_by_their_extension(
    path: Seq<char>,
    text: Seq<char>,
    ts: TokenStream,
    ext: Seq<char>,
    root: SyntaxModel,
)
    requires
        lexed_as(path, text, Ok(ts)),
        extension_of(path) == Some(ext),
    ensures
        ts.file@ == path,
        ext == "ts"@ || ext == "tsx"@ || ext == "mts"@ || ext == "cts"@ ==> ts.language
            == Language::Typescript,
        ext == "js"@ || ext == "jsx"@ || ext == "mjs"@ || ext == "cjs"@ ==> ts.language
            == Language::Javascript,
        ext == "tsx"@ && parsed_tree(Grammar::Tsx, text) == Ok::<SyntaxModel, Option<Seq<char>>>(
            root,
        ) ==> ts.tokens@ == stream_of(root, text).tokens && ts.interner@ == stream_of(
            root,
            text,
        ).strings,
        (ext == "ts"@ || ext == "mts"@ || ext == "cts"@) && parsed_tree(Grammar::Typescript, text)
            == Ok::<SyntaxModel, Option<Seq<char>>>(root) ==> ts.tokens@ == stream_of(
            root,
            text,
        ).tokens && ts.interner@ == stream_of(root, text).strings,
        (ext == "js"@ || ext == "jsx"@ || ext == "mjs"@ || ext == "cjs"@) && parsed_tree(
            Grammar::Javascript,
            text,
        ) == Ok::<SyntaxModel, Option<Seq<char>>>(root) ==> ts.tokens@ == stream_of(
            root,
            text,
        ).tokens && ts.interner@ == stream_of(root, text).strings,
{
    lemma_extensions_differ();
}

proof fn lemma_extensions_differ()
    ensures
        "ts"@ != "tsx"@ && "mts"@ != "tsx"@ && "cts"@ != "tsx"@,
        "js"@ != "tsx"@ && "jsx"@ != "tsx"@ && "mjs"@ != "tsx"@ && "cjs"@ != "tsx"@,
        "js"@ != "ts"@ && "jsx"@ != "ts"@ && "mjs"@ != "ts"@ && "cjs"@ != "ts"@,
        "js"@ != "mts"@ && "jsx"@ != "mts"@ && "mjs"@ != "mts"@ && "cjs"@ != "mts"@,
        "js"@ != "cts"@ && "jsx"@ != "cts"@ && "mjs"@ != "cts"@ && "cjs"@ != "cts"@,
{
    reveal_strlit("ts");
    reveal_strlit("tsx");
    reveal_strlit("mts");
    reveal_strlit("cts");
    reveal_strlit("js");
    reveal_strlit("jsx");
    reveal_strlit("mjs");
    reveal_strlit("cjs");
    assert("ts"@.len() == 2 && "tsx"@.len() == 3 && "mts"@.len() == 3 && "cts"@.len() == 3);
    assert("js"@.len() == 2 && "jsx"@.len() == 3 && "mjs"@.len() == 3 && "cjs"@.len() == 3);
    assert("ts"@[0] == 't' && "tsx"@[0] == 't' && "mts"@[0] == 'm' && "cts"@[0] == 'c');
    assert("js"@[0] == 'j' && "jsx"@[0] == 'j' && "mjs"@[0] == 'm' && "cjs"@[0] == 'c');
    assert("mts"@[1] == 't' && "mjs"@[1] == 'j' && "cts"@[1] == 't' && "cjs"@[1] == 'j');
}


} // verus!
