//! The lexer of the textual rule grammar.

use vstd::prelude::*;

use crate::outside::{debug_string, debug_text};
use crate::text::{
    decimal,
    decimal_of,
    digit_ok,
    is_digit,
    is_white,
    join2,
    join3,
    slice_text,
    to_chars,
    white,
};

verus! {

/// Punctuation and operators of the rule grammar.
#[derive(Debug, Clone, Copy, PartialEq, Eq, Structural)]
pub enum Mark {
    LBrace,
    RBrace,
    LBrack,
    RBrack,
    LParen,
    RParen,
    Comma,
    Eq,
    EqEq,
    Ne,
    Ge,
    Le,
    Gt,
    Lt,
    Tilde,
    NotTilde,
    Star,
    Plus,
    Question,
    Pipe,
    Amp,
    Dollar,
    Dot,
    Caret,
}

/// The name of a mark, as error messages show it.
pub open spec fn mark_name(m: Mark) -> Seq<char> {
    match m {
        Mark::LBrace => "LBrace"@,
        Mark::RBrace => "RBrace"@,
        Mark::LBrack => "LBrack"@,
        Mark::RBrack => "RBrack"@,
        Mark::LParen => "LParen"@,
        Mark::RParen => "RParen"@,
        Mark::Comma => "Comma"@,
        Mark::Eq => "Eq"@,
        Mark::EqEq => "EqEq"@,
        Mark::Ne => "Ne"@,
        Mark::Ge => "Ge"@,
        Mark::Le => "Le"@,
        Mark::Gt => "Gt"@,
        Mark::Lt => "Lt"@,
        Mark::Tilde => "Tilde"@,
        Mark::NotTilde => "NotTilde"@,
        Mark::Star => "Star"@,
        Mark::Plus => "Plus"@,
        Mark::Question => "Question"@,
        Mark::Pipe => "Pipe"@,
        Mark::Amp => "Amp"@,
        Mark::Dollar => "Dollar"@,
        Mark::Dot => "Dot"@,
        Mark::Caret => "Caret"@,
    }
}

/// The name of a mark.
pub fn show_mark(m: Mark) -> (r: &'static str)
    ensures
        r@ == mark_name(m),
{
    match m {
        Mark::LBrace => "LBrace",
        Mark::RBrace => "RBrace",
        Mark::LBrack => "LBrack",
        Mark::RBrack => "RBrack",
        Mark::LParen => "LParen",
        Mark::RParen => "RParen",
        Mark::Comma => "Comma",
        Mark::Eq => "Eq",
        Mark::EqEq => "EqEq",
        Mark::Ne => "Ne",
        Mark::Ge => "Ge",
        Mark::Le => "Le",
        Mark::Gt => "Gt",
        Mark::Lt => "Lt",
        Mark::Tilde => "Tilde",
        Mark::NotTilde => "NotTilde",
        Mark::Star => "Star",
        Mark::Plus => "Plus",
        Mark::Question => "Question",
        Mark::Pipe => "Pipe",
        Mark::Amp => "Amp",
        Mark::Dollar => "Dollar",
        Mark::Dot => "Dot",
        Mark::Caret => "Caret",
    }
}

/// A token of the rule grammar.
#[derive(Debug)]
pub enum Tok {
    Ident(String),
    Str(String),
    Regex(String),
    /// A `@class` token-class matcher: `@ident`, `@str`, `@num`, …
    TypeClass(String),
    Num(String),
    /// `x:`, which binds what follows to `x`.
    Bind(String),
    /// `:x`, which stands for what was bound to `x`.
    Ref(String),
    /// Punctuation or an operator.
    Mark(Mark),
}

/// The model of [`Tok`].
pub enum TokModel {
    Ident(Seq<char>),
    Str(Seq<char>),
    Regex(Seq<char>),
    TypeClass(Seq<char>),
    Num(Seq<char>),
    Bind(Seq<char>),
    Ref(Seq<char>),
    Mark(Mark),
}

impl View for Tok {
    type V = TokModel;

    open spec fn view(&self) -> TokModel {
        match *self {
            Tok::Ident(s) => TokModel::Ident(s@),
            Tok::Str(s) => TokModel::Str(s@),
            Tok::Regex(s) => TokModel::Regex(s@),
            Tok::TypeClass(s) => TokModel::TypeClass(s@),
            Tok::Num(s) => TokModel::Num(s@),
            Tok::Bind(s) => TokModel::Bind(s@),
            Tok::Ref(s) => TokModel::Ref(s@),
            Tok::Mark(m) => TokModel::Mark(m),
        }
    }
}

/// A token as error messages show it.
pub open spec fn tok_debug(t: TokModel) -> Seq<char> {
    match t {
        TokModel::Ident(s) => "Ident("@ + debug_text(s) + ")"@,
        TokModel::Str(s) => "Str("@ + debug_text(s) + ")"@,
        TokModel::Regex(s) => "Regex("@ + debug_text(s) + ")"@,
        TokModel::TypeClass(s) => "TypeClass("@ + debug_text(s) + ")"@,
        TokModel::Num(s) => "Num("@ + debug_text(s) + ")"@,
        TokModel::Bind(s) => "Bind("@ + debug_text(s) + ")"@,
        TokModel::Ref(s) => "Ref("@ + debug_text(s) + ")"@,
        TokModel::Mark(m) => mark_name(m),
    }
}

fn show(head: &str, s: &String) -> (r: String)
    ensures
        r@ == head@ + debug_text(s@) + ")"@,
{
    let d = debug_string(s.as_str());
    join3(head, d.as_str(), ")")
}

/// Writes a token as error messages show it.
pub fn show_tok(t: &Tok) -> (r: String)
    ensures
        r@ == tok_debug(t@),
{
    match t {
        Tok::Ident(s) => show("Ident(", s),
        Tok::Str(s) => show("Str(", s),
        Tok::Regex(s) => show("Regex(", s),
        Tok::TypeClass(s) => show("TypeClass(", s),
        Tok::Num(s) => show("Num(", s),
        Tok::Bind(s) => show("Bind(", s),
        Tok::Ref(s) => show("Ref(", s),
        Tok::Mark(m) => show_mark(*m).to_owned(),
    }
}

// ---------------------------------------------------------------------------
// Characters and runs of characters
// ---------------------------------------------------------------------------

/// Whether a name can begin with a character.
pub open spec fn ident_start(c: char) -> bool {
    'a' <= c <= 'z' || 'A' <= c <= 'Z' || c == '_'
}

/// Whether a name can hold a character.
pub open spec fn ident_char(c: char) -> bool {
    ident_start(c) || digit_ok(c)
}

fn is_ident_start(c: char) -> (r: bool)
    ensures
        r == ident_start(c),
{
    ('a' <= c && c <= 'z') || ('A' <= c && c <= 'Z') || c == '_'
}

fn is_ident_char(c: char) -> (r: bool)
    ensures
        r == ident_char(c),
{
    is_ident_start(c) || is_digit(c)
}

/// The end of the run of name characters from `i` on.
pub open spec fn name_end(s: Seq<char>, i: int) -> int
    decreases s.len() - i,
{
    if 0 <= i < s.len() && ident_char(s[i]) {
        name_end(s, i + 1)
    } else {
        i
    }
}

/// The end of the run of digits and dots from `i` on.
pub open spec fn num_end(s: Seq<char>, i: int) -> int
    decreases s.len() - i,
{
    if 0 <= i < s.len() && (digit_ok(s[i]) || s[i] == '.') {
        num_end(s, i + 1)
    } else {
        i
    }
}

/// The end of the line that holds `i`.
pub open spec fn line_end(s: Seq<char>, i: int) -> int
    decreases s.len() - i,
{
    if 0 <= i < s.len() && s[i] != '\n' {
        line_end(s, i + 1)
    } else {
        i
    }
}

/// A literal's text with a prefix, and where it ends.
pub open spec fn prefixed(p: Seq<char>, r: Option<(Seq<char>, int)>) -> Option<(Seq<char>, int)> {
    match r {
        Some((t, n)) => Some((p + t, n)),
        None => None,
    }
}

/// The text of a string literal from `i` on, and the position after its closing
/// quote. A backslash stands for the character after it.
pub open spec fn string_at(s: Seq<char>, i: int) -> Option<(Seq<char>, int)>
    decreases s.len() - i,
{
    if i < 0 || i >= s.len() {
        None
    } else if s[i] == '"' {
        Some((Seq::empty(), i + 1))
    } else if s[i] == '\\' && i + 1 < s.len() {
        prefixed(seq![s[i + 1]], string_at(s, i + 2))
    } else {
        prefixed(seq![s[i]], string_at(s, i + 1))
    }
}

/// The text of a regex literal from `i` on, and the position after its closing
/// slash. An escaped slash is a slash; any other escape stays as it is.
pub open spec fn regex_at(s: Seq<char>, i: int) -> Option<(Seq<char>, int)>
    decreases s.len() - i,
{
    if i < 0 || i >= s.len() {
        None
    } else if s[i] == '/' {
        Some((Seq::empty(), i + 1))
    } else if s[i] == '\\' && i + 1 < s.len() {
        if s[i + 1] == '/' {
            prefixed(seq!['/'], regex_at(s, i + 2))
        } else {
            prefixed(seq!['\\', s[i + 1]], regex_at(s, i + 2))
        }
    } else {
        prefixed(seq![s[i]], regex_at(s, i + 1))
    }
}

/// An error at a line; rows are counted from zero and lines from one.
pub open spec fn line_fault(row: nat, msg: Seq<char>) -> Seq<char> {
    "line "@ + decimal_of(row + 1) + ": "@ + msg
}

/// Writes an error at a line.
pub fn at_line(row: usize, msg: &str) -> (r: String)
    ensures
        r@ == line_fault(row as nat, msg@),
{
    let n = decimal((row as u128) + 1);
    let head = join3("line ", n.as_str(), ": ");
    join2(head.as_str(), msg)
}

fn read_string(b: &Vec<char>, start: usize) -> (r: Option<(String, usize)>)
    requires
        start <= b@.len(),
    ensures
        match r {
            Some((t, n)) => string_at(b@, start as int) == Some((t@, n as int)) && start < n <= b@.len(),
            None => string_at(b@, start as int) is None,
        },
{
    let mut s = String::new();
    let mut i: usize = start;
    assert(forall|r: Option<(Seq<char>, int)>| prefixed(Seq::empty(), r) == r) by {
        assert forall|r: Option<(Seq<char>, int)>| prefixed(Seq::empty(), r) == r by {
            if let Some((t, n)) = r {
                assert(Seq::<char>::empty() + t =~= t);
            }
        }
    }
    while i < b.len()
        invariant
            start <= i <= b@.len(),
            string_at(b@, start as int) == prefixed(s@, string_at(b@, i as int)),
        decreases b@.len() - i,
    {
        let ghost before = s@;
        let ghost rest1 = string_at(b@, i + 1);
        let ghost rest2 = string_at(b@, i + 2);
        if b[i] == '"' {
            assert(s@ + Seq::<char>::empty() =~= s@);
            return Some((s, i + 1));
        }
        if b[i] == '\\' && b.len() - i > 1 {
            s.push(b[i + 1]);
            proof {
                if let Some((t, n)) = rest2 {
                    assert(before + (seq![b@[i + 1]] + t) =~= s@ + t);
                }
            }
            i += 2;
        } else {
            s.push(b[i]);
            proof {
                if let Some((t, n)) = rest1 {
                    assert(before + (seq![b@[i as int]] + t) =~= s@ + t);
                }
            }
            i += 1;
        }
    }
    None
}

fn read_regex(b: &Vec<char>, start: usize) -> (r: Option<(String, usize)>)
    requires
        start <= b@.len(),
    ensures
        match r {
            Some((t, n)) => regex_at(b@, start as int) == Some((t@, n as int)) && start < n <= b@.len(),
            None => regex_at(b@, start as int) is None,
        },
{
    let mut s = String::new();
    let mut i: usize = start;
    assert(forall|r: Option<(Seq<char>, int)>| prefixed(Seq::empty(), r) == r) by {
        assert forall|r: Option<(Seq<char>, int)>| prefixed(Seq::empty(), r) == r by {
            if let Some((t, n)) = r {
                assert(Seq::<char>::empty() + t =~= t);
            }
        }
    }
    while i < b.len()
        invariant
            start <= i <= b@.len(),
            regex_at(b@, start as int) == prefixed(s@, regex_at(b@, i as int)),
        decreases b@.len() - i,
    {
        let ghost before = s@;
        let ghost rest1 = regex_at(b@, i + 1);
        let ghost rest2 = regex_at(b@, i + 2);
        if b[i] == '/' {
            assert(s@ + Seq::<char>::empty() =~= s@);
            return Some((s, i + 1));
        }
        if b[i] == '\\' && b.len() - i > 1 {
            if b[i + 1] == '/' {
                s.push('/');
                proof {
                    if let Some((t, n)) = rest2 {
                        assert(before + (seq!['/'] + t) =~= s@ + t);
                    }
                }
            } else {
                s.push('\\');
                s.push(b[i + 1]);
                proof {
                    if let Some((t, n)) = rest2 {
                        assert(before + (seq!['\\', b@[i + 1]] + t) =~= s@ + t);
                    }
                }
            }
            i += 2;
        } else {
            s.push(b[i]);
            proof {
                if let Some((t, n)) = rest1 {
                    assert(before + (seq![b@[i as int]] + t) =~= s@ + t);
                }
            }
            i += 1;
        }
    }
    None
}

fn find_name_end(b: &Vec<char>, start: usize) -> (r: usize)
    requires
        start <= b@.len(),
    ensures
        r == name_end(b@, start as int),
        start <= r <= b@.len(),
{
    let mut i: usize = start;
    while i < b.len() && is_ident_char(b[i])
        invariant
            start <= i <= b@.len(),
            name_end(b@, start as int) == name_end(b@, i as int),
        decreases b@.len() - i,
    {
        i += 1;
    }
    i
}

fn find_num_end(b: &Vec<char>, start: usize) -> (r: usize)
    requires
        start <= b@.len(),
    ensures
        r == num_end(b@, start as int),
        start <= r <= b@.len(),
{
    let mut i: usize = start;
    while i < b.len() && (is_digit(b[i]) || b[i] == '.')
        invariant
            start <= i <= b@.len(),
            num_end(b@, start as int) == num_end(b@, i as int),
        decreases b@.len() - i,
    {
        i += 1;
    }
    i
}

fn find_line_end(b: &Vec<char>, start: usize) -> (r: usize)
    requires
        start <= b@.len(),
    ensures
        r == line_end(b@, start as int),
        start <= r <= b@.len(),
{
    let mut i: usize = start;
    while i < b.len() && b[i] != '\n'
        invariant
            start <= i <= b@.len(),
            line_end(b@, start as int) == line_end(b@, i as int),
        decreases b@.len() - i,
    {
        i += 1;
    }
    i
}

// ---------------------------------------------------------------------------
// Tokens
// ---------------------------------------------------------------------------

/// The token of a character that is a token by itself, whatever follows it.
pub open spec fn single(c: char) -> Option<TokModel> {
    if c == '{' {
        Some(TokModel::Mark(Mark::LBrace))
    } else if c == '}' {
        Some(TokModel::Mark(Mark::RBrace))
    } else if c == '[' {
        Some(TokModel::Mark(Mark::LBrack))
    } else if c == ']' {
        Some(TokModel::Mark(Mark::RBrack))
    } else if c == '(' {
        Some(TokModel::Mark(Mark::LParen))
    } else if c == ')' {
        Some(TokModel::Mark(Mark::RParen))
    } else if c == ',' {
        Some(TokModel::Mark(Mark::Comma))
    } else if c == '|' {
        Some(TokModel::Mark(Mark::Pipe))
    } else if c == '&' {
        Some(TokModel::Mark(Mark::Amp))
    } else if c == '$' {
        Some(TokModel::Mark(Mark::Dollar))
    } else if c == '*' {
        Some(TokModel::Mark(Mark::Star))
    } else if c == '+' {
        Some(TokModel::Mark(Mark::Plus))
    } else if c == '?' {
        Some(TokModel::Mark(Mark::Question))
    } else if c == '~' {
        Some(TokModel::Mark(Mark::Tilde))
    } else if c == '.' {
        Some(TokModel::Mark(Mark::Dot))
    } else if c == '^' {
        Some(TokModel::Mark(Mark::Caret))
    } else {
        None
    }
}

fn read_single(c: char) -> (r: Option<Tok>)
    ensures
        match r {
            Some(t) => single(c) == Some(t@),
            None => single(c) is None,
        },
{
    if c == '{' {
        Some(Tok::Mark(Mark::LBrace))
    } else if c == '}' {
        Some(Tok::Mark(Mark::RBrace))
    } else if c == '[' {
        Some(Tok::Mark(Mark::LBrack))
    } else if c == ']' {
        Some(Tok::Mark(Mark::RBrack))
    } else if c == '(' {
        Some(Tok::Mark(Mark::LParen))
    } else if c == ')' {
        Some(Tok::Mark(Mark::RParen))
    } else if c == ',' {
        Some(Tok::Mark(Mark::Comma))
    } else if c == '|' {
        Some(Tok::Mark(Mark::Pipe))
    } else if c == '&' {
        Some(Tok::Mark(Mark::Amp))
    } else if c == '$' {
        Some(Tok::Mark(Mark::Dollar))
    } else if c == '*' {
        Some(Tok::Mark(Mark::Star))
    } else if c == '+' {
        Some(Tok::Mark(Mark::Plus))
    } else if c == '?' {
        Some(Tok::Mark(Mark::Question))
    } else if c == '~' {
        Some(Tok::Mark(Mark::Tilde))
    } else if c == '.' {
        Some(Tok::Mark(Mark::Dot))
    } else if c == '^' {
        Some(Tok::Mark(Mark::Caret))
    } else {
        None
    }
}

/// The operator of one or two characters, where the second is known.
pub open spec fn operator(c: char, next: Option<char>) -> Option<(TokModel, int)> {
    if c == '=' {
        if next == Some('=') {
            Some((TokModel::Mark(Mark::EqEq), 2))
        } else {
            Some((TokModel::Mark(Mark::Eq), 1))
        }
    } else if c == '!' && next == Some('=') {
        Some((TokModel::Mark(Mark::Ne), 2))
    } else if c == '!' && next == Some('~') {
        Some((TokModel::Mark(Mark::NotTilde), 2))
    } else if c == '>' {
        if next == Some('=') {
            Some((TokModel::Mark(Mark::Ge), 2))
        } else {
            Some((TokModel::Mark(Mark::Gt), 1))
        }
    } else if c == '<' {
        if next == Some('=') {
            Some((TokModel::Mark(Mark::Le), 2))
        } else {
            Some((TokModel::Mark(Mark::Lt), 1))
        }
    } else {
        None
    }
}

fn read_operator(c: char, next: Option<char>) -> (r: Option<(Tok, usize)>)
    ensures
        match r {
            Some((t, n)) => operator(c, next) == Some((t@, n as int)) && 1 <= n <= 2 && (n == 2
                ==> next is Some),
            None => operator(c, next) is None,
        },
{
    let eq = match next {
        Some(d) => d == '=',
        None => false,
    };
    let tilde = match next {
        Some(d) => d == '~',
        None => false,
    };
    if c == '=' {
        if eq {
            Some((Tok::Mark(Mark::EqEq), 2))
        } else {
            Some((Tok::Mark(Mark::Eq), 1))
        }
    } else if c == '!' && eq {
        Some((Tok::Mark(Mark::Ne), 2))
    } else if c == '!' && tilde {
        Some((Tok::Mark(Mark::NotTilde), 2))
    } else if c == '>' {
        if eq {
            Some((Tok::Mark(Mark::Ge), 2))
        } else {
            Some((Tok::Mark(Mark::Gt), 1))
        }
    } else if c == '<' {
        if eq {
            Some((Tok::Mark(Mark::Le), 2))
        } else {
            Some((Tok::Mark(Mark::Lt), 1))
        }
    } else {
        None
    }
}

/// The character at a position, if there is one.
pub open spec fn char_at(s: Seq<char>, i: int) -> Option<char> {
    if 0 <= i < s.len() {
        Some(s[i])
    } else {
        None
    }
}

/// The token that begins at `i` and the position after it, or what is wrong there.
pub open spec fn token_at(s: Seq<char>, i: int) -> Result<(TokModel, int), Seq<char>> {
    let c = s[i];
    if single(c) is Some {
        Ok((single(c)->0, i + 1))
    } else if operator(c, char_at(s, i + 1)) is Some {
        let (t, n) = operator(c, char_at(s, i + 1))->0;
        Ok((t, i + n))
    } else if c == '@' {
        let j = name_end(s, i + 1);
        if j == i + 1 {
            Err("expected a class name after `@`"@)
        } else {
            Ok((TokModel::TypeClass(s.subrange(i + 1, j)), j))
        }
    } else if c == ':' {
        let j = name_end(s, i + 1);
        if j == i + 1 || digit_ok(s[i + 1]) {
            Err("expected a name after `:`"@)
        } else {
            Ok((TokModel::Ref(s.subrange(i + 1, j)), j))
        }
    } else if c == '"' {
        match string_at(s, i + 1) {
            Some((t, n)) => Ok((TokModel::Str(t), n)),
            None => Err("unterminated string"@),
        }
    } else if c == '/' {
        match regex_at(s, i + 1) {
            Some((t, n)) => Ok((TokModel::Regex(t), n)),
            None => Err("unterminated /regex/"@),
        }
    } else if digit_ok(c) {
        let j = num_end(s, i);
        Ok((TokModel::Num(s.subrange(i, j)), j))
    } else if ident_start(c) {
        let j = name_end(s, i);
        if char_at(s, j) == Some(':') {
            Ok((TokModel::Bind(s.subrange(i, j)), j + 1))
        } else {
            Ok((TokModel::Ident(s.subrange(i, j)), j))
        }
    } else {
        Err("unexpected character `"@ + seq![c] + "`"@)
    }
}

fn read_token(b: &Vec<char>, i: usize) -> (r: Result<(Tok, usize), String>)
    requires
        i < b@.len(),
    ensures
        match r {
            Ok((t, n)) => token_at(b@, i as int) == Ok::<(TokModel, int), Seq<char>>((t@, n as int)) && i
                < n <= b@.len(),
            Err(e) => token_at(b@, i as int) == Err::<(TokModel, int), Seq<char>>(e@),
        },
{
    let len: usize = b.len();
    let c = b[i];
    if let Some(t) = read_single(c) {
        return Ok((t, i + 1));
    }
    let next = if len - i > 1 {
        Some(b[i + 1])
    } else {
        None
    };
    assert(next == char_at(b@, i + 1));
    if let Some((t, n)) = read_operator(c, next) {
        return Ok((t, i + n));
    }
    if c == '@' {
        let j: usize = find_name_end(b, i + 1);
        if j == i + 1 {
            return Err("expected a class name after `@`".to_owned());
        }
        return Ok((Tok::TypeClass(slice_text(b.as_slice(), i + 1, j)), j));
    }
    if c == ':' {
        let j: usize = find_name_end(b, i + 1);
        if j == i + 1 || is_digit(b[i + 1]) {
            return Err("expected a name after `:`".to_owned());
        }
        return Ok((Tok::Ref(slice_text(b.as_slice(), i + 1, j)), j));
    }
    if c == '"' {
        return match read_string(b, i + 1) {
            Some((s, n)) => Ok((Tok::Str(s), n)),
            None => Err("unterminated string".to_owned()),
        };
    }
    if c == '/' {
        return match read_regex(b, i + 1) {
            Some((s, n)) => Ok((Tok::Regex(s), n)),
            None => Err("unterminated /regex/".to_owned()),
        };
    }
    if is_digit(c) {
        let j: usize = find_num_end(b, i + 1);
        assert(num_end(b@, i as int) == num_end(b@, i + 1));
        return Ok((Tok::Num(slice_text(b.as_slice(), i, j)), j));
    }
    if is_ident_start(c) {
        let j: usize = find_name_end(b, i + 1);
        assert(name_end(b@, i as int) == name_end(b@, i + 1));
        let word = slice_text(b.as_slice(), i, j);
        if j < b.len() && b[j] == ':' {
            return Ok((Tok::Bind(word), j + 1));
        }
        return Ok((Tok::Ident(word), j));
    }
    let mut word = String::new();
    word.push(c);
    assert(word@ =~= seq![c]);
    Err(join3("unexpected character `", word.as_str(), "`"))
}

/// Tokens in front of the outcome of lexing the rest.
pub open spec fn before(
    done: Seq<(TokModel, nat)>,
    rest: Result<Seq<(TokModel, nat)>, Seq<char>>,
) -> Result<Seq<(TokModel, nat)>, Seq<char>> {
    match rest {
        Ok(more) => Ok(done + more),
        Err(e) => Err(e),
    }
}

/// The tokens from position `i` on, which stands in the given row, each with its
/// row. Whitespace separates, and a comment runs from `#` to the end of its line. What
/// is read always ends further on; the conditions on that make the recursion evident.
pub open spec fn lex_from(s: Seq<char>, i: int, row: nat) -> Result<Seq<(TokModel, nat)>, Seq<char>>
    decreases s.len() - i,
{
    if i < 0 || i >= s.len() {
        Ok(Seq::empty())
    } else if s[i] == '\n' {
        lex_from(s, i + 1, row + 1)
    } else if white(s[i]) {
        lex_from(s, i + 1, row)
    } else if s[i] == '#' {
        if i < line_end(s, i + 1) <= s.len() {
            lex_from(s, line_end(s, i + 1), row)
        } else {
            Ok(Seq::empty())
        }
    } else {
        match token_at(s, i) {
            Err(e) => Err(line_fault(row, e)),
            Ok((t, n)) => if i < n <= s.len() {
                before(seq![(t, row)], lex_from(s, n, row))
            } else {
                Ok(Seq::empty())
            },
        }
    }
}

/// The tokens of a text.
pub open spec fn lexed(s: Seq<char>) -> Result<Seq<(TokModel, nat)>, Seq<char>> {
    lex_from(s, 0, 0)
}

/// The models of tokens with their rows.
pub open spec fn tok_models(v: Seq<(Tok, usize)>) -> Seq<(TokModel, nat)> {
    v.map_values(|p: (Tok, usize)| (p.0@, p.1 as nat))
}

/// Lexes rule text into tokens, each with its row, counted from zero.
pub fn lex(src: &str) -> (r: Result<Vec<(Tok, usize)>, String>)
    ensures
        match r {
            Ok(v) => lexed(src@) == Ok::<Seq<(TokModel, nat)>, Seq<char>>(tok_models(v@)),
            Err(e) => lexed(src@) == Err::<Seq<(TokModel, nat)>, Seq<char>>(e@),
        },
{
    let b = to_chars(src);
    let mut i: usize = 0;
    let mut row: usize = 0;
    let mut out: Vec<(Tok, usize)> = Vec::new();
    proof {
        assert(tok_models(out@) =~= Seq::<(TokModel, nat)>::empty());
        if let Ok(more) = lex_from(b@, 0, 0) {
            assert(Seq::<(TokModel, nat)>::empty() + more =~= more);
        }
    }
    while i < b.len()
        invariant
            b@ == src@,
            row <= i <= b@.len(),
            lexed(src@) == before(tok_models(out@), lex_from(b@, i as int, row as nat)),
        decreases b@.len() - i,
    {
        let c = b[i];
        if c == '\n' {
            row += 1;
            i += 1;
        } else if is_white(c) {
            i += 1;
        } else if c == '#' {
            i = find_line_end(&b, i + 1);
        } else {
            match read_token(&b, i) {
                Ok((t, n)) => {
                    let ghost done = tok_models(out@);
                    let ghost rest = lex_from(b@, n as int, row as nat);
                    out.push((t, row));
                    proof {
                        assert(tok_models(out@) =~= done + seq![(t@, row as nat)]);
                        if let Ok(more) = rest {
                            assert(done + (seq![(t@, row as nat)] + more) =~= tok_models(out@) + more);
                        }
                    }
                    i = n;
                },
                Err(e) => {
                    return Err(at_line(row, e.as_str()));
                },
            }
        }
    }
    assert(tok_models(out@) + Seq::<(TokModel, nat)>::empty() =~= tok_models(out@));
    Ok(out)
}

// ---------------------------------------------------------------------------
// Lexing goes line by line
// ---------------------------------------------------------------------------

proof fn lemma_run_ends(s: Seq<char>, i: int)
    requires
        0 <= i <= s.len(),
    ensures
        i <= name_end(s, i) <= s.len(),
        i <= num_end(s, i) <= s.len(),
        i <= line_end(s, i) <= s.len(),
    decreases s.len() - i,
{
    if i < s.len() {
        lemma_run_ends(s, i + 1);
    }
}

proof fn lemma_literal_ends(s: Seq<char>, i: int)
    ensures
        string_at(s, i) is Some ==> i < (string_at(s, i)->0).1 <= s.len(),
        regex_at(s, i) is Some ==> i < (regex_at(s, i)->0).1 <= s.len(),
    decreases s.len() - i,
{
    if 0 <= i < s.len() {
        lemma_literal_ends(s, i + 1);
        if i + 1 < s.len() {
            lemma_literal_ends(s, i + 2);
        }
    }
}

proof fn lemma_token_ends(s: Seq<char>, i: int)
    requires
        0 <= i < s.len(),
        token_at(s, i) is Ok,
    ensures
        i < (token_at(s, i)->Ok_0).1 <= s.len(),
{
    lemma_run_ends(s, i);
    lemma_run_ends(s, i + 1);
    lemma_literal_ends(s, i + 1);
}

// Whether a text goes on, after another, on a line of its own.
spec fn goes_on(s: Seq<char>, more: Seq<char>) -> bool {
    &&& s.len() < more.len()
    &&& more[s.len() as int] == '\n'
    &&& forall|k: int| 0 <= k < s.len() ==> more[k] == s[k]
}

proof fn lemma_runs_kept(s: Seq<char>, more: Seq<char>, i: int)
    requires
        goes_on(s, more),
        0 <= i <= s.len(),
    ensures
        name_end(more, i) == name_end(s, i),
        num_end(more, i) == num_end(s, i),
        line_end(more, i) == line_end(s, i),
    decreases s.len() - i,
{
    if i < s.len() {
        lemma_runs_kept(s, more, i + 1);
    }
}

proof fn lemma_literals_kept(s: Seq<char>, more: Seq<char>, i: int)
    requires
        goes_on(s, more),
    ensures
        string_at(s, i) is Some ==> string_at(more, i) == string_at(s, i),
        regex_at(s, i) is Some ==> regex_at(more, i) == regex_at(s, i),
    decreases s.len() - i,
{
    if 0 <= i < s.len() {
        lemma_literals_kept(s, more, i + 1);
        if i + 1 < s.len() {
            lemma_literals_kept(s, more, i + 2);
        }
    }
}

proof fn lemma_token_kept(s: Seq<char>, more: Seq<char>, i: int)
    requires
        goes_on(s, more),
        0 <= i < s.len(),
        token_at(s, i) is Ok,
    ensures
        token_at(more, i) == token_at(s, i),
{
    lemma_run_ends(s, i);
    lemma_run_ends(s, i + 1);
    lemma_runs_kept(s, more, i);
    lemma_runs_kept(s, more, i + 1);
    lemma_literals_kept(s, more, i + 1);
    assert(operator(s[i], char_at(more, i + 1)) == operator(s[i], char_at(s, i + 1)));
    assert forall|x: int, y: int| 0 <= x <= y <= s.len() implies more.subrange(x, y)
        == #[trigger] s.subrange(x, y) by {
        assert(more.subrange(x, y) =~= s.subrange(x, y));
    }
}

proof fn lemma_front_lexed(s: Seq<char>, more: Seq<char>, i: int, row: nat) -> (last: nat)
    requires
        goes_on(s, more),
        0 <= i <= s.len(),
        lex_from(s, i, row) is Ok,
    ensures
        lex_from(more, i, row) == before(
            lex_from(s, i, row)->Ok_0,
            lex_from(more, s.len() as int, last),
        ),
    decreases s.len() - i,
{
    if i == s.len() {
        let rest = lex_from(more, i, row);
        if let Ok(v) = rest {
            assert(Seq::<(TokModel, nat)>::empty() + v =~= v);
        }
        row
    } else if s[i] == '\n' {
        lemma_front_lexed(s, more, i + 1, row + 1)
    } else if white(s[i]) {
        lemma_front_lexed(s, more, i + 1, row)
    } else if s[i] == '#' {
        lemma_run_ends(s, i + 1);
        lemma_runs_kept(s, more, i + 1);
        lemma_front_lexed(s, more, line_end(s, i + 1), row)
    } else {
        lemma_token_ends(s, i);
        lemma_token_kept(s, more, i);
        let (t, n) = token_at(s, i)->Ok_0;
        let last = lemma_front_lexed(s, more, n, row);
        let front = lex_from(s, n, row)->Ok_0;
        if let Ok(v) = lex_from(more, s.len() as int, last) {
            assert(seq![(t, row)] + (front + v) =~= (seq![(t, row)] + front) + v);
        }
        last
    }
}

// Whether a text ends in another, from a position on.
spec fn ends_in(more: Seq<char>, at: int, s: Seq<char>) -> bool {
    &&& 0 <= at
    &&& more.len() == at + s.len()
    &&& forall|k: int| 0 <= k < s.len() ==> more[at + k] == #[trigger] s[k]
}

// A literal further on.
spec fn moved(r: Option<(Seq<char>, int)>, at: int) -> Option<(Seq<char>, int)> {
    match r {
        Some((t, n)) => Some((t, at + n)),
        None => None,
    }
}

proof fn lemma_runs_moved(more: Seq<char>, at: int, s: Seq<char>, i: int)
    requires
        ends_in(more, at, s),
        0 <= i <= s.len(),
    ensures
        name_end(more, at + i) == at + name_end(s, i),
        num_end(more, at + i) == at + num_end(s, i),
        line_end(more, at + i) == at + line_end(s, i),
    decreases s.len() - i,
{
    if i < s.len() {
        assert(more[at + i] == s[i]);
        lemma_runs_moved(more, at, s, i + 1);
    }
}

proof fn lemma_literals_moved(more: Seq<char>, at: int, s: Seq<char>, i: int)
    requires
        ends_in(more, at, s),
        0 <= i,
    ensures
        string_at(more, at + i) == moved(string_at(s, i), at),
        regex_at(more, at + i) == moved(regex_at(s, i), at),
    decreases s.len() - i,
{
    if i < s.len() {
        assert(more[at + i] == s[i]);
        lemma_literals_moved(more, at, s, i + 1);
        if i + 1 < s.len() {
            assert(more[at + (i + 1)] == s[i + 1]);
            lemma_literals_moved(more, at, s, i + 2);
        }
    }
}

proof fn lemma_token_moved(more: Seq<char>, at: int, s: Seq<char>, i: int)
    requires
        ends_in(more, at, s),
        0 <= i < s.len(),
        token_at(s, i) is Ok,
    ensures
        token_at(more, at + i) == Ok::<(TokModel, int), Seq<char>>(
            ((token_at(s, i)->Ok_0).0, at + (token_at(s, i)->Ok_0).1),
        ),
{
    assert(more[at + i] == s[i]);
    if i + 1 < s.len() {
        assert(more[at + (i + 1)] == s[i + 1]);
    }
    lemma_run_ends(s, i);
    lemma_run_ends(s, i + 1);
    lemma_runs_moved(more, at, s, i);
    lemma_runs_moved(more, at, s, i + 1);
    lemma_literals_moved(more, at, s, i + 1);
    assert(char_at(more, at + (i + 1)) == char_at(s, i + 1));
    let j = name_end(s, i);
    if j < s.len() {
        assert(more[at + j] == s[j]);
    }
    assert(char_at(more, at + j) == char_at(s, j));
    assert forall|x: int, y: int| 0 <= x <= y <= s.len() implies more.subrange(at + x, at + y)
        == #[trigger] s.subrange(x, y) by {
        assert(more.subrange(at + x, at + y) =~= s.subrange(x, y));
    }
    assert(more.subrange(at + (i + 1), at + name_end(s, i + 1)) == s.subrange(
        i + 1,
        name_end(s, i + 1),
    ));
}

/// Tokens that stand a number of rows further down.
pub open spec fn further_down(toks: Seq<(TokModel, nat)>, rows: nat) -> Seq<(TokModel, nat)> {
    toks.map_values(|p: (TokModel, nat)| (p.0, p.1 + rows))
}

proof fn lemma_rest_lexed(more: Seq<char>, at: int, s: Seq<char>, i: int, row: nat, rows: nat)
    requires
        ends_in(more, at, s),
        0 <= i <= s.len(),
        lex_from(s, i, row) is Ok,
    ensures
        lex_from(more, at + i, row + rows) == Ok::<Seq<(TokModel, nat)>, Seq<char>>(
            further_down(lex_from(s, i, row)->Ok_0, rows),
        ),
    decreases s.len() - i,
{
    let none = Seq::<(TokModel, nat)>::empty();
    if i == s.len() {
        assert(further_down(none, rows) =~= none);
    } else {
        assert(more[at + i] == s[i]);
        if s[i] == '\n' {
            lemma_rest_lexed(more, at, s, i + 1, row + 1, rows);
        } else if white(s[i]) {
            lemma_rest_lexed(more, at, s, i + 1, row, rows);
        } else if s[i] == '#' {
            lemma_run_ends(s, i + 1);
            lemma_runs_moved(more, at, s, i + 1);
            lemma_rest_lexed(more, at, s, line_end(s, i + 1), row, rows);
        } else {
            lemma_token_ends(s, i);
            lemma_token_moved(more, at, s, i);
            let (t, n) = token_at(s, i)->Ok_0;
            lemma_rest_lexed(more, at, s, n, row, rows);
            let v = lex_from(s, n, row)->Ok_0;
            assert(further_down(seq![(t, row)] + v, rows) =~= seq![(t, row + rows)] + further_down(
                v,
                rows,
            ));
        }
    }
}

/// Where two texts lex, so does the one followed, on a new line, by the other: to the
/// tokens of the first and then those of the second, a number of rows further down.
/// So how a rule lexes does not depend on the rules before it.
pub proof fn lexing_goes_line_by_line(a: Seq<char>, b: Seq<char>)
    requires
        lexed(a) is Ok,
        lexed(b) is Ok,
    ensures
        exists|rows: nat|
            rows > 0 && lexed(a + seq!['\n'] + b) == Ok::<Seq<(TokModel, nat)>, Seq<char>>(
                lexed(a)->Ok_0 + #[trigger] further_down(lexed(b)->Ok_0, rows),
            ),
{
    let more = a + seq!['\n'] + b;
    let at: int = a.len() as int + 1;
    assert(goes_on(a, more));
    let last = lemma_front_lexed(a, more, 0, 0);
    let rows = last + 1;
    assert(ends_in(more, at, b));
    lemma_rest_lexed(more, at, b, 0, 0, rows);
    assert(lex_from(more, a.len() as int, last) == lex_from(more, at, rows));
    assert(lexed(more) == Ok::<Seq<(TokModel, nat)>, Seq<char>>(
        lexed(a)->Ok_0 + further_down(lexed(b)->Ok_0, rows),
    ));
}


} // verus!
