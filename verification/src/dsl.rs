//! A concise textual rule grammar. It is read into the same raw rules that a
//! structured rule file holds, which the compiler then takes.
//!
//! ```text
//! rule no_debugger (error) {
//!   lang typescript, javascript
//!   match debugger
//!   message "Remove debugger statements."
//! }
//! ```
//!
//! Token patterns:
//!   `debugger`, `"=="`             a literal lexeme, by its text
//!   `@class`                       a token class (`@ident`, `@str`, `@num`, …)
//!   `/regex/`, `^/regex/`          a lexeme whose text does (not) match
//!   `:x`                           the text that was bound to `x`
//!   `@ident & /re/`                conjunction on one token
//!   `Token[ field <op> v, ... ]`   explicit field predicates
//!   `any`, `.`                     any one token (sequence wildcard)
//!
//! Predicate operators (inside `Token[ ... ]`):
//!   `field = "v"` / `field = 5`   equality             (`field`)
//!   `field ~ /re/`                regex                (`field.regex`)
//!   `field !~ /re/`               negated regex        (`field.not.regex`)
//!   `field in ["a","b"]`          membership           (`field.any`)
//!   `field > 5` / `< <= >=`       numeric comparison   (`field.gt` …)
//!   `field == $v`                 equals a binding     (`field.eq_ref`)
//!   `field != $v`                 differs from it      (`field.ne_ref`)
//!
//! Steps of a sequence: `[not | ^] [x:] <pattern> [? | * | +] [as a = field, …]`,
//! where the pattern may be a choice `( a | b )` or a set `[ a b ]`. Explicit delimiter
//! steps (`"("` and `")"`, and so on) balance: the closing one takes the counterpart of
//! what the opening one took, so that a wildcard between them cannot escape the pair.
//!
//! Bodies: `match <pat> [where scope <clause>]*`, `sequence [in scope] { <step>+ }`,
//! `compose <op> of A, B [by file, function]`, `count RULE per file > N`.

use vstd::prelude::*;

use crate::compile::{compile_rules, rules_of, rules_wf};
use crate::lexer::{
    lex,
    lexed,
    mark_name,
    show_mark,
    show_tok,
    tok_debug,
    tok_models,
    Mark,
    Tok,
    TokModel,
};
use crate::order::{also, put};
use crate::rules::{CompiledRule, RuleModel};
use crate::schema::{
    AdrGuard,
    AppliesModel,
    AppliesTo,
    Attrs,
    AttrsModel,
    Bindings,
    BindsModel,
    PathFilter,
    RawAnchor,
    RawCompose,
    RawComposeModel,
    RawCount,
    RawCountModel,
    RawMatch,
    RawMatchModel,
    RawRule,
    RawRuleModel,
    RawSequence,
    RawSequenceModel,
    RawStep,
    RawStepModel,
    RawUnless,
    RawUnlessModel,
    RawWhereModel,
    RawWhereScope,
    RuleFile,
    RuleFileModel,
    Severity,
    WaiverGuard,
};
use crate::text::{
    all_digits,
    ascii_lower_text,
    decimal,
    decimal_of,
    digits_value,
    is_digit,
    join2,
    join3,
    lower,
    opt_text,
    opt_view,
    same,
    texts,
    to_chars,
    views,
};
use crate::token::{language_of_name, Language};
use crate::value::{Datum, DatumModel};

verus! {

/// Why rule text was rejected.
#[derive(Debug)]
pub struct DslError(pub String);

/// The tokens of a rule text, each with its row.
pub type Toks = Seq<(TokModel, nat)>;

/// The outcome of reading something: what was read and the position after it, or
/// an error. What is read always ends further on; where a function below has a
/// condition on that, it makes the recursion evident.
pub type Read<T> = Result<(T, int), Seq<char>>;

/// Whether something was read, up to a position.
pub open spec fn gives<T>(r: Read<T>, x: T, p: int) -> bool {
    r == Ok::<(T, int), Seq<char>>((x, p))
}

/// Whether reading failed with an error.
pub open spec fn fails<T>(r: Read<T>, e: Seq<char>) -> bool {
    r == Err::<(T, int), Seq<char>>(e)
}

// ---------------------------------------------------------------------------
// Single tokens
// ---------------------------------------------------------------------------

/// The token at a position, if there is one.
pub open spec fn tok_at(t: Toks, p: int) -> Option<TokModel> {
    if 0 <= p < t.len() {
        Some(t[p].0)
    } else {
        None
    }
}

/// Whether a word stands at a position.
pub open spec fn is_word(t: Toks, p: int, w: Seq<char>) -> bool {
    tok_at(t, p) == Some(TokModel::Ident(w))
}

/// Whether a mark stands at a position.
pub open spec fn is_mark(t: Toks, p: int, m: Mark) -> bool {
    tok_at(t, p) == Some(TokModel::Mark(m))
}

/// The position after a token that was taken, if there was one.
pub open spec fn past(t: Toks, p: int) -> int {
    if p < t.len() {
        p + 1
    } else {
        p
    }
}

/// The line of a position; past the end, that of the last token.
pub open spec fn line_at(t: Toks, p: int) -> nat {
    if 0 <= p < t.len() {
        t[p].1 + 1
    } else if t.len() > 0 {
        t.last().1 + 1
    } else {
        0
    }
}

/// The token at a position, as error messages show it.
pub open spec fn found_at(t: Toks, p: int) -> Seq<char> {
    match tok_at(t, p) {
        Some(k) => "Some("@ + tok_debug(k) + ")"@,
        None => "None"@,
    }
}

/// An error at a position.
pub open spec fn fault(t: Toks, p: int, msg: Seq<char>) -> Seq<char> {
    "line "@ + decimal_of(line_at(t, p)) + ": "@ + msg + ", found "@ + found_at(t, p)
}

/// Reads a given word.
pub open spec fn word_at(t: Toks, p: int, w: Seq<char>) -> Read<()> {
    if is_word(t, p, w) {
        Ok(((), p + 1))
    } else {
        Err(fault(t, p, "expected `"@ + w + "`"@))
    }
}

/// Reads a given mark.
pub open spec fn mark_at(t: Toks, p: int, m: Mark) -> Read<()> {
    if is_mark(t, p, m) {
        Ok(((), p + 1))
    } else {
        Err(fault(t, p, "expected "@ + mark_name(m)))
    }
}

/// Reads an identifier.
pub open spec fn ident_at(t: Toks, p: int) -> Read<Seq<char>> {
    match tok_at(t, p) {
        Some(TokModel::Ident(s)) => Ok((s, p + 1)),
        _ => Err(fault(t, past(t, p), "expected an identifier"@)),
    }
}

/// Reads a string.
pub open spec fn text_at(t: Toks, p: int) -> Read<Seq<char>> {
    match tok_at(t, p) {
        Some(TokModel::Str(s)) => Ok((s, p + 1)),
        _ => Err(fault(t, past(t, p), "expected a \"string\""@)),
    }
}

/// Reads a string or a number.
pub open spec fn scalar_at(t: Toks, p: int) -> Read<Seq<char>> {
    match tok_at(t, p) {
        Some(TokModel::Str(s)) => Ok((s, p + 1)),
        Some(TokModel::Num(s)) => Ok((s, p + 1)),
        _ => Err(fault(t, past(t, p), "expected a \"string\" or number"@)),
    }
}

/// Reads a number.
pub open spec fn num_at(t: Toks, p: int) -> Read<Seq<char>> {
    match tok_at(t, p) {
        Some(TokModel::Num(s)) => Ok((s, p + 1)),
        _ => Err(fault(t, past(t, p), "expected a number"@)),
    }
}

/// Reads a regex.
pub open spec fn regex_tok_at(t: Toks, p: int) -> Read<Seq<char>> {
    match tok_at(t, p) {
        Some(TokModel::Regex(s)) => Ok((s, p + 1)),
        _ => Err(fault(t, past(t, p), "expected a /regex/"@)),
    }
}

/// Reads a variable: `$` and its name.
pub open spec fn var_at(t: Toks, p: int) -> Read<Seq<char>> {
    match mark_at(t, p, Mark::Dollar) {
        Err(e) => Err(e),
        Ok((_, q)) => ident_at(t, q),
    }
}

/// Reads rule text, token by token.
pub struct Parser {
    toks: Vec<(Tok, usize)>,
    pos: usize,
}

impl Parser {
    /// The tokens.
    pub closed spec fn t(&self) -> Toks {
        tok_models(self.toks@)
    }

    /// The position of the next token.
    pub closed spec fn p(&self) -> int {
        self.pos as int
    }

    /// The position lies among the tokens or at their end.
    pub closed spec fn wf(&self) -> bool {
        self.pos <= self.toks@.len()
    }

    /// Whether this is the same text as before, read at least as far.
    pub open spec fn follows(&self, before: &Parser) -> bool {
        &&& self.wf()
        &&& self.t() == before.t()
        &&& before.p() <= self.p() <= self.t().len()
    }

    fn peek(&self) -> (r: Option<&Tok>)
        requires
            self.wf(),
        ensures
            match r {
                Some(k) => tok_at(self.t(), self.p()) == Some(k@) && self.p() < self.t().len(),
                None => tok_at(self.t(), self.p()) is None && self.p() == self.t().len(),
            },
    {
        if self.pos < self.toks.len() {
            Some(&self.toks[self.pos].0)
        } else {
            None
        }
    }

    fn advance(&mut self)
        requires
            old(self).wf(),
        ensures
            final(self).follows(&*old(self)),
            final(self).p() == past(old(self).t(), old(self).p()),
    {
        if self.pos < self.toks.len() {
            self.pos = self.pos + 1;
        }
    }

    fn at_word(&self, w: &str) -> (r: bool)
        requires
            self.wf(),
        ensures
            r == is_word(self.t(), self.p(), w@),
            r ==> self.p() < self.t().len(),
    {
        match self.peek() {
            Some(Tok::Ident(s)) => same(s.as_str(), w),
            _ => false,
        }
    }

    fn at_mark(&self, m: Mark) -> (r: bool)
        requires
            self.wf(),
        ensures
            r == is_mark(self.t(), self.p(), m),
            r ==> self.p() < self.t().len(),
    {
        match self.peek() {
            Some(Tok::Mark(k)) => *k == m,
            _ => false,
        }
    }

    fn line(&self) -> (r: String)
        requires
            self.wf(),
        ensures
            r@ == "line "@ + decimal_of(line_at(self.t(), self.p())) + ": "@,
    {
        let n: u128 = if self.pos < self.toks.len() {
            (self.toks[self.pos].1 as u128) + 1
        } else if self.toks.len() > 0 {
            (self.toks[self.toks.len() - 1].1 as u128) + 1
        } else {
            0
        };
        let d = decimal(n);
        join3("line ", d.as_str(), ": ")
    }

    fn err(&self, msg: &str) -> (r: DslError)
        requires
            self.wf(),
        ensures
            r.0@ == fault(self.t(), self.p(), msg@),
    {
        let line = self.line();
        let found = match self.peek() {
            Some(k) => {
                let shown = show_tok(k);
                join3("Some(", shown.as_str(), ")")
            },
            None => "None".to_owned(),
        };
        let head = join3(line.as_str(), msg, ", found ");
        DslError(join2(head.as_str(), found.as_str()))
    }

    fn eat_word(&mut self, w: &str) -> (r: Result<(), DslError>)
        requires
            old(self).wf(),
        ensures
            final(self).follows(&*old(self)),
            match r {
                Ok(x) => gives(word_at(old(self).t(), old(self).p(), w@), x, final(self).p())
                    && old(self).p() < final(self).p(),
                Err(e) => fails(word_at(old(self).t(), old(self).p(), w@), e.0@),
            },
    {
        if self.at_word(w) {
            self.advance();
            Ok(())
        } else {
            let msg = join3("expected `", w, "`");
            Err(self.err(msg.as_str()))
        }
    }

    fn expect(&mut self, m: Mark) -> (r: Result<(), DslError>)
        requires
            old(self).wf(),
        ensures
            final(self).follows(&*old(self)),
            match r {
                Ok(x) => gives(mark_at(old(self).t(), old(self).p(), m), x, final(self).p())
                    && old(self).p() < final(self).p(),
                Err(e) => fails(mark_at(old(self).t(), old(self).p(), m), e.0@),
            },
    {
        if self.at_mark(m) {
            self.advance();
            Ok(())
        } else {
            let msg = join2("expected ", show_mark(m));
            Err(self.err(msg.as_str()))
        }
    }

    fn ident(&mut self) -> (r: Result<String, DslError>)
        requires
            old(self).wf(),
        ensures
            final(self).follows(&*old(self)),
            match r {
                Ok(x) => gives(ident_at(old(self).t(), old(self).p()), x@, final(self).p()) && old(
                    self,
                ).p() < final(self).p(),
                Err(e) => fails(ident_at(old(self).t(), old(self).p()), e.0@),
            },
    {
        let got = match self.peek() {
            Some(Tok::Ident(s)) => Some(s.clone()),
            _ => None,
        };
        self.advance();
        match got {
            Some(s) => Ok(s),
            None => Err(self.err("expected an identifier")),
        }
    }

    fn string(&mut self) -> (r: Result<String, DslError>)
        requires
            old(self).wf(),
        ensures
            final(self).follows(&*old(self)),
            match r {
                Ok(x) => gives(text_at(old(self).t(), old(self).p()), x@, final(self).p()) && old(
                    self,
                ).p() < final(self).p(),
                Err(e) => fails(text_at(old(self).t(), old(self).p()), e.0@),
            },
    {
        let got = match self.peek() {
            Some(Tok::Str(s)) => Some(s.clone()),
            _ => None,
        };
        self.advance();
        match got {
            Some(s) => Ok(s),
            None => Err(self.err("expected a \"string\"")),
        }
    }

    fn scalar_value(&mut self) -> (r: Result<String, DslError>)
        requires
            old(self).wf(),
        ensures
            final(self).follows(&*old(self)),
            match r {
                Ok(x) => gives(scalar_at(old(self).t(), old(self).p()), x@, final(self).p()) && old(
                    self,
                ).p() < final(self).p(),
                Err(e) => fails(scalar_at(old(self).t(), old(self).p()), e.0@),
            },
    {
        let got = match self.peek() {
            Some(Tok::Str(s)) => Some(s.clone()),
            Some(Tok::Num(s)) => Some(s.clone()),
            _ => None,
        };
        self.advance();
        match got {
            Some(s) => Ok(s),
            None => Err(self.err("expected a \"string\" or number")),
        }
    }

    fn num_value(&mut self) -> (r: Result<String, DslError>)
        requires
            old(self).wf(),
        ensures
            final(self).follows(&*old(self)),
            match r {
                Ok(x) => gives(num_at(old(self).t(), old(self).p()), x@, final(self).p()) && old(
                    self,
                ).p() < final(self).p(),
                Err(e) => fails(num_at(old(self).t(), old(self).p()), e.0@),
            },
    {
        let got = match self.peek() {
            Some(Tok::Num(s)) => Some(s.clone()),
            _ => None,
        };
        self.advance();
        match got {
            Some(s) => Ok(s),
            None => Err(self.err("expected a number")),
        }
    }

    fn regex_value(&mut self) -> (r: Result<String, DslError>)
        requires
            old(self).wf(),
        ensures
            final(self).follows(&*old(self)),
            match r {
                Ok(x) => gives(regex_tok_at(old(self).t(), old(self).p()), x@, final(self).p())
                    && old(self).p() < final(self).p(),
                Err(e) => fails(regex_tok_at(old(self).t(), old(self).p()), e.0@),
            },
    {
        let got = match self.peek() {
            Some(Tok::Regex(s)) => Some(s.clone()),
            _ => None,
        };
        self.advance();
        match got {
            Some(s) => Ok(s),
            None => Err(self.err("expected a /regex/")),
        }
    }

    fn var_value(&mut self) -> (r: Result<String, DslError>)
        requires
            old(self).wf(),
        ensures
            final(self).follows(&*old(self)),
            match r {
                Ok(x) => gives(var_at(old(self).t(), old(self).p()), x@, final(self).p()) && old(
                    self,
                ).p() < final(self).p(),
                Err(e) => fails(var_at(old(self).t(), old(self).p()), e.0@),
            },
    {
        match self.expect(Mark::Dollar) {
            Ok(_) => self.ident(),
            Err(e) => Err(e),
        }
    }
}

// ---------------------------------------------------------------------------
// Lists
// ---------------------------------------------------------------------------

/// Reads identifiers with commas between them, after those read already.
pub open spec fn idents_from(t: Toks, p: int, done: Seq<Seq<char>>) -> Read<Seq<Seq<char>>>
    decreases t.len() - p,
{
    match ident_at(t, p) {
        Err(e) => Err(e),
        Ok((s, q)) => if is_mark(t, q, Mark::Comma) {
            idents_from(t, q + 1, done.push(s))
        } else {
            Ok((done.push(s), q))
        },
    }
}

/// Reads strings with commas between them, after those read already.
pub open spec fn texts_from(t: Toks, p: int, done: Seq<Seq<char>>) -> Read<Seq<Seq<char>>>
    decreases t.len() - p,
{
    match text_at(t, p) {
        Err(e) => Err(e),
        Ok((s, q)) => if is_mark(t, q, Mark::Comma) {
            texts_from(t, q + 1, done.push(s))
        } else {
            Ok((done.push(s), q))
        },
    }
}

/// Reads languages with commas between them, after those read already. The case of
/// letters does not matter.
pub open spec fn langs_from(t: Toks, p: int, done: Seq<Language>) -> Read<Seq<Language>>
    decreases t.len() - p,
{
    match ident_at(t, p) {
        Err(e) => Err(e),
        Ok((s, q)) => match language_of_name(ascii_lower_text(s)) {
            None => Err(fault(t, q, "unknown language `"@ + s + "`"@)),
            Some(l) => if is_mark(t, q, Mark::Comma) {
                langs_from(t, q + 1, done.push(l))
            } else {
                Ok((done.push(l), q))
            },
        },
    }
}

/// Reads captures `a = field` with commas between them, after those read already.
pub open spec fn binds_from(t: Toks, p: int, done: BindsModel) -> Read<BindsModel>
    decreases t.len() - p,
{
    match ident_at(t, p) {
        Err(e) => Err(e),
        Ok((var, q)) => match mark_at(t, q, Mark::Eq) {
            Err(e) => Err(e),
            Ok((_, q)) => match ident_at(t, q) {
                Err(e) => Err(e),
                Ok((attr, q)) => if is_mark(t, q, Mark::Comma) {
                    binds_from(t, q + 1, put(done, var, attr))
                } else {
                    Ok((put(done, var, attr), q))
                },
            },
        },
    }
}

impl Parser {
    fn parse_idents(&mut self, first: Vec<String>) -> (r: Result<Vec<String>, DslError>)
        requires
            old(self).wf(),
        ensures
            final(self).follows(&*old(self)),
            match r {
                Ok(x) => gives(
                    idents_from(old(self).t(), old(self).p(), texts(first@)),
                    texts(x@),
                    final(self).p(),
                ) && old(self).p() < final(self).p(),
                Err(e) => fails(idents_from(old(self).t(), old(self).p(), texts(first@)), e.0@),
            },
    {
        let mut out = first;
        let ghost all = idents_from(self.t(), self.p(), texts(first@));
        loop
            invariant
                self.wf(),
                self.follows(&*old(self)),
                all == idents_from(old(self).t(), old(self).p(), texts(first@)),
                all == idents_from(self.t(), self.p(), texts(out@)),
            decreases self.t().len() - self.p(),
        {
            let s = match self.ident() {
                Ok(s) => s,
                Err(e) => {
                    return Err(e);
                },
            };
            let ghost done = texts(out@);
            out.push(s);
            assert(texts(out@) =~= done.push(s@));
            if !self.at_mark(Mark::Comma) {
                return Ok(out);
            }
            self.advance();
        }
    }

    fn parse_texts(&mut self, first: Vec<String>) -> (r: Result<Vec<String>, DslError>)
        requires
            old(self).wf(),
        ensures
            final(self).follows(&*old(self)),
            match r {
                Ok(x) => gives(
                    texts_from(old(self).t(), old(self).p(), texts(first@)),
                    texts(x@),
                    final(self).p(),
                ) && old(self).p() < final(self).p(),
                Err(e) => fails(texts_from(old(self).t(), old(self).p(), texts(first@)), e.0@),
            },
    {
        let mut out = first;
        let ghost all = texts_from(self.t(), self.p(), texts(first@));
        loop
            invariant
                self.wf(),
                self.follows(&*old(self)),
                all == texts_from(old(self).t(), old(self).p(), texts(first@)),
                all == texts_from(self.t(), self.p(), texts(out@)),
            decreases self.t().len() - self.p(),
        {
            let s = match self.string() {
                Ok(s) => s,
                Err(e) => {
                    return Err(e);
                },
            };
            let ghost done = texts(out@);
            out.push(s);
            assert(texts(out@) =~= done.push(s@));
            if !self.at_mark(Mark::Comma) {
                return Ok(out);
            }
            self.advance();
        }
    }

    fn parse_langs(&mut self) -> (r: Result<Vec<Language>, DslError>)
        requires
            old(self).wf(),
        ensures
            final(self).follows(&*old(self)),
            match r {
                Ok(x) => gives(
                    langs_from(old(self).t(), old(self).p(), Seq::empty()),
                    x@,
                    final(self).p(),
                ) && old(self).p() < final(self).p(),
                Err(e) => fails(langs_from(old(self).t(), old(self).p(), Seq::empty()), e.0@),
            },
    {
        let mut out: Vec<Language> = Vec::new();
        let ghost all = langs_from(self.t(), self.p(), Seq::empty());
        loop
            invariant
                self.wf(),
                self.follows(&*old(self)),
                all == langs_from(old(self).t(), old(self).p(), Seq::empty()),
                all == langs_from(self.t(), self.p(), out@),
            decreases self.t().len() - self.p(),
        {
            let s = match self.ident() {
                Ok(s) => s,
                Err(e) => {
                    return Err(e);
                },
            };
            let name = lower(s.as_str());
            match Language::from_name(name.as_str()) {
                Some(l) => {
                    out.push(l);
                },
                None => {
                    let msg = join3("unknown language `", s.as_str(), "`");
                    return Err(self.err(msg.as_str()));
                },
            }
            if !self.at_mark(Mark::Comma) {
                return Ok(out);
            }
            self.advance();
        }
    }

    fn parse_bindlist(&mut self, first: Bindings) -> (r: Result<Bindings, DslError>)
        requires
            old(self).wf(),
        ensures
            final(self).follows(&*old(self)),
            match r {
                Ok(x) => gives(
                    binds_from(old(self).t(), old(self).p(), first@),
                    x@,
                    final(self).p(),
                ) && old(self).p() < final(self).p(),
                Err(e) => fails(binds_from(old(self).t(), old(self).p(), first@), e.0@),
            },
    {
        let mut out = first;
        let ghost all = binds_from(self.t(), self.p(), first@);
        loop
            invariant
                self.wf(),
                self.follows(&*old(self)),
                all == binds_from(old(self).t(), old(self).p(), first@),
                all == binds_from(self.t(), self.p(), out@),
            decreases self.t().len() - self.p(),
        {
            let var = match self.ident() {
                Ok(s) => s,
                Err(e) => {
                    return Err(e);
                },
            };
            if let Err(e) = self.expect(Mark::Eq) {
                return Err(e);
            }
            let attr = match self.ident() {
                Ok(s) => s,
                Err(e) => {
                    return Err(e);
                },
            };
            out.insert(var, attr);
            if !self.at_mark(Mark::Comma) {
                return Ok(out);
            }
            self.advance();
        }
    }
}

// ---------------------------------------------------------------------------
// Predicates and patterns
// ---------------------------------------------------------------------------

/// A predicate whose operator is a suffix of its key.
pub open spec fn keyed(
    attr: Seq<char>,
    suffix: Seq<char>,
    value: Read<Seq<char>>,
) -> Read<(Seq<char>, DatumModel)> {
    match value {
        Ok((s, q)) => Ok(((attr + suffix, DatumModel::Text(s)), q)),
        Err(e) => Err(e),
    }
}

/// Reads the strings of a set in square brackets.
pub open spec fn text_set_at(t: Toks, p: int) -> Read<Seq<Seq<char>>> {
    match mark_at(t, p, Mark::LBrack) {
        Err(e) => Err(e),
        Ok((_, q)) => {
            let items = if is_mark(t, q, Mark::RBrack) {
                Ok((Seq::empty(), q))
            } else {
                texts_from(t, q, Seq::empty())
            };
            match items {
                Err(e) => Err(e),
                Ok((list, q)) => match mark_at(t, q, Mark::RBrack) {
                    Err(e) => Err(e),
                    Ok((_, q)) => Ok((list, q)),
                },
            }
        },
    }
}

/// The values of a list of strings.
pub open spec fn text_values(list: Seq<Seq<char>>) -> Seq<DatumModel> {
    list.map_values(|s: Seq<char>| DatumModel::Text(s))
}

/// Reads one `field <op> <value>` predicate: the key with the operator as its
/// suffix, and the value.
pub open spec fn pred_at(t: Toks, p: int) -> Read<(Seq<char>, DatumModel)> {
    match ident_at(t, p) {
        Err(e) => Err(e),
        Ok((attr, q)) => if is_word(t, q, "in"@) {
            match text_set_at(t, q + 1) {
                Err(e) => Err(e),
                Ok((list, q)) => Ok(
                    ((attr + ".any"@, DatumModel::Sequence(text_values(list))), q),
                ),
            }
        } else {
            match tok_at(t, q) {
                None => Err(fault(t, q, "expected an operator"@)),
                Some(TokModel::Mark(Mark::Eq)) => keyed(attr, ""@, scalar_at(t, q + 1)),
                Some(TokModel::Mark(Mark::Tilde)) => keyed(attr, ".regex"@, regex_tok_at(t, q + 1)),
                Some(TokModel::Mark(Mark::NotTilde)) => keyed(
                    attr,
                    ".not.regex"@,
                    regex_tok_at(t, q + 1),
                ),
                Some(TokModel::Mark(Mark::Gt)) => keyed(attr, ".gt"@, num_at(t, q + 1)),
                Some(TokModel::Mark(Mark::Lt)) => keyed(attr, ".lt"@, num_at(t, q + 1)),
                Some(TokModel::Mark(Mark::Ge)) => keyed(attr, ".ge"@, num_at(t, q + 1)),
                Some(TokModel::Mark(Mark::Le)) => keyed(attr, ".le"@, num_at(t, q + 1)),
                Some(TokModel::Mark(Mark::EqEq)) => keyed(attr, ".eq_ref"@, var_at(t, q + 1)),
                Some(TokModel::Mark(Mark::Ne)) => keyed(attr, ".ne_ref"@, var_at(t, q + 1)),
                Some(other) => Err(fault(t, q + 1, "unexpected operator "@ + tok_debug(other))),
            }
        },
    }
}

/// Reads predicates with commas between them, after those read already. A later
/// predicate with the same key takes the place of an earlier one.
pub open spec fn preds_from(t: Toks, p: int, done: AttrsModel) -> Read<AttrsModel>
    decreases t.len() - p,
{
    match pred_at(t, p) {
        Err(e) => Err(e),
        Ok(((k, v), q)) => if is_mark(t, q, Mark::Comma) && p <= q {
            preds_from(t, q + 1, put(done, k, v))
        } else {
            Ok((put(done, k, v), q))
        },
    }
}

/// Reads one atom: a literal lexeme, a class, a regex, a negated regex or a
/// reference, as the predicate that it stands for.
pub open spec fn atom_at(t: Toks, p: int) -> Read<(Seq<char>, DatumModel)> {
    match tok_at(t, p) {
        Some(TokModel::TypeClass(s)) => Ok((("class"@, DatumModel::Text(s)), p + 1)),
        Some(TokModel::Regex(s)) => Ok((("text.regex"@, DatumModel::Text(s)), p + 1)),
        Some(TokModel::Str(s)) => Ok((("text"@, DatumModel::Text(s)), p + 1)),
        Some(TokModel::Ref(s)) => Ok((("text.eq_ref"@, DatumModel::Text(s)), p + 1)),
        Some(TokModel::Ident(s)) => if s == "any"@ || s == "Token"@ {
            Err(fault(t, p + 1, "expected a `@class` or `/regex/` token matcher"@))
        } else {
            Ok((("text"@, DatumModel::Text(s)), p + 1))
        },
        Some(TokModel::Mark(Mark::Caret)) => keyed(
            "text.not.regex"@,
            ""@,
            regex_tok_at(t, p + 1),
        ),
        _ => Err(fault(t, past(t, p), "expected a `@class` or `/regex/` token matcher"@)),
    }
}

/// Reads atoms with `&` between them, after those read already. All of them are
/// kept, also where two have the same key.
pub open spec fn atoms_from(t: Toks, p: int, done: AttrsModel) -> Read<AttrsModel>
    decreases t.len() - p,
{
    match atom_at(t, p) {
        Err(e) => Err(e),
        Ok(((k, v), q)) => if is_mark(t, q, Mark::Amp) {
            atoms_from(t, q + 1, also(done, k, v))
        } else {
            Ok((also(done, k, v), q))
        },
    }
}

/// Whether an atom begins at a position.
pub open spec fn starts_atom(t: Toks, p: int) -> bool {
    match tok_at(t, p) {
        Some(TokModel::TypeClass(_)) => true,
        Some(TokModel::Regex(_)) => true,
        Some(TokModel::Str(_)) => true,
        Some(TokModel::Ref(_)) => true,
        Some(TokModel::Ident(_)) => true,
        Some(TokModel::Mark(Mark::Caret)) => true,
        _ => false,
    }
}

/// Reads a token pattern as its predicates; the wildcard has none.
pub open spec fn pattern_at(t: Toks, p: int) -> Read<AttrsModel> {
    if is_word(t, p, "any"@) || is_mark(t, p, Mark::Dot) {
        Ok((Seq::empty(), p + 1))
    } else if is_word(t, p, "Token"@) {
        match mark_at(t, p + 1, Mark::LBrack) {
            Err(e) => Err(e),
            Ok((_, q)) => {
                let preds = if is_mark(t, q, Mark::RBrack) {
                    Ok((Seq::empty(), q))
                } else {
                    preds_from(t, q, Seq::empty())
                };
                match preds {
                    Err(e) => Err(e),
                    Ok((attrs, q)) => match mark_at(t, q, Mark::RBrack) {
                        Err(e) => Err(e),
                        Ok((_, q)) => Ok((attrs, q)),
                    },
                }
            },
        }
    } else if starts_atom(t, p) {
        atoms_from(t, p, Seq::empty())
    } else {
        Err(
            fault(
                t,
                p,
                "expected a token pattern: `Token[...]`, `@class`, `/regex/`, or `any`"@,
            ),
        )
    }
}

fn keyed_value(attr: String, suffix: &str, v: Result<String, DslError>) -> (r: Result<
    (String, Datum),
    DslError,
>)
    ensures
        match (v, r) {
            (Ok(s), Ok(x)) => x.0@ == attr@ + suffix@ && x.1@ == DatumModel::Text(s@),
            (Err(e), Err(f)) => e == f,
            _ => false,
        },
{
    match v {
        Ok(s) => Ok((join2(attr.as_str(), suffix), Datum::Text(s))),
        Err(e) => Err(e),
    }
}

fn to_values(list: Vec<String>) -> (r: Datum)
    ensures
        r@ == DatumModel::Sequence(text_values(texts(list@))),
{
    let mut out: Vec<Datum> = Vec::new();
    let mut i: usize = 0;
    while i < list.len()
        invariant
            i <= list@.len(),
            out@.len() == i,
            forall|k: int| 0 <= k < i ==> (#[trigger] out@[k])@ == DatumModel::Text(list@[k]@),
        decreases list@.len() - i,
    {
        out.push(Datum::Text(list[i].clone()));
        i += 1;
    }
    let r = crate::value::sequence(out);
    assert(r@->Sequence_0 =~= text_values(texts(list@)));
    r
}

impl Parser {
    fn parse_text_set(&mut self) -> (r: Result<Vec<String>, DslError>)
        requires
            old(self).wf(),
        ensures
            final(self).follows(&*old(self)),
            match r {
                Ok(x) => gives(
                    text_set_at(old(self).t(), old(self).p()),
                    texts(x@),
                    final(self).p(),
                ) && old(self).p() < final(self).p(),
                Err(e) => fails(text_set_at(old(self).t(), old(self).p()), e.0@),
            },
    {
        if let Err(e) = self.expect(Mark::LBrack) {
            return Err(e);
        }
        let mut items: Vec<String> = Vec::new();
        assert(texts(items@) =~= Seq::<Seq<char>>::empty());
        if !self.at_mark(Mark::RBrack) {
            items =
            match self.parse_texts(items) {
                Ok(v) => v,
                Err(e) => {
                    return Err(e);
                },
            };
        }
        if let Err(e) = self.expect(Mark::RBrack) {
            return Err(e);
        }
        Ok(items)
    }

    fn parse_pred(&mut self) -> (r: Result<(String, Datum), DslError>)
        requires
            old(self).wf(),
        ensures
            final(self).follows(&*old(self)),
            match r {
                Ok(x) => gives(
                    pred_at(old(self).t(), old(self).p()),
                    (x.0@, x.1@),
                    final(self).p(),
                ) && old(self).p() < final(self).p(),
                Err(e) => fails(pred_at(old(self).t(), old(self).p()), e.0@),
            },
    {
        let attr = match self.ident() {
            Ok(s) => s,
            Err(e) => {
                return Err(e);
            },
        };
        if self.at_word("in") {
            self.advance();
            return match self.parse_text_set() {
                Ok(list) => Ok((join2(attr.as_str(), ".any"), to_values(list))),
                Err(e) => Err(e),
            };
        }
        let op = match self.peek() {
            None => {
                return Err(self.err("expected an operator"));
            },
            Some(Tok::Mark(m)) => Some(*m),
            Some(_) => None,
        };
        match op {
            Some(Mark::Eq) => {
                self.advance();
                let v = self.scalar_value();
                keyed_value(attr, "", v)
            },
            Some(Mark::Tilde) => {
                self.advance();
                let v = self.regex_value();
                keyed_value(attr, ".regex", v)
            },
            Some(Mark::NotTilde) => {
                self.advance();
                let v = self.regex_value();
                keyed_value(attr, ".not.regex", v)
            },
            Some(Mark::Gt) => {
                self.advance();
                let v = self.num_value();
                keyed_value(attr, ".gt", v)
            },
            Some(Mark::Lt) => {
                self.advance();
                let v = self.num_value();
                keyed_value(attr, ".lt", v)
            },
            Some(Mark::Ge) => {
                self.advance();
                let v = self.num_value();
                keyed_value(attr, ".ge", v)
            },
            Some(Mark::Le) => {
                self.advance();
                let v = self.num_value();
                keyed_value(attr, ".le", v)
            },
            Some(Mark::EqEq) => {
                self.advance();
                let v = self.var_value();
                keyed_value(attr, ".eq_ref", v)
            },
            Some(Mark::Ne) => {
                self.advance();
                let v = self.var_value();
                keyed_value(attr, ".ne_ref", v)
            },
            _ => {
                let shown = match self.peek() {
                    Some(k) => show_tok(k),
                    None => String::new(),
                };
                self.advance();
                let msg = join2("unexpected operator ", shown.as_str());
                Err(self.err(msg.as_str()))
            },
        }
    }

    fn parse_preds(&mut self) -> (r: Result<Attrs, DslError>)
        requires
            old(self).wf(),
        ensures
            final(self).follows(&*old(self)),
            match r {
                Ok(x) => gives(
                    preds_from(old(self).t(), old(self).p(), Seq::empty()),
                    x@,
                    final(self).p(),
                ) && old(self).p() < final(self).p(),
                Err(e) => fails(preds_from(old(self).t(), old(self).p(), Seq::empty()), e.0@),
            },
    {
        let mut out = Attrs::new();
        let ghost all = preds_from(self.t(), self.p(), Seq::empty());
        loop
            invariant
                self.wf(),
                self.follows(&*old(self)),
                all == preds_from(old(self).t(), old(self).p(), Seq::empty()),
                all == preds_from(self.t(), self.p(), out@),
            decreases self.t().len() - self.p(),
        {
            let (k, v) = match self.parse_pred() {
                Ok(x) => x,
                Err(e) => {
                    return Err(e);
                },
            };
            out.insert(k, v);
            if !self.at_mark(Mark::Comma) {
                return Ok(out);
            }
            self.advance();
        }
    }

    fn token_atom(&mut self) -> (r: Result<(String, Datum), DslError>)
        requires
            old(self).wf(),
        ensures
            final(self).follows(&*old(self)),
            match r {
                Ok(x) => gives(
                    atom_at(old(self).t(), old(self).p()),
                    (x.0@, x.1@),
                    final(self).p(),
                ) && old(self).p() < final(self).p(),
                Err(e) => fails(atom_at(old(self).t(), old(self).p()), e.0@),
            },
    {
        let atom = match self.peek() {
            Some(Tok::TypeClass(s)) => Some(("class", s.clone())),
            Some(Tok::Regex(s)) => Some(("text.regex", s.clone())),
            Some(Tok::Str(s)) => Some(("text", s.clone())),
            Some(Tok::Ref(s)) => Some(("text.eq_ref", s.clone())),
            Some(Tok::Ident(s)) => if same(s.as_str(), "any") || same(s.as_str(), "Token") {
                None
            } else {
                Some(("text", s.clone()))
            },
            _ => None,
        };
        if self.at_mark(Mark::Caret) {
            self.advance();
            let v = self.regex_value();
            return keyed_value("text.not.regex".to_owned(), "", v);
        }
        self.advance();
        match atom {
            Some((k, s)) => Ok((k.to_owned(), Datum::Text(s))),
            None => Err(self.err("expected a `@class` or `/regex/` token matcher")),
        }
    }

    fn parse_atoms(&mut self) -> (r: Result<Attrs, DslError>)
        requires
            old(self).wf(),
        ensures
            final(self).follows(&*old(self)),
            match r {
                Ok(x) => gives(
                    atoms_from(old(self).t(), old(self).p(), Seq::empty()),
                    x@,
                    final(self).p(),
                ) && old(self).p() < final(self).p(),
                Err(e) => fails(atoms_from(old(self).t(), old(self).p(), Seq::empty()), e.0@),
            },
    {
        let mut out = Attrs::new();
        let ghost all = atoms_from(self.t(), self.p(), Seq::empty());
        loop
            invariant
                self.wf(),
                self.follows(&*old(self)),
                all == atoms_from(old(self).t(), old(self).p(), Seq::empty()),
                all == atoms_from(self.t(), self.p(), out@),
            decreases self.t().len() - self.p(),
        {
            let (k, v) = match self.token_atom() {
                Ok(x) => x,
                Err(e) => {
                    return Err(e);
                },
            };
            out.add(k, v);
            if !self.at_mark(Mark::Amp) {
                return Ok(out);
            }
            self.advance();
        }
    }

    fn at_atom(&self) -> (r: bool)
        requires
            self.wf(),
        ensures
            r == starts_atom(self.t(), self.p()),
    {
        match self.peek() {
            Some(Tok::TypeClass(_)) => true,
            Some(Tok::Regex(_)) => true,
            Some(Tok::Str(_)) => true,
            Some(Tok::Ref(_)) => true,
            Some(Tok::Ident(_)) => true,
            Some(Tok::Mark(m)) => *m == Mark::Caret,
            _ => false,
        }
    }

    fn parse_pattern(&mut self) -> (r: Result<Attrs, DslError>)
        requires
            old(self).wf(),
        ensures
            final(self).follows(&*old(self)),
            match r {
                Ok(x) => gives(pattern_at(old(self).t(), old(self).p()), x@, final(self).p())
                    && old(self).p() < final(self).p(),
                Err(e) => fails(pattern_at(old(self).t(), old(self).p()), e.0@),
            },
    {
        if self.at_word("any") || self.at_mark(Mark::Dot) {
            self.advance();
            return Ok(Attrs::new());
        }
        if self.at_word("Token") {
            self.advance();
            if let Err(e) = self.expect(Mark::LBrack) {
                return Err(e);
            }
            let mut attrs = Attrs::new();
            if !self.at_mark(Mark::RBrack) {
                attrs =
                match self.parse_preds() {
                    Ok(v) => v,
                    Err(e) => {
                        return Err(e);
                    },
                };
            }
            if let Err(e) = self.expect(Mark::RBrack) {
                return Err(e);
            }
            return Ok(attrs);
        }
        if self.at_atom() {
            return self.parse_atoms();
        }
        Err(self.err("expected a token pattern: `Token[...]`, `@class`, `/regex/`, or `any`"))
    }
}

// ---------------------------------------------------------------------------
// Scope clauses
// ---------------------------------------------------------------------------

/// A pattern of a clause.
pub open spec fn token_match(attrs: AttrsModel) -> RawMatchModel {
    RawMatchModel { event: None, attrs }
}

/// Reads one clause after `where` and adds it to those read already.
pub open spec fn clause_at(t: Toks, p: int, done: RawWhereModel) -> Read<RawWhereModel> {
    match word_at(t, p, "scope"@) {
        Err(e) => Err(e),
        Ok((_, q)) => if is_word(t, q, "not"@) {
            match word_at(t, q + 1, "contains"@) {
                Err(e) => Err(e),
                Ok((_, q)) => match pattern_at(t, q) {
                    Err(e) => Err(e),
                    Ok((attrs, q)) => Ok(
                        (RawWhereModel { not_contains: done.not_contains.push(token_match(attrs)), ..done }, q),
                    ),
                },
            }
        } else if is_word(t, q, "contains"@) {
            match pattern_at(t, q + 1) {
                Err(e) => Err(e),
                Ok((attrs, q)) => Ok(
                    (RawWhereModel { contains: done.contains.push(token_match(attrs)), ..done }, q),
                ),
            }
        } else if is_word(t, q, "followed"@) {
            match word_at(t, q + 1, "by"@) {
                Err(e) => Err(e),
                Ok((_, q)) => match pattern_at(t, q) {
                    Err(e) => Err(e),
                    Ok((attrs, q)) => Ok(
                        (RawWhereModel { followed_by: done.followed_by.push(token_match(attrs)), ..done }, q),
                    ),
                },
            }
        } else {
            Err(fault(t, q, "expected `contains`, `not contains`, or `followed by`"@))
        },
    }
}

/// Reads clauses as long as `where` stands there, after those read already.
pub open spec fn clauses_from(t: Toks, p: int, done: RawWhereModel) -> Read<RawWhereModel>
    decreases t.len() - p,
{
    if is_word(t, p, "where"@) {
        match clause_at(t, p + 1, done) {
            Err(e) => Err(e),
            Ok((next, q)) => if p < q <= t.len() {
                clauses_from(t, q, next)
            } else {
                Ok((next, q))
            },
        }
    } else {
        Ok((done, p))
    }
}

impl Parser {
    fn clause_match(&mut self) -> (r: Result<RawMatch, DslError>)
        requires
            old(self).wf(),
        ensures
            final(self).follows(&*old(self)),
            match r {
                Ok(x) => x@ == token_match(x@.attrs) && gives(
                    pattern_at(old(self).t(), old(self).p()),
                    x@.attrs,
                    final(self).p(),
                ) && old(self).p() < final(self).p(),
                Err(e) => fails(pattern_at(old(self).t(), old(self).p()), e.0@),
            },
    {
        match self.parse_pattern() {
            Ok(attrs) => Ok(RawMatch { event: None, attrs }),
            Err(e) => Err(e),
        }
    }

    fn parse_clause(&mut self, ws: RawWhereScope) -> (r: Result<RawWhereScope, DslError>)
        requires
            old(self).wf(),
        ensures
            final(self).follows(&*old(self)),
            match r {
                Ok(x) => gives(clause_at(old(self).t(), old(self).p(), ws@), x@, final(self).p())
                    && old(self).p() < final(self).p(),
                Err(e) => fails(clause_at(old(self).t(), old(self).p(), ws@), e.0@),
            },
    {
        let mut w = ws;
        if let Err(e) = self.eat_word("scope") {
            return Err(e);
        }
        if self.at_word("not") {
            self.advance();
            if let Err(e) = self.eat_word("contains") {
                return Err(e);
            }
            return match self.clause_match() {
                Ok(m) => {
                    w.not_contains.push(m);
                    assert(w@.not_contains =~= ws@.not_contains.push(m@));
                    Ok(w)
                },
                Err(e) => Err(e),
            };
        }
        if self.at_word("contains") {
            self.advance();
            return match self.clause_match() {
                Ok(m) => {
                    w.contains.push(m);
                    assert(w@.contains =~= ws@.contains.push(m@));
                    Ok(w)
                },
                Err(e) => Err(e),
            };
        }
        if self.at_word("followed") {
            self.advance();
            if let Err(e) = self.eat_word("by") {
                return Err(e);
            }
            return match self.clause_match() {
                Ok(m) => {
                    w.followed_by.push(m);
                    assert(w@.followed_by =~= ws@.followed_by.push(m@));
                    Ok(w)
                },
                Err(e) => Err(e),
            };
        }
        Err(self.err("expected `contains`, `not contains`, or `followed by`"))
    }

    fn parse_where_scope(&mut self) -> (r: Result<RawWhereScope, DslError>)
        requires
            old(self).wf(),
        ensures
            final(self).follows(&*old(self)),
            match r {
                Ok(x) => gives(
                    clauses_from(old(self).t(), old(self).p(), no_clauses()),
                    x@,
                    final(self).p(),
                ),
                Err(e) => fails(clauses_from(old(self).t(), old(self).p(), no_clauses()), e.0@),
            },
    {
        let mut ws = RawWhereScope {
            contains: Vec::new(),
            not_contains: Vec::new(),
            followed_by: Vec::new(),
        };
        assert(ws@.contains =~= Seq::<RawMatchModel>::empty());
        assert(ws@.not_contains =~= Seq::<RawMatchModel>::empty());
        assert(ws@.followed_by =~= Seq::<RawMatchModel>::empty());
        let ghost all = clauses_from(self.t(), self.p(), no_clauses());
        while self.at_word("where")
            invariant
                self.wf(),
                self.follows(&*old(self)),
                all == clauses_from(old(self).t(), old(self).p(), no_clauses()),
                all == clauses_from(self.t(), self.p(), ws@),
            decreases self.t().len() - self.p(),
        {
            self.advance();
            ws =
            match self.parse_clause(ws) {
                Ok(x) => x,
                Err(e) => {
                    return Err(e);
                },
            };
        }
        Ok(ws)
    }
}

/// No clauses.
pub open spec fn no_clauses() -> RawWhereModel {
    RawWhereModel { contains: Seq::empty(), not_contains: Seq::empty(), followed_by: Seq::empty() }
}

// ---------------------------------------------------------------------------
// Sequences
// ---------------------------------------------------------------------------

/// An alternative of a choice: a step that is only a pattern.
pub open spec fn plain_step(attrs: AttrsModel) -> RawStepModel {
    RawStepModel { event: None, attrs, quant: None, negate: None, bind: None, alt: None }
}

/// Reads the patterns of a choice with `|` between them, after those read already.
pub open spec fn choice_from(t: Toks, p: int, done: Seq<Seq<RawStepModel>>) -> Read<
    Seq<Seq<RawStepModel>>,
>
    decreases t.len() - p,
{
    match pattern_at(t, p) {
        Err(e) => Err(e),
        Ok((attrs, q)) => {
            let next = done.push(seq![plain_step(attrs)]);
            if is_mark(t, q, Mark::Pipe) && p <= q {
                choice_from(t, q + 1, next)
            } else {
                Ok((next, q))
            }
        },
    }
}

/// Reads the patterns of a set up to its closing bracket, after those read already.
pub open spec fn set_from(t: Toks, p: int, done: Seq<Seq<RawStepModel>>) -> Read<
    Seq<Seq<RawStepModel>>,
>
    decreases t.len() - p,
{
    match pattern_at(t, p) {
        Err(e) => Err(e),
        Ok((attrs, q)) => {
            let next = done.push(seq![plain_step(attrs)]);
            if is_mark(t, q, Mark::RBrack) || !(p < q <= t.len()) {
                Ok((next, q))
            } else {
                set_from(t, q, next)
            }
        },
    }
}

/// Reads what a step matches: a choice, a set or a pattern, as the predicates and
/// the alternatives.
pub open spec fn step_body_at(t: Toks, p: int) -> Read<
    (AttrsModel, Option<Seq<Seq<RawStepModel>>>),
> {
    if is_mark(t, p, Mark::LParen) {
        match choice_from(t, p + 1, Seq::empty()) {
            Err(e) => Err(e),
            Ok((alts, q)) => match mark_at(t, q, Mark::RParen) {
                Err(e) => Err(e),
                Ok((_, q)) => Ok(((Seq::empty(), Some(alts)), q)),
            },
        }
    } else if is_mark(t, p, Mark::LBrack) {
        match set_from(t, p + 1, Seq::empty()) {
            Err(e) => Err(e),
            Ok((alts, q)) => match mark_at(t, q, Mark::RBrack) {
                Err(e) => Err(e),
                Ok((_, q)) => Ok(((Seq::empty(), Some(alts)), q)),
            },
        }
    } else {
        match pattern_at(t, p) {
            Err(e) => Err(e),
            Ok((attrs, q)) => Ok(((attrs, None), q)),
        }
    }
}

/// The quantifier at a position, and the position after it.
pub open spec fn quant_at(t: Toks, p: int) -> (Option<Seq<char>>, int) {
    if is_mark(t, p, Mark::Star) {
        (Some("zero_or_more"@), p + 1)
    } else if is_mark(t, p, Mark::Plus) {
        (Some("one_or_more"@), p + 1)
    } else if is_mark(t, p, Mark::Question) {
        (Some("optional"@), p + 1)
    } else {
        (None, p)
    }
}

/// Whether a step is negated at a position: by `not`, or by `^` before anything but
/// a regex, of which `^` is a part.
pub open spec fn negated_at(t: Toks, p: int) -> bool {
    is_word(t, p, "not"@) || (is_mark(t, p, Mark::Caret) && !(tok_at(t, p + 1) matches Some(
        TokModel::Regex(_),
    )))
}

/// The capture of the matched text at a position.
pub open spec fn prefix_bind_at(t: Toks, p: int) -> BindsModel {
    match tok_at(t, p) {
        Some(TokModel::Bind(s)) => put(Seq::empty(), s, "text"@),
        _ => Seq::empty(),
    }
}

/// The captures of a step, if it has any.
pub open spec fn some_binds(binds: BindsModel) -> Option<BindsModel> {
    if binds.len() == 0 {
        None
    } else {
        Some(binds)
    }
}

/// Reads a step.
pub open spec fn step_at(t: Toks, p: int) -> Read<RawStepModel> {
    let negate = negated_at(t, p);
    let p1 = if negate {
        p + 1
    } else {
        p
    };
    let prefix = prefix_bind_at(t, p1);
    let p2 = if tok_at(t, p1) matches Some(TokModel::Bind(_)) {
        p1 + 1
    } else {
        p1
    };
    match step_body_at(t, p2) {
        Err(e) => Err(e),
        Ok(((attrs, alt), q)) => {
            let (quant, q) = quant_at(t, q);
            let binds = if is_word(t, q, "as"@) {
                binds_from(t, q + 1, prefix)
            } else {
                Ok((prefix, q))
            };
            match binds {
                Err(e) => Err(e),
                Ok((binds, q)) => Ok(
                    (
                        RawStepModel {
                            event: None,
                            attrs,
                            quant,
                            negate: Some(negate),
                            bind: some_binds(binds),
                            alt,
                        },
                        q,
                    ),
                ),
            }
        },
    }
}

/// Reads steps up to the closing brace, after those read already.
pub open spec fn steps_from(t: Toks, p: int, done: Seq<RawStepModel>) -> Read<Seq<RawStepModel>>
    decreases t.len() - p,
{
    if is_mark(t, p, Mark::RBrace) {
        Ok((done, p + 1))
    } else if tok_at(t, p) is None {
        Err(fault(t, p, "unexpected end of input inside `sequence { }`"@))
    } else {
        match step_at(t, p) {
            Err(e) => Err(e),
            Ok((s, q)) => if p < q <= t.len() {
                steps_from(t, q, done.push(s))
            } else {
                Ok((done.push(s), q))
            },
        }
    }
}

/// Reads a sequence: an optional anchor and the steps in braces.
pub open spec fn sequence_at(t: Toks, p: int) -> Read<RawSequenceModel> {
    let anchor = if is_word(t, p, "in"@) {
        match word_at(t, p + 1, "scope"@) {
            Err(e) => Err(e),
            Ok((_, q)) => Ok((Some(Some("ScopeStart..ScopeEnd"@)), q)),
        }
    } else {
        Ok((None, p))
    };
    match anchor {
        Err(e) => Err(e),
        Ok((anchor, q)) => match mark_at(t, q, Mark::LBrace) {
            Err(e) => Err(e),
            Ok((_, q)) => match steps_from(t, q, Seq::empty()) {
                Err(e) => Err(e),
                Ok((steps, q)) => Ok((RawSequenceModel { anchor, steps }, q)),
            },
        },
    }
}

/// The models of alternatives.
pub open spec fn alt_models(alts: Seq<Vec<RawStep>>) -> Seq<Seq<RawStepModel>> {
    alts.map_values(|v: Vec<RawStep>| views(v@))
}

proof fn lemma_raw_step(s: RawStep)
    ensures
        s@.event == opt_text(s.event),
        s@.attrs == s.attrs@,
        s@.quant == opt_text(s.quant),
        s@.negate == s.negate,
        s@.bind == opt_view(s.bind),
        s@.alt == (match s.alt {
            Some(alts) => Some(alt_models(alts@)),
            None => None,
        }),
{
    if let Some(alts) = s.alt {
        let m = s@.alt->0;
        assert forall|i: int| 0 <= i < alts@.len() implies m[i] == #[trigger] views(alts@[i]@) by {
            assert(m[i] =~= views(alts@[i]@));
        }
        assert(m =~= alt_models(alts@));
    }
}

fn plain(attrs: Attrs) -> (r: Vec<RawStep>)
    ensures
        views(r@) == seq![plain_step(attrs@)],
{
    let step = RawStep { event: None, attrs, quant: None, negate: None, bind: None, alt: None };
    proof {
        lemma_raw_step(step);
    }
    let mut out: Vec<RawStep> = Vec::new();
    out.push(step);
    assert(views(out@) =~= seq![plain_step(attrs@)]);
    out
}

impl Parser {
    fn parse_choice(&mut self) -> (r: Result<Vec<Vec<RawStep>>, DslError>)
        requires
            old(self).wf(),
        ensures
            final(self).follows(&*old(self)),
            match r {
                Ok(x) => gives(
                    choice_from(old(self).t(), old(self).p(), Seq::empty()),
                    alt_models(x@),
                    final(self).p(),
                ) && old(self).p() < final(self).p(),
                Err(e) => fails(choice_from(old(self).t(), old(self).p(), Seq::empty()), e.0@),
            },
    {
        let mut out: Vec<Vec<RawStep>> = Vec::new();
        let ghost all = choice_from(self.t(), self.p(), Seq::empty());
        assert(alt_models(out@) =~= Seq::<Seq<RawStepModel>>::empty());
        loop
            invariant
                self.wf(),
                self.follows(&*old(self)),
                all == choice_from(old(self).t(), old(self).p(), Seq::empty()),
                all == choice_from(self.t(), self.p(), alt_models(out@)),
            decreases self.t().len() - self.p(),
        {
            let attrs = match self.parse_pattern() {
                Ok(x) => x,
                Err(e) => {
                    return Err(e);
                },
            };
            let ghost done = alt_models(out@);
            out.push(plain(attrs));
            assert(alt_models(out@) =~= done.push(seq![plain_step(attrs@)]));
            if !self.at_mark(Mark::Pipe) {
                return Ok(out);
            }
            self.advance();
        }
    }

    fn parse_set(&mut self) -> (r: Result<Vec<Vec<RawStep>>, DslError>)
        requires
            old(self).wf(),
        ensures
            final(self).follows(&*old(self)),
            match r {
                Ok(x) => gives(
                    set_from(old(self).t(), old(self).p(), Seq::empty()),
                    alt_models(x@),
                    final(self).p(),
                ) && old(self).p() < final(self).p(),
                Err(e) => fails(set_from(old(self).t(), old(self).p(), Seq::empty()), e.0@),
            },
    {
        let mut out: Vec<Vec<RawStep>> = Vec::new();
        let ghost all = set_from(self.t(), self.p(), Seq::empty());
        assert(alt_models(out@) =~= Seq::<Seq<RawStepModel>>::empty());
        loop
            invariant
                self.wf(),
                self.follows(&*old(self)),
                all == set_from(old(self).t(), old(self).p(), Seq::empty()),
                all == set_from(self.t(), self.p(), alt_models(out@)),
            decreases self.t().len() - self.p(),
        {
            let attrs = match self.parse_pattern() {
                Ok(x) => x,
                Err(e) => {
                    return Err(e);
                },
            };
            let ghost done = alt_models(out@);
            out.push(plain(attrs));
            assert(alt_models(out@) =~= done.push(seq![plain_step(attrs@)]));
            if self.at_mark(Mark::RBrack) {
                return Ok(out);
            }
        }
    }

    fn parse_step_body(&mut self) -> (r: Result<(Attrs, Option<Vec<Vec<RawStep>>>), DslError>)
        requires
            old(self).wf(),
        ensures
            final(self).follows(&*old(self)),
            match r {
                Ok(x) => gives(
                    step_body_at(old(self).t(), old(self).p()),
                    (
                        x.0@,
                        match x.1 {
                            Some(alts) => Some(alt_models(alts@)),
                            None => None,
                        },
                    ),
                    final(self).p(),
                ) && old(self).p() < final(self).p(),
                Err(e) => fails(step_body_at(old(self).t(), old(self).p()), e.0@),
            },
    {
        if self.at_mark(Mark::LParen) {
            self.advance();
            let alts = match self.parse_choice() {
                Ok(x) => x,
                Err(e) => {
                    return Err(e);
                },
            };
            if let Err(e) = self.expect(Mark::RParen) {
                return Err(e);
            }
            return Ok((Attrs::new(), Some(alts)));
        }
        if self.at_mark(Mark::LBrack) {
            self.advance();
            let alts = match self.parse_set() {
                Ok(x) => x,
                Err(e) => {
                    return Err(e);
                },
            };
            if let Err(e) = self.expect(Mark::RBrack) {
                return Err(e);
            }
            return Ok((Attrs::new(), Some(alts)));
        }
        match self.parse_pattern() {
            Ok(attrs) => Ok((attrs, None)),
            Err(e) => Err(e),
        }
    }

    fn parse_quant(&mut self) -> (r: Option<String>)
        requires
            old(self).wf(),
        ensures
            final(self).follows(&*old(self)),
            quant_at(old(self).t(), old(self).p()) == (opt_text(r), final(self).p()),
    {
        if self.at_mark(Mark::Star) {
            self.advance();
            Some("zero_or_more".to_owned())
        } else if self.at_mark(Mark::Plus) {
            self.advance();
            Some("one_or_more".to_owned())
        } else if self.at_mark(Mark::Question) {
            self.advance();
            Some("optional".to_owned())
        } else {
            None
        }
    }

    fn parse_negation(&mut self) -> (r: bool)
        requires
            old(self).wf(),
        ensures
            final(self).follows(&*old(self)),
            r == negated_at(old(self).t(), old(self).p()),
            final(self).p() == (if r {
                old(self).p() + 1
            } else {
                old(self).p()
            }),
    {
        if self.at_word("not") {
            self.advance();
            return true;
        }
        if self.at_mark(Mark::Caret) {
            let regex = if self.toks.len() - self.pos > 1 {
                match &self.toks[self.pos + 1].0 {
                    Tok::Regex(_) => true,
                    _ => false,
                }
            } else {
                false
            };
            if !regex {
                self.advance();
                return true;
            }
        }
        false
    }

    fn parse_prefix_bind(&mut self) -> (r: Bindings)
        requires
            old(self).wf(),
        ensures
            final(self).follows(&*old(self)),
            r@ == prefix_bind_at(old(self).t(), old(self).p()),
            final(self).p() == (if tok_at(old(self).t(), old(self).p()) matches Some(
                TokModel::Bind(_),
            ) {
                old(self).p() + 1
            } else {
                old(self).p()
            }),
    {
        let mut binds = Bindings::new();
        let name = match self.peek() {
            Some(Tok::Bind(s)) => Some(s.clone()),
            _ => None,
        };
        if let Some(s) = name {
            self.advance();
            binds.insert(s, "text".to_owned());
        }
        binds
    }

    fn parse_step(&mut self) -> (r: Result<RawStep, DslError>)
        requires
            old(self).wf(),
        ensures
            final(self).follows(&*old(self)),
            match r {
                Ok(x) => gives(step_at(old(self).t(), old(self).p()), x@, final(self).p()) && old(
                    self,
                ).p() < final(self).p(),
                Err(e) => fails(step_at(old(self).t(), old(self).p()), e.0@),
            },
    {
        let negate = self.parse_negation();
        let mut binds = self.parse_prefix_bind();
        let (attrs, alt) = match self.parse_step_body() {
            Ok(x) => x,
            Err(e) => {
                return Err(e);
            },
        };
        let quant = self.parse_quant();
        if self.at_word("as") {
            self.advance();
            binds =
            match self.parse_bindlist(binds) {
                Ok(x) => x,
                Err(e) => {
                    return Err(e);
                },
            };
        }
        assert(binds@.len() == binds.entries@.len());
        let bind = if binds.entries.len() == 0 {
            None
        } else {
            Some(binds)
        };
        let step = RawStep { event: None, attrs, quant, negate: Some(negate), bind, alt };
        proof {
            lemma_raw_step(step);
        }
        Ok(step)
    }

    fn parse_sequence(&mut self) -> (r: Result<RawSequence, DslError>)
        requires
            old(self).wf(),
        ensures
            final(self).follows(&*old(self)),
            match r {
                Ok(x) => gives(sequence_at(old(self).t(), old(self).p()), x@, final(self).p())
                    && old(self).p() < final(self).p(),
                Err(e) => fails(sequence_at(old(self).t(), old(self).p()), e.0@),
            },
    {
        let mut anchor: Option<RawAnchor> = None;
        if self.at_word("in") {
            self.advance();
            if let Err(e) = self.eat_word("scope") {
                return Err(e);
            }
            anchor = Some(RawAnchor { within: Some("ScopeStart..ScopeEnd".to_owned()) });
        }
        if let Err(e) = self.expect(Mark::LBrace) {
            return Err(e);
        }
        match self.parse_steps() {
            Ok(steps) => Ok(RawSequence { anchor, steps }),
            Err(e) => Err(e),
        }
    }

    fn parse_steps(&mut self) -> (r: Result<Vec<RawStep>, DslError>)
        requires
            old(self).wf(),
        ensures
            final(self).follows(&*old(self)),
            match r {
                Ok(x) => gives(
                    steps_from(old(self).t(), old(self).p(), Seq::empty()),
                    views(x@),
                    final(self).p(),
                ) && old(self).p() < final(self).p(),
                Err(e) => fails(steps_from(old(self).t(), old(self).p(), Seq::empty()), e.0@),
            },
    {
        let mut steps: Vec<RawStep> = Vec::new();
        let ghost all = steps_from(self.t(), self.p(), Seq::empty());
        assert(views(steps@) =~= Seq::<RawStepModel>::empty());
        while !self.at_mark(Mark::RBrace)
            invariant
                self.wf(),
                self.follows(&*old(self)),
                all == steps_from(old(self).t(), old(self).p(), Seq::empty()),
                all == steps_from(self.t(), self.p(), views(steps@)),
            decreases self.t().len() - self.p(),
        {
            if self.peek().is_none() {
                return Err(self.err("unexpected end of input inside `sequence { }`"));
            }
            let step = match self.parse_step() {
                Ok(x) => x,
                Err(e) => {
                    return Err(e);
                },
            };
            let ghost done = views(steps@);
            steps.push(step);
            assert(views(steps@) =~= done.push(step@));
        }
        self.advance();
        Ok(steps)
    }
}

// ---------------------------------------------------------------------------
// Derived rules
// ---------------------------------------------------------------------------

/// Reads a set operation: `<op> of A, B [by file, function]`.
pub open spec fn compose_at(t: Toks, p: int) -> Read<RawComposeModel> {
    match ident_at(t, p) {
        Err(e) => Err(e),
        Ok((op, q)) => match word_at(t, q, "of"@) {
            Err(e) => Err(e),
            Ok((_, q)) => match idents_from(t, q, Seq::empty()) {
                Err(e) => Err(e),
                Ok((of, q)) => {
                    let key = if is_word(t, q, "by"@) {
                        idents_from(t, q + 1, Seq::empty())
                    } else {
                        Ok((Seq::empty(), q))
                    };
                    match key {
                        Err(e) => Err(e),
                        Ok((key, q)) => Ok((RawComposeModel { op, of, key }, q)),
                    }
                },
            },
        },
    }
}

/// Reads a threshold comparison.
pub open spec fn count_op_at(t: Toks, p: int) -> Read<Seq<char>> {
    if is_mark(t, p, Mark::Gt) {
        Ok(("gt"@, p + 1))
    } else if is_mark(t, p, Mark::Lt) {
        Ok(("lt"@, p + 1))
    } else if is_mark(t, p, Mark::Ge) {
        Ok(("ge"@, p + 1))
    } else if is_mark(t, p, Mark::Le) {
        Ok(("le"@, p + 1))
    } else if is_mark(t, p, Mark::EqEq) {
        Ok(("eq"@, p + 1))
    } else {
        Err(fault(t, past(t, p), "expected a comparison (>, <, >=, <=, ==)"@))
    }
}

/// The whole number of 64 bits that a numeral denotes.
pub open spec fn u64_of(s: Seq<char>) -> Option<u64> {
    if s.len() > 0 && all_digits(s) && digits_value(s) <= u64::MAX {
        Some(digits_value(s) as u64)
    } else {
        None
    }
}

/// Reads a threshold.
pub open spec fn threshold_at(t: Toks, p: int) -> Read<u64> {
    match tok_at(t, p) {
        Some(TokModel::Num(s)) => match u64_of(s) {
            Some(n) => Ok((n, p + 1)),
            None => Err(
                "line "@ + decimal_of(line_at(t, p + 1)) + ": "@
                    + "count threshold must be an integer"@,
            ),
        },
        _ => Err(fault(t, past(t, p), "expected an integer threshold"@)),
    }
}

/// Reads a count: `RULE per file > N`.
pub open spec fn count_at(t: Toks, p: int) -> Read<RawCountModel> {
    match ident_at(t, p) {
        Err(e) => Err(e),
        Ok((rule, q)) => match word_at(t, q, "per"@) {
            Err(e) => Err(e),
            Ok((_, q)) => match ident_at(t, q) {
                Err(e) => Err(e),
                Ok((scope, q)) => match count_op_at(t, q) {
                    Err(e) => Err(e),
                    Ok((op, q)) => match threshold_at(t, q) {
                        Err(e) => Err(e),
                        Ok((n, q)) => Ok((RawCountModel { rule, scope, op, n }, q)),
                    },
                },
            },
        },
    }
}

proof fn lemma_prefix_value(s: Seq<char>, i: int)
    requires
        0 <= i <= s.len(),
    ensures
        digits_value(s.take(i)) <= digits_value(s),
    decreases s.len() - i,
{
    if i < s.len() {
        lemma_prefix_value(s, i + 1);
        assert(s.take(i + 1).drop_last() == s.take(i));
    } else {
        assert(s.take(i) == s);
    }
}

/// Reads a whole number of 64 bits.
pub fn parse_u64(s: &str) -> (r: Option<u64>)
    ensures
        r == u64_of(s@),
{
    let b = to_chars(s);
    if b.len() == 0 {
        return None;
    }
    let mut acc: u64 = 0;
    let mut i: usize = 0;
    while i < b.len()
        invariant
            i <= b@.len(),
            b@ == s@,
            forall|k: int| 0 <= k < i ==> crate::text::digit_ok(#[trigger] b@[k]),
            acc == digits_value(b@.take(i as int)),
        decreases b@.len() - i,
    {
        if !is_digit(b[i]) {
            return None;
        }
        let d: u64 = (b[i] as u32 - 0x30) as u64;
        assert(b@.take(i + 1).drop_last() == b@.take(i as int));
        assert(digits_value(b@.take(i + 1)) == acc * 10 + d);
        if acc > 0x1999_9999_9999_9999 || (acc == 0x1999_9999_9999_9999 && d > 5) {
            proof {
                lemma_prefix_value(b@, i + 1);
            }
            return None;
        }
        acc = acc * 10 + d;
        i += 1;
    }
    assert(b@.take(i as int) == b@);
    Some(acc)
}

impl Parser {
    fn parse_compose(&mut self) -> (r: Result<RawCompose, DslError>)
        requires
            old(self).wf(),
        ensures
            final(self).follows(&*old(self)),
            match r {
                Ok(x) => gives(compose_at(old(self).t(), old(self).p()), x@, final(self).p())
                    && old(self).p() < final(self).p(),
                Err(e) => fails(compose_at(old(self).t(), old(self).p()), e.0@),
            },
    {
        let op = match self.ident() {
            Ok(x) => x,
            Err(e) => {
                return Err(e);
            },
        };
        if let Err(e) = self.eat_word("of") {
            return Err(e);
        }
        let none: Vec<String> = Vec::new();
        assert(texts(none@) =~= Seq::<Seq<char>>::empty());
        let of = match self.parse_idents(none) {
            Ok(x) => x,
            Err(e) => {
                return Err(e);
            },
        };
        let mut key: Vec<String> = Vec::new();
        assert(texts(key@) =~= Seq::<Seq<char>>::empty());
        if self.at_word("by") {
            self.advance();
            key =
            match self.parse_idents(key) {
                Ok(x) => x,
                Err(e) => {
                    return Err(e);
                },
            };
        }
        Ok(RawCompose { op, of, key })
    }

    fn parse_count_op(&mut self) -> (r: Result<String, DslError>)
        requires
            old(self).wf(),
        ensures
            final(self).follows(&*old(self)),
            match r {
                Ok(x) => gives(count_op_at(old(self).t(), old(self).p()), x@, final(self).p())
                    && old(self).p() < final(self).p(),
                Err(e) => fails(count_op_at(old(self).t(), old(self).p()), e.0@),
            },
    {
        let op = match self.peek() {
            Some(Tok::Mark(Mark::Gt)) => Some("gt"),
            Some(Tok::Mark(Mark::Lt)) => Some("lt"),
            Some(Tok::Mark(Mark::Ge)) => Some("ge"),
            Some(Tok::Mark(Mark::Le)) => Some("le"),
            Some(Tok::Mark(Mark::EqEq)) => Some("eq"),
            _ => None,
        };
        self.advance();
        match op {
            Some(s) => Ok(s.to_owned()),
            None => Err(self.err("expected a comparison (>, <, >=, <=, ==)")),
        }
    }

    fn parse_threshold(&mut self) -> (r: Result<u64, DslError>)
        requires
            old(self).wf(),
        ensures
            final(self).follows(&*old(self)),
            match r {
                Ok(x) => gives(threshold_at(old(self).t(), old(self).p()), x, final(self).p())
                    && old(self).p() < final(self).p(),
                Err(e) => fails(threshold_at(old(self).t(), old(self).p()), e.0@),
            },
    {
        let got = match self.peek() {
            Some(Tok::Num(s)) => Some(parse_u64(s.as_str())),
            _ => None,
        };
        self.advance();
        match got {
            Some(Some(n)) => Ok(n),
            Some(None) => {
                let line = self.line();
                Err(DslError(join2(line.as_str(), "count threshold must be an integer")))
            },
            None => Err(self.err("expected an integer threshold")),
        }
    }

    fn parse_count(&mut self) -> (r: Result<RawCount, DslError>)
        requires
            old(self).wf(),
        ensures
            final(self).follows(&*old(self)),
            match r {
                Ok(x) => gives(count_at(old(self).t(), old(self).p()), x@, final(self).p())
                    && old(self).p() < final(self).p(),
                Err(e) => fails(count_at(old(self).t(), old(self).p()), e.0@),
            },
    {
        let rule = match self.ident() {
            Ok(x) => x,
            Err(e) => {
                return Err(e);
            },
        };
        if let Err(e) = self.eat_word("per") {
            return Err(e);
        }
        let scope = match self.ident() {
            Ok(x) => x,
            Err(e) => {
                return Err(e);
            },
        };
        let op = match self.parse_count_op() {
            Ok(x) => x,
            Err(e) => {
                return Err(e);
            },
        };
        match self.parse_threshold() {
            Ok(n) => Ok(RawCount { rule, scope, op, n }),
            Err(e) => Err(e),
        }
    }
}

// ---------------------------------------------------------------------------
// Rules
// ---------------------------------------------------------------------------

/// Reads one exemption and adds it to those read already.
pub open spec fn unless_at(t: Toks, p: int, done: RawUnlessModel) -> Read<RawUnlessModel> {
    if is_word(t, p, "path"@) {
        match texts_from(t, p + 1, Seq::empty()) {
            Err(e) => Err(e),
            Ok((globs, q)) => Ok((RawUnlessModel { path_matches: Some(globs), ..done }, q)),
        }
    } else if is_word(t, p, "waiver"@) {
        match tok_at(t, p + 1) {
            Some(TokModel::Ident(s)) => Ok(
                (RawUnlessModel { waiver_exists: Some(Some(s)), ..done }, p + 2),
            ),
            _ => Ok((RawUnlessModel { waiver_exists: Some(None), ..done }, p + 1)),
        }
    } else if is_word(t, p, "adr"@) {
        match text_at(t, p + 1) {
            Err(e) => Err(e),
            Ok((topic, q)) => Ok((RawUnlessModel { adr_exists: Some(topic), ..done }, q)),
        }
    } else {
        Err(fault(t, p, "expected `path`, `waiver`, or `adr` after `unless`"@))
    }
}

/// What has been read of a rule's statements.
pub struct DraftModel {
    pub description: Option<Seq<char>>,
    pub message: Option<Seq<char>>,
    pub languages: Option<Seq<Language>>,
    pub includes: Seq<Seq<char>>,
    pub excludes: Seq<Seq<char>>,
    pub unless: RawUnlessModel,
    pub has_unless: bool,
    pub match_: Option<RawMatchModel>,
    pub match_sequence: Option<RawSequenceModel>,
    pub where_scope: Option<RawWhereModel>,
    pub compose: Option<RawComposeModel>,
    pub count: Option<RawCountModel>,
}

/// A rule without statements.
pub open spec fn empty_draft() -> DraftModel {
    DraftModel {
        description: None,
        message: None,
        languages: None,
        includes: Seq::empty(),
        excludes: Seq::empty(),
        unless: RawUnlessModel { path_matches: None, waiver_exists: None, adr_exists: None },
        has_unless: false,
        match_: None,
        match_sequence: None,
        where_scope: None,
        compose: None,
        count: None,
    }
}

/// Reads a `match` statement with its scope clauses.
pub open spec fn match_at(t: Toks, p: int, d: DraftModel) -> Read<DraftModel> {
    match pattern_at(t, p) {
        Err(e) => Err(e),
        Ok((attrs, q)) => {
            let next = DraftModel { match_: Some(token_match(attrs)), ..d };
            if is_word(t, q, "where"@) {
                match clauses_from(t, q, no_clauses()) {
                    Err(e) => Err(e),
                    Ok((w, q)) => Ok((DraftModel { where_scope: Some(w), ..next }, q)),
                }
            } else {
                Ok((next, q))
            }
        },
    }
}

/// Reads one statement of a rule and adds it to those read already.
pub open spec fn statement_at(t: Toks, p: int, d: DraftModel) -> Read<DraftModel> {
    if is_word(t, p, "lang"@) {
        match langs_from(t, p + 1, Seq::empty()) {
            Err(e) => Err(e),
            Ok((langs, q)) => Ok((DraftModel { languages: Some(langs), ..d }, q)),
        }
    } else if is_word(t, p, "in"@) {
        match texts_from(t, p + 1, Seq::empty()) {
            Err(e) => Err(e),
            Ok((globs, q)) => Ok((DraftModel { includes: d.includes + globs, ..d }, q)),
        }
    } else if is_word(t, p, "not"@) {
        match word_at(t, p + 1, "in"@) {
            Err(e) => Err(e),
            Ok((_, q)) => match texts_from(t, q, Seq::empty()) {
                Err(e) => Err(e),
                Ok((globs, q)) => Ok((DraftModel { excludes: d.excludes + globs, ..d }, q)),
            },
        }
    } else if is_word(t, p, "desc"@) {
        match text_at(t, p + 1) {
            Err(e) => Err(e),
            Ok((s, q)) => Ok((DraftModel { description: Some(s), ..d }, q)),
        }
    } else if is_word(t, p, "message"@) {
        match text_at(t, p + 1) {
            Err(e) => Err(e),
            Ok((s, q)) => Ok((DraftModel { message: Some(s), ..d }, q)),
        }
    } else if is_word(t, p, "unless"@) {
        match unless_at(t, p + 1, d.unless) {
            Err(e) => Err(e),
            Ok((u, q)) => Ok((DraftModel { unless: u, has_unless: true, ..d }, q)),
        }
    } else if is_word(t, p, "match"@) {
        match_at(t, p + 1, d)
    } else if is_word(t, p, "sequence"@) {
        match sequence_at(t, p + 1) {
            Err(e) => Err(e),
            Ok((s, q)) => Ok((DraftModel { match_sequence: Some(s), ..d }, q)),
        }
    } else if is_word(t, p, "compose"@) {
        match compose_at(t, p + 1) {
            Err(e) => Err(e),
            Ok((c, q)) => Ok((DraftModel { compose: Some(c), ..d }, q)),
        }
    } else if is_word(t, p, "count"@) {
        match count_at(t, p + 1) {
            Err(e) => Err(e),
            Ok((c, q)) => Ok((DraftModel { count: Some(c), ..d }, q)),
        }
    } else {
        Err(fault(t, p, "unexpected statement in rule body"@))
    }
}

/// Reads statements up to the closing brace, after those read already.
pub open spec fn statements_from(t: Toks, p: int, d: DraftModel) -> Read<DraftModel>
    decreases t.len() - p,
{
    if is_mark(t, p, Mark::RBrace) {
        Ok((d, p + 1))
    } else if tok_at(t, p) is None {
        Err(fault(t, p, "unexpected end of input inside `rule { }`"@))
    } else {
        match statement_at(t, p, d) {
            Err(e) => Err(e),
            Ok((next, q)) => if p < q <= t.len() {
                statements_from(t, q, next)
            } else {
                Ok((next, q))
            },
        }
    }
}

/// Reads the severity in parentheses; without it the severity is error.
pub open spec fn severity_at(t: Toks, p: int) -> Read<Severity> {
    if is_mark(t, p, Mark::LParen) {
        match ident_at(t, p + 1) {
            Err(e) => Err(e),
            Ok((s, q)) => {
                let severity = if s == "error"@ {
                    Ok((Severity::Error, q))
                } else if s == "warning"@ {
                    Ok((Severity::Warning, q))
                } else {
                    Err(fault(t, q, "unknown severity `"@ + s + "`"@))
                };
                match severity {
                    Err(e) => Err(e),
                    Ok((severity, q)) => match mark_at(t, q, Mark::RParen) {
                        Err(e) => Err(e),
                        Ok((_, q)) => Ok((severity, q)),
                    },
                }
            },
        }
    } else {
        Ok((Severity::Error, p))
    }
}

/// The languages and paths of a rule, if it is limited to any.
pub open spec fn applies_of(d: DraftModel) -> Option<AppliesModel> {
    let filtered = d.includes.len() > 0 || d.excludes.len() > 0;
    if d.languages is Some || filtered {
        Some(
            AppliesModel {
                languages: d.languages,
                paths: if filtered {
                    Some((d.includes, d.excludes))
                } else {
                    None
                },
            },
        )
    } else {
        None
    }
}

/// The rule of a name, a severity and statements.
pub open spec fn drafted(id: Seq<char>, severity: Severity, d: DraftModel) -> RawRuleModel {
    RawRuleModel {
        id,
        severity,
        description: d.description,
        message: d.message,
        applies_to: applies_of(d),
        match_: d.match_,
        match_sequence: d.match_sequence,
        where_scope: d.where_scope,
        compose: d.compose,
        count: d.count,
        unless: if d.has_unless {
            Some(d.unless)
        } else {
            None
        },
    }
}

/// Reads a rule.
#[verifier::opaque]
pub open spec fn rule_at(t: Toks, p: int) -> Read<RawRuleModel> {
    match word_at(t, p, "rule"@) {
        Err(e) => Err(e),
        Ok((_, q)) => match ident_at(t, q) {
            Err(e) => Err(e),
            Ok((id, q)) => match severity_at(t, q) {
                Err(e) => Err(e),
                Ok((severity, q)) => match mark_at(t, q, Mark::LBrace) {
                    Err(e) => Err(e),
                    Ok((_, q)) => match statements_from(t, q, empty_draft()) {
                        Err(e) => Err(e),
                        Ok((d, q)) => Ok((drafted(id, severity, d), q)),
                    },
                },
            },
        },
    }
}

struct Draft {
    description: Option<String>,
    message: Option<String>,
    languages: Option<Vec<Language>>,
    includes: Vec<String>,
    excludes: Vec<String>,
    unless: RawUnless,
    has_unless: bool,
    match_: Option<RawMatch>,
    match_sequence: Option<RawSequence>,
    where_scope: Option<RawWhereScope>,
    compose: Option<RawCompose>,
    count: Option<RawCount>,
}

impl View for Draft {
    type V = DraftModel;

    closed spec fn view(&self) -> DraftModel {
        DraftModel {
            description: opt_text(self.description),
            message: opt_text(self.message),
            languages: crate::schema::opt_items(self.languages),
            includes: texts(self.includes@),
            excludes: texts(self.excludes@),
            unless: self.unless@,
            has_unless: self.has_unless,
            match_: opt_view(self.match_),
            match_sequence: opt_view(self.match_sequence),
            where_scope: opt_view(self.where_scope),
            compose: opt_view(self.compose),
            count: opt_view(self.count),
        }
    }
}

fn new_draft() -> (r: Draft)
    ensures
        r@ == empty_draft(),
{
    let r = Draft {
        description: None,
        message: None,
        languages: None,
        includes: Vec::new(),
        excludes: Vec::new(),
        unless: RawUnless { path_matches: None, waiver_exists: None, adr_exists: None },
        has_unless: false,
        match_: None,
        match_sequence: None,
        where_scope: None,
        compose: None,
        count: None,
    };
    assert(r@.includes =~= Seq::<Seq<char>>::empty());
    assert(r@.excludes =~= Seq::<Seq<char>>::empty());
    r
}

fn finish(id: String, severity: Severity, d: Draft) -> (r: RawRule)
    ensures
        r@ == drafted(id@, severity, d@),
{
    let filtered = d.includes.len() > 0 || d.excludes.len() > 0;
    let limited = d.languages.is_some() || filtered;
    let paths = if filtered {
        Some(PathFilter { includes: d.includes, excludes: d.excludes })
    } else {
        None
    };
    let applies_to = if limited {
        Some(AppliesTo { languages: d.languages, paths })
    } else {
        None
    };
    let unless = if d.has_unless {
        Some(d.unless)
    } else {
        None
    };
    RawRule {
        id,
        severity,
        description: d.description,
        message: d.message,
        applies_to,
        match_: d.match_,
        match_sequence: d.match_sequence,
        where_scope: d.where_scope,
        compose: d.compose,
        count: d.count,
        unless,
    }
}

impl Parser {
    fn parse_str_list(&mut self) -> (r: Result<Vec<String>, DslError>)
        requires
            old(self).wf(),
        ensures
            final(self).follows(&*old(self)),
            match r {
                Ok(x) => gives(
                    texts_from(old(self).t(), old(self).p(), Seq::empty()),
                    texts(x@),
                    final(self).p(),
                ) && old(self).p() < final(self).p(),
                Err(e) => fails(texts_from(old(self).t(), old(self).p(), Seq::empty()), e.0@),
            },
    {
        let none: Vec<String> = Vec::new();
        assert(texts(none@) =~= Seq::<Seq<char>>::empty());
        self.parse_texts(none)
    }

    fn parse_unless(&mut self, u: RawUnless) -> (r: Result<RawUnless, DslError>)
        requires
            old(self).wf(),
        ensures
            final(self).follows(&*old(self)),
            match r {
                Ok(x) => gives(unless_at(old(self).t(), old(self).p(), u@), x@, final(self).p())
                    && old(self).p() < final(self).p(),
                Err(e) => fails(unless_at(old(self).t(), old(self).p(), u@), e.0@),
            },
    {
        if self.at_word("path") {
            self.advance();
            return match self.parse_str_list() {
                Ok(globs) => Ok(
                    RawUnless {
                        path_matches: Some(globs),
                        waiver_exists: u.waiver_exists,
                        adr_exists: u.adr_exists,
                    },
                ),
                Err(e) => Err(e),
            };
        }
        if self.at_word("waiver") {
            self.advance();
            let rule = match self.peek() {
                Some(Tok::Ident(s)) => Some(s.clone()),
                _ => None,
            };
            if rule.is_some() {
                self.advance();
            }
            return Ok(
                RawUnless {
                    path_matches: u.path_matches,
                    waiver_exists: Some(WaiverGuard { rule }),
                    adr_exists: u.adr_exists,
                },
            );
        }
        if self.at_word("adr") {
            self.advance();
            return match self.string() {
                Ok(topic) => Ok(
                    RawUnless {
                        path_matches: u.path_matches,
                        waiver_exists: u.waiver_exists,
                        adr_exists: Some(AdrGuard { topic }),
                    },
                ),
                Err(e) => Err(e),
            };
        }
        Err(self.err("expected `path`, `waiver`, or `adr` after `unless`"))
    }

    fn parse_match(&mut self, draft: Draft) -> (r: Result<Draft, DslError>)
        requires
            old(self).wf(),
        ensures
            final(self).follows(&*old(self)),
            match r {
                Ok(x) => gives(match_at(old(self).t(), old(self).p(), draft@), x@, final(self).p())
                    && old(self).p() < final(self).p(),
                Err(e) => fails(match_at(old(self).t(), old(self).p(), draft@), e.0@),
            },
    {
        let mut d = draft;
        match self.clause_match() {
            Ok(m) => {
                d.match_ = Some(m);
            },
            Err(e) => {
                return Err(e);
            },
        }
        if self.at_word("where") {
            match self.parse_where_scope() {
                Ok(w) => {
                    d.where_scope = Some(w);
                },
                Err(e) => {
                    return Err(e);
                },
            }
        }
        Ok(d)
    }

    fn parse_statement(&mut self, draft: Draft) -> (r: Result<Draft, DslError>)
        requires
            old(self).wf(),
        ensures
            final(self).follows(&*old(self)),
            match r {
                Ok(x) => gives(
                    statement_at(old(self).t(), old(self).p(), draft@),
                    x@,
                    final(self).p(),
                ) && old(self).p() < final(self).p(),
                Err(e) => fails(statement_at(old(self).t(), old(self).p(), draft@), e.0@),
            },
    {
        let mut d = draft;
        if self.at_word("lang") {
            self.advance();
            match self.parse_langs() {
                Ok(v) => {
                    d.languages = Some(v);
                },
                Err(e) => {
                    return Err(e);
                },
            }
        } else if self.at_word("in") {
            self.advance();
            match self.parse_str_list() {
                Ok(v) => {
                    let mut more = v;
                    d.includes.append(&mut more);
                    assert(texts(d.includes@) =~= texts(draft.includes@) + texts(v@));
                },
                Err(e) => {
                    return Err(e);
                },
            }
        } else if self.at_word("not") {
            self.advance();
            if let Err(e) = self.eat_word("in") {
                return Err(e);
            }
            match self.parse_str_list() {
                Ok(v) => {
                    let mut more = v;
                    d.excludes.append(&mut more);
                    assert(texts(d.excludes@) =~= texts(draft.excludes@) + texts(v@));
                },
                Err(e) => {
                    return Err(e);
                },
            }
        } else if self.at_word("desc") {
            self.advance();
            match self.string() {
                Ok(s) => {
                    d.description = Some(s);
                },
                Err(e) => {
                    return Err(e);
                },
            }
        } else if self.at_word("message") {
            self.advance();
            match self.string() {
                Ok(s) => {
                    d.message = Some(s);
                },
                Err(e) => {
                    return Err(e);
                },
            }
        } else if self.at_word("unless") {
            self.advance();
            match self.parse_unless(d.unless) {
                Ok(u) => {
                    d.unless = u;
                    d.has_unless = true;
                },
                Err(e) => {
                    return Err(e);
                },
            }
        } else if self.at_word("match") {
            self.advance();
            return self.parse_match(d);
        } else if self.at_word("sequence") {
            self.advance();
            match self.parse_sequence() {
                Ok(s) => {
                    d.match_sequence = Some(s);
                },
                Err(e) => {
                    return Err(e);
                },
            }
        } else if self.at_word("compose") {
            self.advance();
            match self.parse_compose() {
                Ok(c) => {
                    d.compose = Some(c);
                },
                Err(e) => {
                    return Err(e);
                },
            }
        } else if self.at_word("count") {
            self.advance();
            match self.parse_count() {
                Ok(c) => {
                    d.count = Some(c);
                },
                Err(e) => {
                    return Err(e);
                },
            }
        } else {
            return Err(self.err("unexpected statement in rule body"));
        }
        Ok(d)
    }

    fn parse_statements(&mut self) -> (r: Result<Draft, DslError>)
        requires
            old(self).wf(),
        ensures
            final(self).follows(&*old(self)),
            match r {
                Ok(x) => gives(
                    statements_from(old(self).t(), old(self).p(), empty_draft()),
                    x@,
                    final(self).p(),
                ) && old(self).p() < final(self).p(),
                Err(e) => fails(statements_from(old(self).t(), old(self).p(), empty_draft()), e.0@),
            },
    {
        let mut d = new_draft();
        let ghost all = statements_from(self.t(), self.p(), empty_draft());
        while !self.at_mark(Mark::RBrace)
            invariant
                self.wf(),
                self.follows(&*old(self)),
                all == statements_from(old(self).t(), old(self).p(), empty_draft()),
                all == statements_from(self.t(), self.p(), d@),
            decreases self.t().len() - self.p(),
        {
            if self.peek().is_none() {
                return Err(self.err("unexpected end of input inside `rule { }`"));
            }
            d =
            match self.parse_statement(d) {
                Ok(x) => x,
                Err(e) => {
                    return Err(e);
                },
            };
        }
        self.advance();
        Ok(d)
    }

    fn parse_severity(&mut self) -> (r: Result<Severity, DslError>)
        requires
            old(self).wf(),
        ensures
            final(self).follows(&*old(self)),
            match r {
                Ok(x) => gives(severity_at(old(self).t(), old(self).p()), x, final(self).p()),
                Err(e) => fails(severity_at(old(self).t(), old(self).p()), e.0@),
            },
    {
        if !self.at_mark(Mark::LParen) {
            return Ok(Severity::Error);
        }
        self.advance();
        let s = match self.ident() {
            Ok(x) => x,
            Err(e) => {
                return Err(e);
            },
        };
        let severity = if same(s.as_str(), "error") {
            Severity::Error
        } else if same(s.as_str(), "warning") {
            Severity::Warning
        } else {
            let msg = join3("unknown severity `", s.as_str(), "`");
            return Err(self.err(msg.as_str()));
        };
        if let Err(e) = self.expect(Mark::RParen) {
            return Err(e);
        }
        Ok(severity)
    }

    fn parse_rule(&mut self) -> (r: Result<RawRule, DslError>)
        requires
            old(self).wf(),
        ensures
            final(self).follows(&*old(self)),
            match r {
                Ok(x) => gives(rule_at(old(self).t(), old(self).p()), x@, final(self).p()) && old(
                    self,
                ).p() < final(self).p(),
                Err(e) => fails(rule_at(old(self).t(), old(self).p()), e.0@),
            },
    {
        proof {
            reveal(rule_at);
        }
        if let Err(e) = self.eat_word("rule") {
            return Err(e);
        }
        let id = match self.ident() {
            Ok(x) => x,
            Err(e) => {
                return Err(e);
            },
        };
        let severity = match self.parse_severity() {
            Ok(x) => x,
            Err(e) => {
                return Err(e);
            },
        };
        if let Err(e) = self.expect(Mark::LBrace) {
            return Err(e);
        }
        match self.parse_statements() {
            Ok(d) => Ok(finish(id, severity, d)),
            Err(e) => Err(e),
        }
    }
}

// ---------------------------------------------------------------------------
// Rule files
// ---------------------------------------------------------------------------

/// Reads rules and directives up to the end, after what was read already.
pub open spec fn file_from(t: Toks, p: int, f: RuleFileModel) -> Result<RuleFileModel, Seq<char>>
    decreases t.len() - p,
{
    if tok_at(t, p) is None {
        Ok(f)
    } else if is_word(t, p, "rule"@) {
        match rule_at(t, p) {
            Err(e) => Err(e),
            Ok((r, q)) => if p < q <= t.len() {
                file_from(t, q, RuleFileModel { rules: f.rules.push(r), ..f })
            } else {
                Ok(f)
            },
        }
    } else if is_word(t, p, "waivers"@) {
        match text_at(t, p + 1) {
            Err(e) => Err(e),
            Ok((s, q)) => file_from(t, p + 2, RuleFileModel { waivers_dir: Some(s), ..f }),
        }
    } else if is_word(t, p, "adrs"@) {
        match text_at(t, p + 1) {
            Err(e) => Err(e),
            Ok((s, q)) => file_from(t, p + 2, RuleFileModel { adr_dir: Some(s), ..f }),
        }
    } else {
        Err(fault(t, p, "expected `rule`, `waivers`, or `adrs`"@))
    }
}

/// A rule file without rules.
pub open spec fn empty_file() -> RuleFileModel {
    RuleFileModel { rules: Seq::empty(), waivers_dir: None, adr_dir: None }
}

/// The rule file that a text denotes.
pub open spec fn parsed(text: Seq<char>) -> Result<RuleFileModel, Seq<char>> {
    match lexed(text) {
        Err(e) => Err(e),
        Ok(t) => file_from(t, 0, empty_file()),
    }
}

impl Parser {
    fn parse_file(&mut self) -> (r: Result<RuleFile, DslError>)
        requires
            old(self).wf(),
        ensures
            final(self).follows(&*old(self)),
            r is Ok ==> final(self).p() == final(self).t().len(),
            match r {
                Ok(x) => file_from(old(self).t(), old(self).p(), empty_file()) == Ok::<
                    RuleFileModel,
                    Seq<char>,
                >(x@),
                Err(e) => file_from(old(self).t(), old(self).p(), empty_file()) == Err::<
                    RuleFileModel,
                    Seq<char>,
                >(e.0@),
            },
    {
        let mut f = RuleFile { rules: Vec::new(), waivers_dir: None, adr_dir: None };
        let ghost all = file_from(self.t(), self.p(), empty_file());
        assert(f@.rules =~= Seq::<RawRuleModel>::empty());
        while self.peek().is_some()
            invariant
                self.wf(),
                self.follows(&*old(self)),
                all == file_from(old(self).t(), old(self).p(), empty_file()),
                all == file_from(self.t(), self.p(), f@),
            decreases self.t().len() - self.p(),
        {
            if self.at_word("rule") {
                let rule = match self.parse_rule() {
                    Ok(x) => x,
                    Err(e) => {
                        return Err(e);
                    },
                };
                let ghost done = f@.rules;
                f.rules.push(rule);
                assert(f@.rules =~= done.push(rule@));
            } else if self.at_word("waivers") {
                self.advance();
                match self.string() {
                    Ok(s) => {
                        f.waivers_dir = Some(s);
                    },
                    Err(e) => {
                        return Err(e);
                    },
                }
            } else if self.at_word("adrs") {
                self.advance();
                match self.string() {
                    Ok(s) => {
                        f.adr_dir = Some(s);
                    },
                    Err(e) => {
                        return Err(e);
                    },
                }
            } else {
                return Err(self.err("expected `rule`, `waivers`, or `adrs`"));
            }
        }
        Ok(f)
    }
}

/// Parses rule text into a rule file (no compilation).
pub fn parse(text: &str) -> (r: Result<RuleFile, DslError>)
    ensures
        match r {
            Ok(x) => parsed(text@) == Ok::<RuleFileModel, Seq<char>>(x@),
            Err(e) => parsed(text@) == Err::<RuleFileModel, Seq<char>>(e.0@),
        },
{
    match lex(text) {
        Err(e) => Err(DslError(e)),
        Ok(toks) => {
            let mut p = Parser { toks, pos: 0 };
            p.parse_file()
        },
    }
}

/// Parses and compiles rules written in the textual grammar.
pub fn load(text: &str) -> (r: Result<(Vec<CompiledRule>, RuleFile), DslError>)
    ensures
        match r {
            Ok((v, f)) => parsed(text@) == Ok::<RuleFileModel, Seq<char>>(f@) && rules_of(f@.rules)
                == Ok::<Seq<RuleModel>, Seq<char>>(views(v@)) && rules_wf(v@),
            Err(e) => match parsed(text@) {
                Ok(f) => rules_of(f.rules) == Err::<Seq<RuleModel>, Seq<char>>(e.0@),
                Err(msg) => e.0@ == msg,
            },
        },
{
    match parse(text) {
        Err(e) => Err(e),
        Ok(f) => match compile_rules(&f.rules) {
            Ok(v) => Ok((v, f)),
            Err(e) => Err(DslError(e.message())),
        },
    }
}

// ---------------------------------------------------------------------------
// Laws
// ---------------------------------------------------------------------------

/// Whether `Token[ field <op> v ]` with a one-token value stands at a position.
pub open spec fn is_field_form(u: Toks, q: int, field: Seq<char>, op: Mark, value: TokModel) -> bool {
    &&& is_word(u, q, "Token"@)
    &&& is_mark(u, q + 1, Mark::LBrack)
    &&& is_word(u, q + 2, field)
    &&& is_mark(u, q + 3, op)
    &&& tok_at(u, q + 4) == Some(value)
    &&& is_mark(u, q + 5, Mark::RBrack)
}

/// The predicates of a pattern that has one.
pub open spec fn one_pred(k: Seq<char>, v: Seq<char>) -> AttrsModel {
    seq![(k, DatumModel::Text(v))]
}

proof fn lemma_field_form(u: Toks, q: int, field: Seq<char>, op: Mark, value: TokModel)
    requires
        is_field_form(u, q, field, op, value),
        field != "in"@,
    ensures
        match pred_at(u, q + 2) {
            Ok(((k, v), p)) => p == q + 5 ==> pattern_at(u, q) == Ok::<(AttrsModel, int), Seq<char>>(
                (seq![(k, v)], q + 6),
            ),
            Err(e) => true,
        },
{
    reveal_strlit("any");
    reveal_strlit("Token");
    assert("any"@.len() == 3 && "Token"@.len() == 5);
}

/// `@class` means `Token[class = "class"]`.
pub proof fn class_atom_is_a_class_predicate(t: Toks, p: int, u: Toks, q: int, s: Seq<char>)
    requires
        tok_at(t, p) == Some(TokModel::TypeClass(s)),
        !is_mark(t, p + 1, Mark::Amp),
        is_field_form(u, q, "class"@, Mark::Eq, TokModel::Str(s)),
    ensures
        gives(pattern_at(t, p), one_pred("class"@, s), p + 1),
        gives(pattern_at(u, q), one_pred("class"@, s), q + 6),
{
    reveal_strlit("class");
    reveal_strlit("in");
    reveal_strlit("");
    assert("class"@.len() == 5 && "in"@.len() == 2);
    assert("class"@ + ""@ =~= "class"@);
    assert(!is_word(u, q + 3, "in"@));
    lemma_field_form(u, q, "class"@, Mark::Eq, TokModel::Str(s));
}

/// `/regex/` means `Token[text ~ /regex/]`.
pub proof fn regex_atom_is_a_text_predicate(t: Toks, p: int, u: Toks, q: int, s: Seq<char>)
    requires
        tok_at(t, p) == Some(TokModel::Regex(s)),
        !is_mark(t, p + 1, Mark::Amp),
        is_field_form(u, q, "text"@, Mark::Tilde, TokModel::Regex(s)),
    ensures
        gives(pattern_at(t, p), one_pred("text.regex"@, s), p + 1),
        gives(pattern_at(u, q), one_pred("text.regex"@, s), q + 6),
{
    reveal_strlit("text");
    reveal_strlit("in");
    reveal_strlit(".regex");
    reveal_strlit("text.regex");
    assert("text"@.len() == 4 && "in"@.len() == 2);
    assert("text"@ + ".regex"@ =~= "text.regex"@);
    assert(!is_word(u, q + 3, "in"@));
    lemma_field_form(u, q, "text"@, Mark::Tilde, TokModel::Regex(s));
}

/// `^/regex/` means `Token[text !~ /regex/]`.
pub proof fn negated_regex_is_a_text_predicate(t: Toks, p: int, u: Toks, q: int, s: Seq<char>)
    requires
        is_mark(t, p, Mark::Caret),
        tok_at(t, p + 1) == Some(TokModel::Regex(s)),
        !is_mark(t, p + 2, Mark::Amp),
        is_field_form(u, q, "text"@, Mark::NotTilde, TokModel::Regex(s)),
    ensures
        gives(pattern_at(t, p), one_pred("text.not.regex"@, s), p + 2),
        gives(pattern_at(u, q), one_pred("text.not.regex"@, s), q + 6),
{
    reveal_strlit("text");
    reveal_strlit("in");
    reveal_strlit("");
    reveal_strlit(".not.regex");
    reveal_strlit("text.not.regex");
    assert("text"@.len() == 4 && "in"@.len() == 2);
    assert("text"@ + ".not.regex"@ =~= "text.not.regex"@);
    assert("text.not.regex"@ + ""@ =~= "text.not.regex"@);
    assert(!is_word(u, q + 3, "in"@));
    lemma_field_form(u, q, "text"@, Mark::NotTilde, TokModel::Regex(s));
}

/// A bare word or a quoted text means `Token[text = "text"]`.
pub proof fn literal_is_a_text_predicate(t: Toks, p: int, u: Toks, q: int, s: Seq<char>)
    requires
        tok_at(t, p) == Some(TokModel::Str(s)) || (tok_at(t, p) == Some(TokModel::Ident(s)) && s
            != "any"@ && s != "Token"@),
        !is_mark(t, p + 1, Mark::Amp),
        is_field_form(u, q, "text"@, Mark::Eq, TokModel::Str(s)),
    ensures
        gives(pattern_at(t, p), one_pred("text"@, s), p + 1),
        gives(pattern_at(u, q), one_pred("text"@, s), q + 6),
{
    reveal_strlit("text");
    reveal_strlit("in");
    reveal_strlit("");
    assert("text"@.len() == 4 && "in"@.len() == 2);
    assert("text"@ + ""@ =~= "text"@);
    assert(!is_word(u, q + 3, "in"@));
    lemma_field_form(u, q, "text"@, Mark::Eq, TokModel::Str(s));
}

} // verus!
