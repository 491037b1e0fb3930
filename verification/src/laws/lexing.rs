//! The characters of rule text and the tokens that they spell.

use vstd::prelude::*;

use crate::lexer::{
    lex_from,
    line_end,
    name_end,
    num_end,
    regex_at,
    string_at,
    token_at,
    Mark,
    TokModel,
};
use crate::text::white;

verus! {

/// Whether a name can begin with a character: an ASCII letter or an underscore.
pub open spec fn begins_name(c: char) -> bool {
    'a' <= c <= 'z' || 'A' <= c <= 'Z' || c == '_'
}

/// Whether a name can hold a character: also a digit.
pub open spec fn in_name(c: char) -> bool {
    begins_name(c) || '0' <= c <= '9'
}

/// Whether a text is a run of name characters.
pub open spec fn name_run(w: Seq<char>) -> bool {
    w.len() > 0 && forall|i: int| 0 <= i < w.len() ==> in_name(#[trigger] w[i])
}

/// Whether a text is a name.
pub open spec fn is_name(w: Seq<char>) -> bool {
    name_run(w) && begins_name(w[0])
}

/// Whether a text stands in another at a position.
pub open spec fn spelled(s: Seq<char>, i: int, w: Seq<char>) -> bool {
    0 <= i && i + w.len() <= s.len() && forall|k: int| 0 <= k < w.len() ==> s[i + k] == #[trigger] w[k]
}

/// The character at a position, if there is one.
pub open spec fn at(s: Seq<char>, i: int) -> Option<char> {
    if 0 <= i < s.len() {
        Some(s[i])
    } else {
        None
    }
}

/// Whether a token is read at a position and ends at another.
pub open spec fn spells(s: Seq<char>, i: int, t: TokModel, n: int) -> bool {
    token_at(s, i) == Ok::<(TokModel, int), Seq<char>>((t, n))
}

proof fn lemma_name_end(s: Seq<char>, i: int, n: int)
    requires
        0 <= i <= n <= s.len(),
        forall|k: int| i <= k < n ==> in_name(#[trigger] s[k]),
        n == s.len() || !in_name(s[n]),
    ensures
        name_end(s, i) == n,
    decreases n - i,
{
    if i < n {
        assert(in_name(s[i]));
        lemma_name_end(s, i + 1, n);
    }
}

proof fn lemma_num_end(s: Seq<char>, i: int, n: int)
    requires
        0 <= i <= n <= s.len(),
        forall|k: int| i <= k < n ==> '0' <= #[trigger] s[k] <= '9' || s[k] == '.',
        n == s.len() || !('0' <= s[n] <= '9' || s[n] == '.'),
    ensures
        num_end(s, i) == n,
    decreases n - i,
{
    if i < n {
        assert('0' <= s[i] <= '9' || s[i] == '.');
        lemma_num_end(s, i + 1, n);
    }
}

/// A name is a word, or, with a colon right behind it, binds what follows. `@name` is a class
/// and `:name` refers to what was bound. A name goes as far as its characters do.
pub proof fn names_are_words(s: Seq<char>, i: int, w: Seq<char>)
    requires
        name_run(w),
    ensures
        is_name(w) && spelled(s, i, w) && !(at(s, i + w.len()) is Some && (in_name(
            at(s, i + w.len())->0,
        ) || at(s, i + w.len()) == Some(':'))) ==> spells(s, i, TokModel::Ident(w), i + w.len()),
        is_name(w) && spelled(s, i, w + seq![':']) ==> spells(
            s,
            i,
            TokModel::Bind(w),
            i + w.len() + 1,
        ),
        spelled(s, i, seq!['@'] + w) && !(at(s, i + 1 + w.len()) is Some && in_name(
            at(s, i + 1 + w.len())->0,
        )) ==> spells(s, i, TokModel::TypeClass(w), i + 1 + w.len()),
        is_name(w) && spelled(s, i, seq![':'] + w) && !(at(s, i + 1 + w.len()) is Some && in_name(
            at(s, i + 1 + w.len())->0,
        )) ==> spells(s, i, TokModel::Ref(w), i + 1 + w.len()),
{
    let n = i + w.len();
    if is_name(w) && spelled(s, i, w) && !(at(s, n) is Some && (in_name(at(s, n)->0) || at(s, n)
        == Some(':'))) {
        assert(s[i + 0] == w[0]);
        assert forall|k: int| i <= k < n implies in_name(#[trigger] s[k]) by {
            assert(s[i + (k - i)] == w[k - i]);
        }
        lemma_name_end(s, i, n);
        assert(s.subrange(i, n) =~= w) by {
            assert forall|k: int| 0 <= k < w.len() implies s.subrange(i, n)[k] == w[k] by {
                assert(s[i + k] == w[k]);
            }
        }
    }
    let wb = w + seq![':'];
    if is_name(w) && spelled(s, i, wb) {
        assert(s[i + 0] == wb[0]);
        assert forall|k: int| i <= k < n implies in_name(#[trigger] s[k]) by {
            assert(s[i + (k - i)] == wb[k - i]);
        }
        assert(s[i + w.len()] == wb[w.len() as int]);
        lemma_name_end(s, i, n);
        assert(s.subrange(i, n) =~= w) by {
            assert forall|k: int| 0 <= k < w.len() implies s.subrange(i, n)[k] == w[k] by {
                assert(s[i + k] == wb[k]);
            }
        }
    }
    let wc = seq!['@'] + w;
    if spelled(s, i, wc) && !(at(s, n + 1) is Some && in_name(at(s, n + 1)->0)) {
        assert(s[i + 0] == wc[0]);
        assert forall|k: int| i + 1 <= k < n + 1 implies in_name(#[trigger] s[k]) by {
            assert(s[i + (k - i)] == wc[k - i]);
        }
        lemma_name_end(s, i + 1, n + 1);
        assert(s.subrange(i + 1, n + 1) =~= w) by {
            assert forall|k: int| 0 <= k < w.len() implies s.subrange(i + 1, n + 1)[k] == w[k] by {
                assert(s[i + (k + 1)] == wc[k + 1]);
            }
        }
    }
    let wr = seq![':'] + w;
    if is_name(w) && spelled(s, i, wr) && !(at(s, n + 1) is Some && in_name(at(s, n + 1)->0)) {
        assert(s[i + 0] == wr[0]);
        assert(s[i + 1] == wr[1]);
        assert forall|k: int| i + 1 <= k < n + 1 implies in_name(#[trigger] s[k]) by {
            assert(s[i + (k - i)] == wr[k - i]);
        }
        lemma_name_end(s, i + 1, n + 1);
        assert(s.subrange(i + 1, n + 1) =~= w) by {
            assert forall|k: int| 0 <= k < w.len() implies s.subrange(i + 1, n + 1)[k] == w[k] by {
                assert(s[i + (k + 1)] == wr[k + 1]);
            }
        }
    }
}

/// A numeral begins with a digit and goes as far as digits and points do.
pub proof fn numerals_are_numbers(s: Seq<char>, i: int, w: Seq<char>)
    requires
        w.len() > 0,
        '0' <= w[0] <= '9',
        forall|k: int| 0 <= k < w.len() ==> '0' <= #[trigger] w[k] <= '9' || w[k] == '.',
        spelled(s, i, w),
        !(at(s, i + w.len()) is Some && ('0' <= at(s, i + w.len())->0 <= '9' || at(s, i + w.len())
            == Some('.'))),
    ensures
        spells(s, i, TokModel::Num(w), i + w.len()),
{
    let n = i + w.len();
    assert(s[i + 0] == w[0]);
    assert forall|k: int| i <= k < n implies '0' <= #[trigger] s[k] <= '9' || s[k] == '.' by {
        assert(s[i + (k - i)] == w[k - i]);
    }
    lemma_num_end(s, i, n);
    assert(s.subrange(i, n) =~= w) by {
        assert forall|k: int| 0 <= k < w.len() implies s.subrange(i, n)[k] == w[k] by {
            assert(s[i + k] == w[k]);
        }
    }
}

/// How a text is written in a string: a backslash in front of a character stands for that
/// character, and has to stand in front of a quote and of a backslash.
pub open spec fn written(w: Seq<char>, escaped: Seq<bool>) -> Seq<char>
    decreases w.len(),
{
    if w.len() == 0 {
        Seq::empty()
    } else if escaped[0] || w[0] == '"' || w[0] == '\\' {
        seq!['\\', w[0]] + written(w.drop_first(), escaped.drop_first())
    } else {
        seq![w[0]] + written(w.drop_first(), escaped.drop_first())
    }
}

proof fn lemma_written(s: Seq<char>, i: int, w: Seq<char>, escaped: Seq<bool>)
    requires
        escaped.len() == w.len(),
        spelled(s, i, written(w, escaped) + seq!['"']),
    ensures
        string_at(s, i) == Some((w, i + written(w, escaped).len() + 1)),
    decreases w.len(),
{
    let all = written(w, escaped) + seq!['"'];
    assert(s[i + 0] == all[0]);
    if w.len() == 0 {
        assert(w =~= Seq::<char>::empty());
    } else {
        let rest = written(w.drop_first(), escaped.drop_first()) + seq!['"'];
        let d: int = if escaped[0] || w[0] == '"' || w[0] == '\\' {
            2
        } else {
            1
        };
        assert forall|k: int| 0 <= k < rest.len() implies s[i + d + k] == #[trigger] rest[k] by {
            assert(s[i + (d + k)] == all[d + k]);
        }
        if d == 2 {
            assert(s[i + 1] == all[1]);
        }
        lemma_written(s, i + d, w.drop_first(), escaped.drop_first());
        assert(seq![w[0]] + w.drop_first() =~= w);
    }
}

/// A quoted text stands for itself, with its quotes and backslashes escaped, whatever it holds.
pub proof fn strings_say_what_they_quote(s: Seq<char>, i: int, w: Seq<char>, escaped: Seq<bool>)
    requires
        escaped.len() == w.len(),
        spelled(s, i, seq!['"'] + written(w, escaped) + seq!['"']),
    ensures
        spells(s, i, TokModel::Str(w), i + written(w, escaped).len() + 2),
{
    let all = seq!['"'] + written(w, escaped) + seq!['"'];
    let rest = written(w, escaped) + seq!['"'];
    assert(s[i + 0] == all[0]);
    assert forall|k: int| 0 <= k < rest.len() implies s[i + 1 + k] == #[trigger] rest[k] by {
        assert(s[i + (k + 1)] == all[k + 1]);
    }
    lemma_written(s, i + 1, w, escaped);
}

/// A piece of a regex literal: a character, an escaped slash, or another escape.
pub enum Piece {
    Plain(char),
    Slash,
    Escape(char),
}

/// Whether a piece is one: a plain character is neither a slash nor a backslash, and an
/// escape is not that of a slash.
pub open spec fn piece_ok(p: Piece) -> bool {
    match p {
        Piece::Plain(c) => c != '/' && c != '\\',
        Piece::Slash => true,
        Piece::Escape(c) => c != '/',
    }
}

/// The characters of the pieces of a literal.
pub open spec fn source_of(ps: Seq<Piece>) -> Seq<char>
    decreases ps.len(),
{
    if ps.len() == 0 {
        Seq::empty()
    } else {
        (match ps[0] {
            Piece::Plain(c) => seq![c],
            Piece::Slash => seq!['\\', '/'],
            Piece::Escape(c) => seq!['\\', c],
        }) + source_of(ps.drop_first())
    }
}

/// The expression of the pieces of a literal: an escaped slash is a slash, and any other
/// escape stays as it is.
pub open spec fn expression_of(ps: Seq<Piece>) -> Seq<char>
    decreases ps.len(),
{
    if ps.len() == 0 {
        Seq::empty()
    } else {
        (match ps[0] {
            Piece::Plain(c) => seq![c],
            Piece::Slash => seq!['/'],
            Piece::Escape(c) => seq!['\\', c],
        }) + expression_of(ps.drop_first())
    }
}

proof fn lemma_pieces(s: Seq<char>, i: int, ps: Seq<Piece>)
    requires
        forall|k: int| 0 <= k < ps.len() ==> piece_ok(#[trigger] ps[k]),
        spelled(s, i, source_of(ps) + seq!['/']),
    ensures
        regex_at(s, i) == Some((expression_of(ps), i + source_of(ps).len() + 1)),
    decreases ps.len(),
{
    let all = source_of(ps) + seq!['/'];
    assert(s[i + 0] == all[0]);
    if ps.len() > 0 {
        assert(piece_ok(ps[0]));
        let tail = ps.drop_first();
        let rest = source_of(tail) + seq!['/'];
        let d: int = if ps[0] is Plain {
            1
        } else {
            2
        };
        assert forall|k: int| 0 <= k < tail.len() implies piece_ok(#[trigger] tail[k]) by {
            assert(piece_ok(ps[k + 1]));
        }
        assert forall|k: int| 0 <= k < rest.len() implies s[i + d + k] == #[trigger] rest[k] by {
            assert(s[i + (d + k)] == all[d + k]);
        }
        if d == 2 {
            assert(s[i + 1] == all[1]);
        }
        lemma_pieces(s, i + d, tail);
    }
}

/// `/regex/` stands for the expression between the slashes.
pub proof fn regexes_say_what_they_hold(s: Seq<char>, i: int, ps: Seq<Piece>)
    requires
        forall|k: int| 0 <= k < ps.len() ==> piece_ok(#[trigger] ps[k]),
        spelled(s, i, seq!['/'] + source_of(ps) + seq!['/']),
    ensures
        spells(s, i, TokModel::Regex(expression_of(ps)), i + source_of(ps).len() + 2),
{
    let all = seq!['/'] + source_of(ps) + seq!['/'];
    let rest = source_of(ps) + seq!['/'];
    assert(s[i + 0] == all[0]);
    assert forall|k: int| 0 <= k < rest.len() implies s[i + 1 + k] == #[trigger] rest[k] by {
        assert(s[i + (k + 1)] == all[k + 1]);
    }
    lemma_pieces(s, i + 1, ps);
}

/// The characters of a mark.
pub open spec fn mark_chars(m: Mark) -> Seq<char> {
    match m {
        Mark::LBrace => seq!['{'],
        Mark::RBrace => seq!['}'],
        Mark::LBrack => seq!['['],
        Mark::RBrack => seq![']'],
        Mark::LParen => seq!['('],
        Mark::RParen => seq![')'],
        Mark::Comma => seq![','],
        Mark::Eq => seq!['='],
        Mark::EqEq => seq!['=', '='],
        Mark::Ne => seq!['!', '='],
        Mark::Ge => seq!['>', '='],
        Mark::Le => seq!['<', '='],
        Mark::Gt => seq!['>'],
        Mark::Lt => seq!['<'],
        Mark::Tilde => seq!['~'],
        Mark::NotTilde => seq!['!', '~'],
        Mark::Star => seq!['*'],
        Mark::Plus => seq!['+'],
        Mark::Question => seq!['?'],
        Mark::Pipe => seq!['|'],
        Mark::Amp => seq!['&'],
        Mark::Dollar => seq!['$'],
        Mark::Dot => seq!['.'],
        Mark::Caret => seq!['^'],
    }
}

/// Marks are spelled with their characters; `=`, `>` and `<` are marks of their own unless an
/// equals sign follows.
pub proof fn marks_are_spelled(s: Seq<char>, i: int, m: Mark)
    requires
        spelled(s, i, mark_chars(m)),
        (m == Mark::Eq || m == Mark::Gt || m == Mark::Lt) ==> at(s, i + 1) != Some('='),
    ensures
        spells(s, i, TokModel::Mark(m), i + mark_chars(m).len()),
{
    let w = mark_chars(m);
    assert(s[i + 0] == w[0]);
    if w.len() == 2 {
        assert(s[i + 1] == w[1]);
    }
}

/// Blanks separate tokens and mean nothing else; a newline begins the next row; a comment goes
/// from `#` to the end of its line; and a token is followed by those after it.
pub proof fn blanks_and_comments_mean_nothing(s: Seq<char>, i: int, row: nat, e: int)
    ensures
        at(s, i) == Some('\n') ==> lex_from(s, i, row) == lex_from(s, i + 1, row + 1),
        at(s, i) == Some(' ') || at(s, i) == Some('\t') || at(s, i) == Some('\r') ==> lex_from(
            s,
            i,
            row,
        ) == lex_from(s, i + 1, row),
        at(s, i) == Some('#') && i < e <= s.len() && (e == s.len() || s[e] == '\n') && (forall|k: int|
            i < k < e ==> #[trigger] s[k] != '\n') ==> lex_from(s, i, row) == lex_from(s, e, row),
        i >= s.len() ==> lex_from(s, i, row) == Ok::<Seq<(TokModel, nat)>, Seq<char>>(Seq::empty()),
{
    if at(s, i) == Some('#') && i < e <= s.len() && (e == s.len() || s[e] == '\n') && (forall|k: int|
        i < k < e ==> #[trigger] s[k] != '\n') {
        lemma_line_end(s, i + 1, e);
    }
}

proof fn lemma_line_end(s: Seq<char>, i: int, e: int)
    requires
        0 <= i <= e <= s.len(),
        e == s.len() || s[e] == '\n',
        forall|k: int| i <= k < e ==> #[trigger] s[k] != '\n',
    ensures
        line_end(s, i) == e,
    decreases e - i,
{
    if i < e {
        lemma_line_end(s, i + 1, e);
    }
}

/// A token stands in front of those after it, with the row that it stands in.
pub proof fn tokens_follow_each_other(s: Seq<char>, i: int, row: nat, t: TokModel, n: int)
    requires
        0 <= i < n <= s.len(),
        spells(s, i, t, n),
        !white(s[i]),
        s[i] != '#',
    ensures
        lex_from(s, i, row) == (match lex_from(s, n, row) {
            Ok(more) => Ok::<Seq<(TokModel, nat)>, Seq<char>>(seq![(t, row)] + more),
            Err(e) => Err(e),
        }),
{
}

/// No character that a token begins with is a blank or begins a comment.
pub proof fn tokens_begin_with_marks_of_their_own(c: char)
    requires
        in_name(c) || c == '"' || c == '/' || c == '@' || c == ':' || c == '{' || c == '}' || c
            == '[' || c == ']' || c == '(' || c == ')' || c == ',' || c == '=' || c == '!' || c
            == '>' || c == '<' || c == '~' || c == '*' || c == '+' || c == '?' || c == '|' || c
            == '&' || c == '$' || c == '.' || c == '^',
    ensures
        !white(c),
        c != '#',
{
}

} // verus!
