//! The rule grammar: what rule text means, from its tokens to the rule that it writes down.

use vstd::prelude::*;

use crate::dsl::{
    idents_from,
    is_mark,
    langs_from,
    statement_at,
    statements_from,
    texts_from,
    tok_at,
    DraftModel,
    Read,
    Toks,
};
use crate::lexer::{Mark, TokModel};
use crate::schema::RawUnlessModel;
use crate::text::ascii_lower_text;
use crate::token::Language;

verus! {

/// Whether tokens stand at a position, one after the other.
pub open spec fn stands(t: Toks, p: int, ws: Seq<TokModel>) -> bool {
    0 <= p && forall|k: int| 0 <= k < ws.len() ==> tok_at(t, p + k) == Some(#[trigger] ws[k])
}

/// Whether something is read, and ends at a position.
pub open spec fn yields<T>(r: Read<T>, x: T, q: int) -> bool {
    match r {
        Ok((y, e)) => y == x && e == q,
        Err(_) => false,
    }
}

/// A word.
pub open spec fn word(s: Seq<char>) -> TokModel {
    TokModel::Ident(s)
}

/// A punctuation mark.
pub open spec fn mark(m: Mark) -> TokModel {
    TokModel::Mark(m)
}

/// Quoted texts with commas between them.
pub open spec fn quoted(gs: Seq<Seq<char>>) -> Seq<TokModel>
    decreases gs.len(),
{
    if gs.len() == 0 {
        Seq::empty()
    } else if gs.len() == 1 {
        seq![TokModel::Str(gs[0])]
    } else {
        seq![TokModel::Str(gs[0]), mark(Mark::Comma)] + quoted(gs.drop_first())
    }
}

/// Words with commas between them.
pub open spec fn worded(gs: Seq<Seq<char>>) -> Seq<TokModel>
    decreases gs.len(),
{
    if gs.len() == 0 {
        Seq::empty()
    } else if gs.len() == 1 {
        seq![word(gs[0])]
    } else {
        seq![word(gs[0]), mark(Mark::Comma)] + worded(gs.drop_first())
    }
}

/// Whether a comma stands at a position.
pub open spec fn comma_at(t: Toks, p: int) -> bool {
    tok_at(t, p) == Some(TokModel::Mark(Mark::Comma))
}

pub proof fn lemma_stands_skip(t: Toks, p: int, a: Seq<TokModel>, b: Seq<TokModel>)
    requires
        stands(t, p, a + b),
    ensures
        stands(t, p, a),
        stands(t, p + a.len(), b),
{
    let ws = a + b;
    assert forall|k: int| 0 <= k < a.len() implies tok_at(t, p + k) == Some(#[trigger] a[k]) by {
        assert(ws[k] == a[k]);
    }
    assert forall|k: int| 0 <= k < b.len() implies tok_at(t, p + a.len() + k) == Some(
        #[trigger] b[k],
    ) by {
        assert(ws[a.len() + k] == b[k]);
    }
}

pub proof fn lemma_quoted(t: Toks, p: int, gs: Seq<Seq<char>>, done: Seq<Seq<char>>)
    requires
        gs.len() > 0,
        stands(t, p, quoted(gs)),
        !comma_at(t, p + 2 * gs.len() - 1),
    ensures
        yields(texts_from(t, p, done), done + gs, p + 2 * gs.len() - 1),
        quoted(gs).len() == 2 * gs.len() - 1,
    decreases gs.len(),
{
    assert(tok_at(t, p + 0) == Some(quoted(gs)[0]));
    if gs.len() == 1 {
        assert(done.push(gs[0]) =~= done + gs);
    } else {
        let head = seq![TokModel::Str(gs[0]), mark(Mark::Comma)];
        lemma_stands_skip(t, p, head, quoted(gs.drop_first()));
        assert(tok_at(t, p + 1) == Some(head[1]));
        lemma_quoted(t, p + 2, gs.drop_first(), done.push(gs[0]));
        assert(done.push(gs[0]) + gs.drop_first() =~= done + gs);
    }
}

pub proof fn lemma_worded(t: Toks, p: int, gs: Seq<Seq<char>>, done: Seq<Seq<char>>)
    requires
        gs.len() > 0,
        stands(t, p, worded(gs)),
        !comma_at(t, p + 2 * gs.len() - 1),
    ensures
        yields(idents_from(t, p, done), done + gs, p + 2 * gs.len() - 1),
        worded(gs).len() == 2 * gs.len() - 1,
    decreases gs.len(),
{
    assert(tok_at(t, p + 0) == Some(worded(gs)[0]));
    if gs.len() == 1 {
        assert(done.push(gs[0]) =~= done + gs);
    } else {
        let head = seq![word(gs[0]), mark(Mark::Comma)];
        lemma_stands_skip(t, p, head, worded(gs.drop_first()));
        assert(tok_at(t, p + 1) == Some(head[1]));
        lemma_worded(t, p + 2, gs.drop_first(), done.push(gs[0]));
        assert(done.push(gs[0]) + gs.drop_first() =~= done + gs);
    }
}

// ---------------------------------------------------------------------------
// Statements
// ---------------------------------------------------------------------------

proof fn lemma_words()
    ensures
        "lang"@ != "in"@,
        "lang"@ != "not"@,
        "lang"@ != "desc"@,
        "lang"@ != "message"@,
        "lang"@ != "unless"@,
        "lang"@ != "match"@,
        "lang"@ != "sequence"@,
        "lang"@ != "compose"@,
        "lang"@ != "count"@,
        "in"@ != "not"@,
        "in"@ != "desc"@,
        "in"@ != "message"@,
        "in"@ != "unless"@,
        "in"@ != "match"@,
        "in"@ != "sequence"@,
        "in"@ != "compose"@,
        "in"@ != "count"@,
        "not"@ != "desc"@,
        "not"@ != "message"@,
        "not"@ != "unless"@,
        "not"@ != "match"@,
        "not"@ != "sequence"@,
        "not"@ != "compose"@,
        "not"@ != "count"@,
        "desc"@ != "message"@,
        "desc"@ != "unless"@,
        "desc"@ != "match"@,
        "desc"@ != "sequence"@,
        "desc"@ != "compose"@,
        "desc"@ != "count"@,
        "message"@ != "unless"@,
        "message"@ != "match"@,
        "message"@ != "sequence"@,
        "message"@ != "compose"@,
        "message"@ != "count"@,
        "unless"@ != "match"@,
        "unless"@ != "sequence"@,
        "unless"@ != "compose"@,
        "unless"@ != "count"@,
        "match"@ != "sequence"@,
        "match"@ != "compose"@,
        "match"@ != "count"@,
        "sequence"@ != "compose"@,
        "sequence"@ != "count"@,
        "compose"@ != "count"@,
{
    reveal_strlit("lang");
    reveal_strlit("in");
    reveal_strlit("not");
    reveal_strlit("desc");
    reveal_strlit("message");
    reveal_strlit("unless");
    reveal_strlit("match");
    reveal_strlit("sequence");
    reveal_strlit("compose");
    reveal_strlit("count");
    assert("in"@.len() == 2 && "not"@.len() == 3 && "lang"@.len() == 4 && "desc"@.len() == 4);
    assert("match"@.len() == 5 && "count"@.len() == 5 && "unless"@.len() == 6);
    assert("message"@.len() == 7 && "compose"@.len() == 7 && "sequence"@.len() == 8);
    assert("match"@[0] == 'm' && "count"@[0] == 'c');
    assert("compose"@[0] == 'c' && "message"@[0] == 'm');
    assert("lang"@[0] == 'l' && "desc"@[0] == 'd');
}

/// `in` adds include globs: those that it lists follow those of the statements before, and
/// nothing else changes.
pub proof fn in_adds_includes(t: Toks, p: int, d: DraftModel, gs: Seq<Seq<char>>)
    requires
        gs.len() > 0,
        stands(t, p, seq![word("in"@)] + quoted(gs)),
        !comma_at(t, p + 2 * gs.len()),
    ensures
        yields(
            statement_at(t, p, d),
            DraftModel { includes: d.includes + gs, ..d },
            p + 2 * gs.len(),
        ),
{
    lemma_words();
    lemma_stands_skip(t, p, seq![word("in"@)], quoted(gs));
    assert(tok_at(t, p + 0) == Some(seq![word("in"@)][0]));
    lemma_quoted(t, p + 1, gs, Seq::empty());
    assert(Seq::<Seq<char>>::empty() + gs =~= gs);
}

/// `not in` adds exclude globs: those that it lists follow those of the statements before,
/// and nothing else changes.
pub proof fn not_in_adds_excludes(t: Toks, p: int, d: DraftModel, gs: Seq<Seq<char>>)
    requires
        gs.len() > 0,
        stands(t, p, seq![word("not"@), word("in"@)] + quoted(gs)),
        !comma_at(t, p + 2 * gs.len() + 1),
    ensures
        yields(
            statement_at(t, p, d),
            DraftModel { excludes: d.excludes + gs, ..d },
            p + 2 * gs.len() + 1,
        ),
{
    lemma_words();
    let head = seq![word("not"@), word("in"@)];
    lemma_stands_skip(t, p, head, quoted(gs));
    assert(tok_at(t, p + 0) == Some(head[0]));
    assert(tok_at(t, p + 1) == Some(head[1]));
    lemma_quoted(t, p + 2, gs, Seq::empty());
    assert(Seq::<Seq<char>>::empty() + gs =~= gs);
}

/// `desc` and `message` set the description and the message, and nothing else.
pub proof fn desc_and_message_set_texts(t: Toks, p: int, d: DraftModel, s: Seq<char>)
    ensures
        stands(t, p, seq![word("desc"@), TokModel::Str(s)]) ==> yields(
            statement_at(t, p, d),
            DraftModel { description: Some(s), ..d },
            p + 2,
        ),
        stands(t, p, seq![word("message"@), TokModel::Str(s)]) ==> yields(
            statement_at(t, p, d),
            DraftModel { message: Some(s), ..d },
            p + 2,
        ),
{
    lemma_words();
    let a = seq![word("desc"@), TokModel::Str(s)];
    let b = seq![word("message"@), TokModel::Str(s)];
    if stands(t, p, a) {
        assert(tok_at(t, p + 0) == Some(a[0]) && tok_at(t, p + 1) == Some(a[1]));
    }
    if stands(t, p, b) {
        assert(tok_at(t, p + 0) == Some(b[0]) && tok_at(t, p + 1) == Some(b[1]));
    }
}

/// The word for a language.
pub open spec fn language_word(l: Language) -> Seq<char> {
    match l {
        Language::Typescript => "typescript"@,
        Language::Javascript => "javascript"@,
        Language::Go => "go"@,
        Language::Python => "python"@,
        Language::Rust => "rust"@,
    }
}

/// Whether words stand for languages, letters in either case.
pub open spec fn stand_for(gs: Seq<Seq<char>>, ls: Seq<Language>) -> bool {
    gs.len() == ls.len() && forall|i: int|
        0 <= i < gs.len() ==> ascii_lower_text(#[trigger] gs[i]) == language_word(ls[i])
}

proof fn lemma_languages(t: Toks, p: int, gs: Seq<Seq<char>>, ls: Seq<Language>, done: Seq<Language>)
    requires
        gs.len() > 0,
        stand_for(gs, ls),
        stands(t, p, worded(gs)),
        !comma_at(t, p + 2 * gs.len() - 1),
    ensures
        yields(langs_from(t, p, done), done + ls, p + 2 * gs.len() - 1),
    decreases gs.len(),
{
    assert(tok_at(t, p + 0) == Some(worded(gs)[0]));
    crate::token::language_names_round_trip(ls[0]);
    assert(crate::token::language_of_name(ascii_lower_text(gs[0])) == Some(ls[0]));
    if gs.len() == 1 {
        assert(done.push(ls[0]) =~= done + ls);
    } else {
        let head = seq![word(gs[0]), mark(Mark::Comma)];
        lemma_stands_skip(t, p, head, worded(gs.drop_first()));
        assert(tok_at(t, p + 1) == Some(head[1]));
        assert forall|i: int| 0 <= i < gs.drop_first().len() implies ascii_lower_text(
            #[trigger] gs.drop_first()[i],
        ) == language_word(ls.drop_first()[i]) by {
            assert(ascii_lower_text(gs[i + 1]) == language_word(ls[i + 1]));
        }
        lemma_languages(t, p + 2, gs.drop_first(), ls.drop_first(), done.push(ls[0]));
        assert(done.push(ls[0]) + ls.drop_first() =~= done + ls);
    }
}

/// `lang` limits a rule to the languages that it lists, and does nothing else.
pub proof fn lang_limits_languages(
    t: Toks,
    p: int,
    d: DraftModel,
    gs: Seq<Seq<char>>,
    ls: Seq<Language>,
)
    requires
        gs.len() > 0,
        stand_for(gs, ls),
        stands(t, p, seq![word("lang"@)] + worded(gs)),
        !comma_at(t, p + 2 * gs.len()),
    ensures
        yields(
            statement_at(t, p, d),
            DraftModel { languages: Some(ls), ..d },
            p + 2 * gs.len(),
        ),
{
    lemma_words();
    lemma_stands_skip(t, p, seq![word("lang"@)], worded(gs));
    assert(tok_at(t, p + 0) == Some(seq![word("lang"@)][0]));
    lemma_languages(t, p + 1, gs, ls, Seq::empty());
    assert(Seq::<Language>::empty() + ls =~= ls);
}

/// `unless path`, `unless waiver`, `unless waiver ID` and `unless adr` each set one guard and
/// leave the others as they are.
pub proof fn unless_sets_one_guard(t: Toks, p: int, d: DraftModel, gs: Seq<Seq<char>>, s: Seq<char>)
    ensures
        gs.len() > 0 && stands(t, p, seq![word("unless"@), word("path"@)] + quoted(gs)) && !comma_at(
            t,
            p + 2 * gs.len() + 1,
        ) ==> yields(
            statement_at(t, p, d),
            DraftModel {
                unless: RawUnlessModel { path_matches: Some(gs), ..d.unless },
                has_unless: true,
                ..d
            },
            p + 2 * gs.len() + 1,
        ),
        stands(t, p, seq![word("unless"@), word("waiver"@), word(s)]) ==> yields(
            statement_at(t, p, d),
            DraftModel {
                unless: RawUnlessModel { waiver_exists: Some(Some(s)), ..d.unless },
                has_unless: true,
                ..d
            },
            p + 3,
        ),
        stands(t, p, seq![word("unless"@), word("waiver"@)]) && !(tok_at(t, p + 2) matches Some(
            TokModel::Ident(_),
        )) ==> yields(
            statement_at(t, p, d),
            DraftModel {
                unless: RawUnlessModel { waiver_exists: Some(None), ..d.unless },
                has_unless: true,
                ..d
            },
            p + 2,
        ),
        stands(t, p, seq![word("unless"@), word("adr"@), TokModel::Str(s)]) ==> yields(
            statement_at(t, p, d),
            DraftModel {
                unless: RawUnlessModel { adr_exists: Some(s), ..d.unless },
                has_unless: true,
                ..d
            },
            p + 3,
        ),
{
    lemma_words();
    reveal_strlit("path");
    reveal_strlit("waiver");
    reveal_strlit("adr");
    assert("path"@.len() == 4 && "waiver"@.len() == 6 && "adr"@.len() == 3);
    let a = seq![word("unless"@), word("path"@)];
    let b = seq![word("unless"@), word("waiver"@), word(s)];
    let c = seq![word("unless"@), word("waiver"@)];
    let e = seq![word("unless"@), word("adr"@), TokModel::Str(s)];
    if gs.len() > 0 && stands(t, p, a + quoted(gs)) && !comma_at(t, p + 2 * gs.len() + 1) {
        lemma_stands_skip(t, p, a, quoted(gs));
        assert(tok_at(t, p + 0) == Some(a[0]) && tok_at(t, p + 1) == Some(a[1]));
        lemma_quoted(t, p + 2, gs, Seq::empty());
        assert(Seq::<Seq<char>>::empty() + gs =~= gs);
    }
    if stands(t, p, b) {
        assert(tok_at(t, p + 0) == Some(b[0]) && tok_at(t, p + 1) == Some(b[1]));
        assert(tok_at(t, p + 2) == Some(b[2]));
    }
    if stands(t, p, c) {
        assert(tok_at(t, p + 0) == Some(c[0]) && tok_at(t, p + 1) == Some(c[1]));
    }
    if stands(t, p, e) {
        assert(tok_at(t, p + 0) == Some(e[0]) && tok_at(t, p + 1) == Some(e[1]));
        assert(tok_at(t, p + 2) == Some(e[2]));
    }
}

/// Whether one list begins with another.
pub open spec fn begins_with(list: Seq<Seq<char>>, first: Seq<Seq<char>>) -> bool {
    first.len() <= list.len() && list.take(first.len() as int) == first
}

/// No statement takes anything back: whatever statements follow, the globs read before stay,
/// in front of those read later, and a guard stays a guard.
pub proof fn statements_only_add(t: Toks, p: int, d: DraftModel)
    ensures
        statement_at(t, p, d) is Ok ==> {
            let e = (statement_at(t, p, d)->Ok_0).0;
            &&& begins_with(e.includes, d.includes)
            &&& begins_with(e.excludes, d.excludes)
            &&& d.has_unless ==> e.has_unless
        },
        statements_from(t, p, d) is Ok ==> {
            let e = (statements_from(t, p, d)->Ok_0).0;
            &&& begins_with(e.includes, d.includes)
            &&& begins_with(e.excludes, d.excludes)
            &&& d.has_unless ==> e.has_unless
        },
    decreases t.len() - p,
{
    assert(d.includes.take(d.includes.len() as int) =~= d.includes);
    assert(d.excludes.take(d.excludes.len() as int) =~= d.excludes);
    if statement_at(t, p, d) is Ok {
        let (e, q) = statement_at(t, p, d)->Ok_0;
        assert(begins_with(e.includes, d.includes)) by {
            assert(e.includes.take(d.includes.len() as int) =~= d.includes);
        }
        assert(begins_with(e.excludes, d.excludes)) by {
            assert(e.excludes.take(d.excludes.len() as int) =~= d.excludes);
        }
        if p < q <= t.len() {
            statements_only_add(t, q, e);
            if statements_from(t, p, d) is Ok && !is_mark(t, p, Mark::RBrace) && tok_at(t, p) is Some {
                let r = (statements_from(t, p, d)->Ok_0).0;
                assert(r.includes.take(d.includes.len() as int) =~= r.includes.take(
                    e.includes.len() as int,
                ).take(d.includes.len() as int));
                assert(r.excludes.take(d.excludes.len() as int) =~= r.excludes.take(
                    e.excludes.len() as int,
                ).take(d.excludes.len() as int));
            }
        }
    }
}

} // verus!
