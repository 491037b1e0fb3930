//! Predicates: from `field <op> value` to what it says of a lexeme.

use vstd::prelude::*;

use crate::compile::pred_of;
use crate::dsl::{atom_at, pred_at, tok_at, Toks};
use crate::event::token_element;
use crate::laws::grammar::{lemma_quoted, lemma_stands_skip, mark, quoted, stands, word};
use crate::lexer::{Mark, TokModel};
use crate::number::{number_of, Number};
use crate::outside::{regex_accepts, regex_fault};
use crate::rules::{pred_attr, pred_holds, CmpOp, PredModel};
use crate::schema::BindsModel;
use crate::text::{decimal_of, position, split_from, split_on};
use crate::token::TokenModel;
use crate::value::DatumModel;

verus! {

// ---------------------------------------------------------------------------
// Keys with operators
// ---------------------------------------------------------------------------

proof fn lemma_position_none(s: Seq<char>, c: char, i: int, n: int)
    requires
        0 <= i <= n <= s.len(),
        forall|k: int| i <= k < n ==> s[k] != c,
        n == s.len() || s[n] == c,
    ensures
        position(s, c, i) == n,
    decreases n - i,
{
    if i < n {
        lemma_position_none(s, c, i + 1, n);
    }
}

proof fn lemma_position_shift(a: Seq<char>, b: Seq<char>, c: char, i: int)
    requires
        0 <= i <= b.len(),
    ensures
        position(a + b, c, a.len() + i) == a.len() + position(b, c, i),
        i <= position(b, c, i) <= b.len(),
    decreases b.len() - i,
{
    if i < b.len() {
        assert((a + b)[a.len() + i] == b[i]);
        lemma_position_shift(a, b, c, i + 1);
    }
}

proof fn lemma_split_shift(a: Seq<char>, b: Seq<char>, c: char, i: int)
    requires
        0 <= i <= b.len(),
    ensures
        split_from(a + b, c, a.len() + i) == split_from(b, c, i),
    decreases b.len() - i,
{
    lemma_position_shift(a, b, c, i);
    let p = position(b, c, i);
    if p >= b.len() {
        assert((a + b).skip(a.len() + i) =~= b.skip(i));
    } else {
        assert((a + b).subrange(a.len() + i, a.len() + p) =~= b.subrange(i, p));
        lemma_split_shift(a, b, c, p + 1);
    }
}

/// A text without separators is one part; a separator after it begins the rest.
pub proof fn splitting_finds_the_parts(a: Seq<char>, b: Seq<char>, c: char)
    requires
        !a.contains(c),
    ensures
        split_on(a, c) == seq![a],
        split_on(a + seq![c] + b, c) == seq![a] + split_on(b, c),
{
    assert forall|k: int| 0 <= k < a.len() implies a[k] != c by {
        assert(a.contains(a[k]));
    }
    lemma_position_none(a, c, 0, a.len() as int);
    assert(a.skip(0) =~= a);
    let s = a + seq![c] + b;
    let h = a + seq![c];
    assert forall|k: int| 0 <= k < a.len() implies s[k] != c by {
        assert(s[k] == a[k]);
    }
    assert(s[a.len() as int] == c);
    lemma_position_none(s, c, 0, a.len() as int);
    assert(s.subrange(0, a.len() as int) =~= a);
    lemma_split_shift(h, b, c, 0);
    assert(s == h + b);
}

/// A key with an operator.
pub open spec fn keyed_by(attr: Seq<char>, op: Seq<char>) -> Seq<char> {
    attr + seq!['.'] + op
}

proof fn lemma_ops()
    ensures
        !("any"@).contains('.'),
        !("regex"@).contains('.'),
        !("not"@).contains('.'),
        !("gt"@).contains('.'),
        !("lt"@).contains('.'),
        !("ge"@).contains('.'),
        !("le"@).contains('.'),
        !("eq_ref"@).contains('.'),
        !("ne_ref"@).contains('.'),
        ".any"@ == seq!['.'] + "any"@,
        ".regex"@ == seq!['.'] + "regex"@,
        ".not.regex"@ == seq!['.'] + ("not"@ + seq!['.'] + "regex"@),
        ".gt"@ == seq!['.'] + "gt"@,
        ".lt"@ == seq!['.'] + "lt"@,
        ".ge"@ == seq!['.'] + "ge"@,
        ".le"@ == seq!['.'] + "le"@,
        ".eq_ref"@ == seq!['.'] + "eq_ref"@,
        ".ne_ref"@ == seq!['.'] + "ne_ref"@,
        "any"@.len() == 3,
        "regex"@.len() == 5,
        "not"@.len() == 3,
        "gt"@.len() == 2,
        "lt"@.len() == 2,
        "ge"@.len() == 2,
        "le"@.len() == 2,
        "eq_ref"@.len() == 6,
        "ne_ref"@.len() == 6,
        "any"@[0] == 'a',
        "not"@[0] == 'n',
        "gt"@[0] == 'g',
        "gt"@[1] == 't',
        "lt"@[0] == 'l',
        "lt"@[1] == 't',
        "ge"@[0] == 'g',
        "ge"@[1] == 'e',
        "le"@[0] == 'l',
        "le"@[1] == 'e',
        "eq_ref"@[0] == 'e',
        "ne_ref"@[0] == 'n',
{
    reveal_strlit("any");
    reveal_strlit("regex");
    reveal_strlit("not");
    reveal_strlit("gt");
    reveal_strlit("lt");
    reveal_strlit("ge");
    reveal_strlit("le");
    reveal_strlit("eq_ref");
    reveal_strlit("ne_ref");
    reveal_strlit(".any");
    reveal_strlit(".regex");
    reveal_strlit(".not.regex");
    reveal_strlit(".gt");
    reveal_strlit(".lt");
    reveal_strlit(".ge");
    reveal_strlit(".le");
    reveal_strlit(".eq_ref");
    reveal_strlit(".ne_ref");
    assert(".any"@ =~= seq!['.'] + "any"@);
    assert(".regex"@ =~= seq!['.'] + "regex"@);
    assert(".not.regex"@ =~= seq!['.'] + ("not"@ + seq!['.'] + "regex"@));
    assert(".gt"@ =~= seq!['.'] + "gt"@);
    assert(".lt"@ =~= seq!['.'] + "lt"@);
    assert(".ge"@ =~= seq!['.'] + "ge"@);
    assert(".le"@ =~= seq!['.'] + "le"@);
    assert(".eq_ref"@ =~= seq!['.'] + "eq_ref"@);
    assert(".ne_ref"@ =~= seq!['.'] + "ne_ref"@);
}

// The predicate of a key with one operator.
proof fn lemma_one_op(attr: Seq<char>, op: Seq<char>, v: DatumModel)
    requires
        !attr.contains('.'),
        !op.contains('.'),
    ensures
        split_on(keyed_by(attr, op), '.')[0] == attr,
        split_on(keyed_by(attr, op), '.').drop_first() == seq![op],
{
    splitting_finds_the_parts(attr, op, '.');
    splitting_finds_the_parts(op, op, '.');
    let parts = split_on(keyed_by(attr, op), '.');
    assert(parts =~= seq![attr, op]);
    assert(parts.drop_first() =~= seq![op]);
}

/// A number that a text denotes.
pub open spec fn reads_number(s: Seq<char>, n: Number) -> bool {
    number_of(s) == Some(n)
}

/// The keys of predicates: a field alone asks for the value; `any` for one of several;
/// `regex` and `not.regex` for a match and for none; `gt`, `lt`, `ge` and `le` compare with a
/// number; `eq_ref` and `ne_ref` compare with a capture.
pub proof fn keys_say_which_predicate(attr: Seq<char>, s: Seq<char>, n: Number)
    requires
        !attr.contains('.'),
    ensures
        pred_of(attr, DatumModel::Text(s)) == Ok::<PredModel, Seq<char>>(
            PredModel::Eq { attr, value: s },
        ),
        regex_fault(s) is None ==> pred_of(keyed_by(attr, "regex"@), DatumModel::Text(s)) == Ok::<
            PredModel,
            Seq<char>,
        >(PredModel::Regex { attr, re: s }),
        regex_fault(s) is None ==> pred_of(
            keyed_by(attr, "not"@ + seq!['.'] + "regex"@),
            DatumModel::Text(s),
        ) == Ok::<PredModel, Seq<char>>(PredModel::NotRegex { attr, re: s }),
        reads_number(s, n) ==> pred_of(keyed_by(attr, "gt"@), DatumModel::Text(s)) == Ok::<
            PredModel,
            Seq<char>,
        >(PredModel::Cmp { attr, op: CmpOp::Gt, n }),
        reads_number(s, n) ==> pred_of(keyed_by(attr, "lt"@), DatumModel::Text(s)) == Ok::<
            PredModel,
            Seq<char>,
        >(PredModel::Cmp { attr, op: CmpOp::Lt, n }),
        reads_number(s, n) ==> pred_of(keyed_by(attr, "ge"@), DatumModel::Text(s)) == Ok::<
            PredModel,
            Seq<char>,
        >(PredModel::Cmp { attr, op: CmpOp::Ge, n }),
        reads_number(s, n) ==> pred_of(keyed_by(attr, "le"@), DatumModel::Text(s)) == Ok::<
            PredModel,
            Seq<char>,
        >(PredModel::Cmp { attr, op: CmpOp::Le, n }),
        pred_of(keyed_by(attr, "eq_ref"@), DatumModel::Text(s)) == Ok::<PredModel, Seq<char>>(
            PredModel::EqRef { attr, var: s },
        ),
        pred_of(keyed_by(attr, "ne_ref"@), DatumModel::Text(s)) == Ok::<PredModel, Seq<char>>(
            PredModel::NeRef { attr, var: s },
        ),
{
    lemma_ops();
    let v = DatumModel::Text(s);
    splitting_finds_the_parts(attr, s, '.');
    assert(seq![attr].drop_first() =~= Seq::<Seq<char>>::empty());
    lemma_one_op(attr, "regex"@, v);
    lemma_one_op(attr, "gt"@, v);
    lemma_one_op(attr, "lt"@, v);
    lemma_one_op(attr, "ge"@, v);
    lemma_one_op(attr, "le"@, v);
    lemma_one_op(attr, "eq_ref"@, v);
    lemma_one_op(attr, "ne_ref"@, v);
    let nr = "not"@ + seq!['.'] + "regex"@;
    splitting_finds_the_parts(attr, nr, '.');
    splitting_finds_the_parts("not"@, "regex"@, '.');
    splitting_finds_the_parts("regex"@, "regex"@, '.');
    let parts = split_on(keyed_by(attr, nr), '.');
    assert(parts =~= seq![attr, "not"@, "regex"@]);
    assert(parts.drop_first() =~= seq!["not"@, "regex"@]);
    assert(seq!["any"@][0] == "any"@);
    assert(seq!["regex"@][0] == "regex"@);
    assert(seq!["gt"@][0] == "gt"@);
    assert(seq!["lt"@][0] == "lt"@);
    assert(seq!["ge"@][0] == "ge"@);
    assert(seq!["le"@][0] == "le"@);
    assert(seq!["eq_ref"@][0] == "eq_ref"@);
    assert(seq!["ne_ref"@][0] == "ne_ref"@);
    assert(seq!["any"@, "regex"@][0] == "any"@ && seq!["any"@, "regex"@].len() == 2);
    assert(seq!["not"@, "regex"@][0] == "not"@);
}

pub proof fn lemma_refused(attr: Seq<char>, s: Seq<char>)
    requires
        !attr.contains('.'),
    ensures
        regex_fault(s) is Some ==> pred_of(keyed_by(attr, "regex"@), DatumModel::Text(s)) is Err,
        regex_fault(s) is Some ==> pred_of(
            keyed_by(attr, "not"@ + seq!['.'] + "regex"@),
            DatumModel::Text(s),
        ) is Err,
        number_of(s) is None ==> pred_of(keyed_by(attr, "gt"@), DatumModel::Text(s)) is Err,
        number_of(s) is None ==> pred_of(keyed_by(attr, "lt"@), DatumModel::Text(s)) is Err,
        number_of(s) is None ==> pred_of(keyed_by(attr, "ge"@), DatumModel::Text(s)) is Err,
        number_of(s) is None ==> pred_of(keyed_by(attr, "le"@), DatumModel::Text(s)) is Err,
{
    lemma_ops();
    let v = DatumModel::Text(s);
    lemma_one_op(attr, "regex"@, v);
    lemma_one_op(attr, "gt"@, v);
    lemma_one_op(attr, "lt"@, v);
    lemma_one_op(attr, "ge"@, v);
    lemma_one_op(attr, "le"@, v);
    let nr = "not"@ + seq!['.'] + "regex"@;
    splitting_finds_the_parts(attr, nr, '.');
    splitting_finds_the_parts("not"@, "regex"@, '.');
    splitting_finds_the_parts("regex"@, "regex"@, '.');
    let parts = split_on(keyed_by(attr, nr), '.');
    assert(parts =~= seq![attr, "not"@, "regex"@]);
    assert(parts.drop_first() =~= seq!["not"@, "regex"@]);
    assert(seq!["any"@][0] == "any"@);
    assert(seq!["regex"@][0] == "regex"@);
    assert(seq!["gt"@][0] == "gt"@);
    assert(seq!["lt"@][0] == "lt"@);
    assert(seq!["ge"@][0] == "ge"@);
    assert(seq!["le"@][0] == "le"@);
    assert(seq!["eq_ref"@][0] == "eq_ref"@);
    assert(seq!["ne_ref"@][0] == "ne_ref"@);
    assert(seq!["any"@, "regex"@][0] == "any"@ && seq!["any"@, "regex"@].len() == 2);
    assert(seq!["not"@, "regex"@][0] == "not"@);
}

proof fn lemma_forms(list: Seq<Seq<char>>)
    ensures
        crate::value::all_string_forms(crate::dsl::text_values(list)) == list,
    decreases list.len(),
{
    let vs = crate::dsl::text_values(list);
    if list.len() > 0 {
        lemma_forms(list.drop_last());
        assert(vs.drop_last() =~= crate::dsl::text_values(list.drop_last()));
        assert(vs.last() == DatumModel::Text(list.last()));
        assert(crate::value::string_forms(vs.last()) == seq![list.last()]);
        assert(crate::value::all_string_forms(vs) == crate::value::all_string_forms(vs.drop_last())
            + crate::value::string_forms(vs.last()));
        assert(list.drop_last() + seq![list.last()] =~= list);
    } else {
        assert(crate::value::all_string_forms(vs) =~= list);
    }
}

/// `any` asks for one of several texts.
pub proof fn any_asks_for_one_of_several(attr: Seq<char>, list: Seq<Seq<char>>)
    requires
        !attr.contains('.'),
    ensures
        pred_of(
            keyed_by(attr, "any"@),
            DatumModel::Sequence(list.map_values(|s: Seq<char>| DatumModel::Text(s))),
        ) == Ok::<PredModel, Seq<char>>(PredModel::AnyOf { attr, values: list }),
{
    lemma_ops();
    let v = DatumModel::Sequence(list.map_values(|s: Seq<char>| DatumModel::Text(s)));
    assert(v == DatumModel::Sequence(crate::dsl::text_values(list)));
    lemma_one_op(attr, "any"@, v);
    lemma_forms(list);
    assert(seq!["any"@].len() == 1);
    assert(seq!["any"@] != Seq::<Seq<char>>::empty());
}

// ---------------------------------------------------------------------------
// From tokens to predicates
// ---------------------------------------------------------------------------

/// Whether `field <op> value` at a position writes down a predicate in a number of tokens.
pub open spec fn writes_pred(t: Toks, p: int, n: int, pred: PredModel) -> bool {
    match pred_at(t, p) {
        Ok(((k, v), q)) => q == p + n && pred_of(k, v) == Ok::<PredModel, Seq<char>>(pred),
        Err(_) => false,
    }
}

/// Whether a single atom at a position writes down a predicate in a number of tokens.
pub open spec fn writes_atom(t: Toks, p: int, n: int, pred: PredModel) -> bool {
    match atom_at(t, p) {
        Ok(((k, v), q)) => q == p + n && pred_of(k, v) == Ok::<PredModel, Seq<char>>(pred),
        Err(_) => false,
    }
}

/// In `Token[…]`, `=` asks for a value, `~` and `!~` for a match and for none, `>`, `<`, `>=`
/// and `<=` compare with a number, `== $x` and `!= $x` with a capture, and `in […]` asks for
/// one of several texts.
pub proof fn operators_write_predicates(
    t: Toks,
    p: int,
    attr: Seq<char>,
    s: Seq<char>,
    n: Number,
    list: Seq<Seq<char>>,
)
    requires
        !attr.contains('.'),
    ensures
        stands(t, p, seq![word(attr), mark(Mark::Eq), TokModel::Str(s)]) ==> writes_pred(
            t,
            p,
            3,
            PredModel::Eq { attr, value: s },
        ),
        stands(t, p, seq![word(attr), mark(Mark::Eq), TokModel::Num(s)]) ==> writes_pred(
            t,
            p,
            3,
            PredModel::Eq { attr, value: s },
        ),
        stands(t, p, seq![word(attr), mark(Mark::Tilde), TokModel::Regex(s)]) && regex_fault(
            s,
        ) is None ==> writes_pred(t, p, 3, PredModel::Regex { attr, re: s }),
        stands(t, p, seq![word(attr), mark(Mark::NotTilde), TokModel::Regex(s)]) && regex_fault(
            s,
        ) is None ==> writes_pred(t, p, 3, PredModel::NotRegex { attr, re: s }),
        stands(t, p, seq![word(attr), mark(Mark::Gt), TokModel::Num(s)]) && reads_number(s, n)
            ==> writes_pred(t, p, 3, PredModel::Cmp { attr, op: CmpOp::Gt, n }),
        stands(t, p, seq![word(attr), mark(Mark::Lt), TokModel::Num(s)]) && reads_number(s, n)
            ==> writes_pred(t, p, 3, PredModel::Cmp { attr, op: CmpOp::Lt, n }),
        stands(t, p, seq![word(attr), mark(Mark::Ge), TokModel::Num(s)]) && reads_number(s, n)
            ==> writes_pred(t, p, 3, PredModel::Cmp { attr, op: CmpOp::Ge, n }),
        stands(t, p, seq![word(attr), mark(Mark::Le), TokModel::Num(s)]) && reads_number(s, n)
            ==> writes_pred(t, p, 3, PredModel::Cmp { attr, op: CmpOp::Le, n }),
        stands(t, p, seq![word(attr), mark(Mark::EqEq), mark(Mark::Dollar), word(s)]) ==> writes_pred(
            t,
            p,
            4,
            PredModel::EqRef { attr, var: s },
        ),
        stands(t, p, seq![word(attr), mark(Mark::Ne), mark(Mark::Dollar), word(s)]) ==> writes_pred(
            t,
            p,
            4,
            PredModel::NeRef { attr, var: s },
        ),
        list.len() > 0 && stands(
            t,
            p,
            seq![word(attr), word("in"@), mark(Mark::LBrack)] + quoted(list) + seq![
                mark(Mark::RBrack),
            ],
        ) ==> writes_pred(t, p, 3 + 2 * (list.len() as int), PredModel::AnyOf { attr, values: list }),
{
    keys_say_which_predicate(attr, s, n);
    any_asks_for_one_of_several(attr, list);
    lemma_ops();
    reveal_strlit("");
    assert(attr + ""@ =~= attr);
    assert(attr + ".regex"@ =~= keyed_by(attr, "regex"@));
    assert(attr + ".not.regex"@ =~= keyed_by(attr, "not"@ + seq!['.'] + "regex"@));
    assert(attr + ".gt"@ =~= keyed_by(attr, "gt"@));
    assert(attr + ".lt"@ =~= keyed_by(attr, "lt"@));
    assert(attr + ".ge"@ =~= keyed_by(attr, "ge"@));
    assert(attr + ".le"@ =~= keyed_by(attr, "le"@));
    assert(attr + ".eq_ref"@ =~= keyed_by(attr, "eq_ref"@));
    assert(attr + ".ne_ref"@ =~= keyed_by(attr, "ne_ref"@));
    assert(attr + ".any"@ =~= keyed_by(attr, "any"@));
    lemma_three(t, p, word(attr), mark(Mark::Eq), TokModel::Str(s));
    lemma_three(t, p, word(attr), mark(Mark::Eq), TokModel::Num(s));
    lemma_three(t, p, word(attr), mark(Mark::Tilde), TokModel::Regex(s));
    lemma_three(t, p, word(attr), mark(Mark::NotTilde), TokModel::Regex(s));
    lemma_three(t, p, word(attr), mark(Mark::Gt), TokModel::Num(s));
    lemma_three(t, p, word(attr), mark(Mark::Lt), TokModel::Num(s));
    lemma_three(t, p, word(attr), mark(Mark::Ge), TokModel::Num(s));
    lemma_three(t, p, word(attr), mark(Mark::Le), TokModel::Num(s));
    let a = seq![word(attr), mark(Mark::EqEq), mark(Mark::Dollar), word(s)];
    let b = seq![word(attr), mark(Mark::Ne), mark(Mark::Dollar), word(s)];
    if stands(t, p, a) {
        assert(tok_at(t, p + 0) == Some(a[0]) && tok_at(t, p + 1) == Some(a[1]));
        assert(tok_at(t, p + 2) == Some(a[2]) && tok_at(t, p + 3) == Some(a[3]));
    }
    if stands(t, p, b) {
        assert(tok_at(t, p + 0) == Some(b[0]) && tok_at(t, p + 1) == Some(b[1]));
        assert(tok_at(t, p + 2) == Some(b[2]) && tok_at(t, p + 3) == Some(b[3]));
    }
    let c = seq![word(attr), word("in"@), mark(Mark::LBrack)];
    let e = seq![mark(Mark::RBrack)];
    if list.len() > 0 && stands(t, p, c + quoted(list) + e) {
        lemma_stands_skip(t, p, c + quoted(list), e);
        lemma_stands_skip(t, p, c, quoted(list));
        assert(tok_at(t, p + 0) == Some(c[0]) && tok_at(t, p + 1) == Some(c[1]));
        assert(tok_at(t, p + 2) == Some(c[2]));
        lemma_quoted_len(list);
        assert(tok_at(t, p + (c + quoted(list)).len() + 0) == Some(e[0]));
        lemma_quoted(t, p + 3, list, Seq::empty());
        assert(Seq::<Seq<char>>::empty() + list =~= list);
        assert(tok_at(t, p + 3) == Some(quoted(list)[0]));
        assert(crate::dsl::text_values(list) =~= list.map_values(
            |s: Seq<char>| DatumModel::Text(s),
        ));
    }
}

proof fn lemma_quoted_len(gs: Seq<Seq<char>>)
    requires
        gs.len() > 0,
    ensures
        quoted(gs).len() == 2 * gs.len() - 1,
        quoted(gs)[0] == TokModel::Str(gs[0]),
    decreases gs.len(),
{
    if gs.len() > 1 {
        lemma_quoted_len(gs.drop_first());
    }
}

proof fn lemma_three(t: Toks, p: int, a: TokModel, b: TokModel, c: TokModel)
    ensures
        stands(t, p, seq![a, b, c]) ==> tok_at(t, p) == Some(a) && tok_at(t, p + 1) == Some(b)
            && tok_at(t, p + 2) == Some(c),
{
    let ws = seq![a, b, c];
    if stands(t, p, ws) {
        assert(tok_at(t, p + 0) == Some(ws[0]));
        assert(tok_at(t, p + 1) == Some(ws[1]));
        assert(tok_at(t, p + 2) == Some(ws[2]));
    }
}

/// An atom is a predicate on a lexeme: `@class` on its class, `/regex/` and `^/regex/` on its
/// text, a quoted text or a bare word on its exact text, and `:x` asks for the text bound to
/// `x`.
pub proof fn atoms_write_predicates(t: Toks, p: int, s: Seq<char>)
    ensures
        stands(t, p, seq![TokModel::TypeClass(s)]) ==> writes_atom(
            t,
            p,
            1,
            PredModel::Eq { attr: "class"@, value: s },
        ),
        stands(t, p, seq![TokModel::Regex(s)]) && regex_fault(s) is None ==> writes_atom(
            t,
            p,
            1,
            PredModel::Regex { attr: "text"@, re: s },
        ),
        stands(t, p, seq![mark(Mark::Caret), TokModel::Regex(s)]) && regex_fault(s) is None
            ==> writes_atom(t, p, 2, PredModel::NotRegex { attr: "text"@, re: s }),
        stands(t, p, seq![TokModel::Str(s)]) ==> writes_atom(
            t,
            p,
            1,
            PredModel::Eq { attr: "text"@, value: s },
        ),
        stands(t, p, seq![word(s)]) && s != "any"@ && s != "Token"@ ==> writes_atom(
            t,
            p,
            1,
            PredModel::Eq { attr: "text"@, value: s },
        ),
        stands(t, p, seq![TokModel::Ref(s)]) ==> writes_atom(
            t,
            p,
            1,
            PredModel::EqRef { attr: "text"@, var: s },
        ),
{
    reveal_strlit("class");
    reveal_strlit("text");
    reveal_strlit("text.regex");
    reveal_strlit("text.not.regex");
    reveal_strlit("text.eq_ref");
    reveal_strlit("regex");
    reveal_strlit("not");
    reveal_strlit("eq_ref");
    reveal_strlit("");
    assert(!("class"@).contains('.'));
    assert(!("text"@).contains('.'));
    keys_say_which_predicate("class"@, s, Number { place: None });
    keys_say_which_predicate("text"@, s, Number { place: None });
    assert("text.regex"@ =~= keyed_by("text"@, "regex"@));
    assert("text.not.regex"@ + ""@ =~= keyed_by("text"@, "not"@ + seq!['.'] + "regex"@));
    assert("text.eq_ref"@ =~= keyed_by("text"@, "eq_ref"@));
    lemma_one_tok(t, p, TokModel::TypeClass(s));
    lemma_one_tok(t, p, TokModel::Regex(s));
    lemma_one_tok(t, p, TokModel::Str(s));
    lemma_one_tok(t, p, word(s));
    lemma_one_tok(t, p, TokModel::Ref(s));
    let a = seq![mark(Mark::Caret), TokModel::Regex(s)];
    if stands(t, p, a) {
        assert(tok_at(t, p + 0) == Some(a[0]) && tok_at(t, p + 1) == Some(a[1]));
    }
}

pub proof fn lemma_one_tok(t: Toks, p: int, a: TokModel)
    ensures
        stands(t, p, seq![a]) ==> tok_at(t, p) == Some(a),
{
    if stands(t, p, seq![a]) {
        assert(tok_at(t, p + 0) == Some(seq![a][0]));
    }
}

// ---------------------------------------------------------------------------
// What predicates say of lexemes
// ---------------------------------------------------------------------------

/// What a pattern sees of a lexeme, by the name of the field: one text each for the kind, the
/// class, the text, the function and whether it is named, one numeral each for the depths, the
/// lines that it spans and its length in bytes, and nothing under any other name.
pub proof fn fields_show_the_lexeme(t: TokenModel)
    ensures
        ({
            let see = token_element(t).fields;
            &&& see("node_kind"@) == seq![t.kind]
            &&& see("class"@) == seq![t.class]
            &&& see("text"@) == seq![t.text]
            &&& see("function"@) == seq![t.func]
            &&& see("named"@) == seq![
                if t.token.named {
                    "true"@
                } else {
                    "false"@
                },
            ]
            &&& see("curly_depth"@) == seq![decimal_of(t.token.curly as nat)]
            &&& see("round_depth"@) == seq![decimal_of(t.token.round as nat)]
            &&& see("bracket_depth"@) == seq![decimal_of(t.token.bracket as nat)]
            &&& t.token.start_line <= t.token.end_line && t.token.end_line - t.token.start_line
                < 0xffff_ffff ==> see("range_lines"@) == seq![
                decimal_of((t.token.end_line - t.token.start_line + 1) as nat),
            ]
            &&& t.token.start_byte <= t.token.end_byte ==> see("text_len"@) == seq![
                decimal_of((t.token.end_byte - t.token.start_byte) as nat),
            ]
        }),
        forall|key: Seq<char>|
            key != "node_kind"@ && key != "class"@ && key != "text"@ && key != "function"@ && key
                != "named"@ && key != "curly_depth"@ && key != "round_depth"@ && key
                != "bracket_depth"@ && key != "range_lines"@ && key != "text_len"@
                ==> #[trigger] (token_element(t).fields)(key) == Seq::<Seq<char>>::empty(),
{
    reveal_strlit("node_kind");
    reveal_strlit("class");
    reveal_strlit("text");
    reveal_strlit("function");
    reveal_strlit("named");
    reveal_strlit("curly_depth");
    reveal_strlit("round_depth");
    reveal_strlit("bracket_depth");
    reveal_strlit("range_lines");
    reveal_strlit("text_len");
    assert("node_kind"@.len() == 9 && "class"@.len() == 5 && "text"@.len() == 4);
    assert("function"@.len() == 8 && "named"@.len() == 5 && "curly_depth"@.len() == 11);
    assert("round_depth"@.len() == 11 && "bracket_depth"@.len() == 13);
    assert("range_lines"@.len() == 11 && "text_len"@.len() == 8);
    assert("class"@[0] == 'c' && "named"@[0] == 'n' && "function"@[0] == 'f');
    assert("curly_depth"@[0] == 'c' && "round_depth"@[0] == 'r' && "range_lines"@[0] == 'r');
    assert("round_depth"@[1] == 'o' && "range_lines"@[1] == 'a' && "text_len"@[0] == 't');
}

/// What each predicate says of a field with one text, and of one without any.
pub proof fn predicates_test_the_field(
    attr: Seq<char>,
    x: Seq<char>,
    value: Seq<char>,
    list: Seq<Seq<char>>,
    var: Seq<char>,
    binds: BindsModel,
)
    ensures
        pred_holds(PredModel::Eq { attr, value }, seq![x], binds) <==> x == value,
        pred_holds(PredModel::AnyOf { attr, values: list }, seq![x], binds) <==> list.contains(x),
        pred_holds(PredModel::Regex { attr, re: value }, seq![x], binds) <==> regex_accepts(value, x),
        pred_holds(PredModel::NotRegex { attr, re: value }, seq![x], binds) <==> !regex_accepts(
            value,
            x,
        ),
        pred_holds(PredModel::EqRef { attr, var }, seq![x], binds) <==> crate::order::find(binds, var)
            == Some(x),
        pred_holds(PredModel::NeRef { attr, var }, seq![x], binds) <==> crate::order::find(
            binds,
            var,
        ) is Some && crate::order::find(binds, var) != Some(x),
        !pred_holds(PredModel::Eq { attr, value }, Seq::empty(), binds),
        !pred_holds(PredModel::AnyOf { attr, values: list }, Seq::empty(), binds),
        !pred_holds(PredModel::Regex { attr, re: value }, Seq::empty(), binds),
        pred_holds(PredModel::NotRegex { attr, re: value }, Seq::empty(), binds),
        !pred_holds(PredModel::EqRef { attr, var }, Seq::empty(), binds),
        !pred_holds(PredModel::NeRef { attr, var }, Seq::empty(), binds),
        pred_attr(PredModel::Eq { attr, value }) == attr,
        pred_attr(PredModel::AnyOf { attr, values: list }) == attr,
        pred_attr(PredModel::Regex { attr, re: value }) == attr,
        pred_attr(PredModel::NotRegex { attr, re: value }) == attr,
        pred_attr(PredModel::EqRef { attr, var }) == attr,
        pred_attr(PredModel::NeRef { attr, var }) == attr,
{
    let one = seq![x];
    assert(one[0] == x);
    assert(one.contains(x));
    assert forall|y: Seq<char>| one.contains(y) implies y == x by {}
}

/// Comparisons of a count with a number compare the numbers.
pub proof fn comparisons_compare_numbers(
    attr: Seq<char>,
    a: nat,
    b: nat,
    n: Number,
    binds: BindsModel,
)
    requires
        a < 0x20_0000_0000_0000,
        b < 0x20_0000_0000_0000,
        reads_number(decimal_of(b), n),
    ensures
        pred_holds(PredModel::Cmp { attr, op: CmpOp::Gt, n }, seq![decimal_of(a)], binds) <==> a > b,
        pred_holds(PredModel::Cmp { attr, op: CmpOp::Lt, n }, seq![decimal_of(a)], binds) <==> a < b,
        pred_holds(PredModel::Cmp { attr, op: CmpOp::Ge, n }, seq![decimal_of(a)], binds) <==> a
            >= b,
        pred_holds(PredModel::Cmp { attr, op: CmpOp::Le, n }, seq![decimal_of(a)], binds) <==> a
            <= b,
        pred_attr(PredModel::Cmp { attr, op: CmpOp::Gt, n }) == attr,
{
    let x = decimal_of(a);
    let one = seq![x];
    assert(one[0] == x);
    crate::number::decimal_denotes_itself(a);
    crate::number::decimal_denotes_itself(b);
    crate::number::whole_places_fit(a);
    crate::number::whole_places_fit(b);
    if a < b {
        crate::number::whole_numbers_compare_exactly(a, b);
    }
    if b < a {
        crate::number::whole_numbers_compare_exactly(b, a);
    }
    assert(n == crate::number::whole_number(b));
    let m = crate::number::whole_number(a);
    assert(number_of(one[0]) == Some(m));
}

} // verus!
