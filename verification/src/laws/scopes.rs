//! Single patterns and what they ask of the enclosing block.

use vstd::prelude::*;

use crate::event::{token_element, EventKind};
use crate::laws::patterns::all_true_of;
use crate::matching::{in_scope, match_at, opener, opener_is_innermost, rule_hits, scope_has, scope_holds};
use crate::rules::{clause_holds, preds_hold, ClauseModel, PredModel, RuleModel, WhereModel};
use crate::schema::BindsModel;
use crate::sequence::{lemma_positions, lemma_positions_increase, positions};
use crate::token::TokenModel;

verus! {

/// Whether a `{}` block that opens at `o` is around a position.
pub open spec fn encloses(tokens: Seq<TokenModel>, o: int, i: int) -> bool {
    &&& 0 <= o < i
    &&& tokens[o].kind == "{"@
    &&& tokens[o].token.jmp != 0xffff_ffff
    &&& i < tokens[o].token.jmp
}

/// Whether a `{}` block that opens at `o` is the innermost one around a position.
pub open spec fn innermost(tokens: Seq<TokenModel>, o: int, i: int) -> bool {
    encloses(tokens, o, i) && forall|k: int| o < k < i ==> !#[trigger] encloses(tokens, k, i)
}

/// Whether a scope predicate of the lexeme at `i` looks at the one at `k`: another lexeme of
/// the innermost block around it, or of the file where no block is around it.
pub open spec fn looks_at(tokens: Seq<TokenModel>, i: int, k: int) -> bool {
    &&& 0 <= k < tokens.len()
    &&& k != i
    &&& forall|o: int| #[trigger] innermost(tokens, o, i) ==> o < k < tokens[o].token.jmp
}

/// Whether a clause matches a lexeme.
pub open spec fn clause_fits(c: ClauseModel, t: TokenModel) -> bool {
    (c.kind is None || c.kind == Some(EventKind::Token)) && all_true_of(
        c.preds,
        token_element(t),
        Seq::empty(),
    )
}

/// Whether the enclosing block holds what a clause asks for, or, where order matters, holds it
/// later.
pub open spec fn has_in_block(c: ClauseModel, tokens: Seq<TokenModel>, i: int, later: bool) -> bool {
    exists|k: int|
        #[trigger] looks_at(tokens, i, k) && clause_fits(c, tokens[k]) && (later ==> i < k)
}

proof fn lemma_looks_at(tokens: Seq<TokenModel>, i: int, k: int)
    requires
        0 <= i < tokens.len(),
        0 <= k < tokens.len(),
    ensures
        in_scope(tokens, i, k) == looks_at(tokens, i, k),
{
    opener_is_innermost(tokens, i, i);
    match opener(tokens, i, i) {
        Some(o) => {
            assert forall|m: int| o < m < i implies !#[trigger] encloses(tokens, m, i) by {
                assert(!(crate::matching::opens(tokens[m]) && i < tokens[m].token.jmp));
            }
            assert(innermost(tokens, o, i));
            assert forall|m: int| #[trigger] innermost(tokens, m, i) implies m == o by {
                if m < o {
                    assert(encloses(tokens, o, i));
                }
            }
        },
        None => {
            assert forall|m: int| #[trigger] innermost(tokens, m, i) implies false by {
                assert(crate::matching::opens(tokens[m]) && i < tokens[m].token.jmp);
            }
        },
    }
}

proof fn lemma_preds(ps: Seq<PredModel>, t: TokenModel, binds: BindsModel)
    ensures
        preds_hold(ps, token_element(t), binds) == all_true_of(ps, token_element(t), binds),
{
    let e = token_element(t);
    if preds_hold(ps, e, binds) {
        assert forall|i: int| 0 <= i < ps.len() implies crate::laws::patterns::true_of(
            #[trigger] ps[i],
            e,
            binds,
        ) by {}
    }
    if all_true_of(ps, e, binds) {
        assert forall|i: int| 0 <= i < ps.len() implies crate::rules::pred_holds(
            #[trigger] ps[i],
            (e.fields)(crate::rules::pred_attr(ps[i])),
            binds,
        ) by {
            assert(crate::laws::patterns::true_of(ps[i], e, binds));
        }
    }
}

proof fn lemma_has(c: ClauseModel, tokens: Seq<TokenModel>, i: int, later: bool)
    requires
        0 <= i < tokens.len(),
    ensures
        scope_has(c, tokens, i, later) == has_in_block(c, tokens, i, later),
{
    if scope_has(c, tokens, i, later) {
        let k = choose|k: int|
            0 <= k < tokens.len() && (later ==> i < k) && in_scope(tokens, i, k) && clause_holds(
                c,
                token_element(#[trigger] tokens[k]),
            );
        lemma_looks_at(tokens, i, k);
        lemma_preds(c.preds, tokens[k], Seq::empty());
        assert(looks_at(tokens, i, k));
    }
    if has_in_block(c, tokens, i, later) {
        let k = choose|k: int|
            #[trigger] looks_at(tokens, i, k) && clause_fits(c, tokens[k]) && (later ==> i < k);
        lemma_looks_at(tokens, i, k);
        lemma_preds(c.preds, tokens[k], Seq::empty());
        assert(clause_holds(c, token_element(tokens[k])));
    }
}

/// Whether all scope clauses hold at a position: the enclosing block holds what each
/// `contains` asks for, nothing that a `not contains` names, and later what each
/// `followed by` asks for.
pub open spec fn block_fits(w: WhereModel, tokens: Seq<TokenModel>, i: int) -> bool {
    &&& forall|c: int|
        0 <= c < w.contains.len() ==> has_in_block(#[trigger] w.contains[c], tokens, i, false)
    &&& forall|c: int|
        0 <= c < w.not_contains.len() ==> !has_in_block(
            #[trigger] w.not_contains[c],
            tokens,
            i,
            false,
        )
    &&& forall|c: int|
        0 <= c < w.followed_by.len() ==> has_in_block(#[trigger] w.followed_by[c], tokens, i, true)
}

/// Scope clauses look at the innermost `{}` block around the lexeme, and all of them have to
/// hold.
pub proof fn scope_clauses_look_at_the_block(w: WhereModel, tokens: Seq<TokenModel>, i: int)
    requires
        0 <= i < tokens.len(),
    ensures
        scope_holds(w, tokens, i) <==> block_fits(w, tokens, i),
{
    assert forall|c: ClauseModel, later: bool| #[trigger]
        scope_has(c, tokens, i, later) == has_in_block(c, tokens, i, later) by {
        lemma_has(c, tokens, i, later);
    }
    if scope_holds(w, tokens, i) {
        assert forall|c: int| 0 <= c < w.contains.len() implies has_in_block(
            #[trigger] w.contains[c],
            tokens,
            i,
            false,
        ) by {
            assert(scope_has(w.contains[c], tokens, i, false));
        }
        assert forall|c: int| 0 <= c < w.not_contains.len() implies !has_in_block(
            #[trigger] w.not_contains[c],
            tokens,
            i,
            false,
        ) by {
            assert(!scope_has(w.not_contains[c], tokens, i, false));
        }
        assert forall|c: int| 0 <= c < w.followed_by.len() implies has_in_block(
            #[trigger] w.followed_by[c],
            tokens,
            i,
            true,
        ) by {
            assert(scope_has(w.followed_by[c], tokens, i, true));
        }
    }
    if block_fits(w, tokens, i) {
        assert forall|c: int| 0 <= c < w.contains.len() implies scope_has(
            #[trigger] w.contains[c],
            tokens,
            i,
            false,
        ) == true by {
            assert(has_in_block(w.contains[c], tokens, i, false));
        }
        assert forall|c: int| 0 <= c < w.not_contains.len() implies scope_has(
            #[trigger] w.not_contains[c],
            tokens,
            i,
            false,
        ) == false by {
            assert(!has_in_block(w.not_contains[c], tokens, i, false));
        }
        assert forall|c: int| 0 <= c < w.followed_by.len() implies scope_has(
            #[trigger] w.followed_by[c],
            tokens,
            i,
            true,
        ) == true by {
            assert(has_in_block(w.followed_by[c], tokens, i, true));
        }
    }
}

/// Whether a rule with a single pattern matches at a position: all predicates hold of the
/// lexeme, and the enclosing block holds what the clauses ask for.
pub open spec fn fits_at(r: RuleModel, tokens: Seq<TokenModel>, i: int) -> bool {
    &&& r.event is None || r.event == Some(EventKind::Token)
    &&& all_true_of(r.preds, token_element(tokens[i]), Seq::empty())
    &&& r.where_scope is Some ==> block_fits(r.where_scope->0, tokens, i)
}

/// Whether positions are those at which a rule with a single pattern matches, in order.
pub open spec fn all_fitting(r: RuleModel, tokens: Seq<TokenModel>, at: Seq<int>) -> bool {
    &&& forall|i: int, j: int| 0 <= i < j < at.len() ==> #[trigger] at[i] < #[trigger] at[j]
    &&& forall|i: int| #[trigger] at.contains(i) <==> 0 <= i < tokens.len() && fits_at(r, tokens, i)
}

/// A rule with a single pattern reports every lexeme at which it matches, once, in order, and
/// nothing else.
pub proof fn single_patterns_report_every_match(r: RuleModel, tokens: Seq<TokenModel>)
    requires
        r.sequence is None,
    ensures
        exists|at: Seq<int>|
            #[trigger] all_fitting(r, tokens, at) && rule_hits(r, tokens) == at.map_values(
                |i: int| tokens[i],
            ),
{
    let n = tokens.len() as int;
    let f = |i: int| match_at(r, tokens, i);
    let at = positions(n, f);
    lemma_positions_increase(n, f);
    assert forall|i: int| #[trigger] at.contains(i) <==> 0 <= i < n && fits_at(r, tokens, i) by {
        lemma_positions(n, f, i);
        if 0 <= i < n {
            lemma_preds(r.preds, tokens[i], Seq::empty());
            if let Some(w) = r.where_scope {
                scope_clauses_look_at_the_block(w, tokens, i);
            }
        }
    }
    assert(all_fitting(r, tokens, at));
    assert(rule_hits(r, tokens) =~= at.map_values(|i: int| tokens[i]));
}

/// A rule with a sequence reports what the sequence does.
pub proof fn sequence_rules_report_their_sequence(r: RuleModel, tokens: Seq<TokenModel>)
    requires
        r.sequence is Some,
    ensures
        rule_hits(r, tokens) == crate::matching::sequence_hits(r.sequence->0, tokens),
{
}

} // verus!
