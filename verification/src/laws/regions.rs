//! The regions that a sequence is tried in, and the lexemes that it reports.

use vstd::prelude::*;

use crate::compile::concat;
use crate::event::{token_element, ElementModel};
use crate::laws::lists::{concat_holds_all, mapped_holds_results};
use crate::matching::{
    blocks,
    distinct_starts,
    region_hits,
    region_links,
    sequence_hits,
    token_elements,
    tokens_are_reported_once,
};
use crate::rules::SequenceModel;
use crate::sequence::{every_occurrence_is_found, lemma_positions, matches_at, positions};
use crate::token::TokenModel;

verus! {

/// Whether a `{` stands at a position, linked to the position `end`.
pub open spec fn brace(tokens: Seq<TokenModel>, i: int, end: int) -> bool {
    &&& 0 <= i < tokens.len()
    &&& tokens[i].kind == "{"@
    &&& tokens[i].token.jmp == end
    &&& tokens[i].token.jmp != 0xffff_ffff
    &&& i < end <= tokens.len()
}

/// Every linked `{` opens a block, whatever else its token says: the lexemes strictly
/// between it and the position that it is linked to. Nothing else is a block.
pub proof fn every_linked_brace_opens_a_block(tokens: Seq<TokenModel>, lo: int, hi: int)
    ensures
        blocks(tokens).contains((lo, hi)) <==> brace(tokens, lo - 1, hi),
{
    let f = |i: int|
        crate::matching::opens(tokens[i]) && i < tokens[i].token.jmp <= tokens.len();
    let g = |i: int| (i + 1, tokens[i].token.jmp as int);
    let at = positions(tokens.len() as int, f);
    assert(blocks(tokens) == at.map_values(g));
    mapped_holds_results(at, g, (lo, hi));
    lemma_positions(tokens.len() as int, f, lo - 1);
    if blocks(tokens).contains((lo, hi)) {
        let k = choose|k: int| 0 <= k < at.len() && g(#[trigger] at[k]) == (lo, hi);
        assert(at[k] == lo - 1);
        assert(at.contains(lo - 1));
    }
    if brace(tokens, lo - 1, hi) {
        assert(at.contains(lo - 1));
        let k = at.index_of(lo - 1);
        assert(g(at[k]) == (lo, hi));
    }
}

/// What patterns see of the lexemes from `lo` up to `hi`.
pub open spec fn seen(tokens: Seq<TokenModel>, lo: int, hi: int) -> Seq<ElementModel> {
    Seq::new((hi - lo) as nat, |k: int| token_element(tokens[lo + k]))
}

/// Where the lexemes from `lo` up to `hi` are linked to among each other.
pub open spec fn joined_within(tokens: Seq<TokenModel>, lo: int, hi: int) -> Seq<Option<int>> {
    Seq::new(
        (hi - lo) as nat,
        |k: int|
            {
                let j = tokens[lo + k].token.jmp as int;
                if lo <= j < hi && j != 0xffff_ffff {
                    Some(j - lo)
                } else {
                    None
                }
            },
    )
}

/// Whether a sequence, begun at position `p`, consumes the lexemes from there up to `hi`,
/// where it may look at those from `lo` on.
pub open spec fn occurs(s: SequenceModel, tokens: Seq<TokenModel>, lo: int, hi: int, p: int) -> bool {
    lo <= p < hi && matches_at(s, seen(tokens, lo, hi), joined_within(tokens, lo, hi), p - lo)
}

/// Whether one of several lexemes starts at a byte.
pub open spec fn reported(ts: Seq<TokenModel>, byte: u32) -> bool {
    exists|i: int| 0 <= i < ts.len() && (#[trigger] ts[i]).token.start_byte == byte
}

proof fn lemma_region(s: SequenceModel, tokens: Seq<TokenModel>, lo: int, hi: int, t: TokenModel)
    requires
        0 <= lo <= hi <= tokens.len(),
    ensures
        region_hits(s, tokens, (lo, hi)).contains(t) <==> exists|p: int|
            #[trigger] occurs(s, tokens, lo, hi, p) && tokens[p] == t,
{
    let es = token_elements(tokens.subrange(lo, hi));
    let links = region_links(tokens, lo, hi);
    assert(es =~= seen(tokens, lo, hi));
    assert(links =~= joined_within(tokens, lo, hi));
    every_occurrence_is_found(s, es, links);
    let at = crate::sequence::anchors_of(s, es, links);
    let f = |p: int| tokens[lo + p];
    assert(region_hits(s, tokens, (lo, hi)) == at.map_values(f));
    mapped_holds_results(at, f, t);
    if region_hits(s, tokens, (lo, hi)).contains(t) {
        let k = choose|k: int| 0 <= k < at.len() && f(#[trigger] at[k]) == t;
        assert(at.contains(at[k]));
        assert(occurs(s, tokens, lo, hi, lo + at[k]));
    }
    if exists|p: int| #[trigger] occurs(s, tokens, lo, hi, p) && tokens[p] == t {
        let p = choose|p: int| #[trigger] occurs(s, tokens, lo, hi, p) && tokens[p] == t;
        assert(at.contains(p - lo));
        let k = at.index_of(p - lo);
        assert(f(at[k]) == t);
    }
}

proof fn lemma_distinct(ts: Seq<TokenModel>)
    ensures
        forall|t: TokenModel| #[trigger] distinct_starts(ts).contains(t) ==> ts.contains(t),
        forall|t: TokenModel| #[trigger]
            ts.contains(t) ==> reported(distinct_starts(ts), t.token.start_byte),
    decreases ts.len(),
{
    if ts.len() > 0 {
        let init = ts.drop_last();
        lemma_distinct(init);
        let d = distinct_starts(ts);
        let e = distinct_starts(init);
        assert forall|t: TokenModel| #[trigger] d.contains(t) implies ts.contains(t) by {
            let k = d.index_of(t);
            assert(d[k] == t);
            if k < e.len() {
                assert(e[k] == t);
                assert(e.contains(t));
                let i = init.index_of(t);
                assert(init[i] == t);
                assert(ts[i] == t);
            } else {
                assert(ts[ts.len() - 1] == t);
            }
        }
        assert forall|t: TokenModel| #[trigger] ts.contains(t) implies reported(
            d,
            t.token.start_byte,
        ) by {
            let i = ts.index_of(t);
            assert(ts[i] == t);
            let again = crate::matching::starts_at(init, t.token.start_byte);
            if i < init.len() {
                assert(init[i] == t);
            } else if again {
                let j = choose|j: int|
                    0 <= j < init.len() && (#[trigger] init[j]).token.start_byte
                        == t.token.start_byte;
                assert(init.contains(init[j]));
            }
            if i < init.len() || again {
                assert(reported(e, t.token.start_byte)) by {
                    if i < init.len() {
                        assert(init.contains(t));
                    }
                }
                let k = choose|k: int|
                    0 <= k < e.len() && (#[trigger] e[k]).token.start_byte == t.token.start_byte;
                assert(d[k] == e[k]);
            } else {
                assert(d[d.len() - 1] == t);
            }
        }
    }
}

/// Without `in scope`, a sequence is tried at every lexeme of the file and has to consume
/// the file to its end: what it reports are the lexemes at which it occurs so, one for each
/// byte at which any of them starts.
pub proof fn sequences_are_tried_in_the_whole_file(s: SequenceModel, tokens: Seq<TokenModel>)
    requires
        !s.within_scope,
    ensures
        forall|t: TokenModel| #[trigger]
            sequence_hits(s, tokens).contains(t) ==> exists|p: int|
                #[trigger] occurs(s, tokens, 0, tokens.len() as int, p) && tokens[p] == t,
        forall|p: int| #[trigger]
            occurs(s, tokens, 0, tokens.len() as int, p) ==> reported(
                sequence_hits(s, tokens),
                tokens[p].token.start_byte,
            ),
        forall|i: int, j: int|
            0 <= i < j < sequence_hits(s, tokens).len() ==> (#[trigger] sequence_hits(
                s,
                tokens,
            )[i]).token.start_byte != (#[trigger] sequence_hits(s, tokens)[j]).token.start_byte,
{
    let n = tokens.len() as int;
    let all = region_hits(s, tokens, (0, n));
    lemma_distinct(all);
    tokens_are_reported_once(all);
    assert forall|t: TokenModel| #[trigger] sequence_hits(s, tokens).contains(t) implies exists|p: int|
        #[trigger] occurs(s, tokens, 0, n, p) && tokens[p] == t by {
        assert(all.contains(t));
        lemma_region(s, tokens, 0, n, t);
    }
    assert forall|p: int| #[trigger] occurs(s, tokens, 0, n, p) implies reported(
        sequence_hits(s, tokens),
        tokens[p].token.start_byte,
    ) by {
        lemma_region(s, tokens, 0, n, tokens[p]);
        assert(all.contains(tokens[p]));
    }
}

/// With `in scope`, a sequence is tried in every `{}` block, at each of its lexemes, and has
/// to consume the block to its end: what it reports are the lexemes at which it occurs so in
/// some block, one for each byte at which any of them starts.
pub proof fn sequences_in_scope_are_tried_in_every_block(s: SequenceModel, tokens: Seq<TokenModel>)
    requires
        s.within_scope,
    ensures
        forall|t: TokenModel| #[trigger]
            sequence_hits(s, tokens).contains(t) ==> exists|i: int, end: int, p: int|
                #[trigger] brace(tokens, i, end) && #[trigger] occurs(s, tokens, i + 1, end, p)
                    && tokens[p] == t,
        forall|i: int, end: int, p: int| #[trigger]
            brace(tokens, i, end) && #[trigger] occurs(s, tokens, i + 1, end, p) ==> reported(
                sequence_hits(s, tokens),
                tokens[p].token.start_byte,
            ),
        forall|i: int, j: int|
            0 <= i < j < sequence_hits(s, tokens).len() ==> (#[trigger] sequence_hits(
                s,
                tokens,
            )[i]).token.start_byte != (#[trigger] sequence_hits(s, tokens)[j]).token.start_byte,
{
    let bs = blocks(tokens);
    let f = |b: (int, int)| region_hits(s, tokens, b);
    let lists = bs.map_values(f);
    let all = concat(lists);
    lemma_distinct(all);
    tokens_are_reported_once(all);
    assert forall|t: TokenModel| #[trigger] sequence_hits(s, tokens).contains(t) implies exists|
        i: int,
        end: int,
        p: int,
    |
        #[trigger] brace(tokens, i, end) && #[trigger] occurs(s, tokens, i + 1, end, p) && tokens[p]
            == t by {
        assert(all.contains(t));
        concat_holds_all(lists, t);
        let k = choose|k: int| 0 <= k < lists.len() && (#[trigger] lists[k]).contains(t);
        let (lo, hi) = bs[k];
        assert(bs.contains((lo, hi)));
        every_linked_brace_opens_a_block(tokens, lo, hi);
        lemma_region(s, tokens, lo, hi, t);
        let p = choose|p: int| #[trigger] occurs(s, tokens, lo, hi, p) && tokens[p] == t;
        assert(brace(tokens, lo - 1, hi));
        assert(occurs(s, tokens, (lo - 1) + 1, hi, p));
    }
    assert forall|i: int, end: int, p: int| #[trigger]
        brace(tokens, i, end) && #[trigger] occurs(s, tokens, i + 1, end, p) implies reported(
        sequence_hits(s, tokens),
        tokens[p].token.start_byte,
    ) by {
        every_linked_brace_opens_a_block(tokens, i + 1, end);
        let k = bs.index_of((i + 1, end));
        assert(lists[k] == region_hits(s, tokens, (i + 1, end)));
        lemma_region(s, tokens, i + 1, end, tokens[p]);
        assert(lists[k].contains(tokens[p]));
        concat_holds_all(lists, tokens[p]);
        assert(all.contains(tokens[p]));
    }
}

} // verus!
