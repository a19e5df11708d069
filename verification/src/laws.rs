//! The engine's headline guarantees, stated and proved over its contracts:
//! every reveal record's original text occurs at a real location in the
//! input, and a fresh token occurs exactly once in the output.

use vstd::prelude::*;

use crate::engine::all_unredacted;
use crate::engine::is_token_char;
use crate::engine::redact_prefix;
use crate::engine::redact_suffix;
use crate::engine::splice;
use crate::engine::sources_bounded;
use crate::engine::apply_matches;
use crate::engine::find_all;
use crate::engine::match_bounds;
use crate::engine::pattern_unredacted;
use crate::engine::records_rel;
use crate::engine::redact_output;
use crate::engine::redacted_chars;
use crate::engine::token_view;
use crate::engine::token_wf;
use crate::engine::total_matches;
use crate::engine::unredacted_view;
use crate::engine::wrapped_token;
use crate::engine::RedactedData;

verus! {

/// `needle` stands at position `i` of `hay`.
pub open spec fn occurs_at(hay: Seq<char>, needle: Seq<char>, i: int) -> bool {
    0 <= i && i + needle.len() <= hay.len() && hay.subrange(i, i + needle.len() as int) == needle
}

/// `needle` stands somewhere in `hay`.
pub open spec fn occurs(hay: Seq<char>, needle: Seq<char>) -> bool {
    exists|i: int| occurs_at(hay, needle, i)
}

/// `needle` stands at exactly one position of `hay`.
pub open spec fn occurs_exactly_once(hay: Seq<char>, needle: Seq<char>) -> bool {
    exists|i: int|
        occurs_at(hay, needle, i) && (forall|j: int| occurs_at(hay, needle, j) ==> j == i)
}

proof fn lemma_occurs_at_left(a: Seq<char>, b: Seq<char>, needle: Seq<char>, p: int)
    requires
        occurs_at(a, needle, p),
    ensures
        occurs_at(a + b, needle, p),
{
    assert((a + b).subrange(p, p + needle.len() as int) =~= a.subrange(
        p,
        p + needle.len() as int,
    ));
}

proof fn lemma_occurs_at_right(a: Seq<char>, b: Seq<char>, needle: Seq<char>, p: int)
    requires
        occurs_at(b, needle, p),
    ensures
        occurs_at(a + b, needle, p + a.len()),
{
    assert((a + b).subrange(p + a.len(), p + a.len() + needle.len() as int) =~= b.subrange(
        p,
        p + needle.len() as int,
    ));
}

proof fn lemma_occurs_take(text: Seq<char>, s: int, needle: Seq<char>)
    requires
        0 <= s <= text.len(),
        occurs(text.take(s), needle),
    ensures
        occurs(text, needle),
{
    let p = choose|p: int| occurs_at(text.take(s), needle, p);
    assert(text.subrange(p, p + needle.len() as int) =~= text.take(s).subrange(
        p,
        p + needle.len() as int,
    ));
    assert(occurs_at(text, needle, p));
}

proof fn lemma_occurs_skip(text: Seq<char>, e: int, needle: Seq<char>)
    requires
        0 <= e <= text.len(),
        occurs(text.skip(e), needle),
    ensures
        occurs(text, needle),
{
    let p = choose|p: int| occurs_at(text.skip(e), needle, p);
    assert(text.subrange(p + e, p + e + needle.len() as int) =~= text.skip(e).subrange(
        p,
        p + needle.len() as int,
    ));
    assert(occurs_at(text, needle, p + e));
}

/// LAW, first part of the record guarantee: under the engine's contract,
/// every reveal record's original text occurs at a real location in the
/// input, whatever the patterns.
pub proof fn lemma_unredacted_occurs_in_input(
    text: Seq<char>,
    sources: Seq<Seq<char>>,
    recs: Seq<RedactedData>,
)
    requires
        records_rel(text, sources, recs),
        sources_bounded(text, sources),
    ensures
        forall|i: int| 0 <= i < recs.len() ==> occurs(text, #[trigger] recs[i].unredacted_text@),
{
    lemma_all_unredacted_occurs(text, sources);
    let us = all_unredacted(text, sources);
    assert(recs.map_values(|d: RedactedData| unredacted_view(d)) == us);
    assert forall|i: int| 0 <= i < recs.len() implies occurs(
        text,
        #[trigger] recs[i].unredacted_text@,
    ) by {
        assert(us[i] == recs.map_values(|d: RedactedData| unredacted_view(d))[i]);
        assert(us[i] == recs[i].unredacted_text@);
    }
}

proof fn lemma_all_unredacted_occurs(text: Seq<char>, sources: Seq<Seq<char>>)
    requires
        forall|j: int|
            0 <= j < sources.len() ==> match_bounds(
                find_all(#[trigger] sources[j], text),
                text.len() as int,
            ),
    ensures
        forall|i: int|
            0 <= i < all_unredacted(text, sources).len() ==> occurs(
                text,
                #[trigger] all_unredacted(text, sources)[i],
            ),
    decreases sources.len(),
{
    if sources.len() == 0 {
    } else {
        let ms = find_all(sources[0], text);
        let dms = ms.reverse();
        let pu = pattern_unredacted(text, dms);
        assert(match_bounds(ms, text.len() as int));
        assert forall|i: int| 0 <= i < pu.len() implies occurs(text, #[trigger] pu[i]) by {
            let m = dms[i];
            assert(m == ms[ms.len() - 1 - i]);
            assert(0 <= m.0 && m.0 <= m.1 && m.1 <= text.len());
            assert(pu[i] == text.subrange(m.0, m.1));
            assert(occurs_at(text, pu[i], m.0)) by {
                assert(text.subrange(m.0, m.0 + pu[i].len() as int) =~= text.subrange(m.0, m.1));
            }
        }
        assert forall|j: int|
            0 <= j < sources.drop_first().len() implies match_bounds(
            find_all(#[trigger] sources.drop_first()[j], text),
            text.len() as int,
        ) by {
            assert(sources.drop_first()[j] == sources[j + 1]);
        }
        lemma_all_unredacted_occurs(text, sources.drop_first());
        let rest = all_unredacted(text, sources.drop_first());
        assert(all_unredacted(text, sources) == pu + rest);
        assert forall|i: int|
            0 <= i < all_unredacted(text, sources).len() implies occurs(
            text,
            #[trigger] all_unredacted(text, sources)[i],
        ) by {
            if i < pu.len() {
                assert(all_unredacted(text, sources)[i] == pu[i]);
            } else {
                assert(all_unredacted(text, sources)[i] == rest[i - pu.len()]);
            }
        }
    }
}

/// Every character of the token is a token character.
pub open spec fn all_token_chars(tok: Seq<char>) -> bool {
    forall|i: int| 0 <= i < tok.len() ==> is_token_char(#[trigger] tok[i])
}

/// The literal word inside the replacement prefix.
pub open spec fn redacted_word() -> Seq<char> {
    seq!['R', 'E', 'D', 'A', 'C', 'T', 'E', 'D']
}

proof fn lemma_bounds_pairwise(ms: Seq<(int, int)>, len: int, i: int, j: int)
    requires
        match_bounds(ms, len),
        0 <= i < j < ms.len(),
    ensures
        ms[i].1 <= ms[j].0,
    decreases j - i,
{
    if i + 1 < j {
        lemma_bounds_pairwise(ms, len, i, j - 1);
    }
}

proof fn lemma_apply_matches_concat(
    a: Seq<char>,
    x: Seq<char>,
    dms: Seq<(int, int)>,
    toks: Seq<Seq<char>>,
)
    requires
        forall|i: int| 0 <= i < dms.len() ==> 0 <= (#[trigger] dms[i]).0 <= dms[i].1 <= a.len(),
        forall|i: int, j: int|
            #![trigger dms[i], dms[j]]
            0 <= i < j < dms.len() ==> dms[j].1 <= dms[i].0,
    ensures
        apply_matches(a + x, dms, toks) == apply_matches(a, dms, toks) + x,
    decreases dms.len(),
{
    if dms.len() == 0 {
    } else {
        let s = dms[0].0;
        let e = dms[0].1;
        let w = wrapped_token(toks[0]);
        assert(splice(a + x, s, e, w) =~= splice(a, s, e, w) + x) by {
            assert((a + x).take(s) =~= a.take(s));
            assert((a + x).skip(e) =~= a.skip(e) + x);
        }
        let a1 = splice(a, s, e, w);
        assert(a1.len() == s + w.len() + (a.len() - e));
        assert forall|i: int|
            0 <= i < dms.drop_first().len() implies 0 <= (#[trigger] dms.drop_first()[i]).0
            <= dms.drop_first()[i].1 <= a1.len() by {
            assert(dms.drop_first()[i] == dms[i + 1]);
            assert(dms[i + 1].1 <= dms[0].0);
        }
        assert forall|i: int, j: int|
            #![trigger dms.drop_first()[i], dms.drop_first()[j]]
            0 <= i < j < dms.drop_first().len() implies dms.drop_first()[j].1
            <= dms.drop_first()[i].0 by {
            assert(dms.drop_first()[i] == dms[i + 1]);
            assert(dms.drop_first()[j] == dms[j + 1]);
        }
        lemma_apply_matches_concat(a1, x, dms.drop_first(), toks.drop_first());
        assert(apply_matches(a + x, dms, toks) == apply_matches(
            splice(a + x, s, e, w),
            dms.drop_first(),
            toks.drop_first(),
        ));
        assert(apply_matches(a, dms, toks) == apply_matches(
            a1,
            dms.drop_first(),
            toks.drop_first(),
        ));
    }
}

/// The final shape of a single pattern's output: the text pieces between the
/// (ascending) matches, interleaved with the wrapped tokens.
spec fn interleave(text: Seq<char>, ams: Seq<(int, int)>, ttoks: Seq<Seq<char>>) -> Seq<char>
    decreases ams.len(),
{
    if ams.len() == 0 {
        text
    } else {
        interleave(text.take(ams.last().0), ams.drop_last(), ttoks.drop_last()) + wrapped_token(
            ttoks.last(),
        ) + text.skip(ams.last().1)
    }
}

proof fn lemma_apply_is_interleave(text: Seq<char>, ams: Seq<(int, int)>, toks: Seq<Seq<char>>)
    requires
        match_bounds(ams, text.len() as int),
        toks.len() == ams.len(),
    ensures
        apply_matches(text, ams.reverse(), toks) == interleave(text, ams, toks.reverse()),
    decreases ams.len(),
{
    if ams.len() == 0 {
        assert(ams.reverse() =~= ams);
        assert(apply_matches(text, ams.reverse(), toks) == text);
    } else {
        let n = ams.len();
        let dms = ams.reverse();
        let s = ams.last().0;
        let e = ams.last().1;
        assert(dms[0] == ams[n - 1]);
        assert(dms.drop_first() =~= ams.drop_last().reverse());
        assert(toks.reverse().drop_last() =~= toks.drop_first().reverse());
        assert(toks.reverse().last() == toks[0]);
        let w = wrapped_token(toks[0]);
        assert(apply_matches(text, dms, toks) == apply_matches(
            splice(text, s, e, w),
            dms.drop_first(),
            toks.drop_first(),
        ));
        let a = text.take(s);
        let x = w + text.skip(e);
        assert(splice(text, s, e, w) =~= a + x);
        assert forall|i: int|
            0 <= i < dms.drop_first().len() implies 0 <= (#[trigger] dms.drop_first()[i]).0
            <= dms.drop_first()[i].1 <= a.len() by {
            assert(dms.drop_first()[i] == ams[n - 2 - i]);
            lemma_bounds_pairwise(ams, text.len() as int, n - 2 - i, n - 1);
        }
        assert forall|i: int, j: int|
            #![trigger dms.drop_first()[i], dms.drop_first()[j]]
            0 <= i < j < dms.drop_first().len() implies dms.drop_first()[j].1
            <= dms.drop_first()[i].0 by {
            assert(dms.drop_first()[i] == ams[n - 2 - i]);
            assert(dms.drop_first()[j] == ams[n - 2 - j]);
            lemma_bounds_pairwise(ams, text.len() as int, n - 2 - j, n - 2 - i);
        }
        lemma_apply_matches_concat(a, x, dms.drop_first(), toks.drop_first());
        assert(match_bounds(ams.drop_last(), a.len() as int)) by {
            assert forall|i: int|
                0 <= i < ams.drop_last().len() implies 0 <= (#[trigger] ams.drop_last()[i]).0
                && ams.drop_last()[i].0 <= ams.drop_last()[i].1 && ams.drop_last()[i].1
                <= a.len() by {
                assert(ams.drop_last()[i] == ams[i]);
                lemma_bounds_pairwise(ams, text.len() as int, i, n - 1);
            }
            assert forall|i: int|
                0 < i < ams.drop_last().len() implies (#[trigger] ams.drop_last()[i]).0
                >= ams.drop_last()[i - 1].1 by {
                assert(ams.drop_last()[i] == ams[i]);
                assert(ams.drop_last()[i - 1] == ams[i - 1]);
            }
        }
        lemma_apply_is_interleave(a, ams.drop_last(), toks.drop_first());
        assert(apply_matches(a, ams.drop_last().reverse(), toks.drop_first()) == interleave(
            a,
            ams.drop_last(),
            toks.drop_first().reverse(),
        ));
        assert(apply_matches(a, dms.drop_first(), toks.drop_first()) + x == interleave(
            a,
            ams.drop_last(),
            toks.reverse().drop_last(),
        ) + wrapped_token(toks.reverse().last()) + text.skip(e)) by {
            assert((interleave(a, ams.drop_last(), toks.drop_first().reverse()) + w)
                + text.skip(e) =~= interleave(a, ams.drop_last(), toks.drop_first().reverse()) + (w
                + text.skip(e)));
        }
    }
}

proof fn lemma_wrapped_facts(t: Seq<char>)
    ensures
        wrapped_token(t).len() == 11 + t.len(),
        wrapped_token(t)[0] == '[',
        wrapped_token(t)[9] == ':',
        wrapped_token(t)[10 + t.len() as int] == ']',
        forall|j: int| 0 <= j < t.len() ==> wrapped_token(t)[10 + j] == #[trigger] t[j],
        forall|i: int| 1 <= i < 9 ==> wrapped_token(t)[i] == redacted_word()[i - 1],
        wrapped_token(t).subrange(10, 10 + t.len() as int) =~= t,
        !is_token_char('['),
        !is_token_char(':'),
        !is_token_char(']'),
{
    let w = wrapped_token(t);
    assert(redact_prefix().len() == 10);
    assert(redact_suffix().len() == 1);
    assert(w.subrange(10, 10 + t.len() as int) =~= t);
}

proof fn lemma_occurs_at_within_left(a: Seq<char>, b: Seq<char>, needle: Seq<char>, p: int)
    requires
        occurs_at(a + b, needle, p),
        p + needle.len() <= a.len(),
    ensures
        occurs_at(a, needle, p),
{
    assert(a.subrange(p, p + needle.len() as int) =~= (a + b).subrange(
        p,
        p + needle.len() as int,
    ));
}

proof fn lemma_occurs_at_within_right(a: Seq<char>, b: Seq<char>, needle: Seq<char>, p: int)
    requires
        occurs_at(a + b, needle, p),
        p >= a.len(),
    ensures
        occurs_at(b, needle, p - a.len()),
{
    assert(b.subrange(p - a.len(), p - a.len() + needle.len() as int) =~= (a + b).subrange(
        p,
        p + needle.len() as int,
    ));
}

proof fn lemma_no_span_first(a: Seq<char>, b: Seq<char>, tok: Seq<char>, p: int)
    requires
        occurs_at(a + b, tok, p),
        all_token_chars(tok),
        tok.len() > 0,
        b.len() > 0,
        !is_token_char(b[0]),
    ensures
        p + tok.len() <= a.len() || p >= a.len(),
{
    if p < a.len() && p + tok.len() > a.len() {
        assert((a + b).subrange(p, p + tok.len() as int)[a.len() - p] == (a + b)[a.len() as int]);
        assert(tok[a.len() - p] == b[0]);
        assert(is_token_char(tok[a.len() - p]));
        assert(false);
    }
}

proof fn lemma_no_span_last(a: Seq<char>, b: Seq<char>, tok: Seq<char>, p: int)
    requires
        occurs_at(a + b, tok, p),
        all_token_chars(tok),
        tok.len() > 0,
        a.len() > 0,
        !is_token_char(a.last()),
    ensures
        p + tok.len() <= a.len() || p >= a.len(),
{
    if p < a.len() && p + tok.len() > a.len() {
        assert((a + b).subrange(p, p + tok.len() as int)[a.len() - 1 - p] == (a + b)[a.len()
            - 1]);
        assert(tok[a.len() - 1 - p] == a.last());
        assert(is_token_char(tok[a.len() - 1 - p]));
        assert(false);
    }
}

proof fn lemma_wrapped_occurrence(t: Seq<char>, tok: Seq<char>, p: int)
    requires
        occurs_at(wrapped_token(t), tok, p),
        tok.len() > 0,
        all_token_chars(tok),
        !occurs(redacted_word(), tok),
    ensures
        10 <= p,
        p + tok.len() <= 10 + t.len(),
        occurs_at(t, tok, p - 10),
{
    let w = wrapped_token(t);
    lemma_wrapped_facts(t);
    assert(forall|q: int|
        p <= q < p + tok.len() ==> w[q] == tok[q - p] && is_token_char(#[trigger] w[q])) by {
        assert forall|q: int| p <= q < p + tok.len() implies w[q] == tok[q - p] && is_token_char(
            w[q],
        ) by {
            assert(w.subrange(p, p + tok.len() as int)[q - p] == w[q]);
            assert(tok[q - p] == w[q]);
            assert(is_token_char(tok[q - p]));
        }
    }
    if p <= 0 {
        assert(w[0] == '[');
        assert(false);
    }
    if p <= 9 && p + tok.len() > 9 {
        assert(w[9] == ':');
        assert(false);
    }
    if p + tok.len() <= 9 {
        assert(occurs_at(redacted_word(), tok, p - 1)) by {
            assert(redacted_word().subrange(p - 1, p - 1 + tok.len() as int) =~= w.subrange(
                p,
                p + tok.len() as int,
            ));
        }
        assert(occurs(redacted_word(), tok));
        assert(false);
    }
    assert(10 <= p);
    if p <= 10 + t.len() && p + tok.len() > 10 + t.len() {
        assert(w[10 + t.len() as int] == ']');
        assert(false);
    }
    assert(p + tok.len() <= 10 + t.len());
    assert(occurs_at(t, tok, p - 10)) by {
        assert(t.subrange(p - 10, p - 10 + tok.len() as int) =~= w.subrange(
            p,
            p + tok.len() as int,
        ));
    }
}

proof fn lemma_interleave_no_occ(
    text: Seq<char>,
    ams: Seq<(int, int)>,
    ttoks: Seq<Seq<char>>,
    tok: Seq<char>,
)
    requires
        match_bounds(ams, text.len() as int),
        ttoks.len() == ams.len(),
        tok.len() > 0,
        all_token_chars(tok),
        !occurs(text, tok),
        !occurs(redacted_word(), tok),
        forall|i: int| 0 <= i < ttoks.len() ==> !occurs(#[trigger] ttoks[i], tok),
    ensures
        !occurs(interleave(text, ams, ttoks), tok),
    decreases ams.len(),
{
    if ams.len() == 0 {
    } else {
        let n = ams.len();
        let s = ams.last().0;
        let e = ams.last().1;
        let a = text.take(s);
        let ipre = interleave(a, ams.drop_last(), ttoks.drop_last());
        let w = wrapped_token(ttoks.last());
        let whole = interleave(text, ams, ttoks);
        lemma_wrapped_facts(ttoks.last());
        assert(whole =~= ipre + (w + text.skip(e)));
        assert(match_bounds(ams.drop_last(), a.len() as int)) by {
            assert forall|i: int|
                0 <= i < ams.drop_last().len() implies 0 <= (#[trigger] ams.drop_last()[i]).0
                && ams.drop_last()[i].0 <= ams.drop_last()[i].1 && ams.drop_last()[i].1
                <= a.len() by {
                assert(ams.drop_last()[i] == ams[i]);
                lemma_bounds_pairwise(ams, text.len() as int, i, n - 1);
            }
            assert forall|i: int|
                0 < i < ams.drop_last().len() implies (#[trigger] ams.drop_last()[i]).0
                >= ams.drop_last()[i - 1].1 by {
                assert(ams.drop_last()[i] == ams[i]);
                assert(ams.drop_last()[i - 1] == ams[i - 1]);
            }
        }
        if occurs(whole, tok) {
            let p = choose|p: int| occurs_at(whole, tok, p);
            assert(occurs_at(ipre + (w + text.skip(e)), tok, p));
            lemma_no_span_first(ipre, w + text.skip(e), tok, p);
            if p + tok.len() <= ipre.len() {
                lemma_occurs_at_within_left(ipre, w + text.skip(e), tok, p);
                if !occurs(a, tok) {
                    assert forall|i: int|
                        0 <= i < ttoks.drop_last().len() implies !occurs(
                        #[trigger] ttoks.drop_last()[i],
                        tok,
                    ) by {
                        assert(ttoks.drop_last()[i] == ttoks[i]);
                    }
                    lemma_interleave_no_occ(a, ams.drop_last(), ttoks.drop_last(), tok);
                    assert(false);
                } else {
                    lemma_occurs_take(text, s, tok);
                    assert(false);
                }
            } else {
                lemma_occurs_at_within_right(ipre, w + text.skip(e), tok, p);
                let p2 = p - ipre.len();
                assert(occurs_at(w + text.skip(e), tok, p2));
                lemma_no_span_last(w, text.skip(e), tok, p2);
                if p2 + tok.len() <= w.len() {
                    lemma_occurs_at_within_left(w, text.skip(e), tok, p2);
                    lemma_wrapped_occurrence(ttoks.last(), tok, p2);
                    assert(occurs(ttoks.last(), tok));
                    assert(ttoks.last() == ttoks[n - 1]);
                    assert(false);
                } else {
                    lemma_occurs_at_within_right(w, text.skip(e), tok, p2);
                    assert(occurs(text.skip(e), tok));
                    lemma_occurs_skip(text, e, tok);
                    assert(false);
                }
            }
        }
    }
}

proof fn lemma_interleave_unique(
    text: Seq<char>,
    ams: Seq<(int, int)>,
    ttoks: Seq<Seq<char>>,
    idx: int,
)
    requires
        match_bounds(ams, text.len() as int),
        ttoks.len() == ams.len(),
        0 <= idx < ttoks.len(),
        ttoks[idx].len() > 0,
        all_token_chars(ttoks[idx]),
        !occurs(text, ttoks[idx]),
        !occurs(redacted_word(), ttoks[idx]),
        forall|i: int| 0 <= i < ttoks.len() && i != idx ==> !occurs(#[trigger] ttoks[i], ttoks[idx]),
    ensures
        occurs_exactly_once(interleave(text, ams, ttoks), ttoks[idx]),
    decreases ams.len(),
{
    let tok = ttoks[idx];
    let n = ams.len();
    let s = ams.last().0;
    let e = ams.last().1;
    let a = text.take(s);
    let ipre = interleave(a, ams.drop_last(), ttoks.drop_last());
    let w = wrapped_token(ttoks.last());
    let whole = interleave(text, ams, ttoks);
    lemma_wrapped_facts(ttoks.last());
    assert(whole =~= ipre + (w + text.skip(e)));
    assert(match_bounds(ams.drop_last(), a.len() as int)) by {
        assert forall|i: int|
            0 <= i < ams.drop_last().len() implies 0 <= (#[trigger] ams.drop_last()[i]).0
            && ams.drop_last()[i].0 <= ams.drop_last()[i].1 && ams.drop_last()[i].1 <= a.len() by {
            assert(ams.drop_last()[i] == ams[i]);
            lemma_bounds_pairwise(ams, text.len() as int, i, n - 1);
        }
        assert forall|i: int|
            0 < i < ams.drop_last().len() implies (#[trigger] ams.drop_last()[i]).0
            >= ams.drop_last()[i - 1].1 by {
            assert(ams.drop_last()[i] == ams[i]);
            assert(ams.drop_last()[i - 1] == ams[i - 1]);
        }
    }
    if !occurs(a, tok) {
    } else {
        lemma_occurs_take(text, s, tok);
    }
    assert(!occurs(a, tok));
    if idx == n - 1 {
        // tok is the last wrapped token; its one stand is inside `w`.
        let pos = ipre.len() as int + 10;
        assert(occurs_at(w, tok, 10)) by {
            assert(w.subrange(10, 10 + tok.len() as int) =~= tok);
        }
        lemma_occurs_at_left(w, text.skip(e), tok, 10);
        lemma_occurs_at_right(ipre, w + text.skip(e), tok, 10);
        assert(occurs_at(whole, tok, pos));
        assert forall|p: int| occurs_at(whole, tok, p) implies p == pos by {
            assert(occurs_at(ipre + (w + text.skip(e)), tok, p));
            lemma_no_span_first(ipre, w + text.skip(e), tok, p);
            if p + tok.len() <= ipre.len() {
                lemma_occurs_at_within_left(ipre, w + text.skip(e), tok, p);
                assert forall|i: int|
                    0 <= i < ttoks.drop_last().len() implies !occurs(
                    #[trigger] ttoks.drop_last()[i],
                    tok,
                ) by {
                    assert(ttoks.drop_last()[i] == ttoks[i]);
                }
                lemma_interleave_no_occ(a, ams.drop_last(), ttoks.drop_last(), tok);
                assert(false);
            } else {
                lemma_occurs_at_within_right(ipre, w + text.skip(e), tok, p);
                let p2 = p - ipre.len();
                lemma_no_span_last(w, text.skip(e), tok, p2);
                if p2 + tok.len() <= w.len() {
                    lemma_occurs_at_within_left(w, text.skip(e), tok, p2);
                    lemma_wrapped_occurrence(ttoks.last(), tok, p2);
                    assert(occurs_at(tok, tok, p2 - 10));
                    assert(p2 == 10);
                } else {
                    lemma_occurs_at_within_right(w, text.skip(e), tok, p2);
                    assert(occurs(text.skip(e), tok));
                    lemma_occurs_skip(text, e, tok);
                    assert(false);
                }
            }
        }
        assert(occurs_exactly_once(whole, tok));
    } else {
        assert(ttoks.drop_last()[idx] == ttoks[idx]);
        assert forall|i: int|
            0 <= i < ttoks.drop_last().len() && i != idx implies !occurs(
            #[trigger] ttoks.drop_last()[i],
            tok,
        ) by {
            assert(ttoks.drop_last()[i] == ttoks[i]);
        }
        lemma_interleave_unique(a, ams.drop_last(), ttoks.drop_last(), idx);
        let q = choose|q: int|
            occurs_at(ipre, tok, q) && (forall|j: int| occurs_at(ipre, tok, j) ==> j == q);
        lemma_occurs_at_left(ipre, w + text.skip(e), tok, q);
        assert(occurs_at(whole, tok, q));
        assert forall|p: int| occurs_at(whole, tok, p) implies p == q by {
            assert(occurs_at(ipre + (w + text.skip(e)), tok, p));
            lemma_no_span_first(ipre, w + text.skip(e), tok, p);
            if p + tok.len() <= ipre.len() {
                lemma_occurs_at_within_left(ipre, w + text.skip(e), tok, p);
            } else {
                lemma_occurs_at_within_right(ipre, w + text.skip(e), tok, p);
                let p2 = p - ipre.len();
                lemma_no_span_last(w, text.skip(e), tok, p2);
                if p2 + tok.len() <= w.len() {
                    lemma_occurs_at_within_left(w, text.skip(e), tok, p2);
                    lemma_wrapped_occurrence(ttoks.last(), tok, p2);
                    assert(occurs(ttoks.last(), tok));
                    assert(ttoks.last() == ttoks[n - 1]);
                    assert(false);
                } else {
                    lemma_occurs_at_within_right(w, text.skip(e), tok, p2);
                    assert(occurs(text.skip(e), tok));
                    lemma_occurs_skip(text, e, tok);
                    assert(false);
                }
            }
        }
        assert(occurs_exactly_once(whole, tok));
    }
}

/// LAW, second part of the record guarantee, for a single pattern: provided
/// the drawn tokens are fresh — standing neither in the input nor in one
/// another nor in the literal word `REDACTED` — each record's token occurs
/// exactly once in the output text.  (A token is a fixed-length random
/// string, so freshness fails only by collision, which no contract on a
/// random draw can exclude outright.)
pub proof fn lemma_tokens_unique_single_pattern(
    text: Seq<char>,
    src: Seq<char>,
    out: Seq<char>,
    recs: Seq<RedactedData>,
)
    requires
        records_rel(text, seq![src], recs),
        out == redacted_chars(text, seq![src], recs),
        sources_bounded(text, seq![src]),
        forall|i: int| 0 <= i < recs.len() ==> !occurs(text, (#[trigger] recs[i]).redacted_text@),
        forall|i: int|
            0 <= i < recs.len() ==> !occurs(redacted_word(), (#[trigger] recs[i]).redacted_text@),
        forall|i: int, j: int|
            #![trigger recs[i], recs[j]]
            0 <= i < recs.len() && 0 <= j < recs.len() && i != j ==> !occurs(
                recs[j].redacted_text@,
                recs[i].redacted_text@,
            ),
    ensures
        forall|i: int|
            0 <= i < recs.len() ==> occurs_exactly_once(out, (#[trigger] recs[i]).redacted_text@),
{
    let srcs = seq![src];
    let toks = recs.map_values(|d: RedactedData| token_view(d));
    let ams = find_all(src, text);
    let n = ams.len() as int;
    assert(srcs[0] == src);
    assert(match_bounds(ams, text.len() as int));
    assert(srcs.drop_first() =~= Seq::<Seq<char>>::empty());
    assert(total_matches(text, srcs.drop_first()) == 0);
    assert(recs.len() == n);
    assert(toks.len() == n);
    let dms = ams.reverse();
    let applied = apply_matches(text, dms, toks.take(n));
    assert(toks.take(n) =~= toks);
    assert(redact_output(text, text, srcs, toks) == redact_output(
        text,
        applied,
        srcs.drop_first(),
        toks.skip(n),
    ));
    assert(redact_output(text, applied, srcs.drop_first(), toks.skip(n)) == applied);
    lemma_apply_is_interleave(text, ams, toks);
    let ttoks = toks.reverse();
    assert(out == interleave(text, ams, ttoks));
    assert forall|i: int|
        0 <= i < recs.len() implies occurs_exactly_once(
        out,
        (#[trigger] recs[i]).redacted_text@,
    ) by {
        let idx = n - 1 - i;
        assert(ttoks[idx] == toks[i]);
        assert(toks[i] == recs[i].redacted_text@);
        assert(all_token_chars(ttoks[idx]) && ttoks[idx].len() > 0) by {
            assert(token_wf(recs[i]));
        }
        assert forall|k: int|
            0 <= k < ttoks.len() && k != idx implies !occurs(#[trigger] ttoks[k], ttoks[idx]) by {
            assert(ttoks[k] == toks[n - 1 - k]);
            assert(toks[n - 1 - k] == recs[n - 1 - k].redacted_text@);
        }
        lemma_interleave_unique(text, ams, ttoks, idx);
    }
}

} // verus!
