//! The redaction engine: text plus compiled patterns in, rewritten text plus
//! reveal records out.
//!
//! For each pattern, in catalog order, all non-overlapping matches are found
//! against the original, unmodified input text; the replacements are applied
//! to the working output in descending start-offset order, so the offsets of
//! the not-yet-applied matches of the same pattern stay valid.  Each match is
//! replaced by `[REDACTED:<token>]` with a fresh fixed-length random
//! identifier — independent of the matched content and its length, so the
//! output leaks nothing of the match's shape — and a [`RedactedData`] record
//! is appended.  Two patterns matching
//! overlapping ranges redact independently, the second atop the first's
//! already-rewritten text: that is intended policy, not a defect.
//!
//! All offsets here are character offsets; text is modelled as its
//! character sequence.

use vstd::prelude::*;
use vstd::string::StrSliceExecFns;
use vstd::string::StringExecFns;

use crate::pattern::CompiledPattern;

verus! {

/// One reveal record: the matched text and the token that replaced it.
#[derive(Clone, Debug)]
pub struct RedactedData {
    /// The matched substring of the original input.
    pub unredacted_text: String,
    /// The random token standing in for it in the output.
    pub redacted_text: String,
}

/// The length of every replacement token: long enough that a collision is
/// never expected, and independent of the match, so the token leaks nothing
/// of the original's length or shape.
pub const TOKEN_LEN: usize = 22;

/// The characters of the replacement prefix `[REDACTED:`.
pub open spec fn redact_prefix() -> Seq<char> {
    seq!['[', 'R', 'E', 'D', 'A', 'C', 'T', 'E', 'D', ':']
}

/// The characters of the replacement suffix `]`.
pub open spec fn redact_suffix() -> Seq<char> {
    seq![']']
}

/// A token as it stands in the output text.
pub open spec fn wrapped_token(tok: Seq<char>) -> Seq<char> {
    redact_prefix() + tok + redact_suffix()
}

/// `work` with the range `[start, end)` replaced by `repl`.
pub open spec fn splice(work: Seq<char>, start: int, end: int, repl: Seq<char>) -> Seq<char> {
    work.take(start) + repl + work.skip(end)
}

/// `i`, capped at `n`.  A later pattern's match offsets are applied to the
/// already-rewritten working text, which may have become shorter; capping
/// keeps every replacement within it.
pub open spec fn clamp_at(i: int, n: int) -> int {
    if i <= n {
        i
    } else {
        n
    }
}

/// What `regex::Regex::find_iter` returns for the pattern compiled from
/// `source` run over `text`: the start and end character offsets of the
/// successive non-overlapping matches, in order.
pub uninterp spec fn find_all(source: Seq<char>, text: Seq<char>) -> Seq<(int, int)>;

/// The facts `find_iter` documents about its matches: each lies within the
/// text with start at or before end, and they come in ascending,
/// non-overlapping order.
pub open spec fn match_bounds(ms: Seq<(int, int)>, len: int) -> bool {
    &&& forall|i: int|
        0 <= i < ms.len() ==> 0 <= (#[trigger] ms[i]).0 && ms[i].0 <= ms[i].1 && ms[i].1 <= len
    &&& forall|i: int| 0 < i < ms.len() ==> (#[trigger] ms[i]).0 >= ms[i - 1].1
}

/// Relies on `regex::Regex::find_iter`: it yields the successive
/// non-overlapping matches of the pattern in the haystack, by byte offsets
/// on character boundaries, converted here one for one into character
/// offsets.
#[verifier::external_body]
fn find_matches(p: &CompiledPattern, text: &String) -> (r: Vec<(usize, usize)>)
    ensures
        r@.map_values(|m: (usize, usize)| (m.0 as int, m.1 as int)) == find_all(p@, text@),
        match_bounds(r@.map_values(|m: (usize, usize)| (m.0 as int, m.1 as int)), text@.len() as int),
{
    p.regex()
        .find_iter(text)
        .map(|m| (text[..m.start()].chars().count(), text[..m.end()].chars().count()))
        .collect()
}

/// Whether `c` can appear in a random token: ASCII alphanumeric.
pub open spec fn is_token_char(c: char) -> bool {
    ||| 'a' as u32 <= c as u32 <= 'z' as u32
    ||| 'A' as u32 <= c as u32 <= 'Z' as u32
    ||| '0' as u32 <= c as u32 <= '9' as u32
}

/// Relies on `rand`'s `Alphanumeric` distribution through `SampleString`:
/// `len` characters drawn from `A-Z`, `a-z` and `0-9`.  Nothing further can
/// be promised of a random value; in particular, no name stands for it.
#[verifier::external_body]
fn random_token(len: usize) -> (r: String)
    ensures
        r@.len() == len,
        forall|i: int| 0 <= i < r@.len() ==> is_token_char(#[trigger] r@[i]),
{
    rand::distr::SampleString::sample_string(&rand::distr::Alphanumeric, &mut rand::rng(), len)
}

/// A record is well-formed when its token has the fixed token length and
/// only token characters.
pub open spec fn token_wf(d: RedactedData) -> bool {
    &&& d.redacted_text@.len() == TOKEN_LEN as nat
    &&& forall|i: int| 0 <= i < d.redacted_text@.len() ==> is_token_char(#[trigger] d.redacted_text@[i])
}

/// One pattern's matches applied in descending start order: `dms` is the
/// match list already reversed (descending), `toks` the tokens consumed
/// alongside it.
pub open spec fn apply_matches(work: Seq<char>, dms: Seq<(int, int)>, toks: Seq<Seq<char>>) -> Seq<
    char,
>
    decreases dms.len(),
{
    if dms.len() == 0 {
        work
    } else {
        let n = work.len() as int;
        apply_matches(
            splice(work, clamp_at(dms[0].0, n), clamp_at(dms[0].1, n), wrapped_token(toks[0])),
            dms.drop_first(),
            toks.drop_first(),
        )
    }
}

/// The engine's output text: each pattern's matches are found against the
/// original `text` and applied to the working output in descending order,
/// consuming `toks` left to right.
pub open spec fn redact_output(
    text: Seq<char>,
    work: Seq<char>,
    sources: Seq<Seq<char>>,
    toks: Seq<Seq<char>>,
) -> Seq<char>
    decreases sources.len(),
{
    if sources.len() == 0 {
        work
    } else {
        let dms = find_all(sources[0], text).reverse();
        redact_output(
            text,
            apply_matches(work, dms, toks.take(dms.len() as int)),
            sources.drop_first(),
            toks.skip(dms.len() as int),
        )
    }
}

/// The matched substrings recorded for one pattern, in emission order.
pub open spec fn pattern_unredacted(text: Seq<char>, dms: Seq<(int, int)>) -> Seq<Seq<char>> {
    dms.map_values(|m: (int, int)| text.subrange(m.0, m.1))
}

/// All matched substrings the engine records, in emission order.
pub open spec fn all_unredacted(text: Seq<char>, sources: Seq<Seq<char>>) -> Seq<Seq<char>>
    decreases sources.len(),
{
    if sources.len() == 0 {
        Seq::empty()
    } else {
        pattern_unredacted(text, find_all(sources[0], text).reverse()) + all_unredacted(
            text,
            sources.drop_first(),
        )
    }
}

/// The total number of matches over all patterns.
pub open spec fn total_matches(text: Seq<char>, sources: Seq<Seq<char>>) -> nat
    decreases sources.len(),
{
    if sources.len() == 0 {
        0
    } else {
        find_all(sources[0], text).len() + total_matches(text, sources.drop_first())
    }
}

/// The view of a record's matched text.
pub open spec fn unredacted_view(d: RedactedData) -> Seq<char> {
    d.unredacted_text@
}

/// The view of a record's token.
pub open spec fn token_view(d: RedactedData) -> Seq<char> {
    d.redacted_text@
}

/// Every pattern's match list against `text` is within bounds, ascending
/// and non-overlapping, as the matcher reports it.
pub open spec fn sources_bounded(text: Seq<char>, sources: Seq<Seq<char>>) -> bool {
    forall|j: int|
        0 <= j < sources.len() ==> match_bounds(
            find_all(#[trigger] sources[j], text),
            text.len() as int,
        )
}

/// The regex sources of a compiled pattern list.
pub open spec fn sources_of(patterns: Seq<CompiledPattern>) -> Seq<Seq<char>> {
    patterns.map_values(|cp: CompiledPattern| cp@)
}

/// The output text the engine produces for `text` under `sources` once the
/// tokens in `recs` are drawn.
pub open spec fn redacted_chars(
    text: Seq<char>,
    sources: Seq<Seq<char>>,
    recs: Seq<RedactedData>,
) -> Seq<char> {
    redact_output(text, text, sources, recs.map_values(|d: RedactedData| token_view(d)))
}

/// `recs` is exactly the record list the engine emits for `text` under
/// `sources`: one well-formed record per match, carrying the matched
/// substrings in emission order.
pub open spec fn records_rel(
    text: Seq<char>,
    sources: Seq<Seq<char>>,
    recs: Seq<RedactedData>,
) -> bool {
    &&& recs.len() == total_matches(text, sources)
    &&& recs.map_values(|d: RedactedData| unredacted_view(d)) == all_unredacted(text, sources)
    &&& forall|i: int| 0 <= i < recs.len() ==> token_wf(#[trigger] recs[i])
}

proof fn lemma_apply_matches_snoc(
    w: Seq<char>,
    dms: Seq<(int, int)>,
    toks: Seq<Seq<char>>,
    m: (int, int),
    tok: Seq<char>,
)
    requires
        toks.len() == dms.len(),
    ensures
        ({
            let cur = apply_matches(w, dms, toks);
            let n = cur.len() as int;
            apply_matches(w, dms.push(m), toks.push(tok)) == splice(
                cur,
                clamp_at(m.0, n),
                clamp_at(m.1, n),
                wrapped_token(tok),
            )
        }),
    decreases dms.len(),
{
    if dms.len() == 0 {
        assert(dms.push(m)[0] == m);
        assert(toks.push(tok)[0] == tok);
        assert(dms.push(m).drop_first() =~= dms);
        assert(toks.push(tok).drop_first() =~= toks);
        let n = w.len() as int;
        let spliced = splice(w, clamp_at(m.0, n), clamp_at(m.1, n), wrapped_token(tok));
        assert(apply_matches(spliced, dms, toks) == spliced);
        assert(apply_matches(w, dms, toks) == w);
    } else {
        assert(dms.push(m)[0] == dms[0]);
        assert(toks.push(tok)[0] == toks[0]);
        assert(dms.push(m).drop_first() =~= dms.drop_first().push(m));
        assert(toks.push(tok).drop_first() =~= toks.drop_first().push(tok));
        let n0 = w.len() as int;
        let w1 = splice(w, clamp_at(dms[0].0, n0), clamp_at(dms[0].1, n0), wrapped_token(toks[0]));
        lemma_apply_matches_snoc(w1, dms.drop_first(), toks.drop_first(), m, tok);
        assert(apply_matches(w, dms.push(m), toks.push(tok)) == apply_matches(
            w1,
            dms.drop_first().push(m),
            toks.drop_first().push(tok),
        ));
        assert(apply_matches(w, dms, toks) == apply_matches(
            w1,
            dms.drop_first(),
            toks.drop_first(),
        ));
    }
}

proof fn lemma_total_matches_snoc(text: Seq<char>, sources: Seq<Seq<char>>, src: Seq<char>)
    ensures
        total_matches(text, sources.push(src)) == total_matches(text, sources) + find_all(
            src,
            text,
        ).len(),
    decreases sources.len(),
{
    if sources.len() == 0 {
        assert(sources.push(src)[0] == src);
        assert(sources.push(src).drop_first() =~= sources);
    } else {
        assert(sources.push(src)[0] == sources[0]);
        assert(sources.push(src).drop_first() =~= sources.drop_first().push(src));
        lemma_total_matches_snoc(text, sources.drop_first(), src);
    }
}

proof fn lemma_all_unredacted_snoc(text: Seq<char>, sources: Seq<Seq<char>>, src: Seq<char>)
    ensures
        all_unredacted(text, sources.push(src)) == all_unredacted(text, sources)
            + pattern_unredacted(text, find_all(src, text).reverse()),
    decreases sources.len(),
{
    if sources.len() == 0 {
        assert(sources.push(src)[0] == src);
        assert(sources.push(src).drop_first() =~= sources);
        assert(all_unredacted(text, sources) =~= Seq::<Seq<char>>::empty());
        assert(all_unredacted(text, sources.push(src)) == pattern_unredacted(
            text,
            find_all(src, text).reverse(),
        ) + all_unredacted(text, sources));
        assert(pattern_unredacted(text, find_all(src, text).reverse()) + all_unredacted(
            text,
            sources,
        ) =~= all_unredacted(text, sources) + pattern_unredacted(
            text,
            find_all(src, text).reverse(),
        ));
    } else {
        assert(sources.push(src)[0] == sources[0]);
        assert(sources.push(src).drop_first() =~= sources.drop_first().push(src));
        lemma_all_unredacted_snoc(text, sources.drop_first(), src);
        let p0 = pattern_unredacted(text, find_all(sources[0], text).reverse());
        let psrc = pattern_unredacted(text, find_all(src, text).reverse());
        let rest = all_unredacted(text, sources.drop_first());
        assert(all_unredacted(text, sources.push(src)) == p0 + (rest + psrc));
        assert(all_unredacted(text, sources) == p0 + rest);
        assert(p0 + (rest + psrc) =~= (p0 + rest) + psrc);
    }
}

proof fn lemma_redact_output_snoc(
    text: Seq<char>,
    work: Seq<char>,
    sources: Seq<Seq<char>>,
    toks: Seq<Seq<char>>,
    src: Seq<char>,
    ntoks: Seq<Seq<char>>,
)
    requires
        toks.len() == total_matches(text, sources),
        ntoks.len() == find_all(src, text).len(),
    ensures
        redact_output(text, work, sources.push(src), toks + ntoks) == apply_matches(
            redact_output(text, work, sources, toks),
            find_all(src, text).reverse(),
            ntoks,
        ),
    decreases sources.len(),
{
    let all = toks + ntoks;
    if sources.len() == 0 {
        let dms = find_all(src, text).reverse();
        let n = dms.len() as int;
        assert(sources.push(src)[0] == src);
        assert(sources.push(src).drop_first() =~= sources);
        assert(all.take(n) =~= ntoks);
        assert(all.skip(n) =~= toks);
        assert(redact_output(text, work, sources.push(src), all) == redact_output(
            text,
            apply_matches(work, dms, ntoks),
            sources,
            toks,
        ));
        assert(redact_output(text, apply_matches(work, dms, ntoks), sources, toks)
            == apply_matches(work, dms, ntoks));
        assert(redact_output(text, work, sources, toks) == work);
    } else {
        let s0 = sources[0];
        let m0 = find_all(s0, text).reverse();
        let n0 = m0.len() as int;
        let w1 = apply_matches(work, m0, toks.take(n0));
        assert(sources.push(src)[0] == s0);
        assert(sources.push(src).drop_first() =~= sources.drop_first().push(src));
        assert(all.take(n0) =~= toks.take(n0));
        assert(all.skip(n0) =~= toks.skip(n0) + ntoks);
        lemma_redact_output_snoc(text, w1, sources.drop_first(), toks.skip(n0), src, ntoks);
        assert(redact_output(text, work, sources.push(src), all) == redact_output(
            text,
            w1,
            sources.drop_first().push(src),
            toks.skip(n0) + ntoks,
        ));
        assert(redact_output(text, work, sources, toks) == redact_output(
            text,
            w1,
            sources.drop_first(),
            toks.skip(n0),
        ));
    }
}

/// `work` with the character range `[start, end)` replaced by `repl`.
fn splice_string(work: &String, start: usize, end: usize, repl: &String) -> (r: String)
    requires
        start <= end <= work@.len(),
    ensures
        r@ == splice(work@, start as int, end as int, repl@),
{
    let len = work.as_str().unicode_len();
    let pre = work.as_str().substring_char(0, start);
    let post = work.as_str().substring_char(end, len);
    let mut r = pre.to_owned();
    r.append(repl.as_str());
    r.append(post);
    proof {
        assert(r@ =~= splice(work@, start as int, end as int, repl@));
    }
    r
}

/// `[REDACTED:` + `tok` + `]` as an owned string.
fn wrap_token(tok: &String) -> (r: String)
    ensures
        r@ == wrapped_token(tok@),
{
    let mut r = "[REDACTED:".to_owned();
    r.append(tok.as_str());
    r.append("]");
    proof {
        reveal_strlit("[REDACTED:");
        reveal_strlit("]");
        assert(r@ =~= wrapped_token(tok@));
    }
    r
}

/// The redaction engine.  Finds every pattern's matches against the original
/// `text`, rewrites the working output match by match in descending start
/// order, and records each matched substring with the fresh token that
/// replaced it, in emission order.  Never fails and does no I/O.
pub fn redact_text_get_data(text: &String, patterns: &Vec<CompiledPattern>) -> (r: (
    String,
    Vec<RedactedData>,
))
    ensures
        records_rel(text@, sources_of(patterns@), r.1@),
        r.0@ == redacted_chars(text@, sources_of(patterns@), r.1@),
        sources_bounded(text@, sources_of(patterns@)),
{
    let ghost srcs = sources_of(patterns@);
    let mut work: String = text.clone();
    let mut recs: Vec<RedactedData> = Vec::new();
    let mut j: usize = 0;
    while j < patterns.len()
        invariant
            srcs == sources_of(patterns@),
            0 <= j <= patterns@.len(),
            recs@.len() == total_matches(text@, srcs.take(j as int)),
            recs@.map_values(|d: RedactedData| unredacted_view(d)) == all_unredacted(
                text@,
                srcs.take(j as int),
            ),
            work@ == redact_output(
                text@,
                text@,
                srcs.take(j as int),
                recs@.map_values(|d: RedactedData| token_view(d)),
            ),
            forall|jj: int|
                0 <= jj < j ==> match_bounds(find_all(#[trigger] srcs[jj], text@), text@.len() as int),
            forall|i: int| 0 <= i < recs@.len() ==> token_wf(#[trigger] recs@[i]),
        decreases patterns@.len() - j,
    {
        let ms = find_matches(&patterns[j], text);
        let ghost ams = find_all(srcs[j as int], text@);
        let ghost dms = ams.reverse();
        let ghost w0 = work@;
        let ghost toks0 = recs@.map_values(|d: RedactedData| token_view(d));
        let ghost unred0 = recs@.map_values(|d: RedactedData| unredacted_view(d));
        let ghost recs0_len = recs@.len() as int;
        let ghost mut round_toks: Seq<Seq<char>> = Seq::empty();
        let n = ms.len();
        let mut i: usize = 0;
        while i < n
            invariant
                srcs == sources_of(patterns@),
                0 <= j < patterns@.len(),
                n == ms@.len(),
                0 <= i <= n,
                ms@.map_values(|m: (usize, usize)| (m.0 as int, m.1 as int)) == ams,
                ams == find_all(srcs[j as int], text@),
                dms == ams.reverse(),
                match_bounds(ams, text@.len() as int),
                round_toks.len() == i,
                recs@.len() == recs0_len + i,
                recs@.map_values(|d: RedactedData| token_view(d)) == toks0 + round_toks,
                recs@.map_values(|d: RedactedData| unredacted_view(d)) == unred0
                    + pattern_unredacted(text@, dms.take(i as int)),
                work@ == apply_matches(w0, dms.take(i as int), round_toks),
                forall|k: int| 0 <= k < recs@.len() ==> token_wf(#[trigger] recs@[k]),
            decreases n - i,
        {
            let k = n - 1 - i;
            let m = ms[k];
            proof {
                assert(ams[k as int] == (m.0 as int, m.1 as int));
                assert(dms[i as int] == ams[ams.len() - 1 - i]);
                assert(dms[i as int] == (m.0 as int, m.1 as int));
                assert(0 <= m.0 as int && m.0 as int <= m.1 as int && m.1 as int
                    <= text@.len() as int);
            }
            let unred = text.as_str().substring_char(m.0, m.1).to_owned();
            let tok = random_token(TOKEN_LEN);
            let repl = wrap_token(&tok);
            let wl = work.as_str().unicode_len();
            let s_c = if m.0 <= wl {
                m.0
            } else {
                wl
            };
            let e_c = if m.1 <= wl {
                m.1
            } else {
                wl
            };
            proof {
                assert(s_c as int == clamp_at(m.0 as int, work@.len() as int));
                assert(e_c as int == clamp_at(m.1 as int, work@.len() as int));
                assert(s_c <= e_c <= work@.len());
            }
            let new_work = splice_string(&work, s_c, e_c, &repl);
            let ghost prev_recs = recs@;
            let ghost prev_round = round_toks;
            work = new_work;
            recs.push(RedactedData { unredacted_text: unred, redacted_text: tok });
            proof {
                round_toks = prev_round.push(recs@.last().redacted_text@);
                let d = recs@.last();
                assert(token_wf(d));
                assert(recs@ =~= prev_recs.push(d));
                assert(recs@.map_values(|d: RedactedData| token_view(d)) =~= prev_recs.map_values(
                    |d: RedactedData| token_view(d),
                ).push(token_view(d)));
                assert(recs@.map_values(|d: RedactedData| token_view(d)) =~= toks0 + round_toks);
                assert(recs@.map_values(|d: RedactedData| unredacted_view(d)) =~= prev_recs
                    .map_values(|d: RedactedData| unredacted_view(d)).push(unredacted_view(d)));
                assert(dms.take(i + 1) =~= dms.take(i as int).push(dms[i as int]));
                assert(pattern_unredacted(text@, dms.take(i + 1)) =~= pattern_unredacted(
                    text@,
                    dms.take(i as int),
                ).push(text@.subrange(m.0 as int, m.1 as int)));
                assert(unredacted_view(d) == text@.subrange(m.0 as int, m.1 as int));
                assert(recs@.map_values(|d: RedactedData| unredacted_view(d)) =~= unred0
                    + pattern_unredacted(text@, dms.take(i + 1)));
                lemma_apply_matches_snoc(
                    w0,
                    dms.take(i as int),
                    prev_round,
                    dms[i as int],
                    token_view(d),
                );
                let cur = apply_matches(w0, dms.take(i as int), prev_round);
                assert(work@ == splice(
                    cur,
                    clamp_at(m.0 as int, cur.len() as int),
                    clamp_at(m.1 as int, cur.len() as int),
                    wrapped_token(token_view(d)),
                ));
                assert(work@ == apply_matches(w0, dms.take(i + 1), round_toks));
            }
            i += 1;
        }
        proof {
            assert(dms.take(n as int) =~= dms);
            assert(srcs.take(j + 1) =~= srcs.take(j as int).push(srcs[j as int]));
            lemma_total_matches_snoc(text@, srcs.take(j as int), srcs[j as int]);
            lemma_all_unredacted_snoc(text@, srcs.take(j as int), srcs[j as int]);
            assert(pattern_unredacted(text@, find_all(srcs[j as int], text@).reverse())
                == pattern_unredacted(text@, dms));
            lemma_redact_output_snoc(
                text@,
                text@,
                srcs.take(j as int),
                toks0,
                srcs[j as int],
                round_toks,
            );
            assert(recs@.map_values(|d: RedactedData| token_view(d)) == toks0 + round_toks);
            assert(work@ == redact_output(
                text@,
                text@,
                srcs.take(j + 1),
                recs@.map_values(|d: RedactedData| token_view(d)),
            ));
        }
        j += 1;
    }
    proof {
        assert(srcs.take(patterns@.len() as int) =~= srcs);
    }
    (work, recs)
}

} // verus!
