//! Pattern-catalog resolution: filtering catalog entries by requested
//! categories and compiling their regexes.
//!
//! The catalog itself is an injected list of [`Pattern`] values; reading it
//! from disk is the caller's business.  Resolution preserves catalog order
//! and fails on the first pattern that does not compile — a pattern that is
//! silently dropped would mean a missed redaction.

use vstd::prelude::*;

use crate::error::RedactError;

verus! {

/// One catalog entry: a regex source and the categories it belongs to.
#[derive(Clone, Debug)]
pub struct Pattern {
    /// The regex source text.
    pub pattern: String,
    /// The category names under which this pattern is selectable.
    pub types: Vec<String>,
}

/// `regex::Regex` values run through the library opaquely.
#[verifier::external_type_specification]
#[verifier::external_body]
pub struct ExRegex(regex::Regex);

/// Whether `source` is syntax that `regex::Regex::new` accepts.
pub uninterp spec fn regex_valid(source: Seq<char>) -> bool;

/// A pattern compiled for matching.  Only [`compile_pattern`] builds one, so
/// the matcher inside always belongs to the recorded source.
#[derive(Debug)]
pub struct CompiledPattern {
    regex: regex::Regex,
    source: String,
}

impl View for CompiledPattern {
    type V = Seq<char>;

    /// A compiled pattern is abstractly its regex source text.
    closed spec fn view(&self) -> Seq<char> {
        self.source@
    }
}

impl CompiledPattern {
    /// The regex source this pattern was compiled from.
    pub fn source(&self) -> (r: &String)
        ensures
            r@ == self@,
    {
        &self.source
    }

    /// The compiled matcher, for the match wrapper only.
    pub(crate) fn regex(&self) -> &regex::Regex {
        &self.regex
    }
}

/// Relies on `regex::Regex::new`: whether it accepts a source (valid syntax
/// within the default size limits) is a function of the source alone, and
/// the returned matcher is the one for `source`.
#[verifier::external_body]
fn compile_pattern(source: &String) -> (r: Option<CompiledPattern>)
    ensures
        r is Some <==> regex_valid(source@),
        r matches Some(cp) ==> cp@ == source@,
{
    match regex::Regex::new(source) {
        Ok(regex) => Some(CompiledPattern { regex, source: source.clone() }),
        Err(_) => None,
    }
}

/// Whether `p` carries at least one of the requested category names.
pub open spec fn has_any_type(p: Pattern, types: Seq<Seq<char>>) -> bool {
    exists|i: int, j: int|
        #![trigger p.types@[i], types[j]]
        0 <= i < p.types@.len() && 0 <= j < types.len() && p.types@[i]@ == types[j]
}

/// The regex sources of the catalog entries that carry a requested category,
/// in catalog order.
pub open spec fn selected_sources(patterns: Seq<Pattern>, types: Seq<Seq<char>>) -> Seq<Seq<char>>
    decreases patterns.len(),
{
    if patterns.len() == 0 {
        Seq::empty()
    } else {
        let rest = selected_sources(patterns.drop_last(), types);
        if has_any_type(patterns.last(), types) {
            rest.push(patterns.last().pattern@)
        } else {
            rest
        }
    }
}

fn pattern_has_any_type(p: &Pattern, types: &Vec<String>) -> (r: bool)
    ensures
        r == has_any_type(*p, types.deep_view()),
{
    let mut i: usize = 0;
    while i < p.types.len()
        invariant
            0 <= i <= p.types@.len(),
            forall|k: int, j: int|
                #![trigger p.types@[k], types.deep_view()[j]]
                0 <= k < i && 0 <= j < types.deep_view().len()
                    ==> p.types@[k]@ != types.deep_view()[j],
        decreases p.types@.len() - i,
    {
        let mut j: usize = 0;
        while j < types.len()
            invariant
                0 <= i < p.types@.len(),
                0 <= j <= types@.len(),
                forall|l: int|
                    0 <= l < j ==> p.types@[i as int]@ != #[trigger] types.deep_view()[l],
            decreases types@.len() - j,
        {
            if p.types[i] == types[j] {
                assert(p.types@[i as int]@ == types.deep_view()[j as int]);
                return true;
            }
            j += 1;
        }
        i += 1;
    }
    false
}

/// Resolves the requested categories against the catalog: keeps, in catalog
/// order, exactly the patterns that carry a requested category, compiled.
/// Fails with [`RedactError::PatternCompileError`] if and only if one of the
/// kept patterns is not valid regex syntax.
pub fn get_pattern_vec(patterns: Vec<Pattern>, types: &Vec<String>) -> (r: Result<
    Vec<CompiledPattern>,
    RedactError,
>)
    ensures
        r is Ok <==> (forall|i: int|
            0 <= i < selected_sources(patterns@, types.deep_view()).len() ==> regex_valid(
                #[trigger] selected_sources(patterns@, types.deep_view())[i],
            )),
        r matches Ok(v) ==> v@.map_values(|cp: CompiledPattern| cp@) == selected_sources(
            patterns@,
            types.deep_view(),
        ),
        r matches Err(e) ==> e == RedactError::PatternCompileError,
{
    let ghost tys = types.deep_view();
    let mut out: Vec<CompiledPattern> = Vec::new();
    let mut idx: usize = 0;
    while idx < patterns.len()
        invariant
            tys == types.deep_view(),
            0 <= idx <= patterns@.len(),
            out@.map_values(|cp: CompiledPattern| cp@) == selected_sources(
                patterns@.take(idx as int),
                tys,
            ),
            forall|i: int| #![trigger out@[i]] 0 <= i < out@.len() ==> regex_valid(out@[i]@),
        decreases patterns@.len() - idx,
    {
        let ghost prefix = patterns@.take(idx as int);
        let ghost prefix1 = patterns@.take(idx + 1);
        assert(prefix1.drop_last() =~= prefix);
        assert(prefix1.last() == patterns@[idx as int]);
        if pattern_has_any_type(&patterns[idx], types) {
            match compile_pattern(&patterns[idx].pattern) {
                Some(cp) => {
                    let ghost old_out = out@;
                    out.push(cp);
                    assert(out@.map_values(|cp: CompiledPattern| cp@) =~= old_out.map_values(
                        |cp: CompiledPattern| cp@,
                    ).push(cp@));
                },
                None => {
                    proof {
                        lemma_selected_sources_prefix(patterns@, tys, idx + 1);
                        assert(selected_sources(prefix1, tys).last() == patterns@[idx as int].pattern@);
                        assert(selected_sources(patterns@, tys).contains(
                            patterns@[idx as int].pattern@,
                        ));
                    }
                    return Err(RedactError::PatternCompileError);
                },
            }
        }
        idx += 1;
    }
    assert(patterns@.take(patterns@.len() as int) =~= patterns@);
    Ok(out)
}

/// Every source selected from a prefix of the catalog is selected from the
/// whole catalog as well.
proof fn lemma_selected_sources_prefix(patterns: Seq<Pattern>, types: Seq<Seq<char>>, n: int)
    requires
        0 <= n <= patterns.len(),
    ensures
        forall|i: int|
            0 <= i < selected_sources(patterns.take(n), types).len() ==> selected_sources(
                patterns,
                types,
            ).contains(#[trigger] selected_sources(patterns.take(n), types)[i]),
    decreases patterns.len() - n,
{
    if n == patterns.len() {
        assert(patterns.take(n) =~= patterns);
        assert forall|i: int| 0 <= i < selected_sources(patterns, types).len() implies
            selected_sources(patterns, types).contains(
                #[trigger] selected_sources(patterns, types)[i],
            ) by {}
    } else {
        lemma_selected_sources_prefix(patterns, types, n + 1);
        let p = patterns.take(n + 1);
        assert(p.drop_last() =~= patterns.take(n));
        assert(p.last() == patterns[n]);
        let short = selected_sources(patterns.take(n), types);
        let long = selected_sources(p, types);
        assert forall|i: int| 0 <= i < short.len() implies selected_sources(patterns, types)
            .contains(#[trigger] short[i]) by {
            assert(long[i] == short[i]);
            assert(selected_sources(patterns, types).contains(long[i]));
        }
    }
}

/// LAW: resolving the same requested categories against the same catalog
/// twice yields an identical ordered pattern list.  [`get_pattern_vec`]
/// returns exactly `selected_sources`, a function of catalog and request
/// alone, so two runs agree.
pub proof fn lemma_resolution_idempotent(
    patterns: Seq<Pattern>,
    types: Seq<Seq<char>>,
    r1: Seq<Seq<char>>,
    r2: Seq<Seq<char>>,
)
    requires
        r1 == selected_sources(patterns, types),
        r2 == selected_sources(patterns, types),
    ensures
        r1 == r2,
{
}

} // verus!
