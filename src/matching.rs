use vstd::prelude::*;

use crate::tokenize::{token_views, tokenize, tokenized, Algorithm, TokenizeError};

verus! {

/// How a needle's tokens are sought in a haystack's tokens.
#[derive(PartialEq, Eq, Structural, Clone, Copy, Debug)]
pub enum MatchMode {
    /// A run of consecutive tokens that fit the needle's tokens one by one.
    Exact,
    /// The needle's tokens in order, possibly with other tokens between them.
    Subsequence,
    /// A window as long as the needle where at least the given percentage of
    /// positions fit (and at least one does).
    Fuzzy(u8),
}

/// A span of tokens `start..end` that matched, with its score: the number
/// of fitting tokens for a fuzzy match, the needle's length otherwise.
#[derive(PartialEq, Eq, Structural, Clone, Copy, Debug)]
pub struct MatchResult {
    pub start: usize,
    pub end: usize,
    pub score: usize,
}

/// Does haystack token `h` fit needle token `n`? Strictly they must be
/// equal; permissively `n` need only begin `h`.
pub open spec fn token_fits(h: Seq<char>, n: Seq<char>, permissive: bool) -> bool {
    if permissive {
        n.len() <= h.len() && h.take(n.len() as int) == n
    } else {
        h == n
    }
}

/// How many of the first `k` needle tokens fit the haystack window at `i`.
pub open spec fn window_score(
    hay: Seq<Seq<char>>,
    needle: Seq<Seq<char>>,
    permissive: bool,
    i: int,
    k: int,
) -> nat
    decreases k,
{
    if k <= 0 {
        0
    } else {
        window_score(hay, needle, permissive, i, k - 1) + if token_fits(
            hay[i + k - 1],
            needle[k - 1],
            permissive,
        ) {
            1nat
        } else {
            0nat
        }
    }
}

/// Where a leftmost embedding of `needle[j..]` into `hay[i..]` ends (one
/// past its last token), if there is one.
pub open spec fn embed_end(
    hay: Seq<Seq<char>>,
    needle: Seq<Seq<char>>,
    permissive: bool,
    i: int,
    j: int,
) -> Option<int>
    decreases hay.len() - i,
{
    if j >= needle.len() {
        Some(i)
    } else if i >= hay.len() || i < 0 {
        None
    } else if token_fits(hay[i], needle[j], permissive) {
        embed_end(hay, needle, permissive, i + 1, j + 1)
    } else {
        embed_end(hay, needle, permissive, i + 1, j)
    }
}

/// The match that starts at token `i`, if any. An empty needle matches nowhere.
pub open spec fn match_at(
    hay: Seq<Seq<char>>,
    needle: Seq<Seq<char>>,
    mode: MatchMode,
    permissive: bool,
    i: int,
) -> Option<MatchResult> {
    let m = needle.len() as int;
    if m == 0 || i < 0 || i >= hay.len() {
        None
    } else {
        match mode {
            MatchMode::Exact => if i + m <= hay.len() && forall|j: int|
                0 <= j < m ==> token_fits(#[trigger] hay[i + j], needle[j], permissive) {
                Some(MatchResult { start: i as usize, end: (i + m) as usize, score: m as usize })
            } else {
                None
            },
            MatchMode::Fuzzy(threshold) => {
                let score = window_score(hay, needle, permissive, i, m);
                if i + m <= hay.len() && score > 0 && score * 100 >= threshold * m {
                    Some(
                        MatchResult {
                            start: i as usize,
                            end: (i + m) as usize,
                            score: score as usize,
                        },
                    )
                } else {
                    None
                }
            },
            MatchMode::Subsequence => if token_fits(hay[i], needle[0], permissive) {
                match embed_end(hay, needle, permissive, i + 1, 1) {
                    Some(e) => Some(
                        MatchResult { start: i as usize, end: e as usize, score: m as usize },
                    ),
                    None => None,
                }
            } else {
                None
            },
        }
    }
}

/// The first match at token `k` or later.
pub open spec fn first_match_from(
    hay: Seq<Seq<char>>,
    needle: Seq<Seq<char>>,
    mode: MatchMode,
    permissive: bool,
    k: int,
) -> Option<MatchResult>
    decreases hay.len() - k,
{
    if k >= hay.len() || k < 0 {
        None
    } else {
        match match_at(hay, needle, mode, permissive, k) {
            Some(r) => Some(r),
            None => first_match_from(hay, needle, mode, permissive, k + 1),
        }
    }
}

/// The matches that start before token `k`, by start.
pub open spec fn matches_before(
    hay: Seq<Seq<char>>,
    needle: Seq<Seq<char>>,
    mode: MatchMode,
    permissive: bool,
    k: int,
) -> Seq<MatchResult>
    decreases k,
{
    if k <= 0 {
        seq![]
    } else {
        let earlier = matches_before(hay, needle, mode, permissive, k - 1);
        match match_at(hay, needle, mode, permissive, k - 1) {
            Some(r) => earlier.push(r),
            None => earlier,
        }
    }
}

/// Every match, by start.
pub open spec fn all_matches_of(
    hay: Seq<Seq<char>>,
    needle: Seq<Seq<char>>,
    mode: MatchMode,
    permissive: bool,
) -> Seq<MatchResult> {
    matches_before(hay, needle, mode, permissive, hay.len() as int)
}

fn fits(h: &Vec<char>, n: &Vec<char>, permissive: bool) -> (r: bool)
    ensures
        r == token_fits(h@, n@, permissive),
{
    let hl = h.len();
    let nl = n.len();
    if permissive {
        if nl > hl {
            return false;
        }
    } else if nl != hl {
        return false;
    }
    let mut k: usize = 0;
    while k < nl
        invariant
            nl == n@.len(),
            hl == h@.len(),
            nl <= hl,
            !permissive ==> nl == hl,
            k <= nl,
            forall|j: int| 0 <= j < k ==> h@[j] == n@[j],
        decreases nl - k,
    {
        if h[k] != n[k] {
            return false;
        }
        k = k + 1;
    }
    proof {
        if permissive {
            assert(h@.take(nl as int) == n@);
        } else {
            assert(h@ == n@);
        }
    }
    true
}

proof fn lemma_exact_all_fit(
    hay: Seq<Seq<char>>,
    needle: Seq<Seq<char>>,
    permissive: bool,
    i: int,
)
    requires
        0 <= i,
        i + needle.len() <= hay.len(),
        window_score(hay, needle, permissive, i, needle.len() as int) == needle.len(),
    ensures
        forall|j: int|
            0 <= j < needle.len() ==> token_fits(#[trigger] hay[i + j], needle[j], permissive),
{
    assert forall|j: int| 0 <= j < needle.len() implies token_fits(
        #[trigger] hay[i + j],
        needle[j],
        permissive,
    ) by {
        if !token_fits(hay[i + j], needle[j], permissive) {
            lemma_score_misses(hay, needle, permissive, i, needle.len() as int, j);
        }
    }
}

proof fn lemma_score_bound(hay: Seq<Seq<char>>, needle: Seq<Seq<char>>, permissive: bool, i: int, k: int)
    requires
        k >= 0,
    ensures
        window_score(hay, needle, permissive, i, k) <= k,
    decreases k,
{
    if k > 0 {
        lemma_score_bound(hay, needle, permissive, i, k - 1);
    }
}

proof fn lemma_score_misses(
    hay: Seq<Seq<char>>,
    needle: Seq<Seq<char>>,
    permissive: bool,
    i: int,
    k: int,
    j: int,
)
    requires
        0 <= j < k,
        !token_fits(hay[i + j], needle[j], permissive),
    ensures
        window_score(hay, needle, permissive, i, k) < k,
    decreases k,
{
    lemma_score_bound(hay, needle, permissive, i, k - 1);
    if j < k - 1 {
        lemma_score_misses(hay, needle, permissive, i, k - 1, j);
    }
}

proof fn lemma_all_fit_score(
    hay: Seq<Seq<char>>,
    needle: Seq<Seq<char>>,
    permissive: bool,
    i: int,
    k: int,
)
    requires
        0 <= k <= needle.len(),
        forall|j: int| 0 <= j < k ==> token_fits(#[trigger] hay[i + j], needle[j], permissive),
    ensures
        window_score(hay, needle, permissive, i, k) == k,
    decreases k,
{
    if k > 0 {
        let last = k - 1;
        assert(token_fits(hay[i + last], needle[last], permissive));
        lemma_all_fit_score(hay, needle, permissive, i, k - 1);
    }
}

/// The match that starts at token `i`, if any.
fn match_at_exec(
    hay: &Vec<Vec<char>>,
    needle: &Vec<Vec<char>>,
    mode: MatchMode,
    permissive: bool,
    i: usize,
) -> (r: Option<MatchResult>)
    requires
        i < hay.len(),
    ensures
        r == match_at(token_views(hay@), token_views(needle@), mode, permissive, i as int),
{
    let ghost h = token_views(hay@);
    let ghost nd = token_views(needle@);
    let len = hay.len();
    let m = needle.len();
    if m == 0 {
        return None;
    }
    match mode {
        MatchMode::Subsequence => {
            if !fits(&hay[i], &needle[0], permissive) {
                return None;
            }
            let mut pos: usize = i + 1;
            let mut j: usize = 1;
            while j < m && pos < len
                invariant
                    len == h.len(),
                    m == nd.len(),
                    h == token_views(hay@),
                    nd == token_views(needle@),
                    i < pos <= len,
                    1 <= j <= m,
                    embed_end(h, nd, permissive, i + 1, 1) == embed_end(
                        h,
                        nd,
                        permissive,
                        pos as int,
                        j as int,
                    ),
                decreases len - pos,
            {
                if fits(&hay[pos], &needle[j], permissive) {
                    j = j + 1;
                }
                pos = pos + 1;
            }
            if j >= m {
                Some(MatchResult { start: i, end: pos, score: m })
            } else {
                None
            }
        },
        _ => {
            if m > len - i {
                return None;
            }
            let mut score: usize = 0;
            let mut k: usize = 0;
            while k < m
                invariant
                    len == h.len(),
                    m == nd.len(),
                    h == token_views(hay@),
                    nd == token_views(needle@),
                    i + m <= len,
                    k <= m,
                    score == window_score(h, nd, permissive, i as int, k as int),
                decreases m - k,
            {
                proof {
                    lemma_score_bound(h, nd, permissive, i as int, k as int);
                }
                if fits(&hay[i + k], &needle[k], permissive) {
                    score = score + 1;
                }
                k = k + 1;
            }
            proof {
                lemma_score_bound(h, nd, permissive, i as int, m as int);
            }
            match mode {
                MatchMode::Fuzzy(threshold) => {
                    let t128 = threshold as u128;
                    let m128 = m as u128;
                    assert(t128 * m128 <= 255 * 0xffff_ffff_ffff_ffffu128) by (nonlinear_arith)
                        requires
                            t128 <= 255,
                            m128 <= 0xffff_ffff_ffff_ffffu128,
                    ;
                    if score > 0 && (score as u128) * 100 >= t128 * m128 {
                        Some(MatchResult { start: i, end: i + m, score })
                    } else {
                        None
                    }
                },
                _ => {
                    if score == m {
                        proof {
                            lemma_exact_all_fit(h, nd, permissive, i as int);
                        }
                        Some(MatchResult { start: i, end: i + m, score: m })
                    } else {
                        proof {
                            if forall|j: int|
                                0 <= j < m ==> token_fits(
                                    #[trigger] h[i + j],
                                    nd[j],
                                    permissive,
                                ) {
                                lemma_all_fit_score(h, nd, permissive, i as int, m as int);
                            }
                        }
                        None
                    }
                },
            }
        },
    }
}

/// The first match of `needle` in `hay`, by start.
pub fn first_match(
    hay: &Vec<Vec<char>>,
    needle: &Vec<Vec<char>>,
    mode: MatchMode,
    permissive: bool,
) -> (r: Option<MatchResult>)
    ensures
        r == first_match_from(token_views(hay@), token_views(needle@), mode, permissive, 0),
{
    let ghost h = token_views(hay@);
    let ghost nd = token_views(needle@);
    let len = hay.len();
    let mut k: usize = 0;
    while k < len
        invariant
            len == h.len(),
            h == token_views(hay@),
            nd == token_views(needle@),
            k <= len,
            first_match_from(h, nd, mode, permissive, 0) == first_match_from(
                h,
                nd,
                mode,
                permissive,
                k as int,
            ),
        decreases len - k,
    {
        let found = match_at_exec(hay, needle, mode, permissive, k);
        if found.is_some() {
            return found;
        }
        k = k + 1;
    }
    None
}

/// Every match of `needle` in `hay`, by start.
pub fn all_matches(
    hay: &Vec<Vec<char>>,
    needle: &Vec<Vec<char>>,
    mode: MatchMode,
    permissive: bool,
) -> (r: Vec<MatchResult>)
    ensures
        r@ == all_matches_of(token_views(hay@), token_views(needle@), mode, permissive),
{
    let ghost h = token_views(hay@);
    let ghost nd = token_views(needle@);
    let len = hay.len();
    let mut found: Vec<MatchResult> = Vec::new();
    let mut k: usize = 0;
    while k < len
        invariant
            len == h.len(),
            h == token_views(hay@),
            nd == token_views(needle@),
            k <= len,
            found@ == matches_before(h, nd, mode, permissive, k as int),
        decreases len - k,
    {
        let here = match_at_exec(hay, needle, mode, permissive, k);
        match here {
            Some(r) => found.push(r),
            None => {},
        }
        k = k + 1;
    }
    found
}

/// The settings of one side of a two-sided search.
#[derive(PartialEq, Eq, Structural, Clone, Copy, Debug)]
pub struct MatchOptions {
    pub mode: MatchMode,
    pub case_sensitive: bool,
    pub permissive: bool,
}

/// What `find_match` returns: a tokenizing failure; no match when the source
/// side has none; otherwise the source match with the translation side's
/// first match, if any.
pub open spec fn paired_first_match(
    source: Seq<char>,
    source_needle: Seq<char>,
    translation: Seq<char>,
    translation_needle: Seq<char>,
    algorithm: Algorithm,
    case_sensitive: bool,
    mode: MatchMode,
    permissive: bool,
) -> Result<Option<(MatchResult, Option<MatchResult>)>, TokenizeError> {
    match tokenized(source, algorithm, case_sensitive) {
        Err(e) => Err(e),
        Ok(sh) => match tokenized(source_needle, algorithm, case_sensitive) {
            Err(e) => Err(e),
            Ok(sn) => match first_match_from(sh, sn, mode, permissive, 0) {
                None => Ok(None),
                Some(sm) => match tokenized(translation, algorithm, case_sensitive) {
                    Err(e) => Err(e),
                    Ok(th) => match tokenized(translation_needle, algorithm, case_sensitive) {
                        Err(e) => Err(e),
                        Ok(tn) => Ok(Some((sm, first_match_from(th, tn, mode, permissive, 0)))),
                    },
                },
            },
        },
    }
}

/// Does the source side tokenize, and find no match?
pub open spec fn source_misses(
    source: Seq<char>,
    source_needle: Seq<char>,
    algorithm: Algorithm,
    options: MatchOptions,
) -> bool {
    &&& tokenized(source, algorithm, options.case_sensitive) is Ok
    &&& tokenized(source_needle, algorithm, options.case_sensitive) is Ok
    &&& all_matches_of(
        tokenized(source, algorithm, options.case_sensitive)->Ok_0,
        tokenized(source_needle, algorithm, options.case_sensitive)->Ok_0,
        options.mode,
        options.permissive,
    ).len() == 0
}

/// Looks for `source_needle` in `source`; only where it is found looks for
/// `translation_needle` in `translation` and returns both results. The
/// translation side is not even tokenized when the source side has no match.
pub fn find_match(
    source: &str,
    source_needle: &str,
    translation: &str,
    translation_needle: &str,
    algorithm: Algorithm,
    case_sensitive: bool,
    mode: MatchMode,
    permissive: bool,
) -> (r: Result<Option<(MatchResult, Option<MatchResult>)>, TokenizeError>)
    ensures
        r == paired_first_match(
            source@,
            source_needle@,
            translation@,
            translation_needle@,
            algorithm,
            case_sensitive,
            mode,
            permissive,
        ),
        tokenized(source@, algorithm, case_sensitive) is Ok && tokenized(
            source_needle@,
            algorithm,
            case_sensitive,
        ) is Ok && first_match_from(
            tokenized(source@, algorithm, case_sensitive)->Ok_0,
            tokenized(source_needle@, algorithm, case_sensitive)->Ok_0,
            mode,
            permissive,
            0,
        ) is None ==> r == Ok::<Option<(MatchResult, Option<MatchResult>)>, TokenizeError>(None),
{
    let sh = match tokenize(source, algorithm, case_sensitive) {
        Ok(t) => t,
        Err(e) => return Err(e),
    };
    let sn = match tokenize(source_needle, algorithm, case_sensitive) {
        Ok(t) => t,
        Err(e) => return Err(e),
    };
    let found = match first_match(&sh, &sn, mode, permissive) {
        Some(m) => m,
        None => return Ok(None),
    };
    let th = match tokenize(translation, algorithm, case_sensitive) {
        Ok(t) => t,
        Err(e) => return Err(e),
    };
    let tn = match tokenize(translation_needle, algorithm, case_sensitive) {
        Ok(t) => t,
        Err(e) => return Err(e),
    };
    Ok(Some((found, first_match(&th, &tn, mode, permissive))))
}

/// What `find_all_matches` returns, over sequences: a tokenizing failure; no
/// match when the source side has none; otherwise every match of each side.
pub open spec fn paired_all_matches(
    source: Seq<char>,
    source_needle: Seq<char>,
    translation: Seq<char>,
    translation_needle: Seq<char>,
    algorithm: Algorithm,
    source_options: MatchOptions,
    translation_options: MatchOptions,
) -> Result<Option<(Seq<MatchResult>, Seq<MatchResult>)>, TokenizeError> {
    let scs = source_options.case_sensitive;
    let tcs = translation_options.case_sensitive;
    match tokenized(source, algorithm, scs) {
        Err(e) => Err(e),
        Ok(sh) => match tokenized(source_needle, algorithm, scs) {
            Err(e) => Err(e),
            Ok(sn) => {
                let found = all_matches_of(sh, sn, source_options.mode, source_options.permissive);
                if found.len() == 0 {
                    Ok(None)
                } else {
                    match tokenized(translation, algorithm, tcs) {
                        Err(e) => Err(e),
                        Ok(th) => match tokenized(translation_needle, algorithm, tcs) {
                            Err(e) => Err(e),
                            Ok(tn) => Ok(
                                Some(
                                    (
                                        found,
                                        all_matches_of(
                                            th,
                                            tn,
                                            translation_options.mode,
                                            translation_options.permissive,
                                        ),
                                    ),
                                ),
                            ),
                        },
                    }
                }
            },
        },
    }
}

/// Does a `find_all_matches` result hold exactly the given outcome?
pub open spec fn all_matches_result_is(
    r: Result<Option<(Vec<MatchResult>, Vec<MatchResult>)>, TokenizeError>,
    expected: Result<Option<(Seq<MatchResult>, Seq<MatchResult>)>, TokenizeError>,
) -> bool {
    match r {
        Err(e) => expected == Err::<Option<(Seq<MatchResult>, Seq<MatchResult>)>, TokenizeError>(e),
        Ok(None) => expected == Ok::<Option<(Seq<MatchResult>, Seq<MatchResult>)>, TokenizeError>(
            None,
        ),
        Ok(Some((a, b))) => expected == Ok::<
            Option<(Seq<MatchResult>, Seq<MatchResult>)>,
            TokenizeError,
        >(Some((a@, b@))),
    }
}

/// Finds every match of `source_needle` in `source`; only where there is at
/// least one finds every match of `translation_needle` in `translation`.
/// Each side has its own mode, case sensitivity and permissiveness.
pub fn find_all_matches(
    source: &str,
    source_needle: &str,
    translation: &str,
    translation_needle: &str,
    algorithm: Algorithm,
    source_options: MatchOptions,
    translation_options: MatchOptions,
) -> (r: Result<Option<(Vec<MatchResult>, Vec<MatchResult>)>, TokenizeError>)
    ensures
        all_matches_result_is(
            r,
            paired_all_matches(
                source@,
                source_needle@,
                translation@,
                translation_needle@,
                algorithm,
                source_options,
                translation_options,
            ),
        ),
        source_misses(source@, source_needle@, algorithm, source_options) ==> r is Ok && r->Ok_0 is None,
{
    let scs = source_options.case_sensitive;
    let tcs = translation_options.case_sensitive;
    let sh = match tokenize(source, algorithm, scs) {
        Ok(t) => t,
        Err(e) => return Err(e),
    };
    let sn = match tokenize(source_needle, algorithm, scs) {
        Ok(t) => t,
        Err(e) => return Err(e),
    };
    let found = all_matches(&sh, &sn, source_options.mode, source_options.permissive);
    if found.len() == 0 {
        return Ok(None);
    }
    let th = match tokenize(translation, algorithm, tcs) {
        Ok(t) => t,
        Err(e) => return Err(e),
    };
    let tn = match tokenize(translation_needle, algorithm, tcs) {
        Ok(t) => t,
        Err(e) => return Err(e),
    };
    let other = all_matches(&th, &tn, translation_options.mode, translation_options.permissive);
    Ok(Some((found, other)))
}

} // verus!
