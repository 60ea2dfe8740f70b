//! Translation memory: entries, fuzzy matching by edit distance, and the
//! ranking of matches for a query.

use vstd::prelude::*;
use crate::error::{bad_request, error_view, AppError};
use crate::text::{blank, chars_eq, chars_of, is_blank, strs};

verus! {

/// A stored translation unit.
pub struct TmEntry {
    pub id: String,
    pub source: String,
    pub target: String,
    pub source_lang: String,
    pub target_lang: String,
    pub owner_id: Option<String>,
    pub created_at: String,
}

/// Body of a request that adds a translation unit.
pub struct CreateTmRequest {
    pub source: String,
    pub target: String,
    pub source_lang: String,
    pub target_lang: String,
}

/// Query of a listing or a search.
pub struct TmSearchParams {
    pub source: Option<String>,
    pub source_lang: Option<String>,
    pub target_lang: Option<String>,
    pub limit: usize,
}

/// The number of matches returned when the query does not say.
pub fn default_limit() -> (r: usize)
    ensures
        r == 5,
{
    5
}

impl TmSearchParams {
    /// A search needs the text and both languages; otherwise the entries
    /// are listed.
    pub fn is_search(&self) -> (r: bool)
        ensures
            r == (self.source is Some && self.source_lang is Some && self.target_lang is Some),
    {
        self.source.is_some() && self.source_lang.is_some() && self.target_lang.is_some()
    }
}

impl CreateTmRequest {
    /// A unit needs a non-blank source and target.
    pub fn validate(&self) -> (r: Result<(), AppError>)
        ensures
            match r {
                Ok(_) => !is_blank(self.source@) && !is_blank(self.target@),
                Err(e) => (is_blank(self.source@) || is_blank(self.target@)) && error_view(e)
                    == bad_request("source and target are required"@),
            },
    {
        if blank(self.source.as_str()) || blank(self.target.as_str()) {
            Err(AppError::bad_request("source and target are required"))
        } else {
            Ok(())
        }
    }
}

// ───────────────────────────── edit distance ─────────────────────────────

pub open spec fn min3(x: nat, y: nat, z: nat) -> nat {
    if x <= y && x <= z {
        x
    } else if y <= z {
        y
    } else {
        z
    }
}

/// Levenshtein distance between the first `i` characters of `a` and the
/// first `j` characters of `b`.
pub open spec fn ed(a: Seq<char>, b: Seq<char>, i: nat, j: nat) -> nat
    decreases i + j,
{
    if i == 0 {
        j
    } else if j == 0 {
        i
    } else if a[i - 1] == b[j - 1] {
        ed(a, b, (i - 1) as nat, (j - 1) as nat)
    } else {
        1 + min3(
            ed(a, b, (i - 1) as nat, j),
            ed(a, b, i, (j - 1) as nat),
            ed(a, b, (i - 1) as nat, (j - 1) as nat),
        )
    }
}

/// The Levenshtein distance of two texts: the fewest insertions, deletions
/// and substitutions of characters that turn one into the other.
pub open spec fn edit_dist(a: Seq<char>, b: Seq<char>) -> nat {
    ed(a, b, a.len(), b.len())
}

pub open spec fn max(x: nat, y: nat) -> nat {
    if x >= y {
        x
    } else {
        y
    }
}

/// The distance never exceeds the longer length.
pub proof fn lemma_ed_bounded(a: Seq<char>, b: Seq<char>, i: nat, j: nat)
    ensures
        ed(a, b, i, j) <= max(i, j),
    decreases i + j,
{
    if i > 0 && j > 0 {
        lemma_ed_bounded(a, b, (i - 1) as nat, (j - 1) as nat);
        if a[i - 1] != b[j - 1] {
            lemma_ed_bounded(a, b, (i - 1) as nat, j);
            lemma_ed_bounded(a, b, i, (j - 1) as nat);
        }
    }
}

/// The distance is at least the difference of the lengths.
pub proof fn lemma_ed_length_gap(a: Seq<char>, b: Seq<char>, i: nat, j: nat)
    ensures
        ed(a, b, i, j) >= i - j,
        ed(a, b, i, j) >= j - i,
    decreases i + j,
{
    if i > 0 && j > 0 {
        lemma_ed_length_gap(a, b, (i - 1) as nat, (j - 1) as nat);
        if a[i - 1] != b[j - 1] {
            lemma_ed_length_gap(a, b, (i - 1) as nat, j);
            lemma_ed_length_gap(a, b, i, (j - 1) as nat);
        }
    }
}

/// The distance of a text to itself is zero.
pub proof fn lemma_ed_self(a: Seq<char>, i: nat)
    requires
        i <= a.len(),
    ensures
        ed(a, a, i, i) == 0,
    decreases i,
{
    if i > 0 {
        lemma_ed_self(a, (i - 1) as nat);
    }
}

/// The distance is symmetric.
pub proof fn lemma_ed_symmetric(a: Seq<char>, b: Seq<char>, i: nat, j: nat)
    ensures
        ed(a, b, i, j) == ed(b, a, j, i),
    decreases i + j,
{
    if i > 0 && j > 0 {
        lemma_ed_symmetric(a, b, (i - 1) as nat, (j - 1) as nat);
        if a[i - 1] != b[j - 1] {
            lemma_ed_symmetric(a, b, (i - 1) as nat, j);
            lemma_ed_symmetric(a, b, i, (j - 1) as nat);
        }
    }
}

/// Distance zero means equal texts.
pub proof fn lemma_ed_zero(a: Seq<char>, b: Seq<char>, i: nat, j: nat)
    requires
        i <= a.len(),
        j <= b.len(),
        ed(a, b, i, j) == 0,
    ensures
        i == j,
        a.take(i as int) == b.take(j as int),
    decreases i + j,
{
    lemma_ed_length_gap(a, b, i, j);
    if i > 0 && j > 0 {
        if a[i - 1] == b[j - 1] {
            lemma_ed_zero(a, b, (i - 1) as nat, (j - 1) as nat);
            assert(a.take(i as int) =~= a.take(i - 1).push(a[i - 1]));
            assert(b.take(j as int) =~= b.take(j - 1).push(b[j - 1]));
        }
    } else {
        assert(a.take(0) =~= b.take(0));
    }
}

/// Levenshtein distance between two character sequences.
pub fn edit_distance(a: &[char], b: &[char]) -> (r: usize)
    ensures
        r == edit_dist(a@, b@),
{
    let m = a.len();
    let n = b.len();
    // row `i` of the table: the distances of the first `i` characters of
    // `a` to every prefix of `b`
    let mut prev: Vec<usize> = Vec::new();
    prev.push(0);
    let mut j: usize = 0;
    while j < n
        invariant
            j <= n,
            n == b.len(),
            prev@.len() == j + 1,
            forall|k: int| 0 <= k <= j ==> prev@[k] == ed(a@, b@, 0, k as nat),
        decreases n - j,
    {
        j = j + 1;
        prev.push(j);
    }
    let mut i: usize = 0;
    while i < m
        invariant
            i <= m,
            m == a.len(),
            n == b.len(),
            prev@.len() == n + 1,
            forall|k: int| 0 <= k <= n ==> prev@[k] == ed(a@, b@, i as nat, k as nat),
        decreases m - i,
    {
        let mut cur: Vec<usize> = Vec::new();
        cur.push(i + 1);
        let mut j: usize = 0;
        while j < n
            invariant
                i < m,
                j <= n,
                m == a.len(),
                n == b.len(),
                prev@.len() == n + 1,
                cur@.len() == j + 1,
                forall|k: int| 0 <= k <= n ==> prev@[k] == ed(a@, b@, i as nat, k as nat),
                forall|k: int| 0 <= k <= j ==> cur@[k] == ed(a@, b@, (i + 1) as nat, k as nat),
            decreases n - j,
        {
            proof {
                lemma_ed_bounded(a@, b@, i as nat, j as nat);
            }
            let v = if a[i] == b[j] {
                prev[j]
            } else {
                let up = prev[j + 1];
                let left = cur[j];
                let diag = prev[j];
                let mut best = up;
                if left < best {
                    best = left;
                }
                if diag < best {
                    best = diag;
                }
                1 + best
            };
            cur.push(v);
            j = j + 1;
        }
        prev = cur;
        i = i + 1;
    }
    prev[n]
}

// ───────────────────────────── fuzzy score ─────────────────────────────

/// How similar a stored text is to a query: identical (score 1), one side
/// empty (score 0), or `1 - distance / length` where `length` is the longer
/// character count.
#[derive(Clone, Copy)]
pub enum FuzzyScore {
    Identical,
    Disjoint,
    Partial { distance: usize, length: usize },
}

pub open spec fn fuzzy_of(query: Seq<char>, candidate: Seq<char>) -> FuzzyScore {
    if query == candidate {
        FuzzyScore::Identical
    } else if query.len() == 0 || candidate.len() == 0 {
        FuzzyScore::Disjoint
    } else {
        FuzzyScore::Partial {
            distance: edit_dist(query, candidate) as usize,
            length: max(query.len(), candidate.len()) as usize,
        }
    }
}

/// The score as the fraction `1 - miss.0 / miss.1`.
pub open spec fn miss(s: FuzzyScore) -> (nat, nat) {
    match s {
        FuzzyScore::Identical => (0, 1),
        FuzzyScore::Disjoint => (1, 1),
        FuzzyScore::Partial { distance, length } => (distance as nat, length as nat),
    }
}

/// Normalised edit-distance similarity of `candidate` to `query`.
pub fn fuzzy_score(query: &str, candidate: &str) -> (r: FuzzyScore)
    ensures
        r == fuzzy_of(query@, candidate@),
        miss(r).1 > 0,
        miss(r).0 <= miss(r).1,
{
    let q = chars_of(query);
    let c = chars_of(candidate);
    if chars_eq(&q, &c) {
        return FuzzyScore::Identical;
    }
    if q.len() == 0 || c.len() == 0 {
        return FuzzyScore::Disjoint;
    }
    let dist = edit_distance(q.as_slice(), c.as_slice());
    proof {
        lemma_ed_bounded(q@, c@, q@.len(), c@.len());
    }
    let max_len = if q.len() >= c.len() {
        q.len()
    } else {
        c.len()
    };
    FuzzyScore::Partial { distance: dist, length: max_len }
}

/// A match is kept when its score is at least one half.
pub open spec fn passes(s: FuzzyScore) -> bool {
    2 * miss(s).0 <= miss(s).1
}

/// `x` scores strictly higher than `y`.
pub open spec fn scores_above(x: FuzzyScore, y: FuzzyScore) -> bool {
    miss(x).0 * miss(y).1 < miss(y).0 * miss(x).1
}

/// `x` ranks before `y`: a higher score, or an equal score and an earlier
/// entry.
pub open spec fn ranks_before(x: (usize, FuzzyScore), y: (usize, FuzzyScore)) -> bool {
    scores_above(x.1, y.1) || (!scores_above(y.1, x.1) && x.0 < y.0)
}

/// Comparing fractions `a/b <= c/d <= e/f` by cross products, for positive
/// denominators.
pub proof fn lemma_cross_trans(a: int, b: int, c: int, d: int, e: int, f: int)
    requires
        b > 0,
        d > 0,
        f > 0,
        a * d <= c * b,
        c * f <= e * d,
    ensures
        a * f <= e * b,
        a * d < c * b || c * f < e * d ==> a * f < e * b,
{
    assert(c * b * f == c * f * b) by (nonlinear_arith);
    assert(a * d * f == d * (a * f)) by (nonlinear_arith);
    assert(e * d * b == d * (e * b)) by (nonlinear_arith);
    assert(a * d * f <= c * b * f) by (nonlinear_arith)
        requires
            a * d <= c * b,
            f > 0,
    ;
    assert(c * f * b <= e * d * b) by (nonlinear_arith)
        requires
            c * f <= e * d,
            b > 0,
    ;
    assert(a * f <= e * b) by (nonlinear_arith)
        requires
            d * (a * f) <= d * (e * b),
            d > 0,
    ;
    if a * d < c * b {
        assert(a * d * f < c * b * f) by (nonlinear_arith)
            requires
                a * d < c * b,
                f > 0,
        ;
    }
    if c * f < e * d {
        assert(c * f * b < e * d * b) by (nonlinear_arith)
            requires
                c * f < e * d,
                b > 0,
        ;
    }
    if a * d < c * b || c * f < e * d {
        assert(a * f < e * b) by (nonlinear_arith)
            requires
                d * (a * f) < d * (e * b),
                d > 0,
        ;
    }
}

/// Scores are ordered: "scores above" is transitive, and so is its
/// complement ("scores at most").
pub proof fn lemma_scores_transitive(x: FuzzyScore, y: FuzzyScore, z: FuzzyScore)
    requires
        miss(x).1 > 0,
        miss(y).1 > 0,
        miss(z).1 > 0,
    ensures
        scores_above(x, y) && scores_above(y, z) ==> scores_above(x, z),
        !scores_above(y, x) && !scores_above(z, y) ==> !scores_above(z, x),
        scores_above(x, y) && !scores_above(z, y) ==> scores_above(x, z),
        !scores_above(y, x) && scores_above(y, z) ==> scores_above(x, z),
{
    let (a, b) = miss(x);
    let (c, d) = miss(y);
    let (e, f) = miss(z);
    if a * d <= c * b && c * f <= e * d {
        lemma_cross_trans(a as int, b as int, c as int, d as int, e as int, f as int);
    }
}

fn above(x: &FuzzyScore, y: &FuzzyScore) -> (r: bool)
    requires
        miss(*x).1 > 0,
        miss(*y).1 > 0,
        miss(*x).0 <= miss(*x).1,
        miss(*y).0 <= miss(*y).1,
        miss(*x).1 <= usize::MAX,
        miss(*y).1 <= usize::MAX,
    ensures
        r == scores_above(*x, *y),
{
    let (a, b): (u128, u128) = match x {
        FuzzyScore::Identical => (0, 1),
        FuzzyScore::Disjoint => (1, 1),
        FuzzyScore::Partial { distance, length } => (*distance as u128, *length as u128),
    };
    let (c, d): (u128, u128) = match y {
        FuzzyScore::Identical => (0, 1),
        FuzzyScore::Disjoint => (1, 1),
        FuzzyScore::Partial { distance, length } => (*distance as u128, *length as u128),
    };
    assert(a * d <= 0xffff_ffff_ffff_ffff * 0xffff_ffff_ffff_ffff) by (nonlinear_arith)
        requires
            a <= 0xffff_ffff_ffff_ffff,
            d <= 0xffff_ffff_ffff_ffff,
    ;
    assert(c * b <= 0xffff_ffff_ffff_ffff * 0xffff_ffff_ffff_ffff) by (nonlinear_arith)
        requires
            c <= 0xffff_ffff_ffff_ffff,
            b <= 0xffff_ffff_ffff_ffff,
    ;
    a * d < c * b
}

/// A score whose fraction `1 - miss.0 / miss.1` lies in `[0, 1]`.
pub open spec fn valid_score(s: FuzzyScore) -> bool {
    miss(s).1 > 0 && miss(s).0 <= miss(s).1
}

/// Every element ranks before every later one.
pub open spec fn sorted_ranks(r: Seq<(usize, FuzzyScore)>) -> bool {
    forall|k1: int, k2: int| 0 <= k1 < k2 < r.len() ==> ranks_before(#[trigger] r[k1], #[trigger] r[k2])
}

/// The matches of a search: entries (by position) whose score passes,
/// ranked, at most `limit` of them.
pub open spec fn is_ranking(
    query: Seq<char>,
    sources: Seq<Seq<char>>,
    limit: nat,
    r: Seq<(usize, FuzzyScore)>,
) -> bool {
    // every match is a passing entry with its score
    &&& forall|k: int|
        0 <= k < r.len() ==> {
            &&& 0 <= (#[trigger] r[k]).0 < sources.len()
            &&& r[k].1 == fuzzy_of(query, sources[r[k].0 as int])
            &&& passes(r[k].1)
        }
        // in rank order
    &&& sorted_ranks(r)
    // as many as the limit allows
    &&& r.len() == if limit <= passing_count(query, sources, sources.len() as nat) {
        limit
    } else {
        passing_count(query, sources, sources.len() as nat)
    }
    // and the best ones
    &&& forall|i: int|
        0 <= i < sources.len() && passes(fuzzy_of(query, sources[i])) && !(exists|k: int|
            0 <= k < r.len() && (#[trigger] r[k]).0 == i) ==> forall|k: int|
            0 <= k < r.len() ==> ranks_before(#[trigger] r[k], (i as usize, fuzzy_of(query, sources[i])))
}

/// The number of passing entries among the first `i`.
pub open spec fn passing_count(query: Seq<char>, sources: Seq<Seq<char>>, i: nat) -> nat
    decreases i,
{
    if i == 0 {
        0
    } else {
        passing_count(query, sources, (i - 1) as nat) + if passes(
            fuzzy_of(query, sources[i - 1]),
        ) {
            1nat
        } else {
            0
        }
    }
}

/// All passing entries among the first `i`, each once, ranked.
spec fn ranked_upto(
    query: Seq<char>,
    sources: Seq<Seq<char>>,
    i: nat,
    r: Seq<(usize, FuzzyScore)>,
) -> bool {
    &&& r.len() == passing_count(query, sources, i)
    &&& forall|k: int|
        0 <= k < r.len() ==> {
            &&& 0 <= (#[trigger] r[k]).0 < i
            &&& r[k].1 == fuzzy_of(query, sources[r[k].0 as int])
            &&& passes(r[k].1)
            &&& valid_score(r[k].1)
        }
    &&& sorted_ranks(r)
    &&& forall|j: int|
        0 <= j < i && passes(fuzzy_of(query, sources[j])) ==> exists|k: int|
            0 <= k < r.len() && (#[trigger] r[k]).0 == j
}

/// Inserts `(index, s)` after every element that scores at least as high,
/// keeping the order.
fn insert_ranked(ranked: &mut Vec<(usize, FuzzyScore)>, index: usize, s: FuzzyScore)
    requires
        valid_score(s),
        forall|k: int|
            0 <= k < old(ranked)@.len() ==> valid_score((#[trigger] old(ranked)@[k]).1)
                && old(ranked)@[k].0 < index,
        sorted_ranks(old(ranked)@),
    ensures
        exists|p: int|
            0 <= p <= old(ranked)@.len() && final(ranked)@ == old(ranked)@.insert(p, (index, s)),
        sorted_ranks(final(ranked)@),
{
    let ghost old_ranked = ranked@;
    let mut p: usize = 0;
    while p < ranked.len()
        invariant
            p <= ranked@.len(),
            ranked@ == old_ranked,
            valid_score(s),
            forall|k: int| 0 <= k < ranked@.len() ==> valid_score((#[trigger] ranked@[k]).1),
            forall|k: int| 0 <= k < p ==> !scores_above(s, (#[trigger] ranked@[k]).1),
        ensures
            p <= ranked@.len(),
            ranked@ == old_ranked,
            forall|k: int| 0 <= k < p ==> !scores_above(s, (#[trigger] ranked@[k]).1),
            p < ranked@.len() ==> scores_above(s, ranked@[p as int].1),
        decreases ranked@.len() - p,
    {
        if above(&s, &ranked[p].1) {
            break;
        }
        p = p + 1;
    }
    ranked.insert(p, (index, s));
    proof {
        let nr = ranked@;
        assert(nr =~= old_ranked.insert(p as int, (index, s)));
        assert forall|k1: int, k2: int| 0 <= k1 < k2 < nr.len() implies ranks_before(
            #[trigger] nr[k1],
            #[trigger] nr[k2],
        ) by {
            if k2 < p {
                assert(nr[k1] == old_ranked[k1] && nr[k2] == old_ranked[k2]);
            } else if k2 == p {
                assert(nr[k1] == old_ranked[k1]);
                assert(!scores_above(s, old_ranked[k1].1));
            } else if k1 < p {
                assert(nr[k1] == old_ranked[k1] && nr[k2] == old_ranked[k2 - 1]);
            } else if k1 == p {
                assert(nr[k2] == old_ranked[k2 - 1]);
                if k2 - 1 == p {
                    assert(scores_above(s, old_ranked[p as int].1));
                } else {
                    assert(ranks_before(old_ranked[p as int], old_ranked[k2 - 1]));
                    lemma_scores_transitive(s, old_ranked[p as int].1, old_ranked[k2 - 1].1);
                }
            } else {
                assert(nr[k1] == old_ranked[k1 - 1] && nr[k2] == old_ranked[k2 - 1]);
            }
        }
    }
}

/// A full ranking cut after its first `limit` elements is the answer of a
/// search.
proof fn lemma_ranking_prefix(
    query: Seq<char>,
    sources: Seq<Seq<char>>,
    all: Seq<(usize, FuzzyScore)>,
    limit: nat,
)
    requires
        ranked_upto(query, sources, sources.len(), all),
    ensures
        is_ranking(
            query,
            sources,
            limit,
            all.take(if limit <= all.len() { limit as int } else { all.len() as int }),
        ),
{
    let n = if limit <= all.len() { limit as int } else { all.len() as int };
    let r = all.take(n);
    assert forall|k: int| 0 <= k < r.len() implies {
        &&& 0 <= (#[trigger] r[k]).0 < sources.len()
        &&& r[k].1 == fuzzy_of(query, sources[r[k].0 as int])
        &&& passes(r[k].1)
    } by {
        assert(r[k] == all[k]);
    }
    assert forall|k1: int, k2: int| 0 <= k1 < k2 < r.len() implies ranks_before(
        #[trigger] r[k1],
        #[trigger] r[k2],
    ) by {
        assert(r[k1] == all[k1] && r[k2] == all[k2]);
    }
    assert forall|i: int|
        0 <= i < sources.len() && passes(fuzzy_of(query, sources[i])) && !(exists|k: int|
            0 <= k < r.len() && (#[trigger] r[k]).0 == i) implies forall|k: int|
        0 <= k < r.len() ==> ranks_before(#[trigger] r[k], (i as usize, fuzzy_of(query, sources[i]))) by {
        let m = choose|m: int| 0 <= m < all.len() && (#[trigger] all[m]).0 == i;
        if m < r.len() {
            assert(r[m] == all[m]);
        }
        assert forall|k: int| 0 <= k < r.len() implies ranks_before(
            #[trigger] r[k],
            (i as usize, fuzzy_of(query, sources[i])),
        ) by {
            assert(r[k] == all[k]);
            assert(all[m] == (i as usize, fuzzy_of(query, sources[i])));
        }
    }
}

/// Ranks the stored sources against a query: those scoring at least one
/// half, best first (ties keep the stored order), at most `limit`. Each
/// result is the position of the entry with its score.
pub fn rank_matches(query: &str, sources: &Vec<String>, limit: usize) -> (r: Vec<(usize, FuzzyScore)>)
    ensures
        is_ranking(query@, strs(sources@), limit as nat, r@),
{
    let ghost srcs = strs(sources@);
    let mut ranked: Vec<(usize, FuzzyScore)> = Vec::new();
    let mut i: usize = 0;
    while i < sources.len()
        invariant
            i <= sources.len(),
            srcs == strs(sources@),
            ranked_upto(query@, srcs, i as nat, ranked@),
        decreases sources.len() - i,
    {
        let s = fuzzy_score(query, sources[i].as_str());
        let keep = match &s {
            FuzzyScore::Identical => true,
            FuzzyScore::Disjoint => false,
            FuzzyScore::Partial { distance, length } => *distance <= *length / 2,
        };
        assert(keep == passes(s));
        assert(srcs[i as int] == sources@[i as int]@);
        if keep {
            let ghost before = ranked@;
            insert_ranked(&mut ranked, i, s);
            proof {
                let nr = ranked@;
                let p = choose|p: int| 0 <= p <= before.len() && nr == before.insert(p, (i, s));
                assert(nr =~= before.insert(p, (i, s)));
                assert forall|k: int| 0 <= k < nr.len() implies {
                    &&& 0 <= (#[trigger] nr[k]).0 < i + 1
                    &&& nr[k].1 == fuzzy_of(query@, srcs[nr[k].0 as int])
                    &&& passes(nr[k].1)
                    &&& valid_score(nr[k].1)
                } by {
                    if k < p {
                        assert(nr[k] == before[k]);
                    } else if k > p {
                        assert(nr[k] == before[k - 1]);
                    }
                }
                assert forall|j: int|
                    0 <= j < i + 1 && passes(fuzzy_of(query@, srcs[j])) implies exists|k: int|
                    0 <= k < nr.len() && (#[trigger] nr[k]).0 == j by {
                    if j == i {
                        assert(nr[p].0 == j);
                    } else {
                        let k = choose|k: int| 0 <= k < before.len() && (#[trigger] before[k]).0 == j;
                        if k < p {
                            assert(nr[k].0 == j);
                        } else {
                            assert(nr[k + 1].0 == j);
                        }
                    }
                }
            }
        }
        i = i + 1;
    }
    // keep the first `limit`
    let mut r: Vec<(usize, FuzzyScore)> = Vec::new();
    let mut k: usize = 0;
    let total = ranked.len();
    while k < limit && k < total
        invariant
            k <= total,
            k <= limit,
            total == ranked@.len(),
            r@ == ranked@.take(k as int),
        decreases total - k,
    {
        r.push(ranked[k]);
        assert(r@ =~= ranked@.take(k + 1));
        k = k + 1;
    }
    proof {
        assert(srcs.len() == sources@.len());
        lemma_ranking_prefix(query@, srcs, ranked@, limit as nat);
    }
    r
}

/// The similarity of two texts does not depend on which is the query.
pub proof fn lemma_fuzzy_symmetric(a: Seq<char>, b: Seq<char>)
    ensures
        fuzzy_of(a, b) == fuzzy_of(b, a),
{
    lemma_ed_symmetric(a, b, a.len(), b.len());
}

/// A text is identical to itself, and only an identical text scores one
/// (nothing scores above it).
pub proof fn lemma_fuzzy_identical(a: Seq<char>, b: Seq<char>)
    ensures
        fuzzy_of(a, a) == FuzzyScore::Identical,
        miss(fuzzy_of(a, b)).0 == 0 && a.len() + b.len() <= usize::MAX ==> a == b,
        !scores_above(fuzzy_of(a, b), FuzzyScore::Identical),
{
    if a != b && a.len() > 0 && b.len() > 0 && a.len() + b.len() <= usize::MAX {
        if edit_dist(a, b) == 0 {
            lemma_ed_zero(a, b, a.len(), b.len());
            assert(a =~= a.take(a.len() as int));
            assert(b =~= b.take(b.len() as int));
        }
        lemma_ed_bounded(a, b, a.len(), b.len());
    }
}

proof fn lemma_passing_count_pos(query: Seq<char>, sources: Seq<Seq<char>>, n: nat, i: int)
    requires
        0 <= i < n,
        passes(fuzzy_of(query, sources[i])),
    ensures
        passing_count(query, sources, n) >= 1,
    decreases n,
{
    if i < n - 1 {
        lemma_passing_count_pos(query, sources, (n - 1) as nat, i);
    }
}

/// When a stored text equals the query and at least one match is asked
/// for, the best match found is an identical one.
pub proof fn lemma_exact_match_first(
    query: Seq<char>,
    sources: Seq<Seq<char>>,
    limit: nat,
    r: Seq<(usize, FuzzyScore)>,
    i: int,
)
    requires
        is_ranking(query, sources, limit, r),
        limit >= 1,
        0 <= i < sources.len(),
        sources[i] == query,
        sources.len() <= usize::MAX,
    ensures
        r.len() >= 1,
        miss(r[0].1).0 == 0,
{
    lemma_fuzzy_identical(query, query);
    assert(passes(fuzzy_of(query, sources[i])));
    lemma_passing_count_pos(query, sources, sources.len(), i);
    if exists|k: int| 0 <= k < r.len() && (#[trigger] r[k]).0 == i {
        let k = choose|k: int| 0 <= k < r.len() && (#[trigger] r[k]).0 == i;
        assert(r[k].1 == FuzzyScore::Identical);
        if k > 0 {
            assert(ranks_before(r[0], r[k]));
        }
    } else {
        assert(ranks_before(r[0], (i as usize, fuzzy_of(query, sources[i]))));
    }
}

} // verus!
