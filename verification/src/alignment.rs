//! Sentence alignment of parallel documents: the token counts of a
//! sentence and the integer parts of their cosine similarity, and the
//! reading of the pairing out of the table of the dynamic programme.

use vstd::prelude::*;
use crate::terms::{count_key, pair_views, tally};
use crate::text::{
    alphanumeric, chars_of, copy_range, is_alphanumeric, lowercase, split_whitespace, string_of,
    to_lowercase, views, words,
};

verus! {

/// The text of `s` without its leading characters that are not
/// alphanumeric.
pub open spec fn strip_front(s: Seq<char>) -> Seq<char>
    decreases s.len(),
{
    if s.len() == 0 || alphanumeric(s[0]) {
        s
    } else {
        strip_front(s.drop_first())
    }
}

/// The text of `s` without its trailing characters that are not
/// alphanumeric.
pub open spec fn strip_back(s: Seq<char>) -> Seq<char>
    decreases s.len(),
{
    if s.len() == 0 || alphanumeric(s.last()) {
        s
    } else {
        strip_back(s.drop_last())
    }
}

/// The token of a word: lower-cased, without the non-alphanumeric
/// characters at its ends (`trim_matches`).
pub open spec fn align_token(w: Seq<char>) -> Seq<char> {
    strip_back(strip_front(lowercase(w)))
}

/// The non-empty tokens of a list of words.
pub open spec fn align_tokens_of_words(ws: Seq<Seq<char>>) -> Seq<Seq<char>>
    decreases ws.len(),
{
    if ws.len() == 0 {
        seq![]
    } else {
        let r = align_tokens_of_words(ws.drop_last());
        let t = align_token(ws.last());
        if t.len() > 0 {
            r.push(t)
        } else {
            r
        }
    }
}

proof fn lemma_tokens_len(ws: Seq<Seq<char>>)
    ensures
        align_tokens_of_words(ws).len() <= ws.len(),
    decreases ws.len(),
{
    if ws.len() > 0 {
        lemma_tokens_len(ws.drop_last());
    }
}

proof fn lemma_strip_front(s: Seq<char>, i: int)
    requires
        0 <= i <= s.len(),
        forall|k: int| 0 <= k < i ==> !alphanumeric(s[k]),
        i == s.len() || alphanumeric(s[i]),
    ensures
        strip_front(s) == s.skip(i),
    decreases i,
{
    if i > 0 {
        assert(s.drop_first().skip(i - 1) =~= s.skip(i));
        lemma_strip_front(s.drop_first(), i - 1);
    } else {
        assert(s.skip(0) =~= s);
    }
}

proof fn lemma_strip_back(s: Seq<char>, j: int)
    requires
        0 <= j <= s.len(),
        forall|k: int| j <= k < s.len() ==> !alphanumeric(s[k]),
        j == 0 || alphanumeric(s[j - 1]),
    ensures
        strip_back(s) == s.take(j),
    decreases s.len() - j,
{
    if j < s.len() {
        assert(s.drop_last().take(j) =~= s.take(j));
        lemma_strip_back(s.drop_last(), j);
    } else {
        assert(s.take(j) =~= s);
    }
}

fn token_of_word(w: &Vec<char>) -> (r: Vec<char>)
    ensures
        r@ == align_token(w@),
{
    let ws = string_of(w);
    let low = to_lowercase(ws.as_str());
    let cs = chars_of(low.as_str());
    let n = cs.len();
    let mut a: usize = 0;
    while a < n && !is_alphanumeric(cs[a])
        invariant
            a <= n,
            n == cs@.len(),
            forall|k: int| 0 <= k < a ==> !alphanumeric(cs@[k]),
        decreases n - a,
    {
        a = a + 1;
    }
    proof {
        lemma_strip_front(cs@, a as int);
    }
    let mut b: usize = n;
    let ghost f = cs@.skip(a as int);
    while b > a && !is_alphanumeric(cs[b - 1])
        invariant
            a <= b <= n,
            n == cs@.len(),
            f == cs@.skip(a as int),
            forall|k: int| b <= k < n ==> !alphanumeric(cs@[k]),
        decreases b,
    {
        b = b - 1;
    }
    proof {
        assert forall|k: int| (b - a) <= k < f.len() implies !alphanumeric(f[k]) by {
            assert(f[k] == cs@[a + k]);
        }
        if b > a {
            assert(f[b - a - 1] == cs@[b - 1]);
        }
        lemma_strip_back(f, (b - a) as int);
    }
    let r = copy_range(&cs, a, b);
    assert(r@ =~= f.take((b - a) as int));
    r
}

/// The token counts of a sentence: each distinct token, in order of first
/// appearance, with its count.
pub fn tokenize(s: &str) -> (r: Vec<(String, u32)>)
    requires
        s@.len() < 0xffff_ffff,
    ensures
        pair_views(r@) == tally(align_tokens_of_words(words(s@))),
{
    let cs = chars_of(s);
    let ws = split_whitespace(&cs);
    proof {
        crate::terms::lemma_words_len(s@);
    }
    let ghost all = views(ws@);
    let mut counts: Vec<(String, u32)> = Vec::new();
    let mut i: usize = 0;
    assert(pair_views(counts@) =~= tally(align_tokens_of_words(all.take(0))));
    while i < ws.len()
        invariant
            i <= ws@.len(),
            all == views(ws@),
            all == words(s@),
            all.len() <= s@.len(),
            s@.len() < 0xffff_ffff,
            pair_views(counts@) == tally(align_tokens_of_words(all.take(i as int))),
        decreases ws@.len() - i,
    {
        let ghost pre = all.take(i as int);
        assert(all.take(i + 1).drop_last() =~= pre);
        assert(all.take(i + 1).last() == ws@[i as int]@);
        proof {
            lemma_tokens_len(pre);
        }
        let t = token_of_word(&ws[i]);
        if t.len() > 0 {
            let key = string_of(&t);
            count_key(&mut counts, key, Ghost(align_tokens_of_words(pre)));
        }
        i = i + 1;
    }
    assert(all.take(ws@.len() as int) =~= all);
    counts
}

/// The count of `key` in a tally (zero when absent).
pub open spec fn count_in(l: Seq<(Seq<char>, nat)>, key: Seq<char>) -> nat
    decreases l.len(),
{
    if l.len() == 0 {
        0
    } else if l.last().0 == key {
        l.last().1
    } else {
        count_in(l.drop_last(), key)
    }
}

/// The dot product of two token-count vectors.
pub open spec fn dot(a: Seq<(Seq<char>, nat)>, b: Seq<(Seq<char>, nat)>) -> nat
    decreases a.len(),
{
    if a.len() == 0 {
        0
    } else {
        dot(a.drop_last(), b) + a.last().1 * count_in(b, a.last().0)
    }
}

/// The sum of the squared counts.
pub open spec fn sum_squares(a: Seq<(Seq<char>, nat)>) -> nat
    decreases a.len(),
{
    if a.len() == 0 {
        0
    } else {
        sum_squares(a.drop_last()) + a.last().1 * a.last().1
    }
}

fn count_of(b: &Vec<(String, u32)>, key: &str) -> (r: u32)
    ensures
        r as nat == count_in(pair_views(b@), key@),
{
    let mut j = b.len();
    assert(pair_views(b@).take(j as int) =~= pair_views(b@));
    while j > 0
        invariant
            j <= b@.len(),
            count_in(pair_views(b@), key@) == count_in(pair_views(b@).take(j as int), key@),
        decreases j,
    {
        let ghost t = pair_views(b@).take(j as int);
        assert(t.last() == pair_views(b@)[j - 1]);
        assert(t.drop_last() =~= pair_views(b@).take(j - 1));
        if crate::text::str_eq(b[j - 1].0.as_str(), key) {
            return b[j - 1].1;
        }
        j = j - 1;
    }
    0
}

/// The dot product of two token-count vectors.
pub fn dot_product(a: &Vec<(String, u32)>, b: &Vec<(String, u32)>) -> (r: u128)
    ensures
        r as nat == dot(pair_views(a@), pair_views(b@)),
{
    let mut s: u128 = 0;
    let mut i: usize = 0;
    assert(pair_views(a@).take(0) =~= Seq::<(Seq<char>, nat)>::empty());
    while i < a.len()
        invariant
            i <= a@.len(),
            s as nat == dot(pair_views(a@).take(i as int), pair_views(b@)),
            s <= i * 0x1_0000_0000_0000_0000,
        decreases a@.len() - i,
    {
        assert(pair_views(a@).take(i + 1).drop_last() =~= pair_views(a@).take(i as int));
        assert(pair_views(a@).take(i + 1).last() == pair_views(a@)[i as int]);
        let c = count_of(b, a[i].0.as_str());
        let x = a[i].1 as u128;
        let y = c as u128;
        assert(x * y < 0x1_0000_0000_0000_0000) by (nonlinear_arith)
            requires
                x <= 0xffff_ffff,
                y <= 0xffff_ffff,
        ;
        assert(i * 0x1_0000_0000_0000_0000 + 0x1_0000_0000_0000_0000 <= 0xffff_ffff_ffff_ffff
            * 0x1_0000_0000_0000_0000 + 0x1_0000_0000_0000_0000);
        s = s + x * y;
        i = i + 1;
    }
    assert(pair_views(a@).take(a@.len() as int) =~= pair_views(a@));
    s
}

/// The sum of the squared counts of a token-count vector.
pub fn squares(a: &Vec<(String, u32)>) -> (r: u128)
    ensures
        r as nat == sum_squares(pair_views(a@)),
{
    let mut s: u128 = 0;
    let mut i: usize = 0;
    assert(pair_views(a@).take(0) =~= Seq::<(Seq<char>, nat)>::empty());
    while i < a.len()
        invariant
            i <= a@.len(),
            s as nat == sum_squares(pair_views(a@).take(i as int)),
            s <= i * 0x1_0000_0000_0000_0000,
        decreases a@.len() - i,
    {
        assert(pair_views(a@).take(i + 1).drop_last() =~= pair_views(a@).take(i as int));
        assert(pair_views(a@).take(i + 1).last() == pair_views(a@)[i as int]);
        let x = a[i].1 as u128;
        assert(x * x < 0x1_0000_0000_0000_0000) by (nonlinear_arith)
            requires
                x <= 0xffff_ffff,
        ;
        s = s + x * x;
        i = i + 1;
    }
    assert(pair_views(a@).take(a@.len() as int) =~= pair_views(a@));
    s
}

// ───────────────────────────── the pairing ─────────────────────────────

/// The best move into a cell of the alignment table.
#[derive(PartialEq, Eq, Structural, Clone, Copy)]
pub enum Step {
    /// Source `i-1` is paired with target `j-1`.
    Match,
    /// Source `i-1` stays unpaired.
    SkipSource,
    /// Target `j-1` stays unpaired.
    SkipTarget,
}

/// The pairs read back from cell `(i, j)` of the table, in increasing
/// order; an edge of the table pairs nothing more.
pub open spec fn trace(steps: Seq<Seq<Step>>, i: nat, j: nat) -> Seq<(usize, usize)>
    decreases i + j,
{
    if i == 0 || j == 0 {
        seq![]
    } else {
        match steps[i as int][j as int] {
            Step::Match => trace(steps, (i - 1) as nat, (j - 1) as nat).push(
                ((i - 1) as usize, (j - 1) as usize),
            ),
            Step::SkipSource => trace(steps, (i - 1) as nat, j),
            Step::SkipTarget => trace(steps, i, (j - 1) as nat),
        }
    }
}

/// A table of moves for `n` sources and `m` targets.
pub open spec fn table_shape(steps: Seq<Seq<Step>>, n: nat, m: nat) -> bool {
    &&& steps.len() == n + 1
    &&& forall|i: int| 0 <= i <= n ==> (#[trigger] steps[i]).len() == m + 1
}

pub open spec fn steps_view(v: Seq<Vec<Step>>) -> Seq<Seq<Step>> {
    v.map_values(|r: Vec<Step>| r@)
}

/// The pairs are strictly increasing in both documents and within them:
/// a monotone one-to-one matching.
pub open spec fn monotone_pairs(p: Seq<(usize, usize)>, n: nat, m: nat) -> bool {
    &&& forall|k: int| 0 <= k < p.len() ==> (#[trigger] p[k]).0 < n && p[k].1 < m
    &&& forall|a: int, b: int|
        0 <= a < b < p.len() ==> (#[trigger] p[a]).0 < (#[trigger] p[b]).0 && p[a].1 < p[b].1
}

/// What is read back from any cell is a monotone matching within it, so
/// no sentence is paired twice.
pub proof fn lemma_trace_monotone(steps: Seq<Seq<Step>>, i: nat, j: nat)
    requires
        i <= usize::MAX,
        j <= usize::MAX,
    ensures
        monotone_pairs(trace(steps, i, j), i, j),
        trace(steps, i, j).len() <= i && trace(steps, i, j).len() <= j,
    decreases i + j,
{
    if i > 0 && j > 0 {
        match steps[i as int][j as int] {
            Step::Match => {
                lemma_trace_monotone(steps, (i - 1) as nat, (j - 1) as nat);
                let t = trace(steps, (i - 1) as nat, (j - 1) as nat);
                let p = t.push(((i - 1) as usize, (j - 1) as usize));
                assert(trace(steps, i, j) == p);
                assert forall|a: int, b: int| 0 <= a < b < p.len() implies (#[trigger] p[a]).0 < (
                #[trigger] p[b]).0 && p[a].1 < p[b].1 by {
                    assert(p[a] == t[a]);
                    if b < t.len() {
                        assert(p[b] == t[b]);
                    }
                }
                assert forall|k: int| 0 <= k < p.len() implies (#[trigger] p[k]).0 < i && p[k].1 < j by {
                    if k < t.len() {
                        assert(p[k] == t[k]);
                    }
                }
            },
            Step::SkipSource => {
                lemma_trace_monotone(steps, (i - 1) as nat, j);
            },
            Step::SkipTarget => {
                lemma_trace_monotone(steps, i, (j - 1) as nat);
            },
        }
    }
}

/// Reading back composes with the moves of the table: from a cell whose
/// move skips source `i-1`, the pairing is that of the first `i-1` sources
/// against the same `j` targets (a skipped source never uses up a target);
/// from a cell that skips target `j-1`, that of the same `i` sources
/// against the first `j-1` targets; from a matching cell, that of the
/// first `i-1` sources and `j-1` targets followed by the pair
/// `(i-1, j-1)`. At an edge of the table nothing is paired.
pub proof fn lemma_trace_moves(steps: Seq<Seq<Step>>, i: nat, j: nat)
    ensures
        i == 0 || j == 0 ==> trace(steps, i, j).len() == 0,
        i > 0 && j > 0 && steps[i as int][j as int] == Step::SkipSource ==> trace(steps, i, j)
            == trace(steps, (i - 1) as nat, j),
        i > 0 && j > 0 && steps[i as int][j as int] == Step::SkipTarget ==> trace(steps, i, j)
            == trace(steps, i, (j - 1) as nat),
        i > 0 && j > 0 && steps[i as int][j as int] == Step::Match ==> trace(steps, i, j)
            == trace(steps, (i - 1) as nat, (j - 1) as nat).push(((i - 1) as usize, (j - 1) as usize)),
{
}

/// A table whose moves skip every source of a row keeps, for every target
/// count, the pairing of the sources above that row: adding a source that
/// is skipped leaves the pairing of the other sentences unchanged.
pub proof fn lemma_skipped_source_row(steps: Seq<Seq<Step>>, i: nat, m: nat)
    requires
        i > 0,
        forall|j: int| 1 <= j <= m ==> steps[i as int][j] == Step::SkipSource,
    ensures
        forall|j: nat| j <= m ==> #[trigger] trace(steps, i, j) == trace(steps, (i - 1) as nat, j),
{
    assert forall|j: nat| j <= m implies #[trigger] trace(steps, i, j) == trace(steps, (i - 1) as nat, j) by {
        if j > 0 {
            assert(steps[i as int][j as int] == Step::SkipSource);
        }
    }
}

/// Cell `(a, b)` lies on the path that the moves lead along from cell
/// `(i, j)`: a match goes to `(i-1, j-1)`, a skipped source to `(i-1, j)`,
/// a skipped target to `(i, j-1)`, until an edge of the table.
pub open spec fn on_path(steps: Seq<Seq<Step>>, i: nat, j: nat, a: nat, b: nat) -> bool
    decreases i + j,
{
    if i == a && j == b {
        true
    } else if i == 0 || j == 0 {
        false
    } else {
        match steps[i as int][j as int] {
            Step::Match => on_path(steps, (i - 1) as nat, (j - 1) as nat, a, b),
            Step::SkipSource => on_path(steps, (i - 1) as nat, j, a, b),
            Step::SkipTarget => on_path(steps, i, (j - 1) as nat, a, b),
        }
    }
}

/// The pairs read back from cell `(i, j)` are exactly the matching cells
/// on the path from it: `(a-1, b-1)` is paired if and only if cell
/// `(a, b)` is on the path and holds a match.
pub proof fn lemma_trace_is_path_matches(steps: Seq<Seq<Step>>, i: nat, j: nat, a: nat, b: nat)
    requires
        i <= usize::MAX,
        j <= usize::MAX,
        0 < a <= usize::MAX,
        0 < b <= usize::MAX,
    ensures
        trace(steps, i, j).contains(((a - 1) as usize, (b - 1) as usize)) <==> on_path(
            steps,
            i,
            j,
            a,
            b,
        ) && steps[a as int][b as int] == Step::Match,
    decreases i + j,
{
    let p = ((a - 1) as usize, (b - 1) as usize);
    if i == 0 || j == 0 {
        if on_path(steps, i, j, a, b) {
            assert(i == a && j == b);
        }
    } else {
        match steps[i as int][j as int] {
            Step::Match => {
                let ni = (i - 1) as nat;
                let nj = (j - 1) as nat;
                lemma_trace_is_path_matches(steps, ni, nj, a, b);
                let prev = trace(steps, ni, nj);
                let q = ((i - 1) as usize, (j - 1) as usize);
                assert(trace(steps, i, j) == prev.push(q));
                if prev.push(q).contains(p) {
                    let k = choose|k: int| 0 <= k < prev.push(q).len() && prev.push(q)[k] == p;
                    if k < prev.len() {
                        assert(prev[k] == p);
                    } else {
                        assert(q == p);
                        assert((i - 1) as usize == (a - 1) as usize);
                        assert((j - 1) as usize == (b - 1) as usize);
                        assert(a == i && b == j);
                    }
                }
                if on_path(steps, i, j, a, b) && steps[a as int][b as int] == Step::Match {
                    if i == a && j == b {
                        assert(prev.push(q)[prev.len() as int] == p);
                    } else {
                        let k = choose|k: int| 0 <= k < prev.len() && prev[k] == p;
                        assert(prev.push(q)[k] == p);
                    }
                }
            },
            Step::SkipSource => {
                lemma_trace_is_path_matches(steps, (i - 1) as nat, j, a, b);
                if on_path(steps, i, j, a, b) && i == a && j == b {
                    assert(steps[a as int][b as int] != Step::Match);
                }
            },
            Step::SkipTarget => {
                lemma_trace_is_path_matches(steps, i, (j - 1) as nat, a, b);
                if on_path(steps, i, j, a, b) && i == a && j == b {
                    assert(steps[a as int][b as int] != Step::Match);
                }
            },
        }
    }
}

/// The pairing read back from the table of moves, with the numbers of
/// sources and targets left unpaired.
pub fn trace_back(steps: &Vec<Vec<Step>>, n: usize, m: usize) -> (r: (Vec<(usize, usize)>, usize, usize))
    requires
        table_shape(steps_view(steps@), n as nat, m as nat),
    ensures
        r.0@ == trace(steps_view(steps@), n as nat, m as nat),
        monotone_pairs(r.0@, n as nat, m as nat),
        r.1 == n - r.0@.len(),
        r.2 == m - r.0@.len(),
{
    let ghost sv = steps_view(steps@);
    // pairs found so far, last first
    let mut rev: Vec<(usize, usize)> = Vec::new();
    let mut i: usize = n;
    let mut j: usize = m;
    while i > 0 && j > 0
        invariant
            i <= n,
            j <= m,
            sv == steps_view(steps@),
            table_shape(sv, n as nat, m as nat),
            trace(sv, n as nat, m as nat) == trace(sv, i as nat, j as nat) + rev@.reverse(),
        decreases i + j,
    {
        assert(sv[i as int] == steps@[i as int]@);
        let step = steps[i][j];
        let ghost before = rev@;
        match step {
            Step::Match => {
                rev.push((i - 1, j - 1));
                assert(rev@.reverse() =~= seq![((i - 1) as usize, (j - 1) as usize)] + before.reverse());
                assert(trace(sv, i as nat, j as nat) + before.reverse() =~= trace(
                    sv,
                    (i - 1) as nat,
                    (j - 1) as nat,
                ) + rev@.reverse());
                i = i - 1;
                j = j - 1;
            },
            Step::SkipSource => {
                i = i - 1;
            },
            Step::SkipTarget => {
                j = j - 1;
            },
        }
    }
    assert(trace(sv, i as nat, j as nat) =~= Seq::<(usize, usize)>::empty());
    let mut pairs: Vec<(usize, usize)> = Vec::new();
    let mut k: usize = rev.len();
    while k > 0
        invariant
            k <= rev@.len(),
            pairs@ == rev@.reverse().take(rev@.len() - k),
        decreases k,
    {
        pairs.push(rev[k - 1]);
        assert(pairs@ =~= rev@.reverse().take(rev@.len() - k + 1));
        k = k - 1;
    }
    assert(pairs@ =~= rev@.reverse());
    assert(pairs@ =~= trace(sv, n as nat, m as nat));
    proof {
        lemma_trace_monotone(sv, n as nat, m as nat);
    }
    let len = pairs.len();
    (pairs, n - len, m - len)
}

} // verus!
