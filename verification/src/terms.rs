//! Statistics for automatic term extraction.
//!
//! Text is tokenised (alphanumeric characters, lower-cased, tokens of at
//! least two bytes), every 1-, 2- and 3-gram not bounded by a stop word is
//! counted, n-grams seen fewer than twice are dropped, and for each
//! remaining phrase the containment penalty is gathered: the frequencies
//! and the number of the longer phrases that contain it. Candidates whose
//! C-value `freq - penalty_sum / penalty_count` is positive are reported
//! with these integers; the floating-point score is computed from them.

use vstd::prelude::*;
use crate::text::{
    alphanumeric, byte_len, chars_of, is_ws, contains_chars, contains_seq, is_alphanumeric, push_char, push_str,
    split_whitespace, string_of, strs, to_lowercase, lowercase, views, words,
};

verus! {

// ───────────────────────────── stop words ─────────────────────────────

/// English function words that never start or end a term.
pub open spec fn stop_words() -> Seq<Seq<char>> {
    seq![
        "a"@, "an"@, "the"@, "and"@, "or"@, "but"@, "in"@, "on"@, "at"@, "to"@, "for"@, "of"@,
        "with"@, "by"@, "from"@, "is"@, "are"@, "was"@, "were"@, "be"@, "been"@, "being"@,
        "have"@, "has"@, "had"@, "do"@, "does"@, "did"@, "will"@, "would"@, "could"@, "should"@,
        "may"@, "might"@, "shall"@, "can"@, "not"@, "no"@, "this"@, "that"@, "these"@, "those"@,
        "it"@, "its"@, "we"@, "you"@, "he"@, "she"@, "they"@, "i"@, "me"@, "my"@, "our"@,
        "your"@, "his"@, "her"@, "their"@, "as"@, "if"@, "so"@, "up"@, "out"@, "about"@,
        "into"@, "than"@, "then"@, "when"@, "where"@, "which"@, "who"@, "whom"@,
    ]
}

pub open spec fn is_stop(t: Seq<char>) -> bool {
    stop_words().contains(t)
}

fn stop_word_list() -> (r: Vec<&'static str>)
    ensures
        r@.map_values(|s: &str| s@) == stop_words(),
{
    let r = vec![
        "a", "an", "the", "and", "or", "but", "in", "on", "at", "to", "for", "of", "with", "by",
        "from", "is", "are", "was", "were", "be", "been", "being", "have", "has", "had", "do",
        "does", "did", "will", "would", "could", "should", "may", "might", "shall", "can", "not",
        "no", "this", "that", "these", "those", "it", "its", "we", "you", "he", "she", "they",
        "i", "me", "my", "our", "your", "his", "her", "their", "as", "if", "so", "up", "out",
        "about", "into", "than", "then", "when", "where", "which", "who", "whom",
    ];
    assert(r@.map_values(|s: &str| s@) =~= stop_words());
    r
}

/// Whether `token` is a stop word.
pub fn is_stop_word(token: &str) -> (r: bool)
    ensures
        r == is_stop(token@),
{
    let list = stop_word_list();
    let t = chars_of(token);
    let mut i: usize = 0;
    while i < list.len()
        invariant
            i <= list.len(),
            list@.map_values(|s: &str| s@) == stop_words(),
            t@ == token@,
            forall|k: int| 0 <= k < i ==> stop_words()[k] != token@,
        decreases list.len() - i,
    {
        let w = chars_of(list[i]);
        assert(stop_words()[i as int] == list@[i as int]@);
        if crate::text::chars_eq(&w, &t) {
            assert(stop_words()[i as int] == token@);
            return true;
        }
        i = i + 1;
    }
    false
}

// ───────────────────────────── tokens ─────────────────────────────

/// The alphanumeric characters of `w`, in order.
pub open spec fn alnum_only(w: Seq<char>) -> Seq<char>
    decreases w.len(),
{
    if w.len() == 0 {
        seq![]
    } else {
        let r = alnum_only(w.drop_last());
        if alphanumeric(w.last()) {
            r.push(w.last())
        } else {
            r
        }
    }
}

/// The token a whitespace-separated word gives.
pub open spec fn token_of(w: Seq<char>) -> Seq<char> {
    lowercase(alnum_only(w))
}

/// The tokens of a list of words: those of at least two UTF-8 bytes.
pub open spec fn tokens_of_words(ws: Seq<Seq<char>>) -> Seq<Seq<char>>
    decreases ws.len(),
{
    if ws.len() == 0 {
        seq![]
    } else {
        let r = tokens_of_words(ws.drop_last());
        let t = token_of(ws.last());
        if vstd::utf8::encode_utf8(t).len() >= 2 {
            r.push(t)
        } else {
            r
        }
    }
}

/// The normalised tokens of a text.
pub open spec fn tokens_of(text: Seq<char>) -> Seq<Seq<char>> {
    tokens_of_words(words(text))
}

pub proof fn lemma_tokens_len(ws: Seq<Seq<char>>)
    ensures
        tokens_of_words(ws).len() <= ws.len(),
    decreases ws.len(),
{
    if ws.len() > 0 {
        lemma_tokens_len(ws.drop_last());
    }
}

pub proof fn lemma_words_len(s: Seq<char>)
    ensures
        words(s).len() <= s.len(),
        s.len() > 0 && !is_ws(s.last()) ==> words(s).len() > 0,
    decreases s.len(),
{
    if s.len() > 0 {
        lemma_words_len(s.drop_last());
    }
}

fn alnum_chars(w: &Vec<char>) -> (r: Vec<char>)
    ensures
        r@ == alnum_only(w@),
{
    let mut r: Vec<char> = Vec::new();
    let mut i: usize = 0;
    assert(w@.take(0) =~= Seq::<char>::empty());
    while i < w.len()
        invariant
            i <= w.len(),
            r@ == alnum_only(w@.take(i as int)),
        decreases w.len() - i,
    {
        assert(w@.take(i + 1).drop_last() =~= w@.take(i as int));
        assert(w@.take(i + 1).last() == w@[i as int]);
        if is_alphanumeric(w[i]) {
            r.push(w[i]);
        }
        i = i + 1;
    }
    assert(w@.take(w.len() as int) =~= w@);
    r
}

/// Splits text into normalised tokens: each whitespace-separated word keeps
/// its alphanumeric characters, lower-cased; tokens shorter than two bytes
/// are dropped. Stop words stay.
pub fn tokenize(text: &str) -> (r: Vec<String>)
    ensures
        strs(r@) == tokens_of(text@),
{
    let cs = chars_of(text);
    let ws = split_whitespace(&cs);
    let mut out: Vec<String> = Vec::new();
    let mut i: usize = 0;
    assert(views(ws@).take(0) =~= Seq::<Seq<char>>::empty());
    assert(strs(out@) =~= Seq::<Seq<char>>::empty());
    while i < ws.len()
        invariant
            i <= ws.len(),
            views(ws@) == words(text@),
            cs@ == text@,
            strs(out@) == tokens_of_words(views(ws@).take(i as int)),
        decreases ws.len() - i,
    {
        let ghost before = strs(out@);
        assert(views(ws@).take(i + 1).drop_last() =~= views(ws@).take(i as int));
        assert(views(ws@).take(i + 1).last() == ws@[i as int]@);
        let kept = alnum_chars(&ws[i]);
        let kept_s = string_of(&kept);
        let t = to_lowercase(kept_s.as_str());
        let tc = chars_of(t.as_str());
        if byte_len(&tc) >= 2 {
            let ghost tv = t@;
            out.push(t);
            assert(strs(out@) =~= before.push(tv));
        }
        i = i + 1;
    }
    assert(views(ws@).take(ws.len() as int) =~= views(ws@));
    out
}

// ───────────────────────────── n-grams ─────────────────────────────

/// Words joined with single spaces.
pub open spec fn join_words(ws: Seq<Seq<char>>) -> Seq<char>
    decreases ws.len(),
{
    if ws.len() == 0 {
        seq![]
    } else if ws.len() == 1 {
        ws[0]
    } else {
        join_words(ws.drop_last()) + seq![' '] + ws.last()
    }
}

/// The window of `n` tokens at `i` is bounded by a stop word.
pub open spec fn window_skipped(tokens: Seq<Seq<char>>, n: nat, i: int) -> bool {
    is_stop(tokens[i]) || is_stop(tokens[i + n - 1])
}

/// The phrases of the first `i` windows of `n` tokens that are not bounded
/// by a stop word.
pub open spec fn keys_upto(tokens: Seq<Seq<char>>, n: nat, i: nat) -> Seq<Seq<char>>
    decreases i,
{
    if i == 0 {
        seq![]
    } else {
        let r = keys_upto(tokens, n, (i - 1) as nat);
        if window_skipped(tokens, n, i - 1) {
            r
        } else {
            r.push(join_words(tokens.subrange(i - 1, i - 1 + n)))
        }
    }
}

/// The number of windows of `n` tokens.
pub open spec fn window_count(len: nat, n: nat) -> nat {
    if len < n {
        0
    } else {
        (len - n + 1) as nat
    }
}

/// The `n`-gram phrases of a token list, in order, with repeats.
pub open spec fn ngram_keys(tokens: Seq<Seq<char>>, n: nat) -> Seq<Seq<char>> {
    keys_upto(tokens, n, window_count(tokens.len(), n))
}

pub proof fn lemma_keys_len(tokens: Seq<Seq<char>>, n: nat, i: nat)
    ensures
        keys_upto(tokens, n, i).len() <= i,
    decreases i,
{
    if i > 0 {
        lemma_keys_len(tokens, n, (i - 1) as nat);
    }
}

proof fn lemma_keys_upto_has(tokens: Seq<Seq<char>>, n: nat, k: nat, i: int)
    requires
        n >= 1,
        0 <= i < k,
        i + n <= tokens.len(),
        !is_stop(tokens[i]),
        !is_stop(tokens[i + n - 1]),
    ensures
        keys_upto(tokens, n, k).contains(join_words(tokens.subrange(i, i + n))),
    decreases k,
{
    let r = keys_upto(tokens, n, (k - 1) as nat);
    let w = join_words(tokens.subrange(i, i + n));
    if i == k - 1 {
        assert(!window_skipped(tokens, n, i));
        assert(keys_upto(tokens, n, k) == r.push(w));
        assert(r.push(w)[r.len() as int] == w);
    } else {
        lemma_keys_upto_has(tokens, n, (k - 1) as nat, i);
        let j = choose|j: int| 0 <= j < r.len() && r[j] == w;
        if window_skipped(tokens, n, k - 1) {
        } else {
            let x = join_words(tokens.subrange(k - 1, k - 1 + n));
            assert(r.push(x)[j] == w);
        }
    }
}

/// A window of `n` tokens whose first and last tokens are not stop words
/// is counted as a phrase, whatever the tokens between them are.
pub proof fn lemma_window_counted(tokens: Seq<Seq<char>>, n: nat, i: int)
    requires
        n >= 1,
        0 <= i,
        i + n <= tokens.len(),
        !is_stop(tokens[i]),
        !is_stop(tokens[i + n - 1]),
    ensures
        ngram_keys(tokens, n).contains(join_words(tokens.subrange(i, i + n))),
{
    lemma_keys_upto_has(tokens, n, window_count(tokens.len(), n), i);
}

/// `x` is the text of one of the first `k` windows of `n` tokens, one whose
/// first and last tokens are not stop words.
pub open spec fn phrase_of_open_window(tokens: Seq<Seq<char>>, n: nat, k: nat, x: Seq<char>) -> bool {
    exists|w: int|
        0 <= w < k && w + n <= tokens.len() && !is_stop(tokens[w]) && !is_stop(tokens[w + n - 1])
            && x == join_words(#[trigger] tokens.subrange(w, w + n))
}

/// Every counted phrase is the text of a window of `n` tokens whose first
/// and last tokens are not stop words.
pub proof fn lemma_counted_window_ends(tokens: Seq<Seq<char>>, n: nat, k: nat)
    requires
        n >= 1,
        k <= window_count(tokens.len(), n),
    ensures
        forall|j: int|
            0 <= j < keys_upto(tokens, n, k).len() ==> phrase_of_open_window(
                tokens,
                n,
                k,
                #[trigger] keys_upto(tokens, n, k)[j],
            ),
    decreases k,
{
    if k > 0 {
        let r = keys_upto(tokens, n, (k - 1) as nat);
        lemma_counted_window_ends(tokens, n, (k - 1) as nat);
        let cur = keys_upto(tokens, n, k);
        assert forall|j: int| 0 <= j < cur.len() implies phrase_of_open_window(
            tokens,
            n,
            k,
            #[trigger] cur[j],
        ) by {
            if j < r.len() {
                assert(cur[j] == r[j]);
                assert(phrase_of_open_window(tokens, n, (k - 1) as nat, r[j]));
                let w = choose|w: int|
                    0 <= w < k - 1 && w + n <= tokens.len() && !is_stop(tokens[w]) && !is_stop(
                        tokens[w + n - 1],
                    ) && r[j] == join_words(#[trigger] tokens.subrange(w, w + n));
                assert(0 <= w < k);
            } else {
                assert(!window_skipped(tokens, n, k - 1));
                assert(cur[j] == join_words(tokens.subrange(k - 1, k - 1 + n)));
                assert(k - 1 + n <= tokens.len());
            }
        }
    }
}

/// The position of the last entry with key `x`, or -1.
pub open spec fn find_key(l: Seq<(Seq<char>, nat)>, x: Seq<char>) -> int
    decreases l.len(),
{
    if l.len() == 0 {
        -1
    } else if l.last().0 == x {
        l.len() - 1
    } else {
        find_key(l.drop_last(), x)
    }
}

pub proof fn lemma_find_key_range(l: Seq<(Seq<char>, nat)>, x: Seq<char>)
    ensures
        -1 <= find_key(l, x) < l.len(),
        find_key(l, x) >= 0 ==> l[find_key(l, x)].0 == x,
    decreases l.len(),
{
    if l.len() > 0 && l.last().0 != x {
        lemma_find_key_range(l.drop_last(), x);
    }
}

/// The distinct elements of `s` in order of first appearance, each with the
/// number of times it occurs.
pub open spec fn tally(s: Seq<Seq<char>>) -> Seq<(Seq<char>, nat)>
    decreases s.len(),
{
    if s.len() == 0 {
        seq![]
    } else {
        let l = tally(s.drop_last());
        let x = s.last();
        let p = find_key(l, x);
        if p >= 0 {
            l.update(p, (x, l[p].1 + 1))
        } else {
            l.push((x, 1nat))
        }
    }
}

/// The sum of the counts of a tally.
pub open spec fn total(l: Seq<(Seq<char>, nat)>) -> nat
    decreases l.len(),
{
    if l.len() == 0 {
        0
    } else {
        total(l.drop_last()) + l.last().1
    }
}

pub proof fn lemma_total_update(l: Seq<(Seq<char>, nat)>, p: int, e: (Seq<char>, nat))
    requires
        0 <= p < l.len(),
    ensures
        total(l.update(p, e)) == total(l) - l[p].1 + e.1,
    decreases l.len(),
{
    if p < l.len() - 1 {
        lemma_total_update(l.drop_last(), p, e);
        assert(l.update(p, e).drop_last() =~= l.drop_last().update(p, e));
    } else {
        assert(l.update(p, e).drop_last() =~= l.drop_last());
    }
}

pub proof fn lemma_total_tally(s: Seq<Seq<char>>)
    ensures
        total(tally(s)) == s.len(),
    decreases s.len(),
{
    if s.len() > 0 {
        let l = tally(s.drop_last());
        lemma_total_tally(s.drop_last());
        lemma_find_key_range(l, s.last());
        let p = find_key(l, s.last());
        if p >= 0 {
            lemma_total_update(l, p, (s.last(), l[p].1 + 1));
        } else {
            assert(l.push((s.last(), 1nat)).drop_last() =~= l);
        }
    }
}

pub proof fn lemma_tally_len(s: Seq<Seq<char>>)
    ensures
        tally(s).len() <= s.len(),
    decreases s.len(),
{
    if s.len() > 0 {
        lemma_tally_len(s.drop_last());
        lemma_find_key_range(tally(s.drop_last()), s.last());
    }
}

pub proof fn lemma_entry_le_total(l: Seq<(Seq<char>, nat)>, i: int)
    requires
        0 <= i < l.len(),
    ensures
        l[i].1 <= total(l),
    decreases l.len(),
{
    if i < l.len() - 1 {
        lemma_entry_le_total(l.drop_last(), i);
    }
}

pub open spec fn pair_views(v: Seq<(String, u32)>) -> Seq<(Seq<char>, nat)> {
    v.map_values(|e: (String, u32)| (e.0@, e.1 as nat))
}

/// Position of the last entry with key `x`, or `None`.
pub(crate) fn find_entry(v: &Vec<(String, u32)>, x: &Vec<char>) -> (r: Option<usize>)
    ensures
        match r {
            Some(p) => find_key(pair_views(v@), x@) == p as int,
            None => find_key(pair_views(v@), x@) == -1,
        },
{
    let mut j = v.len();
    assert(pair_views(v@).take(j as int) =~= pair_views(v@));
    while j > 0
        invariant
            j <= v.len(),
            find_key(pair_views(v@), x@) == find_key(pair_views(v@).take(j as int), x@),
        decreases j,
    {
        let k = chars_of(v[j - 1].0.as_str());
        let ghost t = pair_views(v@).take(j as int);
        assert(t.last() == pair_views(v@)[j - 1]);
        assert(t.drop_last() =~= pair_views(v@).take(j - 1));
        if crate::text::chars_eq(&k, x) {
            return Some(j - 1);
        }
        j = j - 1;
    }
    None
}

/// Counts one more occurrence of `key`.
pub(crate) fn count_key(counts: &mut Vec<(String, u32)>, key: String, ghost_s: Ghost<Seq<Seq<char>>>)
    requires
        pair_views(old(counts)@) == tally(ghost_s@),
        ghost_s@.len() < 0xffff_ffff,
    ensures
        pair_views(final(counts)@) == tally(ghost_s@.push(key@)),
{
    let ghost s = ghost_s@;
    let ghost s2 = s.push(key@);
    assert(s2.drop_last() =~= s);
    let kc = chars_of(key.as_str());
    proof {
        lemma_find_key_range(tally(s), key@);
        lemma_total_tally(s);
    }
    match find_entry(counts, &kc) {
        Some(p) => {
            let c = counts[p].1;
            proof {
                lemma_entry_le_total(tally(s), p as int);
            }
            let k = counts[p].0.clone();
            counts.set(p, (k, c + 1));
            assert(pair_views(counts@) =~= tally(s).update(p as int, (key@, tally(s)[p as int].1 + 1)));
        },
        None => {
            let ghost before = pair_views(counts@);
            counts.push((key, 1));
            assert(pair_views(counts@) =~= before.push((key@, 1nat)));
        },
    }
}

/// The tokens of a window joined with spaces.
fn join_window(tokens: &Vec<String>, i: usize, n: usize) -> (r: String)
    requires
        n >= 1,
        i + n <= tokens.len(),
    ensures
        r@ == join_words(strs(tokens@).subrange(i as int, i + n)),
{
    let mut r = tokens[i].clone();
    let mut k: usize = 1;
    assert(strs(tokens@).subrange(i as int, i + 1) =~= seq![tokens@[i as int]@]);
    while k < n
        invariant
            1 <= k <= n,
            i + n <= tokens.len(),
            r@ == join_words(strs(tokens@).subrange(i as int, i + k)),
        decreases n - k,
    {
        let ghost w = strs(tokens@).subrange(i as int, i + k + 1);
        assert(w.drop_last() =~= strs(tokens@).subrange(i as int, i + k));
        assert(w.last() == tokens@[i + k]@);
        push_char(&mut r, ' ');
        push_str(&mut r, tokens[i + k].as_str());
        k = k + 1;
    }
    r
}

/// Counts the `n`-gram phrases of `tokens` into `counts`, which holds the
/// tally of `prior`.
fn add_ngrams(counts: &mut Vec<(String, u32)>, tokens: &Vec<String>, n: usize, prior: Ghost<Seq<Seq<char>>>)
    requires
        n >= 1,
        pair_views(old(counts)@) == tally(prior@),
        prior@.len() + tokens@.len() < 0xffff_ffff,
    ensures
        pair_views(final(counts)@) == tally(prior@ + ngram_keys(strs(tokens@), n as nat)),
{
    let ghost ts = strs(tokens@);
    if tokens.len() < n {
        assert(prior@ + ngram_keys(ts, n as nat) =~= prior@);
        return;
    }
    let windows = tokens.len() - n + 1;
    let mut i: usize = 0;
    assert(prior@ + keys_upto(ts, n as nat, 0) =~= prior@);
    while i < windows
        invariant
            n >= 1,
            i <= windows,
            windows + n - 1 == tokens.len(),
            ts == strs(tokens@),
            prior@.len() + tokens@.len() < 0xffff_ffff,
            pair_views(counts@) == tally(prior@ + keys_upto(ts, n as nat, i as nat)),
        decreases windows - i,
    {
        proof {
            lemma_keys_len(ts, n as nat, i as nat);
        }
        let first = is_stop_word(tokens[i].as_str());
        let last = is_stop_word(tokens[i + n - 1].as_str());
        if !(first || last) {
            let key = join_window(tokens, i, n);
            let ghost s = prior@ + keys_upto(ts, n as nat, i as nat);
            assert(s.push(key@) =~= prior@ + keys_upto(ts, n as nat, (i + 1) as nat));
            count_key(counts, key, Ghost(s));
        } else {
            assert(prior@ + keys_upto(ts, n as nat, i as nat) =~= prior@ + keys_upto(ts, n as nat, (i + 1) as nat));
        }
        i = i + 1;
    }
}

/// Counts the `n`-gram phrases of `tokens` (windows of `n` tokens joined by
/// spaces, skipping those that start or end with a stop word); each
/// distinct phrase in order of first appearance with its count.
pub fn count_ngrams(tokens: &Vec<String>, n: usize) -> (r: Vec<(String, u32)>)
    requires
        n >= 1,
        tokens@.len() < 0xffff_ffff,
    ensures
        pair_views(r@) == tally(ngram_keys(strs(tokens@), n as nat)),
{
    let mut counts: Vec<(String, u32)> = Vec::new();
    assert(pair_views(counts@) =~= tally(Seq::<Seq<char>>::empty()));
    add_ngrams(&mut counts, tokens, n, Ghost(Seq::empty()));
    assert(Seq::<Seq<char>>::empty() + ngram_keys(strs(tokens@), n as nat) =~= ngram_keys(
        strs(tokens@),
        n as nat,
    ));
    counts
}

// ───────────────────────────── candidates ─────────────────────────────

/// All 1-, 2- and 3-gram phrases of a token list.
pub open spec fn all_keys(tokens: Seq<Seq<char>>) -> Seq<Seq<char>> {
    ngram_keys(tokens, 1) + ngram_keys(tokens, 2) + ngram_keys(tokens, 3)
}

/// The entries of a tally seen at least twice, in order.
pub open spec fn frequent(l: Seq<(Seq<char>, nat)>) -> Seq<(Seq<char>, nat)>
    decreases l.len(),
{
    if l.len() == 0 {
        seq![]
    } else {
        let r = frequent(l.drop_last());
        if l.last().1 >= 2 {
            r.push(l.last())
        } else {
            r
        }
    }
}

/// Byte length of a phrase in UTF-8.
pub open spec fn utf8_len(s: Seq<char>) -> nat {
    vstd::utf8::encode_utf8(s).len()
}

/// `q` is a longer phrase that contains `p`.
pub open spec fn penalises(q: Seq<char>, p: Seq<char>) -> bool {
    utf8_len(q) > utf8_len(p) && contains_seq(q, p)
}

/// Sum of the counts of the candidates that penalise `p`.
pub open spec fn penalty_sum(l: Seq<(Seq<char>, nat)>, p: Seq<char>) -> nat
    decreases l.len(),
{
    if l.len() == 0 {
        0
    } else {
        penalty_sum(l.drop_last(), p) + if penalises(l.last().0, p) {
            l.last().1
        } else {
            0
        }
    }
}

/// Number of the candidates that penalise `p`.
pub open spec fn penalty_count(l: Seq<(Seq<char>, nat)>, p: Seq<char>) -> nat
    decreases l.len(),
{
    if l.len() == 0 {
        0
    } else {
        penalty_count(l.drop_last(), p) + if penalises(l.last().0, p) {
            1nat
        } else {
            0
        }
    }
}

/// The C-value `freq - sum / count` (or `freq` without penalty) is positive.
pub open spec fn positive(freq: nat, sum: nat, count: nat) -> bool {
    if count == 0 {
        freq > 0
    } else {
        freq * count > sum
    }
}

/// Statistics of one term candidate.
pub struct TermStat {
    pub term: String,
    /// Occurrences of the phrase.
    pub frequency: u32,
    /// Number of words of the phrase.
    pub words: usize,
    /// Sum of the frequencies of the longer candidates containing it.
    pub penalty_sum: u64,
    /// Number of the longer candidates containing it.
    pub penalty_count: u64,
}

pub struct StatView {
    pub term: Seq<char>,
    pub frequency: nat,
    pub words: nat,
    pub penalty_sum: nat,
    pub penalty_count: nat,
}

pub open spec fn stat_views(v: Seq<TermStat>) -> Seq<StatView> {
    v.map_values(
        |t: TermStat|
            StatView {
                term: t.term@,
                frequency: t.frequency as nat,
                words: t.words as nat,
                penalty_sum: t.penalty_sum as nat,
                penalty_count: t.penalty_count as nat,
            },
    )
}

/// The statistics of the candidates `cands[0..i]` that score above zero.
pub open spec fn stats_upto(cands: Seq<(Seq<char>, nat)>, i: nat) -> Seq<StatView>
    decreases i,
{
    if i == 0 {
        seq![]
    } else {
        let r = stats_upto(cands, (i - 1) as nat);
        let c = cands[i - 1];
        let s = penalty_sum(cands, c.0);
        let k = penalty_count(cands, c.0);
        if positive(c.1, s, k) {
            r.push(
                StatView {
                    term: c.0,
                    frequency: c.1,
                    words: words(c.0).len(),
                    penalty_sum: s,
                    penalty_count: k,
                },
            )
        } else {
            r
        }
    }
}

/// The candidates of a text: its frequent 1- to 3-grams in order of first
/// appearance.
pub open spec fn candidates_of(text: Seq<char>) -> Seq<(Seq<char>, nat)> {
    frequent(tally(all_keys(tokens_of(text))))
}

/// The positive-scoring candidates of a text with their statistics.
pub open spec fn term_stats_of(text: Seq<char>) -> Seq<StatView> {
    let c = candidates_of(text);
    stats_upto(c, c.len())
}

pub proof fn lemma_frequent_total(l: Seq<(Seq<char>, nat)>)
    ensures
        total(frequent(l)) <= total(l),
        frequent(l).len() <= l.len(),
    decreases l.len(),
{
    if l.len() > 0 {
        lemma_frequent_total(l.drop_last());
        let r = frequent(l.drop_last());
        if l.last().1 >= 2 {
            assert(r.push(l.last()).drop_last() =~= r);
        }
    }
}

pub proof fn lemma_penalty_bounds(l: Seq<(Seq<char>, nat)>, p: Seq<char>)
    ensures
        penalty_sum(l, p) <= total(l),
        penalty_count(l, p) <= l.len(),
    decreases l.len(),
{
    if l.len() > 0 {
        lemma_penalty_bounds(l.drop_last(), p);
    }
}

fn frequent_pairs(v: Vec<(String, u32)>) -> (r: Vec<(String, u32)>)
    ensures
        pair_views(r@) == frequent(pair_views(v@)),
{
    let mut out: Vec<(String, u32)> = Vec::new();
    let mut i: usize = 0;
    assert(pair_views(v@).take(0) =~= Seq::<(Seq<char>, nat)>::empty());
    assert(pair_views(out@) =~= Seq::<(Seq<char>, nat)>::empty());
    while i < v.len()
        invariant
            i <= v.len(),
            pair_views(out@) == frequent(pair_views(v@).take(i as int)),
        decreases v.len() - i,
    {
        let ghost before = pair_views(out@);
        assert(pair_views(v@).take(i + 1).drop_last() =~= pair_views(v@).take(i as int));
        assert(pair_views(v@).take(i + 1).last() == pair_views(v@)[i as int]);
        if v[i].1 >= 2 {
            let e = (v[i].0.clone(), v[i].1);
            out.push(e);
            assert(pair_views(out@) =~= before.push(pair_views(v@)[i as int]));
        }
        i = i + 1;
    }
    assert(pair_views(v@).take(v.len() as int) =~= pair_views(v@));
    out
}

/// The penalty of `p` from the candidates `cands`.
fn penalty_of(cands: &Vec<(String, u32)>, p: &String) -> (r: (u64, u64))
    requires
        total(pair_views(cands@)) < 0xffff_ffff,
    ensures
        r.0 as nat == penalty_sum(pair_views(cands@), p@),
        r.1 as nat == penalty_count(pair_views(cands@), p@),
{
    let pc = chars_of(p.as_str());
    let plen = byte_len(&pc);
    let mut sum: u64 = 0;
    let mut count: u64 = 0;
    let mut j: usize = 0;
    let ghost l = pair_views(cands@);
    while j < cands.len()
        invariant
            j <= cands.len(),
            l == pair_views(cands@),
            pc@ == p@,
            plen as nat == utf8_len(p@),
            total(l) < 0xffff_ffff,
            sum as nat == penalty_sum(l.take(j as int), p@),
            count as nat == penalty_count(l.take(j as int), p@),
        decreases cands.len() - j,
    {
        let ghost t = l.take(j + 1);
        assert(t.drop_last() =~= l.take(j as int));
        assert(t.last() == l[j as int]);
        proof {
            lemma_penalty_bounds(l.take(j as int), p@);
            lemma_entry_le_total(l, j as int);
            lemma_take_total(l, j as int);
        }
        let qc = chars_of(cands[j].0.as_str());
        if byte_len(&qc) > plen {
            if contains_chars(&qc, &pc) {
                sum = sum + cands[j].1 as u64;
                count = count + 1;
            }
        }
        j = j + 1;
    }
    assert(l.take(cands.len() as int) =~= l);
    (sum, count)
}

pub proof fn lemma_take_total(l: Seq<(Seq<char>, nat)>, j: int)
    requires
        0 <= j < l.len(),
    ensures
        total(l.take(j)) + l[j].1 <= total(l),
    decreases l.len(),
{
    if j < l.len() - 1 {
        lemma_take_total(l.drop_last(), j);
        assert(l.drop_last().take(j) =~= l.take(j));
    } else {
        assert(l.drop_last() =~= l.take(j));
    }
}

/// The statistics of the positive-scoring term candidates of `text`, in
/// order of first appearance.
pub fn term_stats(text: &str) -> (r: Vec<TermStat>)
    requires
        text@.len() <= 0x1000_0000,
    ensures
        stat_views(r@) == term_stats_of(text@),
{
    let tokens = tokenize(text);
    proof {
        lemma_words_len(text@);
        lemma_tokens_len(words(text@));
    }
    let ghost ts = strs(tokens@);
    let mut counts: Vec<(String, u32)> = Vec::new();
    assert(pair_views(counts@) =~= tally(Seq::<Seq<char>>::empty()));
    add_ngrams(&mut counts, &tokens, 1, Ghost(Seq::empty()));
    let ghost k1 = Seq::<Seq<char>>::empty() + ngram_keys(ts, 1);
    proof {
        lemma_keys_len(ts, 1, window_count(ts.len(), 1));
    }
    add_ngrams(&mut counts, &tokens, 2, Ghost(k1));
    let ghost k2 = k1 + ngram_keys(ts, 2);
    proof {
        lemma_keys_len(ts, 2, window_count(ts.len(), 2));
    }
    add_ngrams(&mut counts, &tokens, 3, Ghost(k2));
    let ghost k3 = k2 + ngram_keys(ts, 3);
    assert(k3 =~= all_keys(ts));
    proof {
        lemma_keys_len(ts, 3, window_count(ts.len(), 3));
        lemma_total_tally(k3);
        lemma_tally_len(k3);
    }
    let cands = frequent_pairs(counts);
    let ghost c = pair_views(cands@);
    proof {
        lemma_frequent_total(tally(k3));
    }
    assert(c == candidates_of(text@));
    let mut out: Vec<TermStat> = Vec::new();
    let mut i: usize = 0;
    assert(stat_views(out@) =~= Seq::<StatView>::empty());
    while i < cands.len()
        invariant
            i <= cands.len(),
            c == pair_views(cands@),
            total(c) < 0xffff_ffff,
            c.len() < 0xffff_ffff,
            stat_views(out@) == stats_upto(c, i as nat),
        decreases cands.len() - i,
    {
        let (sum, count) = penalty_of(&cands, &cands[i].0);
        let freq = cands[i].1;
        proof {
            lemma_entry_le_total(c, i as int);
            lemma_penalty_bounds(c, c[i as int].0);
        }
        let keep = if count == 0 {
            freq > 0
        } else {
            assert((freq as nat) * (count as nat) <= 0xffff_ffff * 0xffff_ffff) by (nonlinear_arith)
                requires
                    freq as nat <= 0xffff_ffff,
                    count as nat <= 0xffff_ffff,
            ;
            (freq as u64) * count > sum
        };
        if keep {
            let cs = chars_of(cands[i].0.as_str());
            let ws = split_whitespace(&cs);
            let ghost before = stat_views(out@);
            let st = TermStat {
                term: cands[i].0.clone(),
                frequency: freq,
                words: ws.len(),
                penalty_sum: sum,
                penalty_count: count,
            };
            out.push(st);
            assert(views(ws@).len() == ws@.len());
            assert(stat_views(out@) =~= before.push(
                StatView {
                    term: c[i as int].0,
                    frequency: c[i as int].1,
                    words: words(c[i as int].0).len(),
                    penalty_sum: sum as nat,
                    penalty_count: count as nat,
                },
            ));
        }
        i = i + 1;
    }
    out
}

proof fn lemma_frequent_counts(l: Seq<(Seq<char>, nat)>)
    ensures
        forall|k: int| 0 <= k < frequent(l).len() ==> (#[trigger] frequent(l)[k]).1 >= 2,
    decreases l.len(),
{
    if l.len() > 0 {
        let r = frequent(l.drop_last());
        lemma_frequent_counts(l.drop_last());
        assert forall|k: int| 0 <= k < frequent(l).len() implies (#[trigger] frequent(l)[k]).1 >= 2 by {
            if l.last().1 >= 2 && k < r.len() {
                assert(frequent(l)[k] == r[k]);
            }
        }
    }
}

proof fn lemma_stats_from(cands: Seq<(Seq<char>, nat)>, i: nat)
    requires
        i <= cands.len(),
        forall|k: int| 0 <= k < cands.len() ==> (#[trigger] cands[k]).1 >= 2,
    ensures
        forall|k: int|
            0 <= k < stats_upto(cands, i).len() ==> (#[trigger] stats_upto(cands, i)[k]).frequency >= 2
                && positive(
                stats_upto(cands, i)[k].frequency,
                stats_upto(cands, i)[k].penalty_sum,
                stats_upto(cands, i)[k].penalty_count,
            ),
    decreases i,
{
    if i > 0 {
        let r = stats_upto(cands, (i - 1) as nat);
        lemma_stats_from(cands, (i - 1) as nat);
        assert(cands[i - 1].1 >= 2);
        assert forall|k: int| 0 <= k < stats_upto(cands, i).len() implies (#[trigger] stats_upto(
            cands,
            i,
        )[k]).frequency >= 2 && positive(
            stats_upto(cands, i)[k].frequency,
            stats_upto(cands, i)[k].penalty_sum,
            stats_upto(cands, i)[k].penalty_count,
        ) by {
            if k < r.len() {
                assert(stats_upto(cands, i)[k] == r[k]);
            }
        }
    }
}

/// Every term candidate occurs at least twice and has a positive C-value:
/// rare phrases and phrases that only occur inside longer candidates are
/// not proposed.
pub proof fn lemma_candidates_frequent(text: Seq<char>)
    ensures
        forall|k: int|
            0 <= k < term_stats_of(text).len() ==> (#[trigger] term_stats_of(text)[k]).frequency >= 2
                && positive(
                term_stats_of(text)[k].frequency,
                term_stats_of(text)[k].penalty_sum,
                term_stats_of(text)[k].penalty_count,
            ),
{
    let c = candidates_of(text);
    lemma_frequent_counts(tally(all_keys(tokens_of(text))));
    lemma_stats_from(c, c.len());
}

} // verus!
