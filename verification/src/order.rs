//! Lexicographic order on character sequences (the order of `String`'s
//! `Ord`, which compares UTF-8 bytes and hence code points) and sorting of
//! string lists by it.

use vstd::prelude::*;
use crate::text::chars_of;

verus! {

/// `a` sorts strictly before `b`, character by character.
pub open spec fn lex_lt(a: Seq<char>, b: Seq<char>) -> bool
    decreases a.len(),
{
    if a.len() == 0 {
        b.len() > 0
    } else if b.len() == 0 {
        false
    } else if (a[0] as u32) < (b[0] as u32) {
        true
    } else if a[0] == b[0] {
        lex_lt(a.drop_first(), b.drop_first())
    } else {
        false
    }
}

pub proof fn lemma_lex_irreflexive(a: Seq<char>)
    ensures
        !lex_lt(a, a),
    decreases a.len(),
{
    if a.len() > 0 {
        lemma_lex_irreflexive(a.drop_first());
    }
}

pub proof fn lemma_lex_asymmetric(a: Seq<char>, b: Seq<char>)
    ensures
        lex_lt(a, b) ==> !lex_lt(b, a),
    decreases a.len(),
{
    if a.len() > 0 && b.len() > 0 && a[0] == b[0] {
        lemma_lex_asymmetric(a.drop_first(), b.drop_first());
    }
}

pub proof fn lemma_lex_total(a: Seq<char>, b: Seq<char>)
    ensures
        a != b ==> lex_lt(a, b) || lex_lt(b, a),
    decreases a.len(),
{
    if a.len() > 0 && b.len() > 0 {
        if a[0] == b[0] {
            lemma_lex_total(a.drop_first(), b.drop_first());
            if a.drop_first() == b.drop_first() {
                assert(a =~= seq![a[0]] + a.drop_first());
                assert(b =~= seq![b[0]] + b.drop_first());
            }
        } else {
            if (a[0] as u32) == (b[0] as u32) {
                vstd::utf8::char_u32_cast(a[0], a[0] as u32);
                vstd::utf8::char_u32_cast(b[0], b[0] as u32);
            }
        }
    } else if a.len() == 0 && b.len() == 0 {
        assert(a =~= b);
    }
}

pub proof fn lemma_lex_transitive(a: Seq<char>, b: Seq<char>, c: Seq<char>)
    requires
        lex_lt(a, b),
        lex_lt(b, c),
    ensures
        lex_lt(a, c),
    decreases a.len(),
{
    if a.len() > 0 && b.len() > 0 && c.len() > 0 {
        if a[0] == b[0] && b[0] == c[0] {
            lemma_lex_transitive(a.drop_first(), b.drop_first(), c.drop_first());
        }
    }
}

/// Every element sorts strictly before every later one.
pub open spec fn strictly_sorted(s: Seq<Seq<char>>) -> bool {
    forall|i: int, j: int| 0 <= i < j < s.len() ==> lex_lt(#[trigger] s[i], #[trigger] s[j])
}

/// The elements of a finite set of strings, in increasing order.
pub open spec fn sorted_list(s: Set<Seq<char>>) -> Seq<Seq<char>> {
    choose|l: Seq<Seq<char>>| strictly_sorted(l) && l.to_set() == s
}

pub proof fn lemma_sorted_first_is_least(s: Seq<Seq<char>>, x: Seq<char>)
    requires
        strictly_sorted(s),
        s.len() > 0,
        s.contains(x),
        x != s[0],
    ensures
        lex_lt(s[0], x),
{
    let k = choose|k: int| 0 <= k < s.len() && s[k] == x;
    assert(k != 0);
}

/// Two strictly sorted lists with the same elements are equal.
pub proof fn lemma_sorted_unique(s: Seq<Seq<char>>, t: Seq<Seq<char>>)
    requires
        strictly_sorted(s),
        strictly_sorted(t),
        s.to_set() == t.to_set(),
    ensures
        s == t,
    decreases s.len(),
{
    if s.len() == 0 {
        if t.len() > 0 {
            assert(t.to_set().contains(t[0]));
            assert(!s.to_set().contains(t[0]));
        }
        assert(s =~= t);
    } else {
        assert(s.to_set().contains(s[0]));
        assert(t.contains(s[0]));
        assert(t.len() > 0);
        assert(t.to_set().contains(t[0]));
        assert(s.contains(t[0]));
        if s[0] != t[0] {
            lemma_sorted_first_is_least(s, t[0]);
            lemma_sorted_first_is_least(t, s[0]);
            lemma_lex_asymmetric(s[0], t[0]);
        }
        let s1 = s.drop_first();
        let t1 = t.drop_first();
        assert forall|x: Seq<char>| s1.to_set().contains(x) implies t1.to_set().contains(x) by {
            let k = choose|k: int| 0 <= k < s1.len() && s1[k] == x;
            assert(s[k + 1] == x);
            assert(lex_lt(s[0], x));
            lemma_lex_irreflexive(x);
            assert(s.contains(x));
            assert(s.to_set().contains(x));
            assert(t.to_set().contains(x));
            assert(t.contains(x));
            let m = choose|m: int| 0 <= m < t.len() && t[m] == x;
            assert(m != 0);
            assert(t1[m - 1] == x);
        }
        assert forall|x: Seq<char>| t1.to_set().contains(x) implies s1.to_set().contains(x) by {
            let k = choose|k: int| 0 <= k < t1.len() && t1[k] == x;
            assert(t[k + 1] == x);
            assert(lex_lt(t[0], x));
            lemma_lex_irreflexive(x);
            assert(t.contains(x));
            assert(t.to_set().contains(x));
            assert(s.to_set().contains(x));
            assert(s.contains(x));
            let m = choose|m: int| 0 <= m < s.len() && s[m] == x;
            assert(m != 0);
            assert(s1[m - 1] == x);
        }
        assert(s1.to_set() =~= t1.to_set());
        lemma_sorted_unique(s1, t1);
        assert(s =~= seq![s[0]] + s1);
        assert(t =~= seq![t[0]] + t1);
    }
}

/// A strictly sorted list is the `sorted_list` of its elements.
pub proof fn lemma_is_sorted_list(l: Seq<Seq<char>>)
    requires
        strictly_sorted(l),
    ensures
        sorted_list(l.to_set()) == l,
{
    let s = l.to_set();
    assert(strictly_sorted(l) && l.to_set() == s);
    let c = sorted_list(s);
    assert(strictly_sorted(c) && c.to_set() == s);
    lemma_sorted_unique(c, l);
}

pub fn lex_less(a: &Vec<char>, b: &Vec<char>) -> (r: bool)
    ensures
        r == lex_lt(a@, b@),
{
    let mut i: usize = 0;
    assert(a@.skip(0) =~= a@);
    assert(b@.skip(0) =~= b@);
    while i < a.len() && i < b.len()
        invariant
            i <= a.len(),
            i <= b.len(),
            lex_lt(a@, b@) == lex_lt(a@.skip(i as int), b@.skip(i as int)),
        decreases a.len() - i,
    {
        let x = a[i];
        let y = b[i];
        assert(a@.skip(i as int)[0] == x);
        assert(b@.skip(i as int)[0] == y);
        if (x as u32) < (y as u32) {
            return true;
        }
        if x != y {
            return false;
        }
        assert(a@.skip(i as int).drop_first() =~= a@.skip(i + 1));
        assert(b@.skip(i as int).drop_first() =~= b@.skip(i + 1));
        i = i + 1;
    }
    i < b.len()
}

/// Sorts strings with pairwise distinct contents into increasing order.
pub fn sort_strings(v: Vec<String>) -> (r: Vec<String>)
    requires
        forall|i: int, j: int| 0 <= i < j < v.len() ==> v@[i]@ != v@[j]@,
    ensures
        strictly_sorted(r@.map_values(|s: String| s@)),
        r@.map_values(|s: String| s@).to_set() == v@.map_values(|s: String| s@).to_set(),
        r@.len() == v@.len(),
{
    let ghost vv = v@.map_values(|s: String| s@);
    let mut out: Vec<String> = Vec::new();
    let mut i: usize = 0;
    while i < v.len()
        invariant
            i <= v.len(),
            vv == v@.map_values(|s: String| s@),
            forall|a: int, b: int| 0 <= a < b < v.len() ==> v@[a]@ != v@[b]@,
            strictly_sorted(out@.map_values(|s: String| s@)),
            out@.map_values(|s: String| s@).to_set() == vv.take(i as int).to_set(),
            out@.len() == i,
        decreases v.len() - i,
    {
        let x = v[i].clone();
        let xc = chars_of(x.as_str());
        let ghost ov = out@.map_values(|s: String| s@);
        // position of the first element greater than x
        let mut p: usize = 0;
        while p < out.len()
            invariant
                p <= out.len(),
                ov == out@.map_values(|s: String| s@),
                xc@ == x@,
                forall|k: int| 0 <= k < p ==> lex_lt(#[trigger] ov[k], x@),
            ensures
                p <= out.len(),
                forall|k: int| 0 <= k < p ==> lex_lt(#[trigger] ov[k], x@),
                p < out.len() ==> !lex_lt(ov[p as int], x@),
            decreases out.len() - p,
        {
            let oc = chars_of(out[p].as_str());
            if !lex_less(&oc, &xc) {
                break;
            }
            p = p + 1;
        }
        proof {
            // x is not yet in out
            assert(vv[i as int] == x@);
            assert(!vv.take(i as int).contains(x@)) by {
                if vv.take(i as int).contains(x@) {
                    let w = vv.take(i as int);
                    let k = choose|k: int| 0 <= k < w.len() && w[k] == x@;
                    assert(v@[k]@ == v@[i as int]@);
                }
            }
            assert(!ov.to_set().contains(x@));
            if p < out.len() {
                assert(!lex_lt(ov[p as int], x@));
                lemma_lex_total(ov[p as int], x@);
                assert(ov.contains(ov[p as int]));
                assert(lex_lt(x@, ov[p as int]));
            }
        }
        out.insert(p, x);
        proof {
            let nv = out@.map_values(|s: String| s@);
            assert(nv =~= ov.insert(p as int, x@));
            assert forall|a: int, b: int| 0 <= a < b < nv.len() implies lex_lt(
                #[trigger] nv[a],
                #[trigger] nv[b],
            ) by {
                if b < p {
                    assert(nv[a] == ov[a] && nv[b] == ov[b]);
                } else if b == p {
                    assert(nv[a] == ov[a]);
                } else if a < p {
                    assert(nv[a] == ov[a] && nv[b] == ov[b - 1]);
                    if p < ov.len() {
                        assert(lex_lt(x@, ov[p as int]));
                        if b - 1 > p {
                            assert(lex_lt(ov[p as int], ov[b - 1]));
                            lemma_lex_transitive(x@, ov[p as int], ov[b - 1]);
                        }
                        lemma_lex_transitive(ov[a], x@, ov[b - 1]);
                    }
                } else if a == p {
                    assert(nv[b] == ov[b - 1]);
                    assert(lex_lt(x@, ov[p as int]));
                    if b - 1 > p {
                        assert(lex_lt(ov[p as int], ov[b - 1]));
                        lemma_lex_transitive(x@, ov[p as int], ov[b - 1]);
                    }
                } else {
                    assert(nv[a] == ov[a - 1] && nv[b] == ov[b - 1]);
                }
            }
            assert(vv.take(i + 1) =~= vv.take(i as int).push(x@));
            assert forall|y: Seq<char>| nv.to_set().contains(y) <==> vv.take(i + 1).to_set().contains(
                y,
            ) by {
                if nv.to_set().contains(y) {
                    let k = choose|k: int| 0 <= k < nv.len() && nv[k] == y;
                    if k < p {
                        assert(ov[k] == y);
                        assert(ov.contains(y));
                        assert(ov.to_set().contains(y));
                        assert(vv.take(i as int).to_set().contains(y));
                    } else if k > p {
                        assert(ov[k - 1] == y);
                        assert(ov.contains(y));
                        assert(ov.to_set().contains(y));
                        assert(vv.take(i as int).to_set().contains(y));
                    } else {
                        assert(vv.take(i + 1)[i as int] == y);
                    }
                    assert(vv.take(i + 1).contains(y) || vv.take(i as int).contains(y));
                    if vv.take(i as int).contains(y) {
                        let w = vv.take(i as int);
                        let m = choose|m: int| 0 <= m < w.len() && w[m] == y;
                        assert(vv.take(i + 1)[m] == y);
                    }
                }
                if vv.take(i + 1).to_set().contains(y) {
                    let w = vv.take(i + 1);
                    let m = choose|m: int| 0 <= m < w.len() && w[m] == y;
                    if m == i {
                        assert(nv[p as int] == y);
                    } else {
                        assert(vv.take(i as int)[m] == y);
                        assert(ov.to_set().contains(y));
                        let k = choose|k: int| 0 <= k < ov.len() && ov[k] == y;
                        if k < p {
                            assert(nv[k] == y);
                        } else {
                            assert(nv[k + 1] == y);
                        }
                    }
                }
            }
            assert(nv.to_set() =~= vv.take(i + 1).to_set());
        }
        i = i + 1;
    }
    assert(vv.take(v.len() as int) =~= vv);
    out
}

} // verus!
