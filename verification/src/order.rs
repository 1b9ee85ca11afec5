//! Ordering of strings by character codes, and a stable ordering of a list
//! of names.
use vstd::prelude::*;
use crate::text::{chars_of, string_views};

verus! {

/// `a` comes before `b`: at the first position where they differ `a` has
/// the smaller character, or `a` is a proper prefix of `b`. (For UTF-8
/// strings this is the order of their bytes, the order of `String`.)
pub open spec fn lex_lt(a: Seq<char>, b: Seq<char>) -> bool
    decreases a.len(),
{
    if a.len() == 0 {
        b.len() > 0
    } else if b.len() == 0 {
        false
    } else if a[0] != b[0] {
        a[0] < b[0]
    } else {
        lex_lt(a.drop_first(), b.drop_first())
    }
}

pub proof fn lemma_lex_irreflexive(a: Seq<char>)
    ensures
        !lex_lt(a, a),
    decreases a.len(),
{
    if a.len() > 0 {
        lemma_lex_irreflexive(a.drop_first());
    }
}

pub proof fn lemma_lex_asymmetric(a: Seq<char>, b: Seq<char>)
    ensures
        !(lex_lt(a, b) && lex_lt(b, a)),
    decreases a.len(),
{
    if a.len() > 0 && b.len() > 0 && a[0] == b[0] {
        lemma_lex_asymmetric(a.drop_first(), b.drop_first());
    }
}

pub proof fn lemma_lex_total(a: Seq<char>, b: Seq<char>)
    ensures
        a != b ==> lex_lt(a, b) || lex_lt(b, a),
    decreases a.len(),
{
    if a.len() > 0 && b.len() > 0 && a[0] == b[0] {
        lemma_lex_total(a.drop_first(), b.drop_first());
        if a.drop_first() == b.drop_first() {
            assert forall|k: int| 0 <= k < a.len() implies a[k] == b[k] by {
                if k > 0 {
                    assert(a[k] == a.drop_first()[k - 1]);
                    assert(b[k] == b.drop_first()[k - 1]);
                }
            }
            assert(a =~= b);
        }
    } else if a.len() == 0 && b.len() == 0 {
        assert(a =~= b);
    } else if a.len() > 0 && b.len() > 0 {
    }
}

pub proof fn lemma_lex_transitive(a: Seq<char>, b: Seq<char>, c: Seq<char>)
    requires
        lex_lt(a, b),
        lex_lt(b, c),
    ensures
        lex_lt(a, c),
    decreases a.len(),
{
    if a.len() > 0 && b.len() > 0 && c.len() > 0 && a[0] == b[0] && b[0] == c[0] {
        lemma_lex_transitive(a.drop_first(), b.drop_first(), c.drop_first());
    }
}

/// `a` comes before `b` or equals it.
pub open spec fn lex_le(a: Seq<char>, b: Seq<char>) -> bool {
    !lex_lt(b, a)
}

pub proof fn lemma_lex_le_transitive(a: Seq<char>, b: Seq<char>, c: Seq<char>)
    requires
        lex_le(a, b),
        lex_le(b, c),
    ensures
        lex_le(a, c),
{
    if lex_lt(c, a) {
        lemma_lex_total(a, b);
        lemma_lex_total(b, c);
        if a == b {
        } else if lex_lt(a, b) {
            lemma_lex_transitive(c, a, b);
        } else {
        }
    }
}

/// Whether `a` comes before `b`.
pub fn str_lt(a: &str, b: &str) -> (r: bool)
    ensures
        r == lex_lt(a@, b@),
{
    let av = chars_of(a);
    let bv = chars_of(b);
    let mut i: usize = 0;
    assert(a@.skip(0) =~= a@);
    assert(b@.skip(0) =~= b@);
    while i < av.len() && i < bv.len() && av[i] == bv[i]
        invariant
            i <= av@.len(),
            i <= bv@.len(),
            av@ == a@,
            bv@ == b@,
            lex_lt(a@, b@) == lex_lt(a@.skip(i as int), b@.skip(i as int)),
        decreases av.len() - i,
    {
        proof {
            assert(a@.skip(i as int).drop_first() =~= a@.skip(i + 1));
            assert(b@.skip(i as int).drop_first() =~= b@.skip(i + 1));
        }
        i += 1;
    }
    if i == av.len() {
        i < bv.len()
    } else if i == bv.len() {
        false
    } else {
        proof {
            assert(a@.skip(i as int)[0] == av@[i as int]);
            assert(b@.skip(i as int)[0] == bv@[i as int]);
        }
        av[i] < bv[i]
    }
}

/// `perm` lists the positions of `names` so that the names come in order;
/// positions of equal names keep their relative order.
pub open spec fn is_stable_order(names: Seq<Seq<char>>, perm: Seq<usize>) -> bool {
    &&& perm.len() == names.len()
    &&& forall|k: int| 0 <= k < perm.len() ==> #[trigger] perm[k] < names.len()
    &&& forall|k: int, l: int| 0 <= k < l < perm.len() ==> perm[k] != perm[l]
    &&& forall|k: int, l: int|
        0 <= k < l < perm.len() ==> lex_le(names[perm[k] as int], names[perm[l] as int])
    &&& forall|k: int, l: int|
        0 <= k < l < perm.len() && names[perm[k] as int] == names[perm[l] as int] ==> perm[k]
            < perm[l]
}

/// The stable order of a list of names (an insertion sort of positions).
pub fn order_by_name(names: &Vec<String>) -> (perm: Vec<usize>)
    ensures
        is_stable_order(string_views(names@), perm@),
{
    let ghost nv = string_views(names@);
    let mut perm: Vec<usize> = Vec::new();
    let mut i: usize = 0;
    while i < names.len()
        invariant
            nv == string_views(names@),
            i <= names@.len(),
            is_stable_order(nv.take(i as int), perm@),
        decreases names.len() - i,
    {
        let ghost p0 = perm@;
        let ghost ni = nv[i as int];
        let mut j: usize = perm.len();
        while j > 0 && str_lt(names[i].as_str(), names[perm[j - 1]].as_str())
            invariant
                nv == string_views(names@),
                i < names@.len(),
                perm@ == p0,
                ni == nv[i as int],
                p0.len() == i,
                is_stable_order(nv.take(i as int), p0),
                j <= p0.len(),
                forall|l: int| j <= l < p0.len() ==> lex_lt(ni, #[trigger] nv[p0[l] as int]),
            decreases j,
        {
            proof {
                assert(nv.take(i as int)[p0[j - 1] as int] == nv[p0[j - 1] as int]);
            }
            j -= 1;
        }
        proof {
            if j > 0 {
                assert(!lex_lt(ni, nv[p0[j - 1] as int]));
            }
        }
        perm.insert(j, i);
        proof {
            let p1 = perm@;
            assert(p1 == p0.insert(j as int, i));
            let t1 = nv.take(i + 1);
            let t0 = nv.take(i as int);
            assert forall|k: int| 0 <= k < p0.len() implies #[trigger] t0[p0[k] as int] == nv[p0[k] as int] by {}
            assert forall|k: int| 0 <= k < p1.len() implies #[trigger] p1[k] < t1.len() by {
                if k < j {
                    assert(p1[k] == p0[k]);
                } else if k > j {
                    assert(p1[k] == p0[k - 1]);
                }
            }
            assert forall|k: int, l: int| 0 <= k < l < p1.len() implies p1[k] != p1[l] by {
                if k < j && l < j {
                } else if k < j && l == j {
                    assert(p0[k] < i);
                } else if k < j && l > j {
                    assert(p1[l] == p0[l - 1]);
                } else if k == j {
                    assert(p1[l] == p0[l - 1]);
                    assert(p0[l - 1] < i);
                } else {
                    assert(p1[k] == p0[k - 1]);
                    assert(p1[l] == p0[l - 1]);
                }
            }
            assert forall|k: int, l: int|
                0 <= k < l < p1.len() implies lex_le(t1[p1[k] as int], t1[p1[l] as int]) by {
                let a = p1[k] as int;
                let b = p1[l] as int;
                assert(t1[a] == nv[a]);
                assert(t1[b] == nv[b]);
                if k < j && l < j {
                    assert(t0[p0[k] as int] == nv[p0[k] as int]);
                    assert(t0[p0[l] as int] == nv[p0[l] as int]);
                } else if k < j && l == j {
                    // nv[p0[k]] <= nv[p0[j-1]] <= ni
                    if k < j - 1 {
                        assert(lex_le(t0[p0[k] as int], t0[p0[j - 1] as int]));
                        lemma_lex_le_transitive(nv[p0[k] as int], nv[p0[j - 1] as int], ni);
                    }
                } else if k < j && l > j {
                    assert(p1[l] == p0[l - 1]);
                    assert(t0[p0[k] as int] == nv[p0[k] as int]);
                    assert(t0[p0[l - 1] as int] == nv[p0[l - 1] as int]);
                } else if k == j {
                    assert(p1[l] == p0[l - 1]);
                    assert(lex_lt(ni, nv[p0[l - 1] as int]));
                    lemma_lex_asymmetric(ni, nv[p0[l - 1] as int]);
                } else {
                    assert(p1[k] == p0[k - 1]);
                    assert(p1[l] == p0[l - 1]);
                    assert(t0[p0[k - 1] as int] == nv[p0[k - 1] as int]);
                    assert(t0[p0[l - 1] as int] == nv[p0[l - 1] as int]);
                }
            }
            assert forall|k: int, l: int|
                0 <= k < l < p1.len() && t1[p1[k] as int] == t1[p1[l] as int] implies p1[k] < p1[l] by {
                let a = p1[k] as int;
                let b = p1[l] as int;
                assert(t1[a] == nv[a]);
                assert(t1[b] == nv[b]);
                if k < j && l < j {
                    assert(t0[p0[k] as int] == nv[p0[k] as int]);
                    assert(t0[p0[l] as int] == nv[p0[l] as int]);
                } else if k < j && l == j {
                    assert(p0[k] < i);
                } else if k < j && l > j {
                    assert(p1[l] == p0[l - 1]);
                    assert(t0[p0[k] as int] == nv[p0[k] as int]);
                    assert(t0[p0[l - 1] as int] == nv[p0[l - 1] as int]);
                } else if k == j {
                    assert(p1[l] == p0[l - 1]);
                    assert(lex_lt(ni, nv[p0[l - 1] as int]));
                    lemma_lex_irreflexive(ni);
                } else {
                    assert(p1[k] == p0[k - 1]);
                    assert(p1[l] == p0[l - 1]);
                    assert(t0[p0[k - 1] as int] == nv[p0[k - 1] as int]);
                    assert(t0[p0[l - 1] as int] == nv[p0[l - 1] as int]);
                }
            }
        }
        i += 1;
    }
    assert(nv.take(names@.len() as int) =~= nv);
    perm
}

/// The keys of keyed entries.
pub open spec fn entry_keys<T>(entries: Seq<(String, T)>) -> Seq<Seq<char>> {
    Seq::new(entries.len(), |i: int| entries[i].0@)
}

/// Keyed entries in the stable order of their keys: each entry of the result
/// is the input entry that the stable order of the keys puts there.
pub fn order_entries<T>(entries: Vec<(String, T)>) -> (r: Vec<(String, T)>)
    ensures
        exists|perm: Seq<usize>|
            #[trigger] is_stable_order(entry_keys(entries@), perm) && r@.len() == perm.len()
                && forall|k: int| 0 <= k < perm.len() ==> r@[k] == entries@[perm[k] as int],
{
    let ghost ev = entries@;
    let n = entries.len();
    let mut names: Vec<String> = Vec::new();
    let mut i: usize = 0;
    while i < n
        invariant
            n == entries@.len(),
            ev == entries@,
            i <= n,
            string_views(names@) == entry_keys(ev).take(i as int),
        decreases n - i,
    {
        let ghost before = string_views(names@);
        names.push(entries[i].0.clone());
        assert(string_views(names@) =~= before.push(ev[i as int].0@));
        assert(entry_keys(ev).take(i + 1) =~= entry_keys(ev).take(i as int).push(entry_keys(ev)[i as int]));
        i += 1;
    }
    assert(entry_keys(ev).take(n as int) =~= entry_keys(ev));
    let perm = order_by_name(&names);
    // The entries, last first, each in a slot of its own.
    let mut rest = entries;
    let mut slots: Vec<Option<(String, T)>> = Vec::new();
    let mut j: usize = 0;
    while j < n
        invariant
            n == ev.len(),
            j <= n,
            rest@ == ev.take(n - j),
            slots@.len() == j,
            forall|t: int| 0 <= t < j ==> #[trigger] slots@[t] == Some(ev[n - 1 - t]),
        decreases n - j,
    {
        let e = rest.pop();
        match e {
            Some(x) => {
                assert(x == ev[n - 1 - j]);
                slots.push(Some(x));
            },
            None => {
                assert(false);
            },
        }
        assert(ev.take(n - j).drop_last() =~= ev.take(n - j - 1));
        j += 1;
    }
    let ghost pv = perm@;
    let mut out: Vec<(String, T)> = Vec::new();
    let mut k: usize = 0;
    while k < n
        invariant
            n == ev.len(),
            pv == perm@,
            is_stable_order(entry_keys(ev), pv),
            entry_keys(ev).len() == n,
            slots@.len() == n,
            k <= n,
            out@.len() == k,
            forall|t: int| 0 <= t < k ==> out@[t] == ev[pv[t] as int],
            forall|t: int| k <= t < n ==> slots@[n - 1 - pv[t]] == Some(ev[pv[t] as int]),
        decreases n - k,
    {
        let p = perm[k];
        assert(pv[k as int] < n);
        let idx = n - 1 - p;
        let mut taken: Option<(String, T)> = None;
        std::mem::swap(&mut taken, &mut slots[idx]);
        match taken {
            Some(x) => {
                out.push(x);
            },
            None => {
                assert(false);
            },
        }
        assert forall|t: int| k + 1 <= t < n implies slots@[n - 1 - pv[t]] == Some(ev[pv[t] as int]) by {
            assert(pv[t] != pv[k as int]);
        }
        k += 1;
    }
    assert(is_stable_order(entry_keys(ev), pv));
    out
}

} // verus!
