//! Ordered sets kept as strictly increasing vectors (rates, card and sink names).
use vstd::prelude::*;

use crate::text::{contains, seq_lt, str_eq, str_lt};

verus! {

/// Strictly increasing integers.
pub open spec fn sorted_u32(s: Seq<u32>) -> bool {
    forall|i: int, j: int| 0 <= i < j < s.len() ==> s[i] < s[j]
}

/// Strictly increasing strings in lexicographic order.
pub open spec fn sorted_strs(s: Seq<Seq<char>>) -> bool {
    forall|i: int, j: int| 0 <= i < j < s.len() ==> seq_lt(s[i], s[j])
}

/// Views of a vector of strings.
pub open spec fn strs_view(v: Seq<String>) -> Seq<Seq<char>> {
    v.map_values(|s: String| s@)
}

/// Lexicographic order on character sequences is irreflexive.
pub proof fn lemma_seq_lt_irrefl(a: Seq<char>)
    ensures
        !seq_lt(a, a),
    decreases a.len(),
{
    if a.len() > 0 {
        lemma_seq_lt_irrefl(a.drop_first());
    }
}

/// Lexicographic order on character sequences is transitive.
pub proof fn lemma_seq_lt_trans(a: Seq<char>, b: Seq<char>, c: Seq<char>)
    requires
        seq_lt(a, b),
        seq_lt(b, c),
    ensures
        seq_lt(a, c),
    decreases a.len(),
{
    if a.len() > 0 && b.len() > 0 && c.len() > 0 && a[0] == b[0] && b[0] == c[0] {
        lemma_seq_lt_trans(a.drop_first(), b.drop_first(), c.drop_first());
    }
}

/// Lexicographic order on character sequences is total.
pub proof fn lemma_seq_lt_total(a: Seq<char>, b: Seq<char>)
    ensures
        a == b || seq_lt(a, b) || seq_lt(b, a),
    decreases a.len(),
{
    if a.len() > 0 && b.len() > 0 && a[0] == b[0] {
        lemma_seq_lt_total(a.drop_first(), b.drop_first());
        if a.drop_first() == b.drop_first() {
            assert(a =~= seq![a[0]] + a.drop_first());
            assert(b =~= seq![b[0]] + b.drop_first());
        }
    } else if a.len() == 0 && b.len() == 0 {
        assert(a =~= b);
    }
}

/// Insert `x` into a strictly increasing vector, keeping it so.
pub fn insert_sorted_u32(v: &mut Vec<u32>, x: u32)
    requires
        sorted_u32(old(v)@),
    ensures
        sorted_u32(final(v)@),
        final(v)@.to_set() == old(v)@.to_set().insert(x),
{
    let mut i: usize = 0;
    while i < v.len() && v[i] < x
        invariant
            i <= v.len(),
            sorted_u32(v@),
            forall|j: int| 0 <= j < i ==> v@[j] < x,
        decreases v.len() - i,
    {
        i += 1;
    }
    if i < v.len() && v[i] == x {
        assert(v@.to_set().insert(x) =~= v@.to_set());
        return;
    }
    let ghost before = v@;
    v.insert(i, x);
    assert(v@ =~= before.insert(i as int, x));
    assert forall|a: u32| v@.to_set().contains(a) <==> before.to_set().insert(x).contains(a) by {
        if v@.to_set().contains(a) {
            let k = choose|k: int| 0 <= k < v@.len() && v@[k] == a;
            if k < i {
                assert(before[k] == a);
            } else if k > i {
                assert(before[k - 1] == a);
            }
        }
        if before.to_set().contains(a) && a != x {
            let k = choose|k: int| 0 <= k < before.len() && before[k] == a;
            if k < i {
                assert(v@[k] == a);
            } else {
                assert(v@[k + 1] == a);
            }
        }
        if a == x {
            assert(v@[i as int] == x);
        }
    }
    assert(v@.to_set() =~= before.to_set().insert(x));
}

/// Insert `x` into a strictly increasing vector of strings, keeping it so.
pub fn insert_sorted_str(v: &mut Vec<String>, x: String)
    requires
        sorted_strs(strs_view(old(v)@)),
    ensures
        sorted_strs(strs_view(final(v)@)),
        strs_view(final(v)@).to_set() == strs_view(old(v)@).to_set().insert(x@),
{
    let ghost xv = x@;
    let mut i: usize = 0;
    while i < v.len() && str_lt(v[i].as_str(), x.as_str())
        invariant
            i <= v.len(),
            x@ == xv,
            sorted_strs(strs_view(v@)),
            forall|j: int| 0 <= j < i ==> seq_lt(#[trigger] strs_view(v@)[j], xv),
        decreases v.len() - i,
    {
        i += 1;
    }
    let ghost before = strs_view(v@);
    if i < v.len() && str_eq(v[i].as_str(), x.as_str()) {
        assert(before.to_set().insert(xv) =~= before.to_set()) by {
            assert(before[i as int] == xv);
        }
        return;
    }
    proof {
        if i < v.len() {
            lemma_seq_lt_total(before[i as int], xv);
        }
    }
    v.insert(i, x);
    let ghost after = strs_view(v@);
    assert(after =~= before.insert(i as int, xv));
    assert forall|a: int, b: int| 0 <= a < b < after.len() implies seq_lt(after[a], after[b]) by {
        if b == i {
        } else if a == i {
            if b - 1 > i {
                lemma_seq_lt_trans(xv, before[i as int], before[b - 1]);
            }
        } else if a < i && b > i {
            assert(seq_lt(before[a], xv));
            assert(seq_lt(xv, before[i as int]));
            if b - 1 > i {
                assert(seq_lt(before[i as int], before[b - 1]));
                lemma_seq_lt_trans(xv, before[i as int], before[b - 1]);
            }
            lemma_seq_lt_trans(before[a], xv, before[b - 1]);
        }
    }
    assert forall|s: Seq<char>| after.to_set().contains(s) <==> before.to_set().insert(
        xv,
    ).contains(s) by {
        if after.to_set().contains(s) {
            let k = choose|k: int| 0 <= k < after.len() && after[k] == s;
            if k < i {
                assert(before[k] == s);
            } else if k > i {
                assert(before[k - 1] == s);
            }
        }
        if before.to_set().contains(s) && s != xv {
            let k = choose|k: int| 0 <= k < before.len() && before[k] == s;
            if k < i {
                assert(after[k] == s);
            } else {
                assert(after[k + 1] == s);
            }
        }
        if s == xv {
            assert(after[i as int] == xv);
        }
    }
    assert(after.to_set() =~= before.to_set().insert(xv));
}

/// Views of a vector of string pairs.
pub open spec fn pairs_view(v: Seq<(String, String)>) -> Seq<(Seq<char>, Seq<char>)> {
    v.map_values(|p: (String, String)| (p.0@, p.1@))
}

/// First components of the views of a vector of string pairs.
pub open spec fn pair_keys(v: Seq<(String, String)>) -> Seq<Seq<char>> {
    v.map_values(|p: (String, String)| p.0@)
}

/// Insert `(k, d)` into a vector of pairs strictly increasing by key, keeping
/// the pair already there when the key is present.
pub fn insert_sorted_pair(v: &mut Vec<(String, String)>, k: String, d: String)
    requires
        sorted_strs(pair_keys(old(v)@)),
    ensures
        sorted_strs(pair_keys(final(v)@)),
        pair_keys(final(v)@).to_set() == pair_keys(old(v)@).to_set().insert(k@),
        forall|j: int| 0 <= j < final(v)@.len() ==> #[trigger] pairs_view(final(v)@)[j] == (k@, d@)
            || pairs_view(old(v)@).contains(pairs_view(final(v)@)[j]),
{
    let ghost kv = k@;
    let ghost dv = d@;
    let mut i: usize = 0;
    while i < v.len() && str_lt(v[i].0.as_str(), k.as_str())
        invariant
            i <= v.len(),
            k@ == kv,
            sorted_strs(pair_keys(v@)),
            forall|j: int| 0 <= j < i ==> seq_lt(#[trigger] pair_keys(v@)[j], kv),
        decreases v.len() - i,
    {
        i += 1;
    }
    let ghost before = pair_keys(v@);
    let ghost pbefore = pairs_view(v@);
    if i < v.len() && str_eq(v[i].0.as_str(), k.as_str()) {
        assert(before.to_set().insert(kv) =~= before.to_set()) by {
            assert(before[i as int] == kv);
        }
        assert forall|j: int| 0 <= j < v@.len() implies #[trigger] pairs_view(v@)[j] == (kv, dv)
            || pbefore.contains(pairs_view(v@)[j]) by {
            assert(pbefore[j] == pairs_view(v@)[j]);
        }
        return;
    }
    proof {
        if i < v.len() {
            lemma_seq_lt_total(before[i as int], kv);
        }
    }
    v.insert(i, (k, d));
    let ghost after = pair_keys(v@);
    let ghost pafter = pairs_view(v@);
    assert(after =~= before.insert(i as int, kv));
    assert(pafter =~= pbefore.insert(i as int, (kv, dv)));
    assert forall|a: int, b: int| 0 <= a < b < after.len() implies seq_lt(after[a], after[b]) by {
        if b == i {
        } else if a == i {
            if b - 1 > i {
                lemma_seq_lt_trans(kv, before[i as int], before[b - 1]);
            }
        } else if a < i && b > i {
            assert(seq_lt(before[a], kv));
            assert(seq_lt(kv, before[i as int]));
            if b - 1 > i {
                assert(seq_lt(before[i as int], before[b - 1]));
                lemma_seq_lt_trans(kv, before[i as int], before[b - 1]);
            }
            lemma_seq_lt_trans(before[a], kv, before[b - 1]);
        }
    }
    assert forall|s: Seq<char>| after.to_set().contains(s) <==> before.to_set().insert(kv).contains(s) by {
        if after.to_set().contains(s) {
            let q = choose|q: int| 0 <= q < after.len() && after[q] == s;
            if q < i {
                assert(before[q] == s);
            } else if q > i {
                assert(before[q - 1] == s);
            }
        }
        if before.to_set().contains(s) && s != kv {
            let q = choose|q: int| 0 <= q < before.len() && before[q] == s;
            if q < i {
                assert(after[q] == s);
            } else {
                assert(after[q + 1] == s);
            }
        }
        if s == kv {
            assert(after[i as int] == kv);
        }
    }
    assert(after.to_set() =~= before.to_set().insert(kv));
    assert forall|j: int| 0 <= j < v@.len() implies #[trigger] pairs_view(v@)[j] == (kv, dv)
        || pbefore.contains(pairs_view(v@)[j]) by {
        if j < i {
            assert(pafter[j] == pbefore[j]);
        } else if j > i {
            assert(pafter[j] == pbefore[j - 1]);
        }
    }
}

/// Whether `x` is in a vector of integers.
pub fn contains_u32(v: &[u32], x: u32) -> (r: bool)
    ensures
        r == v@.contains(x),
{
    let mut i: usize = 0;
    while i < v.len()
        invariant
            i <= v.len(),
            forall|j: int| 0 <= j < i ==> v@[j] != x,
        decreases v.len() - i,
    {
        if v[i] == x {
            return true;
        }
        i += 1;
    }
    false
}

/// Whether a vector of strings holds `x`.
pub fn contains_str(v: &[String], x: &str) -> (r: bool)
    ensures
        r == strs_view(v@).contains(x@),
{
    let mut i: usize = 0;
    while i < v.len()
        invariant
            i <= v.len(),
            forall|j: int| 0 <= j < i ==> v@[j]@ != x@,
        decreases v.len() - i,
    {
        if str_eq(v[i].as_str(), x) {
            assert(strs_view(v@)[i as int] == x@);
            return true;
        }
        i += 1;
    }
    assert forall|j: int| 0 <= j < strs_view(v@).len() implies strs_view(v@)[j] != x@ by {
        assert(v@[j]@ != x@);
    }
    false
}

/// Number of `true` entries.
pub open spec fn count_true(s: Seq<bool>) -> nat
    decreases s.len(),
{
    if s.len() == 0 {
        0
    } else {
        count_true(s.drop_last()) + if s.last() {
            1nat
        } else {
            0nat
        }
    }
}

/// How many of the runs reported (in order) succeeded: what a pass that
/// moves streams or cuts links answers.
pub fn count_succeeded(outcomes: &Vec<bool>) -> (r: usize)
    ensures
        r == count_true(outcomes@),
{
    let mut n: usize = 0;
    let mut i: usize = 0;
    while i < outcomes.len()
        invariant
            i <= outcomes.len(),
            n == count_true(outcomes@.take(i as int)),
            n <= i,
        decreases outcomes.len() - i,
    {
        assert(outcomes@.take(i + 1).drop_last() =~= outcomes@.take(i as int));
        if outcomes[i] {
            n = n + 1;
        }
        i += 1;
    }
    assert(outcomes@.take(outcomes.len() as int) =~= outcomes@);
    n
}

} // verus!
