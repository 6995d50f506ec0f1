//! The order `String` sorts by (code point by code point, a proper prefix
//! first), and sequences kept sorted by a string key: the shape of a
//! `BTreeMap<String, _>` and of a sorted, deduplicated list of strings.
use vstd::prelude::*;
use crate::text::chars_of;

verus! {

/// `a < b` for strings: lexicographic over code points, a proper prefix
/// sorting first. This is the order of `String`'s `Ord` (UTF-8 preserves
/// code point order byte for byte).
pub open spec fn str_lt(a: Seq<char>, b: Seq<char>) -> bool
    decreases a.len(),
{
    if a.len() == 0 {
        b.len() > 0
    } else if b.len() == 0 {
        false
    } else if a[0] != b[0] {
        (a[0] as int) < (b[0] as int)
    } else {
        str_lt(a.drop_first(), b.drop_first())
    }
}

/// No string sorts before itself.
pub proof fn lemma_str_lt_irreflexive(a: Seq<char>)
    ensures
        !str_lt(a, a),
    decreases a.len(),
{
    if a.len() > 0 {
        lemma_str_lt_irreflexive(a.drop_first());
    }
}

/// The string order is transitive.
pub proof fn lemma_str_lt_transitive(a: Seq<char>, b: Seq<char>, c: Seq<char>)
    requires
        str_lt(a, b),
        str_lt(b, c),
    ensures
        str_lt(a, c),
    decreases a.len(),
{
    if a.len() > 0 && b.len() > 0 && c.len() > 0 {
        if a[0] == b[0] && b[0] == c[0] {
            lemma_str_lt_transitive(a.drop_first(), b.drop_first(), c.drop_first());
        }
    }
}

/// Two different strings are ordered one way or the other.
pub proof fn lemma_str_lt_total(a: Seq<char>, b: Seq<char>)
    ensures
        a == b || str_lt(a, b) || str_lt(b, a),
    decreases a.len(),
{
    if a.len() > 0 && b.len() > 0 {
        if a[0] == b[0] {
            lemma_str_lt_total(a.drop_first(), b.drop_first());
            if a.drop_first() == b.drop_first() {
                assert(a =~= seq![a[0]] + a.drop_first());
                assert(b =~= seq![b[0]] + b.drop_first());
            }
        } else {
        }
    } else if a.len() == 0 && b.len() == 0 {
        assert(a =~= b);
    }
}

/// A string that sorts before another does not sort after it.
pub proof fn lemma_str_lt_asymmetric(a: Seq<char>, b: Seq<char>)
    requires
        str_lt(a, b),
    ensures
        !str_lt(b, a),
        a != b,
{
    lemma_str_lt_irreflexive(a);
    if str_lt(b, a) {
        lemma_str_lt_transitive(a, b, a);
    }
}

/// Exec `a < b` on strings.
pub fn str_less(a: &str, b: &str) -> (r: bool)
    ensures
        r == str_lt(a@, b@),
{
    let x = chars_of(a);
    let y = chars_of(b);
    let mut i: usize = 0;
    while i < x.len() && i < y.len()
        invariant
            0 <= i <= x.len(),
            i <= y.len(),
            x@ == a@,
            y@ == b@,
            forall|j: int| 0 <= j < i ==> x@[j] == y@[j],
        decreases x.len() - i,
    {
        if x[i] != y[i] {
            proof {
                lemma_str_lt_skip(x@, y@, i as int);
            }
            return x[i] < y[i];
        }
        i = i + 1;
    }
    proof {
        lemma_str_lt_skip(x@, y@, i as int);
    }
    i == x.len() && i < y.len()
}

/// Skipping a common prefix does not change the order.
proof fn lemma_str_lt_skip(a: Seq<char>, b: Seq<char>, i: int)
    requires
        0 <= i <= a.len(),
        i <= b.len(),
        forall|j: int| 0 <= j < i ==> a[j] == b[j],
    ensures
        str_lt(a, b) == str_lt(a.skip(i), b.skip(i)),
    decreases i,
{
    if i > 0 {
        assert(a.drop_first().skip(i - 1) =~= a.skip(i));
        assert(b.drop_first().skip(i - 1) =~= b.skip(i));
        lemma_str_lt_skip(a.drop_first(), b.drop_first(), i - 1);
    } else {
        assert(a.skip(0) =~= a);
        assert(b.skip(0) =~= b);
    }
}

/// Keys strictly increasing in [`str_lt`] order (so also unique).
pub open spec fn keys_sorted<V>(t: Seq<(Seq<char>, V)>) -> bool {
    forall|i: int, j: int| 0 <= i < j < t.len() ==> str_lt(#[trigger] t[i].0, #[trigger] t[j].0)
}

/// Insert into a sorted keyed sequence: a present key has its value
/// replaced in place, an absent key is placed where the order puts it.
pub open spec fn kinsert<V>(t: Seq<(Seq<char>, V)>, k: Seq<char>, v: V) -> Seq<(Seq<char>, V)>
    decreases t.len(),
{
    if t.len() == 0 {
        seq![(k, v)]
    } else if t[0].0 == k {
        t.update(0, (k, v))
    } else if str_lt(k, t[0].0) {
        seq![(k, v)] + t
    } else {
        seq![t[0]] + kinsert(t.drop_first(), k, v)
    }
}

/// The value under `k`, if any.
pub open spec fn kget<V>(t: Seq<(Seq<char>, V)>, k: Seq<char>) -> Option<V>
    decreases t.len(),
{
    if t.len() == 0 {
        None
    } else if t[0].0 == k {
        Some(t[0].1)
    } else {
        kget(t.drop_first(), k)
    }
}

pub open spec fn kkeys<V>(t: Seq<(Seq<char>, V)>) -> Set<Seq<char>> {
    Set::new(|k: Seq<char>| exists|i: int| 0 <= i < t.len() && t[i].0 == k)
}

/// Where `k` goes in a sorted `t`: the number of keys below it.
pub open spec fn is_insert_point<V>(t: Seq<(Seq<char>, V)>, k: Seq<char>, p: int) -> bool {
    &&& 0 <= p <= t.len()
    &&& forall|j: int| 0 <= j < p ==> str_lt(#[trigger] t[j].0, k)
    &&& p < t.len() ==> !str_lt(t[p].0, k)
}

/// At its insert point, inserting replaces the entry keyed `k` or splices
/// a new entry in.
pub proof fn lemma_kinsert_at<V>(t: Seq<(Seq<char>, V)>, k: Seq<char>, v: V, p: int)
    requires
        keys_sorted(t),
        is_insert_point(t, k, p),
    ensures
        kinsert(t, k, v) == if p < t.len() && t[p].0 == k {
            t.update(p, (k, v))
        } else {
            t.take(p) + seq![(k, v)] + t.skip(p)
        },
    decreases p,
{
    if t.len() == 0 {
        assert(t.take(p) + seq![(k, v)] + t.skip(p) =~= seq![(k, v)]);
    } else if p == 0 {
        if t[0].0 == k {
        } else {
            lemma_str_lt_total(k, t[0].0);
            assert(t.take(0) + seq![(k, v)] + t.skip(0) =~= seq![(k, v)] + t);
        }
    } else {
        assert(str_lt(t[0].0, k));
        lemma_str_lt_asymmetric(t[0].0, k);
        let r = t.drop_first();
        assert forall|i: int, j: int| 0 <= i < j < r.len() implies str_lt(#[trigger] r[i].0, #[trigger] r[j].0) by {
            assert(r[i] == t[i + 1] && r[j] == t[j + 1]);
        }
        assert forall|j: int| 0 <= j < p - 1 implies str_lt(#[trigger] r[j].0, k) by {
            assert(r[j] == t[j + 1]);
        }
        lemma_kinsert_at(r, k, v, p - 1);
        if p < t.len() && t[p].0 == k {
            assert(seq![t[0]] + r.update(p - 1, (k, v)) =~= t.update(p, (k, v)));
        } else {
            assert(seq![t[0]] + (r.take(p - 1) + seq![(k, v)] + r.skip(p - 1)) =~= t.take(p) + seq![(k, v)] + t.skip(p));
        }
    }
}

/// Inserting keeps the keys sorted.
pub proof fn lemma_kinsert_sorted<V>(t: Seq<(Seq<char>, V)>, k: Seq<char>, v: V)
    requires
        keys_sorted(t),
    ensures
        keys_sorted(kinsert(t, k, v)),
    decreases t.len(),
{
    if t.len() > 0 && t[0].0 != k && !str_lt(k, t[0].0) {
        let r = t.drop_first();
        assert forall|i: int, j: int| 0 <= i < j < r.len() implies str_lt(#[trigger] r[i].0, #[trigger] r[j].0) by {
            assert(r[i] == t[i + 1] && r[j] == t[j + 1]);
        }
        lemma_kinsert_sorted(r, k, v);
        lemma_str_lt_total(k, t[0].0);
        let s = kinsert(r, k, v);
        lemma_kinsert_keys(r, k, v);
        let u = seq![t[0]] + s;
        assert forall|i: int, j: int| 0 <= i < j < u.len() implies str_lt(#[trigger] u[i].0, #[trigger] u[j].0) by {
            if i == 0 {
                assert(u[j] == s[j - 1]);
                assert(kkeys(s).contains(s[j - 1].0));
                if s[j - 1].0 != k {
                    assert(kkeys(r).contains(s[j - 1].0));
                    let m = choose|m: int| 0 <= m < r.len() && r[m].0 == s[j - 1].0;
                    assert(r[m] == t[m + 1]);
                }
            } else {
                assert(u[i] == s[i - 1] && u[j] == s[j - 1]);
            }
        }
    } else if t.len() > 0 && t[0].0 != k {
        let u = seq![(k, v)] + t;
        assert forall|i: int, j: int| 0 <= i < j < u.len() implies str_lt(#[trigger] u[i].0, #[trigger] u[j].0) by {
            if i == 0 {
                if j > 1 {
                    lemma_str_lt_transitive(k, t[0].0, t[j - 1].0);
                }
            } else {
                assert(u[i] == t[i - 1] && u[j] == t[j - 1]);
            }
        }
    } else if t.len() > 0 {
        let u = t.update(0, (k, v));
        assert forall|i: int, j: int| 0 <= i < j < u.len() implies str_lt(#[trigger] u[i].0, #[trigger] u[j].0) by {
            assert(u[i].0 == t[i].0 && u[j].0 == t[j].0);
        }
    }
}

/// Inserting adds exactly `k` to the keys.
pub proof fn lemma_kinsert_keys<V>(t: Seq<(Seq<char>, V)>, k: Seq<char>, v: V)
    ensures
        kkeys(kinsert(t, k, v)) == kkeys(t).insert(k),
    decreases t.len(),
{
    let s = kinsert(t, k, v);
    if t.len() == 0 {
        assert(kkeys(s) =~= kkeys(t).insert(k)) by {
            assert(s[0].0 == k);
        }
    } else if t[0].0 == k {
        assert(kkeys(s) =~= kkeys(t).insert(k)) by {
            assert forall|x: Seq<char>| kkeys(t).contains(x) implies kkeys(s).contains(x) by {
                let i = choose|i: int| 0 <= i < t.len() && t[i].0 == x;
                assert(s[i].0 == x);
            }
            assert forall|x: Seq<char>| kkeys(s).contains(x) implies kkeys(t).insert(k).contains(x) by {
                let i = choose|i: int| 0 <= i < s.len() && s[i].0 == x;
                assert(t[i].0 == x);
            }
        }
        assert(kkeys(t).contains(k));
    } else if str_lt(k, t[0].0) {
        assert(kkeys(s) =~= kkeys(t).insert(k)) by {
            assert forall|x: Seq<char>| kkeys(t).contains(x) implies kkeys(s).contains(x) by {
                let i = choose|i: int| 0 <= i < t.len() && t[i].0 == x;
                assert(s[i + 1].0 == x);
            }
            assert forall|x: Seq<char>| kkeys(s).contains(x) implies kkeys(t).insert(k).contains(x) by {
                let i = choose|i: int| 0 <= i < s.len() && s[i].0 == x;
                if i > 0 {
                    assert(t[i - 1].0 == x);
                }
            }
            assert(s[0].0 == k);
        }
    } else {
        let r = t.drop_first();
        lemma_kinsert_keys(r, k, v);
        let q = kinsert(r, k, v);
        assert(kkeys(s) =~= kkeys(t).insert(k)) by {
            assert forall|x: Seq<char>| kkeys(t).contains(x) implies kkeys(s).contains(x) by {
                let i = choose|i: int| 0 <= i < t.len() && t[i].0 == x;
                if i == 0 {
                    assert(s[0].0 == x);
                } else {
                    assert(r[i - 1].0 == x);
                    assert(kkeys(r).contains(x));
                    assert(kkeys(q).contains(x));
                    let m = choose|m: int| 0 <= m < q.len() && q[m].0 == x;
                    assert(s[m + 1].0 == x);
                }
            }
            assert forall|x: Seq<char>| kkeys(s).contains(x) implies kkeys(t).insert(k).contains(x) by {
                let i = choose|i: int| 0 <= i < s.len() && s[i].0 == x;
                if i == 0 {
                    assert(t[0].0 == x);
                } else {
                    assert(q[i - 1].0 == x);
                    assert(kkeys(q).contains(x));
                    if x != k {
                        assert(kkeys(r).contains(x));
                        let m = choose|m: int| 0 <= m < r.len() && r[m].0 == x;
                        assert(t[m + 1].0 == x);
                    }
                }
            }
            assert(kkeys(q).contains(k));
            let m = choose|m: int| 0 <= m < q.len() && q[m].0 == k;
            assert(s[m + 1].0 == k);
        }
        assert(kkeys(t).contains(k) <==> kkeys(r).contains(k)) by {
            if kkeys(t).contains(k) {
                let m = choose|m: int| 0 <= m < t.len() && t[m].0 == k;
                assert(m > 0);
                assert(r[m - 1].0 == k);
            }
            if kkeys(r).contains(k) {
                let m = choose|m: int| 0 <= m < r.len() && r[m].0 == k;
                assert(t[m + 1].0 == k);
            }
        }
    }
}

/// Reading back a key after inserting it gives the inserted value; other
/// keys read as before.
pub proof fn lemma_kinsert_get<V>(t: Seq<(Seq<char>, V)>, k: Seq<char>, v: V, q: Seq<char>)
    ensures
        kget(kinsert(t, k, v), q) == if q == k { Some(v) } else { kget(t, q) },
    decreases t.len(),
{
    let s = kinsert(t, k, v);
    if t.len() == 0 {
        assert(s[0] == (k, v));
        assert(s.drop_first() =~= Seq::<(Seq<char>, V)>::empty());
    } else if t[0].0 == k {
        assert(s[0] == (k, v));
        assert(s.drop_first() =~= t.drop_first());
        if q != k {
            assert(kget(t, q) == kget(t.drop_first(), q));
        }
    } else if str_lt(k, t[0].0) {
        assert(s[0] == (k, v));
        assert(s.drop_first() =~= t);
    } else {
        assert(s[0] == t[0]);
        lemma_kinsert_get(t.drop_first(), k, v, q);
        assert(s.drop_first() =~= kinsert(t.drop_first(), k, v));
    }
}

/// The keyed view of a vector of string-keyed entries.
pub open spec fn kview<V>(t: Seq<(String, V)>) -> Seq<(Seq<char>, V)> {
    Seq::new(t.len(), |i: int| (t[i].0@, t[i].1))
}

/// Insert into a vector of entries kept sorted by key.
pub fn sorted_insert<V>(t: &mut Vec<(String, V)>, k: String, v: V)
    requires
        keys_sorted(kview(old(t)@)),
    ensures
        kview(final(t)@) == kinsert(kview(old(t)@), k@, v),
        keys_sorted(kview(final(t)@)),
{
    let ghost m = kview(t@);
    let mut p: usize = 0;
    while p < t.len() && str_less(t[p].0.as_str(), k.as_str())
        invariant
            0 <= p <= t.len(),
            t@ == old(t)@,
            m == kview(t@),
            forall|j: int| 0 <= j < p ==> str_lt(#[trigger] m[j].0, k@),
        decreases t.len() - p,
    {
        p = p + 1;
    }
    proof {
        assert(is_insert_point(m, k@, p as int));
        lemma_kinsert_at(m, k@, v, p as int);
        lemma_kinsert_sorted(m, k@, v);
    }
    if p < t.len() && t[p].0 == k {
        t.set(p, (k, v));
        assert(kview(t@) =~= m.update(p as int, (k@, v)));
    } else {
        let ghost kk = k@;
        t.insert(p, (k, v));
        assert(kview(t@) =~= m.take(p as int) + seq![(kk, v)] + m.skip(p as int));
    }
}

/// Look a key up in a sorted vector of entries.
pub fn sorted_get<'a, V>(t: &'a Vec<(String, V)>, k: &str) -> (r: Option<&'a V>)
    ensures
        r matches Some(x) ==> kget(kview(t@), k@) == Some(*x),
        r is None ==> kget(kview(t@), k@) is None,
{
    let ghost m = kview(t@);
    let mut i: usize = 0;
    assert(m.skip(0) =~= m);
    while i < t.len()
        invariant
            0 <= i <= t.len(),
            m == kview(t@),
            kget(m, k@) == kget(m.skip(i as int), k@),
        decreases t.len() - i,
    {
        assert(m.skip(i as int).drop_first() =~= m.skip(i + 1));
        if t[i].0.as_str().to_owned() == k.to_owned() {
            return Some(&t[i].1);
        }
        i = i + 1;
    }
    None
}

} // verus!
