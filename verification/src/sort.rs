//! Stable insertion sorts by the order of Rust strings.

use vstd::prelude::*;
use crate::text::{lemma_str_lt_order, str_less, str_lt};

verus! {

/// Inserts `e` after every element whose key is not above its own.
pub open spec fn insert_by_key<T>(s: Seq<(Seq<char>, T)>, e: (Seq<char>, T)) -> Seq<(Seq<char>, T)>
    decreases s.len(),
{
    if s.len() == 0 {
        seq![e]
    } else if str_lt(e.0, s[0].0) {
        seq![e] + s
    } else {
        seq![s[0]] + insert_by_key(s.drop_first(), e)
    }
}

/// Stable sort of keyed entries by key.
pub open spec fn sort_by_key<T>(s: Seq<(Seq<char>, T)>) -> Seq<(Seq<char>, T)>
    decreases s.len(),
{
    if s.len() == 0 {
        s
    } else {
        insert_by_key(sort_by_key(s.drop_last()), s.last())
    }
}

/// Inserts `e` after every string that is not above it.
pub open spec fn insert_name(s: Seq<Seq<char>>, e: Seq<char>) -> Seq<Seq<char>>
    decreases s.len(),
{
    if s.len() == 0 {
        seq![e]
    } else if str_lt(e, s[0]) {
        seq![e] + s
    } else {
        seq![s[0]] + insert_name(s.drop_first(), e)
    }
}

/// Sort of a list of strings.
pub open spec fn sort_names(s: Seq<Seq<char>>) -> Seq<Seq<char>>
    decreases s.len(),
{
    if s.len() == 0 {
        s
    } else {
        insert_name(sort_names(s.drop_last()), s.last())
    }
}

/// Keys never decrease along `s`.
pub open spec fn sorted_by_key<T>(s: Seq<(Seq<char>, T)>) -> bool {
    forall|i: int, j: int| #![trigger s[i], s[j]] 0 <= i < j < s.len() ==> !str_lt(s[j].0, s[i].0)
}

/// No two entries of `s` have the same key.
pub open spec fn distinct_keys<T>(s: Seq<(Seq<char>, T)>) -> bool {
    forall|i: int, j: int| #![trigger s[i], s[j]] 0 <= i < j < s.len() ==> s[i].0 != s[j].0
}

proof fn lemma_insert_by_key<T>(s: Seq<(Seq<char>, T)>, e: (Seq<char>, T))
    requires
        sorted_by_key(s),
    ensures
        sorted_by_key(insert_by_key(s, e)),
        insert_by_key(s, e).len() == s.len() + 1,
        forall|x: (Seq<char>, T)| #[trigger] insert_by_key(s, e).contains(x) <==> (s.contains(x) || x == e),
        distinct_keys(s) && (forall|i: int| 0 <= i < s.len() ==> #[trigger] s[i].0 != e.0) ==> distinct_keys(
            insert_by_key(s, e),
        ),
    decreases s.len(),
{
    let r = insert_by_key(s, e);
    if s.len() == 0 {
        assert(r =~= seq![e]);
        assert forall|x: (Seq<char>, T)| #[trigger] r.contains(x) <==> (s.contains(x) || x == e) by {
            if x == e {
                assert(r[0] == x);
            }
        }
    } else if str_lt(e.0, s[0].0) {
        assert(r =~= seq![e] + s);
        assert forall|i: int, j: int| #![trigger r[i], r[j]] 0 <= i < j < r.len() implies !str_lt(r[j].0, r[i].0) by {
            if i == 0 {
                lemma_str_lt_order(r[j].0, e.0, s[0].0);
                lemma_str_lt_order(e.0, s[0].0, r[j].0);
                if j > 1 {
                    assert(!str_lt(s[j - 1].0, s[0].0));
                    lemma_str_lt_order(s[j - 1].0, e.0, s[0].0);
                }
            } else {
                assert(r[i] == s[i - 1] && r[j] == s[j - 1]);
            }
        }
        assert forall|x: (Seq<char>, T)| #[trigger] r.contains(x) <==> (s.contains(x) || x == e) by {
            if r.contains(x) {
                let k = choose|k: int| 0 <= k < r.len() && r[k] == x;
                if k > 0 {
                    assert(s[k - 1] == x);
                }
            }
            if s.contains(x) {
                let k = choose|k: int| 0 <= k < s.len() && s[k] == x;
                assert(r[k + 1] == x);
            }
            if x == e {
                assert(r[0] == x);
            }
        }
        if distinct_keys(s) && (forall|i: int| 0 <= i < s.len() ==> #[trigger] s[i].0 != e.0) {
            assert forall|i: int, j: int| #![trigger r[i], r[j]] 0 <= i < j < r.len() implies r[i].0 != r[j].0 by {
                if i == 0 {
                    assert(r[j] == s[j - 1]);
                } else {
                    assert(r[i] == s[i - 1] && r[j] == s[j - 1]);
                }
            }
        }
    } else {
        let t = s.drop_first();
        assert forall|i: int, j: int| #![trigger t[i], t[j]] 0 <= i < j < t.len() implies !str_lt(t[j].0, t[i].0) by {
            assert(t[i] == s[i + 1] && t[j] == s[j + 1]);
        }
        lemma_insert_by_key(t, e);
        let u = insert_by_key(t, e);
        assert(r =~= seq![s[0]] + u);
        assert forall|x: (Seq<char>, T)| #[trigger] u.contains(x) implies !str_lt(x.0, s[0].0) by {
            if t.contains(x) {
                let k = choose|k: int| 0 <= k < t.len() && t[k] == x;
                assert(s[k + 1] == x);
            }
        }
        assert forall|i: int, j: int| #![trigger r[i], r[j]] 0 <= i < j < r.len() implies !str_lt(r[j].0, r[i].0) by {
            if i == 0 {
                assert(r[j] == u[j - 1]);
                assert(u.contains(u[j - 1]));
            } else {
                assert(r[i] == u[i - 1] && r[j] == u[j - 1]);
            }
        }
        assert forall|x: (Seq<char>, T)| #[trigger] r.contains(x) <==> (s.contains(x) || x == e) by {
            if r.contains(x) {
                let k = choose|k: int| 0 <= k < r.len() && r[k] == x;
                if k > 0 {
                    assert(u[k - 1] == x);
                    assert(u.contains(x));
                    if t.contains(x) {
                        let w = choose|w: int| 0 <= w < t.len() && t[w] == x;
                        assert(s[w + 1] == x);
                    }
                } else {
                    assert(s[0] == x);
                }
            }
            if s.contains(x) {
                let k = choose|k: int| 0 <= k < s.len() && s[k] == x;
                if k == 0 {
                    assert(r[0] == x);
                } else {
                    assert(t[k - 1] == x);
                    assert(u.contains(x));
                    let w = choose|w: int| 0 <= w < u.len() && u[w] == x;
                    assert(r[w + 1] == x);
                }
            }
            if x == e {
                assert(u.contains(x));
                let w = choose|w: int| 0 <= w < u.len() && u[w] == x;
                assert(r[w + 1] == x);
            }
        }
        if distinct_keys(s) && (forall|i: int| 0 <= i < s.len() ==> #[trigger] s[i].0 != e.0) {
            assert forall|i: int, j: int| #![trigger t[i], t[j]] 0 <= i < j < t.len() implies t[i].0 != t[j].0 by {
                assert(t[i] == s[i + 1] && t[j] == s[j + 1]);
            }
            assert forall|i: int| 0 <= i < t.len() implies #[trigger] t[i].0 != e.0 by {
                assert(t[i] == s[i + 1]);
            }
            assert forall|x: (Seq<char>, T)| #[trigger] u.contains(x) implies x.0 != s[0].0 by {
                if t.contains(x) {
                    let k = choose|k: int| 0 <= k < t.len() && t[k] == x;
                    assert(s[k + 1] == x);
                }
            }
            assert forall|i: int, j: int| #![trigger r[i], r[j]] 0 <= i < j < r.len() implies r[i].0 != r[j].0 by {
                if i == 0 {
                    assert(r[j] == u[j - 1]);
                    assert(u.contains(u[j - 1]));
                } else {
                    assert(r[i] == u[i - 1] && r[j] == u[j - 1]);
                }
            }
        }
    }
}

/// `sort_by_key` orders by key, keeps every entry, and keeps keys distinct.
pub proof fn lemma_sort_by_key<T>(s: Seq<(Seq<char>, T)>)
    ensures
        sorted_by_key(sort_by_key(s)),
        sort_by_key(s).len() == s.len(),
        forall|x: (Seq<char>, T)| #[trigger] sort_by_key(s).contains(x) <==> s.contains(x),
        distinct_keys(s) ==> distinct_keys(sort_by_key(s)),
    decreases s.len(),
{
    if s.len() > 0 {
        let d = s.drop_last();
        lemma_sort_by_key(d);
        let sd = sort_by_key(d);
        lemma_insert_by_key(sd, s.last());
        assert forall|x: (Seq<char>, T)| #[trigger] s.contains(x) <==> (d.contains(x) || x == s.last()) by {
            if s.contains(x) {
                let k = choose|k: int| 0 <= k < s.len() && s[k] == x;
                if k < s.len() - 1 {
                    assert(d[k] == x);
                }
            }
            if d.contains(x) {
                let k = choose|k: int| 0 <= k < d.len() && d[k] == x;
                assert(s[k] == x);
            }
            if x == s.last() {
                assert(s[s.len() - 1] == x);
            }
        }
        if distinct_keys(s) {
            assert forall|i: int, j: int| #![trigger d[i], d[j]] 0 <= i < j < d.len() implies d[i].0 != d[j].0 by {
                assert(d[i] == s[i] && d[j] == s[j]);
            }
            assert forall|i: int| 0 <= i < sd.len() implies #[trigger] sd[i].0 != s.last().0 by {
                assert(sd.contains(sd[i]));
                assert(d.contains(sd[i]));
                let k = choose|k: int| 0 <= k < d.len() && d[k] == sd[i];
                assert(s[k] == d[k]);
                assert(s[k] == sd[i]);
                assert(s[s.len() - 1] == s.last());
            }
        }
    }
}

/// Two key-sorted sequences with distinct keys and the same entries are
/// equal.
pub proof fn lemma_sorted_unique<T>(a: Seq<(Seq<char>, T)>, b: Seq<(Seq<char>, T)>)
    requires
        sorted_by_key(a),
        sorted_by_key(b),
        distinct_keys(a),
        distinct_keys(b),
        forall|x: (Seq<char>, T)| #![trigger a.contains(x)] #![trigger b.contains(x)] a.contains(x) <==> b.contains(x),
    ensures
        a == b,
    decreases a.len(),
{
    if a.len() == 0 {
        if b.len() > 0 {
            assert(b.contains(b[0]));
        }
        assert(a =~= b);
    } else {
        assert(a.contains(a[0]));
        assert(b.len() > 0);
        let j = choose|j: int| 0 <= j < b.len() && b[j] == a[0];
        assert(b.contains(b[0]));
        let i = choose|i: int| 0 <= i < a.len() && a[i] == b[0];
        if j > 0 {
            assert(!str_lt(b[j].0, b[0].0));
            assert(b[j].0 != b[0].0);
            lemma_str_lt_order(b[0].0, b[j].0, b[0].0);
            if i > 0 {
                assert(!str_lt(a[i].0, a[0].0));
                assert(a[i].0 != a[0].0);
                lemma_str_lt_order(a[0].0, a[i].0, a[0].0);
            }
        }
        assert(a[0] == b[0]);
        let (ta, tb) = (a.drop_first(), b.drop_first());
        assert forall|x: (Seq<char>, T)| #![trigger ta.contains(x)] #![trigger tb.contains(x)] ta.contains(x) <==> tb.contains(x) by {
            if ta.contains(x) {
                let k = choose|k: int| 0 <= k < ta.len() && ta[k] == x;
                assert(a[k + 1] == x);
                assert(a[k + 1].0 != a[0].0);
                assert(b.contains(x));
                let w = choose|w: int| 0 <= w < b.len() && b[w] == x;
                assert(w != 0);
                assert(tb[w - 1] == x);
            }
            if tb.contains(x) {
                let k = choose|k: int| 0 <= k < tb.len() && tb[k] == x;
                assert(b[k + 1] == x);
                assert(b[k + 1].0 != b[0].0);
                assert(a.contains(x));
                let w = choose|w: int| 0 <= w < a.len() && a[w] == x;
                assert(w != 0);
                assert(ta[w - 1] == x);
            }
        }
        assert forall|p: int, q: int| #![trigger ta[p], ta[q]] 0 <= p < q < ta.len() implies !str_lt(ta[q].0, ta[p].0) && ta[p].0 != ta[q].0 by {
            assert(ta[p] == a[p + 1] && ta[q] == a[q + 1]);
        }
        assert forall|p: int, q: int| #![trigger tb[p], tb[q]] 0 <= p < q < tb.len() implies !str_lt(tb[q].0, tb[p].0) && tb[p].0 != tb[q].0 by {
            assert(tb[p] == b[p + 1] && tb[q] == b[q + 1]);
        }
        lemma_sorted_unique(ta, tb);
        assert(a =~= seq![a[0]] + ta);
        assert(b =~= seq![b[0]] + tb);
    }
}

/// Names never decrease along `s`.
pub open spec fn sorted_names(s: Seq<Seq<char>>) -> bool {
    forall|i: int, j: int| #![trigger s[i], s[j]] 0 <= i < j < s.len() ==> !str_lt(s[j], s[i])
}

/// Names strictly increase along `s`: sorted, and each name once.
pub open spec fn strictly_sorted(s: Seq<Seq<char>>) -> bool {
    forall|i: int, j: int| #![trigger s[i], s[j]] 0 <= i < j < s.len() ==> str_lt(s[i], s[j])
}

proof fn lemma_insert_name(s: Seq<Seq<char>>, e: Seq<char>)
    requires
        sorted_names(s),
    ensures
        sorted_names(insert_name(s, e)),
        forall|x: Seq<char>| #[trigger] insert_name(s, e).contains(x) <==> (s.contains(x) || x == e),
    decreases s.len(),
{
    let r = insert_name(s, e);
    if s.len() == 0 {
        assert(r =~= seq![e]);
        assert forall|x: Seq<char>| #[trigger] r.contains(x) <==> (s.contains(x) || x == e) by {
            if x == e {
                assert(r[0] == x);
            }
        }
    } else if str_lt(e, s[0]) {
        assert(r =~= seq![e] + s);
        assert forall|i: int, j: int| #![trigger r[i], r[j]] 0 <= i < j < r.len() implies !str_lt(r[j], r[i]) by {
            if i == 0 {
                lemma_str_lt_order(r[j], e, s[0]);
                lemma_str_lt_order(e, s[0], r[j]);
                if j > 1 {
                    assert(!str_lt(s[j - 1], s[0]));
                    lemma_str_lt_order(s[j - 1], e, s[0]);
                }
            } else {
                assert(r[i] == s[i - 1] && r[j] == s[j - 1]);
            }
        }
        assert forall|x: Seq<char>| #[trigger] r.contains(x) <==> (s.contains(x) || x == e) by {
            if r.contains(x) {
                let k = choose|k: int| 0 <= k < r.len() && r[k] == x;
                if k > 0 {
                    assert(s[k - 1] == x);
                }
            }
            if s.contains(x) {
                let k = choose|k: int| 0 <= k < s.len() && s[k] == x;
                assert(r[k + 1] == x);
            }
            if x == e {
                assert(r[0] == x);
            }
        }
    } else {
        let t = s.drop_first();
        assert forall|i: int, j: int| #![trigger t[i], t[j]] 0 <= i < j < t.len() implies !str_lt(t[j], t[i]) by {
            assert(t[i] == s[i + 1] && t[j] == s[j + 1]);
        }
        lemma_insert_name(t, e);
        let u = insert_name(t, e);
        assert(r =~= seq![s[0]] + u);
        assert forall|x: Seq<char>| #[trigger] u.contains(x) implies !str_lt(x, s[0]) by {
            if t.contains(x) {
                let k = choose|k: int| 0 <= k < t.len() && t[k] == x;
                assert(s[k + 1] == x);
            }
        }
        assert forall|i: int, j: int| #![trigger r[i], r[j]] 0 <= i < j < r.len() implies !str_lt(r[j], r[i]) by {
            if i == 0 {
                assert(r[j] == u[j - 1]);
                assert(u.contains(u[j - 1]));
            } else {
                assert(r[i] == u[i - 1] && r[j] == u[j - 1]);
            }
        }
        assert forall|x: Seq<char>| #[trigger] r.contains(x) <==> (s.contains(x) || x == e) by {
            if r.contains(x) {
                let k = choose|k: int| 0 <= k < r.len() && r[k] == x;
                if k > 0 {
                    assert(u[k - 1] == x);
                    assert(u.contains(x));
                    if t.contains(x) {
                        let w = choose|w: int| 0 <= w < t.len() && t[w] == x;
                        assert(s[w + 1] == x);
                    }
                } else {
                    assert(s[0] == x);
                }
            }
            if s.contains(x) {
                let k = choose|k: int| 0 <= k < s.len() && s[k] == x;
                if k == 0 {
                    assert(r[0] == x);
                } else {
                    assert(t[k - 1] == x);
                    assert(u.contains(x));
                    let w = choose|w: int| 0 <= w < u.len() && u[w] == x;
                    assert(r[w + 1] == x);
                }
            }
            if x == e {
                assert(u.contains(x));
                let w = choose|w: int| 0 <= w < u.len() && u[w] == x;
                assert(r[w + 1] == x);
            }
        }
    }
}

/// `sort_names` orders its names and keeps exactly the names it was given.
pub proof fn lemma_sort_names(s: Seq<Seq<char>>)
    ensures
        sorted_names(sort_names(s)),
        forall|x: Seq<char>| #[trigger] sort_names(s).contains(x) <==> s.contains(x),
    decreases s.len(),
{
    if s.len() > 0 {
        let d = s.drop_last();
        lemma_sort_names(d);
        lemma_insert_name(sort_names(d), s.last());
        assert forall|x: Seq<char>| #[trigger] s.contains(x) <==> (d.contains(x) || x == s.last()) by {
            if s.contains(x) {
                let k = choose|k: int| 0 <= k < s.len() && s[k] == x;
                if k < s.len() - 1 {
                    assert(d[k] == x);
                }
            }
            if d.contains(x) {
                let k = choose|k: int| 0 <= k < d.len() && d[k] == x;
                assert(s[k] == x);
            }
            if x == s.last() {
                assert(s[s.len() - 1] == x);
            }
        }
    }
}

/// `s` without every item that equals the one before it.
pub open spec fn drop_repeats(s: Seq<Seq<char>>) -> Seq<Seq<char>>
    decreases s.len(),
{
    if s.len() == 0 {
        s
    } else {
        let d = drop_repeats(s.drop_last());
        if d.len() > 0 && d.last() == s.last() {
            d
        } else {
            d.push(s.last())
        }
    }
}

/// A list of names as a sorted set: in order, each name once.
pub open spec fn name_set(s: Seq<Seq<char>>) -> Seq<Seq<char>> {
    drop_repeats(sort_names(s))
}

proof fn lemma_drop_repeats(s: Seq<Seq<char>>)
    requires
        sorted_names(s),
    ensures
        strictly_sorted(drop_repeats(s)),
        forall|x: Seq<char>| #[trigger] drop_repeats(s).contains(x) <==> s.contains(x),
        s.len() > 0 ==> drop_repeats(s).len() > 0 && drop_repeats(s).last() == s.last(),
    decreases s.len(),
{
    if s.len() > 0 {
        let d = s.drop_last();
        assert forall|i: int, j: int| #![trigger d[i], d[j]] 0 <= i < j < d.len() implies !str_lt(d[j], d[i]) by {
            assert(d[i] == s[i] && d[j] == s[j]);
        }
        lemma_drop_repeats(d);
        let r = drop_repeats(d);
        let x = s.last();
        assert forall|y: Seq<char>| #[trigger] s.contains(y) <==> (d.contains(y) || y == x) by {
            if s.contains(y) {
                let k = choose|k: int| 0 <= k < s.len() && s[k] == y;
                if k < s.len() - 1 {
                    assert(d[k] == y);
                }
            }
            if d.contains(y) {
                let k = choose|k: int| 0 <= k < d.len() && d[k] == y;
                assert(s[k] == y);
            }
            if y == x {
                assert(s[s.len() - 1] == y);
            }
        }
        if !(r.len() > 0 && r.last() == x) {
            let t = r.push(x);
            assert forall|y: Seq<char>| #[trigger] t.contains(y) <==> (r.contains(y) || y == x) by {
                if t.contains(y) {
                    let k = choose|k: int| 0 <= k < t.len() && t[k] == y;
                    if k < r.len() {
                        assert(r[k] == y);
                    }
                }
                if r.contains(y) {
                    let k = choose|k: int| 0 <= k < r.len() && r[k] == y;
                    assert(t[k] == y);
                }
                if y == x {
                    assert(t[r.len() as int] == y);
                }
            }
            if r.len() > 0 {
                // the last kept name is the last of `d`, which is not above `x`
                assert(!str_lt(x, d.last())) by {
                    assert(s[d.len() - 1] == d.last());
                    assert(s[s.len() - 1] == x);
                }
                lemma_str_lt_order(d.last(), x, x);
                assert(str_lt(r.last(), x));
            }
            assert forall|i: int, j: int| #![trigger t[i], t[j]] 0 <= i < j < t.len() implies str_lt(t[i], t[j]) by {
                if j == r.len() {
                    assert(t[j] == x);
                    assert(t[i] == r[i]);
                    if i < r.len() - 1 {
                        assert(str_lt(r[i], r[r.len() - 1]));
                        lemma_str_lt_order(r[i], r.last(), x);
                    }
                } else {
                    assert(t[i] == r[i] && t[j] == r[j]);
                }
            }
        }
    }
}

/// A name set is strictly increasing and holds exactly the given names.
pub proof fn lemma_name_set(s: Seq<Seq<char>>)
    ensures
        strictly_sorted(name_set(s)),
        forall|x: Seq<char>| #[trigger] name_set(s).contains(x) <==> s.contains(x),
{
    lemma_sort_names(s);
    lemma_drop_repeats(sort_names(s));
}

/// The views of a list of string pairs.
pub open spec fn pairs_view(v: Seq<(String, String)>) -> Seq<(Seq<char>, Seq<char>)> {
    Seq::new(v.len(), |i: int| (v[i].0@, v[i].1@))
}

/// The views of a list of strings.
pub open spec fn names_view(v: Seq<String>) -> Seq<Seq<char>> {
    Seq::new(v.len(), |i: int| v[i]@)
}

proof fn lemma_insert_by_key_at<T>(s: Seq<(Seq<char>, T)>, e: (Seq<char>, T), j: int)
    requires
        0 <= j <= s.len(),
        forall|i: int| 0 <= i < j ==> !str_lt(e.0, #[trigger] s[i].0),
        j < s.len() ==> str_lt(e.0, s[j].0),
    ensures
        insert_by_key(s, e) == s.insert(j, e),
    decreases s.len(),
{
    if s.len() == 0 {
        assert(s.insert(j, e) =~= seq![e]);
    } else if j == 0 {
        assert(s.insert(j, e) =~= seq![e] + s);
    } else {
        let t = s.drop_first();
        assert forall|i: int| 0 <= i < j - 1 implies !str_lt(e.0, #[trigger] t[i].0) by {
            assert(t[i] == s[i + 1]);
        }
        lemma_insert_by_key_at(t, e, j - 1);
        assert(s.insert(j, e) =~= seq![s[0]] + t.insert(j - 1, e));
    }
}

proof fn lemma_insert_name_at(s: Seq<Seq<char>>, e: Seq<char>, j: int)
    requires
        0 <= j <= s.len(),
        forall|i: int| 0 <= i < j ==> !str_lt(e, #[trigger] s[i]),
        j < s.len() ==> str_lt(e, s[j]),
    ensures
        insert_name(s, e) == s.insert(j, e),
    decreases s.len(),
{
    if s.len() == 0 {
        assert(s.insert(j, e) =~= seq![e]);
    } else if j == 0 {
        assert(s.insert(j, e) =~= seq![e] + s);
    } else {
        let t = s.drop_first();
        assert forall|i: int| 0 <= i < j - 1 implies !str_lt(e, #[trigger] t[i]) by {
            assert(t[i] == s[i + 1]);
        }
        lemma_insert_name_at(t, e, j - 1);
        assert(s.insert(j, e) =~= seq![s[0]] + t.insert(j - 1, e));
    }
}

/// Sorts (key, text) pairs by key, keeping equal keys in their given order.
pub fn sort_pairs(v: &Vec<(String, String)>) -> (res: Vec<(String, String)>)
    ensures
        pairs_view(res@) == sort_by_key(pairs_view(v@)),
{
    let mut res: Vec<(String, String)> = Vec::new();
    let n = v.len();
    let mut k: usize = 0;
    while k < n
        invariant
            k <= n,
            n == v@.len(),
            pairs_view(res@) == sort_by_key(pairs_view(v@).take(k as int)),
        decreases n - k,
    {
        let key = v[k].0.clone();
        let text = v[k].1.clone();
        let mut j: usize = 0;
        let m = res.len();
        let mut found = false;
        while j < m && !found
            invariant
                j <= m,
                m == res@.len(),
                forall|i: int| 0 <= i < j ==> !str_lt(key@, #[trigger] res@[i].0@),
                found ==> j < m && str_lt(key@, res@[j as int].0@),
            decreases m - j + if found { 0int } else { 1int },
        {
            if str_less(key.as_str(), res[j].0.as_str()) {
                found = true;
            } else {
                j = j + 1;
            }
        }
        let ghost before = pairs_view(res@);
        let ghost e = (key@, text@);
        proof {
            assert forall|i: int| 0 <= i < j implies !str_lt(e.0, #[trigger] before[i].0) by {
                assert(before[i].0 == res@[i].0@);
            }
            lemma_insert_by_key_at(before, e, j as int);
            assert(pairs_view(v@).take(k + 1).drop_last() =~= pairs_view(v@).take(k as int));
        }
        res.insert(j, (key, text));
        assert(pairs_view(res@) =~= before.insert(j as int, e));
        k = k + 1;
    }
    assert(pairs_view(v@).take(n as int) =~= pairs_view(v@));
    res
}

/// Drops every string equal to the one before it.
pub fn drop_repeated(v: &Vec<String>) -> (res: Vec<String>)
    ensures
        names_view(res@) == drop_repeats(names_view(v@)),
{
    let ghost all = names_view(v@);
    let mut res: Vec<String> = Vec::new();
    let n = v.len();
    let mut i: usize = 0;
    while i < n
        invariant
            i <= n,
            n == v@.len(),
            all == names_view(v@),
            names_view(res@) == drop_repeats(all.take(i as int)),
        decreases n - i,
    {
        assert(all.take(i + 1).drop_last() =~= all.take(i as int));
        assert(all.take(i + 1).last() == v@[i as int]@);
        let k = res.len();
        let repeat = k > 0 && crate::text::str_eq(res[k - 1].as_str(), v[i].as_str());
        if !repeat {
            let ghost before = res@;
            res.push(v[i].clone());
            assert(names_view(res@) =~= names_view(before).push(v@[i as int]@));
        } else {
            assert(names_view(res@).last() == res@[k - 1]@);
        }
        i = i + 1;
    }
    assert(all.take(n as int) =~= all);
    res
}

/// Sorts a list of strings.
pub fn sort_strings(v: &Vec<String>) -> (res: Vec<String>)
    ensures
        names_view(res@) == sort_names(names_view(v@)),
{
    let mut res: Vec<String> = Vec::new();
    let n = v.len();
    let mut k: usize = 0;
    while k < n
        invariant
            k <= n,
            n == v@.len(),
            names_view(res@) == sort_names(names_view(v@).take(k as int)),
        decreases n - k,
    {
        let e = v[k].clone();
        let mut j: usize = 0;
        let m = res.len();
        let mut found = false;
        while j < m && !found
            invariant
                j <= m,
                m == res@.len(),
                forall|i: int| 0 <= i < j ==> !str_lt(e@, #[trigger] res@[i]@),
                found ==> j < m && str_lt(e@, res@[j as int]@),
            decreases m - j + if found { 0int } else { 1int },
        {
            if str_less(e.as_str(), res[j].as_str()) {
                found = true;
            } else {
                j = j + 1;
            }
        }
        let ghost before = names_view(res@);
        proof {
            assert forall|i: int| 0 <= i < j implies !str_lt(e@, #[trigger] before[i]) by {
                assert(before[i] == res@[i]@);
            }
            lemma_insert_name_at(before, e@, j as int);
            assert(names_view(v@).take(k + 1).drop_last() =~= names_view(v@).take(k as int));
        }
        let ghost ev = e@;
        res.insert(j, e);
        assert(names_view(res@) =~= before.insert(j as int, ev));
        k = k + 1;
    }
    assert(names_view(v@).take(n as int) =~= names_view(v@));
    res
}

} // verus!
