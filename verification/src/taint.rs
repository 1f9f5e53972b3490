//! Taint monotonicity: a receipt carries every taint tag of its parents,
//! unless it is a sanitisation step that lists the tags it removed.

use vstd::prelude::*;
use crate::receipt::{opt_text, Operation, Receipt};
use crate::sort::names_view;
use crate::text::{chars_of, debug_quoted, debug_text, push_char, split_char, split_on, str_eq, string_of_chars};

verus! {

/// What chain checks read of a stored receipt.
pub struct Record {
    pub hash: Seq<char>,
    pub operation: Operation,
    pub parents: Seq<Seq<char>>,
    pub taint: Seq<Seq<char>>,
    pub corpus: Seq<char>,
    pub jws: Seq<char>,
}

/// What chain checks read of a receipt.
pub open spec fn record_of(r: Receipt) -> Record {
    Record {
        hash: r.receipt_hash@,
        operation: r.operation,
        parents: names_view(r.parents@),
        taint: names_view(r.taint@),
        corpus: r.corpus@,
        jws: r.jws@,
    }
}

/// What chain checks read of each of a list of receipts.
pub open spec fn records_of(v: Seq<Receipt>) -> Seq<Record> {
    Seq::new(v.len(), |i: int| record_of(v[i]))
}

/// Index of the first stored record with hash `h`, or -1.
pub open spec fn hash_index(stored: Seq<Record>, h: Seq<char>) -> int
    decreases stored.len(),
{
    if stored.len() == 0 {
        -1
    } else {
        let i = hash_index(stored.drop_last(), h);
        if i >= 0 {
            i
        } else if stored.last().hash == h {
            stored.len() - 1
        } else {
            -1
        }
    }
}

/// `hash_index` finds the first record with the hash, or shows there is
/// none.
pub proof fn lemma_hash_index(stored: Seq<Record>, h: Seq<char>)
    ensures
        -1 <= hash_index(stored, h) < stored.len(),
        hash_index(stored, h) >= 0 ==> stored[hash_index(stored, h)].hash == h,
        hash_index(stored, h) >= 0 ==> forall|j: int|
            0 <= j < hash_index(stored, h) ==> #[trigger] stored[j].hash != h,
        hash_index(stored, h) < 0 ==> forall|j: int| 0 <= j < stored.len() ==> #[trigger] stored[j].hash != h,
    decreases stored.len(),
{
    if stored.len() > 0 {
        let d = stored.drop_last();
        lemma_hash_index(d, h);
        assert forall|j: int| 0 <= j < d.len() implies #[trigger] stored[j] == d[j] by {}
    }
}

/// The taint tags of the stored parents named in `parents`, parent by
/// parent, in order (parents not stored contribute nothing).
pub open spec fn inherited_tags(stored: Seq<Record>, parents: Seq<Seq<char>>) -> Seq<Seq<char>>
    decreases parents.len(),
{
    if parents.len() == 0 {
        Seq::empty()
    } else {
        let i = hash_index(stored, parents.last());
        inherited_tags(stored, parents.drop_last()) + if i >= 0 {
            stored[i].taint
        } else {
            Seq::empty()
        }
    }
}

/// The items of `s` without repeats, each at its first occurrence.
pub open spec fn first_occurrences(s: Seq<Seq<char>>) -> Seq<Seq<char>>
    decreases s.len(),
{
    if s.len() == 0 {
        s
    } else {
        let d = first_occurrences(s.drop_last());
        if d.contains(s.last()) {
            d
        } else {
            d.push(s.last())
        }
    }
}

/// The items of `s` that `mine` does not hold, in order.
pub open spec fn absent_from(s: Seq<Seq<char>>, mine: Seq<Seq<char>>) -> Seq<Seq<char>>
    decreases s.len(),
{
    if s.len() == 0 {
        s
    } else {
        let rest = absent_from(s.drop_last(), mine);
        if mine.contains(s.last()) {
            rest
        } else {
            rest.push(s.last())
        }
    }
}

/// Inherited tags missing from `mine`, without repeats, in order of
/// inheritance.
pub open spec fn missing_tags(inherited: Seq<Seq<char>>, mine: Seq<Seq<char>>) -> Seq<Seq<char>> {
    first_occurrences(absent_from(inherited, mine))
}

/// The non-empty items of `s`, in order.
pub open spec fn non_empty(s: Seq<Seq<char>>) -> Seq<Seq<char>>
    decreases s.len(),
{
    if s.len() == 0 {
        s
    } else {
        let rest = non_empty(s.drop_last());
        if s.last().len() > 0 {
            rest.push(s.last())
        } else {
            rest
        }
    }
}

/// The tags a sanitisation step declares removed: the comma-separated,
/// non-empty names after a `removed:` prefix of its corpus.
pub open spec fn removed_tags(corpus: Seq<char>) -> Seq<Seq<char>> {
    if "removed:"@.is_prefix_of(corpus) {
        non_empty(split_on(corpus.skip(8), ','))
    } else {
        Seq::empty()
    }
}

/// `mine` keeps every inherited tag that is not declared removed.
pub open spec fn sanitised_within(
    inherited: Seq<Seq<char>>,
    removed: Seq<Seq<char>>,
    mine: Seq<Seq<char>>,
) -> bool {
    forall|t: Seq<char>| #[trigger] inherited.contains(t) && !removed.contains(t) ==> mine.contains(t)
}

/// `{:?}` of a list of strings: `["a", "b"]`.
pub open spec fn debug_list(s: Seq<Seq<char>>) -> Seq<char>
    decreases s.len(),
{
    if s.len() == 0 {
        "[]"@
    } else {
        seq!['['] + debug_items(s) + seq![']']
    }
}

/// The `{:?}` texts of the items of `s`, comma-separated.
pub open spec fn debug_items(s: Seq<Seq<char>>) -> Seq<char>
    decreases s.len(),
{
    if s.len() == 0 {
        Seq::empty()
    } else if s.len() == 1 {
        debug_text(s[0])
    } else {
        debug_items(s.drop_last()) + ", "@ + debug_text(s.last())
    }
}

/// The taint finding for record `m` among `stored`, as the text of the
/// error it raises, if any.
pub open spec fn taint_finding(stored: Seq<Record>, m: Record) -> Option<Seq<char>> {
    let inherited = inherited_tags(stored, m.parents);
    if m.parents.len() == 0 {
        None
    } else if m.operation == Operation::Sanitisation {
        if sanitised_within(inherited, removed_tags(m.corpus), m.taint) {
            None
        } else {
            Some("receipt "@ + m.hash + ": sanitisation taint mismatch"@)
        }
    } else {
        let missing = missing_tags(inherited, m.taint);
        if missing.len() == 0 {
            None
        } else {
            Some(
                "receipt "@ + m.hash + ": taint not monotonic \u{2014} dropped "@ + debug_list(missing)
                    + " without a sanitisation step"@,
            )
        }
    }
}

proof fn lemma_first_occurrences_empty(s: Seq<Seq<char>>)
    ensures
        first_occurrences(s).len() == 0 <==> s.len() == 0,
    decreases s.len(),
{
    if s.len() > 0 {
        lemma_first_occurrences_empty(s.drop_last());
        let d = first_occurrences(s.drop_last());
        if d.contains(s.last()) {
            assert(d.len() > 0);
        }
    }
}

proof fn lemma_absent_from_empty(s: Seq<Seq<char>>, mine: Seq<Seq<char>>)
    ensures
        absent_from(s, mine).len() == 0 <==> forall|t: Seq<char>| #[trigger] s.contains(t) ==> mine.contains(t),
    decreases s.len(),
{
    if s.len() > 0 {
        let d = s.drop_last();
        lemma_absent_from_empty(d, mine);
        assert forall|t: Seq<char>| #[trigger] s.contains(t) <==> (d.contains(t) || t == s.last()) by {
            if s.contains(t) {
                let k = choose|k: int| 0 <= k < s.len() && s[k] == t;
                if k < s.len() - 1 {
                    assert(d[k] == t);
                }
            }
            if d.contains(t) {
                let k = choose|k: int| 0 <= k < d.len() && d[k] == t;
                assert(s[k] == t);
            }
            if t == s.last() {
                assert(s[s.len() - 1] == t);
            }
        }
        if !mine.contains(s.last()) {
            assert(s.contains(s.last()));
        } else {
            assert(absent_from(s, mine) == absent_from(d, mine));
            if absent_from(s, mine).len() == 0 {
                assert forall|t: Seq<char>| #[trigger] s.contains(t) implies mine.contains(t) by {
                    assert(d.contains(t) ==> mine.contains(t));
                }
            } else {
                let w = choose|t: Seq<char>| #[trigger] d.contains(t) && !mine.contains(t);
                assert(s.contains(w));
            }
        }
    }
}

/// A receipt with parents that is not a sanitisation step passes the taint
/// check exactly when it carries every tag its stored parents carry; a
/// sanitisation step passes exactly when it carries every inherited tag it
/// does not declare removed.
pub proof fn lemma_taint_rule(stored: Seq<Record>, m: Record)
    requires
        m.parents.len() > 0,
    ensures
        m.operation != Operation::Sanitisation ==> (taint_finding(stored, m) is None <==> forall|t: Seq<char>|
            #[trigger] inherited_tags(stored, m.parents).contains(t) ==> m.taint.contains(t)),
        m.operation == Operation::Sanitisation ==> (taint_finding(stored, m) is None <==> forall|t: Seq<char>|
            #[trigger] inherited_tags(stored, m.parents).contains(t) && !removed_tags(m.corpus).contains(t)
                ==> m.taint.contains(t)),
{
    let inh = inherited_tags(stored, m.parents);
    lemma_absent_from_empty(inh, m.taint);
    lemma_first_occurrences_empty(absent_from(inh, m.taint));
}

/// The tags `t` that some stored parent named in `ps` carries.
pub open spec fn parent_carries(stored: Seq<Record>, ps: Seq<Seq<char>>, t: Seq<char>) -> bool {
    exists|p: Seq<char>|
        #![trigger ps.contains(p), hash_index(stored, p)]
        ps.contains(p) && 0 <= hash_index(stored, p) && stored[hash_index(stored, p)].taint.contains(t)
}

/// The inherited tags are the union of the taints of all stored parents.
pub proof fn lemma_inherited_union(stored: Seq<Record>, ps: Seq<Seq<char>>)
    ensures
        forall|t: Seq<char>| #[trigger] inherited_tags(stored, ps).contains(t) <==> parent_carries(stored, ps, t),
    decreases ps.len(),
{
    if ps.len() > 0 {
        let d = ps.drop_last();
        let x = ps.last();
        lemma_inherited_union(stored, d);
        lemma_hash_index(stored, x);
        let i = hash_index(stored, x);
        let rest = inherited_tags(stored, d);
        let add: Seq<Seq<char>> = if i >= 0 {
            stored[i].taint
        } else {
            Seq::empty()
        };
        assert(inherited_tags(stored, ps) == rest + add);
        assert forall|t: Seq<char>| #[trigger] inherited_tags(stored, ps).contains(t) <==> parent_carries(stored, ps, t) by {
            let all = rest + add;
            if all.contains(t) {
                let k = choose|k: int| 0 <= k < all.len() && all[k] == t;
                if k < rest.len() {
                    assert(rest[k] == t);
                    assert(rest.contains(t));
                    assert(parent_carries(stored, d, t));
                    let p = choose|p: Seq<char>|
                        #![trigger d.contains(p), hash_index(stored, p)]
                        d.contains(p) && 0 <= hash_index(stored, p) && stored[hash_index(stored, p)].taint.contains(t);
                    let w = choose|w: int| 0 <= w < d.len() && d[w] == p;
                    assert(ps[w] == p);
                    assert(ps.contains(p));
                } else {
                    assert(add[k - rest.len()] == t);
                    assert(add.contains(t));
                    assert(ps[ps.len() - 1] == x);
                    assert(ps.contains(x));
                }
            }
            if parent_carries(stored, ps, t) {
                let p = choose|p: Seq<char>|
                    #![trigger ps.contains(p), hash_index(stored, p)]
                    ps.contains(p) && 0 <= hash_index(stored, p) && stored[hash_index(stored, p)].taint.contains(t);
                let w = choose|w: int| 0 <= w < ps.len() && ps[w] == p;
                if w < ps.len() - 1 {
                    assert(d[w] == p);
                    assert(d.contains(p));
                    assert(parent_carries(stored, d, t));
                    assert(rest.contains(t));
                    let k = choose|k: int| 0 <= k < rest.len() && rest[k] == t;
                    assert(all[k] == t);
                } else {
                    assert(p == x);
                    let k = choose|k: int| 0 <= k < add.len() && add[k] == t;
                    assert(all[rest.len() + k] == t);
                }
            }
        }
    } else {
        assert forall|t: Seq<char>| #[trigger] inherited_tags(stored, ps).contains(t) <==> parent_carries(stored, ps, t) by {
            if parent_carries(stored, ps, t) {
                let p = choose|p: Seq<char>|
                    #![trigger ps.contains(p), hash_index(stored, p)]
                    ps.contains(p) && 0 <= hash_index(stored, p) && stored[hash_index(stored, p)].taint.contains(t);
                assert(ps.contains(p));
            }
        }
    }
}

/// A receipt with parents that is not a sanitisation step passes the taint
/// check exactly when it carries every tag of every one of its stored
/// parents; a sanitisation step, every such tag it does not declare removed.
pub proof fn lemma_taint_union_rule(stored: Seq<Record>, m: Record)
    requires
        m.parents.len() > 0,
    ensures
        m.operation != Operation::Sanitisation ==> (taint_finding(stored, m) is None <==> forall|p: Seq<char>, t: Seq<char>|
            #![trigger m.parents.contains(p), stored[hash_index(stored, p)].taint.contains(t)]
            m.parents.contains(p) && 0 <= hash_index(stored, p) && stored[hash_index(stored, p)].taint.contains(t)
                ==> m.taint.contains(t)),
        m.operation == Operation::Sanitisation ==> (taint_finding(stored, m) is None <==> forall|p: Seq<char>, t: Seq<char>|
            #![trigger m.parents.contains(p), stored[hash_index(stored, p)].taint.contains(t)]
            m.parents.contains(p) && 0 <= hash_index(stored, p) && stored[hash_index(stored, p)].taint.contains(t)
                && !removed_tags(m.corpus).contains(t) ==> m.taint.contains(t)),
{
    lemma_taint_rule(stored, m);
    lemma_inherited_union(stored, m.parents);
    let inh = inherited_tags(stored, m.parents);
    assert forall|p: Seq<char>, t: Seq<char>|
        #![trigger m.parents.contains(p), stored[hash_index(stored, p)].taint.contains(t)]
        m.parents.contains(p) && 0 <= hash_index(stored, p) && stored[hash_index(stored, p)].taint.contains(t)
            implies inh.contains(t) by {
        assert(parent_carries(stored, m.parents, t));
    }
    assert forall|t: Seq<char>| #[trigger] inh.contains(t) implies exists|p: Seq<char>|
        #![trigger m.parents.contains(p), hash_index(stored, p)]
        m.parents.contains(p) && 0 <= hash_index(stored, p) && stored[hash_index(stored, p)].taint.contains(t) by {
        assert(parent_carries(stored, m.parents, t));
    }
}

/// Whether the strings of `v` include `t`.
pub fn contains_text(v: &Vec<String>, t: &str) -> (res: bool)
    ensures
        res == names_view(v@).contains(t@),
{
    let n = v.len();
    let mut i: usize = 0;
    while i < n
        invariant
            i <= n,
            n == v@.len(),
            forall|j: int| 0 <= j < i ==> #[trigger] v@[j]@ != t@,
        decreases n - i,
    {
        if str_eq(v[i].as_str(), t) {
            assert(names_view(v@)[i as int] == t@);
            return true;
        }
        i = i + 1;
    }
    assert(!names_view(v@).contains(t@)) by {
        if names_view(v@).contains(t@) {
            let k = choose|k: int| 0 <= k < names_view(v@).len() && names_view(v@)[k] == t@;
            assert(v@[k]@ == t@);
        }
    }
    false
}

/// Index of the first stored receipt with hash `h`.
pub fn find_hash(stored: &Vec<Receipt>, h: &str) -> (res: Option<usize>)
    ensures
        match res {
            Some(i) => hash_index(records_of(stored@), h@) == i && i < stored@.len(),
            None => hash_index(records_of(stored@), h@) == -1,
        },
{
    let ghost recs = records_of(stored@);
    proof { lemma_hash_index(recs, h@); }
    let n = stored.len();
    let mut i: usize = 0;
    while i < n
        invariant
            i <= n,
            n == stored@.len(),
            recs == records_of(stored@),
            -1 <= hash_index(recs, h@) < recs.len(),
            hash_index(recs, h@) >= 0 ==> recs[hash_index(recs, h@)].hash == h@,
            hash_index(recs, h@) >= 0 ==> forall|j: int|
                0 <= j < hash_index(recs, h@) ==> #[trigger] recs[j].hash != h@,
            hash_index(recs, h@) < 0 ==> forall|j: int| 0 <= j < recs.len() ==> #[trigger] recs[j].hash != h@,
            forall|j: int| 0 <= j < i ==> #[trigger] recs[j].hash != h@,
        decreases n - i,
    {
        assert(recs[i as int].hash == stored@[i as int].receipt_hash@);
        if str_eq(stored[i].receipt_hash.as_str(), h) {
            return Some(i);
        }
        i = i + 1;
    }
    None
}

pub fn append_copies(out: &mut Vec<String>, v: &Vec<String>)
    ensures
        names_view(final(out)@) == names_view(old(out)@) + names_view(v@),
{
    let n = v.len();
    let mut i: usize = 0;
    while i < n
        invariant
            i <= n,
            n == v@.len(),
            names_view(out@) == names_view(old(out)@) + names_view(v@).take(i as int),
        decreases n - i,
    {
        let ghost prev = out@;
        let c = v[i].clone();
        assert(c@ == v@[i as int]@);
        out.push(c);
        assert(names_view(out@) =~= names_view(prev).push(v@[i as int]@));
        assert(names_view(v@).take(i + 1) =~= names_view(v@).take(i as int).push(v@[i as int]@));
        assert(names_view(out@) =~= names_view(old(out)@) + names_view(v@).take(i + 1));
        i = i + 1;
    }
    assert(names_view(v@).take(n as int) =~= names_view(v@));
}

/// The taint tags `m` inherits from its stored parents.
fn inherited(stored: &Vec<Receipt>, m: &Receipt) -> (res: Vec<String>)
    ensures
        names_view(res@) == inherited_tags(records_of(stored@), names_view(m.parents@)),
{
    let mut res: Vec<String> = Vec::new();
    let ghost parents = names_view(m.parents@);
    let n = m.parents.len();
    let mut k: usize = 0;
    while k < n
        invariant
            k <= n,
            n == m.parents@.len(),
            parents == names_view(m.parents@),
            names_view(res@) == inherited_tags(records_of(stored@), parents.take(k as int)),
        decreases n - k,
    {
        assert(parents.take(k + 1).drop_last() =~= parents.take(k as int));
        assert(parents.take(k + 1).last() == m.parents@[k as int]@);
        match find_hash(stored, m.parents[k].as_str()) {
            Some(i) => {
                assert(records_of(stored@)[i as int].taint == names_view(stored@[i as int].taint@));
                append_copies(&mut res, &stored[i].taint);
            },
            None => {
                assert(names_view(res@) =~= names_view(res@) + Seq::<Seq<char>>::empty());
            },
        }
        k = k + 1;
    }
    assert(parents.take(n as int) =~= parents);
    res
}

/// The tags a sanitisation corpus declares removed.
fn removed_from(corpus: &String) -> (res: Vec<String>)
    ensures
        names_view(res@) == removed_tags(corpus@),
{
    let mut res: Vec<String> = Vec::new();
    let v = chars_of(corpus.as_str());
    let n = v.len();
    proof { reveal_strlit("removed:"); }
    if n < 8 || !(v[0] == 'r' && v[1] == 'e' && v[2] == 'm' && v[3] == 'o' && v[4] == 'v' && v[5] == 'e'
        && v[6] == 'd' && v[7] == ':') {
        assert(!"removed:"@.is_prefix_of(corpus@)) by {
            if "removed:"@.is_prefix_of(corpus@) {
                let head = corpus@.subrange(0, 8);
                assert(head == "removed:"@);
                assert(head[0] == corpus@[0] && head[1] == corpus@[1] && head[2] == corpus@[2]);
                assert(head[3] == corpus@[3] && head[4] == corpus@[4] && head[5] == corpus@[5]);
                assert(head[6] == corpus@[6] && head[7] == corpus@[7]);
            }
        }
        assert(names_view(res@) =~= removed_tags(corpus@));
        return res;
    }
    assert(corpus@.subrange(0, 8) =~= "removed:"@);
    let rest = string_of_chars(&v, 8, n);
    assert(rest@ =~= corpus@.skip(8));
    let pieces = split_char(rest.as_str(), ',');
    let ghost all = names_view(pieces@);
    let m = pieces.len();
    let mut i: usize = 0;
    while i < m
        invariant
            i <= m,
            m == pieces@.len(),
            all == names_view(pieces@),
            names_view(res@) == non_empty(all.take(i as int)),
        decreases m - i,
    {
        assert(all.take(i + 1).drop_last() =~= all.take(i as int));
        assert(all.take(i + 1).last() == pieces@[i as int]@);
        if !pieces[i].as_str().is_empty() {
            let c = pieces[i].clone();
            let ghost prev = res@;
            res.push(c);
            assert(names_view(res@) =~= names_view(prev).push(pieces@[i as int]@));
        }
        i = i + 1;
    }
    assert(all.take(m as int) =~= all);
    res
}

/// Whether `mine` keeps every tag of `inherited` that `removed` does not
/// list.
fn keeps_unremoved(inherited: &Vec<String>, removed: &Vec<String>, mine: &Vec<String>) -> (res: bool)
    ensures
        res == sanitised_within(names_view(inherited@), names_view(removed@), names_view(mine@)),
{
    let ghost inh = names_view(inherited@);
    let ghost rem = names_view(removed@);
    let ghost mn = names_view(mine@);
    let n = inherited.len();
    let mut i: usize = 0;
    while i < n
        invariant
            i <= n,
            n == inherited@.len(),
            inh == names_view(inherited@),
            rem == names_view(removed@),
            mn == names_view(mine@),
            forall|j: int| 0 <= j < i ==> !rem.contains(#[trigger] inh[j]) ==> mn.contains(inh[j]),
        decreases n - i,
    {
        if !contains_text(removed, inherited[i].as_str()) && !contains_text(mine, inherited[i].as_str()) {
            assert(inh[i as int] == inherited@[i as int]@);
            assert(inh.contains(inh[i as int]));
            return false;
        }
        assert(inh[i as int] == inherited@[i as int]@);
        i = i + 1;
    }
    assert forall|t: Seq<char>| #[trigger] inh.contains(t) && !rem.contains(t) implies mn.contains(t) by {
        let a = choose|a: int| 0 <= a < inh.len() && inh[a] == t;
        assert(!rem.contains(inh[a]));
    }
    true
}

/// Inherited tags missing from `mine`, first occurrences only.
fn missing_from(inherited: &Vec<String>, mine: &Vec<String>) -> (res: Vec<String>)
    ensures
        names_view(res@) == missing_tags(names_view(inherited@), names_view(mine@)),
{
    let ghost inh = names_view(inherited@);
    let ghost mn = names_view(mine@);
    let mut res: Vec<String> = Vec::new();
    let n = inherited.len();
    let mut i: usize = 0;
    while i < n
        invariant
            i <= n,
            n == inherited@.len(),
            inh == names_view(inherited@),
            mn == names_view(mine@),
            names_view(res@) == first_occurrences(absent_from(inh.take(i as int), mn)),
        decreases n - i,
    {
        let ghost t = inh.take(i + 1);
        assert(t.drop_last() =~= inh.take(i as int));
        assert(t.last() == inherited@[i as int]@);
        let ghost a = absent_from(t, mn);
        if !contains_text(mine, inherited[i].as_str()) {
            assert(a == absent_from(inh.take(i as int), mn).push(inherited@[i as int]@));
            assert(a.drop_last() =~= absent_from(inh.take(i as int), mn));
            if !contains_text(&res, inherited[i].as_str()) {
                let c = inherited[i].clone();
                let ghost prev = res@;
                res.push(c);
                assert(names_view(res@) =~= names_view(prev).push(inherited@[i as int]@));
            }
        } else {
            assert(a == absent_from(inh.take(i as int), mn));
        }
        i = i + 1;
    }
    assert(inh.take(n as int) =~= inh);
    res
}

/// Appends `{:?}` of a list of strings.
fn push_debug_list(out: &mut String, items: &Vec<String>)
    ensures
        final(out)@ == old(out)@ + debug_list(names_view(items@)),
{
    let ghost all = names_view(items@);
    let n = items.len();
    if n == 0 {
        out.append("[]");
        return;
    }
    push_char(out, '[');
    let ghost start = out@;
    let mut i: usize = 0;
    while i < n
        invariant
            i <= n,
            n == items@.len(),
            n > 0,
            all == names_view(items@),
            out@ == start + debug_items(all.take(i as int)),
        decreases n - i,
    {
        let ghost t = all.take(i + 1);
        assert(t.drop_last() =~= all.take(i as int));
        assert(t.last() == items@[i as int]@);
        if i > 0 {
            out.append(", ");
        }
        let d = debug_quoted(items[i].as_str());
        out.append(d.as_str());
        if i == 0 {
            assert(t =~= seq![items@[0]@]);
        }
        assert(out@ =~= start + debug_items(t));
        i = i + 1;
    }
    push_char(out, ']');
    assert(all.take(n as int) =~= all);
    assert(out@ =~= old(out)@ + debug_list(all));
}

/// The taint finding for `m` among the stored receipts.
pub fn check_taint(stored: &Vec<Receipt>, m: &Receipt) -> (res: Option<String>)
    ensures
        opt_text(res) == taint_finding(records_of(stored@), record_of(*m)),
{
    if m.parents.len() == 0 {
        return None;
    }
    let inherited_list = inherited(stored, m);
    match m.operation {
        Operation::Sanitisation => {
            let removed = removed_from(&m.corpus);
            if keeps_unremoved(&inherited_list, &removed, &m.taint) {
                None
            } else {
                let mut msg = String::from_str("receipt ");
                msg.append(m.receipt_hash.as_str());
                msg.append(": sanitisation taint mismatch");
                assert(msg@ =~= "receipt "@ + m.receipt_hash@ + ": sanitisation taint mismatch"@);
                Some(msg)
            }
        },
        _ => {
            let missing = missing_from(&inherited_list, &m.taint);
            if missing.len() == 0 {
                None
            } else {
                let mut msg = String::from_str("receipt ");
                msg.append(m.receipt_hash.as_str());
                msg.append(": taint not monotonic \u{2014} dropped ");
                push_debug_list(&mut msg, &missing);
                msg.append(" without a sanitisation step");
                assert(msg@ =~= "receipt "@ + m.receipt_hash@ + ": taint not monotonic \u{2014} dropped "@
                    + debug_list(names_view(missing@)) + " without a sanitisation step"@);
                Some(msg)
            }
        },
    }
}

} // verus!
