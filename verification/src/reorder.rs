//! Reordering the lines of a receipt log: what verifying it finds does not
//! depend on the order, as long as no two different receipts of the log
//! share a hash.

use vstd::prelude::*;
use crate::findings::{
    jws_record, lemma_log_records_distinct, lemma_scan_reads_log, log_records, read_line, store,
    LineRead, distinct_hashes,
};
use crate::findings::{
    chain_issues, check_records, lemma_check_message_count, lemma_line_counts_permutation,
    lemma_scan_issue_count, lemma_seq_sum_permutation, missing_parents, scan_line, scan_lines, seq_sum,
};
use crate::taint::{hash_index, inherited_tags, lemma_hash_index, taint_finding, Record};

verus! {

/// The record a line that reads as a receipt record gives.
#[verifier::opaque]
pub open spec fn entry_record(l: Seq<char>) -> Record {
    jws_record(read_line(l)->jws)
}

/// Line `l` of a log reads as a receipt record.
#[verifier::opaque]
pub open spec fn is_entry(l: Seq<char>) -> bool {
    read_line(l) is Entry
}

/// Within `lines`, receipt records with the same hash are the same record:
/// no two different receipts of the log share a SHA-256 hash.
pub open spec fn hashes_identify(lines: Seq<Seq<char>>) -> bool {
    forall|i: int, j: int|
        #![trigger entry_record(lines[i]), entry_record(lines[j])]
        0 <= i < lines.len() && 0 <= j < lines.len() && is_entry(lines[i]) && is_entry(lines[j])
            && entry_record(lines[i]).hash == entry_record(lines[j]).hash ==> entry_record(lines[i])
            == entry_record(lines[j])
}

/// `r` is the record of some record line of `lines`.
pub open spec fn from_line(lines: Seq<Seq<char>>, r: Record) -> bool {
    exists|i: int| 0 <= i < lines.len() && is_entry(lines[i]) && #[trigger] entry_record(lines[i]) == r
}

/// Some record of `s` has hash `h`.
pub open spec fn has_hash(s: Seq<Record>, h: Seq<char>) -> bool {
    exists|k: int| 0 <= k < s.len() && #[trigger] s[k].hash == h
}

proof fn lemma_has_hash(s: Seq<Record>, h: Seq<char>)
    ensures
        has_hash(s, h) <==> hash_index(s, h) >= 0,
{
    lemma_hash_index(s, h);
    if hash_index(s, h) >= 0 {
        assert(s[hash_index(s, h)].hash == h);
    }
}

/// Storing `r` keeps every hash, adds `r`, and adds nothing else.
proof fn lemma_store_contents(old: Seq<Record>, r: Record)
    ensures
        forall|k: int| 0 <= k < store(old, r).len() ==> #[trigger] store(old, r)[k] == r || old.contains(
            store(old, r)[k],
        ),
        has_hash(store(old, r), r.hash),
        forall|h: Seq<char>| has_hash(old, h) ==> #[trigger] has_hash(store(old, r), h),
{
    let x = hash_index(old, r.hash);
    lemma_hash_index(old, r.hash);
    let new = store(old, r);
    assert forall|k: int| 0 <= k < new.len() implies #[trigger] new[k] == r || old.contains(new[k]) by {
        if !((x >= 0 && k == x) || (x < 0 && k == old.len())) {
            assert(new[k] == old[k]);
        }
    }
    if x >= 0 {
        assert(new[x].hash == r.hash);
    } else {
        assert(new[old.len() as int].hash == r.hash);
    }
    assert forall|h: Seq<char>| has_hash(old, h) implies #[trigger] has_hash(new, h) by {
        let k = choose|k: int| 0 <= k < old.len() && #[trigger] old[k].hash == h;
        if x >= 0 && k == x {
            assert(new[x].hash == h);
        } else {
            assert(new[k] == old[k]);
        }
    }
}

/// One more line stores its record, if it is a record line.
proof fn lemma_log_step(lines: Seq<Seq<char>>)
    requires
        lines.len() > 0,
    ensures
        is_entry(lines.last()) ==> log_records(lines) == store(
            log_records(lines.drop_last()),
            entry_record(lines.last()),
        ),
        !is_entry(lines.last()) ==> log_records(lines) == log_records(lines.drop_last()),
{
    reveal(is_entry);
    reveal(entry_record);
}

/// Every stored record comes from a record line of the log, and the hash of
/// every record line of the log is stored.
#[verifier::rlimit(100)]
proof fn lemma_log_records_contents(lines: Seq<Seq<char>>)
    ensures
        forall|k: int| 0 <= k < log_records(lines).len() ==> from_line(lines, #[trigger] log_records(lines)[k]),
        forall|i: int|
            0 <= i < lines.len() && is_entry(lines[i]) ==> has_hash(
                log_records(lines),
                #[trigger] entry_record(lines[i]).hash,
            ),
    decreases lines.len(),
{
    if lines.len() > 0 {
        let d = lines.drop_last();
        lemma_log_records_contents(d);
        lemma_log_step(lines);
        let old = log_records(d);
        let new = log_records(lines);
        let last = lines.len() - 1;
        assert forall|r: Record| from_line(d, r) implies #[trigger] from_line(lines, r) by {
            let i = choose|i: int| 0 <= i < d.len() && is_entry(d[i]) && #[trigger] entry_record(d[i]) == r;
            assert(lines[i] == d[i]);
        }
        if is_entry(lines[last]) {
            let rec = entry_record(lines[last]);
            lemma_store_contents(old, rec);
            assert(lines[last] == lines.last());
            assert(from_line(lines, rec));
            assert forall|k: int| 0 <= k < new.len() implies from_line(lines, #[trigger] new[k]) by {
                if new[k] != rec {
                    let w = choose|w: int| 0 <= w < old.len() && old[w] == new[k];
                    assert(from_line(d, old[w]));
                }
            }
            assert forall|i: int| 0 <= i < lines.len() && is_entry(lines[i]) implies has_hash(
                new,
                #[trigger] entry_record(lines[i]).hash,
            ) by {
                if i < last {
                    assert(lines[i] == d[i]);
                    assert(has_hash(old, entry_record(d[i]).hash));
                }
            }
        } else {
            assert(lines[last] == lines.last());
            assert forall|k: int| 0 <= k < new.len() implies from_line(lines, #[trigger] new[k]) by {
                assert(from_line(d, old[k]));
            }
            assert forall|i: int| 0 <= i < lines.len() && is_entry(lines[i]) implies has_hash(
                new,
                #[trigger] entry_record(lines[i]).hash,
            ) by {
                assert(i < last);
                assert(lines[i] == d[i]);
            }
        }
    }
}

/// With no two receipts sharing a hash, the stored records are exactly the
/// records of the log's record lines.
proof fn lemma_log_records_are(lines: Seq<Seq<char>>)
    requires
        hashes_identify(lines),
    ensures
        forall|r: Record| #[trigger] log_records(lines).contains(r) <==> from_line(lines, r),
{
    lemma_log_records_contents(lines);
    let log = log_records(lines);
    assert forall|r: Record| #[trigger] log.contains(r) <==> from_line(lines, r) by {
        if log.contains(r) {
            let k = choose|k: int| 0 <= k < log.len() && log[k] == r;
            assert(from_line(lines, log[k]));
        }
        if from_line(lines, r) {
            let i = choose|i: int| 0 <= i < lines.len() && is_entry(lines[i]) && #[trigger] entry_record(lines[i]) == r;
            assert(has_hash(log, entry_record(lines[i]).hash));
            let k = choose|k: int| 0 <= k < log.len() && #[trigger] log[k].hash == r.hash;
            assert(from_line(lines, log[k]));
            let j = choose|j: int| 0 <= j < lines.len() && is_entry(lines[j]) && #[trigger] entry_record(lines[j]) == log[k];
            assert(entry_record(lines[i]) == entry_record(lines[j]));
        }
    }
}

/// Lines with the same items (as a multiset) have the same record lines,
/// and the same hash collisions.
proof fn lemma_same_lines(a: Seq<Seq<char>>, b: Seq<Seq<char>>)
    requires
        a.to_multiset() == b.to_multiset(),
        hashes_identify(a),
    ensures
        forall|r: Record| #[trigger] from_line(a, r) <==> from_line(b, r),
        hashes_identify(b),
{
    a.to_multiset_ensures();
    b.to_multiset_ensures();
    assert forall|l: Seq<char>| #![trigger a.contains(l)] #![trigger b.contains(l)] a.contains(l) <==> b.contains(l) by {
        assert(a.contains(l) <==> a.to_multiset().count(l) > 0);
        assert(b.contains(l) <==> b.to_multiset().count(l) > 0);
    }
    assert forall|r: Record| #[trigger] from_line(a, r) <==> from_line(b, r) by {
        if from_line(a, r) {
            let i = choose|i: int| 0 <= i < a.len() && is_entry(a[i]) && #[trigger] entry_record(a[i]) == r;
            assert(a.contains(a[i]));
            let j = choose|j: int| 0 <= j < b.len() && b[j] == a[i];
            assert(entry_record(b[j]) == r);
        }
        if from_line(b, r) {
            let i = choose|i: int| 0 <= i < b.len() && is_entry(b[i]) && #[trigger] entry_record(b[i]) == r;
            assert(b.contains(b[i]));
            let j = choose|j: int| 0 <= j < a.len() && a[j] == b[i];
            assert(entry_record(a[j]) == r);
        }
    }
    assert forall|i: int, j: int|
        #![trigger entry_record(b[i]), entry_record(b[j])]
        0 <= i < b.len() && 0 <= j < b.len() && is_entry(b[i]) && is_entry(b[j]) && entry_record(b[i]).hash
            == entry_record(b[j]).hash implies entry_record(b[i]) == entry_record(b[j]) by {
        assert(b.contains(b[i]));
        assert(b.contains(b[j]));
        let x = choose|x: int| 0 <= x < a.len() && a[x] == b[i];
        let y = choose|y: int| 0 <= y < a.len() && a[y] == b[j];
        assert(entry_record(a[x]) == entry_record(b[i]));
        assert(entry_record(a[y]) == entry_record(b[j]));
    }
}

/// Two sequences without repeats and with the same items have the same
/// multiset.
proof fn lemma_same_items_multiset(s1: Seq<Record>, s2: Seq<Record>)
    requires
        s1.no_duplicates(),
        s2.no_duplicates(),
        forall|r: Record| #[trigger] s1.contains(r) <==> s2.contains(r),
    ensures
        s1.to_multiset() == s2.to_multiset(),
{
    broadcast use vstd::multiset::group_multiset_axioms;

    s1.to_multiset_ensures();
    s2.to_multiset_ensures();
    s1.lemma_multiset_has_no_duplicates();
    s2.lemma_multiset_has_no_duplicates();
    assert forall|r: Record| #[trigger] s1.to_multiset().count(r) == s2.to_multiset().count(r) by {
        assert(s1.contains(r) <==> s1.to_multiset().count(r) > 0);
        assert(s2.contains(r) <==> s2.to_multiset().count(r) > 0);
        if s1.contains(r) {
            assert(s1.to_multiset().contains(r));
            assert(s2.to_multiset().contains(r));
        }
    }
    assert(s1.to_multiset() =~= s2.to_multiset());
}

/// Records with distinct hashes do not repeat.
proof fn lemma_distinct_no_duplicates(s: Seq<Record>)
    requires
        distinct_hashes(s),
    ensures
        s.no_duplicates(),
{
    assert forall|i: int, j: int| 0 <= i < s.len() && 0 <= j < s.len() && i != j implies s[i] != s[j] by {
        if i < j {
            assert(s[i].hash != s[j].hash);
        } else {
            assert(s[j].hash != s[i].hash);
        }
    }
}

/// Two stores with distinct hashes and the same records find the same
/// record for every hash.
proof fn lemma_same_lookup(s1: Seq<Record>, s2: Seq<Record>, h: Seq<char>)
    requires
        distinct_hashes(s1),
        distinct_hashes(s2),
        forall|r: Record| #[trigger] s1.contains(r) <==> s2.contains(r),
    ensures
        (hash_index(s1, h) >= 0) == (hash_index(s2, h) >= 0),
        hash_index(s1, h) >= 0 ==> s1[hash_index(s1, h)] == s2[hash_index(s2, h)],
{
    lemma_hash_index(s1, h);
    lemma_hash_index(s2, h);
    if hash_index(s1, h) >= 0 {
        let x = hash_index(s1, h);
        assert(s1.contains(s1[x]));
        assert(s2.contains(s1[x]));
        let w = choose|w: int| 0 <= w < s2.len() && s2[w] == s1[x];
        assert(s2[w].hash == h);
        lemma_has_hash(s2, h);
        let y = hash_index(s2, h);
        if y != w {
            if y < w {
                assert(s2[y].hash != s2[w].hash);
            } else {
                assert(s2[w].hash != s2[y].hash);
            }
        }
    }
    if hash_index(s2, h) >= 0 {
        let y = hash_index(s2, h);
        assert(s2.contains(s2[y]));
        assert(s1.contains(s2[y]));
        let w = choose|w: int| 0 <= w < s1.len() && s1[w] == s2[y];
        assert(s1[w].hash == h);
        lemma_has_hash(s1, h);
    }
}

proof fn lemma_same_missing(s1: Seq<Record>, s2: Seq<Record>, ps: Seq<Seq<char>>)
    requires
        distinct_hashes(s1),
        distinct_hashes(s2),
        forall|r: Record| #[trigger] s1.contains(r) <==> s2.contains(r),
    ensures
        missing_parents(s1, ps) == missing_parents(s2, ps),
        inherited_tags(s1, ps) == inherited_tags(s2, ps),
    decreases ps.len(),
{
    if ps.len() > 0 {
        lemma_same_missing(s1, s2, ps.drop_last());
        lemma_same_lookup(s1, s2, ps.last());
    }
}

/// The parent-link failures of the first `k` stored records, as a sum.
proof fn lemma_check_sums(s: Seq<Record>, k: nat)
    requires
        k <= s.len(),
    ensures
        check_records(s, k).parent_failures == seq_sum(|r: Record| missing_parents(s, r.parents).len(), s.take(k as int)),
        check_records(s, k).taint_failures == seq_sum(
            |r: Record| if taint_finding(s, r) is Some { 1nat } else { 0nat },
            s.take(k as int),
        ),
    decreases k,
{
    if k > 0 {
        lemma_check_sums(s, (k - 1) as nat);
        assert(s.take(k as int).drop_last() =~= s.take(k - 1));
        assert(s.take(k as int).last() == s[k - 1]);
    }
}

proof fn lemma_seq_sum_congruent<A>(f: spec_fn(A) -> nat, g: spec_fn(A) -> nat, s: Seq<A>)
    requires
        forall|i: int| 0 <= i < s.len() ==> f(#[trigger] s[i]) == g(s[i]),
    ensures
        seq_sum(f, s) == seq_sum(g, s),
    decreases s.len(),
{
    if s.len() > 0 {
        let d = s.drop_last();
        assert forall|i: int| 0 <= i < d.len() implies f(#[trigger] d[i]) == g(d[i]) by {
            assert(d[i] == s[i]);
        }
        lemma_seq_sum_congruent(f, g, d);
        assert(f(s[s.len() - 1]) == g(s[s.len() - 1]));
    }
}

/// The checks over two stores with distinct hashes and the same records
/// find as many failed parent links and taint failures.
proof fn lemma_same_checks(s1: Seq<Record>, s2: Seq<Record>)
    requires
        distinct_hashes(s1),
        distinct_hashes(s2),
        forall|r: Record| #[trigger] s1.contains(r) <==> s2.contains(r),
    ensures
        check_records(s1, s1.len()).parent_failures == check_records(s2, s2.len()).parent_failures,
        check_records(s1, s1.len()).taint_failures == check_records(s2, s2.len()).taint_failures,
{
    let p1 = |r: Record| missing_parents(s1, r.parents).len();
    let p2 = |r: Record| missing_parents(s2, r.parents).len();
    let t1 = |r: Record| if taint_finding(s1, r) is Some { 1nat } else { 0nat };
    let t2 = |r: Record| if taint_finding(s2, r) is Some { 1nat } else { 0nat };
    lemma_check_sums(s1, s1.len());
    lemma_check_sums(s2, s2.len());
    assert(s1.take(s1.len() as int) =~= s1);
    assert(s2.take(s2.len() as int) =~= s2);
    assert forall|i: int| 0 <= i < s1.len() implies p1(#[trigger] s1[i]) == p2(s1[i]) && t1(s1[i]) == t2(s1[i]) by {
        lemma_same_missing(s1, s2, s1[i].parents);
    }
    lemma_seq_sum_congruent(p1, p2, s1);
    lemma_seq_sum_congruent(t1, t2, s1);
    lemma_distinct_no_duplicates(s1);
    lemma_distinct_no_duplicates(s2);
    lemma_same_items_multiset(s1, s2);
    lemma_seq_sum_permutation(p2, s1, s2);
    lemma_seq_sum_permutation(t2, s1, s2);
}

/// 1 for a record line that is tampered and whose own hash is `x`, else 0.
pub open spec fn tampered_with(l: Seq<char>, x: Seq<char>) -> nat {
    match read_line(l) {
        LineRead::Entry { jws, stored_hash } => if stored_hash matches Some(h) && h != jws_record(jws).hash
            && jws_record(jws).hash == x {
            1
        } else {
            0
        },
        _ => 0,
    }
}

/// Counts the tampered record lines whose own hash is `x`.
pub open spec fn tampered_counter(x: Seq<char>) -> spec_fn(Seq<char>) -> nat {
    |l: Seq<char>| tampered_with(l, x)
}

proof fn lemma_tampered_count(keys: Seq<(Seq<char>, Seq<u8>)>, lines: Seq<Seq<char>>, x: Seq<char>)
    ensures
        scan_lines(keys, lines).tampered.to_multiset().count(x) == seq_sum(tampered_counter(x), lines),
    decreases lines.len(),
{
    broadcast use vstd::multiset::group_multiset_axioms;

    if lines.len() > 0 {
        let d = lines.drop_last();
        lemma_tampered_count(keys, d, x);
        let prev = scan_lines(keys, d);
        let cur = scan_lines(keys, lines);
        prev.tampered.to_multiset_ensures();
        assert(cur == scan_line(keys, prev, lines.last(), lines.len()));
        let f = tampered_counter(x);
        assert(seq_sum(f, lines) == seq_sum(f, d) + f(lines.last()));
        match read_line(lines.last()) {
            LineRead::Entry { jws, stored_hash } => {
                if stored_hash matches Some(h) && h != jws_record(jws).hash {
                    assert(cur.tampered == prev.tampered.push(jws_record(jws).hash));
                    assert(prev.tampered.push(jws_record(jws).hash).to_multiset() =~= prev.tampered.to_multiset().insert(
                        jws_record(jws).hash,
                    ));
                    assert(f(lines.last()) == if jws_record(jws).hash == x { 1nat } else { 0nat });
                } else {
                    assert(cur.tampered == prev.tampered);
                }
            },
            _ => {
                assert(cur.tampered == prev.tampered);
            },
        }
        assert(cur.tampered.to_multiset().count(x) == prev.tampered.to_multiset().count(x) + f(lines.last()));
    } else {
        let t = scan_lines(keys, lines).tampered;
        t.to_multiset_ensures();
        assert(t.len() == 0);
        vstd::multiset::lemma_multiset_empty_len(t.to_multiset());
    }
}

/// Reordering the lines of a log changes nothing that verifying it counts:
/// the receipts read, the failed signatures, the tampered hashes (as a
/// multiset), the failed parent links, the taint failures, and whether
/// anything was found at all, as long as no two different receipts of the
/// log share a hash.
pub proof fn lemma_verify_order_independent(
    keys: Seq<(Seq<char>, Seq<u8>)>,
    a: Seq<Seq<char>>,
    b: Seq<Seq<char>>,
)
    requires
        a.to_multiset() == b.to_multiset(),
        hashes_identify(a),
    ensures
        scan_lines(keys, a).count == scan_lines(keys, b).count,
        scan_lines(keys, a).signature_failures == scan_lines(keys, b).signature_failures,
        scan_lines(keys, a).tampered.to_multiset() == scan_lines(keys, b).tampered.to_multiset(),
        check_records(scan_lines(keys, a).stored, scan_lines(keys, a).stored.len()).parent_failures
            == check_records(scan_lines(keys, b).stored, scan_lines(keys, b).stored.len()).parent_failures,
        check_records(scan_lines(keys, a).stored, scan_lines(keys, a).stored.len()).taint_failures
            == check_records(scan_lines(keys, b).stored, scan_lines(keys, b).stored.len()).taint_failures,
        (chain_issues(keys, a).len() == 0) == (chain_issues(keys, b).len() == 0),
{
    lemma_line_counts_permutation(keys, a, b);
    assert forall|x: Seq<char>| #[trigger] scan_lines(keys, a).tampered.to_multiset().count(x)
        == scan_lines(keys, b).tampered.to_multiset().count(x) by {
        lemma_tampered_count(keys, a, x);
        lemma_tampered_count(keys, b, x);
        lemma_seq_sum_permutation(tampered_counter(x), a, b);
    }
    assert(scan_lines(keys, a).tampered.to_multiset() =~= scan_lines(keys, b).tampered.to_multiset());
    lemma_scan_reads_log(keys, a);
    lemma_scan_reads_log(keys, b);
    lemma_log_records_distinct(a);
    lemma_log_records_distinct(b);
    lemma_same_lines(a, b);
    lemma_log_records_are(a);
    lemma_log_records_are(b);
    let (s1, s2) = (log_records(a), log_records(b));
    assert forall|r: Record| #[trigger] s1.contains(r) <==> s2.contains(r) by {
        assert(from_line(a, r) <==> from_line(b, r));
    }
    lemma_same_checks(s1, s2);
    lemma_scan_issue_count(keys, a);
    lemma_scan_issue_count(keys, b);
    lemma_check_message_count(s1, s1.len());
    lemma_check_message_count(s2, s2.len());
    scan_lines(keys, a).tampered.to_multiset_ensures();
    scan_lines(keys, b).tampered.to_multiset_ensures();
}

} // verus!
