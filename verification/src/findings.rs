//! What verifying a receipt log finds: how each line reads, what the scan
//! of the lines records, and what the checks over the stored receipts add.

use vstd::prelude::*;
use vstd::utf8::encode_utf8;
use crate::chain::signature_holds;
use crate::hash::prefixed_hash;
use crate::json::{json_parse, str_field, strings_field, text_field};
use crate::receipt::{jws_fault, jws_payload, op_named, ReceiptFault};
use crate::taint::{hash_index, lemma_hash_index, taint_finding, Record};
use crate::text::{debug_text, nat_decimal, trimmed};

verus! {

/// An expected error message: known exactly, or known up to its start
/// where the rest is text of an outside decoder.
pub enum Issue {
    Exact(Seq<char>),
    Prefix(Seq<char>),
}

/// `msg` is the message `i` describes.
pub open spec fn issue_matches(i: Issue, msg: Seq<char>) -> bool {
    match i {
        Issue::Exact(t) => msg == t,
        Issue::Prefix(p) => p.is_prefix_of(msg),
    }
}

/// `i` with `p` put in front of it.
pub open spec fn prefix_issue(p: Seq<char>, i: Issue) -> Issue {
    match i {
        Issue::Exact(t) => Issue::Exact(p + t),
        Issue::Prefix(q) => Issue::Prefix(p + q),
    }
}

/// Putting the same text in front of an issue and of a message it
/// describes keeps the match.
pub proof fn lemma_prefix_issue(p: Seq<char>, i: Issue, msg: Seq<char>)
    requires
        issue_matches(i, msg),
    ensures
        issue_matches(prefix_issue(p, i), p + msg),
{
    if let Issue::Prefix(q) = i {
        assert((p + msg).subrange(0, (p + q).len() as int) =~= p + q);
    }
}

/// The message a receipt error displays, as far as it is known.
pub open spec fn fault_issue(f: ReceiptFault) -> Issue {
    match f {
        ReceiptFault::Malformed(m) => Issue::Exact("malformed receipt: "@ + m),
        ReceiptFault::DecodeBase64 => Issue::Prefix("base64 decode error: "@),
        ReceiptFault::DecodeJson => Issue::Prefix("JSON decode error: "@),
        ReceiptFault::UnknownOperation(op) => Issue::Exact("unknown operation: "@ + debug_text(op)),
        ReceiptFault::Sign(m) => Issue::Exact("sign error: "@ + m),
    }
}

/// `line N: `, the start of every message about line `n`.
pub open spec fn line_label(n: nat) -> Seq<char> {
    "line "@ + nat_decimal(n) + ": "@
}

/// The record a fault-free compact JWS reads as.
pub open spec fn jws_record(jws: Seq<char>) -> Record {
    let j = jws_payload(jws)->Some_0;
    Record {
        hash: prefixed_hash(encode_utf8(jws)),
        operation: op_named(str_field(j, "operation"@)->Some_0)->Some_0,
        parents: strings_field(j, "parents"@),
        taint: strings_field(j, "taint"@),
        corpus: text_field(j, "corpus"@),
        jws,
    }
}

/// The key id a fault-free compact JWS names.
pub open spec fn jws_key_id(jws: Seq<char>) -> Seq<char> {
    text_field(jws_payload(jws)->Some_0, "agent_key_id"@)
}

/// How one line of a receipt log reads.
pub enum LineRead {
    /// Nothing but whitespace.
    Blank,
    /// Not a readable receipt record, with the reason.
    Unreadable(Issue),
    /// A receipt record: its compact JWS and the `receipt_hash` it stores,
    /// if it stores one as a string.
    Entry { jws: Seq<char>, stored_hash: Option<Seq<char>> },
}

/// How the log line `l` reads.
pub open spec fn read_line(l: Seq<char>) -> LineRead {
    let t = trimmed(l);
    if t.len() == 0 {
        LineRead::Blank
    } else {
        match json_parse(encode_utf8(t)) {
            None => LineRead::Unreadable(Issue::Prefix("invalid JSON: "@)),
            Some(doc) => if !(doc is Object) {
                LineRead::Unreadable(Issue::Exact("record is not an object"@))
            } else {
                match str_field(doc, "jws"@) {
                    None => LineRead::Unreadable(Issue::Exact("record has no string 'jws' field"@)),
                    Some(jws) => match jws_fault(jws) {
                        Some(f) => LineRead::Unreadable(
                            prefix_issue("malformed receipt: "@, fault_issue(f)),
                        ),
                        None => LineRead::Entry { jws, stored_hash: str_field(doc, "receipt_hash"@) },
                    },
                }
            },
        }
    }
}

/// How many of `lines` are neither blank nor a readable receipt record.
pub open spec fn unreadable_count(lines: Seq<Seq<char>>) -> nat
    decreases lines.len(),
{
    if lines.len() == 0 {
        0
    } else {
        unreadable_count(lines.drop_last()) + if read_line(lines.last()) is Unreadable {
            1nat
        } else {
            0nat
        }
    }
}

/// Every issue the scan raises is an unreadable line, a tampered record or
/// a failed signature.
pub proof fn lemma_scan_issue_count(keys: Seq<(Seq<char>, Seq<u8>)>, lines: Seq<Seq<char>>)
    ensures
        scan_lines(keys, lines).issues.len() == scan_lines(keys, lines).signature_failures + scan_lines(
            keys,
            lines,
        ).tampered.len() + unreadable_count(lines),
    decreases lines.len(),
{
    if lines.len() > 0 {
        lemma_scan_issue_count(keys, lines.drop_last());
    }
}

/// Every message the record checks raise is a missing parent or a taint
/// finding.
pub proof fn lemma_check_message_count(stored: Seq<Record>, k: nat)
    ensures
        check_records(stored, k).messages.len() == check_records(stored, k).parent_failures + check_records(
            stored,
            k,
        ).taint_failures,
    decreases k,
{
    if k > 0 && k <= stored.len() {
        lemma_check_message_count(stored, (k - 1) as nat);
    }
}

/// The sum of `f` over the items of `s`.
pub open spec fn seq_sum<A>(f: spec_fn(A) -> nat, s: Seq<A>) -> nat
    decreases s.len(),
{
    if s.len() == 0 {
        0
    } else {
        seq_sum(f, s.drop_last()) + f(s.last())
    }
}

proof fn lemma_seq_sum_remove<A>(f: spec_fn(A) -> nat, s: Seq<A>, i: int)
    requires
        0 <= i < s.len(),
    ensures
        seq_sum(f, s) == seq_sum(f, s.remove(i)) + f(s[i]),
    decreases s.len(),
{
    if i == s.len() - 1 {
        assert(s.remove(i) =~= s.drop_last());
    } else {
        assert(s.remove(i).drop_last() =~= s.drop_last().remove(i));
        assert(s.remove(i).last() == s.last());
        lemma_seq_sum_remove(f, s.drop_last(), i);
    }
}

/// A sum over a sequence does not depend on the order of its items.
pub proof fn lemma_seq_sum_permutation<A>(f: spec_fn(A) -> nat, a: Seq<A>, b: Seq<A>)
    requires
        a.to_multiset() == b.to_multiset(),
    ensures
        seq_sum(f, a) == seq_sum(f, b),
    decreases a.len(),
{
    broadcast use vstd::multiset::group_multiset_axioms;

    a.to_multiset_ensures();
    b.to_multiset_ensures();
    if a.len() == 0 {
        assert(b.len() == b.to_multiset().len());
    } else {
        let x = a.last();
        let d = a.drop_last();
        d.to_multiset_ensures();
        assert(d.push(x) =~= a);
        assert(a.to_multiset() =~= d.to_multiset().insert(x));
        assert(b.to_multiset().count(x) > 0);
        assert(b.contains(x));
        let i = choose|i: int| 0 <= i < b.len() && b[i] == x;
        assert(b.remove(i).to_multiset() =~= b.to_multiset().remove(x));
        assert(d.to_multiset() =~= b.remove(i).to_multiset());
        lemma_seq_sum_permutation(f, d, b.remove(i));
        lemma_seq_sum_remove(f, b, i);
    }
}

/// 1 for a line that reads as a receipt record, else 0.
pub open spec fn entry_line(l: Seq<char>) -> nat {
    if read_line(l) is Entry {
        1
    } else {
        0
    }
}

/// 1 for a line that is neither blank nor a readable record, else 0.
pub open spec fn unreadable_line(l: Seq<char>) -> nat {
    if read_line(l) is Unreadable {
        1
    } else {
        0
    }
}

/// 1 for a record whose stored hash is not its own, else 0.
pub open spec fn tampered_line(l: Seq<char>) -> nat {
    match read_line(l) {
        LineRead::Entry { jws, stored_hash } => if stored_hash matches Some(h) && h != jws_record(jws).hash {
            1
        } else {
            0
        },
        _ => 0,
    }
}

/// 1 for a record whose signature does not hold under `keys`, else 0.
pub open spec fn unsigned_line(keys: Seq<(Seq<char>, Seq<u8>)>, l: Seq<char>) -> nat {
    match read_line(l) {
        LineRead::Entry { jws, .. } => if signature_holds(keys, jws_key_id(jws), jws) {
            0
        } else {
            1
        },
        _ => 0,
    }
}

proof fn lemma_scan_sums(keys: Seq<(Seq<char>, Seq<u8>)>, lines: Seq<Seq<char>>)
    ensures
        scan_lines(keys, lines).count == seq_sum(|l: Seq<char>| entry_line(l), lines),
        scan_lines(keys, lines).signature_failures == seq_sum(|l: Seq<char>| unsigned_line(keys, l), lines),
        scan_lines(keys, lines).tampered.len() == seq_sum(|l: Seq<char>| tampered_line(l), lines),
        unreadable_count(lines) == seq_sum(|l: Seq<char>| unreadable_line(l), lines),
    decreases lines.len(),
{
    if lines.len() > 0 {
        lemma_scan_sums(keys, lines.drop_last());
    }
}

/// Reordering the lines of a log changes none of the per-line counts: the
/// receipts read, the failed signatures, the tampered records and the
/// unreadable lines.
pub proof fn lemma_line_counts_permutation(
    keys: Seq<(Seq<char>, Seq<u8>)>,
    a: Seq<Seq<char>>,
    b: Seq<Seq<char>>,
)
    requires
        a.to_multiset() == b.to_multiset(),
    ensures
        scan_lines(keys, a).count == scan_lines(keys, b).count,
        scan_lines(keys, a).signature_failures == scan_lines(keys, b).signature_failures,
        scan_lines(keys, a).tampered.len() == scan_lines(keys, b).tampered.len(),
        unreadable_count(a) == unreadable_count(b),
{
    lemma_scan_sums(keys, a);
    lemma_scan_sums(keys, b);
    lemma_seq_sum_permutation(|l: Seq<char>| entry_line(l), a, b);
    lemma_seq_sum_permutation(|l: Seq<char>| unsigned_line(keys, l), a, b);
    lemma_seq_sum_permutation(|l: Seq<char>| tampered_line(l), a, b);
    lemma_seq_sum_permutation(|l: Seq<char>| unreadable_line(l), a, b);
}

/// `stored` with `r` put in place of the record with the same hash, or
/// added at the end when there is none.
pub open spec fn store(stored: Seq<Record>, r: Record) -> Seq<Record> {
    let i = hash_index(stored, r.hash);
    if i >= 0 {
        stored.update(i, r)
    } else {
        stored.push(r)
    }
}

/// What the scan of the lines has found so far.
pub struct Scan {
    pub issues: Seq<Issue>,
    pub tampered: Seq<Seq<char>>,
    pub count: nat,
    pub signature_failures: nat,
    pub stored: Seq<Record>,
}

/// The scan before any line.
pub open spec fn empty_scan() -> Scan {
    Scan { issues: Seq::empty(), tampered: Seq::empty(), count: 0, signature_failures: 0, stored: Seq::empty() }
}

/// The scan after line number `n`, reading `l`, under `keys`.
pub open spec fn scan_line(keys: Seq<(Seq<char>, Seq<u8>)>, s: Scan, l: Seq<char>, n: nat) -> Scan {
    match read_line(l) {
        LineRead::Blank => s,
        LineRead::Unreadable(i) => Scan { issues: s.issues.push(prefix_issue(line_label(n), i)), ..s },
        LineRead::Entry { jws, stored_hash } => {
            let r = jws_record(jws);
            let s1 = if stored_hash matches Some(h) && h != r.hash {
                Scan {
                    issues: s.issues.push(
                        Issue::Exact(line_label(n) + "receipt_hash mismatch \u{2014} record tampered"@),
                    ),
                    tampered: s.tampered.push(r.hash),
                    ..s
                }
            } else {
                s
            };
            let s2 = if signature_holds(keys, jws_key_id(jws), jws) {
                s1
            } else {
                Scan {
                    issues: s1.issues.push(
                        Issue::Exact(
                            line_label(n) + "signature verification failed for agent_key_id="@
                                + jws_key_id(jws),
                        ),
                    ),
                    signature_failures: s1.signature_failures + 1,
                    ..s1
                }
            };
            Scan { count: s2.count + 1, stored: store(s2.stored, r), ..s2 }
        },
    }
}

/// The scan of all `lines`, numbered from 1.
pub open spec fn scan_lines(keys: Seq<(Seq<char>, Seq<u8>)>, lines: Seq<Seq<char>>) -> Scan
    decreases lines.len(),
{
    if lines.len() == 0 {
        empty_scan()
    } else {
        scan_line(keys, scan_lines(keys, lines.drop_last()), lines.last(), lines.len())
    }
}

/// The parents in `parents` with no record in `stored`, in order.
pub open spec fn missing_parents(stored: Seq<Record>, parents: Seq<Seq<char>>) -> Seq<Seq<char>>
    decreases parents.len(),
{
    if parents.len() == 0 {
        Seq::empty()
    } else {
        let rest = missing_parents(stored, parents.drop_last());
        if hash_index(stored, parents.last()) < 0 {
            rest.push(parents.last())
        } else {
            rest
        }
    }
}

/// `receipt H: parent P not in chain`.
pub open spec fn link_message(h: Seq<char>, p: Seq<char>) -> Seq<char> {
    "receipt "@ + h + ": parent "@ + p + " not in chain"@
}

/// What the checks over the stored records find.
pub struct Links {
    pub messages: Seq<Seq<char>>,
    pub parent_failures: nat,
    pub taint_failures: nat,
}

/// The messages for the parents `missing` of the record with hash `h`.
pub open spec fn link_messages(h: Seq<char>, missing: Seq<Seq<char>>) -> Seq<Seq<char>> {
    Seq::new(missing.len(), |i: int| link_message(h, missing[i]))
}

/// The findings of the checks on one record.
pub open spec fn record_messages(stored: Seq<Record>, r: Record) -> Seq<Seq<char>> {
    link_messages(r.hash, missing_parents(stored, r.parents)) + match taint_finding(stored, r) {
        Some(m) => seq![m],
        None => Seq::empty(),
    }
}

/// The checks over the first `k` stored records.
pub open spec fn check_records(stored: Seq<Record>, k: nat) -> Links
    decreases k,
{
    if k == 0 || k > stored.len() {
        Links { messages: Seq::empty(), parent_failures: 0, taint_failures: 0 }
    } else {
        let prev = check_records(stored, (k - 1) as nat);
        let r = stored[k - 1];
        Links {
            messages: prev.messages + record_messages(stored, r),
            parent_failures: prev.parent_failures + missing_parents(stored, r.parents).len(),
            taint_failures: prev.taint_failures + if taint_finding(stored, r) is Some {
                1nat
            } else {
                0nat
            },
        }
    }
}

/// Every error that verifying `lines` under `keys` reports, in order.
pub open spec fn chain_issues(keys: Seq<(Seq<char>, Seq<u8>)>, lines: Seq<Seq<char>>) -> Seq<Issue> {
    let s = scan_lines(keys, lines);
    let d = check_records(s.stored, s.stored.len());
    s.issues + d.messages.map_values(|m: Seq<char>| Issue::Exact(m))
}

/// The records that reading `lines` stores: one per receipt hash, the last
/// read, at the place of the first.
pub open spec fn log_records(lines: Seq<Seq<char>>) -> Seq<Record>
    decreases lines.len(),
{
    if lines.len() == 0 {
        Seq::empty()
    } else {
        let s = log_records(lines.drop_last());
        match read_line(lines.last()) {
            LineRead::Entry { jws, .. } => store(s, jws_record(jws)),
            _ => s,
        }
    }
}

/// `out` with, for each of `parents` in order, the index of its stored
/// record appended when there is one and `out` does not hold it yet.
pub open spec fn expand(stored: Seq<Record>, out: Seq<int>, parents: Seq<Seq<char>>) -> Seq<int>
    decreases parents.len(),
{
    if parents.len() == 0 {
        out
    } else {
        let o = expand(stored, out, parents.drop_last());
        let i = hash_index(stored, parents.last());
        if i >= 0 && !o.contains(i) {
            o.push(i)
        } else {
            o
        }
    }
}

/// Breadth-first walk: expand the parents of `out[k]`, `out[k + 1]`, ...
/// in turn, for at most `fuel` steps.
pub open spec fn walk(stored: Seq<Record>, out: Seq<int>, k: nat, fuel: nat) -> Seq<int>
    decreases fuel,
{
    if fuel == 0 || k >= out.len() {
        out
    } else {
        walk(stored, expand(stored, out, stored[out[k as int]].parents), k + 1, (fuel - 1) as nat)
    }
}

/// The indices of the stored records reached by following parent links
/// back from record `root`, breadth first, each once.
pub open spec fn trace_order(stored: Seq<Record>, root: int) -> Seq<int> {
    walk(stored, seq![root], 0, stored.len())
}

/// `t[i]` is the stored index of a parent of the record at some earlier
/// place of `t`.
pub open spec fn reached_from_before(stored: Seq<Record>, t: Seq<int>, i: int) -> bool {
    exists|j: int, p: Seq<char>|
        0 <= j < i && #[trigger] stored[t[j]].parents.contains(p) && hash_index(stored, p) == t[i]
}

/// What a breadth-first walk keeps: distinct valid indices, each after the
/// first reached from an earlier one, and the parents of the first `k`
/// expanded.
pub open spec fn walk_inv(stored: Seq<Record>, out: Seq<int>, k: int) -> bool {
    &&& 0 <= k <= out.len()
    &&& out.no_duplicates()
    &&& forall|i: int| 0 <= i < out.len() ==> 0 <= #[trigger] out[i] < stored.len()
    &&& forall|i: int| 0 < i < out.len() ==> #[trigger] reached_from_before(stored, out, i)
    &&& forall|j: int, p: Seq<char>|
        0 <= j < k && #[trigger] stored[out[j]].parents.contains(p) && hash_index(stored, p) >= 0
            ==> out.contains(hash_index(stored, p))
}

/// `x` is the stored index of one of `ps`.
pub open spec fn index_of_one_of(stored: Seq<Record>, ps: Seq<Seq<char>>, x: int) -> bool {
    exists|p: Seq<char>| #[trigger] ps.contains(p) && hash_index(stored, p) == x
}

proof fn lemma_expand(stored: Seq<Record>, out: Seq<int>, ps: Seq<Seq<char>>)
    requires
        out.no_duplicates(),
        forall|i: int| 0 <= i < out.len() ==> 0 <= #[trigger] out[i] < stored.len(),
    ensures
        out.is_prefix_of(expand(stored, out, ps)),
        expand(stored, out, ps).no_duplicates(),
        forall|i: int|
            0 <= i < expand(stored, out, ps).len() ==> 0 <= #[trigger] expand(stored, out, ps)[i] < stored.len(),
        forall|i: int|
            out.len() <= i < expand(stored, out, ps).len() ==> index_of_one_of(
                stored,
                ps,
                #[trigger] expand(stored, out, ps)[i],
            ),
        forall|p: Seq<char>|
            #[trigger] ps.contains(p) && hash_index(stored, p) >= 0 ==> expand(stored, out, ps).contains(
                hash_index(stored, p),
            ),
    decreases ps.len(),
{
    if ps.len() > 0 {
        let d = ps.drop_last();
        lemma_expand(stored, out, d);
        let o = expand(stored, out, d);
        let x = ps.last();
        let i = hash_index(stored, x);
        lemma_hash_index(stored, x);
        let e = expand(stored, out, ps);
        assert forall|p: Seq<char>| #[trigger] d.contains(p) implies ps.contains(p) by {
            let w = choose|w: int| 0 <= w < d.len() && d[w] == p;
            assert(ps[w] == p);
        }
        assert(ps[ps.len() - 1] == x);
        assert(ps.contains(x));
        assert forall|p: Seq<char>| #[trigger] ps.contains(p) && hash_index(stored, p) >= 0 implies e.contains(
            hash_index(stored, p),
        ) by {
            let w = choose|w: int| 0 <= w < ps.len() && ps[w] == p;
            if w < ps.len() - 1 {
                assert(d[w] == p);
                assert(d.contains(p));
                let v = choose|v: int| 0 <= v < o.len() && o[v] == hash_index(stored, p);
                assert(e[v] == o[v]);
            } else if o.contains(i) {
            } else {
                assert(e[o.len() as int] == i);
            }
        }
        assert forall|k: int| out.len() <= k < e.len() implies index_of_one_of(stored, ps, #[trigger] e[k]) by {
            if k < o.len() {
                assert(index_of_one_of(stored, d, o[k]));
                let p = choose|p: Seq<char>| #[trigger] d.contains(p) && hash_index(stored, p) == o[k];
                assert(ps.contains(p));
            } else {
                assert(ps.contains(x) && hash_index(stored, x) == e[k]);
            }
        }
    }
}

proof fn lemma_walk(stored: Seq<Record>, out: Seq<int>, k: nat, fuel: nat)
    requires
        walk_inv(stored, out, k as int),
        k + fuel >= stored.len(),
    ensures
        walk_inv(stored, walk(stored, out, k, fuel), walk(stored, out, k, fuel).len() as int),
        out.is_prefix_of(walk(stored, out, k, fuel)),
    decreases fuel,
{
    lemma_distinct_below(out, stored.len());
    if k < out.len() {
        let ps = stored[out[k as int]].parents;
        let e = expand(stored, out, ps);
        lemma_expand(stored, out, ps);
        assert forall|i: int| 0 <= i < out.len() implies #[trigger] e[i] == out[i] by {}
        assert forall|i: int| 0 < i < e.len() implies #[trigger] reached_from_before(stored, e, i) by {
            if i < out.len() {
                assert(reached_from_before(stored, out, i));
                let (j, p) = choose|j: int, p: Seq<char>|
                    0 <= j < i && #[trigger] stored[out[j]].parents.contains(p) && hash_index(stored, p) == out[i];
                assert(stored[e[j]].parents.contains(p));
            } else {
                assert(index_of_one_of(stored, ps, e[i]));
                let p = choose|p: Seq<char>| #[trigger] ps.contains(p) && hash_index(stored, p) == e[i];
                assert(stored[e[k as int]].parents.contains(p));
            }
        }
        assert forall|j: int, p: Seq<char>|
            0 <= j < k + 1 && #[trigger] stored[e[j]].parents.contains(p) && hash_index(stored, p) >= 0
                implies e.contains(hash_index(stored, p)) by {
            if j < k {
                assert(stored[out[j]].parents.contains(p));
                let v = choose|v: int| 0 <= v < out.len() && out[v] == hash_index(stored, p);
                assert(e[v] == out[v]);
            }
        }
        lemma_walk(stored, e, k + 1, (fuel - 1) as nat);
    }
}

/// A sequence of distinct indices below `n` has at most `n` items.
pub proof fn lemma_distinct_below(s: Seq<int>, n: nat)
    requires
        s.no_duplicates(),
        forall|i: int| 0 <= i < s.len() ==> 0 <= #[trigger] s[i] < n,
    ensures
        s.len() <= n,
{
    vstd::set_lib::lemma_int_range(0, n as int);
    s.unique_seq_to_set();
    assert(s.to_set().subset_of(vstd::set_lib::set_int_range(0, n as int)));
    vstd::set_lib::lemma_len_subset(s.to_set(), vstd::set_lib::set_int_range(0, n as int));
}

/// Tracing back from a stored record lists it first, lists no record twice,
/// lists only records reached by parent links from one listed before it,
/// and lists every stored parent of every record it lists.
pub proof fn lemma_trace_order(stored: Seq<Record>, root: int)
    requires
        0 <= root < stored.len(),
    ensures
        trace_order(stored, root).len() >= 1,
        trace_order(stored, root)[0] == root,
        trace_order(stored, root).no_duplicates(),
        forall|i: int| 0 <= i < trace_order(stored, root).len() ==> 0 <= #[trigger] trace_order(stored, root)[i] < stored.len(),
        forall|i: int| 0 < i < trace_order(stored, root).len() ==> #[trigger] reached_from_before(stored, trace_order(stored, root), i),
        forall|i: int, p: Seq<char>|
            0 <= i < trace_order(stored, root).len() && #[trigger] stored[trace_order(stored, root)[i]].parents.contains(p)
                && hash_index(stored, p) >= 0 ==> trace_order(stored, root).contains(hash_index(stored, p)),
{
    let start = seq![root];
    assert(walk_inv(stored, start, 0));
    lemma_walk(stored, start, 0, stored.len());
    let t = trace_order(stored, root);
    assert(t[0] == start[0]);
}

/// No two of `stored` have the same hash.
pub open spec fn distinct_hashes(stored: Seq<Record>) -> bool {
    forall|i: int, j: int| 0 <= i < j < stored.len() ==> #[trigger] stored[i].hash != #[trigger] stored[j].hash
}

proof fn lemma_store_distinct(stored: Seq<Record>, r: Record)
    requires
        distinct_hashes(stored),
    ensures
        distinct_hashes(store(stored, r)),
        store(stored, r).len() >= stored.len(),
{
    lemma_hash_index(stored, r.hash);
    let t = store(stored, r);
    let k = hash_index(stored, r.hash);
    assert forall|i: int, j: int| 0 <= i < j < t.len() implies #[trigger] t[i].hash != #[trigger] t[j].hash by {
        if k >= 0 {
            if i == k {
                assert(stored[j].hash != stored[k].hash);
            } else if j == k {
                assert(stored[i].hash != stored[k].hash);
            }
        } else if j == stored.len() {
            assert(stored[i].hash != r.hash);
        }
    }
}

/// Reading a log stores at most one record per receipt hash.
pub proof fn lemma_log_records_distinct(lines: Seq<Seq<char>>)
    ensures
        distinct_hashes(log_records(lines)),
    decreases lines.len(),
{
    if lines.len() > 0 {
        lemma_log_records_distinct(lines.drop_last());
        if let LineRead::Entry { jws, .. } = read_line(lines.last()) {
            lemma_store_distinct(log_records(lines.drop_last()), jws_record(jws));
        }
    }
}

/// Verifying a log and tracing it read the same records from it.
pub proof fn lemma_scan_reads_log(keys: Seq<(Seq<char>, Seq<u8>)>, lines: Seq<Seq<char>>)
    ensures
        scan_lines(keys, lines).stored == log_records(lines),
    decreases lines.len(),
{
    if lines.len() > 0 {
        lemma_scan_reads_log(keys, lines.drop_last());
    }
}

} // verus!
