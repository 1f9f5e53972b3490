//! Chain verification: signatures, parent links, tampering and taint
//! monotonicity over a log of receipts.

use vstd::prelude::*;
use vstd::utf8::encode_utf8;
use crate::b64::{b64url_decode, b64url_decoded};
use crate::identity::{IdentityError, identity_error_text, load_public_key};
use crate::keys::{ed25519_accepts, ed25519_public_of, public_key_in_pem, verify_bytes};
use crate::receipt::{Receipt, ReceiptError, receipt_error_text, signed_by};
use crate::findings::{
    chain_issues, check_records, expand, fault_issue, issue_matches, jws_key_id, jws_record,
    lemma_distinct_below, lemma_log_records_distinct, lemma_prefix_issue, lemma_trace_order, line_label,
    link_message, link_messages, log_records, missing_parents, prefix_issue, read_line, record_messages,
    scan_line, scan_lines, trace_order, walk, Issue, LineRead, Scan, lemma_scan_issue_count,
    lemma_check_message_count, unreadable_count,
};
use crate::json::{parse_json, get_string, JsonValue};
use crate::receipt::{fault_of, jws_payload, opt_text, read_from};
use crate::reorder::{hashes_identify, lemma_verify_order_independent};
use crate::sort::names_view;
use crate::taint::{append_copies, check_taint, find_hash, hash_index, lemma_hash_index, record_of, records_of, taint_finding, Record};
use crate::text::{push_char, split_char, split_on, str_eq, trim, usize_decimal};

verus! {

#[verifier::external_type_specification]
#[verifier::external_body]
pub struct ExIoError(std::io::Error);

/// Calls `std::io::Error`'s `Display`. Nothing is stated of the message.
#[verifier::external_body]
fn io_error_message(e: &std::io::Error) -> String {
    e.to_string()
}

/// Errors raised by chain verification.
#[derive(Debug)]
pub enum VerifierError {
    Io(std::io::Error),
    Identity(IdentityError),
    Receipt(ReceiptError),
}

impl VerifierError {
    /// The human-readable message for this error.
    pub fn message(&self) -> (res: String)
        ensures
            self matches VerifierError::Identity(e) ==> res@ == "identity error: "@
                + identity_error_text(*e),
            self matches VerifierError::Receipt(e) ==> res@ == "receipt error: "@
                + receipt_error_text(*e),
            self is Io ==> "I/O error: "@.is_prefix_of(res@),
    {
        let (prefix, rest) = match self {
            VerifierError::Io(e) => ("I/O error: ", io_error_message(e)),
            VerifierError::Identity(e) => ("identity error: ", e.message()),
            VerifierError::Receipt(e) => ("receipt error: ", e.message()),
        };
        let mut s = String::from_str(prefix);
        s.append(rest.as_str());
        proof { reveal_strlit("I/O error: "); }
        assert("I/O error: "@.is_prefix_of(s@) <== self is Io) by {
            if self is Io {
                assert(s@.subrange(0, 11) =~= "I/O error: "@);
            }
        }
        s
    }
}

impl From<IdentityError> for VerifierError {
    fn from(e: IdentityError) -> (res: Self) {
        VerifierError::Identity(e)
    }
}

impl vstd::std_specs::convert::FromSpecImpl<IdentityError> for VerifierError {
    open spec fn obeys_from_spec() -> bool {
        true
    }

    open spec fn from_spec(v: IdentityError) -> Self {
        VerifierError::Identity(v)
    }
}

impl From<std::io::Error> for VerifierError {
    fn from(e: std::io::Error) -> (res: Self) {
        VerifierError::Io(e)
    }
}

impl vstd::std_specs::convert::FromSpecImpl<std::io::Error> for VerifierError {
    open spec fn obeys_from_spec() -> bool {
        true
    }

    open spec fn from_spec(v: std::io::Error) -> Self {
        VerifierError::Io(v)
    }
}

/// Outcome of verifying a chain.
#[derive(Debug)]
pub struct VerificationReport {
    pub valid: bool,
    pub receipt_count: usize,
    pub signature_failures: usize,
    pub parent_link_failures: usize,
    pub taint_monotonicity_failures: usize,
    pub tampered_receipts: Vec<String>,
    pub errors: Vec<String>,
}

impl Default for VerificationReport {
    fn default() -> (res: Self)
        ensures
            !res.valid,
            res.receipt_count == 0,
            res.signature_failures == 0,
            res.parent_link_failures == 0,
            res.taint_monotonicity_failures == 0,
            res.tampered_receipts@.len() == 0,
            res.errors@.len() == 0,
    {
        VerificationReport {
            valid: false,
            receipt_count: 0,
            signature_failures: 0,
            parent_link_failures: 0,
            taint_monotonicity_failures: 0,
            tampered_receipts: Vec::new(),
            errors: Vec::new(),
        }
    }
}

impl VerificationReport {
    fn push_err(&mut self, msg: String)
        ensures
            final(self).errors@ == old(self).errors@.push(msg),
            !final(self).valid,
            final(self).receipt_count == old(self).receipt_count,
            final(self).signature_failures == old(self).signature_failures,
            final(self).parent_link_failures == old(self).parent_link_failures,
            final(self).taint_monotonicity_failures == old(self).taint_monotonicity_failures,
            final(self).tampered_receipts == old(self).tampered_receipts,
    {
        self.errors.push(msg);
        self.valid = false;
    }
}

/// The key registered last under `kid`.
pub open spec fn key_lookup(keys: Seq<(Seq<char>, Seq<u8>)>, kid: Seq<char>) -> Option<Seq<u8>>
    decreases keys.len(),
{
    if keys.len() == 0 {
        None
    } else if keys.last().0 == kid {
        Some(keys.last().1)
    } else {
        key_lookup(keys.drop_last(), kid)
    }
}

/// The key ids and public keys parsed from `(key id, PEM)` entries, in order.
pub open spec fn parsed_keys(entries: Seq<(String, String)>) -> Seq<(Seq<char>, Seq<u8>)> {
    Seq::new(entries.len(), |i: int| (entries[i].0@, public_key_in_pem(entries[i].1@).unwrap()))
}

/// Whether the JWS `jws` carries a valid signature under the key registered
/// for `kid`.
pub open spec fn signature_holds(keys: Seq<(Seq<char>, Seq<u8>)>, kid: Seq<char>, jws: Seq<char>) -> bool {
    match key_lookup(keys, kid) {
        None => false,
        Some(public) => {
            let parts = split_on(jws, '.');
            &&& parts.len() == 3
            &&& b64url_decoded(parts[2]) matches Some(sig)
            &&& sig.len() == 64
            &&& ed25519_accepts(public, encode_utf8(parts[0] + seq!['.'] + parts[1]), sig)
        },
    }
}

/// Verifies provenance chains against a set of Ed25519 public keys.
pub struct Verifier {
    keys: Vec<(String, [u8; 32])>,
}

impl View for Verifier {
    type V = Seq<(Seq<char>, Seq<u8>)>;

    closed spec fn view(&self) -> Seq<(Seq<char>, Seq<u8>)> {
        Seq::new(self.keys@.len(), |i: int| (self.keys@[i].0@, self.keys@[i].1@))
    }
}

impl Verifier {
    /// Build a verifier from `(key id, public-key PEM)` pairs; a later pair
    /// for the same key id replaces an earlier one.
    pub fn new(public_keys_pem: Vec<(String, String)>) -> (res: Result<Self, VerifierError>)
        ensures
            res is Ok <==> forall|i: int|
                0 <= i < public_keys_pem@.len() ==> (#[trigger] public_key_in_pem(
                    public_keys_pem@[i].1@,
                )) is Some,
            res matches Ok(v) ==> v@ == parsed_keys(public_keys_pem@),
            res matches Err(e) ==> (e matches VerifierError::Identity(IdentityError::Pem(_))),
    {
        let mut keys: Vec<(String, [u8; 32])> = Vec::new();
        let n = public_keys_pem.len();
        let mut i: usize = 0;
        while i < n
            invariant
                i <= n,
                n == public_keys_pem@.len(),
                keys@.len() == i,
                forall|j: int| 0 <= j < i ==> (#[trigger] public_key_in_pem(
                    public_keys_pem@[j].1@,
                )) is Some,
                forall|j: int| 0 <= j < i ==> #[trigger] keys@[j].0@ == public_keys_pem@[j].0@
                    && Some(keys@[j].1@) == public_key_in_pem(public_keys_pem@[j].1@),
            decreases n - i,
        {
            let key = match load_public_key(public_keys_pem[i].1.as_str()) {
                Ok(k) => k,
                Err(e) => return Err(VerifierError::from(e)),
            };
            keys.push((public_keys_pem[i].0.clone(), key));
            i = i + 1;
        }
        let v = Verifier { keys };
        assert(v@ =~= parsed_keys(public_keys_pem@));
        Ok(v)
    }

    fn find_key(&self, kid: &str) -> (res: Option<&[u8; 32]>)
        ensures
            key_lookup(self@, kid@) == (match res {
                Some(k) => Some(k@),
                None => None,
            }),
    {
        let mut i = self.keys.len();
        let ghost all = self@;
        assert(all.take(i as int) =~= all);
        while i > 0
            invariant
                i <= self.keys@.len(),
                all == self@,
                all.len() == self.keys@.len(),
                key_lookup(all, kid@) == key_lookup(all.take(i as int), kid@),
            decreases i,
        {
            assert(all.take(i as int).drop_last() =~= all.take(i - 1));
            assert(all.take(i as int).last() == (self.keys@[i - 1].0@, self.keys@[i - 1].1@));
            if str_eq(self.keys[i - 1].0.as_str(), kid) {
                return Some(&self.keys[i - 1].1);
            }
            i = i - 1;
        }
        None
    }

    /// Verify the Ed25519 signature on one receipt.
    pub fn verify_signature(&self, receipt: &Receipt) -> (res: bool)
        ensures
            res == signature_holds(self@, receipt.agent_key_id@, receipt.jws@),
            forall|seed: Seq<u8>|
                seed.len() == 32 && signed_by(receipt.jws@, seed) && key_lookup(
                    self@,
                    receipt.agent_key_id@,
                ) == Some(ed25519_public_of(seed)) ==> res,
    {
        let key = match self.find_key(receipt.agent_key_id.as_str()) {
            Some(k) => k,
            None => return false,
        };
        let parts = split_char(receipt.jws.as_str(), '.');
        if parts.len() != 3 {
            return false;
        }
        let ghost names = crate::sort::names_view(parts@);
        assert(names[0] == parts@[0]@ && names[1] == parts@[1]@ && names[2] == parts@[2]@);
        let mut input = parts[0].clone();
        push_char(&mut input, '.');
        input.append(parts[1].as_str());
        assert(input@ =~= names[0] + seq!['.'] + names[1]);
        let sig = match b64url_decode(parts[2].as_str()) {
            Ok(s) => s,
            Err(_) => return false,
        };
        if sig.len() != 64 {
            return false;
        }
        verify_bytes(key, input.as_str().as_bytes(), sig.as_slice())
    }
}

/// `p` is a start of `p + rest`.
proof fn lemma_starts(p: Seq<char>, rest: Seq<char>)
    ensures
        p.is_prefix_of(p + rest),
{
    assert((p + rest).subrange(0, p.len() as int) =~= p);
}

/// What the message of a receipt error is known to be.
proof fn lemma_fault_issue(e: ReceiptError)
    ensures
        issue_matches(fault_issue(fault_of(e)), receipt_error_text(e)),
{
    match e {
        ReceiptError::DecodeBase64(m) => lemma_starts("base64 decode error: "@, m@),
        ReceiptError::DecodeJson(m) => lemma_starts("JSON decode error: "@, m@),
        _ => {},
    }
}

/// `line N: ` followed by `a` and `b`.
fn line_message(n: usize, a: &str, b: &str) -> (res: String)
    ensures
        res@ == line_label(n as nat) + a@ + b@,
{
    let mut s = String::from_str("line ");
    let d = usize_decimal(n);
    s.append(d.as_str());
    s.append(": ");
    s.append(a);
    s.append(b);
    proof { reveal_strlit("line "); reveal_strlit(": "); }
    assert(s@ =~= line_label(n as nat) + a@ + b@);
    s
}

/// How one line of a receipt log reads, with the error it raises.
enum LineEntry {
    Blank,
    Fault(String),
    Entry(Receipt, Option<String>),
}

/// Read line number `n` of a receipt log.
fn read_entry(line: &str, n: usize) -> (res: LineEntry)
    ensures
        match res {
            LineEntry::Blank => read_line(line@) is Blank,
            LineEntry::Fault(msg) => read_line(line@) matches LineRead::Unreadable(i) && issue_matches(
                prefix_issue(line_label(n as nat), i),
                msg@,
            ),
            LineEntry::Entry(r, h) => read_line(line@) matches LineRead::Entry { jws, stored_hash }
                && r.jws@ == jws && record_of(r) == jws_record(jws) && r.agent_key_id@ == jws_key_id(jws)
                && opt_text(h) == stored_hash && (jws_payload(jws) matches Some(j) && read_from(r, j, jws)),
        },
{
    let t = trim(line);
    if t.as_str().is_empty() {
        return LineEntry::Blank;
    }
    let doc = match parse_json(t.as_str().as_bytes()) {
        Ok(v) => v,
        Err(e) => {
            let msg = line_message(n, "invalid JSON: ", e.as_str());
            proof {
                lemma_starts("invalid JSON: "@, e@);
                lemma_prefix_issue(line_label(n as nat), Issue::Prefix("invalid JSON: "@), "invalid JSON: "@ + e@);
                assert(msg@ =~= line_label(n as nat) + ("invalid JSON: "@ + e@));
            }
            return LineEntry::Fault(msg);
        },
    };
    match &doc {
        JsonValue::Object(_) => {},
        _ => {
            let msg = line_message(n, "record is not an object", "");
            proof { reveal_strlit(""); }
            assert(msg@ =~= line_label(n as nat) + "record is not an object"@);
            return LineEntry::Fault(msg);
        },
    }
    let jws = match get_string(&doc, "jws") {
        Some(j) => j,
        None => {
            let msg = line_message(n, "record has no string 'jws' field", "");
            proof { reveal_strlit(""); }
            assert(msg@ =~= line_label(n as nat) + "record has no string 'jws' field"@);
            return LineEntry::Fault(msg);
        },
    };
    let r = match Receipt::from_jws(jws.as_str()) {
        Ok(r) => r,
        Err(e) => {
            let text = e.message();
            let msg = line_message(n, "malformed receipt: ", text.as_str());
            proof {
                lemma_fault_issue(e);
                lemma_prefix_issue("malformed receipt: "@, fault_issue(fault_of(e)), text@);
                lemma_prefix_issue(
                    line_label(n as nat),
                    prefix_issue("malformed receipt: "@, fault_issue(fault_of(e))),
                    "malformed receipt: "@ + text@,
                );
                assert(msg@ =~= line_label(n as nat) + ("malformed receipt: "@ + text@));
            }
            return LineEntry::Fault(msg);
        },
    };
    let h = get_string(&doc, "receipt_hash");
    assert(record_of(r) == jws_record(jws@));
    LineEntry::Entry(r, h)
}

/// `report` and `stored` hold what scan `s` has found.
spec fn scan_held(report: VerificationReport, stored: Seq<Receipt>, s: Scan) -> bool {
    &&& report.errors@.len() == s.issues.len()
    &&& forall|i: int| 0 <= i < s.issues.len() ==> issue_matches(s.issues[i], #[trigger] report.errors@[i]@)
    &&& names_view(report.tampered_receipts@) == s.tampered
    &&& report.receipt_count == s.count
    &&& report.signature_failures == s.signature_failures
    &&& report.signature_failures <= report.errors@.len()
    &&& report.parent_link_failures == 0
    &&& report.taint_monotonicity_failures == 0
    &&& report.valid == (report.errors@.len() == 0)
    &&& records_of(stored) == s.stored
}

impl Verifier {
    /// Read line number `n` into the report and the stored receipts.
    fn scan_one(
        &self,
        report: &mut VerificationReport,
        stored: &mut Vec<Receipt>,
        line: &str,
        n: usize,
        Ghost(s): Ghost<Scan>,
    )
        requires
            scan_held(*old(report), old(stored)@, s),
            s.count < n,
        ensures
            scan_held(*final(report), final(stored)@, scan_line(self@, s, line@, n as nat)),
    {
        match read_entry(line, n) {
            LineEntry::Blank => {},
            LineEntry::Fault(msg) => {
                report.push_err(msg);
                assert(scan_held(*report, stored@, scan_line(self@, s, line@, n as nat)));
            },
            LineEntry::Entry(r, h) => {
                let ghost jws = r.jws@;
                let ghost rec = jws_record(jws);
                let ghost s1 = if (read_line(line@)->stored_hash) matches Some(x) && x != rec.hash {
                    Scan {
                        issues: s.issues.push(
                            Issue::Exact(line_label(n as nat) + "receipt_hash mismatch \u{2014} record tampered"@),
                        ),
                        tampered: s.tampered.push(rec.hash),
                        ..s
                    }
                } else {
                    s
                };
                match h {
                    Some(stored_hash) => {
                        if !str_eq(stored_hash.as_str(), r.receipt_hash.as_str()) {
                            let ghost before = report.tampered_receipts@;
                            report.tampered_receipts.push(r.receipt_hash.clone());
                            assert(names_view(report.tampered_receipts@) =~= names_view(before).push(rec.hash));
                            let msg = line_message(n, "receipt_hash mismatch \u{2014} record tampered", "");
                            proof { reveal_strlit(""); }
                            assert(msg@ =~= line_label(n as nat) + "receipt_hash mismatch \u{2014} record tampered"@);
                            report.push_err(msg);
                        }
                    },
                    None => {},
                }
                assert(scan_held(*report, stored@, s1));
                let ghost s2 = if signature_holds(self@, jws_key_id(jws), jws) {
                    s1
                } else {
                    Scan {
                        issues: s1.issues.push(
                            Issue::Exact(
                                line_label(n as nat) + "signature verification failed for agent_key_id="@
                                    + jws_key_id(jws),
                            ),
                        ),
                        signature_failures: s1.signature_failures + 1,
                        ..s1
                    }
                };
                if !self.verify_signature(&r) {
                    let msg = line_message(n, "signature verification failed for agent_key_id=", r.agent_key_id.as_str());
                    report.push_err(msg);
                    let total = report.errors.len();
                    report.signature_failures = report.signature_failures + 1;
                }
                assert(scan_held(*report, stored@, s2));
                let ghost old_stored = stored@;
                match find_hash(stored, r.receipt_hash.as_str()) {
                    Some(i) => {
                        stored.set(i, r);
                        assert(records_of(stored@) =~= records_of(old_stored).update(i as int, rec));
                    },
                    None => {
                        stored.push(r);
                        assert(records_of(stored@) =~= records_of(old_stored).push(rec));
                    },
                }
                report.receipt_count = report.receipt_count + 1;
            },
        }
    }
}

/// `receipt H: parent P not in chain`.
fn link_text(h: &str, p: &str) -> (res: String)
    ensures
        res@ == link_message(h@, p@),
{
    let mut msg = String::from_str("receipt ");
    msg.append(h);
    msg.append(": parent ");
    msg.append(p);
    msg.append(" not in chain");
    msg
}

/// Check the parent links and taint of stored receipt `k`.
fn check_record(report: &mut VerificationReport, stored: &Vec<Receipt>, k: usize)
    requires
        k < stored@.len(),
        old(report).signature_failures + old(report).parent_link_failures
            + old(report).taint_monotonicity_failures <= old(report).errors@.len(),
    ensures
        names_view(final(report).errors@) == names_view(old(report).errors@) + record_messages(
            records_of(stored@),
            records_of(stored@)[k as int],
        ),
        final(report).parent_link_failures == old(report).parent_link_failures + missing_parents(
            records_of(stored@),
            records_of(stored@)[k as int].parents,
        ).len(),
        final(report).taint_monotonicity_failures == old(report).taint_monotonicity_failures + if taint_finding(
            records_of(stored@),
            records_of(stored@)[k as int],
        ) is Some {
            1nat
        } else {
            0nat
        },
        final(report).signature_failures + final(report).parent_link_failures
            + final(report).taint_monotonicity_failures <= final(report).errors@.len(),
        final(report).valid == (old(report).valid && final(report).errors@.len() == old(report).errors@.len()),
        final(report).signature_failures == old(report).signature_failures,
        final(report).receipt_count == old(report).receipt_count,
        final(report).tampered_receipts == old(report).tampered_receipts,
{
    let ghost recs = records_of(stored@);
    let ghost rec = recs[k as int];
    let ghost e0 = names_view(report.errors@);
    let ghost p0 = report.parent_link_failures;
    let ghost v0 = report.valid;
    let ghost l0 = report.errors@.len();
    let r = &stored[k];
    assert(rec == record_of(*r));
    let m = r.parents.len();
    let mut j: usize = 0;
    while j < m
        invariant
            j <= m,
            m == r.parents@.len(),
            rec.parents == names_view(r.parents@),
            rec.hash == r.receipt_hash@,
            0 <= k < recs.len(),
            rec == recs[k as int],
            recs == records_of(stored@),
            names_view(report.errors@) == e0 + link_messages(rec.hash, missing_parents(recs, rec.parents.take(j as int))),
            report.parent_link_failures == p0 + missing_parents(recs, rec.parents.take(j as int)).len(),
            report.signature_failures + report.parent_link_failures + report.taint_monotonicity_failures
                <= report.errors@.len(),
            report.valid == (v0 && report.errors@.len() == l0),
            report.errors@.len() >= l0,
            e0.len() == l0,
            report.taint_monotonicity_failures == old(report).taint_monotonicity_failures,
            report.signature_failures == old(report).signature_failures,
            report.receipt_count == old(report).receipt_count,
            report.tampered_receipts == old(report).tampered_receipts,
        decreases m - j,
    {
        let ghost t = rec.parents.take(j + 1);
        assert(t.drop_last() =~= rec.parents.take(j as int));
        assert(t.last() == r.parents@[j as int]@);
        let ghost before = missing_parents(recs, rec.parents.take(j as int));
        if find_hash(stored, r.parents[j].as_str()).is_none() {
            let msg = link_text(r.receipt_hash.as_str(), r.parents[j].as_str());
            let ghost errs = report.errors@;
            report.push_err(msg);
            assert(names_view(report.errors@) =~= names_view(errs).push(msg@));
            assert(link_messages(rec.hash, before.push(r.parents@[j as int]@)) =~= link_messages(rec.hash, before).push(msg@));
            let total = report.errors.len();
            report.parent_link_failures = report.parent_link_failures + 1;
        }
        j = j + 1;
    }
    assert(rec.parents.take(m as int) =~= rec.parents);
    let ghost e1 = names_view(report.errors@);
    match check_taint(stored, r) {
        Some(msg) => {
            let ghost errs = report.errors@;
            report.push_err(msg);
            assert(names_view(report.errors@) =~= names_view(errs).push(msg@));
            let total = report.errors.len();
            report.taint_monotonicity_failures = report.taint_monotonicity_failures + 1;
            assert(names_view(report.errors@) =~= e0 + record_messages(recs, rec));
        },
        None => {
            assert(names_view(report.errors@) =~= e0 + record_messages(recs, rec));
        },
    }
}

/// `report` is what verifying the log lines `lines` under `keys` reports:
/// one error per issue, in order, each with the issue's text (or, where an
/// outside decoder's text ends it, its start); the counters of the scan and
/// of the checks; and validity exactly when nothing was found.
pub open spec fn report_describes(
    report: VerificationReport,
    keys: Seq<(Seq<char>, Seq<u8>)>,
    lines: Seq<Seq<char>>,
) -> bool {
    let s = scan_lines(keys, lines);
    let d = check_records(s.stored, s.stored.len());
    let issues = chain_issues(keys, lines);
    &&& report.errors@.len() == issues.len()
    &&& forall|i: int| 0 <= i < issues.len() ==> issue_matches(issues[i], #[trigger] report.errors@[i]@)
    &&& report.valid == (issues.len() == 0)
    &&& names_view(report.tampered_receipts@) == s.tampered
    &&& report.receipt_count == s.count
    &&& report.signature_failures == s.signature_failures
    &&& report.parent_link_failures == d.parent_failures
    &&& report.taint_monotonicity_failures == d.taint_failures
}

/// Verifying the lines of a log in another order reports the same
/// validity, receipt count, signature, parent-link and taint failure counts
/// and tampered hashes (as a multiset), as long as no two different
/// receipts of the log share a hash.
pub proof fn lemma_report_order_independent(
    r1: VerificationReport,
    r2: VerificationReport,
    keys: Seq<(Seq<char>, Seq<u8>)>,
    a: Seq<Seq<char>>,
    b: Seq<Seq<char>>,
)
    requires
        report_describes(r1, keys, a),
        report_describes(r2, keys, b),
        a.to_multiset() == b.to_multiset(),
        hashes_identify(a),
    ensures
        r1.valid == r2.valid,
        r1.receipt_count == r2.receipt_count,
        r1.signature_failures == r2.signature_failures,
        r1.parent_link_failures == r2.parent_link_failures,
        r1.taint_monotonicity_failures == r2.taint_monotonicity_failures,
        names_view(r1.tampered_receipts@).to_multiset() == names_view(r2.tampered_receipts@).to_multiset(),
{
    lemma_verify_order_independent(keys, a, b);
}

impl Verifier {
    /// Verify a receipt log given as its lines: each non-blank line is a
    /// JSON record with the compact JWS of a receipt under `jws` (and
    /// optionally the `receipt_hash` it was logged with). Checks every
    /// receipt's signature and stored hash, then every parent link and the
    /// taint of every receipt.
    pub fn verify_chain(&self, lines: &Vec<String>) -> (res: VerificationReport)
        ensures
            report_describes(res, self@, names_view(lines@)),
            res.valid == (res.errors@.len() == 0),
            res.errors@.len() == res.signature_failures + res.parent_link_failures
                + res.taint_monotonicity_failures + res.tampered_receipts@.len() + unreadable_count(
                names_view(lines@),
            ),
    {
        let mut report = VerificationReport {
            valid: true,
            receipt_count: 0,
            signature_failures: 0,
            parent_link_failures: 0,
            taint_monotonicity_failures: 0,
            tampered_receipts: Vec::new(),
            errors: Vec::new(),
        };
        let mut stored: Vec<Receipt> = Vec::new();
        let ghost all = names_view(lines@);
        let n = lines.len();
        let mut i: usize = 0;
        assert(all.take(0) =~= Seq::<Seq<char>>::empty());
        assert(records_of(stored@) =~= Seq::<Record>::empty());
        assert(names_view(report.tampered_receipts@) =~= Seq::<Seq<char>>::empty());
        while i < n
            invariant
                i <= n,
                n == lines@.len(),
                all == names_view(lines@),
                scan_held(report, stored@, scan_lines(self@, all.take(i as int))),
                report.receipt_count <= i,
            decreases n - i,
        {
            let ghost s = scan_lines(self@, all.take(i as int));
            assert(all.take(i + 1).drop_last() =~= all.take(i as int));
            assert(all.take(i + 1).last() == lines@[i as int]@);
            self.scan_one(&mut report, &mut stored, lines[i].as_str(), i + 1, Ghost(s));
            proof { lemma_scan_count(self@, s, lines@[i as int]@, (i + 1) as nat); }
            i = i + 1;
        }
        assert(all.take(n as int) =~= all);
        let ghost s = scan_lines(self@, all);
        let ghost e0 = names_view(report.errors@);
        let ghost recs = records_of(stored@);
        let m = stored.len();
        let mut k: usize = 0;
        while k < m
            invariant
                k <= m,
                m == stored@.len(),
                recs == records_of(stored@),
                recs == s.stored,
                s == scan_lines(self@, all),
                all == names_view(lines@),
                e0.len() == s.issues.len(),
                forall|i: int| 0 <= i < s.issues.len() ==> issue_matches(s.issues[i], #[trigger] e0[i]),
                names_view(report.errors@) == e0 + check_records(recs, k as nat).messages,
                report.parent_link_failures == check_records(recs, k as nat).parent_failures,
                report.taint_monotonicity_failures == check_records(recs, k as nat).taint_failures,
                report.signature_failures + report.parent_link_failures
                    + report.taint_monotonicity_failures <= report.errors@.len(),
                report.valid == (report.errors@.len() == 0),
                names_view(report.tampered_receipts@) == s.tampered,
                report.receipt_count == s.count,
                report.signature_failures == s.signature_failures,
            decreases m - k,
        {
            check_record(&mut report, &stored, k);
            assert(e0 + check_records(recs, (k + 1) as nat).messages =~= e0 + check_records(recs, k as nat).messages
                + record_messages(recs, recs[k as int]));
            k = k + 1;
        }
        proof {
            let d = check_records(recs, m as nat);
            lemma_scan_issue_count(self@, all);
            lemma_check_message_count(recs, m as nat);
            assert(names_view(report.tampered_receipts@).len() == report.tampered_receipts@.len());
            let issues = chain_issues(self@, all);
            assert(issues == s.issues + d.messages.map_values(|t: Seq<char>| Issue::Exact(t)));
            assert forall|i: int| 0 <= i < issues.len() implies issue_matches(
                issues[i],
                #[trigger] report.errors@[i]@,
            ) by {
                assert(names_view(report.errors@)[i] == report.errors@[i]@);
                if i < s.issues.len() {
                    assert(issues[i] == s.issues[i]);
                } else {
                    assert(issues[i] == Issue::Exact(d.messages[i - s.issues.len()]));
                }
            }
        }
        report
    }
}

/// The scan counts at most one receipt per line.
proof fn lemma_scan_count(keys: Seq<(Seq<char>, Seq<u8>)>, s: Scan, l: Seq<char>, n: nat)
    ensures
        scan_line(keys, s, l, n).count <= s.count + 1,
{
}

/// `v` is a trace back from the receipt with hash `h` among `stored`: it
/// starts with that receipt, holds no receipt hash twice, and holds every
/// stored parent of every receipt it holds.
pub open spec fn traced_from(v: Seq<Receipt>, h: Seq<char>, stored: Seq<Record>) -> bool {
    &&& v.len() >= 1
    &&& v[0].receipt_hash@ == h
    &&& forall|i: int, j: int| 0 <= i < j < v.len() ==> #[trigger] v[i].receipt_hash@ != #[trigger] v[j].receipt_hash@
    &&& forall|i: int, p: Seq<char>|
        0 <= i < v.len() && #[trigger] names_view(v[i].parents@).contains(p) && hash_index(stored, p) >= 0
            ==> exists|j: int| 0 <= j < v.len() && #[trigger] v[j].receipt_hash@ == p
}

/// `r` is the receipt read from its own compact JWS.
pub open spec fn read_from_own_jws(r: Receipt) -> bool {
    jws_payload(r.jws@) matches Some(j) && read_from(r, j, r.jws@)
}

/// Every field of `a` and `b` holds the same value.
pub open spec fn same_receipt(a: Receipt, b: Receipt) -> bool {
    &&& a.agent_id@ == b.agent_id@
    &&& a.agent_key_id@ == b.agent_key_id@
    &&& a.operation == b.operation
    &&& names_view(a.parents@) == names_view(b.parents@)
    &&& a.input_hash@ == b.input_hash@
    &&& a.output_hash@ == b.output_hash@
    &&& a.model@ == b.model@
    &&& a.tool@ == b.tool@
    &&& a.corpus@ == b.corpus@
    &&& a.ruleset_hash@ == b.ruleset_hash@
    &&& a.guardrail_verdict@ == b.guardrail_verdict@
    &&& names_view(a.taint@) == names_view(b.taint@)
    &&& opt_text(a.tenant) == opt_text(b.tenant)
    &&& a.issued_at == b.issued_at
    &&& a.jws@ == b.jws@
    &&& a.receipt_hash@ == b.receipt_hash@
}

fn copy_strings(v: &Vec<String>) -> (res: Vec<String>)
    ensures
        names_view(res@) == names_view(v@),
{
    let mut res: Vec<String> = Vec::new();
    append_copies(&mut res, v);
    assert(names_view(res@) =~= names_view(v@));
    res
}

fn copy_receipt(r: &Receipt) -> (res: Receipt)
    ensures
        same_receipt(res, *r),
{
    Receipt {
        agent_id: r.agent_id.clone(),
        agent_key_id: r.agent_key_id.clone(),
        operation: r.operation,
        parents: copy_strings(&r.parents),
        input_hash: r.input_hash.clone(),
        output_hash: r.output_hash.clone(),
        model: r.model.clone(),
        tool: r.tool.clone(),
        corpus: r.corpus.clone(),
        ruleset_hash: r.ruleset_hash.clone(),
        guardrail_verdict: r.guardrail_verdict.clone(),
        taint: copy_strings(&r.taint),
        tenant: match &r.tenant {
            Some(t) => Some(t.clone()),
            None => None,
        },
        issued_at: r.issued_at,
        jws: r.jws.clone(),
        receipt_hash: r.receipt_hash.clone(),
    }
}

/// The receipts that reading the log lines `lines` stores.
fn read_log(lines: &Vec<String>) -> (res: Vec<Receipt>)
    ensures
        records_of(res@) == log_records(names_view(lines@)),
        forall|i: int| 0 <= i < res@.len() ==> read_from_own_jws(#[trigger] res@[i]),
{
    let mut stored: Vec<Receipt> = Vec::new();
    let ghost all = names_view(lines@);
    let n = lines.len();
    let mut i: usize = 0;
    assert(records_of(stored@) =~= log_records(all.take(0)));
    while i < n
        invariant
            i <= n,
            n == lines@.len(),
            all == names_view(lines@),
            records_of(stored@) == log_records(all.take(i as int)),
            forall|j: int| 0 <= j < stored@.len() ==> read_from_own_jws(#[trigger] stored@[j]),
        decreases n - i,
    {
        assert(all.take(i + 1).drop_last() =~= all.take(i as int));
        assert(all.take(i + 1).last() == lines@[i as int]@);
        let ghost old_stored = stored@;
        match read_entry(lines[i].as_str(), i + 1) {
            LineEntry::Entry(r, _) => {
                let ghost rec = record_of(r);
                match find_hash(&stored, r.receipt_hash.as_str()) {
                    Some(k) => {
                        stored.set(k, r);
                        assert(records_of(stored@) =~= records_of(old_stored).update(k as int, rec));
                    },
                    None => {
                        stored.push(r);
                        assert(records_of(stored@) =~= records_of(old_stored).push(rec));
                    },
                }
            },
            _ => {},
        }
        i = i + 1;
    }
    assert(all.take(n as int) =~= all);
    stored
}

/// Whether `v` holds `x`.
fn holds_index(v: &Vec<usize>, x: usize) -> (res: bool)
    ensures
        res == v@.contains(x),
{
    let n = v.len();
    let mut i: usize = 0;
    while i < n
        invariant
            i <= n,
            n == v@.len(),
            forall|j: int| 0 <= j < i ==> v@[j] != x,
        decreases n - i,
    {
        if v[i] == x {
            assert(v@[i as int] == x);
            return true;
        }
        i = i + 1;
    }
    false
}

/// A list of indices as integers.
spec fn as_ints(v: Seq<usize>) -> Seq<int> {
    v.map_values(|x: usize| x as int)
}

/// Append to `order` the indices of the stored parents of `stored[at]`
/// that it does not hold yet.
fn expand_parents(order: &mut Vec<usize>, stored: &Vec<Receipt>, at: usize)
    requires
        at < stored@.len(),
        as_ints(old(order)@).no_duplicates(),
        forall|i: int| 0 <= i < old(order)@.len() ==> #[trigger] old(order)@[i] < stored@.len(),
    ensures
        as_ints(final(order)@) == expand(
            records_of(stored@),
            as_ints(old(order)@),
            records_of(stored@)[at as int].parents,
        ),
        as_ints(final(order)@).no_duplicates(),
        forall|i: int| 0 <= i < final(order)@.len() ==> #[trigger] final(order)@[i] < stored@.len(),
        old(order)@.len() <= final(order)@.len(),
{
    let ghost recs = records_of(stored@);
    let ghost ps = recs[at as int].parents;
    let ghost o0 = as_ints(order@);
    let r = &stored[at];
    assert(ps == names_view(r.parents@));
    let m = r.parents.len();
    let mut j: usize = 0;
    while j < m
        invariant
            j <= m,
            m == r.parents@.len(),
            recs == records_of(stored@),
            ps == names_view(r.parents@),
            as_ints(order@) == expand(recs, o0, ps.take(j as int)),
            as_ints(order@).no_duplicates(),
            o0.len() <= order@.len(),
            forall|i: int| 0 <= i < order@.len() ==> #[trigger] order@[i] < stored@.len(),
        decreases m - j,
    {
        let ghost t = ps.take(j + 1);
        assert(t.drop_last() =~= ps.take(j as int));
        assert(t.last() == r.parents@[j as int]@);
        let ghost before = as_ints(order@);
        match find_hash(stored, r.parents[j].as_str()) {
            Some(i) => {
                let held = holds_index(order, i);
                assert(held == before.contains(i as int)) by {
                    if held {
                        let w = choose|w: int| 0 <= w < order@.len() && order@[w] == i;
                        assert(before[w] == i as int);
                    }
                    if before.contains(i as int) {
                        let w = choose|w: int| 0 <= w < before.len() && before[w] == i as int;
                        assert(order@[w] == i);
                    }
                }
                if !held {
                    order.push(i);
                    assert(as_ints(order@) =~= before.push(i as int));
                }
            },
            None => {},
        }
        j = j + 1;
    }
    assert(ps.take(m as int) =~= ps);
}

impl Verifier {
    /// Walk the receipt graph of a log back from the receipt with hash
    /// `receipt_hash`, following parent links breadth first, each receipt
    /// once; the receipt itself comes first.
    pub fn trace(&self, receipt_hash: &str, lines: &Vec<String>) -> (res: Result<Vec<Receipt>, VerifierError>)
        ensures
            ({
                let recs = log_records(names_view(lines@));
                let root = hash_index(recs, receipt_hash@);
                match res {
                    Err(e) => root < 0 && (e matches VerifierError::Receipt(ReceiptError::Malformed(m))
                        && m@ == "receipt "@ + receipt_hash@ + " not found in chain"@),
                    Ok(v) => root >= 0 && v@.len() == trace_order(recs, root).len() && forall|i: int|
                        0 <= i < v@.len() ==> record_of(#[trigger] v@[i]) == recs[trace_order(recs, root)[i]]
                            && read_from_own_jws(v@[i]),
                }
            }),
            res matches Ok(v) ==> traced_from(v@, receipt_hash@, log_records(names_view(lines@))),
    {
        let stored = read_log(lines);
        let ghost recs = records_of(stored@);
        let n = stored.len();
        let root = match find_hash(&stored, receipt_hash) {
            Some(i) => i,
            None => {
                let mut msg = String::from_str("receipt ");
                msg.append(receipt_hash);
                msg.append(" not found in chain");
                return Err(VerifierError::Receipt(ReceiptError::Malformed(msg)));
            },
        };
        let mut order: Vec<usize> = Vec::new();
        order.push(root);
        assert(as_ints(order@) =~= seq![root as int]);
        let mut k: usize = 0;
        while k < order.len()
            invariant
                n == stored@.len(),
                recs == records_of(stored@),
                k <= order@.len() <= n,
                as_ints(order@).no_duplicates(),
                forall|i: int| 0 <= i < order@.len() ==> #[trigger] order@[i] < n,
                walk(recs, as_ints(order@), k as nat, (n - k) as nat) == trace_order(recs, root as int),
            decreases n - k,
        {
            let at = order[k];
            expand_parents(&mut order, &stored, at);
            proof {
                let o = as_ints(order@);
                assert forall|i: int| 0 <= i < o.len() implies 0 <= #[trigger] o[i] < n by {
                    assert(o[i] == order@[i] as int);
                }
                lemma_distinct_below(o, n as nat);
            }
            k = k + 1;
        }
        let mut out: Vec<Receipt> = Vec::new();
        let ghost ord = as_ints(order@);
        let m = order.len();
        let mut i: usize = 0;
        while i < m
            invariant
                i <= m,
                m == order@.len(),
                ord == as_ints(order@),
                ord == trace_order(recs, root as int),
                recs == records_of(stored@),
                forall|j: int| 0 <= j < order@.len() ==> #[trigger] order@[j] < stored@.len(),
                forall|j: int| 0 <= j < stored@.len() ==> read_from_own_jws(#[trigger] stored@[j]),
                out@.len() == i,
                forall|j: int| 0 <= j < i ==> record_of(#[trigger] out@[j]) == recs[ord[j]]
                    && read_from_own_jws(out@[j]),
            decreases m - i,
        {
            let c = copy_receipt(&stored[order[i]]);
            assert(recs[ord[i as int]] == record_of(stored@[order@[i as int] as int]));
            out.push(c);
            i = i + 1;
        }
        proof {
            lemma_trace_order(recs, root as int);
            lemma_log_records_distinct(names_view(lines@));
            let v = out@;
            lemma_hash_index(recs, receipt_hash@);
            assert(ord[0] == root);
            assert(v[0].receipt_hash@ == record_of(v[0]).hash);
            assert(v[0].receipt_hash@ == receipt_hash@);
            assert forall|i: int, j: int| 0 <= i < j < v.len() implies #[trigger] v[i].receipt_hash@
                != #[trigger] v[j].receipt_hash@ by {
                assert(record_of(v[i]).hash == v[i].receipt_hash@);
                assert(record_of(v[j]).hash == v[j].receipt_hash@);
                assert(ord[i] != ord[j]);
                assert(recs[ord[i]].hash != recs[ord[j]].hash) by {
                    if ord[i] < ord[j] {
                        assert(recs[ord[i]].hash != recs[ord[j]].hash);
                    } else {
                        assert(recs[ord[j]].hash != recs[ord[i]].hash);
                    }
                }
            }
            assert forall|i: int, p: Seq<char>|
                0 <= i < v.len() && #[trigger] names_view(v[i].parents@).contains(p) && hash_index(recs, p) >= 0
                    implies exists|j: int| 0 <= j < v.len() && #[trigger] v[j].receipt_hash@ == p by {
                assert(record_of(v[i]).parents == names_view(v[i].parents@));
                assert(recs[ord[i]].parents.contains(p));
                let j = choose|j: int| 0 <= j < ord.len() && ord[j] == hash_index(recs, p);
                lemma_hash_index(recs, p);
                assert(record_of(v[j]).hash == v[j].receipt_hash@);
            }
        }
        Ok(out)
    }
}

} // verus!
