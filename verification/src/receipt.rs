//! Receipts: signed compact-JWS records of one step of a workflow.

use vstd::prelude::*;
use vstd::utf8::encode_utf8;
use crate::b64::{b64url_decode, b64url_decoded, b64url_encode, b64url_text, decode_error_message, is_b64url_char};
use crate::canonical::{canonical, canonicalize_value};
use crate::hash::{hash_text, prefixed_hash};
use crate::identity::AgentIdentity;
use crate::json::{
    Json, JsonNumber, JsonValue, get_i64, get_string, get_strings, get_text, i64_field, json_parse,
    members_view, normal, object, parse_json, plain, push_member, str_field, str_list, string_array, strings_field,
    text_field, field, member, lemma_member_concat, lemma_normal_field, lemma_plain_members,
    lemma_str_list,
};
use crate::keys::ed25519_signature;
use crate::sort::{distinct_keys, drop_repeated, lemma_name_set, name_set, names_view, sort_names, sort_strings, strictly_sorted};
use crate::text::{
    debug_quoted, debug_text, lemma_split_on_append, lemma_split_on_whole, push_char, split_char,
    split_on, str_eq,
};

verus! {

/// `typ` value in the JOSE header and payload.
pub const RECEIPT_TYP: &'static str = "provenance-receipt/v1";

/// Required entry in the JWS `crit` array.
pub const RAUCLE_VERSION_TAG: &'static str = "raucle/v1";

/// `iss` value emitted by this implementation.
pub const ISSUER: &'static str = "raucle-detect/provenance";

/// One of the eight operation types.
#[derive(Debug, Clone, Copy, PartialEq, Eq, Hash, Structural)]
pub enum Operation {
    UserInput,
    ModelCall,
    ToolCall,
    Retrieval,
    GuardrailScan,
    AgentHandoff,
    Sanitisation,
    Merge,
}

/// The wire name of an operation.
pub open spec fn op_name(op: Operation) -> Seq<char> {
    match op {
        Operation::UserInput => "user_input"@,
        Operation::ModelCall => "model_call"@,
        Operation::ToolCall => "tool_call"@,
        Operation::Retrieval => "retrieval"@,
        Operation::GuardrailScan => "guardrail_scan"@,
        Operation::AgentHandoff => "agent_handoff"@,
        Operation::Sanitisation => "sanitisation"@,
        Operation::Merge => "merge"@,
    }
}

/// The operation a wire name denotes, if any.
pub open spec fn op_named(s: Seq<char>) -> Option<Operation> {
    if s == "user_input"@ {
        Some(Operation::UserInput)
    } else if s == "model_call"@ {
        Some(Operation::ModelCall)
    } else if s == "tool_call"@ {
        Some(Operation::ToolCall)
    } else if s == "retrieval"@ {
        Some(Operation::Retrieval)
    } else if s == "guardrail_scan"@ {
        Some(Operation::GuardrailScan)
    } else if s == "agent_handoff"@ {
        Some(Operation::AgentHandoff)
    } else if s == "sanitisation"@ {
        Some(Operation::Sanitisation)
    } else if s == "merge"@ {
        Some(Operation::Merge)
    } else {
        None
    }
}

impl Operation {
    /// The wire name of the operation.
    pub fn as_str(&self) -> (res: &'static str)
        ensures
            res@ == op_name(*self),
    {
        match self {
            Operation::UserInput => "user_input",
            Operation::ModelCall => "model_call",
            Operation::ToolCall => "tool_call",
            Operation::Retrieval => "retrieval",
            Operation::GuardrailScan => "guardrail_scan",
            Operation::AgentHandoff => "agent_handoff",
            Operation::Sanitisation => "sanitisation",
            Operation::Merge => "merge",
        }
    }

    /// The operation named by a wire name.
    pub fn parse(s: &str) -> (res: Option<Self>)
        ensures
            res == op_named(s@),
    {
        if str_eq(s, "user_input") {
            Some(Operation::UserInput)
        } else if str_eq(s, "model_call") {
            Some(Operation::ModelCall)
        } else if str_eq(s, "tool_call") {
            Some(Operation::ToolCall)
        } else if str_eq(s, "retrieval") {
            Some(Operation::Retrieval)
        } else if str_eq(s, "guardrail_scan") {
            Some(Operation::GuardrailScan)
        } else if str_eq(s, "agent_handoff") {
            Some(Operation::AgentHandoff)
        } else if str_eq(s, "sanitisation") {
            Some(Operation::Sanitisation)
        } else if str_eq(s, "merge") {
            Some(Operation::Merge)
        } else {
            None
        }
    }
}

/// Parsing the name of an operation gives the operation back, and no other
/// operation has the same name.
pub proof fn lemma_operation_names(op: Operation, other: Operation)
    ensures
        op_named(op_name(op)) == Some(op),
        op_name(op) == op_name(other) ==> op == other,
{
    reveal_strlit("user_input");
    reveal_strlit("model_call");
    reveal_strlit("tool_call");
    reveal_strlit("retrieval");
    reveal_strlit("guardrail_scan");
    reveal_strlit("agent_handoff");
    reveal_strlit("sanitisation");
    reveal_strlit("merge");
    assert("user_input"@.len() == 10 && "user_input"@[0] == 'u');
    assert("model_call"@.len() == 10 && "model_call"@[0] == 'm');
    assert("tool_call"@.len() == 9 && "tool_call"@[0] == 't');
    assert("retrieval"@.len() == 9 && "retrieval"@[0] == 'r');
    assert("guardrail_scan"@.len() == 14 && "guardrail_scan"@[0] == 'g');
    assert("agent_handoff"@.len() == 13 && "agent_handoff"@[0] == 'a');
    assert("sanitisation"@.len() == 12 && "sanitisation"@[0] == 's');
    assert("merge"@.len() == 5 && "merge"@[0] == 'm');
}

/// Errors raised by receipt operations.
#[derive(Debug)]
pub enum ReceiptError {
    Malformed(String),
    DecodeBase64(String),
    DecodeJson(String),
    UnknownOperation(String),
    Sign(String),
}

/// The message a receipt error displays.
pub open spec fn receipt_error_text(e: ReceiptError) -> Seq<char> {
    match e {
        ReceiptError::Malformed(m) => "malformed receipt: "@ + m@,
        ReceiptError::DecodeBase64(m) => "base64 decode error: "@ + m@,
        ReceiptError::DecodeJson(m) => "JSON decode error: "@ + m@,
        ReceiptError::UnknownOperation(op) => "unknown operation: "@ + debug_text(op@),
        ReceiptError::Sign(m) => "sign error: "@ + m@,
    }
}

fn prefixed(prefix: &str, rest: &str) -> (res: String)
    ensures
        res@ == prefix@ + rest@,
{
    let mut s = String::from_str(prefix);
    s.append(rest);
    s
}

impl ReceiptError {
    /// The human-readable message for this error.
    pub fn message(&self) -> (res: String)
        ensures
            res@ == receipt_error_text(*self),
    {
        match self {
            ReceiptError::Malformed(m) => prefixed("malformed receipt: ", m.as_str()),
            ReceiptError::DecodeBase64(m) => prefixed("base64 decode error: ", m.as_str()),
            ReceiptError::DecodeJson(m) => prefixed("JSON decode error: ", m.as_str()),
            ReceiptError::UnknownOperation(op) => {
                let d = debug_quoted(op.as_str());
                prefixed("unknown operation: ", d.as_str())
            },
            ReceiptError::Sign(m) => prefixed("sign error: ", m.as_str()),
        }
    }
}

/// A provenance receipt.
#[derive(Debug, Clone)]
pub struct Receipt {
    pub agent_id: String,
    pub agent_key_id: String,
    pub operation: Operation,
    pub parents: Vec<String>,
    pub input_hash: String,
    pub output_hash: String,
    pub model: String,
    pub tool: String,
    pub corpus: String,
    pub ruleset_hash: String,
    pub guardrail_verdict: String,
    pub taint: Vec<String>,
    pub tenant: Option<String>,
    pub issued_at: i64,
    /// Set by [`Receipt::sign`] or [`Receipt::from_jws`].
    pub jws: String,
    pub receipt_hash: String,
}

/// A member holding `value`, present only when `value` is not empty.
pub open spec fn optional_member(key: Seq<char>, value: Seq<char>) -> Seq<(Seq<char>, Json)> {
    if value.len() == 0 {
        Seq::empty()
    } else {
        seq![(key, Json::Str(value))]
    }
}

/// The members of the signed payload of a receipt: `parents` sorted, and
/// `taint` as a sorted set.
pub open spec fn payload_members(r: Receipt) -> Seq<(Seq<char>, Json)> {
    fixed_members(r) + optional_member("input_hash"@, r.input_hash@) + optional_member(
        "output_hash"@,
        r.output_hash@,
    ) + optional_member("model"@, r.model@) + optional_member("tool"@, r.tool@) + optional_member(
        "corpus"@,
        r.corpus@,
    ) + optional_member("ruleset_hash"@, r.ruleset_hash@) + optional_member(
        "guardrail_verdict"@,
        r.guardrail_verdict@,
    ) + tenant_member(r.tenant)
}

/// The members every payload has.
pub open spec fn fixed_members(r: Receipt) -> Seq<(Seq<char>, Json)> {
    seq![
        ("iss"@, Json::Str(ISSUER@)),
        ("typ"@, Json::Str(RECEIPT_TYP@)),
        ("iat"@, Json::Int(r.issued_at as int)),
        ("agent_id"@, Json::Str(r.agent_id@)),
        ("agent_key_id"@, Json::Str(r.agent_key_id@)),
        ("operation"@, Json::Str(op_name(r.operation))),
        ("parents"@, str_list(sort_names(names_view(r.parents@)))),
        ("taint"@, str_list(name_set(names_view(r.taint@)))),
    ]
}

/// The `tenant` member, present when the receipt names a tenant.
pub open spec fn tenant_member(tenant: Option<String>) -> Seq<(Seq<char>, Json)> {
    match tenant {
        Some(t) => seq![("tenant"@, Json::Str(t@))],
        None => Seq::empty(),
    }
}

/// The signed payload of a receipt.
pub open spec fn payload_json(r: Receipt) -> Json {
    Json::Object(payload_members(r))
}

/// The content of two receipts agrees in every field but `jws` and
/// `receipt_hash`.
pub open spec fn same_content(a: Receipt, b: Receipt) -> bool {
    &&& a.agent_id@ == b.agent_id@
    &&& a.agent_key_id@ == b.agent_key_id@
    &&& a.operation == b.operation
    &&& names_view(a.parents@) == names_view(b.parents@)
    &&& a.input_hash@ == b.input_hash@
    &&& a.output_hash@ == b.output_hash@
    &&& a.model@ == b.model@
    &&& a.tool@ == b.tool@
    &&& a.corpus@ == b.corpus@
    &&& a.ruleset_hash@ == b.ruleset_hash@
    &&& a.guardrail_verdict@ == b.guardrail_verdict@
    &&& names_view(a.taint@) == names_view(b.taint@)
    &&& a.tenant == b.tenant
    &&& a.issued_at == b.issued_at
}

fn push_if_set(m: &mut Vec<(String, JsonValue)>, key: &str, value: &String)
    ensures
        members_view(*final(m), final(m)@.len()) == members_view(*old(m), old(m)@.len())
            + optional_member(key@, value@),
{
    if !value.as_str().is_empty() {
        push_member(m, key, JsonValue::Str(value.clone()));
        assert(members_view(*m, m@.len()) =~= members_view(*old(m), old(m)@.len())
            + optional_member(key@, value@));
    } else {
        assert(members_view(*m, m@.len()) =~= members_view(*old(m), old(m)@.len())
            + optional_member(key@, value@));
    }
}

impl Receipt {
    /// A receipt with the given identity, operation and time, and every
    /// other field empty.
    pub fn new(agent_id: String, agent_key_id: String, operation: Operation, issued_at: i64) -> (res: Self)
        ensures
            res.agent_id == agent_id,
            res.agent_key_id == agent_key_id,
            res.operation == operation,
            res.parents@.len() == 0,
            res.input_hash@.len() == 0,
            res.output_hash@.len() == 0,
            res.model@.len() == 0,
            res.tool@.len() == 0,
            res.corpus@.len() == 0,
            res.ruleset_hash@.len() == 0,
            res.guardrail_verdict@.len() == 0,
            res.taint@.len() == 0,
            res.tenant is None,
            res.issued_at == issued_at,
            res.jws@.len() == 0,
            res.receipt_hash@.len() == 0,
    {
        Receipt {
            agent_id,
            agent_key_id,
            operation,
            parents: Vec::new(),
            input_hash: String::new(),
            output_hash: String::new(),
            model: String::new(),
            tool: String::new(),
            corpus: String::new(),
            ruleset_hash: String::new(),
            guardrail_verdict: String::new(),
            taint: Vec::new(),
            tenant: None,
            issued_at,
            jws: String::new(),
            receipt_hash: String::new(),
        }
    }

    fn payload_member_list(&self) -> (res: Vec<(String, JsonValue)>)
        ensures
            members_view(res, res@.len()) == payload_members(*self),
    {
        let mut m: Vec<(String, JsonValue)> = Vec::new();
        push_member(&mut m, "iss", JsonValue::Str(String::from_str(ISSUER)));
        push_member(&mut m, "typ", JsonValue::Str(String::from_str(RECEIPT_TYP)));
        push_member(&mut m, "iat", JsonValue::Number(JsonNumber::Int(self.issued_at)));
        push_member(&mut m, "agent_id", JsonValue::Str(self.agent_id.clone()));
        push_member(&mut m, "agent_key_id", JsonValue::Str(self.agent_key_id.clone()));
        push_member(&mut m, "operation", JsonValue::Str(String::from_str(self.operation.as_str())));
        push_member(&mut m, "parents", string_array(&sort_strings(&self.parents)));
        push_member(&mut m, "taint", string_array(&drop_repeated(&sort_strings(&self.taint))));
        push_if_set(&mut m, "input_hash", &self.input_hash);
        push_if_set(&mut m, "output_hash", &self.output_hash);
        push_if_set(&mut m, "model", &self.model);
        push_if_set(&mut m, "tool", &self.tool);
        push_if_set(&mut m, "corpus", &self.corpus);
        push_if_set(&mut m, "ruleset_hash", &self.ruleset_hash);
        push_if_set(&mut m, "guardrail_verdict", &self.guardrail_verdict);
        match &self.tenant {
            Some(t) => {
                push_member(&mut m, "tenant", JsonValue::Str(t.clone()));
            },
            None => {},
        }
        assert(members_view(m, m@.len()) =~= payload_members(*self));
        m
    }

    /// The canonical signed payload.
    pub fn payload(&self) -> (res: JsonValue)
        ensures
            res@ == payload_json(*self),
            strictly_sorted(name_set(names_view(self.taint@))),
            forall|t: Seq<char>| #[trigger] name_set(names_view(self.taint@)).contains(t) <==> names_view(
                self.taint@,
            ).contains(t),
    {
        proof { lemma_name_set(names_view(self.taint@)); }
        object(self.payload_member_list())
    }

    /// The log record: the payload with `receipt_hash` and `jws` added.
    pub fn to_log_line(&self) -> (res: JsonValue)
        ensures
            res@ == Json::Object(
                payload_members(*self) + seq![
                    ("receipt_hash"@, Json::Str(self.receipt_hash@)),
                    ("jws"@, Json::Str(self.jws@)),
                ],
            ),
    {
        let mut m = self.payload_member_list();
        push_member(&mut m, "receipt_hash", JsonValue::Str(self.receipt_hash.clone()));
        push_member(&mut m, "jws", JsonValue::Str(self.jws.clone()));
        let res = object(m);
        assert(members_view(m, m@.len()) =~= payload_members(*self) + seq![
            ("receipt_hash"@, Json::Str(self.receipt_hash@)),
            ("jws"@, Json::Str(self.jws@)),
        ]);
        res
    }
}

/// The JOSE header of a receipt signed under key id `kid`.
pub open spec fn header_json(kid: Seq<char>) -> Json {
    Json::Object(
        seq![
            ("alg"@, Json::Str("EdDSA"@)),
            ("typ"@, Json::Str(RECEIPT_TYP@)),
            ("kid"@, Json::Str(kid)),
            ("crit"@, Json::Array(seq![Json::Str(RAUCLE_VERSION_TAG@)])),
            (RAUCLE_VERSION_TAG@, Json::Str("provenance"@)),
        ],
    )
}

/// A JWS segment: base64url of the UTF-8 canonical JSON of a value.
pub open spec fn segment_of(j: Json) -> Seq<char> {
    b64url_text(encode_utf8(canonical(j)))
}

/// The JWS signing input: header segment, `.`, payload segment.
pub open spec fn signing_input_of(r: Receipt, kid: Seq<char>) -> Seq<char> {
    segment_of(header_json(kid)) + seq!['.'] + segment_of(payload_json(r))
}

/// The compact JWS of a receipt signed with key id `kid` by the key with
/// secret seed `seed`.
pub open spec fn signed_jws(r: Receipt, kid: Seq<char>, seed: Seq<u8>) -> Seq<char> {
    let input = signing_input_of(r, kid);
    input + seq!['.'] + b64url_text(ed25519_signature(seed, encode_utf8(input)))
}

/// Why a compact JWS string is not a receipt, leaving out texts that come
/// from the base64 and JSON decoders.
pub enum ReceiptFault {
    Malformed(Seq<char>),
    DecodeBase64,
    DecodeJson,
    UnknownOperation(Seq<char>),
    Sign(Seq<char>),
}

/// The fault a receipt error reports.
pub open spec fn fault_of(e: ReceiptError) -> ReceiptFault {
    match e {
        ReceiptError::Malformed(m) => ReceiptFault::Malformed(m@),
        ReceiptError::DecodeBase64(_) => ReceiptFault::DecodeBase64,
        ReceiptError::DecodeJson(_) => ReceiptFault::DecodeJson,
        ReceiptError::UnknownOperation(op) => ReceiptFault::UnknownOperation(op@),
        ReceiptError::Sign(m) => ReceiptFault::Sign(m@),
    }
}

/// The payload document of a compact JWS, when its middle segment decodes
/// to JSON.
pub open spec fn jws_payload(jws: Seq<char>) -> Option<Json> {
    let parts = split_on(jws, '.');
    if parts.len() != 3 {
        None
    } else {
        match b64url_decoded(parts[1]) {
            Some(bytes) => json_parse(bytes),
            None => None,
        }
    }
}

/// The fault that makes `jws` unreadable as a receipt, if any.
pub open spec fn jws_fault(jws: Seq<char>) -> Option<ReceiptFault> {
    let parts = split_on(jws, '.');
    if parts.len() != 3 {
        Some(ReceiptFault::Malformed("expected three dot-separated segments"@))
    } else {
        match b64url_decoded(parts[1]) {
            None => Some(ReceiptFault::DecodeBase64),
            Some(bytes) => match json_parse(bytes) {
                None => Some(ReceiptFault::DecodeJson),
                Some(j) => if !(j is Object) {
                    Some(ReceiptFault::Malformed("payload is not an object"@))
                } else {
                    match str_field(j, "operation"@) {
                        None => Some(ReceiptFault::Malformed("missing 'operation'"@)),
                        Some(o) => if op_named(o) is None {
                            Some(ReceiptFault::UnknownOperation(o))
                        } else {
                            None
                        },
                    }
                },
            },
        }
    }
}

/// The text of an optional string.
pub open spec fn opt_text(o: Option<String>) -> Option<Seq<char>> {
    match o {
        Some(s) => Some(s@),
        None => None,
    }
}

/// `r` is the receipt read from payload `j` of the compact JWS `jws`:
/// missing or mistyped fields read as empty (and `iat` as 0).
pub open spec fn read_from(r: Receipt, j: Json, jws: Seq<char>) -> bool {
    &&& str_field(j, "operation"@) matches Some(o) && op_named(o) == Some(r.operation)
    &&& r.agent_id@ == text_field(j, "agent_id"@)
    &&& r.agent_key_id@ == text_field(j, "agent_key_id"@)
    &&& r.issued_at == i64_field(j, "iat"@)
    &&& names_view(r.parents@) == strings_field(j, "parents"@)
    &&& r.input_hash@ == text_field(j, "input_hash"@)
    &&& r.output_hash@ == text_field(j, "output_hash"@)
    &&& r.model@ == text_field(j, "model"@)
    &&& r.tool@ == text_field(j, "tool"@)
    &&& r.corpus@ == text_field(j, "corpus"@)
    &&& r.ruleset_hash@ == text_field(j, "ruleset_hash"@)
    &&& r.guardrail_verdict@ == text_field(j, "guardrail_verdict"@)
    &&& names_view(r.taint@) == strings_field(j, "taint"@)
    &&& opt_text(r.tenant) == str_field(j, "tenant"@)
    &&& r.jws@ == jws
    &&& r.receipt_hash@ == prefixed_hash(encode_utf8(jws))
}

/// `jws` has three segments, and the third decodes to the (64-byte)
/// signature of the key with secret seed `seed` over the first two joined
/// by `.`.
pub open spec fn signed_by(jws: Seq<char>, seed: Seq<u8>) -> bool {
    let parts = split_on(jws, '.');
    &&& parts.len() == 3
    &&& b64url_decoded(parts[2]) == Some(
        ed25519_signature(seed, encode_utf8(parts[0] + seq!['.'] + parts[1])),
    )
    &&& ed25519_signature(seed, encode_utf8(parts[0] + seq!['.'] + parts[1])).len() == 64
}

/// The lengths and first characters of the payload's keys, enough to tell
/// them apart.
proof fn lemma_payload_keys()
    ensures
        "iss"@.len() == 3 && "iss"@[0] == 'i' && "iss"@[1] == 's',
        "typ"@.len() == 3 && "typ"@[0] == 't' && "typ"@[1] == 'y',
        "iat"@.len() == 3 && "iat"@[0] == 'i' && "iat"@[1] == 'a',
        "agent_id"@.len() == 8 && "agent_id"@[0] == 'a' && "agent_id"@[1] == 'g',
        "agent_key_id"@.len() == 12 && "agent_key_id"@[0] == 'a' && "agent_key_id"@[1] == 'g',
        "operation"@.len() == 9 && "operation"@[0] == 'o' && "operation"@[1] == 'p',
        "parents"@.len() == 7 && "parents"@[0] == 'p' && "parents"@[1] == 'a',
        "taint"@.len() == 5 && "taint"@[0] == 't' && "taint"@[1] == 'a',
        "input_hash"@.len() == 10 && "input_hash"@[0] == 'i' && "input_hash"@[1] == 'n',
        "output_hash"@.len() == 11 && "output_hash"@[0] == 'o' && "output_hash"@[1] == 'u',
        "model"@.len() == 5 && "model"@[0] == 'm' && "model"@[1] == 'o',
        "tool"@.len() == 4 && "tool"@[0] == 't' && "tool"@[1] == 'o',
        "corpus"@.len() == 6 && "corpus"@[0] == 'c' && "corpus"@[1] == 'o',
        "ruleset_hash"@.len() == 12 && "ruleset_hash"@[0] == 'r' && "ruleset_hash"@[1] == 'u',
        "guardrail_verdict"@.len() == 17 && "guardrail_verdict"@[0] == 'g' && "guardrail_verdict"@[1] == 'u',
        "tenant"@.len() == 6 && "tenant"@[0] == 't' && "tenant"@[1] == 'e',
{
    reveal_strlit("iss");
    reveal_strlit("typ");
    reveal_strlit("iat");
    reveal_strlit("agent_id");
    reveal_strlit("agent_key_id");
    reveal_strlit("operation");
    reveal_strlit("parents");
    reveal_strlit("taint");
    reveal_strlit("input_hash");
    reveal_strlit("output_hash");
    reveal_strlit("model");
    reveal_strlit("tool");
    reveal_strlit("corpus");
    reveal_strlit("ruleset_hash");
    reveal_strlit("guardrail_verdict");
    reveal_strlit("tenant");
}

/// `t`, of at most one member, keyed `k` with a string, adds a new key to
/// `s`, whose keys are among `ks` and whose values are plain.
proof fn lemma_add_member(
    s: Seq<(Seq<char>, Json)>,
    t: Seq<(Seq<char>, Json)>,
    ks: Set<Seq<char>>,
    k: Seq<char>,
)
    requires
        distinct_keys(s),
        forall|i: int| 0 <= i < s.len() ==> ks.contains(#[trigger] s[i].0),
        forall|i: int| 0 <= i < s.len() ==> plain(#[trigger] s[i].1, 99),
        !ks.contains(k),
        t.len() <= 1,
        forall|i: int| #![trigger t[i]] 0 <= i < t.len() ==> t[i].0 == k && t[i].1 is Str,
    ensures
        distinct_keys(s + t),
        forall|i: int| 0 <= i < (s + t).len() ==> ks.insert(k).contains(#[trigger] (s + t)[i].0),
        forall|i: int| 0 <= i < (s + t).len() ==> plain(#[trigger] (s + t)[i].1, 99),
{
    let u = s + t;
    assert forall|i: int, j: int| #![trigger u[i], u[j]] 0 <= i < j < u.len() implies u[i].0 != u[j].0 by {
        if j >= s.len() {
            assert(u[j] == t[j - s.len()]);
            if i < s.len() {
                assert(u[i] == s[i]);
                assert(ks.contains(s[i].0));
            }
        } else {
            assert(u[i] == s[i] && u[j] == s[j]);
        }
    }
    assert forall|i: int| 0 <= i < u.len() implies ks.insert(k).contains(#[trigger] u[i].0) && plain(u[i].1, 99) by {
        if i >= s.len() {
            assert(u[i] == t[i - s.len()]);
            assert(plain(t[i - s.len()].1, 99));
        } else {
            assert(u[i] == s[i]);
        }
    }
}

/// The payload of a receipt is plain: its keys are distinct and its values
/// are strings, an integer and lists of strings.
pub proof fn lemma_payload_plain(r: Receipt)
    ensures
        distinct_keys(payload_members(r)),
        plain(payload_json(r), 100),
{
    lemma_payload_keys();
    let p0 = fixed_members(r);
    let k0 = Set::<Seq<char>>::empty().insert("iss"@).insert("typ"@).insert("iat"@).insert("agent_id"@).insert(
        "agent_key_id"@,
    ).insert("operation"@).insert("parents"@).insert("taint"@);
    lemma_str_list(sort_names(names_view(r.parents@)), 99);
    lemma_str_list(name_set(names_view(r.taint@)), 99);
    assert(distinct_keys(p0));
    assert forall|i: int| 0 <= i < p0.len() implies k0.contains(#[trigger] p0[i].0) && plain(p0[i].1, 99) by {}
    let p1 = p0 + optional_member("input_hash"@, r.input_hash@);
    lemma_add_member(p0, optional_member("input_hash"@, r.input_hash@), k0, "input_hash"@);
    let k1 = k0.insert("input_hash"@);
    let p2 = p1 + optional_member("output_hash"@, r.output_hash@);
    lemma_add_member(p1, optional_member("output_hash"@, r.output_hash@), k1, "output_hash"@);
    let k2 = k1.insert("output_hash"@);
    let p3 = p2 + optional_member("model"@, r.model@);
    lemma_add_member(p2, optional_member("model"@, r.model@), k2, "model"@);
    let k3 = k2.insert("model"@);
    let p4 = p3 + optional_member("tool"@, r.tool@);
    lemma_add_member(p3, optional_member("tool"@, r.tool@), k3, "tool"@);
    let k4 = k3.insert("tool"@);
    let p5 = p4 + optional_member("corpus"@, r.corpus@);
    lemma_add_member(p4, optional_member("corpus"@, r.corpus@), k4, "corpus"@);
    let k5 = k4.insert("corpus"@);
    let p6 = p5 + optional_member("ruleset_hash"@, r.ruleset_hash@);
    lemma_add_member(p5, optional_member("ruleset_hash"@, r.ruleset_hash@), k5, "ruleset_hash"@);
    let k6 = k5.insert("ruleset_hash"@);
    let p7 = p6 + optional_member("guardrail_verdict"@, r.guardrail_verdict@);
    lemma_add_member(p6, optional_member("guardrail_verdict"@, r.guardrail_verdict@), k6, "guardrail_verdict"@);
    let k7 = k6.insert("guardrail_verdict"@);
    let tail = tenant_member(r.tenant);
    lemma_add_member(p7, tail, k7, "tenant"@);
    let p8 = p7 + tail;
    assert(payload_members(r) == p8);
    lemma_plain_members(p8, p8.len(), 99);
}

/// `a` when it holds a value, else `b`.
pub open spec fn first_found(a: Option<Json>, b: Option<Json>) -> Option<Json> {
    if a is Some {
        a
    } else {
        b
    }
}

/// The value of the members every payload has under key `k`.
pub open spec fn fixed_value(r: Receipt, k: Seq<char>) -> Option<Json> {
    if k == "iss"@ {
        Some(Json::Str(ISSUER@))
    } else     if k == "typ"@ {
        Some(Json::Str(RECEIPT_TYP@))
    } else     if k == "iat"@ {
        Some(Json::Int(r.issued_at as int))
    } else     if k == "agent_id"@ {
        Some(Json::Str(r.agent_id@))
    } else     if k == "agent_key_id"@ {
        Some(Json::Str(r.agent_key_id@))
    } else     if k == "operation"@ {
        Some(Json::Str(op_name(r.operation)))
    } else     if k == "parents"@ {
        Some(str_list(sort_names(names_view(r.parents@))))
    } else     if k == "taint"@ {
        Some(str_list(name_set(names_view(r.taint@))))
    } else {
        None
    }
}

/// The value of an optional member under key `k`.
pub open spec fn optional_value(key: Seq<char>, value: Seq<char>, k: Seq<char>) -> Option<Json> {
    if k == key && value.len() > 0 {
        Some(Json::Str(value))
    } else {
        None
    }
}

/// The value of the `tenant` member under key `k`.
pub open spec fn tenant_value(tenant: Option<String>, k: Seq<char>) -> Option<Json> {
    match tenant {
        Some(t) => if k == "tenant"@ {
            Some(Json::Str(t@))
        } else {
            None
        },
        None => None,
    }
}

/// The value the payload of `r` holds under key `k`: the first member with
/// that key, in the payload's order.
pub open spec fn payload_value(r: Receipt, k: Seq<char>) -> Option<Json> {
    first_found(first_found(first_found(first_found(first_found(first_found(first_found(first_found(fixed_value(r, k), optional_value("input_hash"@, r.input_hash@, k)), optional_value("output_hash"@, r.output_hash@, k)), optional_value("model"@, r.model@, k)), optional_value("tool"@, r.tool@, k)), optional_value("corpus"@, r.corpus@, k)), optional_value("ruleset_hash"@, r.ruleset_hash@, k)), optional_value("guardrail_verdict"@, r.guardrail_verdict@, k)), tenant_value(r.tenant, k))
}

proof fn lemma_optional_value(key: Seq<char>, value: Seq<char>, k: Seq<char>)
    ensures
        member(optional_member(key, value), k) == optional_value(key, value, k),
{
    reveal_with_fuel(member, 2);
}

proof fn lemma_fixed_value(r: Receipt, k: Seq<char>)
    ensures
        member(fixed_members(r), k) == fixed_value(r, k),
{
    reveal_with_fuel(member, 9);
}

proof fn lemma_tenant_value(tenant: Option<String>, k: Seq<char>)
    ensures
        member(tenant_member(tenant), k) == tenant_value(tenant, k),
{
    reveal_with_fuel(member, 2);
}

/// Looking up any key in the payload gives `payload_value`.
pub proof fn lemma_payload_member(r: Receipt, k: Seq<char>)
    ensures
        member(payload_members(r), k) == payload_value(r, k),
{
    let p0 = fixed_members(r);
    let p1 = p0 + optional_member("input_hash"@, r.input_hash@);
    let p2 = p1 + optional_member("output_hash"@, r.output_hash@);
    let p3 = p2 + optional_member("model"@, r.model@);
    let p4 = p3 + optional_member("tool"@, r.tool@);
    let p5 = p4 + optional_member("corpus"@, r.corpus@);
    let p6 = p5 + optional_member("ruleset_hash"@, r.ruleset_hash@);
    let p7 = p6 + optional_member("guardrail_verdict"@, r.guardrail_verdict@);
    let p8 = p7 + tenant_member(r.tenant);
    lemma_member_concat(p7, tenant_member(r.tenant), k);
    lemma_member_concat(p6, optional_member("guardrail_verdict"@, r.guardrail_verdict@), k);
    lemma_member_concat(p5, optional_member("ruleset_hash"@, r.ruleset_hash@), k);
    lemma_member_concat(p4, optional_member("corpus"@, r.corpus@), k);
    lemma_member_concat(p3, optional_member("tool"@, r.tool@), k);
    lemma_member_concat(p2, optional_member("model"@, r.model@), k);
    lemma_member_concat(p1, optional_member("output_hash"@, r.output_hash@), k);
    lemma_member_concat(p0, optional_member("input_hash"@, r.input_hash@), k);
    lemma_optional_value("input_hash"@, r.input_hash@, k);
    lemma_optional_value("output_hash"@, r.output_hash@, k);
    lemma_optional_value("model"@, r.model@, k);
    lemma_optional_value("tool"@, r.tool@, k);
    lemma_optional_value("corpus"@, r.corpus@, k);
    lemma_optional_value("ruleset_hash"@, r.ruleset_hash@, k);
    lemma_optional_value("guardrail_verdict"@, r.guardrail_verdict@, k);
    lemma_fixed_value(r, k);
    lemma_tenant_value(r.tenant, k);
}

/// `q` holds what reading `r`'s payload back gives: `r`'s fields, with the
/// parents sorted and the taint as a sorted set.
pub open spec fn reads_back_as(q: Receipt, r: Receipt) -> bool {
    &&& q.agent_id@ == r.agent_id@
    &&& q.agent_key_id@ == r.agent_key_id@
    &&& q.operation == r.operation
    &&& q.issued_at == r.issued_at
    &&& names_view(q.parents@) == sort_names(names_view(r.parents@))
    &&& names_view(q.taint@) == name_set(names_view(r.taint@))
    &&& q.input_hash@ == r.input_hash@
    &&& q.output_hash@ == r.output_hash@
    &&& q.model@ == r.model@
    &&& q.tool@ == r.tool@
    &&& q.corpus@ == r.corpus@
    &&& q.ruleset_hash@ == r.ruleset_hash@
    &&& q.guardrail_verdict@ == r.guardrail_verdict@
    &&& opt_text(q.tenant) == opt_text(r.tenant)
}

/// The normal form of a receipt's payload names its operation, and a
/// receipt read from it holds the receipt's own fields.
#[verifier::rlimit(40)]
pub proof fn lemma_payload_reads_back(r: Receipt)
    ensures
        str_field(normal(payload_json(r)), "operation"@) == Some(op_name(r.operation)),
        normal(payload_json(r)) is Object,
        forall|q: Receipt, jws: Seq<char>| #[trigger] read_from(q, normal(payload_json(r)), jws) ==> reads_back_as(q, r),
{
    lemma_payload_plain(r);
    lemma_payload_keys();
    let m = payload_members(r);
    lemma_payload_member(r, "iat"@);
    lemma_normal_field(m, "iat"@);
    lemma_payload_member(r, "agent_id"@);
    lemma_normal_field(m, "agent_id"@);
    lemma_payload_member(r, "agent_key_id"@);
    lemma_normal_field(m, "agent_key_id"@);
    lemma_payload_member(r, "operation"@);
    lemma_normal_field(m, "operation"@);
    lemma_payload_member(r, "parents"@);
    lemma_normal_field(m, "parents"@);
    lemma_payload_member(r, "taint"@);
    lemma_normal_field(m, "taint"@);
    lemma_payload_member(r, "input_hash"@);
    lemma_normal_field(m, "input_hash"@);
    lemma_payload_member(r, "output_hash"@);
    lemma_normal_field(m, "output_hash"@);
    lemma_payload_member(r, "model"@);
    lemma_normal_field(m, "model"@);
    lemma_payload_member(r, "tool"@);
    lemma_normal_field(m, "tool"@);
    lemma_payload_member(r, "corpus"@);
    lemma_normal_field(m, "corpus"@);
    lemma_payload_member(r, "ruleset_hash"@);
    lemma_normal_field(m, "ruleset_hash"@);
    lemma_payload_member(r, "guardrail_verdict"@);
    lemma_normal_field(m, "guardrail_verdict"@);
    lemma_payload_member(r, "tenant"@);
    lemma_normal_field(m, "tenant"@);
    lemma_str_list(sort_names(names_view(r.parents@)), 1);
    lemma_str_list(name_set(names_view(r.taint@)), 1);
    lemma_operation_names(r.operation, r.operation);
    if r.input_hash@.len() == 0 {
        assert(r.input_hash@ =~= Seq::<char>::empty());
    }
    if r.output_hash@.len() == 0 {
        assert(r.output_hash@ =~= Seq::<char>::empty());
    }
    if r.model@.len() == 0 {
        assert(r.model@ =~= Seq::<char>::empty());
    }
    if r.tool@.len() == 0 {
        assert(r.tool@ =~= Seq::<char>::empty());
    }
    if r.corpus@.len() == 0 {
        assert(r.corpus@ =~= Seq::<char>::empty());
    }
    if r.ruleset_hash@.len() == 0 {
        assert(r.ruleset_hash@ =~= Seq::<char>::empty());
    }
    if r.guardrail_verdict@.len() == 0 {
        assert(r.guardrail_verdict@ =~= Seq::<char>::empty());
    }
}

/// Reading back what `sign` wrote. Where the payload segment of `jws`
/// decodes to the canonical payload of `r`, and parsing canonical text gives
/// its normal form (as `from_jws` ensures of every `jws` it reads), `jws`
/// reads as a receipt without fault, and every receipt read from it holds
/// `r`'s fields: the parents sorted and the taint as a sorted set.
pub proof fn lemma_read_back(r: Receipt, jws: Seq<char>)
    requires
        forall|j: Json|
            #[trigger] plain(j, 100) && split_on(jws, '.').len() == 3 && b64url_decoded(split_on(jws, '.')[1])
                == Some(encode_utf8(canonical(j))) ==> jws_payload(jws) == Some(normal(j)),
        split_on(jws, '.').len() == 3,
        b64url_decoded(split_on(jws, '.')[1]) == Some(encode_utf8(canonical(payload_json(r)))),
    ensures
        jws_fault(jws) is None,
        jws_payload(jws) == Some(normal(payload_json(r))),
        forall|q: Receipt| #[trigger] read_from(q, normal(payload_json(r)), jws) ==> reads_back_as(q, r),
{
    lemma_payload_plain(r);
    lemma_payload_reads_back(r);
    lemma_operation_names(r.operation, r.operation);
    assert(plain(payload_json(r), 100));
}

/// Every signed payload declares the receipt type `provenance-receipt/v1`
/// and the issuer `raucle-detect/provenance`, and carries the receipt's
/// issue time, agent id, key id and operation name; the type and issuer read
/// back the same from the normal form a verifier parses out of the JWS, and
/// the JOSE header declares the same type.
pub proof fn lemma_payload_declares(r: Receipt, kid: Seq<char>)
    ensures
        RECEIPT_TYP@ == "provenance-receipt/v1"@,
        ISSUER@ == "raucle-detect/provenance"@,
        field(payload_json(r), "typ"@) == Some(Json::Str("provenance-receipt/v1"@)),
        field(payload_json(r), "iss"@) == Some(Json::Str("raucle-detect/provenance"@)),
        field(payload_json(r), "iat"@) == Some(Json::Int(r.issued_at as int)),
        field(payload_json(r), "agent_id"@) == Some(Json::Str(r.agent_id@)),
        field(payload_json(r), "agent_key_id"@) == Some(Json::Str(r.agent_key_id@)),
        field(payload_json(r), "operation"@) == Some(Json::Str(op_name(r.operation))),
        str_field(normal(payload_json(r)), "typ"@) == Some("provenance-receipt/v1"@),
        str_field(normal(payload_json(r)), "iss"@) == Some("raucle-detect/provenance"@),
        field(header_json(kid), "typ"@) == Some(Json::Str("provenance-receipt/v1"@)),
{
    reveal_strlit("provenance-receipt/v1");
    reveal_strlit("raucle-detect/provenance");
    lemma_payload_keys();
    lemma_payload_plain(r);
    let m = payload_members(r);
    lemma_payload_member(r, "typ"@);
    lemma_payload_member(r, "iss"@);
    lemma_payload_member(r, "iat"@);
    lemma_payload_member(r, "agent_id"@);
    lemma_payload_member(r, "agent_key_id"@);
    lemma_payload_member(r, "operation"@);
    lemma_normal_field(m, "typ"@);
    lemma_normal_field(m, "iss"@);
    reveal_strlit("alg");
    assert("alg"@ != "typ"@) by {
        assert("alg"@[0] != "typ"@[0]);
    }
    reveal_with_fuel(member, 3);
}

fn header_value(kid: &str) -> (res: JsonValue)
    ensures
        res@ == header_json(kid@),
{
    let mut m: Vec<(String, JsonValue)> = Vec::new();
    push_member(&mut m, "alg", JsonValue::Str(String::from_str("EdDSA")));
    push_member(&mut m, "typ", JsonValue::Str(String::from_str(RECEIPT_TYP)));
    push_member(&mut m, "kid", JsonValue::Str(String::from_str(kid)));
    let crit = vec![String::from_str(RAUCLE_VERSION_TAG)];
    let crit_value = string_array(&crit);
    assert(names_view(crit@).map_values(|n: Seq<char>| Json::Str(n)) =~= seq![
        Json::Str(RAUCLE_VERSION_TAG@),
    ]);
    push_member(&mut m, "crit", crit_value);
    push_member(&mut m, RAUCLE_VERSION_TAG, JsonValue::Str(String::from_str("provenance")));
    let res = object(m);
    assert(members_view(m, m@.len()) =~= header_json(kid@)->Object_0);
    res
}

fn segment(v: &JsonValue) -> (res: String)
    ensures
        res@ == segment_of(v@),
        forall|i: int| 0 <= i < res@.len() ==> is_b64url_char(#[trigger] res@[i]),
        b64url_decoded(res@) == Some(encode_utf8(canonical(v@))),
{
    let text = canonicalize_value(v);
    b64url_encode(text.as_str().as_bytes())
}

impl Receipt {
    /// Sign with `identity`, setting `jws` and `receipt_hash`; returns the
    /// compact JWS.
    pub fn sign(&mut self, identity: &AgentIdentity) -> (res: Result<&str, ReceiptError>)
        ensures
            same_content(*final(self), *old(self)),
            final(self).jws@ == signed_jws(
                *old(self),
                identity@.statement.key_id@,
                identity.secret_seed(),
            ),
            final(self).receipt_hash@ == prefixed_hash(encode_utf8(final(self).jws@)),
            signed_by(final(self).jws@, identity.secret_seed()),
            b64url_decoded(split_on(final(self).jws@, '.')[1]) == Some(
                encode_utf8(canonical(payload_json(*old(self)))),
            ),
            res matches Ok(j) && j@ == final(self).jws@,
    {
        let header = header_value(identity.key_id());
        let header_segment = segment(&header);
        let mut input = header_segment.clone();
        push_char(&mut input, '.');
        let payload_segment = segment(&self.payload());
        input.append(payload_segment.as_str());
        let ghost kid = identity@.statement.key_id@;
        assert(header@ == header_json(kid));
        assert(input@ == signing_input_of(*old(self), kid));
        let sig = identity.sign(input.as_str().as_bytes());
        assert(sig@ == ed25519_signature(identity.secret_seed(), encode_utf8(input@)));
        let sig_segment = b64url_encode(vstd::array::array_as_slice(&sig));
        let mut jws = input;
        push_char(&mut jws, '.');
        jws.append(sig_segment.as_str());
        assert(jws@ == signed_jws(*old(self), kid, identity.secret_seed()));
        proof {
            let h = header_segment@;
            let p = payload_segment@;
            let t = sig_segment@;
            assert forall|i: int| 0 <= i < h.len() implies h[i] != '.' by {
                assert(is_b64url_char(h[i]));
            }
            assert forall|i: int| 0 <= i < p.len() implies p[i] != '.' by {
                assert(is_b64url_char(p[i]));
            }
            assert forall|i: int| 0 <= i < t.len() implies t[i] != '.' by {
                assert(is_b64url_char(t[i]));
            }
            lemma_split_on_whole(h, '.');
            lemma_split_on_whole(p, '.');
            lemma_split_on_whole(t, '.');
            lemma_split_on_append(h, p, '.');
            lemma_split_on_append(h + seq!['.'] + p, t, '.');
            assert(jws@ =~= (h + seq!['.'] + p) + seq!['.'] + t);
            let parts = split_on(jws@, '.');
            assert(parts =~= seq![h, p, t]);
            assert(parts[0] + seq!['.'] + parts[1] =~= input@);
        }
        self.receipt_hash = hash_text(jws.as_str());
        self.jws = jws;
        Ok(self.jws.as_str())
    }

    /// Parse a compact JWS back into a receipt. The signature is not
    /// checked here.
    pub fn from_jws(jws: &str) -> (res: Result<Self, ReceiptError>)
        ensures
            res is Err <==> jws_fault(jws@) is Some,
            res matches Err(e) ==> jws_fault(jws@) == Some(fault_of(e)),
            res matches Ok(r) ==> (jws_payload(jws@) matches Some(j) && read_from(r, j, jws@)),
            forall|j: Json|
                #[trigger] plain(j, 100) && split_on(jws@, '.').len() == 3 && b64url_decoded(
                    split_on(jws@, '.')[1],
                ) == Some(encode_utf8(canonical(j))) ==> jws_payload(jws@) == Some(normal(j)),
    {
        let parts = split_char(jws, '.');
        if parts.len() != 3 {
            return Err(ReceiptError::Malformed(
                String::from_str("expected three dot-separated segments"),
            ));
        }
        assert(names_view(parts@)[1] == parts@[1]@);
        let payload_bytes = match b64url_decode(parts[1].as_str()) {
            Ok(b) => b,
            Err(e) => return Err(ReceiptError::DecodeBase64(decode_error_message(&e))),
        };
        let payload = match parse_json(payload_bytes.as_slice()) {
            Ok(v) => v,
            Err(m) => return Err(ReceiptError::DecodeJson(m)),
        };
        match &payload {
            JsonValue::Object(_) => {},
            _ => return Err(ReceiptError::Malformed(String::from_str("payload is not an object"))),
        }
        let op_str = match get_string(&payload, "operation") {
            Some(s) => s,
            None => return Err(ReceiptError::Malformed(String::from_str("missing 'operation'"))),
        };
        let operation = match Operation::parse(op_str.as_str()) {
            Some(op) => op,
            None => return Err(ReceiptError::UnknownOperation(op_str)),
        };
        let mut r = Receipt::new(
            get_text(&payload, "agent_id"),
            get_text(&payload, "agent_key_id"),
            operation,
            get_i64(&payload, "iat"),
        );
        r.parents = get_strings(&payload, "parents");
        r.input_hash = get_text(&payload, "input_hash");
        r.output_hash = get_text(&payload, "output_hash");
        r.model = get_text(&payload, "model");
        r.tool = get_text(&payload, "tool");
        r.corpus = get_text(&payload, "corpus");
        r.ruleset_hash = get_text(&payload, "ruleset_hash");
        r.guardrail_verdict = get_text(&payload, "guardrail_verdict");
        r.taint = get_strings(&payload, "taint");
        r.tenant = get_string(&payload, "tenant");
        r.jws = String::from_str(jws);
        r.receipt_hash = hash_text(jws);
        Ok(r)
    }
}

} // verus!
