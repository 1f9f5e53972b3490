//! Agent identities: an Ed25519 key and a self-signed capability statement.

use vstd::prelude::*;
use vstd::utf8::encode_utf8;
use crate::b64::{b64_standard_text, standard_encode};
use crate::canonical::{canonical, canonicalize_bytes};
use crate::hash::{sha256_hex, sha256_of};
use crate::json::{Json, JsonNumber, JsonValue, members_view, object, push_member, str_list, string_array};
use crate::keys::{
    ed25519_signature, private_pem_of, private_pem_of_seed, public_pem_of, public_pem_of_seed,
    public_key_in_pem, ed25519_public_of, random_seed, seed_from_pem, seed_in_pem, sign_bytes,
    unix_now,
};
use crate::sort::{names_view, sort_names, sort_strings};
use crate::text::{chars_of, debug_quoted, debug_text, hex_lower, str_eq, string_of_chars};

verus! {

/// First character of the local part of an agent id: `[a-z0-9]`.
pub open spec fn is_local_first(c: char) -> bool {
    ('a' <= c && c <= 'z') || ('0' <= c && c <= '9')
}

/// Later characters of the local part: `[a-z0-9_\-./]`.
pub open spec fn is_local_char(c: char) -> bool {
    is_local_first(c) || c == '_' || c == '-' || c == '.' || c == '/'
}

/// `id` matches `^agent:[a-z0-9][a-z0-9_\-./]{0,127}$`.
pub open spec fn valid_agent_id(id: Seq<char>) -> bool {
    &&& 7 <= id.len() <= 134
    &&& id.take(6) == "agent:"@
    &&& is_local_first(id[6])
    &&& forall|i: int| 7 <= i < id.len() ==> is_local_char(#[trigger] id[i])
}

/// The agent-id grammar spelled out character by character: the prefix
/// `agent:`, then a lowercase letter or digit, then up to 127 characters each
/// a lowercase ASCII letter, a digit, `_`, `-`, `.` or `/`.
pub proof fn lemma_agent_id_chars(id: Seq<char>)
    ensures
        valid_agent_id(id) <==> {
            &&& 7 <= id.len() <= 134
            &&& id[0] == 'a' && id[1] == 'g' && id[2] == 'e' && id[3] == 'n' && id[4] == 't' && id[5] == ':'
            &&& ('a' <= id[6] <= 'z') || ('0' <= id[6] <= '9')
            &&& forall|i: int|
                7 <= i < id.len() ==> ('a' <= #[trigger] id[i] <= 'z') || ('0' <= id[i] <= '9') || id[i] == '_'
                    || id[i] == '-' || id[i] == '.' || id[i] == '/'
        },
{
    reveal_strlit("agent:");
    if 7 <= id.len() {
        if id[0] == 'a' && id[1] == 'g' && id[2] == 'e' && id[3] == 'n' && id[4] == 't' && id[5] == ':' {
            assert(id.take(6) =~= "agent:"@);
        }
        if id.take(6) == "agent:"@ {
            assert(id.take(6)[0] == id[0] && id.take(6)[1] == id[1] && id.take(6)[2] == id[2]);
            assert(id.take(6)[3] == id[3] && id.take(6)[4] == id[4] && id.take(6)[5] == id[5]);
        }
    }
}

/// No valid agent id holds an upper-case ASCII letter, or any character
/// outside ASCII.
pub proof fn lemma_agent_id_lowercase(id: Seq<char>)
    requires
        valid_agent_id(id),
    ensures
        forall|i: int| 0 <= i < id.len() ==> !('A' <= #[trigger] id[i] <= 'Z') && (id[i] as u32) < 0x80,
{
    lemma_agent_id_chars(id);
    assert forall|i: int| 0 <= i < id.len() implies !('A' <= #[trigger] id[i] <= 'Z') && (id[i] as u32) < 0x80 by {
        if i >= 7 {
            assert(('a' <= id[i] <= 'z') || ('0' <= id[i] <= '9') || id[i] == '_' || id[i] == '-' || id[i] == '.'
                || id[i] == '/');
        }
    }
}

fn local_first(c: char) -> (res: bool)
    ensures
        res == is_local_first(c),
{
    ('a' <= c && c <= 'z') || ('0' <= c && c <= '9')
}

fn local_char(c: char) -> (res: bool)
    ensures
        res == is_local_char(c),
{
    local_first(c) || c == '_' || c == '-' || c == '.' || c == '/'
}

/// Whether `id` is a well-formed agent id.
fn is_valid_agent_id(id: &str) -> (res: bool)
    ensures
        res == valid_agent_id(id@),
{
    let v = chars_of(id);
    let n = v.len();
    if n < 7 || n > 134 {
        return false;
    }
    proof { reveal_strlit("agent:"); }
    if !(v[0] == 'a' && v[1] == 'g' && v[2] == 'e' && v[3] == 'n' && v[4] == 't' && v[5] == ':') {
        assert(v@.take(6) != "agent:"@) by {
            if v@.take(6) == "agent:"@ {
                assert(v@.take(6)[0] == 'a' && v@.take(6)[1] == 'g' && v@.take(6)[2] == 'e');
                assert(v@.take(6)[3] == 'n' && v@.take(6)[4] == 't' && v@.take(6)[5] == ':');
            }
        }
        return false;
    }
    assert(v@.take(6) =~= "agent:"@);
    if !local_first(v[6]) {
        return false;
    }
    let mut i: usize = 7;
    while i < n
        invariant
            7 <= i <= n,
            n == v@.len(),
            forall|j: int| 7 <= j < i ==> is_local_char(#[trigger] v@[j]),
            v@ == id@,
            v@.take(6) == "agent:"@,
            is_local_first(v@[6]),
        decreases n - i,
    {
        if !local_char(v[i]) {
            return false;
        }
        i = i + 1;
    }
    true
}

/// Errors raised by identity and capability operations.
#[derive(Debug)]
pub enum IdentityError {
    InvalidAgentId(String),
    Pem(String),
    Encode(String),
}

/// The message an identity error displays.
pub open spec fn identity_error_text(e: IdentityError) -> Seq<char> {
    match e {
        IdentityError::InvalidAgentId(id) => "invalid agent_id "@ + debug_text(id@),
        IdentityError::Pem(m) => "PEM error: "@ + m@,
        IdentityError::Encode(m) => "encode error: "@ + m@,
    }
}

impl IdentityError {
    /// The human-readable message for this error.
    pub fn message(&self) -> (res: String)
        ensures
            res@ == identity_error_text(*self),
    {
        match self {
            IdentityError::InvalidAgentId(id) => {
                let mut s = String::from_str("invalid agent_id ");
                let d = debug_quoted(id.as_str());
                s.append(d.as_str());
                s
            },
            IdentityError::Pem(m) => {
                let mut s = String::from_str("PEM error: ");
                s.append(m.as_str());
                s
            },
            IdentityError::Encode(m) => {
                let mut s = String::from_str("encode error: ");
                s.append(m.as_str());
                s
            },
        }
    }
}

/// Validate an `agent_id`.
pub fn validate_agent_id(id: &str) -> (res: Result<(), IdentityError>)
    ensures
        res is Ok <==> valid_agent_id(id@),
        res matches Err(e) ==> e matches IdentityError::InvalidAgentId(s) && s@ == id@,
{
    if is_valid_agent_id(id) {
        Ok(())
    } else {
        Err(IdentityError::InvalidAgentId(String::from_str(id)))
    }
}

/// A signed declaration of what an agent is permitted to do, distributed
/// alongside the agent's public key.
#[derive(Debug, Clone)]
pub struct CapabilityStatement {
    pub agent_id: String,
    pub key_id: String,
    pub public_key_pem: String,
    pub allowed_models: Vec<String>,
    pub allowed_tools: Vec<String>,
    pub data_classifications: Vec<String>,
    pub issuer: String,
    pub issued_at: i64,
    pub expires_at: Option<i64>,
    /// Standard base64 of the Ed25519 signature over the canonical JSON of
    /// the body.
    pub signature: String,
}

/// The signed body of a statement: every field but the signature, with the
/// lists sorted.
pub open spec fn statement_body(st: CapabilityStatement) -> Json {
    Json::Object(
        seq![
            ("agent_id"@, Json::Str(st.agent_id@)),
            ("key_id"@, Json::Str(st.key_id@)),
            ("public_key_pem"@, Json::Str(st.public_key_pem@)),
            ("allowed_models"@, str_list(sort_names(names_view(st.allowed_models@)))),
            ("allowed_tools"@, str_list(sort_names(names_view(st.allowed_tools@)))),
            ("data_classifications"@, str_list(sort_names(names_view(st.data_classifications@)))),
            ("issuer"@, Json::Str(st.issuer@)),
            ("issued_at"@, Json::Int(st.issued_at as int)),
            ("expires_at"@, match st.expires_at {
                Some(t) => Json::Int(t as int),
                None => Json::Null,
            }),
        ],
    )
}

/// An allow-list permits `name` when it is empty or lists `name`.
pub open spec fn list_permits(list: Seq<String>, name: Seq<char>) -> bool {
    list.len() == 0 || exists|i: int| 0 <= i < list.len() && #[trigger] list[i]@ == name
}

fn list_contains(list: &Vec<String>, name: &str) -> (res: bool)
    ensures
        res == exists|i: int| 0 <= i < list@.len() && #[trigger] list@[i]@ == name@,
{
    let n = list.len();
    let mut i: usize = 0;
    while i < n
        invariant
            i <= n,
            n == list@.len(),
            forall|j: int| 0 <= j < i ==> #[trigger] list@[j]@ != name@,
        decreases n - i,
    {
        if str_eq(list[i].as_str(), name) {
            return true;
        }
        i = i + 1;
    }
    false
}

impl CapabilityStatement {
    /// The canonical signed body (everything but `signature`).
    pub fn body(&self) -> (res: JsonValue)
        ensures
            res@ == statement_body(*self),
    {
        let mut m: Vec<(String, JsonValue)> = Vec::new();
        push_member(&mut m, "agent_id", JsonValue::Str(self.agent_id.clone()));
        push_member(&mut m, "key_id", JsonValue::Str(self.key_id.clone()));
        push_member(&mut m, "public_key_pem", JsonValue::Str(self.public_key_pem.clone()));
        push_member(&mut m, "allowed_models", string_array(&sort_strings(&self.allowed_models)));
        push_member(&mut m, "allowed_tools", string_array(&sort_strings(&self.allowed_tools)));
        push_member(
            &mut m,
            "data_classifications",
            string_array(&sort_strings(&self.data_classifications)),
        );
        push_member(&mut m, "issuer", JsonValue::Str(self.issuer.clone()));
        push_member(&mut m, "issued_at", JsonValue::Number(JsonNumber::Int(self.issued_at)));
        let expires = match self.expires_at {
            Some(t) => JsonValue::Number(JsonNumber::Int(t)),
            None => JsonValue::Null,
        };
        push_member(&mut m, "expires_at", expires);
        let res = object(m);
        assert(members_view(m, m@.len()) =~= statement_body(*self)->Object_0);
        res
    }

    /// Whether the statement allows calling `model`.
    pub fn permits_model(&self, model: &str) -> (res: bool)
        ensures
            res == list_permits(self.allowed_models@, model@),
    {
        self.allowed_models.len() == 0 || list_contains(&self.allowed_models, model)
    }

    /// Whether the statement allows calling `tool`.
    pub fn permits_tool(&self, tool: &str) -> (res: bool)
        ensures
            res == list_permits(self.allowed_tools@, tool@),
    {
        self.allowed_tools.len() == 0 || list_contains(&self.allowed_tools, tool)
    }
}

/// Options for [`AgentIdentity::generate`].
#[derive(Debug, Clone)]
pub struct GenerateOptions {
    pub agent_id: String,
    pub allowed_models: Vec<String>,
    pub allowed_tools: Vec<String>,
    pub data_classifications: Vec<String>,
    pub issuer: Option<String>,
    pub ttl_seconds: Option<i64>,
}

impl Default for GenerateOptions {
    fn default() -> (res: Self)
        ensures
            res.agent_id@ == Seq::<char>::empty(),
            res.allowed_models@.len() == 0,
            res.allowed_tools@.len() == 0,
            res.data_classifications@.len() == 0,
            res.issuer is None,
            res.ttl_seconds is None,
    {
        GenerateOptions {
            agent_id: String::new(),
            allowed_models: Vec::new(),
            allowed_tools: Vec::new(),
            data_classifications: Vec::new(),
            issuer: None,
            ttl_seconds: None,
        }
    }
}

/// An Ed25519 key (held as its 32-byte secret seed) and the capability
/// statement it signed.
pub struct AgentIdentity {
    pub agent_id: String,
    pub statement: CapabilityStatement,
    signing_key: [u8; 32],
}

/// The key id of a public-key PEM: the first 16 hex digits of its SHA-256.
pub open spec fn key_id_of_pem(pem: Seq<char>) -> Seq<char> {
    hex_lower(sha256_of(encode_utf8(pem))).take(16)
}

/// The key id names the public key by the first 16 hex digits of the
/// SHA-256 of its PEM text: the key id is a prefix of that digest's hex.
/// (The digest has 32 bytes, as `sha256_hex` ensures of every input.)
pub proof fn lemma_key_id_prefix(pem: Seq<char>)
    ensures
        sha256_of(encode_utf8(pem)).len() == 32 ==> {
            &&& key_id_of_pem(pem).len() == 16
            &&& key_id_of_pem(pem) == hex_lower(sha256_of(encode_utf8(pem))).subrange(0, 16)
            &&& key_id_of_pem(pem).is_prefix_of(hex_lower(sha256_of(encode_utf8(pem))))
        },
{
    if sha256_of(encode_utf8(pem)).len() == 32 {
        crate::text::lemma_hex_lower_len(sha256_of(encode_utf8(pem)));
        assert(key_id_of_pem(pem) =~= hex_lower(sha256_of(encode_utf8(pem))).subrange(0, 16));
    }
}

/// The expiry `now + ttl` the options ask for does not fit an `i64`.
pub open spec fn expiry_overflows(opts: GenerateOptions, now: i64) -> bool {
    opts.ttl_seconds matches Some(t) && !(i64::MIN <= now + t <= i64::MAX)
}

/// The issuer a statement names when the options name none.
pub open spec fn default_issuer() -> Seq<char> {
    "raucle-detect"@
}

/// An identity with `agent_id` and statement `st` is the one issued from
/// `opts` with secret seed `seed` at time `now`: the statement describes
/// the seed's public key, carries the options, and is signed by the seed
/// over its canonical body.
pub open spec fn issued_from(
    agent_id: Seq<char>,
    st: CapabilityStatement,
    opts: GenerateOptions,
    seed: Seq<u8>,
    now: int,
) -> bool {
    let pem = public_pem_of_seed(seed);
    &&& agent_id == opts.agent_id@
    &&& st.agent_id@ == opts.agent_id@
    &&& st.public_key_pem@ == pem
    &&& public_key_in_pem(pem) == Some(ed25519_public_of(seed))
    &&& st.key_id@ == key_id_of_pem(pem)
    &&& st.allowed_models@ == opts.allowed_models@
    &&& st.allowed_tools@ == opts.allowed_tools@
    &&& st.data_classifications@ == opts.data_classifications@
    &&& st.issuer@ == (match opts.issuer {
        Some(i) => i@,
        None => default_issuer(),
    })
    &&& st.issued_at == now
    &&& st.expires_at == (match opts.ttl_seconds {
        Some(t) => Some((now + t) as i64),
        None => None,
    })
    &&& st.signature@ == b64_standard_text(
        ed25519_signature(seed, encode_utf8(canonical(statement_body(st)))),
    )
}

/// The model of an identity: its agent id, its statement and the secret
/// seed of its key.
pub struct IdentityView {
    pub agent_id: Seq<char>,
    pub statement: CapabilityStatement,
    pub seed: Seq<u8>,
}

impl View for AgentIdentity {
    type V = IdentityView;

    closed spec fn view(&self) -> IdentityView {
        IdentityView { agent_id: self.agent_id@, statement: self.statement, seed: self.signing_key@ }
    }
}

impl AgentIdentity {
    /// The 32-byte secret seed of the identity's key.
    pub open spec fn secret_seed(&self) -> Seq<u8> {
        self@.seed
    }

    /// Fresh random key and a self-signed capability statement.
    pub fn generate(opts: GenerateOptions) -> (res: Result<Self, IdentityError>)
        ensures
            !valid_agent_id(opts.agent_id@) ==> (res matches Err(IdentityError::InvalidAgentId(s))
                && s@ == opts.agent_id@),
            valid_agent_id(opts.agent_id@) ==> res is Ok || res matches Err(IdentityError::Encode(_)),
            res matches Ok(id) ==> id.secret_seed().len() == 32 && issued_from(
                id@.agent_id,
                id@.statement,
                opts,
                id.secret_seed(),
                id@.statement.issued_at as int,
            ),
            res matches Ok(id) ==> id@.statement.key_id@ == hex_lower(
                sha256_of(encode_utf8(id@.statement.public_key_pem@)),
            ).subrange(0, 16),
    {
        match validate_agent_id(opts.agent_id.as_str()) {
            Ok(()) => {},
            Err(e) => return Err(e),
        }
        let seed = random_seed();
        Self::from_key(seed, opts)
    }

    /// Identity for a given secret seed, with the statement issued now.
    pub fn from_key(seed: [u8; 32], opts: GenerateOptions) -> (res: Result<Self, IdentityError>)
        ensures
            !valid_agent_id(opts.agent_id@) ==> (res matches Err(IdentityError::InvalidAgentId(s))
                && s@ == opts.agent_id@),
            valid_agent_id(opts.agent_id@) ==> res is Ok || res matches Err(IdentityError::Encode(_)),
            res matches Ok(id) ==> id.secret_seed() == seed@ && id.secret_seed().len() == 32 && issued_from(
                id@.agent_id,
                id@.statement,
                opts,
                seed@,
                id@.statement.issued_at as int,
            ),
            res matches Ok(id) ==> id@.statement.key_id@ == hex_lower(
                sha256_of(encode_utf8(id@.statement.public_key_pem@)),
            ).subrange(0, 16),
    {
        match validate_agent_id(opts.agent_id.as_str()) {
            Ok(()) => {},
            Err(e) => return Err(e),
        }
        let now = match unix_now() {
            Ok(t) => t,
            Err(m) => return Err(IdentityError::Encode(m)),
        };
        Self::from_key_at(seed, opts, now)
    }

    /// Identity for a given secret seed, with the statement issued at `now`
    /// (seconds since the Unix epoch). Fails when the expiry `now + ttl`
    /// does not fit an `i64`.
    pub fn from_key_at(seed: [u8; 32], opts: GenerateOptions, now: i64) -> (res: Result<Self, IdentityError>)
        ensures
            !valid_agent_id(opts.agent_id@) ==> (res matches Err(IdentityError::InvalidAgentId(s))
                && s@ == opts.agent_id@),
            valid_agent_id(opts.agent_id@) && expiry_overflows(opts, now) ==> (res matches Err(
                IdentityError::Encode(m),
            ) && m@ == "expiry time overflows i64"@),
            valid_agent_id(opts.agent_id@) && !expiry_overflows(opts, now) ==> res is Ok,
            res matches Ok(id) ==> id.secret_seed() == seed@ && id.secret_seed().len() == 32 && issued_from(
                id@.agent_id,
                id@.statement,
                opts,
                seed@,
                now as int,
            ),
            res matches Ok(id) ==> id@.statement.key_id@ == hex_lower(
                sha256_of(encode_utf8(id@.statement.public_key_pem@)),
            ).subrange(0, 16),
    {
        match validate_agent_id(opts.agent_id.as_str()) {
            Ok(()) => {},
            Err(e) => return Err(e),
        }
        let expires_at = match opts.ttl_seconds {
            Some(t) => match now.checked_add(t) {
                Some(e) => Some(e),
                None => return Err(IdentityError::Encode(String::from_str("expiry time overflows i64"))),
            },
            None => None,
        };
        let public_key_pem = match public_pem_of(&seed) {
            Ok(p) => p,
            Err(m) => return Err(IdentityError::Encode(m)),
        };
        let hex = sha256_hex(public_key_pem.as_str().as_bytes());
        let hex_chars = chars_of(hex.as_str());
        let key_id = string_of_chars(&hex_chars, 0, 16);
        assert(hex_chars@.subrange(0, 16) =~= key_id_of_pem(public_key_pem@));
        let issuer = match opts.issuer {
            Some(i) => i,
            None => String::from_str("raucle-detect"),
        };
        let mut statement = CapabilityStatement {
            agent_id: opts.agent_id.clone(),
            key_id,
            public_key_pem,
            allowed_models: opts.allowed_models,
            allowed_tools: opts.allowed_tools,
            data_classifications: opts.data_classifications,
            issuer,
            issued_at: now,
            expires_at,
            signature: String::new(),
        };
        let body_bytes = canonicalize_bytes(&statement.body());
        let sig = sign_bytes(&seed, body_bytes.as_slice());
        statement.signature = standard_encode(&sig);
        Ok(AgentIdentity { agent_id: opts.agent_id, statement, signing_key: seed })
    }

    /// Rebuild an identity from a stored PKCS#8 PEM key and its statement.
    pub fn load(private_key_pem: &str, statement: CapabilityStatement) -> (res: Result<Self, IdentityError>)
        ensures
            !valid_agent_id(statement.agent_id@) ==> (res matches Err(IdentityError::InvalidAgentId(s))
                && s@ == statement.agent_id@),
            valid_agent_id(statement.agent_id@) ==> (res is Ok <==> seed_in_pem(private_key_pem@) is Some),
            valid_agent_id(statement.agent_id@) ==> (res is Err ==> res matches Err(IdentityError::Pem(_))),
            res matches Ok(id) ==> id@.agent_id == statement.agent_id@ && id@.statement == statement
                && seed_in_pem(private_key_pem@) == Some(id.secret_seed()) && id.secret_seed().len() == 32,
    {
        match validate_agent_id(statement.agent_id.as_str()) {
            Ok(()) => {},
            Err(e) => return Err(e),
        }
        let seed = match seed_from_pem(private_key_pem) {
            Ok(s) => s,
            Err(m) => return Err(IdentityError::Pem(m)),
        };
        Ok(AgentIdentity { agent_id: statement.agent_id.clone(), statement, signing_key: seed })
    }

    /// The agent id of the identity.
    pub fn agent_id(&self) -> (res: &str)
        ensures
            res@ == self@.agent_id,
    {
        self.agent_id.as_str()
    }

    /// The identity's capability statement.
    pub fn statement(&self) -> (res: &CapabilityStatement)
        ensures
            *res == self@.statement,
    {
        &self.statement
    }

    /// The key id of the statement.
    pub fn key_id(&self) -> (res: &str)
        ensures
            res@ == self@.statement.key_id@,
    {
        self.statement.key_id.as_str()
    }

    /// The public-key PEM of the statement.
    pub fn public_key_pem(&self) -> (res: &str)
        ensures
            res@ == self@.statement.public_key_pem@,
    {
        self.statement.public_key_pem.as_str()
    }

    /// PKCS#8 PEM serialisation of the private key.
    pub fn private_key_pem(&self) -> (res: Result<String, IdentityError>)
        ensures
            res matches Ok(pem) ==> pem@ == private_pem_of_seed(self.secret_seed()) && seed_in_pem(
                pem@,
            ) == Some(self.secret_seed()),
            res is Ok,
    {
        match private_pem_of(&self.signing_key) {
            Ok(p) => Ok(p),
            Err(m) => Err(IdentityError::Encode(m)),
        }
    }

    /// Sign bytes with this identity's private key.
    pub fn sign(&self, data: &[u8]) -> (res: [u8; 64])
        ensures
            res@ == ed25519_signature(self.secret_seed(), data@),
    {
        sign_bytes(&self.signing_key, data)
    }
}

/// Reloading an identity: two identities whose seeds one PEM holds (as
/// `private_key_pem` of the first and `load` of that PEM ensure) have the
/// same key, so they sign every message alike.
pub proof fn lemma_reloaded_identity(a: AgentIdentity, b: AgentIdentity, pem: Seq<char>)
    requires
        seed_in_pem(pem) == Some(a.secret_seed()),
        seed_in_pem(pem) == Some(b.secret_seed()),
    ensures
        a.secret_seed() == b.secret_seed(),
        forall|data: Seq<u8>| #[trigger] ed25519_signature(a.secret_seed(), data) == ed25519_signature(
            b.secret_seed(),
            data,
        ),
{
}

/// The secret seed of every identity has 32 bytes.
pub proof fn lemma_secret_seed_len(id: AgentIdentity)
    ensures
        id.secret_seed().len() == 32,
{
}

/// Load a PEM-encoded Ed25519 public key; the key is returned as its 32
/// bytes.
pub fn load_public_key(pem: &str) -> (res: Result<[u8; 32], IdentityError>)
    ensures
        res is Ok <==> public_key_in_pem(pem@) is Some,
        res matches Ok(k) ==> public_key_in_pem(pem@) == Some(k@),
        res matches Err(e) ==> e is Pem,
{
    match crate::keys::public_key_from_pem(pem) {
        Ok(k) => Ok(k),
        Err(m) => Err(IdentityError::Pem(m)),
    }
}

} // verus!
