//! The library's JSON value: what canonical serialisation renders and what
//! the receipt logic reads back out of parsed documents.

use vstd::prelude::*;
use vstd::utf8::encode_utf8;
use crate::canonical::canonical;
use crate::sort::{distinct_keys, lemma_sort_by_key, sort_by_key};
use crate::text::str_eq;

verus! {

/// A JSON number. Integers are held exactly; any other number is held as
/// its decimal text.
#[derive(Debug)]
pub enum JsonNumber {
    Int(i64),
    UInt(u64),
    Text(String),
}

/// A JSON value. An object is its list of members, in order; keys are
/// distinct in every object the library builds or parses.
#[derive(Debug)]
pub enum JsonValue {
    Null,
    Bool(bool),
    Number(JsonNumber),
    Str(String),
    Array(Vec<JsonValue>),
    Object(Vec<(String, JsonValue)>),
}

/// The mathematical model of a JSON value.
pub enum Json {
    Null,
    Bool(bool),
    Int(int),
    NumText(Seq<char>),
    Str(Seq<char>),
    Array(Seq<Json>),
    Object(Seq<(Seq<char>, Json)>),
}

/// The model of a JSON number.
pub open spec fn number_view(n: JsonNumber) -> Json {
    match n {
        JsonNumber::Int(i) => Json::Int(i as int),
        JsonNumber::UInt(u) => Json::Int(u as int),
        JsonNumber::Text(t) => Json::NumText(t@),
    }
}

/// The model of a JSON value.
pub open spec fn json_view(v: JsonValue) -> Json
    decreases v, 0nat,
{
    match v {
        JsonValue::Null => Json::Null,
        JsonValue::Bool(b) => Json::Bool(b),
        JsonValue::Number(n) => number_view(n),
        JsonValue::Str(s) => Json::Str(s@),
        JsonValue::Array(a) => Json::Array(items_view(a, a@.len())),
        JsonValue::Object(m) => Json::Object(members_view(m, m@.len())),
    }
}

/// Models of the first `n` items of an array.
pub open spec fn items_view(a: Vec<JsonValue>, n: nat) -> Seq<Json>
    decreases a, n,
{
    if n == 0 || n > a@.len() {
        Seq::empty()
    } else {
        items_view(a, (n - 1) as nat).push(json_view(a@[n - 1]))
    }
}

/// Models of the first `n` members of an object.
pub open spec fn members_view(m: Vec<(String, JsonValue)>, n: nat) -> Seq<(Seq<char>, Json)>
    decreases m, n,
{
    if n == 0 || n > m@.len() {
        Seq::empty()
    } else {
        members_view(m, (n - 1) as nat).push((m@[n - 1].0@, json_view(m@[n - 1].1)))
    }
}

impl View for JsonValue {
    type V = Json;

    open spec fn view(&self) -> Json {
        json_view(*self)
    }
}

/// The models of the first `n` items, one by one.
pub proof fn lemma_items_view(a: Vec<JsonValue>, n: nat)
    requires
        n <= a@.len(),
    ensures
        items_view(a, n).len() == n,
        forall|i: int| 0 <= i < n ==> #[trigger] items_view(a, n)[i] == json_view(a@[i]),
    decreases n,
{
    if n > 0 {
        lemma_items_view(a, (n - 1) as nat);
    }
}

/// The models of the first `n` members, one by one.
pub proof fn lemma_members_view(m: Vec<(String, JsonValue)>, n: nat)
    requires
        n <= m@.len(),
    ensures
        members_view(m, n).len() == n,
        forall|i: int| 0 <= i < n ==> #[trigger] members_view(m, n)[i] == (m@[i].0@, json_view(m@[i].1)),
    decreases n,
{
    if n > 0 {
        lemma_members_view(m, (n - 1) as nat);
    }
}

/// The value of the first member named `key`, if any.
pub open spec fn member(m: Seq<(Seq<char>, Json)>, key: Seq<char>) -> Option<Json>
    decreases m.len(),
{
    if m.len() == 0 {
        None
    } else if m[0].0 == key {
        Some(m[0].1)
    } else {
        member(m.drop_first(), key)
    }
}

/// `j[key]` when `j` is an object.
pub open spec fn field(j: Json, key: Seq<char>) -> Option<Json> {
    match j {
        Json::Object(m) => member(m, key),
        _ => None,
    }
}

/// The string held by a field, if the field is a string.
pub open spec fn str_field(j: Json, key: Seq<char>) -> Option<Seq<char>> {
    match field(j, key) {
        Some(Json::Str(s)) => Some(s),
        _ => None,
    }
}

/// The strings of a list, skipping items that are not strings.
pub open spec fn strings_in(items: Seq<Json>) -> Seq<Seq<char>>
    decreases items.len(),
{
    if items.len() == 0 {
        Seq::empty()
    } else {
        let rest = strings_in(items.drop_last());
        match items.last() {
            Json::Str(s) => rest.push(s),
            _ => rest,
        }
    }
}

/// `j` is built from null, booleans, strings, integers that fit an `i64`
/// or a `u64`, arrays, and objects whose keys are distinct, nested at most
/// `d` deep.
pub open spec fn plain(j: Json, d: nat) -> bool
    decreases j, 0nat,
{
    match j {
        Json::Int(i) => i64::MIN <= i <= u64::MAX,
        Json::NumText(_) => false,
        Json::Array(items) => d > 0 && plain_items(items, items.len(), (d - 1) as nat),
        Json::Object(m) => d > 0 && distinct_keys(m) && plain_members(m, m.len(), (d - 1) as nat),
        _ => true,
    }
}

/// The first `n` items are plain, nested at most `d` deep.
pub open spec fn plain_items(items: Seq<Json>, n: nat, d: nat) -> bool
    decreases items, n,
{
    if n == 0 || n > items.len() {
        true
    } else {
        plain_items(items, (n - 1) as nat, d) && plain(items[n - 1], d)
    }
}

/// The values of the first `n` members are plain, nested at most `d` deep.
pub open spec fn plain_members(m: Seq<(Seq<char>, Json)>, n: nat, d: nat) -> bool
    decreases m, n,
{
    if n == 0 || n > m.len() {
        true
    } else {
        plain_members(m, (n - 1) as nat, d) && plain(m[n - 1].1, d)
    }
}

/// `j` with the members of every object put in key order.
pub open spec fn normal(j: Json) -> Json
    decreases j, 0nat,
{
    match j {
        Json::Array(items) => Json::Array(normal_items(items, items.len())),
        Json::Object(m) => Json::Object(sort_by_key(normal_members(m, m.len()))),
        _ => j,
    }
}

/// The first `n` items, each put in normal form.
pub open spec fn normal_items(items: Seq<Json>, n: nat) -> Seq<Json>
    decreases items, n,
{
    if n == 0 || n > items.len() {
        Seq::empty()
    } else {
        normal_items(items, (n - 1) as nat).push(normal(items[n - 1]))
    }
}

/// The first `n` members, each value put in normal form.
pub open spec fn normal_members(m: Seq<(Seq<char>, Json)>, n: nat) -> Seq<(Seq<char>, Json)>
    decreases m, n,
{
    if n == 0 || n > m.len() {
        Seq::empty()
    } else {
        normal_members(m, (n - 1) as nat).push((m[n - 1].0, normal(m[n - 1].1)))
    }
}

/// Looking a key up in `a + b` finds it in `a` first.
pub proof fn lemma_member_concat(a: Seq<(Seq<char>, Json)>, b: Seq<(Seq<char>, Json)>, k: Seq<char>)
    ensures
        member(a + b, k) == (match member(a, k) {
            Some(v) => Some(v),
            None => member(b, k),
        }),
    decreases a.len(),
{
    if a.len() > 0 {
        assert((a + b).drop_first() =~= a.drop_first() + b);
        assert((a + b)[0] == a[0]);
        lemma_member_concat(a.drop_first(), b, k);
    } else {
        assert(a + b =~= b);
    }
}

/// Looking up a key that `b` does not hold in `a + b` looks it up in `a`.
pub proof fn lemma_member_skip(a: Seq<(Seq<char>, Json)>, b: Seq<(Seq<char>, Json)>, k: Seq<char>)
    requires
        forall|i: int| #![trigger b[i]] 0 <= i < b.len() ==> b[i].0 != k,
    ensures
        member(a + b, k) == member(a, k),
{
    lemma_member_concat(a, b, k);
    lemma_member_absent(b, k);
}

/// Looking up a key that no member has finds nothing.
pub proof fn lemma_member_absent(b: Seq<(Seq<char>, Json)>, k: Seq<char>)
    requires
        forall|i: int| #![trigger b[i]] 0 <= i < b.len() ==> b[i].0 != k,
    ensures
        member(b, k) is None,
    decreases b.len(),
{
    if b.len() > 0 {
        let t = b.drop_first();
        assert forall|i: int| #![trigger t[i]] 0 <= i < t.len() implies t[i].0 != k by {
            assert(t[i] == b[i + 1]);
        }
        assert(b[0].0 != k);
        lemma_member_absent(t, k);
    }
}

/// With distinct keys, the member with key `k` is the one lookup finds, and
/// lookup finds nothing when no member has key `k`.
pub proof fn lemma_member_distinct(m: Seq<(Seq<char>, Json)>, k: Seq<char>)
    requires
        distinct_keys(m),
    ensures
        forall|i: int| 0 <= i < m.len() && #[trigger] m[i].0 == k ==> member(m, k) == Some(m[i].1),
        (forall|i: int| 0 <= i < m.len() ==> #[trigger] m[i].0 != k) ==> member(m, k) is None,
    decreases m.len(),
{
    if m.len() > 0 {
        let t = m.drop_first();
        assert forall|i: int, j: int| #![trigger t[i], t[j]] 0 <= i < j < t.len() implies t[i].0 != t[j].0 by {
            assert(t[i] == m[i + 1] && t[j] == m[j + 1]);
        }
        lemma_member_distinct(t, k);
        assert forall|i: int| 0 <= i < m.len() && #[trigger] m[i].0 == k implies member(m, k) == Some(m[i].1) by {
            if i > 0 {
                assert(m[0].0 != m[i].0);
                assert(t[i - 1] == m[i]);
            }
        }
        if forall|i: int| 0 <= i < m.len() ==> #[trigger] m[i].0 != k {
            assert forall|i: int| 0 <= i < t.len() implies #[trigger] t[i].0 != k by {
                assert(t[i] == m[i + 1]);
            }
        }
    }
}

proof fn lemma_normal_members(m: Seq<(Seq<char>, Json)>, n: nat)
    requires
        n <= m.len(),
    ensures
        normal_members(m, n).len() == n,
        forall|i: int| 0 <= i < n ==> #[trigger] normal_members(m, n)[i] == (m[i].0, normal(m[i].1)),
    decreases n,
{
    if n > 0 {
        lemma_normal_members(m, (n - 1) as nat);
    }
}

/// A member of an object with distinct keys is found, in normal form, in
/// the normal form of the object.
pub proof fn lemma_normal_field(m: Seq<(Seq<char>, Json)>, k: Seq<char>)
    requires
        distinct_keys(m),
    ensures
        field(normal(Json::Object(m)), k) == (match member(m, k) {
            Some(v) => Some(normal(v)),
            None => None,
        }),
{
    let nm = normal_members(m, m.len());
    lemma_normal_members(m, m.len());
    assert forall|i: int, j: int| #![trigger nm[i], nm[j]] 0 <= i < j < nm.len() implies nm[i].0 != nm[j].0 by {
        assert(m[i].0 != m[j].0);
    }
    lemma_sort_by_key(nm);
    let st = sort_by_key(nm);
    lemma_member_distinct(m, k);
    lemma_member_distinct(st, k);
    if exists|i: int| 0 <= i < m.len() && #[trigger] m[i].0 == k {
        let i = choose|i: int| 0 <= i < m.len() && #[trigger] m[i].0 == k;
        assert(nm.contains(nm[i]));
        assert(st.contains(nm[i]));
        let w = choose|w: int| 0 <= w < st.len() && st[w] == nm[i];
        assert(st[w].0 == k);
    } else {
        assert forall|w: int| 0 <= w < st.len() implies #[trigger] st[w].0 != k by {
            assert(st.contains(st[w]));
            assert(nm.contains(st[w]));
            let i = choose|i: int| 0 <= i < nm.len() && nm[i] == st[w];
            assert(m[i].0 == nm[i].0);
        }
    }
}

/// `plain_items` holds exactly when every one of the first `n` items is
/// plain.
pub proof fn lemma_plain_items(items: Seq<Json>, n: nat, d: nat)
    requires
        n <= items.len(),
    ensures
        plain_items(items, n, d) <==> forall|i: int| 0 <= i < n ==> plain(#[trigger] items[i], d),
    decreases n,
{
    if n > 0 {
        lemma_plain_items(items, (n - 1) as nat, d);
    }
}

/// `plain_members` holds exactly when the value of every one of the first
/// `n` members is plain.
pub proof fn lemma_plain_members(m: Seq<(Seq<char>, Json)>, n: nat, d: nat)
    requires
        n <= m.len(),
    ensures
        plain_members(m, n, d) <==> forall|i: int| 0 <= i < n ==> plain(#[trigger] m[i].1, d),
    decreases n,
{
    if n > 0 {
        lemma_plain_members(m, (n - 1) as nat, d);
    }
}

proof fn lemma_normal_items(items: Seq<Json>, n: nat)
    requires
        n <= items.len(),
    ensures
        normal_items(items, n).len() == n,
        forall|i: int| 0 <= i < n ==> #[trigger] normal_items(items, n)[i] == normal(items[i]),
    decreases n,
{
    if n > 0 {
        lemma_normal_items(items, (n - 1) as nat);
    }
}

/// A list of strings is plain at any positive depth, is its own normal
/// form, and reads back as the same strings.
pub proof fn lemma_str_list(names: Seq<Seq<char>>, d: nat)
    requires
        d > 0,
    ensures
        plain(str_list(names), d),
        normal(str_list(names)) == str_list(names),
        strings_in(names.map_values(|n: Seq<char>| Json::Str(n))) == names,
    decreases names.len(),
{
    let items = names.map_values(|n: Seq<char>| Json::Str(n));
    lemma_plain_items(items, items.len(), (d - 1) as nat);
    lemma_normal_items(items, items.len());
    assert(normal_items(items, items.len()) =~= items);
    if names.len() > 0 {
        lemma_str_list(names.drop_last(), d);
        assert(items.drop_last() =~= names.drop_last().map_values(|n: Seq<char>| Json::Str(n)));
    }
}

/// The model of the document `serde_json` parses from `bytes`, or `None`
/// when the bytes are not a JSON document.
pub uninterp spec fn json_parse(bytes: Seq<u8>) -> Option<Json>;

#[verifier::external_type_specification]
#[verifier::external_body]
pub struct ExSerdeValue(serde_json::Value);

/// Converts a `serde_json::Value` into the library's value, variant for
/// variant; numbers that fit `i64` or `u64` stay integers, others keep
/// `serde_json`'s text for them. Trusted, with no contract of its own.
#[verifier::external_body]
fn from_serde(v: serde_json::Value) -> JsonValue {
    match v {
        serde_json::Value::Null => JsonValue::Null,
        serde_json::Value::Bool(b) => JsonValue::Bool(b),
        serde_json::Value::Number(n) => JsonValue::Number(match (n.as_i64(), n.as_u64()) {
            (Some(i), _) => JsonNumber::Int(i),
            (None, Some(u)) => JsonNumber::UInt(u),
            (None, None) => JsonNumber::Text(n.to_string()),
        }),
        serde_json::Value::String(s) => JsonValue::Str(s),
        serde_json::Value::Array(a) => JsonValue::Array(a.into_iter().map(from_serde).collect()),
        serde_json::Value::Object(m) => JsonValue::Object(m.into_iter().map(|(k, x)| (k, from_serde(x))).collect()),
    }
}

/// Calls `serde_json::from_slice::<serde_json::Value>`. Trusted: the call
/// succeeds exactly when `json_parse(bytes)` is a document, and then the
/// value returned models that document. The canonical text of a plain
/// value (nested well below `serde_json`'s limit of 128) parses back to
/// that value, with the members of each object in key order, the order of
/// `serde_json`'s default map. On failure, the message is `serde_json`'s
/// error text, of which nothing is stated.
#[verifier::external_body]
pub(crate) fn parse_json(bytes: &[u8]) -> (res: Result<JsonValue, String>)
    ensures
        res is Ok <==> json_parse(bytes@) is Some,
        res matches Ok(v) ==> json_parse(bytes@) == Some(v@),
        (exists|j: Json| #[trigger] plain(j, 100) && bytes@ == encode_utf8(canonical(j))) ==> res is Ok,
        res matches Ok(v) ==> forall|j: Json|
            #[trigger] plain(j, 100) && bytes@ == encode_utf8(canonical(j)) ==> v@ == normal(j),
{
    match serde_json::from_slice::<serde_json::Value>(bytes) {
        Ok(v) => Ok(from_serde(v)),
        Err(e) => Err(e.to_string()),
    }
}

/// The value of member `key` of an object (`None` for other values).
pub fn get_field<'a>(v: &'a JsonValue, key: &str) -> (res: Option<&'a JsonValue>)
    ensures
        field(v@, key@) == (match res {
            Some(x) => Some(x@),
            None => None,
        }),
{
    match v {
        JsonValue::Object(m) => {
            let n = m.len();
            proof { lemma_members_view(*m, n as nat); }
            let ghost mv = members_view(*m, n as nat);
            let mut i: usize = 0;
            assert(mv.skip(0) =~= mv);
            while i < n
                invariant
                    i <= n,
                    n == m@.len(),
                    mv.len() == n,
                    v@ == Json::Object(mv),
                    forall|j: int| 0 <= j < n ==> #[trigger] mv[j] == (m@[j].0@, json_view(m@[j].1)),
                    member(mv, key@) == member(mv.skip(i as int), key@),
                decreases n - i,
            {
                assert(mv.skip(i as int).drop_first() =~= mv.skip(i + 1));
                assert(mv.skip(i as int)[0] == mv[i as int]);
                if str_eq(m[i].0.as_str(), key) {
                    return Some(&m[i].1);
                }
                i = i + 1;
            }
            assert(mv.skip(n as int).len() == 0);
            None
        },
        _ => None,
    }
}

/// A list of strings as a JSON array of strings.
pub open spec fn str_list(names: Seq<Seq<char>>) -> Json {
    Json::Array(names.map_values(|n: Seq<char>| Json::Str(n)))
}

/// Appends a member to an object under construction.
pub fn push_member(m: &mut Vec<(String, JsonValue)>, key: &str, v: JsonValue)
    ensures
        members_view(*final(m), final(m)@.len()) == members_view(*old(m), old(m)@.len()).push(
            (key@, v@),
        ),
{
    let ghost before = members_view(*m, m@.len());
    proof { lemma_members_view(*m, m@.len()); }
    let ghost kv = (key@, v@);
    m.push((String::from_str(key), v));
    proof { lemma_members_view(*m, m@.len()); }
    assert(members_view(*m, m@.len()) =~= before.push(kv));
}

/// The object whose members are `m`.
pub fn object(m: Vec<(String, JsonValue)>) -> (res: JsonValue)
    ensures
        res@ == Json::Object(members_view(m, m@.len())),
{
    JsonValue::Object(m)
}

/// A JSON array of copies of the given strings.
pub fn string_array(v: &Vec<String>) -> (res: JsonValue)
    ensures
        res@ == str_list(crate::sort::names_view(v@)),
{
    let mut items: Vec<JsonValue> = Vec::new();
    let n = v.len();
    let mut i: usize = 0;
    while i < n
        invariant
            i <= n,
            n == v@.len(),
            items@.len() == i,
            forall|k: int| 0 <= k < i ==> #[trigger] items@[k]@ == Json::Str(v@[k]@),
        decreases n - i,
    {
        items.push(JsonValue::Str(v[i].clone()));
        i = i + 1;
    }
    proof {
        lemma_items_view(items, n as nat);
        assert forall|k: int| 0 <= k < n implies #[trigger] items_view(items, n as nat)[k]
            == Json::Str(v@[k]@) by {
            assert(items@[k]@ == Json::Str(v@[k]@));
        }
        assert(items_view(items, n as nat) =~= crate::sort::names_view(v@).map_values(
            |x: Seq<char>| Json::Str(x),
        ));
    }
    JsonValue::Array(items)
}

/// The string at `key`, or the empty string when there is none.
pub open spec fn text_field(j: Json, key: Seq<char>) -> Seq<char> {
    match str_field(j, key) {
        Some(t) => t,
        None => Seq::empty(),
    }
}

/// The strings of the list at `key` (other items skipped), or none when
/// `key` holds no list.
pub open spec fn strings_field(j: Json, key: Seq<char>) -> Seq<Seq<char>> {
    match field(j, key) {
        Some(Json::Array(items)) => strings_in(items),
        _ => Seq::empty(),
    }
}

/// The integer at `key` when it fits `i64`, else 0.
pub open spec fn i64_field(j: Json, key: Seq<char>) -> i64 {
    match field(j, key) {
        Some(Json::Int(i)) => if i64::MIN <= i <= i64::MAX {
            i as i64
        } else {
            0
        },
        _ => 0,
    }
}

/// A copy of the string at `key`, if `v` has one there.
pub fn get_string(v: &JsonValue, key: &str) -> (res: Option<String>)
    ensures
        str_field(v@, key@) == (match res {
            Some(s) => Some(s@),
            None => None,
        }),
{
    match get_field(v, key) {
        Some(JsonValue::Str(s)) => Some(s.clone()),
        _ => None,
    }
}

/// The string at `key`, or the empty string.
pub fn get_text(v: &JsonValue, key: &str) -> (res: String)
    ensures
        res@ == text_field(v@, key@),
{
    match get_string(v, key) {
        Some(s) => s,
        None => String::new(),
    }
}

/// The strings of the list at `key`.
pub fn get_strings(v: &JsonValue, key: &str) -> (res: Vec<String>)
    ensures
        crate::sort::names_view(res@) == strings_field(v@, key@),
{
    let mut res: Vec<String> = Vec::new();
    match get_field(v, key) {
        Some(JsonValue::Array(a)) => {
            let n = a.len();
            proof { lemma_items_view(*a, n as nat); }
            let ghost items = items_view(*a, n as nat);
            let mut i: usize = 0;
            while i < n
                invariant
                    i <= n,
                    n == a@.len(),
                    items.len() == n,
                    forall|k: int| 0 <= k < n ==> #[trigger] items[k] == a@[k]@,
                    crate::sort::names_view(res@) == strings_in(items.take(i as int)),
                decreases n - i,
            {
                assert(items.take(i + 1).drop_last() =~= items.take(i as int));
                assert(items.take(i + 1).last() == a@[i as int]@);
                match &a[i] {
                    JsonValue::Str(s) => {
                        res.push(s.clone());
                    },
                    _ => {},
                }
                assert(crate::sort::names_view(res@) =~= strings_in(items.take(i + 1)));
                i = i + 1;
            }
            assert(items.take(n as int) =~= items);
        },
        _ => {},
    }
    assert(crate::sort::names_view(res@) =~= strings_field(v@, key@));
    res
}

/// The integer at `key` when it fits `i64`, else 0.
pub fn get_i64(v: &JsonValue, key: &str) -> (res: i64)
    ensures
        res == i64_field(v@, key@),
{
    match get_field(v, key) {
        Some(JsonValue::Number(JsonNumber::Int(i))) => *i,
        Some(JsonValue::Number(JsonNumber::UInt(u))) => {
            if *u <= 9223372036854775807u64 {
                *u as i64
            } else {
                0
            }
        },
        _ => 0,
    }
}

} // verus!
