//! Canonical JSON: keys sorted at every depth, no whitespace, non-ASCII
//! characters passed through, only the control characters JSON requires
//! escaped, integers in minimal decimal form.

use vstd::prelude::*;
use vstd::utf8::encode_utf8;
use crate::json::{Json, JsonNumber, JsonValue, items_view, members_view, lemma_items_view, lemma_members_view, number_view, normal, normal_items, normal_members};
use crate::text::{push_char, hex_digit, int_decimal, push_i64_decimal, push_u64_decimal};
use crate::sort::{distinct_keys, lemma_sort_by_key, lemma_sorted_unique, sort_by_key, sort_pairs, pairs_view};

verus! {

/// How one character of a string is written inside a JSON string literal.
pub open spec fn escape_char(c: char) -> Seq<char> {
    if c == '"' {
        seq!['\\', '"']
    } else if c == '\\' {
        seq!['\\', '\\']
    } else if c == '\x08' {
        seq!['\\', 'b']
    } else if c == '\x0c' {
        seq!['\\', 'f']
    } else if c == '\n' {
        seq!['\\', 'n']
    } else if c == '\r' {
        seq!['\\', 'r']
    } else if c == '\t' {
        seq!['\\', 't']
    } else if (c as u32) < 0x20 {
        seq!['\\', 'u', '0', '0', hex_digit(((c as u32) / 16) as u8), hex_digit(((c as u32) % 16) as u8)]
    } else {
        seq![c]
    }
}

/// The characters of a string as written inside a JSON string literal.
pub open spec fn escape_chars(s: Seq<char>) -> Seq<char>
    decreases s.len(),
{
    if s.len() == 0 {
        Seq::empty()
    } else {
        escape_chars(s.drop_last()) + escape_char(s.last())
    }
}

/// What a JSON string literal escapes: `"` and `\\` take a backslash before
/// them, the control characters below U+0020 are written as `\b`, `\f`,
/// `\n`, `\r`, `\t` or `\u00XX` with lowercase hex digits, and every other
/// character (apostrophes and non-ASCII text among them) stands as it is.
pub proof fn lemma_escape_char(c: char)
    ensures
        (c as u32) >= 0x20 && c != '"' && c != '\\' ==> escape_char(c) == seq![c],
        c == '"' ==> escape_char(c) == seq!['\\', '"'],
        c == '\\' ==> escape_char(c) == seq!['\\', '\\'],
        c == '\x08' ==> escape_char(c) == seq!['\\', 'b'],
        c == '\x0c' ==> escape_char(c) == seq!['\\', 'f'],
        c == '\n' ==> escape_char(c) == seq!['\\', 'n'],
        c == '\r' ==> escape_char(c) == seq!['\\', 'r'],
        c == '\t' ==> escape_char(c) == seq!['\\', 't'],
        (c as u32) < 0x20 && c != '\x08' && c != '\x0c' && c != '\n' && c != '\r' && c != '\t'
            ==> escape_char(c) == seq![
            '\\',
            'u',
            '0',
            '0',
            (if (c as u32) < 0x10 { '0' } else { '1' }),
            hex_digit(((c as u32) % 16) as u8),
        ],
        escape_char(c).len() >= 1,
        escape_char(c).len() > 1 <==> ((c as u32) < 0x20 || c == '"' || c == '\\'),
{
}

/// A string none of whose characters needs escaping is written as it is.
pub proof fn lemma_escape_plain(s: Seq<char>)
    requires
        forall|i: int| 0 <= i < s.len() ==> (#[trigger] s[i] as u32) >= 0x20 && s[i] != '"' && s[i] != '\\',
    ensures
        escape_chars(s) == s,
    decreases s.len(),
{
    if s.len() > 0 {
        lemma_escape_plain(s.drop_last());
        lemma_escape_char(s.last());
        assert(s[s.len() - 1] == s.last());
        assert(escape_chars(s) =~= s);
    }
}

/// A string rendered as a JSON string literal.
pub open spec fn quoted(s: Seq<char>) -> Seq<char> {
    seq!['"'] + escape_chars(s) + seq!['"']
}

fn push_escaped_char(out: &mut String, c: char)
    ensures
        final(out)@ == old(out)@ + escape_char(c),
{
    if c == '"' {
        push_char(out, '\\');
        push_char(out, '"');
    } else if c == '\\' {
        push_char(out, '\\');
        push_char(out, '\\');
    } else if c == '\x08' {
        push_char(out, '\\');
        push_char(out, 'b');
    } else if c == '\x0c' {
        push_char(out, '\\');
        push_char(out, 'f');
    } else if c == '\n' {
        push_char(out, '\\');
        push_char(out, 'n');
    } else if c == '\r' {
        push_char(out, '\\');
        push_char(out, 'r');
    } else if c == '\t' {
        push_char(out, '\\');
        push_char(out, 't');
    } else if (c as u32) < 0x20 {
        let v = c as u32;
        push_char(out, '\\');
        push_char(out, 'u');
        push_char(out, '0');
        push_char(out, '0');
        push_char(out, if v / 16 < 10 { ((v / 16) as u8 + 48) as char } else { ((v / 16) as u8 + 87) as char });
        push_char(out, if v % 16 < 10 { ((v % 16) as u8 + 48) as char } else { ((v % 16) as u8 + 87) as char });
    } else {
        push_char(out, c);
    }
    assert(final(out)@ =~= old(out)@ + escape_char(c));
}

/// Appends `s` as a JSON string literal.
pub fn write_string(out: &mut String, s: &str)
    ensures
        final(out)@ == old(out)@ + quoted(s@),
{
    push_char(out, '"');
    let ghost start = out@;
    for c in it: s.chars()
        invariant
            it.seq() == s@,
            out@ == start + escape_chars(s@.take(it.index())),
    {
        assert(s@.take(it.index() + 1).drop_last() =~= s@.take(it.index()));
        push_escaped_char(out, c);
    }
    assert(s@.take(s@.len() as int) =~= s@);
    push_char(out, '"');
}


/// Canonical text of a JSON value.
pub open spec fn canonical(j: Json) -> Seq<char>
    decreases j, 0nat,
{
    match j {
        Json::Null => "null"@,
        Json::Bool(b) => if b { "true"@ } else { "false"@ },
        Json::Int(i) => int_decimal(i),
        Json::NumText(t) => t,
        Json::Str(s) => quoted(s),
        Json::Array(items) => seq!['['] + canonical_items(items, items.len()) + seq![']'],
        Json::Object(m) => seq!['{'] + join_members(sort_by_key(rendered_members(m, m.len())))
            + seq!['}'],
    }
}

/// The canonical texts of the first `n` items, comma-separated.
pub open spec fn canonical_items(items: Seq<Json>, n: nat) -> Seq<char>
    decreases items, n,
{
    if n == 0 || n > items.len() {
        Seq::empty()
    } else if n == 1 {
        canonical(items[0])
    } else {
        canonical_items(items, (n - 1) as nat) + seq![','] + canonical(items[n - 1])
    }
}

/// The first `n` members, each as its key and the canonical text of its
/// value, in the object's order.
pub open spec fn rendered_members(m: Seq<(Seq<char>, Json)>, n: nat) -> Seq<(Seq<char>, Seq<char>)>
    decreases m, n,
{
    if n == 0 || n > m.len() {
        Seq::empty()
    } else {
        rendered_members(m, (n - 1) as nat).push((m[n - 1].0, canonical(m[n - 1].1)))
    }
}

/// One member as `"key":value`.
pub open spec fn member_text(p: (Seq<char>, Seq<char>)) -> Seq<char> {
    quoted(p.0) + seq![':'] + p.1
}

/// Members joined by commas.
pub open spec fn join_members(s: Seq<(Seq<char>, Seq<char>)>) -> Seq<char>
    decreases s.len(),
{
    if s.len() == 0 {
        Seq::empty()
    } else if s.len() == 1 {
        member_text(s[0])
    } else {
        join_members(s.drop_last()) + seq![','] + member_text(s.last())
    }
}

proof fn lemma_rendered_members(m: Seq<(Seq<char>, Json)>, n: nat)
    requires
        n <= m.len(),
    ensures
        rendered_members(m, n).len() == n,
        forall|i: int| 0 <= i < n ==> #[trigger] rendered_members(m, n)[i] == (m[i].0, canonical(m[i].1)),
    decreases n,
{
    if n > 0 {
        lemma_rendered_members(m, (n - 1) as nat);
    }
}

/// Canonical text ignores member order: two objects with the same
/// members, each key at most once, render the same text.
pub proof fn lemma_canonical_member_order(m1: Seq<(Seq<char>, Json)>, m2: Seq<(Seq<char>, Json)>)
    requires
        distinct_keys(m1),
        distinct_keys(m2),
        forall|p: (Seq<char>, Json)| #![trigger m1.contains(p)] #![trigger m2.contains(p)] m1.contains(p) <==> m2.contains(p),
    ensures
        canonical(Json::Object(m1)) == canonical(Json::Object(m2)),
{
    let r1 = rendered_members(m1, m1.len());
    let r2 = rendered_members(m2, m2.len());
    lemma_rendered_members(m1, m1.len());
    lemma_rendered_members(m2, m2.len());
    assert forall|i: int, j: int| #![trigger r1[i], r1[j]] 0 <= i < j < r1.len() implies r1[i].0 != r1[j].0 by {
        assert(m1[i].0 != m1[j].0);
    }
    assert forall|i: int, j: int| #![trigger r2[i], r2[j]] 0 <= i < j < r2.len() implies r2[i].0 != r2[j].0 by {
        assert(m2[i].0 != m2[j].0);
    }
    assert forall|x: (Seq<char>, Seq<char>)| #![trigger r1.contains(x)] #![trigger r2.contains(x)] r1.contains(x) <==> r2.contains(x) by {
        if r1.contains(x) {
            let i = choose|i: int| 0 <= i < r1.len() && r1[i] == x;
            assert(m1.contains(m1[i]));
            let j = choose|j: int| 0 <= j < m2.len() && m2[j] == m1[i];
            assert(r2[j] == x);
        }
        if r2.contains(x) {
            let i = choose|i: int| 0 <= i < r2.len() && r2[i] == x;
            assert(m2.contains(m2[i]));
            let j = choose|j: int| 0 <= j < m1.len() && m1[j] == m2[i];
            assert(r1[j] == x);
        }
    }
    lemma_sort_by_key(r1);
    lemma_sort_by_key(r2);
    let (s1, s2) = (sort_by_key(r1), sort_by_key(r2));
    assert forall|x: (Seq<char>, Seq<char>)| #![trigger s1.contains(x)] #![trigger s2.contains(x)] s1.contains(x) <==> s2.contains(x) by {
        assert(s1.contains(x) == r1.contains(x));
        assert(s2.contains(x) == r2.contains(x));
    }
    lemma_sorted_unique(s1, s2);
}

/// Every object inside `j`, at any depth, has distinct keys.
pub open spec fn distinct_deep(j: Json) -> bool
    decreases j, 0nat,
{
    match j {
        Json::Array(items) => distinct_deep_items(items, items.len()),
        Json::Object(m) => distinct_keys(m) && distinct_deep_members(m, m.len()),
        _ => true,
    }
}

/// Every one of the first `n` items has distinct keys at every depth.
pub open spec fn distinct_deep_items(items: Seq<Json>, n: nat) -> bool
    decreases items, n,
{
    if n == 0 || n > items.len() {
        true
    } else {
        distinct_deep_items(items, (n - 1) as nat) && distinct_deep(items[n - 1])
    }
}

/// The value of every one of the first `n` members has distinct keys at
/// every depth.
pub open spec fn distinct_deep_members(m: Seq<(Seq<char>, Json)>, n: nat) -> bool
    decreases m, n,
{
    if n == 0 || n > m.len() {
        true
    } else {
        distinct_deep_members(m, (n - 1) as nat) && distinct_deep(m[n - 1].1)
    }
}

proof fn lemma_distinct_deep_items(items: Seq<Json>, n: nat)
    requires
        n <= items.len(),
    ensures
        distinct_deep_items(items, n) <==> forall|i: int| 0 <= i < n ==> distinct_deep(#[trigger] items[i]),
    decreases n,
{
    if n > 0 {
        lemma_distinct_deep_items(items, (n - 1) as nat);
    }
}

proof fn lemma_distinct_deep_members(m: Seq<(Seq<char>, Json)>, n: nat)
    requires
        n <= m.len(),
    ensures
        distinct_deep_members(m, n) <==> forall|i: int| 0 <= i < n ==> distinct_deep(#[trigger] m[i].1),
    decreases n,
{
    if n > 0 {
        lemma_distinct_deep_members(m, (n - 1) as nat);
    }
}

proof fn lemma_items_agree(a: Seq<Json>, b: Seq<Json>, n: nat)
    requires
        n <= a.len(),
        n <= b.len(),
        forall|i: int| 0 <= i < n ==> canonical(#[trigger] a[i]) == canonical(b[i]),
    ensures
        canonical_items(a, n) == canonical_items(b, n),
    decreases n,
{
    if n > 0 {
        lemma_items_agree(a, b, (n - 1) as nat);
    }
}

proof fn lemma_normal_items_len(items: Seq<Json>, n: nat)
    requires
        n <= items.len(),
    ensures
        normal_items(items, n).len() == n,
        forall|i: int| 0 <= i < n ==> #[trigger] normal_items(items, n)[i] == normal(items[i]),
    decreases n,
{
    if n > 0 {
        lemma_normal_items_len(items, (n - 1) as nat);
    }
}

proof fn lemma_normal_members_len(m: Seq<(Seq<char>, Json)>, n: nat)
    requires
        n <= m.len(),
    ensures
        normal_members(m, n).len() == n,
        forall|i: int| 0 <= i < n ==> #[trigger] normal_members(m, n)[i] == (m[i].0, normal(m[i].1)),
    decreases n,
{
    if n > 0 {
        lemma_normal_members_len(m, (n - 1) as nat);
    }
}

/// In the canonical text of an object whose keys are distinct, the members
/// appear with strictly ascending keys, each member of the object once.
pub proof fn lemma_canonical_object_order(m: Seq<(Seq<char>, Json)>)
    requires
        distinct_keys(m),
    ensures
        ({
            let t = sort_by_key(rendered_members(m, m.len()));
            &&& canonical(Json::Object(m)) == seq!['{'] + join_members(t) + seq!['}']
            &&& forall|i: int, j: int| #![trigger t[i], t[j]] 0 <= i < j < t.len() ==> crate::text::str_lt(t[i].0, t[j].0)
            &&& t.len() == m.len()
            &&& forall|i: int| #![trigger m[i]] 0 <= i < m.len() ==> t.contains((m[i].0, canonical(m[i].1)))
        }),
{
    let r = rendered_members(m, m.len());
    lemma_rendered_members(m, m.len());
    assert forall|a: int, b: int| #![trigger r[a], r[b]] 0 <= a < b < r.len() implies r[a].0 != r[b].0 by {
        assert(m[a].0 != m[b].0);
    }
    lemma_sort_by_key(r);
    let t = sort_by_key(r);
    assert forall|i: int, j: int| #![trigger t[i], t[j]] 0 <= i < j < t.len() implies crate::text::str_lt(t[i].0, t[j].0) by {
        assert(!crate::text::str_lt(t[j].0, t[i].0));
        assert(t[i].0 != t[j].0);
        crate::text::lemma_str_lt_order(t[i].0, t[j].0, t[i].0);
    }
    assert forall|i: int| #![trigger m[i]] 0 <= i < m.len() implies t.contains((m[i].0, canonical(m[i].1))) by {
        assert(r[i] == (m[i].0, canonical(m[i].1)));
        assert(r.contains(r[i]));
    }
}

/// A value renders as its normal form does, when its objects have distinct
/// keys at every depth.
pub proof fn lemma_canonical_normal(j: Json)
    requires
        distinct_deep(j),
    ensures
        canonical(normal(j)) == canonical(j),
    decreases j,
{
    match j {
        Json::Array(items) => {
            lemma_distinct_deep_items(items, items.len());
            lemma_normal_items_len(items, items.len());
            let ni = normal_items(items, items.len());
            assert forall|i: int| 0 <= i < items.len() implies canonical(#[trigger] ni[i]) == canonical(items[i]) by {
                assert(decreases_to!(j => items));
                assert(decreases_to!(items => items[i]));
                lemma_canonical_normal(items[i]);
            }
            lemma_items_agree(ni, items, items.len());
        },
        Json::Object(m) => {
            lemma_distinct_deep_members(m, m.len());
            lemma_normal_members_len(m, m.len());
            let nm = normal_members(m, m.len());
            assert forall|i: int| 0 <= i < m.len() implies canonical(normal(#[trigger] m[i].1)) == canonical(m[i].1) by {
                assert(decreases_to!(j => m));
                assert(decreases_to!(m => m[i]));
                assert(decreases_to!(m[i] => m[i].1));
                lemma_canonical_normal(m[i].1);
            }
            assert forall|a: int, b: int| #![trigger nm[a], nm[b]] 0 <= a < b < nm.len() implies nm[a].0 != nm[b].0 by {
                assert(m[a].0 != m[b].0);
            }
            lemma_sort_by_key(nm);
            let s = sort_by_key(nm);
            let rs = rendered_members(s, s.len());
            let rm = rendered_members(m, m.len());
            lemma_rendered_members(s, s.len());
            lemma_rendered_members(m, m.len());
            assert forall|a: int, b: int| #![trigger rs[a], rs[b]] 0 <= a < b < rs.len() implies rs[a].0 != rs[b].0
                && !crate::text::str_lt(rs[b].0, rs[a].0) by {
                assert(s[a].0 != s[b].0);
                assert(!crate::text::str_lt(s[b].0, s[a].0));
            }
            assert forall|a: int, b: int| #![trigger rm[a], rm[b]] 0 <= a < b < rm.len() implies rm[a].0 != rm[b].0 by {
                assert(m[a].0 != m[b].0);
            }
            assert forall|x: (Seq<char>, Seq<char>)| #![trigger rs.contains(x)] #![trigger rm.contains(x)] rs.contains(x)
                <==> rm.contains(x) by {
                if rs.contains(x) {
                    let a = choose|a: int| 0 <= a < rs.len() && rs[a] == x;
                    assert(s.contains(s[a]));
                    assert(nm.contains(s[a]));
                    let b = choose|b: int| 0 <= b < nm.len() && nm[b] == s[a];
                    assert(rm[b] == x);
                }
                if rm.contains(x) {
                    let b = choose|b: int| 0 <= b < rm.len() && rm[b] == x;
                    assert(nm.contains(nm[b]));
                    assert(s.contains(nm[b]));
                    let a = choose|a: int| 0 <= a < s.len() && s[a] == nm[b];
                    assert(rs[a] == x);
                }
            }
            lemma_sort_by_key(rs);
            lemma_sort_by_key(rm);
            let (t1, t2) = (sort_by_key(rs), sort_by_key(rm));
            assert forall|x: (Seq<char>, Seq<char>)| #![trigger t1.contains(x)] #![trigger t2.contains(x)] t1.contains(x)
                <==> t2.contains(x) by {
                assert(t1.contains(x) == rs.contains(x));
                assert(t2.contains(x) == rm.contains(x));
            }
            lemma_sorted_unique(t1, t2);
        },
        _ => {},
    }
}

/// Canonical text ignores member order at every depth: two values with the
/// same normal form, whose objects have distinct keys, render alike (and so
/// `hash_obj` hashes them alike).
pub proof fn lemma_canonical_key_order(j1: Json, j2: Json)
    requires
        distinct_deep(j1),
        distinct_deep(j2),
        normal(j1) == normal(j2),
    ensures
        canonical(j1) == canonical(j2),
{
    lemma_canonical_normal(j1);
    lemma_canonical_normal(j2);
}

fn write_number(out: &mut String, n: &JsonNumber)
    ensures
        final(out)@ == old(out)@ + canonical(number_view(*n)),
{
    match n {
        JsonNumber::Int(i) => push_i64_decimal(out, *i),
        JsonNumber::UInt(u) => push_u64_decimal(out, *u),
        JsonNumber::Text(t) => out.append(t.as_str()),
    }
}

fn write_members(out: &mut String, members: &Vec<(String, String)>)
    ensures
        final(out)@ == old(out)@ + join_members(pairs_view(members@)),
{
    let n = members.len();
    let mut i: usize = 0;
    while i < n
        invariant
            i <= n,
            n == members@.len(),
            out@ == old(out)@ + join_members(pairs_view(members@).take(i as int)),
        decreases n - i,
    {
        if i > 0 {
            push_char(out, ',');
        }
        write_string(out, members[i].0.as_str());
        push_char(out, ':');
        out.append(members[i].1.as_str());
        proof {
            let t = pairs_view(members@).take(i + 1);
            assert(t.drop_last() =~= pairs_view(members@).take(i as int));
            assert(t.last() == (members@[i as int].0@, members@[i as int].1@));
            assert(out@ =~= old(out)@ + join_members(t));
        }
        i = i + 1;
    }
    assert(pairs_view(members@).take(n as int) =~= pairs_view(members@));
}

fn write_value(out: &mut String, v: &JsonValue)
    ensures
        final(out)@ == old(out)@ + canonical(v@),
    decreases v,
{
    match v {
        JsonValue::Null => {
            out.append("null");
        },
        JsonValue::Bool(b) => {
            if *b {
                out.append("true");
            } else {
                out.append("false");
            }
        },
        JsonValue::Number(n) => write_number(out, n),
        JsonValue::Str(s) => write_string(out, s.as_str()),
        JsonValue::Array(a) => {
            push_char(out, '[');
            let ghost start = out@;
            let n = a.len();
            proof { lemma_items_view(*a, n as nat); }
            let ghost items = items_view(*a, n as nat);
            let mut i: usize = 0;
            while i < n
                invariant
                    i <= n,
                    n == a@.len(),
                    items.len() == n,
                    forall|k: int| 0 <= k < n ==> #[trigger] items[k] == a@[k]@,
                    out@ == start + canonical_items(items, i as nat),
                    *v == JsonValue::Array(*a),
                decreases n - i,
            {
                if i > 0 {
                    push_char(out, ',');
                }
                proof {
                    vstd::std_specs::vec::axiom_vec_index_decreases(*a, i as int);
                    assert(decreases_to!(*v => (*v)->Array_0));
                }
                write_value(out, &a[i]);
                assert(items[i as int] == a@[i as int]@);
                assert(out@ =~= start + canonical_items(items, (i + 1) as nat));
                i = i + 1;
            }
            push_char(out, ']');
            assert(out@ =~= old(out)@ + canonical(v@));
        },
        JsonValue::Object(m) => {
            let n = m.len();
            proof { lemma_members_view(*m, n as nat); }
            let ghost mv = members_view(*m, n as nat);
            let mut rendered: Vec<(String, String)> = Vec::new();
            let mut i: usize = 0;
            while i < n
                invariant
                    i <= n,
                    n == m@.len(),
                    mv.len() == n,
                    forall|k: int| 0 <= k < n ==> #[trigger] mv[k] == (m@[k].0@, m@[k].1@),
                    pairs_view(rendered@) == rendered_members(mv, i as nat),
                    *v == JsonValue::Object(*m),
                decreases n - i,
            {
                let mut text = String::new();
                proof {
                    vstd::std_specs::vec::axiom_vec_index_decreases(*m, i as int);
                    assert(decreases_to!(*v => (*v)->Object_0));
                    assert(decreases_to!(m@[i as int] => m@[i as int].1));
                }
                write_value(&mut text, &m[i].1);
                assert(mv[i as int] == (m@[i as int].0@, m@[i as int].1@));
                rendered.push((m[i].0.clone(), text));
                assert(pairs_view(rendered@) =~= rendered_members(mv, (i + 1) as nat));
                i = i + 1;
            }
            let sorted = sort_pairs(&rendered);
            push_char(out, '{');
            write_members(out, &sorted);
            push_char(out, '}');
            assert(out@ =~= old(out)@ + canonical(v@));
        },
    }
}

/// Serialise `value` as canonical JSON.
pub fn canonicalize_value(value: &JsonValue) -> (res: String)
    ensures
        res@ == canonical(value@),
{
    let mut out = String::new();
    write_value(&mut out, value);
    assert(out@ =~= canonical(value@));
    out
}

/// Canonicalise an owned value.
pub fn canonicalize(v: JsonValue) -> (res: String)
    ensures
        res@ == canonical(v@),
{
    canonicalize_value(&v)
}

/// Canonicalise and return the UTF-8 bytes of the canonical text.
pub fn canonicalize_bytes(value: &JsonValue) -> (res: Vec<u8>)
    ensures
        res@ == encode_utf8(canonical(value@)),
{
    let s = canonicalize_value(value);
    s.as_str().as_bytes_vec()
}

} // verus!
