//! A JSON value as the RPC layer reads it, and its canonical rendering.
use vstd::prelude::*;

use crate::auth::hmac::hex_digit_lower;
use crate::text::{chars_of, decimal, push_char, push_decimal, signed_decimal, text_eq};

verus! {

/// A JSON number, as received: a non-negative integer, a negative integer,
/// or any other number, held by its JSON text.
#[derive(Debug, PartialEq)]
pub enum JsonNumber {
    PosInt(u64),
    NegInt(i64),
    Float(String),
}

/// A JSON value. The entries of an object keep the order in which they
/// were given; keys are expected to be distinct.
#[derive(Debug, PartialEq)]
pub enum JsonValue {
    Null,
    Bool(bool),
    Number(JsonNumber),
    String(String),
    Array(Vec<JsonValue>),
    Object(Vec<(String, JsonValue)>),
}

/// How `serde_json` writes one character inside a string literal: `"` and
/// `\` behind a backslash, the control characters U+0008, U+0009, U+000A,
/// U+000C and U+000D as `\b`, `\t`, `\n`, `\f`, `\r`, the other control
/// characters below U+0020 as `\u00` and two lower-case hexadecimal
/// digits, and every other character as itself.
pub open spec fn escaped_char(c: char) -> Seq<char> {
    if c == '"' {
        seq!['\\', '"']
    } else if c == '\\' {
        seq!['\\', '\\']
    } else if c == '\u{8}' {
        seq!['\\', 'b']
    } else if c == '\t' {
        seq!['\\', 't']
    } else if c == '\n' {
        seq!['\\', 'n']
    } else if c == '\u{c}' {
        seq!['\\', 'f']
    } else if c == '\r' {
        seq!['\\', 'r']
    } else if (c as u32) < 0x20 {
        seq!['\\', 'u', '0', '0', hex_digit_lower(((c as u32) / 16) as nat), hex_digit_lower(((c as u32) % 16) as nat)]
    } else {
        seq![c]
    }
}

/// The escaped characters of a string, in order.
pub open spec fn escaped(s: Seq<char>) -> Seq<char>
    decreases s.len(),
{
    if s.len() == 0 {
        Seq::empty()
    } else {
        escaped_char(s[0]) + escaped(s.drop_first())
    }
}

/// The JSON string literal for `s`, as `serde_json` writes it: the escaped
/// characters between double quotes.
pub open spec fn quoted(s: Seq<char>) -> Seq<char> {
    seq!['"'] + escaped(s) + seq!['"']
}

/// Calls `serde_json::to_string` on a string slice. Its serializer writes
/// `"`, then each run of characters that need no escape as it is and each
/// other character by the table in `escaped_char` (ser.rs,
/// `format_escaped_str_contents`, `ESCAPE`, `write_char_escape`), then `"`.
/// The writer is a `Vec<u8>`, which never reports an error, so the `Err`
/// arm is never taken.
#[verifier::external_body]
fn serde_string_literal(s: &str) -> (r: String)
    ensures
        r@ == quoted(s@),
{
    match serde_json::to_string(s) {
        Ok(t) => t,
        Err(_) => String::new(),
    }
}

/// The text of a number.
pub open spec fn number_text(n: JsonNumber) -> Seq<char> {
    match n {
        JsonNumber::PosInt(u) => decimal(u as nat),
        JsonNumber::NegInt(i) => signed_decimal(i as int),
        JsonNumber::Float(t) => t@,
    }
}

/// Lexicographic order of character sequences by code point, which is the
/// order of `String`'s `Ord` (byte order of UTF-8).
pub open spec fn lex_lt(a: Seq<char>, b: Seq<char>) -> bool
    decreases a.len(),
{
    if a.len() == 0 {
        b.len() > 0
    } else if b.len() == 0 {
        false
    } else if (a[0] as u32) < (b[0] as u32) {
        true
    } else if (a[0] as u32) > (b[0] as u32) {
        false
    } else {
        lex_lt(a.drop_first(), b.drop_first())
    }
}

/// The keys of a list of object entries.
pub open spec fn keys_of(es: Seq<(String, JsonValue)>) -> Seq<Seq<char>> {
    Seq::new(es.len(), |i: int| es[i].0@)
}

/// Where key `k` goes in `order`, a list of indices into `keys`: after
/// every index whose key is not greater than `k`.
pub open spec fn insert_pos(order: Seq<usize>, keys: Seq<Seq<char>>, k: Seq<char>) -> nat
    decreases order.len(),
{
    if order.len() == 0 {
        0
    } else if lex_lt(k, keys[order[0] as int]) {
        0
    } else {
        1 + insert_pos(order.drop_first(), keys, k)
    }
}

/// The indices `0..n` ordered by their keys; indices with equal keys keep
/// their relative order (a stable sort).
pub open spec fn sorted_indices(keys: Seq<Seq<char>>, n: nat) -> Seq<usize>
    decreases n,
{
    if n == 0 {
        Seq::empty()
    } else {
        let prev = sorted_indices(keys, (n - 1) as nat);
        prev.insert(insert_pos(prev, keys, keys[n - 1]) as int, (n - 1) as usize)
    }
}

/// The canonical text of a JSON value: no whitespace, object entries
/// ordered by key.
pub open spec fn canonical(v: JsonValue) -> Seq<char>
    decreases v, 0nat,
{
    match v {
        JsonValue::Null => "null"@,
        JsonValue::Bool(b) => if b { "true"@ } else { "false"@ },
        JsonValue::Number(n) => number_text(n),
        JsonValue::String(s) => quoted(s@),
        JsonValue::Array(items) => seq!['['] + joined_values(items@) + seq![']'],
        JsonValue::Object(es) => seq!['{'] + joined_entries(
            es@,
            sorted_indices(keys_of(es@), es@.len()),
        ) + seq!['}'],
    }
}

/// The canonical texts of `items`, separated by commas.
pub open spec fn joined_values(items: Seq<JsonValue>) -> Seq<char>
    decreases items, items.len(),
{
    if items.len() == 0 {
        Seq::empty()
    } else if items.len() == 1 {
        canonical(items[0])
    } else {
        joined_values(items.drop_last()) + seq![','] + canonical(items.last())
    }
}

/// One entry of an object in canonical form: `"key":value`.
pub open spec fn entry_text(e: (String, JsonValue)) -> Seq<char>
    decreases e, 0nat,
{
    quoted(e.0@) + seq![':'] + canonical(e.1)
}

/// The canonical texts of the entries of `es` taken in the given order,
/// separated by commas.
pub open spec fn joined_entries(es: Seq<(String, JsonValue)>, order: Seq<usize>) -> Seq<char>
    decreases es, order.len(),
{
    if order.len() == 0 {
        Seq::empty()
    } else if order.len() == 1 {
        if order[0] < es.len() { entry_text(es[order[0] as int]) } else { Seq::empty() }
    } else {
        joined_entries(es, order.drop_last()) + seq![','] + if order.last() < es.len() {
            entry_text(es[order.last() as int])
        } else {
            Seq::empty()
        }
    }
}

/// Appends the JSON string literal for `s`.
pub(crate) fn push_quoted(out: &mut String, s: &str)
    ensures
        final(out)@ == old(out)@ + quoted(s@),
{
    let t = serde_string_literal(s);
    out.append(t.as_str());
}

/// Appends the text of a number.
fn push_number(out: &mut String, n: &JsonNumber)
    ensures
        final(out)@ == old(out)@ + number_text(*n),
{
    match n {
        JsonNumber::PosInt(u) => push_decimal(out, *u),
        JsonNumber::NegInt(i) => push_signed(out, *i),
        JsonNumber::Float(t) => out.append(t.as_str()),
    }
}

/// Appends the decimal rendering of a signed integer.
pub fn push_signed(out: &mut String, i: i64)
    ensures
        final(out)@ == old(out)@ + signed_decimal(i as int),
{
    if i < 0 {
        push_char(out, '-');
        let magnitude: u64 = ((-(i + 1)) as u64) + 1;
        push_decimal(out, magnitude);
        assert(old(out)@ + seq!['-'] + decimal(magnitude as nat) == old(out)@ + (seq!['-'] + decimal(magnitude as nat)));
    } else {
        push_decimal(out, i as u64);
    }
}

/// Whether `a` sorts strictly before `b`.
fn key_less(a: &Vec<char>, b: &Vec<char>) -> (r: bool)
    ensures
        r == lex_lt(a@, b@),
{
    let mut i: usize = 0;
    assert(a@.skip(0) == a@ && b@.skip(0) == b@);
    while i < a.len() && i < b.len()
        invariant
            i <= a@.len(),
            i <= b@.len(),
            lex_lt(a@, b@) == lex_lt(a@.skip(i as int), b@.skip(i as int)),
        decreases a@.len() - i,
    {
        let x = a[i];
        let y = b[i];
        assert(a@.skip(i as int)[0] == x && b@.skip(i as int)[0] == y);
        if (x as u32) < (y as u32) {
            return true;
        }
        if (x as u32) > (y as u32) {
            return false;
        }
        assert(a@.skip(i as int).drop_first() == a@.skip(i + 1));
        assert(b@.skip(i as int).drop_first() == b@.skip(i + 1));
        i = i + 1;
    }
    i == a.len() && i < b.len()
}

/// The keys, each as its sequence of characters.
pub open spec fn key_views(keys: Seq<Vec<char>>) -> Seq<Seq<char>> {
    Seq::new(keys.len(), |i: int| keys[i]@)
}

proof fn lemma_insert_pos_bound(order: Seq<usize>, keys: Seq<Seq<char>>, k: Seq<char>)
    ensures
        insert_pos(order, keys, k) <= order.len(),
    decreases order.len(),
{
    if order.len() > 0 {
        lemma_insert_pos_bound(order.drop_first(), keys, k);
    }
}

/// `sorted_indices(keys, n)` lists each of `0..n` exactly once.
pub proof fn lemma_sorted_indices_perm(keys: Seq<Seq<char>>, n: nat)
    requires
        n <= usize::MAX,
    ensures
        sorted_indices(keys, n).len() == n,
        forall|j: int| 0 <= j < n ==> (#[trigger] sorted_indices(keys, n)[j]) < n,
        forall|j1: int, j2: int|
            0 <= j1 < j2 < n ==> sorted_indices(keys, n)[j1] != sorted_indices(keys, n)[j2],
        forall|i: int| 0 <= i < n ==> (#[trigger] sorted_indices(keys, n).contains(i as usize)),
    decreases n,
{
    if n > 0 {
        let prev = sorted_indices(keys, (n - 1) as nat);
        lemma_sorted_indices_perm(keys, (n - 1) as nat);
        let p = insert_pos(prev, keys, keys[n - 1]);
        lemma_insert_pos_bound(prev, keys, keys[n - 1]);
        let cur = prev.insert(p as int, (n - 1) as usize);
        prev.insert_ensures(p as int, (n - 1) as usize);
        assert(cur == sorted_indices(keys, n));
        assert forall|j1: int, j2: int| 0 <= j1 < j2 < n implies cur[j1] != cur[j2] by {
            let a = if j1 < p { prev[j1] } else if j1 == p { (n - 1) as usize } else { prev[j1 - 1] };
            let b = if j2 < p { prev[j2] } else if j2 == p { (n - 1) as usize } else { prev[j2 - 1] };
            assert(cur[j1] == a);
            assert(cur[j2] == b);
            if j1 < p && j2 < p {
                assert(prev[j1] != prev[j2]);
            } else if j1 < p && j2 == p {
                assert(prev[j1] < n - 1);
            } else if j1 < p {
                assert(prev[j1] != prev[j2 - 1]);
            } else if j1 == p {
                assert(prev[j2 - 1] < n - 1);
            } else {
                assert(prev[j1 - 1] != prev[j2 - 1]);
            }
            assert(a != b);
        }
        assert forall|i: int| 0 <= i < n implies #[trigger] cur.contains(i as usize) by {
            if i == n - 1 {
                assert(cur[p as int] == i as usize);
            } else {
                assert(prev.contains(i as usize));
                let j = choose|j: int| 0 <= j < prev.len() && prev[j] == i as usize;
                if j < p {
                    assert(cur[j] == i as usize);
                } else {
                    assert(cur[j + 1] == i as usize);
                }
            }
        }
    }
}

/// Orders the indices of `keys` by key, stably.
fn sort_key_indices(keys: &Vec<Vec<char>>) -> (order: Vec<usize>)
    ensures
        order@ == sorted_indices(key_views(keys@), keys@.len()),
{
    let ghost ks = key_views(keys@);
    let n = keys.len();
    let mut order: Vec<usize> = Vec::new();
    let mut i: usize = 0;
    while i < n
        invariant
            n == keys@.len(),
            ks == key_views(keys@),
            i <= n,
            order@ == sorted_indices(ks, i as nat),
        decreases n - i,
    {
        proof {
            lemma_sorted_indices_perm(ks, i as nat);
        }
        let k = &keys[i];
        let mut pos: usize = 0;
        assert(order@.skip(0) == order@);
        while pos < order.len() && !key_less(k, &keys[order[pos]])
            invariant
                n == keys@.len(),
                ks == key_views(keys@),
                i < n,
                k@ == ks[i as int],
                order@ == sorted_indices(ks, i as nat),
                order@.len() == i,
                forall|j: int| 0 <= j < i ==> (#[trigger] order@[j]) < i,
                pos <= order@.len(),
                insert_pos(order@, ks, ks[i as int]) == pos + insert_pos(order@.skip(pos as int), ks, ks[i as int]),
            decreases order@.len() - pos,
        {
            assert(order@.skip(pos as int).drop_first() == order@.skip(pos + 1));
            pos = pos + 1;
        }
        order.insert(pos, i);
        i = i + 1;
    }
    order
}

/// Appends the canonical text of `v`.
pub(crate) fn push_canonical(out: &mut String, v: &JsonValue)
    ensures
        final(out)@ == old(out)@ + canonical(*v),
    decreases v,
{
    match v {
        JsonValue::Null => out.append("null"),
        JsonValue::Bool(b) => if *b { out.append("true") } else { out.append("false") },
        JsonValue::Number(n) => push_number(out, n),
        JsonValue::String(s) => push_quoted(out, s.as_str()),
        JsonValue::Array(items) => {
            push_char(out, '[');
            let ghost start = out@;
            let n = items.len();
            let mut i: usize = 0;
            while i < n
                invariant
                    *v == JsonValue::Array(*items),
                    n == items@.len(),
                    i <= n,
                    out@ == start + joined_values(items@.take(i as int)),
                decreases n - i,
            {
                if i > 0 {
                    push_char(out, ',');
                }
                proof {
                    assert(decreases_to!(*v => (*v)->Array_0));
                    assert((*v)->Array_0 == *items);
                    assert(decreases_to!(*items => items@));
                    assert(decreases_to!(items@ => items@[i as int]));
                }
                push_canonical(out, &items[i]);
                assert(items@.take(i + 1).drop_last() == items@.take(i as int));
                i = i + 1;
            }
            assert(items@.take(n as int) == items@);
            push_char(out, ']');
        },
        JsonValue::Object(es) => {
            let n = es.len();
            let mut keys: Vec<Vec<char>> = Vec::new();
            let mut i: usize = 0;
            while i < n
                invariant
                    n == es@.len(),
                    i <= n,
                    keys@.len() == i,
                    forall|j: int| 0 <= j < i ==> (#[trigger] keys@[j])@ == es@[j].0@,
                decreases n - i,
            {
                keys.push(chars_of(es[i].0.as_str()));
                i = i + 1;
            }
            assert(key_views(keys@) == keys_of(es@));
            let order = sort_key_indices(&keys);
            proof {
                lemma_sorted_indices_perm(keys_of(es@), n as nat);
            }
            push_char(out, '{');
            let ghost start = out@;
            let mut k: usize = 0;
            while k < n
                invariant
                    *v == JsonValue::Object(*es),
                    n == es@.len(),
                    order@ == sorted_indices(keys_of(es@), n as nat),
                    order@.len() == n,
                    forall|j: int| 0 <= j < n ==> (#[trigger] order@[j]) < n,
                    k <= n,
                    out@ == start + joined_entries(es@, order@.take(k as int)),
                decreases n - k,
            {
                if k > 0 {
                    push_char(out, ',');
                }
                let idx = order[k];
                let e = &es[idx];
                let ghost before = out@;
                push_quoted(out, e.0.as_str());
                push_char(out, ':');
                proof {
                    assert(decreases_to!(*v => (*v)->Object_0));
                    assert((*v)->Object_0 == *es);
                    assert(decreases_to!(*es => es@));
                    assert(decreases_to!(es@ => es@[idx as int]));
                    assert(decreases_to!(es@[idx as int] => es@[idx as int].1));
                }
                push_canonical(out, &e.1);
                assert(out@ == before + entry_text(es@[idx as int]));
                assert(order@.take(k + 1).drop_last() == order@.take(k as int));
                assert(order@.take(k + 1).last() == idx);
                k = k + 1;
            }
            assert(order@.take(n as int) == order@);
            push_char(out, '}');
        },
    }
}

/// Deterministic JSON serialization with sorted keys.
///
/// Produces the same output for semantically identical inputs,
/// which is essential for HMAC verification.
pub fn canonical_json(value: &JsonValue) -> (r: String)
    ensures
        r@ == canonical(*value),
{
    let mut out = String::new();
    push_canonical(&mut out, value);
    out
}

/// No sequence sorts before itself.
pub proof fn lemma_lex_irreflexive(a: Seq<char>)
    ensures
        !lex_lt(a, a),
    decreases a.len(),
{
    if a.len() > 0 {
        lemma_lex_irreflexive(a.drop_first());
    }
}

/// The order is transitive.
pub proof fn lemma_lex_transitive(a: Seq<char>, b: Seq<char>, c: Seq<char>)
    requires
        lex_lt(a, b),
        lex_lt(b, c),
    ensures
        lex_lt(a, c),
    decreases a.len(),
{
    if a.len() > 0 && b.len() > 0 && c.len() > 0 {
        if (a[0] as u32) == (b[0] as u32) && (b[0] as u32) == (c[0] as u32) {
            lemma_lex_transitive(a.drop_first(), b.drop_first(), c.drop_first());
        }
    }
}

/// Two different sequences are ordered one way or the other.
pub proof fn lemma_lex_total(a: Seq<char>, b: Seq<char>)
    requires
        a != b,
    ensures
        lex_lt(a, b) || lex_lt(b, a),
    decreases a.len(),
{
    if a.len() > 0 && b.len() > 0 && (a[0] as u32) == (b[0] as u32) {
        vstd::utf8::char_u32_cast(a[0], a[0] as u32);
        vstd::utf8::char_u32_cast(b[0], b[0] as u32);
        assert(a[0] == b[0]);
        if a.drop_first() == b.drop_first() {
            assert(a == seq![a[0]] + a.drop_first());
            assert(b == seq![b[0]] + b.drop_first());
        }
        lemma_lex_total(a.drop_first(), b.drop_first());
    } else if a.len() == 0 && b.len() == 0 {
        assert(a == b);
    }
}

/// `a < b` and `b <= c` give `a < c`.
proof fn lemma_lex_lt_le(a: Seq<char>, b: Seq<char>, c: Seq<char>)
    requires
        lex_lt(a, b),
        !lex_lt(c, b),
    ensures
        lex_lt(a, c),
{
    if b != c {
        lemma_lex_total(b, c);
        lemma_lex_transitive(a, b, c);
    }
}

/// The position `insert_pos` picks is after every key that is not greater
/// than `k`, and before the first key that is.
proof fn lemma_insert_pos(order: Seq<usize>, keys: Seq<Seq<char>>, k: Seq<char>)
    ensures
        insert_pos(order, keys, k) <= order.len(),
        forall|i: int| 0 <= i < insert_pos(order, keys, k) ==> !lex_lt(k, #[trigger] keys[order[i] as int]),
        insert_pos(order, keys, k) < order.len() ==> lex_lt(k, keys[order[insert_pos(order, keys, k) as int] as int]),
    decreases order.len(),
{
    if order.len() > 0 && !lex_lt(k, keys[order[0] as int]) {
        let rest = order.drop_first();
        lemma_insert_pos(rest, keys, k);
        assert forall|i: int| 0 <= i < insert_pos(order, keys, k) implies !lex_lt(k, #[trigger] keys[order[i] as int]) by {
            if i > 0 {
                assert(order[i] == rest[i - 1]);
            }
        }
    }
}

/// The keys of `order`, in order, never decrease.
pub open spec fn is_sorted_by_key(order: Seq<usize>, keys: Seq<Seq<char>>) -> bool {
    forall|p: int, q: int|
        0 <= p < q < order.len() ==> !lex_lt(#[trigger] keys[order[q] as int], #[trigger] keys[order[p] as int])
}

/// `sorted_indices` orders the indices by key.
pub proof fn lemma_sorted_indices_sorted(keys: Seq<Seq<char>>, n: nat)
    requires
        n <= usize::MAX,
        n <= keys.len(),
    ensures
        is_sorted_by_key(sorted_indices(keys, n), keys),
    decreases n,
{
    if n > 0 {
        let prev = sorted_indices(keys, (n - 1) as nat);
        lemma_sorted_indices_sorted(keys, (n - 1) as nat);
        lemma_sorted_indices_perm(keys, (n - 1) as nat);
        let k = keys[n - 1];
        let p = insert_pos(prev, keys, k);
        lemma_insert_pos(prev, keys, k);
        let x = (n - 1) as usize;
        let cur = prev.insert(p as int, x);
        prev.insert_ensures(p as int, x);
        assert(cur == sorted_indices(keys, n));
        assert forall|i: int, j: int| 0 <= i < j < cur.len() implies !lex_lt(
            #[trigger] keys[cur[j] as int],
            #[trigger] keys[cur[i] as int],
        ) by {
            if j < p {
                assert(cur[i] == prev[i] && cur[j] == prev[j]);
            } else if j == p {
                assert(cur[i] == prev[i] && cur[j] == x);
            } else if i < p {
                assert(cur[i] == prev[i] && cur[j] == prev[j - 1]);
            } else if i == p {
                assert(cur[i] == x && cur[j] == prev[j - 1]);
                if j - 1 > p {
                    assert(!lex_lt(keys[prev[j - 1] as int], keys[prev[p as int] as int]));
                } else {
                    lemma_lex_irreflexive(keys[prev[p as int] as int]);
                }
                lemma_lex_lt_le(k, keys[prev[p as int] as int], keys[prev[j - 1] as int]);
                lemma_lex_irreflexive(k);
                if lex_lt(keys[prev[j - 1] as int], k) {
                    lemma_lex_transitive(k, keys[prev[j - 1] as int], k);
                }
            } else {
                assert(cur[i] == prev[i - 1] && cur[j] == prev[j - 1]);
            }
        }
    }
}

/// No two entries share a key.
pub open spec fn distinct_keys(es: Seq<(String, JsonValue)>) -> bool {
    forall|i: int, j: int| 0 <= i < j < es.len() ==> es[i].0@ != es[j].0@
}

/// Every entry of `x` has an entry in `y` with the same key, whose value
/// has the same canonical text.
pub open spec fn entries_within(x: Seq<(String, JsonValue)>, y: Seq<(String, JsonValue)>) -> bool {
    forall|i: int|
        0 <= i < x.len() ==> key_index(y, #[trigger] x[i].0@) < y.len() && canonical(
            y[key_index(y, x[i].0@) as int].1,
        ) == canonical(x[i].1)
}

/// `key_index` finds the key it is asked for, when it is there at all.
proof fn lemma_key_index(es: Seq<(String, JsonValue)>, key: Seq<char>)
    ensures
        key_index(es, key) <= es.len(),
        key_index(es, key) < es.len() ==> es[key_index(es, key) as int].0@ == key,
        forall|j: int| 0 <= j < key_index(es, key) ==> es[j].0@ != key,
    decreases es.len(),
{
    if es.len() > 0 && es[0].0@ != key {
        let rest = es.drop_first();
        lemma_key_index(rest, key);
        assert forall|j: int| 0 <= j < key_index(es, key) implies es[j].0@ != key by {
            if j > 0 {
                assert(es[j] == rest[j - 1]);
            }
        }
    }
}

/// Strictly increasing by `lex_lt`.
pub open spec fn strictly_sorted(s: Seq<Seq<char>>) -> bool {
    forall|p: int, q: int| 0 <= p < q < s.len() ==> lex_lt(#[trigger] s[p], #[trigger] s[q])
}

/// Two strictly increasing sequences with the same members are equal.
proof fn lemma_sorted_same_members(s: Seq<Seq<char>>, t: Seq<Seq<char>>)
    requires
        strictly_sorted(s),
        strictly_sorted(t),
        forall|i: int| 0 <= i < s.len() ==> t.contains(#[trigger] s[i]),
        forall|i: int| 0 <= i < t.len() ==> s.contains(#[trigger] t[i]),
    ensures
        s == t,
    decreases s.len(),
{
    if s.len() == 0 {
        if t.len() > 0 {
            assert(s.contains(t[0]));
        }
        assert(s == t);
    } else {
        assert(t.contains(s[0]));
        assert(t.len() > 0);
        assert(s.contains(t[0]));
        let j = choose|j: int| 0 <= j < t.len() && t[j] == s[0];
        let i = choose|i: int| 0 <= i < s.len() && s[i] == t[0];
        if j > 0 && i > 0 {
            assert(lex_lt(t[0], t[j]));
            assert(lex_lt(s[0], s[i]));
            lemma_lex_transitive(t[0], s[0], t[0]);
            lemma_lex_irreflexive(t[0]);
        }
        assert(s[0] == t[0]);
        let s1 = s.drop_first();
        let t1 = t.drop_first();
        assert forall|k: int| 0 <= k < s1.len() implies t1.contains(#[trigger] s1[k]) by {
            assert(s1[k] == s[k + 1]);
            assert(t.contains(s[k + 1]));
            let jj = choose|jj: int| 0 <= jj < t.len() && t[jj] == s[k + 1];
            if jj == 0 {
                assert(lex_lt(s[0], s[k + 1]));
                lemma_lex_irreflexive(s[0]);
            }
            assert(t1[jj - 1] == s1[k]);
        }
        assert forall|k: int| 0 <= k < t1.len() implies s1.contains(#[trigger] t1[k]) by {
            assert(t1[k] == t[k + 1]);
            assert(s.contains(t[k + 1]));
            let ii = choose|ii: int| 0 <= ii < s.len() && s[ii] == t[k + 1];
            if ii == 0 {
                assert(lex_lt(t[0], t[k + 1]));
                lemma_lex_irreflexive(t[0]);
            }
            assert(s1[ii - 1] == t1[k]);
        }
        lemma_sorted_same_members(s1, t1);
        assert(s == seq![s[0]] + s1);
        assert(t == seq![t[0]] + t1);
    }
}

/// Orders whose entries render alike, position by position, join alike.
proof fn lemma_joined_entries_congruent(
    ea: Seq<(String, JsonValue)>,
    oa: Seq<usize>,
    eb: Seq<(String, JsonValue)>,
    ob: Seq<usize>,
)
    requires
        oa.len() == ob.len(),
        forall|p: int|
            0 <= p < oa.len() ==> oa[p] < ea.len() && ob[p] < eb.len() && entry_text(
                ea[#[trigger] oa[p] as int],
            ) == entry_text(eb[ob[p] as int]),
    ensures
        joined_entries(ea, oa) == joined_entries(eb, ob),
    decreases oa.len(),
{
    if oa.len() > 1 {
        lemma_joined_entries_congruent(ea, oa.drop_last(), eb, ob.drop_last());
        assert(oa.last() == oa[oa.len() - 1]);
    }
}

/// The keys of `es` in the order that canonical rendering takes them.
pub open spec fn rendered_keys(es: Seq<(String, JsonValue)>) -> Seq<Seq<char>> {
    Seq::new(
        es.len(),
        |p: int| keys_of(es)[sorted_indices(keys_of(es), es.len())[p] as int],
    )
}

/// Canonical rendering lists the entries of an object with distinct keys
/// in strictly increasing key order, every key once.
pub proof fn lemma_canonical_keys_sorted(es: Seq<(String, JsonValue)>)
    requires
        distinct_keys(es),
        es.len() <= usize::MAX,
    ensures
        strictly_sorted(rendered_keys(es)),
        forall|i: int| 0 <= i < es.len() ==> rendered_keys(es).contains(#[trigger] es[i].0@),
{
    let ks = keys_of(es);
    let n = es.len();
    let o = sorted_indices(ks, n);
    lemma_sorted_indices_perm(ks, n);
    lemma_sorted_indices_sorted(ks, n);
    let r = rendered_keys(es);
    assert forall|p: int, q: int| 0 <= p < q < r.len() implies lex_lt(#[trigger] r[p], #[trigger] r[q]) by {
        assert(!lex_lt(ks[o[q] as int], ks[o[p] as int]));
        assert(o[p] != o[q]);
        if o[p] < o[q] {
            assert(es[o[p] as int].0@ != es[o[q] as int].0@);
        } else {
            assert(es[o[q] as int].0@ != es[o[p] as int].0@);
        }
        lemma_lex_total(ks[o[p] as int], ks[o[q] as int]);
    }
    assert forall|i: int| 0 <= i < n implies r.contains(#[trigger] es[i].0@) by {
        assert(o.contains(i as usize));
        let p = choose|p: int| 0 <= p < o.len() && o[p] == i as usize;
        assert(r[p] == es[i].0@);
    }
}

/// Two objects with distinct keys and the same set of keys render their
/// keys in the same order.
proof fn lemma_same_rendered_keys(ea: Seq<(String, JsonValue)>, eb: Seq<(String, JsonValue)>)
    requires
        distinct_keys(ea),
        distinct_keys(eb),
        ea.len() <= usize::MAX,
        eb.len() <= usize::MAX,
        entries_within(ea, eb),
        entries_within(eb, ea),
    ensures
        ea.len() == eb.len(),
        forall|p: int|
            0 <= p < ea.len() ==> ea[sorted_indices(keys_of(ea), ea.len())[p] as int].0@ == eb[sorted_indices(
                keys_of(eb),
                eb.len(),
            )[p] as int].0@,
{
    let oa = sorted_indices(keys_of(ea), ea.len());
    let ob = sorted_indices(keys_of(eb), eb.len());
    lemma_sorted_indices_perm(keys_of(ea), ea.len());
    lemma_sorted_indices_perm(keys_of(eb), eb.len());
    lemma_canonical_keys_sorted(ea);
    lemma_canonical_keys_sorted(eb);
    let ra = rendered_keys(ea);
    let rb = rendered_keys(eb);
    assert forall|i: int| 0 <= i < ra.len() implies rb.contains(#[trigger] ra[i]) by {
        let x = oa[i] as int;
        assert(ra[i] == ea[x].0@);
        let j = key_index(eb, ea[x].0@) as int;
        lemma_key_index(eb, ea[x].0@);
        assert(rb.contains(eb[j].0@));
    }
    assert forall|i: int| 0 <= i < rb.len() implies ra.contains(#[trigger] rb[i]) by {
        let x = ob[i] as int;
        assert(rb[i] == eb[x].0@);
        let j = key_index(ea, eb[x].0@) as int;
        lemma_key_index(ea, eb[x].0@);
        assert(ra.contains(ea[j].0@));
    }
    lemma_sorted_same_members(ra, rb);
    assert(ra.len() == ea.len() && rb.len() == eb.len());
    assert forall|p: int| 0 <= p < ea.len() implies ea[oa[p] as int].0@ == eb[ob[p] as int].0@ by {
        assert(ra[p] == rb[p]);
    }
}

/// Canonical rendering does not depend on the order of an object's
/// entries: two objects with distinct keys, the same keys, and values of
/// the same canonical text under each key render alike.
pub proof fn lemma_canonical_entry_order(a: Vec<(String, JsonValue)>, b: Vec<(String, JsonValue)>)
    requires
        distinct_keys(a@),
        distinct_keys(b@),
        entries_within(a@, b@),
        entries_within(b@, a@),
    ensures
        canonical(JsonValue::Object(a)) == canonical(JsonValue::Object(b)),
{
    let ea = a@;
    let eb = b@;
    assert(ea.len() == a.len() && a.len() <= usize::MAX);
    assert(eb.len() == b.len() && b.len() <= usize::MAX);
    let oa = sorted_indices(keys_of(ea), ea.len());
    let ob = sorted_indices(keys_of(eb), eb.len());
    lemma_sorted_indices_perm(keys_of(ea), ea.len());
    lemma_sorted_indices_perm(keys_of(eb), eb.len());
    lemma_same_rendered_keys(ea, eb);
    assert forall|p: int| 0 <= p < oa.len() implies oa[p] < ea.len() && ob[p] < eb.len() && entry_text(
        ea[#[trigger] oa[p] as int],
    ) == entry_text(eb[ob[p] as int]) by {
        let x = oa[p] as int;
        let y = ob[p] as int;
        assert(ea[x].0@ == eb[y].0@);
        let j = key_index(eb, ea[x].0@) as int;
        lemma_key_index(eb, ea[x].0@);
        if j != y {
            if j < y {
                assert(eb[j].0@ != eb[y].0@);
            } else {
                assert(eb[y].0@ != eb[j].0@);
            }
        }
    }
    lemma_joined_entries_congruent(ea, oa, eb, ob);
}

/// Semantic identity of JSON values: the same scalars, arrays with
/// identical elements in the same order, and objects with distinct keys
/// that have the same keys, with identical values under each, in any
/// order.
pub open spec fn json_equiv(a: JsonValue, b: JsonValue) -> bool
    decreases a,
{
    match a {
        JsonValue::Array(x) => match b {
            JsonValue::Array(y) => x@.len() == y@.len() && forall|i: int|
                0 <= i < x@.len() ==> json_equiv(#[trigger] x@[i], y@[i]),
            _ => false,
        },
        JsonValue::Object(x) => match b {
            JsonValue::Object(y) => {
                &&& distinct_keys(x@)
                &&& distinct_keys(y@)
                &&& forall|i: int|
                    0 <= i < x@.len() ==> key_index(y@, #[trigger] x@[i].0@) < y@.len() && json_equiv(
                        x@[i].1,
                        y@[key_index(y@, x@[i].0@) as int].1,
                    )
                &&& forall|j: int|
                    0 <= j < y@.len() ==> key_index(x@, #[trigger] y@[j].0@) < x@.len() && json_equiv(
                        x@[key_index(x@, y@[j].0@) as int].1,
                        y@[j].1,
                    )
            },
            _ => false,
        },
        _ => a == b,
    }
}

/// Lists whose elements render alike, position by position, join alike.
proof fn lemma_joined_values_congruent(xs: Seq<JsonValue>, ys: Seq<JsonValue>)
    requires
        xs.len() == ys.len(),
        forall|i: int| 0 <= i < xs.len() ==> canonical(#[trigger] xs[i]) == canonical(ys[i]),
    ensures
        joined_values(xs) == joined_values(ys),
    decreases xs.len(),
{
    if xs.len() > 1 {
        lemma_joined_values_congruent(xs.drop_last(), ys.drop_last());
        assert(canonical(xs[xs.len() - 1]) == canonical(ys[ys.len() - 1]));
    } else if xs.len() == 1 {
        assert(canonical(xs[0]) == canonical(ys[0]));
    }
}

/// Canonical JSON produces the same output for semantically identical
/// inputs: values that differ only in the order of object entries render
/// alike.
pub proof fn lemma_equiv_same_canonical(a: JsonValue, b: JsonValue)
    requires
        json_equiv(a, b),
    ensures
        canonical(a) == canonical(b),
    decreases a, 2nat,
{
    match a {
        JsonValue::Array(_) => lemma_equiv_arrays(a, b),
        JsonValue::Object(_) => lemma_equiv_objects(a, b),
        _ => {},
    }
}

proof fn lemma_equiv_arrays(a: JsonValue, b: JsonValue)
    requires
        a is Array,
        json_equiv(a, b),
    ensures
        canonical(a) == canonical(b),
    decreases a, 1nat,
{
    let x = a->Array_0;
    let y = b->Array_0;
    assert forall|i: int| 0 <= i < x@.len() implies canonical(#[trigger] x@[i]) == canonical(y@[i]) by {
        assert(decreases_to!(a => a->Array_0));
        assert(decreases_to!(x => x@));
        assert(decreases_to!(x@ => x@[i]));
        assert(json_equiv(x@[i], y@[i]));
        lemma_equiv_same_canonical(x@[i], y@[i]);
    }
    lemma_joined_values_congruent(x@, y@);
}

proof fn lemma_equiv_objects(a: JsonValue, b: JsonValue)
    requires
        a is Object,
        json_equiv(a, b),
    ensures
        canonical(a) == canonical(b),
    decreases a, 1nat,
{
    let x = a->Object_0;
    let y = b->Object_0;
    assert forall|i: int| 0 <= i < x@.len() implies key_index(y@, #[trigger] x@[i].0@) < y@.len() && canonical(
        y@[key_index(y@, x@[i].0@) as int].1,
    ) == canonical(x@[i].1) by {
        assert(decreases_to!(a => a->Object_0));
        assert(decreases_to!(x => x@));
        assert(decreases_to!(x@ => x@[i]));
        assert(decreases_to!(x@[i] => x@[i].1));
        lemma_equiv_same_canonical(x@[i].1, y@[key_index(y@, x@[i].0@) as int].1);
    }
    assert forall|j: int| 0 <= j < y@.len() implies key_index(x@, #[trigger] y@[j].0@) < x@.len() && canonical(
        x@[key_index(x@, y@[j].0@) as int].1,
    ) == canonical(y@[j].1) by {
        let i = key_index(x@, y@[j].0@) as int;
        assert(decreases_to!(a => a->Object_0));
        assert(decreases_to!(x => x@));
        assert(decreases_to!(x@ => x@[i]));
        assert(decreases_to!(x@[i] => x@[i].1));
        lemma_equiv_same_canonical(x@[i].1, y@[j].1);
    }
    lemma_canonical_entry_order(x, y);
}

/// Where the first entry with key `key` stands in `es` (`es.len()` or
/// more when there is none).
pub open spec fn key_index(es: Seq<(String, JsonValue)>, key: Seq<char>) -> nat
    decreases es.len(),
{
    if es.len() == 0 {
        0
    } else if es[0].0@ == key {
        0
    } else {
        1 + key_index(es.drop_first(), key)
    }
}

/// The value stored under `key` in an object: the first entry with that
/// key. Anything but an object has no entries.
pub open spec fn field(v: JsonValue, key: Seq<char>) -> Option<JsonValue> {
    match v {
        JsonValue::Object(es) => if key_index(es@, key) < es@.len() {
            Some(es@[key_index(es@, key) as int].1)
        } else {
            None
        },
        _ => None,
    }
}

impl JsonValue {
    /// The value stored under `key`, if this is an object that has it.
    pub fn get(&self, key: &str) -> (r: Option<&JsonValue>)
        ensures
            field(*self, key@) is None <==> r is None,
            r matches Some(x) ==> field(*self, key@) == Some(*x),
    {
        match self {
            JsonValue::Object(es) => {
                let n = es.len();
                let mut i: usize = 0;
                assert(es@.skip(0) == es@);
                while i < n && !text_eq(es[i].0.as_str(), key)
                    invariant
                        n == es@.len(),
                        i <= n,
                        key_index(es@, key@) == i + key_index(es@.skip(i as int), key@),
                    decreases n - i,
                {
                    assert(es@.skip(i as int).drop_first() == es@.skip(i + 1));
                    i = i + 1;
                }
                if i < n {
                    Some(&es[i].1)
                } else {
                    None
                }
            },
            _ => None,
        }
    }

    /// The text of a string value.
    pub fn as_str(&self) -> (r: Option<&str>)
        ensures
            r is Some <==> self is String,
            r matches Some(t) ==> self->String_0@ == t@,
    {
        match self {
            JsonValue::String(s) => Some(s.as_str()),
            _ => None,
        }
    }

    /// The value of a non-negative integer.
    pub fn as_u64(&self) -> (r: Option<u64>)
        ensures
            r is Some <==> (self is Number && self->Number_0 is PosInt),
            r matches Some(u) ==> self->Number_0 == JsonNumber::PosInt(u),
    {
        match self {
            JsonValue::Number(JsonNumber::PosInt(u)) => Some(*u),
            _ => None,
        }
    }
}

/// The debug rendering of a string (`{:?}`): quoted, with escapes.
pub uninterp spec fn debug_str(s: Seq<char>) -> Seq<char>;

/// Formats a string slice with `{:?}`. The contract claims only that the
/// text is a function of the characters, named `debug_str`.
#[verifier::external_body]
fn debug_quote(s: &str) -> (r: String)
    ensures
        r@ == debug_str(s@),
{
    format!("{:?}", s)
}

/// How a value is described when it has the wrong type.
pub open spec fn unexpected_text(v: JsonValue) -> Seq<char> {
    match v {
        JsonValue::Null => "null"@,
        JsonValue::Bool(b) => "boolean `"@ + (if b { "true"@ } else { "false"@ }) + "`"@,
        JsonValue::Number(n) => match n {
            JsonNumber::Float(_) => "floating point `"@ + number_text(n) + "`"@,
            _ => "integer `"@ + number_text(n) + "`"@,
        },
        JsonValue::String(s) => "string "@ + debug_str(s@),
        JsonValue::Array(_) => "sequence"@,
        JsonValue::Object(_) => "map"@,
    }
}

/// The message for a value of the wrong type.
pub open spec fn invalid_type_message(v: JsonValue, expected: Seq<char>) -> Seq<char> {
    "invalid type: "@ + unexpected_text(v) + ", expected "@ + expected
}

/// The message for a value of the wrong type.
pub fn invalid_type(v: &JsonValue, expected: &str) -> (r: String)
    ensures
        r@ == invalid_type_message(*v, expected@),
{
    let mut out = String::from_str("invalid type: ");
    match v {
        JsonValue::Null => out.append("null"),
        JsonValue::Bool(b) => {
            out.append("boolean `");
            if *b { out.append("true") } else { out.append("false") }
            out.append("`");
        },
        JsonValue::Number(n) => {
            match n {
                JsonNumber::Float(_) => out.append("floating point `"),
                _ => out.append("integer `"),
            }
            push_number(&mut out, n);
            out.append("`");
        },
        JsonValue::String(t) => {
            out.append("string ");
            let d = debug_quote(t.as_str());
            out.append(d.as_str());
        },
        JsonValue::Array(_) => out.append("sequence"),
        JsonValue::Object(_) => out.append("map"),
    }
    out.append(", expected ");
    out.append(expected);
    out
}

/// The view of an optional string.
pub open spec fn opt_view(o: Option<String>) -> Option<Seq<char>> {
    match o {
        Some(s) => Some(s@),
        None => None,
    }
}

/// What decoding an optional string field gives: absent and `null` give
/// `None`, a string gives its text, anything else an error message.
pub open spec fn opt_string_decoding(v: Option<JsonValue>) -> Result<Option<Seq<char>>, Seq<char>> {
    match v {
        None => Ok(None),
        Some(JsonValue::Null) => Ok(None),
        Some(JsonValue::String(s)) => Ok(Some(s@)),
        Some(x) => Err(invalid_type_message(x, "a string"@)),
    }
}

/// What decoding a required string field gives.
pub open spec fn string_decoding(v: Option<JsonValue>, name: Seq<char>) -> Result<Seq<char>, Seq<char>> {
    match v {
        None => Err("missing field `"@ + name + "`"@),
        Some(JsonValue::String(s)) => Ok(s@),
        Some(x) => Err(invalid_type_message(x, "a string"@)),
    }
}

/// The value a field reference points to.
pub open spec fn deref_opt(v: Option<&JsonValue>) -> Option<JsonValue> {
    match v {
        Some(x) => Some(*x),
        None => None,
    }
}

/// Decodes an optional string field.
pub fn decode_opt_string(v: Option<&JsonValue>) -> (r: Result<Option<String>, String>)
    ensures
        match opt_string_decoding(deref_opt(v)) {
            Ok(p) => r matches Ok(o) && opt_view(o) == p,
            Err(m) => r matches Err(e) && e@ == m,
        },
{
    match v {
        None => Ok(None),
        Some(JsonValue::Null) => Ok(None),
        Some(JsonValue::String(s)) => Ok(Some(s.clone())),
        Some(x) => Err(invalid_type(x, "a string")),
    }
}

/// Decodes a required string field named `name`.
pub fn decode_string(v: Option<&JsonValue>, name: &str) -> (r: Result<String, String>)
    ensures
        match string_decoding(deref_opt(v), name@) {
            Ok(p) => r matches Ok(o) && o@ == p,
            Err(m) => r matches Err(e) && e@ == m,
        },
{
    match v {
        None => {
            let mut m = String::from_str("missing field `");
            m.append(name);
            m.append("`");
            Err(m)
        },
        Some(JsonValue::String(s)) => Ok(s.clone()),
        Some(x) => Err(invalid_type(x, "a string")),
    }
}

/// The element at position `i` of an array, if it has one.
pub open spec fn elem(items: Seq<JsonValue>, i: nat) -> Option<JsonValue> {
    if i < items.len() {
        Some(items[i as int])
    } else {
        None
    }
}

/// The message for an array of the wrong length: `len` elements seen
/// where `expected` describes what was wanted.
pub open spec fn invalid_length_message(len: nat, expected: Seq<char>) -> Seq<char> {
    "invalid length "@ + decimal(len) + ", expected "@ + expected
}

/// The message for an array of the wrong length.
pub fn invalid_length(len: usize, expected: &str) -> (r: String)
    ensures
        r@ == invalid_length_message(len as nat, expected@),
{
    let mut out = String::from_str("invalid length ");
    push_decimal(&mut out, len as u64);
    out.append(", expected ");
    out.append(expected);
    out
}

/// What decoding the optional string at position `i` of a struct given as
/// an array gives: a missing element is an error of length.
pub open spec fn seq_opt_string_decoding(items: Seq<JsonValue>, i: nat, expected: Seq<char>) -> Result<
    Option<Seq<char>>,
    Seq<char>,
> {
    match elem(items, i) {
        None => Err(invalid_length_message(i, expected)),
        Some(x) => opt_string_decoding(Some(x)),
    }
}

/// What decoding the required string at position `i` of a struct given as
/// an array gives.
pub open spec fn seq_string_decoding(items: Seq<JsonValue>, i: nat, expected: Seq<char>) -> Result<
    Seq<char>,
    Seq<char>,
> {
    match elem(items, i) {
        None => Err(invalid_length_message(i, expected)),
        Some(JsonValue::String(s)) => Ok(s@),
        Some(x) => Err(invalid_type_message(x, "a string"@)),
    }
}

/// Whether an array that was read as a struct of `count` fields has
/// elements left over.
pub open spec fn too_long(items: Seq<JsonValue>, count: nat) -> bool {
    items.len() > count
}

/// The message for elements left over after a struct given as an array.
pub open spec fn too_long_message(items: Seq<JsonValue>) -> Seq<char> {
    invalid_length_message(items.len(), "fewer elements in array"@)
}

/// The message for elements left over after a struct given as an array.
pub fn too_long_error(items: &Vec<JsonValue>) -> (r: String)
    ensures
        r@ == too_long_message(items@),
{
    invalid_length(items.len(), "fewer elements in array")
}

/// Decodes the optional string at position `i` of a struct given as an
/// array.
pub fn decode_seq_opt_string(items: &Vec<JsonValue>, i: usize, expected: &str) -> (r: Result<
    Option<String>,
    String,
>)
    ensures
        match seq_opt_string_decoding(items@, i as nat, expected@) {
            Ok(p) => r matches Ok(o) && opt_view(o) == p,
            Err(m) => r matches Err(e) && e@ == m,
        },
{
    if i < items.len() {
        decode_opt_string(Some(&items[i]))
    } else {
        Err(invalid_length(i, expected))
    }
}

/// Decodes the required string at position `i` of a struct given as an
/// array.
pub fn decode_seq_string(items: &Vec<JsonValue>, i: usize, expected: &str) -> (r: Result<String, String>)
    ensures
        match seq_string_decoding(items@, i as nat, expected@) {
            Ok(p) => r matches Ok(o) && o@ == p,
            Err(m) => r matches Err(e) && e@ == m,
        },
{
    if i < items.len() {
        match &items[i] {
            JsonValue::String(s) => Ok(s.clone()),
            x => Err(invalid_type(x, "a string")),
        }
    } else {
        Err(invalid_length(i, expected))
    }
}

/// The text of the string stored under `key`, if the value is an object
/// that has a string there.
pub open spec fn string_at(v: JsonValue, key: Seq<char>) -> Option<Seq<char>> {
    match field(v, key) {
        Some(JsonValue::String(s)) => Some(s@),
        _ => None,
    }
}

/// The text of the string at position `i` of an array, if there is one.
pub open spec fn string_elem(items: Seq<JsonValue>, i: int) -> Option<Seq<char>> {
    if 0 <= i < items.len() {
        match items[i] {
            JsonValue::String(s) => Some(s@),
            _ => None,
        }
    } else {
        None
    }
}

} // verus!
