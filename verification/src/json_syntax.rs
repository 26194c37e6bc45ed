//! Reading JSON text back: a model of JSON values, a parser of JSON text
//! without insignificant whitespace, and the law that canonical JSON text
//! parses back to the value it was made from.
use vstd::prelude::*;

use crate::auth::hmac::hex_digit_lower;
use crate::json::{
    canonical, entry_text, escaped, escaped_char, joined_entries, joined_values, keys_of, lex_lt,
    lemma_lex_irreflexive, lemma_lex_transitive, sorted_indices, insert_pos,
    strictly_sorted, JsonNumber, JsonValue,
};
use crate::text::{decimal, digit_char, digits_value, lemma_decimal_value, signed_decimal};

verus! {

/// A JSON value as a mathematical object.
pub enum JsonModel {
    Null,
    Bool(bool),
    PosInt(u64),
    NegInt(i64),
    /// Any other number, by its text.
    Float(Seq<char>),
    Str(Seq<char>),
    Array(Seq<JsonModel>),
    Object(Seq<(Seq<char>, JsonModel)>),
}

/// The model of a value.
pub open spec fn model(v: JsonValue) -> JsonModel
    decreases v, 0nat,
{
    match v {
        JsonValue::Null => JsonModel::Null,
        JsonValue::Bool(b) => JsonModel::Bool(b),
        JsonValue::Number(JsonNumber::PosInt(u)) => JsonModel::PosInt(u),
        JsonValue::Number(JsonNumber::NegInt(i)) => JsonModel::NegInt(i),
        JsonValue::Number(JsonNumber::Float(t)) => JsonModel::Float(t@),
        JsonValue::String(s) => JsonModel::Str(s@),
        JsonValue::Array(items) => JsonModel::Array(models(items@)),
        JsonValue::Object(es) => JsonModel::Object(entry_models(es@)),
    }
}

/// The models of a list of values.
pub open spec fn models(items: Seq<JsonValue>) -> Seq<JsonModel>
    decreases items, items.len(),
{
    if items.len() == 0 {
        Seq::empty()
    } else {
        models(items.drop_last()).push(model(items.last()))
    }
}

/// The models of a list of object entries.
pub open spec fn entry_models(es: Seq<(String, JsonValue)>) -> Seq<(Seq<char>, JsonModel)>
    decreases es, es.len(),
{
    if es.len() == 0 {
        Seq::empty()
    } else {
        entry_models(es.drop_last()).push((es.last().0@, model(es.last().1)))
    }
}

/// Whether `c` is a decimal digit.
pub open spec fn is_digit(c: char) -> bool {
    '0' <= c && c <= '9'
}

/// Whether `c` can occur in a JSON number.
pub open spec fn number_char(c: char) -> bool {
    is_digit(c) || c == '-' || c == '+' || c == '.' || c == 'e' || c == 'E'
}

/// How many characters at the start of `t` are digits.
pub open spec fn lead_digits(t: Seq<char>) -> nat
    decreases t.len(),
{
    if t.len() > 0 && is_digit(t[0]) {
        1 + lead_digits(t.drop_first())
    } else {
        0
    }
}

/// How many characters at the start of `t` can belong to a number.
pub open spec fn number_len(t: Seq<char>) -> nat
    decreases t.len(),
{
    if t.len() > 0 && number_char(t[0]) {
        1 + number_len(t.drop_first())
    } else {
        0
    }
}

/// An optional exponent: `e` or `E`, an optional sign, one digit or more.
pub open spec fn exponent_ok(t: Seq<char>) -> bool {
    t.len() == 0 || ((t[0] == 'e' || t[0] == 'E') && {
        let u = if t.len() > 1 && (t[1] == '+' || t[1] == '-') { t.skip(2) } else { t.skip(1) };
        u.len() > 0 && lead_digits(u) == u.len()
    })
}

/// An optional fraction (`.` and one digit or more), then an optional
/// exponent.
pub open spec fn fraction_exponent_ok(t: Seq<char>) -> bool {
    if t.len() > 0 && t[0] == '.' {
        let d = lead_digits(t.skip(1));
        d > 0 && exponent_ok(t.skip(1 + d as int))
    } else {
        exponent_ok(t)
    }
}

/// JSON number syntax: an optional minus, an integer part without leading
/// zeros, an optional fraction and an optional exponent.
pub open spec fn number_syntax(tok: Seq<char>) -> bool {
    let r = if tok.len() > 0 && tok[0] == '-' { tok.skip(1) } else { tok };
    let d = lead_digits(r);
    d > 0 && (d == 1 || r[0] != '0') && fraction_exponent_ok(r.skip(d as int))
}

/// The number a token denotes: a non-negative integer that fits in 64
/// bits, a negative one that does, or else the token itself.
pub open spec fn number_model(tok: Seq<char>) -> JsonModel {
    if tok.len() > 0 && lead_digits(tok) == tok.len() && digits_value(tok) <= u64::MAX {
        JsonModel::PosInt(digits_value(tok) as u64)
    } else if tok.len() > 1 && tok[0] == '-' && lead_digits(tok.skip(1)) == tok.len() - 1 && 0 < digits_value(
        tok.skip(1),
    ) <= 0x8000_0000_0000_0000 {
        JsonModel::NegInt((-digits_value(tok.skip(1))) as i64)
    } else {
        JsonModel::Float(tok)
    }
}

/// The value of a hexadecimal digit.
pub open spec fn hex_value(c: char) -> Option<nat> {
    if is_digit(c) {
        Some(((c as u32) - 48) as nat)
    } else if 'a' <= c && c <= 'f' {
        Some(((c as u32) - 87) as nat)
    } else if 'A' <= c && c <= 'F' {
        Some(((c as u32) - 55) as nat)
    } else {
        None
    }
}

/// The value of four hexadecimal digits.
pub open spec fn hex4(t: Seq<char>) -> Option<nat> {
    match (hex_value(t[0]), hex_value(t[1]), hex_value(t[2]), hex_value(t[3])) {
        (Some(a), Some(b), Some(c), Some(d)) => Some(a * 4096 + b * 256 + c * 16 + d),
        _ => None,
    }
}

/// The character that a one-letter escape stands for.
pub open spec fn simple_escape(e: char) -> Option<char> {
    if e == '"' {
        Some('"')
    } else if e == '\\' {
        Some('\\')
    } else if e == '/' {
        Some('/')
    } else if e == 'b' {
        Some('\u{8}')
    } else if e == 'f' {
        Some('\u{c}')
    } else if e == 'n' {
        Some('\n')
    } else if e == 'r' {
        Some('\r')
    } else if e == 't' {
        Some('\t')
    } else {
        None
    }
}

/// Whether a code unit is a UTF-16 surrogate.
pub open spec fn is_surrogate(v: nat) -> bool {
    0xD800 <= v <= 0xDFFF
}

/// Prepends a character to a parsed string body.
pub open spec fn cons_char(c: char, r: Option<(Seq<char>, Seq<char>)>) -> Option<(Seq<char>, Seq<char>)> {
    match r {
        Some((s, rest)) => Some((seq![c] + s, rest)),
        None => None,
    }
}

/// Reads the body of a string literal whose opening quote has been read:
/// its characters, and the text after the closing quote. Raw control
/// characters and unknown escapes are refused; `\u` escapes of a
/// surrogate pair give one character.
pub open spec fn parse_string_body(t: Seq<char>) -> Option<(Seq<char>, Seq<char>)>
    decreases t.len(),
{
    if t.len() == 0 {
        None
    } else if t[0] == '"' {
        Some((Seq::empty(), t.drop_first()))
    } else if t[0] == '\\' {
        if t.len() < 2 {
            None
        } else if simple_escape(t[1]) is Some {
            cons_char(simple_escape(t[1])->0, parse_string_body(t.skip(2)))
        } else if t[1] == 'u' && t.len() >= 6 && hex4(t.subrange(2, 6)) is Some {
            let v = hex4(t.subrange(2, 6))->0;
            if !is_surrogate(v) {
                cons_char((v as u32) as char, parse_string_body(t.skip(6)))
            } else if v < 0xDC00 && t.len() >= 12 && t[6] == '\\' && t[7] == 'u' && hex4(t.subrange(8, 12)) is Some
                && 0xDC00 <= hex4(t.subrange(8, 12))->0 <= 0xDFFF {
                let w = hex4(t.subrange(8, 12))->0;
                cons_char(
                    ((0x10000 + (v - 0xD800) * 0x400 + (w - 0xDC00)) as u32) as char,
                    parse_string_body(t.skip(12)),
                )
            } else {
                None
            }
        } else {
            None
        }
    } else if (t[0] as u32) < 0x20 {
        None
    } else {
        cons_char(t[0], parse_string_body(t.drop_first()))
    }
}

/// Reads one value at the start of `t`: the value and the text after it.
pub open spec fn parse_value(t: Seq<char>) -> Option<(JsonModel, Seq<char>)>
    decreases t.len(), 0nat,
{
    if t.len() == 0 {
        None
    } else if t[0] == 'n' {
        if t.take(4) == "null"@ { Some((JsonModel::Null, t.skip(4))) } else { None }
    } else if t[0] == 't' {
        if t.take(4) == "true"@ { Some((JsonModel::Bool(true), t.skip(4))) } else { None }
    } else if t[0] == 'f' {
        if t.take(5) == "false"@ { Some((JsonModel::Bool(false), t.skip(5))) } else { None }
    } else if t[0] == '-' || is_digit(t[0]) {
        let tok = t.take(number_len(t) as int);
        if number_syntax(tok) { Some((number_model(tok), t.skip(number_len(t) as int))) } else { None }
    } else if t[0] == '"' {
        match parse_string_body(t.drop_first()) {
            Some((s, rest)) => Some((JsonModel::Str(s), rest)),
            None => None,
        }
    } else if t[0] == '[' {
        if t.len() > 1 && t[1] == ']' {
            Some((JsonModel::Array(Seq::empty()), t.skip(2)))
        } else {
            parse_elements(t.drop_first(), Seq::empty())
        }
    } else if t[0] == '{' {
        if t.len() > 1 && t[1] == '}' {
            Some((JsonModel::Object(Seq::empty()), t.skip(2)))
        } else {
            parse_members(t.drop_first(), Seq::empty())
        }
    } else {
        None
    }
}

/// Reads the elements of an array after `[`, given those read so far:
/// values separated by `,`, up to `]`.
pub open spec fn parse_elements(t: Seq<char>, acc: Seq<JsonModel>) -> Option<(JsonModel, Seq<char>)>
    decreases t.len(), 1nat,
{
    match parse_value(t) {
        None => None,
        Some((v, r)) => if r.len() < t.len() && r.len() > 0 && r[0] == ',' {
            parse_elements(r.drop_first(), acc.push(v))
        } else if r.len() > 0 && r[0] == ']' {
            Some((JsonModel::Array(acc.push(v)), r.drop_first()))
        } else {
            None
        },
    }
}

/// Reads the members of an object after `{`, given those read so far:
/// `"key":value` pairs separated by `,`, up to `}`.
pub open spec fn parse_members(t: Seq<char>, acc: Seq<(Seq<char>, JsonModel)>) -> Option<
    (JsonModel, Seq<char>),
>
    decreases t.len(), 1nat,
{
    if t.len() == 0 || t[0] != '"' {
        None
    } else {
        match parse_string_body(t.drop_first()) {
            None => None,
            Some((k, r1)) => if r1.len() < t.len() && r1.len() > 0 && r1[0] == ':' {
                match parse_value(r1.drop_first()) {
                    None => None,
                    Some((v, r2)) => if r2.len() < t.len() && r2.len() > 0 && r2[0] == ',' {
                        parse_members(r2.drop_first(), acc.push((k, v)))
                    } else if r2.len() > 0 && r2[0] == '}' {
                        Some((JsonModel::Object(acc.push((k, v))), r2.drop_first()))
                    } else {
                        None
                    },
                }
            } else {
                None
            },
        }
    }
}

/// The value that a whole JSON text denotes, if it is one value and
/// nothing else. Whitespace between tokens is not accepted.
pub open spec fn parse_json(t: Seq<char>) -> Option<JsonModel> {
    match parse_value(t) {
        Some((v, r)) => if r.len() == 0 { Some(v) } else { None },
        None => None,
    }
}

/// The text of a number that is neither a 64-bit integer form: a JSON
/// number token, as `serde_json` writes a float.
pub open spec fn float_text_ok(t: Seq<char>) -> bool {
    &&& forall|i: int| 0 <= i < t.len() ==> number_char(#[trigger] t[i])
    &&& number_syntax(t)
    &&& number_model(t) == JsonModel::Float(t)
}

/// A value as `serde_json` holds one: negative integers are negative,
/// float texts are number tokens, and the keys of every object are
/// distinct and in increasing order (a `serde_json::Map` is a sorted map).
pub open spec fn well_formed(v: JsonValue) -> bool
    decreases v, 0nat,
{
    match v {
        JsonValue::Number(JsonNumber::NegInt(i)) => i < 0,
        JsonValue::Number(JsonNumber::Float(t)) => float_text_ok(t@),
        JsonValue::Array(items) => all_well_formed(items@),
        JsonValue::Object(es) => strictly_sorted(keys_of(es@)) && entries_well_formed(es@),
        _ => true,
    }
}

/// Every value of a list is well formed.
pub open spec fn all_well_formed(items: Seq<JsonValue>) -> bool
    decreases items, items.len(),
{
    if items.len() == 0 {
        true
    } else {
        all_well_formed(items.drop_last()) && well_formed(items.last())
    }
}

/// Every value of a list of entries is well formed.
pub open spec fn entries_well_formed(es: Seq<(String, JsonValue)>) -> bool
    decreases es, es.len(),
{
    if es.len() == 0 {
        true
    } else {
        entries_well_formed(es.drop_last()) && well_formed(es.last().1)
    }
}

/// Whether the text after a value lets the value end there.
pub open spec fn ends_value(rest: Seq<char>) -> bool {
    rest.len() == 0 || rest[0] == ',' || rest[0] == ']' || rest[0] == '}'
}


/// `lead_digits` and `number_len` stop where a run of digits stops.
proof fn lemma_digit_run(a: Seq<char>, r: Seq<char>)
    requires
        forall|i: int| 0 <= i < a.len() ==> is_digit(#[trigger] a[i]),
        r.len() == 0 || !number_char(r[0]),
    ensures
        lead_digits(a + r) == a.len(),
        number_len(a + r) == a.len(),
    decreases a.len(),
{
    if a.len() == 0 {
        assert(a + r == r);
    } else {
        assert((a + r).drop_first() == a.drop_first() + r);
        assert(is_digit(a[0]));
        lemma_digit_run(a.drop_first(), r);
    }
}

/// `number_len` stops where a run of number characters stops.
proof fn lemma_number_run(a: Seq<char>, r: Seq<char>)
    requires
        forall|i: int| 0 <= i < a.len() ==> number_char(#[trigger] a[i]),
        r.len() == 0 || !number_char(r[0]),
    ensures
        number_len(a + r) == a.len(),
    decreases a.len(),
{
    if a.len() == 0 {
        assert(a + r == r);
    } else {
        assert((a + r).drop_first() == a.drop_first() + r);
        assert(number_char(a[0]));
        lemma_number_run(a.drop_first(), r);
    }
}

/// The decimal rendering of a number is a non-empty run of digits, without
/// a leading zero unless it is `0` itself.
proof fn lemma_decimal_digits(n: nat)
    ensures
        decimal(n).len() > 0,
        forall|i: int| 0 <= i < decimal(n).len() ==> is_digit(#[trigger] decimal(n)[i]),
        n > 0 ==> decimal(n)[0] != '0',
        n == 0 ==> decimal(n) == seq!['0'],
    decreases n,
{
    if n >= 10 {
        lemma_decimal_digits(n / 10);
        let d = decimal(n / 10);
        assert(decimal(n) == d.push(digit_char(n % 10)));
        assert forall|i: int| 0 <= i < decimal(n).len() implies is_digit(#[trigger] decimal(n)[i]) by {
            if i < d.len() {
                assert(decimal(n)[i] == d[i]);
            }
        }
        assert(decimal(n)[0] == d[0]);
    }
}

/// A 64-bit integer's decimal text reads back as that integer, whatever
/// follows it.
proof fn lemma_pos_int_roundtrip(u: u64, rest: Seq<char>)
    requires
        ends_value(rest),
    ensures
        parse_value(decimal(u as nat) + rest) == Some((JsonModel::PosInt(u), rest)),
{
    let d = decimal(u as nat);
    lemma_decimal_digits(u as nat);
    lemma_digit_run(d, rest);
    lemma_digit_run(d, Seq::empty());
    assert(d + Seq::<char>::empty() == d);
    lemma_decimal_value(u as nat);
    let t = d + rest;
    assert(t[0] == d[0]);
    assert(t.take(d.len() as int) == d);
    assert(t.skip(d.len() as int) == rest);
    assert(d.skip(d.len() as int) == Seq::<char>::empty());
    assert(number_syntax(d));
}

/// A negative 64-bit integer's text reads back as that integer, whatever
/// follows it.
proof fn lemma_neg_int_roundtrip(i: i64, rest: Seq<char>)
    requires
        i < 0,
        ends_value(rest),
    ensures
        parse_value(signed_decimal(i as int) + rest) == Some((JsonModel::NegInt(i), rest)),
{
    let n = (-i) as nat;
    let d = decimal(n);
    let tok = seq!['-'] + d;
    lemma_decimal_digits(n);
    lemma_digit_run(d, rest);
    lemma_digit_run(d, Seq::empty());
    assert(d + Seq::<char>::empty() == d);
    lemma_decimal_value(n);
    assert forall|k: int| 0 <= k < tok.len() implies number_char(#[trigger] tok[k]) by {
        if k > 0 {
            assert(tok[k] == d[k - 1]);
        }
    }
    lemma_number_run(tok, rest);
    let t = tok + rest;
    assert(signed_decimal(i as int) == tok);
    assert(t.take(tok.len() as int) == tok);
    assert(t.skip(tok.len() as int) == rest);
    assert(tok.skip(1) == d);
    assert(d.skip(d.len() as int) == Seq::<char>::empty());
    assert(!is_digit(tok[0]));
    assert(lead_digits(tok) == 0);
    assert(number_syntax(tok));
}

/// A well-formed float text reads back as itself, whatever follows it.
proof fn lemma_float_roundtrip(f: Seq<char>, rest: Seq<char>)
    requires
        float_text_ok(f),
        ends_value(rest),
    ensures
        parse_value(f + rest) == Some((JsonModel::Float(f), rest)),
        f.len() > 0,
        f[0] == '-' || is_digit(f[0]),
{
    lemma_number_run(f, rest);
    let t = f + rest;
    assert(t.take(f.len() as int) == f);
    assert(t.skip(f.len() as int) == rest);
    assert(t[0] == f[0]);
}


/// Every lower-case hexadecimal digit reads back as its value.
proof fn lemma_hex_digit(d: nat)
    requires
        d < 16,
    ensures
        hex_value(hex_digit_lower(d)) == Some(d),
{
}

/// A control character written as `\u00XX` reads back as itself.
#[verifier::spinoff_prover]
proof fn lemma_control_escape(c: char, tail: Seq<char>)
    requires
        (c as u32) < 0x20,
        c != '\u{8}' && c != '\t' && c != '\n' && c != '\u{c}' && c != '\r',
    ensures
        parse_string_body(escaped_char(c) + tail) == cons_char(c, parse_string_body(tail)),
{
    let t = escaped_char(c) + tail;
    let x = c as u32;
    let hi = (x / 16) as nat;
    let lo = (x % 16) as nat;
    lemma_hex_digit(hi);
    lemma_hex_digit(lo);
    assert(t.skip(6) == tail);
    let h = t.subrange(2, 6);
    assert(h[0] == '0' && h[1] == '0' && h[2] == hex_digit_lower(hi) && h[3] == hex_digit_lower(lo));
    assert(hex_value('0') == Some(0nat));
    assert(hi * 16 + lo == x) by (nonlinear_arith)
        requires
            hi == x / 16,
            lo == x % 16,
    ;
    assert(hex4(h) == Some(x as nat));
    assert(simple_escape(t[1]) is None);
    vstd::utf8::char_u32_cast(c, x);
    assert(((x as nat) as u32) as char == c);
}

/// The characters of a string, escaped, then a closing quote, read back as
/// the string, whatever follows.
#[verifier::spinoff_prover]
proof fn lemma_string_roundtrip(s: Seq<char>, rest: Seq<char>)
    ensures
        parse_string_body(escaped(s) + seq!['"'] + rest) == Some((s, rest)),
    decreases s.len(),
{
    let t = escaped(s) + seq!['"'] + rest;
    if s.len() == 0 {
        assert(t == seq!['"'] + rest);
        assert(t.drop_first() == rest);
    } else {
        let c = s[0];
        let tail = escaped(s.drop_first()) + seq!['"'] + rest;
        lemma_string_roundtrip(s.drop_first(), rest);
        let e = escaped_char(c);
        assert(t == e + tail);
        assert(seq![c] + s.drop_first() == s);
        if c == '"' || c == '\\' || c == '\u{8}' || c == '\t' || c == '\n' || c == '\u{c}' || c == '\r' {
            assert(t.skip(2) == tail);
        } else if (c as u32) < 0x20 {
            lemma_control_escape(c, tail);
                } else {
            assert(t[0] == c);
            assert(t.drop_first() == tail);
        }
    }
}


/// Where `k` goes when it sorts after every key in `order`: at the end.
proof fn lemma_insert_pos_last(order: Seq<usize>, keys: Seq<Seq<char>>, k: Seq<char>)
    requires
        forall|j: int| 0 <= j < order.len() ==> !lex_lt(k, #[trigger] keys[order[j] as int]),
    ensures
        insert_pos(order, keys, k) == order.len(),
    decreases order.len(),
{
    if order.len() > 0 {
        assert(!lex_lt(k, keys[order[0] as int]));
        assert forall|j: int| 0 <= j < order.drop_first().len() implies !lex_lt(
            k,
            #[trigger] keys[order.drop_first()[j] as int],
        ) by {
            assert(order.drop_first()[j] == order[j + 1]);
        }
        lemma_insert_pos_last(order.drop_first(), keys, k);
    }
}

/// The indices `0..k`, in order.
pub open spec fn id_order(k: nat) -> Seq<usize> {
    Seq::new(k, |i: int| i as usize)
}

/// Keys that are already in strictly increasing order are rendered in the
/// order given.
proof fn lemma_sorted_keys_keep_order(keys: Seq<Seq<char>>, n: nat)
    requires
        n <= keys.len(),
        n <= usize::MAX,
        strictly_sorted(keys),
    ensures
        sorted_indices(keys, n) == id_order(n),
    decreases n,
{
    if n > 0 {
        lemma_sorted_keys_keep_order(keys, (n - 1) as nat);
        let prev = sorted_indices(keys, (n - 1) as nat);
        let k = keys[n - 1];
        assert forall|j: int| 0 <= j < prev.len() implies !lex_lt(k, #[trigger] keys[prev[j] as int]) by {
            assert(prev[j] as int == j);
            assert(lex_lt(keys[j], k));
            if lex_lt(k, keys[j]) {
                lemma_lex_transitive(keys[j], k, keys[j]);
                lemma_lex_irreflexive(keys[j]);
            }
        }
        lemma_insert_pos_last(prev, keys, k);
        assert(prev.insert((n - 1) as int, (n - 1) as usize) =~= id_order(n));
    }
}

/// Every entry of a list whose values are well formed has a well-formed
/// value.
proof fn lemma_entry_well_formed(es: Seq<(String, JsonValue)>, j: int)
    requires
        entries_well_formed(es),
        0 <= j < es.len(),
    ensures
        well_formed(es[j].1),
    decreases es.len(),
{
    if j < es.len() - 1 {
        assert(es.drop_last()[j] == es[j]);
        lemma_entry_well_formed(es.drop_last(), j);
    }
}

/// What reading the elements of an array gives once a value has been read
/// and `r` follows it.
spec fn elements_after(r: Seq<char>, acc: Seq<JsonModel>) -> Option<(JsonModel, Seq<char>)> {
    if r.len() > 0 && r[0] == ',' {
        parse_elements(r.drop_first(), acc)
    } else if r.len() > 0 && r[0] == ']' {
        Some((JsonModel::Array(acc), r.drop_first()))
    } else {
        None
    }
}

/// What reading the members of an object gives once a member has been
/// read and `r` follows it.
spec fn members_after(r: Seq<char>, acc: Seq<(Seq<char>, JsonModel)>) -> Option<(JsonModel, Seq<char>)> {
    if r.len() > 0 && r[0] == ',' {
        parse_members(r.drop_first(), acc)
    } else if r.len() > 0 && r[0] == '}' {
        Some((JsonModel::Object(acc), r.drop_first()))
    } else {
        None
    }
}

/// The canonical text of a well-formed value other than an array or an
/// object reads back as its model, whatever may end a value after it.
proof fn lemma_scalar_roundtrip(v: JsonValue, rest: Seq<char>)
    requires
        well_formed(v),
        ends_value(rest),
        !(v is Array),
        !(v is Object),
    ensures
        parse_value(canonical(v) + rest) == Some((model(v), rest)),
        canonical(v).len() > 0,
        canonical(v)[0] != ']',
        canonical(v)[0] != '}',
{
    let t = canonical(v) + rest;
    match v {
        JsonValue::Null => {
            reveal_strlit("null");
            assert(t.take(4) == "null"@);
            assert(t.skip(4) == rest);
        },
        JsonValue::Bool(b) => {
            reveal_strlit("true");
            reveal_strlit("false");
            if b {
                assert(t.take(4) == "true"@);
                assert(t.skip(4) == rest);
            } else {
                assert(t.take(5) == "false"@);
                assert(t.skip(5) == rest);
            }
        },
        JsonValue::Number(n) => {
            match n {
                JsonNumber::PosInt(u) => {
                    lemma_pos_int_roundtrip(u, rest);
                    lemma_decimal_digits(u as nat);
                },
                JsonNumber::NegInt(i) => {
                    lemma_neg_int_roundtrip(i, rest);
                },
                JsonNumber::Float(f) => {
                    lemma_float_roundtrip(f@, rest);
                },
            }
        },
        JsonValue::String(s) => {
            lemma_string_roundtrip(s@, rest);
            assert(t.drop_first() == escaped(s@) + seq!['"'] + rest);
        },
        _ => {},
    }
}

/// The canonical text of a well-formed value reads back as its model,
/// whatever may end a value after it.
proof fn lemma_value_roundtrip(v: JsonValue, rest: Seq<char>)
    requires
        well_formed(v),
        ends_value(rest),
    ensures
        parse_value(canonical(v) + rest) == Some((model(v), rest)),
        canonical(v).len() > 0,
        canonical(v)[0] != ']',
        canonical(v)[0] != '}',
    decreases v, 0nat,
{
    match v {
        JsonValue::Array(items) => {
            assert(decreases_to!(v => items));
            lemma_array_roundtrip(items, rest);
        },
        JsonValue::Object(es) => {
            assert(decreases_to!(v => es));
            lemma_object_roundtrip(es, rest);
        },
        _ => {
            lemma_scalar_roundtrip(v, rest);
        },
    }
}

/// The canonical text of an array of well-formed values reads back as the
/// models of its items, in order.
#[verifier::spinoff_prover]
#[verifier::rlimit(80)]
proof fn lemma_array_roundtrip(items: Vec<JsonValue>, rest: Seq<char>)
    requires
        all_well_formed(items@),
        ends_value(rest),
    ensures
        parse_value(canonical(JsonValue::Array(items)) + rest) == Some((model(JsonValue::Array(items)), rest)),
        canonical(JsonValue::Array(items)).len() > 0,
        canonical(JsonValue::Array(items))[0] == '[',
    decreases items, 0nat,
{
    let v = JsonValue::Array(items);
    let t = canonical(v) + rest;
    let xs = items@;
    assert(canonical(v) == seq!['['] + joined_values(xs) + seq![']']);
    assert(model(v) == JsonModel::Array(models(xs)));
    if xs.len() == 0 {
        assert(canonical(v) == seq!['[', ']']);
        assert(t.skip(2) == rest);
        assert(models(xs) == Seq::<JsonModel>::empty());
    } else {
        lemma_elements_roundtrip(xs, Seq::empty(), seq![']'] + rest);
        assert(t.drop_first() == joined_values(xs) + (seq![']'] + rest));
        assert(Seq::<JsonModel>::empty() + models(xs) == models(xs));
    }
}

/// The canonical text of an object with keys in increasing order and
/// well-formed values reads back as its entries' keys and models, in order.
#[verifier::spinoff_prover]
#[verifier::rlimit(80)]
proof fn lemma_object_roundtrip(es_vec: Vec<(String, JsonValue)>, rest: Seq<char>)
    requires
        strictly_sorted(keys_of(es_vec@)),
        entries_well_formed(es_vec@),
        ends_value(rest),
    ensures
        parse_value(canonical(JsonValue::Object(es_vec)) + rest) == Some(
            (model(JsonValue::Object(es_vec)), rest),
        ),
        canonical(JsonValue::Object(es_vec)).len() > 0,
        canonical(JsonValue::Object(es_vec))[0] == '{',
    decreases es_vec, 0nat,
{
    let v = JsonValue::Object(es_vec);
    let t = canonical(v) + rest;
    let es = es_vec@;
    let n = es.len();
    assert(es_vec@.len() == es_vec.len());
    lemma_sorted_keys_keep_order(keys_of(es), n);
    assert(canonical(v) == seq!['{'] + joined_entries(es, id_order(n)) + seq!['}']);
    assert(model(v) == JsonModel::Object(entry_models(es)));
    if n == 0 {
        assert(canonical(v) == seq!['{', '}']);
        assert(t.skip(2) == rest);
        assert(entry_models(es) == Seq::<(Seq<char>, JsonModel)>::empty());
    } else {
        lemma_members_roundtrip(es, n, Seq::empty(), seq!['}'] + rest);
        assert(t.drop_first() == joined_entries(es, id_order(n)) + (seq!['}'] + rest));
        assert(es.take(n as int) == es);
        assert(Seq::<(Seq<char>, JsonModel)>::empty() + entry_models(es) == entry_models(es));
    }
}

/// The canonical texts of well-formed values, separated by commas, read
/// back as their models, in order.
#[verifier::spinoff_prover]
#[verifier::rlimit(80)]
proof fn lemma_elements_roundtrip(items: Seq<JsonValue>, acc: Seq<JsonModel>, suffix: Seq<char>)
    requires
        items.len() > 0,
        all_well_formed(items),
        suffix.len() > 0,
        suffix[0] == ',' || suffix[0] == ']',
    ensures
        parse_elements(joined_values(items) + suffix, acc) == elements_after(suffix, acc + models(items)),
        joined_values(items).len() > 0,
        joined_values(items)[0] != ']',
    decreases items, items.len(),
{
    let last = items.last();
    let init = items.drop_last();
    lemma_value_roundtrip(last, suffix);
    let u = canonical(last) + suffix;
    assert(parse_elements(u, acc + models(init)) == elements_after(suffix, (acc + models(init)).push(model(last))));
    assert((acc + models(init)).push(model(last)) == acc + models(items));
    if items.len() == 1 {
        assert(init.len() == 0);
        assert(models(init) == Seq::<JsonModel>::empty());
        assert(acc + models(init) == acc);
        assert(joined_values(items) == canonical(last));
    } else {
        let mid = seq![','] + u;
        lemma_elements_roundtrip(init, acc, mid);
        assert(joined_values(items) + suffix == joined_values(init) + mid);
        assert(mid.drop_first() == u);
        assert(joined_values(items)[0] == joined_values(init)[0]);
    }
}

/// One member `"key":value` of an object, followed by `suffix`, reads back
/// as its key and the model of its value.
#[verifier::spinoff_prover]
#[verifier::rlimit(80)]
proof fn lemma_member_roundtrip(e: (String, JsonValue), acc: Seq<(Seq<char>, JsonModel)>, suffix: Seq<char>)
    requires
        well_formed(e.1),
        suffix.len() > 0,
        suffix[0] == ',' || suffix[0] == '}',
    ensures
        parse_members(entry_text(e) + suffix, acc) == members_after(suffix, acc.push((e.0@, model(e.1)))),
        entry_text(e)[0] == '"',
    decreases e, 0nat,
{
    lemma_value_roundtrip(e.1, suffix);
    let r1 = seq![':'] + canonical(e.1) + suffix;
    lemma_string_roundtrip(e.0@, r1);
    let t = entry_text(e) + suffix;
    assert(t == seq!['"'] + (escaped(e.0@) + seq!['"'] + r1));
    assert(t.drop_first() == escaped(e.0@) + seq!['"'] + r1);
    assert(r1.drop_first() == canonical(e.1) + suffix);
}

/// How the text of the first `k` members extends that of the first
/// `k - 1`, and how their models extend.
proof fn lemma_members_step(es: Seq<(String, JsonValue)>, k: nat)
    requires
        1 <= k <= es.len(),
        es.len() <= usize::MAX,
    ensures
        k == 1 ==> joined_entries(es, id_order(k)) == entry_text(es[0]),
        k > 1 ==> joined_entries(es, id_order(k)) == joined_entries(es, id_order((k - 1) as nat)) + seq![',']
            + entry_text(es[k - 1]),
        entry_models(es.take(k as int)) == entry_models(es.take(k - 1)).push((es[k - 1].0@, model(es[k - 1].1))),
        k == 1 ==> entry_models(es.take(k - 1)) == Seq::<(Seq<char>, JsonModel)>::empty(),
{
    let taken = es.take(k as int);
    assert(taken.drop_last() == es.take(k - 1));
    assert(taken.last() == es[k - 1]);
    let o = id_order(k);
    if k == 1 {
        assert(es.take(0) == Seq::<(String, JsonValue)>::empty());
        assert(o[0] == 0);
    } else {
        assert(o.drop_last() == id_order((k - 1) as nat));
        assert(o.last() == (k - 1) as usize);
    }
}

/// The first `k` members of an object whose values are well formed, in
/// order and separated by commas, read back as their keys and models.
#[verifier::spinoff_prover]
#[verifier::rlimit(80)]
proof fn lemma_members_roundtrip(
    es: Seq<(String, JsonValue)>,
    k: nat,
    acc: Seq<(Seq<char>, JsonModel)>,
    suffix: Seq<char>,
)
    requires
        1 <= k <= es.len(),
        es.len() <= usize::MAX,
        entries_well_formed(es),
        suffix.len() > 0,
        suffix[0] == ',' || suffix[0] == '}',
    ensures
        parse_members(joined_entries(es, id_order(k)) + suffix, acc) == members_after(
            suffix,
            acc + entry_models(es.take(k as int)),
        ),
        joined_entries(es, id_order(k)).len() > 0,
        joined_entries(es, id_order(k))[0] == '"',
    decreases es, k,
{
    let e = es[k - 1];
    lemma_entry_well_formed(es, k - 1);
    lemma_members_step(es, k);
    let m = (e.0@, model(e.1));
    let before = acc + entry_models(es.take(k - 1));
    assert(decreases_to!(es => e));
    lemma_member_roundtrip(e, before, suffix);
    let u = entry_text(e) + suffix;
    assert(before.push(m) == acc + entry_models(es.take(k as int)));
    if k == 1 {
        assert(before == acc);
    } else {
        let mid = seq![','] + u;
        let j = joined_entries(es, id_order((k - 1) as nat));
        lemma_members_roundtrip(es, (k - 1) as nat, acc, mid);
        assert(joined_entries(es, id_order(k)) + suffix == j + mid);
        assert(mid.drop_first() == u);
        assert(joined_entries(es, id_order(k))[0] == j[0]);
    }
}

/// Canonical JSON text parses back to the value it was made from: for
/// every value as `serde_json` holds one (objects with distinct keys in
/// increasing order), the text is one JSON value and nothing else, with
/// no whitespace outside string literals, and it denotes the same value:
/// the same keys with the same values, arrays in the same order, the same
/// strings and numbers.
pub proof fn lemma_canonical_parses_back(v: JsonValue)
    requires
        well_formed(v),
    ensures
        parse_json(canonical(v)) == Some(model(v)),
{
    lemma_value_roundtrip(v, Seq::empty());
    assert(canonical(v) + Seq::<char>::empty() == canonical(v));
}

} // verus!
