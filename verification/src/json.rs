//! A JSON document model for tool arguments and replies, with the accessors
//! and the compact rendering the tool layer needs.

use vstd::prelude::*;
use vstd::string::StringExecFns;
use crate::text::{push_char, push_decimal, push_signed_decimal, decimal, signed_decimal, digit_char};

verus! {

/// A JSON number as it was parsed: a non-negative integer, a negative
/// integer, or a floating-point number kept as its textual rendering.
#[derive(Debug, Clone)]
pub enum JsonNumber {
    PosInt(u64),
    NegInt(i64),
    Float(String),
}

/// A JSON value. Object members keep the order in which they were given.
#[derive(Debug)]
pub enum JsonValue {
    Null,
    Bool(bool),
    Number(JsonNumber),
    Str(String),
    Array(Vec<JsonValue>),
    Object(Vec<(String, JsonValue)>),
}

/// The value of the first member of `entries` named `key`.
pub open spec fn entry_lookup(entries: Seq<(String, JsonValue)>, key: Seq<char>) -> Option<JsonValue>
    decreases entries.len(),
{
    if entries.len() == 0 {
        None
    } else if entries[0].0@ == key {
        Some(entries[0].1)
    } else {
        entry_lookup(entries.drop_first(), key)
    }
}

/// The first member named `key` is found at its position; a missing name
/// is not found.
pub proof fn lemma_entry_lookup(entries: Seq<(String, JsonValue)>, key: Seq<char>, i: int)
    requires
        0 <= i <= entries.len(),
        forall|j: int| 0 <= j < i ==> (#[trigger] entries[j]).0@ != key,
        i < entries.len() ==> entries[i].0@ == key,
    ensures
        i < entries.len() ==> entry_lookup(entries, key) == Some(entries[i].1),
        i == entries.len() ==> entry_lookup(entries, key) is None,
    decreases i,
{
    if i > 0 {
        assert(entries[0].0@ != key);
        assert forall|j: int| 0 <= j < i - 1 implies (#[trigger] entries.drop_first()[j]).0@ != key by {
            assert(entries.drop_first()[j] == entries[j + 1]);
        }
        lemma_entry_lookup(entries.drop_first(), key, i - 1);
    }
}

/// The member `key` of an object (`None` for a missing member or a
/// non-object).
pub open spec fn field(v: JsonValue, key: Seq<char>) -> Option<JsonValue> {
    match v {
        JsonValue::Object(entries) => entry_lookup(entries@, key),
        _ => None,
    }
}

/// The string value of a member, when it is a string.
pub open spec fn str_field(v: JsonValue, key: Seq<char>) -> Option<Seq<char>> {
    match field(v, key) {
        Some(JsonValue::Str(s)) => Some(s@),
        _ => None,
    }
}

/// The value of a member when it is an unsigned integer (`as_u64`).
pub open spec fn u64_field(v: JsonValue, key: Seq<char>) -> Option<u64> {
    match field(v, key) {
        Some(JsonValue::Number(JsonNumber::PosInt(n))) => Some(n),
        _ => None,
    }
}

/// The value of a member when it is a boolean.
pub open spec fn bool_field(v: JsonValue, key: Seq<char>) -> Option<bool> {
    match field(v, key) {
        Some(JsonValue::Bool(b)) => Some(b),
        _ => None,
    }
}

/// The integer value of a number that fits in an `i64` (`as_i64`).
pub open spec fn number_as_i64(n: JsonNumber) -> Option<i64> {
    match n {
        JsonNumber::PosInt(u) => if u <= i64::MAX {
            Some(u as i64)
        } else {
            None
        },
        JsonNumber::NegInt(i) => Some(i),
        JsonNumber::Float(_) => None,
    }
}

/// The string items of a sequence of values, in order, skipping the rest.
pub open spec fn string_items(items: Seq<JsonValue>) -> Seq<Seq<char>>
    decreases items.len(),
{
    if items.len() == 0 {
        Seq::empty()
    } else {
        let rest = string_items(items.drop_first());
        match items[0] {
            JsonValue::Str(s) => seq![s@] + rest,
            _ => rest,
        }
    }
}

/// The string items of an array member (`None` when the member is absent
/// or not an array).
pub open spec fn string_array_field(v: JsonValue, key: Seq<char>) -> Option<Seq<Seq<char>>> {
    match field(v, key) {
        Some(JsonValue::Array(items)) => Some(string_items(items@)),
        _ => None,
    }
}

/// Looks up the first member of `entries` named `key`.
pub fn lookup<'a>(entries: &'a Vec<(String, JsonValue)>, key: &str) -> (res: Option<&'a JsonValue>)
    ensures
        match res {
            Some(v) => entry_lookup(entries@, key@) == Some(*v),
            None => entry_lookup(entries@, key@) is None,
        },
{
    let key_string = String::from_str(key);
    let mut i: usize = 0;
    assert(entries@.skip(0) =~= entries@);
    while i < entries.len()
        invariant
            0 <= i <= entries@.len(),
            key_string@ == key@,
            entry_lookup(entries@, key@) == entry_lookup(entries@.skip(i as int), key@),
        decreases entries@.len() - i,
    {
        proof {
            assert(entries@.skip(i as int).drop_first() =~= entries@.skip(i as int + 1));
        }
        if entries[i].0 == key_string {
            return Some(&entries[i].1);
        }
        i = i + 1;
    }
    None
}

/// The member `key` of `v` when `v` is an object.
pub fn get_field<'a>(v: &'a JsonValue, key: &str) -> (res: Option<&'a JsonValue>)
    ensures
        match res {
            Some(x) => field(*v, key@) == Some(*x),
            None => field(*v, key@) is None,
        },
{
    match v {
        JsonValue::Object(entries) => lookup(entries, key),
        _ => None,
    }
}

/// The string member `key` of `v`, if it is one.
pub fn get_str<'a>(v: &'a JsonValue, key: &str) -> (res: Option<&'a str>)
    ensures
        match res {
            Some(s) => str_field(*v, key@) == Some(s@),
            None => str_field(*v, key@) is None,
        },
{
    match get_field(v, key) {
        Some(JsonValue::Str(s)) => Some(s.as_str()),
        _ => None,
    }
}

/// The unsigned-integer member `key` of `v`, if it is one.
pub fn get_u64(v: &JsonValue, key: &str) -> (res: Option<u64>)
    ensures
        res == u64_field(*v, key@),
{
    match get_field(v, key) {
        Some(JsonValue::Number(JsonNumber::PosInt(n))) => Some(*n),
        _ => None,
    }
}

/// The boolean member `key` of `v`, if it is one.
pub fn get_bool(v: &JsonValue, key: &str) -> (res: Option<bool>)
    ensures
        res == bool_field(*v, key@),
{
    match get_field(v, key) {
        Some(JsonValue::Bool(b)) => Some(*b),
        _ => None,
    }
}

/// The integer value of a number, if it fits in an `i64`.
pub fn number_to_i64(n: &JsonNumber) -> (res: Option<i64>)
    ensures
        res == number_as_i64(*n),
{
    match n {
        JsonNumber::PosInt(u) => if *u <= 0x7fff_ffff_ffff_ffff {
            Some(*u as i64)
        } else {
            None
        },
        JsonNumber::NegInt(i) => Some(*i),
        JsonNumber::Float(_) => None,
    }
}

/// The string items of an array member `key`, skipping non-strings.
pub fn get_string_items(v: &JsonValue, key: &str) -> (res: Option<Vec<String>>)
    ensures
        match res {
            Some(items) => string_array_field(*v, key@) == Some(items@.map_values(|s: String| s@)),
            None => string_array_field(*v, key@) is None,
        },
{
    match get_field(v, key) {
        Some(JsonValue::Array(items)) => {
            let mut out: Vec<String> = Vec::new();
            let n = items.len();
            let mut i = n;
            while i > 0
                invariant
                    i <= n,
                    n == items@.len(),
                    out@.map_values(|s: String| s@) == string_items(items@.skip(i as int)),
                decreases i,
            {
                i = i - 1;
                proof {
                    assert(items@.skip(i as int).drop_first() =~= items@.skip(i as int + 1));
                }
                match &items[i] {
                    JsonValue::Str(s) => {
                        out.insert(0, s.clone());
                        proof {
                            assert(out@.map_values(|s: String| s@) =~= string_items(items@.skip(i as int)));
                        }
                    },
                    _ => {},
                }
            }
            proof {
                assert(items@.skip(0) =~= items@);
            }
            Some(out)
        },
        _ => None,
    }
}

/// A lowercase hexadecimal digit of value `d`.
pub open spec fn hex_digit(d: int) -> char {
    if d < 10 {
        digit_char(d)
    } else if d == 10 {
        'a'
    } else if d == 11 {
        'b'
    } else if d == 12 {
        'c'
    } else if d == 13 {
        'd'
    } else if d == 14 {
        'e'
    } else {
        'f'
    }
}

/// How one character is written inside a JSON string: `"` and `\` and the
/// control characters are escaped (`\b \t \n \f \r`, others as `\u00XX`
/// with lowercase hex digits); every other character stands for itself.
pub open spec fn json_char_escape(c: char) -> Seq<char> {
    if c == '"' {
        seq!['\\', '"']
    } else if c == '\\' {
        seq!['\\', '\\']
    } else if c == '\u{8}' {
        seq!['\\', 'b']
    } else if c == '\t' {
        seq!['\\', 't']
    } else if c == '\n' {
        seq!['\\', 'n']
    } else if c == '\u{c}' {
        seq!['\\', 'f']
    } else if c == '\r' {
        seq!['\\', 'r']
    } else if (c as u32) < 0x20 {
        seq!['\\', 'u', '0', '0', hex_digit((c as u32) as int / 16), hex_digit((c as u32) as int % 16)]
    } else {
        seq![c]
    }
}

/// The characters of `s`, each escaped for a JSON string.
pub open spec fn json_escaped(s: Seq<char>) -> Seq<char>
    decreases s.len(),
{
    if s.len() == 0 {
        Seq::empty()
    } else {
        json_escaped(s.drop_last()) + json_char_escape(s.last())
    }
}

/// The JSON rendering of a string (`serde_json::to_string` on a `str`):
/// the escaped text in double quotes.
pub open spec fn json_string_literal(s: Seq<char>) -> Seq<char> {
    seq!['"'] + json_escaped(s) + seq!['"']
}

/// `serde_json::to_string(s)` on a string slice: the text in double quotes,
/// escaped by serde_json's escape table as [`json_char_escape`] states.
/// Serializing a `str` cannot fail, so the empty fallback is never taken.
#[verifier::external_body]
pub(crate) fn quote_json_string(s: &str) -> (res: String)
    ensures
        res@ == json_string_literal(s@),
{
    serde_json::to_string(s).unwrap_or_default()
}

/// The compact rendering of a number.
pub open spec fn number_text(n: JsonNumber) -> Seq<char> {
    match n {
        JsonNumber::PosInt(u) => decimal(u as nat),
        JsonNumber::NegInt(i) => signed_decimal(i as int),
        JsonNumber::Float(t) => t@,
    }
}

/// The compact JSON rendering of a value: no whitespace, members in order.
pub open spec fn json_text(v: JsonValue) -> Seq<char>
    decreases v,
{
    match v {
        JsonValue::Null => seq!['n', 'u', 'l', 'l'],
        JsonValue::Bool(b) => if b {
            seq!['t', 'r', 'u', 'e']
        } else {
            seq!['f', 'a', 'l', 's', 'e']
        },
        JsonValue::Number(n) => number_text(n),
        JsonValue::Str(s) => json_string_literal(s@),
        JsonValue::Array(items) => seq!['['] + items_text(items@) + seq![']'],
        JsonValue::Object(entries) => seq!['{'] + members_text(entries@) + seq!['}'],
    }
}

/// Array items rendered and separated by commas.
pub open spec fn items_text(items: Seq<JsonValue>) -> Seq<char>
    decreases items,
{
    if items.len() == 0 {
        Seq::empty()
    } else if items.len() == 1 {
        json_text(items[0])
    } else {
        items_text(items.drop_last()) + seq![','] + json_text(items.last())
    }
}

/// Object members rendered as `"key":value` and separated by commas.
pub open spec fn members_text(entries: Seq<(String, JsonValue)>) -> Seq<char>
    decreases entries,
{
    if entries.len() == 0 {
        Seq::empty()
    } else if entries.len() == 1 {
        json_string_literal(entries[0].0@) + seq![':'] + json_text(entries[0].1)
    } else {
        members_text(entries.drop_last()) + seq![','] + json_string_literal(entries.last().0@) + seq![':']
            + json_text(entries.last().1)
    }
}

proof fn lemma_items_text_step(items: Seq<JsonValue>, k: int)
    requires
        1 <= k < items.len(),
    ensures
        items_text(items.take(k + 1)) == items_text(items.take(k)) + seq![','] + json_text(items[k]),
{
    assert(items.take(k + 1).drop_last() =~= items.take(k));
}

proof fn lemma_members_text_step(entries: Seq<(String, JsonValue)>, k: int)
    requires
        1 <= k < entries.len(),
    ensures
        members_text(entries.take(k + 1)) == members_text(entries.take(k)) + seq![','] + json_string_literal(entries[k].0@)
            + seq![':'] + json_text(entries[k].1),
{
    assert(entries.take(k + 1).drop_last() =~= entries.take(k));
}

fn push_str(out: &mut String, s: &str)
    ensures
        final(out)@ == old(out)@ + s@,
{
    out.append(s);
}

/// Appends the compact JSON rendering of `v` to `out`.
pub fn write_json(out: &mut String, v: &JsonValue)
    ensures
        final(out)@ == old(out)@ + json_text(*v),
    decreases v,
{
    let ghost start = out@;
    match v {
        JsonValue::Null => {
            push_char(out, 'n');
            push_char(out, 'u');
            push_char(out, 'l');
            push_char(out, 'l');
        },
        JsonValue::Bool(b) => {
            if *b {
                push_char(out, 't');
                push_char(out, 'r');
                push_char(out, 'u');
                push_char(out, 'e');
            } else {
                push_char(out, 'f');
                push_char(out, 'a');
                push_char(out, 'l');
                push_char(out, 's');
                push_char(out, 'e');
            }
        },
        JsonValue::Number(n) => match n {
            JsonNumber::PosInt(u) => push_decimal(out, *u),
            JsonNumber::NegInt(i) => push_signed_decimal(out, *i),
            JsonNumber::Float(t) => push_str(out, t.as_str()),
        },
        JsonValue::Str(s) => {
            let q = quote_json_string(s.as_str());
            push_str(out, q.as_str());
        },
        JsonValue::Array(items) => {
            push_char(out, '[');
            let ghost mid = out@;
            let n = items.len();
            let mut k: usize = 0;
            while k < n
                invariant
                    k <= n,
                    n == items@.len(),
                    out@ == mid + items_text(items@.take(k as int)),
                    *v == JsonValue::Array(*items),
                decreases n - k,
            {
                proof {
                    assert(decreases_to!(*v => (*v)->Array_0));
                    assert(decreases_to!(*items => items@));
                    assert(decreases_to!(items@ => items@[k as int]));
                }
                if k == 0 {
                    write_json(out, &items[k]);
                    proof {
                        assert(items@.take(1) =~= seq![items@[0]]);
                    }
                } else {
                    proof {
                        lemma_items_text_step(items@, k as int);
                    }
                    push_char(out, ',');
                    write_json(out, &items[k]);
                }
                k = k + 1;
            }
            push_char(out, ']');
            proof {
                assert(items@.take(n as int) =~= items@);
            }
        },
        JsonValue::Object(entries) => {
            push_char(out, '{');
            let ghost mid = out@;
            let n = entries.len();
            let mut k: usize = 0;
            while k < n
                invariant
                    k <= n,
                    n == entries@.len(),
                    out@ == mid + members_text(entries@.take(k as int)),
                    *v == JsonValue::Object(*entries),
                decreases n - k,
            {
                proof {
                    assert(decreases_to!(*v => (*v)->Object_0));
                    assert(decreases_to!(*entries => entries@));
                    assert(decreases_to!(entries@ => entries@[k as int]));
                    assert(decreases_to!(entries@[k as int] => entries@[k as int].1));
                }
                if k > 0 {
                    proof {
                        lemma_members_text_step(entries@, k as int);
                    }
                    push_char(out, ',');
                } else {
                    proof {
                        assert(entries@.take(1) =~= seq![entries@[0]]);
                    }
                }
                let q = quote_json_string(entries[k].0.as_str());
                push_str(out, q.as_str());
                push_char(out, ':');
                write_json(out, &entries[k].1);
                k = k + 1;
            }
            push_char(out, '}');
            proof {
                assert(entries@.take(n as int) =~= entries@);
            }
        },
    }
    assert(out@ =~= start + json_text(*v));
}

/// The compact JSON rendering of `v`.
pub fn to_json_string(v: &JsonValue) -> (s: String)
    ensures
        s@ == json_text(*v),
{
    let mut s = String::new();
    write_json(&mut s, v);
    assert(s@ =~= json_text(*v));
    s
}

} // verus!
