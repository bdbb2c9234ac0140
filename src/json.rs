//! Canonical JSON: the byte form used for signing manifests, with object
//! keys in byte order and no white space.

use vstd::prelude::*;

use crate::bytes::append_bytes;

verus! {

/// A JSON value. Numbers are held in their JSON text form.
#[derive(Debug)]
pub enum JsonValue {
    Null,
    Bool(bool),
    Number(String),
    Str(String),
    Array(Vec<JsonValue>),
    Object(Vec<(String, JsonValue)>),
}

/// Error raised while writing canonical JSON.
#[derive(Debug, Clone, Copy, PartialEq, Eq, Structural)]
pub enum JsonError {
    /// `null` has no canonical form here.
    UnexpectedNull,
    /// A string could not be written (serde_json never fails on a `str`).
    Serialize,
}

/// The lower-case hexadecimal digit of `d < 16`, as an ASCII byte.
pub open spec fn lower_hex_byte(d: nat) -> u8 {
    if d < 10 {
        (d + 48) as u8
    } else {
        (d + 87) as u8
    }
}

/// How a character appears inside a JSON string literal: `"` and `\` and
/// the control characters below U+0020 escaped (`\b`, `\t`, `\n`, `\f`,
/// `\r`, else `\u00xx`), every other character as its UTF-8 bytes.
pub open spec fn json_escape_char(c: char) -> Seq<u8> {
    let v = c as nat;
    if c == '"' {
        seq![92u8, 34u8]
    } else if c == '\\' {
        seq![92u8, 92u8]
    } else if v == 8 {
        seq![92u8, 98u8]
    } else if v == 9 {
        seq![92u8, 116u8]
    } else if v == 10 {
        seq![92u8, 110u8]
    } else if v == 12 {
        seq![92u8, 102u8]
    } else if v == 13 {
        seq![92u8, 114u8]
    } else if v < 32 {
        seq![92u8, 117u8, 48u8, 48u8, lower_hex_byte(v / 16), lower_hex_byte(v % 16)]
    } else {
        vstd::utf8::encode_utf8(seq![c])
    }
}

/// The characters of a text, each as it appears in a JSON string literal.
pub open spec fn json_escaped(s: Seq<char>) -> Seq<u8>
    decreases s.len(),
{
    if s.len() == 0 {
        Seq::empty()
    } else {
        json_escaped(s.drop_last()) + json_escape_char(s.last())
    }
}

/// The JSON string literal for a text: the escaped text in double quotes.
pub open spec fn json_quoted(s: Seq<char>) -> Seq<u8> {
    seq![34u8] + json_escaped(s) + seq![34u8]
}

/// Relies on `serde_json::to_vec` of a `str`: its JSON string literal as
/// `format_escaped_str` writes it (escapes by serde_json's `ESCAPE` table,
/// control characters as `\u00xx` in lower-case hex); writing into a `Vec`
/// never fails.
#[verifier::external_body]
fn quote_json_string(s: &str) -> (r: Option<Vec<u8>>)
    ensures
        r is Some && r->Some_0@ == json_quoted(s@),
{
    serde_json::to_vec(s).ok()
}

/// Byte-wise lexicographic order.
pub open spec fn bytes_lt(a: Seq<u8>, b: Seq<u8>) -> bool
    decreases a.len(),
{
    if b.len() == 0 {
        false
    } else if a.len() == 0 {
        true
    } else if a[0] != b[0] {
        a[0] < b[0]
    } else {
        bytes_lt(a.subrange(1, a.len() as int), b.subrange(1, b.len() as int))
    }
}

fn bytes_less(a: &[u8], b: &[u8]) -> (r: bool)
    ensures
        r == bytes_lt(a@, b@),
{
    let mut i: usize = 0;
    assert(a@.subrange(0, a@.len() as int) =~= a@);
    assert(b@.subrange(0, b@.len() as int) =~= b@);
    while i < a.len() && i < b.len() && a[i] == b[i]
        invariant
            0 <= i <= a@.len(),
            i <= b@.len(),
            bytes_lt(a@, b@) == bytes_lt(a@.subrange(i as int, a@.len() as int), b@.subrange(i as int, b@.len() as int)),
        decreases a@.len() - i,
    {
        proof {
            let sa = a@.subrange(i as int, a@.len() as int);
            let sb = b@.subrange(i as int, b@.len() as int);
            assert(sa.subrange(1, sa.len() as int) =~= a@.subrange(i + 1, a@.len() as int));
            assert(sb.subrange(1, sb.len() as int) =~= b@.subrange(i + 1, b@.len() as int));
        }
        i = i + 1;
    }
    if i >= b.len() {
        false
    } else if i >= a.len() {
        true
    } else {
        a[i] < b[i]
    }
}

/// The key bytes of each object entry.
pub open spec fn entry_keys(es: Seq<(String, JsonValue)>) -> Seq<Seq<u8>> {
    es.map_values(|e: (String, JsonValue)| vstd::utf8::encode_utf8(e.0@))
}

/// Index `x` inserted into an order of indices sorted by key, after all
/// indices whose key is not greater.
pub open spec fn insert_index(keys: Seq<Seq<u8>>, order: Seq<int>, x: int) -> Seq<int>
    decreases order.len(),
{
    if order.len() == 0 {
        seq![x]
    } else if !bytes_lt(keys[x], keys[order.last()]) {
        order.push(x)
    } else {
        insert_index(keys, order.drop_last(), x).push(order.last())
    }
}

/// The indices of the first `n` keys, sorted stably by key.
pub open spec fn key_order(keys: Seq<Seq<u8>>, n: int) -> Seq<int>
    decreases n,
{
    if n <= 0 {
        Seq::empty()
    } else {
        insert_index(keys, key_order(keys, n - 1), n - 1)
    }
}

/// The bytes of `items` one after the other, separated by commas.
pub open spec fn join_items(items: Seq<Seq<u8>>) -> Seq<u8>
    decreases items.len(),
{
    if items.len() == 0 {
        Seq::empty()
    } else if items.len() == 1 {
        items[0]
    } else {
        join_items(items.drop_last()) + seq![44u8] + items.last()
    }
}

pub open spec fn text_bytes(s: String) -> Seq<u8> {
    vstd::utf8::encode_utf8(s@)
}

/// The canonical form of a value; `None` where it holds a `null`.
pub open spec fn canonical(v: JsonValue) -> Option<Seq<u8>>
    decreases v, 0nat,
{
    match v {
        JsonValue::Null => None,
        JsonValue::Bool(b) => Some(if b { seq![116u8, 114, 117, 101] } else { seq![102u8, 97, 108, 115, 101] }),
        JsonValue::Number(t) => Some(text_bytes(t)),
        JsonValue::Str(s) => Some(json_quoted(s@)),
        JsonValue::Array(items) => match canon_items(items@, items@.len() as nat) {
            Some(parts) => Some(seq![91u8] + join_items(parts) + seq![93u8]),
            None => None,
        },
        JsonValue::Object(entries) => {
            let order = key_order(entry_keys(entries@), entries@.len() as int);
            match canon_entries(entries@, order, order.len()) {
                Some(parts) => Some(seq![123u8] + join_items(parts) + seq![125u8]),
                None => None,
            }
        },
    }
}

/// The canonical forms of the first `n` items.
pub open spec fn canon_items(items: Seq<JsonValue>, n: nat) -> Option<Seq<Seq<u8>>>
    decreases items, n,
{
    if n == 0 || n > items.len() {
        Some(Seq::empty())
    } else {
        match (canon_items(items, (n - 1) as nat), canonical(items[n - 1])) {
            (Some(a), Some(b)) => Some(a.push(b)),
            _ => None,
        }
    }
}

/// `"key":value` for the entries at the first `n` positions of `order`.
pub open spec fn canon_entries(es: Seq<(String, JsonValue)>, order: Seq<int>, n: nat) -> Option<Seq<Seq<u8>>>
    decreases es, n,
{
    if n == 0 || n > order.len() {
        Some(Seq::empty())
    } else {
        let j = order[n - 1];
        if 0 <= j < es.len() {
            match (canon_entries(es, order, (n - 1) as nat), canonical(es[j].1)) {
                (Some(a), Some(b)) => Some(a.push(json_quoted(es[j].0@) + seq![58u8] + b)),
                _ => None,
            }
        } else {
            None
        }
    }
}

pub open spec fn order_view(v: Seq<usize>) -> Seq<int> {
    v.map_values(|x: usize| x as int)
}

proof fn lemma_insert_index_at(keys: Seq<Seq<u8>>, order: Seq<int>, x: int, j: int)
    requires
        0 <= j <= order.len(),
        forall|i: int| j <= i < order.len() ==> bytes_lt(keys[x], #[trigger] keys[order[i]]),
        j > 0 ==> !bytes_lt(keys[x], keys[order[j - 1]]),
    ensures
        insert_index(keys, order, x) == order.insert(j, x),
    decreases order.len(),
{
    if order.len() == j {
        assert(order.insert(j, x) =~= order.push(x));
    } else {
        assert(bytes_lt(keys[x], keys[order[order.len() - 1]]));
        lemma_insert_index_at(keys, order.drop_last(), x, j);
        assert(order.drop_last().insert(j, x).push(order.last()) =~= order.insert(j, x));
    }
}

fn key_bytes(entries: &Vec<(String, JsonValue)>, i: usize) -> (r: &[u8])
    requires
        i < entries@.len(),
    ensures
        r@ == entry_keys(entries@)[i as int],
{
    entries[i].0.as_str().as_bytes()
}

/// The positions of the entries in key order (stable for equal keys).
fn sorted_key_order(entries: &Vec<(String, JsonValue)>) -> (r: Vec<usize>)
    ensures
        order_view(r@) == key_order(entry_keys(entries@), entries@.len() as int),
        forall|i: int| 0 <= i < r@.len() ==> r@[i] < entries@.len(),
{
    let ghost keys = entry_keys(entries@);
    let mut order: Vec<usize> = Vec::new();
    let mut x: usize = 0;
    while x < entries.len()
        invariant
            0 <= x <= entries@.len(),
            keys == entry_keys(entries@),
            order_view(order@) == key_order(keys, x as int),
            forall|i: int| 0 <= i < order@.len() ==> order@[i] < x,
        decreases entries@.len() - x,
    {
        let kx = key_bytes(entries, x);
        let mut j: usize = order.len();
        while j > 0 && bytes_less(kx, key_bytes(entries, order[j - 1]))
            invariant
                0 <= j <= order@.len(),
                x < entries@.len(),
                kx@ == keys[x as int],
                keys == entry_keys(entries@),
                forall|i: int| 0 <= i < order@.len() ==> order@[i] < x,
                forall|i: int| j <= i < order@.len() ==> bytes_lt(keys[x as int], #[trigger] keys[order_view(order@)[i]]),
            decreases j,
        {
            j = j - 1;
        }
        proof {
            lemma_insert_index_at(keys, order_view(order@), x as int, j as int);
        }
        let ghost o0 = order@;
        order.insert(j, x);
        proof {
            assert(order_view(order@) =~= order_view(o0).insert(j as int, x as int));
        }
        x = x + 1;
    }
    order
}

proof fn lemma_canon_items_stuck(items: Seq<JsonValue>, a: nat, n: nat)
    requires
        a <= n <= items.len(),
        canon_items(items, a) is None,
    ensures
        canon_items(items, n) is None,
    decreases n - a,
{
    if a < n {
        lemma_canon_items_stuck(items, a + 1, n);
    }
}

proof fn lemma_canon_entries_stuck(es: Seq<(String, JsonValue)>, order: Seq<int>, a: nat, n: nat)
    requires
        a <= n <= order.len(),
        canon_entries(es, order, a) is None,
    ensures
        canon_entries(es, order, n) is None,
    decreases n - a,
{
    if a < n {
        lemma_canon_entries_stuck(es, order, a + 1, n);
    }
}

proof fn lemma_insert_index_len(keys: Seq<Seq<u8>>, order: Seq<int>, x: int)
    ensures
        insert_index(keys, order, x).len() == order.len() + 1,
    decreases order.len(),
{
    if order.len() > 0 {
        lemma_insert_index_len(keys, order.drop_last(), x);
    }
}

proof fn lemma_key_order_len(keys: Seq<Seq<u8>>, n: int)
    requires
        n >= 0,
    ensures
        key_order(keys, n).len() == n,
    decreases n,
{
    if n > 0 {
        lemma_key_order_len(keys, n - 1);
        lemma_insert_index_len(keys, key_order(keys, n - 1), n - 1);
    }
}

fn push_all(output: &mut Vec<u8>, bytes: &[u8])
    ensures
        final(output)@ == old(output)@ + bytes@,
{
    append_bytes(output, bytes)
}

/// Append the canonical form of `value` to `output`.
pub fn write_canonical_json(value: &JsonValue, output: &mut Vec<u8>) -> (r: Result<(), JsonError>)
    ensures
        match canonical(*value) {
            Some(b) => r is Ok && final(output)@ == old(output)@ + b,
            None => r is Err,
        },
    decreases value,
{
    match value {
        JsonValue::Null => Err(JsonError::UnexpectedNull),
        JsonValue::Bool(b) => {
            if *b {
                push_all(output, &[116u8, 114, 117, 101]);
                assert([116u8, 114, 117, 101]@ =~= seq![116u8, 114, 117, 101]);
            } else {
                push_all(output, &[102u8, 97, 108, 115, 101]);
                assert([102u8, 97, 108, 115, 101]@ =~= seq![102u8, 97, 108, 115, 101]);
            }
            Ok(())
        },
        JsonValue::Number(t) => {
            push_all(output, t.as_str().as_bytes());
            Ok(())
        },
        JsonValue::Str(s) => match quote_json_string(s.as_str()) {
            Some(q) => {
                push_all(output, q.as_slice());
                Ok(())
            },
            None => Err(JsonError::Serialize),
        },
        JsonValue::Array(items) => {
            let ghost o0 = output@;
            output.push(91);
            let mut i: usize = 0;
            while i < items.len()
                invariant
                    *value is Array,
                    (*value)->Array_0 == *items,
                    0 <= i <= items@.len(),
                    canon_items(items@, i as nat) is Some,
                    output@ == o0 + seq![91u8] + join_items(canon_items(items@, i as nat)->Some_0),
                decreases items@.len() - i,
            {
                let ghost before = output@;
                if i > 0 {
                    output.push(44);
                }
                let ghost mid = output@;
                proof {
                    assert(decreases_to!(*value => (*value)->Array_0));
                    assert((*value)->Array_0 == *items);
                    assert(decreases_to!(*items => items@));
                    assert(decreases_to!(items@ => items@[i as int]));
                }
                let res = write_canonical_json(&items[i], output);
                if res.is_err() {
                    proof {
                        lemma_canon_items_stuck(items@, (i + 1) as nat, items@.len());
                    }
                    return res;
                }
                proof {
                    let parts = canon_items(items@, i as nat)->Some_0;
                    let b = canonical(items@[i as int])->Some_0;
                    let parts2 = parts.push(b);
                    assert(parts2.drop_last() =~= parts);
                    if i == 0 {
                        assert(join_items(parts2) =~= b);
                        assert(join_items(parts) =~= Seq::<u8>::empty());
                    }
                }
                i = i + 1;
            }
            output.push(93);
            Ok(())
        },
        JsonValue::Object(entries) => {
            let order = sorted_key_order(entries);
            let ghost ov = order_view(order@);
            let ghost o0 = output@;
            output.push(123);
            let mut k: usize = 0;
            while k < order.len()
                invariant
                    *value is Object,
                    (*value)->Object_0 == *entries,
                    0 <= k <= order@.len(),
                    ov == order_view(order@),
                    ov == key_order(entry_keys(entries@), entries@.len() as int),
                    forall|i: int| 0 <= i < order@.len() ==> order@[i] < entries@.len(),
                    canon_entries(entries@, ov, k as nat) is Some,
                    output@ == o0 + seq![123u8] + join_items(canon_entries(entries@, ov, k as nat)->Some_0),
                decreases order@.len() - k,
            {
                if k > 0 {
                    output.push(44);
                }
                let j = order[k];
                let entry = &entries[j];
                let q = match quote_json_string(entry.0.as_str()) {
                    Some(q) => q,
                    None => return Err(JsonError::Serialize),
                };
                push_all(output, q.as_slice());
                output.push(58);
                proof {
                    assert(decreases_to!(*value => (*value)->Object_0));
                    assert((*value)->Object_0 == *entries);
                    assert(decreases_to!(*entries => entries@));
                    assert(decreases_to!(entries@ => entries@[j as int]));
                    assert(decreases_to!(entries@[j as int] => entries@[j as int].1));
                }
                let res = write_canonical_json(&entry.1, output);
                if res.is_err() {
                    proof {
                        assert(ov[k as int] == j as int);
                        lemma_canon_entries_stuck(entries@, ov, (k + 1) as nat, ov.len());
                        lemma_key_order_len(entry_keys(entries@), entries@.len() as int);
                    }
                    return res;
                }
                proof {
                    assert(ov[k as int] == j as int);
                    let parts = canon_entries(entries@, ov, k as nat)->Some_0;
                    let b = json_quoted(entries@[j as int].0@) + seq![58u8] + canonical(entries@[j as int].1)->Some_0;
                    let parts2 = parts.push(b);
                    assert(parts2.drop_last() =~= parts);
                    if k == 0 {
                        assert(join_items(parts2) =~= b);
                        assert(join_items(parts) =~= Seq::<u8>::empty());
                    }
                }
                k = k + 1;
            }
            output.push(125);
            Ok(())
        },
    }
}

/// The canonical form of `value`.
pub fn to_canonical_json(value: &JsonValue) -> (r: Result<Vec<u8>, JsonError>)
    ensures
        match canonical(*value) {
            Some(b) => r is Ok && r->Ok_0@ == b,
            None => r is Err,
        },
{
    let mut data: Vec<u8> = Vec::new();
    write_canonical_json(value, &mut data)?;
    assert(data@ =~= Seq::<u8>::empty() + data@);
    Ok(data)
}

} // verus!
