//! Reduces a semi-structured value to one indexable text.
use vstd::prelude::*;

verus! {

/// A semi-structured value; a number is held as its canonical text.
#[derive(Debug)]
pub enum JsonValue {
    Null,
    Bool(bool),
    Number(String),
    String(String),
    Array(Vec<JsonValue>),
    Object(Vec<(String, JsonValue)>),
}

/// The text of an indexable value, or `None` when there is nothing to index.
pub open spec fn flat(v: JsonValue) -> Option<Seq<char>>
    decreases v, 0nat,
{
    match v {
        JsonValue::Null => None,
        JsonValue::Bool(b) => Some(if b { "true"@ } else { "false"@ }),
        JsonValue::Number(n) => Some(n@),
        JsonValue::String(s) => Some(s@),
        JsonValue::Array(items) => {
            let t = items_text(items, items.len() as nat);
            if t.len() == 0 { None } else { Some(t) }
        },
        JsonValue::Object(entries) => {
            let t = entries_text(entries, entries.len() as nat);
            if t.len() == 0 { None } else { Some(t) }
        },
    }
}

/// The text of one element of a list: its own text followed by `". "`.
pub open spec fn item_text(v: Option<Seq<char>>) -> Seq<char> {
    match v {
        Some(t) => t + ". "@,
        None => Seq::empty(),
    }
}

/// The text of one entry of a record: `"<key>: <value>. "`.
pub open spec fn entry_text(key: Seq<char>, v: Option<Seq<char>>) -> Seq<char> {
    match v {
        Some(t) => key + ": "@ + t + ". "@,
        None => Seq::empty(),
    }
}

/// The concatenated texts of the first `n` elements of a list.
pub open spec fn items_text(items: Vec<JsonValue>, n: nat) -> Seq<char>
    decreases items, n,
{
    if n == 0 || n > items.len() {
        Seq::empty()
    } else {
        items_text(items, (n - 1) as nat) + item_text(flat(items[n - 1]))
    }
}

/// The concatenated texts of the first `n` entries of a record.
pub open spec fn entries_text(entries: Vec<(String, JsonValue)>, n: nat) -> Seq<char>
    decreases entries, n,
{
    if n == 0 || n > entries.len() {
        Seq::empty()
    } else {
        entries_text(entries, (n - 1) as nat) + entry_text(
            entries[n - 1].0@,
            flat(entries[n - 1].1),
        )
    }
}

proof fn lemma_items_text_empty(items: Vec<JsonValue>, n: nat)
    requires
        forall|i: int| 0 <= i < items.len() ==> flat(#[trigger] items[i]) is None,
    ensures
        items_text(items, n).len() == 0,
    decreases n,
{
    if n > 0 && n <= items.len() {
        lemma_items_text_empty(items, (n - 1) as nat);
    }
}

proof fn lemma_entries_text_empty(entries: Vec<(String, JsonValue)>, n: nat)
    requires
        forall|i: int| 0 <= i < entries.len() ==> flat(#[trigger] entries[i].1) is None,
    ensures
        entries_text(entries, n).len() == 0,
    decreases n,
{
    if n > 0 && n <= entries.len() {
        lemma_entries_text_empty(entries, (n - 1) as nat);
    }
}

/// Flattening never yields an empty text, except for a bare empty string
/// or number; `null` is never indexable, nor is a list or a record none of
/// whose members is.
pub proof fn lemma_flatten_total(v: JsonValue)
    ensures
        !(v is String && v->String_0@.len() == 0) && !(v is Number && v->Number_0@.len() == 0)
            ==> (flat(v) is None || flat(v)->0.len() > 0),
        v is Null ==> flat(v) is None,
        v is Array ==> ((forall|i: int|
            0 <= i < v->Array_0.len() ==> flat(#[trigger] v->Array_0[i]) is None) ==> flat(v) is None),
        v is Object ==> ((forall|i: int|
            0 <= i < v->Object_0.len() ==> flat(#[trigger] v->Object_0[i].1) is None) ==> flat(
            v,
        ) is None),
{
    reveal_strlit("true");
    reveal_strlit("false");
    match v {
        JsonValue::Array(items) => {
            if forall|i: int| 0 <= i < items.len() ==> flat(#[trigger] items[i]) is None {
                lemma_items_text_empty(items, items.len() as nat);
            }
        },
        JsonValue::Object(entries) => {
            if forall|i: int| 0 <= i < entries.len() ==> flat(#[trigger] entries[i].1) is None {
                lemma_entries_text_empty(entries, entries.len() as nat);
            }
        },
        _ => {},
    }
}

/// Appends the text of `value` to `output`; false when there is nothing to index.
fn write_value(value: &JsonValue, output: &mut String) -> (r: bool)
    ensures
        r == flat(*value) is Some,
        final(output)@ == old(output)@ + match flat(*value) {
            Some(t) => t,
            None => Seq::empty(),
        },
    decreases value,
{
    match value {
        JsonValue::Null => false,
        JsonValue::Bool(b) => {
            if *b {
                output.append("true");
            } else {
                output.append("false");
            }
            true
        },
        JsonValue::Number(n) => {
            output.append(n.as_str());
            true
        },
        JsonValue::String(s) => {
            output.append(s.as_str());
            true
        },
        JsonValue::Array(items) => {
            let ghost start = output@;
            let mut count: usize = 0;
            let mut i: usize = 0;
            while i < items.len()
                invariant
                    *value == JsonValue::Array(*items),
                    i <= items@.len(),
                    count <= i,
                    output@ == start + items_text(*items, i as nat),
                    (count == 0) == (items_text(*items, i as nat).len() == 0),
                decreases items@.len() - i,
            {
                proof {
                    reveal_strlit(". ");
                }
                proof {
                    vstd::std_specs::vec::axiom_vec_index_decreases(*items, i as int);
                    assert(decreases_to!(*value => (*value)->Array_0));
                    assert(decreases_to!(*value => items[i as int]));
                }
                if write_value(&items[i], output) {
                    output.append(". ");
                    count += 1;
                }
                i += 1;
            }
            count != 0
        },
        JsonValue::Object(entries) => {
            let ghost start = output@;
            let mut count: usize = 0;
            let mut i: usize = 0;
            while i < entries.len()
                invariant
                    *value == JsonValue::Object(*entries),
                    i <= entries@.len(),
                    count <= i,
                    output@ == start + entries_text(*entries, i as nat),
                    (count == 0) == (entries_text(*entries, i as nat).len() == 0),
                decreases entries@.len() - i,
            {
                proof {
                    reveal_strlit(". ");
                }
                let mut entry = String::new();
                entry.append(entries[i].0.as_str());
                entry.append(": ");
                proof {
                    vstd::std_specs::vec::axiom_vec_index_decreases(*entries, i as int);
                    assert(decreases_to!(*value => (*value)->Object_0));
                    assert(decreases_to!(*entries => entries[i as int]));
                    assert(decreases_to!(entries[i as int] => entries[i as int].1));
                    assert(decreases_to!(*value => entries[i as int].1));
                }
                if write_value(&entries[i].1, &mut entry) {
                    entry.append(". ");
                    output.append(entry.as_str());
                    count += 1;
                }
                i += 1;
            }
            count != 0
        },
    }
}

/// The text to index for `value`: a string is returned as it stands, any
/// other indexable value is written into `buffer`, which is cleared first.
pub fn json_to_string<'a>(value: &'a JsonValue, buffer: &'a mut String) -> (r: Option<&'a str>)
    ensures
        match r {
            Some(t) => flat(*value) == Some(t@),
            None => flat(*value) is None,
        },
{
    match value {
        JsonValue::String(s) => Some(s.as_str()),
        _ => {
            *buffer = String::new();
            if write_value(value, buffer) {
                Some(buffer.as_str())
            } else {
                None
            }
        },
    }
}

} // verus!
