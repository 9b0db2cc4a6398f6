//! JSON documents as Grafana returns them, held as plain values.
use vstd::prelude::*;

use crate::text::{chars_of, owned, push_char, str_eq};

verus! {

broadcast use vstd::string::group_string_axioms;

/// A JSON value.
///
/// A number keeps the text of its shortest rendering. An object keeps its
/// entries in key order, each key once, as a map that is sorted by key holds them.
#[derive(Debug)]
pub enum JsonValue {
    Null,
    Bool(bool),
    Number(String),
    Str(String),
    Array(Vec<JsonValue>),
    Object(Vec<(String, JsonValue)>),
}

/// The value of the first entry whose key is `key`.
pub open spec fn entries_get(entries: Seq<(String, JsonValue)>, key: Seq<char>) -> Option<JsonValue>
    decreases entries.len(),
{
    if entries.len() == 0 {
        None
    } else if entries[0].0@ == key {
        Some(entries[0].1)
    } else {
        entries_get(entries.drop_first(), key)
    }
}

impl JsonValue {
    /// The member `key` of an object; nothing for other values.
    pub open spec fn member(self, key: Seq<char>) -> Option<JsonValue> {
        match self {
            JsonValue::Object(entries) => entries_get(entries@, key),
            _ => None,
        }
    }

    /// `Value::get` with a string key.
    pub fn get(&self, key: &str) -> (r: Option<&JsonValue>)
        ensures
            match r {
                Some(x) => self.member(key@) == Some(*x),
                None => self.member(key@) is None,
            },
    {
        match self {
            JsonValue::Object(entries) => {
                let mut i: usize = 0;
                assert(entries@.subrange(0, entries@.len() as int) == entries@);
                while i < entries.len()
                    invariant
                        i <= entries@.len(),
                        self.member(key@) == entries_get(entries@, key@),
                        entries_get(entries@, key@) == entries_get(
                            entries@.subrange(i as int, entries@.len() as int),
                            key@,
                        ),
                    decreases entries.len() - i,
                {
                    let ghost rest = entries@.subrange(i as int, entries@.len() as int);
                    assert(rest[0] == entries@[i as int]);
                    if str_eq(entries[i].0.as_str(), key) {
                        return Some(&entries[i].1);
                    }
                    assert(rest.drop_first() == entries@.subrange(i + 1, entries@.len() as int));
                    i = i + 1;
                }
                None
            },
            _ => None,
        }
    }

    /// `Value::as_array`.
    pub fn as_array(&self) -> (r: Option<&Vec<JsonValue>>)
        ensures
            match r {
                Some(a) => *self == JsonValue::Array(*a),
                None => !(self is Array),
            },
    {
        match self {
            JsonValue::Array(a) => Some(a),
            _ => None,
        }
    }

    /// `Value::as_object`.
    pub fn as_object(&self) -> (r: Option<&Vec<(String, JsonValue)>>)
        ensures
            match r {
                Some(o) => *self == JsonValue::Object(*o),
                None => !(self is Object),
            },
    {
        match self {
            JsonValue::Object(o) => Some(o),
            _ => None,
        }
    }

    /// `Value::as_str`.
    pub fn as_str(&self) -> (r: Option<&String>)
        ensures
            match r {
                Some(s) => *self == JsonValue::Str(*s),
                None => !(self is Str),
            },
    {
        match self {
            JsonValue::Str(s) => Some(s),
            _ => None,
        }
    }
}

/// The lower-case hexadecimal digit of `d < 16`.
pub open spec fn hex_digit(d: nat) -> char {
    if d < 10 {
        (48 + d) as char
    } else {
        (87 + d) as char
    }
}

/// How a character appears inside a JSON string literal.
pub open spec fn escape_char(c: char) -> Seq<char> {
    let u = c as u32;
    if c == '"' {
        seq!['\\', '"']
    } else if c == '\\' {
        seq!['\\', '\\']
    } else if u == 0x08 {
        seq!['\\', 'b']
    } else if u == 0x09 {
        seq!['\\', 't']
    } else if u == 0x0A {
        seq!['\\', 'n']
    } else if u == 0x0C {
        seq!['\\', 'f']
    } else if u == 0x0D {
        seq!['\\', 'r']
    } else if u < 0x20 {
        seq!['\\', 'u', '0', '0', hex_digit((u / 16) as nat), hex_digit((u % 16) as nat)]
    } else {
        seq![c]
    }
}

/// The characters of a string, escaped.
pub open spec fn escaped(s: Seq<char>) -> Seq<char>
    decreases s.len(),
{
    if s.len() == 0 {
        seq![]
    } else {
        escaped(s.drop_last()) + escape_char(s.last())
    }
}

/// A JSON string literal.
pub open spec fn quoted(s: Seq<char>) -> Seq<char> {
    seq!['"'] + escaped(s) + seq!['"']
}

/// Compact JSON text: no whitespace, members in the value's order.
pub open spec fn json_text(v: JsonValue) -> Seq<char>
    decreases v, 0int,
{
    match v {
        JsonValue::Null => "null"@,
        JsonValue::Bool(b) => if b {
            "true"@
        } else {
            "false"@
        },
        JsonValue::Number(n) => n@,
        JsonValue::Str(s) => quoted(s@),
        JsonValue::Array(items) => seq!['['] + items_text(items@) + seq![']'],
        JsonValue::Object(entries) => seq!['{'] + entries_text(entries@) + seq!['}'],
    }
}

/// The texts of array items, separated by commas.
pub open spec fn items_text(items: Seq<JsonValue>) -> Seq<char>
    decreases items, 1int,
{
    if items.len() == 0 {
        seq![]
    } else if items.len() == 1 {
        json_text(items[0])
    } else {
        items_text(items.drop_last()) + seq![','] + json_text(items.last())
    }
}

/// The texts of object entries (`"key":value`), separated by commas.
pub open spec fn entries_text(entries: Seq<(String, JsonValue)>) -> Seq<char>
    decreases entries, 1int,
{
    if entries.len() == 0 {
        seq![]
    } else if entries.len() == 1 {
        quoted(entries[0].0@) + seq![':'] + json_text(entries[0].1)
    } else {
        entries_text(entries.drop_last()) + seq![','] + quoted(entries.last().0@) + seq![':']
            + json_text(entries.last().1)
    }
}

/// The lower-case hexadecimal digit of `d < 16`.
fn hex_of(d: u32) -> (c: char)
    requires
        d < 16,
    ensures
        c == hex_digit(d as nat),
{
    if d < 10 {
        let b: u8 = 48 + d as u8;
        b as char
    } else {
        let b: u8 = 87 + d as u8;
        b as char
    }
}

/// Appends a JSON string literal.
pub fn write_quoted(out: &mut String, s: &str)
    ensures
        final(out)@ == old(out)@ + quoted(s@),
{
    let ghost start = out@;
    push_char(out, '"');
    let v = chars_of(s);
    let mut i: usize = 0;
    while i < v.len()
        invariant
            i <= v@.len(),
            v@ == s@,
            out@ == start + seq!['"'] + escaped(v@.take(i as int)),
        decreases v.len() - i,
    {
        let c = v[i];
        let u = c as u32;
        let ghost before = out@;
        if c == '"' {
            push_char(out, '\\');
            push_char(out, '"');
        } else if c == '\\' {
            push_char(out, '\\');
            push_char(out, '\\');
        } else if u == 0x08 {
            push_char(out, '\\');
            push_char(out, 'b');
        } else if u == 0x09 {
            push_char(out, '\\');
            push_char(out, 't');
        } else if u == 0x0A {
            push_char(out, '\\');
            push_char(out, 'n');
        } else if u == 0x0C {
            push_char(out, '\\');
            push_char(out, 'f');
        } else if u == 0x0D {
            push_char(out, '\\');
            push_char(out, 'r');
        } else if u < 0x20 {
            push_char(out, '\\');
            push_char(out, 'u');
            push_char(out, '0');
            push_char(out, '0');
            push_char(out, hex_of(u / 16));
            push_char(out, hex_of(u % 16));
        } else {
            push_char(out, c);
        }
        assert(out@ == before + escape_char(c));
        assert(v@.take(i + 1).drop_last() == v@.take(i as int));
        i = i + 1;
    }
    assert(v@.take(v@.len() as int) == v@);
    push_char(out, '"');
    assert(out@ == start + quoted(s@));
}

/// Appends the compact JSON text of a value.
pub fn write_json(out: &mut String, v: &JsonValue)
    ensures
        final(out)@ == old(out)@ + json_text(*v),
    decreases v, 0int,
{
    match v {
        JsonValue::Null => out.append("null"),
        JsonValue::Bool(b) => {
            if *b {
                out.append("true")
            } else {
                out.append("false")
            }
        },
        JsonValue::Number(n) => out.append(n.as_str()),
        JsonValue::Str(s) => write_quoted(out, s.as_str()),
        JsonValue::Array(items) => {
            push_char(out, '[');
            write_items(out, items);
            push_char(out, ']');
        },
        JsonValue::Object(entries) => {
            push_char(out, '{');
            write_entries(out, entries);
            push_char(out, '}');
        },
    }
}

/// Appends the texts of array items, separated by commas.
fn write_items(out: &mut String, items: &Vec<JsonValue>)
    ensures
        final(out)@ == old(out)@ + items_text(items@),
    decreases items, 1int,
{
    let ghost start = out@;
    let mut i: usize = 0;
    while i < items.len()
        invariant
            i <= items@.len(),
            out@ == start + items_text(items@.take(i as int)),
        decreases items.len() - i,
    {
        let ghost pre = items@.take(i as int);
        if i > 0 {
            push_char(out, ',');
        }
        assert(decreases_to!(items => items@));
        assert(decreases_to!(items@ => items@[i as int]));
        write_json(out, &items[i]);
        let ghost cur = items@.take(i + 1);
        assert(cur.drop_last() == pre);
        assert(cur.last() == items@[i as int]);
        if i == 0 {
            assert(cur.len() == 1);
            assert(out@ == start + items_text(cur));
        }
        i = i + 1;
    }
    assert(items@.take(items@.len() as int) == items@);
}

/// Appends the texts of object entries, separated by commas.
fn write_entries(out: &mut String, entries: &Vec<(String, JsonValue)>)
    ensures
        final(out)@ == old(out)@ + entries_text(entries@),
    decreases entries, 1int,
{
    let ghost start = out@;
    let mut i: usize = 0;
    while i < entries.len()
        invariant
            i <= entries@.len(),
            out@ == start + entries_text(entries@.take(i as int)),
        decreases entries.len() - i,
    {
        let ghost pre = entries@.take(i as int);
        if i > 0 {
            push_char(out, ',');
        }
        write_quoted(out, entries[i].0.as_str());
        push_char(out, ':');
        assert(decreases_to!(entries => entries@));
        assert(decreases_to!(entries@ => entries@[i as int]));
        assert(decreases_to!(entries@[i as int] => entries@[i as int].1));
        write_json(out, &entries[i].1);
        let ghost cur = entries@.take(i + 1);
        assert(cur.drop_last() == pre);
        assert(cur.last() == entries@[i as int]);
        i = i + 1;
    }
    assert(entries@.take(entries@.len() as int) == entries@);
}

/// The compact JSON text of a value.
pub fn to_json_text(v: &JsonValue) -> (s: String)
    ensures
        s@ == json_text(*v),
{
    let mut s = String::new();
    write_json(&mut s, v);
    s
}

/// A value rendered as text: a string as itself, a number as its text, `true`,
/// `false` and `null` as words, and arrays and objects as compact JSON.
pub open spec fn plain_text(v: JsonValue) -> Seq<char> {
    match v {
        JsonValue::Str(s) => s@,
        _ => json_text(v),
    }
}

/// A value rendered as text (see `plain_text`).
pub fn value_to_string(v: &JsonValue) -> (s: String)
    ensures
        s@ == plain_text(*v),
{
    match v {
        JsonValue::Str(s) => s.clone(),
        _ => to_json_text(v),
    }
}

} // verus!
