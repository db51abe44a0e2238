//! The crate's own JSON tree.
//!
//! GraphQL responses are parsed by `serde_json` behind a trusted boundary and
//! immediately converted into [`Json`], a tree of plain values that verified
//! code can take apart. Requests travel the other way: the crate emits JSON
//! text itself, through a verified emitter with an exact specification.

use vstd::prelude::*;
use crate::text::{chars_of, digit_char, spec_decimal_signed, i64_to_string, string_from_chars};

verus! {

/// A JSON value, as plain data.
#[derive(Debug, PartialEq)]
pub enum Json {
    /// JSON `null`.
    Null,
    /// A JSON boolean.
    Bool(bool),
    /// A JSON number representable as `i64`.
    Int(i64),
    /// A JSON number not representable as `i64` (huge or fractional),
    /// carried as its decimal text.
    NumText(String),
    /// A JSON string.
    Str(String),
    /// A JSON array.
    Arr(Vec<Json>),
    /// A JSON object, as a list of key/value entries; a lookup takes the
    /// first entry for a key.
    Obj(Vec<(String, Json)>),
}

/// The value of the first entry of `entries` at or after position `i` whose
/// key reads `key`, if any.
pub open spec fn spec_assoc_from(entries: Seq<(String, Json)>, key: Seq<char>, i: int) -> Option<
    Json,
>
    decreases entries.len() - i,
{
    if i < 0 || i >= entries.len() {
        None
    } else if entries[i].0@ == key {
        Some(entries[i].1)
    } else {
        spec_assoc_from(entries, key, i + 1)
    }
}

impl Json {
    /// The value under `key` if this is an object with such an entry.
    pub open spec fn spec_get(self, key: Seq<char>) -> Option<Json> {
        match self {
            Json::Obj(entries) => spec_assoc_from(entries@, key, 0),
            _ => None,
        }
    }

    /// Look up `key` if this is an object; `None` on any other value.
    #[verifier::loop_isolation(false)]
    pub fn get<'a>(&'a self, key: &str) -> (r: Option<&'a Json>)
        ensures
            match r {
                Some(v) => self.spec_get(key@) == Some(*v),
                None => self.spec_get(key@) is None,
            },
    {
        match self {
            Json::Obj(entries) => {
                let key_owned = key.to_owned();
                let mut i: usize = 0;
                while i < entries.len()
                    invariant
                        i <= entries@.len(),
                        key_owned@ == key@,
                        spec_assoc_from(entries@, key@, 0) == spec_assoc_from(
                            entries@,
                            key@,
                            i as int,
                        ),
                    decreases entries@.len() - i,
                {
                    let (k, v) = &entries[i];
                    if *k == key_owned {
                        proof {
                            assert(spec_assoc_from(entries@, key@, i as int) == Some(
                                entries@[i as int].1,
                            ));
                        }
                        return Some(v);
                    }
                    i = i + 1;
                }
                None
            },
            _ => None,
        }
    }

    /// Consume this value and take the entry under `key`, if this is an
    /// object with such an entry.
    #[verifier::loop_isolation(false)]
    pub fn take(self, key: &str) -> (r: Option<Json>)
        ensures
            r == self.spec_get(key@),
    {
        match self {
            Json::Obj(entries) => {
                let ghost es = entries@;
                let mut entries = entries;
                let mut found: Option<Json> = None;
                let mut i = entries.len();
                loop
                    invariant
                        i <= es.len(),
                        entries@ =~= es.subrange(0, i as int),
                        found == spec_assoc_from(es, key@, i as int),
                    decreases i,
                {
                    match entries.pop() {
                        Some((k, val)) => {
                            i = i - 1;
                            proof {
                                assert((k, val) == es[i as int]);
                            }
                            if crate::text::str_eq(k.as_str(), key) {
                                found = Some(val);
                            }
                        },
                        None => {
                            break;
                        },
                    }
                }
                found
            },
            _ => None,
        }
    }

    /// The characters of this value if it is a string.
    pub fn as_str<'a>(&'a self) -> (r: Option<&'a str>)
        ensures
            match *self {
                Json::Str(s) => r matches Some(t) && t@ == s@,
                _ => r is None,
            },
    {
        match self {
            Json::Str(s) => Some(s.as_str()),
            _ => None,
        }
    }

    /// The value if it is an `i64`-representable number.
    pub fn as_i64(&self) -> (r: Option<i64>)
        ensures
            match *self {
                Json::Int(n) => r == Some(n),
                _ => r is None,
            },
    {
        match self {
            Json::Int(n) => Some(*n),
            _ => None,
        }
    }

    /// The value if it is a non-negative `i64`-representable number.
    pub fn as_u64(&self) -> (r: Option<u64>)
        ensures
            match *self {
                Json::Int(n) => if n >= 0 {
                    r == Some(n as u64)
                } else {
                    r is None
                },
                _ => r is None,
            },
    {
        match self {
            Json::Int(n) => if *n >= 0 {
                Some(*n as u64)
            } else {
                None
            },
            _ => None,
        }
    }

    /// The value if it is a boolean.
    pub fn as_bool(&self) -> (r: Option<bool>)
        ensures
            match *self {
                Json::Bool(b) => r == Some(b),
                _ => r is None,
            },
    {
        match self {
            Json::Bool(b) => Some(*b),
            _ => None,
        }
    }

    /// The elements if this is an array.
    pub fn as_array<'a>(&'a self) -> (r: Option<&'a Vec<Json>>)
        ensures
            match *self {
                Json::Arr(items) => r matches Some(v) && *v == items,
                _ => r is None,
            },
    {
        match self {
            Json::Arr(items) => Some(items),
            _ => None,
        }
    }

    /// Whether this value is `null`.
    pub fn is_null(&self) -> (r: bool)
        ensures
            r == (*self matches Json::Null),
    {
        match self {
            Json::Null => true,
            _ => false,
        }
    }
}

/// `serde_json::Value` carried through trusted declarations, so the trusted
/// conversion below can take one as argument.
#[verifier::external_type_specification]
#[verifier::external_body]
pub struct ExValue(serde_json::Value);

/// Relies on `serde_json::Value`: each variant is mapped to the crate's own
/// JSON tree, one arm each. An integral number keeps its `i64` value; any
/// other number keeps its decimal text.
#[verifier::external_body]
fn json_of_value(v: &serde_json::Value) -> Json {
    match v {
        serde_json::Value::Null => Json::Null,
        serde_json::Value::Bool(b) => Json::Bool(*b),
        serde_json::Value::Number(n) => match n.as_i64() {
            Some(i) => Json::Int(i),
            None => Json::NumText(n.to_string()),
        },
        serde_json::Value::String(s) => Json::Str(s.clone()),
        serde_json::Value::Array(a) => Json::Arr(a.iter().map(json_of_value).collect()),
        serde_json::Value::Object(o) => Json::Obj(
            o.iter().map(|(k, val)| (k.clone(), json_of_value(val))).collect(),
        ),
    }
}

/// Relies on `serde_json::from_str`: returns the parsed document when `s`
/// is valid JSON text, and the parser's own description when it is not.
#[verifier::external_body]
pub fn parse_json(s: &str) -> Result<Json, String> {
    match serde_json::from_str::<serde_json::Value>(s) {
        Ok(v) => Ok(json_of_value(&v)),
        Err(e) => Err(e.to_string()),
    }
}

/// A hexadecimal digit character (lower case), for `d < 16`.
pub open spec fn hex_digit_char(d: nat) -> char {
    if d < 10 {
        digit_char(d)
    } else if d == 10 {
        'a'
    } else if d == 11 {
        'b'
    } else if d == 12 {
        'c'
    } else if d == 13 {
        'd'
    } else if d == 14 {
        'e'
    } else {
        'f'
    }
}

/// How one character is written inside a JSON string literal: quotes and
/// backslashes are escaped, the common control characters get their short
/// escapes, any other control character is written as `\u00XX`, and
/// everything else stands for itself.
pub open spec fn spec_escape_char(c: char) -> Seq<char> {
    if c == '"' {
        seq!['\\', '"']
    } else if c == '\\' {
        seq!['\\', '\\']
    } else if c == '\n' {
        seq!['\\', 'n']
    } else if c == '\r' {
        seq!['\\', 'r']
    } else if c == '\t' {
        seq!['\\', 't']
    } else if (c as u32) < 32 {
        seq!['\\', 'u', '0', '0', hex_digit_char((c as u32 / 16) as nat), hex_digit_char(
            (c as u32 % 16) as nat,
        )]
    } else {
        seq![c]
    }
}

/// The body of a JSON string literal holding the characters `s`.
pub open spec fn spec_escape(s: Seq<char>) -> Seq<char>
    decreases s.len(),
{
    if s.len() == 0 {
        Seq::empty()
    } else {
        spec_escape(s.drop_last()) + spec_escape_char(s.last())
    }
}

/// A complete JSON string literal holding the characters `s`.
pub open spec fn spec_quoted(s: Seq<char>) -> Seq<char> {
    seq!['"'] + spec_escape(s) + seq!['"']
}

/// The text of a JSON value, as this crate emits it: no whitespace, object
/// entries and array elements in order, separated by commas.
pub open spec fn spec_json_text(j: Json) -> Seq<char>
    decreases j,
{
    match j {
        Json::Null => "null"@,
        Json::Bool(b) => if b {
            "true"@
        } else {
            "false"@
        },
        Json::Int(n) => spec_decimal_signed(n as int),
        Json::NumText(s) => s@,
        Json::Str(s) => spec_quoted(s@),
        Json::Arr(items) => seq!['['] + spec_json_elements(items@) + seq![']'],
        Json::Obj(entries) => seq!['{'] + spec_json_members(entries@) + seq!['}'],
    }
}

/// The comma-separated texts of an array's elements.
pub open spec fn spec_json_elements(items: Seq<Json>) -> Seq<char>
    decreases items,
{
    if items.len() == 0 {
        Seq::empty()
    } else if items.len() == 1 {
        spec_json_text(items[0])
    } else {
        spec_json_elements(items.drop_last()) + seq![','] + spec_json_text(items.last())
    }
}

/// The comma-separated texts of an object's entries.
pub open spec fn spec_json_members(entries: Seq<(String, Json)>) -> Seq<char>
    decreases entries,
{
    if entries.len() == 0 {
        Seq::empty()
    } else if entries.len() == 1 {
        spec_quoted(entries[0].0@) + seq![':'] + spec_json_text(entries[0].1)
    } else {
        spec_json_members(entries.drop_last()) + seq![','] + spec_quoted(entries.last().0@)
            + seq![':'] + spec_json_text(entries.last().1)
    }
}

/// A hexadecimal digit character (lower case).
fn hex_char(d: u32) -> (r: char)
    requires
        d < 16,
    ensures
        r == hex_digit_char(d as nat),
{
    if d == 0 {
        '0'
    } else if d == 1 {
        '1'
    } else if d == 2 {
        '2'
    } else if d == 3 {
        '3'
    } else if d == 4 {
        '4'
    } else if d == 5 {
        '5'
    } else if d == 6 {
        '6'
    } else if d == 7 {
        '7'
    } else if d == 8 {
        '8'
    } else if d == 9 {
        '9'
    } else if d == 10 {
        'a'
    } else if d == 11 {
        'b'
    } else if d == 12 {
        'c'
    } else if d == 13 {
        'd'
    } else if d == 14 {
        'e'
    } else {
        'f'
    }
}

/// Append the escaped form of one character.
fn push_escaped_char(out: &mut Vec<char>, c: char)
    ensures
        final(out)@ == old(out)@ + spec_escape_char(c),
{
    if c == '"' {
        out.push('\\');
        out.push('"');
    } else if c == '\\' {
        out.push('\\');
        out.push('\\');
    } else if c == '\n' {
        out.push('\\');
        out.push('n');
    } else if c == '\r' {
        out.push('\\');
        out.push('r');
    } else if c == '\t' {
        out.push('\\');
        out.push('t');
    } else if (c as u32) < 32 {
        out.push('\\');
        out.push('u');
        out.push('0');
        out.push('0');
        out.push(hex_char(c as u32 / 16));
        out.push(hex_char(c as u32 % 16));
    } else {
        out.push(c);
    }
    proof {
        assert(out@ =~= old(out)@ + spec_escape_char(c));
    }
}

/// Append a complete JSON string literal holding the characters of `s`.
fn push_quoted(out: &mut Vec<char>, s: &str)
    ensures
        final(out)@ == old(out)@ + spec_quoted(s@),
{
    out.push('"');
    let cs = chars_of(s);
    let mut i: usize = 0;
    while i < cs.len()
        invariant
            i <= cs@.len(),
            cs@ == s@,
            out@ == old(out)@ + seq!['"'] + spec_escape(cs@.subrange(0, i as int)),
        decreases cs@.len() - i,
    {
        push_escaped_char(out, cs[i]);
        i = i + 1;
        proof {
            let pre = cs@.subrange(0, i as int);
            assert(pre.drop_last() =~= cs@.subrange(0, i - 1));
            assert(pre.last() == cs@[i - 1]);
        }
    }
    out.push('"');
    proof {
        assert(cs@.subrange(0, cs@.len() as int) =~= s@);
        assert(out@ =~= old(out)@ + spec_quoted(s@));
    }
}

/// Append the text of a JSON value.
#[verifier::loop_isolation(false)]
#[verifier::rlimit(50)]
fn write_json(j: &Json, out: &mut Vec<char>)
    ensures
        final(out)@ == old(out)@ + spec_json_text(*j),
    decreases *j,
{
    match j {
        Json::Null => {
            proof {
                reveal_strlit("null");
            }
            out.push('n');
            out.push('u');
            out.push('l');
            out.push('l');
            proof {
                assert(out@ =~= old(out)@ + "null"@);
            }
        },
        Json::Bool(b) => {
            if *b {
                proof {
                    reveal_strlit("true");
                }
                out.push('t');
                out.push('r');
                out.push('u');
                out.push('e');
                proof {
                    assert(out@ =~= old(out)@ + "true"@);
                }
            } else {
                proof {
                    reveal_strlit("false");
                }
                out.push('f');
                out.push('a');
                out.push('l');
                out.push('s');
                out.push('e');
                proof {
                    assert(out@ =~= old(out)@ + "false"@);
                }
            }
        },
        Json::Int(n) => {
            let s = i64_to_string(*n);
            let cs = chars_of(s.as_str());
            crate::text::extend_chars(out, &cs);
        },
        Json::NumText(s) => {
            let cs = chars_of(s.as_str());
            crate::text::extend_chars(out, &cs);
        },
        Json::Str(s) => {
            push_quoted(out, s.as_str());
        },
        Json::Arr(items) => {
            out.push('[');
            let mut i: usize = 0;
            while i < items.len()
                invariant
                    i <= items@.len(),
                    out@ == old(out)@ + seq!['['] + spec_json_elements(
                        items@.subrange(0, i as int),
                    ),
                decreases items@.len() - i,
            {
                if i > 0 {
                    out.push(',');
                }
                proof {
                    assert(j->Arr_0 == *items);
                    assert(decreases_to!(*j => j->Arr_0));
                    assert(decreases_to!(j->Arr_0 => (j->Arr_0)@));
                    assert(decreases_to!((j->Arr_0)@ => (j->Arr_0)@[i as int]));
                    assert(decreases_to!(*j => items@[i as int]));
                }
                write_json(&items[i], out);
                i = i + 1;
                proof {
                    let pre = items@.subrange(0, i as int);
                    assert(pre.drop_last() =~= items@.subrange(0, i - 1));
                    assert(pre.last() == items@[i - 1]);
                }
            }
            out.push(']');
            proof {
                assert(items@.subrange(0, items@.len() as int) =~= items@);
                assert(out@ =~= old(out)@ + spec_json_text(*j));
            }
        },
        Json::Obj(entries) => {
            out.push('{');
            let mut i: usize = 0;
            while i < entries.len()
                invariant
                    i <= entries@.len(),
                    out@ == old(out)@ + seq!['{'] + spec_json_members(
                        entries@.subrange(0, i as int),
                    ),
                decreases entries@.len() - i,
            {
                if i > 0 {
                    out.push(',');
                }
                let (k, v) = &entries[i];
                push_quoted(out, k.as_str());
                out.push(':');
                proof {
                    assert(j->Obj_0 == *entries);
                    assert(decreases_to!(*j => j->Obj_0));
                    assert(decreases_to!(j->Obj_0 => (j->Obj_0)@));
                    assert(decreases_to!((j->Obj_0)@ => (j->Obj_0)@[i as int]));
                    assert(decreases_to!((j->Obj_0)@[i as int] => (j->Obj_0)@[i as int].1));
                    assert(decreases_to!(*j => entries@[i as int].1));
                }
                write_json(v, out);
                i = i + 1;
                proof {
                    let pre = entries@.subrange(0, i as int);
                    assert(pre.drop_last() =~= entries@.subrange(0, i - 1));
                    assert(pre.last() == entries@[i - 1]);
                }
            }
            out.push('}');
            proof {
                assert(entries@.subrange(0, entries@.len() as int) =~= entries@);
                assert(out@ =~= old(out)@ + spec_json_text(*j));
            }
        },
    }
}

/// The text of a JSON value, with this crate's fixed formatting.
pub fn json_to_string(j: &Json) -> (r: String)
    ensures
        r@ == spec_json_text(*j),
{
    let mut out: Vec<char> = Vec::new();
    write_json(j, &mut out);
    string_from_chars(&out)
}

} // verus!
