//! The in-memory document that the whole pipeline reads.
//!
//! The raw export is plain JSON; the surrounding application parses it and
//! hands the core this owned value tree. Numbers that fit a signed 64-bit
//! integer are held as such; any other numeric literal keeps its decimal
//! text, which is all the generators ever need of it.
//!
//! `JsonV` is the mathematical model of a value; every contract over
//! documents speaks of it through `jval`.

use vstd::prelude::*;

use crate::text::{i64_dec_spec, i64_to_string, join_spec};

verus! {

#[derive(Debug, PartialEq, Eq)]
pub enum JsonNumber {
    Int(i64),
    /// The decimal text of a number that is not a signed 64-bit integer.
    Other(String),
}

#[derive(Debug, PartialEq, Eq)]
pub enum JsonValue {
    Null,
    Bool(bool),
    Number(JsonNumber),
    Str(String),
    Arr(Vec<JsonValue>),
    Obj(Vec<(String, JsonValue)>),
}

/// The mathematical model of a document value.
pub enum JsonV {
    Null,
    Bool(bool),
    Int(int),
    NumText(Seq<char>),
    Str(Seq<char>),
    Arr(Seq<JsonV>),
    Obj(Seq<(Seq<char>, JsonV)>),
}

/// The model of a value.
pub open spec fn jval(v: JsonValue) -> JsonV
    decreases v,
{
    match v {
        JsonValue::Null => JsonV::Null,
        JsonValue::Bool(b) => JsonV::Bool(b),
        JsonValue::Number(JsonNumber::Int(n)) => JsonV::Int(n as int),
        JsonValue::Number(JsonNumber::Other(s)) => JsonV::NumText(s@),
        JsonValue::Str(s) => JsonV::Str(s@),
        JsonValue::Arr(items) => JsonV::Arr(jvals(items@)),
        JsonValue::Obj(entries) => JsonV::Obj(jentries(entries@)),
    }
}

pub open spec fn jvals(items: Seq<JsonValue>) -> Seq<JsonV>
    decreases items,
{
    if items.len() == 0 {
        Seq::<JsonV>::empty()
    } else {
        seq![jval(items[0])] + jvals(items.skip(1))
    }
}

pub open spec fn jentries(entries: Seq<(String, JsonValue)>) -> Seq<(Seq<char>, JsonV)>
    decreases entries,
{
    if entries.len() == 0 {
        Seq::<(Seq<char>, JsonV)>::empty()
    } else {
        seq![(entries[0].0@, jval(entries[0].1))] + jentries(entries.skip(1))
    }
}

pub proof fn lemma_jvals_len(items: Seq<JsonValue>)
    ensures
        jvals(items).len() == items.len(),
    decreases items.len(),
{
    if items.len() > 0 {
        lemma_jvals_len(items.skip(1));
    }
}

pub proof fn lemma_jvals_index(items: Seq<JsonValue>, i: int)
    requires
        0 <= i < items.len(),
    ensures
        jvals(items).len() == items.len(),
        jvals(items)[i] == jval(items[i]),
    decreases items.len(),
{
    lemma_jvals_len(items);
    if i > 0 {
        lemma_jvals_index(items.skip(1), i - 1);
    }
}

pub proof fn lemma_jentries_len(entries: Seq<(String, JsonValue)>)
    ensures
        jentries(entries).len() == entries.len(),
    decreases entries.len(),
{
    if entries.len() > 0 {
        lemma_jentries_len(entries.skip(1));
    }
}

pub proof fn lemma_jentries_index(entries: Seq<(String, JsonValue)>, i: int)
    requires
        0 <= i < entries.len(),
    ensures
        jentries(entries).len() == entries.len(),
        jentries(entries)[i] == (entries[i].0@, jval(entries[i].1)),
    decreases entries.len(),
{
    lemma_jentries_len(entries);
    if i > 0 {
        lemma_jentries_index(entries.skip(1), i - 1);
    }
}

// ---------------------------------------------------------------------------
// lookup and accessors, over the model
// ---------------------------------------------------------------------------

/// The value of the first entry with the given key.
pub open spec fn jget_entries(entries: Seq<(Seq<char>, JsonV)>, key: Seq<char>) -> Option<JsonV>
    decreases entries.len(),
{
    if entries.len() == 0 {
        Option::None
    } else if entries[0].0 == key {
        Option::Some(entries[0].1)
    } else {
        jget_entries(entries.skip(1), key)
    }
}

/// The value under `key` when the model is an object holding it.
pub open spec fn jget(v: JsonV, key: Seq<char>) -> Option<JsonV> {
    match v {
        JsonV::Obj(entries) => jget_entries(entries, key),
        _ => Option::None,
    }
}

impl JsonValue {
    /// The value under `key`, when this value is an object with such an entry.
    pub fn get(&self, key: &str) -> (r: Option<&JsonValue>)
        ensures
            match r {
                Option::Some(v) => jget(jval(*self), key@) == Option::Some(jval(*v)),
                Option::None => jget(jval(*self), key@) is None,
            },
    {
        match self {
            JsonValue::Obj(entries) => {
                let mut i: usize = 0;
                proof {
                    assert(entries@.skip(0) =~= entries@);
                }
                while i < entries.len()
                    invariant
                        0 <= i <= entries@.len(),
                        *self == JsonValue::Obj(*entries),
                        jget_entries(jentries(entries@.skip(i as int)), key@) == jget_entries(
                            jentries(entries@),
                            key@,
                        ),
                    decreases entries@.len() - i,
                {
                    let pair = &entries[i];
                    proof {
                        let ghost rest = entries@.skip(i as int);
                        lemma_jentries_len(rest);
                        assert(rest[0] == entries@[i as int]);
                        assert(rest.skip(1) =~= entries@.skip(i + 1));
                        assert(jentries(rest) == seq![(rest[0].0@, jval(rest[0].1))] + jentries(
                            rest.skip(1),
                        ));
                        assert(jentries(rest)[0] == (rest[0].0@, jval(rest[0].1)));
                        assert(jentries(rest).skip(1) =~= jentries(entries@.skip(i + 1)));
                    }
                    if crate::text::str_eq(pair.0.as_str(), key) {
                        return Some(&pair.1);
                    }
                    i = i + 1;
                }
                proof {
                    assert(entries@.skip(entries@.len() as int).len() == 0);
                }
                None
            },
            _ => None,
        }
    }

    pub fn is_string(&self) -> (r: bool)
        ensures
            r == (jval(*self) is Str),
    {
        match self {
            JsonValue::Str(_) => true,
            _ => false,
        }
    }

    pub fn as_str(&self) -> (r: Option<&str>)
        ensures
            match r {
                Option::Some(s) => jval(*self) == JsonV::Str(s@),
                Option::None => !(jval(*self) is Str),
            },
    {
        match self {
            JsonValue::Str(s) => Some(s.as_str()),
            _ => None,
        }
    }

    pub fn as_bool(&self) -> (r: Option<bool>)
        ensures
            match r {
                Option::Some(b) => jval(*self) == JsonV::Bool(b),
                Option::None => !(jval(*self) is Bool),
            },
    {
        match self {
            JsonValue::Bool(b) => Some(*b),
            _ => None,
        }
    }

    /// The value as a signed 64-bit integer, when it is one.
    pub fn as_i64(&self) -> (r: Option<i64>)
        ensures
            match r {
                Option::Some(n) => jval(*self) == JsonV::Int(n as int),
                Option::None => !(jval(*self) is Int),
            },
    {
        match self {
            JsonValue::Number(JsonNumber::Int(n)) => Some(*n),
            _ => None,
        }
    }

    pub fn as_array(&self) -> (r: Option<&Vec<JsonValue>>)
        ensures
            match r {
                Option::Some(items) => jval(*self) == JsonV::Arr(jvals(items@)),
                Option::None => !(jval(*self) is Arr),
            },
    {
        match self {
            JsonValue::Arr(items) => Some(items),
            _ => None,
        }
    }

    pub fn as_object(&self) -> (r: Option<&Vec<(String, JsonValue)>>)
        ensures
            match r {
                Option::Some(entries) => jval(*self) == JsonV::Obj(jentries(entries@)),
                Option::None => !(jval(*self) is Obj),
            },
    {
        match self {
            JsonValue::Obj(entries) => Some(entries),
            _ => None,
        }
    }
}

// ---------------------------------------------------------------------------
// deep clone
// ---------------------------------------------------------------------------

impl Clone for JsonNumber {
    fn clone(&self) -> (r: Self)
        ensures
            jnum_model(r) == jnum_model(*self),
    {
        match self {
            JsonNumber::Int(n) => JsonNumber::Int(*n),
            JsonNumber::Other(s) => JsonNumber::Other(s.clone()),
        }
    }
}

/// The model of a number alone.
pub open spec fn jnum_model(n: JsonNumber) -> JsonV {
    match n {
        JsonNumber::Int(v) => JsonV::Int(v as int),
        JsonNumber::Other(s) => JsonV::NumText(s@),
    }
}

impl Clone for JsonValue {
    /// A deep copy with the same model.
    fn clone(&self) -> (r: Self)
        ensures
            jval(r) == jval(*self),
        decreases *self,
    {
        match self {
            JsonValue::Null => JsonValue::Null,
            JsonValue::Bool(b) => JsonValue::Bool(*b),
            JsonValue::Number(n) => JsonValue::Number(n.clone()),
            JsonValue::Str(s) => JsonValue::Str(s.clone()),
            JsonValue::Arr(items) => {
                let mut out: Vec<JsonValue> = Vec::new();
                let mut i: usize = 0;
                while i < items.len()
                    invariant
                        0 <= i <= items@.len(),
                        *self == JsonValue::Arr(*items),
                        out@.len() == i,
                        jvals(out@) =~= jvals(items@).take(i as int),
                    decreases items@.len() - i,
                {
                    proof {
                        assert(decreases_to!(*self => self->Arr_0@[i as int])) by {
                            assert(decreases_to!(*self => self->Arr_0));
                            assert(decreases_to!(self->Arr_0 => self->Arr_0@[i as int]));
                        }
                    }
                    let item = &items[i];
                    let c = item.clone();
                    proof {
                        lemma_jvals_snoc(out@, c);
                        lemma_jvals_index(items@, i as int);
                    }
                    out.push(c);
                    proof {
                        assert(jvals(items@).take(i + 1) =~= jvals(items@).take(i as int).push(
                            jvals(items@)[i as int],
                        ));
                    }
                    i = i + 1;
                }
                proof {
                    lemma_jvals_len(items@);
                    assert(jvals(items@).take(items@.len() as int) =~= jvals(items@));
                }
                JsonValue::Arr(out)
            },
            JsonValue::Obj(entries) => {
                let mut out: Vec<(String, JsonValue)> = Vec::new();
                let mut i: usize = 0;
                while i < entries.len()
                    invariant
                        0 <= i <= entries@.len(),
                        *self == JsonValue::Obj(*entries),
                        out@.len() == i,
                        jentries(out@) =~= jentries(entries@).take(i as int),
                    decreases entries@.len() - i,
                {
                    proof {
                        assert(decreases_to!(*self => self->Obj_0@[i as int].1)) by {
                            assert(decreases_to!(*self => self->Obj_0));
                            assert(decreases_to!(self->Obj_0 => self->Obj_0@[i as int]));
                            assert(decreases_to!(
                                self->Obj_0@[i as int] => self->Obj_0@[i as int].1));
                        }
                    }
                    let pair = &entries[i];
                    let k = pair.0.clone();
                    let v = pair.1.clone();
                    proof {
                        lemma_jentries_snoc(out@, (k, v));
                        lemma_jentries_index(entries@, i as int);
                    }
                    out.push((k, v));
                    proof {
                        assert(jentries(entries@).take(i + 1) =~= jentries(entries@).take(
                            i as int,
                        ).push(jentries(entries@)[i as int]));
                    }
                    i = i + 1;
                }
                proof {
                    lemma_jentries_len(entries@);
                    assert(jentries(entries@).take(entries@.len() as int) =~= jentries(entries@));
                }
                JsonValue::Obj(out)
            },
        }
    }
}

pub proof fn lemma_jvals_snoc(items: Seq<JsonValue>, x: JsonValue)
    ensures
        jvals(items.push(x)) == jvals(items).push(jval(x)),
    decreases items.len(),
{
    if items.len() == 0 {
        assert(items.push(x)[0] == x);
        assert(items.push(x).skip(1) =~= Seq::<JsonValue>::empty());
        assert(jvals(items.push(x)) == seq![jval(items.push(x)[0])] + jvals(
            items.push(x).skip(1),
        ));
        assert(jvals(items.push(x).skip(1)) == Seq::<JsonV>::empty());
        assert(jvals(items) == Seq::<JsonV>::empty());
        assert(jvals(items.push(x)) =~= jvals(items).push(jval(x)));
    } else {
        lemma_jvals_snoc(items.skip(1), x);
        assert(items.push(x)[0] == items[0]);
        assert(items.push(x).skip(1) =~= items.skip(1).push(x));
        assert(jvals(items.push(x)) == seq![jval(items[0])] + jvals(items.skip(1).push(x)));
        assert(jvals(items) == seq![jval(items[0])] + jvals(items.skip(1)));
        assert(seq![jval(items[0])] + jvals(items.skip(1)).push(jval(x)) =~= (seq![jval(items[0])]
            + jvals(items.skip(1))).push(jval(x)));
    }
}

pub proof fn lemma_jentries_snoc(entries: Seq<(String, JsonValue)>, x: (String, JsonValue))
    ensures
        jentries(entries.push(x)) == jentries(entries).push((x.0@, jval(x.1))),
    decreases entries.len(),
{
    if entries.len() == 0 {
        assert(entries.push(x)[0] == x);
        assert(entries.push(x).skip(1) =~= Seq::<(String, JsonValue)>::empty());
        assert(jentries(entries.push(x)) == seq![
            (entries.push(x)[0].0@, jval(entries.push(x)[0].1)),
        ] + jentries(entries.push(x).skip(1)));
        assert(jentries(entries.push(x).skip(1)) == Seq::<(Seq<char>, JsonV)>::empty());
        assert(jentries(entries) == Seq::<(Seq<char>, JsonV)>::empty());
        assert(jentries(entries.push(x)) =~= jentries(entries).push((x.0@, jval(x.1))));
    } else {
        lemma_jentries_snoc(entries.skip(1), x);
        assert(entries.push(x)[0] == entries[0]);
        assert(entries.push(x).skip(1) =~= entries.skip(1).push(x));
        assert(jentries(entries.push(x)) == seq![(entries[0].0@, jval(entries[0].1))] + jentries(
            entries.skip(1).push(x),
        ));
        assert(jentries(entries) == seq![(entries[0].0@, jval(entries[0].1))] + jentries(
            entries.skip(1),
        ));
        assert(seq![(entries[0].0@, jval(entries[0].1))] + jentries(entries.skip(1)).push(
            (x.0@, jval(x.1)),
        ) =~= (seq![(entries[0].0@, jval(entries[0].1))] + jentries(entries.skip(1))).push(
            (x.0@, jval(x.1)),
        ));
    }
}

// ---------------------------------------------------------------------------
// serialization
// ---------------------------------------------------------------------------

/// The hexadecimal digit character for `d` in 0..16, lowercase.
pub open spec fn hex_digit_char(d: int) -> char {
    if d < 10 {
        crate::text::digit_char(d)
    } else if d == 10 {
        'a'
    } else if d == 11 {
        'b'
    } else if d == 12 {
        'c'
    } else if d == 13 {
        'd'
    } else if d == 14 {
        'e'
    } else {
        'f'
    }
}

/// The JSON escape of one character inside a string literal: the two-character
/// escapes for quote, backslash and the common control characters, a
/// `\u00..` escape for the other control characters, and the character
/// itself otherwise.
pub open spec fn json_escape_char(c: char) -> Seq<char> {
    if c == '"' {
        seq!['\\', '"']
    } else if c == '\\' {
        seq!['\\', '\\']
    } else if c == '\u{8}' {
        seq!['\\', 'b']
    } else if c == '\u{c}' {
        seq!['\\', 'f']
    } else if c == '\n' {
        seq!['\\', 'n']
    } else if c == '\r' {
        seq!['\\', 'r']
    } else if c == '\t' {
        seq!['\\', 't']
    } else if (c as u32) < 0x20 {
        seq!['\\', 'u', '0', '0', hex_digit_char(c as u32 as int / 16), hex_digit_char(
            c as u32 as int % 16,
        )]
    } else {
        seq![c]
    }
}

/// The JSON escape of a whole string, character by character.
pub open spec fn json_escape(s: Seq<char>) -> Seq<char>
    decreases s.len(),
{
    if s.len() == 0 {
        Seq::<char>::empty()
    } else {
        json_escape_char(s[0]) + json_escape(s.skip(1))
    }
}

/// A string as a JSON literal: quoted and escaped.
pub open spec fn json_string(s: Seq<char>) -> Seq<char> {
    seq!['"'] + json_escape(s) + seq!['"']
}

/// The compact JSON text of a model value, as `serde_json` prints it.
pub open spec fn json_text(v: JsonV) -> Seq<char>
    decreases v,
{
    match v {
        JsonV::Null => "null"@,
        JsonV::Bool(b) => if b {
            "true"@
        } else {
            "false"@
        },
        JsonV::Int(n) => i64_dec_spec(n),
        JsonV::NumText(s) => s,
        JsonV::Str(s) => json_string(s),
        JsonV::Arr(items) => seq!['['] + join_spec(json_texts_of(items), seq![',']) + seq![']'],
        JsonV::Obj(entries) => seq!['{'] + join_spec(
            json_entry_texts_of(entries),
            seq![','],
        ) + seq!['}'],
    }
}

pub open spec fn json_texts_of(items: Seq<JsonV>) -> Seq<Seq<char>>
    decreases items,
{
    if items.len() == 0 {
        Seq::<Seq<char>>::empty()
    } else {
        seq![json_text(items[0])] + json_texts_of(items.skip(1))
    }
}

pub open spec fn json_entry_texts_of(entries: Seq<(Seq<char>, JsonV)>) -> Seq<Seq<char>>
    decreases entries,
{
    if entries.len() == 0 {
        Seq::<Seq<char>>::empty()
    } else {
        seq![json_string(entries[0].0) + seq![':'] + json_text(entries[0].1)] + json_entry_texts_of(
            entries.skip(1),
        )
    }
}

pub proof fn lemma_json_texts_of_len(items: Seq<JsonV>)
    ensures
        json_texts_of(items).len() == items.len(),
    decreases items.len(),
{
    if items.len() > 0 {
        lemma_json_texts_of_len(items.skip(1));
    }
}

pub proof fn lemma_json_texts_of_index(items: Seq<JsonV>, i: int)
    requires
        0 <= i < items.len(),
    ensures
        json_texts_of(items).len() == items.len(),
        json_texts_of(items)[i] == json_text(items[i]),
    decreases items.len(),
{
    lemma_json_texts_of_len(items);
    if i > 0 {
        lemma_json_texts_of_index(items.skip(1), i - 1);
    }
}

pub proof fn lemma_json_entry_texts_of_len(entries: Seq<(Seq<char>, JsonV)>)
    ensures
        json_entry_texts_of(entries).len() == entries.len(),
    decreases entries.len(),
{
    if entries.len() > 0 {
        lemma_json_entry_texts_of_len(entries.skip(1));
    }
}

pub proof fn lemma_json_entry_texts_of_index(entries: Seq<(Seq<char>, JsonV)>, i: int)
    requires
        0 <= i < entries.len(),
    ensures
        json_entry_texts_of(entries).len() == entries.len(),
        json_entry_texts_of(entries)[i] == json_string(entries[i].0) + seq![':'] + json_text(
            entries[i].1,
        ),
    decreases entries.len(),
{
    lemma_json_entry_texts_of_len(entries);
    if i > 0 {
        lemma_json_entry_texts_of_index(entries.skip(1), i - 1);
    }
}

fn hex_digit_str(d: u32) -> (r: &'static str)
    requires
        d < 16,
    ensures
        r@ == seq![hex_digit_char(d as int)],
{
    proof {
        reveal_strlit("a");
        reveal_strlit("b");
        reveal_strlit("c");
        reveal_strlit("d");
        reveal_strlit("e");
        reveal_strlit("f");
    }
    if d < 10 {
        crate::text::digit_str32(d)
    } else if d == 10 {
        let r = "a";
        proof {
            assert(r@ =~= seq![hex_digit_char(d as int)]);
        }
        r
    } else if d == 11 {
        let r = "b";
        proof {
            assert(r@ =~= seq![hex_digit_char(d as int)]);
        }
        r
    } else if d == 12 {
        let r = "c";
        proof {
            assert(r@ =~= seq![hex_digit_char(d as int)]);
        }
        r
    } else if d == 13 {
        let r = "d";
        proof {
            assert(r@ =~= seq![hex_digit_char(d as int)]);
        }
        r
    } else if d == 14 {
        let r = "e";
        proof {
            assert(r@ =~= seq![hex_digit_char(d as int)]);
        }
        r
    } else {
        let r = "f";
        proof {
            assert(r@ =~= seq![hex_digit_char(d as int)]);
        }
        r
    }
}

/// Appends the JSON escape of `c` to `out`.
fn push_escaped_char(out: &mut String, c: char)
    ensures
        final(out)@ == old(out)@ + json_escape_char(c),
{
    proof {
        reveal_strlit("\\\"");
        reveal_strlit("\\\\");
        reveal_strlit("\\b");
        reveal_strlit("\\f");
        reveal_strlit("\\n");
        reveal_strlit("\\r");
        reveal_strlit("\\t");
        reveal_strlit("\\u00");
    }
    if c == '"' {
        out.append("\\\"");
        proof {
            assert(("\\\"")@ =~= json_escape_char(c));
        }
    } else if c == '\\' {
        out.append("\\\\");
        proof {
            assert(("\\\\")@ =~= json_escape_char(c));
        }
    } else if c == '\u{8}' {
        out.append("\\b");
        proof {
            assert(("\\b")@ =~= json_escape_char(c));
        }
    } else if c == '\u{c}' {
        out.append("\\f");
        proof {
            assert(("\\f")@ =~= json_escape_char(c));
        }
    } else if c == '\n' {
        out.append("\\n");
        proof {
            assert(("\\n")@ =~= json_escape_char(c));
        }
    } else if c == '\r' {
        out.append("\\r");
        proof {
            assert(("\\r")@ =~= json_escape_char(c));
        }
    } else if c == '\t' {
        out.append("\\t");
        proof {
            assert(("\\t")@ =~= json_escape_char(c));
        }
    } else if (c as u32) < 0x20 {
        out.append("\\u00");
        let hi = hex_digit_str((c as u32) / 16);
        let lo = hex_digit_str((c as u32) % 16);
        out.append(hi);
        out.append(lo);
        proof {
            assert(("\\u00")@ =~= seq!['\\', 'u', '0', '0']);
            assert(old(out)@ + ("\\u00")@ + hi@ + lo@ =~= old(out)@ + json_escape_char(c));
        }
    } else {
        let piece = crate::text::char_to_string(c);
        out.append(piece.as_str());
        proof {
            assert(piece@ =~= json_escape_char(c));
        }
    }
}

/// Escaping one more character appends its escape.
pub proof fn lemma_json_escape_snoc(s: Seq<char>, c: char)
    ensures
        json_escape(s.push(c)) == json_escape(s) + json_escape_char(c),
    decreases s.len(),
{
    if s.len() == 0 {
        assert(s.push(c)[0] == c);
        assert(s.push(c).skip(1) =~= Seq::<char>::empty());
        assert(json_escape(s.push(c)) == json_escape_char(c) + json_escape(s.push(c).skip(1)));
        assert(json_escape(Seq::<char>::empty()) == Seq::<char>::empty());
        assert(json_escape(s.push(c)) =~= json_escape(s) + json_escape_char(c));
    } else {
        lemma_json_escape_snoc(s.skip(1), c);
        assert(s.push(c)[0] == s[0]);
        assert(s.push(c).skip(1) =~= s.skip(1).push(c));
        assert(json_escape(s.push(c)) == json_escape_char(s[0]) + json_escape(s.skip(1).push(c)));
        assert(json_escape(s) + json_escape_char(c) =~= json_escape_char(s[0]) + (json_escape(
            s.skip(1),
        ) + json_escape_char(c)));
    }
}

/// A string rendered as a quoted, escaped JSON literal.
pub fn json_string_text(s: &str) -> (r: String)
    ensures
        r@ == json_string(s@),
{
    proof {
        reveal_strlit("\"");
    }
    let mut out = String::new();
    out.append("\"");
    let n = s.unicode_len();
    let mut i: usize = 0;
    proof {
        assert(("\"")@ =~= seq!['"']);
        assert(s@.take(0) =~= Seq::<char>::empty());
        assert(out@ =~= seq!['"'] + json_escape(s@.take(0)));
    }
    while i < n
        invariant
            0 <= i <= n,
            n == s@.len(),
            out@ == seq!['"'] + json_escape(s@.take(i as int)),
        decreases n - i,
    {
        let c = s.get_char(i);
        push_escaped_char(&mut out, c);
        proof {
            lemma_json_escape_snoc(s@.take(i as int), c);
            assert(s@.take(i as int).push(c) =~= s@.take(i + 1));
        }
        i = i + 1;
    }
    out.append("\"");
    proof {
        assert(s@.take(n as int) =~= s@);
        assert(out@ =~= json_string(s@));
    }
    out
}

impl JsonValue {
    /// The compact JSON text of this value.
    pub fn to_json_text(&self) -> (r: String)
        ensures
            r@ == json_text(jval(*self)),
        decreases *self,
    {
        match self {
            JsonValue::Null => {
                let r: String = "null".to_owned();
                r
            },
            JsonValue::Bool(b) => {
                if *b {
                    "true".to_owned()
                } else {
                    "false".to_owned()
                }
            },
            JsonValue::Number(n) => {
                match n {
                    JsonNumber::Int(v) => i64_to_string(*v),
                    JsonNumber::Other(s) => s.clone(),
                }
            },
            JsonValue::Str(s) => json_string_text(s.as_str()),
            JsonValue::Arr(items) => {
                let ghost model_items = jvals(items@);
                let mut parts: Vec<String> = Vec::new();
                let mut i: usize = 0;
                proof {
                    lemma_jvals_len(items@);
                    assert(parts@.map_values(|x: String| x@) =~= json_texts_of(model_items).take(
                        0,
                    ));
                }
                while i < items.len()
                    invariant
                        0 <= i <= items@.len(),
                        *self == JsonValue::Arr(*items),
                        model_items == jvals(items@),
                        model_items.len() == items@.len(),
                        parts@.map_values(|x: String| x@) == json_texts_of(model_items).take(
                            i as int,
                        ),
                        parts@.len() == i,
                    decreases items@.len() - i,
                {
                    proof {
                        assert(decreases_to!(*self => self->Arr_0@[i as int])) by {
                            assert(decreases_to!(*self => self->Arr_0));
                            assert(decreases_to!(self->Arr_0 => self->Arr_0@[i as int]));
                        }
                        lemma_json_texts_of_index(model_items, i as int);
                        lemma_jvals_index(items@, i as int);
                    }
                    let item = &items[i];
                    let piece = item.to_json_text();
                    parts.push(piece);
                    proof {
                        assert(parts@.map_values(|x: String| x@) =~= json_texts_of(
                            model_items,
                        ).take(i + 1));
                    }
                    i = i + 1;
                }
                let inner = crate::text::str_join(&parts, ",");
                let mut out = String::new();
                out.append("[");
                out.append(inner.as_str());
                out.append("]");
                proof {
                    reveal_strlit("[");
                    reveal_strlit("]");
                    reveal_strlit(",");
                    lemma_json_texts_of_len(model_items);
                    assert(json_texts_of(model_items).take(model_items.len() as int)
                        =~= json_texts_of(model_items));
                    assert((",")@ =~= seq![',']);
                    assert(("[")@ =~= seq!['[']);
                    assert(("]")@ =~= seq![']']);
                    assert(out@ =~= json_text(jval(*self)));
                }
                out
            },
            JsonValue::Obj(entries) => {
                let ghost model_entries = jentries(entries@);
                let mut parts: Vec<String> = Vec::new();
                let mut i: usize = 0;
                proof {
                    lemma_jentries_len(entries@);
                    assert(parts@.map_values(|x: String| x@) =~= json_entry_texts_of(
                        model_entries,
                    ).take(0));
                }
                while i < entries.len()
                    invariant
                        0 <= i <= entries@.len(),
                        *self == JsonValue::Obj(*entries),
                        model_entries == jentries(entries@),
                        model_entries.len() == entries@.len(),
                        parts@.map_values(|x: String| x@) == json_entry_texts_of(
                            model_entries,
                        ).take(i as int),
                        parts@.len() == i,
                    decreases entries@.len() - i,
                {
                    proof {
                        assert(decreases_to!(*self => self->Obj_0@[i as int].1)) by {
                            assert(decreases_to!(*self => self->Obj_0));
                            assert(decreases_to!(self->Obj_0 => self->Obj_0@[i as int]));
                            assert(decreases_to!(
                                self->Obj_0@[i as int] => self->Obj_0@[i as int].1));
                        }
                        lemma_json_entry_texts_of_index(model_entries, i as int);
                        lemma_jentries_index(entries@, i as int);
                        reveal_strlit(":");
                    }
                    let pair = &entries[i];
                    let mut piece = json_string_text(pair.0.as_str());
                    piece.append(":");
                    let vt = pair.1.to_json_text();
                    piece.append(vt.as_str());
                    parts.push(piece);
                    proof {
                        assert((":")@ =~= seq![':']);
                        assert(parts@.map_values(|x: String| x@) =~= json_entry_texts_of(
                            model_entries,
                        ).take(i + 1));
                    }
                    i = i + 1;
                }
                let inner = crate::text::str_join(&parts, ",");
                let mut out = String::new();
                out.append("{");
                out.append(inner.as_str());
                out.append("}");
                proof {
                    reveal_strlit("{");
                    reveal_strlit("}");
                    reveal_strlit(",");
                    lemma_json_entry_texts_of_len(model_entries);
                    assert(json_entry_texts_of(model_entries).take(model_entries.len() as int)
                        =~= json_entry_texts_of(model_entries));
                    assert((",")@ =~= seq![',']);
                    assert(("{")@ =~= seq!['{']);
                    assert(("}")@ =~= seq!['}']);
                    assert(out@ =~= json_text(jval(*self)));
                }
                out
            },
        }
    }
}

} // verus!
