//! A small JSON reader: the grammar as spec functions over characters, and a
//! parser proved to compute exactly what they describe.
use vstd::prelude::*;

use crate::error::{Error, Fault};
use crate::number::{self, literal_to_i64};
use crate::text::{chars_of, push_char, same_text, string_from_chars};

verus! {

/// The abstract form of a JSON document.
pub enum Json {
    Null,
    Bool(bool),
    /// A number, kept as the text of its literal.
    Number(Seq<char>),
    Str(Seq<char>),
    Array(Seq<Json>),
    /// Members in increasing order of their keys (see `key_less`); keys are distinct.
    Object(Seq<(Seq<char>, Json)>),
}

/// A parsed JSON value.
#[derive(Debug)]
pub enum JsonValue {
    Null,
    Bool(bool),
    /// The literal text of a number.
    Number(String),
    String(String),
    Array(Vec<JsonValue>),
    /// Members in increasing order of their keys; a later
    /// member with the same key replaces the value of the earlier one.
    Object(Vec<(String, JsonValue)>),
}

pub open spec fn json_view(v: JsonValue) -> Json
    decreases v,
{
    match v {
        JsonValue::Null => Json::Null,
        JsonValue::Bool(b) => Json::Bool(b),
        JsonValue::Number(t) => Json::Number(t@),
        JsonValue::String(t) => Json::Str(t@),
        JsonValue::Array(items) => Json::Array(json_list_view(items@)),
        JsonValue::Object(members) => Json::Object(json_members_view(members@)),
    }
}

pub open spec fn json_list_view(s: Seq<JsonValue>) -> Seq<Json>
    decreases s,
{
    if s.len() == 0 {
        Seq::empty()
    } else {
        json_list_view(s.drop_last()).push(json_view(s.last()))
    }
}

pub open spec fn json_members_view(s: Seq<(String, JsonValue)>) -> Seq<(Seq<char>, Json)>
    decreases s,
{
    if s.len() == 0 {
        Seq::empty()
    } else {
        json_members_view(s.drop_last()).push((s.last().0@, json_view(s.last().1)))
    }
}

impl Json {
    /// The value of the member with key `k`.
    pub open spec fn get(self, k: Seq<char>) -> Option<Json> {
        match self {
            Json::Object(m) => {
                let i = find_key(m, k);
                if i >= 0 {
                    Some(m[i].1)
                } else {
                    None
                }
            },
            _ => None,
        }
    }

    pub open spec fn text(self) -> Option<Seq<char>> {
        match self {
            Json::Str(t) => Some(t),
            _ => None,
        }
    }

    pub open spec fn items(self) -> Option<Seq<Json>> {
        match self {
            Json::Array(a) => Some(a),
            _ => None,
        }
    }

    /// The integer that a number denotes, when it is one that fits in an `i64`.
    pub open spec fn integer(self) -> Option<i64> {
        match self {
            Json::Number(t) => number::literal_i64(t),
            _ => None,
        }
    }
}

impl Clone for JsonValue {
    fn clone(&self) -> (r: Self)
        ensures
            r@ == self@,
        decreases self,
    {
        match self {
            JsonValue::Null => JsonValue::Null,
            JsonValue::Bool(b) => JsonValue::Bool(*b),
            JsonValue::Number(t) => JsonValue::Number(t.clone()),
            JsonValue::String(t) => JsonValue::String(t.clone()),
            JsonValue::Array(items) => {
                let mut out: Vec<JsonValue> = Vec::new();
                let mut i: usize = 0;
                while i < items.len()
                    invariant
                        *self == JsonValue::Array(*items),
                        i <= items@.len(),
                        out@.len() == i,
                        forall|k: int| 0 <= k < i ==> #[trigger] json_view(out@[k]) == json_view(items@[k]),
                    decreases items@.len() - i,
                {
                    proof {
                        assert(decreases_to!(*self => self->Array_0));
                        assert(self->Array_0 == *items);
                        assert(decreases_to!(*items => items@));
                        assert(decreases_to!(items@ => items@[i as int]));
                        assert(decreases_to!(*self => items@[i as int]));
                    }
                    out.push(items[i].clone());
                    i += 1;
                }
                proof {
                    lemma_list_view(out@);
                    lemma_list_view(items@);
                    assert(json_list_view(out@) =~= json_list_view(items@));
                }
                JsonValue::Array(out)
            },
            JsonValue::Object(members) => {
                let mut out: Vec<(String, JsonValue)> = Vec::new();
                let mut i: usize = 0;
                while i < members.len()
                    invariant
                        *self == JsonValue::Object(*members),
                        i <= members@.len(),
                        out@.len() == i,
                        forall|k: int|
                            0 <= k < i ==> #[trigger] out@[k].0@ == members@[k].0@ && json_view(out@[k].1)
                                == json_view(members@[k].1),
                    decreases members@.len() - i,
                {
                    proof {
                        assert(decreases_to!(*self => self->Object_0));
                        assert(self->Object_0 == *members);
                        assert(decreases_to!(*members => members@));
                        assert(decreases_to!(members@ => members@[i as int]));
                        assert(decreases_to!(members@[i as int] => members@[i as int].1));
                        assert(decreases_to!(*self => members@[i as int].1));
                    }
                    let value = members[i].1.clone();
                    out.push((members[i].0.clone(), value));
                    i += 1;
                }
                proof {
                    lemma_members_view(out@);
                    lemma_members_view(members@);
                    assert(json_members_view(out@) =~= json_members_view(members@));
                }
                JsonValue::Object(out)
            },
        }
    }
}

impl View for JsonValue {
    type V = Json;

    open spec fn view(&self) -> Json {
        json_view(*self)
    }
}

pub proof fn lemma_list_view(s: Seq<JsonValue>)
    ensures
        json_list_view(s).len() == s.len(),
        forall|i: int| 0 <= i < s.len() ==> #[trigger] json_list_view(s)[i] == json_view(s[i]),
    decreases s.len(),
{
    if s.len() > 0 {
        lemma_list_view(s.drop_last());
    }
}

pub proof fn lemma_members_view(s: Seq<(String, JsonValue)>)
    ensures
        json_members_view(s).len() == s.len(),
        forall|i: int|
            0 <= i < s.len() ==> #[trigger] json_members_view(s)[i] == (s[i].0@, json_view(s[i].1)),
    decreases s.len(),
{
    if s.len() > 0 {
        lemma_members_view(s.drop_last());
    }
}

/// Whether the keys of the members are distinct.
pub open spec fn distinct_keys(m: Seq<(Seq<char>, Json)>) -> bool {
    forall|i: int, j: int| 0 <= i < j < m.len() ==> #[trigger] m[i].0 != #[trigger] m[j].0
}

/// Whether the keys of the members are in strictly increasing order (and so distinct).
pub open spec fn sorted_keys(m: Seq<(Seq<char>, Json)>) -> bool {
    forall|i: int, j: int| 0 <= i < j < m.len() ==> key_less(#[trigger] m[i].0, #[trigger] m[j].0)
}

/// Whether every object in a value, at every depth, has its keys in
/// increasing order, so distinct.
pub open spec fn well_formed(j: Json) -> bool
    decreases j,
{
    match j {
        Json::Array(items) => items_well_formed(items),
        Json::Object(m) => sorted_keys(m) && members_well_formed(m),
        _ => true,
    }
}

/// Whether every value of a list is well formed.
pub open spec fn items_well_formed(items: Seq<Json>) -> bool
    decreases items,
{
    if items.len() == 0 {
        true
    } else {
        items_well_formed(items.drop_last()) && well_formed(items.last())
    }
}

/// Whether every value of the members is well formed.
pub open spec fn members_well_formed(m: Seq<(Seq<char>, Json)>) -> bool
    decreases m,
{
    if m.len() == 0 {
        true
    } else {
        members_well_formed(m.drop_last()) && well_formed(m.last().1)
    }
}

proof fn lemma_items_well_formed(items: Seq<Json>)
    ensures
        items_well_formed(items) <==> forall|i: int| 0 <= i < items.len() ==> #[trigger] well_formed(items[i]),
    decreases items.len(),
{
    if items.len() > 0 {
        let p = items.drop_last();
        lemma_items_well_formed(p);
        if items_well_formed(items) {
            assert forall|i: int| 0 <= i < items.len() implies #[trigger] well_formed(items[i]) by {
                if i < items.len() - 1 {
                    assert(well_formed(items.drop_last()[i]));
                }
            }
        }
        if forall|i: int| 0 <= i < items.len() ==> #[trigger] well_formed(items[i]) {
            assert forall|i: int| 0 <= i < p.len() implies #[trigger] well_formed(p[i]) by {
                assert(well_formed(items[i]));
            }
            assert(well_formed(items[items.len() - 1]));
        }
    }
}

proof fn lemma_members_well_formed(m: Seq<(Seq<char>, Json)>)
    ensures
        members_well_formed(m) <==> forall|i: int| 0 <= i < m.len() ==> #[trigger] well_formed(m[i].1),
    decreases m.len(),
{
    if m.len() > 0 {
        let p = m.drop_last();
        lemma_members_well_formed(p);
        if members_well_formed(m) {
            assert forall|i: int| 0 <= i < m.len() implies #[trigger] well_formed(m[i].1) by {
                if i < m.len() - 1 {
                    assert(well_formed(m.drop_last()[i].1));
                }
            }
        }
        if forall|i: int| 0 <= i < m.len() ==> #[trigger] well_formed(m[i].1) {
            assert forall|i: int| 0 <= i < p.len() implies #[trigger] well_formed(p[i].1) by {
                assert(well_formed(m[i].1));
            }
            assert(well_formed(m[m.len() - 1].1));
        }
    }
}

// ---------------------------------------------------------------------------
// The grammar, over the characters `s` of the input, from position `p`.
// ---------------------------------------------------------------------------

pub open spec fn is_json_ws(c: char) -> bool {
    c == ' ' || c == '\n' || c == '\r' || c == '\t'
}

pub open spec fn is_ascii_digit(c: char) -> bool {
    '0' <= c <= '9'
}

/// The first position at or after `p` that holds no whitespace.
pub open spec fn skip_ws(s: Seq<char>, p: int) -> int
    decreases s.len() - p,
{
    if 0 <= p < s.len() && is_json_ws(s[p]) {
        skip_ws(s, p + 1)
    } else {
        p
    }
}

/// The first position at or after `p` that holds no ASCII digit.
pub open spec fn digits_end(s: Seq<char>, p: int) -> int
    decreases s.len() - p,
{
    if 0 <= p < s.len() && is_ascii_digit(s[p]) {
        digits_end(s, p + 1)
    } else {
        p
    }
}

/// `p + 1` when `s[p]` is `c`, else `p`.
pub open spec fn skip_char(s: Seq<char>, p: int, c: char) -> int {
    if 0 <= p < s.len() && s[p] == c {
        p + 1
    } else {
        p
    }
}

/// The position after the character `c` that must stand at `p`.
pub open spec fn expect_at(s: Seq<char>, p: int, c: char) -> Result<int, Fault> {
    if 0 <= p < s.len() {
        if s[p] == c {
            Ok(p + 1)
        } else {
            Err(Fault::Expected(c, Some(s[p])))
        }
    } else {
        Err(Fault::Expected(c, None))
    }
}

/// The position after the word `w` that must stand at `p`.
pub open spec fn expect_word(s: Seq<char>, p: int, w: Seq<char>) -> Result<int, Fault>
    decreases w.len(),
{
    if w.len() == 0 {
        Ok(p)
    } else {
        match expect_at(s, p, w[0]) {
            Ok(q) => expect_word(s, q, w.drop_first()),
            Err(e) => Err(e),
        }
    }
}

/// The value of a hexadecimal digit.
pub open spec fn hex_value(c: char) -> Option<int> {
    if '0' <= c <= '9' {
        Some(c as int - '0' as int)
    } else if 'a' <= c <= 'f' {
        Some(c as int - 'a' as int + 10)
    } else if 'A' <= c <= 'F' {
        Some(c as int - 'A' as int + 10)
    } else {
        None
    }
}

/// The value of the hexadecimal digits `s[p + k .. p + 4]`, read after `acc`.
pub open spec fn hex_digits(s: Seq<char>, p: int, k: int, acc: int) -> Result<int, Fault>
    decreases 4 - k,
{
    if k >= 4 {
        Ok(acc)
    } else if !(0 <= p + k < s.len()) {
        Err(Fault::UnterminatedUnicodeEscape)
    } else {
        match hex_value(s[p + k]) {
            Some(d) => hex_digits(s, p, k + 1, acc * 16 + d),
            None => Err(Fault::InvalidUnicodeEscape),
        }
    }
}

/// The value of the four hexadecimal digits at `p`.
pub open spec fn hex4(s: Seq<char>, p: int) -> Result<int, Fault> {
    hex_digits(s, p, 0, 0)
}

/// Whether `v` is a Unicode scalar value.
pub open spec fn is_scalar(v: int) -> bool {
    (0 <= v < 0xD800) || (0xE000 <= v <= 0x10FFFF)
}

/// The character of a `\u` escape whose digits start at `p`, and the position after it;
/// a high surrogate must be followed by `\u` and a low surrogate.
pub open spec fn unicode_escape(s: Seq<char>, p: int) -> Result<(char, int), Fault> {
    match hex4(s, p) {
        Err(e) => Err(e),
        Ok(code) => if 0xD800 <= code <= 0xDBFF {
            let q = p + 4;
            if 0 <= q && q + 1 < s.len() && s[q] == '\\' && s[q + 1] == 'u' {
                match hex4(s, q + 2) {
                    Err(e) => Err(e),
                    Ok(low) => if 0xDC00 <= low <= 0xDFFF {
                        Ok(((0x10000 + (code - 0xD800) * 1024 + (low - 0xDC00)) as char, q + 6))
                    } else {
                        Err(Fault::InvalidSurrogatePair)
                    },
                }
            } else {
                Err(Fault::MissingLowSurrogate)
            }
        } else if is_scalar(code) {
            Ok((code as char, p + 4))
        } else {
            Err(Fault::InvalidUnicodeEscape)
        },
    }
}

/// The character that a one-letter escape stands for.
pub open spec fn simple_escape(e: char) -> Option<char> {
    if e == '"' {
        Some('"')
    } else if e == '\\' {
        Some('\\')
    } else if e == '/' {
        Some('/')
    } else if e == 'b' {
        Some('\u{8}')
    } else if e == 'f' {
        Some('\u{c}')
    } else if e == 'n' {
        Some('\n')
    } else if e == 'r' {
        Some('\r')
    } else if e == 't' {
        Some('\t')
    } else {
        None
    }
}

/// The rest of a string literal from `p` (after the opening quote), read after `acc`:
/// the characters it denotes and the position after its closing quote.
pub open spec fn string_body(s: Seq<char>, p: int, acc: Seq<char>) -> Result<(Seq<char>, int), Fault>
    decreases s.len() - p,
{
    if !(0 <= p < s.len()) {
        Err(Fault::UnterminatedString)
    } else if s[p] == '"' {
        Ok((acc, p + 1))
    } else if s[p] == '\\' {
        if p + 1 >= s.len() {
            Err(Fault::UnterminatedEscape)
        } else {
            let e = s[p + 1];
            match simple_escape(e) {
                Some(c) => string_body(s, p + 2, acc.push(c)),
                None => if e == 'u' {
                    match unicode_escape(s, p + 2) {
                        Ok(r) => {
                            proof {
                                lemma_unicode_escape(s, p + 2);
                            }
                            string_body(s, r.1, acc.push(r.0))
                        },
                        Err(f) => Err(f),
                    }
                } else {
                    Err(Fault::InvalidEscape(e))
                },
            }
        }
    } else {
        string_body(s, p + 1, acc.push(s[p]))
    }
}

/// A string literal at `p`: the characters it denotes and the position after it.
pub open spec fn string_at(s: Seq<char>, p: int) -> Result<(Seq<char>, int), Fault> {
    match expect_at(s, p, '"') {
        Ok(q) => string_body(s, q, Seq::empty()),
        Err(e) => Err(e),
    }
}

/// The end of the number literal that starts at `p`: an optional `-`, digits, an
/// optional `.` and digits, an optional `e`/`E` with `+`, then `-`, then digits.
pub open spec fn number_end(s: Seq<char>, p: int) -> int {
    let p1 = skip_char(s, p, '-');
    let p2 = digits_end(s, p1);
    let p3 = if 0 <= p2 < s.len() && s[p2] == '.' { digits_end(s, p2 + 1) } else { p2 };
    if 0 <= p3 < s.len() && (s[p3] == 'e' || s[p3] == 'E') {
        digits_end(s, skip_char(s, skip_char(s, p3 + 1, '+'), '-'))
    } else {
        p3
    }
}

/// Whether the literal at `p` is a decimal number: at least one digit before the
/// exponent, and an exponent, if any, with at most one sign and at least one digit.
pub open spec fn number_is_decimal(s: Seq<char>, p: int) -> bool {
    let p1 = skip_char(s, p, '-');
    let p2 = digits_end(s, p1);
    let has_dot = 0 <= p2 < s.len() && s[p2] == '.';
    let p3 = if has_dot { digits_end(s, p2 + 1) } else { p2 };
    let fraction_digits = if has_dot { p3 - (p2 + 1) } else { 0 };
    let has_exp = 0 <= p3 < s.len() && (s[p3] == 'e' || s[p3] == 'E');
    let a = p3 + 1;
    let c = skip_char(s, skip_char(s, a, '+'), '-');
    &&& (p2 - p1) + fraction_digits > 0
    &&& has_exp ==> (c - a <= 1 && digits_end(s, c) > c)
}

/// A number at `p`: its literal text and the position after it.
pub open spec fn number_at(s: Seq<char>, p: int) -> Result<(Seq<char>, int), Fault> {
    let text = s.subrange(p, number_end(s, p));
    if number_is_decimal(s, p) {
        Ok((text, number_end(s, p)))
    } else {
        Err(Fault::InvalidNumber(text))
    }
}

/// The index of the first member with key `k`, or -1.
pub open spec fn find_key(m: Seq<(Seq<char>, Json)>, k: Seq<char>) -> int
    decreases m.len(),
{
    if m.len() == 0 {
        -1
    } else {
        let r = find_key(m.drop_last(), k);
        if r >= 0 {
            r
        } else if m.last().0 == k {
            m.len() - 1
        } else {
            -1
        }
    }
}

/// The order of keys: lexicographic by character (code point), as strings
/// compare.
pub open spec fn key_less(a: Seq<char>, b: Seq<char>) -> bool
    decreases a.len(),
{
    if a.len() == 0 {
        b.len() > 0
    } else if b.len() == 0 {
        false
    } else if a[0] != b[0] {
        (a[0] as int) < (b[0] as int)
    } else {
        key_less(a.drop_first(), b.drop_first())
    }
}

/// The position of the first member whose key does not come before `k`.
pub open spec fn insertion_point(m: Seq<(Seq<char>, Json)>, k: Seq<char>) -> int
    decreases m.len(),
{
    if m.len() == 0 {
        0
    } else if !key_less(m[0].0, k) {
        0
    } else {
        1 + insertion_point(m.drop_first(), k)
    }
}

/// Members `m` after setting key `k` to `v`: the value of an existing member is
/// replaced in place, a new key goes where the order of keys puts it.
pub open spec fn put_member(m: Seq<(Seq<char>, Json)>, k: Seq<char>, v: Json) -> Seq<(Seq<char>, Json)> {
    let i = find_key(m, k);
    if i >= 0 {
        m.update(i, (k, v))
    } else {
        m.insert(insertion_point(m, k), (k, v))
    }
}

/// A value after optional whitespace at `p`: the value and the count of characters read.
pub open spec fn value_at(s: Seq<char>, p: int) -> Result<(Json, nat), Fault>
    decreases s.len() - p, 1nat,
{
    let q = skip_ws(s, p);
    proof {
        lemma_skip_ws(s, p);
    }
    if !(0 <= q < s.len()) {
        Err(Fault::UnexpectedEnd)
    } else {
        let c = s[q];
        let r = if c == '{' {
            object_at(s, q)
        } else if c == '[' {
            array_at(s, q)
        } else if c == '"' {
            match string_at(s, q) {
                Ok(t) => Ok((Json::Str(t.0), (t.1 - q) as nat)),
                Err(e) => Err(e),
            }
        } else if c == 't' {
            match expect_word(s, q, seq!['t', 'r', 'u', 'e']) {
                Ok(e) => Ok((Json::Bool(true), (e - q) as nat)),
                Err(f) => Err(f),
            }
        } else if c == 'f' {
            match expect_word(s, q, seq!['f', 'a', 'l', 's', 'e']) {
                Ok(e) => Ok((Json::Bool(false), (e - q) as nat)),
                Err(f) => Err(f),
            }
        } else if c == 'n' {
            match expect_word(s, q, seq!['n', 'u', 'l', 'l']) {
                Ok(e) => Ok((Json::Null, (e - q) as nat)),
                Err(f) => Err(f),
            }
        } else if c == '-' || is_ascii_digit(c) {
            match number_at(s, q) {
                Ok(t) => Ok((Json::Number(t.0), (t.1 - q) as nat)),
                Err(e) => Err(e),
            }
        } else {
            Err(Fault::UnexpectedToken(c))
        };
        match r {
            Ok(t) => Ok((t.0, ((q - p) + t.1) as nat)),
            Err(e) => Err(e),
        }
    }
}

/// An object at `p`.
pub open spec fn object_at(s: Seq<char>, p: int) -> Result<(Json, nat), Fault>
    decreases s.len() - p, 0nat,
{
    match expect_at(s, p, '{') {
        Err(e) => Err(e),
        Ok(p1) => {
            let p2 = skip_ws(s, p1);
            proof {
                lemma_skip_ws(s, p1);
            }
            if 0 <= p2 < s.len() && s[p2] == '}' {
                Ok((Json::Object(Seq::empty()), (p2 + 1 - p) as nat))
            } else {
                match members_at(s, p2, Seq::empty()) {
                    Ok(t) => Ok((t.0, ((p2 - p) + t.1) as nat)),
                    Err(e) => Err(e),
                }
            }
        },
    }
}

/// The members of an object from `p`, after the members `acc`, through the closing brace.
pub open spec fn members_at(s: Seq<char>, p: int, acc: Seq<(Seq<char>, Json)>) -> Result<(Json, nat), Fault>
    decreases s.len() - p, 2nat,
{
    let p1 = skip_ws(s, p);
    proof {
        lemma_skip_ws(s, p);
    }
    match string_at(s, p1) {
        Err(e) => Err(e),
        Ok(k) => {
            proof {
                lemma_string_at(s, p1);
            }
            let p3 = skip_ws(s, k.1);
            proof {
                lemma_skip_ws(s, k.1);
            }
            match expect_at(s, p3, ':') {
                Err(e) => Err(e),
                Ok(p4) => match value_at(s, p4) {
                    Err(e) => Err(e),
                    Ok(v) => {
                        let acc2 = put_member(acc, k.0, v.0);
                        let p5 = p4 + v.1;
                        let p6 = skip_ws(s, p5);
                        proof {
                            lemma_skip_ws(s, p5);
                        }
                        if 0 <= p6 < s.len() && s[p6] == '}' {
                            Ok((Json::Object(acc2), (p6 + 1 - p) as nat))
                        } else {
                            match expect_at(s, p6, ',') {
                                Err(e) => Err(e),
                                Ok(p7) => match members_at(s, p7, acc2) {
                                    Ok(t) => Ok((t.0, ((p7 - p) + t.1) as nat)),
                                    Err(e) => Err(e),
                                },
                            }
                        }
                    },
                },
            }
        },
    }
}

/// An array at `p`.
pub open spec fn array_at(s: Seq<char>, p: int) -> Result<(Json, nat), Fault>
    decreases s.len() - p, 0nat,
{
    match expect_at(s, p, '[') {
        Err(e) => Err(e),
        Ok(p1) => {
            let p2 = skip_ws(s, p1);
            proof {
                lemma_skip_ws(s, p1);
            }
            if 0 <= p2 < s.len() && s[p2] == ']' {
                Ok((Json::Array(Seq::empty()), (p2 + 1 - p) as nat))
            } else {
                match elements_at(s, p2, Seq::empty()) {
                    Ok(t) => Ok((t.0, ((p2 - p) + t.1) as nat)),
                    Err(e) => Err(e),
                }
            }
        },
    }
}

/// The elements of an array from `p`, after the elements `acc`, through the closing bracket.
pub open spec fn elements_at(s: Seq<char>, p: int, acc: Seq<Json>) -> Result<(Json, nat), Fault>
    decreases s.len() - p, 2nat,
{
    match value_at(s, p) {
        Err(e) => Err(e),
        Ok(v) => {
            let acc2 = acc.push(v.0);
            let p1 = p + v.1;
            let p2 = skip_ws(s, p1);
            proof {
                lemma_skip_ws(s, p1);
            }
            if 0 <= p2 < s.len() && s[p2] == ']' {
                Ok((Json::Array(acc2), (p2 + 1 - p) as nat))
            } else {
                match expect_at(s, p2, ',') {
                    Err(e) => Err(e),
                    Ok(p3) => match elements_at(s, p3, acc2) {
                        Ok(t) => Ok((t.0, ((p3 - p) + t.1) as nat)),
                        Err(e) => Err(e),
                    },
                }
            }
        },
    }
}

/// The document that the characters `s` hold: one value with whitespace around it.
pub open spec fn document(s: Seq<char>) -> Result<Json, Fault> {
    match value_at(s, 0) {
        Err(e) => Err(e),
        Ok(v) => if skip_ws(s, v.1 as int) < s.len() {
            Err(Fault::TrailingInput)
        } else {
            Ok(v.0)
        },
    }
}

// ---------------------------------------------------------------------------
// Facts about the grammar.
// ---------------------------------------------------------------------------

pub proof fn lemma_skip_ws(s: Seq<char>, p: int)
    ensures
        skip_ws(s, p) >= p,
        0 <= p <= s.len() ==> skip_ws(s, p) <= s.len(),
        0 <= p ==> forall|i: int| p <= i < skip_ws(s, p) ==> is_json_ws(#[trigger] s[i]),
        0 <= p ==> (0 <= skip_ws(s, p) < s.len() ==> !is_json_ws(s[skip_ws(s, p)])),
    decreases s.len() - p,
{
    if 0 <= p < s.len() && is_json_ws(s[p]) {
        lemma_skip_ws(s, p + 1);
    }
}

pub proof fn lemma_digits_end(s: Seq<char>, p: int)
    ensures
        digits_end(s, p) >= p,
        0 <= p <= s.len() ==> digits_end(s, p) <= s.len(),
        0 <= p ==> forall|i: int| p <= i < digits_end(s, p) ==> is_ascii_digit(#[trigger] s[i]),
        0 <= p ==> (0 <= digits_end(s, p) < s.len() ==> !is_ascii_digit(s[digits_end(s, p)])),
    decreases s.len() - p,
{
    if 0 <= p < s.len() && is_ascii_digit(s[p]) {
        lemma_digits_end(s, p + 1);
    }
}

pub proof fn lemma_hex_digits(s: Seq<char>, p: int, k: int, acc: int)
    requires
        0 <= k <= 4,
        0 <= acc,
        acc < pow16(k),
    ensures
        hex_digits(s, p, k, acc) matches Ok(v) ==> 0 <= v < 0x10000,
        hex_digits(s, p, k, acc) is Ok ==> 0 <= p + 3 < s.len() || k == 4,
    decreases 4 - k,
{
    reveal_with_fuel(pow16, 5);
    if k < 4 && 0 <= p + k < s.len() {
        if let Some(d) = hex_value(s[p + k]) {
            assert(acc * 16 + d < pow16(k + 1)) by (nonlinear_arith)
                requires
                    acc < pow16(k),
                    0 <= d < 16,
                    pow16(k + 1) == pow16(k) * 16,
            ;
            lemma_hex_digits(s, p, k + 1, acc * 16 + d);
        }
    }
}

pub open spec fn pow16(k: int) -> int
    decreases k,
{
    if k <= 0 {
        1
    } else {
        16 * pow16(k - 1)
    }
}

pub proof fn lemma_unicode_escape(s: Seq<char>, p: int)
    ensures
        unicode_escape(s, p) is Ok ==> unicode_escape(s, p)->Ok_0.1 >= p + 4,
        unicode_escape(s, p) is Ok ==> unicode_escape(s, p)->Ok_0.1 <= s.len(),
        hex4(s, p) matches Ok(v) ==> 0 <= v < 0x10000,
        hex4(s, p + 6) matches Ok(v) ==> 0 <= v < 0x10000,
{
    lemma_hex_digits(s, p, 0, 0);
    lemma_hex_digits(s, p + 6, 0, 0);
}

pub proof fn lemma_string_body(s: Seq<char>, p: int, acc: Seq<char>)
    ensures
        string_body(s, p, acc) matches Ok(r) ==> p < r.1 <= s.len(),
    decreases s.len() - p,
{
    if 0 <= p < s.len() && s[p] != '"' {
        if s[p] == '\\' {
            if p + 1 < s.len() {
                let e = s[p + 1];
                match simple_escape(e) {
                    Some(c) => lemma_string_body(s, p + 2, acc.push(c)),
                    None => if e == 'u' {
                        lemma_unicode_escape(s, p + 2);
                        if let Ok(r) = unicode_escape(s, p + 2) {
                            lemma_string_body(s, r.1, acc.push(r.0));
                        }
                    },
                }
            }
        } else {
            lemma_string_body(s, p + 1, acc.push(s[p]));
        }
    }
}

pub proof fn lemma_expect_word(s: Seq<char>, p: int, w: Seq<char>)
    ensures
        expect_word(s, p, w) matches Ok(q) ==> q == p + w.len() && (0 <= p ==> q <= s.len() || w.len() == 0),
    decreases w.len(),
{
    if w.len() > 0 {
        if let Ok(q) = expect_at(s, p, w[0]) {
            lemma_expect_word(s, q, w.drop_first());
        }
    }
}

pub proof fn lemma_number_end(s: Seq<char>, p: int)
    requires
        0 <= p <= s.len(),
    ensures
        p <= number_end(s, p) <= s.len(),
{
    let p1 = skip_char(s, p, '-');
    lemma_digits_end(s, p1);
    let p2 = digits_end(s, p1);
    if 0 <= p2 < s.len() && s[p2] == '.' {
        lemma_digits_end(s, p2 + 1);
    }
    let p3 = if 0 <= p2 < s.len() && s[p2] == '.' { digits_end(s, p2 + 1) } else { p2 };
    if 0 <= p3 < s.len() && (s[p3] == 'e' || s[p3] == 'E') {
        lemma_digits_end(s, skip_char(s, skip_char(s, p3 + 1, '+'), '-'));
    }
}

pub proof fn lemma_string_at(s: Seq<char>, p: int)
    ensures
        string_at(s, p) matches Ok(r) ==> p < r.1 <= s.len(),
{
    if 0 <= p < s.len() && s[p] == '"' {
        lemma_string_body(s, p + 1, Seq::empty());
    }
}

} // verus!

verus! {

// ---------------------------------------------------------------------------
// The parser.
// ---------------------------------------------------------------------------

/// A character from a Unicode scalar value (`char::from_u32`).
#[verifier::external_body]
fn char_from_u32(v: u32) -> (r: Option<char>)
    ensures
        is_scalar(v as int) ==> r == Some(v as char),
        !is_scalar(v as int) ==> r is None,
{
    char::from_u32(v)
}

/// The value of a hexadecimal digit (`char::to_digit(16)`).
fn hex_digit(c: char) -> (r: Option<u32>)
    ensures
        r is Some <==> hex_value(c) is Some,
        r matches Some(d) ==> d == hex_value(c)->0,
{
    if '0' <= c && c <= '9' {
        Some((c as u32) - ('0' as u32))
    } else if 'a' <= c && c <= 'f' {
        Some((c as u32) - ('a' as u32) + 10)
    } else if 'A' <= c && c <= 'F' {
        Some((c as u32) - ('A' as u32) + 10)
    } else {
        None
    }
}

/// Whether key `a` comes before key `b`.
fn key_before(a: &str, b: &str) -> (r: bool)
    ensures
        r == key_less(a@, b@),
{
    let x = chars_of(a);
    let y = chars_of(b);
    let mut i: usize = 0;
    assert(a@.skip(0) =~= a@ && b@.skip(0) =~= b@);
    while i < x.len() && i < y.len() && x[i] == y[i]
        invariant
            x@ == a@,
            y@ == b@,
            i <= x@.len(),
            i <= y@.len(),
            key_less(a@, b@) == key_less(a@.skip(i as int), b@.skip(i as int)),
        decreases x@.len() - i,
    {
        assert(a@.skip(i as int).drop_first() =~= a@.skip(i + 1));
        assert(b@.skip(i as int).drop_first() =~= b@.skip(i + 1));
        i += 1;
    }
    proof {
        if i < x@.len() {
            assert(a@.skip(i as int)[0] == x@[i as int]);
        }
        if i < y@.len() {
            assert(b@.skip(i as int)[0] == y@[i as int]);
        }
    }
    if i == x.len() {
        assert(a@.skip(i as int).len() == 0);
        i < y.len()
    } else if i == y.len() {
        assert(b@.skip(i as int).len() == 0);
        false
    } else {
        let c = x[i];
        let d = y[i];
        assert(c != d);
        c < d
    }
}

/// Sets `key` to `value` in `members`, in place when the key is present.
fn put(members: &mut Vec<(String, JsonValue)>, key: String, value: JsonValue)
    ensures
        json_members_view(final(members)@) == put_member(
            json_members_view(old(members)@),
            key@,
            json_view(value),
        ),
{
    let ghost m = json_members_view(members@);
    proof {
        lemma_members_view(members@);
    }
    let mut i: usize = 0;
    while i < members.len()
        invariant
            m == json_members_view(members@),
            members@ == old(members)@,
            m.len() == members@.len(),
            i <= members@.len(),
            forall|j: int| 0 <= j < i ==> m[j].0 != key@,
            forall|j: int| 0 <= j < members@.len() ==> #[trigger] m[j] == (members@[j].0@, json_view(members@[j].1)),
        decreases members@.len() - i,
    {
        if members[i].0 == key {
            proof {
                assert(m[i as int] == (members@[i as int].0@, json_view(members@[i as int].1)));
                lemma_find_key(m, key@, i as int);
            }
            let ghost old_members = members@;
            members.set(i, (key, value));
            proof {
                lemma_members_view(members@);
                assert(json_members_view(members@) =~= m.update(i as int, (key@, json_view(value))));
            }
            return;
        }
        i += 1;
    }
    proof {
        lemma_find_key_absent(m, key@);
    }
    let mut p: usize = 0;
    while p < members.len() && key_before(members[p].0.as_str(), key.as_str())
        invariant
            m == json_members_view(members@),
            members@ == old(members)@,
            m.len() == members@.len(),
            p <= members@.len(),
            forall|j: int| 0 <= j < p ==> key_less(#[trigger] m[j].0, key@),
            forall|j: int| 0 <= j < members@.len() ==> #[trigger] m[j] == (members@[j].0@, json_view(members@[j].1)),
        decreases members@.len() - p,
    {
        assert(m[p as int].0 == members@[p as int].0@);
        p += 1;
    }
    proof {
        if p < members@.len() {
            assert(m[p as int].0 == members@[p as int].0@);
        }
        lemma_insertion_point(m, key@, p as int);
    }
    let ghost entry = (key@, json_view(value));
    members.insert(p, (key, value));
    proof {
        lemma_members_view(members@);
        assert(json_members_view(members@) =~= m.insert(p as int, entry));
    }
}

/// `find_key` gives the first index whose key is `k`.
proof fn lemma_find_key(m: Seq<(Seq<char>, Json)>, k: Seq<char>, i: int)
    requires
        0 <= i < m.len(),
        m[i].0 == k,
        forall|j: int| 0 <= j < i ==> m[j].0 != k,
    ensures
        find_key(m, k) == i,
    decreases m.len(),
{
    if i < m.len() - 1 {
        lemma_find_key(m.drop_last(), k, i);
    } else {
        lemma_find_key_absent(m.drop_last(), k);
    }
}

/// `find_key` is -1 when no key is `k`.
proof fn lemma_find_key_absent(m: Seq<(Seq<char>, Json)>, k: Seq<char>)
    requires
        forall|j: int| 0 <= j < m.len() ==> m[j].0 != k,
    ensures
        find_key(m, k) == -1,
    decreases m.len(),
{
    if m.len() > 0 {
        lemma_find_key_absent(m.drop_last(), k);
    }
}

proof fn lemma_find_key_result(m: Seq<(Seq<char>, Json)>, k: Seq<char>)
    ensures
        -1 <= find_key(m, k) < m.len(),
        find_key(m, k) >= 0 ==> m[find_key(m, k)].0 == k,
        find_key(m, k) < 0 ==> forall|j: int| 0 <= j < m.len() ==> m[j].0 != k,
    decreases m.len(),
{
    if m.len() > 0 {
        lemma_find_key_result(m.drop_last(), k);
        assert forall|j: int| 0 <= j < m.len() - 1 implies m[j] == m.drop_last()[j] by {}
    }
}

pub proof fn lemma_key_less_irreflexive(a: Seq<char>)
    ensures
        !key_less(a, a),
    decreases a.len(),
{
    if a.len() > 0 {
        lemma_key_less_irreflexive(a.drop_first());
    }
}

pub proof fn lemma_key_less_transitive(a: Seq<char>, b: Seq<char>, c: Seq<char>)
    requires
        key_less(a, b),
        key_less(b, c),
    ensures
        key_less(a, c),
    decreases a.len(),
{
    if a.len() > 0 && b.len() > 0 && c.len() > 0 && a[0] == b[0] && b[0] == c[0] {
        lemma_key_less_transitive(a.drop_first(), b.drop_first(), c.drop_first());
    }
}

pub proof fn lemma_key_less_total(a: Seq<char>, b: Seq<char>)
    requires
        a != b,
    ensures
        key_less(a, b) || key_less(b, a),
    decreases a.len(),
{
    if a.len() > 0 && b.len() > 0 {
        if a[0] == b[0] {
            if a.drop_first() == b.drop_first() {
                assert(a =~= seq![a[0]] + a.drop_first());
                assert(b =~= seq![b[0]] + b.drop_first());
            }
            lemma_key_less_total(a.drop_first(), b.drop_first());
        } else {
            assert((a[0] as int) != (b[0] as int));
        }
    } else if a.len() == 0 && b.len() == 0 {
        assert(a =~= b);
    }
}

/// Sorted keys are distinct.
pub proof fn lemma_sorted_distinct(m: Seq<(Seq<char>, Json)>)
    requires
        sorted_keys(m),
    ensures
        distinct_keys(m),
{
    assert forall|i: int, j: int| 0 <= i < j < m.len() implies #[trigger] m[i].0 != #[trigger] m[j].0 by {
        assert(key_less(m[i].0, m[j].0));
        lemma_key_less_irreflexive(m[i].0);
    }
}

/// The insertion point is the first position whose key does not come before `k`.
proof fn lemma_insertion_point(m: Seq<(Seq<char>, Json)>, k: Seq<char>, i: int)
    requires
        0 <= i <= m.len(),
        forall|j: int| 0 <= j < i ==> key_less(#[trigger] m[j].0, k),
        i < m.len() ==> !key_less(m[i].0, k),
    ensures
        insertion_point(m, k) == i,
    decreases i,
{
    if i > 0 {
        assert(key_less(m[0].0, k));
        let t = m.drop_first();
        assert forall|j: int| 0 <= j < i - 1 implies key_less(#[trigger] t[j].0, k) by {
            assert(t[j] == m[j + 1]);
        }
        if i < m.len() {
            assert(t[i - 1] == m[i]);
        }
        lemma_insertion_point(t, k, i - 1);
    }
}

/// In sorted members, the keys before the insertion point come before `k`
/// and the others do not.
proof fn lemma_insertion_point_splits(m: Seq<(Seq<char>, Json)>, k: Seq<char>)
    requires
        sorted_keys(m),
    ensures
        0 <= insertion_point(m, k) <= m.len(),
        forall|j: int| 0 <= j < insertion_point(m, k) ==> key_less(#[trigger] m[j].0, k),
        forall|j: int| insertion_point(m, k) <= j < m.len() ==> !key_less(#[trigger] m[j].0, k),
    decreases m.len(),
{
    if m.len() > 0 {
        let t = m.drop_first();
        assert forall|i: int, j: int| 0 <= i < j < t.len() implies key_less(#[trigger] t[i].0, #[trigger] t[j].0) by {
            assert(t[i] == m[i + 1] && t[j] == m[j + 1]);
        }
        lemma_insertion_point_splits(t, k);
        let p = insertion_point(m, k);
        if !key_less(m[0].0, k) {
            assert forall|j: int| 0 <= j < m.len() implies !key_less(#[trigger] m[j].0, k) by {
                if j > 0 && key_less(m[j].0, k) {
                    assert(key_less(m[0].0, m[j].0));
                    lemma_key_less_transitive(m[0].0, m[j].0, k);
                }
            }
        } else {
            assert forall|j: int| 0 <= j < p implies key_less(#[trigger] m[j].0, k) by {
                if j > 0 {
                    assert(m[j] == t[j - 1]);
                }
            }
            assert forall|j: int| p <= j < m.len() implies !key_less(#[trigger] m[j].0, k) by {
                assert(m[j] == t[j - 1]);
            }
        }
    }
}

/// Putting a well-formed value into members with sorted keys and
/// well-formed values keeps them so.
proof fn lemma_put_well_formed(m: Seq<(Seq<char>, Json)>, k: Seq<char>, v: Json)
    requires
        sorted_keys(m),
        forall|i: int| 0 <= i < m.len() ==> #[trigger] well_formed(m[i].1),
        well_formed(v),
    ensures
        sorted_keys(put_member(m, k, v)),
        forall|i: int|
            0 <= i < put_member(m, k, v).len() ==> #[trigger] well_formed(put_member(m, k, v)[i].1),
{
    lemma_find_key_result(m, k);
    let r = put_member(m, k, v);
    if find_key(m, k) >= 0 {
        assert forall|i: int, j: int| 0 <= i < j < r.len() implies key_less(#[trigger] r[i].0, #[trigger] r[j].0) by {
            assert(r[i].0 == m[i].0);
            assert(r[j].0 == m[j].0);
        }
    } else {
        lemma_insertion_point_splits(m, k);
        let p = insertion_point(m, k);
        assert forall|j: int| p <= j < m.len() implies key_less(k, #[trigger] m[j].0) by {
            assert(m[j].0 != k);
            lemma_key_less_total(m[j].0, k);
        }
        assert forall|i: int, j: int| 0 <= i < j < r.len() implies key_less(#[trigger] r[i].0, #[trigger] r[j].0) by {
            if j < p {
                assert(r[i] == m[i] && r[j] == m[j]);
            } else if j == p {
                assert(r[i] == m[i] && r[j].0 == k);
            } else if i < p {
                assert(r[i] == m[i] && r[j] == m[j - 1]);
                assert(key_less(m[i].0, k));
                assert(key_less(k, m[j - 1].0));
                lemma_key_less_transitive(m[i].0, k, m[j - 1].0);
            } else if i == p {
                assert(r[i].0 == k && r[j] == m[j - 1]);
            } else {
                assert(r[i] == m[i - 1] && r[j] == m[j - 1]);
            }
        }
        assert forall|i: int| 0 <= i < r.len() implies #[trigger] well_formed(r[i].1) by {
            if i < p {
                assert(r[i] == m[i]);
            } else if i > p {
                assert(r[i] == m[i - 1]);
            }
        }
    }
}

struct Parser {
    input: Vec<char>,
    pos: usize,
}

impl Parser {
    fn is_eof(&self) -> (r: bool)
        ensures
            r == (self.pos >= self.input@.len()),
    {
        self.pos >= self.input.len()
    }

    fn peek_char(&self) -> (r: Option<char>)
        ensures
            r == (if self.pos < self.input@.len() {
                Some(self.input@[self.pos as int])
            } else {
                None
            }),
    {
        if self.pos < self.input.len() {
            Some(self.input[self.pos])
        } else {
            None
        }
    }

    fn next_char(&mut self) -> (r: Option<char>)
        requires
            old(self).pos <= old(self).input@.len(),
        ensures
            final(self).input == old(self).input,
            final(self).pos <= final(self).input@.len(),
            r == (if old(self).pos < old(self).input@.len() {
                Some(old(self).input@[old(self).pos as int])
            } else {
                None
            }),
            final(self).pos == (if r is Some { old(self).pos + 1 } else { old(self).pos as int }),
    {
        if self.pos < self.input.len() {
            let ch = self.input[self.pos];
            self.pos += 1;
            Some(ch)
        } else {
            None
        }
    }

    fn skip_ws(&mut self)
        requires
            old(self).pos <= old(self).input@.len(),
        ensures
            final(self).input == old(self).input,
            final(self).pos == skip_ws(old(self).input@, old(self).pos as int),
            old(self).pos <= final(self).pos <= final(self).input@.len(),
    {
        proof {
            lemma_skip_ws(self.input@, self.pos as int);
        }
        loop
            invariant
                self.input == old(self).input,
                old(self).pos <= self.pos <= self.input@.len(),
                skip_ws(self.input@, self.pos as int) == skip_ws(old(self).input@, old(self).pos as int),
            decreases self.input@.len() - self.pos,
        {
            match self.peek_char() {
                Some(c) => {
                    if c == ' ' || c == '\n' || c == '\r' || c == '\t' {
                        let _ = self.next_char();
                    } else {
                        return;
                    }
                },
                None => {
                    return;
                },
            }
        }
    }

    fn consume(&mut self, expected: char) -> (r: bool)
        requires
            old(self).pos <= old(self).input@.len(),
        ensures
            final(self).input == old(self).input,
            final(self).pos == skip_char(old(self).input@, old(self).pos as int, expected),
            final(self).pos <= final(self).input@.len(),
            r == (old(self).pos < old(self).input@.len() && old(self).input@[old(self).pos as int]
                == expected),
    {
        if self.peek_char() == Some(expected) {
            let _ = self.next_char();
            true
        } else {
            false
        }
    }

    fn consume_digits(&mut self)
        requires
            old(self).pos <= old(self).input@.len(),
        ensures
            final(self).input == old(self).input,
            final(self).pos == digits_end(old(self).input@, old(self).pos as int),
            old(self).pos <= final(self).pos <= final(self).input@.len(),
    {
        proof {
            lemma_digits_end(self.input@, self.pos as int);
        }
        loop
            invariant
                self.input == old(self).input,
                old(self).pos <= self.pos <= self.input@.len(),
                digits_end(self.input@, self.pos as int) == digits_end(
                    old(self).input@,
                    old(self).pos as int,
                ),
            decreases self.input@.len() - self.pos,
        {
            match self.peek_char() {
                Some(c) => {
                    if '0' <= c && c <= '9' {
                        let _ = self.next_char();
                    } else {
                        return;
                    }
                },
                None => {
                    return;
                },
            }
        }
    }

    fn expect(&mut self, expected: char) -> (r: Result<(), Error>)
        requires
            old(self).pos <= old(self).input@.len(),
        ensures
            final(self).input == old(self).input,
            final(self).pos <= final(self).input@.len(),
            match expect_at(old(self).input@, old(self).pos as int, expected) {
                Ok(q) => r is Ok && final(self).pos == q,
                Err(e) => r matches Err(x) && x@ == e,
            },
    {
        match self.next_char() {
            Some(ch) => {
                if ch == expected {
                    Ok(())
                } else {
                    Err(Error::Expected(expected, Some(ch)))
                }
            },
            None => Err(Error::Expected(expected, None)),
        }
    }

    fn expect_str(&mut self, expected: &str) -> (r: Result<(), Error>)
        requires
            old(self).pos <= old(self).input@.len(),
        ensures
            final(self).input == old(self).input,
            final(self).pos <= final(self).input@.len(),
            match expect_word(old(self).input@, old(self).pos as int, expected@) {
                Ok(q) => r is Ok && final(self).pos == q,
                Err(e) => r matches Err(x) && x@ == e,
            },
    {
        let word = chars_of(expected);
        let mut i: usize = 0;
        assert(word@.skip(0) =~= word@);
        while i < word.len()
            invariant
                word@ == expected@,
                i <= word@.len(),
                self.input == old(self).input,
                self.pos <= self.input@.len(),
                expect_word(self.input@, self.pos as int, word@.skip(i as int)) == expect_word(
                    old(self).input@,
                    old(self).pos as int,
                    expected@,
                ),
            decreases word@.len() - i,
        {
            assert(word@.skip(i as int).drop_first() =~= word@.skip(i + 1));
            match self.expect(word[i]) {
                Ok(()) => {},
                Err(e) => {
                    return Err(e);
                },
            }
            i += 1;
        }
        assert(word@.skip(i as int) =~= Seq::<char>::empty());
        Ok(())
    }

    fn parse_hex4(&mut self) -> (r: Result<u16, Error>)
        requires
            old(self).pos <= old(self).input@.len(),
        ensures
            final(self).input == old(self).input,
            final(self).pos <= final(self).input@.len(),
            match hex4(old(self).input@, old(self).pos as int) {
                Ok(v) => r matches Ok(x) && x == v && final(self).pos == old(self).pos + 4,
                Err(e) => r matches Err(x) && x@ == e,
            },
    {
        let ghost s = self.input@;
        let ghost p0 = self.pos as int;
        let mut value: u16 = 0;
        let mut k: usize = 0;
        while k < 4
            invariant
                self.input == old(self).input,
                s == old(self).input@,
                self.pos <= s.len(),
                k <= 4,
                p0 == old(self).pos,
                self.pos == p0 + k,
                0 <= value < pow16(k as int),
                hex_digits(s, p0, k as int, value as int) == hex4(s, p0),
            decreases 4 - k,
        {
            reveal_with_fuel(pow16, 5);
            let ch = match self.next_char() {
                Some(c) => c,
                None => {
                    return Err(Error::UnterminatedUnicodeEscape);
                },
            };
            let d = match hex_digit(ch) {
                Some(d) => d,
                None => {
                    return Err(Error::InvalidUnicodeEscape);
                },
            };
            assert(value * 16 + d < pow16(k + 1)) by (nonlinear_arith)
                requires
                    value < pow16(k as int),
                    0 <= d < 16,
                    pow16(k + 1) == pow16(k as int) * 16,
                    pow16(k + 1) <= 65536,
            ;
            value = value * 16 + d as u16;
            k += 1;
        }
        Ok(value)
    }

    /// The character of a `\u` escape whose digits start at the current position.
    fn parse_unicode_escape(&mut self) -> (r: Result<char, Error>)
        requires
            old(self).pos <= old(self).input@.len(),
        ensures
            final(self).input == old(self).input,
            final(self).pos <= final(self).input@.len(),
            match unicode_escape(old(self).input@, old(self).pos as int) {
                Ok(t) => r matches Ok(c) && c == t.0 && final(self).pos == t.1,
                Err(e) => r matches Err(x) && x@ == e,
            },
    {
        proof {
            lemma_unicode_escape(self.input@, self.pos as int);
        }
        let code = match self.parse_hex4() {
            Ok(c) => c,
            Err(e) => {
                return Err(e);
            },
        };
        if 0xD800 <= code && code <= 0xDBFF {
            if !(self.consume('\\') && self.consume('u')) {
                return Err(Error::MissingLowSurrogate);
            }
            let low = match self.parse_hex4() {
                Ok(c) => c,
                Err(e) => {
                    return Err(e);
                },
            };
            if !(0xDC00 <= low && low <= 0xDFFF) {
                return Err(Error::InvalidSurrogatePair);
            }
            let high = (code - 0xD800) as u32;
            let low = (low - 0xDC00) as u32;
            let scalar = 0x10000 + high * 1024 + low;
            match char_from_u32(scalar) {
                Some(ch) => Ok(ch),
                None => Err(Error::InvalidUnicodeEscape),
            }
        } else {
            match char_from_u32(code as u32) {
                Some(ch) => Ok(ch),
                None => Err(Error::InvalidUnicodeEscape),
            }
        }
    }

    fn parse_string(&mut self) -> (r: Result<String, Error>)
        requires
            old(self).pos <= old(self).input@.len(),
        ensures
            final(self).input == old(self).input,
            final(self).pos <= final(self).input@.len(),
            match string_at(old(self).input@, old(self).pos as int) {
                Ok(t) => r matches Ok(x) && x@ == t.0 && final(self).pos == t.1,
                Err(e) => r matches Err(x) && x@ == e,
            },
    {
        let ghost s = self.input@;
        let ghost p0 = self.pos as int;
        match self.expect('"') {
            Ok(()) => {},
            Err(e) => {
                return Err(e);
            },
        }
        let mut out = String::new();
        loop
            invariant
                self.input == old(self).input,
                s == old(self).input@,
                self.pos <= s.len(),
                p0 == old(self).pos,
                string_body(s, self.pos as int, out@) == string_at(s, p0),
            decreases s.len() - self.pos,
        {
            let ghost p = self.pos as int;
            let ch = match self.next_char() {
                Some(c) => c,
                None => {
                    return Err(Error::UnterminatedString);
                },
            };
            if ch == '"' {
                return Ok(out);
            } else if ch == '\\' {
                let escaped = match self.next_char() {
                    Some(c) => c,
                    None => {
                        return Err(Error::UnterminatedEscape);
                    },
                };
                if escaped == '"' {
                    push_char(&mut out, '"');
                } else if escaped == '\\' {
                    push_char(&mut out, '\\');
                } else if escaped == '/' {
                    push_char(&mut out, '/');
                } else if escaped == 'b' {
                    push_char(&mut out, '\u{8}');
                } else if escaped == 'f' {
                    push_char(&mut out, '\u{c}');
                } else if escaped == 'n' {
                    push_char(&mut out, '\n');
                } else if escaped == 'r' {
                    push_char(&mut out, '\r');
                } else if escaped == 't' {
                    push_char(&mut out, '\t');
                } else if escaped == 'u' {
                    proof {
                        lemma_unicode_escape(s, p + 2);
                    }
                    match self.parse_unicode_escape() {
                        Ok(c) => push_char(&mut out, c),
                        Err(e) => {
                            return Err(e);
                        },
                    }
                } else {
                    return Err(Error::InvalidEscape(escaped));
                }
            } else {
                push_char(&mut out, ch);
            }
        }
    }

    fn parse_number(&mut self) -> (r: Result<JsonValue, Error>)
        requires
            old(self).pos <= old(self).input@.len(),
        ensures
            final(self).input == old(self).input,
            final(self).pos <= final(self).input@.len(),
            match number_at(old(self).input@, old(self).pos as int) {
                Ok(t) => r matches Ok(v) && v@ == Json::Number(t.0) && final(self).pos == t.1,
                Err(e) => r matches Err(x) && x@ == e,
            },
    {
        let ghost s = self.input@;
        let start = self.pos;
        let _ = self.consume('-');
        let p1 = self.pos;
        self.consume_digits();
        let p2 = self.pos;
        let mut fraction_digits: usize = 0;
        if self.consume('.') {
            let after_dot = self.pos;
            self.consume_digits();
            proof {
                lemma_digits_end(s, after_dot as int);
            }
            fraction_digits = self.pos - after_dot;
        }
        let mut exponent_ok = true;
        proof {
            lemma_digits_end(s, p1 as int);
        }
        match self.peek_char() {
            Some(c) => {
                if c == 'e' || c == 'E' {
                    let _ = self.next_char();
                    let a = self.pos;
                    let _ = self.consume('+');
                    let _ = self.consume('-');
                    let c = self.pos;
                    self.consume_digits();
                    proof {
                        lemma_digits_end(s, c as int);
                    }
                    exponent_ok = c - a <= 1 && self.pos > c;
                }
            },
            None => {},
        }
        let text = string_from_chars(&self.input, start, self.pos);
        if (p2 - p1) + fraction_digits > 0 && exponent_ok {
            Ok(JsonValue::Number(text))
        } else {
            Err(Error::InvalidNumber(text))
        }
    }

    fn parse_true(&mut self) -> (r: Result<JsonValue, Error>)
        requires
            old(self).pos <= old(self).input@.len(),
        ensures
            final(self).input == old(self).input,
            final(self).pos <= final(self).input@.len(),
            match expect_word(old(self).input@, old(self).pos as int, seq!['t', 'r', 'u', 'e']) {
                Ok(q) => r matches Ok(v) && v@ == Json::Bool(true) && final(self).pos == q,
                Err(e) => r matches Err(x) && x@ == e,
            },
    {
        proof {
            reveal_strlit("true");
            assert("true"@ =~= seq!['t', 'r', 'u', 'e']);
        }
        match self.expect_str("true") {
            Ok(()) => Ok(JsonValue::Bool(true)),
            Err(e) => Err(e),
        }
    }

    fn parse_false(&mut self) -> (r: Result<JsonValue, Error>)
        requires
            old(self).pos <= old(self).input@.len(),
        ensures
            final(self).input == old(self).input,
            final(self).pos <= final(self).input@.len(),
            match expect_word(old(self).input@, old(self).pos as int, seq!['f', 'a', 'l', 's', 'e']) {
                Ok(q) => r matches Ok(v) && v@ == Json::Bool(false) && final(self).pos == q,
                Err(e) => r matches Err(x) && x@ == e,
            },
    {
        proof {
            reveal_strlit("false");
            assert("false"@ =~= seq!['f', 'a', 'l', 's', 'e']);
        }
        match self.expect_str("false") {
            Ok(()) => Ok(JsonValue::Bool(false)),
            Err(e) => Err(e),
        }
    }

    fn parse_null(&mut self) -> (r: Result<JsonValue, Error>)
        requires
            old(self).pos <= old(self).input@.len(),
        ensures
            final(self).input == old(self).input,
            final(self).pos <= final(self).input@.len(),
            match expect_word(old(self).input@, old(self).pos as int, seq!['n', 'u', 'l', 'l']) {
                Ok(q) => r matches Ok(v) && v@ == Json::Null && final(self).pos == q,
                Err(e) => r matches Err(x) && x@ == e,
            },
    {
        proof {
            reveal_strlit("null");
            assert("null"@ =~= seq!['n', 'u', 'l', 'l']);
        }
        match self.expect_str("null") {
            Ok(()) => Ok(JsonValue::Null),
            Err(e) => Err(e),
        }
    }

    fn parse_value(&mut self) -> (r: Result<JsonValue, Error>)
        requires
            old(self).pos <= old(self).input@.len(),
        ensures
            r matches Ok(v) ==> well_formed(v@),
            final(self).input == old(self).input,
            final(self).pos <= final(self).input@.len(),
            match value_at(old(self).input@, old(self).pos as int) {
                Ok(t) => r matches Ok(v) && v@ == t.0 && final(self).pos == old(self).pos + t.1,
                Err(e) => r matches Err(x) && x@ == e,
            },
        decreases old(self).input@.len() - old(self).pos, 1nat,
    {
        let ghost s = self.input@;
        let ghost p = self.pos as int;
        self.skip_ws();
        let ghost q = self.pos as int;
        proof {
            lemma_skip_ws(s, p);
        }
        match self.peek_char() {
            Some(c) => {
                if c == '{' {
                    self.parse_object()
                } else if c == '[' {
                    self.parse_array()
                } else if c == '"' {
                    proof {
                        lemma_string_at(s, q);
                    }
                    match self.parse_string() {
                        Ok(t) => Ok(JsonValue::String(t)),
                        Err(e) => Err(e),
                    }
                } else if c == 't' {
                    proof {
                        lemma_expect_word(s, q, seq!['t', 'r', 'u', 'e']);
                    }
                    self.parse_true()
                } else if c == 'f' {
                    proof {
                        lemma_expect_word(s, q, seq!['f', 'a', 'l', 's', 'e']);
                    }
                    self.parse_false()
                } else if c == 'n' {
                    proof {
                        lemma_expect_word(s, q, seq!['n', 'u', 'l', 'l']);
                    }
                    self.parse_null()
                } else if c == '-' || ('0' <= c && c <= '9') {
                    proof {
                        lemma_number_end(s, q);
                    }
                    self.parse_number()
                } else {
                    Err(Error::UnexpectedToken(c))
                }
            },
            None => Err(Error::UnexpectedEnd),
        }
    }

    fn parse_object(&mut self) -> (r: Result<JsonValue, Error>)
        requires
            old(self).pos <= old(self).input@.len(),
        ensures
            r matches Ok(v) ==> well_formed(v@),
            final(self).input == old(self).input,
            final(self).pos <= final(self).input@.len(),
            match object_at(old(self).input@, old(self).pos as int) {
                Ok(t) => r matches Ok(v) && v@ == t.0 && final(self).pos == old(self).pos + t.1,
                Err(e) => r matches Err(x) && x@ == e,
            },
        decreases old(self).input@.len() - old(self).pos, 0nat,
    {
        let ghost s = self.input@;
        let ghost p0 = self.pos as int;
        match self.expect('{') {
            Ok(()) => {},
            Err(e) => {
                return Err(e);
            },
        }
        let mut map: Vec<(String, JsonValue)> = Vec::new();
        self.skip_ws();
        if self.consume('}') {
            return Ok(JsonValue::Object(map));
        }
        assert(json_members_view(map@) =~= Seq::empty());
        loop
            invariant
                self.input == old(self).input,
                s == old(self).input@,
                p0 == old(self).pos,
                p0 < self.pos <= s.len(),
                sorted_keys(json_members_view(map@)),
                forall|i: int|
                    0 <= i < json_members_view(map@).len() ==> #[trigger] well_formed(
                        json_members_view(map@)[i].1,
                    ),
                object_at(s, p0) == match members_at(s, self.pos as int, json_members_view(map@)) {
                    Ok(t) => Ok((t.0, ((self.pos - p0) + t.1) as nat)),
                    Err(e) => Err(e),
                },
            decreases s.len() - self.pos,
        {
            let ghost p = self.pos as int;
            let ghost acc = json_members_view(map@);
            self.skip_ws();
            proof {
                lemma_skip_ws(s, p);
                lemma_string_at(s, self.pos as int);
            }
            let key = match self.parse_string() {
                Ok(k) => k,
                Err(e) => {
                    return Err(e);
                },
            };
            self.skip_ws();
            match self.expect(':') {
                Ok(()) => {},
                Err(e) => {
                    return Err(e);
                },
            }
            let value = match self.parse_value() {
                Ok(v) => v,
                Err(e) => {
                    return Err(e);
                },
            };
            proof {
                lemma_put_well_formed(acc, key@, value@);
            }
            put(&mut map, key, value);
            self.skip_ws();
            if self.consume('}') {
                let obj = JsonValue::Object(map);
                assert(obj@ == Json::Object(json_members_view(map@)));
                proof {
                    lemma_members_well_formed(json_members_view(map@));
                }
                return Ok(obj);
            }
            match self.expect(',') {
                Ok(()) => {},
                Err(e) => {
                    return Err(e);
                },
            }
        }
    }

    fn parse_array(&mut self) -> (r: Result<JsonValue, Error>)
        requires
            old(self).pos <= old(self).input@.len(),
        ensures
            r matches Ok(v) ==> well_formed(v@),
            final(self).input == old(self).input,
            final(self).pos <= final(self).input@.len(),
            match array_at(old(self).input@, old(self).pos as int) {
                Ok(t) => r matches Ok(v) && v@ == t.0 && final(self).pos == old(self).pos + t.1,
                Err(e) => r matches Err(x) && x@ == e,
            },
        decreases old(self).input@.len() - old(self).pos, 0nat,
    {
        let ghost s = self.input@;
        let ghost p0 = self.pos as int;
        match self.expect('[') {
            Ok(()) => {},
            Err(e) => {
                return Err(e);
            },
        }
        let mut items: Vec<JsonValue> = Vec::new();
        self.skip_ws();
        if self.consume(']') {
            return Ok(JsonValue::Array(items));
        }
        assert(json_list_view(items@) =~= Seq::empty());
        loop
            invariant
                self.input == old(self).input,
                s == old(self).input@,
                p0 == old(self).pos,
                p0 < self.pos <= s.len(),
                forall|i: int|
                    0 <= i < json_list_view(items@).len() ==> #[trigger] well_formed(
                        json_list_view(items@)[i],
                    ),
                array_at(s, p0) == match elements_at(s, self.pos as int, json_list_view(items@)) {
                    Ok(t) => Ok((t.0, ((self.pos - p0) + t.1) as nat)),
                    Err(e) => Err(e),
                },
            decreases s.len() - self.pos,
        {
            let ghost p = self.pos as int;
            let value = match self.parse_value() {
                Ok(v) => v,
                Err(e) => {
                    return Err(e);
                },
            };
            let ghost old_items = items@;
            let ghost v = value@;
            items.push(value);
            assert(items@.drop_last() =~= old_items);
            assert(json_list_view(items@) == json_list_view(old_items).push(v));
            assert forall|i: int| 0 <= i < json_list_view(items@).len() implies #[trigger] well_formed(
                json_list_view(items@)[i],
            ) by {
                if i < json_list_view(old_items).len() {
                    assert(json_list_view(items@)[i] == json_list_view(old_items)[i]);
                }
            }
            self.skip_ws();
            if self.consume(']') {
                let arr = JsonValue::Array(items);
                assert(arr@ == Json::Array(json_list_view(items@)));
                proof {
                    lemma_items_well_formed(json_list_view(items@));
                }
                return Ok(arr);
            }
            match self.expect(',') {
                Ok(()) => {},
                Err(e) => {
                    return Err(e);
                },
            }
        }
    }
}

} // verus!

verus! {

/// Parses a JSON document.
pub fn parse(input: &str) -> (r: Result<JsonValue, Error>)
    ensures
        match document(input@) {
            Ok(j) => r matches Ok(v) && v@ == j,
            Err(e) => r matches Err(x) && x@ == e,
        },
        document(input@) matches Ok(j) ==> well_formed(j),
{
    let mut parser = Parser { input: chars_of(input), pos: 0 };
    let value = match parser.parse_value() {
        Ok(v) => v,
        Err(e) => {
            return Err(e);
        },
    };
    parser.skip_ws();
    if !parser.is_eof() {
        return Err(Error::TrailingInput);
    }
    Ok(value)
}

} // verus!

verus! {

impl JsonValue {
    pub fn as_object(&self) -> (r: Option<&Vec<(String, JsonValue)>>)
        ensures
            match self {
                JsonValue::Object(m) => r == Some(m),
                _ => r is None,
            },
    {
        match self {
            JsonValue::Object(map) => Some(map),
            _ => None,
        }
    }

    pub fn as_array(&self) -> (r: Option<&[JsonValue]>)
        ensures
            match self@ {
                Json::Array(items) => r matches Some(a) && json_list_view(a@) == items,
                _ => r is None,
            },
    {
        match self {
            JsonValue::Array(items) => Some(items.as_slice()),
            _ => None,
        }
    }

    pub fn as_str(&self) -> (r: Option<&str>)
        ensures
            match self@.text() {
                Some(t) => r matches Some(x) && x@ == t,
                None => r is None,
            },
    {
        match self {
            JsonValue::String(value) => Some(value.as_str()),
            _ => None,
        }
    }

    /// The integer that a number denotes, when it is one that fits in an `i64`.
    pub fn as_i64(&self) -> (r: Option<i64>)
        ensures
            r == self@.integer(),
    {
        match self {
            JsonValue::Number(text) => {
                let chars = chars_of(text.as_str());
                literal_to_i64(&chars)
            },
            _ => None,
        }
    }

    /// The value of the member with key `key`.
    pub fn object_get<'a>(&'a self, key: &str) -> (r: Option<&'a JsonValue>)
        ensures
            match self@.get(key@) {
                Some(j) => r matches Some(v) && v@ == j,
                None => r is None,
            },
    {
        match self {
            JsonValue::Object(members) => {
                let ghost m = json_members_view(members@);
                proof {
                    lemma_members_view(members@);
                }
                let mut i: usize = 0;
                while i < members.len()
                    invariant
                        m == json_members_view(members@),
                        self@ == Json::Object(m),
                        m.len() == members@.len(),
                        i <= members@.len(),
                        forall|j: int| 0 <= j < i ==> m[j].0 != key@,
                        forall|j: int|
                            0 <= j < members@.len() ==> #[trigger] m[j] == (
                                members@[j].0@,
                                json_view(members@[j].1),
                            ),
                    decreases members@.len() - i,
                {
                    if same_text(members[i].0.as_str(), key) {
                        proof {
                            assert(m[i as int] == (members@[i as int].0@, json_view(members@[i as int].1)));
                            lemma_find_key(m, key@, i as int);
                        }
                        return Some(&members[i].1);
                    }
                    i += 1;
                }
                proof {
                    lemma_find_key_absent(m, key@);
                }
                None
            },
            _ => None,
        }
    }
}

} // verus!
