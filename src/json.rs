//! A JSON document model: the executable [`JsonValue`] and its mathematical
//! view [`Json`].
use crate::text::{chars_of, extend_str, string_from};
use vstd::prelude::*;

verus! {

/// The mathematical form of a JSON value.
pub enum Json {
    Null,
    Bool(bool),
    /// A number, held as its canonical decimal text.
    Number(Seq<char>),
    Str(Seq<char>),
    Array(Seq<Json>),
    /// Members in order; keys are unique in every value this library builds.
    Object(Seq<(Seq<char>, Json)>),
}

/// A JSON value.
#[derive(Debug)]
pub enum JsonValue {
    Null,
    Bool(bool),
    /// A number, held as its canonical decimal text (as `serde_json` prints it).
    Number(String),
    Str(String),
    Array(Vec<JsonValue>),
    Object(Vec<(String, JsonValue)>),
}

pub open spec fn view_items(s: Seq<JsonValue>) -> Seq<Json>
    decreases s,
{
    if s.len() == 0 {
        Seq::empty()
    } else {
        view_items(s.drop_last()).push(view_value(s.last()))
    }
}

pub open spec fn view_members(s: Seq<(String, JsonValue)>) -> Seq<(Seq<char>, Json)>
    decreases s,
{
    if s.len() == 0 {
        Seq::empty()
    } else {
        view_members(s.drop_last()).push((s.last().0@, view_value(s.last().1)))
    }
}

pub open spec fn view_value(v: JsonValue) -> Json
    decreases v,
{
    match v {
        JsonValue::Null => Json::Null,
        JsonValue::Bool(b) => Json::Bool(b),
        JsonValue::Number(n) => Json::Number(n@),
        JsonValue::Str(s) => Json::Str(s@),
        JsonValue::Array(a) => Json::Array(view_items(a@)),
        JsonValue::Object(m) => Json::Object(view_members(m@)),
    }
}

impl View for JsonValue {
    type V = Json;

    open spec fn view(&self) -> Json {
        view_value(*self)
    }
}

pub proof fn lemma_view_items(s: Seq<JsonValue>)
    ensures
        view_items(s).len() == s.len(),
        forall|i: int| 0 <= i < s.len() ==> #[trigger] view_items(s)[i] == view_value(s[i]),
    decreases s.len(),
{
    if s.len() > 0 {
        lemma_view_items(s.drop_last());
    }
}

pub proof fn lemma_view_members(s: Seq<(String, JsonValue)>)
    ensures
        view_members(s).len() == s.len(),
        forall|i: int|
            0 <= i < s.len() ==> #[trigger] view_members(s)[i] == (s[i].0@, view_value(s[i].1)),
    decreases s.len(),
{
    if s.len() > 0 {
        lemma_view_members(s.drop_last());
    }
}

/// The value of the first member of `m` named `key`.
pub open spec fn member(m: Seq<(Seq<char>, Json)>, key: Seq<char>) -> Option<Json>
    decreases m.len(),
{
    if m.len() == 0 {
        None
    } else if m[0].0 == key {
        Some(m[0].1)
    } else {
        member(m.drop_first(), key)
    }
}

/// The value of member `key` when `v` is an object.
pub open spec fn field(v: Json, key: Seq<char>) -> Option<Json> {
    match v {
        Json::Object(m) => member(m, key),
        _ => None,
    }
}

pub open spec fn opt_view(r: Option<JsonValue>) -> Option<Json> {
    match r {
        Some(v) => Some(v@),
        None => None,
    }
}

pub open spec fn opt_ref_view(r: Option<&JsonValue>) -> Option<Json> {
    match r {
        Some(v) => Some(v@),
        None => None,
    }
}

pub open spec fn hex_digit(n: u32) -> char {
    seq!['0', '1', '2', '3', '4', '5', '6', '7', '8', '9', 'a', 'b', 'c', 'd', 'e', 'f'][n as int]
}

/// How one character stands inside a JSON string literal.
pub open spec fn escape_char(c: char) -> Seq<char> {
    if c == '"' {
        seq!['\\', '"']
    } else if c == '\\' {
        seq!['\\', '\\']
    } else if c == '\u{08}' {
        seq!['\\', 'b']
    } else if c == '\t' {
        seq!['\\', 't']
    } else if c == '\n' {
        seq!['\\', 'n']
    } else if c == '\u{0c}' {
        seq!['\\', 'f']
    } else if c == '\r' {
        seq!['\\', 'r']
    } else if (c as u32) < 0x20 {
        seq!['\\', 'u', '0', '0', hex_digit((c as u32) / 16), hex_digit((c as u32) % 16)]
    } else {
        seq![c]
    }
}

pub open spec fn escaped(s: Seq<char>) -> Seq<char>
    decreases s.len(),
{
    if s.len() == 0 {
        Seq::empty()
    } else {
        escaped(s.drop_last()) + escape_char(s.last())
    }
}

/// `s` as a JSON string literal.
pub open spec fn quoted(s: Seq<char>) -> Seq<char> {
    seq!['"'] + escaped(s) + seq!['"']
}

/// Relies on `serde_json::to_string` on a `str`: the text in double quotes,
/// with `"`, `\\` and the control characters below U+0020 escaped (the short
/// forms `\b \t \n \f \r`, else `\u00` and two lower-case hex digits).
#[verifier::external_body]
fn quote(s: &str) -> (r: String)
    ensures
        r@ == quoted(s@),
{
    serde_json::to_string(s).unwrap_or_default()
}

/// The compact JSON text of a value: no white space between tokens.
pub open spec fn compact(v: Json) -> Seq<char>
    decreases v,
{
    match v {
        Json::Null => seq!['n', 'u', 'l', 'l'],
        Json::Bool(b) => if b {
            seq!['t', 'r', 'u', 'e']
        } else {
            seq!['f', 'a', 'l', 's', 'e']
        },
        Json::Number(t) => t,
        Json::Str(s) => quoted(s),
        Json::Array(a) => seq!['['] + compact_items(a) + seq![']'],
        Json::Object(m) => seq!['{'] + compact_members(m) + seq!['}'],
    }
}

pub open spec fn compact_items(a: Seq<Json>) -> Seq<char>
    decreases a,
{
    if a.len() == 0 {
        Seq::empty()
    } else if a.len() == 1 {
        compact(a[0])
    } else {
        compact_items(a.drop_last()) + seq![','] + compact(a.last())
    }
}

pub open spec fn compact_members(m: Seq<(Seq<char>, Json)>) -> Seq<char>
    decreases m,
{
    if m.len() == 0 {
        Seq::empty()
    } else if m.len() == 1 {
        quoted(m[0].0) + seq![':'] + compact(m[0].1)
    } else {
        compact_members(m.drop_last()) + seq![','] + quoted(m.last().0) + seq![':'] + compact(
            m.last().1,
        )
    }
}

/// What `serde_json::from_str` makes of a text: the one JSON value it holds,
/// carried over node for node, or nothing.
pub uninterp spec fn parsed_json(s: Seq<char>) -> Option<Json>;

#[verifier::external_type_specification]
#[verifier::external_body]
pub struct ExValue(serde_json::Value);

/// Carries a `serde_json::Value` over into [`JsonValue`], node for node; a
/// number keeps the text its `Display` prints.
#[verifier::external_body]
fn from_serde(v: serde_json::Value) -> JsonValue {
    match v {
        serde_json::Value::Null => JsonValue::Null,
        serde_json::Value::Bool(b) => JsonValue::Bool(b),
        serde_json::Value::Number(n) => JsonValue::Number(n.to_string()),
        serde_json::Value::String(s) => JsonValue::Str(s),
        serde_json::Value::Array(a) => JsonValue::Array(a.into_iter().map(from_serde).collect()),
        serde_json::Value::Object(m) => JsonValue::Object(
            m.into_iter().map(|(k, x)| (k, from_serde(x))).collect(),
        ),
    }
}

/// No two members have the same name.
pub open spec fn keys_unique(m: Seq<(Seq<char>, Json)>) -> bool {
    forall|i: int, j: int| 0 <= i < j < m.len() ==> #[trigger] m[i].0 != #[trigger] m[j].0
}

/// Every object in `v`, at any depth, has unique member names, as in a
/// JSON map.
pub open spec fn well_keyed(v: Json) -> bool
    decreases v,
{
    match v {
        Json::Array(a) => items_well_keyed(a),
        Json::Object(m) => keys_unique(m) && members_well_keyed(m),
        _ => true,
    }
}

pub open spec fn items_well_keyed(a: Seq<Json>) -> bool
    decreases a,
{
    a.len() == 0 || (items_well_keyed(a.drop_last()) && well_keyed(a.last()))
}

pub open spec fn members_well_keyed(m: Seq<(Seq<char>, Json)>) -> bool
    decreases m,
{
    m.len() == 0 || (members_well_keyed(m.drop_last()) && well_keyed(m.last().1))
}

pub proof fn lemma_members_well_keyed(m: Seq<(Seq<char>, Json)>)
    requires
        members_well_keyed(m),
    ensures
        forall|i: int| 0 <= i < m.len() ==> well_keyed(#[trigger] m[i].1),
    decreases m.len(),
{
    if m.len() > 0 {
        lemma_members_well_keyed(m.drop_last());
        assert forall|i: int| 0 <= i < m.len() implies well_keyed(#[trigger] m[i].1) by {
            if i < m.len() - 1 {
                assert(m[i] == m.drop_last()[i]);
            }
        }
    }
}

/// The value of a member is one of the members' values.
pub proof fn lemma_member_in(m: Seq<(Seq<char>, Json)>, key: Seq<char>)
    ensures
        member(m, key) matches Some(x) ==> exists|i: int| 0 <= i < m.len() && #[trigger] m[i].1 == x,
    decreases m.len(),
{
    if m.len() > 0 && m[0].0 != key {
        lemma_member_in(m.drop_first(), key);
        if let Some(x) = member(m.drop_first(), key) {
            let i = choose|i: int| 0 <= i < m.drop_first().len() && #[trigger] m.drop_first()[i].1 == x;
            assert(m[i + 1].1 == x);
        }
    } else if m.len() > 0 {
        assert(m[0].1 == member(m, key)->0);
    }
}

/// A member of a well-keyed object is itself well keyed.
pub proof fn lemma_field_well_keyed(v: Json, key: Seq<char>)
    requires
        well_keyed(v),
    ensures
        field(v, key) matches Some(x) ==> well_keyed(x),
{
    if let Json::Object(m) = v {
        lemma_members_well_keyed(m);
        lemma_member_in(m, key);
    }
}

/// Relies on `serde_json::from_str` into a `serde_json::Value`: strict JSON
/// parsing of the whole text. Its objects are `serde_json::Map`s, so no
/// object holds two members of one name.
#[verifier::external_body]
pub(crate) fn parse_json(s: &str) -> (r: Option<JsonValue>)
    ensures
        opt_view(r) == parsed_json(s@),
        r matches Some(x) ==> well_keyed(x@),
{
    serde_json::from_str::<serde_json::Value>(s).ok().map(from_serde)
}

pub open spec fn all_digits(t: Seq<char>) -> bool {
    forall|i: int| 0 <= i < t.len() ==> #[trigger] crate::text::is_ascii_digit(t[i])
}

/// The number that a run of decimal digits spells.
pub open spec fn digits_value(t: Seq<char>) -> nat
    decreases t.len(),
{
    if t.len() == 0 {
        0
    } else {
        digits_value(t.drop_last()) * 10 + ((t.last() as u32) - 48) as nat
    }
}

/// The unsigned integer a number's text denotes, when it is one that fits in
/// 64 bits.
pub open spec fn number_u64(t: Seq<char>) -> Option<u64> {
    if t.len() > 0 && all_digits(t) && digits_value(t) <= u64::MAX {
        Some(digits_value(t) as u64)
    } else {
        None
    }
}

proof fn lemma_digits_grow(t: Seq<char>, i: int, j: int)
    requires
        0 <= i <= j <= t.len(),
        all_digits(t),
    ensures
        digits_value(t.subrange(0, i)) <= digits_value(t.subrange(0, j)),
    decreases j - i,
{
    if i < j {
        lemma_digits_grow(t, i, j - 1);
        assert(t.subrange(0, j).drop_last() =~= t.subrange(0, j - 1));
    }
}

/// The value of a decimal digit string, when it fits in a `u64`.
pub fn digits_u64(t: &Vec<char>) -> (r: Option<u64>)
    ensures
        r == number_u64(t@),
{
    if t.len() == 0 {
        return None;
    }
    let mut v: u64 = 0;
    let mut i: usize = 0;
    while i < t.len()
        invariant
            i <= t.len(),
            all_digits(t@.subrange(0, i as int)),
            v == digits_value(t@.subrange(0, i as int)),
        decreases t.len() - i,
    {
        let c = t[i];
        if !('0' <= c && c <= '9') {
            assert(!crate::text::is_ascii_digit(t@[i as int]));
            return None;
        }
        let d: u64 = (c as u32 - 48) as u64;
        assert(t@.subrange(0, i + 1).drop_last() =~= t@.subrange(0, i as int));
        assert(all_digits(t@.subrange(0, i + 1)));
        assert(digits_value(t@.subrange(0, i + 1)) == v * 10 + d);
        if v > (u64::MAX - d) / 10 {
            assert(v * 10 + d > u64::MAX) by (nonlinear_arith)
                requires
                    v > (u64::MAX - d) / 10,
                    d <= 9,
            ;
            proof {
                if all_digits(t@) {
                    lemma_digits_grow(t@, i + 1, t@.len() as int);
                    assert(t@.subrange(0, t@.len() as int) =~= t@);
                }
            }
            return None;
        }
        assert(v * 10 + d <= u64::MAX) by (nonlinear_arith)
            requires
                v <= (u64::MAX - d) / 10,
                d <= 9,
        ;
        v = v * 10 + d;
        i += 1;
    }
    assert(t@.subrange(0, i as int) =~= t@);
    Some(v)
}

/// The value of the first member of `m` named `key`.
pub fn find_member<'a>(m: &'a Vec<(String, JsonValue)>, key: &str) -> (r: Option<&'a JsonValue>)
    ensures
        opt_ref_view(r) == member(view_members(m@), key@),
{
    let k = String::from_str(key);
    let ghost vm = view_members(m@);
    proof {
        lemma_view_members(m@);
    }
    assert(vm.subrange(0, vm.len() as int) =~= vm);
    let mut i: usize = 0;
    while i < m.len()
        invariant
            i <= m.len(),
            vm == view_members(m@),
            vm.len() == m.len(),
            k@ == key@,
            forall|j: int| 0 <= j < m.len() ==> #[trigger] vm[j] == (m@[j].0@, m@[j].1@),
            member(vm, key@) == member(vm.subrange(i as int, vm.len() as int), key@),
        decreases m.len() - i,
    {
        assert(vm.subrange(i as int, vm.len() as int).drop_first() =~= vm.subrange(
            i + 1,
            vm.len() as int,
        ));
        assert(vm.subrange(i as int, vm.len() as int)[0] == vm[i as int]);
        if m[i].0 == k {
            return Some(&m[i].1);
        }
        i += 1;
    }
    None
}

pub open spec fn digit_char(d: nat) -> char {
    seq!['0', '1', '2', '3', '4', '5', '6', '7', '8', '9'][d as int]
}

/// The decimal text of `n`.
pub open spec fn decimal(n: nat) -> Seq<char>
    decreases n,
{
    if n < 10 {
        seq![digit_char(n)]
    } else {
        decimal(n / 10) + seq![digit_char(n % 10)]
    }
}

fn write_decimal(n: u64, out: &mut Vec<char>)
    ensures
        final(out)@ == old(out)@ + decimal(n as nat),
    decreases n,
{
    let digits = vec!['0', '1', '2', '3', '4', '5', '6', '7', '8', '9'];
    assert(digits@ =~= seq!['0', '1', '2', '3', '4', '5', '6', '7', '8', '9']);
    if n >= 10 {
        write_decimal(n / 10, out);
    }
    out.push(digits[(n % 10) as usize]);
    proof {
        if n >= 10 {
            assert(old(out)@ + decimal(n as nat) =~= old(out)@ + decimal((n / 10) as nat) + seq![
                digit_char((n % 10) as nat),
            ]);
        }
    }
}

/// The decimal text of `n`, as a JSON number's text.
pub fn decimal_text(n: u64) -> (r: String)
    ensures
        r@ == decimal(n as nat),
{
    let mut out: Vec<char> = Vec::new();
    write_decimal(n, &mut out);
    assert(out@ =~= decimal(n as nat));
    string_from(&out)
}

/// The text of an optional string.
pub open spec fn text_view(t: Option<String>) -> Option<Seq<char>> {
    match t {
        Some(s) => Some(s@),
        None => None,
    }
}

impl JsonValue {
    /// A copy of the value, node for node.
    pub fn deep_copy(&self) -> (r: JsonValue)
        ensures
            r@ == self@,
        decreases self,
    {
        match self {
            JsonValue::Null => JsonValue::Null,
            JsonValue::Bool(b) => JsonValue::Bool(*b),
            JsonValue::Number(n) => JsonValue::Number(n.clone()),
            JsonValue::Str(s) => JsonValue::Str(s.clone()),
            JsonValue::Array(a) => {
                let mut out: Vec<JsonValue> = Vec::new();
                let mut i: usize = 0;
                while i < a.len()
                    invariant
                        *self == JsonValue::Array(*a),
                        i <= a.len(),
                        out.len() == i,
                        forall|k: int| 0 <= k < i ==> (#[trigger] out@[k])@ == a@[k]@,
                    decreases a.len() - i,
                {
                    proof {
                        assert(decreases_to!(*self => (*self)->Array_0));
                        assert(decreases_to!(*a => a[i as int]));
                    }
                    out.push(a[i].deep_copy());
                    i += 1;
                }
                proof {
                    lemma_view_items(out@);
                    lemma_view_items(a@);
                    assert(view_items(out@) =~= view_items(a@));
                }
                JsonValue::Array(out)
            },
            JsonValue::Object(m) => {
                let mut out: Vec<(String, JsonValue)> = Vec::new();
                let mut i: usize = 0;
                while i < m.len()
                    invariant
                        *self == JsonValue::Object(*m),
                        i <= m.len(),
                        out.len() == i,
                        forall|k: int|
                            0 <= k < i ==> (#[trigger] out@[k]).0@ == m@[k].0@ && out@[k].1@
                                == m@[k].1@,
                    decreases m.len() - i,
                {
                    proof {
                        assert(decreases_to!(*self => (*self)->Object_0));
                        assert(decreases_to!(*m => m[i as int]));
                        assert(decreases_to!(m[i as int] => m[i as int].1));
                    }
                    out.push((m[i].0.clone(), m[i].1.deep_copy()));
                    i += 1;
                }
                proof {
                    lemma_view_members(out@);
                    lemma_view_members(m@);
                    assert(view_members(out@) =~= view_members(m@));
                }
                JsonValue::Object(out)
            },
        }
    }

    /// The value of member `key`, when this is an object that has one.
    pub fn get(&self, key: &str) -> (r: Option<&JsonValue>)
        ensures
            opt_ref_view(r) == field(self@, key@),
    {
        match self {
            JsonValue::Object(m) => find_member(m, key),
            _ => None,
        }
    }

    /// Whether this is an object with a member `key`.
    pub fn contains_key(&self, key: &str) -> (r: bool)
        ensures
            r == field(self@, key@) is Some,
    {
        self.get(key).is_some()
    }

    /// The text, when this is a string.
    pub fn as_str(&self) -> (r: Option<&str>)
        ensures
            match self@ {
                Json::Str(s) => r is Some && r->0@ == s,
                _ => r is None,
            },
    {
        match self {
            JsonValue::Str(s) => Some(s.as_str()),
            _ => None,
        }
    }

    /// The number, when this is a non-negative integer that fits in a `u64`.
    pub fn as_u64(&self) -> (r: Option<u64>)
        ensures
            r == match self@ {
                Json::Number(t) => number_u64(t),
                _ => None,
            },
    {
        match self {
            JsonValue::Number(t) => {
                let cs = chars_of(t.as_str());
                digits_u64(&cs)
            },
            _ => None,
        }
    }

    /// The elements, when this is an array.
    pub fn as_array(&self) -> (r: Option<&Vec<JsonValue>>)
        ensures
            match self {
                JsonValue::Array(a) => r == Some(a),
                _ => r is None,
            },
    {
        match self {
            JsonValue::Array(a) => Some(a),
            _ => None,
        }
    }

    pub fn is_null(&self) -> (r: bool)
        ensures
            r == (self@ == Json::Null),
    {
        match self {
            JsonValue::Null => true,
            _ => false,
        }
    }

    /// Appends the compact JSON text of this value to `out`.
    pub fn write_compact(&self, out: &mut Vec<char>)
        ensures
            final(out)@ == old(out)@ + compact(self@),
        decreases self,
    {
        match self {
            JsonValue::Null => {
                proof {
                    reveal_strlit("null");
                }
                extend_str(out, "null");
                assert("null"@ =~= seq!['n', 'u', 'l', 'l']);
            },
            JsonValue::Bool(b) => {
                proof {
                    reveal_strlit("true");
                    reveal_strlit("false");
                }
                if *b {
                    extend_str(out, "true");
                    assert("true"@ =~= seq!['t', 'r', 'u', 'e']);
                } else {
                    extend_str(out, "false");
                    assert("false"@ =~= seq!['f', 'a', 'l', 's', 'e']);
                }
            },
            JsonValue::Number(t) => {
                extend_str(out, t.as_str());
            },
            JsonValue::Str(s) => {
                let q = quote(s.as_str());
                extend_str(out, q.as_str());
            },
            JsonValue::Array(a) => {
                let ghost start = out@;
                let ghost va = view_items(a@);
                proof {
                    lemma_view_items(a@);
                }
                out.push('[');
                let mut i: usize = 0;
                while i < a.len()
                    invariant
                        *self == JsonValue::Array(*a),
                        i <= a.len(),
                        va == view_items(a@),
                        va.len() == a.len(),
                        forall|j: int| 0 <= j < a.len() ==> #[trigger] va[j] == a@[j]@,
                        out@ == start + seq!['['] + compact_items(va.subrange(0, i as int)),
                    decreases a.len() - i,
                {
                    let ghost before = out@;
                    if i > 0 {
                        out.push(',');
                    }
                    proof {
                        assert(decreases_to!(*self => (*self)->Array_0));
                        assert(decreases_to!(*a => a[i as int]));
                    }
                    a[i].write_compact(out);
                    assert(va.subrange(0, i + 1).drop_last() =~= va.subrange(0, i as int));
                    if i == 0 {
                        assert(compact_items(va.subrange(0, 1)) == compact(va[0]));
                    }
                    assert(out@ =~= start + seq!['['] + compact_items(va.subrange(0, i + 1)));
                    i += 1;
                }
                out.push(']');
                assert(va.subrange(0, i as int) =~= va);
            },
            JsonValue::Object(m) => {
                let ghost start = out@;
                let ghost vm = view_members(m@);
                proof {
                    lemma_view_members(m@);
                }
                out.push('{');
                let mut i: usize = 0;
                while i < m.len()
                    invariant
                        *self == JsonValue::Object(*m),
                        i <= m.len(),
                        vm == view_members(m@),
                        vm.len() == m.len(),
                        forall|j: int| 0 <= j < m.len() ==> #[trigger] vm[j] == (m@[j].0@, m@[j].1@),
                        out@ == start + seq!['{'] + compact_members(vm.subrange(0, i as int)),
                    decreases m.len() - i,
                {
                    if i > 0 {
                        out.push(',');
                    }
                    let q = quote(m[i].0.as_str());
                    extend_str(out, q.as_str());
                    out.push(':');
                    proof {
                        assert(decreases_to!(*self => (*self)->Object_0));
                        assert(decreases_to!(*m => m[i as int]));
                        assert(decreases_to!(m[i as int] => m[i as int].1));
                    }
                    m[i].1.write_compact(out);
                    assert(vm.subrange(0, i + 1).drop_last() =~= vm.subrange(0, i as int));
                    assert(out@ =~= start + seq!['{'] + compact_members(vm.subrange(0, i + 1)));
                    i += 1;
                }
                out.push('}');
                assert(vm.subrange(0, i as int) =~= vm);
            },
        }
    }
}

} // verus!
