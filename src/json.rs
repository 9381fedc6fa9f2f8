use vstd::prelude::*;
use crate::text::same_text;

verus! {

/// A JSON value as this library reads and builds it.
/// Integers keep their exact value; other numbers keep their JSON text.
pub enum Json {
    Null,
    Bool(bool),
    UInt(u64),
    Int(i64),
    Decimal(String),
    Str(String),
    Array(Vec<Json>),
    Object(Vec<(String, Json)>),
}

/// serde_json's `Value`, opaque here; it only passes through the two
/// conversions below.
#[verifier::external_type_specification]
#[verifier::external_body]
pub struct ExValue(serde_json::Value);

/// The value that serde_json parses from a text, if the text is JSON.
pub uninterp spec fn parsed(text: Seq<char>) -> Option<Json>;

/// The compact JSON text that serde_json writes for a value.
pub uninterp spec fn rendered(v: Json) -> Seq<char>;

/// Turns a serde_json value into the library's model, variant for variant;
/// a number goes by serde_json's `Number::as_u64`, `Number::as_i64` and its
/// text. Only `parse_json` uses it, and nothing is promised of it.
#[verifier::external_body]
fn from_value(v: serde_json::Value) -> Json {
    match v {
        serde_json::Value::Null => Json::Null,
        serde_json::Value::Bool(b) => Json::Bool(b),
        serde_json::Value::Number(n) => match (n.as_u64(), n.as_i64()) {
            (Some(u), _) => Json::UInt(u),
            (None, Some(i)) => Json::Int(i),
            _ => Json::Decimal(n.to_string()),
        },
        serde_json::Value::String(s) => Json::Str(s),
        serde_json::Value::Array(a) => Json::Array(a.into_iter().map(from_value).collect()),
        serde_json::Value::Object(o) => Json::Object(o.into_iter().map(|(k, x)| (k, from_value(x))).collect()),
    }
}

/// Turns the library's model into a serde_json value, variant for variant;
/// a decimal goes back through serde_json's `Number` parser. Only
/// `render_json` uses it, and nothing is promised of it.
#[verifier::external_body]
fn to_value(v: &Json) -> serde_json::Value {
    match v {
        Json::Null => serde_json::Value::Null,
        Json::Bool(b) => serde_json::Value::Bool(*b),
        Json::UInt(u) => serde_json::Value::from(*u),
        Json::Int(i) => serde_json::Value::from(*i),
        Json::Decimal(s) => s.parse::<serde_json::Number>().map(serde_json::Value::Number).unwrap_or(serde_json::Value::Null),
        Json::Str(s) => serde_json::Value::String(s.clone()),
        Json::Array(a) => serde_json::Value::Array(a.iter().map(to_value).collect()),
        Json::Object(o) => serde_json::Value::Object(o.iter().map(|(k, x)| (k.clone(), to_value(x))).collect()),
    }
}

/// Relies on serde_json::from_str: the value parsed from `text`, or none
/// where `text` is not one JSON value. The outcome depends on the text alone.
#[verifier::external_body]
fn serde_parse(text: &str) -> (r: Option<Json>)
    ensures
        r == parsed(text@),
{
    serde_json::from_str::<serde_json::Value>(text).ok().map(from_value)
}

/// Relies on serde_json's `Display` for `Value`: the compact JSON text of `v`.
#[verifier::external_body]
fn serde_render(v: &Json) -> (r: String)
    ensures
        r@ == rendered(*v),
{
    to_value(v).to_string()
}

/// The value that a JSON text holds, or none where it is not one JSON value.
pub fn parse_json(text: &str) -> (r: Option<Json>)
    ensures
        r == parsed(text@),
{
    serde_parse(text)
}

/// The compact JSON text of a value.
pub fn render_json(v: &Json) -> (r: String)
    ensures
        r@ == rendered(*v),
{
    serde_render(v)
}

/// The value behind an optional reference.
pub open spec fn opt(r: Option<&Json>) -> Option<Json> {
    match r {
        Some(x) => Some(*x),
        None => None,
    }
}

/// The value stored under `key` in the first pair that has it.
pub open spec fn lookup(pairs: Seq<(String, Json)>, key: Seq<char>) -> Option<Json>
    decreases pairs.len(),
{
    if pairs.len() == 0 {
        None
    } else if pairs[0].0@ == key {
        Some(pairs[0].1)
    } else {
        lookup(pairs.drop_first(), key)
    }
}

/// The first pair with `key` decides the lookup.
pub proof fn lemma_lookup_at(pairs: Seq<(String, Json)>, i: int, key: Seq<char>)
    requires
        0 <= i < pairs.len(),
        pairs[i].0@ == key,
        forall|j: int| 0 <= j < i ==> pairs[j].0@ != key,
    ensures
        lookup(pairs, key) == Some(pairs[i].1),
    decreases i,
{
    if i > 0 {
        let rest = pairs.drop_first();
        assert forall|j: int| 0 <= j < i - 1 implies rest[j].0@ != key by {
            assert(rest[j] == pairs[j + 1]);
        }
        lemma_lookup_at(rest, i - 1, key);
    }
}

/// The member `key` of an object; none for other values.
pub open spec fn field(v: Json, key: Seq<char>) -> Option<Json> {
    match v {
        Json::Object(pairs) => lookup(pairs@, key),
        _ => None,
    }
}

/// The text of a string value.
pub open spec fn text_of(v: Option<Json>) -> Option<Seq<char>> {
    match v {
        Some(Json::Str(s)) => Some(s@),
        _ => None,
    }
}

/// The value of a non-negative integer.
pub open spec fn uint_of(v: Option<Json>) -> Option<u64> {
    match v {
        Some(Json::UInt(u)) => Some(u),
        _ => None,
    }
}

/// A 32-bit integer value, read as serde reads an `i32` field.
pub open spec fn i32_of(v: Option<Json>) -> Option<i32> {
    match v {
        Some(Json::UInt(u)) => if u <= i32::MAX { Some(u as i32) } else { None },
        Some(Json::Int(i)) => if i32::MIN <= i { Some(i as i32) } else { None },
        _ => None,
    }
}

pub open spec fn bool_of(v: Option<Json>) -> Option<bool> {
    match v {
        Some(Json::Bool(b)) => Some(b),
        _ => None,
    }
}

pub open spec fn items_of(v: Option<Json>) -> Option<Seq<Json>> {
    match v {
        Some(Json::Array(a)) => Some(a@),
        _ => None,
    }
}

/// Member `key` of `v`, and then member `key2` of that.
pub open spec fn field2(v: Json, key: Seq<char>, key2: Seq<char>) -> Option<Json> {
    match field(v, key) {
        Some(w) => field(w, key2),
        None => None,
    }
}

/// Two values that print the same: the same variant and numbers, the same
/// texts, and, member for member, the same keys and values.
pub open spec fn same_json(a: Json, b: Json) -> bool
    decreases a,
{
    match a {
        Json::Null => b is Null,
        Json::Bool(x) => b == Json::Bool(x),
        Json::UInt(x) => b == Json::UInt(x),
        Json::Int(x) => b == Json::Int(x),
        Json::Decimal(x) => b matches Json::Decimal(y) && y@ == x@,
        Json::Str(x) => b matches Json::Str(y) && y@ == x@,
        Json::Array(x) => b matches Json::Array(y) && y@.len() == x@.len()
            && forall|i: int| 0 <= i < x@.len() ==> same_json(#[trigger] x@[i], y@[i]),
        Json::Object(x) => b matches Json::Object(y) && y@.len() == x@.len()
            && forall|i: int| 0 <= i < x@.len() ==> (#[trigger] x@[i]).0@ == y@[i].0@ && same_json(x@[i].1, y@[i].1),
    }
}

impl Json {
    /// A copy of this value.
    pub fn duplicate(&self) -> (r: Json)
        ensures
            same_json(*self, r),
        decreases self,
    {
        match self {
            Json::Null => Json::Null,
            Json::Bool(b) => Json::Bool(*b),
            Json::UInt(u) => Json::UInt(*u),
            Json::Int(i) => Json::Int(*i),
            Json::Decimal(s) => Json::Decimal(s.clone()),
            Json::Str(s) => Json::Str(s.clone()),
            Json::Array(a) => {
                let mut v: Vec<Json> = Vec::new();
                let mut i: usize = 0;
                while i < a.len()
                    invariant
                        i <= a@.len(),
                        *self == Json::Array(*a),
                        v@.len() == i,
                        forall|k: int| 0 <= k < i ==> same_json(#[trigger] a@[k], v@[k]),
                    decreases a@.len() - i,
                {
                    proof {
                        assert(decreases_to!(*self => (*self)->Array_0));
                        assert(decreases_to!(*a => a@));
                        assert(decreases_to!(a@ => a@[i as int]));
                    }
                    v.push(a[i].duplicate());
                    i = i + 1;
                }
                Json::Array(v)
            },
            Json::Object(m) => {
                let mut v: Vec<(String, Json)> = Vec::new();
                let mut i: usize = 0;
                while i < m.len()
                    invariant
                        i <= m@.len(),
                        *self == Json::Object(*m),
                        v@.len() == i,
                        forall|k: int| 0 <= k < i ==> (#[trigger] m@[k]).0@ == v@[k].0@ && same_json(m@[k].1, v@[k].1),
                    decreases m@.len() - i,
                {
                    proof {
                        assert(decreases_to!(*self => (*self)->Object_0));
                        assert(decreases_to!(*m => m@));
                        assert(decreases_to!(m@ => m@[i as int]));
                        assert(decreases_to!(m@[i as int] => m@[i as int].1));
                    }
                    v.push((m[i].0.clone(), m[i].1.duplicate()));
                    i = i + 1;
                }
                Json::Object(v)
            },
        }
    }

    /// The member `key` of this object.
    pub fn get(&self, key: &str) -> (r: Option<&Json>)
        ensures
            opt(r) == field(*self, key@),
    {
        match self {
            Json::Object(pairs) => {
                let mut i: usize = 0;
                assert(pairs@.subrange(0, pairs@.len() as int) =~= pairs@);
                while i < pairs.len()
                    invariant
                        i <= pairs@.len(),
                        field(*self, key@) == lookup(pairs@, key@),
                        lookup(pairs@, key@) == lookup(pairs@.subrange(i as int, pairs@.len() as int), key@),
                    decreases pairs@.len() - i,
                {
                    let ghost rest = pairs@.subrange(i as int, pairs@.len() as int);
                    assert(rest.drop_first() =~= pairs@.subrange(i + 1, pairs@.len() as int));
                    assert(rest[0] == pairs@[i as int]);
                    if same_text(pairs[i].0.as_str(), key) {
                        assert(rest.len() > 0 && rest[0].0@ == key@);
                        assert(lookup(rest, key@) == Some(pairs@[i as int].1));
                        return Some(&pairs[i].1);
                    }
                    i = i + 1;
                }
                None
            },
            _ => None,
        }
    }

    /// The text, where this is a string.
    pub fn as_str(&self) -> (r: Option<&String>)
        ensures
            r matches Some(s) ==> text_of(Some(*self)) == Some(s@),
            r is None ==> text_of(Some(*self)) is None,
    {
        match self {
            Json::Str(s) => Some(s),
            _ => None,
        }
    }

    /// The value, where this is a non-negative integer.
    pub fn as_u64(&self) -> (r: Option<u64>)
        ensures
            r == uint_of(Some(*self)),
    {
        match self {
            Json::UInt(u) => Some(*u),
            _ => None,
        }
    }

    /// The value, where this is an integer that fits in `i32`.
    pub fn as_i32(&self) -> (r: Option<i32>)
        ensures
            r == i32_of(Some(*self)),
    {
        match self {
            Json::UInt(u) => if *u <= i32::MAX as u64 { Some(*u as i32) } else { None },
            Json::Int(i) => if *i >= i32::MIN as i64 { Some(*i as i32) } else { None },
            _ => None,
        }
    }

    pub fn as_bool(&self) -> (r: Option<bool>)
        ensures
            r == bool_of(Some(*self)),
    {
        match self {
            Json::Bool(b) => Some(*b),
            _ => None,
        }
    }

    pub fn as_array(&self) -> (r: Option<&Vec<Json>>)
        ensures
            r matches Some(a) ==> items_of(Some(*self)) == Some(a@),
            r is None ==> items_of(Some(*self)) is None,
    {
        match self {
            Json::Array(a) => Some(a),
            _ => None,
        }
    }
}

/// The text member `key` of `v`.
pub fn get_text<'a>(v: &'a Json, key: &str) -> (r: Option<&'a String>)
    ensures
        r matches Some(s) ==> text_of(field(*v, key@)) == Some(s@),
        r is None ==> text_of(field(*v, key@)) is None,
{
    match v.get(key) {
        Some(x) => x.as_str(),
        None => None,
    }
}

} // verus!

verus! {

/// Removing a pair leaves the lookup of other keys as it was.
pub proof fn lemma_lookup_remove(p: Seq<(String, Json)>, i: int, k: Seq<char>)
    requires
        0 <= i < p.len(),
        p[i].0@ != k,
    ensures
        lookup(p.remove(i), k) == lookup(p, k),
    decreases p.len(),
{
    if i == 0 {
        assert(p.remove(0) =~= p.drop_first());
    } else {
        assert(p.remove(i)[0] == p[0]);
        if p[0].0@ != k {
            assert(p.remove(i).drop_first() =~= p.drop_first().remove(i - 1));
            lemma_lookup_remove(p.drop_first(), i - 1, k);
        }
    }
}

/// Takes member `key` out of an object: its value, by value; the object
/// loses the member and keeps the others.
pub fn take_field(v: &mut Json, key: &str) -> (r: Option<Json>)
    ensures
        r == field(*old(v), key@),
        forall|k: Seq<char>| k != key@ ==> #[trigger] field(*final(v), k) == field(*old(v), k),
{
    match v {
        Json::Object(pairs) => take_member(pairs, key),
        _ => None,
    }
}

fn take_member(pairs: &mut Vec<(String, Json)>, key: &str) -> (r: Option<Json>)
    ensures
        r == lookup(old(pairs)@, key@),
        forall|k: Seq<char>| k != key@ ==> #[trigger] lookup(final(pairs)@, k) == lookup(old(pairs)@, k),
{
    let ghost orig = pairs@;
    let mut i: usize = 0;
    assert(pairs@.subrange(0, pairs@.len() as int) =~= pairs@);
    while i < pairs.len()
        invariant
            pairs@ == orig,
            orig == old(pairs)@,
            i <= pairs@.len(),
            lookup(orig, key@) == lookup(pairs@.subrange(i as int, pairs@.len() as int), key@),
        decreases pairs@.len() - i,
    {
        let ghost rest = pairs@.subrange(i as int, pairs@.len() as int);
        assert(rest.drop_first() =~= pairs@.subrange(i + 1, pairs@.len() as int));
        assert(rest[0] == pairs@[i as int]);
        if same_text(pairs[i].0.as_str(), key) {
            assert(lookup(rest, key@) == Some(pairs@[i as int].1));
            let (_, x) = pairs.remove(i);
            proof {
                assert forall|k: Seq<char>| k != key@ implies #[trigger] lookup(pairs@, k) == lookup(orig, k) by {
                    lemma_lookup_remove(orig, i as int, k);
                }
            }
            return Some(x);
        }
        i = i + 1;
    }
    None
}

/// The elements of an array, by value; none for other values.
pub fn take_items(v: Json) -> (r: Option<Vec<Json>>)
    ensures
        r matches Some(a) ==> items_of(Some(v)) == Some(a@),
        r is None ==> items_of(Some(v)) is None,
{
    match v {
        Json::Array(a) => Some(a),
        _ => None,
    }
}

} // verus!
