//! JSON values as plain data.
use crate::shell::vars;
use crate::shell::vars::Pairs;
use crate::text;
use vstd::prelude::*;

verus! {

broadcast use crate::text::views_push;

/// A JSON number. What is no integer of 64 bits is kept as its text.
#[derive(Debug, PartialEq)]
pub enum Number {
    Unsigned(u64),
    Negative(i64),
    Other(String),
}

#[verifier::ext_equal]
pub enum NumberV {
    Unsigned(u64),
    Negative(i64),
    Other(Seq<char>),
}

impl View for Number {
    type V = NumberV;

    open spec fn view(&self) -> NumberV {
        match self {
            Number::Unsigned(n) => NumberV::Unsigned(*n),
            Number::Negative(n) => NumberV::Negative(*n),
            Number::Other(t) => NumberV::Other(t@),
        }
    }
}

/// A JSON value. The members of an object are ordered by key.
#[derive(Debug, PartialEq)]
pub enum Json {
    Null,
    Bool(bool),
    Num(Number),
    Str(String),
    Arr(Vec<Json>),
    Obj(Vec<(String, Json)>),
}

pub enum JsonV {
    Null,
    Bool(bool),
    Num(NumberV),
    Str(Seq<char>),
    Arr(Seq<JsonV>),
    Obj(Seq<(Seq<char>, JsonV)>),
}

pub open spec fn json_view(j: Json) -> JsonV
    decreases j,
{
    match j {
        Json::Null => JsonV::Null,
        Json::Bool(b) => JsonV::Bool(b),
        Json::Num(n) => JsonV::Num(n@),
        Json::Str(s) => JsonV::Str(s@),
        Json::Arr(v) => JsonV::Arr(items_view(v@)),
        Json::Obj(m) => JsonV::Obj(members_view(m@)),
    }
}

pub open spec fn items_view(v: Seq<Json>) -> Seq<JsonV>
    decreases v,
{
    if v.len() == 0 {
        seq![]
    } else {
        items_view(v.drop_last()).push(json_view(v.last()))
    }
}

pub open spec fn members_view(v: Seq<(String, Json)>) -> Seq<(Seq<char>, JsonV)>
    decreases v,
{
    if v.len() == 0 {
        seq![]
    } else {
        members_view(v.drop_last()).push((v.last().0@, json_view(v.last().1)))
    }
}

impl View for Json {
    type V = JsonV;

    open spec fn view(&self) -> JsonV {
        json_view(*self)
    }
}

pub proof fn lemma_items(v: Seq<Json>)
    ensures
        items_view(v).len() == v.len(),
        forall|i: int| 0 <= i < v.len() ==> #[trigger] items_view(v)[i] == json_view(v[i]),
    decreases v.len(),
{
    if v.len() > 0 {
        lemma_items(v.drop_last());
    }
}

pub proof fn lemma_members(v: Seq<(String, Json)>)
    ensures
        members_view(v).len() == v.len(),
        forall|i: int|
            0 <= i < v.len() ==> #[trigger] members_view(v)[i] == (v[i].0@, json_view(v[i].1)),
    decreases v.len(),
{
    if v.len() > 0 {
        lemma_members(v.drop_last());
    }
}

pub broadcast proof fn lemma_items_push(v: Seq<Json>, j: Json)
    ensures
        #[trigger] items_view(v.push(j)) == items_view(v).push(json_view(j)),
{
    assert(v.push(j).drop_last() =~= v);
}

pub broadcast proof fn lemma_members_push(v: Seq<(String, Json)>, m: (String, Json))
    ensures
        #[trigger] members_view(v.push(m)) == members_view(v).push((m.0@, json_view(m.1))),
{
    assert(v.push(m).drop_last() =~= v);
}

// ---- reading ----

pub open spec fn member(m: Seq<(Seq<char>, JsonV)>, key: Seq<char>) -> Option<JsonV>
    decreases m.len(),
{
    if m.len() == 0 {
        None
    } else if m[0].0 == key {
        Some(m[0].1)
    } else {
        member(m.skip(1), key)
    }
}

/// The member `key` of an object.
pub open spec fn field(j: JsonV, key: Seq<char>) -> Option<JsonV> {
    match j {
        JsonV::Obj(m) => member(m, key),
        _ => None,
    }
}

/// The member `key` of what is there, if anything is.
pub open spec fn field_of(j: Option<JsonV>, key: Seq<char>) -> Option<JsonV> {
    match j {
        Some(v) => field(v, key),
        None => None,
    }
}

pub open spec fn str_of(j: Option<JsonV>) -> Option<Seq<char>> {
    match j {
        Some(JsonV::Str(s)) => Some(s),
        _ => None,
    }
}

pub open spec fn u64_of(j: Option<JsonV>) -> Option<u64> {
    match j {
        Some(JsonV::Num(NumberV::Unsigned(n))) => Some(n),
        _ => None,
    }
}

pub open spec fn bool_of(j: Option<JsonV>) -> Option<bool> {
    match j {
        Some(JsonV::Bool(b)) => Some(b),
        _ => None,
    }
}

pub open spec fn items_of(j: Option<JsonV>) -> Option<Seq<JsonV>> {
    match j {
        Some(JsonV::Arr(v)) => Some(v),
        _ => None,
    }
}

/// The view of a value that may be missing.
pub open spec fn opt_view(j: Option<&Json>) -> Option<JsonV> {
    match j {
        Some(v) => Some(v@),
        None => None,
    }
}

impl Json {
    pub fn get(&self, key: &str) -> (r: Option<&Json>)
        ensures
            opt_view(r) == field(self@, key@),
    {
        match self {
            Json::Obj(m) => {
                let ghost mv = members_view(m@);
                proof {
                    lemma_members(m@);
                }
                let mut i: usize = 0;
                assert(mv.skip(0) =~= mv);
                while i < m.len()
                    invariant
                        i <= m@.len(),
                        mv == members_view(m@),
                        mv.len() == m@.len(),
                        forall|k: int|
                            0 <= k < m@.len() ==> #[trigger] mv[k] == (m@[k].0@, json_view(m@[k].1)),
                        member(mv, key@) == member(mv.skip(i as int), key@),
                        self@ == JsonV::Obj(mv),
                    decreases m@.len() - i,
                {
                    assert(mv.skip(i as int)[0] == mv[i as int]);
                    assert(mv.skip(i as int).skip(1) =~= mv.skip(i as int + 1));
                    if text::same(m[i].0.as_str(), key) {
                        return Some(&m[i].1);
                    }
                    i = i + 1;
                }
                None
            },
            _ => None,
        }
    }

    pub fn as_str(&self) -> (r: Option<&str>)
        ensures
            match r {
                Some(s) => str_of(Some(self@)) == Some(s@),
                None => str_of(Some(self@)) is None,
            },
    {
        match self {
            Json::Str(s) => Some(s.as_str()),
            _ => None,
        }
    }

    pub fn as_u64(&self) -> (r: Option<u64>)
        ensures
            r == u64_of(Some(self@)),
    {
        match self {
            Json::Num(Number::Unsigned(n)) => Some(*n),
            _ => None,
        }
    }

    pub fn as_bool(&self) -> (r: Option<bool>)
        ensures
            r == bool_of(Some(self@)),
    {
        match self {
            Json::Bool(b) => Some(*b),
            _ => None,
        }
    }

    pub fn as_array(&self) -> (r: Option<&Vec<Json>>)
        ensures
            match r {
                Some(v) => items_of(Some(self@)) == Some(items_view(v@)),
                None => items_of(Some(self@)) is None,
            },
    {
        match self {
            Json::Arr(v) => Some(v),
            _ => None,
        }
    }
}

/// The member `key` of what is there.
pub fn get_in<'a>(j: Option<&'a Json>, key: &str) -> (r: Option<&'a Json>)
    ensures
        opt_view(r) == field_of(opt_view(j), key@),
{
    match j {
        Some(v) => v.get(key),
        None => None,
    }
}

pub fn str_in<'a>(j: Option<&'a Json>) -> (r: Option<&'a str>)
    ensures
        match r {
            Some(s) => str_of(opt_view(j)) == Some(s@),
            None => str_of(opt_view(j)) is None,
        },
{
    match j {
        Some(v) => v.as_str(),
        None => None,
    }
}

pub fn u64_in(j: Option<&Json>) -> (r: Option<u64>)
    ensures
        r == u64_of(opt_view(j)),
{
    match j {
        Some(v) => v.as_u64(),
        None => None,
    }
}

pub fn bool_in(j: Option<&Json>) -> (r: Option<bool>)
    ensures
        r == bool_of(opt_view(j)),
{
    match j {
        Some(v) => v.as_bool(),
        None => None,
    }
}

/// The text there, or nothing.
pub open spec fn text_or_empty(j: Option<JsonV>) -> Seq<char> {
    match str_of(j) {
        Some(s) => s,
        None => seq![],
    }
}

pub fn string_in(j: Option<&Json>) -> (r: String)
    ensures
        r@ == text_or_empty(opt_view(j)),
{
    match str_in(j) {
        Some(s) => text::owned(s),
        None => {
            let e = String::new();
            assert(e@ =~= seq![]);
            e
        },
    }
}

// ---- building ----

impl Number {
    pub fn copy(&self) -> (r: Number)
        ensures
            r@ == self@,
    {
        match self {
            Number::Unsigned(n) => Number::Unsigned(*n),
            Number::Negative(n) => Number::Negative(*n),
            Number::Other(t) => Number::Other(t.clone()),
        }
    }
}

impl Json {
    pub fn copy(&self) -> (r: Json)
        ensures
            r@ == self@,
        decreases self,
    {
        match self {
            Json::Null => Json::Null,
            Json::Bool(b) => Json::Bool(*b),
            Json::Num(n) => Json::Num(n.copy()),
            Json::Str(s) => Json::Str(s.clone()),
            Json::Arr(v) => Json::Arr(copy_items(v)),
            Json::Obj(m) => Json::Obj(copy_members(m)),
        }
    }
}

fn copy_items(v: &Vec<Json>) -> (r: Vec<Json>)
    ensures
        items_view(r@) == items_view(v@),
    decreases v,
{
    let mut out: Vec<Json> = Vec::new();
    let mut i: usize = 0;
    while i < v.len()
        invariant
            i <= v@.len(),
            items_view(out@) == items_view(v@.take(i as int)),
        decreases v@.len() - i,
    {
        let ghost before = out@;
        let j = v[i].copy();
        out.push(j);
        proof {
            lemma_items_push(before, j);
            lemma_items_push(v@.take(i as int), v@[i as int]);
            assert(v@.take(i as int + 1) =~= v@.take(i as int).push(v@[i as int]));
        }
        i = i + 1;
    }
    assert(v@.take(i as int) =~= v@);
    out
}

fn copy_members(v: &Vec<(String, Json)>) -> (r: Vec<(String, Json)>)
    ensures
        members_view(r@) == members_view(v@),
    decreases v,
{
    let mut out: Vec<(String, Json)> = Vec::new();
    let mut i: usize = 0;
    while i < v.len()
        invariant
            i <= v@.len(),
            members_view(out@) == members_view(v@.take(i as int)),
        decreases v@.len() - i,
    {
        let ghost before = out@;
        let m = (v[i].0.clone(), v[i].1.copy());
        out.push(m);
        proof {
            lemma_members_push(before, m);
            lemma_members_push(v@.take(i as int), v@[i as int]);
            assert(v@.take(i as int + 1) =~= v@.take(i as int).push(v@[i as int]));
        }
        i = i + 1;
    }
    assert(v@.take(i as int) =~= v@);
    out
}

/// No members yet.
pub fn object() -> (r: Vec<(String, Json)>)
    ensures
        members_view(r@) == Seq::<(Seq<char>, JsonV)>::empty(),
{
    let v: Vec<(String, Json)> = Vec::new();
    assert(members_view(v@) =~= Seq::<(Seq<char>, JsonV)>::empty());
    v
}

pub fn put(m: &mut Vec<(String, Json)>, key: &str, value: Json)
    ensures
        members_view(final(m)@) == members_view(old(m)@).push((key@, value@)),
{
    let k = text::owned(key);
    proof {
        lemma_members_push(m@, (k, value));
    }
    m.push((k, value));
}

/// An object of one member.
pub fn obj1(a: &str, x: Json) -> (r: Json)
    ensures
        r@ == JsonV::Obj(seq![(a@, x@)]),
{
    let mut o = object();
    put(&mut o, a, x);
    assert(members_view(o@) =~= seq![(a@, x@)]);
    Json::Obj(o)
}

/// An object of two members.
pub fn obj2(a: &str, x: Json, b: &str, y: Json) -> (r: Json)
    ensures
        r@ == JsonV::Obj(seq![(a@, x@), (b@, y@)]),
{
    let mut o = object();
    put(&mut o, a, x);
    put(&mut o, b, y);
    assert(members_view(o@) =~= seq![(a@, x@), (b@, y@)]);
    Json::Obj(o)
}

/// An object of three members.
pub fn obj3(a: &str, x: Json, b: &str, y: Json, c: &str, z: Json) -> (r: Json)
    ensures
        r@ == JsonV::Obj(seq![(a@, x@), (b@, y@), (c@, z@)]),
{
    let mut o = object();
    put(&mut o, a, x);
    put(&mut o, b, y);
    put(&mut o, c, z);
    assert(members_view(o@) =~= seq![(a@, x@), (b@, y@), (c@, z@)]);
    Json::Obj(o)
}

/// An object of four members.
pub fn obj4(a: &str, x: Json, b: &str, y: Json, c: &str, z: Json, d: &str, w: Json) -> (r: Json)
    ensures
        r@ == JsonV::Obj(seq![(a@, x@), (b@, y@), (c@, z@), (d@, w@)]),
{
    let mut o = object();
    put(&mut o, a, x);
    put(&mut o, b, y);
    put(&mut o, c, z);
    put(&mut o, d, w);
    assert(members_view(o@) =~= seq![(a@, x@), (b@, y@), (c@, z@), (d@, w@)]);
    Json::Obj(o)
}

pub fn string(s: &str) -> (r: Json)
    ensures
        r@ == JsonV::Str(s@),
{
    Json::Str(text::owned(s))
}

pub fn unsigned(n: u64) -> (r: Json)
    ensures
        r@ == JsonV::Num(NumberV::Unsigned(n)),
{
    Json::Num(Number::Unsigned(n))
}

/// A text, or null.
pub open spec fn opt_string(s: Option<Seq<char>>) -> JsonV {
    match s {
        Some(t) => JsonV::Str(t),
        None => JsonV::Null,
    }
}

pub fn string_or_null(s: &Option<String>) -> (r: Json)
    ensures
        r@ == opt_string(text::opt_text(*s)),
{
    match s {
        Some(t) => Json::Str(t.clone()),
        None => Json::Null,
    }
}

// ---- texts ----

#[verifier::external_type_specification]
#[verifier::external_body]
pub struct ExValue(serde_json::Value);

/// The value that `serde_json::from_str` reads from a text, or what it says where
/// the text is no JSON.
pub uninterp spec fn json_result(s: Seq<char>) -> Result<JsonV, Seq<char>>;

/// The value that a text holds; none where it is no JSON.
pub open spec fn json_value(s: Seq<char>) -> Option<JsonV> {
    match json_result(s) {
        Ok(v) => Some(v),
        Err(_) => None,
    }
}

/// The compact text that `serde_json` writes for a value.
pub uninterp spec fn json_text(j: JsonV) -> Seq<char>;

/// `serde_json::Value` as plain data: each variant becomes the variant of the
/// same meaning, with the members of an object in the order of the map.
#[verifier::external_body]
fn from_value(v: serde_json::Value) -> Json {
    match v {
        serde_json::Value::Null => Json::Null,
        serde_json::Value::Bool(b) => Json::Bool(b),
        serde_json::Value::Number(n) => Json::Num(match (n.as_u64(), n.as_i64()) {
            (Some(u), _) => Number::Unsigned(u),
            (_, Some(i)) => Number::Negative(i),
            _ => Number::Other(n.to_string()),
        }),
        serde_json::Value::String(s) => Json::Str(s),
        serde_json::Value::Array(a) => Json::Arr(a.into_iter().map(from_value).collect()),
        serde_json::Value::Object(m) => Json::Obj(m.into_iter().map(|(k, v)| (k, from_value(v))).collect()),
    }
}

/// Plain data as a `serde_json::Value`, variant by variant.
#[verifier::external_body]
fn to_value(j: &Json) -> serde_json::Value {
    match j {
        Json::Null => serde_json::Value::Null,
        Json::Bool(b) => serde_json::Value::Bool(*b),
        Json::Num(Number::Unsigned(n)) => serde_json::Value::from(*n),
        Json::Num(Number::Negative(n)) => serde_json::Value::from(*n),
        Json::Num(Number::Other(t)) => serde_json::from_str(t).unwrap_or(serde_json::Value::Null),
        Json::Str(s) => serde_json::Value::String(s.clone()),
        Json::Arr(v) => serde_json::Value::Array(v.iter().map(to_value).collect()),
        Json::Obj(m) => serde_json::Value::Object(m.iter().map(|(k, v)| (k.clone(), to_value(v))).collect()),
    }
}

/// `serde_json::from_str`: the value that a text holds, or the text of the error.
#[verifier::external_body]
pub(crate) fn parse(s: &str) -> (r: Result<Json, String>)
    ensures
        match r {
            Ok(j) => json_result(s@) == Ok::<JsonV, Seq<char>>(j@),
            Err(e) => json_result(s@) == Err::<JsonV, Seq<char>>(e@),
        },
{
    match serde_json::from_str::<serde_json::Value>(s) {
        Ok(v) => Ok(from_value(v)),
        Err(e) => Err(e.to_string()),
    }
}

/// A string, a bool, null or an integer.
pub open spec fn is_scalar(j: JsonV) -> bool {
    match j {
        JsonV::Null => true,
        JsonV::Bool(_) => true,
        JsonV::Num(n) => match n {
            NumberV::Unsigned(_) => true,
            NumberV::Negative(i) => i < 0,
            NumberV::Other(_) => false,
        },
        JsonV::Str(_) => true,
        _ => false,
    }
}

/// The key under which `serde_json` keeps a text that is already JSON. An object
/// that starts with it is read as the value which that text holds.
pub open spec fn raw_key() -> Seq<char> {
    "$serde_json::private::RawValue"@
}

/// A short key is not the key of raw values.
pub proof fn lemma_short_key(k: Seq<char>)
    requires
        k.len() < 30,
    ensures
        k != raw_key(),
{
    reveal_strlit("$serde_json::private::RawValue");
}

/// A scalar, a list of scalars, or an object of scalars whose keys are ordered and
/// differ, and which does not start with the key of raw values.
pub open spec fn is_flat(j: JsonV) -> bool {
    match j {
        JsonV::Arr(v) => forall|i: int| 0 <= i < v.len() ==> is_scalar(#[trigger] v[i]),
        JsonV::Obj(m) => {
            &&& forall|i: int| 0 <= i < m.len() ==> is_scalar((#[trigger] m[i]).1)
            &&& forall|i: int, k: int|
                0 <= i < k < m.len() ==> text::text_lt((#[trigger] m[i]).0, (#[trigger] m[k]).0)
            &&& m.len() > 0 ==> m[0].0 != raw_key()
        },
        _ => is_scalar(j),
    }
}

/// The texts of a value that is a list of texts.
pub open spec fn texts_in(j: JsonV) -> Option<Seq<Seq<char>>> {
    match j {
        JsonV::Arr(v) => if forall|i: int| 0 <= i < v.len() ==> (#[trigger] v[i]) is Str {
            Some(v.map_values(|j: JsonV| text_or_empty(Some(j))))
        } else {
            None
        },
        _ => None,
    }
}

/// The keys and texts of a value that is an object of texts with its keys in order.
pub open spec fn members_in(j: JsonV) -> Option<Pairs> {
    match j {
        JsonV::Obj(m) => if (forall|i: int| 0 <= i < m.len() ==> (#[trigger] m[i]).1 is Str) && (
        forall|i: int, k: int|
            0 <= i < k < m.len() ==> text::text_lt((#[trigger] m[i]).0, (#[trigger] m[k]).0)) {
            Some(m.map_values(|e: (Seq<char>, JsonV)| (e.0, text_or_empty(Some(e.1)))))
        } else {
            None
        },
        _ => None,
    }
}

/// The texts that `serde_json::from_str` reads from a text as a `Vec<String>`; none
/// where the text is no list of texts.
pub uninterp spec fn text_list(s: Seq<char>) -> Option<Seq<Seq<char>>>;

/// The pairs that `serde_json::from_str` reads from a text as a
/// `BTreeMap<String, String>`, in the order of the keys; none where the text is no
/// object of texts.
pub uninterp spec fn text_map(s: Seq<char>) -> Option<Pairs>;

/// `serde_json::from_str` for a `Vec<String>`: the list that a text holds, named by
/// `text_list`, or nothing where it holds anything else.
#[verifier::external_body]
pub(crate) fn parse_list(s: &str) -> (r: Option<Vec<String>>)
    ensures
        match r {
            Some(v) => text_list(s@) == Some(text::texts(v@)),
            None => text_list(s@) is None,
        },
{
    serde_json::from_str::<Vec<String>>(s).ok()
}

/// `serde_json::from_str` for a `BTreeMap<String, String>`: the pairs that a text
/// holds, named by `text_map`, or nothing where it holds anything else.
#[verifier::external_body]
pub(crate) fn parse_map(s: &str) -> (r: Option<Vec<(String, String)>>)
    ensures
        match r {
            Some(v) => text_map(s@) == Some(vars::pairs_view(v@)),
            None => text_map(s@) is None,
        },
{
    match serde_json::from_str::<std::collections::BTreeMap<String, String>>(s) {
        Ok(m) => Some(m.into_iter().collect()),
        Err(_) => None,
    }
}

/// `serde_json::Value::to_string`: the compact text of a value. A scalar, a list of
/// scalars, and an object of scalars with its keys in order, is read back as it was,
/// but for an object that starts with the key of raw values. A list of texts reads
/// back as a list, and an object of texts as a map, whatever the keys. Of other
/// values nothing is said but that the text is a function of the value.
#[verifier::external_body]
pub(crate) fn render(j: &Json) -> (r: String)
    ensures
        r@ == json_text(j@),
        is_flat(j@) ==> json_value(r@) == Some(j@),
        texts_in(j@) is Some ==> text_list(r@) == texts_in(j@),
        members_in(j@) is Some ==> text_map(r@) == members_in(j@),
{
    to_value(j).to_string()
}

/// The value that a text holds, or why it holds none.
pub fn read(s: &str) -> (r: Result<Json, String>)
    ensures
        match r {
            Ok(j) => json_result(s@) == Ok::<JsonV, Seq<char>>(j@),
            Err(e) => json_result(s@) == Err::<JsonV, Seq<char>>(e@),
        },
{
    parse(s)
}

/// The compact text of a value.
pub fn write(j: &Json) -> (r: String)
    ensures
        r@ == json_text(j@),
        is_flat(j@) ==> json_value(r@) == Some(j@),
{
    render(j)
}

} // verus!
