//! The JSON documents that records are made of.
//!
//! `JsonValue` is the executable document; its view `Json` is the mathematical
//! value: an object is a map from keys to values, in which the first member
//! written under a key is the one that counts.
use vstd::prelude::*;
use crate::text::{eq_str, trim, trimmed, int_dec, digit_char, digit_char_exec, push_nat_dec, key_less, key_lt,
    lemma_key_lt_trans, lemma_key_lt_total, lemma_key_lt_irrefl};

verus! {

/// A JSON number: a non-negative integer, a negative integer, or another
/// number kept as its decimal text.
#[derive(Debug)]
pub enum JsonNumber {
    PosInt(u64),
    NegInt(i64),
    Float(String),
}

#[derive(Debug)]
pub enum JsonValue {
    Null,
    Bool(bool),
    Number(JsonNumber),
    Str(String),
    Array(Vec<JsonValue>),
    Object(Vec<(String, JsonValue)>),
}

pub enum Num {
    Int(int),
    Float(Seq<char>),
}

pub enum Json {
    Null,
    Bool(bool),
    Num(Num),
    Str(Seq<char>),
    Arr(Seq<Json>),
    Obj(Map<Seq<char>, Json>),
}

pub open spec fn num_view(n: JsonNumber) -> Num {
    match n {
        JsonNumber::PosInt(u) => Num::Int(u as int),
        JsonNumber::NegInt(i) => Num::Int(i as int),
        JsonNumber::Float(s) => Num::Float(s@),
    }
}

pub open spec fn members_view(m: Seq<(String, JsonValue)>) -> Map<Seq<char>, Json>
    decreases m,
{
    if m.len() == 0 {
        Map::empty()
    } else {
        members_view(m.drop_first()).insert(m[0].0@, json_view(m[0].1))
    }
}

pub open spec fn items_view(m: Seq<JsonValue>) -> Seq<Json>
    decreases m,
{
    if m.len() == 0 {
        Seq::empty()
    } else {
        seq![json_view(m[0])] + items_view(m.drop_first())
    }
}

pub open spec fn json_view(v: JsonValue) -> Json
    decreases v,
{
    match v {
        JsonValue::Null => Json::Null,
        JsonValue::Bool(b) => Json::Bool(b),
        JsonValue::Number(n) => Json::Num(num_view(n)),
        JsonValue::Str(s) => Json::Str(s@),
        JsonValue::Array(a) => Json::Arr(items_view(a@)),
        JsonValue::Object(m) => Json::Obj(members_view(m@)),
    }
}

/// Member keys in strictly increasing key order, so that no key repeats.
pub open spec fn keys_ordered(m: Seq<(String, JsonValue)>) -> bool {
    forall|i: int, j: int| #![trigger m[i], m[j]] 0 <= i < j < m.len() ==> key_lt(m[i].0@, m[j].0@)
}

/// A well-formed document: every object in it, at any depth, keeps its member
/// keys in strictly increasing order (as `serde_json`'s map does).
pub open spec fn json_wf(v: JsonValue) -> bool
    decreases v,
{
    match v {
        JsonValue::Array(a) => items_wf(a@),
        JsonValue::Object(m) => keys_ordered(m@) && members_wf(m@),
        _ => true,
    }
}

pub open spec fn items_wf(a: Seq<JsonValue>) -> bool
    decreases a,
{
    if a.len() == 0 {
        true
    } else {
        json_wf(a[0]) && items_wf(a.drop_first())
    }
}

pub open spec fn members_wf(m: Seq<(String, JsonValue)>) -> bool
    decreases m,
{
    if m.len() == 0 {
        true
    } else {
        json_wf(m[0].1) && members_wf(m.drop_first())
    }
}

/// Every document of the list is well-formed.
pub open spec fn all_wf(s: Seq<JsonValue>) -> bool {
    forall|i: int| 0 <= i < s.len() ==> json_wf(#[trigger] s[i])
}

pub proof fn lemma_items_wf(a: Seq<JsonValue>)
    ensures
        items_wf(a) <==> forall|i: int| 0 <= i < a.len() ==> json_wf(#[trigger] a[i]),
    decreases a.len(),
{
    if a.len() > 0 {
        lemma_items_wf(a.drop_first());
        assert forall|i: int| 0 < i < a.len() implies #[trigger] a[i] == a.drop_first()[i - 1] by {}
        if forall|i: int| 0 <= i < a.len() ==> json_wf(#[trigger] a[i]) {
            assert forall|i: int| 0 <= i < a.drop_first().len() implies json_wf(#[trigger] a.drop_first()[i]) by {
                assert(a.drop_first()[i] == a[i + 1]);
            }
        }
    }
}

pub proof fn lemma_members_wf(m: Seq<(String, JsonValue)>)
    ensures
        members_wf(m) <==> forall|i: int| 0 <= i < m.len() ==> json_wf(#[trigger] m[i].1),
    decreases m.len(),
{
    if m.len() > 0 {
        lemma_members_wf(m.drop_first());
        assert forall|i: int| 0 < i < m.len() implies #[trigger] m[i] == m.drop_first()[i - 1] by {}
        if forall|i: int| 0 <= i < m.len() ==> json_wf(#[trigger] m[i].1) {
            assert forall|i: int| 0 <= i < m.drop_first().len() implies json_wf(#[trigger] m.drop_first()[i].1) by {
                assert(m.drop_first()[i] == m[i + 1]);
            }
        }
    }
}

/// A member put where `insert_position` places it keeps the keys ordered.
proof fn lemma_insert_ordered(m: Seq<(String, JsonValue)>, p: int, x: (String, JsonValue))
    requires
        keys_ordered(m),
        0 <= p <= m.len(),
        forall|j: int| 0 <= j < p ==> !key_lt(x.0@, (#[trigger] m[j]).0@),
        p < m.len() ==> key_lt(x.0@, m[p].0@),
        forall|j: int| 0 <= j < m.len() ==> (#[trigger] m[j]).0@ != x.0@,
    ensures
        keys_ordered(m.insert(p, x)),
{
    let t = m.insert(p, x);
    assert forall|a: int, b: int| 0 <= a < b < t.len() implies #[trigger] key_lt(t[a].0@, t[b].0@) by {
        if b < p {
            assert(t[a] == m[a] && t[b] == m[b]);
        } else if b == p {
            assert(t[a] == m[a]);
            lemma_key_lt_total(m[a].0@, x.0@);
        } else if a == p {
            assert(t[b] == m[b - 1]);
            if b - 1 > p {
                lemma_key_lt_trans(x.0@, m[p].0@, m[b - 1].0@);
            }
        } else if a < p {
            assert(t[a] == m[a] && t[b] == m[b - 1]);
        } else {
            assert(t[a] == m[a - 1] && t[b] == m[b - 1]);
        }
    }
}

impl View for JsonValue {
    type V = Json;

    open spec fn view(&self) -> Json {
        json_view(*self)
    }
}

// ---------------------------------------------------------------------------
// Reading a document.
/// The value under `k`, when `j` is an object that has it.
pub open spec fn field(j: Json, k: Seq<char>) -> Option<Json> {
    match j {
        Json::Obj(m) => if m.dom().contains(k) {
            Some(m[k])
        } else {
            None
        },
        _ => None,
    }
}

pub open spec fn as_text(j: Option<Json>) -> Option<Seq<char>> {
    match j {
        Some(Json::Str(s)) => Some(s),
        _ => None,
    }
}

/// `get(k).and_then(Value::as_str)`.
pub open spec fn field_str(j: Json, k: Seq<char>) -> Option<Seq<char>> {
    as_text(field(j, k))
}

/// `get(k).and_then(Value::as_str).unwrap_or("").trim()`.
pub open spec fn field_text(j: Json, k: Seq<char>) -> Seq<char> {
    match field_str(j, k) {
        Some(s) => trimmed(s),
        None => Seq::empty(),
    }
}

/// `get(k).and_then(Value::as_str)`, trimmed and kept only when not empty.
pub open spec fn field_id(j: Json, k: Seq<char>) -> Option<Seq<char>> {
    match field_str(j, k) {
        Some(s) => if trimmed(s).len() > 0 {
            Some(trimmed(s))
        } else {
            None
        },
        None => None,
    }
}

/// `as_i64`: an integer number that fits in 64 signed bits.
pub open spec fn as_i64(j: Option<Json>) -> Option<int> {
    match j {
        Some(Json::Num(Num::Int(v))) => if i64::MIN <= v <= i64::MAX {
            Some(v)
        } else {
            None
        },
        _ => None,
    }
}

pub open spec fn as_bool(j: Option<Json>) -> Option<bool> {
    match j {
        Some(Json::Bool(b)) => Some(b),
        _ => None,
    }
}

/// The object with `k` set to `v`; a value that is not an object stays as it is.
pub open spec fn with(j: Json, k: Seq<char>, v: Json) -> Json {
    match j {
        Json::Obj(m) => Json::Obj(m.insert(k, v)),
        _ => j,
    }
}

/// The object without `k`; a value that is not an object stays as it is.
pub open spec fn without(j: Json, k: Seq<char>) -> Json {
    match j {
        Json::Obj(m) => Json::Obj(m.remove(k)),
        _ => j,
    }
}

pub open spec fn jstr(s: Seq<char>) -> Json {
    Json::Str(s)
}

pub open spec fn jint(v: int) -> Json {
    Json::Num(Num::Int(v))
}

pub open spec fn empty_obj() -> Json {
    Json::Obj(Map::empty())
}

pub open spec fn is_obj(j: Json) -> bool {
    j is Obj
}

pub open spec fn opt_view(r: Option<&JsonValue>) -> Option<Json> {
    match r {
        Some(v) => Some(v@),
        None => None,
    }
}

// ---------------------------------------------------------------------------
// Facts about the object view.
/// Before the first member with key `k`, the members do not decide `k`.
pub proof fn lemma_members_skip(m: Seq<(String, JsonValue)>, k: Seq<char>, i: int)
    requires
        0 <= i <= m.len(),
        forall|j: int| 0 <= j < i ==> (#[trigger] m[j]).0@ != k,
    ensures
        members_view(m).dom().contains(k) == members_view(m.skip(i)).dom().contains(k),
        members_view(m).dom().contains(k) ==> members_view(m)[k] == members_view(m.skip(i))[k],
    decreases i,
{
    if i > 0 {
        assert forall|j: int| 0 <= j < i - 1 implies (#[trigger] m.drop_first()[j]).0@ != k by {
            assert(m.drop_first()[j] == m[j + 1]);
        }
        lemma_members_skip(m.drop_first(), k, i - 1);
        assert(m.drop_first().skip(i - 1) =~= m.skip(i));
        assert(m[0].0@ != k);
    } else {
        assert(m.skip(0) =~= m);
    }
}

/// Appending a member changes the map only when its key is new.
proof fn lemma_members_push(m: Seq<(String, JsonValue)>, p: (String, JsonValue))
    ensures
        members_view(m.push(p)) == (if members_view(m).dom().contains(p.0@) {
            members_view(m)
        } else {
            members_view(m).insert(p.0@, json_view(p.1))
        }),
    decreases m.len(),
{
    if m.len() == 0 {
        assert(m.push(p).drop_first() =~= Seq::<(String, JsonValue)>::empty());
        assert(m.push(p)[0] == p);
        assert(members_view(m.push(p).drop_first()) == Map::<Seq<char>, Json>::empty());
        assert(members_view(m) == Map::<Seq<char>, Json>::empty());
    } else {
        assert(m.push(p).drop_first() =~= m.drop_first().push(p));
        lemma_members_push(m.drop_first(), p);
        assert(m.push(p)[0] == m[0]);
        if members_view(m).dom().contains(p.0@) {
            assert(members_view(m.push(p)) =~= members_view(m));
        } else {
            assert(members_view(m.push(p)) =~= members_view(m).insert(p.0@, json_view(p.1)));
        }
    }
}

proof fn lemma_members_empty()
    ensures
        members_view(Seq::<(String, JsonValue)>::empty()) == Map::<Seq<char>, Json>::empty(),
{
}

pub proof fn lemma_items_push(a: Seq<JsonValue>, v: JsonValue)
    ensures
        items_view(a.push(v)) == items_view(a).push(json_view(v)),
    decreases a.len(),
{
    if a.len() == 0 {
        assert(a.push(v).drop_first() =~= Seq::<JsonValue>::empty());
        assert(a.push(v)[0] == v);
        assert(items_view(a.push(v).drop_first()) == Seq::<Json>::empty());
        assert(items_view(a) == Seq::<Json>::empty());
        assert(items_view(a.push(v)) =~= items_view(a).push(json_view(v)));
    } else {
        assert(a.push(v).drop_first() =~= a.drop_first().push(v));
        lemma_items_push(a.drop_first(), v);
        assert(a.push(v)[0] == a[0]);
        assert(items_view(a) == seq![json_view(a[0])] + items_view(a.drop_first()));
        assert(items_view(a.push(v)) == seq![json_view(a[0])] + items_view(
            a.drop_first().push(v),
        ));
        assert(items_view(a.push(v)) =~= items_view(a).push(json_view(v)));
    }
}

pub proof fn lemma_items_single(v: JsonValue)
    ensures
        items_view(seq![v]) == seq![json_view(v)],
{
    assert(seq![v].drop_first() =~= Seq::<JsonValue>::empty());
    assert(items_view(Seq::<JsonValue>::empty()) == Seq::<Json>::empty());
    assert(items_view(seq![v]) =~= seq![json_view(v)]);
}

pub proof fn lemma_items_empty()
    ensures
        items_view(Seq::<JsonValue>::empty()) == Seq::<Json>::empty(),
{
}

pub proof fn lemma_items_index(a: Seq<JsonValue>, i: int)
    requires
        0 <= i < a.len(),
    ensures
        items_view(a).len() == a.len(),
        items_view(a)[i] == json_view(a[i]),
    decreases a.len(),
{
    lemma_items_len(a);
    if i > 0 {
        lemma_items_index(a.drop_first(), i - 1);
        assert(a.drop_first()[i - 1] == a[i]);
    }
}

pub proof fn lemma_items_len(a: Seq<JsonValue>)
    ensures
        items_view(a).len() == a.len(),
    decreases a.len(),
{
    if a.len() > 0 {
        lemma_items_len(a.drop_first());
    }
}

/// Index of the first member whose key is `k`.
fn first_index(m: &Vec<(String, JsonValue)>, k: &str) -> (r: Option<usize>)
    ensures
        r matches Some(i) ==> i < m@.len() && m@[i as int].0@ == k@ && members_view(
            m@,
        ).dom().contains(k@) && members_view(m@)[k@] == json_view(m@[i as int].1),
        r is None ==> !members_view(m@).dom().contains(k@),
{
    let mut i: usize = 0;
    while i < m.len()
        invariant
            i <= m@.len(),
            forall|j: int| 0 <= j < i ==> (#[trigger] m@[j]).0@ != k@,
        decreases m.len() - i,
    {
        if eq_str(m[i].0.as_str(), k) {
            proof {
                lemma_members_skip(m@, k@, i as int);
                let s = m@.skip(i as int);
                assert(s[0] == m@[i as int]);
            }
            return Some(i);
        }
        i = i + 1;
    }
    proof {
        lemma_members_skip(m@, k@, i as int);
        assert(m@.skip(i as int) =~= Seq::<(String, JsonValue)>::empty());
    }
    None
}

fn remove_members(m: &Vec<(String, JsonValue)>, k: &str) -> (r: Vec<(String, JsonValue)>)
    ensures
        members_view(r@) == members_view(m@).remove(k@),
        keys_ordered(m@) ==> keys_ordered(r@),
        (forall|j: int| 0 <= j < m@.len() ==> json_wf(#[trigger] m@[j].1)) ==> forall|j: int|
            0 <= j < r@.len() ==> json_wf(#[trigger] r@[j].1),
{
    let mut r: Vec<(String, JsonValue)> = Vec::new();
    let mut i: usize = 0;
    while i < m.len()
        invariant
            i <= m@.len(),
            members_view(r@) == members_view(m@.take(i as int)).remove(k@),
            keys_ordered(m@) ==> keys_ordered(r@),
            keys_ordered(m@) ==> forall|a: int, j: int| #![trigger r@[a], m@[j]]
                0 <= a < r@.len() && i <= j < m@.len() ==> key_lt(r@[a].0@, m@[j].0@),
            (forall|j: int| 0 <= j < m@.len() ==> json_wf(#[trigger] m@[j].1)) ==> forall|a: int|
                0 <= a < r@.len() ==> json_wf(#[trigger] r@[a].1),
        decreases m.len() - i,
    {
        let ghost before = members_view(m@.take(i as int));
        proof {
            assert(m@.take(i + 1) =~= m@.take(i as int).push(m@[i as int]));
            lemma_members_push(m@.take(i as int), m@[i as int]);
        }
        if !eq_str(m[i].0.as_str(), k) {
            let key = m[i].0.clone();
            let val = m[i].1.duplicate();
            proof {
                lemma_members_push(r@, (key, val));
            }
            let ghost r0 = r@;
            r.push((key, val));
            proof {
                assert(r@[r0.len() as int] == (key, val));
                assert forall|a: int| 0 <= a < r0.len() implies #[trigger] r@[a] == r0[a] by {}
                if keys_ordered(m@) {
                    assert forall|a: int, b: int| #![trigger r@[a], r@[b]] 0 <= a < b < r@.len() implies key_lt(
                        r@[a].0@,
                        r@[b].0@,
                    ) by {
                        if b == r0.len() {
                            assert(key_lt(r0[a].0@, m@[i as int].0@));
                        }
                    }
                    assert forall|a: int, j: int| #![trigger r@[a], m@[j]]
                        0 <= a < r@.len() && i + 1 <= j < m@.len() implies key_lt(r@[a].0@, m@[j].0@) by {
                        if a == r0.len() {
                            assert(key_lt(m@[i as int].0@, m@[j].0@));
                        } else {
                            assert(key_lt(r0[a].0@, m@[j].0@));
                        }
                    }
                }
                let p = m@[i as int];
                if before.dom().contains(p.0@) {
                    assert(members_view(r@) =~= members_view(m@.take(i + 1)).remove(k@));
                } else {
                    assert(members_view(r@) =~= members_view(m@.take(i + 1)).remove(k@));
                }
            }
        } else {
            proof {
                assert(members_view(r@) =~= members_view(m@.take(i + 1)).remove(k@));
            }
        }
        i = i + 1;
    }
    assert(m@.take(m@.len() as int) =~= m@);
    r
}


pub proof fn lemma_members_dom(m: Seq<(String, JsonValue)>, k: Seq<char>)
    ensures
        members_view(m).dom().contains(k) == (exists|i: int|
            0 <= i < m.len() && (#[trigger] m[i]).0@ == k),
    decreases m.len(),
{
    if m.len() > 0 {
        lemma_members_dom(m.drop_first(), k);
        if members_view(m).dom().contains(k) {
            if m[0].0@ != k {
                let i = choose|i: int| 0 <= i < m.drop_first().len() && (#[trigger] m.drop_first()[i]).0@ == k;
                assert(m[i + 1] == m.drop_first()[i]);
            }
        } else {
            assert forall|i: int| 0 <= i < m.len() implies (#[trigger] m[i]).0@ != k by {
                if i > 0 {
                    assert(m[i] == m.drop_first()[i - 1]);
                }
            }
        }
    }
}

/// A member with a new key, put anywhere, adds just that key.
proof fn lemma_members_insert_at(m: Seq<(String, JsonValue)>, p: int, x: (String, JsonValue))
    requires
        0 <= p <= m.len(),
        !members_view(m).dom().contains(x.0@),
    ensures
        members_view(m.insert(p, x)) == members_view(m).insert(x.0@, json_view(x.1)),
    decreases p,
{
    let t = m.insert(p, x);
    if p == 0 {
        assert(t[0] == x);
        assert(t.drop_first() =~= m);
    } else {
        assert(t[0] == m[0]);
        assert(t.drop_first() =~= m.drop_first().insert(p - 1, x));
        assert(!members_view(m.drop_first()).dom().contains(x.0@));
        lemma_members_insert_at(m.drop_first(), p - 1, x);
        assert(m[0].0@ != x.0@);
        assert(members_view(t) =~= members_view(m).insert(x.0@, json_view(x.1)));
    }
}

/// Where a new member with key `k` goes to keep the keys in order: before the
/// first member whose key comes after `k`, else at the end.
fn insert_position(m: &Vec<(String, JsonValue)>, k: &str) -> (r: usize)
    ensures
        r <= m@.len(),
        forall|j: int| 0 <= j < r ==> !key_lt(k@, (#[trigger] m@[j]).0@),
        r < m@.len() ==> key_lt(k@, m@[r as int].0@),
{
    let mut i: usize = 0;
    while i < m.len()
        invariant
            i <= m@.len(),
            forall|j: int| 0 <= j < i ==> !key_lt(k@, (#[trigger] m@[j]).0@),
        decreases m.len() - i,
    {
        if key_less(k, m[i].0.as_str()) {
            return i;
        }
        i = i + 1;
    }
    i
}

fn num_eq(a: &JsonNumber, b: &JsonNumber) -> (r: bool)
    ensures
        r == (num_view(*a) == num_view(*b)),
{
    match (a, b) {
        (JsonNumber::PosInt(x), JsonNumber::PosInt(y)) => *x == *y,
        (JsonNumber::NegInt(x), JsonNumber::NegInt(y)) => *x == *y,
        (JsonNumber::PosInt(x), JsonNumber::NegInt(y)) => *y >= 0 && *x == *y as u64,
        (JsonNumber::NegInt(x), JsonNumber::PosInt(y)) => *x >= 0 && *x as u64 == *y,
        (JsonNumber::Float(x), JsonNumber::Float(y)) => *x == *y,
        (JsonNumber::Float(_), _) => false,
        (_, JsonNumber::Float(_)) => false,
    }
}

/// `==` on documents: objects compare as maps, arrays item by item.
pub fn json_eq(a: &JsonValue, b: &JsonValue) -> (r: bool)
    ensures
        r == (a@ == b@),
    decreases a,
{
    match (a, b) {
        (JsonValue::Null, JsonValue::Null) => true,
        (JsonValue::Bool(x), JsonValue::Bool(y)) => *x == *y,
        (JsonValue::Number(x), JsonValue::Number(y)) => num_eq(x, y),
        (JsonValue::Str(x), JsonValue::Str(y)) => *x == *y,
        (JsonValue::Array(xa), JsonValue::Array(ya)) => {
            proof {
                lemma_items_len(xa@);
                lemma_items_len(ya@);
            }
            if xa.len() != ya.len() {
                return false;
            }
            let mut i: usize = 0;
            while i < xa.len()
                invariant
                    i <= xa@.len() == ya@.len(),
                    *a == JsonValue::Array(*xa),
                    *b == JsonValue::Array(*ya),
                    items_view(xa@).len() == xa@.len(),
                    items_view(ya@).len() == ya@.len(),
                    forall|j: int| 0 <= j < i ==> items_view(xa@)[j] == items_view(ya@)[j],
                decreases xa.len() - i,
            {
                proof {
                    assert(decreases_to!(*a => (*a)->Array_0));
                    assert(decreases_to!((*a)->Array_0 => (*a)->Array_0@));
                    assert(decreases_to!((*a)->Array_0@ => (*a)->Array_0@[i as int]));
                    lemma_items_index(xa@, i as int);
                    lemma_items_index(ya@, i as int);
                }
                if !json_eq(&xa[i], &ya[i]) {
                    return false;
                }
                i = i + 1;
            }
            assert(items_view(xa@) =~= items_view(ya@));
            true
        },
        (JsonValue::Object(xm), JsonValue::Object(ym)) => {
            let ghost am = members_view(xm@);
            let ghost bm = members_view(ym@);
            let mut i: usize = 0;
            while i < xm.len()
                invariant
                    i <= xm@.len(),
                    *a == JsonValue::Object(*xm),
                    *b == JsonValue::Object(*ym),
                    am == members_view(xm@),
                    bm == members_view(ym@),
                    forall|j: int|
                        0 <= j < i ==> bm.dom().contains((#[trigger] xm@[j]).0@) && am.dom().contains(
                            xm@[j].0@,
                        ) && bm[xm@[j].0@] == am[xm@[j].0@],
                decreases xm.len() - i,
            {
                let k = xm[i].0.as_str();
                let ia = first_index(xm, k);
                proof {
                    lemma_members_dom(xm@, k@);
                    assert(xm@[i as int].0@ == k@);
                }
                let ia = match ia {
                    Some(ia) => ia,
                    None => {
                        return false;
                    },
                };
                match first_index(ym, k) {
                    None => {
                        return false;
                    },
                    Some(ib) => {
                        proof {
                            assert(decreases_to!(*a => (*a)->Object_0));
                            assert(decreases_to!((*a)->Object_0 => (*a)->Object_0@));
                            assert(decreases_to!((*a)->Object_0@ => (*a)->Object_0@[ia as int]));
                            assert(decreases_to!((*a)->Object_0@[ia as int] => (*a)->Object_0@[ia as int].1));
                        }
                        if !json_eq(&xm[ia].1, &ym[ib].1) {
                            return false;
                        }
                    },
                }
                i = i + 1;
            }
            let mut j: usize = 0;
            while j < ym.len()
                invariant
                    j <= ym@.len(),
                    bm == members_view(ym@),
                    am == members_view(xm@),
                    *a == JsonValue::Object(*xm),
                    *b == JsonValue::Object(*ym),
                    forall|q: int| 0 <= q < j ==> am.dom().contains((#[trigger] ym@[q]).0@),
                decreases ym.len() - j,
            {
                if first_index(xm, ym[j].0.as_str()).is_none() {
                    proof {
                        lemma_members_dom(ym@, ym@[j as int].0@);
                        assert(bm.dom().contains(ym@[j as int].0@));
                    }
                    return false;
                }
                j = j + 1;
            }
            proof {
                assert forall|k: Seq<char>| #[trigger] am.dom().contains(k) implies bm.dom().contains(k)
                    && bm[k] == am[k] by {
                    lemma_members_dom(xm@, k);
                    let q = choose|q: int| 0 <= q < xm@.len() && (#[trigger] xm@[q]).0@ == k;
                }
                assert forall|k: Seq<char>| #[trigger] bm.dom().contains(k) implies am.dom().contains(k) by {
                    lemma_members_dom(ym@, k);
                    let q = choose|q: int| 0 <= q < ym@.len() && (#[trigger] ym@[q]).0@ == k;
                }
                assert(am =~= bm);
            }
            true
        },
        _ => false,
    }
}

impl JsonValue {
    /// A copy of the document with the same view.
    pub fn duplicate(&self) -> (r: JsonValue)
        ensures
            r@ == self@,
            json_wf(*self) ==> json_wf(r),
        decreases self,
    {
        match self {
            JsonValue::Null => JsonValue::Null,
            JsonValue::Bool(b) => JsonValue::Bool(*b),
            JsonValue::Number(n) => JsonValue::Number(
                match n {
                    JsonNumber::PosInt(u) => JsonNumber::PosInt(*u),
                    JsonNumber::NegInt(i) => JsonNumber::NegInt(*i),
                    JsonNumber::Float(s) => JsonNumber::Float(s.clone()),
                },
            ),
            JsonValue::Str(s) => JsonValue::Str(s.clone()),
            JsonValue::Array(a) => {
                let mut r: Vec<JsonValue> = Vec::new();
                let mut i: usize = 0;
                proof {
                    lemma_items_wf(a@);
                }
                while i < a.len()
                    invariant
                        i <= a@.len(),
                        *self == JsonValue::Array(*a),
                        items_view(r@) == items_view(a@.take(i as int)),
                        r@.len() == i,
                        json_wf(*self) ==> forall|j: int| 0 <= j < a@.len() ==> json_wf(#[trigger] a@[j]),
                        json_wf(*self) ==> forall|j: int| 0 <= j < i ==> json_wf(#[trigger] r@[j]),
                    decreases a.len() - i,
                {
                    proof {
                        assert(decreases_to!(*self => (*self)->Array_0));
                        assert(decreases_to!((*self)->Array_0 => (*self)->Array_0@));
                        assert(decreases_to!((*self)->Array_0@ => (*self)->Array_0@[i as int]));
                    }
                    let v = a[i].duplicate();
                    proof {
                        lemma_items_push(r@, v);
                        lemma_items_push(a@.take(i as int), a@[i as int]);
                        assert(a@.take(i + 1) =~= a@.take(i as int).push(a@[i as int]));
                    }
                    r.push(v);
                    i = i + 1;
                }
                assert(a@.take(a@.len() as int) =~= a@);
                proof {
                    lemma_items_wf(r@);
                }
                JsonValue::Array(r)
            },
            JsonValue::Object(m) => {
                let mut r: Vec<(String, JsonValue)> = Vec::new();
                let mut i: usize = 0;
                proof {
                    lemma_members_wf(m@);
                }
                while i < m.len()
                    invariant
                        i <= m@.len(),
                        *self == JsonValue::Object(*m),
                        members_view(r@) == members_view(m@.take(i as int)),
                        r@.len() == i,
                        forall|j: int| 0 <= j < i ==> (#[trigger] r@[j]).0@ == m@[j].0@,
                        json_wf(*self) ==> forall|j: int| 0 <= j < m@.len() ==> json_wf(#[trigger] m@[j].1),
                        json_wf(*self) ==> forall|j: int| 0 <= j < i ==> json_wf(#[trigger] r@[j].1),
                    decreases m.len() - i,
                {
                    let key = m[i].0.clone();
                    proof {
                        assert(decreases_to!(*self => (*self)->Object_0));
                        assert(decreases_to!((*self)->Object_0 => (*self)->Object_0@));
                        assert(decreases_to!((*self)->Object_0@ => (*self)->Object_0@[i as int]));
                        assert(decreases_to!((*self)->Object_0@[i as int] => (*self)->Object_0@[i as int].1));
                    }
                    let v = m[i].1.duplicate();
                    proof {
                        lemma_members_push(r@, (key, v));
                        lemma_members_push(m@.take(i as int), m@[i as int]);
                        assert(m@.take(i + 1) =~= m@.take(i as int).push(m@[i as int]));
                    }
                    r.push((key, v));
                    i = i + 1;
                }
                assert(m@.take(m@.len() as int) =~= m@);
                proof {
                    lemma_members_wf(r@);
                    if json_wf(*self) {
                        assert forall|a: int, b: int| #![trigger r@[a], r@[b]] 0 <= a < b < r@.len() implies key_lt(
                            r@[a].0@,
                            r@[b].0@,
                        ) by {
                            assert(m@[a].0@ == r@[a].0@ && m@[b].0@ == r@[b].0@);
                        }
                    }
                }
                JsonValue::Object(r)
            },
        }
    }

    pub fn empty_object() -> (r: JsonValue)
        ensures
            r@ == empty_obj(),
            json_wf(r),
    {
        let r = JsonValue::Object(Vec::new());
        proof {
            lemma_members_empty();
            assert(r@ == Json::Obj(members_view(Seq::empty())));
        }
        r
    }

    pub fn text(s: &str) -> (r: JsonValue)
        ensures
            r@ == jstr(s@),
            json_wf(r),
    {
        JsonValue::Str(s.to_owned())
    }

    pub fn from_string(s: String) -> (r: JsonValue)
        ensures
            r@ == jstr(s@),
            json_wf(r),
    {
        JsonValue::Str(s)
    }

    /// `Value::from(i64)`.
    pub fn from_i64(v: i64) -> (r: JsonValue)
        ensures
            r@ == jint(v as int),
            json_wf(r),
    {
        if v >= 0 {
            JsonValue::Number(JsonNumber::PosInt(v as u64))
        } else {
            JsonValue::Number(JsonNumber::NegInt(v))
        }
    }

    pub fn is_object(&self) -> (r: bool)
        ensures
            r == is_obj(self@),
    {
        match self {
            JsonValue::Object(_) => true,
            _ => false,
        }
    }

    pub fn is_null(&self) -> (r: bool)
        ensures
            r == (self@ is Null),
    {
        match self {
            JsonValue::Null => true,
            _ => false,
        }
    }

    /// `Value::get` for a key.
    pub fn get(&self, k: &str) -> (r: Option<&JsonValue>)
        ensures
            opt_view(r) == field(self@, k@),
            json_wf(*self) ==> (r matches Some(v) ==> json_wf(*v)),
    {
        match self {
            JsonValue::Object(m) => match first_index(m, k) {
                Some(i) => {
                    proof {
                        lemma_members_wf(m@);
                    }
                    Some(&m[i].1)
                },
                None => None,
            },
            _ => None,
        }
    }

    /// `Value::as_str`.
    pub fn as_str(&self) -> (r: Option<&str>)
        ensures
            r matches Some(s) ==> self@ == Json::Str(s@),
            r is None ==> !(self@ is Str),
    {
        match self {
            JsonValue::Str(s) => Some(s.as_str()),
            _ => None,
        }
    }

    /// `Value::as_i64`.
    pub fn as_i64(&self) -> (r: Option<i64>)
        ensures
            r matches Some(v) ==> as_i64(Some(self@)) == Some(v as int),
            r is None ==> as_i64(Some(self@)) is None,
    {
        match self {
            JsonValue::Number(JsonNumber::PosInt(u)) => if *u <= i64::MAX as u64 {
                Some(*u as i64)
            } else {
                None
            },
            JsonValue::Number(JsonNumber::NegInt(i)) => Some(*i),
            _ => None,
        }
    }

    /// `Value::as_bool`.
    pub fn as_bool(&self) -> (r: Option<bool>)
        ensures
            r == as_bool(Some(self@)),
    {
        match self {
            JsonValue::Bool(b) => Some(*b),
            _ => None,
        }
    }

    /// `get(k).and_then(Value::as_str)`.
    pub fn get_str(&self, k: &str) -> (r: Option<&str>)
        ensures
            r matches Some(s) ==> field_str(self@, k@) == Some(s@),
            r is None ==> field_str(self@, k@) is None,
    {
        match self.get(k) {
            Some(v) => v.as_str(),
            None => None,
        }
    }

    /// `get(k).and_then(Value::as_str).unwrap_or("").trim().to_string()`.
    pub fn text_of(&self, k: &str) -> (r: String)
        ensures
            r@ == field_text(self@, k@),
    {
        match self.get_str(k) {
            Some(s) => trim(s),
            None => String::new(),
        }
    }

    /// The trimmed text under `k`, when it is not empty.
    pub fn id_of(&self, k: &str) -> (r: Option<String>)
        ensures
            r matches Some(s) ==> field_id(self@, k@) == Some(s@),
            r is None ==> field_id(self@, k@) is None,
    {
        match self.get_str(k) {
            Some(s) => {
                let t = trim(s);
                if t.as_str().is_empty() {
                    None
                } else {
                    Some(t)
                }
            },
            None => None,
        }
    }

    /// `get(k).and_then(Value::as_i64)`.
    pub fn i64_of(&self, k: &str) -> (r: Option<i64>)
        ensures
            r matches Some(v) ==> as_i64(field(self@, k@)) == Some(v as int),
            r is None ==> as_i64(field(self@, k@)) is None,
    {
        match self.get(k) {
            Some(v) => v.as_i64(),
            None => None,
        }
    }

    /// `get(k).and_then(Value::as_bool)`.
    pub fn bool_of(&self, k: &str) -> (r: Option<bool>)
        ensures
            r == as_bool(field(self@, k@)),
    {
        match self.get(k) {
            Some(v) => v.as_bool(),
            None => None,
        }
    }

    /// `get(k).is_some()`.
    pub fn has(&self, k: &str) -> (r: bool)
        ensures
            r == (field(self@, k@) is Some),
    {
        self.get(k).is_some()
    }

    /// Sets `k` to `v` in an object; the new member takes its place in key order.
    pub fn insert(&mut self, k: &str, v: JsonValue)
        requires
            is_obj(old(self)@),
        ensures
            final(self)@ == with(old(self)@, k@, v@),
            json_wf(*old(self)) && json_wf(v) ==> json_wf(*final(self)),
    {
        match self {
            JsonValue::Object(m) => {
                let ghost m0 = members_view(m@);
                let ghost wf0 = keys_ordered(m@) && members_wf(m@);
                proof {
                    lemma_members_wf(m@);
                }
                let mut r = remove_members(m, k);
                let key = k.to_owned();
                let p = insert_position(&r, k);
                proof {
                    lemma_members_insert_at(r@, p as int, (key, v));
                    lemma_members_dom(r@, k@);
                    if wf0 {
                        assert forall|j: int| 0 <= j < r@.len() implies (#[trigger] r@[j]).0@ != key@ by {}
                        lemma_insert_ordered(r@, p as int, (key, v));
                    }
                }
                let ghost r0 = r@;
                r.insert(p, (key, v));
                proof {
                    if wf0 && json_wf(v) {
                        assert forall|j: int| 0 <= j < r@.len() implies json_wf(#[trigger] r@[j].1) by {
                            if j < p {
                                assert(r@[j] == r0[j]);
                            } else if j > p {
                                assert(r@[j] == r0[j - 1]);
                            }
                        }
                        lemma_members_wf(r@);
                    }
                }
                proof {
                    assert(members_view(r@) =~= m0.insert(k@, v@));
                }
                *m = r;
            },
            _ => {},
        }
    }

    /// Removes `k` from an object.
    pub fn remove(&mut self, k: &str)
        requires
            is_obj(old(self)@),
        ensures
            final(self)@ == without(old(self)@, k@),
            json_wf(*old(self)) ==> json_wf(*final(self)),
    {
        match self {
            JsonValue::Object(m) => {
                proof {
                    lemma_members_wf(m@);
                }
                let r = remove_members(m, k);
                proof {
                    lemma_members_wf(r@);
                }
                *m = r;
            },
            _ => {},
        }
    }
}

// ---------------------------------------------------------------------------
// Compact JSON text, as `serde_json::to_string` writes it.
pub open spec fn hex_char(d: int) -> char {
    if d < 10 {
        digit_char(d)
    } else {
        ((('a' as int) + d - 10) as char)
    }
}

/// One character inside a JSON string: quotes, backslashes and control
/// characters escaped, everything else as it is.
pub open spec fn escape_char(c: char) -> Seq<char> {
    if c == '"' {
        seq!['\\', '"']
    } else if c == '\\' {
        seq!['\\', '\\']
    } else if c == '\n' {
        seq!['\\', 'n']
    } else if c == '\r' {
        seq!['\\', 'r']
    } else if c == '\t' {
        seq!['\\', 't']
    } else if c == '\u{8}' {
        seq!['\\', 'b']
    } else if c == '\u{c}' {
        seq!['\\', 'f']
    } else if (c as int) < 0x20 {
        seq!['\\', 'u', '0', '0', hex_char((c as int) / 16), hex_char((c as int) % 16)]
    } else {
        seq![c]
    }
}

pub open spec fn escape_text(s: Seq<char>) -> Seq<char>
    decreases s.len(),
{
    if s.len() == 0 {
        Seq::empty()
    } else {
        escape_text(s.drop_last()) + escape_char(s.last())
    }
}

pub open spec fn quoted(s: Seq<char>) -> Seq<char> {
    seq!['"'] + escape_text(s) + seq!['"']
}

pub open spec fn json_text(v: JsonValue) -> Seq<char>
    decreases v,
{
    match v {
        JsonValue::Null => "null"@,
        JsonValue::Bool(b) => if b {
            "true"@
        } else {
            "false"@
        },
        JsonValue::Number(JsonNumber::PosInt(u)) => int_dec(u as int),
        JsonValue::Number(JsonNumber::NegInt(i)) => int_dec(i as int),
        JsonValue::Number(JsonNumber::Float(s)) => s@,
        JsonValue::Str(s) => quoted(s@),
        JsonValue::Array(a) => seq!['['] + items_text(a@) + seq![']'],
        JsonValue::Object(m) => seq!['{'] + members_text(m@) + seq!['}'],
    }
}

pub open spec fn items_text(a: Seq<JsonValue>) -> Seq<char>
    decreases a,
{
    if a.len() == 0 {
        Seq::empty()
    } else if a.len() == 1 {
        json_text(a[0])
    } else {
        items_text(a.drop_last()) + seq![','] + json_text(a.last())
    }
}

pub open spec fn members_text(m: Seq<(String, JsonValue)>) -> Seq<char>
    decreases m,
{
    if m.len() == 0 {
        Seq::empty()
    } else if m.len() == 1 {
        quoted(m[0].0@) + seq![':'] + json_text(m[0].1)
    } else {
        members_text(m.drop_last()) + seq![','] + quoted(m.last().0@) + seq![':'] + json_text(
            m.last().1,
        )
    }
}

fn hex_char_exec(d: u32) -> (c: char)
    requires
        d < 16,
    ensures
        c == hex_char(d as int),
{
    if d < 10 {
        digit_char_exec(d as u8)
    } else if d == 10 {
        'a'
    } else if d == 11 {
        'b'
    } else if d == 12 {
        'c'
    } else if d == 13 {
        'd'
    } else if d == 14 {
        'e'
    } else {
        'f'
    }
}

fn push_escaped(out: &mut String, c: char)
    ensures
        final(out)@ == old(out)@ + escape_char(c),
{
    if c == '"' {
        out.push('\\');
        out.push('"');
    } else if c == '\\' {
        out.push('\\');
        out.push('\\');
    } else if c == '\n' {
        out.push('\\');
        out.push('n');
    } else if c == '\r' {
        out.push('\\');
        out.push('r');
    } else if c == '\t' {
        out.push('\\');
        out.push('t');
    } else if c == '\u{8}' {
        out.push('\\');
        out.push('b');
    } else if c == '\u{c}' {
        out.push('\\');
        out.push('f');
    } else if (c as u32) < 32 {
        let n = c as u32;
        assert(n as int == c as int);
        out.push('\\');
        out.push('u');
        out.push('0');
        out.push('0');
        out.push(hex_char_exec(n / 16));
        out.push(hex_char_exec(n % 16));
    } else {
        out.push(c);
    }
    assert(final(out)@ =~= old(out)@ + escape_char(c));
}

/// Appends `s` as a JSON string.
pub fn push_quoted(out: &mut String, s: &str)
    ensures
        final(out)@ == old(out)@ + quoted(s@),
{
    let cs = crate::text::chars_of(s);
    let ghost start = out@;
    out.push('"');
    let mut i: usize = 0;
    assert(cs@.take(0) =~= Seq::<char>::empty());
    while i < cs.len()
        invariant
            i <= cs@.len(),
            cs@ == s@,
            out@ == start + seq!['"'] + escape_text(cs@.take(i as int)),
        decreases cs.len() - i,
    {
        proof {
            assert(cs@.take(i + 1).drop_last() =~= cs@.take(i as int));
        }
        push_escaped(out, cs[i]);
        i = i + 1;
        assert(out@ =~= start + seq!['"'] + escape_text(cs@.take(i as int)));
    }
    out.push('"');
    assert(cs@.take(i as int) =~= s@);
    assert(out@ =~= start + quoted(s@));
}

fn push_int(out: &mut String, v: i128)
    ensures
        final(out)@ == old(out)@ + int_dec(v as int),
{
    let t = crate::text::i128_to_string(v);
    let ghost start = out@;
    let cs = crate::text::chars_of(t.as_str());
    let mut i: usize = 0;
    while i < cs.len()
        invariant
            i <= cs@.len(),
            cs@ == t@,
            out@ == start + cs@.take(i as int),
        decreases cs.len() - i,
    {
        out.push(cs[i]);
        i = i + 1;
        assert(out@ =~= start + cs@.take(i as int));
    }
    assert(cs@.take(i as int) =~= t@);
}

fn push_text(out: &mut String, t: &str)
    ensures
        final(out)@ == old(out)@ + t@,
{
    let ghost start = out@;
    let cs = crate::text::chars_of(t);
    let mut i: usize = 0;
    while i < cs.len()
        invariant
            i <= cs@.len(),
            cs@ == t@,
            out@ == start + cs@.take(i as int),
        decreases cs.len() - i,
    {
        out.push(cs[i]);
        i = i + 1;
        assert(out@ =~= start + cs@.take(i as int));
    }
    assert(cs@.take(i as int) =~= t@);
}

/// Appends the compact JSON text of `v`.
pub fn push_json(out: &mut String, v: &JsonValue)
    ensures
        final(out)@ == old(out)@ + json_text(*v),
    decreases v,
{
    let ghost start = out@;
    match v {
        JsonValue::Null => {
            push_text(out, "null");
        },
        JsonValue::Bool(b) => {
            if *b {
                push_text(out, "true");
            } else {
                push_text(out, "false");
            }
        },
        JsonValue::Number(JsonNumber::PosInt(u)) => {
            push_int(out, *u as i128);
        },
        JsonValue::Number(JsonNumber::NegInt(i)) => {
            push_int(out, *i as i128);
        },
        JsonValue::Number(JsonNumber::Float(s)) => {
            push_text(out, s.as_str());
        },
        JsonValue::Str(s) => {
            push_quoted(out, s.as_str());
        },
        JsonValue::Array(a) => {
            out.push('[');
            let mut i: usize = 0;
            assert(a@.take(0) =~= Seq::<JsonValue>::empty());
            while i < a.len()
                invariant
                    i <= a@.len(),
                    *v == JsonValue::Array(*a),
                    out@ == start + seq!['['] + items_text(a@.take(i as int)),
                decreases a.len() - i,
            {
                proof {
                    assert(decreases_to!(*v => (*v)->Array_0));
                    assert(decreases_to!((*v)->Array_0 => (*v)->Array_0@));
                    assert(decreases_to!((*v)->Array_0@ => (*v)->Array_0@[i as int]));
                    assert(a@.take(i + 1).drop_last() =~= a@.take(i as int));
                    assert(a@.take(i + 1).last() == a@[i as int]);
                    if i == 0 {
                        assert(a@.take(1)[0] == a@[0]);
                    }
                }
                if i > 0 {
                    out.push(',');
                }
                push_json(out, &a[i]);
                i = i + 1;
                assert(out@ =~= start + seq!['['] + items_text(a@.take(i as int)));
            }
            out.push(']');
            assert(a@.take(i as int) =~= a@);
            assert(out@ =~= start + json_text(*v));
        },
        JsonValue::Object(m) => {
            out.push('{');
            let mut i: usize = 0;
            assert(m@.take(0) =~= Seq::<(String, JsonValue)>::empty());
            while i < m.len()
                invariant
                    i <= m@.len(),
                    *v == JsonValue::Object(*m),
                    out@ == start + seq!['{'] + members_text(m@.take(i as int)),
                decreases m.len() - i,
            {
                proof {
                    assert(decreases_to!(*v => (*v)->Object_0));
                    assert(decreases_to!((*v)->Object_0 => (*v)->Object_0@));
                    assert(decreases_to!((*v)->Object_0@ => (*v)->Object_0@[i as int]));
                    assert(decreases_to!((*v)->Object_0@[i as int] => (*v)->Object_0@[i as int].1));
                    assert(m@.take(i + 1).drop_last() =~= m@.take(i as int));
                    assert(m@.take(i + 1).last() == m@[i as int]);
                    if i == 0 {
                        assert(m@.take(1)[0] == m@[0]);
                    }
                }
                if i > 0 {
                    out.push(',');
                }
                push_quoted(out, m[i].0.as_str());
                out.push(':');
                push_json(out, &m[i].1);
                i = i + 1;
                assert(out@ =~= start + seq!['{'] + members_text(m@.take(i as int)));
            }
            out.push('}');
            assert(m@.take(i as int) =~= m@);
            assert(out@ =~= start + json_text(*v));
        },
    }
}

/// `serde_json::to_string` of a document.
pub fn to_json_text(v: &JsonValue) -> (r: String)
    ensures
        r@ == json_text(*v),
{
    let mut out = String::new();
    push_json(&mut out, v);
    assert(out@ =~= json_text(*v));
    out
}

// ---------------------------------------------------------------------------
// Indented JSON text, as `serde_json::to_string_pretty` writes it.
pub open spec fn pretty_text(v: JsonValue, indent: Seq<char>) -> Seq<char>
    decreases v,
{
    match v {
        JsonValue::Array(a) => if a@.len() == 0 {
            "[]"@
        } else {
            seq!['[', '\n'] + pretty_items(a@, indent + seq![' ', ' ']) + seq!['\n'] + indent + seq![']']
        },
        JsonValue::Object(m) => if m@.len() == 0 {
            "{}"@
        } else {
            seq!['{', '\n'] + pretty_members(m@, indent + seq![' ', ' ']) + seq!['\n'] + indent + seq!['}']
        },
        _ => json_text(v),
    }
}

pub open spec fn pretty_items(a: Seq<JsonValue>, indent: Seq<char>) -> Seq<char>
    decreases a,
{
    if a.len() == 0 {
        Seq::empty()
    } else if a.len() == 1 {
        indent + pretty_text(a[0], indent)
    } else {
        pretty_items(a.drop_last(), indent) + seq![',', '\n'] + indent + pretty_text(a.last(), indent)
    }
}

pub open spec fn pretty_members(m: Seq<(String, JsonValue)>, indent: Seq<char>) -> Seq<char>
    decreases m,
{
    if m.len() == 0 {
        Seq::empty()
    } else if m.len() == 1 {
        indent + quoted(m[0].0@) + seq![':', ' '] + pretty_text(m[0].1, indent)
    } else {
        pretty_members(m.drop_last(), indent) + seq![',', '\n'] + indent + quoted(m.last().0@) + seq![
            ':',
            ' ',
        ] + pretty_text(m.last().1, indent)
    }
}

/// Appends the indented JSON text of `v`, nested under `indent`.
pub fn push_pretty(out: &mut String, v: &JsonValue, indent: &str)
    ensures
        final(out)@ == old(out)@ + pretty_text(*v, indent@),
    decreases v,
{
    let ghost start = out@;
    match v {
        JsonValue::Array(a) => {
            if a.len() == 0 {
                push_text(out, "[]");
                return;
            }
            let mut deeper = String::new();
            push_text(&mut deeper, indent);
            deeper.push(' ');
            deeper.push(' ');
            assert(deeper@ =~= indent@ + seq![' ', ' ']);
            out.push('[');
            out.push('\n');
            let mut i: usize = 0;
            assert(a@.take(0) =~= Seq::<JsonValue>::empty());
            assert(out@ =~= start + seq!['[', '\n'] + pretty_items(a@.take(0), deeper@));
            while i < a.len()
                invariant
                    i <= a@.len(),
                    *v == JsonValue::Array(*a),
                    deeper@ == indent@ + seq![' ', ' '],
                    out@ == start + seq!['[', '\n'] + pretty_items(a@.take(i as int), deeper@),
                decreases a.len() - i,
            {
                proof {
                    assert(decreases_to!(*v => (*v)->Array_0));
                    assert(decreases_to!((*v)->Array_0 => (*v)->Array_0@));
                    assert(decreases_to!((*v)->Array_0@ => (*v)->Array_0@[i as int]));
                    assert(a@.take(i + 1).drop_last() =~= a@.take(i as int));
                    assert(a@.take(i + 1).last() == a@[i as int]);
                    if i == 0 {
                        assert(a@.take(1)[0] == a@[0]);
                    }
                }
                if i > 0 {
                    out.push(',');
                    out.push('\n');
                }
                push_text(out, deeper.as_str());
                push_pretty(out, &a[i], deeper.as_str());
                i = i + 1;
                assert(out@ =~= start + seq!['[', '\n'] + pretty_items(a@.take(i as int), deeper@));
            }
            out.push('\n');
            push_text(out, indent);
            out.push(']');
            assert(a@.take(i as int) =~= a@);
            assert(out@ =~= start + pretty_text(*v, indent@));
        },
        JsonValue::Object(m) => {
            if m.len() == 0 {
                push_text(out, "{}");
                return;
            }
            let mut deeper = String::new();
            push_text(&mut deeper, indent);
            deeper.push(' ');
            deeper.push(' ');
            assert(deeper@ =~= indent@ + seq![' ', ' ']);
            out.push('{');
            out.push('\n');
            let mut i: usize = 0;
            assert(m@.take(0) =~= Seq::<(String, JsonValue)>::empty());
            assert(out@ =~= start + seq!['{', '\n'] + pretty_members(m@.take(0), deeper@));
            while i < m.len()
                invariant
                    i <= m@.len(),
                    *v == JsonValue::Object(*m),
                    deeper@ == indent@ + seq![' ', ' '],
                    out@ == start + seq!['{', '\n'] + pretty_members(m@.take(i as int), deeper@),
                decreases m.len() - i,
            {
                proof {
                    assert(decreases_to!(*v => (*v)->Object_0));
                    assert(decreases_to!((*v)->Object_0 => (*v)->Object_0@));
                    assert(decreases_to!((*v)->Object_0@ => (*v)->Object_0@[i as int]));
                    assert(decreases_to!((*v)->Object_0@[i as int] => (*v)->Object_0@[i as int].1));
                    assert(m@.take(i + 1).drop_last() =~= m@.take(i as int));
                    assert(m@.take(i + 1).last() == m@[i as int]);
                    if i == 0 {
                        assert(m@.take(1)[0] == m@[0]);
                    }
                }
                if i > 0 {
                    out.push(',');
                    out.push('\n');
                }
                push_text(out, deeper.as_str());
                push_quoted(out, m[i].0.as_str());
                out.push(':');
                out.push(' ');
                push_pretty(out, &m[i].1, deeper.as_str());
                i = i + 1;
                assert(out@ =~= start + seq!['{', '\n'] + pretty_members(m@.take(i as int), deeper@));
            }
            out.push('\n');
            push_text(out, indent);
            out.push('}');
            assert(m@.take(i as int) =~= m@);
            assert(out@ =~= start + pretty_text(*v, indent@));
        },
        _ => {
            push_json(out, v);
        },
    }
}

/// `serde_json::to_string_pretty` of a document.
pub fn to_pretty_text(v: &JsonValue) -> (r: String)
    ensures
        r@ == pretty_text(*v, Seq::empty()),
{
    let mut out = String::new();
    push_pretty(&mut out, v, "");
    proof {
        reveal_strlit("");
        assert(""@ =~= Seq::<char>::empty());
    }
    assert(out@ =~= pretty_text(*v, Seq::empty()));
    out
}

} // verus!
