//! Records and the references between them.
//!
//! A record is a JSON object with an `id` and an `entity`. Normalization checks
//! each reference field against the records that exist, lets a record take its
//! context (task, project, goal) from the record it points to, and refuses or
//! drops references that lead nowhere.
use vstd::prelude::*;
use crate::text::{
    key_lt, key_less, lemma_key_lt_trans, lemma_key_lt_total, lemma_key_lt_irrefl,
    eq_str, concat, own, chars_of, string_of_range, trim, trimmed, ends_with, ends_with_str,
    before_any, before_any_end,
};
use crate::json::{
    JsonValue, Json, field, field_str, field_id, with, without, jstr, jint, empty_obj, is_obj, as_bool,
    json_wf, lemma_items_wf,
};
use crate::catalog::{expected_entity, expected_entity_of};
use crate::capture::keys_view;

verus! {

// ---------------------------------------------------------------------------
// Looking records up.
/// The views of a list of records.
pub open spec fn views(rs: Seq<JsonValue>) -> Seq<Json> {
    rs.map_values(|r: JsonValue| r@)
}

/// The first record whose `id` is `id`.
pub open spec fn lookup(recs: Seq<Json>, id: Seq<char>) -> Option<Json>
    decreases recs.len(),
{
    if recs.len() == 0 {
        None
    } else if field_str(recs[0], "id"@) == Some(id) {
        Some(recs[0])
    } else {
        lookup(recs.drop_first(), id)
    }
}

/// Whether `id` names a record of the entity `expected`.
pub open spec fn is_valid(recs: Seq<Json>, id: Seq<char>, expected: Seq<char>) -> bool {
    lookup(recs, id) is Some && field_str(lookup(recs, id).unwrap(), "entity"@) == Some(expected)
}

pub open spec fn invalid_msg(id: Seq<char>, expected: Seq<char>) -> Seq<char> {
    "关联记录无效："@ + id + " 不是有效的 "@ + expected
}

pub open spec fn conflict_msg(relation_key: Seq<char>, key: Seq<char>) -> Seq<char> {
    "因果关联跨越不同上下文："@ + relation_key + " 的 "@ + key + " 不一致"@
}

/// `valid_reference`: the record when `id` names one of the expected entity;
/// otherwise an error when strict, nothing when lenient.
pub open spec fn valid_ref(recs: Seq<Json>, id: Seq<char>, expected: Seq<char>, strict: bool) -> Result<
    Option<Json>,
    Seq<char>,
> {
    if is_valid(recs, id, expected) {
        Ok(lookup(recs, id))
    } else if strict {
        Err(invalid_msg(id, expected))
    } else {
        Ok(None)
    }
}

/// The first record whose `id` is `id`.
pub fn record_by_id<'a>(recs: &'a [JsonValue], id: &str) -> (r: Option<&'a JsonValue>)
    ensures
        match r {
            Some(x) => lookup(views(recs@), id@) == Some(x@),
            None => lookup(views(recs@), id@) is None,
        },
        crate::json::all_wf(recs@) ==> (r matches Some(x) ==> json_wf(*x)),
{
    let mut i: usize = 0;
    assert(views(recs@).skip(0) =~= views(recs@));
    while i < recs.len()
        invariant
            i <= recs@.len(),
            lookup(views(recs@), id@) == lookup(views(recs@).skip(i as int), id@),
        decreases recs.len() - i,
    {
        proof {
            assert(views(recs@).skip(i as int).drop_first() =~= views(recs@).skip(i + 1));
            assert(views(recs@).skip(i as int)[0] == recs@[i as int]@);
        }
        match recs[i].get_str("id") {
            Some(s) => {
                if eq_str(s, id) {
                    return Some(&recs[i]);
                }
            },
            None => {},
        }
        i = i + 1;
    }
    proof {
        assert(views(recs@).skip(i as int).len() == 0);
    }
    None
}

fn is_valid_exec(recs: &[JsonValue], id: &str, expected: &str) -> (r: bool)
    ensures
        r == is_valid(views(recs@), id@, expected@),
{
    match record_by_id(recs, id) {
        Some(x) => match x.get_str("entity") {
            Some(e) => eq_str(e, expected),
            None => false,
        },
        None => false,
    }
}

fn invalid_message(id: &str, expected: &str) -> (r: String)
    ensures
        r@ == invalid_msg(id@, expected@),
{
    let a = concat("关联记录无效：", id);
    let b = concat(a.as_str(), " 不是有效的 ");
    concat(b.as_str(), expected)
}

fn conflict_message(relation_key: &str, key: &str) -> (r: String)
    ensures
        r@ == conflict_msg(relation_key@, key@),
{
    let a = concat("因果关联跨越不同上下文：", relation_key);
    let b = concat(a.as_str(), " 的 ");
    let c = concat(b.as_str(), key);
    concat(c.as_str(), " 不一致")
}

/// `valid_reference` over a list of records.
pub fn valid_reference<'a>(recs: &'a [JsonValue], id: &str, expected: &str, strict: bool) -> (r:
    Result<Option<&'a JsonValue>, String>)
    ensures
        match r {
            Ok(Some(x)) => valid_ref(views(recs@), id@, expected@, strict) == Ok::<
                Option<Json>,
                Seq<char>,
            >(Some(x@)),
            Ok(None) => valid_ref(views(recs@), id@, expected@, strict) == Ok::<
                Option<Json>,
                Seq<char>,
            >(None),
            Err(e) => valid_ref(views(recs@), id@, expected@, strict) == Err::<
                Option<Json>,
                Seq<char>,
            >(e@),
        },
{
    if is_valid_exec(recs, id, expected) {
        Ok(record_by_id(recs, id))
    } else if strict {
        Err(invalid_message(id, expected))
    } else {
        Ok(None)
    }
}

// ---------------------------------------------------------------------------
// Editing reference fields.
/// `set_optional_id`: a non-empty id is written, anything else removes the key.
pub open spec fn set_opt(j: Json, k: Seq<char>, v: Option<Seq<char>>) -> Json {
    match v {
        Some(s) => if s.len() > 0 {
            with(j, k, jstr(s))
        } else {
            without(j, k)
        },
        None => without(j, k),
    }
}

/// Writes `v` under `k` when it is a non-empty id, removes `k` otherwise.
pub fn set_optional_id(obj: &mut JsonValue, k: &str, v: Option<String>)
    requires
        is_obj(old(obj)@),
    ensures
        final(obj)@ == set_opt(old(obj)@, k@, match v {
            Some(s) => Some(s@),
            None => None,
        }),
        is_obj(final(obj)@),
        json_wf(*old(obj)) ==> json_wf(*final(obj)),
{
    match v {
        Some(s) => {
            if s.as_str().is_empty() {
                obj.remove(k);
            } else {
                obj.insert(k, JsonValue::from_string(s));
            }
        },
        None => {
            obj.remove(k);
        },
    }
}

pub open spec fn opt_seq(v: Option<String>) -> Option<Seq<char>> {
    match v {
        Some(s) => Some(s@),
        None => None,
    }
}

/// A reference that must name a record of `expected`; a lenient check drops it.
pub open spec fn check_ref(recs: Seq<Json>, j: Json, k: Seq<char>, expected: Seq<char>, strict: bool) -> Result<
    Json,
    Seq<char>,
> {
    match field_id(j, k) {
        None => Ok(j),
        Some(id) => match valid_ref(recs, id, expected, strict) {
            Err(e) => Err(e),
            Ok(None) => Ok(without(j, k)),
            Ok(Some(_)) => Ok(j),
        },
    }
}

/// Each of `keys` set from the record `r` (removed where `r` has none).
pub open spec fn overwrite(j: Json, r: Json, keys: Seq<Seq<char>>) -> Json
    decreases keys.len(),
{
    if keys.len() == 0 {
        j
    } else {
        overwrite(set_opt(j, keys[0], field_id(r, keys[0])), r, keys.drop_first())
    }
}

/// A reference whose record hands down its own context: the id is kept trimmed
/// and each of `keys` is taken from the referenced record.
pub open spec fn adopt(
    recs: Seq<Json>,
    j: Json,
    k: Seq<char>,
    expected: Seq<char>,
    keys: Seq<Seq<char>>,
    strict: bool,
) -> Result<Json, Seq<char>> {
    match field_id(j, k) {
        None => Ok(j),
        Some(id) => match valid_ref(recs, id, expected, strict) {
            Err(e) => Err(e),
            Ok(None) => Ok(without(j, k)),
            Ok(Some(r)) => Ok(overwrite(set_opt(j, k, Some(id)), r, keys)),
        },
    }
}

/// The first of `keys` on which `j` and `r` both have ids and they differ.
pub open spec fn first_conflict(j: Json, r: Json, keys: Seq<Seq<char>>) -> Option<Seq<char>>
    decreases keys.len(),
{
    if keys.len() == 0 {
        None
    } else if field_id(j, keys[0]) is Some && field_id(r, keys[0]) is Some && field_id(j, keys[0])
        != field_id(r, keys[0]) {
        Some(keys[0])
    } else {
        first_conflict(j, r, keys.drop_first())
    }
}

/// Each of `keys` that `j0` has no id for is taken from `r`.
pub open spec fn inherit_missing(j0: Json, j: Json, r: Json, keys: Seq<Seq<char>>) -> Json
    decreases keys.len(),
{
    if keys.len() == 0 {
        j
    } else {
        let j1 = if field_id(j0, keys[0]) is None {
            set_opt(j, keys[0], field_id(r, keys[0]))
        } else {
            j
        };
        inherit_missing(j0, j1, r, keys.drop_first())
    }
}

/// `align_context_from_reference`: a causal reference must share the context
/// it names; the missing context is inherited from the referenced record.
pub open spec fn align(
    recs: Seq<Json>,
    j: Json,
    rk: Seq<char>,
    expected: Seq<char>,
    keys: Seq<Seq<char>>,
    strict: bool,
) -> Result<Json, Seq<char>> {
    match field_id(j, rk) {
        None => Ok(j),
        Some(rid) => match valid_ref(recs, rid, expected, strict) {
            Err(e) => Err(e),
            Ok(None) => Ok(without(j, rk)),
            Ok(Some(r)) => match first_conflict(j, r, keys) {
                Some(k) => if strict {
                    Err(conflict_msg(rk, k))
                } else {
                    Ok(without(j, rk))
                },
                None => Ok(inherit_missing(j, j, r, keys)),
            },
        },
    }
}

pub proof fn lemma_with_keeps_obj(j: Json, k: Seq<char>, v: Option<Seq<char>>)
    requires
        is_obj(j),
    ensures
        is_obj(set_opt(j, k, v)),
{
}

fn check_reference(recs: &[JsonValue], j: &mut JsonValue, k: &str, expected: &str, strict: bool) -> (r:
    Result<(), String>)
    requires
        is_obj(old(j)@),
    ensures
        is_obj(final(j)@),
        json_wf(*old(j)) ==> json_wf(*final(j)),
        match r {
            Ok(()) => check_ref(views(recs@), old(j)@, k@, expected@, strict) == Ok::<
                Json,
                Seq<char>,
            >(final(j)@),
            Err(e) => check_ref(views(recs@), old(j)@, k@, expected@, strict) == Err::<
                Json,
                Seq<char>,
            >(e@),
        },
{
    match j.id_of(k) {
        None => Ok(()),
        Some(id) => match valid_reference(recs, id.as_str(), expected, strict) {
            Err(e) => Err(e),
            Ok(None) => {
                j.remove(k);
                Ok(())
            },
            Ok(Some(_)) => Ok(()),
        },
    }
}

fn overwrite_exec(j: &mut JsonValue, r: &JsonValue, keys: &[&str])
    requires
        is_obj(old(j)@),
    ensures
        is_obj(final(j)@),
        final(j)@ == overwrite(old(j)@, r@, keys_view(keys@)),
        json_wf(*old(j)) ==> json_wf(*final(j)),
{
    let ghost j0 = j@;
    let ghost w0 = json_wf(*j);
    let mut i: usize = 0;
    assert(keys_view(keys@).skip(0) =~= keys_view(keys@));
    while i < keys.len()
        invariant
            i <= keys@.len(),
            is_obj(j@),
            w0 ==> json_wf(*j),
            overwrite(j0, r@, keys_view(keys@)) == overwrite(j@, r@, keys_view(keys@).skip(i as int)),
        decreases keys.len() - i,
    {
        proof {
            assert(keys_view(keys@).skip(i as int).drop_first() =~= keys_view(keys@).skip(i + 1));
            assert(keys_view(keys@).skip(i as int)[0] == keys@[i as int]@);
        }
        let v = r.id_of(keys[i]);
        set_optional_id(j, keys[i], v);
        i = i + 1;
    }
    proof {
        assert(keys_view(keys@).skip(i as int).len() == 0);
    }
}

fn adopt_reference(
    recs: &[JsonValue],
    j: &mut JsonValue,
    k: &str,
    expected: &str,
    keys: &[&str],
    strict: bool,
) -> (r: Result<(), String>)
    requires
        is_obj(old(j)@),
    ensures
        is_obj(final(j)@),
        json_wf(*old(j)) ==> json_wf(*final(j)),
        match r {
            Ok(()) => adopt(views(recs@), old(j)@, k@, expected@, keys_view(keys@), strict) == Ok::<
                Json,
                Seq<char>,
            >(final(j)@),
            Err(e) => adopt(views(recs@), old(j)@, k@, expected@, keys_view(keys@), strict)
                == Err::<Json, Seq<char>>(e@),
        },
{
    match j.id_of(k) {
        None => Ok(()),
        Some(id) => match valid_reference(recs, id.as_str(), expected, strict) {
            Err(e) => Err(e),
            Ok(None) => {
                j.remove(k);
                Ok(())
            },
            Ok(Some(rec)) => {
                set_optional_id(j, k, Some(id));
                overwrite_exec(j, rec, keys);
                Ok(())
            },
        },
    }
}

fn first_conflict_exec(j: &JsonValue, r: &JsonValue, keys: &[&str]) -> (c: Option<usize>)
    ensures
        match c {
            Some(i) => i < keys@.len() && first_conflict(j@, r@, keys_view(keys@)) == Some(
                keys@[i as int]@,
            ),
            None => first_conflict(j@, r@, keys_view(keys@)) is None,
        },
{
    let mut i: usize = 0;
    assert(keys_view(keys@).skip(0) =~= keys_view(keys@));
    while i < keys.len()
        invariant
            i <= keys@.len(),
            first_conflict(j@, r@, keys_view(keys@)) == first_conflict(
                j@,
                r@,
                keys_view(keys@).skip(i as int),
            ),
        decreases keys.len() - i,
    {
        proof {
            assert(keys_view(keys@).skip(i as int).drop_first() =~= keys_view(keys@).skip(i + 1));
            assert(keys_view(keys@).skip(i as int)[0] == keys@[i as int]@);
        }
        match (j.id_of(keys[i]), r.id_of(keys[i])) {
            (Some(a), Some(b)) => {
                if !eq_str(a.as_str(), b.as_str()) {
                    return Some(i);
                }
            },
            _ => {},
        }
        i = i + 1;
    }
    proof {
        assert(keys_view(keys@).skip(i as int).len() == 0);
    }
    None
}

fn inherit_missing_exec(j0: &JsonValue, j: &mut JsonValue, r: &JsonValue, keys: &[&str])
    requires
        is_obj(old(j)@),
    ensures
        is_obj(final(j)@),
        final(j)@ == inherit_missing(j0@, old(j)@, r@, keys_view(keys@)),
        json_wf(*old(j)) ==> json_wf(*final(j)),
{
    let ghost jstart = j@;
    let ghost w0 = json_wf(*j);
    let mut i: usize = 0;
    assert(keys_view(keys@).skip(0) =~= keys_view(keys@));
    while i < keys.len()
        invariant
            i <= keys@.len(),
            is_obj(j@),
            w0 ==> json_wf(*j),
            inherit_missing(j0@, jstart, r@, keys_view(keys@)) == inherit_missing(
                j0@,
                j@,
                r@,
                keys_view(keys@).skip(i as int),
            ),
        decreases keys.len() - i,
    {
        proof {
            assert(keys_view(keys@).skip(i as int).drop_first() =~= keys_view(keys@).skip(i + 1));
            assert(keys_view(keys@).skip(i as int)[0] == keys@[i as int]@);
        }
        if j0.id_of(keys[i]).is_none() {
            let v = r.id_of(keys[i]);
            set_optional_id(j, keys[i], v);
        }
        i = i + 1;
    }
    proof {
        assert(keys_view(keys@).skip(i as int).len() == 0);
    }
}

/// `align_context_from_reference` over a list of records.
pub fn align_context_from_reference(
    recs: &[JsonValue],
    normalized: &mut JsonValue,
    relation_key: &str,
    expected: &str,
    context_keys: &[&str],
    strict: bool,
) -> (r: Result<(), String>)
    requires
        is_obj(old(normalized)@),
    ensures
        is_obj(final(normalized)@),
        json_wf(*old(normalized)) ==> json_wf(*final(normalized)),
        match r {
            Ok(()) => align(
                views(recs@),
                old(normalized)@,
                relation_key@,
                expected@,
                keys_view(context_keys@),
                strict,
            ) == Ok::<Json, Seq<char>>(final(normalized)@),
            Err(e) => align(
                views(recs@),
                old(normalized)@,
                relation_key@,
                expected@,
                keys_view(context_keys@),
                strict,
            ) == Err::<Json, Seq<char>>(e@),
        },
{
    match normalized.id_of(relation_key) {
        None => Ok(()),
        Some(rid) => match valid_reference(recs, rid.as_str(), expected, strict) {
            Err(e) => Err(e),
            Ok(None) => {
                normalized.remove(relation_key);
                Ok(())
            },
            Ok(Some(rec)) => match first_conflict_exec(normalized, rec, context_keys) {
                Some(i) => {
                    if strict {
                        Err(conflict_message(relation_key, context_keys[i]))
                    } else {
                        normalized.remove(relation_key);
                        Ok(())
                    }
                },
                None => {
                    let j0 = normalized.duplicate();
                    inherit_missing_exec(&j0, normalized, rec, context_keys);
                    Ok(())
                },
            },
        },
    }
}

// ---------------------------------------------------------------------------
// Lists of ids.
pub open spec fn strs_of(v: Seq<String>) -> Seq<Seq<char>> {
    v.map_values(|s: String| s@)
}

/// The ids of a comma-separated list: each piece trimmed, empty pieces left out.
pub open spec fn comma_ids(s: Seq<char>) -> Seq<Seq<char>>
    decreases s.len(),
{
    let b = before_any(s, seq![',']);
    let head: Seq<Seq<char>> = if trimmed(b).len() > 0 {
        seq![trimmed(b)]
    } else {
        Seq::empty()
    };
    if b.len() >= s.len() {
        head
    } else {
        head + comma_ids(s.skip(b.len() + 1int))
    }
}

/// The text items of an array, in order.
pub open spec fn str_items(a: Seq<Json>) -> Seq<Seq<char>>
    decreases a.len(),
{
    if a.len() == 0 {
        Seq::empty()
    } else {
        let rest = str_items(a.drop_last());
        match a.last() {
            Json::Str(s) => rest.push(s),
            _ => rest,
        }
    }
}

/// The ids that a list field holds: the texts of an array, or a comma-separated text.
pub open spec fn ids_in(v: Option<Json>) -> Seq<Seq<char>> {
    match v {
        Some(Json::Arr(a)) => str_items(a),
        Some(Json::Str(s)) => comma_ids(s),
        _ => Seq::empty(),
    }
}

fn comma_list() -> (r: Vec<char>)
    ensures
        r@ == seq![','],
{
    let r = vec![','];
    assert(r@ =~= seq![',']);
    r
}

/// The ids of a comma-separated list.
pub fn split_ids(s: &str) -> (r: Vec<String>)
    ensures
        strs_of(r@) == comma_ids(s@),
{
    let cs = chars_of(s);
    let ds = comma_list();
    let n = cs.len();
    let mut out: Vec<String> = Vec::new();
    let mut pos: usize = 0;
    assert(cs@.skip(0) =~= cs@);
    while pos <= n
        invariant
            pos <= n,
            n == cs@.len(),
            cs@ == s@,
            ds@ == seq![','],
            comma_ids(s@) == strs_of(out@) + comma_ids(cs@.skip(pos as int)),
        decreases n + 1 - pos,
    {
        let end = before_any_end(cs.as_slice(), pos, ds.as_slice());
        let seg = string_of_range(cs.as_slice(), pos, end);
        let t = trim(seg.as_str());
        let ghost rest = cs@.skip(pos as int);
        let ghost b = before_any(rest, seq![',']);
        proof {
            assert(cs@.subrange(pos as int, n as int) =~= rest);
            assert(seg@ == b);
        }
        let ghost before = strs_of(out@);
        if !t.as_str().is_empty() {
            out.push(t);
            proof {
                assert(strs_of(out@) =~= before.push(trimmed(b)));
            }
        }
        proof {
            let head: Seq<Seq<char>> = if trimmed(b).len() > 0 {
                seq![trimmed(b)]
            } else {
                Seq::empty()
            };
            assert(strs_of(out@) =~= before + head);
        }
        if end == n {
            proof {
                assert(b.len() >= rest.len());
                assert(comma_ids(s@) =~= strs_of(out@));
            }
            return out;
        }
        proof {
            assert(b.len() < rest.len());
            assert(rest.skip(b.len() + 1int) =~= cs@.skip(end + 1));
            let head: Seq<Seq<char>> = if trimmed(b).len() > 0 {
                seq![trimmed(b)]
            } else {
                Seq::empty()
            };
            assert(comma_ids(rest) == head + comma_ids(rest.skip(b.len() + 1int)));
            assert(comma_ids(s@) =~= strs_of(out@) + comma_ids(cs@.skip(end + 1)));
        }
        pos = end + 1;
    }
    out
}

proof fn lemma_items_take(a: Seq<JsonValue>, i: int)
    requires
        0 <= i <= a.len(),
    ensures
        crate::json::items_view(a.take(i)) == crate::json::items_view(a).take(i),
{
    crate::json::lemma_items_len(a);
    crate::json::lemma_items_len(a.take(i));
    assert forall|q: int| 0 <= q < i implies crate::json::items_view(a.take(i))[q]
        == crate::json::items_view(a).take(i)[q] by {
        crate::json::lemma_items_index(a.take(i), q);
        crate::json::lemma_items_index(a, q);
    }
    assert(crate::json::items_view(a.take(i)) =~= crate::json::items_view(a).take(i));
}

/// The ids that a list field holds.
pub fn ids_of(v: &JsonValue) -> (r: Vec<String>)
    ensures
        strs_of(r@) == ids_in(Some(v@)),
{
    match v {
        JsonValue::Array(a) => {
            let mut out: Vec<String> = Vec::new();
            let mut i: usize = 0;
            proof {
                crate::json::lemma_items_len(a@);
                lemma_items_take(a@, 0);
                assert(crate::json::items_view(a@).take(0) =~= Seq::<Json>::empty());
                assert(strs_of(out@) =~= Seq::<Seq<char>>::empty());
            }
            while i < a.len()
                invariant
                    i <= a@.len(),
                    *v == JsonValue::Array(*a),
                    crate::json::items_view(a@).len() == a@.len(),
                    strs_of(out@) == str_items(crate::json::items_view(a@).take(i as int)),
                decreases a.len() - i,
            {
                let ghost before = strs_of(out@);
                proof {
                    crate::json::lemma_items_index(a@, i as int);
                    let t = crate::json::items_view(a@).take(i + 1);
                    assert(t.drop_last() =~= crate::json::items_view(a@).take(i as int));
                    assert(t.last() == a@[i as int]@);
                }
                match &a[i] {
                    JsonValue::Str(s) => {
                        out.push(s.clone());
                        proof {
                            assert(strs_of(out@) =~= before.push(s@));
                        }
                    },
                    _ => {},
                }
                i = i + 1;
            }
            proof {
                assert(crate::json::items_view(a@).take(i as int) =~= crate::json::items_view(a@));
            }
            out
        },
        JsonValue::Str(s) => split_ids(s.as_str()),
        _ => Vec::new(),
    }
}

// ---------------------------------------------------------------------------
// Checking every reference field.
/// The ids of `ids` that name records of `expected`, in order.
pub open spec fn valid_ids(recs: Seq<Json>, ids: Seq<Seq<char>>, expected: Seq<char>) -> Seq<Seq<char>>
    decreases ids.len(),
{
    if ids.len() == 0 {
        Seq::empty()
    } else {
        let rest = valid_ids(recs, ids.drop_last(), expected);
        if is_valid(recs, ids.last(), expected) {
            rest.push(ids.last())
        } else {
            rest
        }
    }
}

/// The first of `ids` that names no record of `expected`.
pub open spec fn first_invalid(recs: Seq<Json>, ids: Seq<Seq<char>>, expected: Seq<char>) -> Option<
    Seq<char>,
>
    decreases ids.len(),
{
    if ids.len() == 0 {
        None
    } else {
        match first_invalid(recs, ids.drop_last(), expected) {
            Some(x) => Some(x),
            None => if is_valid(recs, ids.last(), expected) {
                None
            } else {
                Some(ids.last())
            },
        }
    }
}

pub open spec fn jstrs(ids: Seq<Seq<char>>) -> Seq<Json> {
    ids.map_values(|s: Seq<char>| Json::Str(s))
}

/// What normalization leaves under a reference key `k` of the object `m`
/// (`None`: the key is dropped).
pub open spec fn key_fix(recs: Seq<Json>, m: Map<Seq<char>, Json>, k: Seq<char>) -> Option<Json> {
    let e = expected_entity_of(k).unwrap();
    if ends_with(k, "Ids"@) {
        Some(Json::Arr(jstrs(valid_ids(recs, ids_in(Some(m[k])), e))))
    } else {
        match field_id(Json::Obj(m), k) {
            Some(id) => if is_valid(recs, id, e) {
                Some(m[k])
            } else {
                None
            },
            None => Some(m[k]),
        }
    }
}

/// The error that strict normalization reports for the reference key `k`.
pub open spec fn key_error(recs: Seq<Json>, m: Map<Seq<char>, Json>, k: Seq<char>) -> Option<
    Seq<char>,
> {
    let e = expected_entity_of(k).unwrap();
    if ends_with(k, "Ids"@) {
        match first_invalid(recs, ids_in(Some(m[k])), e) {
            Some(id) => Some(invalid_msg(id, e)),
            None => None,
        }
    } else {
        match field_id(Json::Obj(m), k) {
            Some(id) => if is_valid(recs, id, e) {
                None
            } else {
                Some(invalid_msg(id, e))
            },
            None => None,
        }
    }
}

/// `m` with the reference keys of `done` checked.
pub open spec fn fixed_upto(recs: Seq<Json>, m: Map<Seq<char>, Json>, done: Set<Seq<char>>) -> Map<
    Seq<char>,
    Json,
> {
    Map::new(
        |k: Seq<char>|
            m.dom().contains(k) && (!(done.contains(k) && expected_entity_of(k) is Some) || key_fix(
                recs,
                m,
                k,
            ) is Some),
        |k: Seq<char>|
            if done.contains(k) && expected_entity_of(k) is Some {
                key_fix(recs, m, k).unwrap()
            } else {
                m[k]
            },
    )
}

/// `m` with every reference key checked.
pub open spec fn fixes(recs: Seq<Json>, m: Map<Seq<char>, Json>) -> Map<Seq<char>, Json> {
    fixed_upto(recs, m, m.dom())
}

pub open spec fn failing(recs: Seq<Json>, m: Map<Seq<char>, Json>, k: Seq<char>) -> bool {
    m.dom().contains(k) && expected_entity_of(k) is Some && key_error(recs, m, k) is Some
}

/// The failing key that comes first in key order.
pub open spec fn least_failing(recs: Seq<Json>, m: Map<Seq<char>, Json>) -> Seq<char> {
    choose|k: Seq<char>|
        failing(recs, m, k) && forall|k2: Seq<char>| failing(recs, m, k2) ==> !key_lt(k2, k)
}

/// The check of every reference key: strict checking reports the first failing
/// key in key order; otherwise failing references are dropped and list fields
/// keep only their valid ids.
pub open spec fn check_keys(recs: Seq<Json>, j: Json, strict: bool) -> Result<Json, Seq<char>> {
    match j {
        Json::Obj(m) => if strict && exists|k: Seq<char>| failing(recs, m, k) {
            Err(key_error(recs, m, least_failing(recs, m)).unwrap())
        } else {
            Ok(Json::Obj(fixes(recs, m)))
        },
        _ => Ok(j),
    }
}

enum KeyFix {
    Keep,
    Remove,
    Put(JsonValue),
}

pub open spec fn obj_map(j: Json) -> Map<Seq<char>, Json> {
    match j {
        Json::Obj(m) => m,
        _ => Map::empty(),
    }
}

fn fix_key(recs: &[JsonValue], data: &JsonValue, k: &str, e: &str) -> (f: (KeyFix, Option<String>))
    requires
        is_obj(data@),
        obj_map(data@).dom().contains(k@),
        expected_entity_of(k@) == Some(e@),
    ensures
        match f.0 {
            KeyFix::Keep => key_fix(views(recs@), obj_map(data@), k@) == Some(obj_map(data@)[k@]),
            KeyFix::Remove => key_fix(views(recs@), obj_map(data@), k@) is None,
            KeyFix::Put(v) => key_fix(views(recs@), obj_map(data@), k@) == Some(v@),
        },
        match f.1 {
            Some(msg) => key_error(views(recs@), obj_map(data@), k@) == Some(msg@),
            None => key_error(views(recs@), obj_map(data@), k@) is None,
        },
        f.0 matches KeyFix::Put(v) ==> json_wf(v),
{
    let ghost rv = views(recs@);
    let ghost m = obj_map(data@);
    assert(data@ == Json::Obj(m));
    if ends_with_str(k, "Ids") {
        let v = data.get(k).unwrap();
        let ids = ids_of(v);
        let ghost idv = strs_of(ids@);
        let mut vals: Vec<JsonValue> = Vec::new();
        let mut err: Option<String> = None;
        let mut i: usize = 0;
        proof {
            assert(idv.take(0) =~= Seq::<Seq<char>>::empty());
            assert(crate::json::items_view(vals@) =~= jstrs(valid_ids(rv, idv.take(0), e@)));
        }
        while i < ids.len()
            invariant
                i <= ids@.len(),
                idv == strs_of(ids@),
                rv == views(recs@),
                crate::json::items_view(vals@) == jstrs(valid_ids(rv, idv.take(i as int), e@)),
                forall|q: int| 0 <= q < vals@.len() ==> (#[trigger] vals@[q]) is Str,
                match err {
                    Some(x) => first_invalid(rv, idv.take(i as int), e@) == Some(x@),
                    None => first_invalid(rv, idv.take(i as int), e@) is None,
                },
            decreases ids.len() - i,
        {
            proof {
                assert(idv.take(i + 1).drop_last() =~= idv.take(i as int));
                assert(idv.take(i + 1).last() == ids@[i as int]@);
            }
            let ok = is_valid_exec(recs, ids[i].as_str(), e);
            if ok {
                let item = JsonValue::Str(ids[i].clone());
                proof {
                    crate::json::lemma_items_push(vals@, item);
                }
                vals.push(item);
                proof {
                    assert(crate::json::items_view(vals@) =~= jstrs(
                        valid_ids(rv, idv.take(i + 1), e@),
                    ));
                }
            } else {
                if err.is_none() {
                    err = Some(ids[i].clone());
                }
            }
            i = i + 1;
        }
        proof {
            assert(idv.take(i as int) =~= idv);
            lemma_items_wf(vals@);
        }
        let msg = match err {
            Some(id) => Some(invalid_message(id.as_str(), e)),
            None => None,
        };
        (KeyFix::Put(JsonValue::Array(vals)), msg)
    } else {
        match data.id_of(k) {
            Some(id) => {
                if is_valid_exec(recs, id.as_str(), e) {
                    (KeyFix::Keep, None)
                } else {
                    (KeyFix::Remove, Some(invalid_message(id.as_str(), e)))
                }
            },
            None => (KeyFix::Keep, None),
        }
    }
}

/// The keys of the first `i` members.
pub open spec fn done_keys(ms: Seq<(String, JsonValue)>, i: int) -> Set<Seq<char>> {
    Set::new(|k: Seq<char>| exists|q: int| 0 <= q < i && (#[trigger] ms[q]).0@ == k)
}

/// Checks every reference key of the object `data`.
fn check_all_keys(recs: &[JsonValue], data: &JsonValue, strict: bool) -> (r: Result<JsonValue, String>)
    requires
        is_obj(data@),
    ensures
        match r {
            Ok(v) => check_keys(views(recs@), data@, strict) == Ok::<Json, Seq<char>>(v@) && is_obj(
                v@,
            ),
            Err(e) => check_keys(views(recs@), data@, strict) == Err::<Json, Seq<char>>(e@),
        },
        json_wf(*data) ==> (r matches Ok(v) ==> json_wf(v)),
{
    let ghost rv = views(recs@);
    match data {
        JsonValue::Object(m) => {
            let ghost mm = obj_map(data@);
            let mut out = data.duplicate();
            let mut best: Option<(String, String)> = None;
            let mut i: usize = 0;
            proof {
                assert(fixed_upto(rv, mm, done_keys(m@, 0)) =~= mm);
            }
            while i < m.len()
                invariant
                    i <= m@.len(),
                    *data == JsonValue::Object(*m),
                    mm == obj_map(data@),
                    data@ == Json::Obj(mm),
                    mm == crate::json::members_view(m@),
                    rv == views(recs@),
                    out@ == Json::Obj(fixed_upto(rv, mm, done_keys(m@, i as int))),
                    json_wf(*data) ==> json_wf(out),
                    match best {
                        Some(b) => done_keys(m@, i as int).contains(b.0@) && failing(rv, mm, b.0@)
                            && key_error(rv, mm, b.0@) == Some(b.1@) && forall|k2: Seq<char>|
                            done_keys(m@, i as int).contains(k2) && failing(rv, mm, k2) ==> !key_lt(
                                k2,
                                b.0@,
                            ),
                        None => forall|k2: Seq<char>|
                            done_keys(m@, i as int).contains(k2) ==> !failing(rv, mm, k2),
                    },
                decreases m.len() - i,
            {
                let k = m[i].0.as_str();
                let ghost d0 = done_keys(m@, i as int);
                let ghost d1 = done_keys(m@, i + 1);
                proof {
                    crate::json::lemma_members_dom(m@, k@);
                    assert(d1 =~= d0.insert(k@));
                }
                match expected_entity(k) {
                    None => {
                        proof {
                            assert(fixed_upto(rv, mm, d1) =~= fixed_upto(rv, mm, d0));
                            assert(!failing(rv, mm, k@));
                        }
                    },
                    Some(e) => {
                        let (f, er) = fix_key(recs, data, k, e);
                        match f {
                            KeyFix::Keep => {
                                proof {
                                    assert(fixed_upto(rv, mm, d1) =~= fixed_upto(rv, mm, d0));
                                }
                            },
                            KeyFix::Remove => {
                                out.remove(k);
                                proof {
                                    assert(fixed_upto(rv, mm, d1) =~= fixed_upto(rv, mm, d0).remove(
                                        k@,
                                    ));
                                }
                            },
                            KeyFix::Put(v) => {
                                let ghost vv = v@;
                                out.insert(k, v);
                                proof {
                                    assert(fixed_upto(rv, mm, d1) =~= fixed_upto(rv, mm, d0).insert(
                                        k@,
                                        vv,
                                    ));
                                }
                            },
                        }
                        match er {
                            Some(msg) => {
                                let better = match &best {
                                    None => true,
                                    Some(b) => key_less(k, b.0.as_str()),
                                };
                                proof {
                                    lemma_key_lt_irrefl(k@);
                                    if best is Some && better {
                                        let bk = (best->0).0;
                                        assert forall|k2: Seq<char>|
                                            d1.contains(k2) && failing(rv, mm, k2) implies !key_lt(
                                            k2,
                                            k@,
                                        ) by {
                                            if key_lt(k2, k@) && k2 != k@ {
                                                lemma_key_lt_trans(k2, k@, bk@);
                                            }
                                        }
                                    }
                                }
                                if better {
                                    best = Some((k.to_owned(), msg));
                                }
                            },
                            None => {},
                        }
                    },
                }
                i = i + 1;
            }
            proof {
                assert forall|k2: Seq<char>| mm.dom().contains(k2) implies done_keys(
                    m@,
                    i as int,
                ).contains(k2) by {
                    crate::json::lemma_members_dom(m@, k2);
                }
                assert(fixed_upto(rv, mm, done_keys(m@, i as int)) =~= fixes(rv, mm));
            }
            if strict {
                match best {
                    Some(b) => {
                        proof {
                            let c = least_failing(rv, mm);
                            assert(failing(rv, mm, b.0@) && forall|k2: Seq<char>|
                                failing(rv, mm, k2) ==> !key_lt(k2, b.0@));
                            if c != b.0@ {
                                lemma_key_lt_total(c, b.0@);
                            }
                        }
                        return Err(b.1);
                    },
                    None => {},
                }
            }
            Ok(out)
        },
        _ => Ok(data.duplicate()),
    }
}

// ---------------------------------------------------------------------------
// Normalizing a record.
/// A document that is not an object starts over as an empty object.
pub open spec fn start(data: Json) -> Json {
    if is_obj(data) {
        data
    } else {
        empty_obj()
    }
}

/// A project's goal must exist.
pub open spec fn step_projects(recs: Seq<Json>, j: Json, entity: Seq<char>, strict: bool) -> Result<
    Json,
    Seq<char>,
> {
    if entity == "projects"@ {
        check_ref(recs, j, "goalId"@, "goals"@, strict)
    } else {
        Ok(j)
    }
}

/// A task takes its goal from its project; without a project its goal must exist.
pub open spec fn step_tasks(recs: Seq<Json>, j: Json, entity: Seq<char>, strict: bool) -> Result<
    Json,
    Seq<char>,
> {
    if entity == "tasks"@ {
        match adopt(recs, j, "projectId"@, "projects"@, seq!["goalId"@], strict) {
            Err(e) => Err(e),
            Ok(j1) => if field_id(j1, "projectId"@) is None {
                check_ref(recs, j1, "goalId"@, "goals"@, strict)
            } else {
                Ok(j1)
            },
        }
    } else {
        Ok(j)
    }
}

pub open spec fn is_work_record(entity: Seq<char>) -> bool {
    entity == "timeLogs"@ || entity == "results"@ || entity == "reviews"@ || entity == "decisions"@
}

/// Time logs, results, reviews and decisions take project and goal from their
/// task, or the goal from their project when they have no task.
pub open spec fn step_work(recs: Seq<Json>, j: Json, entity: Seq<char>, strict: bool) -> Result<
    Json,
    Seq<char>,
> {
    if is_work_record(entity) {
        match adopt(recs, j, "taskId"@, "tasks"@, seq!["projectId"@, "goalId"@], strict) {
            Err(e) => Err(e),
            Ok(j1) => if field_id(j1, "taskId"@) is None {
                adopt(recs, j1, "projectId"@, "projects"@, seq!["goalId"@], strict)
            } else {
                Ok(j1)
            },
        }
    } else {
        Ok(j)
    }
}

pub open spec fn work_keys() -> Seq<Seq<char>> {
    seq!["taskId"@, "projectId"@, "goalId"@]
}

/// Causal references: a task's decision, a review's result, an insight's review
/// (or result) must share the record's context.
pub open spec fn step_causal(recs: Seq<Json>, j: Json, entity: Seq<char>, strict: bool) -> Result<
    Json,
    Seq<char>,
> {
    if entity == "tasks"@ {
        align(recs, j, "decisionId"@, "decisions"@, seq!["projectId"@, "goalId"@], strict)
    } else if entity == "reviews"@ {
        align(recs, j, "resultId"@, "results"@, work_keys(), strict)
    } else if entity == "insights"@ {
        if field_id(j, "reviewId"@) is Some {
            align(recs, j, "reviewId"@, "reviews"@, work_keys(), strict)
        } else {
            align(recs, j, "resultId"@, "results"@, work_keys(), strict)
        }
    } else {
        Ok(j)
    }
}

/// A time log's status follows whether it is running.
pub open spec fn step_timer(j: Json, entity: Seq<char>) -> Json {
    if entity == "timeLogs"@ {
        with(
            j,
            "status"@,
            jstr(
                if as_bool(field(j, "isRunning"@)) == Some(true) {
                    "running"@
                } else {
                    "completed"@
                },
            ),
        )
    } else {
        j
    }
}

/// `normalize_record`: what a record of `entity` becomes before it is stored.
pub open spec fn normalize_of(recs: Seq<Json>, entity: Seq<char>, data: Json, strict: bool) -> Result<
    Json,
    Seq<char>,
> {
    match step_projects(recs, start(data), entity, strict) {
        Err(e) => Err(e),
        Ok(j1) => match step_tasks(recs, j1, entity, strict) {
            Err(e) => Err(e),
            Ok(j2) => match step_work(recs, j2, entity, strict) {
                Err(e) => Err(e),
                Ok(j3) => match step_causal(recs, j3, entity, strict) {
                    Err(e) => Err(e),
                    Ok(j4) => check_keys(recs, step_timer(j4, entity), strict),
                },
            },
        },
    }
}

pub open spec fn result_view(r: Result<JsonValue, String>) -> Result<Json, Seq<char>> {
    match r {
        Ok(v) => Ok(v@),
        Err(e) => Err(e@),
    }
}

/// Normalizes `data` as a record of `entity` against the records `recs`:
/// strict normalization refuses invalid references and context conflicts,
/// lenient normalization drops them.
pub fn normalize_record(recs: &[JsonValue], entity: &str, data: &JsonValue, strict: bool) -> (r: Result<
    JsonValue,
    String,
>)
    ensures
        result_view(r) == normalize_of(views(recs@), entity@, data@, strict),
        r matches Ok(v) ==> is_obj(v@),
        json_wf(*data) ==> (r matches Ok(v) ==> json_wf(v)),
{
    let ghost rv = views(recs@);
    let mut j = if data.is_object() {
        data.duplicate()
    } else {
        JsonValue::empty_object()
    };
    assert(j@ == start(data@));
    let ghost j0 = j@;
    if eq_str(entity, "projects") {
        match check_reference(recs, &mut j, "goalId", "goals", strict) {
            Err(e) => return Err(e),
            Ok(()) => {},
        }
    }
    assert(step_projects(rv, j0, entity@, strict) == Ok::<Json, Seq<char>>(j@));
    let ghost j1 = j@;
    if eq_str(entity, "tasks") {
        let gk = vec!["goalId"];
        assert(keys_view(gk@) =~= seq!["goalId"@]);
        match adopt_reference(recs, &mut j, "projectId", "projects", gk.as_slice(), strict) {
            Err(e) => return Err(e),
            Ok(()) => {},
        }
        if j.id_of("projectId").is_none() {
            match check_reference(recs, &mut j, "goalId", "goals", strict) {
                Err(e) => return Err(e),
                Ok(()) => {},
            }
        }
    }
    assert(step_tasks(rv, j1, entity@, strict) == Ok::<Json, Seq<char>>(j@));
    let ghost j2 = j@;
    if eq_str(entity, "timeLogs") || eq_str(entity, "results") || eq_str(entity, "reviews")
        || eq_str(entity, "decisions") {
        let tk = vec!["projectId", "goalId"];
        assert(keys_view(tk@) =~= seq!["projectId"@, "goalId"@]);
        match adopt_reference(recs, &mut j, "taskId", "tasks", tk.as_slice(), strict) {
            Err(e) => return Err(e),
            Ok(()) => {},
        }
        if j.id_of("taskId").is_none() {
            let gk = vec!["goalId"];
            assert(keys_view(gk@) =~= seq!["goalId"@]);
            match adopt_reference(recs, &mut j, "projectId", "projects", gk.as_slice(), strict) {
                Err(e) => return Err(e),
                Ok(()) => {},
            }
        }
    }
    assert(step_work(rv, j2, entity@, strict) == Ok::<Json, Seq<char>>(j@));
    let ghost j3 = j@;
    let wk = vec!["taskId", "projectId", "goalId"];
    assert(keys_view(wk@) =~= work_keys());
    if eq_str(entity, "tasks") {
        let pk = vec!["projectId", "goalId"];
        assert(keys_view(pk@) =~= seq!["projectId"@, "goalId"@]);
        match align_context_from_reference(recs, &mut j, "decisionId", "decisions", pk.as_slice(), strict) {
            Err(e) => return Err(e),
            Ok(()) => {},
        }
    } else if eq_str(entity, "reviews") {
        match align_context_from_reference(recs, &mut j, "resultId", "results", wk.as_slice(), strict) {
            Err(e) => return Err(e),
            Ok(()) => {},
        }
    } else if eq_str(entity, "insights") {
        if j.id_of("reviewId").is_some() {
            match align_context_from_reference(recs, &mut j, "reviewId", "reviews", wk.as_slice(), strict) {
                Err(e) => return Err(e),
                Ok(()) => {},
            }
        } else {
            match align_context_from_reference(recs, &mut j, "resultId", "results", wk.as_slice(), strict) {
                Err(e) => return Err(e),
                Ok(()) => {},
            }
        }
    }
    assert(step_causal(rv, j3, entity@, strict) == Ok::<Json, Seq<char>>(j@));
    let ghost j4 = j@;
    if eq_str(entity, "timeLogs") {
        let running = match j.bool_of("isRunning") {
            Some(b) => b,
            None => false,
        };
        if running {
            j.insert("status", JsonValue::text("running"));
        } else {
            j.insert("status", JsonValue::text("completed"));
        }
    }
    assert(j@ == step_timer(j4, entity@));
    check_all_keys(recs, &j, strict)
}

// ---------------------------------------------------------------------------
// What normalization promises.
/// Lenient normalization never refuses a record.
pub proof fn lemma_lenient_normalization_succeeds(recs: Seq<Json>, entity: Seq<char>, data: Json)
    ensures
        normalize_of(recs, entity, data, false) is Ok,
{
}

/// A record that passes strict normalization is stored exactly as lenient
/// normalization would store it.
pub proof fn lemma_strict_success_matches_lenient(
    recs: Seq<Json>,
    entity: Seq<char>,
    data: Json,
    v: Json,
)
    requires
        normalize_of(recs, entity, data, true) == Ok::<Json, Seq<char>>(v),
    ensures
        normalize_of(recs, entity, data, false) == Ok::<Json, Seq<char>>(v),
{
    let j1 = step_projects(recs, start(data), entity, true)->Ok_0;
    let j2 = step_tasks(recs, j1, entity, true)->Ok_0;
    let j3 = step_work(recs, j2, entity, true)->Ok_0;
    let j4 = step_causal(recs, j3, entity, true)->Ok_0;
    assert(step_projects(recs, start(data), entity, false) == Ok::<Json, Seq<char>>(j1));
    assert(step_tasks(recs, j1, entity, false) == Ok::<Json, Seq<char>>(j2));
    assert(step_work(recs, j2, entity, false) == Ok::<Json, Seq<char>>(j3));
    assert(step_causal(recs, j3, entity, false) == Ok::<Json, Seq<char>>(j4));
}

proof fn lemma_valid_ids_are_valid(recs: Seq<Json>, ids: Seq<Seq<char>>, e: Seq<char>)
    ensures
        forall|i: int|
            0 <= i < valid_ids(recs, ids, e).len() ==> is_valid(
                recs,
                #[trigger] valid_ids(recs, ids, e)[i],
                e,
            ),
    decreases ids.len(),
{
    if ids.len() > 0 {
        lemma_valid_ids_are_valid(recs, ids.drop_last(), e);
        let rest = valid_ids(recs, ids.drop_last(), e);
        assert forall|i: int| 0 <= i < valid_ids(recs, ids, e).len() implies is_valid(
            recs,
            #[trigger] valid_ids(recs, ids, e)[i],
            e,
        ) by {
            if i < rest.len() {
                assert(valid_ids(recs, ids, e)[i] == rest[i]);
            }
        }
    }
}

/// After normalization every reference field names a record of the entity it
/// refers to: a single reference holds the id of such a record (or no id), a
/// list of references holds only such ids.
pub proof fn lemma_normalized_references_are_valid(
    recs: Seq<Json>,
    entity: Seq<char>,
    data: Json,
    strict: bool,
    k: Seq<char>,
)
    requires
        normalize_of(recs, entity, data, strict) is Ok,
        expected_entity_of(k) is Some,
    ensures
        !ends_with(k, "Ids"@) && field_id(normalize_of(recs, entity, data, strict)->Ok_0, k) is Some
            ==> is_valid(
            recs,
            field_id(normalize_of(recs, entity, data, strict)->Ok_0, k)->Some_0,
            expected_entity_of(k)->Some_0,
        ),
        ends_with(k, "Ids"@) && field(normalize_of(recs, entity, data, strict)->Ok_0, k) is Some ==> {
            let f = field(normalize_of(recs, entity, data, strict)->Ok_0, k)->Some_0;
            &&& f is Arr
            &&& forall|i: int|
                0 <= i < f->Arr_0.len() ==> (#[trigger] f->Arr_0[i]) is Str && is_valid(
                    recs,
                    f->Arr_0[i]->Str_0,
                    expected_entity_of(k)->Some_0,
                )
        },
{
    let j1 = step_projects(recs, start(data), entity, strict)->Ok_0;
    let j2 = step_tasks(recs, j1, entity, strict)->Ok_0;
    let j3 = step_work(recs, j2, entity, strict)->Ok_0;
    let j4 = step_causal(recs, j3, entity, strict)->Ok_0;
    let j5 = step_timer(j4, entity);
    let v = normalize_of(recs, entity, data, strict)->Ok_0;
    let e = expected_entity_of(k)->Some_0;
    if j5 is Obj {
        let m = j5->Obj_0;
        assert(v == Json::Obj(fixes(recs, m)));
        if fixes(recs, m).dom().contains(k) {
            if ends_with(k, "Ids"@) {
                let ids = valid_ids(recs, ids_in(Some(m[k])), e);
                lemma_valid_ids_are_valid(recs, ids_in(Some(m[k])), e);
                assert forall|i: int| 0 <= i < jstrs(ids).len() implies (#[trigger] jstrs(ids)[i]) is Str
                    && is_valid(recs, jstrs(ids)[i]->Str_0, e) by {
                    assert(jstrs(ids)[i] == Json::Str(ids[i]));
                }
            }
        }
    }
}

proof fn lemma_ref_key_names()
    ensures
        expected_entity_of("taskId"@) == Some("tasks"@),
        expected_entity_of("projectId"@) == Some("projects"@),
        expected_entity_of("goalId"@) == Some("goals"@),
        !ends_with("taskId"@, "Ids"@),
        !ends_with("projectId"@, "Ids"@),
        !ends_with("goalId"@, "Ids"@),
        "status"@ != "taskId"@ && "status"@ != "projectId"@ && "status"@ != "goalId"@,
        "taskId"@ != "projectId"@ && "taskId"@ != "goalId"@ && "projectId"@ != "goalId"@,
{
    reveal_strlit("taskId");
    reveal_strlit("projectId");
    reveal_strlit("goalId");
    reveal_strlit("Ids");
    reveal_strlit("status");
    reveal_strlit("tasks");
    reveal_strlit("projects");
    reveal_strlit("goals");
    assert(crate::catalog::strip_trailing_s("taskId"@) == "taskId"@);
    assert(crate::catalog::strip_trailing_s("projectId"@) == "projectId"@);
    assert(crate::catalog::strip_trailing_s("goalId"@) == "goalId"@);
    assert("taskId"@.skip(3)[0] != "Ids"@[0]);
    assert("projectId"@.skip(6)[0] != "Ids"@[0]);
    assert("goalId"@.skip(3)[0] != "Ids"@[0]);
    assert("status"@[0] != "taskId"@[0] && "status"@[0] != "goalId"@[0]);
    assert("projectId"@.len() == 9 && "taskId"@.len() == 6 && "goalId"@.len() == 6);
    assert("taskId"@[0] != "goalId"@[0]);
}

/// What the reference check leaves under a single reference key: the value as
/// it was, unless it names no record of the expected kind, when it is dropped.
proof fn lemma_fixed_ref_key(recs: Seq<Json>, m: Map<Seq<char>, Json>, k: Seq<char>)
    requires
        expected_entity_of(k) is Some,
        !ends_with(k, "Ids"@),
    ensures
        field(Json::Obj(fixes(recs, m)), k) == (match field_id(Json::Obj(m), k) {
            Some(id) => if is_valid(recs, id, expected_entity_of(k)->Some_0) {
                field(Json::Obj(m), k)
            } else {
                None::<Json>
            },
            None => field(Json::Obj(m), k),
        }),
{
}

/// A time log, result or decision that ends up without a task but with a
/// project takes its goal from that project: it has the project's goal, and no
/// goal when the project has none (a project's goal that names no goal record
/// is the one exception, as the check of references then drops it).
pub proof fn lemma_work_record_takes_project_goal(
    recs: Seq<Json>,
    entity: Seq<char>,
    data: Json,
    strict: bool,
    p: Seq<char>,
    proj: Json,
)
    requires
        entity == "timeLogs"@ || entity == "results"@ || entity == "decisions"@,
        normalize_of(recs, entity, data, strict) is Ok,
        field_id(normalize_of(recs, entity, data, strict)->Ok_0, "taskId"@) is None,
        field_id(normalize_of(recs, entity, data, strict)->Ok_0, "projectId"@) == Some(p),
        lookup(recs, p) == Some(proj),
        field_id(proj, "goalId"@) is Some ==> is_valid(recs, field_id(proj, "goalId"@)->Some_0, "goals"@),
    ensures
        field(normalize_of(recs, entity, data, strict)->Ok_0, "goalId"@) == (match field_id(proj, "goalId"@) {
            Some(g) => Some(jstr(g)),
            None => None::<Json>,
        }),
{
    lemma_ref_key_names();
    reveal_strlit("timeLogs");
    reveal_strlit("results");
    reveal_strlit("decisions");
    reveal_strlit("projects");
    reveal_strlit("tasks");
    reveal_strlit("reviews");
    reveal_strlit("insights");
    assert(entity != "projects"@ && entity != "tasks"@ && entity != "reviews"@ && entity != "insights"@) by {
        assert("timeLogs"@[0] != "projects"@[0] && "timeLogs"@[0] != "insights"@[0]);
        assert("results"@[2] != "reviews"@[2]);
        assert("decisions"@.len() == 9 && "projects"@.len() == 8 && "insights"@.len() == 8);
        assert("timeLogs"@.len() == 8 && "results"@.len() == 7 && "reviews"@.len() == 7 && "tasks"@.len() == 5);
    }
    assert(is_work_record(entity));
    let v = normalize_of(recs, entity, data, strict)->Ok_0;
    let j0 = start(data);
    assert(is_obj(j0));
    assert(step_projects(recs, j0, entity, strict) == Ok::<Json, Seq<char>>(j0));
    assert(step_tasks(recs, j0, entity, strict) == Ok::<Json, Seq<char>>(j0));
    let a1 = adopt(recs, j0, "taskId"@, "tasks"@, seq!["projectId"@, "goalId"@], strict);
    assert(a1 is Ok);
    let j1 = a1->Ok_0;
    let j3 = step_work(recs, j0, entity, strict)->Ok_0;
    assert(step_causal(recs, j3, entity, strict) == Ok::<Json, Seq<char>>(j3));
    let j5 = step_timer(j3, entity);
    assert(field(j5, "taskId"@) == field(j3, "taskId"@));
    assert(field(j5, "projectId"@) == field(j3, "projectId"@));
    assert(field(j5, "goalId"@) == field(j3, "goalId"@));
    if let Some(tid) = field_id(j0, "taskId"@) {
        if is_valid(recs, tid, "tasks"@) {
            let r = lookup(recs, tid)->Some_0;
            let s1 = set_opt(j0, "taskId"@, Some(tid));
            let s2 = set_opt(s1, "projectId"@, field_id(r, "projectId"@));
            let s3 = set_opt(s2, "goalId"@, field_id(r, "goalId"@));
            assert(seq!["projectId"@, "goalId"@].drop_first() =~= seq!["goalId"@]);
            assert(seq!["goalId"@].drop_first() =~= Seq::<Seq<char>>::empty());
            let ks = seq!["projectId"@, "goalId"@];
            assert(ks[0] == "projectId"@);
            assert(seq!["goalId"@][0] == "goalId"@);
            assert(overwrite(s3, r, Seq::<Seq<char>>::empty()) == s3);
            assert(overwrite(s2, r, seq!["goalId"@]) == overwrite(s3, r, seq!["goalId"@].drop_first()));
            assert(overwrite(s1, r, ks) == overwrite(s2, r, ks.drop_first()));
            assert(j1 == overwrite(s1, r, ks));
            assert(j1 == s3);
            crate::text::lemma_trimmed_idempotent(field_str(j0, "taskId"@)->Some_0);
            assert(field_id(j1, "taskId"@) == Some(tid));
            assert(j3 == j1);
            assert(is_obj(j5));
            lemma_fixed_ref_key(recs, obj_map(j5), "taskId"@);
            assert(j5 == Json::Obj(obj_map(j5)));
            assert(field_id(v, "taskId"@) == Some(tid));
            assert(false);
        }
    }
    assert(field_id(j1, "taskId"@) is None);
    assert(is_obj(j1));
    assert(j3 == adopt(recs, j1, "projectId"@, "projects"@, seq!["goalId"@], strict)->Ok_0);
    assert(is_obj(j3));
    assert(is_obj(j5));
    assert(j5 == Json::Obj(obj_map(j5)));
    assert(v == Json::Obj(fixes(recs, obj_map(j5))));
    lemma_fixed_ref_key(recs, obj_map(j5), "projectId"@);
    lemma_fixed_ref_key(recs, obj_map(j5), "goalId"@);
    let pid = field_id(j1, "projectId"@)->Some_0;
    assert(field_id(j1, "projectId"@) is Some);
    assert(is_valid(recs, pid, "projects"@));
    let r = lookup(recs, pid)->Some_0;
    let s1 = set_opt(j1, "projectId"@, Some(pid));
    assert(seq!["goalId"@].drop_first() =~= Seq::<Seq<char>>::empty());
    assert(seq!["goalId"@][0] == "goalId"@);
    let s2 = set_opt(s1, "goalId"@, field_id(r, "goalId"@));
    assert(overwrite(s2, r, Seq::<Seq<char>>::empty()) == s2);
    assert(overwrite(s1, r, seq!["goalId"@]) == overwrite(s2, r, seq!["goalId"@].drop_first()));
    assert(j3 == overwrite(s1, r, seq!["goalId"@]));
    assert(j3 == s2);
    crate::text::lemma_trimmed_idempotent(field_str(j1, "projectId"@)->Some_0);
    assert(field_id(j3, "projectId"@) == Some(pid));
    assert(p == pid);
    assert(r == proj);
    if let Some(g) = field_id(proj, "goalId"@) {
        crate::text::lemma_trimmed_idempotent(field_str(proj, "goalId"@)->Some_0);
        assert(field(j3, "goalId"@) == Some(jstr(g)));
        assert(field_id(j3, "goalId"@) == Some(g));
    } else {
        assert(field(j3, "goalId"@) is None);
    }
}

/// An id field as a document value: the id as text, nothing when there is none.
pub open spec fn id_value(v: Option<Seq<char>>) -> Option<Json> {
    match v {
        Some(x) => Some(jstr(x)),
        None => None,
    }
}

/// A time log, result or decision that ends up with a task takes its project
/// and goal from that task (no project or goal where the task has none),
/// provided the task's own project and goal name such records.
pub proof fn lemma_work_record_takes_task_context(
    recs: Seq<Json>,
    entity: Seq<char>,
    data: Json,
    strict: bool,
    tid: Seq<char>,
    task: Json,
)
    requires
        entity == "timeLogs"@ || entity == "results"@ || entity == "decisions"@,
        normalize_of(recs, entity, data, strict) is Ok,
        field_id(normalize_of(recs, entity, data, strict)->Ok_0, "taskId"@) == Some(tid),
        lookup(recs, tid) == Some(task),
        field_id(task, "projectId"@) is Some ==> is_valid(recs, field_id(task, "projectId"@)->Some_0, "projects"@),
        field_id(task, "goalId"@) is Some ==> is_valid(recs, field_id(task, "goalId"@)->Some_0, "goals"@),
    ensures
        field(normalize_of(recs, entity, data, strict)->Ok_0, "projectId"@) == id_value(field_id(task, "projectId"@)),
        field(normalize_of(recs, entity, data, strict)->Ok_0, "goalId"@) == id_value(field_id(task, "goalId"@)),
{
    lemma_ref_key_names();
    reveal_strlit("timeLogs");
    reveal_strlit("results");
    reveal_strlit("decisions");
    reveal_strlit("projects");
    reveal_strlit("tasks");
    reveal_strlit("reviews");
    reveal_strlit("insights");
    assert(entity != "projects"@ && entity != "tasks"@ && entity != "reviews"@ && entity != "insights"@) by {
        assert("timeLogs"@[0] != "projects"@[0] && "timeLogs"@[0] != "insights"@[0]);
        assert("results"@[2] != "reviews"@[2]);
        assert("decisions"@.len() == 9 && "projects"@.len() == 8 && "insights"@.len() == 8);
        assert("timeLogs"@.len() == 8 && "results"@.len() == 7 && "reviews"@.len() == 7 && "tasks"@.len() == 5);
    }
    let v = normalize_of(recs, entity, data, strict)->Ok_0;
    let j0 = start(data);
    assert(step_projects(recs, j0, entity, strict) == Ok::<Json, Seq<char>>(j0));
    assert(step_tasks(recs, j0, entity, strict) == Ok::<Json, Seq<char>>(j0));
    let j1 = adopt(recs, j0, "taskId"@, "tasks"@, seq!["projectId"@, "goalId"@], strict)->Ok_0;
    let j3 = step_work(recs, j0, entity, strict)->Ok_0;
    assert(step_causal(recs, j3, entity, strict) == Ok::<Json, Seq<char>>(j3));
    let j5 = step_timer(j3, entity);
    assert(field(j5, "taskId"@) == field(j3, "taskId"@));
    assert(field(j5, "projectId"@) == field(j3, "projectId"@));
    assert(field(j5, "goalId"@) == field(j3, "goalId"@));
    assert(is_obj(j5));
    assert(j5 == Json::Obj(obj_map(j5)));
    assert(v == Json::Obj(fixes(recs, obj_map(j5))));
    lemma_fixed_ref_key(recs, obj_map(j5), "taskId"@);
    lemma_fixed_ref_key(recs, obj_map(j5), "projectId"@);
    lemma_fixed_ref_key(recs, obj_map(j5), "goalId"@);
    assert(field_id(j3, "taskId"@) == Some(tid));
    assert(seq!["goalId"@].drop_first() =~= Seq::<Seq<char>>::empty());
    assert(seq!["goalId"@][0] == "goalId"@);
    let ks = seq!["projectId"@, "goalId"@];
    assert(ks[0] == "projectId"@);
    assert(ks.drop_first() =~= seq!["goalId"@]);
    if field_id(j0, "taskId"@) is Some && is_valid(recs, field_id(j0, "taskId"@)->Some_0, "tasks"@) {
        let t0 = field_id(j0, "taskId"@)->Some_0;
        let r = lookup(recs, t0)->Some_0;
        let s1 = set_opt(j0, "taskId"@, Some(t0));
        let s2 = set_opt(s1, "projectId"@, field_id(r, "projectId"@));
        let s3 = set_opt(s2, "goalId"@, field_id(r, "goalId"@));
        assert(overwrite(s3, r, Seq::<Seq<char>>::empty()) == s3);
        assert(overwrite(s2, r, seq!["goalId"@]) == overwrite(s3, r, seq!["goalId"@].drop_first()));
        assert(overwrite(s1, r, ks) == overwrite(s2, r, ks.drop_first()));
        assert(j1 == s3);
        crate::text::lemma_trimmed_idempotent(field_str(j0, "taskId"@)->Some_0);
        assert(field_id(j1, "taskId"@) == Some(t0));
        assert(j3 == j1);
        assert(t0 == tid);
        assert(r == task);
        if let Some(pp) = field_id(task, "projectId"@) {
            crate::text::lemma_trimmed_idempotent(field_str(task, "projectId"@)->Some_0);
            assert(field_id(j3, "projectId"@) == Some(pp));
        }
        if let Some(g) = field_id(task, "goalId"@) {
            crate::text::lemma_trimmed_idempotent(field_str(task, "goalId"@)->Some_0);
            assert(field_id(j3, "goalId"@) == Some(g));
        }
    } else {
        assert(field_id(j1, "taskId"@) is None);
        if field_id(j1, "projectId"@) is Some && is_valid(recs, field_id(j1, "projectId"@)->Some_0, "projects"@) {
            let pid = field_id(j1, "projectId"@)->Some_0;
            let r = lookup(recs, pid)->Some_0;
            let s1 = set_opt(j1, "projectId"@, Some(pid));
            let s2 = set_opt(s1, "goalId"@, field_id(r, "goalId"@));
            assert(overwrite(s2, r, Seq::<Seq<char>>::empty()) == s2);
            assert(overwrite(s1, r, seq!["goalId"@]) == overwrite(s2, r, seq!["goalId"@].drop_first()));
            assert(j3 == s2);
        }
        assert(field(j3, "taskId"@) == field(j1, "taskId"@));
        assert(false);
    }
}

/// A task that names an existing project takes that project's goal, when the
/// project's goal names a goal record: its project and goal are then those.
pub proof fn lemma_task_takes_project_goal(
    recs: Seq<Json>,
    data: Json,
    strict: bool,
    p: Seq<char>,
    g: Seq<char>,
)
    requires
        is_obj(data),
        field_id(data, "projectId"@) == Some(p),
        is_valid(recs, p, "projects"@),
        field_id(lookup(recs, p)->Some_0, "goalId"@) == Some(g),
        is_valid(recs, g, "goals"@),
        normalize_of(recs, "tasks"@, data, strict) is Ok,
    ensures
        field(normalize_of(recs, "tasks"@, data, strict)->Ok_0, "projectId"@) == Some(jstr(p)),
        field(normalize_of(recs, "tasks"@, data, strict)->Ok_0, "goalId"@) == Some(jstr(g)),
{
    lemma_ref_key_names();
    reveal_strlit("tasks");
    reveal_strlit("projects");
    reveal_strlit("timeLogs");
    reveal_strlit("results");
    reveal_strlit("reviews");
    reveal_strlit("decisions");
    reveal_strlit("decisionId");
    assert("tasks"@.len() == 5 && "projects"@.len() == 8 && "timeLogs"@.len() == 8 && "results"@.len() == 7);
    assert("reviews"@.len() == 7 && "decisions"@.len() == 9 && "decisionId"@.len() == 10);
    reveal_strlit("projectId");
    reveal_strlit("goalId");
    assert("projectId"@.len() == 9 && "goalId"@.len() == 6);
    assert("decisionId"@ != "projectId"@ && "decisionId"@ != "goalId"@);
    assert(!is_work_record("tasks"@));
    let entity = "tasks"@;
    let v = normalize_of(recs, entity, data, strict)->Ok_0;
    let j0 = start(data);
    assert(j0 == data);
    assert(step_projects(recs, j0, entity, strict) == Ok::<Json, Seq<char>>(j0));
    let proj = lookup(recs, p)->Some_0;
    let s1 = set_opt(j0, "projectId"@, Some(p));
    let s2 = set_opt(s1, "goalId"@, field_id(proj, "goalId"@));
    assert(seq!["goalId"@].drop_first() =~= Seq::<Seq<char>>::empty());
    assert(seq!["goalId"@][0] == "goalId"@);
    assert(overwrite(s2, proj, Seq::<Seq<char>>::empty()) == s2);
    assert(overwrite(s1, proj, seq!["goalId"@]) == overwrite(s2, proj, seq!["goalId"@].drop_first()));
    crate::text::lemma_trimmed_idempotent(field_str(data, "projectId"@)->Some_0);
    crate::text::lemma_trimmed_idempotent(field_str(proj, "goalId"@)->Some_0);
    assert(field_id(s2, "projectId"@) == Some(p));
    assert(field_id(s2, "goalId"@) == Some(g));
    let j2 = step_tasks(recs, j0, entity, strict)->Ok_0;
    assert(j2 == s2);
    assert(step_work(recs, j2, entity, strict) == Ok::<Json, Seq<char>>(j2));
    let j4 = step_causal(recs, j2, entity, strict)->Ok_0;
    let ks = seq!["projectId"@, "goalId"@];
    assert(ks[0] == "projectId"@ && ks.drop_first() =~= seq!["goalId"@]);
    assert(step_causal(recs, j2, entity, strict) == align(recs, j2, "decisionId"@, "decisions"@, ks, strict));
    assert(field(without(j2, "decisionId"@), "projectId"@) == field(j2, "projectId"@));
    assert(field(without(j2, "decisionId"@), "goalId"@) == field(j2, "goalId"@));
    if field_id(j2, "decisionId"@) is Some && is_valid(recs, field_id(j2, "decisionId"@)->Some_0, "decisions"@) {
        let r = lookup(recs, field_id(j2, "decisionId"@)->Some_0)->Some_0;
        assert(inherit_missing(j2, j2, r, Seq::<Seq<char>>::empty()) == j2);
        assert(inherit_missing(j2, j2, r, seq!["goalId"@]) == inherit_missing(j2, j2, r, seq!["goalId"@].drop_first()));
        assert(inherit_missing(j2, j2, r, ks) == inherit_missing(j2, j2, r, ks.drop_first()));
        assert(inherit_missing(j2, j2, r, ks) == j2);
        if first_conflict(j2, r, ks) is None {
            assert(j4 == j2);
        } else {
            assert(!strict);
            assert(j4 == without(j2, "decisionId"@));
        }
    } else if field_id(j2, "decisionId"@) is Some {
        assert(!strict);
        assert(j4 == without(j2, "decisionId"@));
    } else {
        assert(j4 == j2);
    }
    assert(field(j4, "projectId"@) == field(j2, "projectId"@));
    assert(field(j4, "goalId"@) == field(j2, "goalId"@));
    assert(is_obj(j4));
    let j5 = step_timer(j4, entity);
    assert(j5 == j4);
    assert(j5 == Json::Obj(obj_map(j5)));
    assert(v == Json::Obj(fixes(recs, obj_map(j5))));
    lemma_fixed_ref_key(recs, obj_map(j5), "projectId"@);
    lemma_fixed_ref_key(recs, obj_map(j5), "goalId"@);
}

// ---------------------------------------------------------------------------
// Stored records.
/// `value_to_record`: the stored document with the columns written over it.
pub open spec fn stored_form(
    data: Json,
    id: Seq<char>,
    entity: Seq<char>,
    created: Seq<char>,
    updated: Seq<char>,
) -> Json {
    with(
        with(with(with(start(data), "id"@, jstr(id)), "entity"@, jstr(entity)), "createdAt"@, jstr(created)),
        "updatedAt"@,
        jstr(updated),
    )
}

/// A stored row as a record: the stored document (an empty object when it is
/// not one) with its id, entity and times.
pub fn value_to_record(
    id: String,
    entity: String,
    data: JsonValue,
    created_at: String,
    updated_at: String,
) -> (r: JsonValue)
    ensures
        r@ == stored_form(data@, id@, entity@, created_at@, updated_at@),
        is_obj(r@),
        json_wf(data) ==> json_wf(r),
{
    let mut d = if data.is_object() {
        data
    } else {
        JsonValue::empty_object()
    };
    d.insert("id", JsonValue::from_string(id));
    d.insert("entity", JsonValue::from_string(entity));
    d.insert("createdAt", JsonValue::from_string(created_at));
    d.insert("updatedAt", JsonValue::from_string(updated_at));
    d
}

/// The first of `title`, `name`, `statement`, `content` that holds non-blank text.
pub open spec fn title_of(data: Json) -> Seq<char> {
    let t = |k: Seq<char>|
        match field_str(data, k) {
            Some(s) => s,
            None => Seq::empty(),
        };
    if trimmed(t("title"@)).len() > 0 {
        t("title"@)
    } else if trimmed(t("name"@)).len() > 0 {
        t("name"@)
    } else if trimmed(t("statement"@)).len() > 0 {
        t("statement"@)
    } else if trimmed(t("content"@)).len() > 0 {
        t("content"@)
    } else {
        Seq::empty()
    }
}

fn text_or_empty(data: &JsonValue, k: &str) -> (r: String)
    ensures
        r@ == (match field_str(data@, k@) {
            Some(s) => s,
            None => Seq::empty(),
        }),
{
    match data.get_str(k) {
        Some(s) => own(s),
        None => String::new(),
    }
}

/// The title a record is listed and searched under.
pub fn record_title(data: &JsonValue) -> (r: String)
    ensures
        r@ == title_of(data@),
{
    let t = text_or_empty(data, "title");
    if !crate::text::is_blank(t.as_str()) {
        return t;
    }
    let n = text_or_empty(data, "name");
    if !crate::text::is_blank(n.as_str()) {
        return n;
    }
    let s = text_or_empty(data, "statement");
    if !crate::text::is_blank(s.as_str()) {
        return s;
    }
    let c = text_or_empty(data, "content");
    if !crate::text::is_blank(c.as_str()) {
        return c;
    }
    String::new()
}

/// `string_field`: the trimmed text under `key`, when it is not empty.
pub fn string_field(data: &JsonValue, key: &str) -> (r: Option<String>)
    ensures
        opt_seq(r) == field_id(data@, key@),
{
    data.id_of(key)
}

// ---------------------------------------------------------------------------
// Relationship integrity.
pub open spec fn text_or_empty_of(r: Json, k: Seq<char>) -> Seq<char> {
    match field_str(r, k) {
        Some(s) => s,
        None => Seq::empty(),
    }
}

pub open spec fn integrity_keys() -> Seq<Seq<char>> {
    seq!["goalId"@, "projectId"@, "taskId"@, "resultId"@, "reviewId"@, "insightId"@]
}

pub open spec fn or_null(v: Option<Json>) -> Json {
    match v {
        Some(x) => x,
        None => Json::Null,
    }
}

/// One field of a stored record that normalization would change.
pub open spec fn issue(id: Seq<char>, entity: Seq<char>, key: Seq<char>, value: Option<Json>) -> Json {
    Json::Obj(
        Map::empty().insert("id"@, jstr(id)).insert("entity"@, jstr(entity)).insert("field"@, jstr(key)).insert(
            "value"@,
            or_null(value),
        ),
    )
}

/// The lenient normalization of a stored record.
pub open spec fn renormalized(recs: Seq<Json>, r: Json) -> Json {
    normalize_of(recs, text_or_empty_of(r, "entity"@), r, false)->Ok_0
}

pub open spec fn key_issues(r: Json, nv: Json, keys: Seq<Seq<char>>) -> Seq<Json>
    decreases keys.len(),
{
    if keys.len() == 0 {
        Seq::empty()
    } else {
        let rest = key_issues(r, nv, keys.drop_last());
        let k = keys.last();
        if field(r, k) != field(nv, k) {
            rest.push(issue(text_or_empty_of(r, "id"@), text_or_empty_of(r, "entity"@), k, field(r, k)))
        } else {
            rest
        }
    }
}

pub open spec fn issues_of(recs: Seq<Json>, rs: Seq<Json>) -> Seq<Json>
    decreases rs.len(),
{
    if rs.len() == 0 {
        Seq::empty()
    } else {
        issues_of(recs, rs.drop_last()) + key_issues(
            rs.last(),
            renormalized(recs, rs.last()),
            integrity_keys(),
        )
    }
}

/// `relationship_integrity`: the context fields of stored records that lenient
/// normalization against the same records would change.
pub open spec fn integrity_report(recs: Seq<Json>) -> Json {
    let is = issues_of(recs, recs);
    Json::Obj(
        Map::empty().insert("ok"@, Json::Bool(is.len() == 0)).insert("issueCount"@, jint(is.len() as int)).insert(
            "issues"@,
            Json::Arr(is),
        ),
    )
}

fn same_field(a: &JsonValue, b: &JsonValue, k: &str) -> (r: bool)
    ensures
        r == (field(a@, k@) == field(b@, k@)),
{
    match (a.get(k), b.get(k)) {
        (None, None) => true,
        (Some(x), Some(y)) => crate::json::json_eq(x, y),
        _ => false,
    }
}

fn issue_value(id: &str, entity: &str, key: &str, value: Option<&JsonValue>) -> (r: JsonValue)
    ensures
        (value matches Some(x) ==> crate::json::json_wf(*x)) ==> crate::json::json_wf(r),
        r@ == issue(id@, entity@, key@, crate::json::opt_view(value)),
{
    let mut o = JsonValue::empty_object();
    o.insert("id", JsonValue::text(id));
    o.insert("entity", JsonValue::text(entity));
    o.insert("field", JsonValue::text(key));
    let v = match value {
        Some(x) => x.duplicate(),
        None => JsonValue::Null,
    };
    o.insert("value", v);
    o
}

/// Checks every stored record against a lenient normalization of it.
pub fn relationship_integrity(recs: &[JsonValue]) -> (r: JsonValue)
    ensures
        crate::json::all_wf(recs@) ==> crate::json::json_wf(r),
        r@ == integrity_report(views(recs@)),
{
    let ghost rv = views(recs@);
    let keys = vec!["goalId", "projectId", "taskId", "resultId", "reviewId", "insightId"];
    assert(keys_view(keys@) =~= integrity_keys());
    let mut issues: Vec<JsonValue> = Vec::new();
    let mut i: usize = 0;
    assert(rv.take(0) =~= Seq::<Json>::empty());
    while i < recs.len()
        invariant
            i <= recs@.len(),
            rv == views(recs@),
            keys_view(keys@) == integrity_keys(),
            crate::json::items_view(issues@) == issues_of(rv, rv.take(i as int)),
            crate::json::all_wf(recs@) ==> crate::json::all_wf(issues@),
        decreases recs.len() - i,
    {
        let rec = &recs[i];
        let entity = text_or_empty(rec, "entity");
        let id = text_or_empty(rec, "id");
        proof {
            lemma_lenient_normalization_succeeds(rv, entity@, rec@);
        }
        let nv = match normalize_record(recs, entity.as_str(), rec, false) {
            Ok(v) => v,
            Err(_) => JsonValue::empty_object(),
        };
        let ghost before = crate::json::items_view(issues@);
        let mut q: usize = 0;
        assert(keys_view(keys@).take(0) =~= Seq::<Seq<char>>::empty());
        assert(before + key_issues(rec@, nv@, keys_view(keys@).take(0)) =~= before);
        while q < keys.len()
            invariant
                q <= keys@.len(),
                i < recs@.len(),
                rec == &recs[i as int],
                crate::json::items_view(issues@) == before + key_issues(
                    rec@,
                    nv@,
                    keys_view(keys@).take(q as int),
                ),
                entity@ == text_or_empty_of(rec@, "entity"@),
                crate::json::all_wf(recs@) ==> crate::json::all_wf(issues@),
                crate::json::all_wf(recs@) ==> json_wf(*rec),
                id@ == text_or_empty_of(rec@, "id"@),
            decreases keys.len() - q,
        {
            let k = keys[q];
            proof {
                assert(keys_view(keys@).take(q + 1).drop_last() =~= keys_view(keys@).take(q as int));
                assert(keys_view(keys@).take(q + 1).last() == k@);
            }
            if !same_field(rec, &nv, k) {
                let item = issue_value(id.as_str(), entity.as_str(), k, rec.get(k));
                proof {
                    crate::json::lemma_items_push(issues@, item);
                }
                let ghost before_push = issues@;
                issues.push(item);
                proof {
                    if crate::json::all_wf(recs@) {
                        assert forall|z: int| 0 <= z < issues@.len() implies json_wf(#[trigger] issues@[z]) by {
                            if z < before_push.len() {
                                assert(issues@[z] == before_push[z]);
                            }
                        }
                    }
                    assert(crate::json::items_view(issues@) =~= before + key_issues(
                        rec@,
                        nv@,
                        keys_view(keys@).take(q + 1),
                    ));
                }
            } else {
                proof {
                    assert(before + key_issues(rec@, nv@, keys_view(keys@).take(q + 1)) =~= before
                        + key_issues(rec@, nv@, keys_view(keys@).take(q as int)));
                }
            }
            q = q + 1;
        }
        proof {
            assert(keys_view(keys@).take(q as int) =~= integrity_keys());
            assert(rv.take(i + 1).drop_last() =~= rv.take(i as int));
            assert(rv.take(i + 1).last() == rec@);
            assert(nv@ == renormalized(rv, rec@));
        }
        i = i + 1;
    }
    proof {
        assert(rv.take(i as int) =~= rv);
        crate::json::lemma_items_len(issues@);
        crate::json::lemma_items_wf(issues@);
    }
    let n = issues.len();
    let mut report = JsonValue::empty_object();
    report.insert("ok", JsonValue::Bool(n == 0));
    report.insert("issueCount", JsonValue::Number(crate::json::JsonNumber::PosInt(n as u64)));
    report.insert("issues", JsonValue::Array(issues));
    report
}

// ---------------------------------------------------------------------------
// Cascading a changed project or task to the records under it.
pub open spec fn cascade_matches(r: Json, parent_entity: Seq<char>, parent_id: Seq<char>) -> bool {
    (parent_entity == "projects"@ && field_id(r, "projectId"@) == Some(parent_id)) || (parent_entity
        == "tasks"@ && field_id(r, "taskId"@) == Some(parent_id))
}

/// The records with the id `id` replaced by `nr`.
pub open spec fn replace_record(cur: Seq<Json>, id: Seq<char>, nr: Json) -> Seq<Json> {
    cur.map_values(|r: Json| if field_str(r, "id"@) == Some(id) { nr } else { r })
}

/// The records rewritten by a cascade over the first `i` rows, and the records
/// as they stand afterwards; each rewrite is seen by the rows after it.
pub open spec fn cascade_state(
    rows: Seq<Json>,
    parent_entity: Seq<char>,
    parent_id: Seq<char>,
    now: Seq<char>,
    i: int,
) -> (Seq<Json>, Seq<Json>)
    decreases i,
{
    if i <= 0 {
        (Seq::empty(), rows)
    } else {
        let (w, c) = cascade_state(rows, parent_entity, parent_id, now, i - 1);
        let r = rows[i - 1];
        if cascade_matches(r, parent_entity, parent_id) && field_str(r, "entity"@) is Some && field_str(
            r,
            "id"@,
        ) is Some {
            let entity = field_str(r, "entity"@)->Some_0;
            let id = field_str(r, "id"@)->Some_0;
            let nv = normalize_of(c, entity, r, false)->Ok_0;
            let created = match field_str(r, "createdAt"@) {
                Some(t) => t,
                None => now,
            };
            let st = stored_form(nv, id, entity, created, now);
            (w.push(st), replace_record(c, id, st))
        } else {
            (w, c)
        }
    }
}

fn replace_record_exec(cur: &Vec<JsonValue>, id: &str, nr: &JsonValue) -> (r: Vec<JsonValue>)
    ensures
        views(r@) == replace_record(views(cur@), id@, nr@),
{
    let mut out: Vec<JsonValue> = Vec::new();
    let mut i: usize = 0;
    while i < cur.len()
        invariant
            i <= cur@.len(),
            views(out@) == replace_record(views(cur@), id@, nr@).take(i as int),
        decreases cur.len() - i,
    {
        let hit = match cur[i].get_str("id") {
            Some(s) => eq_str(s, id),
            None => false,
        };
        let ghost prev = out@;
        let item = if hit {
            nr.duplicate()
        } else {
            cur[i].duplicate()
        };
        out.push(item);
        proof {
            assert(out@ == prev.push(item));
            assert(views(out@) =~= views(prev).push(item@));
            assert(views(cur@)[i as int] == cur@[i as int]@);
            assert(replace_record(views(cur@), id@, nr@)[i as int] == item@);
            assert(views(out@) =~= replace_record(views(cur@), id@, nr@).take(i + 1));
        }
        i = i + 1;
    }
    proof {
        assert(replace_record(views(cur@), id@, nr@).take(i as int) =~= replace_record(
            views(cur@),
            id@,
            nr@,
        ));
    }
    out
}

fn duplicate_all(rs: &[JsonValue]) -> (r: Vec<JsonValue>)
    ensures
        views(r@) == views(rs@),
{
    let mut out: Vec<JsonValue> = Vec::new();
    let mut i: usize = 0;
    while i < rs.len()
        invariant
            i <= rs@.len(),
            views(out@) == views(rs@).take(i as int),
        decreases rs.len() - i,
    {
        let ghost prev = out@;
        let item = rs[i].duplicate();
        out.push(item);
        proof {
            assert(out@ == prev.push(item));
            assert(views(out@) =~= views(prev).push(item@));
            assert(views(rs@)[i as int] == rs@[i as int]@);
            assert(views(out@) =~= views(rs@).take(i + 1));
        }
        i = i + 1;
    }
    assert(views(rs@).take(i as int) =~= views(rs@));
    out
}

/// `cascade_context`: the records under a changed project or task, each
/// normalized again (leniently) and returned in the form it is stored in, in
/// the order of `rows` (all records, oldest first); the caller writes them and
/// their relations back.
pub fn cascade_context(rows: &[JsonValue], parent_entity: &str, parent_id: &str, now: &str) -> (r: Vec<
    JsonValue,
>)
    ensures
        crate::json::all_wf(rows@) ==> crate::json::all_wf(r@),
        views(r@) == cascade_state(views(rows@), parent_entity@, parent_id@, now@, rows@.len() as int).0,
{
    let ghost rv = views(rows@);
    let mut cur = duplicate_all(rows);
    let mut written: Vec<JsonValue> = Vec::new();
    let mut i: usize = 0;
    while i < rows.len()
        invariant
            i <= rows@.len(),
            rv == views(rows@),
            views(written@) == cascade_state(rv, parent_entity@, parent_id@, now@, i as int).0,
            views(cur@) == cascade_state(rv, parent_entity@, parent_id@, now@, i as int).1,
            crate::json::all_wf(rows@) ==> crate::json::all_wf(written@),
        decreases rows.len() - i,
    {
        let row = &rows[i];
        let hit = (eq_str(parent_entity, "projects") && match row.id_of("projectId") {
            Some(p) => eq_str(p.as_str(), parent_id),
            None => false,
        }) || (eq_str(parent_entity, "tasks") && match row.id_of("taskId") {
            Some(t) => eq_str(t.as_str(), parent_id),
            None => false,
        });
        let ghost c0 = views(cur@);
        if hit {
            match (row.get_str("entity"), row.get_str("id")) {
                (Some(entity), Some(id)) => {
                    proof {
                        lemma_lenient_normalization_succeeds(c0, entity@, row@);
                    }
                    let nv = match normalize_record(cur.as_slice(), entity, row, false) {
                        Ok(v) => v,
                        Err(_) => JsonValue::empty_object(),
                    };
                    let created = match row.get_str("createdAt") {
                        Some(t) => own(t),
                        None => own(now),
                    };
                    let st = value_to_record(own(id), own(entity), nv, created, own(now));
                    let next = replace_record_exec(&cur, id, &st);
                    cur = next;
                    let ghost before_push = written@;
                    written.push(st);
                    proof {
                        if crate::json::all_wf(rows@) {
                            assert(json_wf(rows@[i as int]));
                            assert forall|z: int| 0 <= z < written@.len() implies json_wf(#[trigger] written@[z]) by {
                                if z < before_push.len() {
                                    assert(written@[z] == before_push[z]);
                                }
                            }
                        }
                        assert(views(written@) =~= cascade_state(
                            rv,
                            parent_entity@,
                            parent_id@,
                            now@,
                            i + 1,
                        ).0);
                    }
                },
                _ => {},
            }
        }
        i = i + 1;
    }
    written
}

// ---------------------------------------------------------------------------
// Relations materialized from reference fields.
/// Each id trimmed, blank ones left out.
pub open spec fn trim_ids(ids: Seq<Seq<char>>) -> Seq<Seq<char>>
    decreases ids.len(),
{
    if ids.len() == 0 {
        Seq::empty()
    } else {
        let rest = trim_ids(ids.drop_last());
        if trimmed(ids.last()).len() > 0 {
            rest.push(trimmed(ids.last()))
        } else {
            rest
        }
    }
}

/// The ids a field points at: a trimmed `…Id` text, or the trimmed items of a
/// `…Ids` list; the record's own `id`, `entity` and `sourceId` point nowhere.
pub open spec fn key_targets(k: Seq<char>, v: Json) -> Seq<Seq<char>> {
    if k == "id"@ || k == "entity"@ || k == "sourceId"@ {
        Seq::empty()
    } else if ends_with(k, "Id"@) {
        match v {
            Json::Str(s) => if trimmed(s).len() > 0 {
                seq![trimmed(s)]
            } else {
                Seq::empty()
            },
            _ => Seq::empty(),
        }
    } else if ends_with(k, "Ids"@) {
        match v {
            Json::Arr(a) => trim_ids(str_items(a)),
            Json::Str(s) => comma_ids(s),
            _ => Seq::empty(),
        }
    } else {
        Seq::empty()
    }
}

pub open spec fn link_targets(recs: Seq<Json>, source: Seq<char>, k: Seq<char>, ts: Seq<Seq<char>>) -> Seq<
    (Seq<char>, Seq<char>),
>
    decreases ts.len(),
{
    if ts.len() == 0 {
        Seq::empty()
    } else {
        let rest = link_targets(recs, source, k, ts.drop_last());
        let t = ts.last();
        if lookup(recs, t) is Some && t != source {
            rest.push(("field:"@ + k, t))
        } else {
            rest
        }
    }
}

pub open spec fn links_of(recs: Seq<Json>, source: Seq<char>, ms: Seq<(String, JsonValue)>) -> Seq<
    (Seq<char>, Seq<char>),
>
    decreases ms.len(),
{
    if ms.len() == 0 {
        Seq::empty()
    } else {
        links_of(recs, source, ms.drop_last()) + link_targets(
            recs,
            source,
            ms.last().0@,
            key_targets(ms.last().0@, ms.last().1@),
        )
    }
}

/// The relations `sync_relations` materializes for a record: for each member in
/// order, each target that names an existing record other than the source.
pub open spec fn relation_links_of(recs: Seq<Json>, source: Seq<char>, data: JsonValue) -> Seq<
    (Seq<char>, Seq<char>),
> {
    match data {
        JsonValue::Object(m) => links_of(recs, source, m@),
        _ => Seq::empty(),
    }
}

/// Whether a member of the record gives the link `x`: its relation type is
/// `field:` and the member's key, and its target is one of the ids the member
/// points at, names an existing record, and is not the record itself.
pub open spec fn gives_link(recs: Seq<Json>, source: Seq<char>, ms: Seq<(String, JsonValue)>, x: (
    Seq<char>,
    Seq<char>,
)) -> bool {
    exists|j: int|
        0 <= j < ms.len() && x.0 == "field:"@ + (#[trigger] ms[j]).0@ && key_targets(ms[j].0@, ms[j].1@).contains(x.1)
            && lookup(recs, x.1) is Some && x.1 != source
}

/// The relations materialized for a record are exactly the links its members
/// give (none for a record that is not an object).
pub proof fn lemma_relation_links_exact(recs: Seq<Json>, source: Seq<char>, data: JsonValue, x: (
    Seq<char>,
    Seq<char>,
))
    ensures
        data matches JsonValue::Object(m) ==> (relation_links_of(recs, source, data).contains(x) <==> gives_link(
            recs,
            source,
            m@,
            x,
        )),
        !(data is Object) ==> relation_links_of(recs, source, data).len() == 0,
{
    match data {
        JsonValue::Object(m) => lemma_links_of_contains(recs, source, m@, x),
        _ => {},
    }
}

proof fn lemma_link_targets_contains(recs: Seq<Json>, source: Seq<char>, k: Seq<char>, ts: Seq<Seq<char>>, x: (
    Seq<char>,
    Seq<char>,
))
    ensures
        link_targets(recs, source, k, ts).contains(x) <==> (x.0 == "field:"@ + k && ts.contains(x.1) && lookup(
            recs,
            x.1,
        ) is Some && x.1 != source),
    decreases ts.len(),
{
    if ts.len() > 0 {
        lemma_link_targets_contains(recs, source, k, ts.drop_last(), x);
        let rest = link_targets(recs, source, k, ts.drop_last());
        let l = link_targets(recs, source, k, ts);
        if ts.contains(x.1) && !ts.drop_last().contains(x.1) {
            let i = choose|i: int| 0 <= i < ts.len() && ts[i] == x.1;
            if i < ts.len() - 1 {
                assert(ts.drop_last()[i] == x.1);
            }
        }
        if ts.drop_last().contains(x.1) {
            let i = choose|i: int| 0 <= i < ts.drop_last().len() && ts.drop_last()[i] == x.1;
            assert(ts[i] == x.1);
        }
        if l.contains(x) && !rest.contains(x) {
            let i = choose|i: int| 0 <= i < l.len() && l[i] == x;
            if i < rest.len() {
                assert(l[i] == rest[i]);
            }
            assert(ts[ts.len() - 1] == ts.last());
        }
        if rest.contains(x) {
            let i = choose|i: int| 0 <= i < rest.len() && rest[i] == x;
            assert(l[i] == rest[i]);
        }
        if x.0 == "field:"@ + k && x.1 == ts.last() && lookup(recs, x.1) is Some && x.1 != source {
            assert(l[l.len() - 1] == x);
        }
    }
}

proof fn lemma_links_of_contains(recs: Seq<Json>, source: Seq<char>, ms: Seq<(String, JsonValue)>, x: (
    Seq<char>,
    Seq<char>,
))
    ensures
        links_of(recs, source, ms).contains(x) <==> gives_link(recs, source, ms, x),
    decreases ms.len(),
{
    if ms.len() > 0 {
        let pre = ms.drop_last();
        lemma_links_of_contains(recs, source, pre, x);
        let k = ms.last().0@;
        let ts = key_targets(k, ms.last().1@);
        lemma_link_targets_contains(recs, source, k, ts, x);
        let a = links_of(recs, source, pre);
        let b = link_targets(recs, source, k, ts);
        assert(links_of(recs, source, ms) == a + b);
        if (a + b).contains(x) {
            let i = choose|i: int| 0 <= i < (a + b).len() && (a + b)[i] == x;
            if i < a.len() {
                assert(a[i] == x);
                let j = choose|j: int|
                    0 <= j < pre.len() && x.0 == "field:"@ + (#[trigger] pre[j]).0@ && key_targets(pre[j].0@, pre[j].1@).contains(
                        x.1,
                    ) && lookup(recs, x.1) is Some && x.1 != source;
                assert(ms[j] == pre[j]);
            } else {
                assert(b[i - a.len()] == x);
                assert(ms[ms.len() - 1] == ms.last());
            }
        }
        if gives_link(recs, source, ms, x) {
            let j = choose|j: int|
                0 <= j < ms.len() && x.0 == "field:"@ + (#[trigger] ms[j]).0@ && key_targets(ms[j].0@, ms[j].1@).contains(x.1)
                    && lookup(recs, x.1) is Some && x.1 != source;
            if j < ms.len() - 1 {
                assert(pre[j] == ms[j]);
                let i = choose|i: int| 0 <= i < a.len() && a[i] == x;
                assert((a + b)[i] == x);
            } else {
                let i = choose|i: int| 0 <= i < b.len() && b[i] == x;
                assert((a + b)[a.len() + i] == x);
            }
        }
    }
}

/// Every materialized relation joins the record to another record that exists.
pub proof fn lemma_links_join_existing_records(recs: Seq<Json>, source: Seq<char>, data: JsonValue)
    ensures
        forall|i: int|
            0 <= i < relation_links_of(recs, source, data).len() ==> (#[trigger] relation_links_of(
                recs,
                source,
                data,
            )[i]).1 != source && lookup(recs, relation_links_of(recs, source, data)[i].1) is Some,
{
    match data {
        JsonValue::Object(m) => lemma_links_of_targets(recs, source, m@),
        _ => {},
    }
}

proof fn lemma_links_of_targets(recs: Seq<Json>, source: Seq<char>, ms: Seq<(String, JsonValue)>)
    ensures
        forall|i: int|
            0 <= i < links_of(recs, source, ms).len() ==> (#[trigger] links_of(recs, source, ms)[i]).1 != source
                && lookup(recs, links_of(recs, source, ms)[i].1) is Some,
    decreases ms.len(),
{
    if ms.len() > 0 {
        lemma_links_of_targets(recs, source, ms.drop_last());
        let k = ms.last().0@;
        let ts = key_targets(k, ms.last().1@);
        lemma_link_targets(recs, source, k, ts);
        let a = links_of(recs, source, ms.drop_last());
        let b = link_targets(recs, source, k, ts);
        assert(links_of(recs, source, ms) == a + b);
        assert forall|i: int| 0 <= i < (a + b).len() implies (#[trigger] (a + b)[i]).1 != source && lookup(
            recs,
            (a + b)[i].1,
        ) is Some by {
            if i < a.len() {
                assert((a + b)[i] == a[i]);
            } else {
                assert((a + b)[i] == b[i - a.len()]);
            }
        }
    }
}

proof fn lemma_link_targets(recs: Seq<Json>, source: Seq<char>, k: Seq<char>, ts: Seq<Seq<char>>)
    ensures
        forall|i: int|
            0 <= i < link_targets(recs, source, k, ts).len() ==> (#[trigger] link_targets(recs, source, k, ts)[i]).1
                != source && lookup(recs, link_targets(recs, source, k, ts)[i].1) is Some,
    decreases ts.len(),
{
    if ts.len() > 0 {
        lemma_link_targets(recs, source, k, ts.drop_last());
    }
}

pub open spec fn pairs_view(v: Seq<(String, String)>) -> Seq<(Seq<char>, Seq<char>)> {
    v.map_values(|p: (String, String)| (p.0@, p.1@))
}

fn trim_all(ids: Vec<String>) -> (r: Vec<String>)
    ensures
        strs_of(r@) == trim_ids(strs_of(ids@)),
{
    let mut out: Vec<String> = Vec::new();
    let mut i: usize = 0;
    assert(strs_of(ids@).take(0) =~= Seq::<Seq<char>>::empty());
    while i < ids.len()
        invariant
            i <= ids@.len(),
            strs_of(out@) == trim_ids(strs_of(ids@).take(i as int)),
        decreases ids.len() - i,
    {
        proof {
            assert(strs_of(ids@).take(i + 1).drop_last() =~= strs_of(ids@).take(i as int));
        }
        let t = trim(ids[i].as_str());
        let ghost before = strs_of(out@);
        if !t.as_str().is_empty() {
            out.push(t);
            proof {
                assert(strs_of(out@) =~= before.push(trimmed(ids@[i as int]@)));
            }
        }
        i = i + 1;
    }
    assert(strs_of(ids@).take(i as int) =~= strs_of(ids@));
    out
}

fn targets_of(k: &str, v: &JsonValue) -> (r: Vec<String>)
    ensures
        strs_of(r@) == key_targets(k@, v@),
{
    if eq_str(k, "id") || eq_str(k, "entity") || eq_str(k, "sourceId") {
        Vec::new()
    } else if ends_with_str(k, "Id") {
        match v {
            JsonValue::Str(s) => {
                let t = trim(s.as_str());
                if t.as_str().is_empty() {
                    Vec::new()
                } else {
                    let r = vec![t];
                    assert(strs_of(r@) =~= seq![r@[0]@]);
                    r
                }
            },
            _ => Vec::new(),
        }
    } else if ends_with_str(k, "Ids") {
        match v {
            JsonValue::Array(_) => {
                let items = ids_of(v);
                trim_all(items)
            },
            JsonValue::Str(s) => split_ids(s.as_str()),
            _ => Vec::new(),
        }
    } else {
        Vec::new()
    }
}

/// `sync_relations`: the relation type and target of each relation a record's
/// reference fields materialize, given the records that exist.
pub fn relation_links(recs: &[JsonValue], source_id: &str, data: &JsonValue) -> (r: Vec<(String, String)>)
    ensures
        pairs_view(r@) == relation_links_of(views(recs@), source_id@, *data),
{
    let ghost rv = views(recs@);
    let mut out: Vec<(String, String)> = Vec::new();
    match data {
        JsonValue::Object(m) => {
            let mut i: usize = 0;
            assert(m@.take(0) =~= Seq::<(String, JsonValue)>::empty());
            while i < m.len()
                invariant
                    i <= m@.len(),
                    rv == views(recs@),
                    pairs_view(out@) == links_of(rv, source_id@, m@.take(i as int)),
                decreases m.len() - i,
            {
                let k = m[i].0.as_str();
                let ts = targets_of(k, &m[i].1);
                let ghost before = pairs_view(out@);
                let ghost tv = strs_of(ts@);
                let mut q: usize = 0;
                assert(tv.take(0) =~= Seq::<Seq<char>>::empty());
                assert(before + link_targets(rv, source_id@, k@, tv.take(0)) =~= before);
                while q < ts.len()
                    invariant
                        q <= ts@.len(),
                        tv == strs_of(ts@),
                        rv == views(recs@),
                        pairs_view(out@) == before + link_targets(rv, source_id@, k@, tv.take(q as int)),
                    decreases ts.len() - q,
                {
                    proof {
                        assert(tv.take(q + 1).drop_last() =~= tv.take(q as int));
                        assert(tv.take(q + 1).last() == ts@[q as int]@);
                    }
                    let t = ts[q].as_str();
                    if record_by_id(recs, t).is_some() && !eq_str(t, source_id) {
                        let rel = concat("field:", k);
                        let ghost prev = out@;
                        let pair = (rel, own(t));
                        out.push(pair);
                        proof {
                            assert(out@ == prev.push(pair));
                            assert(pairs_view(out@) =~= pairs_view(prev).push(("field:"@ + k@, t@)));
                            assert(link_targets(rv, source_id@, k@, tv.take(q + 1)) == link_targets(
                                rv,
                                source_id@,
                                k@,
                                tv.take(q as int),
                            ).push(("field:"@ + k@, t@)));
                            assert(pairs_view(out@) =~= before + link_targets(
                                rv,
                                source_id@,
                                k@,
                                tv.take(q + 1),
                            ));
                        }
                    } else {
                        proof {
                            assert(before + link_targets(rv, source_id@, k@, tv.take(q + 1)) =~= before
                                + link_targets(rv, source_id@, k@, tv.take(q as int)));
                        }
                    }
                    q = q + 1;
                }
                proof {
                    assert(tv.take(q as int) =~= tv);
                    assert(m@.take(i + 1).drop_last() =~= m@.take(i as int));
                    assert(m@.take(i + 1).last() == m@[i as int]);
                }
                i = i + 1;
            }
            assert(m@.take(i as int) =~= m@);
        },
        _ => {},
    }
    out
}

// ---------------------------------------------------------------------------
// External sources and timers.
/// A stored source counts as active unless its status is a text other than
/// `active` or a value other than text or null.
pub open spec fn counts_as_active(r: Json) -> bool {
    match field(r, "status"@) {
        None => true,
        Some(Json::Null) => true,
        Some(Json::Str(s)) => s == "active"@,
        _ => false,
    }
}

/// The active external sources other than `id`.
pub open spec fn active_sources(recs: Seq<Json>, id: Seq<char>) -> nat
    decreases recs.len(),
{
    if recs.len() == 0 {
        0
    } else {
        let r = recs.last();
        active_sources(recs.drop_last(), id) + if field_str(r, "entity"@) == Some("externalSources"@)
            && field_str(r, "id"@) != Some(id) && counts_as_active(r) {
            1nat
        } else {
            0nat
        }
    }
}

/// A saved source is active unless its status is a text other than `active`.
pub open spec fn saves_active(data: Json) -> bool {
    match field_str(data, "status"@) {
        Some(s) => s == "active"@,
        None => true,
    }
}

pub open spec fn capacity_msg() -> Seq<char> {
    "第一版最多启用 20 个情报源；请先暂停不需要的 Source"@
}

/// `ensure_external_source_capacity`, given the records that are not archived:
/// at most twenty external sources are active at once.
pub fn ensure_external_source_capacity(recs: &[JsonValue], entity: &str, id: &str, data: &JsonValue) -> (r:
    Result<(), String>)
    ensures
        r is Err <==> (entity@ == "externalSources"@ && saves_active(data@) && active_sources(
            views(recs@),
            id@,
        ) >= 20),
        r matches Err(e) ==> e@ == capacity_msg(),
{
    let active = match data.get_str("status") {
        Some(s) => eq_str(s, "active"),
        None => true,
    };
    if !eq_str(entity, "externalSources") || !active {
        return Ok(());
    }
    let ghost rv = views(recs@);
    let mut count: usize = 0;
    let mut i: usize = 0;
    assert(rv.take(0) =~= Seq::<Json>::empty());
    while i < recs.len()
        invariant
            i <= recs@.len(),
            rv == views(recs@),
            count == active_sources(rv.take(i as int), id@),
            count <= i,
        decreases recs.len() - i,
    {
        proof {
            assert(rv.take(i + 1).drop_last() =~= rv.take(i as int));
            assert(rv.take(i + 1).last() == recs@[i as int]@);
        }
        let r = &recs[i];
        let is_source = match r.get_str("entity") {
            Some(e) => eq_str(e, "externalSources"),
            None => false,
        };
        let other = match r.get_str("id") {
            Some(x) => !eq_str(x, id),
            None => true,
        };
        let counts = match r.get("status") {
            None => true,
            Some(JsonValue::Null) => true,
            Some(JsonValue::Str(st)) => eq_str(st.as_str(), "active"),
            Some(_) => false,
        };
        if is_source && other && counts {
            count = count + 1;
        }
        i = i + 1;
    }
    assert(rv.take(i as int) =~= rv);
    if count >= 20 {
        Err(own("第一版最多启用 20 个情报源；请先暂停不需要的 Source"))
    } else {
        Ok(())
    }
}

/// `stop_timer`: a stored time log stopped at `end_at` after `duration_minutes`.
pub open spec fn stopped_timer(data: Json, end_at: Seq<char>, duration_minutes: int) -> Json {
    with(
        with(
            with(with(data, "endAt"@, jstr(end_at)), "durationMinutes"@, jint(duration_minutes)),
            "isRunning"@,
            Json::Bool(false),
        ),
        "status"@,
        jstr("completed"@),
    )
}

/// Stops the stored time log `data` of `entity`.
pub fn stop_timer_data(entity: &str, data: JsonValue, end_at: String, duration_minutes: i64) -> (r: Result<
    JsonValue,
    String,
>)
    ensures
        crate::json::json_wf(data) ==> (r matches Ok(v) ==> crate::json::json_wf(v)),
        entity@ != "timeLogs"@ ==> (r matches Err(e) && e@ == "Record is not a time log"@),
        entity@ == "timeLogs"@ && !is_obj(data@) ==> (r matches Err(e) && e@ == "Invalid timer data"@),
        entity@ == "timeLogs"@ && is_obj(data@) ==> (r matches Ok(v) && v@ == stopped_timer(
            data@,
            end_at@,
            duration_minutes as int,
        )),
{
    if !eq_str(entity, "timeLogs") {
        return Err(own("Record is not a time log"));
    }
    if !data.is_object() {
        return Err(own("Invalid timer data"));
    }
    let mut d = data;
    d.insert("endAt", JsonValue::from_string(end_at));
    d.insert("durationMinutes", JsonValue::from_i64(duration_minutes));
    d.insert("isRunning", JsonValue::Bool(false));
    d.insert("status", JsonValue::text("completed"));
    Ok(d)
}

} // verus!
