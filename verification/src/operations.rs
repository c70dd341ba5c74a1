//! The decisions the record store makes around its reads and writes: which
//! saves are accepted, what a record looks like once archived, restored or
//! listed as related, how a search text becomes a full-text query, and which
//! timeline events a save still has to write.
use vstd::prelude::*;
use crate::text::{eq_str, own, concat, trimmed, is_ws, trim, chars_of};
use crate::json::{
    JsonValue, Json, field, field_str, with, without, jstr, is_obj, json_text, to_json_text, as_bool,
};
use crate::catalog::{is_entity, is_entity_name};
use crate::records::{views, title_of, record_title, opt_seq};
use crate::timeline::{change_specs_of, event_of, timeline_change_specs, timeline_event};
use crate::fingerprint::{timeline_key_of, timeline_event_key};

verus! {

// ---------------------------------------------------------------------------
// Saving.
/// A save of `data` as `entity`: the kind must be declared, timeline events
/// are written by the system alone, and the record keeps the id it carries
/// (`None`: a new id is to be made).
pub open spec fn save_target_of(entity: Seq<char>, data: Json) -> Result<Option<Seq<char>>, Seq<char>> {
    if !is_entity_name(entity) {
        Err("Unknown entity"@)
    } else if entity == "timelineEvents"@ {
        Err("时间线事件只能由系统生成，不能手动创建或修改"@)
    } else {
        match field_str(data, "id"@) {
            Some(id) => if id.len() > 0 {
                Ok(Some(id))
            } else {
                Ok(None)
            },
            None => Ok(None),
        }
    }
}

pub fn save_target(entity: &str, data: &JsonValue) -> (r: Result<Option<String>, String>)
    ensures
        match r {
            Ok(id) => save_target_of(entity@, data@) == Ok::<Option<Seq<char>>, Seq<char>>(opt_seq(id)),
            Err(e) => save_target_of(entity@, data@) == Err::<Option<Seq<char>>, Seq<char>>(e@),
        },
{
    if !is_entity(entity) {
        return Err(own("Unknown entity"));
    }
    if eq_str(entity, "timelineEvents") {
        return Err(own("时间线事件只能由系统生成，不能手动创建或修改"));
    }
    match data.get_str("id") {
        Some(id) => if id.is_empty() {
            Ok(None)
        } else {
            Ok(Some(own(id)))
        },
        None => Ok(None),
    }
}

/// The creation time a saved record keeps: the stored record's, else the one
/// the data carries, else now.
pub open spec fn created_at_of(existing: Option<Json>, data: Json, now: Seq<char>) -> Seq<char> {
    let stored = match existing {
        Some(e) => field_str(e, "createdAt"@),
        None => None,
    };
    match stored {
        Some(c) => c,
        None => match field_str(data, "createdAt"@) {
            Some(c) => c,
            None => now,
        },
    }
}

pub fn created_at_for(existing: Option<&JsonValue>, data: &JsonValue, now: &str) -> (r: String)
    ensures
        r@ == created_at_of(crate::json::opt_view(existing), data@, now@),
{
    let stored = match existing {
        Some(e) => e.get_str("createdAt"),
        None => None,
    };
    match stored {
        Some(c) => own(c),
        None => match data.get_str("createdAt") {
            Some(c) => own(c),
            None => own(now),
        },
    }
}

/// Whether a stored record is a running time log other than `id`.
pub open spec fn other_running_timer(r: Json, id: Seq<char>) -> bool {
    field_str(r, "entity"@) == Some("timeLogs"@) && field_str(r, "id"@) != Some(id) && as_bool(
        field(r, "isRunning"@),
    ) == Some(true)
}

/// Whether a save would start a second running timer: `data` is a running time
/// log and another one runs among the records that are not archived.
pub open spec fn timer_conflict_of(recs: Seq<Json>, entity: Seq<char>, id: Seq<char>, data: Json) -> bool {
    entity == "timeLogs"@ && as_bool(field(data, "isRunning"@)) == Some(true) && exists|i: int|
        0 <= i < recs.len() && other_running_timer(#[trigger] recs[i], id)
}

/// Only one timer runs at a time.
pub fn ensure_single_running_timer(recs: &[JsonValue], entity: &str, id: &str, data: &JsonValue) -> (r: Result<
    (),
    String,
>)
    ensures
        r is Err <==> timer_conflict_of(views(recs@), entity@, id@, data@),
        r matches Err(e) ==> e@ == "全局已有正在运行的计时器"@,
{
    let running = match data.bool_of("isRunning") {
        Some(b) => b,
        None => false,
    };
    if !eq_str(entity, "timeLogs") || !running {
        return Ok(());
    }
    let ghost rv = views(recs@);
    let mut i: usize = 0;
    while i < recs.len()
        invariant
            i <= recs@.len(),
            rv == views(recs@),
            entity@ == "timeLogs"@,
            as_bool(field(data@, "isRunning"@)) == Some(true),
            forall|j: int| 0 <= j < i ==> !other_running_timer(#[trigger] rv[j], id@),
        decreases recs.len() - i,
    {
        let r = &recs[i];
        assert(rv[i as int] == r@);
        let is_log = match r.get_str("entity") {
            Some(e) => eq_str(e, "timeLogs"),
            None => false,
        };
        let other = match r.get_str("id") {
            Some(x) => !eq_str(x, id),
            None => true,
        };
        let runs = match r.bool_of("isRunning") {
            Some(b) => b,
            None => false,
        };
        if is_log && other && runs {
            assert(other_running_timer(rv[i as int], id@));
            return Err(own("全局已有正在运行的计时器"));
        }
        i = i + 1;
    }
    Ok(())
}

/// The title a record is stored under, and its full JSON text for search.
pub fn title_body(data: &JsonValue) -> (r: (String, String))
    ensures
        r.0@ == title_of(data@),
        r.1@ == json_text(*data),
{
    (record_title(data), to_json_text(data))
}

// ---------------------------------------------------------------------------
// Archiving and restoring.
/// A record as archived at `at`.
pub fn archived_data(data: JsonValue, at: &str) -> (r: JsonValue)
    ensures
        crate::json::json_wf(data) ==> crate::json::json_wf(r),
        r@ == (if is_obj(data@) {
            with(data@, "archivedAt"@, jstr(at@))
        } else {
            data@
        }),
{
    let mut d = data;
    if d.is_object() {
        d.insert("archivedAt", JsonValue::text(at));
    }
    d
}

/// A stored document as restored: no longer archived or deleted.
pub fn restored_data(data: JsonValue) -> (r: JsonValue)
    ensures
        crate::json::json_wf(data) ==> crate::json::json_wf(r),
        r@ == (if is_obj(data@) {
            without(without(data@, "archivedAt"@), "deletedAt"@)
        } else {
            data@
        }),
{
    let mut d = data;
    if d.is_object() {
        d.remove("archivedAt");
        d.remove("deletedAt");
    }
    d
}

/// Restoring undoes archiving: an archived record comes back as it was, less
/// any earlier archive or deletion mark; a record that carried neither comes
/// back unchanged.
pub proof fn lemma_restore_undoes_archive(d: Json, at: Seq<char>)
    requires
        is_obj(d),
    ensures
        without(without(with(d, "archivedAt"@, jstr(at)), "archivedAt"@), "deletedAt"@) == without(
            without(d, "archivedAt"@),
            "deletedAt"@,
        ),
        field(d, "archivedAt"@) is None && field(d, "deletedAt"@) is None ==> without(
            without(with(d, "archivedAt"@, jstr(at)), "archivedAt"@),
            "deletedAt"@,
        ) == d,
{
    let m = d->Obj_0;
    assert(m.insert("archivedAt"@, jstr(at)).remove("archivedAt"@).remove("deletedAt"@) =~= m.remove(
        "archivedAt"@,
    ).remove("deletedAt"@));
    if field(d, "archivedAt"@) is None && field(d, "deletedAt"@) is None {
        assert(m.remove("archivedAt"@).remove("deletedAt"@) =~= m);
    }
}

// ---------------------------------------------------------------------------
// Relations.
/// A relation may join two different records that both exist.
pub open spec fn relation_request_of(from: Seq<char>, to: Seq<char>, from_exists: bool, to_exists: bool) -> Result<
    (),
    Seq<char>,
> {
    if from == to {
        Err("不能关联记录自身"@)
    } else if !from_exists || !to_exists {
        Err("关联记录不存在"@)
    } else {
        Ok(())
    }
}

pub fn relation_request(from: &str, to: &str, from_exists: bool, to_exists: bool) -> (r: Result<(), String>)
    ensures
        match r {
            Ok(()) => relation_request_of(from@, to@, from_exists, to_exists) is Ok,
            Err(e) => relation_request_of(from@, to@, from_exists, to_exists) == Err::<(), Seq<char>>(e@),
        },
{
    if eq_str(from, to) {
        Err(own("不能关联记录自身"))
    } else if !from_exists || !to_exists {
        Err(own("关联记录不存在"))
    } else {
        Ok(())
    }
}

/// The record at the other end of a relation from `from` to `to`, seen from `id`.
pub open spec fn other_end_of(from: Seq<char>, to: Seq<char>, id: Seq<char>) -> Seq<char> {
    if from == id {
        to
    } else {
        from
    }
}

pub fn other_end<'a>(from: &'a str, to: &'a str, id: &str) -> (r: &'a str)
    ensures
        r@ == other_end_of(from@, to@, id@),
{
    if eq_str(from, id) {
        to
    } else {
        from
    }
}

/// A related record as listed for `id`: with the relation's type and whether
/// the relation leaves `id` or arrives at it.
pub open spec fn related_view_of(record: Json, relation_type: Seq<char>, from: Seq<char>, id: Seq<char>) -> Json {
    with(
        with(record, "relationType"@, jstr(relation_type)),
        "relationDirection"@,
        jstr(
            if from == id {
                "outgoing"@
            } else {
                "incoming"@
            },
        ),
    )
}

pub fn related_view(record: JsonValue, relation_type: &str, from: &str, id: &str) -> (r: JsonValue)
    ensures
        crate::json::json_wf(record) ==> crate::json::json_wf(r),
        r@ == (if is_obj(record@) {
            related_view_of(record@, relation_type@, from@, id@)
        } else {
            record@
        }),
{
    let mut d = record;
    if d.is_object() {
        d.insert("relationType", JsonValue::text(relation_type));
        if eq_str(from, id) {
            d.insert("relationDirection", JsonValue::text("outgoing"));
        } else {
            d.insert("relationDirection", JsonValue::text("incoming"));
        }
    }
    d
}

// ---------------------------------------------------------------------------
// Listing.
/// How many captured items are listed: eighty unless asked, and between one
/// and two hundred.
pub open spec fn list_limit_of(limit: Option<i64>) -> int {
    let l: int = match limit {
        Some(v) => v as int,
        None => 80,
    };
    if l < 1 {
        1
    } else if l > 200 {
        200
    } else {
        l
    }
}

pub fn list_limit(limit: Option<i64>) -> (r: i64)
    ensures
        r as int == list_limit_of(limit),
        1 <= r <= 200,
{
    let l: i64 = match limit {
        Some(v) => v,
        None => 80,
    };
    if l < 1 {
        1
    } else if l > 200 {
        200
    } else {
        l
    }
}

/// Whether a record is of one of the chosen kinds.
pub open spec fn of_kinds(r: Json, kinds: Seq<Seq<char>>) -> bool {
    match field_str(r, "entity"@) {
        Some(e) => kinds.contains(e),
        None => false,
    }
}

/// The records of the chosen kinds, in their order (all of them when no kind
/// is chosen).
pub open spec fn filter_kinds_of(rs: Seq<Json>, kinds: Seq<Seq<char>>) -> Seq<Json> {
    if kinds.len() == 0 {
        rs
    } else {
        rs.filter(|r: Json| of_kinds(r, kinds))
    }
}

pub open spec fn strs_view(v: Seq<String>) -> Seq<Seq<char>> {
    v.map_values(|s: String| s@)
}

fn names_contain(kinds: &[String], e: &str) -> (r: bool)
    ensures
        r == strs_view(kinds@).contains(e@),
{
    let mut i: usize = 0;
    while i < kinds.len()
        invariant
            i <= kinds@.len(),
            forall|j: int| 0 <= j < i ==> kinds@[j]@ != e@,
        decreases kinds.len() - i,
    {
        if eq_str(kinds[i].as_str(), e) {
            assert(strs_view(kinds@)[i as int] == e@);
            return true;
        }
        i = i + 1;
    }
    proof {
        if strs_view(kinds@).contains(e@) {
            let j = choose|j: int| 0 <= j < strs_view(kinds@).len() && strs_view(kinds@)[j] == e@;
            assert(kinds@[j]@ == e@);
        }
    }
    false
}

/// Search results restricted to the chosen kinds.
pub fn filter_kinds(results: Vec<JsonValue>, kinds: &[String]) -> (r: Vec<JsonValue>)
    ensures
        crate::json::all_wf(results@) ==> crate::json::all_wf(r@),
        views(r@) == filter_kinds_of(views(results@), strs_view(kinds@)),
{
    if kinds.len() == 0 {
        return results;
    }
    let ghost ks = strs_view(kinds@);
    let ghost rv = views(results@);
    let mut out: Vec<JsonValue> = Vec::new();
    let n = results.len();
    let mut i: usize = 0;
    proof {
        assert(rv.take(0) =~= Seq::<Json>::empty());
        reveal(Seq::filter);
        assert(Seq::<Json>::empty().filter(|r: Json| of_kinds(r, ks)) =~= Seq::<Json>::empty());
    }
    while i < n
        invariant
            n == rv.len(),
            n == results@.len(),
            i <= n,
            rv == views(results@),
            views(out@) == rv.take(i as int).filter(|r: Json| of_kinds(r, ks)),
            ks == strs_view(kinds@),
            ks.len() > 0,
            crate::json::all_wf(results@) ==> crate::json::all_wf(out@),
        decreases n - i,
    {
        let r = results[i].duplicate();
        assert(r@ == rv[i as int]);
        let keep = match r.get_str("entity") {
            Some(e) => names_contain(kinds, e),
            None => false,
        };
        proof {
            assert(rv.take(i + 1).drop_last() =~= rv.take(i as int));
            assert(rv.take(i + 1).last() == rv[i as int]);
        }
        let ghost before = out@;
        if keep {
            out.push(r);
            proof {
                assert(views(out@) =~= views(before).push(rv[i as int]));
                if crate::json::all_wf(results@) {
                    assert forall|z: int| 0 <= z < out@.len() implies crate::json::json_wf(#[trigger] out@[z]) by {
                        if z < before.len() {
                            assert(out@[z] == before[z]);
                        }
                    }
                }
            }
        } else {
            proof {
                assert(views(out@) =~= views(before));
            }
        }
        proof {
            reveal(Seq::filter);
            assert(rv.take(i + 1).filter(|r: Json| of_kinds(r, ks)) == if of_kinds(rv[i as int], ks) {
                rv.take(i as int).filter(|r: Json| of_kinds(r, ks)).push(rv[i as int])
            } else {
                rv.take(i as int).filter(|r: Json| of_kinds(r, ks))
            });
        }
        i = i + 1;
    }
    proof {
        assert(rv.take(n as int) =~= rv);
    }
    out
}

/// The pattern a search text falls back to: any title or body that holds it.
pub open spec fn like_pattern_of(text: Seq<char>) -> Seq<char> {
    "%"@ + text + "%"@
}

pub fn like_pattern(text: &str) -> (r: String)
    ensures
        r@ == like_pattern_of(text@),
{
    let a = concat("%", text);
    concat(a.as_str(), "%")
}

// ---------------------------------------------------------------------------
// Full-text search.
/// `s` without the characters in `cs`.
pub open spec fn strip(s: Seq<char>, cs: Seq<char>) -> Seq<char>
    decreases s.len(),
{
    if s.len() == 0 {
        s
    } else if cs.contains(s.last()) {
        strip(s.drop_last(), cs)
    } else {
        strip(s.drop_last(), cs).push(s.last())
    }
}

/// Reading `s` from the left: the words completed so far, and the word being read.
pub open spec fn words_fold(s: Seq<char>) -> (Seq<Seq<char>>, Seq<char>)
    decreases s.len(),
{
    if s.len() == 0 {
        (Seq::empty(), Seq::empty())
    } else {
        let (ws, cur) = words_fold(s.drop_last());
        if is_ws(s.last()) {
            if cur.len() > 0 {
                (ws.push(cur), Seq::empty())
            } else {
                (ws, cur)
            }
        } else {
            (ws, cur.push(s.last()))
        }
    }
}

/// The words of `s`, as `split_whitespace` gives them.
pub open spec fn words_of(s: Seq<char>) -> Seq<Seq<char>> {
    let (ws, cur) = words_fold(s);
    if cur.len() > 0 {
        ws.push(cur)
    } else {
        ws
    }
}

/// The texts of `ws` with `sep` between each two.
pub open spec fn join(ws: Seq<Seq<char>>, sep: Seq<char>) -> Seq<char>
    decreases ws.len(),
{
    if ws.len() == 0 {
        Seq::empty()
    } else if ws.len() == 1 {
        ws[0]
    } else {
        join(ws.drop_last(), sep) + sep + ws.last()
    }
}

/// One word of a search as a prefix term of the full-text index.
pub open spec fn fts_term(w: Seq<char>) -> Seq<char> {
    seq!['"'] + strip(w, seq!['*', ':', '(', ')']) + seq!['"', '*']
}

/// The full-text query of a search text: its words without quotes, each a
/// quoted prefix term, all of them required.
pub open spec fn fts_query_of(query: Seq<char>) -> Seq<char> {
    join(words_of(strip(trimmed(query), seq!['"'])).map_values(|w: Seq<char>| fts_term(w)), seq![' '])
}

fn is_term_mark(c: char) -> (r: bool)
    ensures
        r == seq!['*', ':', '(', ')'].contains(c),
{
    proof {
        let m = seq!['*', ':', '(', ')'];
        if m.contains(c) {
            let j = choose|j: int| 0 <= j < m.len() && m[j] == c;
            assert(j == 0 || j == 1 || j == 2 || j == 3);
        }
        assert(m[0] == '*' && m[1] == ':' && m[2] == '(' && m[3] == ')');
    }
    c == '*' || c == ':' || c == '(' || c == ')'
}

fn push_term(out: &mut String, w: &[char])
    ensures
        final(out)@ == old(out)@ + fts_term(w@),
{
    out.push('"');
    let mut i: usize = 0;
    let ghost start = old(out)@.push('"');
    assert(w@.take(0) =~= Seq::<char>::empty());
    while i < w.len()
        invariant
            i <= w@.len(),
            out@ == start + strip(w@.take(i as int), seq!['*', ':', '(', ')']),
        decreases w.len() - i,
    {
        let c = w[i];
        assert(w@.take(i + 1).drop_last() =~= w@.take(i as int));
        assert(w@.take(i + 1).last() == c);
        if !is_term_mark(c) {
            out.push(c);
        }
        i = i + 1;
        assert(out@ =~= start + strip(w@.take(i as int), seq!['*', ':', '(', ')']));
    }
    assert(w@.take(w@.len() as int) =~= w@);
    out.push('"');
    out.push('*');
    assert(final(out)@ =~= old(out)@ + fts_term(w@));
}

/// The full-text query a search text is run as.
pub fn fts_query(query: &str) -> (r: String)
    ensures
        r@ == fts_query_of(query@),
{
    let t = trim(query);
    let cs = chars_of(t.as_str());
    let ghost q = seq!['"'];
    // Quotes are dropped first.
    let mut plain: Vec<char> = Vec::new();
    let mut i: usize = 0;
    assert(cs@.take(0) =~= Seq::<char>::empty());
    while i < cs.len()
        invariant
            i <= cs@.len(),
            plain@ == strip(cs@.take(i as int), q),
            q == seq!['"'],
        decreases cs.len() - i,
    {
        let c = cs[i];
        assert(cs@.take(i + 1).drop_last() =~= cs@.take(i as int));
        assert(cs@.take(i + 1).last() == c);
        proof {
            assert(q[0] == '"');
            if q.contains(c) {
                let j = choose|j: int| 0 <= j < q.len() && q[j] == c;
                assert(j == 0);
            }
        }
        if c != '"' {
            plain.push(c);
        }
        i = i + 1;
    }
    assert(cs@.take(cs@.len() as int) =~= cs@);
    // Then the text is cut into words.
    let ghost p = plain@;
    let mut words: Vec<Vec<char>> = Vec::new();
    let mut cur: Vec<char> = Vec::new();
    let mut k: usize = 0;
    assert(p.take(0) =~= Seq::<char>::empty());
    while k < plain.len()
        invariant
            k <= p.len(),
            p == plain@,
            words@.map_values(|w: Vec<char>| w@) == words_fold(p.take(k as int)).0,
            cur@ == words_fold(p.take(k as int)).1,
        decreases plain.len() - k,
    {
        let c = plain[k];
        assert(p.take(k + 1).drop_last() =~= p.take(k as int));
        assert(p.take(k + 1).last() == c);
        let ghost wv = words@.map_values(|w: Vec<char>| w@);
        if crate::text::is_ws_char(c) {
            if cur.len() > 0 {
                let done = cur;
                cur = Vec::new();
                words.push(done);
                assert(words@.map_values(|w: Vec<char>| w@) =~= wv.push(done@));
                assert(cur@ =~= Seq::<char>::empty());
            }
        } else {
            cur.push(c);
        }
        k = k + 1;
    }
    assert(p.take(p.len() as int) =~= p);
    let ghost wv = words@.map_values(|w: Vec<char>| w@);
    if cur.len() > 0 {
        words.push(cur);
        assert(words@.map_values(|w: Vec<char>| w@) =~= wv.push(cur@));
    }
    let ghost all = words@.map_values(|w: Vec<char>| w@);
    assert(all == words_of(strip(trimmed(query@), seq!['"'])));
    // Each word becomes a term.
    let ghost terms = all.map_values(|w: Seq<char>| fts_term(w));
    let mut out = String::new();
    let mut n: usize = 0;
    assert(terms.take(0) =~= Seq::<Seq<char>>::empty());
    while n < words.len()
        invariant
            n <= words@.len(),
            all == words@.map_values(|w: Vec<char>| w@),
            terms == all.map_values(|w: Seq<char>| fts_term(w)),
            out@ == join(terms.take(n as int), seq![' ']),
        decreases words.len() - n,
    {
        if n > 0 {
            out.push(' ');
        }
        push_term(&mut out, words[n].as_slice());
        proof {
            assert(terms.take(n + 1).drop_last() =~= terms.take(n as int));
            assert(terms.take(n + 1).last() == fts_term(words@[n as int]@));
            if n == 0 {
                assert(terms.take(1).len() == 1);
                assert(out@ =~= terms.take(1)[0]);
            } else {
                assert(out@ =~= join(terms.take(n as int), seq![' ']) + seq![' '] + terms.take(n + 1).last());
            }
        }
        n = n + 1;
    }
    assert(terms.take(words@.len() as int) =~= terms);
    out
}

// ---------------------------------------------------------------------------
// Timeline events of a save.
pub open spec fn keyed_views(cs: Seq<(JsonValue, String)>) -> Seq<(Json, Seq<char>)> {
    cs.map_values(|c: (JsonValue, String)| (c.0@, c.1@))
}

/// The field changes of a save, each with its timeline key: none for a new
/// record, and none for a timeline event itself.
pub fn keyed_timeline_changes(entity: &str, source_id: &str, before: Option<&JsonValue>, after: &JsonValue) -> (r:
    Vec<(JsonValue, String)>)
    ensures
        crate::json::json_wf(*after) && (before matches Some(b) ==> crate::json::json_wf(*b)) ==> forall|i: int| 0 <= i < r@.len() ==> crate::json::json_wf(#[trigger] r@[i].0),
        (entity@ == "timelineEvents"@ || before is None) ==> r@.len() == 0,
        entity@ != "timelineEvents"@ && before is Some ==> r@.len() == change_specs_of(
            entity@,
            before.unwrap()@,
            after@,
        ).len(),
        entity@ != "timelineEvents"@ && before is Some ==> forall|i: int|
            0 <= i < r@.len() ==> (#[trigger] r@[i]).0@ == change_specs_of(entity@, before.unwrap()@, after@)[i]
                && r@[i].1@ == timeline_key_of(source_id@, r@[i].0),
{
    let mut out: Vec<(JsonValue, String)> = Vec::new();
    if eq_str(entity, "timelineEvents") {
        return out;
    }
    let b = match before {
        Some(b) => b,
        None => {
            return out;
        },
    };
    let changes = timeline_change_specs(entity, b, after);
    let ghost cv = change_specs_of(entity@, b@, after@);
    assert(changes@.len() == cv.len()) by {
        assert(changes@.map_values(|v: JsonValue| v@).len() == changes@.len());
    }
    let mut i: usize = 0;
    while i < changes.len()
        invariant
            i <= changes@.len(),
            cv.len() == changes@.len(),
            changes@.map_values(|v: JsonValue| v@) == cv,
            out@.len() == i,
            forall|j: int|
                0 <= j < i ==> (#[trigger] out@[j]).0@ == cv[j] && out@[j].1@ == timeline_key_of(
                    source_id@,
                    out@[j].0,
                ),
            crate::json::all_wf(changes@) ==> forall|j: int| 0 <= j < i ==> crate::json::json_wf(#[trigger] out@[j].0),
        decreases changes.len() - i,
    {
        let c = changes[i].duplicate();
        assert(changes@.map_values(|v: JsonValue| v@)[i as int] == changes@[i as int]@);
        let k = timeline_event_key(source_id, &c);
        let ghost before_push = out@;
        out.push((c, k));
        proof {
            assert forall|j: int| 0 <= j < i implies #[trigger] out@[j] == before_push[j] by {}
        }
        i = i + 1;
    }
    out
}

/// The keyed changes still to be written, in order: a change is written unless
/// its key is known, or an earlier change of the same save had the same key.
pub open spec fn pending_of(cs: Seq<(Json, Seq<char>)>, known: Seq<Seq<char>>) -> Seq<(Json, Seq<char>)>
    decreases cs.len(),
{
    if cs.len() == 0 {
        Seq::empty()
    } else {
        let rest = pending_of(cs.drop_last(), known);
        let c = cs.last();
        if known.contains(c.1) || keys_of(rest).contains(c.1) {
            rest
        } else {
            rest.push(c)
        }
    }
}

pub open spec fn keys_of(cs: Seq<(Json, Seq<char>)>) -> Seq<Seq<char>> {
    cs.map_values(|c: (Json, Seq<char>)| c.1)
}

/// The events written for the pending changes of a save of `source_id`.
pub open spec fn events_of(
    entity: Seq<char>,
    source_id: Seq<char>,
    pending: Seq<(Json, Seq<char>)>,
    occurred_at: Seq<char>,
    after: Json,
) -> Seq<Json> {
    pending.map_values(|p: (Json, Seq<char>)| event_of(entity, source_id, p.0, p.1, occurred_at, after))
}

/// The timeline events a save still has to write, given the keys of the events
/// already stored; the keys of the new events join `known`.
pub fn timeline_events_to_write(
    entity: &str,
    source_id: &str,
    changes: &Vec<(JsonValue, String)>,
    after: &JsonValue,
    occurred_at: &str,
    known: &mut Vec<String>,
) -> (r: Vec<JsonValue>)
    ensures
        crate::json::json_wf(*after) && (forall|i: int| 0 <= i < changes@.len() ==> crate::json::json_wf(#[trigger] changes@[i].0)) ==> crate::json::all_wf(r@),
        strs_view(final(known)@) == strs_view(old(known)@) + keys_of(
            pending_of(keyed_views(changes@), strs_view(old(known)@)),
        ),
        views(r@) == events_of(
            entity@,
            source_id@,
            pending_of(keyed_views(changes@), strs_view(old(known)@)),
            occurred_at@,
            after@,
        ),
{
    let ghost k0 = strs_view(known@);
    let ghost cs = keyed_views(changes@);
    let mut out: Vec<JsonValue> = Vec::new();
    let mut i: usize = 0;
    assert(cs.take(0) =~= Seq::<(Json, Seq<char>)>::empty());
    assert(strs_view(known@) =~= k0 + keys_of(Seq::<(Json, Seq<char>)>::empty()));
    while i < changes.len()
        invariant
            i <= changes@.len(),
            cs == keyed_views(changes@),
            cs.len() == changes@.len(),
            strs_view(known@) == k0 + keys_of(pending_of(cs.take(i as int), k0)),
            views(out@) == events_of(entity@, source_id@, pending_of(cs.take(i as int), k0), occurred_at@, after@),
            crate::json::json_wf(*after) && (forall|q: int| 0 <= q < changes@.len() ==> crate::json::json_wf(#[trigger] changes@[q].0)) ==> crate::json::all_wf(out@),
        decreases changes.len() - i,
    {
        let key = &changes[i].1;
        let ghost rest = pending_of(cs.take(i as int), k0);
        proof {
            assert(cs.take(i + 1).drop_last() =~= cs.take(i as int));
            assert(cs.take(i + 1).last() == cs[i as int]);
            assert(cs[i as int] == (changes@[i as int].0@, changes@[i as int].1@));
        }
        if !names_contain(known.as_slice(), key.as_str()) {
            let ev = timeline_event(entity, source_id, &changes[i].0, key.as_str(), occurred_at, after);
            let ghost before_out = out@;
            let ghost before_known = known@;
            out.push(ev);
            known.push(own(key.as_str()));
            proof {
                assert forall|z: int| 0 <= z < before_out.len() implies #[trigger] out@[z] == before_out[z] by {}
                let np = rest.push(cs[i as int]);
                assert(!strs_view(before_known).contains(key@));
                let x = cs[i as int].1;
                assert(!(k0 + keys_of(rest)).contains(x));
                if k0.contains(x) {
                    let j = choose|j: int| 0 <= j < k0.len() && k0[j] == x;
                    assert((k0 + keys_of(rest))[j] == x);
                }
                if keys_of(rest).contains(x) {
                    let j = choose|j: int| 0 <= j < keys_of(rest).len() && keys_of(rest)[j] == x;
                    assert((k0 + keys_of(rest))[k0.len() + j] == x);
                }
                assert(pending_of(cs.take(i + 1), k0) == np);
                assert(keys_of(np) =~= keys_of(rest).push(cs[i as int].1));
                assert(strs_view(known@) =~= strs_view(before_known).push(key@));
                assert(views(out@) =~= views(before_out).push(ev@));
                assert(events_of(entity@, source_id@, np, occurred_at@, after@) =~= events_of(
                    entity@,
                    source_id@,
                    rest,
                    occurred_at@,
                    after@,
                ).push(ev@));
            }
        } else {
            proof {
                let x = cs[i as int].1;
                assert((k0 + keys_of(rest)).contains(x));
                let j = choose|j: int| 0 <= j < (k0 + keys_of(rest)).len() && (k0 + keys_of(rest))[j] == x;
                if j < k0.len() {
                    assert(k0[j] == x);
                } else {
                    assert(keys_of(rest)[j - k0.len()] == x);
                }
                assert(k0.contains(x) || keys_of(rest).contains(x));
                assert(pending_of(cs.take(i + 1), k0) == rest);
            }
        }
        i = i + 1;
    }
    assert(cs.take(changes@.len() as int) =~= cs);
    out
}

/// Every key of a save's changes is known once its pending events are written.
pub proof fn lemma_pending_keys_cover(cs: Seq<(Json, Seq<char>)>, known: Seq<Seq<char>>)
    ensures
        forall|i: int|
            0 <= i < cs.len() ==> #[trigger] (known + keys_of(pending_of(cs, known))).contains(cs[i].1),
    decreases cs.len(),
{
    if cs.len() > 0 {
        let d = cs.drop_last();
        lemma_pending_keys_cover(d, known);
        let rest = pending_of(d, known);
        let p = pending_of(cs, known);
        let c = cs.last();
        assert forall|i: int| 0 <= i < cs.len() implies #[trigger] (known + keys_of(p)).contains(cs[i].1) by {
            let all = known + keys_of(p);
            if i < d.len() {
                assert(cs[i] == d[i]);
                assert((known + keys_of(rest)).contains(d[i].1));
                let j = choose|j: int| 0 <= j < (known + keys_of(rest)).len() && (known + keys_of(rest))[j] == d[i].1;
                if p != rest {
                    assert(p == rest.push(c));
                    assert(keys_of(p) =~= keys_of(rest).push(c.1));
                }
                assert(all[j] == (known + keys_of(rest))[j]);
            } else {
                assert(cs[i] == c);
                if known.contains(c.1) {
                    let j = choose|j: int| 0 <= j < known.len() && known[j] == c.1;
                    assert(all[j] == c.1);
                } else if keys_of(rest).contains(c.1) {
                    let j = choose|j: int| 0 <= j < keys_of(rest).len() && keys_of(rest)[j] == c.1;
                    assert(p == rest);
                    assert(all[known.len() + j] == c.1);
                } else {
                    assert(p == rest.push(c));
                    assert(keys_of(p) =~= keys_of(rest).push(c.1));
                    assert(all[(known.len() + rest.len()) as int] == c.1);
                }
            }
        }
    }
}

/// Nothing is pending when every key is known.
pub proof fn lemma_nothing_pending(cs: Seq<(Json, Seq<char>)>, known: Seq<Seq<char>>)
    requires
        forall|i: int| 0 <= i < cs.len() ==> known.contains(#[trigger] cs[i].1),
    ensures
        pending_of(cs, known).len() == 0,
    decreases cs.len(),
{
    if cs.len() > 0 {
        let d = cs.drop_last();
        assert forall|i: int| 0 <= i < d.len() implies known.contains(#[trigger] d[i].1) by {
            assert(d[i] == cs[i]);
        }
        lemma_nothing_pending(d, known);
        assert(known.contains(cs[cs.len() - 1].1));
    }
}

/// Writing a save's timeline events twice writes them once: with the keys the
/// first write left, nothing is pending the second time.
pub proof fn lemma_timeline_writes_idempotent(cs: Seq<(Json, Seq<char>)>, known: Seq<Seq<char>>)
    ensures
        pending_of(cs, known + keys_of(pending_of(cs, known))).len() == 0,
{
    lemma_pending_keys_cover(cs, known);
    lemma_nothing_pending(cs, known + keys_of(pending_of(cs, known)));
}

// ---------------------------------------------------------------------------
// Captured items.
/// The columns a captured item is stored with, each the trimmed text of the
/// canonical item's field (empty when there is none).
pub open spec fn item_column_keys() -> Seq<Seq<char>> {
    seq![
        "platformCode"@,
        "externalId"@,
        "contentType"@,
        "title"@,
        "content"@,
        "author"@,
        "authorId"@,
        "canonicalUrl"@,
        "coverUrl"@,
        "publishedAt"@,
        "provider"@,
    ]
}

pub fn item_columns(canonical: &JsonValue) -> (r: Vec<String>)
    ensures
        r@.len() == item_column_keys().len(),
        forall|i: int|
            0 <= i < r@.len() ==> (#[trigger] r@[i])@ == crate::json::field_text(
                canonical@,
                item_column_keys()[i],
            ),
{
    let keys = vec![
        "platformCode",
        "externalId",
        "contentType",
        "title",
        "content",
        "author",
        "authorId",
        "canonicalUrl",
        "coverUrl",
        "publishedAt",
        "provider",
    ];
    assert(keys@.map_values(|k: &str| k@) =~= item_column_keys());
    let mut out: Vec<String> = Vec::new();
    let mut i: usize = 0;
    while i < keys.len()
        invariant
            i <= keys@.len(),
            keys@.map_values(|k: &str| k@) == item_column_keys(),
            keys@.len() == item_column_keys().len(),
            out@.len() == i,
            forall|j: int|
                0 <= j < i ==> (#[trigger] out@[j])@ == crate::json::field_text(canonical@, item_column_keys()[j]),
        decreases keys.len() - i,
    {
        assert(keys@.map_values(|k: &str| k@)[i as int] == keys@[i as int]@);
        out.push(canonical.text_of(keys[i]));
        i = i + 1;
    }
    out
}

/// The counts an observation of a captured item records.
pub open spec fn metric_keys() -> Seq<Seq<char>> {
    seq!["views"@, "likes"@, "comments"@, "shares"@, "saves"@, "followers"@]
}

/// A count of the item's `metrics` (0 when it is missing or not a 64-bit integer).
pub open spec fn metric_of(canonical: Json, k: Seq<char>) -> int {
    let m = match field(canonical, "metrics"@) {
        Some(m) => m,
        None => crate::json::empty_obj(),
    };
    match crate::json::as_i64(field(m, k)) {
        Some(v) => v,
        None => 0,
    }
}

pub fn observation_metrics(canonical: &JsonValue) -> (r: Vec<i64>)
    ensures
        r@.len() == metric_keys().len(),
        forall|i: int| 0 <= i < r@.len() ==> (#[trigger] r@[i]) as int == metric_of(canonical@, metric_keys()[i]),
{
    let keys = vec!["views", "likes", "comments", "shares", "saves", "followers"];
    assert(keys@.map_values(|k: &str| k@) =~= metric_keys());
    let empty = JsonValue::empty_object();
    let m = match canonical.get("metrics") {
        Some(m) => m,
        None => &empty,
    };
    let mut out: Vec<i64> = Vec::new();
    let mut i: usize = 0;
    while i < keys.len()
        invariant
            i <= keys@.len(),
            keys@.map_values(|k: &str| k@) == metric_keys(),
            keys@.len() == metric_keys().len(),
            m@ == (match field(canonical@, "metrics"@) {
                Some(x) => x,
                None => crate::json::empty_obj(),
            }),
            out@.len() == i,
            forall|j: int| 0 <= j < i ==> (#[trigger] out@[j]) as int == metric_of(canonical@, metric_keys()[j]),
        decreases keys.len() - i,
    {
        assert(keys@.map_values(|k: &str| k@)[i as int] == keys@[i as int]@);
        let v: i64 = match m.i64_of(keys[i]) {
            Some(v) => v,
            None => 0,
        };
        out.push(v);
        i = i + 1;
    }
    out
}

/// The id of the observation of `item_id` made at `captured_at`.
pub fn observation_id(item_id: &str, captured_at: &str) -> (r: String)
    ensures
        r@ == "observation-"@ + item_id@ + "-"@ + captured_at@,
{
    let a = concat("observation-", item_id);
    let b = concat(a.as_str(), "-");
    concat(b.as_str(), captured_at)
}

/// The id a captured item is stored under: the item already stored with the
/// same platform and external id, else the one with the same link, else `id`.
pub fn stored_item_id(by_external_id: Option<String>, by_link: Option<String>, id: &str) -> (r: String)
    ensures
        r@ == (match by_external_id {
            Some(x) => x@,
            None => match by_link {
                Some(y) => y@,
                None => id@,
            },
        }),
{
    match by_external_id {
        Some(x) => x,
        None => match by_link {
            Some(y) => y,
            None => own(id),
        },
    }
}

// ---------------------------------------------------------------------------
// A save, checked and completed.
/// A save of `data` as the record `id` of `entity` (`existing`: the record
/// stored under `id`, if any), checked against the stored records `stored` and
/// the records `active` that are not archived, and completed with its
/// references and timeline metadata at time `now`: the record to write and its
/// creation time.
pub open spec fn prepared_save_of(
    stored: Seq<Json>,
    active: Seq<Json>,
    entity: Seq<char>,
    id: Seq<char>,
    data: Json,
    existing: Option<Json>,
    now: Seq<char>,
) -> Result<(Json, Seq<char>), Seq<char>> {
    if entity == "externalSources"@ && crate::records::saves_active(data) && crate::records::active_sources(active, id)
        >= 20 {
        Err(crate::records::capacity_msg())
    } else {
        let created = created_at_of(existing, data, now);
        match crate::records::normalize_of(stored, entity, data, true) {
            Err(e) => Err(e),
            Ok(n) => {
                let enriched = crate::timeline::with_timeline(entity, n, created, now);
                if timer_conflict_of(active, entity, id, enriched) {
                    Err("全局已有正在运行的计时器"@)
                } else {
                    Ok((enriched, created))
                }
            },
        }
    }
}

/// A save that is accepted never starts a second running timer: whatever the
/// data, an accepted running time log has no other running time log beside it.
pub proof fn lemma_accepted_save_runs_one_timer(
    stored: Seq<Json>,
    active: Seq<Json>,
    entity: Seq<char>,
    id: Seq<char>,
    data: Json,
    existing: Option<Json>,
    now: Seq<char>,
)
    ensures
        prepared_save_of(stored, active, entity, id, data, existing, now) matches Ok((v, _)) ==> !timer_conflict_of(
            active,
            entity,
            id,
            v,
        ),
{
}

pub fn prepare_save(
    stored: &[JsonValue],
    active: &[JsonValue],
    entity: &str,
    id: &str,
    data: &JsonValue,
    existing: Option<&JsonValue>,
    now: &str,
) -> (r: Result<(JsonValue, String), String>)
    ensures
        crate::json::json_wf(*data) && (existing matches Some(e) ==> crate::json::json_wf(*e)) && crate::json::all_wf(stored@) && crate::json::all_wf(active@) ==> (r matches Ok(p) ==> crate::json::json_wf(p.0)),
        match r {
            Ok((v, c)) => prepared_save_of(
                views(stored@),
                views(active@),
                entity@,
                id@,
                data@,
                crate::json::opt_view(existing),
                now@,
            ) == Ok::<(Json, Seq<char>), Seq<char>>((v@, c@)),
            Err(e) => prepared_save_of(
                views(stored@),
                views(active@),
                entity@,
                id@,
                data@,
                crate::json::opt_view(existing),
                now@,
            ) == Err::<(Json, Seq<char>), Seq<char>>(e@),
        },
{
    match crate::records::ensure_external_source_capacity(active, entity, id, data) {
        Err(e) => {
            return Err(e);
        },
        Ok(()) => {},
    }
    let created = created_at_for(existing, data, now);
    let normalized = match crate::records::normalize_record(stored, entity, data, true) {
        Err(e) => {
            return Err(e);
        },
        Ok(n) => n,
    };
    let enriched = crate::timeline::apply_timeline_metadata(entity, &normalized, created.as_str(), now);
    match ensure_single_running_timer(active, entity, id, &enriched) {
        Err(e) => Err(e),
        Ok(()) => Ok((enriched, created)),
    }
}

// ---------------------------------------------------------------------------
// Listing and exporting.
/// Which records a listing asks for: all of them (`true`), or one declared kind.
pub open spec fn list_scope_of(entity: Seq<char>) -> Result<bool, Seq<char>> {
    if entity == "all"@ {
        Ok(true)
    } else if is_entity_name(entity) {
        Ok(false)
    } else {
        Err("Unknown entity"@)
    }
}

pub fn list_scope(entity: &str) -> (r: Result<bool, String>)
    ensures
        match r {
            Ok(b) => list_scope_of(entity@) == Ok::<bool, Seq<char>>(b),
            Err(e) => list_scope_of(entity@) == Err::<bool, Seq<char>>(e@),
        },
{
    if eq_str(entity, "all") {
        Ok(true)
    } else if is_entity(entity) {
        Ok(false)
    } else {
        Err(own("Unknown entity"))
    }
}

/// The text under `k`, or `d` when there is none.
pub open spec fn text_or(j: Json, k: Seq<char>, d: Seq<char>) -> Seq<char> {
    match field_str(j, k) {
        Some(s) => s,
        None => d,
    }
}

fn text_or_exec(j: &JsonValue, k: &str, d: &str) -> (r: String)
    ensures
        r@ == text_or(j@, k@, d@),
{
    match j.get_str(k) {
        Some(s) => own(s),
        None => own(d),
    }
}

/// One record of a Markdown export: a heading with its kind and title, then the record.
pub open spec fn markdown_entry(r: JsonValue) -> Seq<char> {
    "## "@ + text_or(r@, "entity"@, "record"@) + " · "@ + text_or(r@, "title"@, "Untitled"@) + "\n\n"@
        + crate::json::pretty_text(r, Seq::empty()) + seq!['\n']
}

/// A CSV field with its quotes doubled.
pub open spec fn csv_escape(s: Seq<char>) -> Seq<char>
    decreases s.len(),
{
    if s.len() == 0 {
        s
    } else if s.last() == '"' {
        csv_escape(s.drop_last()) + seq!['"', '"']
    } else {
        csv_escape(s.drop_last()).push(s.last())
    }
}

pub open spec fn csv_header() -> Seq<char> {
    "id,entity,title,createdAt,updatedAt,data\n"@
}

/// One record of a CSV export.
pub open spec fn csv_row(r: JsonValue) -> Seq<char> {
    let j = r@;
    "\""@ + text_or(j, "id"@, ""@) + "\",\""@ + text_or(j, "entity"@, ""@) + "\",\""@ + csv_escape(
        text_or(j, "title"@, ""@),
    ) + "\",\""@ + text_or(j, "createdAt"@, ""@) + "\",\""@ + text_or(j, "updatedAt"@, ""@) + "\",\""@
        + csv_escape(json_text(r)) + "\"\n"@
}

pub open spec fn csv_rows(rs: Seq<JsonValue>) -> Seq<char>
    decreases rs.len(),
{
    if rs.len() == 0 {
        Seq::empty()
    } else {
        csv_rows(rs.drop_last()) + csv_row(rs.last())
    }
}

fn push_csv_escaped(out: &mut String, s: &str)
    ensures
        final(out)@ == old(out)@ + csv_escape(s@),
{
    let cs = chars_of(s);
    let ghost o = old(out)@;
    let mut i: usize = 0;
    assert(cs@.take(0) =~= Seq::<char>::empty());
    while i < cs.len()
        invariant
            i <= cs@.len(),
            cs@ == s@,
            out@ == o + csv_escape(cs@.take(i as int)),
        decreases cs.len() - i,
    {
        let c = cs[i];
        assert(cs@.take(i + 1).drop_last() =~= cs@.take(i as int));
        assert(cs@.take(i + 1).last() == c);
        out.push(c);
        if c == '"' {
            out.push('"');
        }
        i = i + 1;
        assert(out@ =~= o + csv_escape(cs@.take(i as int)));
    }
    assert(cs@.take(cs@.len() as int) =~= cs@);
}

#[verifier::spinoff_prover]
#[verifier::rlimit(40)]
fn push_markdown_entry(out: &mut String, r: &JsonValue)
    ensures
        final(out)@ == old(out)@ + markdown_entry(*r),
{
    let e = text_or_exec(r, "entity", "record");
    let t = text_or_exec(r, "title", "Untitled");
    let ghost m0 = out@;
    out.append("## ");
    out.append(e.as_str());
    out.append(" · ");
    out.append(t.as_str());
    out.append("\n\n");
    let ghost m1 = out@;
    assert(m1 =~= m0 + ("## "@ + e@ + " · "@ + t@ + "\n\n"@));
    crate::json::push_pretty(out, r, "");
    proof {
        reveal_strlit("");
        assert(""@ =~= Seq::<char>::empty());
    }
    let ghost m2 = out@;
    assert(m2 == m1 + crate::json::pretty_text(*r, Seq::empty()));
    out.push('\n');
    assert(out@ =~= m0 + markdown_entry(*r));
}

#[verifier::spinoff_prover]
#[verifier::rlimit(40)]
fn push_csv_row(out: &mut String, r: &JsonValue)
    ensures
        final(out)@ == old(out)@ + csv_row(*r),
{
    let id = text_or_exec(r, "id", "");
    let entity = text_or_exec(r, "entity", "");
    let title = text_or_exec(r, "title", "");
    let created = text_or_exec(r, "createdAt", "");
    let updated = text_or_exec(r, "updatedAt", "");
    let body = to_json_text(r);
    let ghost m0 = out@;
    out.append("\"");
    out.append(id.as_str());
    out.append("\",\"");
    out.append(entity.as_str());
    out.append("\",\"");
    let ghost m1 = out@;
    assert(m1 =~= m0 + ("\""@ + id@ + "\",\""@ + entity@ + "\",\""@));
    push_csv_escaped(out, title.as_str());
    out.append("\",\"");
    out.append(created.as_str());
    out.append("\",\"");
    out.append(updated.as_str());
    out.append("\",\"");
    let ghost m2 = out@;
    assert(m2 =~= m1 + (csv_escape(title@) + "\",\""@ + created@ + "\",\""@ + updated@ + "\",\""@));
    push_csv_escaped(out, body.as_str());
    out.append("\"\n");
    let ghost m3 = out@;
    assert(m3 =~= m2 + (csv_escape(json_text(*r)) + "\"\n"@));
    assert(m3 =~= m0 + csv_row(*r));
}

/// The JSON export: the time of the export, the records and the format version,
/// indented as `serde_json::to_string_pretty` writes them.
pub open spec fn export_json_of(records: Seq<JsonValue>, exported_at: Seq<char>) -> Seq<char> {
    let ind = seq![' ', ' '];
    seq!['{', '\n'] + ind + crate::json::quoted("exportedAt"@) + seq![':', ' '] + crate::json::quoted(exported_at)
        + seq![',', '\n'] + ind + crate::json::quoted("records"@) + seq![':', ' '] + (if records.len() == 0 {
        "[]"@
    } else {
        seq!['[', '\n'] + crate::json::pretty_items(records, ind + ind) + seq!['\n'] + ind + seq![']']
    }) + seq![',', '\n'] + ind + crate::json::quoted("version"@) + seq![':', ' ', '1'] + seq!['\n', '}']
}

/// The export of `records` (oldest first) in `format`: JSON with the time of
/// the export, Markdown, or CSV.
pub open spec fn export_of(format: Seq<char>, records: Seq<JsonValue>, exported_at: Seq<char>) -> Result<
    Seq<char>,
    Seq<char>,
> {
    if format == "json"@ {
        Ok(export_json_of(records, exported_at))
    } else if format == "markdown"@ {
        Ok(join(records.map_values(|r: JsonValue| markdown_entry(r)), seq!['\n']))
    } else if format == "csv"@ {
        Ok(csv_header() + csv_rows(records))
    } else {
        Err("Unsupported export format"@)
    }
}

#[verifier::spinoff_prover]
#[verifier::rlimit(40)]
fn export_json(records: Vec<JsonValue>, exported_at: &str) -> (r: String)
    ensures
        r@ == export_json_of(records@, exported_at@),
{
    let ghost rs = records@;
    let members: Vec<(String, JsonValue)> = vec![
        (own("exportedAt"), JsonValue::text(exported_at)),
        (own("records"), JsonValue::Array(records)),
        (own("version"), JsonValue::Number(crate::json::JsonNumber::PosInt(1))),
    ];
    let ghost ms = members@;
    let doc = JsonValue::Object(members);
    let out = crate::json::to_pretty_text(&doc);
    proof {
        let ind = seq![' ', ' '];
        let e = Seq::<char>::empty();
        assert(ms.len() == 3);
        assert(ms[0].0@ == "exportedAt"@ && ms[1].0@ == "records"@ && ms[2].0@ == "version"@);
        assert(e + ind =~= ind);
        let p0 = crate::json::pretty_text(ms[0].1, ind);
        let p1 = crate::json::pretty_text(ms[1].1, ind);
        let p2 = crate::json::pretty_text(ms[2].1, ind);
        assert(p0 == crate::json::quoted(exported_at@));
        assert(p2 == seq!['1']) by {
            reveal_with_fuel(crate::text::nat_dec, 2);
            assert(crate::text::nat_dec(1) =~= seq!['1']);
        }
        assert(ind + ind =~= ind + seq![' ', ' ']);
        let d1 = ms.drop_last();
        let d0 = d1.drop_last();
        assert(d0 =~= seq![ms[0]]);
        assert(d1.len() == 2 && d1.last() == ms[1]);
        let a = crate::json::pretty_members(d0, ind);
        assert(a == ind + crate::json::quoted("exportedAt"@) + seq![':', ' '] + p0);
        let b = crate::json::pretty_members(d1, ind);
        assert(b == a + seq![',', '\n'] + ind + crate::json::quoted("records"@) + seq![':', ' '] + p1);
        let c = crate::json::pretty_members(ms, ind);
        assert(c == b + seq![',', '\n'] + ind + crate::json::quoted("version"@) + seq![':', ' '] + p2);
        assert(out@ == seq!['{', '\n'] + c + seq!['\n'] + e + seq!['}']);
        assert(out@ =~= export_json_of(rs, exported_at@));
    }
    out
}

/// The text an export of `records` in `format` writes.
pub fn export_content(format: &str, records: Vec<JsonValue>, exported_at: &str) -> (r: Result<String, String>)
    ensures
        match r {
            Ok(t) => export_of(format@, records@, exported_at@) == Ok::<Seq<char>, Seq<char>>(t@),
            Err(e) => export_of(format@, records@, exported_at@) == Err::<Seq<char>, Seq<char>>(e@),
        },
{
    if eq_str(format, "json") {
        return Ok(export_json(records, exported_at));
    }
    if eq_str(format, "markdown") {
        let ghost entries = records@.map_values(|r: JsonValue| markdown_entry(r));
        let mut out = String::new();
        let mut i: usize = 0;
        assert(entries.take(0) =~= Seq::<Seq<char>>::empty());
        while i < records.len()
            invariant
                i <= records@.len(),
                entries == records@.map_values(|r: JsonValue| markdown_entry(r)),
                out@ == join(entries.take(i as int), seq!['\n']),
            decreases records.len() - i,
        {
            let r = &records[i];
            if i > 0 {
                out.push('\n');
            }
            push_markdown_entry(&mut out, r);
            proof {
                assert(entries[i as int] == markdown_entry(records@[i as int]));
                assert(entries.take(i + 1).drop_last() =~= entries.take(i as int));
                assert(entries.take(i + 1).last() == entries[i as int]);
                if i == 0 {
                    assert(out@ =~= join(entries.take(1), seq!['\n']));
                } else {
                    assert(out@ =~= join(entries.take(i as int), seq!['\n']) + seq!['\n'] + entries.take(
                        i + 1,
                    ).last());
                }
            }
            i = i + 1;
        }
        assert(entries.take(records@.len() as int) =~= entries);
        return Ok(out);
    }
    if eq_str(format, "csv") {
        let mut out = own("id,entity,title,createdAt,updatedAt,data\n");
        let mut i: usize = 0;
        assert(records@.take(0) =~= Seq::<JsonValue>::empty());
        while i < records.len()
            invariant
                i <= records@.len(),
                out@ == csv_header() + csv_rows(records@.take(i as int)),
            decreases records.len() - i,
        {
            let r = &records[i];
            push_csv_row(&mut out, r);
            proof {
                assert(records@.take(i + 1).drop_last() =~= records@.take(i as int));
                assert(records@.take(i + 1).last() == records@[i as int]);
            }
            i = i + 1;
        }
        assert(records@.take(records@.len() as int) =~= records@);
        return Ok(out);
    }
    Err(own("Unsupported export format"))
}

} // verus!
