//! Timeline metadata: when a record happened, what kind of time that is, how
//! important it is and how well it is evidenced; and the change events that a
//! status change leaves behind.
use vstd::prelude::*;
use crate::text::{eq_str, chars_of, trimmed, is_digit, lemma_trimmed_idempotent};
use crate::json::{
    JsonValue, Json, field, field_str, field_id, with, jstr, is_obj, empty_obj, json_eq, opt_view,
};
use crate::catalog::{is_timeline_source, timeline_source};

verus! {

/// The first of two fields that holds non-blank text, trimmed.
pub open spec fn first_id(d: Json, a: Seq<char>, b: Seq<char>) -> Option<Seq<char>> {
    match field_id(d, a) {
        Some(v) => Some(v),
        None => field_id(d, b),
    }
}

pub open spec fn or_else(v: Option<Seq<char>>, dflt: Seq<char>) -> Seq<char> {
    match v {
        Some(x) => x,
        None => dflt,
    }
}

/// When a record happened on the timeline and what that time means
/// (`actual`, `planned` or `recorded`).
pub open spec fn semantics_of(entity: Seq<char>, d: Json, created: Seq<char>, updated: Seq<char>) -> (
    Seq<char>,
    Seq<char>,
) {
    if entity == "timeLogs"@ {
        (or_else(field_id(d, "startAt"@), created), "actual"@)
    } else if entity == "events"@ {
        (or_else(field_id(d, "startAt"@), created), "planned"@)
    } else if entity == "decisions"@ {
        (or_else(first_id(d, "date"@, "decisionDate"@), created), "recorded"@)
    } else if entity == "results"@ {
        (or_else(first_id(d, "date"@, "completedAt"@), created), "actual"@)
    } else if entity == "signals"@ {
        (or_else(field_id(d, "detectedAt"@), created), "recorded"@)
    } else if entity == "intelligenceBriefs"@ {
        (or_else(field_id(d, "generatedAt"@), created), "recorded"@)
    } else if entity == "tasks"@ && field_str(d, "status"@) == Some("completed"@) {
        (or_else(field_id(d, "completedAt"@), updated), "actual"@)
    } else if entity == "tasks"@ {
        match first_id(d, "dueAt"@, "dueDate"@) {
            Some(v) => (v, "planned"@),
            None => (created, "recorded"@),
        }
    } else if entity == "timelineEvents"@ {
        (or_else(field_id(d, "occurredAt"@), created), "actual"@)
    } else {
        (created, "recorded"@)
    }
}

/// The number of UTF-8 bytes that encode a character.
pub open spec fn utf8_width(c: char) -> int {
    if (c as int) < 0x80 {
        1
    } else if (c as int) < 0x800 {
        2
    } else if (c as int) < 0x10000 {
        3
    } else {
        4
    }
}

/// The UTF-8 length of a text, in bytes.
pub open spec fn byte_len(s: Seq<char>) -> int
    decreases s.len(),
{
    if s.len() == 0 {
        0
    } else {
        byte_len(s.drop_last()) + utf8_width(s.last())
    }
}

pub open spec fn is_sign(c: char) -> bool {
    c == '+' || c == '-'
}

/// Position of the last `+` or `-`.
pub open spec fn last_sign(s: Seq<char>) -> Option<int>
    decreases s.len(),
{
    if s.len() == 0 {
        None
    } else if is_sign(s.last()) {
        Some(s.len() - 1)
    } else {
        last_sign(s.drop_last())
    }
}

/// `UTC` for a millisecond count or a `Z` time, `offset` when a sign comes after
/// the tenth byte, else `local`.
pub open spec fn time_zone_of(v: Seq<char>) -> Seq<char> {
    if (forall|i: int| 0 <= i < v.len() ==> is_digit(#[trigger] v[i])) || (v.len() > 0 && v.last()
        == 'Z') {
        "UTC"@
    } else if last_sign(v) matches Some(j) && byte_len(v.take(j)) > 9 {
        "offset"@
    } else {
        "local"@
    }
}

/// `date` for a ten-byte `YYYY-MM-DD` shape, else `datetime`.
pub open spec fn precision_of(v: Seq<char>) -> Seq<char> {
    if byte_len(v) == 10 && v.len() > 7 && v[4] == '-' && v[7] == '-' {
        "date"@
    } else {
        "datetime"@
    }
}

pub open spec fn status_is(d: Json, k: Seq<char>, a: Seq<char>, b: Seq<char>) -> bool {
    let s = or_else(field_str(d, k), Seq::empty());
    s == a || s == b
}

/// `key` for records that mark turning points, else `normal`.
pub open spec fn importance_of(entity: Seq<char>, d: Json) -> Seq<char> {
    if field_str(d, "timelineImportance"@) == Some("key"@) {
        "key"@
    } else if entity == "decisions"@ || entity == "results"@ || entity == "reviews"@ || entity
        == "insights"@ || entity == "signals"@ || entity == "opportunities"@ || entity
        == "intelligenceBriefs"@ {
        "key"@
    } else if entity == "projects"@ && (status_is(d, "status"@, "blocked"@, "completed"@)
        || status_is(d, "health"@, "at_risk"@, "blocked"@)) {
        "key"@
    } else if entity == "goals"@ && status_is(d, "status"@, "completed"@, "paused"@) {
        "key"@
    } else if entity == "tasks"@ && field_str(d, "status"@) == Some("completed"@) && (field_str(
        d,
        "priority"@,
    ) == Some("high"@) || field_str(d, "importance"@) == Some("important"@)) {
        "key"@
    } else {
        "normal"@
    }
}

pub open spec fn is_evidence_level(v: Seq<char>) -> bool {
    v == "REALITY"@ || v == "USER_CONFIRMED"@ || v == "AI_CONFIRMED"@ || v == "AI_SUGGESTION"@
}

/// The declared evidence level when it is one of the four known levels; else
/// `REALITY` for time logs, results and timeline events, `AI_CONFIRMED` for
/// records written by an agent action, `USER_CONFIRMED` for the rest.
pub open spec fn evidence_of(entity: Seq<char>, d: Json) -> Seq<char> {
    match field_str(d, "evidenceLevel"@) {
        Some(v) if is_evidence_level(v) => v,
        _ => if entity == "timeLogs"@ || entity == "results"@ || entity == "timelineEvents"@ {
            "REALITY"@
        } else if field_str(d, "agentActionId"@) is Some {
            "AI_CONFIRMED"@
        } else {
            "USER_CONFIRMED"@
        },
    }
}

/// A record with its timeline metadata filled in; records of other kinds are unchanged,
/// and a value that is not an object is first replaced by an empty object.
pub open spec fn with_timeline(entity: Seq<char>, d: Json, created: Seq<char>, updated: Seq<char>) -> Json {
    if !is_timeline_source(entity) {
        d
    } else {
        let base = if is_obj(d) { d } else { empty_obj() };
        let (occurred, meaning) = semantics_of(entity, base, created, updated);
        with(with(with(with(with(with(base, "occurredAt"@, jstr(occurred)), "timeMeaning"@, jstr(meaning)),
            "timeZone"@, jstr(time_zone_of(occurred))), "timePrecision"@, jstr(precision_of(occurred))),
            "timelineImportance"@, jstr(importance_of(entity, base))), "evidenceLevel"@, jstr(evidence_of(entity, base)))
    }
}

proof fn lemma_timeline_time_fields(entity: Seq<char>, d: Json, created: Seq<char>, updated: Seq<char>)
    requires
        is_timeline_source(entity),
        is_obj(d),
    ensures
        field(with_timeline(entity, d, created, updated), "occurredAt"@) == Some(
            jstr(semantics_of(entity, d, created, updated).0),
        ),
        field(with_timeline(entity, d, created, updated), "timeMeaning"@) == Some(
            jstr(semantics_of(entity, d, created, updated).1),
        ),
{
    reveal_strlit("occurredAt");
    reveal_strlit("timeMeaning");
    reveal_strlit("timeZone");
    reveal_strlit("timePrecision");
    reveal_strlit("timelineImportance");
    reveal_strlit("evidenceLevel");
    assert("occurredAt"@.len() == 10 && "timeMeaning"@.len() == 11 && "timeZone"@.len() == 8);
    assert("timePrecision"@.len() == 13 && "timelineImportance"@.len() == 18 && "evidenceLevel"@.len() == 13);
}

/// When each kind of record happened on the timeline, and what that time
/// means: an event when it starts (planned); a decision on its date or
/// decision date (recorded); a result on its date or completion (actual); a
/// signal when detected and a brief when generated (recorded); a completed
/// task when completed, else when last updated (actual); another task at its
/// due time or due date (planned), else when created (recorded); a timeline
/// event at its own time (actual); goals, projects, reviews, insights and
/// opportunities when created (recorded). Each time, where the field is blank
/// or missing, falls back as said; texts are trimmed.
pub proof fn lemma_timeline_times(entity: Seq<char>, d: Json, created: Seq<char>, updated: Seq<char>)
    requires
        is_obj(d),
    ensures
        ({
            let r = with_timeline(entity, d, created, updated);
            let at = |v: Option<Seq<char>>, dflt: Seq<char>| Some(jstr(match v {
                Some(x) => x,
                None => dflt,
            }));
            &&& entity == "events"@ ==> field(r, "occurredAt"@) == at(field_id(d, "startAt"@), created)
                && field(r, "timeMeaning"@) == Some(jstr("planned"@))
            &&& entity == "decisions"@ ==> field(r, "occurredAt"@) == at(
                if field_id(d, "date"@) is Some { field_id(d, "date"@) } else { field_id(d, "decisionDate"@) },
                created,
            ) && field(r, "timeMeaning"@) == Some(jstr("recorded"@))
            &&& entity == "results"@ ==> field(r, "occurredAt"@) == at(
                if field_id(d, "date"@) is Some { field_id(d, "date"@) } else { field_id(d, "completedAt"@) },
                created,
            ) && field(r, "timeMeaning"@) == Some(jstr("actual"@))
            &&& entity == "signals"@ ==> field(r, "occurredAt"@) == at(field_id(d, "detectedAt"@), created)
                && field(r, "timeMeaning"@) == Some(jstr("recorded"@))
            &&& entity == "intelligenceBriefs"@ ==> field(r, "occurredAt"@) == at(field_id(d, "generatedAt"@), created)
                && field(r, "timeMeaning"@) == Some(jstr("recorded"@))
            &&& entity == "tasks"@ && field_str(d, "status"@) == Some("completed"@) ==> field(r, "occurredAt"@) == at(
                field_id(d, "completedAt"@),
                updated,
            ) && field(r, "timeMeaning"@) == Some(jstr("actual"@))
            &&& entity == "tasks"@ && field_str(d, "status"@) != Some("completed"@) && (field_id(d, "dueAt"@) is Some
                || field_id(d, "dueDate"@) is Some) ==> field(r, "occurredAt"@) == at(
                if field_id(d, "dueAt"@) is Some { field_id(d, "dueAt"@) } else { field_id(d, "dueDate"@) },
                created,
            ) && field(r, "timeMeaning"@) == Some(jstr("planned"@))
            &&& entity == "tasks"@ && field_str(d, "status"@) != Some("completed"@) && field_id(d, "dueAt"@) is None
                && field_id(d, "dueDate"@) is None ==> field(r, "occurredAt"@) == Some(jstr(created)) && field(
                r,
                "timeMeaning"@,
            ) == Some(jstr("recorded"@))
            &&& entity == "timelineEvents"@ ==> field(r, "occurredAt"@) == at(field_id(d, "occurredAt"@), created)
                && field(r, "timeMeaning"@) == Some(jstr("actual"@))
            &&& (entity == "goals"@ || entity == "projects"@ || entity == "reviews"@ || entity == "insights"@ || entity
                == "opportunities"@) ==> field(r, "occurredAt"@) == Some(jstr(created)) && field(r, "timeMeaning"@)
                == Some(jstr("recorded"@))
        }),
{
    reveal_strlit("goals");
    reveal_strlit("projects");
    reveal_strlit("tasks");
    reveal_strlit("timeLogs");
    reveal_strlit("events");
    reveal_strlit("results");
    reveal_strlit("reviews");
    reveal_strlit("insights");
    reveal_strlit("decisions");
    reveal_strlit("signals");
    reveal_strlit("opportunities");
    reveal_strlit("intelligenceBriefs");
    reveal_strlit("timelineEvents");
    assert("goals"@.len() == 5 && "projects"@.len() == 8 && "tasks"@.len() == 5 && "timeLogs"@.len() == 8);
    assert("events"@.len() == 6 && "results"@.len() == 7 && "reviews"@.len() == 7 && "insights"@.len() == 8);
    assert("decisions"@.len() == 9 && "signals"@.len() == 7 && "opportunities"@.len() == 13);
    assert("intelligenceBriefs"@.len() == 18 && "timelineEvents"@.len() == 14);
    assert("goals"@[0] != "tasks"@[0] && "projects"@[0] != "timeLogs"@[0] && "insights"@[0] != "timeLogs"@[0]);
    assert("projects"@[0] != "insights"@[0] && "results"@[2] != "reviews"@[2] && "results"@[0] != "signals"@[0]);
    assert("reviews"@[0] != "signals"@[0]);
    if is_timeline_source(entity) {
        lemma_timeline_time_fields(entity, d, created, updated);
    }
}

/// A time log happened when it started: with a non-blank `startAt`, its
/// timeline time is that start (trimmed), otherwise its creation time; either
/// way the time is an actual one. Nothing else of the log is lost.
pub proof fn lemma_time_log_occurs_at_start(d: Json, created: Seq<char>, updated: Seq<char>)
    ensures
        field_str(d, "startAt"@) is Some && trimmed(field_str(d, "startAt"@)->Some_0).len() > 0 ==> field(
            with_timeline("timeLogs"@, d, created, updated),
            "occurredAt"@,
        ) == Some(jstr(trimmed(field_str(d, "startAt"@)->Some_0))),
        is_obj(d) && !(field_str(d, "startAt"@) is Some && trimmed(field_str(d, "startAt"@)->Some_0).len() > 0) ==> field(
            with_timeline("timeLogs"@, d, created, updated),
            "occurredAt"@,
        ) == Some(jstr(created)),
        field(with_timeline("timeLogs"@, d, created, updated), "timeMeaning"@) == Some(jstr("actual"@)),
        forall|k: Seq<char>|
            is_obj(d) && field(d, k) is Some && k != "occurredAt"@ && k != "timeMeaning"@ && k != "timeZone"@
                && k != "timePrecision"@ && k != "timelineImportance"@ && k != "evidenceLevel"@ ==> #[trigger] field(
                with_timeline("timeLogs"@, d, created, updated),
                k,
            ) == field(d, k),
{
    reveal_strlit("timeLogs");
    reveal_strlit("goals");
    reveal_strlit("occurredAt");
    reveal_strlit("timeMeaning");
    reveal_strlit("timeZone");
    reveal_strlit("timePrecision");
    reveal_strlit("timelineImportance");
    reveal_strlit("evidenceLevel");
    assert(is_timeline_source("timeLogs"@));
    assert("occurredAt"@.len() == 10 && "timeMeaning"@.len() == 11 && "timeZone"@.len() == 8);
    assert("timePrecision"@.len() == 13 && "timelineImportance"@.len() == 18 && "evidenceLevel"@.len() == 13);
    assert("occurredAt"@ != "timeMeaning"@ && "occurredAt"@ != "timeZone"@ && "occurredAt"@ != "timePrecision"@);
    assert("occurredAt"@ != "timelineImportance"@ && "occurredAt"@ != "evidenceLevel"@);
    assert("timeMeaning"@ != "timeZone"@ && "timeMeaning"@ != "timePrecision"@);
    assert("timeMeaning"@ != "timelineImportance"@ && "timeMeaning"@ != "evidenceLevel"@);
}

// ---------------------------------------------------------------------------
fn first_value(data: &JsonValue, a: &str, b: &str) -> (r: Option<String>)
    ensures
        r matches Some(s) ==> first_id(data@, a@, b@) == Some(s@),
        r is None ==> first_id(data@, a@, b@) is None,
{
    match data.id_of(a) {
        Some(v) => Some(v),
        None => data.id_of(b),
    }
}

fn id_or(v: Option<String>, dflt: &str) -> (r: String)
    ensures
        r@ == or_else(
            match v {
                Some(s) => Some(s@),
                None => None,
            },
            dflt@,
        ),
{
    match v {
        Some(s) => s,
        None => dflt.to_owned(),
    }
}

fn str_is(data: &JsonValue, k: &str, v: &str) -> (r: bool)
    ensures
        r == (field_str(data@, k@) == Some(v@)),
{
    match data.get_str(k) {
        Some(s) => eq_str(s, v),
        None => false,
    }
}

/// When a record happened and what kind of time that is.
pub fn timeline_semantics(entity: &str, data: &JsonValue, created_at: &str, updated_at: &str) -> (r: (
    String,
    &'static str,
))
    ensures
        (r.0@, r.1@) == semantics_of(entity@, data@, created_at@, updated_at@),
{
    if eq_str(entity, "timeLogs") {
        (id_or(data.id_of("startAt"), created_at), "actual")
    } else if eq_str(entity, "events") {
        (id_or(data.id_of("startAt"), created_at), "planned")
    } else if eq_str(entity, "decisions") {
        (id_or(first_value(data, "date", "decisionDate"), created_at), "recorded")
    } else if eq_str(entity, "results") {
        (id_or(first_value(data, "date", "completedAt"), created_at), "actual")
    } else if eq_str(entity, "signals") {
        (id_or(data.id_of("detectedAt"), created_at), "recorded")
    } else if eq_str(entity, "intelligenceBriefs") {
        (id_or(data.id_of("generatedAt"), created_at), "recorded")
    } else if eq_str(entity, "tasks") && str_is(data, "status", "completed") {
        (id_or(data.id_of("completedAt"), updated_at), "actual")
    } else if eq_str(entity, "tasks") {
        match first_value(data, "dueAt", "dueDate") {
            Some(v) => (v, "planned"),
            None => (created_at.to_owned(), "recorded"),
        }
    } else if eq_str(entity, "timelineEvents") {
        (id_or(data.id_of("occurredAt"), created_at), "actual")
    } else {
        (created_at.to_owned(), "recorded")
    }
}

fn utf8_width_exec(c: char) -> (r: usize)
    ensures
        r as int == utf8_width(c),
{
    if (c as u32) < 0x80 {
        1
    } else if (c as u32) < 0x800 {
        2
    } else if (c as u32) < 0x10000 {
        3
    } else {
        4
    }
}

proof fn lemma_byte_len_grows(s: Seq<char>, i: int)
    requires
        0 <= i < s.len(),
    ensures
        byte_len(s.take(i + 1)) == byte_len(s.take(i)) + utf8_width(s[i]),
        byte_len(s.take(i)) >= i,
    decreases i,
{
    assert(s.take(i + 1).drop_last() =~= s.take(i));
    if i > 0 {
        lemma_byte_len_grows(s, i - 1);
    } else {
        assert(s.take(0).len() == 0);
    }
}

/// The UTF-8 byte count of `cs[..n]`, capped at `cap + 1`.
fn byte_len_capped(cs: &[char], n: usize, cap: usize) -> (r: usize)
    requires
        n <= cs@.len(),
        cap < usize::MAX - 4,
    ensures
        r <= cap ==> r as int == byte_len(cs@.take(n as int)),
        r > cap ==> byte_len(cs@.take(n as int)) > cap,
{
    let mut total: usize = 0;
    let mut i: usize = 0;
    while i < n
        invariant
            i <= n <= cs@.len(),
            cap < usize::MAX - 4,
            total <= cap ==> total as int == byte_len(cs@.take(i as int)),
            total > cap ==> byte_len(cs@.take(i as int)) > cap,
            total <= cap + 1,
        decreases n - i,
    {
        proof {
            lemma_byte_len_grows(cs@, i as int);
        }
        let w = utf8_width_exec(cs[i]);
        if total + w > cap {
            total = cap + 1;
        } else {
            total = total + w;
        }
        i = i + 1;
    }
    total
}

proof fn lemma_last_sign(s: Seq<char>, j: int)
    requires
        -1 <= j < s.len(),
        forall|k: int| j < k < s.len() ==> !is_sign(#[trigger] s[k]),
        j >= 0 ==> is_sign(s[j]),
    ensures
        last_sign(s) == (if j >= 0 {
            Some(j)
        } else {
            None::<int>
        }),
    decreases s.len(),
{
    if s.len() > 0 && j < s.len() - 1 {
        assert(!is_sign(s[s.len() - 1]));
        assert forall|k: int| j < k < s.drop_last().len() implies !is_sign(#[trigger] s.drop_last()[k]) by {
            assert(s.drop_last()[k] == s[k]);
        }
        if j >= 0 {
            assert(s.drop_last()[j] == s[j]);
        }
        lemma_last_sign(s.drop_last(), j);
    }
}

/// The time-zone kind of a timestamp text.
pub fn timeline_time_zone(value: &str) -> (r: &'static str)
    ensures
        r@ == time_zone_of(value@),
{
    let cs = chars_of(value);
    let n = cs.len();
    let mut all = true;
    let mut i: usize = 0;
    while i < n
        invariant
            i <= n == cs@.len(),
            all == (forall|k: int| 0 <= k < i ==> is_digit(#[trigger] cs@[k])),
        decreases n - i,
    {
        if !('0' <= cs[i] && cs[i] <= '9') {
            all = false;
        }
        i = i + 1;
    }
    if all || (n > 0 && cs[n - 1] == 'Z') {
        return "UTC";
    }
    let mut j: usize = n;
    while j > 0 && !(cs[j - 1] == '+' || cs[j - 1] == '-')
        invariant
            j <= n == cs@.len(),
            forall|k: int| j <= k < n ==> !is_sign(#[trigger] cs@[k]),
        decreases j,
    {
        j = j - 1;
    }
    proof {
        lemma_last_sign(cs@, j - 1);
    }
    if j > 0 {
        let b = byte_len_capped(cs.as_slice(), j - 1, 9);
        if b > 9 {
            return "offset";
        }
    }
    "local"
}

/// Whether a timestamp text is a date alone.
pub fn timeline_precision(value: &str) -> (r: &'static str)
    ensures
        r@ == precision_of(value@),
{
    let cs = chars_of(value);
    let n = cs.len();
    let b = byte_len_capped(cs.as_slice(), n, 10);
    assert(cs@.take(n as int) =~= cs@);
    if b == 10 && n > 7 && cs[4] == '-' && cs[7] == '-' {
        "date"
    } else {
        "datetime"
    }
}

fn status_is_exec(data: &JsonValue, k: &str, a: &str, b: &str) -> (r: bool)
    ensures
        r == status_is(data@, k@, a@, b@),
{
    let s = match data.get_str(k) {
        Some(s) => s,
        None => "",
    };
    proof {
        reveal_strlit("");
        assert(""@ =~= Seq::<char>::empty());
    }
    eq_str(s, a) || eq_str(s, b)
}

/// How important a record is on the timeline.
pub fn timeline_importance(entity: &str, data: &JsonValue) -> (r: &'static str)
    ensures
        r@ == importance_of(entity@, data@),
{
    if str_is(data, "timelineImportance", "key") {
        return "key";
    }
    if eq_str(entity, "decisions") || eq_str(entity, "results") || eq_str(entity, "reviews")
        || eq_str(entity, "insights") || eq_str(entity, "signals") || eq_str(
        entity,
        "opportunities",
    ) || eq_str(entity, "intelligenceBriefs") {
        return "key";
    }
    if eq_str(entity, "projects") && (status_is_exec(data, "status", "blocked", "completed")
        || status_is_exec(data, "health", "at_risk", "blocked")) {
        return "key";
    }
    if eq_str(entity, "goals") && status_is_exec(data, "status", "completed", "paused") {
        return "key";
    }
    if eq_str(entity, "tasks") && str_is(data, "status", "completed") && (str_is(
        data,
        "priority",
        "high",
    ) || str_is(data, "importance", "important")) {
        return "key";
    }
    "normal"
}

/// How well a record is evidenced.
pub fn timeline_evidence_level(entity: &str, data: &JsonValue) -> (r: &'static str)
    ensures
        r@ == evidence_of(entity@, data@),
{
    match data.get_str("evidenceLevel") {
        Some(v) => {
            if eq_str(v, "REALITY") {
                return "REALITY";
            } else if eq_str(v, "USER_CONFIRMED") {
                return "USER_CONFIRMED";
            } else if eq_str(v, "AI_CONFIRMED") {
                return "AI_CONFIRMED";
            } else if eq_str(v, "AI_SUGGESTION") {
                return "AI_SUGGESTION";
            }
        },
        None => {},
    }
    if eq_str(entity, "timeLogs") || eq_str(entity, "results") || eq_str(entity, "timelineEvents") {
        "REALITY"
    } else if data.get_str("agentActionId").is_some() {
        "AI_CONFIRMED"
    } else {
        "USER_CONFIRMED"
    }
}

/// A record with its timeline metadata filled in.
pub fn apply_timeline_metadata(entity: &str, data: &JsonValue, created_at: &str, updated_at: &str) -> (r:
    JsonValue)
    ensures
        r@ == with_timeline(entity@, data@, created_at@, updated_at@),
        crate::json::json_wf(*data) ==> crate::json::json_wf(r),
{
    if !timeline_source(entity) {
        return data.duplicate();
    }
    let mut enriched = if data.is_object() {
        data.duplicate()
    } else {
        JsonValue::empty_object()
    };
    let ghost base = enriched@;
    let (occurred_at, meaning) = timeline_semantics(entity, &enriched, created_at, updated_at);
    let importance = timeline_importance(entity, &enriched);
    let evidence = timeline_evidence_level(entity, &enriched);
    let zone = timeline_time_zone(occurred_at.as_str());
    let precision = timeline_precision(occurred_at.as_str());
    enriched.insert("occurredAt", JsonValue::from_string(occurred_at));
    enriched.insert("timeMeaning", JsonValue::text(meaning));
    enriched.insert("timeZone", JsonValue::text(zone));
    enriched.insert("timePrecision", JsonValue::text(precision));
    enriched.insert("timelineImportance", JsonValue::text(importance));
    enriched.insert("evidenceLevel", JsonValue::text(evidence));
    enriched
}


// ---------------------------------------------------------------------------
// Change events.
/// A watched field: its name, the event type, the event title and its importance.
pub type Watch = (Seq<char>, Seq<char>, Seq<char>, Seq<char>);

/// The fields whose changes a record kind reports on the timeline.
pub open spec fn watched_fields(entity: Seq<char>, after: Json) -> Seq<Watch> {
    if entity == "goals"@ {
        seq![("status"@, "goal_status_changed"@, "目标状态发生变化"@, "key"@)]
    } else if entity == "projects"@ {
        seq![
            ("status"@, "project_status_changed"@, "项目状态发生变化"@, "key"@),
            ("health"@, "project_health_changed"@, "项目健康度发生变化"@, "key"@),
            ("blockers"@, "project_blockers_changed"@, "项目阻塞发生变化"@, "key"@),
        ]
    } else if entity == "tasks"@ {
        seq![
            ("status"@, "task_status_changed"@, "任务状态发生变化"@, if field_str(after, "status"@)
                == Some("completed"@) {
                "key"@
            } else {
                "normal"@
            }),
            ("dueDate"@, "task_due_date_changed"@, "任务截止日期发生变化"@, "normal"@),
            ("dueAt"@, "task_due_time_changed"@, "任务具体时间发生变化"@, "normal"@),
        ]
    } else if entity == "decisions"@ {
        seq![("status"@, "decision_status_changed"@, "决策状态发生变化"@, "key"@)]
    } else if entity == "signals"@ {
        seq![("status"@, "signal_status_changed"@, "外部信号状态发生变化"@, "key"@)]
    } else if entity == "opportunities"@ {
        seq![("status"@, "opportunity_status_changed"@, "机会状态发生变化"@, "key"@)]
    } else {
        Seq::empty()
    }
}

/// A field's value, `null` when absent.
pub open spec fn value_or_null(j: Option<Json>) -> Json {
    match j {
        Some(v) => v,
        None => Json::Null,
    }
}

/// The description of one field change.
pub open spec fn change_of(w: Watch, before: Json, after: Json) -> Json {
    with(with(with(with(with(with(empty_obj(), "field"@, jstr(w.0)), "eventType"@, jstr(w.1)),
        "title"@, jstr(w.2)), "beforeValue"@, value_or_null(field(before, w.0))), "afterValue"@,
        value_or_null(field(after, w.0))), "timelineImportance"@, jstr(w.3))
}

pub open spec fn changed(w: Watch, before: Json, after: Json) -> bool {
    value_or_null(field(before, w.0)) != value_or_null(field(after, w.0))
}

/// The changes among the watched fields, in watch order.
pub open spec fn changes_of(ws: Seq<Watch>, before: Json, after: Json) -> Seq<Json>
    decreases ws.len(),
{
    if ws.len() == 0 {
        Seq::empty()
    } else {
        let rest = changes_of(ws.drop_last(), before, after);
        if changed(ws.last(), before, after) {
            rest.push(change_of(ws.last(), before, after))
        } else {
            rest
        }
    }
}

pub open spec fn change_specs_of(entity: Seq<char>, before: Json, after: Json) -> Seq<Json> {
    changes_of(watched_fields(entity, after), before, after)
}

fn value_or_null_exec(v: Option<&JsonValue>) -> (r: JsonValue)
    ensures
        r@ == value_or_null(opt_view(v)),
        (v matches Some(x) ==> crate::json::json_wf(*x)) ==> crate::json::json_wf(r),
{
    match v {
        Some(x) => x.duplicate(),
        None => JsonValue::Null,
    }
}

/// The field changes between two versions of a record that the timeline reports.
pub fn timeline_change_specs(entity: &str, before: &JsonValue, after: &JsonValue) -> (r: Vec<JsonValue>)
    ensures
        crate::json::json_wf(*before) && crate::json::json_wf(*after) ==> crate::json::all_wf(r@),
        r@.map_values(|v: JsonValue| v@) == change_specs_of(entity@, before@, after@),
{
    let mut ws: Vec<(&'static str, &'static str, &'static str, &'static str)> = Vec::new();
    if eq_str(entity, "goals") {
        ws.push(("status", "goal_status_changed", "目标状态发生变化", "key"));
    } else if eq_str(entity, "projects") {
        ws.push(("status", "project_status_changed", "项目状态发生变化", "key"));
        ws.push(("health", "project_health_changed", "项目健康度发生变化", "key"));
        ws.push(("blockers", "project_blockers_changed", "项目阻塞发生变化", "key"));
    } else if eq_str(entity, "tasks") {
        let importance = if str_is(after, "status", "completed") {
            "key"
        } else {
            "normal"
        };
        ws.push(("status", "task_status_changed", "任务状态发生变化", importance));
        ws.push(("dueDate", "task_due_date_changed", "任务截止日期发生变化", "normal"));
        ws.push(("dueAt", "task_due_time_changed", "任务具体时间发生变化", "normal"));
    } else if eq_str(entity, "decisions") {
        ws.push(("status", "decision_status_changed", "决策状态发生变化", "key"));
    } else if eq_str(entity, "signals") {
        ws.push(("status", "signal_status_changed", "外部信号状态发生变化", "key"));
    } else if eq_str(entity, "opportunities") {
        ws.push(("status", "opportunity_status_changed", "机会状态发生变化", "key"));
    }
    let ghost wv = watched_fields(entity@, after@);
    assert(ws@.map_values(|w: (&str, &str, &str, &str)| (w.0@, w.1@, w.2@, w.3@)) =~= wv);
    let mut changes: Vec<JsonValue> = Vec::new();
    let mut i: usize = 0;
    while i < ws.len()
        invariant
            i <= ws@.len(),
            wv.len() == ws@.len(),
            forall|j: int| 0 <= j < ws@.len() ==> wv[j] == (#[trigger] ws@[j].0@, ws@[j].1@, ws@[j].2@, ws@[j].3@),
            wv == watched_fields(entity@, after@),
            changes@.map_values(|v: JsonValue| v@) == changes_of(wv.take(i as int), before@, after@),
            crate::json::json_wf(*before) && crate::json::json_wf(*after) ==> crate::json::all_wf(changes@),
        decreases ws.len() - i,
    {
        let w = ws[i];
        let old_value = value_or_null_exec(before.get(w.0));
        let new_value = value_or_null_exec(after.get(w.0));
        proof {
            assert(wv[i as int] == (w.0@, w.1@, w.2@, w.3@));
            assert(wv.take(i + 1).drop_last() =~= wv.take(i as int));
            assert(wv.take(i + 1).last() == wv[i as int]);
        }
        if !json_eq(&old_value, &new_value) {
            let mut change = JsonValue::empty_object();
            change.insert("field", JsonValue::text(w.0));
            change.insert("eventType", JsonValue::text(w.1));
            change.insert("title", JsonValue::text(w.2));
            change.insert("beforeValue", old_value);
            change.insert("afterValue", new_value);
            change.insert("timelineImportance", JsonValue::text(w.3));
            let ghost before_push = changes@;
            changes.push(change);
            proof {
                if crate::json::json_wf(*before) && crate::json::json_wf(*after) {
                    assert forall|z: int| 0 <= z < changes@.len() implies crate::json::json_wf(#[trigger] changes@[z]) by {
                        if z < before_push.len() {
                            assert(changes@[z] == before_push[z]);
                        }
                    }
                }
            }
            assert(changes@.map_values(|v: JsonValue| v@) =~= changes_of(wv.take(i + 1), before@, after@));
        } else {
            assert(changes@.map_values(|v: JsonValue| v@) =~= changes_of(wv.take(i + 1), before@, after@));
        }
        i = i + 1;
    }
    assert(wv.take(wv.len() as int) =~= wv);
    changes
}

/// Filling in timeline metadata twice, with the same times, gives what filling
/// it in once gave: a backfill or a second save leaves it as it is. (A timeline
/// event with no time of its own takes its creation time, trimmed on the second
/// pass: a creation time with surrounding blanks is left out.)
pub proof fn lemma_timeline_metadata_idempotent(entity: Seq<char>, d: Json, created: Seq<char>, updated: Seq<char>)
    requires
        !(entity == "timelineEvents"@ && field_id(if is_obj(d) { d } else { empty_obj() }, "occurredAt"@) is None
            && trimmed(created).len() > 0 && trimmed(created) != created),
    ensures
        with_timeline(entity, with_timeline(entity, d, created, updated), created, updated) == with_timeline(
            entity,
            d,
            created,
            updated,
        ),
{
    if is_timeline_source(entity) {
        reveal_strlit("occurredAt");
        reveal_strlit("timeMeaning");
        reveal_strlit("timeZone");
        reveal_strlit("timePrecision");
        reveal_strlit("timelineImportance");
        reveal_strlit("evidenceLevel");
        reveal_strlit("startAt");
        reveal_strlit("date");
        reveal_strlit("decisionDate");
        reveal_strlit("completedAt");
        reveal_strlit("detectedAt");
        reveal_strlit("generatedAt");
        reveal_strlit("status");
        reveal_strlit("dueAt");
        reveal_strlit("dueDate");
        reveal_strlit("health");
        reveal_strlit("priority");
        reveal_strlit("importance");
        reveal_strlit("agentActionId");
        reveal_strlit("key");
        assert("occurredAt"@.len() == 10 && "occurredAt"@[0] == 'o');
        assert("timeMeaning"@.len() == 11 && "timeMeaning"@[0] == 't');
        assert("timeZone"@.len() == 8 && "timeZone"@[0] == 't');
        assert("timePrecision"@.len() == 13 && "timePrecision"@[0] == 't');
        assert("timelineImportance"@.len() == 18 && "timelineImportance"@[0] == 't');
        assert("evidenceLevel"@.len() == 13 && "evidenceLevel"@[0] == 'e');
        assert("startAt"@.len() == 7 && "startAt"@[0] == 's');
        assert("date"@.len() == 4 && "date"@[0] == 'd');
        assert("decisionDate"@.len() == 12 && "decisionDate"@[0] == 'd');
        assert("completedAt"@.len() == 11 && "completedAt"@[0] == 'c');
        assert("detectedAt"@.len() == 10 && "detectedAt"@[0] == 'd');
        assert("generatedAt"@.len() == 11 && "generatedAt"@[0] == 'g');
        assert("status"@.len() == 6 && "status"@[0] == 's');
        assert("dueAt"@.len() == 5 && "dueAt"@[0] == 'd');
        assert("dueDate"@.len() == 7 && "dueDate"@[0] == 'd');
        assert("health"@.len() == 6 && "health"@[0] == 'h');
        assert("priority"@.len() == 8 && "priority"@[0] == 'p');
        assert("importance"@.len() == 10 && "importance"@[0] == 'i');
        assert("agentActionId"@.len() == 13 && "agentActionId"@[0] == 'a');
        assert("key"@.len() == 3 && "key"@[0] == 'k');
        let base = if is_obj(d) { d } else { empty_obj() };
        let m = base->Obj_0;
        let (occurred, meaning) = semantics_of(entity, base, created, updated);
        let imp = importance_of(entity, base);
        let ev = evidence_of(entity, base);
        let once = with_timeline(entity, d, created, updated);
        let m1 = m.insert("occurredAt"@, jstr(occurred)).insert("timeMeaning"@, jstr(meaning)).insert(
            "timeZone"@,
            jstr(time_zone_of(occurred)),
        ).insert("timePrecision"@, jstr(precision_of(occurred))).insert("timelineImportance"@, jstr(imp)).insert(
            "evidenceLevel"@,
            jstr(ev),
        );
        assert(once == Json::Obj(m1));
        // The fields the metadata is computed from are the same after the first pass.
        assert forall|k: Seq<char>|
            k != "occurredAt"@ && k != "timeMeaning"@ && k != "timeZone"@ && k != "timePrecision"@ && k
                != "timelineImportance"@ && k != "evidenceLevel"@ implies #[trigger] field(once, k) == field(
            base,
            k,
        ) by {}
        if entity == "timelineEvents"@ {
            assert(m1.dom().contains("occurredAt"@) && m1["occurredAt"@] == jstr(occurred));
            assert(field(once, "occurredAt"@) == Some(jstr(occurred)));
            lemma_trimmed_idempotent_of_field(base, "occurredAt"@);
            assert(semantics_of(entity, once, created, updated) == (occurred, meaning));
        } else {
            assert(semantics_of(entity, once, created, updated) == (occurred, meaning));
        }
        assert(importance_of(entity, once) == imp);
        assert(evidence_of(entity, once) == ev);
        let m2 = m1.insert("occurredAt"@, jstr(occurred)).insert("timeMeaning"@, jstr(meaning)).insert(
            "timeZone"@,
            jstr(time_zone_of(occurred)),
        ).insert("timePrecision"@, jstr(precision_of(occurred))).insert("timelineImportance"@, jstr(imp)).insert(
            "evidenceLevel"@,
            jstr(ev),
        );
        assert(m2 =~= m1);
        assert(with_timeline(entity, once, created, updated) == Json::Obj(m2));
    }
}

/// A field's trimmed text, trimmed again, is the same.
proof fn lemma_trimmed_idempotent_of_field(d: Json, k: Seq<char>)
    ensures
        field_id(d, k) matches Some(v) ==> trimmed(v) == v && trimmed(v).len() > 0,
{
    if let Some(s) = field_str(d, k) {
        lemma_trimmed_idempotent(s);
    }
}

/// The changes a save reports are exactly the watched fields whose value
/// changed (a missing value counting as null), each once.
pub proof fn lemma_change_specs_list(entity: Seq<char>, before: Json, after: Json)
    ensures
        forall|j: int|
            0 <= j < watched_fields(entity, after).len() && changed(
                #[trigger] watched_fields(entity, after)[j],
                before,
                after,
            ) ==> change_specs_of(entity, before, after).contains(
                change_of(watched_fields(entity, after)[j], before, after),
            ),
        forall|i: int|
            0 <= i < change_specs_of(entity, before, after).len() ==> exists|j: int|
                0 <= j < watched_fields(entity, after).len() && changed(watched_fields(entity, after)[j], before, after)
                    && #[trigger] change_specs_of(entity, before, after)[i] == change_of(
                    watched_fields(entity, after)[j],
                    before,
                    after,
                ),
{
    lemma_changes_list(watched_fields(entity, after), before, after);
}

proof fn lemma_changes_list(ws: Seq<Watch>, before: Json, after: Json)
    ensures
        forall|j: int|
            0 <= j < ws.len() && changed(#[trigger] ws[j], before, after) ==> changes_of(ws, before, after).contains(
                change_of(ws[j], before, after),
            ),
        forall|i: int|
            0 <= i < changes_of(ws, before, after).len() ==> exists|j: int|
                0 <= j < ws.len() && changed(ws[j], before, after) && #[trigger] changes_of(ws, before, after)[i]
                    == change_of(ws[j], before, after),
    decreases ws.len(),
{
    if ws.len() > 0 {
        let d = ws.drop_last();
        lemma_changes_list(d, before, after);
        let rest = changes_of(d, before, after);
        let all = changes_of(ws, before, after);
        assert forall|j: int| 0 <= j < ws.len() && changed(#[trigger] ws[j], before, after) implies all.contains(
            change_of(ws[j], before, after),
        ) by {
            if j < d.len() {
                assert(ws[j] == d[j]);
                assert(rest.contains(change_of(d[j], before, after)));
                let k = choose|k: int| 0 <= k < rest.len() && rest[k] == change_of(d[j], before, after);
                assert(all[k] == rest[k]);
            } else {
                assert(ws[j] == ws.last());
                assert(all[rest.len() as int] == change_of(ws.last(), before, after));
            }
        }
        assert forall|i: int| 0 <= i < all.len() implies exists|j: int|
            0 <= j < ws.len() && changed(ws[j], before, after) && #[trigger] all[i] == change_of(
                ws[j],
                before,
                after,
            ) by {
            if i < rest.len() {
                assert(all[i] == rest[i]);
                let j = choose|j: int|
                    0 <= j < d.len() && changed(d[j], before, after) && rest[i] == change_of(d[j], before, after);
                assert(ws[j] == d[j]);
            } else {
                let j = ws.len() - 1;
                assert(ws[j] == ws.last());
            }
        }
    }
}

/// The changes a save reports are, in watch order, the descriptions of the
/// watched fields whose value changed (a missing value counting as null).
pub proof fn lemma_change_specs_order(entity: Seq<char>, before: Json, after: Json)
    ensures
        change_specs_of(entity, before, after) == watched_fields(entity, after).filter(
            |w: Watch| changed(w, before, after),
        ).map_values(|w: Watch| change_of(w, before, after)),
{
    lemma_changes_filtered(watched_fields(entity, after), before, after);
}

proof fn lemma_changes_filtered(ws: Seq<Watch>, before: Json, after: Json)
    ensures
        changes_of(ws, before, after) == ws.filter(|w: Watch| changed(w, before, after)).map_values(
            |w: Watch| change_of(w, before, after),
        ),
    decreases ws.len(),
{
    let p = |w: Watch| changed(w, before, after);
    let f = |w: Watch| change_of(w, before, after);
    reveal(Seq::filter);
    if ws.len() == 0 {
        assert(ws.filter(p) =~= Seq::<Watch>::empty());
        assert(ws.filter(p).map_values(f) =~= Seq::<Json>::empty());
    } else {
        lemma_changes_filtered(ws.drop_last(), before, after);
        let sub = ws.drop_last().filter(p);
        if p(ws.last()) {
            assert(ws.filter(p) == sub.push(ws.last()));
            assert(sub.push(ws.last()).map_values(f) =~= sub.map_values(f).push(f(ws.last())));
        } else {
            assert(ws.filter(p) == sub);
        }
    }
}

/// A record compared with itself reports no change.
pub proof fn lemma_no_change_no_event(entity: Seq<char>, d: Json)
    ensures
        change_specs_of(entity, d, d).len() == 0,
{
    lemma_changes_of_same(watched_fields(entity, d), d);
}

proof fn lemma_changes_of_same(ws: Seq<Watch>, d: Json)
    ensures
        changes_of(ws, d, d).len() == 0,
    decreases ws.len(),
{
    if ws.len() > 0 {
        lemma_changes_of_same(ws.drop_last(), d);
    }
}

/// Every reported change has different values before and after.
pub proof fn lemma_events_are_real_changes(entity: Seq<char>, before: Json, after: Json, i: int)
    requires
        0 <= i < change_specs_of(entity, before, after).len(),
    ensures
        field(change_specs_of(entity, before, after)[i], "beforeValue"@) != field(
            change_specs_of(entity, before, after)[i],
            "afterValue"@,
        ),
{
    lemma_changes_real(watched_fields(entity, after), before, after, i);
}

proof fn lemma_changes_real(ws: Seq<Watch>, before: Json, after: Json, i: int)
    requires
        0 <= i < changes_of(ws, before, after).len(),
    ensures
        field(changes_of(ws, before, after)[i], "beforeValue"@) != field(
            changes_of(ws, before, after)[i],
            "afterValue"@,
        ),
    decreases ws.len(),
{
    let rest = changes_of(ws.drop_last(), before, after);
    if i < rest.len() {
        lemma_changes_real(ws.drop_last(), before, after, i);
        if changed(ws.last(), before, after) {
            assert(changes_of(ws, before, after)[i] == rest[i]);
        }
    } else {
        let w = ws.last();
        let c = change_of(w, before, after);
        assert(changes_of(ws, before, after)[i] == c);
        reveal_strlit("beforeValue");
        reveal_strlit("afterValue");
        reveal_strlit("timelineImportance");
        assert("beforeValue"@.len() != "afterValue"@.len());
        assert("beforeValue"@.len() != "timelineImportance"@.len());
        assert("afterValue"@.len() != "timelineImportance"@.len());
        assert(field(c, "beforeValue"@) == Some(value_or_null(field(before, w.0))));
        assert(field(c, "afterValue"@) == Some(value_or_null(field(after, w.0))));
    }
}

/// The timeline event recorded for one field change of a record.
pub open spec fn event_of(
    entity: Seq<char>,
    source_id: Seq<char>,
    change: Json,
    key: Seq<char>,
    occurred_at: Seq<char>,
    after: Json,
) -> Json {
    let base = with(with(with(with(with(with(with(with(with(with(with(with(with(empty_obj(),
        "title"@, value_or_null(field(change, "title"@))), "eventType"@, value_or_null(field(change,
        "eventType"@))), "occurredAt"@, jstr(occurred_at)), "timeMeaning"@, jstr("actual"@)),
        "timeZone"@, jstr("UTC"@)), "timePrecision"@, jstr("datetime"@)), "timelineImportance"@,
        value_or_null(field(change, "timelineImportance"@))), "evidenceLevel"@, jstr("REALITY"@)),
        "sourceEntityType"@, jstr(entity)), "sourceEntityId"@, jstr(source_id)), "timelineEventKey"@,
        jstr(key)), "beforeValue"@, value_or_null(field(change, "beforeValue"@))), "afterValue"@,
        value_or_null(field(change, "afterValue"@)));
    let g = match field_str(after, "goalId"@) { Some(v) => with(base, "goalId"@, jstr(v)), None => base };
    let p = match field_str(after, "projectId"@) { Some(v) => with(g, "projectId"@, jstr(v)), None => g };
    let t = match field_str(after, "taskId"@) { Some(v) => with(p, "taskId"@, jstr(v)), None => p };
    if entity == "goals"@ {
        with(t, "goalId"@, jstr(source_id))
    } else if entity == "projects"@ {
        with(t, "projectId"@, jstr(source_id))
    } else if entity == "tasks"@ {
        with(t, "taskId"@, jstr(source_id))
    } else {
        t
    }
}

/// The timeline event for one field change, keyed by `key` and dated `occurred_at`.
pub fn timeline_event(
    entity: &str,
    source_id: &str,
    change: &JsonValue,
    key: &str,
    occurred_at: &str,
    after: &JsonValue,
) -> (r: JsonValue)
    ensures
        crate::json::json_wf(*change) && crate::json::json_wf(*after) ==> crate::json::json_wf(r),
        r@ == event_of(entity@, source_id@, change@, key@, occurred_at@, after@),
{
    let mut e = JsonValue::empty_object();
    e.insert("title", value_or_null_exec(change.get("title")));
    e.insert("eventType", value_or_null_exec(change.get("eventType")));
    e.insert("occurredAt", JsonValue::text(occurred_at));
    e.insert("timeMeaning", JsonValue::text("actual"));
    e.insert("timeZone", JsonValue::text("UTC"));
    e.insert("timePrecision", JsonValue::text("datetime"));
    e.insert("timelineImportance", value_or_null_exec(change.get("timelineImportance")));
    e.insert("evidenceLevel", JsonValue::text("REALITY"));
    e.insert("sourceEntityType", JsonValue::text(entity));
    e.insert("sourceEntityId", JsonValue::text(source_id));
    e.insert("timelineEventKey", JsonValue::text(key));
    e.insert("beforeValue", value_or_null_exec(change.get("beforeValue")));
    e.insert("afterValue", value_or_null_exec(change.get("afterValue")));
    if let Some(v) = after.get_str("goalId") {
        e.insert("goalId", JsonValue::text(v));
    }
    if let Some(v) = after.get_str("projectId") {
        e.insert("projectId", JsonValue::text(v));
    }
    if let Some(v) = after.get_str("taskId") {
        e.insert("taskId", JsonValue::text(v));
    }
    if eq_str(entity, "goals") {
        e.insert("goalId", JsonValue::text(source_id));
    } else if eq_str(entity, "projects") {
        e.insert("projectId", JsonValue::text(source_id));
    } else if eq_str(entity, "tasks") {
        e.insert("taskId", JsonValue::text(source_id));
    }
    e
}

} // verus!
