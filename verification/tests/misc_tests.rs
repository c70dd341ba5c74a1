use jason_os::chief::context_push_batch;
use jason_os::text::first_nonblank_line;
use jason_os::clock::{new_id, now, timestamp_after_days, IdSequence};
use jason_os::decision_intelligence::{framework_records, lens_records, principle_records};
use jason_os::fingerprint::{content_hash, hex16};
use jason_os::json::{to_json_text, to_pretty_text, JsonNumber, JsonValue};
use jason_os::mental_models::{
    add_model_relation, category_label, legacy_category, relation_field, seed, seed_record_id,
    seed_value, seeds, upgrade_mental_model,
};

fn to_json(v: &serde_json::Value) -> JsonValue {
    match v {
        serde_json::Value::Null => JsonValue::Null,
        serde_json::Value::Bool(b) => JsonValue::Bool(*b),
        serde_json::Value::Number(n) => {
            if let Some(u) = n.as_u64() {
                JsonValue::Number(JsonNumber::PosInt(u))
            } else if let Some(i) = n.as_i64() {
                JsonValue::Number(JsonNumber::NegInt(i))
            } else {
                JsonValue::Number(JsonNumber::Float(n.to_string()))
            }
        }
        serde_json::Value::String(s) => JsonValue::Str(s.clone()),
        serde_json::Value::Array(a) => JsonValue::Array(a.iter().map(to_json).collect()),
        serde_json::Value::Object(m) => {
            JsonValue::Object(m.iter().map(|(k, v)| (k.clone(), to_json(v))).collect())
        }
    }
}

fn j(text: &str) -> JsonValue {
    to_json(&serde_json::from_str(text).unwrap())
}


#[test]
fn generated_ids_do_not_collide_within_the_same_millisecond() {
    let mut ids = IdSequence::new();
    assert_ne!(new_id(&mut ids, "goals"), new_id(&mut ids, "goals"));
}

#[test]
fn ids_name_the_entity_and_count_up() {
    let mut ids = IdSequence::new();
    let first = new_id(&mut ids, "goals");
    assert!(first.starts_with("goals-"));
    assert!(first.ends_with("-0"));
    assert_eq!(ids.next, 1);
    assert!(now().chars().all(|c| c.is_ascii_digit()));
}

#[test]
fn timestamps_move_by_whole_days() {
    assert_eq!(timestamp_after_days("1000", 1), "86401000");
    assert_eq!(timestamp_after_days("junk", 2), "172800000");
    assert_eq!(timestamp_after_days("-5", -1), "-86400005");
}

#[test]
fn migration_v12_seeds_cognitive_assets() {
    let first: Vec<String> = framework_records("1000").iter().chain(principle_records("1000").iter()).chain(lens_records("1000").iter())
        .map(|r| r.get_str("id").unwrap().to_string()).collect();
    assert_eq!(framework_records("1000").len(), 8);
    assert_eq!(principle_records("1000").len(), 7);
    assert_eq!(lens_records("1000").len(), 8);
    let second: Vec<String> = framework_records("1001").iter().chain(principle_records("1001").iter()).chain(lens_records("1001").iter())
        .map(|r| r.get_str("id").unwrap().to_string()).collect();
    assert_eq!(first, second);
    assert_eq!(framework_records("1000")[0].get_str("id"), Some("decision-framework-strategy-kernel"));
}

#[test]
fn categories_have_labels() {
    assert_eq!(category_label("growth"), "增长");
    assert_eq!(category_label("nope"), "待归类");
    assert_eq!(legacy_category("客户研究"), "customer-product");
    assert_eq!(legacy_category("复盘"), "learning-evolution");
    assert_eq!(legacy_category("其他"), "decision-judgment");
}

#[test]
fn seeds_become_model_records() {
    let all = seeds();
    assert_eq!(all.len(), 37);
    assert_eq!(all[0].slug, "first-principles");
    let s = seed("a", "A", "growth", "d", "c", "p", "t", "tags", "tr", "o");
    let v = seed_value(s, "id-1".into(), "9");
    assert_eq!(v.get_str("category"), Some("增长"));
    assert_eq!(v.get_str("corePrinciple"), Some("c"));
    assert_eq!(v.bool_of("needsReview"), Some(false));
    assert_eq!(seed_record_id("9", 3), "mentalModels-engine-9-3");
}

#[test]
fn older_models_are_upgraded() {
    let v = upgrade_mental_model(j(r#"{"name":"Second Order","category":"风险控制","coreIdea":"think","source":"X"}"#)).unwrap();
    assert_eq!(v.get_str("categoryId"), Some("risk-error"));
    assert_eq!(v.get_str("category"), Some("风险与错误"));
    assert_eq!(v.get_str("definition"), Some("think"));
    assert_eq!(v.get_str("slug"), Some("second-order"));
    assert_eq!(v.get_str("sourcePerson"), Some("X"));
    assert_eq!(v.bool_of("needsReview"), Some(true));
    assert!(upgrade_mental_model(j("[]")).is_err());
}

#[test]
fn model_relations_are_listed_once() {
    assert_eq!(relation_field("opposite"), "oppositeModelIds");
    assert_eq!(relation_field("related"), "relatedModelIds");
    let once = add_model_relation(j("{}"), "relatedModelIds", "m2").unwrap();
    let twice = add_model_relation(once.duplicate(), "relatedModelIds", "m2").unwrap();
    assert_eq!(to_json_text(&twice), r#"{"relatedModelIds":["m2"]}"#);
}

#[test]
fn json_text_matches_serde() {
    let v = j(r#"{"b":[1,-2,"x\"y\n"],"a":{"c":null,"d":true}}"#);
    let serde: serde_json::Value = serde_json::from_str(r#"{"b":[1,-2,"x\"y\n"],"a":{"c":null,"d":true}}"#).unwrap();
    assert_eq!(to_json_text(&v), serde_json::to_string(&serde).unwrap());
    assert_eq!(to_pretty_text(&v), serde_json::to_string_pretty(&serde).unwrap());
}

#[test]
fn fingerprints_are_sixteen_hex_digits() {
    assert_eq!(hex16(255), "00000000000000ff");
    let a = content_hash(&j(r#"{"platformCode":"douyin","title":"T","content":"C"}"#));
    let b = content_hash(&j(r#"{"platformCode":" douyin ","title":"T","content":"C","other":1}"#));
    assert_eq!(a, b);
    assert_eq!(a.len(), 16);
}

#[test]
fn the_last_recorded_id_names_a_model() {
    let known = vec![
        ("inversion".to_string(), "a".to_string()),
        ("逆向思维".to_string(), "a".to_string()),
        ("inversion".to_string(), "b".to_string()),
    ];
    assert_eq!(jason_os::mental_models::known_id(&known, "inversion"), Some("b".to_string()));
    assert_eq!(jason_os::mental_models::known_id(&known, "逆向思维"), Some("a".to_string()));
    assert_eq!(jason_os::mental_models::known_id(&known, "jtbd"), None);
}

#[test]
fn the_first_nonblank_line_is_read() {
    assert_eq!(first_nonblank_line("\n  \r\n{\"a\":1}\r\n{\"b\":2}\n"), "{\"a\":1}");
    assert_eq!(first_nonblank_line("only"), "only");
    assert_eq!(first_nonblank_line(" \n\t\n"), "");
    assert_eq!(first_nonblank_line(""), "");
    for text in ["a\nb", "\n\nx\r", "  \r\n  y  \n", "\r\n\r\n"] {
        let expected = text.lines().find(|l| !l.trim().is_empty()).unwrap_or("");
        assert_eq!(first_nonblank_line(text), expected, "{:?}", text);
    }
}

#[test]
fn a_context_batch_takes_twelve_new_records() {
    let rec = |id: usize| {
        let mut o = JsonValue::empty_object();
        o.insert("id", JsonValue::from_string(format!("r{id}")));
        o
    };
    let mut list = vec![rec(0)];
    context_push_batch(&mut list, (0..15).map(rec).collect());
    assert_eq!(list.len(), 12);
    let mut list = Vec::new();
    context_push_batch(&mut list, vec![rec(1), rec(1), rec(2)]);
    assert_eq!(list.len(), 2);
}

#[test]
fn every_seed_model_has_a_category_label() {
    for s in jason_os::mental_models::seeds() {
        assert_ne!(category_label(s.category_id), "待归类", "{}", s.slug);
    }
    assert_eq!(category_label("risk-error"), "风险与错误");
    assert_eq!(category_label(""), "待归类");
    assert_eq!(category_label("Risk-Error"), "待归类");
}

#[test]
fn stored_documents_keep_their_keys_in_order() {
    let mut o = JsonValue::empty_object();
    o.insert("zeta", JsonValue::text("1"));
    o.insert("alpha", JsonValue::text("2"));
    o.insert("mid", JsonValue::text("3"));
    o.insert("alpha", JsonValue::text("4"));
    assert_eq!(to_json_text(&o), r#"{"alpha":"4","mid":"3","zeta":"1"}"#);
    o.remove("mid");
    assert_eq!(to_json_text(&o), r#"{"alpha":"4","zeta":"1"}"#);
}
