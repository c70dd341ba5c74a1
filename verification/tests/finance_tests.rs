use jason_os::finance::{format_decimal, freeze_decision_snapshot, normalize, parse_decimal, summary, validate_transition};
use jason_os::json::{JsonNumber, JsonValue};

fn to_json(v: &serde_json::Value) -> JsonValue {
    match v {
        serde_json::Value::Null => JsonValue::Null,
        serde_json::Value::Bool(b) => JsonValue::Bool(*b),
        serde_json::Value::Number(n) => {
            if let Some(u) = n.as_u64() {
                JsonValue::Number(JsonNumber::PosInt(u))
            } else if let Some(i) = n.as_i64() {
                JsonValue::Number(JsonNumber::NegInt(i))
            } else {
                JsonValue::Number(JsonNumber::Float(n.to_string()))
            }
        }
        serde_json::Value::String(s) => JsonValue::Str(s.clone()),
        serde_json::Value::Array(a) => JsonValue::Array(a.iter().map(to_json).collect()),
        serde_json::Value::Object(m) => {
            JsonValue::Object(m.iter().map(|(k, v)| (k.clone(), to_json(v))).collect())
        }
    }
}

fn j(text: &str) -> JsonValue {
    to_json(&serde_json::from_str(text).unwrap())
}


#[test]
fn material_decision_freezes_current_project_evidence() {
    let rows = vec![
        ("financialTransactions".to_string(), j(r#"{"title":"收入","status":"POSTED","transactionType":"INCOME","baseAmountMinor":"100000","projectId":"p1"}"#)),
        ("timeLogs".to_string(), j(r#"{"title":"工作","durationMinutes":60,"projectId":"p1"}"#)),
        ("results".to_string(), j(r#"{"title":"结果","projectId":"p1","evidenceStatus":"VERIFIED","actualValue":"1"}"#)),
    ];
    let mut decision = j(r#"{"decisionLevel":"MATERIAL","projectId":"p1"}"#);
    freeze_decision_snapshot(&rows, &mut decision, "2").unwrap();
    assert_eq!(decision.get_str("evidenceSnapshotAt"), Some("2"));
    assert_eq!(decision.i64_of("dataCoverage"), Some(100));
    assert!(decision.get_str("evidenceSnapshot").unwrap().contains("100000"));
}

#[test]
fn decisions_without_a_project_cannot_be_frozen() {
    let rows: Vec<(String, JsonValue)> = Vec::new();
    let mut decision = j(r#"{"decisionLevel":"STRATEGIC"}"#);
    assert_eq!(
        freeze_decision_snapshot(&rows, &mut decision, "2").unwrap_err(),
        "重要或战略决策必须关联真实项目，才能冻结决策时证据"
    );
    let mut minor = j(r#"{"decisionLevel":"MINOR"}"#);
    assert!(freeze_decision_snapshot(&rows, &mut minor, "2").is_ok());
    assert!(minor.get("evidenceSnapshot").is_none());
}

#[test]
fn outcome_amounts_are_calculated_in_minor_units() {
    let mut data = j(r#"{"metricKind":"MONEY","targetAmountMinor":"10000000","actualAmountMinor":"5200000"}"#);
    normalize("results", &mut data).unwrap();
    assert_eq!(data.get_str("varianceAmountMinor"), Some("-4800000"));
    assert_eq!(data.get_str("achievementBps"), Some("5200"));
}

#[test]
fn posted_transactions_are_immutable_without_voiding() {
    let before = j(r#"{"status":"POSTED","transactionType":"EXPENSE","amountMinor":"10000","baseAmountMinor":"10000","currency":"CNY","baseCurrency":"CNY","accountId":"a","occurredAt":"2026-08-11"}"#);
    let changed = j(r#"{"status":"POSTED","transactionType":"EXPENSE","amountMinor":"20000","baseAmountMinor":"20000","currency":"CNY","baseCurrency":"CNY","accountId":"a","occurredAt":"2026-08-11"}"#);
    assert!(validate_transition("financialTransactions", Some(&before), &changed).is_err());
    let voided = j(r#"{"status":"VOIDED","voidReason":"重复记录"}"#);
    assert!(validate_transition("financialTransactions", Some(&before), &voided).is_ok());
}

#[test]
fn transaction_amounts_must_be_positive() {
    let mut data = j(r#"{"transactionType":"EXPENSE","amountMinor":"-100","baseAmountMinor":"-100"}"#);
    assert!(normalize("financialTransactions", &mut data).is_err());
}

#[test]
fn decimals_are_parsed_and_written_in_ten_thousandths() {
    assert_eq!(parse_decimal(&j(r#"{"v":"1,234.5"}"#), "v").unwrap(), Some(12345000));
    assert_eq!(parse_decimal(&j(r#"{"v":"-0.25"}"#), "v").unwrap(), Some(-2500));
    assert_eq!(parse_decimal(&j(r#"{"v":""}"#), "v").unwrap(), None);
    assert!(parse_decimal(&j(r#"{"v":"1.2.3"}"#), "v").is_err());
    assert_eq!(format_decimal(12345000), "1234.5");
    assert_eq!(format_decimal(-2500), "-0.25");
    assert_eq!(format_decimal(10000), "1");
}

#[test]
fn transactions_get_defaults_and_base_amounts() {
    let mut data = j(r#"{"transactionType":"INCOME","amountMinor":"500"}"#);
    normalize("financialTransactions", &mut data).unwrap();
    assert_eq!(data.get_str("status"), Some("POSTED"));
    assert_eq!(data.get_str("baseAmountMinor"), Some("500"));
    let mut transfer = j(r#"{"transactionType":"TRANSFER","amountMinor":"5","accountId":"a"}"#);
    assert_eq!(normalize("financialTransactions", &mut transfer).unwrap_err(), "转账必须同时选择来源账户和目标账户");
}

#[test]
fn summaries_count_posted_money_time_and_outcomes() {
    let rows = vec![
        ("financialTransactions".to_string(), j(r#"{"status":"POSTED","transactionType":"EXPENSE","baseAmountMinor":"300"}"#)),
        ("financialTransactions".to_string(), j(r#"{"status":"VOIDED","transactionType":"INCOME","baseAmountMinor":"900"}"#)),
    ];
    let s = summary(&rows, None).unwrap();
    assert_eq!(s.get_str("expenseMinor"), Some("300"));
    assert_eq!(s.i64_of("postedTransactions"), Some(1));
}

#[test]
fn formatted_decimals_read_back() {
    for v in [-5000i128, 20000, 12345, 0, -1, 7, 99990000, i128::MAX, i128::MIN + 1] {
        let s = format_decimal(v);
        assert_eq!(s.starts_with('-'), v < 0);
        if s.contains('.') {
            assert!(!s.ends_with('0'));
        }
        let mut o = JsonValue::empty_object();
        o.insert("k", JsonValue::from_string(s.clone()));
        assert_eq!(parse_decimal(&o, "k").unwrap(), Some(v), "{}", s);
    }
    assert_eq!(format_decimal(-5000), "-0.5");
    assert_eq!(format_decimal(20000), "2");
    assert_eq!(format_decimal(12345), "1.2345");
}

#[test]
fn transactions_are_accepted_only_when_complete() {
    let mut d = j(r#"{"amountMinor":"500","transactionType":"TRANSFER","accountId":"a"}"#);
    assert!(normalize("financialTransactions", &mut d).is_err());
    let mut d = j(r#"{"amountMinor":"500","transactionType":"TRANSFER","accountId":"a","destinationAccountId":"b"}"#);
    assert!(normalize("financialTransactions", &mut d).is_ok());
    assert_eq!(d.get_str("baseAmountMinor"), Some("500"));
    assert_eq!(d.get_str("status"), Some("POSTED"));
    assert_eq!(d.get_str("evidenceStatus"), Some("RECORDED"));
    let mut d = j(r#"{"amountMinor":"500","transactionType":"GIFT"}"#);
    assert!(normalize("financialTransactions", &mut d).is_err());
    let mut d = j(r#"{"amountMinor":"500","currency":"USD","transactionType":"INCOME"}"#);
    assert!(normalize("financialTransactions", &mut d).is_err());
    let mut d = j(r#"{"amountMinor":"500","currency":"USD","baseAmountMinor":"3600","transactionType":"INCOME"}"#);
    assert!(normalize("financialTransactions", &mut d).is_ok());
}
