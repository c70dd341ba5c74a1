use jason_os::capture::{capture_canonical_link, link_only_metadata, openable_link};
use jason_os::credentials::{
    candidate_key, capture_key_update, capture_test_provider, capture_test_reply, provider_key_choice,
    redfox_key_choice, test_model, verified_provider,
};
use jason_os::json::{JsonNumber, JsonValue};
use jason_os::providers::scrapecreators_path;
use jason_os::providers::{
    apify_capture, apify_dataset_endpoint, apify_request, apify_run, apify_token_reply,
    capture_failed, capture_method, checked_reply, first_capture_step, redfox_capture,
    scrapecreators_capture, scrapecreators_token_reply, tikhub_capture, tikhub_token_reply,
    CaptureStep,
};

fn to_json(v: &serde_json::Value) -> JsonValue {
    match v {
        serde_json::Value::Null => JsonValue::Null,
        serde_json::Value::Bool(b) => JsonValue::Bool(*b),
        serde_json::Value::Number(n) => {
            if let Some(u) = n.as_u64() {
                JsonValue::Number(JsonNumber::PosInt(u))
            } else if let Some(i) = n.as_i64() {
                JsonValue::Number(JsonNumber::NegInt(i))
            } else {
                JsonValue::Number(JsonNumber::Float(n.to_string()))
            }
        }
        serde_json::Value::String(s) => JsonValue::Str(s.clone()),
        serde_json::Value::Array(a) => JsonValue::Array(a.iter().map(to_json).collect()),
        serde_json::Value::Object(m) => {
            JsonValue::Object(m.iter().map(|(k, v)| (k.clone(), to_json(v))).collect())
        }
    }
}

fn j(text: &str) -> JsonValue {
    to_json(&serde_json::from_str(text).unwrap())
}

#[test]
fn redfox_reply_becomes_a_capture() {
    let raw = j(r#"{"code":200,"data":{"workId":"123","desc":"低噪音宠物饮水器","playCount":"1200"}}"#);
    let capture =
        redfox_capture("https://www.douyin.com/video/123", "endpoint", 200, Ok(raw)).unwrap();
    assert_eq!(capture.status_code, 200);
    assert_eq!(capture.endpoint, "endpoint");
    assert_eq!(capture.canonical.get_str("externalId"), Some("123"));
    assert_eq!(capture.canonical.get_str("provider"), Some("redfox"));
    assert_eq!(capture.raw.i64_of("code"), Some(200));
}

#[test]
fn redfox_refusals_are_reported() {
    let err = redfox_capture("https://www.douyin.com/video/1", "e", 503, Ok(j("{}"))).err();
    assert_eq!(err.as_deref(), Some("RedFox HTTP 503"));
    let coded = j(r#"{"code":401,"message":"bad key"}"#);
    let err = redfox_capture("https://www.douyin.com/video/1", "e", 200, Ok(coded)).err();
    assert_eq!(err.as_deref(), Some("RedFox 401：bad key"));
    let err = redfox_capture("https://www.douyin.com/video/1", "e", 200, Err("eof".into())).err();
    assert_eq!(err.as_deref(), Some("RedFox 返回内容无法解析：eof"));
}

#[test]
fn checked_replies_need_success_and_json() {
    let long = "x".repeat(600);
    let err = checked_reply("TikHub", 500, "bad: ", 404, &long, Ok(JsonValue::Null)).err().unwrap();
    assert_eq!(err, format!("TikHub 返回 HTTP 404：{}", "x".repeat(500)));
    let err = checked_reply("TikHub", 500, "bad: ", 200, "", Err("eof".into())).err();
    assert_eq!(err.as_deref(), Some("bad: eof"));
    assert!(checked_reply("TikHub", 500, "bad: ", 299, "", Ok(JsonValue::Null)).is_ok());
}

#[test]
fn tikhub_reply_becomes_a_social_post() {
    let raw = j(r#"{"data":{"desc":"A clip","nickname":"Jason"}}"#);
    let c = tikhub_capture(
        "https://www.tiktok.com/@a/video/42",
        "/api/v1/tiktok/web/fetch_post_detail",
        200,
        "",
        Ok(raw),
    )
    .unwrap();
    assert_eq!(c.endpoint, "https://api.tikhub.io/api/v1/tiktok/web/fetch_post_detail");
    assert_eq!(c.canonical.get_str("title"), Some("A clip"));
    assert_eq!(c.canonical.get_str("provider"), Some("tikhub"));
    assert_eq!(c.canonical.get_str("contentType"), Some("SOCIAL_POST"));
    let err = tikhub_capture("u", "/p", 500, "down", Ok(JsonValue::Null)).err();
    assert_eq!(err.as_deref(), Some("TikHub 返回 HTTP 500：down"));
    let err = tikhub_capture("u", "/p", 200, "<html>", Err("expected value".into())).err();
    assert_eq!(err.as_deref(), Some("TikHub 响应不是有效 JSON：expected value"));
}

#[test]
fn scrapecreators_reply_becomes_a_social_post() {
    let raw = j(r#"{"post":{"caption":"Hello there"}}"#);
    let c = scrapecreators_capture("https://instagram.com/p/1", "/v1/instagram/post", 201, "", Ok(raw))
        .unwrap();
    assert_eq!(c.endpoint, "https://api.scrapecreators.com/v1/instagram/post");
    assert_eq!(c.status_code, 201);
    assert_eq!(c.canonical.get_str("title"), Some("Hello there"));
    assert_eq!(c.canonical.get_str("content"), Some("Hello there"));
    let untitled = scrapecreators_capture("https://x.com/a/status/1", "/v1/twitter/tweet", 200, "", Ok(j("{}")))
        .unwrap();
    assert_eq!(untitled.canonical.get_str("title"), Some("https://x.com/a/status/1"));
}

#[test]
fn account_checks_report_what_the_providers_return() {
    let t = tikhub_token_reply(200, "", Ok(j(r#"{"data":{"email":"a@b.c"}}"#))).unwrap();
    assert_eq!(t.get_str("username"), Some("a@b.c"));
    assert_eq!(t.get_str("status"), Some("ok"));
    let s = scrapecreators_token_reply(200, "", Ok(j(r#"{"creditCount":12}"#))).unwrap();
    assert_eq!(s.i64_of("creditCount"), Some(12));
    assert_eq!(s.bool_of("success"), Some(true));
    let a = apify_token_reply(200, "", Ok(j(r#"{"data":{"id":"u1","username":"jason"}}"#)), 35).unwrap();
    assert_eq!(a.get_str("id"), Some("u1"));
    assert_eq!(a.i64_of("latencyMs"), Some(35));
    let err = apify_token_reply(401, "no", Ok(JsonValue::Null), 1).err();
    assert_eq!(err.as_deref(), Some("Apify 返回 HTTP 401：no"));
}

#[test]
fn apify_crawls_one_public_page() {
    assert_eq!(apify_request("  ").err().as_deref(), Some("Apify 采集需要公开链接"));
    let body = apify_request("https://example.com").unwrap();
    assert_eq!(body.i64_of("maxCrawlPages"), Some(1));
    assert_eq!(body.i64_of("maxCrawlDepth"), Some(0));
    assert_eq!(body.bool_of("saveMarkdown"), Some(true));
    let (run, id) = apify_run(201, "", Ok(j(r#"{"data":{"defaultDatasetId":"ds1"}}"#))).unwrap();
    assert_eq!(id, "ds1");
    assert_eq!(
        apify_dataset_endpoint(&id),
        "https://api.apify.com/v2/datasets/ds1/items?clean=true&format=json&limit=1"
    );
    let items = j(r#"[{"title":"Page","markdown":"Body text","url":"https://example.com/a"}]"#);
    let c = apify_capture("https://example.com", 201, run, &id, 200, "", Ok(items)).unwrap();
    assert_eq!(c.status_code, 201);
    assert_eq!(c.canonical.get_str("title"), Some("Page"));
    assert_eq!(c.canonical.get_str("canonicalUrl"), Some("https://example.com/a"));
    assert_eq!(c.canonical.get_str("externalId"), Some("ds1"));
    assert!(c.raw.get("run").is_some() && c.raw.get("items").is_some());
    let err = apify_run(200, "", Ok(j(r#"{"data":{}}"#))).err();
    assert_eq!(err.as_deref(), Some("Apify Actor 未返回 dataset ID"));
    let err = apify_capture("u", 200, JsonValue::Null, "d", 200, "", Ok(j("[{}]"))).err();
    assert_eq!(err.as_deref(), Some("Apify 未返回可用网页内容"));
}

#[test]
fn a_capture_falls_back_until_the_bare_link() {
    assert_eq!(first_capture_step("https://www.douyin.com/video/1", true), CaptureStep::Redfox);
    assert_eq!(first_capture_step("https://www.douyin.com/video/1", false), CaptureStep::YtDlp);
    assert_eq!(first_capture_step("https://example.com", true), CaptureStep::YtDlp);
    let mut errors = Vec::new();
    let mut step = CaptureStep::Redfox;
    let mut tried = Vec::new();
    while step != CaptureStep::LinkOnly {
        tried.push(capture_method(step));
        step = capture_failed(step, "failed", &mut errors);
    }
    assert_eq!(tried, vec!["redfox", "yt-dlp", "gallery-dl", "open-graph"]);
    assert_eq!(capture_method(step), "link-only");
    assert_eq!(
        errors,
        vec!["RedFox: failed", "yt-dlp: failed", "gallery-dl: failed", "网页读取: failed"]
    );
}

#[test]
fn captured_pages_name_their_own_link() {
    let m = j(r#"{"webpage_url":"https://a.example/x","original_url":"https://b.example"}"#);
    assert_eq!(capture_canonical_link("https://c.example", &m), "https://a.example/x");
    assert_eq!(capture_canonical_link("https://c.example", &j("{}")), "https://c.example");
    let bare = link_only_metadata("https://c.example");
    assert_eq!(bare.get_str("webpage_url"), Some("https://c.example"));
    assert!(openable_link("https://news.example").is_ok());
    assert_eq!(
        openable_link("file:///etc/passwd").err().as_deref(),
        Some("只允许打开 http 或 https 新闻链接")
    );
    assert_eq!(scrapecreators_path("https://YouTu.be/abc"), Ok("/v1/youtube/video"));
    assert_eq!(
        scrapecreators_path("https://example.com").err().as_deref(),
        Some("Scrape Creators 当前未配置该平台的单条链接接口")
    );
}

#[test]
fn keys_come_from_the_environment_then_the_credential_file() {
    assert_eq!(provider_key_choice("deepseek", Some("env-key"), Some("file-key")), Ok("env-key".to_string()));
    assert_eq!(provider_key_choice("deepseek", Some("  "), Some("file-key")), Ok("file-key".to_string()));
    assert_eq!(
        provider_key_choice("deepseek", None, Some(" ")).err().as_deref(),
        Some("尚未配置 DeepSeek API Key。请在设置中保存。")
    );
    assert_eq!(redfox_key_choice(None, None).err().as_deref(), Some("尚未配置 RedFox API Key"));
}

#[test]
fn capture_settings_accept_redfox_only() {
    assert_eq!(capture_key_update("tikhub", "k", true).err().as_deref(), Some("当前只支持配置 RedFoxHub"));
    assert_eq!(capture_key_update("redfox", "  k1 ", false), Ok(Some("k1".to_string())));
    assert_eq!(capture_key_update("redfox", " ", true), Ok(None));
    assert_eq!(capture_key_update("redfox", " ", false).err().as_deref(), Some("请输入 RedFox API Key"));
    assert_eq!(capture_test_provider("apify").err().as_deref(), Some("当前只支持测试 RedFoxHub"));
    let reply = capture_test_reply(12, j(r#"{"title":"T"}"#));
    assert_eq!(reply.i64_of("latencyMs"), Some(12));
    assert_eq!(reply.get("content").and_then(|c| c.get_str("title")), Some("T"));
}

#[test]
fn ai_connectivity_tests_need_text() {
    assert_eq!(test_model("nope", "", "m").err().as_deref(), Some("不支持的 AI 服务商"));
    assert_eq!(test_model("deepseek", " ", "deepseek-v4-pro"), Ok("deepseek-v4-pro".to_string()));
    assert_eq!(test_model("deepseek", "x", "deepseek-v4-pro"), Ok("x".to_string()));
    assert_eq!(candidate_key(" typed ", Err("none".into())), Ok("typed".to_string()));
    assert_eq!(candidate_key("", Err("none".into())), Err("none".to_string()));
    let ok = verified_provider("minimax", "MiniMax-M3", 40, "JASON_OS_CONNECTION_OK").unwrap();
    assert_eq!(ok.get_str("content"), Some("JASON_OS_CONNECTION_OK"));
    assert_eq!(ok.bool_of("ok"), Some(true));
    assert_eq!(
        verified_provider("minimax", "MiniMax-M3", 40, "  ").err().as_deref(),
        Some("MiniMax Token Plan 已响应但未返回文本")
    );
}

#[test]
fn provider_replies_follow_the_status() {
    let ok = jason_os::chief::provider_reply("deepseek", 200, "200 OK", j(r#"{"x":1}"#), 42).unwrap();
    assert_eq!(jason_os::json::to_json_text(&ok.0), r#"{"x":1}"#);
    assert_eq!(ok.1, 42);
    let label = jason_os::catalog::provider_label("deepseek");
    let e = jason_os::chief::provider_reply("deepseek", 401, "401 Unauthorized", j(r#"{"error":{"message":"bad key"},"message":"m"}"#), 7)
        .unwrap_err();
    assert_eq!(e, format!("{label} 返回 401 Unauthorized：bad key"));
    let e = jason_os::chief::provider_reply("deepseek", 500, "500 Internal Server Error", j(r#"{"base_resp":{"status_msg":"busy"}}"#), 7)
        .unwrap_err();
    assert_eq!(e, format!("{label} 返回 500 Internal Server Error：busy"));
    let e = jason_os::chief::provider_reply("deepseek", 302, "302 Found", j(r#"{}"#), 7).unwrap_err();
    assert_eq!(e, format!("{label} 返回 302 Found：未知错误"));
}
