use jason_os::capture::{first_existing, html_meta, web_metadata};
use jason_os::capture::{
    apify_canonical, apify_dataset_id, apify_first_item, capture_provider_config, capture_url, endpoint,
    executable, extract_between, http_error, id_between, inbox_capture_record, meta_patterns,
    normalize_response, platform_for_url, redfox_outcome, request_for_url, scrapecreators_canonical,
    take_chars, tikhub_canonical, tikhub_route,
};
use jason_os::json::{to_json_text, JsonNumber, JsonValue};

fn to_json(v: &serde_json::Value) -> JsonValue {
    match v {
        serde_json::Value::Null => JsonValue::Null,
        serde_json::Value::Bool(b) => JsonValue::Bool(*b),
        serde_json::Value::Number(n) => {
            if let Some(u) = n.as_u64() {
                JsonValue::Number(JsonNumber::PosInt(u))
            } else if let Some(i) = n.as_i64() {
                JsonValue::Number(JsonNumber::NegInt(i))
            } else {
                JsonValue::Number(JsonNumber::Float(n.to_string()))
            }
        }
        serde_json::Value::String(s) => JsonValue::Str(s.clone()),
        serde_json::Value::Array(a) => JsonValue::Array(a.iter().map(to_json).collect()),
        serde_json::Value::Object(m) => {
            JsonValue::Object(m.iter().map(|(k, v)| (k.clone(), to_json(v))).collect())
        }
    }
}

fn j(text: &str) -> JsonValue {
    to_json(&serde_json::from_str(text).unwrap())
}


#[test]
fn routes_supported_platform_urls() {
    assert!(request_for_url("https://mp.weixin.qq.com/s/abc").unwrap().0.contains("gzhData"));
    assert_eq!(
        request_for_url("https://www.douyin.com/video/123456").unwrap().1.get_str("workId"),
        Some("123456")
    );
    assert_eq!(
        request_for_url("https://www.xiaohongshu.com/explore/abc123").unwrap().1.get_str("workId"),
        Some("abc123")
    );
    assert!(request_for_url("https://reddit.com/r/test").is_err());
}

#[test]
fn normalizes_provider_specific_fields() {
    let raw = j(r#"{"code":200,"data":{"workId":"123","desc":"低噪音宠物饮水器","nickname":"Jason","playCount":"1200","diggCount":88,"commentCount":12,"shareCount":4}}"#);
    let canonical = normalize_response("https://www.douyin.com/video/123", "endpoint", &raw);
    assert_eq!(canonical.get_str("externalId"), Some("123"));
    assert_eq!(canonical.get_str("content"), Some("低噪音宠物饮水器"));
    let metrics = canonical.get("metrics").unwrap();
    assert_eq!(metrics.i64_of("views"), Some(1200));
    assert_eq!(metrics.i64_of("likes"), Some(88));
}

#[test]
fn capture_provider_config_never_contains_the_api_key() {
    let config = capture_provider_config(true);
    let serialized = to_json_text(&config);
    match config.get("providers") {
        Some(JsonValue::Array(list)) => assert_eq!(list[0].bool_of("configured"), Some(true)),
        _ => panic!("providers must be a list"),
    }
    assert!(!serialized.contains("apiKey"));
    assert!(!serialized.contains("REDFOX_API_KEY"));
    assert!(!serialized.contains("secret"));
}

#[test]
fn identifiers_are_cut_out_of_links() {
    assert_eq!(extract_between("https://www.douyin.com/jingxuan?modal_id=777&x=1", &["/video/", "modal_id="]), "777");
    assert_eq!(extract_between("https://www.douyin.com/user/x", &["/video/", "modal_id="]), "");
    assert_eq!(id_between("https://www.tiktok.com/@a/video/42?lang=en", "/video/"), Some("42".to_string()));
    assert_eq!(id_between("https://x.com/a/status/", "/status/"), None);
    assert_eq!(id_between("https://x.com/a", "/status/"), None);
    assert_eq!(id_between("https://x.com/a", ""), Some("h".to_string()));
    assert_eq!(id_between("/x", ""), None);
    assert_eq!(id_between("", ""), None);
}

#[test]
fn redfox_serves_three_platforms() {
    assert_eq!(platform_for_url("https://MP.WEIXIN.QQ.COM/s/x"), Some("wechat"));
    assert_eq!(platform_for_url("https://xhslink.com/a"), Some("xiaohongshu"));
    assert_eq!(platform_for_url("https://www.tiktok.com/@a/video/1"), None);
    assert_eq!(
        request_for_url("https://www.douyin.com/user/x").unwrap_err(),
        "无法从抖音链接提取作品 ID，请使用作品完整链接"
    );
}

#[test]
fn redfox_replies_are_checked() {
    assert!(redfox_outcome(200, &j(r#"{"code":0}"#)).is_ok());
    assert!(redfox_outcome(200, &j("{}")).is_ok());
    assert_eq!(redfox_outcome(500, &j("{}")).unwrap_err(), "RedFox HTTP 500");
    assert_eq!(redfox_outcome(200, &j(r#"{"code":401,"msg":"bad key"}"#)).unwrap_err(), "RedFox 401：bad key");
    assert_eq!(redfox_outcome(200, &j(r#"{"code":9}"#)).unwrap_err(), "RedFox 9：调用失败");
}

#[test]
fn tikhub_and_scrape_creators_routes() {
    assert_eq!(tikhub_route("https://v.douyin.com/abc").unwrap().1, "share_url");
    let (path, key, value) = tikhub_route("https://x.com/openai/status/99").unwrap();
    assert_eq!((path, key, value.as_str()), ("/api/v1/twitter/web/fetch_tweet_detail", "tweet_id", "99"));
    assert_eq!(tikhub_route("https://www.tiktok.com/@a").unwrap_err(), "无法从 TikTok 链接提取视频 ID");
    assert_eq!(tikhub_route("https://example.com").unwrap_err(), "TikHub 当前未配置该平台的单条链接接口");
    assert_eq!(endpoint("https://youtu.be/x"), Some("/v1/youtube/video"));
    assert_eq!(endpoint("https://example.com"), None);
}

#[test]
fn social_items_take_the_first_text_found() {
    let raw = j(r#"{"data":{"aweme":{"desc":"  hello  ","stats":{"title":""}}}}"#);
    let item = tikhub_canonical("https://t/1", "/p", &raw);
    assert_eq!(item.get_str("title"), Some("hello"));
    assert_eq!(item.get_str("content"), Some("hello"));
    let empty = scrapecreators_canonical("https://s/1", "/v1/x", &j("{}"));
    assert_eq!(empty.get_str("title"), Some("https://s/1"));
    assert_eq!(empty.get_str("provider"), Some("scrapecreators"));
}

#[test]
fn apify_results_are_checked_and_normalized() {
    assert_eq!(apify_dataset_id(&j(r#"{"data":{"defaultDatasetId":"ds"}}"#)).unwrap(), "ds");
    assert!(apify_dataset_id(&j(r#"{"data":{"defaultDatasetId":""}}"#)).is_err());
    assert!(apify_first_item(&j("[{}]")).is_err());
    assert!(apify_first_item(&j("[]")).is_err());
    let item = apify_first_item(&j(r#"[{"title":"T","markdown":"M"}]"#)).unwrap();
    let c = apify_canonical("https://a", &item, "ds");
    assert_eq!(c.get_str("canonicalUrl"), Some("https://a"));
    assert_eq!(c.get_str("externalId"), Some("ds"));
    assert_eq!(c.get_str("content"), Some("M"));
}

#[test]
fn captured_links_become_inbox_records() {
    assert!(capture_url(" ftp://x ").is_err());
    assert_eq!(capture_url("  https://a.b/c ").unwrap(), "https://a.b/c");
    let meta = j(r#"{"webpage_url":"https://a.b/c"}"#);
    let rec = inbox_capture_record("https://a.b/c", "网页", &meta, "link-only", "local", &vec!["yt-dlp: none".to_string()], "/p", "", "1", "2", None);
    assert_eq!(rec.get_str("captureStatus"), Some("link_saved"));
    assert_eq!(rec.get_str("content"), Some("https://a.b/c"));
    let existing = j(r#"{"id":"inbox-1","createdAt":"0"}"#);
    let meta2 = j(r#"{"title":"T","description":"D"}"#);
    let again = inbox_capture_record("https://a.b/c", "网页", &meta2, "open-graph", "open-graph", &Vec::new(), "/p", "", "1", "2", Some(&existing));
    assert_eq!(again.get_str("id"), Some("inbox-1"));
    assert_eq!(again.get_str("content"), Some("T\n\nD"));
    assert_eq!(again.get_str("captureStatus"), Some("captured"));
}

#[test]
fn http_errors_quote_the_start_of_the_body() {
    assert_eq!(http_error("TikHub", 429, "slow down please", 4), "TikHub 返回 HTTP 429：slow");
    assert_eq!(take_chars("日本語", 2), "日本");
}

#[test]
fn meta_patterns_and_tools() {
    let (a, b) = meta_patterns("og:title");
    assert!(a.contains("og:title") && b.contains("og:title"));
    assert_eq!(executable(&["/definitely/not/here"]), None);
}

#[test]
fn page_metadata_is_read_from_meta_tags() {
    let html = r#"<html><head>
        <meta property="og:title" content="  Low noise fountain ">
        <meta content="A quiet pump" name="description">
        <meta property="og:image" content="https://img.example/a.png">
        <meta name="aXb" content="wrong">
        <meta name="a.b" content="dotted">
    </head></html>"#;
    assert_eq!(html_meta(html, "og:title"), "Low noise fountain");
    assert_eq!(html_meta(html, "description"), "A quiet pump");
    assert_eq!(html_meta(html, "article:author"), "");
    // The key is matched literally: a dot in it matches only a dot.
    assert_eq!(html_meta(html, "a.b"), "dotted");
    assert_eq!(html_meta(html, "aXb"), "wrong");
    let meta = web_metadata(html, "https://final.example/");
    assert_eq!(meta.get_str("title"), Some("Low noise fountain"));
    assert_eq!(meta.get_str("description"), Some("A quiet pump"));
    assert_eq!(meta.get_str("thumbnail"), Some("https://img.example/a.png"));
    assert_eq!(meta.get_str("webpage_url"), Some("https://final.example/"));
    assert_eq!(meta.get_str("uploader"), Some(""));
}

#[test]
fn the_first_found_candidate_is_used() {
    let c = ["/a/yt-dlp", "/b/yt-dlp", "/c/yt-dlp"];
    assert_eq!(first_existing(&c, &[false, true, true]), Some("/b/yt-dlp".to_string()));
    assert_eq!(first_existing(&c, &[true, false, true]), Some("/a/yt-dlp".to_string()));
    assert_eq!(first_existing(&c, &[false, false, false]), None);
    assert_eq!(first_existing(&[], &[]), None);
    assert_eq!(executable(&["/definitely/not/here", "/"]), Some("/".to_string()));
}

#[test]
fn meta_keys_are_escaped() {
    let html = r#"<meta name="a+b" content="plus"><meta name="aab" content="no">"#;
    assert_eq!(html_meta(html, "a+b"), "plus");
}
