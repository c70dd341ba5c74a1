use jason_os::catalog::{
    agent_tool_metadata, capture_platform, is_entity, is_external_url, provider_base_url,
    provider_key_account, provider_label, provider_models, required_agent_fields, preview_label,
    expected_entity, active_provider, selected_model,
};

#[test]
fn external_intelligence_entities_and_agent_tools_are_registered() {
    for entity in ["externalSources", "signals", "opportunities", "intelligenceBriefs"] {
        assert!(is_entity(entity));
    }
    assert_eq!(agent_tool_metadata("createExternalSource").unwrap().0, "externalSources");
    assert_eq!(agent_tool_metadata("createOpportunity").unwrap().0, "opportunities");
}

#[test]
fn agent_registry_allows_mental_model_writes_but_not_delete_tools() {
    assert_eq!(agent_tool_metadata("createMentalModel").unwrap().0, "mentalModels");
    assert!(agent_tool_metadata("deleteProject").is_none());
}

#[test]
fn external_links_are_limited_to_web_urls() {
    assert!(is_external_url("https://openai.com/news"));
    assert!(is_external_url("http://example.com"));
    assert!(!is_external_url("file:///tmp/private"));
    assert!(!is_external_url("javascript:alert(1)"));
}

#[test]
fn only_declared_entities_are_accepted() {
    assert!(is_entity("goals"));
    assert!(!is_entity("drop table records"));
}

#[test]
fn current_provider_model_catalog_is_explicit() {
    assert_eq!(provider_models("deepseek"), vec!["deepseek-v4-pro", "deepseek-v4-flash"]);
    assert_eq!(provider_models("minimax"), vec!["MiniMax-M3"]);
    assert_eq!(provider_base_url("minimax"), "https://api.minimaxi.com/anthropic/v1/messages");
    assert_eq!(provider_models("volc-agent-plan"), vec!["kimi-k3"]);
    assert_eq!(
        provider_base_url("volc-agent-plan"),
        "https://ark.cn-beijing.volces.com/api/plan/v3/responses"
    );
}

#[test]
fn capture_platforms_are_detected() {
    assert_eq!(capture_platform("https://mp.weixin.qq.com/s/a"), "微信公众号");
    assert_eq!(capture_platform("https://www.douyin.com/video/1"), "抖音");
    assert_eq!(capture_platform("https://www.xiaohongshu.com/explore/1"), "小红书");
    assert_eq!(capture_platform("https://x.com/openai/status/1"), "X");
    assert_eq!(capture_platform("https://www.instagram.com/p/1"), "Instagram");
    assert_eq!(capture_platform("https://www.reddit.com/r/rust/1"), "Reddit");
    assert_eq!(capture_platform("https://www.facebook.com/watch/1"), "Facebook");
}

#[test]
fn capture_platform_ignores_case_and_falls_back_to_web() {
    assert_eq!(capture_platform("HTTPS://WWW.DOUYIN.COM/video/1"), "抖音");
    assert_eq!(capture_platform("https://example.org/post"), "网页");
    assert_eq!(capture_platform("https://channels.weixin.qq.com/x"), "视频号");
}

#[test]
fn unknown_providers_fall_back_to_hackstart() {
    assert_eq!(provider_models("other"), vec!["gpt-5.5"]);
    assert_eq!(provider_label("other"), "HackStart");
    assert_eq!(provider_key_account("deepseek"), "deepseek-api-key");
    assert_eq!(provider_base_url("other"), "https://ip2.hackstart.org/v1/chat/completions");
}

#[test]
fn reference_keys_name_their_entities() {
    assert_eq!(expected_entity("goalId"), Some("goals"));
    assert_eq!(expected_entity("goalIds"), Some("goals"));
    assert_eq!(expected_entity("dependencyIds"), Some("tasks"));
    assert_eq!(expected_entity("sourceSignalId"), Some("signals"));
    assert_eq!(expected_entity("title"), None);
}

#[test]
fn required_fields_and_preview_labels() {
    assert_eq!(required_agent_fields("knowledge"), vec!["title", "content"]);
    assert_eq!(required_agent_fields("unknown"), Vec::<&str>::new());
    assert_eq!(preview_label("corePrinciple"), "核心原则");
    assert_eq!(preview_label("customKey"), "customKey");
}

#[test]
fn provider_and_model_settings() {
    assert_eq!(active_provider(Some("deepseek")), "deepseek");
    assert_eq!(active_provider(Some("unknown")), "hackstart");
    assert_eq!(active_provider(None), "hackstart");
    assert_eq!(selected_model("deepseek", None, None), "deepseek-v4-pro");
    assert_eq!(selected_model("deepseek", Some("deepseek-v4-flash"), None), "deepseek-v4-flash");
    assert_eq!(selected_model("hackstart", None, Some("legacy")), "legacy");
}
