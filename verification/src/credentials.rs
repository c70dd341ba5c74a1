//! Which API key is used, and what the settings screens accept.
use vstd::prelude::*;
use crate::text::{own, concat, trimmed, trim, is_blank, eq_str};
use crate::json::{JsonValue, Json, jstr, jint};
use crate::catalog::{provider_label, provider_label_of, is_provider, is_provider_name};

verus! {

/// A key is taken from the environment when it is set there and not blank,
/// else from the credential file when it is stored there and not blank.
pub open spec fn key_choice_of(env: Option<Seq<char>>, stored: Option<Seq<char>>) -> Option<Seq<char>> {
    match env {
        Some(e) if trimmed(e).len() > 0 => Some(e),
        _ => match stored {
            Some(s) if trimmed(s).len() > 0 => Some(s),
            _ => None,
        },
    }
}

pub open spec fn opt_str(v: Option<&str>) -> Option<Seq<char>> {
    match v {
        Some(s) => Some(s@),
        None => None,
    }
}

fn key_choice(env: Option<&str>, stored: Option<&str>) -> (r: Option<String>)
    ensures
        crate::records::opt_seq(r) == key_choice_of(opt_str(env), opt_str(stored)),
{
    match env {
        Some(e) => if !is_blank(e) {
            return Some(own(e));
        },
        None => {},
    }
    match stored {
        Some(s) => if !is_blank(s) {
            Some(own(s))
        } else {
            None
        },
        None => None,
    }
}

/// The key of an AI provider, or why there is none.
pub fn provider_key_choice(provider: &str, env: Option<&str>, stored: Option<&str>) -> (r: Result<String, String>)
    ensures
        match key_choice_of(opt_str(env), opt_str(stored)) {
            Some(k) => r matches Ok(x) && x@ == k,
            None => r matches Err(e) && e@ == "尚未配置 "@ + provider_label_of(provider@) + " API Key。请在设置中保存。"@,
        },
{
    match key_choice(env, stored) {
        Some(k) => Ok(k),
        None => {
            let a = concat("尚未配置 ", provider_label(provider));
            Err(concat(a.as_str(), " API Key。请在设置中保存。"))
        },
    }
}

/// The RedFox key, or why there is none.
pub fn redfox_key_choice(env: Option<&str>, stored: Option<&str>) -> (r: Result<String, String>)
    ensures
        match key_choice_of(opt_str(env), opt_str(stored)) {
            Some(k) => r matches Ok(x) && x@ == k,
            None => r matches Err(e) && e@ == "尚未配置 RedFox API Key"@,
        },
{
    match key_choice(env, stored) {
        Some(k) => Ok(k),
        None => Err(own("尚未配置 RedFox API Key")),
    }
}

/// Setting the capture provider's key: only RedFox is offered; a key typed in
/// is stored trimmed, and without one a key must already be there.
pub open spec fn capture_key_update_of(provider: Seq<char>, api_key: Seq<char>, has_key: bool) -> Result<
    Option<Seq<char>>,
    Seq<char>,
> {
    if provider != "redfox"@ {
        Err("当前只支持配置 RedFoxHub"@)
    } else if trimmed(api_key).len() > 0 {
        Ok(Some(trimmed(api_key)))
    } else if !has_key {
        Err("请输入 RedFox API Key"@)
    } else {
        Ok(None)
    }
}

pub fn capture_key_update(provider: &str, api_key: &str, has_key: bool) -> (r: Result<Option<String>, String>)
    ensures
        match r {
            Ok(k) => capture_key_update_of(provider@, api_key@, has_key) == Ok::<Option<Seq<char>>, Seq<char>>(
                crate::records::opt_seq(k),
            ),
            Err(e) => capture_key_update_of(provider@, api_key@, has_key) == Err::<Option<Seq<char>>, Seq<char>>(
                e@,
            ),
        },
{
    if !eq_str(provider, "redfox") {
        Err(own("当前只支持配置 RedFoxHub"))
    } else if !is_blank(api_key) {
        Ok(Some(trim(api_key)))
    } else if !has_key {
        Err(own("请输入 RedFox API Key"))
    } else {
        Ok(None)
    }
}

/// Only RedFox can be tried from the capture settings.
pub fn capture_test_provider(provider: &str) -> (r: Result<(), String>)
    ensures
        r is Ok <==> provider@ == "redfox"@,
        r matches Err(e) ==> e@ == "当前只支持测试 RedFoxHub"@,
{
    if eq_str(provider, "redfox") {
        Ok(())
    } else {
        Err(own("当前只支持测试 RedFoxHub"))
    }
}

/// What a successful try of the capture provider reports.
pub fn capture_test_reply(latency_ms: u64, content: JsonValue) -> (r: JsonValue)
    ensures
        crate::json::json_wf(content) ==> crate::json::json_wf(r),
        r@ == Json::Obj(
            Map::empty().insert("ok"@, Json::Bool(true)).insert("provider"@, jstr("redfox"@)).insert(
                "latencyMs"@,
                jint(latency_ms as int),
            ).insert("content"@, content@),
        ),
{
    let mut o = JsonValue::empty_object();
    o.insert("ok", JsonValue::Bool(true));
    o.insert("provider", JsonValue::text("redfox"));
    o.insert("latencyMs", JsonValue::Number(crate::json::JsonNumber::PosInt(latency_ms)));
    o.insert("content", content);
    o
}

/// The model an AI provider is tried with: the one asked for, else the one set.
pub fn test_model(provider: &str, model: &str, selected: &str) -> (r: Result<String, String>)
    ensures
        !is_provider_name(provider@) ==> (r matches Err(e) && e@ == "不支持的 AI 服务商"@),
        is_provider_name(provider@) ==> (r matches Ok(m) && m@ == if trimmed(model@).len() == 0 {
            selected@
        } else {
            model@
        }),
{
    if !is_provider(provider) {
        return Err(own("不支持的 AI 服务商"));
    }
    if is_blank(model) {
        Ok(own(selected))
    } else {
        Ok(own(model))
    }
}

/// The key an AI provider is configured with: the one typed in (trimmed), else the stored one.
pub fn candidate_key(api_key: &str, stored: Result<String, String>) -> (r: Result<String, String>)
    ensures
        trimmed(api_key@).len() > 0 ==> (r matches Ok(k) && k@ == trimmed(api_key@)),
        trimmed(api_key@).len() == 0 ==> r == stored,
{
    if !is_blank(api_key) {
        Ok(trim(api_key))
    } else {
        stored
    }
}

/// The answer of a connectivity test: the provider must have answered with text.
pub open spec fn verified_provider_of(provider: Seq<char>, model: Seq<char>, latency_ms: int, content: Seq<char>) -> Result<
    Json,
    Seq<char>,
> {
    if trimmed(content).len() == 0 {
        Err(provider_label_of(provider) + " 已响应但未返回文本"@)
    } else {
        Ok(
            Json::Obj(
                Map::empty().insert("ok"@, Json::Bool(true)).insert("provider"@, jstr(provider)).insert(
                    "model"@,
                    jstr(model),
                ).insert("latencyMs"@, jint(latency_ms)).insert("content"@, jstr(content)),
            ),
        )
    }
}

pub fn verified_provider(provider: &str, model: &str, latency_ms: u64, content: &str) -> (r: Result<JsonValue, String>)
    ensures
        r matches Ok(v) ==> crate::json::json_wf(v),
        crate::records::result_view(r) == verified_provider_of(provider@, model@, latency_ms as int, content@),
{
    if is_blank(content) {
        return Err(concat(provider_label(provider), " 已响应但未返回文本"));
    }
    let mut o = JsonValue::empty_object();
    o.insert("ok", JsonValue::Bool(true));
    o.insert("provider", JsonValue::text(provider));
    o.insert("model", JsonValue::text(model));
    o.insert("latencyMs", JsonValue::Number(crate::json::JsonNumber::PosInt(latency_ms)));
    o.insert("content", JsonValue::text(content));
    Ok(o)
}

} // verus!
