//! The capture providers as the library sees them: what a provider's reply
//! becomes (a capture, an account check or an error), and the order in which a
//! link is tried until something of it is kept.
use vstd::prelude::*;
use crate::text::{concat, own, lowercase_of, trimmed, is_blank};
use crate::json::{JsonValue, Json, jstr, jint};
use crate::capture::{
    http_error, http_error_of, social_item_of, text_in, tikhub_canonical, scrapecreators_canonical,
    tikhub_account, scrapecreators_account, apify_account, dataset_of, apify_dataset_id, first_item_of,
    apify_first_item, apify_canonical, apify_canonical_of, redfox_outcome, redfox_outcome_of,
    normalize_response, redfox_canonical_of, redfox_platform_of, platform_for_url, null_or, data_of,
};
use crate::json::field;

verus! {

/// A link captured through RedFox.
pub struct RedfoxCapture {
    pub canonical: JsonValue,
    pub raw: JsonValue,
    pub endpoint: String,
    pub status_code: u16,
}

/// A link captured through TikHub.
pub struct TikHubCapture {
    pub canonical: JsonValue,
    pub raw: JsonValue,
    pub endpoint: String,
    pub status_code: u16,
}

/// A link captured through Scrape Creators.
pub struct ScrapeCreatorsCapture {
    pub canonical: JsonValue,
    pub raw: JsonValue,
    pub endpoint: String,
    pub status_code: u16,
}

/// A page captured through Apify's website crawler.
pub struct ApifyCapture {
    pub canonical: JsonValue,
    pub raw: JsonValue,
    pub endpoint: String,
    pub status_code: u16,
}

// ---------------------------------------------------------------------------
// Replies.
/// A successful HTTP status.
pub open spec fn is_success(status: int) -> bool {
    200 <= status < 300
}

/// A provider's reply: refused unless its status is a success, and then it must
/// have been JSON (`parsed` holds the document, or why it was none).
pub open spec fn checked_reply_of(
    name: Seq<char>,
    limit: int,
    invalid: Seq<char>,
    status: int,
    body: Seq<char>,
    parsed: Result<JsonValue, String>,
) -> Result<JsonValue, Seq<char>> {
    if !is_success(status) {
        Err(http_error_of(name, status, body, limit))
    } else {
        match parsed {
            Ok(v) => Ok(v),
            Err(e) => Err(invalid + e@),
        }
    }
}

pub fn checked_reply(
    name: &str,
    limit: usize,
    invalid: &str,
    status: u16,
    body: &str,
    parsed: Result<JsonValue, String>,
) -> (r: Result<JsonValue, String>)
    ensures
        (parsed matches Ok(p) ==> crate::json::json_wf(p)) ==> (r matches Ok(v) ==> crate::json::json_wf(v)),
        match checked_reply_of(name@, limit as int, invalid@, status as int, body@, parsed) {
            Ok(v) => r == Ok::<JsonValue, String>(v),
            Err(m) => r matches Err(e) && e@ == m,
        },
{
    if !(200 <= status && status < 300) {
        return Err(http_error(name, status, body, limit));
    }
    match parsed {
        Ok(v) => Ok(v),
        Err(e) => Err(concat(invalid, e.as_str())),
    }
}

// ---------------------------------------------------------------------------
// RedFox.
/// The canonical item RedFox's reply for `url` becomes.
pub open spec fn redfox_item_of(url: Seq<char>, endpoint: Seq<char>, raw: JsonValue) -> Json {
    redfox_canonical_of(
        match redfox_platform_of(lowercase_of(url)) {
            Some(p) => p,
            None => "web"@,
        },
        url,
        endpoint,
        raw,
    )
}

/// RedFox's reply to a capture of `url` at `endpoint`: the reply must be JSON,
/// its status a success and its own code 0 or 200.
pub fn redfox_capture(url: &str, endpoint: &str, status_code: u16, parsed: Result<JsonValue, String>) -> (r:
    Result<RedfoxCapture, String>)
    ensures
        match parsed {
            Err(e) => r matches Err(m) && m@ == "RedFox 返回内容无法解析："@ + e@,
            Ok(raw) => match redfox_outcome_of(status_code as int, raw) {
                Err(m) => r matches Err(x) && x@ == m,
                Ok(()) => r matches Ok(c) && c.raw == raw && c.canonical@ == redfox_item_of(
                    url@,
                    endpoint@,
                    raw,
                ) && c.endpoint@ == endpoint@ && c.status_code == status_code,
            },
        },
{
    let raw = match parsed {
        Ok(v) => v,
        Err(e) => {
            return Err(concat("RedFox 返回内容无法解析：", e.as_str()));
        },
    };
    match redfox_outcome(status_code, &raw) {
        Err(e) => Err(e),
        Ok(()) => {
            let canonical = normalize_response(url, endpoint, &raw);
            Ok(RedfoxCapture { canonical, raw, endpoint: own(endpoint), status_code })
        },
    }
}

// ---------------------------------------------------------------------------
// TikHub and Scrape Creators.
/// TikHub's address.
pub open spec fn tikhub_base() -> Seq<char> {
    "https://api.tikhub.io"@
}

/// Scrape Creators' address.
pub open spec fn scrapecreators_base() -> Seq<char> {
    "https://api.scrapecreators.com"@
}

/// The TikHub endpoint of an API path.
pub fn tikhub_endpoint(path: &str) -> (r: String)
    ensures
        r@ == tikhub_base() + path@,
{
    proof {
        reveal_strlit("https://api.tikhub.io");
    }
    concat("https://api.tikhub.io", path)
}

/// The Scrape Creators endpoint of an API path.
pub fn scrapecreators_endpoint(path: &str) -> (r: String)
    ensures
        r@ == scrapecreators_base() + path@,
{
    proof {
        reveal_strlit("https://api.scrapecreators.com");
    }
    concat("https://api.scrapecreators.com", path)
}

/// TikHub's reply to a capture of `url` through `path`.
pub fn tikhub_capture(url: &str, path: &str, status_code: u16, body: &str, parsed: Result<JsonValue, String>) -> (r:
    Result<TikHubCapture, String>)
    ensures
        match checked_reply_of(
            "TikHub"@,
            500,
            "TikHub 响应不是有效 JSON："@,
            status_code as int,
            body@,
            parsed,
        ) {
            Err(m) => r matches Err(x) && x@ == m,
            Ok(raw) => r matches Ok(c) && c.raw == raw && c.canonical@ == social_item_of(
                url@,
                text_in(raw, seq!["title"@, "desc"@, "description"@, "nickname"@]),
                text_in(raw, seq!["content"@, "desc"@, "description"@, "text"@]),
                "tikhub"@,
                path@,
            ) && c.endpoint@ == tikhub_base() + path@ && c.status_code == status_code,
        },
{
    let raw = match checked_reply("TikHub", 500, "TikHub 响应不是有效 JSON：", status_code, body, parsed) {
        Ok(v) => v,
        Err(e) => {
            return Err(e);
        },
    };
    let canonical = tikhub_canonical(url, path, &raw);
    Ok(TikHubCapture { canonical, raw, endpoint: tikhub_endpoint(path), status_code })
}

/// TikHub's answer to the account check.
pub fn tikhub_token_reply(status_code: u16, body: &str, parsed: Result<JsonValue, String>) -> (r: Result<
    JsonValue,
    String,
>)
    ensures
        (parsed matches Ok(p) ==> crate::json::json_wf(p)) ==> (r matches Ok(v) ==> crate::json::json_wf(v)),
        match checked_reply_of(
            "TikHub"@,
            500,
            "TikHub 响应不是有效 JSON："@,
            status_code as int,
            body@,
            parsed,
        ) {
            Err(m) => r matches Err(x) && x@ == m,
            Ok(v) => r matches Ok(a) && a@ == Json::Obj(
                Map::empty().insert("username"@, jstr(text_in(v, seq!["username"@, "email"@]))).insert(
                    "status"@,
                    jstr("ok"@),
                ),
            ),
        },
{
    match checked_reply("TikHub", 500, "TikHub 响应不是有效 JSON：", status_code, body, parsed) {
        Ok(v) => Ok(tikhub_account(&v)),
        Err(e) => Err(e),
    }
}

/// The Scrape Creators path for a link, or why the link is not served.
pub fn scrapecreators_path(url: &str) -> (r: Result<&'static str, String>)
    ensures
        match crate::capture::endpoint_of(lowercase_of(url@)) {
            Some(p) => r matches Ok(x) && x@ == p,
            None => r matches Err(e) && e@ == "Scrape Creators 当前未配置该平台的单条链接接口"@,
        },
{
    match crate::capture::endpoint(url) {
        Some(p) => Ok(p),
        None => Err(own("Scrape Creators 当前未配置该平台的单条链接接口")),
    }
}

/// Scrape Creators' reply to a capture of `url` through `path`.
pub fn scrapecreators_capture(
    url: &str,
    path: &str,
    status_code: u16,
    body: &str,
    parsed: Result<JsonValue, String>,
) -> (r: Result<ScrapeCreatorsCapture, String>)
    ensures
        match checked_reply_of(
            "Scrape Creators"@,
            500,
            "Scrape Creators 响应不是有效 JSON："@,
            status_code as int,
            body@,
            parsed,
        ) {
            Err(m) => r matches Err(x) && x@ == m,
            Ok(raw) => r matches Ok(c) && c.raw == raw && c.canonical@ == social_item_of(
                url@,
                text_in(raw, seq!["title"@, "name"@, "caption"@]),
                text_in(raw, seq!["description"@, "text"@, "caption"@, "transcript"@]),
                "scrapecreators"@,
                path@,
            ) && c.endpoint@ == scrapecreators_base() + path@ && c.status_code == status_code,
        },
{
    let raw = match checked_reply(
        "Scrape Creators",
        500,
        "Scrape Creators 响应不是有效 JSON：",
        status_code,
        body,
        parsed,
    ) {
        Ok(v) => v,
        Err(e) => {
            return Err(e);
        },
    };
    let canonical = scrapecreators_canonical(url, path, &raw);
    Ok(ScrapeCreatorsCapture { canonical, raw, endpoint: scrapecreators_endpoint(path), status_code })
}

/// Scrape Creators' answer to the credit check.
pub fn scrapecreators_token_reply(status_code: u16, body: &str, parsed: Result<JsonValue, String>) -> (r:
    Result<JsonValue, String>)
    ensures
        (parsed matches Ok(p) ==> crate::json::json_wf(p)) ==> (r matches Ok(v) ==> crate::json::json_wf(v)),
        match checked_reply_of(
            "Scrape Creators"@,
            500,
            "Scrape Creators 响应不是有效 JSON："@,
            status_code as int,
            body@,
            parsed,
        ) {
            Err(m) => r matches Err(x) && x@ == m,
            Ok(v) => r matches Ok(a) && a@ == Json::Obj(
                Map::empty().insert("creditCount"@, null_or(field(v@, "creditCount"@))).insert(
                    "success"@,
                    Json::Bool(true),
                ),
            ),
        },
{
    match checked_reply(
        "Scrape Creators",
        500,
        "Scrape Creators 响应不是有效 JSON：",
        status_code,
        body,
        parsed,
    ) {
        Ok(v) => Ok(scrapecreators_account(&v)),
        Err(e) => Err(e),
    }
}

// ---------------------------------------------------------------------------
// Apify.
/// Where an Apify crawl of one page is started.
pub open spec fn apify_run_endpoint_of() -> Seq<char> {
    "https://api.apify.com/v2/acts/apify~website-content-crawler/runs?waitForFinish=60"@
}

pub fn apify_run_endpoint() -> (r: String)
    ensures
        r@ == apify_run_endpoint_of(),
{
    own("https://api.apify.com/v2/acts/apify~website-content-crawler/runs?waitForFinish=60")
}

/// Where the first item of a dataset is read.
pub open spec fn apify_dataset_endpoint_of(dataset_id: Seq<char>) -> Seq<char> {
    "https://api.apify.com/v2/datasets/"@ + dataset_id + "/items?clean=true&format=json&limit=1"@
}

pub fn apify_dataset_endpoint(dataset_id: &str) -> (r: String)
    ensures
        r@ == apify_dataset_endpoint_of(dataset_id@),
{
    let a = concat("https://api.apify.com/v2/datasets/", dataset_id);
    concat(a.as_str(), "/items?clean=true&format=json&limit=1")
}

/// What starts a crawl of `url`: a public link, crawled one page deep.
pub open spec fn apify_request_of(url: Seq<char>) -> Result<Json, Seq<char>> {
    if trimmed(url).len() == 0 {
        Err("Apify 采集需要公开链接"@)
    } else {
        Ok(
            Json::Obj(
                Map::empty().insert(
                    "startUrls"@,
                    Json::Arr(seq![Json::Obj(Map::empty().insert("url"@, jstr(url)))]),
                ).insert("maxCrawlPages"@, jint(1)).insert("maxCrawlDepth"@, jint(0)).insert(
                    "saveMarkdown"@,
                    Json::Bool(true),
                ),
            ),
        )
    }
}

pub fn apify_request(url: &str) -> (r: Result<JsonValue, String>)
    ensures
        r matches Ok(v) ==> crate::json::json_wf(v),
        crate::records::result_view(r) == apify_request_of(url@),
{
    if is_blank(url) {
        return Err(own("Apify 采集需要公开链接"));
    }
    let mut start = JsonValue::empty_object();
    start.insert("url", JsonValue::text(url));
    let ghost sv = start;
    let urls = vec![start];
    proof {
        crate::json::lemma_items_single(sv);
        assert(urls@ =~= seq![sv]);
        crate::json::lemma_items_wf(urls@);
        assert(urls@[0] == sv);
    }
    let mut body = JsonValue::empty_object();
    body.insert("startUrls", JsonValue::Array(urls));
    body.insert("maxCrawlPages", JsonValue::from_i64(1));
    body.insert("maxCrawlDepth", JsonValue::from_i64(0));
    body.insert("saveMarkdown", JsonValue::Bool(true));
    Ok(body)
}

/// Apify's reply to starting a crawl: the run, and the dataset it wrote.
pub fn apify_run(status_code: u16, body: &str, parsed: Result<JsonValue, String>) -> (r: Result<
    (JsonValue, String),
    String,
>)
    ensures
        (parsed matches Ok(p) ==> crate::json::json_wf(p)) ==> (r matches Ok(v) ==> crate::json::json_wf(v.0)),
        match checked_reply_of(
            "Apify"@,
            300,
            "Apify Actor 响应不是有效 JSON："@,
            status_code as int,
            body@,
            parsed,
        ) {
            Err(m) => r matches Err(x) && x@ == m,
            Ok(run) => match dataset_of(run@) {
                Err(m) => r matches Err(x) && x@ == m,
                Ok(id) => r matches Ok((v, d)) && v == run && d@ == id,
            },
        },
{
    let run = match checked_reply("Apify", 300, "Apify Actor 响应不是有效 JSON：", status_code, body, parsed) {
        Ok(v) => v,
        Err(e) => {
            return Err(e);
        },
    };
    match apify_dataset_id(&run) {
        Ok(id) => Ok((run, id)),
        Err(e) => Err(e),
    }
}

/// The first element of a dataset as it came (`null` when there is none).
pub open spec fn first_raw(items: JsonValue) -> JsonValue {
    match items {
        JsonValue::Array(a) => if a.len() > 0 {
            a[0]
        } else {
            JsonValue::Null
        },
        _ => JsonValue::Null,
    }
}

/// Apify's capture of `url`: the run that wrote `dataset_id`, and the reply to
/// reading that dataset, whose first item must hold something.
pub fn apify_capture(
    url: &str,
    run_status_code: u16,
    run: JsonValue,
    dataset_id: &str,
    status_code: u16,
    body: &str,
    parsed: Result<JsonValue, String>,
) -> (r: Result<ApifyCapture, String>)
    ensures
        match checked_reply_of(
            "Apify"@,
            300,
            "Apify Dataset 响应不是有效 JSON："@,
            status_code as int,
            body@,
            parsed,
        ) {
            Err(m) => r matches Err(x) && x@ == m,
            Ok(items) => match first_item_of(items@) {
                Err(m) => r matches Err(x) && x@ == m,
                Ok(_) => r matches Ok(c) && c.canonical@ == apify_canonical_of(
                    url@,
                    first_raw(items),
                    dataset_id@,
                ) && c.raw@ == Json::Obj(Map::empty().insert("run"@, run@).insert("items"@, items@))
                    && c.endpoint@ == apify_run_endpoint_of() && c.status_code == run_status_code,
            },
        },
{
    let items = match checked_reply(
        "Apify",
        300,
        "Apify Dataset 响应不是有效 JSON：",
        status_code,
        body,
        parsed,
    ) {
        Ok(v) => v,
        Err(e) => {
            return Err(e);
        },
    };
    match apify_first_item(&items) {
        Err(e) => {
            return Err(e);
        },
        Ok(_) => {},
    }
    let canonical = match &items {
        JsonValue::Array(a) => {
            if a.len() > 0 {
                apify_canonical(url, &a[0], dataset_id)
            } else {
                apify_canonical(url, &JsonValue::Null, dataset_id)
            }
        },
        _ => apify_canonical(url, &JsonValue::Null, dataset_id),
    };
    let mut raw = JsonValue::empty_object();
    raw.insert("run", run);
    raw.insert("items", items);
    Ok(ApifyCapture { canonical, raw, endpoint: apify_run_endpoint(), status_code: run_status_code })
}

/// Apify's answer to the account check, with the measured latency.
pub fn apify_token_reply(status_code: u16, body: &str, parsed: Result<JsonValue, String>, latency_ms: u64) -> (r:
    Result<JsonValue, String>)
    ensures
        (parsed matches Ok(p) ==> crate::json::json_wf(p)) ==> (r matches Ok(v) ==> crate::json::json_wf(v)),
        match checked_reply_of(
            "Apify"@,
            300,
            "Apify 响应不是有效 JSON："@,
            status_code as int,
            body@,
            parsed,
        ) {
            Err(m) => r matches Err(x) && x@ == m,
            Ok(v) => r matches Ok(a) && a@ == Json::Obj(
                Map::empty().insert("id"@, null_or(field(data_of(v@), "id"@))).insert(
                    "username"@,
                    null_or(field(data_of(v@), "username"@)),
                ).insert("latencyMs"@, jint(latency_ms as int)),
            ),
        },
{
    match checked_reply("Apify", 300, "Apify 响应不是有效 JSON：", status_code, body, parsed) {
        Ok(v) => Ok(apify_account(&v, latency_ms)),
        Err(e) => Err(e),
    }
}

// ---------------------------------------------------------------------------
// The order in which a link is tried.
/// Where a capture stands: the source tried next. RedFox comes first where it
/// serves the link and a key is set; then the local downloaders, the page's own
/// metadata, and at last the bare link.
#[derive(PartialEq, Eq, Structural, Debug, Clone, Copy)]
pub enum CaptureStep {
    Redfox,
    YtDlp,
    GalleryDl,
    OpenGraph,
    LinkOnly,
}

/// How many sources are left to try after this one.
pub open spec fn steps_left(s: CaptureStep) -> nat {
    match s {
        CaptureStep::Redfox => 4,
        CaptureStep::YtDlp => 3,
        CaptureStep::GalleryDl => 2,
        CaptureStep::OpenGraph => 1,
        CaptureStep::LinkOnly => 0,
    }
}

/// The source tried after `s` failed.
pub open spec fn next_step_of(s: CaptureStep) -> CaptureStep {
    match s {
        CaptureStep::Redfox => CaptureStep::YtDlp,
        CaptureStep::YtDlp => CaptureStep::GalleryDl,
        CaptureStep::GalleryDl => CaptureStep::OpenGraph,
        CaptureStep::OpenGraph => CaptureStep::LinkOnly,
        CaptureStep::LinkOnly => CaptureStep::LinkOnly,
    }
}

/// The capture method a source is recorded under.
pub open spec fn method_of(s: CaptureStep) -> Seq<char> {
    match s {
        CaptureStep::Redfox => "redfox"@,
        CaptureStep::YtDlp => "yt-dlp"@,
        CaptureStep::GalleryDl => "gallery-dl"@,
        CaptureStep::OpenGraph => "open-graph"@,
        CaptureStep::LinkOnly => "link-only"@,
    }
}

/// The name a source's failure is reported under.
pub open spec fn failure_label_of(s: CaptureStep) -> Seq<char> {
    match s {
        CaptureStep::Redfox => "RedFox"@,
        CaptureStep::YtDlp => "yt-dlp"@,
        CaptureStep::GalleryDl => "gallery-dl"@,
        CaptureStep::OpenGraph => "网页读取"@,
        CaptureStep::LinkOnly => "link-only"@,
    }
}

/// The first source for `url`.
pub open spec fn first_step_of(url: Seq<char>, has_redfox_key: bool) -> CaptureStep {
    if redfox_platform_of(lowercase_of(url)) is Some && has_redfox_key {
        CaptureStep::Redfox
    } else {
        CaptureStep::YtDlp
    }
}

pub fn first_capture_step(url: &str, has_redfox_key: bool) -> (r: CaptureStep)
    ensures
        r == first_step_of(url@, has_redfox_key),
{
    if platform_for_url(url).is_some() && has_redfox_key {
        CaptureStep::Redfox
    } else {
        CaptureStep::YtDlp
    }
}

/// The method a capture by `step` is recorded under.
pub fn capture_method(step: CaptureStep) -> (r: &'static str)
    ensures
        r@ == method_of(step),
{
    match step {
        CaptureStep::Redfox => "redfox",
        CaptureStep::YtDlp => "yt-dlp",
        CaptureStep::GalleryDl => "gallery-dl",
        CaptureStep::OpenGraph => "open-graph",
        CaptureStep::LinkOnly => "link-only",
    }
}

/// `step` failed with `error`: the failure is noted and the next source is
/// returned. Each failure brings the capture one source closer to the bare link,
/// which always succeeds, so a capture ends after at most four failures.
pub fn capture_failed(step: CaptureStep, error: &str, errors: &mut Vec<String>) -> (r: CaptureStep)
    requires
        step != CaptureStep::LinkOnly,
    ensures
        r == next_step_of(step),
        steps_left(r) < steps_left(step),
        final(errors)@.len() == old(errors)@.len() + 1,
        forall|i: int| 0 <= i < old(errors)@.len() ==> final(errors)@[i] == old(errors)@[i],
        final(errors)@[old(errors)@.len() as int]@ == failure_label_of(step) + ": "@ + error@,
{
    let label = match step {
        CaptureStep::Redfox => "RedFox",
        CaptureStep::YtDlp => "yt-dlp",
        CaptureStep::GalleryDl => "gallery-dl",
        CaptureStep::OpenGraph => "网页读取",
        CaptureStep::LinkOnly => "link-only",
    };
    let head = concat(label, ": ");
    errors.push(concat(head.as_str(), error));
    match step {
        CaptureStep::Redfox => CaptureStep::YtDlp,
        CaptureStep::YtDlp => CaptureStep::GalleryDl,
        CaptureStep::GalleryDl => CaptureStep::OpenGraph,
        _ => CaptureStep::LinkOnly,
    }
}

/// Every capture ends: from any source, at most `steps_left` failures lead to
/// the bare link.
pub proof fn lemma_capture_ends(s: CaptureStep)
    ensures
        steps_left(s) <= 4,
        steps_left(s) == 0 <==> s == CaptureStep::LinkOnly,
        s != CaptureStep::LinkOnly ==> steps_left(next_step_of(s)) + 1 == steps_left(s),
{
}

} // verus!
