//! Capturing a link through a content provider: which provider endpoint a link
//! goes to, how the identifier is cut out of the link, and how a provider's
//! response becomes one canonical item.
use vstd::prelude::*;
use crate::text::{
    eq_str, concat, chars_of, string_of_range, trim_chars, trimmed, find, find_chars, before_any,
    before_any_end, lowercase, lowercase_of, contains, contains_str, starts_with, starts_with_str,
    int_dec, i128_to_string, u64_to_string, parse_i64, parse_i64_str, is_blank, own,
};
use crate::json::{
    JsonValue, JsonNumber, Json, Num, num_view, json_view, field, field_str, with, jstr, jint, empty_obj,
    is_obj, opt_view, as_i64,
};

verus! {

// ---------------------------------------------------------------------------
// Searching a provider response.
/// `Value` as text: non-blank text trimmed, or a number written out.
pub open spec fn value_text(j: Json) -> Option<Seq<char>> {
    match j {
        Json::Str(s) => if trimmed(s).len() > 0 {
            Some(trimmed(s))
        } else {
            None
        },
        Json::Num(Num::Int(v)) => Some(int_dec(v)),
        Json::Num(Num::Float(s)) => Some(s),
        _ => None,
    }
}

/// The first of `keys` that the object holds with a value other than `null`.
pub open spec fn key_hit(j: Json, keys: Seq<Seq<char>>) -> Option<Json>
    decreases keys.len(),
{
    if keys.len() == 0 {
        None
    } else {
        match field(j, keys[0]) {
            Some(x) => if x is Null {
                key_hit(j, keys.drop_first())
            } else {
                Some(x)
            },
            None => key_hit(j, keys.drop_first()),
        }
    }
}

/// Depth-first search for the first value under one of `keys`: an object's own
/// keys first, then its members in order; an array's items in order.
pub open spec fn find_in(v: JsonValue, keys: Seq<Seq<char>>) -> Option<Json>
    decreases v,
{
    match v {
        JsonValue::Object(m) => match key_hit(json_view(v), keys) {
            Some(x) => Some(x),
            None => find_in_members(m@, keys),
        },
        JsonValue::Array(a) => find_in_items(a@, keys),
        _ => None,
    }
}

pub open spec fn find_in_members(m: Seq<(String, JsonValue)>, keys: Seq<Seq<char>>) -> Option<Json>
    decreases m,
{
    if m.len() == 0 {
        None
    } else {
        match find_in(m[0].1, keys) {
            Some(x) => Some(x),
            None => find_in_members(m.drop_first(), keys),
        }
    }
}

pub open spec fn find_in_items(a: Seq<JsonValue>, keys: Seq<Seq<char>>) -> Option<Json>
    decreases a,
{
    if a.len() == 0 {
        None
    } else {
        match find_in(a[0], keys) {
            Some(x) => Some(x),
            None => find_in_items(a.drop_first(), keys),
        }
    }
}

/// `find_text`: the text of the first value found, or empty text.
pub open spec fn find_text_of(v: JsonValue, keys: Seq<Seq<char>>) -> Seq<char> {
    match find_in(v, keys) {
        Some(x) => match value_text(x) {
            Some(t) => t,
            None => Seq::empty(),
        },
        None => Seq::empty(),
    }
}

pub open spec fn remove_commas(s: Seq<char>) -> Seq<char> {
    crate::finance::remove_commas(s)
}

/// `find_i64`: the first value found as a 64-bit integer (text may hold thousands
/// separators), or zero.
pub open spec fn find_i64_of(v: JsonValue, keys: Seq<Seq<char>>) -> int {
    match find_in(v, keys) {
        Some(Json::Num(Num::Int(n))) => if i64::MIN <= n <= i64::MAX {
            n
        } else {
            0
        },
        Some(Json::Str(s)) => match parse_i64(remove_commas(s)) {
            Some(n) => n,
            None => 0,
        },
        _ => 0,
    }
}

pub open spec fn keys_view(keys: Seq<&str>) -> Seq<Seq<char>> {
    keys.map_values(|k: &str| k@)
}

fn key_hit_exec(v: &JsonValue, keys: &[&str]) -> (r: Option<JsonValue>)
    ensures
        match r {
            Some(x) => key_hit(v@, keys_view(keys@)) == Some(x@),
            None => key_hit(v@, keys_view(keys@)) is None,
        },
        crate::json::json_wf(*v) ==> (r matches Some(x) ==> crate::json::json_wf(x)),
{
    let mut i: usize = 0;
    assert(keys_view(keys@).skip(0) =~= keys_view(keys@));
    while i < keys.len()
        invariant
            i <= keys@.len(),
            key_hit(v@, keys_view(keys@)) == key_hit(v@, keys_view(keys@).skip(i as int)),
        decreases keys.len() - i,
    {
        proof {
            assert(keys_view(keys@).skip(i as int).drop_first() =~= keys_view(keys@).skip(i + 1));
            assert(keys_view(keys@).skip(i as int)[0] == keys@[i as int]@);
        }
        match v.get(keys[i]) {
            Some(x) => {
                if !x.is_null() {
                    return Some(x.duplicate());
                }
            },
            None => {},
        }
        i = i + 1;
    }
    proof {
        assert(keys_view(keys@).skip(i as int).len() == 0);
    }
    None
}

/// The first value found under one of `keys`, searching depth first.
pub fn find_value(v: &JsonValue, keys: &[&str]) -> (r: Option<JsonValue>)
    ensures
        crate::json::json_wf(*v) ==> (r matches Some(x) ==> crate::json::json_wf(x)),
        match r {
            Some(x) => find_in(*v, keys_view(keys@)) == Some(x@),
            None => find_in(*v, keys_view(keys@)) is None,
        },
    decreases v,
{
    match v {
        JsonValue::Object(m) => {
            match key_hit_exec(v, keys) {
                Some(x) => {
                    return Some(x);
                },
                None => {},
            }
            proof {
                crate::json::lemma_members_wf(m@);
            }
            let mut i: usize = 0;
            assert(m@.skip(0) =~= m@);
            while i < m.len()
                invariant
                    i <= m@.len(),
                    *v == JsonValue::Object(*m),
                    key_hit(v@, keys_view(keys@)) is None,
                    crate::json::json_wf(*v) ==> forall|j: int| 0 <= j < m@.len() ==> crate::json::json_wf(#[trigger] m@[j].1),
                    find_in_members(m@, keys_view(keys@)) == find_in_members(m@.skip(i as int), keys_view(keys@)),
                decreases m.len() - i,
            {
                proof {
                    assert(decreases_to!(*v => (*v)->Object_0));
                    assert(decreases_to!((*v)->Object_0 => (*v)->Object_0@));
                    assert(decreases_to!((*v)->Object_0@ => (*v)->Object_0@[i as int]));
                    assert(decreases_to!((*v)->Object_0@[i as int] => (*v)->Object_0@[i as int].1));
                    assert(m@.skip(i as int).drop_first() =~= m@.skip(i + 1));
                    assert(m@.skip(i as int)[0] == m@[i as int]);
                }
                match find_value(&m[i].1, keys) {
                    Some(x) => {
                        return Some(x);
                    },
                    None => {},
                }
                i = i + 1;
            }
            assert(m@.skip(i as int).len() == 0);
            None
        },
        JsonValue::Array(a) => {
            proof {
                crate::json::lemma_items_wf(a@);
            }
            let mut i: usize = 0;
            assert(a@.skip(0) =~= a@);
            while i < a.len()
                invariant
                    i <= a@.len(),
                    *v == JsonValue::Array(*a),
                    crate::json::json_wf(*v) ==> forall|j: int| 0 <= j < a@.len() ==> crate::json::json_wf(#[trigger] a@[j]),
                    find_in_items(a@, keys_view(keys@)) == find_in_items(a@.skip(i as int), keys_view(keys@)),
                decreases a.len() - i,
            {
                proof {
                    assert(decreases_to!(*v => (*v)->Array_0));
                    assert(decreases_to!((*v)->Array_0 => (*v)->Array_0@));
                    assert(decreases_to!((*v)->Array_0@ => (*v)->Array_0@[i as int]));
                    assert(a@.skip(i as int).drop_first() =~= a@.skip(i + 1));
                    assert(a@.skip(i as int)[0] == a@[i as int]);
                }
                match find_value(&a[i], keys) {
                    Some(x) => {
                        return Some(x);
                    },
                    None => {},
                }
                i = i + 1;
            }
            assert(a@.skip(i as int).len() == 0);
            None
        },
        _ => None,
    }
}

/// `Value` as text.
pub fn text(v: &JsonValue) -> (r: Option<String>)
    ensures
        match r {
            Some(t) => value_text(v@) == Some(t@),
            None => value_text(v@) is None,
        },
{
    match v {
        JsonValue::Str(s) => {
            let t = crate::text::trim(s.as_str());
            if t.as_str().is_empty() {
                None
            } else {
                Some(t)
            }
        },
        JsonValue::Number(JsonNumber::PosInt(u)) => Some(u64_to_string(*u)),
        JsonValue::Number(JsonNumber::NegInt(i)) => Some(crate::text::i64_to_string(*i)),
        JsonValue::Number(JsonNumber::Float(s)) => Some(s.clone()),
        _ => None,
    }
}

/// The text of the first value found under one of `keys`, or empty text.
pub fn find_text(v: &JsonValue, keys: &[&str]) -> (r: String)
    ensures
        r@ == find_text_of(*v, keys_view(keys@)),
{
    match find_value(v, keys) {
        Some(x) => match text(&x) {
            Some(t) => t,
            None => String::new(),
        },
        None => String::new(),
    }
}

fn remove_commas_str(s: &str) -> (r: String)
    ensures
        r@ == remove_commas(s@),
{
    let cs = chars_of(s);
    let mut r = String::new();
    let mut i: usize = 0;
    while i < cs.len()
        invariant
            i <= cs@.len(),
            cs@ == s@,
            r@ == crate::finance::remove_commas(cs@.take(i as int)),
        decreases cs.len() - i,
    {
        proof {
            assert(cs@.take(i + 1).drop_last() =~= cs@.take(i as int));
            assert(cs@.take(i + 1).last() == cs@[i as int]);
        }
        if cs[i] != ',' {
            r.push(cs[i]);
        }
        i = i + 1;
    }
    assert(cs@.take(cs@.len() as int) =~= cs@);
    r
}

/// The first value found under one of `keys` as an integer, or zero.
pub fn find_i64(v: &JsonValue, keys: &[&str]) -> (r: i64)
    ensures
        r as int == find_i64_of(*v, keys_view(keys@)),
{
    match find_value(v, keys) {
        Some(x) => match &x {
            JsonValue::Number(_) => match x.as_i64() {
                Some(n) => n,
                None => 0,
            },
            JsonValue::Str(s) => {
                let cleaned = remove_commas_str(s.as_str());
                match parse_i64_str(cleaned.as_str()) {
                    Some(n) => n,
                    None => 0,
                }
            },
            _ => 0,
        },
        None => 0,
    }
}

// ---------------------------------------------------------------------------
// Cutting identifiers out of links.
/// The trimmed text after the first `marker`, up to `?`, `&`, `/` or `#`, when not empty.
pub open spec fn after_marker(url: Seq<char>, marker: Seq<char>) -> Option<Seq<char>> {
    match find(url, marker) {
        None => None,
        Some(i) => {
            let v = trimmed(before_any(url.skip(i + marker.len()), seq!['?', '&', '/', '#']));
            if v.len() > 0 {
                Some(v)
            } else {
                None
            }
        },
    }
}

/// `extract_between`: the identifier after the first marker that yields one, or empty text.
pub open spec fn extract_of(url: Seq<char>, markers: Seq<Seq<char>>) -> Seq<char>
    decreases markers.len(),
{
    if markers.len() == 0 {
        Seq::empty()
    } else {
        match after_marker(url, markers[0]) {
            Some(v) => v,
            None => extract_of(url, markers.drop_first()),
        }
    }
}

fn delims() -> (r: Vec<char>)
    ensures
        r@ == seq!['?', '&', '/', '#'],
{
    let r = vec!['?', '&', '/', '#'];
    assert(r@ =~= seq!['?', '&', '/', '#']);
    r
}

fn after_marker_exec(url: &str, marker: &str) -> (r: Option<String>)
    ensures
        match r {
            Some(v) => after_marker(url@, marker@) == Some(v@),
            None => after_marker(url@, marker@) is None,
        },
{
    let uc = chars_of(url);
    let mc = chars_of(marker);
    let ulen = uc.len();
    match find_chars(uc.as_slice(), mc.as_slice()) {
        None => None,
        Some(i) => {
            proof {
                assert(crate::text::occurs_at(uc@, mc@, i as int)) by {
                    lemma_find_occurs(uc@, mc@, 0, i as int);
                }
                assert(i + mc@.len() <= uc@.len());
            }
            let start = i + mc.len();
            let ds = delims();
            let end = before_any_end(uc.as_slice(), start, ds.as_slice());
            let seg = string_of_range(uc.as_slice(), start, end);
            let v = crate::text::trim(seg.as_str());
            proof {
                assert(uc@.subrange(start as int, uc@.len() as int) =~= url@.skip(i + marker@.len()));
            }
            if v.as_str().is_empty() {
                None
            } else {
                Some(v)
            }
        },
    }
}

pub proof fn lemma_find_occurs(s: Seq<char>, p: Seq<char>, i: int, j: int)
    requires
        crate::text::find_from(s, p, i) == Some(j),
    ensures
        crate::text::occurs_at(s, p, j),
        i <= j,
    decreases s.len() + 1 - i,
{
    if i < 0 || i + p.len() > s.len() {
    } else if crate::text::occurs_at(s, p, i) {
    } else {
        lemma_find_occurs(s, p, i + 1, j);
    }
}

/// The identifier after the first of `markers` that yields one, or empty text.
pub fn extract_between(url: &str, markers: &[&str]) -> (r: String)
    ensures
        r@ == extract_of(url@, keys_view(markers@)),
{
    let mut i: usize = 0;
    assert(keys_view(markers@).skip(0) =~= keys_view(markers@));
    while i < markers.len()
        invariant
            i <= markers@.len(),
            extract_of(url@, keys_view(markers@)) == extract_of(url@, keys_view(markers@).skip(i as int)),
        decreases markers.len() - i,
    {
        proof {
            assert(keys_view(markers@).skip(i as int).drop_first() =~= keys_view(markers@).skip(i + 1));
            assert(keys_view(markers@).skip(i as int)[0] == markers@[i as int]@);
        }
        match after_marker_exec(url, markers[i]) {
            Some(v) => {
                return v;
            },
            None => {},
        }
        i = i + 1;
    }
    String::new()
}

// ---------------------------------------------------------------------------
// RedFox.
/// `platform_for_url` on a lowercased link.
pub open spec fn redfox_platform_of(lower: Seq<char>) -> Option<Seq<char>> {
    if contains(lower, "mp.weixin.qq.com"@) {
        Some("wechat"@)
    } else if contains(lower, "douyin.com"@) {
        Some("douyin"@)
    } else if contains(lower, "xiaohongshu.com"@) || contains(lower, "xhslink.com"@) {
        Some("xiaohongshu"@)
    } else {
        None
    }
}

/// The RedFox platform of a link whose text is already lowercased.
pub fn platform_for_lower(lower: &str) -> (r: Option<&'static str>)
    ensures
        match r {
            Some(p) => redfox_platform_of(lower@) == Some(p@),
            None => redfox_platform_of(lower@) is None,
        },
{
    if contains_str(lower, "mp.weixin.qq.com") {
        Some("wechat")
    } else if contains_str(lower, "douyin.com") {
        Some("douyin")
    } else if contains_str(lower, "xiaohongshu.com") || contains_str(lower, "xhslink.com") {
        Some("xiaohongshu")
    } else {
        None
    }
}

/// The platform RedFox serves for a link: WeChat articles, Douyin and Xiaohongshu.
pub fn platform_for_url(url: &str) -> (r: Option<&'static str>)
    ensures
        match r {
            Some(p) => redfox_platform_of(lowercase_of(url@)) == Some(p@),
            None => redfox_platform_of(lowercase_of(url@)) is None,
        },
{
    let lower = lowercase(url);
    platform_for_lower(lower.as_str())
}

pub open spec fn work_request(id_key: Seq<char>, id: Seq<char>) -> Json {
    Json::Obj(Map::empty().insert(id_key, jstr(id)))
}

/// `request_for_url` for a link on `platform`: the endpoint and the request body.
pub open spec fn redfox_request_of(platform: Option<Seq<char>>, url: Seq<char>) -> Result<
    (Seq<char>, Json),
    Seq<char>,
> {
    if platform == Some("wechat"@) {
        Ok(("https://redfox.work/story/api/gzhData/queryArticleDetail"@, work_request("workUrl"@, url)))
    } else if platform == Some("douyin"@) {
        let id = extract_of(url, seq!["/video/"@, "modal_id="@]);
        if id.len() == 0 {
            Err("无法从抖音链接提取作品 ID，请使用作品完整链接"@)
        } else {
            Ok(("https://redfox.work/story/api/douyinData/queryWorkDetail"@, work_request("workId"@, id)))
        }
    } else if platform == Some("xiaohongshu"@) {
        let id = extract_of(url, seq!["/explore/"@, "/discovery/item/"@]);
        if id.len() == 0 {
            Err("无法从小红书链接提取笔记 ID，请使用笔记完整链接"@)
        } else {
            Ok(("https://redfox.work/story/api/xhsUser/queryWorkDetail"@, work_request("workId"@, id)))
        }
    } else {
        Err("RedFox 当前未配置该平台的单条内容接口"@)
    }
}

/// The identifier a link gives after the marker found at `i`: the text that
/// follows the marker, up to the first `?`, `&`, `/` or `#`, trimmed.
pub open spec fn id_after(url: Seq<char>, i: int, marker_len: int) -> Seq<char> {
    trimmed(before_any(url.skip(i + marker_len), seq!['?', '&', '/', '#']))
}

/// Whether the lowercased link names douyin.com and is not a WeChat article.
pub open spec fn is_douyin_link(url: Seq<char>) -> bool {
    contains(lowercase_of(url), "douyin.com"@) && !contains(lowercase_of(url), "mp.weixin.qq.com"@)
}

/// Whether `/video/` in the link gives no identifier (absent, or nothing after it).
pub open spec fn no_video_id(url: Seq<char>) -> bool {
    find(url, "/video/"@) is None || id_after(url, find(url, "/video/"@)->Some_0, 7).len() == 0
}

/// A Douyin link with an id after `/video/` asks RedFox's Douyin work endpoint
/// for that work.
pub proof fn lemma_douyin_video_request(url: Seq<char>, i: int)
    requires
        is_douyin_link(url),
        find(url, "/video/"@) == Some(i),
        id_after(url, i, 7).len() > 0,
    ensures
        redfox_request_of(redfox_platform_of(lowercase_of(url)), url) == Ok::<(Seq<char>, Json), Seq<char>>(
            (
                "https://redfox.work/story/api/douyinData/queryWorkDetail"@,
                Json::Obj(Map::empty().insert("workId"@, jstr(id_after(url, i, 7)))),
            ),
        ),
{
    reveal_strlit("/video/");
    reveal_strlit("modal_id=");
    reveal_strlit("douyin");
    reveal_strlit("wechat");
    assert("douyin"@ != "wechat"@) by {
        assert("douyin"@[0] != "wechat"@[0]);
    }
    assert(redfox_platform_of(lowercase_of(url)) == Some("douyin"@));
    assert("/video/"@.len() == 7 && "modal_id="@.len() == 9);
    let ms = seq!["/video/"@, "modal_id="@];
    assert(ms[0] == "/video/"@);
    assert(after_marker(url, "/video/"@) == Some(id_after(url, i, 7)));
    assert(extract_of(url, ms) == id_after(url, i, 7));
}

/// A Douyin link without an id after `/video/` but with one after `modal_id=`
/// asks RedFox's Douyin work endpoint for the work `modal_id=` names.
pub proof fn lemma_douyin_modal_request(url: Seq<char>, j: int)
    requires
        is_douyin_link(url),
        no_video_id(url),
        find(url, "modal_id="@) == Some(j),
        id_after(url, j, 9).len() > 0,
    ensures
        redfox_request_of(redfox_platform_of(lowercase_of(url)), url) == Ok::<(Seq<char>, Json), Seq<char>>(
            (
                "https://redfox.work/story/api/douyinData/queryWorkDetail"@,
                Json::Obj(Map::empty().insert("workId"@, jstr(id_after(url, j, 9)))),
            ),
        ),
{
    reveal_strlit("/video/");
    reveal_strlit("modal_id=");
    reveal_strlit("douyin");
    reveal_strlit("wechat");
    assert("douyin"@ != "wechat"@) by {
        assert("douyin"@[0] != "wechat"@[0]);
    }
    assert(redfox_platform_of(lowercase_of(url)) == Some("douyin"@));
    assert("/video/"@.len() == 7 && "modal_id="@.len() == 9);
    let ms = seq!["/video/"@, "modal_id="@];
    assert(ms[0] == "/video/"@ && ms.drop_first()[0] == "modal_id="@);
    assert(after_marker(url, "/video/"@) is None);
    assert(after_marker(url, "modal_id="@) == Some(id_after(url, j, 9)));
    assert(extract_of(url, ms.drop_first()) == id_after(url, j, 9));
    assert(extract_of(url, ms) == id_after(url, j, 9));
}

/// A Douyin link that gives no id after either marker is refused.
pub proof fn lemma_douyin_without_id(url: Seq<char>)
    requires
        is_douyin_link(url),
        no_video_id(url),
        find(url, "modal_id="@) is None || id_after(url, find(url, "modal_id="@)->Some_0, 9).len() == 0,
    ensures
        redfox_request_of(redfox_platform_of(lowercase_of(url)), url) == Err::<(Seq<char>, Json), Seq<char>>(
            "无法从抖音链接提取作品 ID，请使用作品完整链接"@,
        ),
{
    reveal_strlit("/video/");
    reveal_strlit("modal_id=");
    reveal_strlit("douyin");
    reveal_strlit("wechat");
    assert("douyin"@ != "wechat"@) by {
        assert("douyin"@[0] != "wechat"@[0]);
    }
    assert(redfox_platform_of(lowercase_of(url)) == Some("douyin"@));
    assert("/video/"@.len() == 7 && "modal_id="@.len() == 9);
    let ms = seq!["/video/"@, "modal_id="@];
    assert(ms[0] == "/video/"@ && ms.drop_first()[0] == "modal_id="@);
    assert(ms.drop_first().drop_first().len() == 0);
    assert(extract_of(url, ms.drop_first().drop_first()) == Seq::<char>::empty());
    assert(after_marker(url, "/video/"@) is None);
    assert(after_marker(url, "modal_id="@) is None);
    assert(extract_of(url, ms.drop_first()) == Seq::<char>::empty());
    assert(extract_of(url, ms).len() == 0);
}

/// A WeChat article link asks RedFox's article endpoint, with the link itself
/// as the body's `workUrl`.
pub proof fn lemma_wechat_request(url: Seq<char>)
    requires
        contains(lowercase_of(url), "mp.weixin.qq.com"@),
    ensures
        redfox_request_of(redfox_platform_of(lowercase_of(url)), url) == Ok::<(Seq<char>, Json), Seq<char>>(
            (
                "https://redfox.work/story/api/gzhData/queryArticleDetail"@,
                Json::Obj(Map::empty().insert("workUrl"@, jstr(url))),
            ),
        ),
{
}

/// Whether the lowercased link is a Xiaohongshu one (and neither a WeChat
/// article nor a Douyin link).
pub open spec fn is_xiaohongshu_link(url: Seq<char>) -> bool {
    &&& !contains(lowercase_of(url), "mp.weixin.qq.com"@)
    &&& !contains(lowercase_of(url), "douyin.com"@)
    &&& (contains(lowercase_of(url), "xiaohongshu.com"@) || contains(lowercase_of(url), "xhslink.com"@))
}

/// A Xiaohongshu link asks RedFox's note endpoint for the note it names: the
/// id after `/explore/` when that gives one, else the id after
/// `/discovery/item/`; with neither it is refused.
pub proof fn lemma_xiaohongshu_request(url: Seq<char>)
    requires
        is_xiaohongshu_link(url),
    ensures
        find(url, "/explore/"@) matches Some(i) && id_after(url, i, 9).len() > 0 ==> redfox_request_of(
            redfox_platform_of(lowercase_of(url)),
            url,
        ) == Ok::<(Seq<char>, Json), Seq<char>>(
            (
                "https://redfox.work/story/api/xhsUser/queryWorkDetail"@,
                Json::Obj(Map::empty().insert("workId"@, jstr(id_after(url, find(url, "/explore/"@)->Some_0, 9)))),
            ),
        ),
        (find(url, "/explore/"@) is None || id_after(url, find(url, "/explore/"@)->Some_0, 9).len() == 0) && find(
            url,
            "/discovery/item/"@,
        ) is Some && id_after(url, find(url, "/discovery/item/"@)->Some_0, 16).len() > 0 ==> redfox_request_of(
            redfox_platform_of(lowercase_of(url)),
            url,
        ) == Ok::<(Seq<char>, Json), Seq<char>>(
            (
                "https://redfox.work/story/api/xhsUser/queryWorkDetail"@,
                Json::Obj(
                    Map::empty().insert("workId"@, jstr(id_after(url, find(url, "/discovery/item/"@)->Some_0, 16))),
                ),
            ),
        ),
        (find(url, "/explore/"@) is None || id_after(url, find(url, "/explore/"@)->Some_0, 9).len() == 0) && (find(
            url,
            "/discovery/item/"@,
        ) is None || id_after(url, find(url, "/discovery/item/"@)->Some_0, 16).len() == 0) ==> redfox_request_of(
            redfox_platform_of(lowercase_of(url)),
            url,
        ) == Err::<(Seq<char>, Json), Seq<char>>("无法从小红书链接提取笔记 ID，请使用笔记完整链接"@),
{
    reveal_strlit("/explore/");
    reveal_strlit("/discovery/item/");
    reveal_strlit("xiaohongshu");
    reveal_strlit("douyin");
    reveal_strlit("wechat");
    assert("xiaohongshu"@.len() == 11 && "douyin"@.len() == 6 && "wechat"@.len() == 6);
    assert(redfox_platform_of(lowercase_of(url)) == Some("xiaohongshu"@));
    assert("/explore/"@.len() == 9 && "/discovery/item/"@.len() == 16);
    let ms = seq!["/explore/"@, "/discovery/item/"@];
    assert(ms[0] == "/explore/"@ && ms.drop_first()[0] == "/discovery/item/"@);
    assert(ms.drop_first().drop_first().len() == 0);
    assert(extract_of(url, ms.drop_first().drop_first()) == Seq::<char>::empty());
    if let Some(i) = find(url, "/explore/"@) {
        assert(after_marker(url, "/explore/"@) == (if id_after(url, i, 9).len() > 0 {
            Some(id_after(url, i, 9))
        } else {
            None::<Seq<char>>
        }));
    }
    if let Some(j) = find(url, "/discovery/item/"@) {
        assert(after_marker(url, "/discovery/item/"@) == (if id_after(url, j, 16).len() > 0 {
            Some(id_after(url, j, 16))
        } else {
            None::<Seq<char>>
        }));
    }
    assert(extract_of(url, ms.drop_first()) == match after_marker(url, "/discovery/item/"@) {
        Some(v) => v,
        None => Seq::<char>::empty(),
    });
    assert(extract_of(url, ms) == match after_marker(url, "/explore/"@) {
        Some(v) => v,
        None => extract_of(url, ms.drop_first()),
    });
}

/// A link on no RedFox platform is refused.
pub proof fn lemma_unknown_platform_request(url: Seq<char>)
    requires
        !contains(lowercase_of(url), "mp.weixin.qq.com"@),
        !contains(lowercase_of(url), "douyin.com"@),
        !contains(lowercase_of(url), "xiaohongshu.com"@),
        !contains(lowercase_of(url), "xhslink.com"@),
    ensures
        redfox_request_of(redfox_platform_of(lowercase_of(url)), url) == Err::<(Seq<char>, Json), Seq<char>>(
            "RedFox 当前未配置该平台的单条内容接口"@,
        ),
{
}

pub open spec fn request_view(r: Result<(&'static str, JsonValue), String>) -> Result<(Seq<char>, Json), Seq<char>> {
    match r {
        Ok((e, b)) => Ok((e@, b@)),
        Err(e) => Err(e@),
    }
}

fn work_request_value(id_key: &str, id: String) -> (r: JsonValue)
    ensures
        crate::json::json_wf(r),
        r@ == work_request(id_key@, id@),
{
    let mut o = JsonValue::empty_object();
    o.insert(id_key, JsonValue::from_string(id));
    o
}

/// The RedFox endpoint and request body for a link.
pub fn request_for_url(url: &str) -> (r: Result<(&'static str, JsonValue), String>)
    ensures
        r matches Ok(p) ==> crate::json::json_wf(p.1),
        request_view(r) == redfox_request_of(redfox_platform_of(lowercase_of(url@)), url@),
{
    match platform_for_url(url) {
        Some(p) => {
            if eq_str(p, "wechat") {
                Ok(("https://redfox.work/story/api/gzhData/queryArticleDetail", work_request_value("workUrl", own(url))))
            } else if eq_str(p, "douyin") {
                let ms = vec!["/video/", "modal_id="];
                assert(keys_view(ms@) =~= seq!["/video/"@, "modal_id="@]);
                let id = extract_between(url, ms.as_slice());
                if id.as_str().is_empty() {
                    Err(own("无法从抖音链接提取作品 ID，请使用作品完整链接"))
                } else {
                    Ok(("https://redfox.work/story/api/douyinData/queryWorkDetail", work_request_value("workId", id)))
                }
            } else if eq_str(p, "xiaohongshu") {
                let ms = vec!["/explore/", "/discovery/item/"];
                assert(keys_view(ms@) =~= seq!["/explore/"@, "/discovery/item/"@]);
                let id = extract_between(url, ms.as_slice());
                if id.as_str().is_empty() {
                    Err(own("无法从小红书链接提取笔记 ID，请使用笔记完整链接"))
                } else {
                    Ok(("https://redfox.work/story/api/xhsUser/queryWorkDetail", work_request_value("workId", id)))
                }
            } else {
                Err(own("RedFox 当前未配置该平台的单条内容接口"))
            }
        },
        None => Err(own("RedFox 当前未配置该平台的单条内容接口")),
    }
}

pub open spec fn platform_label_of(platform: Seq<char>) -> Seq<char> {
    if platform == "wechat"@ {
        "微信公众号"@
    } else if platform == "douyin"@ {
        "抖音"@
    } else if platform == "xiaohongshu"@ {
        "小红书"@
    } else {
        "网页"@
    }
}

pub open spec fn metrics_of(raw: JsonValue) -> Json {
    Json::Obj(
        Map::empty().insert(
            "views"@,
            jint(find_i64_of(raw, seq!["viewCount"@, "playCount"@, "views"@, "readCount"@])),
        ).insert("likes"@, jint(find_i64_of(raw, seq!["likeCount"@, "diggCount"@, "likes"@]))).insert(
            "comments"@,
            jint(find_i64_of(raw, seq!["commentCount"@, "comments"@])),
        ).insert("shares"@, jint(find_i64_of(raw, seq!["shareCount"@, "repostCount"@, "shares"@]))).insert(
            "saves"@,
            jint(find_i64_of(raw, seq!["collectCount"@, "favoriteCount"@, "saves"@])),
        ).insert("followers"@, jint(find_i64_of(raw, seq!["fansCount"@, "followerCount"@, "followers"@]))),
    )
}

/// `normalize_response`: a RedFox reply as one canonical item.
pub open spec fn redfox_canonical_of(platform: Seq<char>, url: Seq<char>, endpoint: Seq<char>, raw: JsonValue) -> Json {
    let title = find_text_of(raw, seq!["title"@, "workTitle"@, "noteTitle"@, "shareTitle"@]);
    let found_url = find_text_of(raw, seq!["workUrl"@, "url"@, "shareUrl"@, "webpageUrl"@]);
    let canonical_url = if starts_with(found_url, "http"@) {
        found_url
    } else {
        url
    };
    Json::Obj(
        Map::empty().insert("platform"@, jstr(platform_label_of(platform))).insert("platformCode"@, jstr(platform)).insert(
            "externalId"@,
            jstr(find_text_of(raw, seq!["workId"@, "noteId"@, "awemeId"@, "articleId"@, "id"@])),
        ).insert(
            "contentType"@,
            jstr(
                if platform == "wechat"@ {
                    "ARTICLE"@
                } else {
                    "VIDEO_POST"@
                },
            ),
        ).insert(
            "title"@,
            jstr(
                if title.len() == 0 {
                    canonical_url
                } else {
                    title
                },
            ),
        ).insert(
            "content"@,
            jstr(find_text_of(raw, seq!["content"@, "desc"@, "description"@, "noteText"@, "text"@])),
        ).insert(
            "author"@,
            jstr(find_text_of(raw, seq!["author"@, "authorName"@, "nickname"@, "nickName"@, "userName"@])),
        ).insert("authorId"@, jstr(find_text_of(raw, seq!["authorId"@, "userId"@, "secUid"@, "uid"@]))).insert(
            "publishedAt"@,
            jstr(find_text_of(raw, seq!["publishedAt"@, "publishTime"@, "createTime"@, "uploadTime"@])),
        ).insert("canonicalUrl"@, jstr(canonical_url)).insert(
            "coverUrl"@,
            jstr(find_text_of(raw, seq!["coverUrl"@, "cover"@, "thumbnail"@, "imageUrl"@])),
        ).insert("mediaUrls"@, Json::Arr(Seq::empty())).insert("metrics"@, metrics_of(raw)).insert(
            "provider"@,
            jstr("redfox"@),
        ).insert("providerEndpoint"@, jstr(endpoint)),
    )
}

fn text_field_value(raw: &JsonValue, keys: Vec<&str>) -> (r: JsonValue)
    ensures
        crate::json::json_wf(r),
        r@ == jstr(find_text_of(*raw, keys_view(keys@))),
{
    JsonValue::from_string(find_text(raw, keys.as_slice()))
}

fn int_field_value(raw: &JsonValue, keys: Vec<&str>) -> (r: JsonValue)
    ensures
        crate::json::json_wf(r),
        r@ == jint(find_i64_of(*raw, keys_view(keys@))),
{
    JsonValue::from_i64(find_i64(raw, keys.as_slice()))
}

fn metrics_value(raw: &JsonValue) -> (r: JsonValue)
    ensures
        crate::json::json_wf(r),
        r@ == metrics_of(*raw),
{
    let k1 = vec!["viewCount", "playCount", "views", "readCount"];
    assert(keys_view(k1@) =~= seq!["viewCount"@, "playCount"@, "views"@, "readCount"@]);
    let k2 = vec!["likeCount", "diggCount", "likes"];
    assert(keys_view(k2@) =~= seq!["likeCount"@, "diggCount"@, "likes"@]);
    let k3 = vec!["commentCount", "comments"];
    assert(keys_view(k3@) =~= seq!["commentCount"@, "comments"@]);
    let k4 = vec!["shareCount", "repostCount", "shares"];
    assert(keys_view(k4@) =~= seq!["shareCount"@, "repostCount"@, "shares"@]);
    let k5 = vec!["collectCount", "favoriteCount", "saves"];
    assert(keys_view(k5@) =~= seq!["collectCount"@, "favoriteCount"@, "saves"@]);
    let k6 = vec!["fansCount", "followerCount", "followers"];
    assert(keys_view(k6@) =~= seq!["fansCount"@, "followerCount"@, "followers"@]);
    let mut o = JsonValue::empty_object();
    o.insert("views", int_field_value(raw, k1));
    o.insert("likes", int_field_value(raw, k2));
    o.insert("comments", int_field_value(raw, k3));
    o.insert("shares", int_field_value(raw, k4));
    o.insert("saves", int_field_value(raw, k5));
    o.insert("followers", int_field_value(raw, k6));
    o
}

/// A RedFox reply as one canonical item, for a link on the RedFox `platform`.
pub fn redfox_canonical(platform: &str, url: &str, endpoint: &str, raw: &JsonValue) -> (r: JsonValue)
    ensures
        crate::json::json_wf(*raw) ==> crate::json::json_wf(r),
        r@ == redfox_canonical_of(platform@, url@, endpoint@, *raw),
{
    let label = if eq_str(platform, "wechat") {
        "微信公众号"
    } else if eq_str(platform, "douyin") {
        "抖音"
    } else if eq_str(platform, "xiaohongshu") {
        "小红书"
    } else {
        "网页"
    };
    let tk = vec!["title", "workTitle", "noteTitle", "shareTitle"];
    assert(keys_view(tk@) =~= seq!["title"@, "workTitle"@, "noteTitle"@, "shareTitle"@]);
    let title = find_text(raw, tk.as_slice());
    let uk = vec!["workUrl", "url", "shareUrl", "webpageUrl"];
    assert(keys_view(uk@) =~= seq!["workUrl"@, "url"@, "shareUrl"@, "webpageUrl"@]);
    let found_url = find_text(raw, uk.as_slice());
    let canonical_url = if starts_with_str(found_url.as_str(), "http") {
        found_url
    } else {
        own(url)
    };
    let ek = vec!["workId", "noteId", "awemeId", "articleId", "id"];
    assert(keys_view(ek@) =~= seq!["workId"@, "noteId"@, "awemeId"@, "articleId"@, "id"@]);
    let ck = vec!["content", "desc", "description", "noteText", "text"];
    assert(keys_view(ck@) =~= seq!["content"@, "desc"@, "description"@, "noteText"@, "text"@]);
    let ak = vec!["author", "authorName", "nickname", "nickName", "userName"];
    assert(keys_view(ak@) =~= seq!["author"@, "authorName"@, "nickname"@, "nickName"@, "userName"@]);
    let aik = vec!["authorId", "userId", "secUid", "uid"];
    assert(keys_view(aik@) =~= seq!["authorId"@, "userId"@, "secUid"@, "uid"@]);
    let pk = vec!["publishedAt", "publishTime", "createTime", "uploadTime"];
    assert(keys_view(pk@) =~= seq!["publishedAt"@, "publishTime"@, "createTime"@, "uploadTime"@]);
    let cvk = vec!["coverUrl", "cover", "thumbnail", "imageUrl"];
    assert(keys_view(cvk@) =~= seq!["coverUrl"@, "cover"@, "thumbnail"@, "imageUrl"@]);
    let mut o = JsonValue::empty_object();
    o.insert("platform", JsonValue::text(label));
    o.insert("platformCode", JsonValue::text(platform));
    o.insert("externalId", text_field_value(raw, ek));
    if eq_str(platform, "wechat") {
        o.insert("contentType", JsonValue::text("ARTICLE"));
    } else {
        o.insert("contentType", JsonValue::text("VIDEO_POST"));
    }
    if title.as_str().is_empty() {
        o.insert("title", JsonValue::text(canonical_url.as_str()));
    } else {
        o.insert("title", JsonValue::from_string(title));
    }
    o.insert("content", text_field_value(raw, ck));
    o.insert("author", text_field_value(raw, ak));
    o.insert("authorId", text_field_value(raw, aik));
    o.insert("publishedAt", text_field_value(raw, pk));
    o.insert("canonicalUrl", JsonValue::from_string(canonical_url));
    o.insert("coverUrl", text_field_value(raw, cvk));
    proof {
        crate::json::lemma_items_empty();
    }
    o.insert("mediaUrls", JsonValue::Array(Vec::new()));
    o.insert("metrics", metrics_value(raw));
    o.insert("provider", JsonValue::text("redfox"));
    o.insert("providerEndpoint", JsonValue::text(endpoint));
    o
}

/// `normalize_response`: a RedFox reply for `url` as one canonical item (a link
/// RedFox does not serve counts as a web page).
pub fn normalize_response(url: &str, endpoint: &str, raw: &JsonValue) -> (r: JsonValue)
    ensures
        crate::json::json_wf(*raw) ==> crate::json::json_wf(r),
        r@ == redfox_canonical_of(
            match redfox_platform_of(lowercase_of(url@)) {
                Some(p) => p,
                None => "web"@,
            },
            url@,
            endpoint@,
            *raw,
        ),
{
    let platform = match platform_for_url(url) {
        Some(p) => p,
        None => "web",
    };
    redfox_canonical(platform, url, endpoint, raw)
}

/// The code a RedFox reply carries (200 when it carries none).
pub open spec fn reply_code_of(raw: Json) -> int {
    match as_i64(field(raw, "code"@)) {
        Some(c) => c,
        None => 200,
    }
}

/// Whether a RedFox reply with HTTP `status` is a success, or the error to report.
pub open spec fn redfox_outcome_of(status: int, raw: JsonValue) -> Result<(), Seq<char>> {
    if !(200 <= status < 300) {
        Err("RedFox HTTP "@ + int_dec(status))
    } else if reply_code_of(raw@) != 0 && reply_code_of(raw@) != 200 {
        let m = find_text_of(raw, seq!["message"@, "msg"@, "error"@]);
        Err(
            "RedFox "@ + int_dec(reply_code_of(raw@)) + "："@ + if m.len() == 0 {
                "调用失败"@
            } else {
                m
            },
        )
    } else {
        Ok(())
    }
}

/// A RedFox reply is accepted exactly when its HTTP status is a success and its
/// own code is 0 or 200 (200 when it carries none).
pub proof fn lemma_redfox_reply_accepted(status: int, raw: JsonValue)
    ensures
        redfox_outcome_of(status, raw) is Ok <==> (200 <= status < 300 && (reply_code_of(raw@) == 0
            || reply_code_of(raw@) == 200)),
{
}

pub fn redfox_outcome(status: u16, raw: &JsonValue) -> (r: Result<(), String>)
    ensures
        match r {
            Ok(()) => redfox_outcome_of(status as int, *raw) == Ok::<(), Seq<char>>(()),
            Err(e) => redfox_outcome_of(status as int, *raw) == Err::<(), Seq<char>>(e@),
        },
{
    if !(200 <= status && status < 300) {
        let n = u64_to_string(status as u64);
        return Err(concat("RedFox HTTP ", n.as_str()));
    }
    let code: i64 = match raw.i64_of("code") {
        Some(c) => c,
        None => 200,
    };
    if code != 0 && code != 200 {
        let mk = vec!["message", "msg", "error"];
        assert(keys_view(mk@) =~= seq!["message"@, "msg"@, "error"@]);
        let m = find_text(raw, mk.as_slice());
        let head = concat("RedFox ", crate::text::i64_to_string(code).as_str());
        let head2 = concat(head.as_str(), "：");
        if m.as_str().is_empty() {
            return Err(concat(head2.as_str(), "调用失败"));
        } else {
            return Err(concat(head2.as_str(), m.as_str()));
        }
    }
    Ok(())
}

// ---------------------------------------------------------------------------
// TikHub and Scrape Creators.
/// A value as these providers' text: text trimmed, a number written out,
/// anything else empty.
pub open spec fn plain_text(j: Json) -> Seq<char> {
    match j {
        Json::Str(s) => trimmed(s),
        Json::Num(Num::Int(v)) => int_dec(v),
        Json::Num(Num::Float(s)) => s,
        _ => Seq::empty(),
    }
}

/// The first of `keys` whose value has some text.
pub open spec fn key_text_hit(j: Json, keys: Seq<Seq<char>>) -> Seq<char>
    decreases keys.len(),
{
    if keys.len() == 0 {
        Seq::empty()
    } else {
        match field(j, keys[0]) {
            Some(x) => if plain_text(x).len() > 0 {
                plain_text(x)
            } else {
                key_text_hit(j, keys.drop_first())
            },
            None => key_text_hit(j, keys.drop_first()),
        }
    }
}

/// Depth-first search for the first non-empty text under one of `keys`: an
/// object's own keys first, then its members in order; an array's items in order.
pub open spec fn text_in(v: JsonValue, keys: Seq<Seq<char>>) -> Seq<char>
    decreases v,
{
    match v {
        JsonValue::Object(m) => {
            let own = key_text_hit(json_view(v), keys);
            if own.len() > 0 {
                own
            } else {
                text_in_members(m@, keys)
            }
        },
        JsonValue::Array(a) => text_in_items(a@, keys),
        _ => Seq::empty(),
    }
}

pub open spec fn text_in_members(m: Seq<(String, JsonValue)>, keys: Seq<Seq<char>>) -> Seq<char>
    decreases m,
{
    if m.len() == 0 {
        Seq::empty()
    } else {
        let x = text_in(m[0].1, keys);
        if x.len() > 0 {
            x
        } else {
            text_in_members(m.drop_first(), keys)
        }
    }
}

pub open spec fn text_in_items(a: Seq<JsonValue>, keys: Seq<Seq<char>>) -> Seq<char>
    decreases a,
{
    if a.len() == 0 {
        Seq::empty()
    } else {
        let x = text_in(a[0], keys);
        if x.len() > 0 {
            x
        } else {
            text_in_items(a.drop_first(), keys)
        }
    }
}

fn plain_text_exec(v: &JsonValue) -> (r: String)
    ensures
        r@ == plain_text(v@),
{
    match v {
        JsonValue::Str(s) => crate::text::trim(s.as_str()),
        JsonValue::Number(JsonNumber::PosInt(u)) => u64_to_string(*u),
        JsonValue::Number(JsonNumber::NegInt(i)) => crate::text::i64_to_string(*i),
        JsonValue::Number(JsonNumber::Float(s)) => s.clone(),
        _ => String::new(),
    }
}

fn key_text_hit_exec(v: &JsonValue, keys: &[&str]) -> (r: String)
    ensures
        r@ == key_text_hit(v@, keys_view(keys@)),
{
    let mut i: usize = 0;
    assert(keys_view(keys@).skip(0) =~= keys_view(keys@));
    while i < keys.len()
        invariant
            i <= keys@.len(),
            key_text_hit(v@, keys_view(keys@)) == key_text_hit(v@, keys_view(keys@).skip(i as int)),
        decreases keys.len() - i,
    {
        proof {
            assert(keys_view(keys@).skip(i as int).drop_first() =~= keys_view(keys@).skip(i + 1));
            assert(keys_view(keys@).skip(i as int)[0] == keys@[i as int]@);
        }
        match v.get(keys[i]) {
            Some(x) => {
                let t = plain_text_exec(x);
                if !t.as_str().is_empty() {
                    return t;
                }
            },
            None => {},
        }
        i = i + 1;
    }
    assert(keys_view(keys@).skip(i as int).len() == 0);
    String::new()
}

/// The first non-empty text under one of `keys`, searching depth first.
pub fn find_nonempty(v: &JsonValue, keys: &[&str]) -> (r: String)
    ensures
        r@ == text_in(*v, keys_view(keys@)),
    decreases v,
{
    match v {
        JsonValue::Object(m) => {
            let own = key_text_hit_exec(v, keys);
            if !own.as_str().is_empty() {
                return own;
            }
            let mut i: usize = 0;
            assert(m@.skip(0) =~= m@);
            while i < m.len()
                invariant
                    i <= m@.len(),
                    *v == JsonValue::Object(*m),
                    key_text_hit(v@, keys_view(keys@)).len() == 0,
                    text_in_members(m@, keys_view(keys@)) == text_in_members(
                        m@.skip(i as int),
                        keys_view(keys@),
                    ),
                decreases m.len() - i,
            {
                proof {
                    assert(decreases_to!(*v => (*v)->Object_0));
                    assert(decreases_to!((*v)->Object_0 => (*v)->Object_0@));
                    assert(decreases_to!((*v)->Object_0@ => (*v)->Object_0@[i as int]));
                    assert(decreases_to!((*v)->Object_0@[i as int] => (*v)->Object_0@[i as int].1));
                    assert(m@.skip(i as int).drop_first() =~= m@.skip(i + 1));
                    assert(m@.skip(i as int)[0] == m@[i as int]);
                }
                let x = find_nonempty(&m[i].1, keys);
                if !x.as_str().is_empty() {
                    return x;
                }
                i = i + 1;
            }
            assert(m@.skip(i as int).len() == 0);
            String::new()
        },
        JsonValue::Array(a) => {
            let mut i: usize = 0;
            assert(a@.skip(0) =~= a@);
            while i < a.len()
                invariant
                    i <= a@.len(),
                    *v == JsonValue::Array(*a),
                    text_in_items(a@, keys_view(keys@)) == text_in_items(a@.skip(i as int), keys_view(keys@)),
                decreases a.len() - i,
            {
                proof {
                    assert(decreases_to!(*v => (*v)->Array_0));
                    assert(decreases_to!((*v)->Array_0 => (*v)->Array_0@));
                    assert(decreases_to!((*v)->Array_0@ => (*v)->Array_0@[i as int]));
                    assert(a@.skip(i as int).drop_first() =~= a@.skip(i + 1));
                    assert(a@.skip(i as int)[0] == a@[i as int]);
                }
                let x = find_nonempty(&a[i], keys);
                if !x.as_str().is_empty() {
                    return x;
                }
                i = i + 1;
            }
            assert(a@.skip(i as int).len() == 0);
            String::new()
        },
        _ => String::new(),
    }
}

/// `id_between`: the text after the first `marker`, up to the next `marker`,
/// then up to `?`, `&`, `/` or `#`, when not empty.
/// An empty marker cuts the link around every character (as `split("")`
/// does), so the identifier is then the link's first character, unless that is
/// a delimiter.
pub open spec fn id_between_of(url: Seq<char>, marker: Seq<char>) -> Option<Seq<char>> {
    if marker.len() == 0 {
        if url.len() > 0 && !seq!['?', '&', '/', '#'].contains(url[0]) {
            Some(seq![url[0]])
        } else {
            None
        }
    } else {
        id_after_marker_of(url, marker)
    }
}

pub open spec fn id_after_marker_of(url: Seq<char>, marker: Seq<char>) -> Option<Seq<char>> {
    match find(url, marker) {
        None => None,
        Some(i) => {
            let rest = url.skip(i + marker.len());
            let piece = match find(rest, marker) {
                Some(j) => rest.take(j),
                None => rest,
            };
            let id = before_any(piece, seq!['?', '&', '/', '#']);
            if id.len() > 0 {
                Some(id)
            } else {
                None
            }
        },
    }
}

/// The identifier between `marker` and the next delimiter of a link.
pub fn id_between(url: &str, marker: &str) -> (r: Option<String>)
    ensures
        match r {
            Some(v) => id_between_of(url@, marker@) == Some(v@),
            None => id_between_of(url@, marker@) is None,
        },
{
    let uc = chars_of(url);
    let mc = chars_of(marker);
    let ulen = uc.len();
    if mc.len() == 0 {
        if ulen > 0 && uc[0] != '?' && uc[0] != '&' && uc[0] != '/' && uc[0] != '#' {
            let mut s = String::new();
            s.push(uc[0]);
            proof {
                assert(!seq!['?', '&', '/', '#'].contains(uc@[0])) by {
                    if seq!['?', '&', '/', '#'].contains(uc@[0]) {
                        let k = choose|k: int| 0 <= k < 4 && seq!['?', '&', '/', '#'][k] == uc@[0];
                    }
                }
                assert(s@ =~= seq![uc@[0]]);
            }
            return Some(s);
        }
        proof {
            if ulen > 0 {
                assert(seq!['?', '&', '/', '#'].contains(uc@[0])) by {
                    if uc@[0] == '?' {
                        assert(seq!['?', '&', '/', '#'][0] == uc@[0]);
                    } else if uc@[0] == '&' {
                        assert(seq!['?', '&', '/', '#'][1] == uc@[0]);
                    } else if uc@[0] == '/' {
                        assert(seq!['?', '&', '/', '#'][2] == uc@[0]);
                    } else {
                        assert(seq!['?', '&', '/', '#'][3] == uc@[0]);
                    }
                }
            }
        }
        return None;
    }
    if mc.len() == 0 {
        if ulen > 0 && uc[0] != '?' && uc[0] != '&' && uc[0] != '/' && uc[0] != '#' {
            let mut s = String::new();
            s.push(uc[0]);
            proof {
                assert(!seq!['?', '&', '/', '#'].contains(uc@[0])) by {
                    if seq!['?', '&', '/', '#'].contains(uc@[0]) {
                        let k = choose|k: int| 0 <= k < 4 && seq!['?', '&', '/', '#'][k] == uc@[0];
                    }
                }
                assert(s@ =~= seq![uc@[0]]);
            }
            return Some(s);
        }
        proof {
            if ulen > 0 {
                assert(seq!['?', '&', '/', '#'].contains(uc@[0])) by {
                    if uc@[0] == '?' {
                        assert(seq!['?', '&', '/', '#'][0] == uc@[0]);
                    } else if uc@[0] == '&' {
                        assert(seq!['?', '&', '/', '#'][1] == uc@[0]);
                    } else if uc@[0] == '/' {
                        assert(seq!['?', '&', '/', '#'][2] == uc@[0]);
                    } else {
                        assert(seq!['?', '&', '/', '#'][3] == uc@[0]);
                    }
                }
            }
        }
        return None;
    }
    match find_chars(uc.as_slice(), mc.as_slice()) {
        None => None,
        Some(i) => {
            proof {
                assert(crate::text::occurs_at(uc@, mc@, i as int)) by {
                    lemma_find_occurs(uc@, mc@, 0, i as int);
                }
                assert(i + mc@.len() <= uc@.len());
            }
            let start = i + mc.len();
            let rest = crate::text::string_of_range(uc.as_slice(), start, ulen);
            let rc = chars_of(rest.as_str());
            let rlen = rc.len();
            let piece_end: usize = match find_chars(rc.as_slice(), mc.as_slice()) {
                Some(j) => {
                    proof {
                        lemma_find_occurs(rc@, mc@, 0, j as int);
                    }
                    j
                },
                None => rlen,
            };
            let ds = delims();
            let end = before_any_end(rc.as_slice(), 0, ds.as_slice());
            let ghost piece = if piece_end < rlen {
                rc@.take(piece_end as int)
            } else {
                rc@
            };
            let cut = if end < piece_end {
                end
            } else {
                piece_end
            };
            proof {
                assert(rc@ =~= url@.skip(i + marker@.len()));
                assert(rc@.subrange(0, rlen as int) =~= rc@);
                lemma_before_any_take(rc@, seq!['?', '&', '/', '#'], piece_end as int);
            }
            if cut == 0 {
                None
            } else {
                Some(string_of_range(rc.as_slice(), 0, cut))
            }
        },
    }
}

proof fn lemma_before_any_len(s: Seq<char>, d: Seq<char>)
    ensures
        before_any(s, d).len() <= s.len(),
        before_any(s, d) == s.take(before_any(s, d).len() as int),
        before_any(s, d).len() < s.len() ==> d.contains(s[before_any(s, d).len() as int]),
        forall|k: int| 0 <= k < before_any(s, d).len() ==> !d.contains(#[trigger] s[k]),
    decreases s.len(),
{
    if s.len() > 0 && !d.contains(s[0]) {
        lemma_before_any_len(s.drop_first(), d);
        let b = before_any(s.drop_first(), d);
        assert(before_any(s, d) =~= seq![s[0]] + b);
        assert(seq![s[0]] + b =~= s.take(b.len() + 1int));
        assert forall|k: int| 0 <= k < before_any(s, d).len() implies !d.contains(#[trigger] s[k]) by {
            if k > 0 {
                assert(s[k] == s.drop_first()[k - 1]);
            }
        }
        if b.len() < s.drop_first().len() {
            assert(s[b.len() + 1int] == s.drop_first()[b.len() as int]);
        }
    } else if s.len() > 0 {
        assert(s.take(0) =~= Seq::<char>::empty());
    } else {
        assert(s.take(0) =~= s);
    }
}

/// Cutting at a delimiter and cutting at position `p` commute.
proof fn lemma_before_any_take(s: Seq<char>, d: Seq<char>, p: int)
    requires
        0 <= p <= s.len(),
    ensures
        before_any(if p < s.len() { s.take(p) } else { s }, d) == s.take(
            if before_any(s, d).len() < p {
                before_any(s, d).len() as int
            } else {
                p
            },
        ),
    decreases s.len(),
{
    let t = if p < s.len() {
        s.take(p)
    } else {
        s
    };
    lemma_before_any_len(s, d);
    lemma_before_any_len(t, d);
    let b = before_any(s, d).len() as int;
    let c = before_any(t, d).len() as int;
    if p == s.len() {
        assert(s.take(p) =~= s);
    }
    assert(t =~= s.take(p));
    if c < b && c < t.len() {
        assert(t[c] == s[c]);
    }
    if b < c {
        assert(t[b] == s[b]);
    }
    if b < p && c == t.len() {
        assert(t[b] == s[b]);
    }
    assert(before_any(t, d) =~= s.take(if b < p { b } else { p }));
}

/// The first `n` characters of `s`.
pub open spec fn first_chars(s: Seq<char>, n: int) -> Seq<char> {
    if s.len() <= n {
        s
    } else {
        s.take(n)
    }
}

pub fn take_chars(s: &str, n: usize) -> (r: String)
    ensures
        r@ == first_chars(s@, n as int),
{
    let cs = chars_of(s);
    if cs.len() <= n {
        string_of_range(cs.as_slice(), 0, cs.len())
    } else {
        string_of_range(cs.as_slice(), 0, n)
    }
}

/// A provider's refusal: its name, the HTTP status and the start of the body.
pub open spec fn http_error_of(name: Seq<char>, status: int, body: Seq<char>, limit: int) -> Seq<char> {
    name + " 返回 HTTP "@ + int_dec(status) + "："@ + first_chars(body, limit)
}

pub fn http_error(name: &str, status: u16, body: &str, limit: usize) -> (r: String)
    ensures
        r@ == http_error_of(name@, status as int, body@, limit as int),
{
    let a = concat(name, " 返回 HTTP ");
    let b = concat(a.as_str(), u64_to_string(status as u64).as_str());
    let c = concat(b.as_str(), "：");
    concat(c.as_str(), take_chars(body, limit).as_str())
}

/// TikHub's route for a lowercased link: the path, the query key and its value.
pub open spec fn tikhub_route_of(lower: Seq<char>, url: Seq<char>) -> Result<
    (Seq<char>, Seq<char>, Seq<char>),
    Seq<char>,
> {
    if contains(lower, "douyin.com"@) {
        Ok(("/api/v1/douyin/web/fetch_one_video_by_share_url"@, "share_url"@, url))
    } else if contains(lower, "tiktok.com"@) {
        match id_between_of(url, "/video/"@) {
            Some(id) => Ok(("/api/v1/tiktok/web/fetch_post_detail"@, "itemId"@, id)),
            None => Err("无法从 TikTok 链接提取视频 ID"@),
        }
    } else if contains(lower, "x.com"@) || contains(lower, "twitter.com"@) {
        match id_between_of(url, "/status/"@) {
            Some(id) => Ok(("/api/v1/twitter/web/fetch_tweet_detail"@, "tweet_id"@, id)),
            None => Err("无法从 X 链接提取推文 ID"@),
        }
    } else if contains(lower, "xiaohongshu.com"@) || contains(lower, "xhslink.com"@) {
        match id_between_of(url, "/explore/"@) {
            Some(id) => Ok(("/api/v1/xiaohongshu/web_v3/fetch_note_detail"@, "note_id"@, id)),
            None => Err("无法从小红书链接提取笔记 ID"@),
        }
    } else {
        Err("TikHub 当前未配置该平台的单条链接接口"@)
    }
}

pub open spec fn route_view(r: Result<(&'static str, &'static str, String), String>) -> Result<
    (Seq<char>, Seq<char>, Seq<char>),
    Seq<char>,
> {
    match r {
        Ok((p, k, v)) => Ok((p@, k@, v@)),
        Err(e) => Err(e@),
    }
}

/// The TikHub endpoint path, query key and value for a link.
pub fn tikhub_route(url: &str) -> (r: Result<(&'static str, &'static str, String), String>)
    ensures
        route_view(r) == tikhub_route_of(lowercase_of(url@), url@),
{
    let lower = lowercase(url);
    let l = lower.as_str();
    if contains_str(l, "douyin.com") {
        Ok(("/api/v1/douyin/web/fetch_one_video_by_share_url", "share_url", own(url)))
    } else if contains_str(l, "tiktok.com") {
        proof {
            reveal_strlit("/video/");
        }
        match id_between(url, "/video/") {
            Some(id) => Ok(("/api/v1/tiktok/web/fetch_post_detail", "itemId", id)),
            None => Err(own("无法从 TikTok 链接提取视频 ID")),
        }
    } else if contains_str(l, "x.com") || contains_str(l, "twitter.com") {
        proof {
            reveal_strlit("/status/");
        }
        match id_between(url, "/status/") {
            Some(id) => Ok(("/api/v1/twitter/web/fetch_tweet_detail", "tweet_id", id)),
            None => Err(own("无法从 X 链接提取推文 ID")),
        }
    } else if contains_str(l, "xiaohongshu.com") || contains_str(l, "xhslink.com") {
        proof {
            reveal_strlit("/explore/");
        }
        match id_between(url, "/explore/") {
            Some(id) => Ok(("/api/v1/xiaohongshu/web_v3/fetch_note_detail", "note_id", id)),
            None => Err(own("无法从小红书链接提取笔记 ID")),
        }
    } else {
        Err(own("TikHub 当前未配置该平台的单条链接接口"))
    }
}

/// Scrape Creators' endpoint for a lowercased link.
pub open spec fn endpoint_of(lower: Seq<char>) -> Option<Seq<char>> {
    if contains(lower, "tiktok.com"@) {
        Some("/v2/tiktok/video"@)
    } else if contains(lower, "instagram.com"@) {
        Some("/v1/instagram/post"@)
    } else if contains(lower, "youtube.com"@) || contains(lower, "youtu.be"@) {
        Some("/v1/youtube/video"@)
    } else if contains(lower, "facebook.com"@) {
        Some("/v1/facebook/post"@)
    } else if contains(lower, "x.com"@) || contains(lower, "twitter.com"@) {
        Some("/v1/twitter/tweet"@)
    } else {
        None
    }
}

/// The Scrape Creators endpoint for a link.
pub fn endpoint(url: &str) -> (r: Option<&'static str>)
    ensures
        match r {
            Some(p) => endpoint_of(lowercase_of(url@)) == Some(p@),
            None => endpoint_of(lowercase_of(url@)) is None,
        },
{
    let lower = lowercase(url);
    let x = lower.as_str();
    if contains_str(x, "tiktok.com") {
        Some("/v2/tiktok/video")
    } else if contains_str(x, "instagram.com") {
        Some("/v1/instagram/post")
    } else if contains_str(x, "youtube.com") || contains_str(x, "youtu.be") {
        Some("/v1/youtube/video")
    } else if contains_str(x, "facebook.com") {
        Some("/v1/facebook/post")
    } else if contains_str(x, "x.com") || contains_str(x, "twitter.com") {
        Some("/v1/twitter/tweet")
    } else {
        None
    }
}

/// A social post as one canonical item: TikHub and Scrape Creators report the
/// title and the content they find; the link stands for a missing title.
pub open spec fn social_item_of(
    url: Seq<char>,
    title: Seq<char>,
    content: Seq<char>,
    provider: Seq<char>,
    path: Seq<char>,
) -> Json {
    Json::Obj(
        Map::empty().insert(
            "title"@,
            jstr(
                if title.len() == 0 {
                    url
                } else {
                    title
                },
            ),
        ).insert("description"@, jstr(first_chars(content, 2000))).insert("content"@, jstr(content)).insert(
            "webpage_url"@,
            jstr(url),
        ).insert("canonicalUrl"@, jstr(url)).insert("contentType"@, jstr("SOCIAL_POST"@)).insert(
            "provider"@,
            jstr(provider),
        ).insert("providerEndpoint"@, jstr(path)).insert("metrics"@, empty_obj()),
    )
}

fn social_item(url: &str, title: String, content: String, provider: &str, path: &str) -> (r: JsonValue)
    ensures
        crate::json::json_wf(r),
        r@ == social_item_of(url@, title@, content@, provider@, path@),
{
    let mut o = JsonValue::empty_object();
    if title.as_str().is_empty() {
        o.insert("title", JsonValue::text(url));
    } else {
        o.insert("title", JsonValue::from_string(title));
    }
    o.insert("description", JsonValue::from_string(take_chars(content.as_str(), 2000)));
    o.insert("content", JsonValue::from_string(content));
    o.insert("webpage_url", JsonValue::text(url));
    o.insert("canonicalUrl", JsonValue::text(url));
    o.insert("contentType", JsonValue::text("SOCIAL_POST"));
    o.insert("provider", JsonValue::text(provider));
    o.insert("providerEndpoint", JsonValue::text(path));
    o.insert("metrics", JsonValue::empty_object());
    o
}

/// A TikHub reply for `url` as one canonical item.
pub fn tikhub_canonical(url: &str, path: &str, raw: &JsonValue) -> (r: JsonValue)
    ensures
        crate::json::json_wf(*raw) ==> crate::json::json_wf(r),
        r@ == social_item_of(
            url@,
            text_in(*raw, seq!["title"@, "desc"@, "description"@, "nickname"@]),
            text_in(*raw, seq!["content"@, "desc"@, "description"@, "text"@]),
            "tikhub"@,
            path@,
        ),
{
    let tk = vec!["title", "desc", "description", "nickname"];
    assert(keys_view(tk@) =~= seq!["title"@, "desc"@, "description"@, "nickname"@]);
    let ck = vec!["content", "desc", "description", "text"];
    assert(keys_view(ck@) =~= seq!["content"@, "desc"@, "description"@, "text"@]);
    let title = find_nonempty(raw, tk.as_slice());
    let content = find_nonempty(raw, ck.as_slice());
    social_item(url, title, content, "tikhub", path)
}

/// A Scrape Creators reply for `url` as one canonical item.
pub fn scrapecreators_canonical(url: &str, path: &str, raw: &JsonValue) -> (r: JsonValue)
    ensures
        crate::json::json_wf(*raw) ==> crate::json::json_wf(r),
        r@ == social_item_of(
            url@,
            text_in(*raw, seq!["title"@, "name"@, "caption"@]),
            text_in(*raw, seq!["description"@, "text"@, "caption"@, "transcript"@]),
            "scrapecreators"@,
            path@,
        ),
{
    let tk = vec!["title", "name", "caption"];
    assert(keys_view(tk@) =~= seq!["title"@, "name"@, "caption"@]);
    let ck = vec!["description", "text", "caption", "transcript"];
    assert(keys_view(ck@) =~= seq!["description"@, "text"@, "caption"@, "transcript"@]);
    let title = find_nonempty(raw, tk.as_slice());
    let content = find_nonempty(raw, ck.as_slice());
    social_item(url, title, content, "scrapecreators", path)
}

/// What TikHub's account check reports.
pub fn tikhub_account(value: &JsonValue) -> (r: JsonValue)
    ensures
        crate::json::json_wf(*value) ==> crate::json::json_wf(r),
        r@ == Json::Obj(
            Map::empty().insert("username"@, jstr(text_in(*value, seq!["username"@, "email"@]))).insert(
                "status"@,
                jstr("ok"@),
            ),
        ),
{
    let k = vec!["username", "email"];
    assert(keys_view(k@) =~= seq!["username"@, "email"@]);
    let mut o = JsonValue::empty_object();
    o.insert("username", JsonValue::from_string(find_nonempty(value, k.as_slice())));
    o.insert("status", JsonValue::text("ok"));
    o
}

pub open spec fn null_or(v: Option<Json>) -> Json {
    match v {
        Some(x) => x,
        None => Json::Null,
    }
}

fn field_or_null(j: &JsonValue, k: &str) -> (r: JsonValue)
    ensures
        crate::json::json_wf(*j) ==> crate::json::json_wf(r),
        r@ == null_or(field(j@, k@)),
{
    match j.get(k) {
        Some(x) => x.duplicate(),
        None => JsonValue::Null,
    }
}

/// What Scrape Creators' credit check reports.
pub fn scrapecreators_account(value: &JsonValue) -> (r: JsonValue)
    ensures
        crate::json::json_wf(*value) ==> crate::json::json_wf(r),
        r@ == Json::Obj(
            Map::empty().insert("creditCount"@, null_or(field(value@, "creditCount"@))).insert(
                "success"@,
                Json::Bool(true),
            ),
        ),
{
    let mut o = JsonValue::empty_object();
    o.insert("creditCount", field_or_null(value, "creditCount"));
    o.insert("success", JsonValue::Bool(true));
    o
}

// ---------------------------------------------------------------------------
// Apify.
/// The `data` of a reply (`null` when it has none).
pub open spec fn data_of(reply: Json) -> Json {
    null_or(field(reply, "data"@))
}

/// What Apify's account check reports, with the measured latency.
pub fn apify_account(value: &JsonValue, latency_ms: u64) -> (r: JsonValue)
    ensures
        crate::json::json_wf(*value) ==> crate::json::json_wf(r),
        r@ == Json::Obj(
            Map::empty().insert("id"@, null_or(field(data_of(value@), "id"@))).insert(
                "username"@,
                null_or(field(data_of(value@), "username"@)),
            ).insert("latencyMs"@, jint(latency_ms as int)),
        ),
{
    let data = field_or_null(value, "data");
    let mut o = JsonValue::empty_object();
    o.insert("id", field_or_null(&data, "id"));
    o.insert("username", field_or_null(&data, "username"));
    o.insert("latencyMs", JsonValue::Number(JsonNumber::PosInt(latency_ms)));
    o
}

/// The dataset an Apify run wrote, which must be named.
pub open spec fn dataset_of(run: Json) -> Result<Seq<char>, Seq<char>> {
    match field_str(data_of(run), "defaultDatasetId"@) {
        Some(id) => if id.len() > 0 {
            Ok(id)
        } else {
            Err("Apify Actor 未返回 dataset ID"@)
        },
        None => Err("Apify Actor 未返回 dataset ID"@),
    }
}

pub fn apify_dataset_id(run: &JsonValue) -> (r: Result<String, String>)
    ensures
        match r {
            Ok(id) => dataset_of(run@) == Ok::<Seq<char>, Seq<char>>(id@),
            Err(e) => dataset_of(run@) == Err::<Seq<char>, Seq<char>>(e@),
        },
{
    let data = field_or_null(run, "data");
    match data.get_str("defaultDatasetId") {
        Some(id) => {
            if id.is_empty() {
                Err(own("Apify Actor 未返回 dataset ID"))
            } else {
                Ok(own(id))
            }
        },
        None => Err(own("Apify Actor 未返回 dataset ID")),
    }
}

/// The first item of a dataset, which must hold something.
pub open spec fn first_item_of(items: Json) -> Result<Json, Seq<char>> {
    let item = match items {
        Json::Arr(a) => if a.len() > 0 {
            a[0]
        } else {
            Json::Null
        },
        _ => Json::Null,
    };
    if item is Null || item == empty_obj() {
        Err("Apify 未返回可用网页内容"@)
    } else {
        Ok(item)
    }
}

pub fn apify_first_item(items: &JsonValue) -> (r: Result<JsonValue, String>)
    ensures
        crate::json::json_wf(*items) ==> (r matches Ok(v) ==> crate::json::json_wf(v)),
        crate::records::result_view(r) == first_item_of(items@),
{
    let item = match items {
        JsonValue::Array(a) => {
            proof {
                crate::json::lemma_items_len(a@);
            }
            if a.len() > 0 {
                proof {
                    crate::json::lemma_items_index(a@, 0);
                }
                a[0].duplicate()
            } else {
                JsonValue::Null
            }
        },
        _ => JsonValue::Null,
    };
    let empty = JsonValue::empty_object();
    if item.is_null() || crate::json::json_eq(&item, &empty) {
        Err(own("Apify 未返回可用网页内容"))
    } else {
        Ok(item)
    }
}

/// An Apify page as one canonical item.
pub open spec fn apify_canonical_of(url: Seq<char>, item: JsonValue, dataset_id: Seq<char>) -> Json {
    let title = find_text_of(item, seq!["title"@, "name"@]);
    let content = find_text_of(item, seq!["markdown"@, "text"@, "content"@, "description"@]);
    let found = find_text_of(item, seq!["url"@, "canonicalUrl"@, "webpage_url"@]);
    let link = if found.len() == 0 {
        url
    } else {
        found
    };
    Json::Obj(
        Map::empty().insert(
            "title"@,
            jstr(
                if title.len() == 0 {
                    url
                } else {
                    title
                },
            ),
        ).insert("description"@, jstr(first_chars(content, 2000))).insert("content"@, jstr(content)).insert(
            "webpage_url"@,
            jstr(link),
        ).insert("canonicalUrl"@, jstr(link)).insert(
            "author"@,
            jstr(find_text_of(item, seq!["author"@, "authorName"@])),
        ).insert("publishedAt"@, jstr(find_text_of(item, seq!["publishedAt"@, "datePublished"@]))).insert(
            "coverUrl"@,
            jstr(find_text_of(item, seq!["image"@, "imageUrl"@, "thumbnail"@])),
        ).insert("contentType"@, jstr("ARTICLE"@)).insert("provider"@, jstr("apify"@)).insert(
            "providerEndpoint"@,
            jstr("apify~website-content-crawler"@),
        ).insert("externalId"@, jstr(dataset_id)).insert("metrics"@, empty_obj()),
    )
}

pub fn apify_canonical(url: &str, item: &JsonValue, dataset_id: &str) -> (r: JsonValue)
    ensures
        crate::json::json_wf(*item) ==> crate::json::json_wf(r),
        r@ == apify_canonical_of(url@, *item, dataset_id@),
{
    let tk = vec!["title", "name"];
    assert(keys_view(tk@) =~= seq!["title"@, "name"@]);
    let ck = vec!["markdown", "text", "content", "description"];
    assert(keys_view(ck@) =~= seq!["markdown"@, "text"@, "content"@, "description"@]);
    let uk = vec!["url", "canonicalUrl", "webpage_url"];
    assert(keys_view(uk@) =~= seq!["url"@, "canonicalUrl"@, "webpage_url"@]);
    let ak = vec!["author", "authorName"];
    assert(keys_view(ak@) =~= seq!["author"@, "authorName"@]);
    let pk = vec!["publishedAt", "datePublished"];
    assert(keys_view(pk@) =~= seq!["publishedAt"@, "datePublished"@]);
    let ik = vec!["image", "imageUrl", "thumbnail"];
    assert(keys_view(ik@) =~= seq!["image"@, "imageUrl"@, "thumbnail"@]);
    let title = find_text(item, tk.as_slice());
    let content = find_text(item, ck.as_slice());
    let found = find_text(item, uk.as_slice());
    let link = if found.as_str().is_empty() {
        own(url)
    } else {
        found
    };
    let mut o = JsonValue::empty_object();
    if title.as_str().is_empty() {
        o.insert("title", JsonValue::text(url));
    } else {
        o.insert("title", JsonValue::from_string(title));
    }
    o.insert("description", JsonValue::from_string(take_chars(content.as_str(), 2000)));
    o.insert("content", JsonValue::from_string(content));
    o.insert("webpage_url", JsonValue::text(link.as_str()));
    o.insert("canonicalUrl", JsonValue::from_string(link));
    o.insert("author", text_field_value(item, ak));
    o.insert("publishedAt", text_field_value(item, pk));
    o.insert("coverUrl", text_field_value(item, ik));
    o.insert("contentType", JsonValue::text("ARTICLE"));
    o.insert("provider", JsonValue::text("apify"));
    o.insert("providerEndpoint", JsonValue::text("apify~website-content-crawler"));
    o.insert("externalId", JsonValue::text(dataset_id));
    o.insert("metrics", JsonValue::empty_object());
    o
}

// ---------------------------------------------------------------------------
// Capturing a link.
/// A link as captured: trimmed, and it must be a web link.
pub open spec fn capture_url_of(url: Seq<char>) -> Result<Seq<char>, Seq<char>> {
    let u = trimmed(url);
    if starts_with(u, "https://"@) || starts_with(u, "http://"@) {
        Ok(u)
    } else {
        Err("请输入有效的 http/https 链接"@)
    }
}

pub fn capture_url(url: &str) -> (r: Result<String, String>)
    ensures
        match r {
            Ok(u) => capture_url_of(url@) == Ok::<Seq<char>, Seq<char>>(u@),
            Err(e) => capture_url_of(url@) == Err::<Seq<char>, Seq<char>>(e@),
        },
{
    let u = crate::text::trim(url);
    if starts_with_str(u.as_str(), "https://") || starts_with_str(u.as_str(), "http://") {
        Ok(u)
    } else {
        Err(own("请输入有效的 http/https 链接"))
    }
}

/// A link RedFox serves but captured otherwise still becomes a canonical item,
/// unless only the link could be saved.
pub open spec fn needs_fallback_item_of(external_item_id: Seq<char>, url: Seq<char>, method: Seq<char>) -> bool {
    external_item_id.len() == 0 && redfox_platform_of(lowercase_of(url)) is Some && method != "link-only"@
}

pub fn needs_fallback_item(external_item_id: &str, url: &str, method: &str) -> (r: bool)
    ensures
        r == needs_fallback_item_of(external_item_id@, url@, method@),
{
    external_item_id.is_empty() && platform_for_url(url).is_some() && !eq_str(method, "link-only")
}

/// The canonical item of a link captured by a local `method`.
pub fn fallback_canonical(url: &str, method: &str, metadata: &JsonValue) -> (r: JsonValue)
    ensures
        crate::json::json_wf(*metadata) ==> crate::json::json_wf(r),
        r@ == with(
            with(
                redfox_canonical_of(
                    match redfox_platform_of(lowercase_of(url@)) {
                        Some(p) => p,
                        None => "web"@,
                    },
                    url@,
                    method@,
                    *metadata,
                ),
                "provider"@,
                jstr(method@),
            ),
            "providerEndpoint"@,
            jstr(method@),
        ),
{
    let mut item = normalize_response(url, method, metadata);
    item.insert("provider", JsonValue::text(method));
    item.insert("providerEndpoint", JsonValue::text(method));
    item
}

/// The first of two fields with non-blank text.
pub open spec fn nonblank_of(m: Json, a: Seq<char>, b: Seq<char>) -> Option<Seq<char>> {
    match field_str(m, a) {
        Some(s) if trimmed(s).len() > 0 => Some(s),
        _ => match field_str(m, b) {
            Some(s) if trimmed(s).len() > 0 => Some(s),
            _ => None,
        },
    }
}

/// The first of three fields that hold text.
pub open spec fn first_text_of(m: Json, a: Seq<char>, b: Seq<char>, c: Seq<char>) -> Option<Seq<char>> {
    match field_str(m, a) {
        Some(s) => Some(s),
        None => match field_str(m, b) {
            Some(s) => Some(s),
            None => field_str(m, c),
        },
    }
}

pub open spec fn or_text(v: Option<Seq<char>>, d: Seq<char>) -> Seq<char> {
    match v {
        Some(s) => s,
        None => d,
    }
}

pub open spec fn capture_title_of(m: Json, url: Seq<char>) -> Seq<char> {
    or_text(nonblank_of(m, "title"@, "fulltitle"@), url)
}

pub open spec fn capture_text_of(m: Json) -> Seq<char> {
    or_text(nonblank_of(m, "description"@, "content"@), Seq::empty())
}

/// A field of the metadata, else another, else `null`.
pub open spec fn either_of(m: Json, a: Seq<char>, b: Seq<char>) -> Json {
    match field(m, a) {
        Some(v) => v,
        None => null_or(field(m, b)),
    }
}

pub open spec fn strs_json(v: Seq<Seq<char>>) -> Seq<Json> {
    v.map_values(|s: Seq<char>| jstr(s))
}

/// The inbox record of a captured link.
pub open spec fn inbox_record_of(
    url: Seq<char>,
    platform: Seq<char>,
    m: Json,
    method: Seq<char>,
    provider: Seq<char>,
    errors: Seq<Seq<char>>,
    local_path: Seq<char>,
    external_item_id: Seq<char>,
    captured_at: Seq<char>,
    last_captured_at: Seq<char>,
) -> Json {
    let title = capture_title_of(m, url);
    let text = capture_text_of(m);
    Json::Obj(
        Map::empty().insert(
            "content"@,
            jstr(
                if text.len() == 0 {
                    title
                } else {
                    title + "\n\n"@ + text
                },
            ),
        ).insert("type"@, jstr("link"@)).insert("status"@, jstr("unprocessed"@)).insert(
            "platform"@,
            jstr(platform),
        ).insert("sourceUrl"@, jstr(url)).insert(
            "canonicalUrl"@,
            jstr(or_text(first_text_of(m, "canonicalUrl"@, "webpage_url"@, "original_url"@), url)),
        ).insert("externalContentId"@, null_or(field(m, "externalId"@))).insert(
            "contentType"@,
            null_or(field(m, "contentType"@)),
        ).insert("author"@, jstr(or_text(first_text_of(m, "uploader"@, "channel"@, "author"@), Seq::empty()))).insert(
            "title"@,
            jstr(title),
        ).insert("publishedAt"@, either_of(m, "publishedAt"@, "upload_date"@)).insert(
            "cover"@,
            either_of(m, "coverUrl"@, "thumbnail"@),
        ).insert("metrics"@, null_or(field(m, "metrics"@))).insert("captureProvider"@, jstr(provider)).insert(
            "captureStatus"@,
            jstr(
                if method == "link-only"@ || (title == url && text.len() == 0) {
                    "link_saved"@
                } else {
                    "captured"@
                },
            ),
        ).insert("captureMethod"@, jstr(method)).insert("captureErrors"@, Json::Arr(strs_json(errors))).insert(
            "localMetadataPath"@,
            jstr(local_path),
        ).insert("externalItemId"@, jstr(external_item_id)).insert("rightsConfirmed"@, Json::Bool(false)).insert(
            "savedAt"@,
            jstr(captured_at),
        ).insert("lastCapturedAt"@, jstr(last_captured_at)),
    )
}

/// A capture of a link already in the inbox keeps that record's id and creation time.
pub open spec fn with_existing_of(record: Json, existing: Option<Json>) -> Json {
    match existing {
        Some(e) => with(with(record, "id"@, null_or(field(e, "id"@))), "createdAt"@, null_or(field(e, "createdAt"@))),
        None => record,
    }
}

fn nonblank_exec(m: &JsonValue, a: &str, b: &str) -> (r: Option<String>)
    ensures
        crate::records::opt_seq(r) == nonblank_of(m@, a@, b@),
{
    match m.get_str(a) {
        Some(s) => {
            if !is_blank(s) {
                return Some(own(s));
            }
        },
        None => {},
    }
    match m.get_str(b) {
        Some(s) => {
            if !is_blank(s) {
                return Some(own(s));
            }
        },
        None => {},
    }
    None
}

fn first_text_exec(m: &JsonValue, a: &str, b: &str, c: &str) -> (r: Option<String>)
    ensures
        crate::records::opt_seq(r) == first_text_of(m@, a@, b@, c@),
{
    match m.get_str(a) {
        Some(s) => Some(own(s)),
        None => match m.get_str(b) {
            Some(s) => Some(own(s)),
            None => match m.get_str(c) {
                Some(s) => Some(own(s)),
                None => None,
            },
        },
    }
}

fn either_exec(m: &JsonValue, a: &str, b: &str) -> (r: JsonValue)
    ensures
        crate::json::json_wf(*m) ==> crate::json::json_wf(r),
        r@ == either_of(m@, a@, b@),
{
    match m.get(a) {
        Some(v) => v.duplicate(),
        None => field_or_null(m, b),
    }
}

/// The link a captured page calls its own: the metadata's canonical, page or
/// original address, else the link that was captured.
pub fn capture_canonical_link(url: &str, metadata: &JsonValue) -> (r: String)
    ensures
        r@ == or_text(first_text_of(metadata@, "canonicalUrl"@, "webpage_url"@, "original_url"@), url@),
{
    match first_text_exec(metadata, "canonicalUrl", "webpage_url", "original_url") {
        Some(c) => c,
        None => own(url),
    }
}

/// What is kept of a link when nothing could be read from it: the link itself.
pub fn link_only_metadata(url: &str) -> (r: JsonValue)
    ensures
        crate::json::json_wf(r),
        r@ == Json::Obj(Map::empty().insert("webpage_url"@, jstr(url@))),
{
    let mut m = JsonValue::empty_object();
    m.insert("webpage_url", JsonValue::text(url));
    m
}

/// Only web links are opened outside the application.
pub fn openable_link(url: &str) -> (r: Result<(), String>)
    ensures
        r is Ok <==> crate::catalog::is_web_url(url@),
        r matches Err(e) ==> e@ == "只允许打开 http 或 https 新闻链接"@,
{
    if crate::catalog::is_external_url(url) {
        Ok(())
    } else {
        Err(own("只允许打开 http 或 https 新闻链接"))
    }
}

/// The inbox record of a captured link, keeping the id and creation time of an
/// earlier capture of the same link.
pub fn inbox_capture_record(
    url: &str,
    platform: &str,
    metadata: &JsonValue,
    method: &str,
    provider: &str,
    errors: &Vec<String>,
    local_path: &str,
    external_item_id: &str,
    captured_at: &str,
    last_captured_at: &str,
    existing: Option<&JsonValue>,
) -> (r: JsonValue)
    ensures
        crate::json::json_wf(*metadata) && (existing matches Some(e) ==> crate::json::json_wf(*e)) ==> crate::json::json_wf(r),
        r@ == with_existing_of(
            inbox_record_of(
                url@,
                platform@,
                metadata@,
                method@,
                provider@,
                crate::records::strs_of(errors@),
                local_path@,
                external_item_id@,
                captured_at@,
                last_captured_at@,
            ),
            match existing {
                Some(e) => Some(e@),
                None => None,
            },
        ),
{
    let title = match nonblank_exec(metadata, "title", "fulltitle") {
        Some(t) => t,
        None => own(url),
    };
    let text = match nonblank_exec(metadata, "description", "content") {
        Some(t) => t,
        None => String::new(),
    };
    let author = match first_text_exec(metadata, "uploader", "channel", "author") {
        Some(t) => t,
        None => String::new(),
    };
    let canonical = match first_text_exec(metadata, "canonicalUrl", "webpage_url", "original_url") {
        Some(t) => t,
        None => own(url),
    };
    let content = if text.as_str().is_empty() {
        title.clone()
    } else {
        let a = concat(title.as_str(), "\n\n");
        concat(a.as_str(), text.as_str())
    };
    let link_saved = eq_str(method, "link-only") || (eq_str(title.as_str(), url) && text.as_str().is_empty());
    let mut errs: Vec<JsonValue> = Vec::new();
    let mut i: usize = 0;
    proof {
        crate::json::lemma_items_empty();
    }
    while i < errors.len()
        invariant
            i <= errors@.len(),
            crate::json::items_view(errs@) == strs_json(crate::records::strs_of(errors@).take(i as int)),
            crate::json::all_wf(errs@),
        decreases errors.len() - i,
    {
        let item = JsonValue::from_string(errors[i].clone());
        proof {
            crate::json::lemma_items_push(errs@, item);
        }
        errs.push(item);
        i = i + 1;
        assert(crate::json::items_view(errs@) =~= strs_json(crate::records::strs_of(errors@).take(i as int)));
    }
    assert(crate::records::strs_of(errors@).take(i as int) =~= crate::records::strs_of(errors@));
    proof {
        crate::json::lemma_items_wf(errs@);
    }
    let mut o = JsonValue::empty_object();
    o.insert("content", JsonValue::from_string(content));
    o.insert("type", JsonValue::text("link"));
    o.insert("status", JsonValue::text("unprocessed"));
    o.insert("platform", JsonValue::text(platform));
    o.insert("sourceUrl", JsonValue::text(url));
    o.insert("canonicalUrl", JsonValue::from_string(canonical));
    o.insert("externalContentId", field_or_null(metadata, "externalId"));
    o.insert("contentType", field_or_null(metadata, "contentType"));
    o.insert("author", JsonValue::from_string(author));
    o.insert("title", JsonValue::from_string(title));
    o.insert("publishedAt", either_exec(metadata, "publishedAt", "upload_date"));
    o.insert("cover", either_exec(metadata, "coverUrl", "thumbnail"));
    o.insert("metrics", field_or_null(metadata, "metrics"));
    o.insert("captureProvider", JsonValue::text(provider));
    if link_saved {
        o.insert("captureStatus", JsonValue::text("link_saved"));
    } else {
        o.insert("captureStatus", JsonValue::text("captured"));
    }
    o.insert("captureMethod", JsonValue::text(method));
    o.insert("captureErrors", JsonValue::Array(errs));
    o.insert("localMetadataPath", JsonValue::text(local_path));
    o.insert("externalItemId", JsonValue::text(external_item_id));
    o.insert("rightsConfirmed", JsonValue::Bool(false));
    o.insert("savedAt", JsonValue::text(captured_at));
    o.insert("lastCapturedAt", JsonValue::text(last_captured_at));
    match existing {
        Some(e) => {
            o.insert("id", field_or_null(e, "id"));
            o.insert("createdAt", field_or_null(e, "createdAt"));
        },
        None => {},
    }
    o
}

pub open spec fn provider_settings_of(configured: bool) -> Json {
    Json::Obj(
        Map::empty().insert(
            "providers"@,
            Json::Arr(
                seq![
                    Json::Obj(
                        Map::empty().insert("id"@, jstr("redfox"@)).insert("label"@, jstr("RedFoxHub"@)).insert(
                            "configured"@,
                            Json::Bool(configured),
                        ).insert(
                            "supportedPlatforms"@,
                            Json::Arr(seq![jstr("微信公众号"@), jstr("抖音"@), jstr("小红书"@)]),
                        ).insert("automaticSync"@, Json::Bool(false)).insert("mediaDownload"@, Json::Bool(false)),
                    ),
                ],
            ),
        ),
    )
}

/// The JSON text of the capture settings, members in key order as
/// `serde_json` writes them; the key itself is never part of it.
pub open spec fn provider_settings_text(configured: bool) -> Seq<char> {
    seq!['{'] + crate::json::quoted("providers"@) + seq![':', '[', '{'] + entry_text(configured) + seq!['}', ']', '}']
}

fn member(k: &str, v: JsonValue) -> (r: (String, JsonValue))
    ensures
        r.0@ == k@,
        r.1 == v,
{
    (own(k), v)
}

/// The platforms RedFox serves, as the settings list them.
pub open spec fn platforms_shape(pl: Seq<JsonValue>) -> bool {
    &&& pl.len() == 3
    &&& pl[0] matches JsonValue::Str(x) && x@ == "微信公众号"@
    &&& pl[1] matches JsonValue::Str(x) && x@ == "抖音"@
    &&& pl[2] matches JsonValue::Str(x) && x@ == "小红书"@
}

/// The members of the RedFox entry, in key order.
pub open spec fn entry_shape(fs: Seq<(String, JsonValue)>, configured: bool) -> bool {
    &&& fs.len() == 6
    &&& fs[0].0@ == "automaticSync"@ && fs[0].1 == JsonValue::Bool(false)
    &&& fs[1].0@ == "configured"@ && fs[1].1 == JsonValue::Bool(configured)
    &&& fs[2].0@ == "id"@ && (fs[2].1 matches JsonValue::Str(x) && x@ == "redfox"@)
    &&& fs[3].0@ == "label"@ && (fs[3].1 matches JsonValue::Str(x) && x@ == "RedFoxHub"@)
    &&& fs[4].0@ == "mediaDownload"@ && fs[4].1 == JsonValue::Bool(false)
    &&& fs[5].0@ == "supportedPlatforms"@ && (fs[5].1 matches JsonValue::Array(v) && platforms_shape(v@))
}

proof fn lemma_entry_wf(fs: Seq<(String, JsonValue)>, configured: bool)
    requires
        entry_shape(fs, configured),
    ensures
        crate::json::keys_ordered(fs),
        crate::json::members_wf(fs),
{
    reveal_strlit("automaticSync");
    reveal_strlit("configured");
    reveal_strlit("id");
    reveal_strlit("label");
    reveal_strlit("mediaDownload");
    reveal_strlit("supportedPlatforms");
    let firsts = seq!['a', 'c', 'i', 'l', 'm', 's'];
    assert forall|i: int| 0 <= i < 6 implies (#[trigger] fs[i]).0@.len() > 0 && fs[i].0@[0] == firsts[i] by {}
    assert forall|i: int, j: int| #![trigger fs[i], fs[j]] 0 <= i < j < fs.len() implies crate::text::key_lt(
        fs[i].0@,
        fs[j].0@,
    ) by {
        assert((firsts[i] as int) < (firsts[j] as int));
    }
    let pl = fs[5].1->Array_0@;
    crate::json::lemma_items_wf(pl);
    crate::json::lemma_members_wf(fs);
}

proof fn lemma_platforms(pl: Seq<JsonValue>)
    requires
        platforms_shape(pl),
    ensures
        crate::json::items_view(pl) == seq![jstr("微信公众号"@), jstr("抖音"@), jstr("小红书"@)],
        crate::json::items_text(pl) == crate::json::quoted("微信公众号"@) + seq![','] + crate::json::quoted("抖音"@)
            + seq![','] + crate::json::quoted("小红书"@),
{
    let p1 = pl.drop_first();
    let p2 = p1.drop_first();
    let p3 = p2.drop_first();
    assert(p3.len() == 0);
    assert(crate::json::items_view(p3) == Seq::<Json>::empty());
    assert(p2[0] == pl[2] && p1[0] == pl[1]);
    assert(json_view(pl[0]) == jstr("微信公众号"@));
    assert(json_view(pl[1]) == jstr("抖音"@));
    assert(json_view(pl[2]) == jstr("小红书"@));
    assert(p3 == p2.drop_first());
    assert(crate::json::items_view(p2) =~= seq![jstr("小红书"@)]);
    assert(crate::json::items_view(p1) =~= seq![jstr("抖音"@), jstr("小红书"@)]);
    assert(crate::json::items_view(pl) =~= seq![jstr("微信公众号"@), jstr("抖音"@), jstr("小红书"@)]);
    assert(crate::json::json_text(pl[0]) == crate::json::quoted("微信公众号"@));
    assert(crate::json::json_text(pl[1]) == crate::json::quoted("抖音"@));
    assert(crate::json::json_text(pl[2]) == crate::json::quoted("小红书"@));
    assert(pl.drop_last().drop_last() =~= seq![pl[0]]);
    assert(crate::json::items_text(pl.drop_last().drop_last()) == crate::json::json_text(pl[0]));
    assert(pl.drop_last().last() == pl[1]);
    assert(pl.drop_last().len() == 2);
    assert(pl.last() == pl[2]);
    assert(crate::json::items_text(pl.drop_last()) == crate::json::quoted("微信公众号"@) + seq![',']
        + crate::json::quoted("抖音"@));
}

proof fn lemma_entry_view(fs: Seq<(String, JsonValue)>, configured: bool)
    requires
        entry_shape(fs, configured),
    ensures
        crate::json::members_view(fs) == Map::empty().insert("id"@, jstr("redfox"@)).insert(
            "label"@,
            jstr("RedFoxHub"@),
        ).insert("configured"@, Json::Bool(configured)).insert(
            "supportedPlatforms"@,
            Json::Arr(seq![jstr("微信公众号"@), jstr("抖音"@), jstr("小红书"@)]),
        ).insert("automaticSync"@, Json::Bool(false)).insert("mediaDownload"@, Json::Bool(false)),
{
    reveal_strlit("automaticSync");
    reveal_strlit("configured");
    reveal_strlit("id");
    reveal_strlit("label");
    reveal_strlit("mediaDownload");
    reveal_strlit("supportedPlatforms");
    assert("automaticSync"@.len() == 13 && "configured"@.len() == 10 && "id"@.len() == 2 && "label"@.len() == 5
        && "mediaDownload"@.len() == 13 && "supportedPlatforms"@.len() == 18);
    assert("automaticSync"@[0] == 'a' && "mediaDownload"@[0] == 'm');
    let pl = fs[5].1->Array_0@;
    lemma_platforms(pl);
    let m1 = fs.drop_first();
    let m2 = m1.drop_first();
    let m3 = m2.drop_first();
    let m4 = m3.drop_first();
    let m5 = m4.drop_first();
    let m6 = m5.drop_first();
    assert(m6.len() == 0);
    assert(m5 =~= seq![fs[5]] && m4[0] == fs[4] && m3[0] == fs[3] && m2[0] == fs[2] && m1[0] == fs[1]);
    assert(json_view(fs[5].1) == Json::Arr(seq![jstr("微信公众号"@), jstr("抖音"@), jstr("小红书"@)]));
    assert(json_view(fs[4].1) == Json::Bool(false));
    assert(json_view(fs[1].1) == Json::Bool(configured));
    assert(json_view(fs[0].1) == Json::Bool(false));
    assert(json_view(fs[2].1) == jstr("redfox"@));
    assert(json_view(fs[3].1) == jstr("RedFoxHub"@));
    let v6 = Map::<Seq<char>, Json>::empty();
    assert(crate::json::members_view(m6) == v6);
    let v5 = v6.insert("supportedPlatforms"@, Json::Arr(seq![jstr("微信公众号"@), jstr("抖音"@), jstr("小红书"@)]));
    assert(crate::json::members_view(m5) == v5);
    let v4 = v5.insert("mediaDownload"@, Json::Bool(false));
    assert(crate::json::members_view(m4) == v4);
    let v3 = v4.insert("label"@, jstr("RedFoxHub"@));
    assert(crate::json::members_view(m3) == v3);
    let v2 = v3.insert("id"@, jstr("redfox"@));
    assert(crate::json::members_view(m2) == v2);
    let v1 = v2.insert("configured"@, Json::Bool(configured));
    assert(crate::json::members_view(m1) == v1);
    let v0 = v1.insert("automaticSync"@, Json::Bool(false));
    assert(crate::json::members_view(fs) == v0);
    assert(v0 =~= Map::empty().insert("id"@, jstr("redfox"@)).insert("label"@, jstr("RedFoxHub"@)).insert(
        "configured"@,
        Json::Bool(configured),
    ).insert("supportedPlatforms"@, Json::Arr(seq![jstr("微信公众号"@), jstr("抖音"@), jstr("小红书"@)])).insert(
        "automaticSync"@,
        Json::Bool(false),
    ).insert("mediaDownload"@, Json::Bool(false)));
}

/// The JSON text of the RedFox entry's members.
pub open spec fn entry_text(configured: bool) -> Seq<char> {
    let q = |t: Seq<char>| crate::json::quoted(t);
    q("automaticSync"@) + ":false,"@ + q("configured"@) + seq![':'] + (if configured {
        "true"@
    } else {
        "false"@
    }) + seq![','] + q("id"@) + seq![':'] + q("redfox"@) + seq![','] + q("label"@) + seq![':'] + q("RedFoxHub"@)
        + seq![','] + q("mediaDownload"@) + ":false,"@ + q("supportedPlatforms"@) + seq![':', '['] + q("微信公众号"@)
        + seq![','] + q("抖音"@) + seq![','] + q("小红书"@) + seq![']']
}

#[verifier::spinoff_prover]
#[verifier::rlimit(60)]
proof fn lemma_entry_text(fs: Seq<(String, JsonValue)>, configured: bool)
    requires
        entry_shape(fs, configured),
    ensures
        crate::json::members_text(fs) == entry_text(configured),
{
    reveal_strlit("false");
    reveal_strlit(":false,");
    let pl = fs[5].1->Array_0@;
    lemma_platforms(pl);
    let q = |t: Seq<char>| crate::json::quoted(t);
    let b = if configured {
        "true"@
    } else {
        "false"@
    };
    let f5 = fs.drop_last();
    let f4 = f5.drop_last();
    let f3 = f4.drop_last();
    let f2 = f3.drop_last();
    let f1 = f2.drop_last();
    assert(f1 =~= seq![fs[0]] && f2.last() == fs[1] && f3.last() == fs[2] && f4.last() == fs[3] && f5.last()
        == fs[4] && fs.last() == fs[5]);
    assert(f2.len() == 2 && f3.len() == 3 && f4.len() == 4 && f5.len() == 5);
    assert(crate::json::json_text(fs[0].1) == "false"@);
    assert(crate::json::json_text(fs[1].1) == b);
    assert(crate::json::json_text(fs[4].1) == "false"@);
    assert(crate::json::json_text(fs[2].1) == q("redfox"@));
    assert(crate::json::json_text(fs[3].1) == q("RedFoxHub"@));
    assert(crate::json::json_text(fs[5].1) == seq!['['] + crate::json::items_text(pl) + seq![']']);
    let t1 = q("automaticSync"@) + seq![':'] + "false"@;
    assert(crate::json::members_text(f1) == t1);
    let t2 = t1 + seq![','] + q("configured"@) + seq![':'] + b;
    assert(crate::json::members_text(f2) == t2);
    let t3 = t2 + seq![','] + q("id"@) + seq![':'] + q("redfox"@);
    assert(crate::json::members_text(f3) == t3);
    let t4 = t3 + seq![','] + q("label"@) + seq![':'] + q("RedFoxHub"@);
    assert(crate::json::members_text(f4) == t4);
    let t5 = t4 + seq![','] + q("mediaDownload"@) + seq![':'] + "false"@;
    assert(crate::json::members_text(f5) == t5);
    let t6 = t5 + seq![','] + q("supportedPlatforms"@) + seq![':'] + (seq!['['] + crate::json::items_text(pl)
        + seq![']']);
    assert(crate::json::members_text(fs) == t6);
    assert(t6 =~= entry_text(configured));
}

/// `capture_provider_config`: the capture providers and whether each has a key;
/// the key itself is never part of it.
#[verifier::spinoff_prover]
#[verifier::rlimit(60)]
pub fn capture_provider_config(configured: bool) -> (r: JsonValue)
    ensures
        r@ == provider_settings_of(configured),
        crate::json::json_text(r) == provider_settings_text(configured),
        crate::json::json_wf(r),
{
    let platforms: Vec<JsonValue> = vec![
        JsonValue::text("微信公众号"),
        JsonValue::text("抖音"),
        JsonValue::text("小红书"),
    ];
    let fields: Vec<(String, JsonValue)> = vec![
        member("automaticSync", JsonValue::Bool(false)),
        member("configured", JsonValue::Bool(configured)),
        member("id", JsonValue::text("redfox")),
        member("label", JsonValue::text("RedFoxHub")),
        member("mediaDownload", JsonValue::Bool(false)),
        member("supportedPlatforms", JsonValue::Array(platforms)),
    ];
    let ghost fs = fields@;
    proof {
        assert(fs[2].1@ == jstr("redfox"@));
        assert(fs[2].1 matches JsonValue::Str(x) && x@ == "redfox"@);
        assert(fs[3].1@ == jstr("RedFoxHub"@));
        assert(fs[3].1 matches JsonValue::Str(x) && x@ == "RedFoxHub"@);
        let pl = fs[5].1->Array_0@;
        assert(pl[0]@ == jstr("微信公众号"@) && pl[1]@ == jstr("抖音"@) && pl[2]@ == jstr("小红书"@));
        assert(pl[0] matches JsonValue::Str(x) && x@ == "微信公众号"@);
        assert(pl[1] matches JsonValue::Str(x) && x@ == "抖音"@);
        assert(pl[2] matches JsonValue::Str(x) && x@ == "小红书"@);
        assert(platforms_shape(pl));
        assert(entry_shape(fs, configured));
        lemma_entry_view(fs, configured);
        lemma_entry_text(fs, configured);
        lemma_entry_wf(fs, configured);
    }
    let provider = JsonValue::Object(fields);
    let ghost pv = provider;
    let list: Vec<JsonValue> = vec![provider];
    let ghost ls = list@;
    let top: Vec<(String, JsonValue)> = vec![member("providers", JsonValue::Array(list))];
    let ghost ts = top@;
    let r = JsonValue::Object(top);
    proof {
        assert(ls =~= seq![pv]);
        crate::json::lemma_items_single(pv);
        assert(crate::json::items_text(ls) == crate::json::json_text(pv));
        assert(ts.len() == 1);
        assert(ts[0].0@ == "providers"@);
        assert(ts[0].1 matches JsonValue::Array(l) && l@ == ls);
        assert(crate::json::members_view(ts.drop_first()) == Map::<Seq<char>, Json>::empty());
        assert(json_view(pv) == Json::Obj(crate::json::members_view(fs)));
        assert(json_view(ts[0].1) == Json::Arr(seq![json_view(pv)]));
        assert(crate::json::members_view(ts) == Map::<Seq<char>, Json>::empty().insert(
            "providers"@,
            Json::Arr(seq![json_view(pv)]),
        ));
        assert(r@ =~= provider_settings_of(configured));
        assert(crate::json::json_text(pv) == seq!['{'] + entry_text(configured) + seq!['}']);
        assert(crate::json::json_text(ts[0].1) == seq!['['] + crate::json::json_text(pv) + seq![']']);
        assert(crate::json::members_text(ts) == crate::json::quoted("providers"@) + seq![':']
            + crate::json::json_text(ts[0].1));
        assert(crate::json::json_text(r) =~= provider_settings_text(configured));
        assert(crate::json::json_wf(pv));
        assert(ls[0] == pv);
        assert(crate::json::items_wf(ls.drop_first()));
        assert(crate::json::items_wf(ls));
        assert(crate::json::json_wf(ts[0].1));
        assert(crate::json::members_wf(ts.drop_first()));
        assert(crate::json::members_wf(ts));
        assert(crate::json::keys_ordered(ts));
        assert(crate::json::json_wf(r));
    }
    r
}

// ---------------------------------------------------------------------------
// Local tools and web pages.
/// Calls `Path::exists` on `path`; what is on disk is not stated.
#[verifier::external_body]
fn path_exists(path: &str) -> bool {
    std::path::Path::new(path).exists()
}

/// The first candidate whose probe found it, in the order given.
pub open spec fn first_existing_of(candidates: Seq<Seq<char>>, found: Seq<bool>) -> Option<Seq<char>>
    decreases candidates.len(),
{
    if candidates.len() == 0 || found.len() == 0 {
        None
    } else if found[0] {
        Some(candidates[0])
    } else {
        first_existing_of(candidates.drop_first(), found.drop_first())
    }
}

/// The candidate paths as text.
pub open spec fn paths_view(candidates: Seq<&str>) -> Seq<Seq<char>> {
    candidates.map_values(|c: &str| c@)
}

/// The first candidate path whose probe (`found`, one per candidate) found it.
pub fn first_existing(candidates: &[&str], found: &[bool]) -> (r: Option<String>)
    requires
        found@.len() == candidates@.len(),
    ensures
        crate::records::opt_seq(r) == first_existing_of(paths_view(candidates@), found@),
{
    let ghost cv = paths_view(candidates@);
    let mut i: usize = 0;
    assert(cv.skip(0) =~= cv);
    assert(found@.skip(0) =~= found@);
    while i < candidates.len()
        invariant
            i <= candidates@.len(),
            found@.len() == candidates@.len(),
            cv == paths_view(candidates@),
            first_existing_of(cv, found@) == first_existing_of(cv.skip(i as int), found@.skip(i as int)),
        decreases candidates.len() - i,
    {
        let ghost rest_c = cv.skip(i as int);
        let ghost rest_f = found@.skip(i as int);
        assert(rest_c[0] == candidates@[i as int]@);
        assert(rest_f[0] == found@[i as int]);
        if found[i] {
            return Some(own(candidates[i]));
        }
        assert(rest_c.drop_first() =~= cv.skip(i + 1));
        assert(rest_f.drop_first() =~= found@.skip(i + 1));
        i = i + 1;
    }
    assert(cv.skip(i as int).len() == 0);
    None
}

/// `executable`: the first of the candidate paths that exists on disk. Each
/// candidate is probed on disk; what the disk holds is not stated, so the
/// contract says that the result is the first candidate of some outcome of the
/// probes.
pub fn executable(candidates: &[&str]) -> (r: Option<String>)
    ensures
        exists|found: Seq<bool>|
            found.len() == candidates@.len() && crate::records::opt_seq(r) == #[trigger] first_existing_of(
                paths_view(candidates@),
                found,
            ),
{
    let mut found: Vec<bool> = Vec::new();
    let mut i: usize = 0;
    while i < candidates.len()
        invariant
            i <= candidates@.len(),
            found@.len() == i,
        decreases candidates.len() - i,
    {
        found.push(path_exists(candidates[i]));
        i = i + 1;
    }
    first_existing(candidates, found.as_slice())
}

/// Whether `regex::escape` puts a backslash before `c`: the meta characters of
/// `regex_syntax::is_meta_character`.
pub open spec fn is_meta_char(c: char) -> bool {
    c == '\\' || c == '.' || c == '+' || c == '*' || c == '?' || c == '(' || c == ')' || c == '|' || c == '['
        || c == ']' || c == '{' || c == '}' || c == '^' || c == '$' || c == '#' || c == '&' || c == '-' || c == '~'
}

/// `regex::escape`: each meta character gets a backslash before it.
pub open spec fn escaped_of(text: Seq<char>) -> Seq<char>
    decreases text.len(),
{
    if text.len() == 0 {
        Seq::empty()
    } else {
        escaped_of(text.drop_last()) + if is_meta_char(text.last()) {
            seq!['\\', text.last()]
        } else {
            seq![text.last()]
        }
    }
}

/// Calls `regex::escape`, which (through `regex_syntax::escape_into`) copies the
/// text and puts a backslash before each meta character.
#[verifier::external_body]
fn regex_escape(text: &str) -> (r: String)
    ensures
        r@ == escaped_of(text@),
{
    regex::escape(text)
}

/// The text of the first capture group in the first match that the regex crate
/// finds for `pattern` in `haystack`; `None` when the pattern does not compile,
/// nothing matches, or the group takes no part in the match.
pub uninterp spec fn group_of(pattern: Seq<char>, haystack: Seq<char>) -> Option<Seq<char>>;

/// Calls `Regex::new` on `pattern`, then `Regex::captures` on `haystack`,
/// `Captures::get(1)` and `Match::as_str`. The result depends on the pattern and
/// the text alone and is named `group_of` of them; what the regex engine matches
/// is not stated.
#[verifier::external_body]
fn regex_group(pattern: &str, haystack: &str) -> (r: Option<String>)
    ensures
        crate::records::opt_seq(r) == group_of(pattern@, haystack@),
{
    let re = regex::Regex::new(pattern).ok()?;
    let caps = re.captures(haystack)?;
    caps.get(1).map(|m| m.as_str().to_string())
}

/// The two patterns that find the `content` of a `<meta>` tag named `escaped`,
/// with the name before or after the content.
pub open spec fn meta_patterns_of(escaped: Seq<char>) -> (Seq<char>, Seq<char>) {
    (
        "(?is)<meta[^>]+(?:property|name)=[\"']"@ + escaped + "[\"'][^>]+content=[\"']([^\"']*)[\"']"@,
        "(?is)<meta[^>]+content=[\"']([^\"']*)[\"'][^>]+(?:property|name)=[\"']"@ + escaped + "[\"']"@,
    )
}

/// The two patterns for a `<meta>` tag named `escaped` (already escaped).
pub fn meta_patterns(escaped: &str) -> (r: (String, String))
    ensures
        (r.0@, r.1@) == meta_patterns_of(escaped@),
{
    let a = concat("(?is)<meta[^>]+(?:property|name)=[\"']", escaped);
    let a2 = concat(a.as_str(), "[\"'][^>]+content=[\"']([^\"']*)[\"']");
    let b = concat("(?is)<meta[^>]+content=[\"']([^\"']*)[\"'][^>]+(?:property|name)=[\"']", escaped);
    let b2 = concat(b.as_str(), "[\"']");
    (a2, b2)
}

/// The trimmed first group of the first match of `pattern` in `html`.
fn first_group(pattern: &str, html: &str) -> (r: Option<String>)
    ensures
        crate::records::opt_seq(r) == (match group_of(pattern@, html@) {
            Some(v) => Some(trimmed(v)),
            None => None,
        }),
{
    match regex_group(pattern, html) {
        Some(t) => Some(crate::text::trim(t.as_str())),
        None => None,
    }
}

/// What `html_meta` reads for `key`: the trimmed content the first pattern
/// finds, else the one the second finds, else empty text.
pub open spec fn meta_of(html: Seq<char>, key: Seq<char>) -> Seq<char> {
    let (a, b) = meta_patterns_of(escaped_of(key));
    match group_of(a, html) {
        Some(v) => trimmed(v),
        None => match group_of(b, html) {
            Some(v) => trimmed(v),
            None => Seq::empty(),
        },
    }
}

/// `html_meta`: the trimmed `content` of the first `<meta>` tag named `key`
/// that either pattern finds, or empty text.
pub fn html_meta(html: &str, key: &str) -> (r: String)
    ensures
        r@ == meta_of(html@, key@),
{
    let escaped = regex_escape(key);
    let (a, b) = meta_patterns(escaped.as_str());
    match first_group(a.as_str(), html) {
        Some(v) => v,
        None => match first_group(b.as_str(), html) {
            Some(v) => v,
            None => String::new(),
        },
    }
}

pub open spec fn web_metadata_of(
    title: Seq<char>,
    description: Seq<char>,
    url: Seq<char>,
    thumbnail: Seq<char>,
    uploader: Seq<char>,
) -> Json {
    Json::Obj(
        Map::empty().insert("title"@, jstr(title)).insert("description"@, jstr(description)).insert(
            "webpage_url"@,
            jstr(url),
        ).insert("thumbnail"@, jstr(thumbnail)).insert("uploader"@, jstr(uploader)),
    )
}

/// The metadata a web page gives: its Open Graph title, description (else the
/// plain description), image and author, and the address it was read from.
pub open spec fn page_metadata_of(html: Seq<char>, final_url: Seq<char>) -> Json {
    let og = meta_of(html, "og:description"@);
    web_metadata_of(
        meta_of(html, "og:title"@),
        if og.len() == 0 {
            meta_of(html, "description"@)
        } else {
            og
        },
        final_url,
        meta_of(html, "og:image"@),
        meta_of(html, "article:author"@),
    )
}

pub fn web_metadata(html: &str, final_url: &str) -> (r: JsonValue)
    ensures
        r@ == page_metadata_of(html@, final_url@),
        crate::json::json_wf(r),
{
    let title = html_meta(html, "og:title");
    let og = html_meta(html, "og:description");
    let description = if og.as_str().is_empty() {
        html_meta(html, "description")
    } else {
        og
    };
    let thumb = html_meta(html, "og:image");
    let author = html_meta(html, "article:author");
    let mut o = JsonValue::empty_object();
    o.insert("title", JsonValue::from_string(title));
    o.insert("description", JsonValue::from_string(description));
    o.insert("webpage_url", JsonValue::text(final_url));
    o.insert("thumbnail", JsonValue::from_string(thumb));
    o.insert("uploader", JsonValue::from_string(author));
    o
}

} // verus!
