//! Fingerprints: the keys that make repeated actions, timeline events and
//! captured items recognisable, written as sixteen lowercase hex digits of
//! the standard library's default hash.
use vstd::prelude::*;
use std::collections::hash_map::DefaultHasher;
use std::hash::{BuildHasher, BuildHasherDefault};
use crate::json::{JsonValue, json_text, to_json_text, hex_char, field_text};
use crate::text::concat;

verus! {

/// The default hash (`DefaultHasher`, as `new` makes it) of two texts written
/// one after the other.
pub uninterp spec fn pair_hash(a: Seq<char>, b: Seq<char>) -> u64;

/// The default hash of three texts written one after the other.
pub uninterp spec fn triple_hash(a: Seq<char>, b: Seq<char>, c: Seq<char>) -> u64;

/// Calls `BuildHasher::hash_one` on a default `BuildHasherDefault<DefaultHasher>`
/// with the pair `(a, b)`, which writes `a` and then `b` into a fresh
/// `DefaultHasher`. The contract names the result `pair_hash` of the two texts:
/// `DefaultHasher::new` is documented to give the same hasher every time, so the
/// same texts give the same hash; nothing is said of its value.
#[verifier::external_body]
fn hash_pair(a: &str, b: &str) -> (r: u64)
    ensures
        r == pair_hash(a@, b@),
{
    BuildHasherDefault::<DefaultHasher>::default().hash_one((a, b))
}

/// Calls `BuildHasher::hash_one` with the triple `(a, b, c)`, as `hash_pair` does
/// with a pair; the result is named `triple_hash` of the three texts.
#[verifier::external_body]
fn hash_triple(a: &str, b: &str, c: &str) -> (r: u64)
    ensures
        r == triple_hash(a@, b@, c@),
{
    BuildHasherDefault::<DefaultHasher>::default().hash_one((a, b, c))
}

/// The last `k` hex digits of `n`, most significant first.
pub open spec fn hex_fixed(n: nat, k: nat) -> Seq<char>
    decreases k,
{
    if k == 0 {
        Seq::empty()
    } else {
        hex_fixed(n / 16, (k - 1) as nat).push(hex_char((n % 16) as int))
    }
}

fn push_hex_fixed(out: &mut String, n: u64, k: u32)
    ensures
        final(out)@ == old(out)@ + hex_fixed(n as nat, k as nat),
    decreases k,
{
    if k > 0 {
        push_hex_fixed(out, n / 16, k - 1);
        let d = (n % 16) as u32;
        let c = if d < 10 {
            crate::text::digit_char_exec(d as u8)
        } else if d == 10 {
            'a'
        } else if d == 11 {
            'b'
        } else if d == 12 {
            'c'
        } else if d == 13 {
            'd'
        } else if d == 14 {
            'e'
        } else {
            'f'
        };
        out.push(c);
        assert(final(out)@ =~= old(out)@ + hex_fixed(n as nat, k as nat));
    } else {
        assert(final(out)@ =~= old(out)@ + hex_fixed(n as nat, k as nat));
    }
}

/// `format!("{:016x}", n)`.
pub fn hex16(n: u64) -> (r: String)
    ensures
        r@ == hex_fixed(n as nat, 16),
{
    let mut s = String::new();
    push_hex_fixed(&mut s, n, 16);
    assert(s@ =~= hex_fixed(n as nat, 16));
    s
}

pub open spec fn action_key_of(tool: Seq<char>, input: JsonValue) -> Seq<char> {
    "agent:"@ + hex_fixed(pair_hash(tool, json_text(input)) as nat, 16)
}

/// `action_idempotency_key`: the tool and the JSON text of its input, hashed.
pub fn action_idempotency_key(tool: &str, input: &JsonValue) -> (r: String)
    ensures
        r@ == action_key_of(tool@, *input),
{
    let text = to_json_text(input);
    let h = hash_pair(tool, text.as_str());
    concat("agent:", hex16(h).as_str())
}

/// The same tool with an input of the same JSON text gets the same key.
pub proof fn lemma_idempotency_key_repeats(tool: Seq<char>, a: JsonValue, b: JsonValue)
    requires
        json_text(a) == json_text(b),
    ensures
        action_key_of(tool, a) == action_key_of(tool, b),
{
}

pub open spec fn timeline_key_of(source_id: Seq<char>, change: JsonValue) -> Seq<char> {
    "timeline:"@ + hex_fixed(pair_hash(source_id, json_text(change)) as nat, 16)
}

/// `timeline_event_key`: the source record and the JSON text of the change, hashed.
pub fn timeline_event_key(source_id: &str, change: &JsonValue) -> (r: String)
    ensures
        r@ == timeline_key_of(source_id@, *change),
{
    let text = to_json_text(change);
    let h = hash_pair(source_id, text.as_str());
    concat("timeline:", hex16(h).as_str())
}

pub open spec fn content_hash_of(canonical: crate::json::Json) -> Seq<char> {
    hex_fixed(
        triple_hash(
            field_text(canonical, "platformCode"@),
            field_text(canonical, "title"@),
            field_text(canonical, "content"@),
        ) as nat,
        16,
    )
}

/// `content_hash`: a captured item's platform, title and content, hashed.
pub fn content_hash(canonical: &JsonValue) -> (r: String)
    ensures
        r@ == content_hash_of(canonical@),
{
    let p = canonical.text_of("platformCode");
    let t = canonical.text_of("title");
    let c = canonical.text_of("content");
    let h = hash_triple(p.as_str(), t.as_str(), c.as_str());
    hex16(h)
}

} // verus!
