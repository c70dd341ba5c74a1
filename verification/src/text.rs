//! Character-level text operations with their mathematical meaning.
//!
//! Strings are viewed as `Seq<char>`; every operation here states its result
//! over that view.
use vstd::prelude::*;

verus! {

/// Appending a character to a `String` extends its character sequence by that character.
pub assume_specification[ String::push ](s: &mut String, ch: char)
    ensures
        final(s)@ == old(s)@.push(ch),
;

/// The Unicode `White_Space` characters, which `char::is_whitespace` accepts.
pub open spec fn is_ws(c: char) -> bool {
    ||| c == ' '
    ||| ('\u{9}' <= c && c <= '\u{d}')
    ||| c == '\u{85}'
    ||| c == '\u{a0}'
    ||| c == '\u{1680}'
    ||| ('\u{2000}' <= c && c <= '\u{200a}')
    ||| c == '\u{2028}'
    ||| c == '\u{2029}'
    ||| c == '\u{202f}'
    ||| c == '\u{205f}'
    ||| c == '\u{3000}'
}

pub open spec fn trim_start(s: Seq<char>) -> Seq<char>
    decreases s.len(),
{
    if s.len() > 0 && is_ws(s[0]) {
        trim_start(s.drop_first())
    } else {
        s
    }
}

pub open spec fn trim_end(s: Seq<char>) -> Seq<char>
    decreases s.len(),
{
    if s.len() > 0 && is_ws(s.last()) {
        trim_end(s.drop_last())
    } else {
        s
    }
}

/// `str::trim`: leading and trailing whitespace removed.
pub open spec fn trimmed(s: Seq<char>) -> Seq<char> {
    trim_end(trim_start(s))
}

pub open spec fn is_digit(c: char) -> bool {
    '0' <= c && c <= '9'
}

pub open spec fn all_digits(s: Seq<char>) -> bool {
    forall|i: int| 0 <= i < s.len() ==> #[trigger] is_digit(s[i])
}

pub open spec fn digit_value(c: char) -> int {
    (c as int) - ('0' as int)
}

pub open spec fn digits_value(s: Seq<char>) -> int
    decreases s.len(),
{
    if s.len() == 0 {
        0
    } else {
        10 * digits_value(s.drop_last()) + digit_value(s.last())
    }
}

/// The integer that `str::parse` gives for a type whose values lie in `[lo, hi]`:
/// an optional `+` or `-`, then one or more ASCII digits, and nothing else.
pub open spec fn parse_int(s: Seq<char>, lo: int, hi: int) -> Option<int> {
    let neg = s.len() > 0 && s[0] == '-';
    let signed = s.len() > 0 && (s[0] == '-' || s[0] == '+');
    let body = if signed { s.drop_first() } else { s };
    if body.len() == 0 || !all_digits(body) {
        None
    } else {
        let v = if neg { -digits_value(body) } else { digits_value(body) };
        if lo <= v && v <= hi { Some(v) } else { None }
    }
}

pub open spec fn parse_i128(s: Seq<char>) -> Option<int> {
    parse_int(s, i128::MIN as int, i128::MAX as int)
}

pub open spec fn parse_i64(s: Seq<char>) -> Option<int> {
    parse_int(s, i64::MIN as int, i64::MAX as int)
}

pub open spec fn digit_char(d: int) -> char {
    if d == 0 { '0' }
    else if d == 1 { '1' }
    else if d == 2 { '2' }
    else if d == 3 { '3' }
    else if d == 4 { '4' }
    else if d == 5 { '5' }
    else if d == 6 { '6' }
    else if d == 7 { '7' }
    else if d == 8 { '8' }
    else { '9' }
}

/// Decimal digits of a natural number, without leading zeros.
pub open spec fn nat_dec(n: nat) -> Seq<char>
    decreases n,
{
    if n < 10 {
        seq![digit_char(n as int)]
    } else {
        nat_dec((n / 10) as nat).push(digit_char((n % 10) as int))
    }
}

/// Decimal text of an integer, as `to_string` writes it.
pub open spec fn int_dec(v: int) -> Seq<char> {
    if v < 0 {
        seq!['-'] + nat_dec((-v) as nat)
    } else {
        nat_dec(v as nat)
    }
}

pub open spec fn starts_with(s: Seq<char>, p: Seq<char>) -> bool {
    p.len() <= s.len() && s.take(p.len() as int) == p
}

pub open spec fn ends_with(s: Seq<char>, p: Seq<char>) -> bool {
    p.len() <= s.len() && s.skip(s.len() - p.len()) == p
}

pub open spec fn occurs_at(s: Seq<char>, p: Seq<char>, i: int) -> bool {
    0 <= i && i + p.len() <= s.len() && s.subrange(i, i + p.len()) == p
}

/// First position at or after `i` where `p` occurs in `s`.
pub open spec fn find_from(s: Seq<char>, p: Seq<char>, i: int) -> Option<int>
    decreases s.len() + 1 - i,
{
    if i < 0 || i + p.len() > s.len() {
        None
    } else if occurs_at(s, p, i) {
        Some(i)
    } else {
        find_from(s, p, i + 1)
    }
}

/// `str::find`, counted in characters.
pub open spec fn find(s: Seq<char>, p: Seq<char>) -> Option<int> {
    find_from(s, p, 0)
}

/// `str::contains`.
pub open spec fn contains(s: Seq<char>, p: Seq<char>) -> bool {
    find(s, p) is Some
}

/// The text before the first character that belongs to `delims`
/// (the first item of `split` on a set of characters).
pub open spec fn before_any(s: Seq<char>, delims: Seq<char>) -> Seq<char>
    decreases s.len(),
{
    if s.len() == 0 {
        s
    } else if delims.contains(s[0]) {
        Seq::empty()
    } else {
        seq![s[0]] + before_any(s.drop_first(), delims)
    }
}

/// The characters of a `str`, one by one.
pub fn chars_of(s: &str) -> (r: Vec<char>)
    ensures
        r@ == s@,
{
    let mut r: Vec<char> = Vec::new();
    for c in it: s.chars()
        invariant
            r@ == it.seq().take(it.index() as int),
            it.seq() == s@,
    {
        r.push(c);
    }
    r
}

/// A `String` holding `cs[lo..hi]`.
pub fn string_of_range(cs: &[char], lo: usize, hi: usize) -> (r: String)
    requires
        lo <= hi <= cs@.len(),
    ensures
        r@ == cs@.subrange(lo as int, hi as int),
{
    let mut r = String::new();
    let mut i: usize = lo;
    while i < hi
        invariant
            lo <= i <= hi <= cs@.len(),
            r@ == cs@.subrange(lo as int, i as int),
        decreases hi - i,
    {
        r.push(cs[i]);
        i = i + 1;
        assert(r@ =~= cs@.subrange(lo as int, i as int));
    }
    r
}

pub fn string_of(cs: &[char]) -> (r: String)
    ensures
        r@ == cs@,
{
    let r = string_of_range(cs, 0, cs.len());
    assert(cs@.subrange(0, cs@.len() as int) =~= cs@);
    r
}

/// Equality of two texts.
pub fn eq_str(a: &str, b: &str) -> (r: bool)
    ensures
        r == (a@ == b@),
{
    a.to_owned() == b.to_owned()
}

/// An owned copy of a text.
pub fn own(s: &str) -> (r: String)
    ensures
        r@ == s@,
{
    s.to_owned()
}

/// `a` followed by `b`.
pub fn concat(a: &str, b: &str) -> (r: String)
    ensures
        r@ == a@ + b@,
{
    let mut r = a.to_owned();
    r.append(b);
    r
}

pub fn is_ws_char(c: char) -> (r: bool)
    ensures
        r == is_ws(c),
{
    c == ' ' || ('\u{9}' <= c && c <= '\u{d}') || c == '\u{85}' || c == '\u{a0}' || c
        == '\u{1680}' || ('\u{2000}' <= c && c <= '\u{200a}') || c == '\u{2028}' || c
        == '\u{2029}' || c == '\u{202f}' || c == '\u{205f}' || c == '\u{3000}'
}

proof fn lemma_trim_start_skip(s: Seq<char>, i: int)
    requires
        0 <= i <= s.len(),
        forall|j: int| 0 <= j < i ==> is_ws(#[trigger] s[j]),
    ensures
        trim_start(s) == trim_start(s.subrange(i, s.len() as int)),
    decreases i,
{
    if i > 0 {
        assert(s.drop_first().subrange(i - 1, s.drop_first().len() as int) =~= s.subrange(
            i,
            s.len() as int,
        ));
        assert forall|j: int| 0 <= j < i - 1 implies is_ws(#[trigger] s.drop_first()[j]) by {
            assert(s.drop_first()[j] == s[j + 1]);
        }
        lemma_trim_start_skip(s.drop_first(), i - 1);
    } else {
        assert(s.subrange(0, s.len() as int) =~= s);
    }
}

proof fn lemma_trim_end_take(s: Seq<char>, j: int)
    requires
        0 <= j <= s.len(),
        forall|k: int| j <= k < s.len() ==> is_ws(#[trigger] s[k]),
    ensures
        trim_end(s) == trim_end(s.subrange(0, j)),
    decreases s.len() - j,
{
    if j < s.len() {
        assert(s.drop_last().subrange(0, j) =~= s.subrange(0, j));
        lemma_trim_end_take(s.drop_last(), j);
    } else {
        assert(s.subrange(0, s.len() as int) =~= s);
    }
}

/// `str::trim`.
pub fn trim_chars(cs: &[char]) -> (r: (usize, usize))
    ensures
        r.0 <= r.1 <= cs@.len(),
        cs@.subrange(r.0 as int, r.1 as int) == trimmed(cs@),
{
    let n = cs.len();
    let mut i: usize = 0;
    while i < n && is_ws_char(cs[i])
        invariant
            i <= n == cs@.len(),
            forall|j: int| 0 <= j < i ==> is_ws(#[trigger] cs@[j]),
        decreases n - i,
    {
        i = i + 1;
    }
    proof {
        lemma_trim_start_skip(cs@, i as int);
    }
    let ghost mid = cs@.subrange(i as int, n as int);
    let mut j: usize = n;
    while j > i && is_ws_char(cs[j - 1])
        invariant
            i <= j <= n == cs@.len(),
            mid == cs@.subrange(i as int, n as int),
            forall|k: int| j - i <= k < mid.len() ==> is_ws(#[trigger] mid[k]),
        decreases j,
    {
        j = j - 1;
        assert(mid[j - i] == cs@[j as int]);
    }
    proof {
        lemma_trim_end_take(mid, j - i);
        assert(mid.subrange(0, j - i) =~= cs@.subrange(i as int, j as int));
        let t = cs@.subrange(i as int, j as int);
        if t.len() > 0 {
            assert(t[0] == cs@[i as int]);
            assert(t.last() == cs@[j - 1]);
        }
        assert(trim_start(mid) == mid);
        assert(trim_end(t) == t);
    }
    (i, j)
}

/// `str::trim`, as an owned text.
pub fn trim(s: &str) -> (r: String)
    ensures
        r@ == trimmed(s@),
{
    let cs = chars_of(s);
    let (i, j) = trim_chars(cs.as_slice());
    string_of_range(cs.as_slice(), i, j)
}

/// Whether the text, once trimmed, is empty.
pub fn is_blank(s: &str) -> (r: bool)
    ensures
        r == (trimmed(s@).len() == 0),
{
    let cs = chars_of(s);
    let (i, j) = trim_chars(cs.as_slice());
    i == j
}

/// Where the first line of `s` ends: at its first line feed, else at its end.
pub open spec fn line_end(s: Seq<char>) -> nat
    decreases s.len(),
{
    if s.len() == 0 || s[0] == '\n' {
        0
    } else {
        1 + line_end(s.drop_first())
    }
}

/// The first line of `s` that is not blank, as `str::lines` gives it (a
/// `\r` before its line feed dropped); empty text when every line is blank.
pub open spec fn first_nonblank_line_of(s: Seq<char>) -> Seq<char>
    decreases s.len(),
{
    let e = line_end(s);
    if e >= s.len() {
        if trimmed(s).len() > 0 {
            s
        } else {
            Seq::empty()
        }
    } else {
        let raw = s.take(e as int);
        let line = if raw.len() > 0 && raw.last() == '\r' {
            raw.drop_last()
        } else {
            raw
        };
        if trimmed(line).len() > 0 {
            line
        } else {
            first_nonblank_line_of(s.skip(e + 1int))
        }
    }
}

proof fn lemma_line_end(s: Seq<char>, k: int)
    requires
        0 <= k <= s.len(),
        forall|i: int| 0 <= i < k ==> #[trigger] s[i] != '\n',
        k < s.len() ==> s[k] == '\n',
    ensures
        line_end(s) == k,
    decreases k,
{
    if k > 0 {
        assert forall|i: int| 0 <= i < k - 1 implies #[trigger] s.drop_first()[i] != '\n' by {
            assert(s.drop_first()[i] == s[i + 1]);
        }
        if k < s.len() {
            assert(s.drop_first()[k - 1] == s[k]);
        }
        lemma_line_end(s.drop_first(), k - 1);
    }
}

/// The first line of `text` that is not blank, or empty text.
pub fn first_nonblank_line(text: &str) -> (r: String)
    ensures
        r@ == first_nonblank_line_of(text@),
{
    let cs = chars_of(text);
    let n = cs.len();
    let mut start: usize = 0;
    assert(cs@.skip(0) =~= cs@);
    while start <= n
        invariant
            start <= n,
            n == cs@.len(),
            cs@ == text@,
            first_nonblank_line_of(text@) == first_nonblank_line_of(cs@.skip(start as int)),
        decreases n + 1 - start,
    {
        let ghost s = cs@.skip(start as int);
        let mut e: usize = start;
        while e < n && cs[e] != '\n'
            invariant
                start <= e <= n,
                n == cs@.len(),
                forall|i: int| start <= i < e ==> cs@[i] != '\n',
            decreases n - e,
        {
            e = e + 1;
        }
        proof {
            assert forall|i: int| 0 <= i < e - start implies #[trigger] s[i] != '\n' by {
                assert(s[i] == cs@[start + i]);
            }
            if e < n {
                assert(s[e - start] == cs@[e as int]);
            }
            lemma_line_end(s, e - start);
            assert(s.len() == n - start);
        }
        if e == n {
            let whole = string_of_range(cs.as_slice(), start, n);
            proof {
                assert(whole@ =~= s);
            }
            if is_blank(whole.as_str()) {
                return String::new();
            }
            return whole;
        }
        let hi: usize = if e > start && cs[e - 1] == '\r' {
            e - 1
        } else {
            e
        };
        let line = string_of_range(cs.as_slice(), start, hi);
        proof {
            let raw = s.take(e - start);
            assert(raw =~= cs@.subrange(start as int, e as int));
            if e > start {
                assert(raw.last() == cs@[e - 1]);
                if cs@[e - 1] == '\r' {
                    assert(raw.drop_last() =~= line@);
                } else {
                    assert(raw =~= line@);
                }
            } else {
                assert(raw =~= line@);
            }
            assert(s.skip(e - start + 1) =~= cs@.skip(e + 1));
        }
        if !is_blank(line.as_str()) {
            return line;
        }
        start = e + 1;
    }
    String::new()
}

/// Whether `p` occurs in `s` at position `i`.
pub fn occurs_at_exec(s: &[char], p: &[char], i: usize) -> (r: bool)
    ensures
        r == occurs_at(s@, p@, i as int),
{
    if i > s.len() || p.len() > s.len() - i {
        return false;
    }
    let mut k: usize = 0;
    while k < p.len()
        invariant
            i + p@.len() <= s@.len(),
            i + p.len() <= s.len(),
            k <= p@.len(),
            forall|m: int| 0 <= m < k ==> s@[i + m] == p@[m],
        decreases p.len() - k,
    {
        if s[i + k] != p[k] {
            assert(s@.subrange(i as int, i + p@.len())[k as int] != p@[k as int]);
            return false;
        }
        k = k + 1;
    }
    assert(s@.subrange(i as int, i + p@.len()) =~= p@);
    true
}

/// `str::find`, counted in characters.
pub fn find_chars(s: &[char], p: &[char]) -> (r: Option<usize>)
    ensures
        r matches Some(i) ==> find(s@, p@) == Some(i as int),
        r is None ==> find(s@, p@) is None,
{
    let mut i: usize = 0;
    while i <= s.len()
        invariant
            i <= s@.len() + 1,
            find(s@, p@) == find_from(s@, p@, i as int),
        decreases s.len() + 1 - i,
    {
        if p.len() > s.len() - i {
            return None;
        }
        if occurs_at_exec(s, p, i) {
            return Some(i);
        }
        assert(i < s.len()) by {
            if i == s.len() {
                assert(s@.subrange(i as int, i as int) =~= p@);
            }
        }
        i = i + 1;
    }
    None
}

/// `str::contains`.
pub fn contains_str(s: &str, p: &str) -> (r: bool)
    ensures
        r == contains(s@, p@),
{
    let sc = chars_of(s);
    let pc = chars_of(p);
    find_chars(sc.as_slice(), pc.as_slice()).is_some()
}

/// `str::starts_with`.
pub fn starts_with_str(s: &str, p: &str) -> (r: bool)
    ensures
        r == starts_with(s@, p@),
{
    let sc = chars_of(s);
    let pc = chars_of(p);
    if pc.len() > sc.len() {
        return false;
    }
    let r = occurs_at_exec(sc.as_slice(), pc.as_slice(), 0);
    assert(sc@.subrange(0, pc@.len() as int) =~= sc@.take(pc@.len() as int));
    r
}

/// `str::ends_with`.
pub fn ends_with_str(s: &str, p: &str) -> (r: bool)
    ensures
        r == ends_with(s@, p@),
{
    let sc = chars_of(s);
    let pc = chars_of(p);
    if pc.len() > sc.len() {
        return false;
    }
    let r = occurs_at_exec(sc.as_slice(), pc.as_slice(), sc.len() - pc.len());
    assert(sc@.subrange(sc@.len() - pc@.len(), sc@.len() as int) =~= sc@.skip(
        sc@.len() - pc@.len(),
    ));
    r
}

/// Whether `c` is one of `delims`.
pub fn is_one_of(c: char, delims: &[char]) -> (r: bool)
    ensures
        r == delims@.contains(c),
{
    let mut k: usize = 0;
    while k < delims.len()
        invariant
            k <= delims@.len(),
            forall|m: int| 0 <= m < k ==> delims@[m] != c,
        decreases delims.len() - k,
    {
        if delims[k] == c {
            return true;
        }
        k = k + 1;
    }
    false
}

proof fn lemma_before_any_prefix(s: Seq<char>, delims: Seq<char>, j: int)
    requires
        0 <= j <= s.len(),
        forall|m: int| 0 <= m < j ==> !delims.contains(#[trigger] s[m]),
        j == s.len() || delims.contains(s[j]),
    ensures
        before_any(s, delims) == s.take(j),
    decreases j,
{
    if j == 0 {
        if s.len() == 0 {
            assert(s.take(0) =~= s);
        } else {
            assert(s.take(0) =~= Seq::<char>::empty());
        }
    } else {
        assert forall|m: int| 0 <= m < j - 1 implies !delims.contains(
            #[trigger] s.drop_first()[m],
        ) by {
            assert(s.drop_first()[m] == s[m + 1]);
        }
        if j - 1 < s.drop_first().len() {
            assert(s.drop_first()[j - 1] == s[j]);
        }
        lemma_before_any_prefix(s.drop_first(), delims, j - 1);
        assert(!delims.contains(s[0]));
        assert(seq![s[0]] + s.drop_first().take(j - 1) =~= s.take(j));
    }
}

/// The end (exclusive) of the text in `cs[lo..]` before the first delimiter.
pub fn before_any_end(cs: &[char], lo: usize, delims: &[char]) -> (r: usize)
    requires
        lo <= cs@.len(),
    ensures
        lo <= r <= cs@.len(),
        cs@.subrange(lo as int, r as int) == before_any(
            cs@.subrange(lo as int, cs@.len() as int),
            delims@,
        ),
{
    let ghost t = cs@.subrange(lo as int, cs@.len() as int);
    let mut j: usize = lo;
    while j < cs.len() && !is_one_of(cs[j], delims)
        invariant
            lo <= j <= cs@.len(),
            t == cs@.subrange(lo as int, cs@.len() as int),
            forall|m: int| 0 <= m < j - lo ==> !delims@.contains(#[trigger] t[m]),
        decreases cs.len() - j,
    {
        assert(t[j - lo] == cs@[j as int]);
        j = j + 1;
    }
    proof {
        if j < cs@.len() {
            assert(t[j - lo] == cs@[j as int]);
        }
        lemma_before_any_prefix(t, delims@, j - lo);
        assert(t.take(j - lo) =~= cs@.subrange(lo as int, j as int));
    }
    j
}

/// `to_lowercase`: the Unicode lowercase mapping of a text.
pub uninterp spec fn lowercase_of(s: Seq<char>) -> Seq<char>;

/// Calls `str::to_lowercase`; the contract names its result `lowercase_of`
/// of the text and claims nothing more about the Unicode case mapping.
#[verifier::external_body]
pub(crate) fn lowercase(s: &str) -> (r: String)
    ensures
        r@ == lowercase_of(s@),
{
    s.to_lowercase()
}


pub proof fn lemma_digits_value_nonneg(s: Seq<char>)
    requires
        all_digits(s),
    ensures
        digits_value(s) >= 0,
    decreases s.len(),
{
    if s.len() > 0 {
        assert(is_digit(s[s.len() - 1]));
        lemma_digits_value_nonneg(s.drop_last());
    }
}

pub open spec fn pow10(n: nat) -> int
    decreases n,
{
    if n == 0 {
        1
    } else {
        10 * pow10((n - 1) as nat)
    }
}

/// A digit string of length `n` denotes less than `10^n`.
pub proof fn lemma_digits_value_bound(s: Seq<char>)
    requires
        all_digits(s),
    ensures
        0 <= digits_value(s) < pow10(s.len()),
    decreases s.len(),
{
    if s.len() > 0 {
        assert(is_digit(s[s.len() - 1]));
        lemma_digits_value_bound(s.drop_last());
    }
}

proof fn lemma_digits_value_mono(s: Seq<char>, k: int)
    requires
        all_digits(s),
        0 <= k <= s.len(),
    ensures
        digits_value(s.take(k)) <= digits_value(s),
    decreases s.len() - k,
{
    if k < s.len() {
        assert(is_digit(s[s.len() - 1]));
        assert(all_digits(s.drop_last()));
        assert(s.drop_last().take(k) =~= s.take(k));
        lemma_digits_value_mono(s.drop_last(), k);
        lemma_digits_value_nonneg(s.drop_last());
    } else {
        assert(s.take(k) =~= s);
    }
}

/// `str::parse::<i128>` on a sequence of characters.
pub fn parse_i128_chars(cs: &[char]) -> (r: Option<i128>)
    ensures
        r matches Some(v) ==> parse_i128(cs@) == Some(v as int),
        r is None ==> parse_i128(cs@) is None,
{
    let n = cs.len();
    let neg = n > 0 && cs[0] == '-';
    let signed = n > 0 && (cs[0] == '-' || cs[0] == '+');
    let start: usize = if signed { 1 } else { 0 };
    let ghost body = if signed { cs@.drop_first() } else { cs@ };
    assert(body =~= cs@.subrange(start as int, n as int));
    if start >= n {
        return None;
    }
    let mut mag: u128 = 0;
    let mut k: usize = start;
    while k < n
        invariant
            start <= k <= n == cs@.len(),
            start < n,
            body == cs@.subrange(start as int, n as int),
            body == (if cs@.len() > 0 && (cs@[0] == '-' || cs@[0] == '+') {
                cs@.drop_first()
            } else {
                cs@
            }),
            neg == (cs@.len() > 0 && cs@[0] == '-'),
            all_digits(body.take(k - start)),
            mag as int == digits_value(body.take(k - start)),
        decreases n - k,
    {
        let c = cs[k];
        assert(body[k - start] == c);
        if !('0' <= c && c <= '9') {
            assert(!is_digit(body[k - start]));
            assert(!all_digits(body));
            assert(parse_int(cs@, i128::MIN as int, i128::MAX as int) is None);
            return None;
        }
        let d: u8 = if c == '0' { 0 } else if c == '1' { 1 } else if c == '2' { 2 } else if c
            == '3' { 3 } else if c == '4' { 4 } else if c == '5' { 5 } else if c == '6' {
            6
        } else if c == '7' { 7 } else if c == '8' { 8 } else { 9 };
        assert(d as int == digit_value(c));
        assert(body.take(k + 1 - start).drop_last() =~= body.take(k - start));
        assert(body.take(k + 1 - start).last() == c);
        assert(all_digits(body.take(k + 1 - start))) by {
            assert forall|i: int| 0 <= i < k + 1 - start implies #[trigger] is_digit(
                body.take(k + 1 - start)[i],
            ) by {
                if i < k - start {
                    assert(body.take(k + 1 - start)[i] == body.take(k - start)[i]);
                }
            }
        }
        if mag > (u128::MAX - d as u128) / 10 {
            proof {
                let p = body.take(k + 1 - start);
                assert(digits_value(p) == 10 * digits_value(body.take(k - start)) + d);
                assert(digits_value(p) > u128::MAX);
                if all_digits(body) {
                    assert(body.take(k + 1 - start).len() == k + 1 - start);
                    lemma_digits_value_mono(body, k + 1 - start);
                    lemma_digits_value_nonneg(body);
                }
            }
            return None;
        }
        mag = mag * 10 + d as u128;
        k = k + 1;
    }
    assert(body.take(n - start) =~= body);
    assert(mag as int == digits_value(body));
    assert(all_digits(body));
    assert(body.len() > 0);
    if neg {
        if mag > 0x8000_0000_0000_0000_0000_0000_0000_0000u128 {
            None
        } else if mag == 0x8000_0000_0000_0000_0000_0000_0000_0000u128 {
            Some(i128::MIN)
        } else {
            Some(-(mag as i128))
        }
    } else {
        if mag > 0x7fff_ffff_ffff_ffff_ffff_ffff_ffff_ffffu128 {
            None
        } else {
            Some(mag as i128)
        }
    }
}

/// `str::parse::<i128>`.
pub fn parse_i128_str(s: &str) -> (r: Option<i128>)
    ensures
        r matches Some(v) ==> parse_i128(s@) == Some(v as int),
        r is None ==> parse_i128(s@) is None,
{
    let cs = chars_of(s);
    parse_i128_chars(cs.as_slice())
}

/// `str::parse::<i64>`.
pub fn parse_i64_str(s: &str) -> (r: Option<i64>)
    ensures
        r matches Some(v) ==> parse_i64(s@) == Some(v as int),
        r is None ==> parse_i64(s@) is None,
{
    match parse_i128_str(s) {
        Some(v) => {
            if v < i64::MIN as i128 || v > i64::MAX as i128 {
                None
            } else {
                Some(v as i64)
            }
        },
        None => None,
    }
}

pub fn digit_char_exec(d: u8) -> (c: char)
    requires
        d < 10,
    ensures
        c == digit_char(d as int),
{
    if d == 0 { '0' } else if d == 1 { '1' } else if d == 2 { '2' } else if d == 3 { '3' } else if d
        == 4 { '4' } else if d == 5 { '5' } else if d == 6 { '6' } else if d == 7 { '7' } else if d
        == 8 { '8' } else { '9' }
}

/// Appends the decimal digits of `n`.
pub fn push_nat_dec(out: &mut String, n: u128)
    ensures
        final(out)@ == old(out)@ + nat_dec(n as nat),
    decreases n,
{
    if n >= 10 {
        push_nat_dec(out, n / 10);
    }
    let d = (n % 10) as u8;
    out.push(digit_char_exec(d));
    proof {
        if n >= 10 {
            assert(nat_dec(n as nat) == nat_dec((n / 10) as nat).push(digit_char((n % 10) as int)));
        } else {
            assert(nat_dec(n as nat) == seq![digit_char(n as int)]);
        }
        assert(final(out)@ =~= old(out)@ + nat_dec(n as nat));
    }
}

/// `i128::to_string`.
pub fn i128_to_string(v: i128) -> (r: String)
    ensures
        r@ == int_dec(v as int),
{
    let mut out = String::new();
    if v < 0 {
        out.push('-');
        let mag: u128 = if v == i128::MIN {
            0x8000_0000_0000_0000_0000_0000_0000_0000u128
        } else {
            (-v) as u128
        };
        push_nat_dec(&mut out, mag);
    } else {
        push_nat_dec(&mut out, v as u128);
    }
    assert(out@ =~= int_dec(v as int));
    out
}

/// `i64::to_string`.
pub fn i64_to_string(v: i64) -> (r: String)
    ensures
        r@ == int_dec(v as int),
{
    i128_to_string(v as i128)
}

/// `u64::to_string`.
pub fn u64_to_string(v: u64) -> (r: String)
    ensures
        r@ == int_dec(v as int),
{
    i128_to_string(v as i128)
}

// ---------------------------------------------------------------------------
// Key order.
/// Keys in the order of their characters (which is the order of their UTF-8 bytes).
pub open spec fn key_lt(a: Seq<char>, b: Seq<char>) -> bool
    decreases a.len(),
{
    if a.len() == 0 {
        b.len() > 0
    } else if b.len() == 0 {
        false
    } else if a[0] != b[0] {
        (a[0] as int) < (b[0] as int)
    } else {
        key_lt(a.drop_first(), b.drop_first())
    }
}

pub proof fn lemma_key_lt_trans(a: Seq<char>, b: Seq<char>, c: Seq<char>)
    requires
        key_lt(a, b),
        key_lt(b, c),
    ensures
        key_lt(a, c),
    decreases a.len(),
{
    if a.len() > 0 && b.len() > 0 && c.len() > 0 && a[0] == b[0] && b[0] == c[0] {
        lemma_key_lt_trans(a.drop_first(), b.drop_first(), c.drop_first());
    }
}

pub proof fn lemma_key_lt_total(a: Seq<char>, b: Seq<char>)
    requires
        a != b,
    ensures
        key_lt(a, b) || key_lt(b, a),
    decreases a.len(),
{
    if a.len() > 0 && b.len() > 0 && a[0] == b[0] {
        if a.drop_first() == b.drop_first() {
            assert(a =~= seq![a[0]] + a.drop_first());
            assert(b =~= seq![b[0]] + b.drop_first());
        }
        lemma_key_lt_total(a.drop_first(), b.drop_first());
    } else if a.len() == 0 && b.len() == 0 {
        assert(a =~= b);
    }
}

pub proof fn lemma_key_lt_irrefl(a: Seq<char>)
    ensures
        !key_lt(a, a),
    decreases a.len(),
{
    if a.len() > 0 {
        lemma_key_lt_irrefl(a.drop_first());
    }
}

/// Whether `a` comes before `b` in key order.
pub fn key_less(a: &str, b: &str) -> (r: bool)
    ensures
        r == key_lt(a@, b@),
{
    let ac = chars_of(a);
    let bc = chars_of(b);
    let mut i: usize = 0;
    assert(ac@.skip(0) =~= ac@);
    assert(bc@.skip(0) =~= bc@);
    while i < ac.len() && i < bc.len() && ac[i] == bc[i]
        invariant
            i <= ac@.len(),
            i <= bc@.len(),
            ac@ == a@,
            bc@ == b@,
            key_lt(a@, b@) == key_lt(ac@.skip(i as int), bc@.skip(i as int)),
        decreases ac.len() - i,
    {
        proof {
            assert(ac@.skip(i as int).drop_first() =~= ac@.skip(i + 1));
            assert(bc@.skip(i as int).drop_first() =~= bc@.skip(i + 1));
        }
        i = i + 1;
    }
    if i == ac.len() {
        i < bc.len()
    } else if i == bc.len() {
        false
    } else {
        ac[i] < bc[i]
    }
}

// ---------------------------------------------------------------------------
// Facts about trimming.
proof fn lemma_trim_start_head(s: Seq<char>)
    ensures
        trim_start(s).len() == 0 || !is_ws(trim_start(s)[0]),
    decreases s.len(),
{
    if s.len() > 0 && is_ws(s[0]) {
        lemma_trim_start_head(s.drop_first());
    }
}

proof fn lemma_trim_end_shape(x: Seq<char>)
    ensures
        trim_end(x).len() <= x.len(),
        trim_end(x) == x.take(trim_end(x).len() as int),
        trim_end(x).len() == 0 || !is_ws(trim_end(x).last()),
        x.len() > 0 && !is_ws(x[0]) ==> trim_end(x).len() > 0,
    decreases x.len(),
{
    if x.len() > 0 && is_ws(x.last()) {
        lemma_trim_end_shape(x.drop_last());
        let t = trim_end(x.drop_last());
        assert(x.drop_last().take(t.len() as int) =~= x.take(t.len() as int));
        if x.len() > 1 && !is_ws(x[0]) {
            assert(x.drop_last()[0] == x[0]);
        }
    } else {
        assert(x.take(x.len() as int) =~= x);
    }
}

/// Trimming trimmed text changes nothing.
pub proof fn lemma_trimmed_idempotent(s: Seq<char>)
    ensures
        trimmed(trimmed(s)) == trimmed(s),
{
    let a = trim_start(s);
    lemma_trim_start_head(s);
    lemma_trim_end_shape(a);
    let t = trim_end(a);
    if t.len() > 0 {
        assert(t[0] == a[0]);
        assert(trim_start(t) == t);
    } else {
        assert(trim_start(t) == t);
    }
    assert(trim_end(t) == t);
}

} // verus!
