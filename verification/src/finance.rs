//! Money and outcome rules: amounts in minor units, four-place decimals,
//! transaction validation, the immutability of posted transactions, and the
//! project evidence summary that material decisions freeze.
use vstd::prelude::*;
use crate::text::{
    eq_str, concat, chars_of, trim, trimmed, parse_i128_str, parse_i128_chars, parse_i128,
    i128_to_string, i64_to_string, int_dec, nat_dec, digits_value, all_digits, is_digit,
    push_nat_dec, digit_char, digit_char_exec, digit_value, string_of, pow10, lemma_digits_value_bound,
    lemma_digits_value_nonneg, is_ws, trim_start, trim_end,
};
use crate::json::{
    JsonValue, Json, Num, field, field_str, field_text, with, without, jstr, jint, is_obj, as_i64,
    json_eq, opt_view, empty_obj,
};

verus! {

// ---------------------------------------------------------------------------
// Integers in minor units.
/// `parse_integer`: a blank field is absent; anything else must be an integer.
pub open spec fn int_field(d: Json, k: Seq<char>) -> Result<Option<int>, Seq<char>> {
    let raw = field_text(d, k);
    if raw.len() == 0 {
        Ok(None)
    } else {
        match parse_i128(raw) {
            Some(v) => Ok(Some(v)),
            None => Err(k + " 必须使用最小货币单位的整数保存"@),
        }
    }
}

/// Reads an integer amount in minor units from a field.
pub fn parse_integer(value: &JsonValue, key: &str) -> (r: Result<Option<i128>, String>)
    ensures
        match r {
            Ok(Some(v)) => int_field(value@, key@) == Ok::<Option<int>, Seq<char>>(Some(v as int)),
            Ok(None) => int_field(value@, key@) == Ok::<Option<int>, Seq<char>>(None),
            Err(e) => int_field(value@, key@) == Err::<Option<int>, Seq<char>>(e@),
        },
{
    let raw = value.text_of(key);
    if raw.as_str().is_empty() {
        return Ok(None);
    }
    match parse_i128_str(raw.as_str()) {
        Some(v) => Ok(Some(v)),
        None => Err(concat(key, " 必须使用最小货币单位的整数保存")),
    }
}

// ---------------------------------------------------------------------------
// Decimals with four places.
pub open spec fn remove_commas(s: Seq<char>) -> Seq<char>
    decreases s.len(),
{
    if s.len() == 0 {
        s
    } else if s.last() == ',' {
        remove_commas(s.drop_last())
    } else {
        remove_commas(s.drop_last()).push(s.last())
    }
}

pub open spec fn strip_minus(s: Seq<char>) -> Seq<char>
    decreases s.len(),
{
    if s.len() > 0 && s[0] == '-' {
        strip_minus(s.drop_first())
    } else {
        s
    }
}

pub open spec fn first_dot(s: Seq<char>) -> Option<int>
    decreases s.len(),
{
    if s.len() == 0 {
        None
    } else {
        match first_dot(s.drop_last()) {
            Some(i) => Some(i),
            None => if s.last() == '.' {
                Some(s.len() - 1)
            } else {
                None
            },
        }
    }
}

/// The whole part, the fraction part and whether a third part follows, as
/// `split('.')` gives them.
pub open spec fn dec_parts(s: Seq<char>) -> (Seq<char>, Seq<char>, bool) {
    match first_dot(s) {
        None => (s, Seq::empty(), false),
        Some(i) => {
            let rest = s.skip(i + 1);
            match first_dot(rest) {
                None => (s.take(i), rest, false),
                Some(j) => (s.take(i), rest.take(j), true),
            }
        },
    }
}

/// The first four digits of the fraction, padded with zeros on the right, as a number.
pub open spec fn fraction_value(f: Seq<char>) -> int {
    let padded = if f.len() >= 4 {
        f.take(4)
    } else {
        f + Seq::new((4 - f.len()) as nat, |i: int| '0')
    };
    digits_value(padded)
}

/// The text as a number of ten-thousandths: `Ok(None)` for blank text,
/// `Err` for text that is not a decimal or whose whole part is too large.
/// The value in `Ok` is exact; it fits in `i128` where `dec_fits` holds.
pub open spec fn dec_text(k: Seq<char>, text: Seq<char>) -> Result<Option<int>, Seq<char>> {
    let raw = remove_commas(text);
    if raw.len() == 0 {
        Ok(None)
    } else {
        let negative = raw[0] == '-';
        let (whole, fraction, extra) = dec_parts(strip_minus(raw));
        if extra || whole.len() == 0 || !all_digits(whole) || !all_digits(fraction) {
            Err(k + " 必须是有效十进制数"@)
        } else if digits_value(whole) > i128::MAX {
            Err(k + " 超出支持范围"@)
        } else {
            let scaled = digits_value(whole) * 10000 + fraction_value(fraction);
            Ok(Some(if negative { -scaled } else { scaled }))
        }
    }
}

/// `parse_decimal` on a field.
pub open spec fn dec_field(d: Json, k: Seq<char>) -> Result<Option<int>, Seq<char>> {
    dec_text(k, field_text(d, k))
}

/// The scaling by ten thousand stays within `i128` (past it the original overflows).
pub open spec fn dec_fits(d: Json, k: Seq<char>) -> bool {
    let raw = remove_commas(field_text(d, k));
    let (whole, fraction, extra) = dec_parts(strip_minus(raw));
    raw.len() == 0 || extra || whole.len() == 0 || !all_digits(whole) || !all_digits(fraction)
        || digits_value(whole) > i128::MAX || digits_value(whole) * 10000 + fraction_value(fraction)
        <= i128::MAX
}

pub open spec fn pad4(n: nat) -> Seq<char> {
    seq![
        digit_char(((n / 1000) % 10) as int),
        digit_char(((n / 100) % 10) as int),
        digit_char(((n / 10) % 10) as int),
        digit_char((n % 10) as int),
    ]
}

pub open spec fn trim_zeros(s: Seq<char>) -> Seq<char>
    decreases s.len(),
{
    if s.len() > 0 && s.last() == '0' {
        trim_zeros(s.drop_last())
    } else {
        s
    }
}

pub open spec fn abs(v: int) -> int {
    if v < 0 {
        -v
    } else {
        v
    }
}

/// `format_decimal`: ten-thousandths written as a decimal without trailing zeros.
pub open spec fn dec_string(v: int) -> Seq<char> {
    let a = abs(v);
    let fraction = trim_zeros(pad4((a % 10000) as nat));
    (if v < 0 {
        seq!['-']
    } else {
        Seq::empty()
    }) + nat_dec((a / 10000) as nat) + (if fraction.len() == 0 {
        Seq::empty()
    } else {
        seq!['.'] + fraction
    })
}

/// Integer division that rounds toward zero, as Rust's `/`.
pub open spec fn tdiv(a: int, b: int) -> int {
    if (a >= 0) == (b > 0) {
        abs(a) / abs(b)
    } else {
        -(abs(a) / abs(b))
    }
}

pub open spec fn in_i128(v: int) -> bool {
    i128::MIN <= v <= i128::MAX
}

/// Rust's `/` on `i128`, which rounds toward zero.
pub fn trunc_div(a: i128, b: i128) -> (q: i128)
    requires
        b != 0,
        !(a == i128::MIN && b == -1),
    ensures
        q as int == tdiv(a as int, b as int),
{
    let am: u128 = if a == i128::MIN {
        0x8000_0000_0000_0000_0000_0000_0000_0000u128
    } else if a < 0 {
        (-a) as u128
    } else {
        a as u128
    };
    let bm: u128 = if b == i128::MIN {
        0x8000_0000_0000_0000_0000_0000_0000_0000u128
    } else if b < 0 {
        (-b) as u128
    } else {
        b as u128
    };
    let m = am / bm;
    assert(m <= am) by (nonlinear_arith)
        requires
            bm >= 1,
            m == am / bm,
    ;
    if (a >= 0) == (b > 0) {
        assert(m < 0x8000_0000_0000_0000_0000_0000_0000_0000u128) by {
            if am == 0x8000_0000_0000_0000_0000_0000_0000_0000u128 {
                assert(bm >= 2);
                assert(m <= am / 2) by (nonlinear_arith)
                    requires
                        bm >= 2,
                        m == am / bm,
                ;
            }
        }
        m as i128
    } else if m == 0x8000_0000_0000_0000_0000_0000_0000_0000u128 {
        i128::MIN
    } else {
        -(m as i128)
    }
}

fn remove_commas_exec(cs: &Vec<char>) -> (r: Vec<char>)
    ensures
        r@ == remove_commas(cs@),
{
    let mut r: Vec<char> = Vec::new();
    let mut i: usize = 0;
    while i < cs.len()
        invariant
            i <= cs@.len(),
            r@ == remove_commas(cs@.take(i as int)),
        decreases cs.len() - i,
    {
        proof {
            assert(cs@.take(i + 1).drop_last() =~= cs@.take(i as int));
            assert(cs@.take(i + 1).last() == cs@[i as int]);
        }
        if cs[i] != ',' {
            r.push(cs[i]);
        }
        i = i + 1;
    }
    assert(cs@.take(cs@.len() as int) =~= cs@);
    r
}

proof fn lemma_first_dot(s: Seq<char>, i: int)
    requires
        0 <= i <= s.len(),
        forall|k: int| 0 <= k < i ==> #[trigger] s[k] != '.',
        i < s.len() ==> s[i] == '.',
    ensures
        first_dot(s) == (if i < s.len() {
            Some(i)
        } else {
            None::<int>
        }),
    decreases s.len(),
{
    if s.len() > 0 {
        if i < s.len() - 1 {
            assert forall|k: int| 0 <= k < i implies #[trigger] s.drop_last()[k] != '.' by {
                assert(s.drop_last()[k] == s[k]);
            }
            assert(s.drop_last()[i] == s[i]);
            lemma_first_dot(s.drop_last(), i);
        } else {
            assert forall|k: int| 0 <= k < s.len() - 1 implies #[trigger] s.drop_last()[k] != '.' by {
                assert(s.drop_last()[k] == s[k]);
            }
            lemma_first_dot(s.drop_last(), s.len() - 1);
        }
    }
}

fn first_dot_from(cs: &Vec<char>, lo: usize) -> (r: usize)
    requires
        lo <= cs@.len(),
    ensures
        lo <= r <= cs@.len(),
        first_dot(cs@.skip(lo as int)) == (if r < cs@.len() {
            Some(r - lo)
        } else {
            None::<int>
        }),
{
    let ghost s = cs@.skip(lo as int);
    let mut j: usize = lo;
    while j < cs.len() && cs[j] != '.'
        invariant
            lo <= j <= cs@.len(),
            s == cs@.skip(lo as int),
            forall|k: int| 0 <= k < j - lo ==> #[trigger] s[k] != '.',
        decreases cs.len() - j,
    {
        assert(s[j - lo] == cs@[j as int]);
        j = j + 1;
    }
    proof {
        if j < cs@.len() {
            assert(s[j - lo] == cs@[j as int]);
        }
        lemma_first_dot(s, j - lo);
    }
    j
}

fn all_digits_range(cs: &Vec<char>, lo: usize, hi: usize) -> (r: bool)
    requires
        lo <= hi <= cs@.len(),
    ensures
        r == all_digits(cs@.subrange(lo as int, hi as int)),
{
    let mut k: usize = lo;
    while k < hi
        invariant
            lo <= k <= hi <= cs@.len(),
            forall|m: int| lo <= m < k ==> is_digit(#[trigger] cs@[m]),
        decreases hi - k,
    {
        if !('0' <= cs[k] && cs[k] <= '9') {
            assert(!is_digit(cs@.subrange(lo as int, hi as int)[k - lo]));
            return false;
        }
        k = k + 1;
    }
    assert forall|m: int| 0 <= m < hi - lo implies #[trigger] is_digit(
        cs@.subrange(lo as int, hi as int)[m],
    ) by {
        assert(cs@.subrange(lo as int, hi as int)[m] == cs@[lo + m]);
    }
    true
}

proof fn lemma_pad_value(f: Seq<char>)
    requires
        all_digits(f),
    ensures
        0 <= fraction_value(f) < 10000,
{
    let padded = if f.len() >= 4 {
        f.take(4)
    } else {
        f + Seq::new((4 - f.len()) as nat, |i: int| '0')
    };
    assert(padded.len() == 4);
    assert forall|i: int| 0 <= i < 4 implies #[trigger] is_digit(padded[i]) by {
        if i < f.len() {
            assert(padded[i] == f[i]);
        }
    }
    lemma_digits4(padded);
}

proof fn lemma_digits4(p: Seq<char>)
    requires
        p.len() == 4,
        all_digits(p),
    ensures
        0 <= digits_value(p) < 10000,
{
    lemma_digits_value_bound(p);
    assert(pow10(4) == 10000) by {
        reveal_with_fuel(pow10, 5);
    }
}

/// Splits `raw` (without its leading minus signs) into whole part and fraction.
fn split_decimal(raw: &Vec<char>) -> (r: (usize, usize, usize, usize, bool))
    ensures
        r.0 <= r.1 <= raw@.len(),
        r.2 <= r.3 <= raw@.len(),
        strip_minus(raw@) == raw@.skip(r.0 as int),
        dec_parts(strip_minus(raw@)) == (
            raw@.subrange(r.0 as int, r.1 as int),
            raw@.subrange(r.2 as int, r.3 as int),
            r.4,
        ),
{
    let mut start: usize = 0;
    assert(raw@.skip(0) =~= raw@);
    while start < raw.len() && raw[start] == '-'
        invariant
            start <= raw@.len(),
            strip_minus(raw@) == strip_minus(raw@.skip(start as int)),
        decreases raw.len() - start,
    {
        proof {
            assert(raw@.skip(start as int).drop_first() =~= raw@.skip(start + 1));
        }
        start = start + 1;
    }
    proof {
        if start < raw@.len() {
            assert(raw@.skip(start as int)[0] == raw@[start as int]);
        }
        assert(strip_minus(raw@) == raw@.skip(start as int));
    }
    let ghost s = raw@.skip(start as int);
    let d1 = first_dot_from(raw, start);
    if d1 < raw.len() {
        let d2 = first_dot_from(raw, d1 + 1);
        let extra = d2 < raw.len();
        proof {
            assert(s.skip(d1 - start + 1) =~= raw@.skip(d1 + 1));
            assert(s.take(d1 - start) =~= raw@.subrange(start as int, d1 as int));
            if extra {
                assert(s.skip(d1 - start + 1).take(d2 - d1 - 1) =~= raw@.subrange(d1 + 1, d2 as int));
            } else {
                assert(s.skip(d1 - start + 1) =~= raw@.subrange(d1 + 1, d2 as int));
            }
        }
        (start, d1, d1 + 1, d2, extra)
    } else {
        proof {
            assert(s =~= raw@.subrange(start as int, d1 as int));
            assert(Seq::<char>::empty() =~= raw@.subrange(d1 as int, d1 as int));
        }
        (start, d1, d1, d1, false)
    }
}

/// The value of the first four fraction digits, padded with zeros.
fn fraction_digits(raw: &Vec<char>, lo: usize, hi: usize) -> (f: u32)
    requires
        lo <= hi <= raw@.len(),
        all_digits(raw@.subrange(lo as int, hi as int)),
    ensures
        f as int == fraction_value(raw@.subrange(lo as int, hi as int)),
        f < 10000,
{
    let ghost fraction = raw@.subrange(lo as int, hi as int);
    let mut f: u32 = 0;
    let mut k: usize = 0;
    let ghost padded = if fraction.len() >= 4 {
        fraction.take(4)
    } else {
        fraction + Seq::new((4 - fraction.len()) as nat, |i: int| '0')
    };
    assert(padded.len() == 4);
    while k < 4
        invariant
            k <= 4,
            lo <= hi <= raw@.len(),
            fraction == raw@.subrange(lo as int, hi as int),
            all_digits(fraction),
            padded.len() == 4,
            padded == (if fraction.len() >= 4 {
                fraction.take(4)
            } else {
                fraction + Seq::new((4 - fraction.len()) as nat, |i: int| '0')
            }),
            f as int == digits_value(padded.take(k as int)),
            k == 0 ==> f == 0,
            k == 1 ==> f < 10,
            k == 2 ==> f < 100,
            k == 3 ==> f < 1000,
            k == 4 ==> f < 10000,
        decreases 4 - k,
    {
        let c = if k < hi - lo {
            raw[lo + k]
        } else {
            '0'
        };
        proof {
            if k < fraction.len() {
                assert(padded[k as int] == fraction[k as int]);
                assert(is_digit(fraction[k as int]));
            } else {
                assert(padded[k as int] == '0');
            }
            assert(padded.take(k + 1).drop_last() =~= padded.take(k as int));
            assert(padded.take(k + 1).last() == padded[k as int]);
        }
        let d: u32 = if c == '0' { 0 } else if c == '1' { 1 } else if c == '2' { 2 } else if c == '3' {
            3
        } else if c == '4' { 4 } else if c == '5' { 5 } else if c == '6' { 6 } else if c == '7' {
            7
        } else if c == '8' { 8 } else { 9 };
        f = f * 10 + d;
        k = k + 1;
    }
    assert(padded.take(4) =~= padded);
    f
}

/// `parse_decimal`: a field as a number of ten-thousandths.
pub fn parse_decimal(value: &JsonValue, key: &str) -> (r: Result<Option<i128>, String>)
    requires
        dec_fits(value@, key@),
    ensures
        match r {
            Ok(Some(v)) => dec_field(value@, key@) == Ok::<Option<int>, Seq<char>>(Some(v as int)),
            Ok(None) => dec_field(value@, key@) == Ok::<Option<int>, Seq<char>>(None),
            Err(e) => dec_field(value@, key@) == Err::<Option<int>, Seq<char>>(e@),
        },
{
    let text = value.text_of(key);
    let tc = chars_of(text.as_str());
    let raw = remove_commas_exec(&tc);
    if raw.len() == 0 {
        return Ok(None);
    }
    let negative = raw[0] == '-';
    let (start, whole_end, frac_lo, frac_hi, extra) = split_decimal(&raw);
    let ghost whole = raw@.subrange(start as int, whole_end as int);
    let ghost fraction = raw@.subrange(frac_lo as int, frac_hi as int);
    if extra || whole_end == start || !all_digits_range(&raw, start, whole_end) || !all_digits_range(
        &raw,
        frac_lo,
        frac_hi,
    ) {
        return Err(concat(key, " 必须是有效十进制数"));
    }
    let whole_chars = crate::text::string_of_range(raw.as_slice(), start, whole_end);
    let wc = chars_of(whole_chars.as_str());
    proof {
        assert(wc@ == whole);
        assert(is_digit(whole[0]));
        lemma_digits_value_nonneg(whole);
    }
    let w = match parse_i128_chars(wc.as_slice()) {
        Some(w) => w,
        None => {
            proof {
                assert(parse_i128(whole) is None);
                assert(digits_value(whole) > i128::MAX);
            }
            return Err(concat(key, " 超出支持范围"));
        },
    };
    assert(w as int == digits_value(whole));
    let f = fraction_digits(&raw, frac_lo, frac_hi);
    assert(w as int * 10000 + f as int <= i128::MAX);
    let scaled = w * 10000 + f as i128;
    Ok(Some(if negative { -scaled } else { scaled }))
}

fn push_pad4_trimmed(out: &mut String, n: u32)
    requires
        n < 10000,
    ensures
        final(out)@ == old(out)@ + (if trim_zeros(pad4(n as nat)).len() == 0 {
            Seq::empty()
        } else {
            seq!['.'] + trim_zeros(pad4(n as nat))
        }),
{
    let ds: [u8; 4] = [((n / 1000) % 10) as u8, ((n / 100) % 10) as u8, ((n / 10) % 10) as u8, (n % 10) as u8];
    let ghost p = pad4(n as nat);
    let mut len: usize = 4;
    assert(p.take(4) =~= p);
    while len > 0 && ds[len - 1] == 0
        invariant
            len <= 4,
            p == pad4(n as nat),
            forall|i: int| 0 <= i < 4 ==> p[i] == digit_char(ds@[i] as int),
            forall|i: int| 0 <= i < 4 ==> ds@[i] < 10,
            trim_zeros(p) == trim_zeros(p.take(len as int)),
        decreases len,
    {
        proof {
            assert(p.take(len as int).last() == p[len - 1]);
            assert(p.take(len as int).drop_last() =~= p.take(len - 1));
        }
        len = len - 1;
    }
    proof {
        if len > 0 {
            assert(p.take(len as int).last() == p[len - 1]);
            assert(p[len - 1] != '0');
        }
        assert(trim_zeros(p) == p.take(len as int));
    }
    if len > 0 {
        out.push('.');
        let mut i: usize = 0;
        let ghost base = out@;
        while i < len
            invariant
                i <= len <= 4,
                p == pad4(n as nat),
                forall|j: int| 0 <= j < 4 ==> p[j] == digit_char(ds@[j] as int),
                forall|j: int| 0 <= j < 4 ==> ds@[j] < 10,
                out@ == base + p.take(i as int),
            decreases len - i,
        {
            out.push(digit_char_exec(ds[i]));
            i = i + 1;
            assert(out@ =~= base + p.take(i as int));
        }
        assert(final(out)@ =~= old(out)@ + (seq!['.'] + trim_zeros(p)));
    } else {
        assert(final(out)@ =~= old(out)@);
    }
}

/// `format_decimal`.
pub fn format_decimal(value: i128) -> (r: String)
    requires
        value != i128::MIN,
    ensures
        r@ == dec_string(value as int),
{
    let negative = value < 0;
    let a: i128 = if value < 0 {
        -value
    } else {
        value
    };
    let mut out = String::new();
    if negative {
        out.push('-');
    }
    push_nat_dec(&mut out, (a / 10000) as u128);
    push_pad4_trimmed(&mut out, (a % 10000) as u32);
    assert(out@ =~= dec_string(value as int));
    out
}

proof fn lemma_no_commas(s: Seq<char>)
    requires
        forall|i: int| 0 <= i < s.len() ==> #[trigger] s[i] != ',',
    ensures
        remove_commas(s) == s,
    decreases s.len(),
{
    if s.len() > 0 {
        assert forall|i: int| 0 <= i < s.len() - 1 implies #[trigger] s.drop_last()[i] != ',' by {
            assert(s.drop_last()[i] == s[i]);
        }
        lemma_no_commas(s.drop_last());
        assert(s.drop_last().push(s.last()) =~= s);
    }
}

/// Trimming zeros keeps a prefix, removes only zeros, and leaves no zero last.
proof fn lemma_trim_zeros(s: Seq<char>)
    ensures
        trim_zeros(s).len() <= s.len(),
        trim_zeros(s) == s.take(trim_zeros(s).len() as int),
        trim_zeros(s) + Seq::new((s.len() - trim_zeros(s).len()) as nat, |i: int| '0') == s,
        trim_zeros(s).len() == 0 || trim_zeros(s).last() != '0',
    decreases s.len(),
{
    if s.len() > 0 && s.last() == '0' {
        lemma_trim_zeros(s.drop_last());
        let t = trim_zeros(s.drop_last());
        let z1 = Seq::new((s.len() - 1 - t.len()) as nat, |i: int| '0');
        let z = Seq::new((s.len() - t.len()) as nat, |i: int| '0');
        assert(z =~= z1.push('0'));
        assert(t + z =~= (t + z1).push('0'));
        assert(s =~= s.drop_last().push('0'));
        assert(t =~= s.take(t.len() as int));
    } else {
        assert(s + Seq::new(0, |i: int| '0') =~= s);
        assert(s.take(s.len() as int) =~= s);
    }
}

proof fn lemma_pad4_value(r: nat)
    requires
        r < 10000,
    ensures
        pad4(r).len() == 4,
        all_digits(pad4(r)),
        digits_value(pad4(r)) == r,
{
    let p = pad4(r);
    let d0 = ((r / 1000) % 10) as int;
    let d1 = ((r / 100) % 10) as int;
    let d2 = ((r / 10) % 10) as int;
    let d3 = (r % 10) as int;
    assert(is_digit(p[0]) && digit_value(p[0]) == d0);
    assert(is_digit(p[1]) && digit_value(p[1]) == d1);
    assert(is_digit(p[2]) && digit_value(p[2]) == d2);
    assert(is_digit(p[3]) && digit_value(p[3]) == d3);
    let p1 = seq![p[0]];
    let p2 = seq![p[0], p[1]];
    let p3 = seq![p[0], p[1], p[2]];
    assert(digits_value(Seq::<char>::empty()) == 0);
    assert(p1.drop_last() =~= Seq::<char>::empty());
    assert(p1.last() == p[0] && p2.last() == p[1] && p3.last() == p[2] && p.last() == p[3]);
    assert(p2.drop_last() =~= p1);
    assert(p3.drop_last() =~= p2);
    assert(p.drop_last() =~= p3);
    assert(digits_value(p1) == d0);
    assert(digits_value(p2) == 10 * d0 + d1);
    assert(digits_value(p3) == 100 * d0 + 10 * d1 + d2);
    assert(digits_value(p) == 1000 * d0 + 100 * d1 + 10 * d2 + d3);
    assert(1000 * d0 + 100 * d1 + 10 * d2 + d3 == r);
}

/// A four-digit fraction with its trailing zeros trimmed reads back as the same value.
proof fn lemma_fraction_of_trimmed(p: Seq<char>)
    requires
        p.len() == 4,
        all_digits(p),
    ensures
        fraction_value(trim_zeros(p)) == digits_value(p),
        all_digits(trim_zeros(p)),
{
    lemma_trim_zeros(p);
    let t = trim_zeros(p);
    assert forall|i: int| 0 <= i < t.len() implies #[trigger] is_digit(t[i]) by {
        assert(t[i] == p[i]);
    }
    if t.len() >= 4 {
        assert(t.take(4) =~= p);
    } else {
        assert(t + Seq::new((4 - t.len()) as nat, |i: int| '0') == p);
    }
}

/// The unsigned text of `dec_string`: whole part, then a point and the
/// trimmed fraction when it is not empty.
pub open spec fn dec_body(q: nat, r: nat) -> Seq<char> {
    let f = trim_zeros(pad4(r));
    nat_dec(q) + (if f.len() == 0 {
        Seq::<char>::empty()
    } else {
        seq!['.'] + f
    })
}

proof fn lemma_dec_body(q: nat, r: nat)
    requires
        r < 10000,
    ensures
        dec_body(q, r).len() > 0,
        forall|i: int| 0 <= i < dec_body(q, r).len() ==> #[trigger] dec_body(q, r)[i] != ','
            && dec_body(q, r)[i] != '-',
        forall|i: int| 0 <= i < nat_dec(q).len() ==> #[trigger] dec_body(q, r)[i] != '.',
        forall|i: int| 0 <= i < dec_body(q, r).len() && i != nat_dec(q).len() ==> is_digit(#[trigger] dec_body(q, r)[i]),
        trim_zeros(pad4(r)).len() == 0 ==> dec_body(q, r) == nat_dec(q),
        trim_zeros(pad4(r)).len() > 0 ==> dec_body(q, r)[nat_dec(q).len() as int] == '.'
            && dec_body(q, r).last() != '0',
        dec_parts(dec_body(q, r)) == (nat_dec(q), trim_zeros(pad4(r)), false),
        all_digits(nat_dec(q)),
        all_digits(trim_zeros(pad4(r))),
        digits_value(nat_dec(q)) == q,
        fraction_value(trim_zeros(pad4(r))) == r,
{
    let w = nat_dec(q);
    let p = pad4(r);
    let f = trim_zeros(p);
    let body = dec_body(q, r);
    crate::clock::lemma_nat_dec_digits(q);
    lemma_pad4_value(r);
    lemma_trim_zeros(p);
    lemma_fraction_of_trimmed(p);
    assert forall|i: int| 0 <= i < body.len() implies #[trigger] body[i] != ',' && body[i] != '-'
        && (i < w.len() ==> body[i] != '.') && (i != w.len() ==> is_digit(body[i])) by {
        if i < w.len() {
            assert(body[i] == w[i]);
            assert(is_digit(w[i]));
        } else if i > w.len() {
            assert(body[i] == f[i - w.len() - 1]);
            assert(is_digit(f[i - w.len() - 1]));
        }
    }
    if f.len() == 0 {
        assert(body =~= w);
        lemma_first_dot(body, body.len() as int);
        assert(f =~= Seq::<char>::empty());
    } else {
        lemma_first_dot(body, w.len() as int);
        assert(body.skip(w.len() + 1int) =~= f);
        assert(body.take(w.len() as int) =~= w);
        lemma_first_dot(f, f.len() as int);
        assert(body.last() == f.last());
    }
}

/// What `format_decimal` writes, stored as the text of a field, reads back
/// through `parse_decimal` as the same number of ten-thousandths, under any
/// field name: the text starts with a minus sign exactly for a negative value,
/// has no trailing zero after its decimal point and no surrounding blanks, and
/// stays within what `parse_decimal` accepts.
pub proof fn lemma_decimal_round_trip(d: Json, k: Seq<char>, v: int)
    requires
        i128::MIN < v <= i128::MAX,
        field(d, k) == Some(jstr(dec_string(v))),
    ensures
        trimmed(dec_string(v)) == dec_string(v),
        (dec_string(v)[0] == '-') <==> v < 0,
        first_dot(dec_string(v)) is Some ==> dec_string(v).last() != '0',
        dec_fits(d, k),
        dec_field(d, k) == Ok::<Option<int>, Seq<char>>(Some(v)),
{
    let a = abs(v);
    let q = (a / 10000) as nat;
    let r = (a % 10000) as nat;
    let w = nat_dec(q);
    let f = trim_zeros(pad4(r));
    let body = dec_body(q, r);
    let sign = if v < 0 {
        seq!['-']
    } else {
        Seq::<char>::empty()
    };
    let s = dec_string(v);
    assert(s =~= sign + body);
    lemma_dec_body(q, r);
    crate::clock::lemma_nat_dec_digits(q);
    assert(!is_ws(s[0])) by {
        if v >= 0 {
            assert(s[0] == body[0]);
            if w.len() == 0 {
            } else {
                assert(is_digit(body[0]));
            }
        }
    }
    assert(!is_ws(s.last())) by {
        assert(s.last() == body.last());
        assert(body.len() - 1 != w.len()) by {
            if f.len() > 0 {
                assert(body.len() == w.len() + 1 + f.len());
            } else {
                assert(body =~= w);
            }
        }
        assert(is_digit(body[body.len() - 1]));
    }
    assert(trim_start(s) == s);
    assert(trim_end(s) == s);
    assert(field_text(d, k) == s);
    assert forall|i: int| 0 <= i < s.len() implies #[trigger] s[i] != ',' && (i < sign.len() + w.len()
        ==> s[i] != '.') && (f.len() == 0 ==> s[i] != '.') by {
        if v < 0 && i == 0 {
        } else if v < 0 {
            assert(s[i] == body[i - 1]);
        } else {
            assert(s[i] == body[i]);
        }
    }
    lemma_no_commas(s);
    if v < 0 {
        assert(s.drop_first() =~= body);
        assert(strip_minus(body) == body);
    } else {
        assert(s =~= body);
    }
    assert(strip_minus(s) == body);
    if f.len() == 0 {
        lemma_first_dot(s, s.len() as int);
    } else {
        assert(s.last() == body.last());
    }
    assert(q * 10000 + r == a);
}


// ---------------------------------------------------------------------------
// Normalizing financial records.
/// `entry(k).or_insert(v)`.
pub open spec fn default_to(d: Json, k: Seq<char>, v: Seq<char>) -> Json {
    if field(d, k) is Some {
        d
    } else {
        with(d, k, jstr(v))
    }
}

fn default_to_exec(data: &mut JsonValue, k: &str, v: &str)
    requires
        is_obj(old(data)@),
    ensures
        final(data)@ == default_to(old(data)@, k@, v@),
        is_obj(final(data)@),
        crate::json::json_wf(*old(data)) ==> crate::json::json_wf(*final(data)),
{
    if !data.has(k) {
        data.insert(k, JsonValue::text(v));
    }
}

pub open spec fn results_defaults(d: Json) -> Json {
    default_to(default_to(default_to(d, "outcomeType"@, "QUALITATIVE"@), "status"@, "PLANNED"@),
        "evidenceStatus"@, "RECORDED"@)
}

/// Variance and achievement of an outcome measured in minor units.
pub open spec fn with_minor_outcome(d: Json, t: Option<int>, a: Option<int>) -> Json {
    match (t, a) {
        (Some(t), Some(a)) => {
            let d2 = with(d, "varianceAmountMinor"@, jstr(int_dec(a - t)));
            if t != 0 {
                with(d2, "achievementBps"@, jstr(int_dec(tdiv(a * 10000, t))))
            } else {
                without(d2, "achievementBps"@)
            }
        },
        _ => d,
    }
}

/// Variance and achievement of an outcome measured as a decimal.
pub open spec fn with_decimal_outcome(d: Json, t: Option<int>, a: Option<int>) -> Json {
    match (t, a) {
        (Some(t), Some(a)) => {
            let d2 = with(d, "varianceValue"@, jstr(dec_string(a - t)));
            if t != 0 {
                with(d2, "achievementBps"@, jstr(int_dec(tdiv(a * 10000, t))))
            } else {
                d2
            }
        },
        _ => d,
    }
}

/// The outcome record after normalizing, and whether it is accepted.
pub open spec fn normalize_results(d: Json) -> (Json, Result<(), Seq<char>>) {
    let d1 = results_defaults(d);
    match int_field(d1, "targetAmountMinor"@) {
        Err(e) => (d1, Err(e)),
        Ok(t) => match int_field(d1, "actualAmountMinor"@) {
            Err(e) => (d1, Err(e)),
            Ok(a) => {
                let d2 = with_minor_outcome(d1, t, a);
                match dec_field(d1, "targetValue"@) {
                    Err(e) => (d2, Err(e)),
                    Ok(tv) => match dec_field(d1, "actualValue"@) {
                        Err(e) => (d2, Err(e)),
                        Ok(av) => (with_decimal_outcome(d2, tv, av), Ok(())),
                    },
                }
            },
        },
    }
}

proof fn lemma_results_defaults_keep(d: Json, k: Seq<char>)
    requires
        is_obj(d),
        k != "outcomeType"@ && k != "status"@ && k != "evidenceStatus"@,
    ensures
        field(results_defaults(d), k) == field(d, k),
        is_obj(results_defaults(d)),
{
}

/// An outcome measured as a decimal gets, when its target and actual value
/// both read as decimals, its variance as the decimal text of actual less
/// target and, for a non-zero target, its achievement in basis points: actual
/// times ten thousand over target, rounded toward zero. This is what the
/// record keeps, whatever its amounts in minor units gave.
pub proof fn lemma_decimal_outcome_achievement(d: Json, t: int, a: int)
    requires
        is_obj(d),
        int_field(d, "targetAmountMinor"@) is Ok,
        int_field(d, "actualAmountMinor"@) is Ok,
        dec_field(d, "targetValue"@) == Ok::<Option<int>, Seq<char>>(Some(t)),
        dec_field(d, "actualValue"@) == Ok::<Option<int>, Seq<char>>(Some(a)),
    ensures
        normalize_of("results"@, d).1 is Ok,
        field(normalize_of("results"@, d).0, "varianceValue"@) == Some(jstr(dec_string(a - t))),
        t != 0 ==> field(normalize_of("results"@, d).0, "achievementBps"@) == Some(jstr(int_dec(tdiv(a * 10000, t)))),
{
    reveal_strlit("results");
    reveal_strlit("outcomeType");
    reveal_strlit("status");
    reveal_strlit("evidenceStatus");
    reveal_strlit("targetValue");
    reveal_strlit("actualValue");
    reveal_strlit("targetAmountMinor");
    reveal_strlit("actualAmountMinor");
    reveal_strlit("varianceValue");
    reveal_strlit("achievementBps");
    reveal_strlit("varianceAmountMinor");
    assert("targetValue"@[0] != "outcomeType"@[0] && "actualValue"@[0] != "outcomeType"@[0]);
    assert("targetAmountMinor"@.len() == 17 && "actualAmountMinor"@.len() == 17);
    assert("varianceValue"@.len() == 13 && "achievementBps"@.len() == 14);
    assert("varianceValue"@ != "achievementBps"@);
    lemma_results_defaults_keep(d, "targetValue"@);
    lemma_results_defaults_keep(d, "actualValue"@);
    lemma_results_defaults_keep(d, "targetAmountMinor"@);
    lemma_results_defaults_keep(d, "actualAmountMinor"@);
    let d1 = results_defaults(d);
    assert(field_text(d1, "targetValue"@) == field_text(d, "targetValue"@));
    assert(field_text(d1, "actualValue"@) == field_text(d, "actualValue"@));
    assert(int_field(d1, "targetAmountMinor"@) == int_field(d, "targetAmountMinor"@));
    assert(int_field(d1, "actualAmountMinor"@) == int_field(d, "actualAmountMinor"@));
    assert(dec_field(d1, "targetValue"@) == dec_field(d, "targetValue"@));
    assert(dec_field(d1, "actualValue"@) == dec_field(d, "actualValue"@));
}

/// An outcome measured in minor units (and not as decimals) gets its variance
/// as actual less target and, for a non-zero target, its achievement in basis
/// points, rounded toward zero; a zero target leaves no achievement.
pub proof fn lemma_minor_outcome_achievement(d: Json, t: int, a: int)
    requires
        is_obj(d),
        int_field(d, "targetAmountMinor"@) == Ok::<Option<int>, Seq<char>>(Some(t)),
        int_field(d, "actualAmountMinor"@) == Ok::<Option<int>, Seq<char>>(Some(a)),
        dec_field(d, "targetValue"@) == Ok::<Option<int>, Seq<char>>(None),
        dec_field(d, "actualValue"@) is Ok,
    ensures
        normalize_of("results"@, d).1 is Ok,
        field(normalize_of("results"@, d).0, "varianceAmountMinor"@) == Some(jstr(int_dec(a - t))),
        t != 0 ==> field(normalize_of("results"@, d).0, "achievementBps"@) == Some(jstr(int_dec(tdiv(a * 10000, t)))),
        t == 0 ==> field(normalize_of("results"@, d).0, "achievementBps"@) is None,
{
    reveal_strlit("results");
    reveal_strlit("outcomeType");
    reveal_strlit("status");
    reveal_strlit("evidenceStatus");
    reveal_strlit("targetValue");
    reveal_strlit("actualValue");
    reveal_strlit("targetAmountMinor");
    reveal_strlit("actualAmountMinor");
    reveal_strlit("achievementBps");
    reveal_strlit("varianceAmountMinor");
    assert("targetValue"@[0] != "outcomeType"@[0] && "actualValue"@[0] != "outcomeType"@[0]);
    assert("targetAmountMinor"@.len() == 17 && "actualAmountMinor"@.len() == 17);
    assert("varianceAmountMinor"@.len() == 19 && "achievementBps"@.len() == 14);
    lemma_results_defaults_keep(d, "targetValue"@);
    lemma_results_defaults_keep(d, "actualValue"@);
    lemma_results_defaults_keep(d, "targetAmountMinor"@);
    lemma_results_defaults_keep(d, "actualAmountMinor"@);
    let d1 = results_defaults(d);
    assert(field_text(d1, "targetValue"@) == field_text(d, "targetValue"@));
    assert(field_text(d1, "actualValue"@) == field_text(d, "actualValue"@));
    assert(int_field(d1, "targetAmountMinor"@) == int_field(d, "targetAmountMinor"@));
    assert(int_field(d1, "actualAmountMinor"@) == int_field(d, "actualAmountMinor"@));
    assert(dec_field(d1, "targetValue"@) == dec_field(d, "targetValue"@));
    assert(dec_field(d1, "actualValue"@) == dec_field(d, "actualValue"@));
}

/// The quotient `a * 10000 / t` exists in `i128`.
pub open spec fn bps_fits(a: int, t: int) -> bool {
    t != 0 ==> in_i128(a * 10000) && !(a * 10000 == i128::MIN && t == -1)
}

/// The outcome arithmetic stays within `i128` (past it the original overflows).
pub open spec fn results_fit(d: Json) -> bool {
    let d1 = results_defaults(d);
    match (int_field(d1, "targetAmountMinor"@), int_field(d1, "actualAmountMinor"@)) {
        (Ok(t), Ok(a)) => {
            &&& (t matches Some(t) && a matches Some(a) ==> in_i128(a - t) && bps_fits(a, t))
            &&& dec_fits(d1, "targetValue"@)
            &&& (dec_field(d1, "targetValue"@) is Ok ==> dec_fits(d1, "actualValue"@))
            &&& (dec_field(d1, "targetValue"@) matches Ok(Some(tv)) && dec_field(d1, "actualValue"@) matches Ok(Some(av))
                ==> in_i128(av - tv) && av - tv != i128::MIN && bps_fits(av, tv))
        },
        _ => true,
    }
}

pub open spec fn int_error(d: Json, k: Seq<char>) -> Option<Seq<char>> {
    match int_field(d, k) {
        Err(e) => Some(e),
        Ok(_) => None,
    }
}

pub open spec fn is_material(d: Json) -> bool {
    field_text(d, "decisionLevel"@) == "MATERIAL"@ || field_text(d, "decisionLevel"@) == "STRATEGIC"@
}

/// Whether a decision record is accepted: its money fields are integers, and a
/// material or strategic decision states its expected outcome.
pub open spec fn normalize_decision(d: Json) -> Result<(), Seq<char>> {
    match int_error(d, "expectedRevenueMinor"@) {
        Some(e) => Err(e),
        None => match int_error(d, "expectedCostMinor"@) {
            Some(e) => Err(e),
            None => match int_error(d, "actualRevenueMinor"@) {
                Some(e) => Err(e),
                None => match int_error(d, "actualCostMinor"@) {
                    Some(e) => Err(e),
                    None => if is_material(d) && field_text(d, "expectedOutcome"@).len() == 0 {
                        Err("重要或战略决策必须写明预期结果，才能在未来校准判断"@)
                    } else {
                        Ok(())
                    },
                },
            },
        },
    }
}

pub open spec fn is_transaction_type(t: Seq<char>) -> bool {
    t == "INCOME"@ || t == "EXPENSE"@ || t == "TRANSFER"@ || t == "REFUND"@ || t == "ADJUSTMENT"@
}

pub open spec fn transaction_defaults(d: Json) -> Json {
    default_to(default_to(default_to(default_to(d, "status"@, "POSTED"@), "currency"@, "CNY"@),
        "baseCurrency"@, "CNY"@), "evidenceStatus"@, "RECORDED"@)
}

/// A transaction record after normalizing, and whether it is accepted.
pub open spec fn normalize_transaction(d: Json) -> (Json, Result<(), Seq<char>>) {
    let d1 = transaction_defaults(d);
    match int_field(d1, "amountMinor"@) {
        Err(e) => (d1, Err(e)),
        Ok(None) => (d1, Err("财务流水必须填写金额"@)),
        Ok(Some(amount)) => if amount <= 0 {
            (d1, Err("收入、支出、转账、退款和调整的金额必须使用正数"@))
        } else {
            let d2 = if field_text(d1, "currency"@) == field_text(d1, "baseCurrency"@) && field_text(
                d1,
                "baseAmountMinor"@,
            ).len() == 0 {
                with(d1, "baseAmountMinor"@, jstr(int_dec(amount)))
            } else {
                d1
            };
            match int_field(d2, "baseAmountMinor"@) {
                Err(e) => (d2, Err(e)),
                Ok(None) => (d2, Err("外币交易必须填写基础币金额"@)),
                Ok(Some(b)) => if b <= 0 {
                    (d2, Err("基础币金额必须大于零"@))
                } else {
                    let ty = field_text(d2, "transactionType"@);
                    if !is_transaction_type(ty) {
                        (d2, Err("请选择有效的交易类型"@))
                    } else if ty == "TRANSFER"@ && (field_text(d2, "accountId"@).len() == 0 || field_text(
                        d2,
                        "destinationAccountId"@,
                    ).len() == 0) {
                        (d2, Err("转账必须同时选择来源账户和目标账户"@))
                    } else if ty == "REFUND"@ && field_text(d2, "refundKind"@).len() == 0 {
                        (d2, Err("退款必须说明是费用退款还是收入退款"@))
                    } else if ty == "ADJUSTMENT"@ && field_text(d2, "adjustmentDirection"@).len() == 0 {
                        (d2, Err("余额调整必须选择增加或减少"@))
                    } else {
                        (d2, Ok(()))
                    }
                },
            }
        },
    }
}

/// A transaction with its base amount filled in: the amount itself when the
/// record is in its base currency, gives an integer amount and no base amount.
pub open spec fn base_filled(d1: Json) -> Json {
    match int_field(d1, "amountMinor"@) {
        Ok(Some(a)) => if field_text(d1, "currency"@) == field_text(d1, "baseCurrency"@) && field_text(
            d1,
            "baseAmountMinor"@,
        ).len() == 0 {
            with(d1, "baseAmountMinor"@, jstr(int_dec(a)))
        } else {
            d1
        },
        _ => d1,
    }
}

/// Whether a transaction record is accepted: once its defaults and base amount
/// are filled in, its amount and base amount are positive integers, its type is
/// one of the five, a transfer names both accounts, a refund its kind and an
/// adjustment its direction.
pub open spec fn transaction_accepted(d: Json) -> bool {
    let d1 = transaction_defaults(d);
    let d2 = base_filled(d1);
    let ty = field_text(d2, "transactionType"@);
    &&& is_obj(d)
    &&& int_field(d1, "amountMinor"@) matches Ok(Some(a)) && a > 0
    &&& int_field(d2, "baseAmountMinor"@) matches Ok(Some(b)) && b > 0
    &&& is_transaction_type(ty)
    &&& ty == "TRANSFER"@ ==> field_text(d2, "accountId"@).len() > 0 && field_text(d2, "destinationAccountId"@).len() > 0
    &&& ty == "REFUND"@ ==> field_text(d2, "refundKind"@).len() > 0
    &&& ty == "ADJUSTMENT"@ ==> field_text(d2, "adjustmentDirection"@).len() > 0
}

/// A transaction is accepted exactly when `transaction_accepted` holds, and an
/// accepted one is stored with its defaults and base amount filled in.
pub proof fn lemma_transaction_acceptance(d: Json)
    ensures
        (normalize_of("financialTransactions"@, d).1 is Ok) <==> transaction_accepted(d),
        transaction_accepted(d) ==> normalize_of("financialTransactions"@, d).0 == base_filled(
            transaction_defaults(d),
        ),
{
    reveal_strlit("financialTransactions");
    reveal_strlit("results");
    reveal_strlit("decisions");
    reveal_strlit("financialAccounts");
    reveal_strlit("financialCategories");
    assert("financialTransactions"@.len() == 21 && "results"@.len() == 7 && "decisions"@.len() == 9);
    assert("financialTransactions"@ != "results"@);
    assert("financialTransactions"@ != "decisions"@);
    assert("financialTransactions"@ != "financialAccounts"@);
    assert("financialTransactions"@ != "financialCategories"@);
}

/// A record of `entity` after financial normalizing, and whether it is accepted.
pub open spec fn normalize_of(entity: Seq<char>, d: Json) -> (Json, Result<(), Seq<char>>) {
    if !is_obj(d) {
        (d, Err("记录必须是结构化对象"@))
    } else if entity == "results"@ {
        normalize_results(d)
    } else if entity == "decisions"@ {
        (d, normalize_decision(d))
    } else if entity == "financialAccounts"@ {
        let d1 = default_to(default_to(default_to(d, "currency"@, "CNY"@), "status"@, "ACTIVE"@),
            "evidenceStatus"@, "RECORDED"@);
        (d1, match int_error(d1, "openingBalanceMinor"@) {
            Some(e) => Err(e),
            None => Ok(()),
        })
    } else if entity == "financialCategories"@ {
        (default_to(d, "status"@, "ACTIVE"@), Ok(()))
    } else if entity == "financialTransactions"@ {
        normalize_transaction(d)
    } else {
        (d, Ok(()))
    }
}

/// The normalizing of `entity` stays within `i128` (past it the original overflows).
pub open spec fn normalize_fits(entity: Seq<char>, d: Json) -> bool {
    entity == "results"@ && is_obj(d) ==> results_fit(d)
}

pub open spec fn unit_view(r: Result<(), String>) -> Result<(), Seq<char>> {
    match r {
        Ok(()) => Ok(()),
        Err(e) => Err(e@),
    }
}

fn int_error_exec(data: &JsonValue, k: &str) -> (r: Option<String>)
    ensures
        match r {
            Some(e) => int_error(data@, k@) == Some(e@),
            None => int_error(data@, k@) is None,
        },
{
    match parse_integer(data, k) {
        Err(e) => Some(e),
        Ok(_) => None,
    }
}

fn text_is(data: &JsonValue, k: &str, v: &str) -> (r: bool)
    ensures
        r == (field_text(data@, k@) == v@),
{
    let t = data.text_of(k);
    eq_str(t.as_str(), v)
}

fn text_blank(data: &JsonValue, k: &str) -> (r: bool)
    ensures
        r == (field_text(data@, k@).len() == 0),
{
    let t = data.text_of(k);
    t.as_str().is_empty()
}

fn normalize_results_exec(data: &mut JsonValue) -> (r: Result<(), String>)
    requires
        is_obj(old(data)@),
        results_fit(old(data)@),
    ensures
        (final(data)@, unit_view(r)) == normalize_results(old(data)@),
        crate::json::json_wf(*old(data)) ==> crate::json::json_wf(*final(data)),
{
    default_to_exec(data, "outcomeType", "QUALITATIVE");
    default_to_exec(data, "status", "PLANNED");
    default_to_exec(data, "evidenceStatus", "RECORDED");
    let ghost d1 = data@;
    assert(d1 == results_defaults(old(data)@));
    let snapshot = data.duplicate();
    let target = match parse_integer(&snapshot, "targetAmountMinor") {
        Ok(t) => t,
        Err(e) => {
            return Err(e);
        },
    };
    let actual = match parse_integer(&snapshot, "actualAmountMinor") {
        Ok(a) => a,
        Err(e) => {
            return Err(e);
        },
    };
    let ghost tg = match target { Some(t) => Some(t as int), None => None::<int> };
    let ghost ag = match actual { Some(a) => Some(a as int), None => None::<int> };
    if let (Some(t), Some(a)) = (target, actual) {
        data.insert("varianceAmountMinor", JsonValue::from_string(i128_to_string(a - t)));
        if t != 0 {
            let q = trunc_div(a * 10000, t);
            data.insert("achievementBps", JsonValue::from_string(i128_to_string(q)));
        } else {
            data.remove("achievementBps");
        }
    }
    let ghost d2 = data@;
    assert(d2 == with_minor_outcome(d1, tg, ag));
    let tv = match parse_decimal(&snapshot, "targetValue") {
        Ok(v) => v,
        Err(e) => {
            return Err(e);
        },
    };
    let av = match parse_decimal(&snapshot, "actualValue") {
        Ok(v) => v,
        Err(e) => {
            assert(normalize_results(old(data)@) == (d2, Err::<(), Seq<char>>(e@)));
            return Err(e);
        },
    };
    let ghost tvg = match tv { Some(t) => Some(t as int), None => None::<int> };
    let ghost avg = match av { Some(a) => Some(a as int), None => None::<int> };
    if let (Some(t), Some(a)) = (tv, av) {
        data.insert("varianceValue", JsonValue::from_string(format_decimal(a - t)));
        if t != 0 {
            data.insert("achievementBps", JsonValue::from_string(i128_to_string(trunc_div(a * 10000, t))));
        }
    }
    assert(data@ == with_decimal_outcome(d2, tvg, avg));
    Ok(())
}


fn normalize_transaction_exec(data: &mut JsonValue) -> (r: Result<(), String>)
    requires
        is_obj(old(data)@),
    ensures
        (final(data)@, unit_view(r)) == normalize_transaction(old(data)@),
        crate::json::json_wf(*old(data)) ==> crate::json::json_wf(*final(data)),
{
    default_to_exec(data, "status", "POSTED");
    default_to_exec(data, "currency", "CNY");
    default_to_exec(data, "baseCurrency", "CNY");
    default_to_exec(data, "evidenceStatus", "RECORDED");
    let ghost d1 = data@;
    let amount = match parse_integer(data, "amountMinor") {
        Err(e) => {
            return Err(e);
        },
        Ok(None) => {
            return Err("财务流水必须填写金额".to_owned());
        },
        Ok(Some(a)) => a,
    };
    if amount <= 0 {
        return Err("收入、支出、转账、退款和调整的金额必须使用正数".to_owned());
    }
    let currency = data.text_of("currency");
    let base_currency = data.text_of("baseCurrency");
    if eq_str(currency.as_str(), base_currency.as_str()) && text_blank(data, "baseAmountMinor") {
        data.insert("baseAmountMinor", JsonValue::from_string(i128_to_string(amount)));
    }
    let ghost d2 = data@;
    let base_amount = match parse_integer(data, "baseAmountMinor") {
        Err(e) => {
            return Err(e);
        },
        Ok(None) => {
            return Err("外币交易必须填写基础币金额".to_owned());
        },
        Ok(Some(b)) => b,
    };
    if base_amount <= 0 {
        return Err("基础币金额必须大于零".to_owned());
    }
    let ty = data.text_of("transactionType");
    let t = ty.as_str();
    if !(eq_str(t, "INCOME") || eq_str(t, "EXPENSE") || eq_str(t, "TRANSFER") || eq_str(t, "REFUND")
        || eq_str(t, "ADJUSTMENT")) {
        return Err("请选择有效的交易类型".to_owned());
    }
    if eq_str(t, "TRANSFER") && (text_blank(data, "accountId") || text_blank(data, "destinationAccountId")) {
        return Err("转账必须同时选择来源账户和目标账户".to_owned());
    }
    if eq_str(t, "REFUND") && text_blank(data, "refundKind") {
        return Err("退款必须说明是费用退款还是收入退款".to_owned());
    }
    if eq_str(t, "ADJUSTMENT") && text_blank(data, "adjustmentDirection") {
        return Err("余额调整必须选择增加或减少".to_owned());
    }
    Ok(())
}

fn normalize_decision_exec(data: &JsonValue) -> (r: Result<(), String>)
    ensures
        unit_view(r) == normalize_decision(data@),
{
    if let Some(e) = int_error_exec(data, "expectedRevenueMinor") {
        return Err(e);
    }
    if let Some(e) = int_error_exec(data, "expectedCostMinor") {
        return Err(e);
    }
    if let Some(e) = int_error_exec(data, "actualRevenueMinor") {
        return Err(e);
    }
    if let Some(e) = int_error_exec(data, "actualCostMinor") {
        return Err(e);
    }
    if (text_is(data, "decisionLevel", "MATERIAL") || text_is(data, "decisionLevel", "STRATEGIC"))
        && text_blank(data, "expectedOutcome") {
        return Err("重要或战略决策必须写明预期结果，才能在未来校准判断".to_owned());
    }
    Ok(())
}

/// Fills the defaults of a financial record and checks its amounts and kind:
/// outcomes get their variance and achievement, transactions their base amount.
/// Where a check fails, the defaults filled so far stay in `data`.
pub fn normalize(entity: &str, data: &mut JsonValue) -> (r: Result<(), String>)
    requires
        normalize_fits(entity@, old(data)@),
    ensures
        crate::json::json_wf(*old(data)) ==> crate::json::json_wf(*final(data)),
        (final(data)@, unit_view(r)) == normalize_of(entity@, old(data)@),
{
    if !data.is_object() {
        return Err("记录必须是结构化对象".to_owned());
    }
    if eq_str(entity, "results") {
        normalize_results_exec(data)
    } else if eq_str(entity, "decisions") {
        normalize_decision_exec(data)
    } else if eq_str(entity, "financialAccounts") {
        default_to_exec(data, "currency", "CNY");
        default_to_exec(data, "status", "ACTIVE");
        default_to_exec(data, "evidenceStatus", "RECORDED");
        match int_error_exec(data, "openingBalanceMinor") {
            Some(e) => Err(e),
            None => Ok(()),
        }
    } else if eq_str(entity, "financialCategories") {
        default_to_exec(data, "status", "ACTIVE");
        Ok(())
    } else if eq_str(entity, "financialTransactions") {
        normalize_transaction_exec(data)
    } else {
        Ok(())
    }
}

// ---------------------------------------------------------------------------
// Posted transactions.
/// The facts of a posted transaction that cannot change.
pub open spec fn core_facts() -> Seq<Seq<char>> {
    seq![
        "transactionType"@,
        "amountMinor"@,
        "currency"@,
        "baseCurrency"@,
        "baseAmountMinor"@,
        "accountId"@,
        "destinationAccountId"@,
        "occurredAt"@,
    ]
}

/// Whether an update of a record is allowed: a posted transaction may only be
/// voided, with a reason, or saved with its core facts unchanged.
pub open spec fn transition_of(entity: Seq<char>, existing: Option<Json>, after: Json) -> Result<(), Seq<char>> {
    if entity != "financialTransactions"@ {
        Ok(())
    } else {
        match existing {
            None => Ok(()),
            Some(before) => if field_str(before, "status"@) != Some("POSTED"@) {
                Ok(())
            } else if field_str(after, "status"@) == Some("VOIDED"@) {
                if field_text(after, "voidReason"@).len() == 0 {
                    Err("作废已入账流水必须填写原因"@)
                } else {
                    Ok(())
                }
            } else if exists|i: int| 0 <= i < core_facts().len() && field(before, #[trigger] core_facts()[i])
                != field(after, core_facts()[i]) {
                Err("已入账流水的核心事实不能直接修改；请作废后创建更正流水"@)
            } else {
                Ok(())
            },
        }
    }
}

fn same_field(a: &JsonValue, b: &JsonValue, k: &str) -> (r: bool)
    ensures
        r == (field(a@, k@) == field(b@, k@)),
{
    match (a.get(k), b.get(k)) {
        (Some(x), Some(y)) => json_eq(x, y),
        (None, None) => true,
        _ => false,
    }
}

fn str_is_exec(data: &JsonValue, k: &str, v: &str) -> (r: bool)
    ensures
        r == (field_str(data@, k@) == Some(v@)),
{
    match data.get_str(k) {
        Some(s) => eq_str(s, v),
        None => false,
    }
}

/// Checks an update of a record against the rules for posted transactions.
pub fn validate_transition(entity: &str, existing: Option<&JsonValue>, after: &JsonValue) -> (r: Result<(), String>)
    ensures
        unit_view(r) == transition_of(entity@, opt_view(existing), after@),
{
    if !eq_str(entity, "financialTransactions") {
        return Ok(());
    }
    let before = match existing {
        None => {
            return Ok(());
        },
        Some(b) => b,
    };
    if !str_is_exec(before, "status", "POSTED") {
        return Ok(());
    }
    if str_is_exec(after, "status", "VOIDED") {
        if text_blank(after, "voidReason") {
            return Err("作废已入账流水必须填写原因".to_owned());
        }
        return Ok(());
    }
    let keys: [&str; 8] = [
        "transactionType",
        "amountMinor",
        "currency",
        "baseCurrency",
        "baseAmountMinor",
        "accountId",
        "destinationAccountId",
        "occurredAt",
    ];
    assert(keys@.map_values(|k: &str| k@) =~= core_facts());
    let mut i: usize = 0;
    while i < 8
        invariant
            i <= 8,
            keys@.map_values(|k: &str| k@) == core_facts(),
            entity@ == "financialTransactions"@,
            opt_view(existing) == Some(before@),
            field_str(before@, "status"@) == Some("POSTED"@),
            field_str(after@, "status"@) != Some("VOIDED"@),
            forall|j: int| 0 <= j < i ==> field(before@, #[trigger] core_facts()[j]) == field(after@, core_facts()[j]),
        decreases 8 - i,
    {
        assert(keys@[i as int]@ == core_facts()[i as int]);
        if !same_field(before, after, keys[i]) {
            assert(field(before@, core_facts()[i as int]) != field(after@, core_facts()[i as int]));
            return Err("已入账流水的核心事实不能直接修改；请作废后创建更正流水".to_owned());
        }
        i = i + 1;
    }
    Ok(())
}

/// Saving a record unchanged never breaks the posted-transaction rules.
pub proof fn lemma_unchanged_save_allowed(entity: Seq<char>, d: Json)
    ensures
        transition_of(entity, Some(d), d) is Ok,
{
    reveal_strlit("POSTED");
    reveal_strlit("VOIDED");
    assert("POSTED"@ != "VOIDED"@) by {
        assert("POSTED"@[0] != "VOIDED"@[0]);
    }
}


// ---------------------------------------------------------------------------
// The evidence summary.
/// Running totals of the summary.
pub struct Totals {
    pub income: int,
    pub expense: int,
    pub cash: int,
    pub minutes: int,
    pub transactions: int,
    pub outcomes: int,
    pub verified: int,
}

pub open spec fn zero_totals() -> Totals {
    Totals { income: 0, expense: 0, cash: 0, minutes: 0, transactions: 0, outcomes: 0, verified: 0 }
}

pub open spec fn row_included(d: Json, project: Option<Seq<char>>) -> bool {
    match project {
        None => true,
        Some(p) => field_str(d, "projectId"@) == Some(p),
    }
}

/// A transaction without a status counts as posted.
pub open spec fn is_posted(d: Json) -> bool {
    match field_str(d, "status"@) {
        Some(s) => s == "POSTED"@,
        None => true,
    }
}

/// The base amount of a transaction, else its amount, else zero.
pub open spec fn tx_amount(d: Json) -> Result<int, Seq<char>> {
    match int_field(d, "baseAmountMinor"@) {
        Err(e) => Err(e),
        Ok(b) => match int_field(d, "amountMinor"@) {
            Err(e) => Err(e),
            Ok(a) => Ok(
                match b {
                    Some(v) => v,
                    None => match a {
                        Some(v) => v,
                        None => 0,
                    },
                },
            ),
        },
    }
}

/// How one posted transaction moves income, expense and net cash.
pub open spec fn book(t: Totals, d: Json, a: int) -> Totals {
    let ty = field_text(d, "transactionType"@);
    let t1 = Totals { transactions: t.transactions + 1, ..t };
    if ty == "INCOME"@ {
        Totals { income: t1.income + a, cash: t1.cash + a, ..t1 }
    } else if ty == "EXPENSE"@ {
        Totals { expense: t1.expense + a, cash: t1.cash - a, ..t1 }
    } else if ty == "REFUND"@ && field_text(d, "refundKind"@) == "INCOME_REFUND"@ {
        Totals { income: t1.income - a, cash: t1.cash - a, ..t1 }
    } else if ty == "REFUND"@ {
        Totals { expense: t1.expense - a, cash: t1.cash + a, ..t1 }
    } else if ty == "ADJUSTMENT"@ && field_text(d, "adjustmentDirection"@) == "DECREASE"@ {
        Totals { cash: t1.cash - a, ..t1 }
    } else if ty == "ADJUSTMENT"@ {
        Totals { cash: t1.cash + a, ..t1 }
    } else {
        t1
    }
}

/// The totals after one record.
pub open spec fn step(t: Totals, entity: Seq<char>, d: Json) -> Result<Totals, Seq<char>> {
    if entity == "financialTransactions"@ && is_posted(d) {
        match tx_amount(d) {
            Err(e) => Err(e),
            Ok(a) => Ok(book(t, d, a)),
        }
    } else if entity == "timeLogs"@ {
        Ok(Totals { minutes: t.minutes + match as_i64(field(d, "durationMinutes"@)) {
            Some(m) => m,
            None => 0,
        }, ..t })
    } else if entity == "results"@ {
        Ok(Totals {
            outcomes: t.outcomes + 1,
            verified: t.verified + if field_str(d, "evidenceStatus"@) == Some("VERIFIED"@) {
                1int
            } else {
                0
            },
            ..t
        })
    } else {
        Ok(t)
    }
}

/// The totals over records (kind and data), restricted to one project when given.
pub open spec fn totals_of(rows: Seq<(Seq<char>, Json)>, project: Option<Seq<char>>) -> Result<Totals, Seq<char>>
    decreases rows.len(),
{
    if rows.len() == 0 {
        Ok(zero_totals())
    } else {
        match totals_of(rows.drop_last(), project) {
            Err(e) => Err(e),
            Ok(t) => if row_included(rows.last().1, project) {
                step(t, rows.last().0, rows.last().1)
            } else {
                Ok(t)
            },
        }
    }
}

/// Adding one posted transaction of (base) amount `a` to the records a
/// summary reads counts one more posted transaction and moves the money totals
/// by its kind: income raises income and net cash; expense raises expense and
/// lowers net cash; an income refund lowers income and net cash; any other
/// refund lowers expense and raises net cash; a decreasing adjustment lowers
/// net cash and any other adjustment raises it; other kinds move no money.
/// Time and outcome counts stay as they were.
pub proof fn lemma_posted_transaction_totals(
    rows: Seq<(Seq<char>, Json)>,
    project: Option<Seq<char>>,
    d: Json,
    a: int,
)
    requires
        totals_of(rows, project) is Ok,
        row_included(d, project),
        field_str(d, "status"@) is None || field_str(d, "status"@) == Some("POSTED"@),
        int_field(d, "amountMinor"@) is Ok,
        int_field(d, "baseAmountMinor"@) == Ok::<Option<int>, Seq<char>>(Some(a)) || (int_field(
            d,
            "baseAmountMinor"@,
        ) == Ok::<Option<int>, Seq<char>>(None) && (int_field(d, "amountMinor"@) == Ok::<Option<int>, Seq<char>>(
            Some(a),
        ) || (int_field(d, "amountMinor"@) == Ok::<Option<int>, Seq<char>>(None) && a == 0))),
    ensures
        ({
            let t = totals_of(rows, project)->Ok_0;
            let r = totals_of(rows.push(("financialTransactions"@, d)), project);
            let ty = field_text(d, "transactionType"@);
            &&& r is Ok
            &&& r->Ok_0.transactions == t.transactions + 1
            &&& r->Ok_0.minutes == t.minutes && r->Ok_0.outcomes == t.outcomes && r->Ok_0.verified == t.verified
            &&& ty == "INCOME"@ ==> r->Ok_0.income == t.income + a && r->Ok_0.expense == t.expense
                && r->Ok_0.cash == t.cash + a
            &&& ty == "EXPENSE"@ ==> r->Ok_0.income == t.income && r->Ok_0.expense == t.expense + a
                && r->Ok_0.cash == t.cash - a
            &&& ty == "REFUND"@ && field_text(d, "refundKind"@) == "INCOME_REFUND"@ ==> r->Ok_0.income
                == t.income - a && r->Ok_0.expense == t.expense && r->Ok_0.cash == t.cash - a
            &&& ty == "REFUND"@ && field_text(d, "refundKind"@) != "INCOME_REFUND"@ ==> r->Ok_0.income
                == t.income && r->Ok_0.expense == t.expense - a && r->Ok_0.cash == t.cash + a
            &&& ty == "ADJUSTMENT"@ && field_text(d, "adjustmentDirection"@) == "DECREASE"@ ==> r->Ok_0.income
                == t.income && r->Ok_0.expense == t.expense && r->Ok_0.cash == t.cash - a
            &&& ty == "ADJUSTMENT"@ && field_text(d, "adjustmentDirection"@) != "DECREASE"@ ==> r->Ok_0.income
                == t.income && r->Ok_0.expense == t.expense && r->Ok_0.cash == t.cash + a
            &&& ty != "INCOME"@ && ty != "EXPENSE"@ && ty != "REFUND"@ && ty != "ADJUSTMENT"@ ==> r->Ok_0.income
                == t.income && r->Ok_0.expense == t.expense && r->Ok_0.cash == t.cash
        }),
{
    reveal_strlit("INCOME");
    reveal_strlit("EXPENSE");
    reveal_strlit("REFUND");
    reveal_strlit("ADJUSTMENT");
    reveal_strlit("POSTED");
    assert("INCOME"@.len() == 6 && "EXPENSE"@.len() == 7 && "REFUND"@.len() == 6 && "ADJUSTMENT"@.len() == 10);
    assert("INCOME"@ != "EXPENSE"@ && "INCOME"@ != "ADJUSTMENT"@ && "EXPENSE"@ != "REFUND"@);
    assert("INCOME"@ != "REFUND"@) by {
        assert("INCOME"@[0] != "REFUND"@[0]);
    }
    assert("EXPENSE"@ != "ADJUSTMENT"@ && "REFUND"@ != "ADJUSTMENT"@);
    let x = ("financialTransactions"@, d);
    assert(rows.push(x).drop_last() =~= rows);
    assert(rows.push(x).last() == x);
    assert(is_posted(d));
    assert(tx_amount(d) == Ok::<int, Seq<char>>(a));
}

/// Adding any other record to what a summary reads: a record of another
/// project (when the summary is for one project) or an unposted transaction
/// changes nothing; a time log adds its whole `durationMinutes` (none when it
/// has no integer duration); an outcome counts once more, and once more as
/// verified when its evidence is verified; records of other kinds change nothing.
pub proof fn lemma_other_record_totals(
    rows: Seq<(Seq<char>, Json)>,
    project: Option<Seq<char>>,
    entity: Seq<char>,
    d: Json,
)
    requires
        totals_of(rows, project) is Ok,
    ensures
        ({
            let t = totals_of(rows, project)->Ok_0;
            let r = totals_of(rows.push((entity, d)), project);
            &&& (project is Some && field_str(d, "projectId"@) != Some(project->Some_0)) ==> r == Ok::<Totals, Seq<char>>(t)
            &&& row_included(d, project) && entity == "financialTransactions"@ && field_str(d, "status"@) is Some
                && field_str(d, "status"@) != Some("POSTED"@) ==> r == Ok::<Totals, Seq<char>>(t)
            &&& row_included(d, project) && entity == "timeLogs"@ ==> r == Ok::<Totals, Seq<char>>(
                Totals {
                    minutes: t.minutes + match as_i64(field(d, "durationMinutes"@)) {
                        Some(m) => m,
                        None => 0,
                    },
                    ..t
                },
            )
            &&& row_included(d, project) && entity == "results"@ ==> r == Ok::<Totals, Seq<char>>(
                Totals {
                    outcomes: t.outcomes + 1,
                    verified: t.verified + if field_str(d, "evidenceStatus"@) == Some("VERIFIED"@) {
                        1int
                    } else {
                        0
                    },
                    ..t
                },
            )
            &&& row_included(d, project) && entity != "financialTransactions"@ && entity != "timeLogs"@ && entity
                != "results"@ ==> r == Ok::<Totals, Seq<char>>(t)
        }),
{
    reveal_strlit("financialTransactions");
    reveal_strlit("timeLogs");
    reveal_strlit("results");
    assert("financialTransactions"@.len() == 21 && "timeLogs"@.len() == 8 && "results"@.len() == 7);
    let x = (entity, d);
    assert(rows.push(x).drop_last() =~= rows);
    assert(rows.push(x).last() == x);
}

pub open spec fn totals_fit(t: Totals) -> bool {
    &&& in_i128(t.income)
    &&& in_i128(t.expense)
    &&& in_i128(t.cash)
    &&& i64::MIN <= t.minutes <= i64::MAX
    &&& t.transactions <= i64::MAX
    &&& t.outcomes <= i64::MAX
    &&& t.verified <= i64::MAX
}

/// The summary arithmetic stays within its integer types (past them the original overflows).
pub open spec fn summary_fits(rows: Seq<(Seq<char>, Json)>, project: Option<Seq<char>>) -> bool {
    &&& forall|k: int| 0 <= k <= rows.len() ==> (#[trigger] totals_of(rows.take(k), project) matches Ok(t)
        ==> totals_fit(t))
    &&& totals_of(rows, project) matches Ok(t) ==> in_i128(t.income - t.expense) && in_i128(
        (t.income - t.expense) * 60,
    )
}

pub open spec fn flag(b: bool) -> int {
    if b {
        1
    } else {
        0
    }
}

/// The summary document of the totals.
pub open spec fn summary_json(t: Totals) -> Json {
    let contribution = t.income - t.expense;
    let coverage = 25 * (flag(t.transactions > 0) + flag(t.minutes > 0) + flag(t.outcomes > 0) + flag(
        t.verified > 0,
    ));
    with(with(with(with(with(with(with(with(with(with(with(with(empty_obj(), "baseCurrency"@, jstr(
        "CNY"@,
    )), "incomeMinor"@, jstr(int_dec(t.income))), "expenseMinor"@, jstr(int_dec(t.expense))),
        "cashNetMinor"@, jstr(int_dec(t.cash))), "managementContributionMinor"@, jstr(int_dec(
        contribution,
    ))), "timeMinutes"@, jint(t.minutes)), "unitTimeContributionMinor"@, if t.minutes > 0
        && t.transactions > 0 {
        jstr(int_dec(tdiv(contribution * 60, t.minutes)))
    } else {
        Json::Null
    }), "postedTransactions"@, jint(t.transactions)), "outcomeCount"@, jint(t.outcomes)),
        "verifiedOutcomeCount"@, jint(t.verified)), "dataCoverage"@, jint(coverage)), "warnings"@,
        Json::Arr(if t.transactions == 0 {
            seq![jstr("尚未记录已入账流水"@)]
        } else {
            Seq::empty()
        }))
}

/// What a summary says: the contribution is income less expense, the coverage
/// counts a quarter for each kind of evidence present (posted transactions,
/// time, outcomes, verified outcomes), a warning stands exactly when nothing is
/// posted, and time contribution is given exactly when there is time and a
/// posted transaction.
pub proof fn lemma_summary_laws(t: Totals)
    ensures
        field(summary_json(t), "incomeMinor"@) == Some(jstr(int_dec(t.income))),
        field(summary_json(t), "expenseMinor"@) == Some(jstr(int_dec(t.expense))),
        field(summary_json(t), "managementContributionMinor"@) == Some(jstr(int_dec(t.income - t.expense))),
        field(summary_json(t), "dataCoverage"@) == Some(
            jint(
                25 * (flag(t.transactions > 0) + flag(t.minutes > 0) + flag(t.outcomes > 0) + flag(t.verified > 0)),
            ),
        ),
        field(summary_json(t), "postedTransactions"@) == Some(jint(t.transactions)),
        field(summary_json(t), "timeMinutes"@) == Some(jint(t.minutes)),
        field(summary_json(t), "outcomeCount"@) == Some(jint(t.outcomes)),
        field(summary_json(t), "verifiedOutcomeCount"@) == Some(jint(t.verified)),
        (field(summary_json(t), "warnings"@) == Some(Json::Arr(Seq::empty()))) <==> t.transactions != 0,
        (field(summary_json(t), "unitTimeContributionMinor"@) == Some(Json::Null)) <==> (t.minutes <= 0
            || t.transactions <= 0),
{
    reveal_strlit("baseCurrency");
    reveal_strlit("incomeMinor");
    reveal_strlit("expenseMinor");
    reveal_strlit("cashNetMinor");
    reveal_strlit("managementContributionMinor");
    reveal_strlit("timeMinutes");
    reveal_strlit("unitTimeContributionMinor");
    reveal_strlit("postedTransactions");
    reveal_strlit("outcomeCount");
    reveal_strlit("verifiedOutcomeCount");
    reveal_strlit("dataCoverage");
    reveal_strlit("warnings");
    assert("baseCurrency"@.len() == 12 && "baseCurrency"@[0] == 'b');
    assert("incomeMinor"@.len() == 11 && "incomeMinor"@[0] == 'i');
    assert("expenseMinor"@.len() == 12 && "expenseMinor"@[0] == 'e');
    assert("cashNetMinor"@.len() == 12 && "cashNetMinor"@[0] == 'c');
    assert("managementContributionMinor"@.len() == 27 && "managementContributionMinor"@[0] == 'm');
    assert("timeMinutes"@.len() == 11 && "timeMinutes"@[0] == 't');
    assert("unitTimeContributionMinor"@.len() == 25 && "unitTimeContributionMinor"@[0] == 'u');
    assert("postedTransactions"@.len() == 18 && "postedTransactions"@[0] == 'p');
    assert("outcomeCount"@.len() == 12 && "outcomeCount"@[0] == 'o');
    assert("verifiedOutcomeCount"@.len() == 20 && "verifiedOutcomeCount"@[0] == 'v');
    assert("dataCoverage"@.len() == 12 && "dataCoverage"@[0] == 'd');
    assert("warnings"@.len() == 8 && "warnings"@[0] == 'w');
    reveal_strlit("尚未记录已入账流水");
    let w = Json::Arr(seq![jstr("尚未记录已入账流水"@)]);
    assert(w != Json::Arr(Seq::empty())) by {
        assert(seq![jstr("尚未记录已入账流水"@)].len() == 1);
    }
}

/// A summary of stored rows is the summary of their totals.
pub proof fn lemma_summary_of_rows(rows: Seq<(Seq<char>, Json)>, project: Option<Seq<char>>)
    ensures
        totals_of(rows, project) matches Ok(t) ==> summary_of(rows, project) == Ok::<Json, Seq<char>>(
            summary_json(t),
        ),
{
}

/// The integer a summary reports under `k` (0 where it reports none).
pub open spec fn count_of(s: Json, k: Seq<char>) -> int {
    match field(s, k) {
        Some(Json::Num(Num::Int(n))) => n,
        _ => 0,
    }
}

/// Read off a summary of stored rows: its coverage counts a quarter for each
/// of the posted transactions, time, outcomes and verified outcomes that it
/// reports; its contribution is the income it reports less the expense; it
/// warns exactly when it reports no posted transaction; and it gives no time
/// contribution exactly when it reports no time or no posted transaction.
pub proof fn lemma_summary_reports(rows: Seq<(Seq<char>, Json)>, project: Option<Seq<char>>)
    ensures
        summary_of(rows, project) matches Ok(s) ==> {
            &&& field(s, "dataCoverage"@) == Some(
                jint(
                    25 * (flag(count_of(s, "postedTransactions"@) > 0) + flag(count_of(s, "timeMinutes"@) > 0)
                        + flag(count_of(s, "outcomeCount"@) > 0) + flag(count_of(s, "verifiedOutcomeCount"@) > 0)),
                ),
            )
            &&& exists|i: int, e: int| #![trigger int_dec(i), int_dec(e)]
                field(s, "incomeMinor"@) == Some(jstr(int_dec(i))) && field(s, "expenseMinor"@) == Some(
                    jstr(int_dec(e)),
                ) && field(s, "managementContributionMinor"@) == Some(jstr(int_dec(i - e)))
            &&& (field(s, "warnings"@) == Some(Json::Arr(Seq::empty()))) <==> count_of(s, "postedTransactions"@)
                != 0
            &&& (field(s, "unitTimeContributionMinor"@) == Some(Json::Null)) <==> (count_of(s, "timeMinutes"@)
                <= 0 || count_of(s, "postedTransactions"@) <= 0)
        },
{
    if let Ok(t) = totals_of(rows, project) {
        lemma_summary_of_rows(rows, project);
        lemma_summary_laws(t);
        let s = summary_json(t);
        assert(count_of(s, "postedTransactions"@) == t.transactions);
        assert(count_of(s, "timeMinutes"@) == t.minutes);
        assert(count_of(s, "outcomeCount"@) == t.outcomes);
        assert(count_of(s, "verifiedOutcomeCount"@) == t.verified);
        assert(field(s, "managementContributionMinor"@) == Some(jstr(int_dec(t.income - t.expense))));
        assert(field(s, "incomeMinor"@) == Some(jstr(int_dec(t.income))));
        assert(field(s, "expenseMinor"@) == Some(jstr(int_dec(t.expense))));
    }
}

pub open spec fn rows_view(rows: Seq<(String, JsonValue)>) -> Seq<(Seq<char>, Json)> {
    rows.map_values(|r: (String, JsonValue)| (r.0@, r.1@))
}

pub open spec fn summary_of(rows: Seq<(Seq<char>, Json)>, project: Option<Seq<char>>) -> Result<Json, Seq<char>> {
    match totals_of(rows, project) {
        Ok(t) => Ok(summary_json(t)),
        Err(e) => Err(e),
    }
}

pub open spec fn opt_str_view(p: Option<&str>) -> Option<Seq<char>> {
    match p {
        Some(s) => Some(s@),
        None => None,
    }
}

pub struct ExecTotals {
    pub income: i128,
    pub expense: i128,
    pub cash: i128,
    pub minutes: i64,
    pub transactions: i64,
    pub outcomes: i64,
    pub verified: i64,
}

pub open spec fn totals_view(t: ExecTotals) -> Totals {
    Totals {
        income: t.income as int,
        expense: t.expense as int,
        cash: t.cash as int,
        minutes: t.minutes as int,
        transactions: t.transactions as int,
        outcomes: t.outcomes as int,
        verified: t.verified as int,
    }
}

fn tx_amount_exec(d: &JsonValue) -> (r: Result<i128, String>)
    ensures
        match r {
            Ok(a) => tx_amount(d@) == Ok::<int, Seq<char>>(a as int),
            Err(e) => tx_amount(d@) == Err::<int, Seq<char>>(e@),
        },
{
    let b = match parse_integer(d, "baseAmountMinor") {
        Ok(b) => b,
        Err(e) => {
            return Err(e);
        },
    };
    let a = match parse_integer(d, "amountMinor") {
        Ok(a) => a,
        Err(e) => {
            return Err(e);
        },
    };
    Ok(
        match b {
            Some(v) => v,
            None => match a {
                Some(v) => v,
                None => 0,
            },
        },
    )
}

fn step_exec(t: &mut ExecTotals, entity: &str, d: &JsonValue) -> (r: Result<(), String>)
    requires
        step(totals_view(*old(t)), entity@, d@) matches Ok(n) ==> totals_fit(n),
    ensures
        match r {
            Ok(()) => step(totals_view(*old(t)), entity@, d@) == Ok::<Totals, Seq<char>>(totals_view(*final(t))),
            Err(e) => step(totals_view(*old(t)), entity@, d@) == Err::<Totals, Seq<char>>(e@),
        },
{
    let posted = match d.get_str("status") {
        Some(s) => eq_str(s, "POSTED"),
        None => true,
    };
    if eq_str(entity, "financialTransactions") && posted {
        let a = match tx_amount_exec(d) {
            Ok(a) => a,
            Err(e) => {
                return Err(e);
            },
        };
        let ghost n = book(totals_view(*t), d@, a as int);
        assert(totals_fit(n));
        t.transactions = t.transactions + 1;
        if text_is(d, "transactionType", "INCOME") {
            t.income = t.income + a;
            t.cash = t.cash + a;
        } else if text_is(d, "transactionType", "EXPENSE") {
            t.expense = t.expense + a;
            t.cash = t.cash - a;
        } else if text_is(d, "transactionType", "REFUND") && text_is(d, "refundKind", "INCOME_REFUND") {
            t.income = t.income - a;
            t.cash = t.cash - a;
        } else if text_is(d, "transactionType", "REFUND") {
            t.expense = t.expense - a;
            t.cash = t.cash + a;
        } else if text_is(d, "transactionType", "ADJUSTMENT") && text_is(d, "adjustmentDirection", "DECREASE") {
            t.cash = t.cash - a;
        } else if text_is(d, "transactionType", "ADJUSTMENT") {
            t.cash = t.cash + a;
        }
        Ok(())
    } else if eq_str(entity, "timeLogs") {
        let m = match d.i64_of("durationMinutes") {
            Some(m) => m,
            None => 0,
        };
        t.minutes = t.minutes + m;
        Ok(())
    } else if eq_str(entity, "results") {
        t.outcomes = t.outcomes + 1;
        if str_is_exec(d, "evidenceStatus", "VERIFIED") {
            t.verified = t.verified + 1;
        }
        Ok(())
    } else {
        Ok(())
    }
}

fn included_exec(d: &JsonValue, project: Option<&str>) -> (r: bool)
    ensures
        r == row_included(d@, opt_str_view(project)),
{
    match project {
        None => true,
        Some(p) => str_is_exec(d, "projectId", p),
    }
}

fn int_json(v: i64) -> (r: JsonValue)
    ensures
        crate::json::json_wf(r),
        r@ == jint(v as int),
{
    JsonValue::from_i64(v)
}

/// The financial, time and outcome evidence of the given records (kind and
/// data), restricted to one project when given; `Err` when an amount of a
/// posted transaction is not an integer.
pub fn summary(rows: &Vec<(String, JsonValue)>, project_id: Option<&str>) -> (r: Result<JsonValue, String>)
    requires
        summary_fits(rows_view(rows@), opt_str_view(project_id)),
    ensures
        r matches Ok(j) ==> crate::json::json_wf(j),
        match r {
            Ok(j) => summary_of(rows_view(rows@), opt_str_view(project_id)) == Ok::<Json, Seq<char>>(j@),
            Err(e) => summary_of(rows_view(rows@), opt_str_view(project_id)) == Err::<Json, Seq<char>>(e@),
        },
{
    let ghost rv = rows_view(rows@);
    let ghost pv = opt_str_view(project_id);
    let mut t = ExecTotals { income: 0, expense: 0, cash: 0, minutes: 0, transactions: 0, outcomes: 0, verified: 0 };
    let mut i: usize = 0;
    assert(rv.take(0).len() == 0);
    while i < rows.len()
        invariant
            i <= rows@.len(),
            rv == rows_view(rows@),
            rv.len() == rows@.len(),
            pv == opt_str_view(project_id),
            summary_fits(rv, pv),
            totals_of(rv.take(i as int), pv) == Ok::<Totals, Seq<char>>(totals_view(t)),
        decreases rows.len() - i,
    {
        proof {
            assert(rv.take(i + 1).drop_last() =~= rv.take(i as int));
            assert(rv.take(i + 1).last() == rv[i as int]);
            assert(rv[i as int] == (rows@[i as int].0@, rows@[i as int].1@));
            assert(totals_of(rv.take(i + 1), pv) matches Ok(n) ==> totals_fit(n));
        }
        let (entity, data) = (&rows[i].0, &rows[i].1);
        if included_exec(data, project_id) {
            match step_exec(&mut t, entity.as_str(), data) {
                Ok(()) => {},
                Err(e) => {
                    proof {
                        lemma_totals_err_stays(rv, pv, i + 1, e@);
                        assert(rv.take(rv.len() as int) =~= rv);
                    }
                    return Err(e);
                },
            }
        }
        i = i + 1;
    }
    assert(rv.take(rv.len() as int) =~= rv);
    let ghost tv = totals_view(t);
    let contribution = t.income - t.expense;
    let mut s = JsonValue::empty_object();
    s.insert("baseCurrency", JsonValue::text("CNY"));
    s.insert("incomeMinor", JsonValue::from_string(i128_to_string(t.income)));
    s.insert("expenseMinor", JsonValue::from_string(i128_to_string(t.expense)));
    s.insert("cashNetMinor", JsonValue::from_string(i128_to_string(t.cash)));
    s.insert("managementContributionMinor", JsonValue::from_string(i128_to_string(contribution)));
    s.insert("timeMinutes", int_json(t.minutes));
    let unit = if t.minutes > 0 && t.transactions > 0 {
        JsonValue::from_string(i128_to_string(trunc_div(contribution * 60, t.minutes as i128)))
    } else {
        JsonValue::Null
    };
    s.insert("unitTimeContributionMinor", unit);
    s.insert("postedTransactions", int_json(t.transactions));
    s.insert("outcomeCount", int_json(t.outcomes));
    s.insert("verifiedOutcomeCount", int_json(t.verified));
    let coverage: i64 = 25 * ((if t.transactions > 0 { 1i64 } else { 0 }) + (if t.minutes > 0 { 1i64 } else { 0 }) + (
    if t.outcomes > 0 { 1i64 } else { 0 }) + (if t.verified > 0 { 1i64 } else { 0 }));
    s.insert("dataCoverage", int_json(coverage));
    let warnings = if t.transactions == 0 {
        let w = vec![JsonValue::text("尚未记录已入账流水")];
        proof {
            crate::json::lemma_items_single(w@[0]);
            assert(w@ =~= seq![w@[0]]);
            crate::json::lemma_items_wf(w@);
        }
        JsonValue::Array(w)
    } else {
        let w: Vec<JsonValue> = Vec::new();
        proof {
            crate::json::lemma_items_empty();
        }
        JsonValue::Array(w)
    };
    s.insert("warnings", warnings);
    Ok(s)
}

proof fn lemma_totals_err_stays(rows: Seq<(Seq<char>, Json)>, project: Option<Seq<char>>, k: int, e: Seq<char>)
    requires
        0 <= k <= rows.len(),
        totals_of(rows.take(k), project) == Err::<Totals, Seq<char>>(e),
    ensures
        totals_of(rows, project) == Err::<Totals, Seq<char>>(e),
    decreases rows.len() - k,
{
    if k < rows.len() {
        assert(rows.take(k + 1).drop_last() =~= rows.take(k));
        lemma_totals_err_stays(rows, project, k + 1, e);
    } else {
        assert(rows.take(k) =~= rows);
    }
}


// ---------------------------------------------------------------------------
// Freezing the evidence of a decision.
/// Whether a decision needs its evidence frozen, and for which project: only a
/// material or strategic decision without a snapshot does, and it must name a project.
pub open spec fn snapshot_project_of(d: Json) -> Result<Option<Seq<char>>, Seq<char>> {
    if !is_material(d) || field_text(d, "evidenceSnapshot"@).len() > 0 {
        Ok(None)
    } else if field_text(d, "projectId"@).len() == 0 {
        Err("重要或战略决策必须关联真实项目，才能冻结决策时证据"@)
    } else {
        Ok(Some(field_text(d, "projectId"@)))
    }
}

/// The project whose evidence a decision must freeze, if any.
pub fn decision_snapshot_project(data: &JsonValue) -> (r: Result<Option<String>, String>)
    ensures
        match r {
            Ok(Some(p)) => snapshot_project_of(data@) == Ok::<Option<Seq<char>>, Seq<char>>(Some(p@)),
            Ok(None) => snapshot_project_of(data@) == Ok::<Option<Seq<char>>, Seq<char>>(None),
            Err(e) => snapshot_project_of(data@) == Err::<Option<Seq<char>>, Seq<char>>(e@),
        },
{
    if !(text_is(data, "decisionLevel", "MATERIAL") || text_is(data, "decisionLevel", "STRATEGIC")) || !text_blank(
        data,
        "evidenceSnapshot",
    ) {
        return Ok(None);
    }
    let project_id = data.text_of("projectId");
    if project_id.as_str().is_empty() {
        return Err("重要或战略决策必须关联真实项目，才能冻结决策时证据".to_owned());
    }
    Ok(Some(project_id))
}

/// A decision with its frozen evidence: the evidence text, when it was taken
/// and its coverage; with a note on unknowns when the coverage is incomplete.
pub open spec fn with_snapshot(d: Json, evidence: Json, text: Seq<char>, captured_at: Seq<char>) -> Result<Json, Seq<char>> {
    if !is_obj(d) {
        Err("决策必须是结构化对象"@)
    } else {
        let coverage = match field(evidence, "dataCoverage"@) {
            Some(v) => v,
            None => Json::Null,
        };
        let d1 = with(with(with(d, "evidenceSnapshot"@, jstr(text)), "evidenceSnapshotAt"@, jstr(captured_at)),
            "dataCoverage"@, coverage);
        let covered = match as_i64(field(evidence, "dataCoverage"@)) {
            Some(v) => v,
            None => 0,
        };
        if covered < 100 && field_text(d1, "knownUnknowns"@).len() == 0 {
            Ok(with(d1, "knownUnknowns"@, jstr("部分财务、时间或 Outcome 尚未完整核验。"@)))
        } else {
            Ok(d1)
        }
    }
}

/// Stores the frozen evidence summary (`evidence`, and its text) in a decision.
pub fn apply_decision_snapshot(data: &mut JsonValue, evidence: &JsonValue, evidence_text: &str, captured_at: &str) -> (r:
    Result<(), String>)
    ensures
        crate::json::json_wf(*old(data)) && crate::json::json_wf(*evidence) ==> crate::json::json_wf(*final(data)),
        match r {
            Ok(()) => with_snapshot(old(data)@, evidence@, evidence_text@, captured_at@) == Ok::<Json, Seq<char>>(
                final(data)@,
            ),
            Err(e) => with_snapshot(old(data)@, evidence@, evidence_text@, captured_at@) == Err::<Json, Seq<char>>(
                e@,
            ) && final(data)@ == old(data)@,
        },
{
    if !data.is_object() {
        return Err("决策必须是结构化对象".to_owned());
    }
    data.insert("evidenceSnapshot", JsonValue::text(evidence_text));
    data.insert("evidenceSnapshotAt", JsonValue::text(captured_at));
    let coverage = match evidence.get("dataCoverage") {
        Some(v) => v.duplicate(),
        None => JsonValue::Null,
    };
    data.insert("dataCoverage", coverage);
    let covered: i64 = match evidence.i64_of("dataCoverage") {
        Some(v) => v,
        None => 0,
    };
    if covered < 100 && text_blank(data, "knownUnknowns") {
        data.insert("knownUnknowns", JsonValue::text("部分财务、时间或 Outcome 尚未完整核验。"));
    }
    Ok(())
}

/// `freeze_decision_snapshot`: a material or strategic decision without a
/// snapshot takes its project's evidence summary (as indented JSON text), when
/// it was taken and its coverage; other decisions stay as they are.
pub fn freeze_decision_snapshot(rows: &Vec<(String, JsonValue)>, data: &mut JsonValue, captured_at: &str) -> (r:
    Result<(), String>)
    requires
        snapshot_project_of(old(data)@) matches Ok(Some(p)) ==> summary_fits(rows_view(rows@), Some(p)),
    ensures
        crate::json::json_wf(*old(data)) ==> crate::json::json_wf(*final(data)),
        snapshot_project_of(old(data)@) matches Ok(None) ==> r is Ok && final(data)@ == old(data)@,
        snapshot_project_of(old(data)@) matches Err(e) ==> (r matches Err(x) && x@ == e),
        snapshot_project_of(old(data)@) matches Ok(Some(p)) ==> match summary_of(rows_view(rows@), Some(p)) {
            Err(e) => r matches Err(x) && x@ == e,
            Ok(ev) => exists|v: JsonValue|
                v@ == ev && match r {
                    Ok(()) => with_snapshot(
                        old(data)@,
                        ev,
                        crate::json::pretty_text(v, Seq::empty()),
                        captured_at@,
                    ) == Ok::<Json, Seq<char>>(final(data)@),
                    Err(x) => with_snapshot(
                        old(data)@,
                        ev,
                        crate::json::pretty_text(v, Seq::empty()),
                        captured_at@,
                    ) == Err::<Json, Seq<char>>(x@),
                },
        },
{
    match decision_snapshot_project(data) {
        Err(e) => Err(e),
        Ok(None) => Ok(()),
        Ok(Some(p)) => {
            let evidence = match summary(rows, Some(p.as_str())) {
                Ok(v) => v,
                Err(e) => return Err(e),
            };
            let text = crate::json::to_pretty_text(&evidence);
            let r = apply_decision_snapshot(data, &evidence, text.as_str(), captured_at);
            proof {
                assert(evidence@ == evidence@);
            }
            r
        },
    }
}

} // verus!
