//! The structured-value type for legacy JSON blobs, the trusted boundary to
//! the `serde_json` parser and printer, and a verified parser for decimal
//! user-id keys.
//!
//! Legacy data is untrusted and heterogeneous: every accessor here returns a
//! default or an absent value instead of failing on a missing or mistyped
//! field.

use vstd::prelude::*;
use vstd::string::is_ascii;

verus! {

broadcast use vstd::string::is_ascii_spec_bytes;

/// A parsed JSON value. A number with a 64-bit integer value arrives as
/// `Int`; any other number (fractional or out of range) is carried verbatim
/// as its printed token in `Num`, so re-serializing loses nothing, while
/// integer field reads fall back to the same defaults as a missing field.
pub enum JsonVal {
    Null,
    Bool(bool),
    Int(i64),
    Num(String),
    Text(String),
    Arr(Vec<JsonVal>),
    Obj(Vec<(String, JsonVal)>),
}

/// What `parse_json` returns for a given text: parsing is a function of the
/// characters alone.
pub uninterp spec fn spec_json_parse(s: Seq<char>) -> Option<JsonVal>;

/// What `json_to_string` returns for a given value: printing is a function
/// of the value alone.
pub uninterp spec fn spec_json_text(v: JsonVal) -> Seq<char>;

/// Declares `serde_json::Value` so that the conversion helpers below may
/// name it; the type stays opaque.
#[verifier::external_type_specification]
#[verifier::external_body]
pub struct ExJsonValue(serde_json::Value);

/// Conversion half of `parse_json`: rebuilds a `serde_json::Value` tree as
/// the library's own value type, relying on the `serde_json::Value` variant
/// accessors. Object members arrive already key-sorted and deduplicated by
/// `serde_json`'s map; a number without a 64-bit integer value keeps its
/// printed token (`serde_json::Number`'s rendering is a pure function of
/// the number).
#[verifier::external_body]
fn decode_json_value(v: &serde_json::Value) -> JsonVal {
    match v {
        serde_json::Value::Null => JsonVal::Null,
        serde_json::Value::Bool(b) => JsonVal::Bool(*b),
        serde_json::Value::Number(n) => match n.as_i64() {
            Some(i) => JsonVal::Int(i),
            None => JsonVal::Num(n.to_string()),
        },
        serde_json::Value::String(s) => JsonVal::Text(s.clone()),
        serde_json::Value::Array(a) => JsonVal::Arr(a.iter().map(|x| decode_json_value(x)).collect()),
        serde_json::Value::Object(m) => JsonVal::Obj(
            m.iter().map(|(k, x)| (k.clone(), decode_json_value(x))).collect(),
        ),
    }
}

/// Encoding half of `json_to_string`: the inverse conversion. A carried
/// number token reads back through `serde_json::Number`'s parser; a token
/// that is no number (impossible for a decoded tree) encodes as null.
#[verifier::external_body]
fn encode_json_value(v: &JsonVal) -> serde_json::Value {
    match v {
        JsonVal::Null => serde_json::Value::Null,
        JsonVal::Bool(b) => serde_json::Value::Bool(*b),
        JsonVal::Int(i) => serde_json::Value::from(*i),
        JsonVal::Num(s) => match s.parse::<serde_json::Number>() {
            Ok(n) => serde_json::Value::Number(n),
            Err(_) => serde_json::Value::Null,
        },
        JsonVal::Text(s) => serde_json::Value::String(s.clone()),
        JsonVal::Arr(a) => serde_json::Value::Array(a.iter().map(|x| encode_json_value(x)).collect()),
        JsonVal::Obj(m) => serde_json::Value::Object(
            m.iter().map(|p| (p.0.clone(), encode_json_value(&p.1))).collect(),
        ),
    }
}

/// Relies on `serde_json::from_str::<serde_json::Value>`: parses JSON text,
/// deterministically, returning `None` on malformed input. Its result is a
/// function of the text alone (objects are held in a key-ordered map).
#[verifier::external_body]
pub fn parse_json(s: &str) -> (r: Option<JsonVal>)
    ensures
        r == spec_json_parse(s@),
{
    match serde_json::from_str::<serde_json::Value>(s) {
        Ok(v) => Some(decode_json_value(&v)),
        Err(_) => None,
    }
}

/// Relies on `serde_json::to_string` on a `serde_json::Value`, which is
/// deterministic and cannot fail on a value tree.
#[verifier::external_body]
pub fn json_to_string(v: &JsonVal) -> (r: String)
    ensures
        r@ == spec_json_text(*v),
{
    match serde_json::to_string(&encode_json_value(v)) {
        Ok(s) => s,
        Err(_) => String::new(),
    }
}

// ── Verified field access ───────────────────────────────────────────────

/// First member of an object pair list with the given key.
pub open spec fn pairs_lookup(pairs: Seq<(String, JsonVal)>, key: Seq<char>) -> Option<JsonVal>
    decreases pairs.len(),
{
    if pairs.len() == 0 {
        None
    } else if pairs[0].0@ == key {
        Some(pairs[0].1)
    } else {
        pairs_lookup(pairs.drop_first(), key)
    }
}

/// The member of an object under a key; `None` on any other value shape.
pub open spec fn obj_lookup(v: JsonVal, key: Seq<char>) -> Option<JsonVal> {
    match v {
        JsonVal::Obj(pairs) => pairs_lookup(pairs@, key),
        _ => None,
    }
}

/// Borrow the member of an object under a key, if any.
pub fn get_field<'a>(v: &'a JsonVal, key: &str) -> (r: Option<&'a JsonVal>)
    ensures
        match r {
            Some(x) => obj_lookup(*v, key@) == Some(*x),
            None => obj_lookup(*v, key@) is None,
        },
{
    match v {
        JsonVal::Obj(pairs) => {
            let needle = key.to_owned();
            let mut i: usize = 0;
            proof {
                assert(pairs@.skip(0) =~= pairs@);
            }
            while i < pairs.len()
                invariant
                    needle@ == key@,
                    i <= pairs@.len(),
                    obj_lookup(*v, key@) == pairs_lookup(pairs@, key@),
                    pairs_lookup(pairs@, key@) == pairs_lookup(pairs@.skip(i as int), key@),
                    forall|j: int| 0 <= j < i ==> pairs@[j].0@ != key@,
                decreases pairs@.len() - i,
            {
                if pairs[i].0 == needle {
                    proof {
                        assert(pairs@.skip(i as int)[0] == pairs@[i as int]);
                        assert(pairs@.skip(i as int).len() > 0);
                        assert(pairs_lookup(pairs@.skip(i as int), key@) == Some(
                            pairs@[i as int].1,
                        ));
                    }
                    return Some(&pairs[i].1);
                }
                proof {
                    assert(pairs@.skip(i as int).drop_first() =~= pairs@.skip(i + 1));
                }
                i = i + 1;
            }
            proof {
                assert(pairs@.skip(pairs@.len() as int).len() == 0);
            }
            None
        },
        _ => None,
    }
}

/// An integer field, defaulting to 0 when missing or of the wrong type.
pub open spec fn spec_field_i64(v: JsonVal, key: Seq<char>) -> i64 {
    match obj_lookup(v, key) {
        Some(JsonVal::Int(i)) => i,
        _ => 0,
    }
}

pub fn field_i64(v: &JsonVal, key: &str) -> (r: i64)
    ensures
        r == spec_field_i64(*v, key@),
{
    match get_field(v, key) {
        Some(x) => match x {
            JsonVal::Int(i) => *i,
            _ => 0,
        },
        None => 0,
    }
}

/// An optional integer field: absent when missing or of the wrong type.
pub open spec fn spec_field_opt_i64(v: JsonVal, key: Seq<char>) -> Option<i64> {
    match obj_lookup(v, key) {
        Some(JsonVal::Int(i)) => Some(i),
        _ => None,
    }
}

pub fn field_opt_i64(v: &JsonVal, key: &str) -> (r: Option<i64>)
    ensures
        r == spec_field_opt_i64(*v, key@),
{
    match get_field(v, key) {
        Some(x) => match x {
            JsonVal::Int(i) => Some(*i),
            _ => None,
        },
        None => None,
    }
}

/// An optional string field: absent when missing or of the wrong type.
pub open spec fn spec_field_opt_str(v: JsonVal, key: Seq<char>) -> Option<String> {
    match obj_lookup(v, key) {
        Some(JsonVal::Text(s)) => Some(s),
        _ => None,
    }
}

pub fn field_opt_string(v: &JsonVal, key: &str) -> (r: Option<String>)
    ensures
        r == spec_field_opt_str(*v, key@),
{
    match get_field(v, key) {
        Some(x) => match x {
            JsonVal::Text(s) => Some(s.clone()),
            _ => None,
        },
        None => None,
    }
}

// ── Verified decimal parsing of user-id keys ────────────────────────────

pub open spec fn is_decimal_digit(c: char) -> bool {
    '0' <= c <= '9'
}

pub open spec fn digit_val(c: char) -> int {
    c as int - '0' as int
}

pub open spec fn all_digits(s: Seq<char>) -> bool {
    forall|i: int| 0 <= i < s.len() ==> is_decimal_digit(#[trigger] s[i])
}

/// The value of a digit string, most significant digit first.
pub open spec fn digits_val(s: Seq<char>) -> int
    decreases s.len(),
{
    if s.len() == 0 {
        0
    } else {
        digits_val(s.drop_last()) * 10 + digit_val(s.last())
    }
}

/// The digit part of a number with an optional leading sign.
pub open spec fn parse_digits_part(s: Seq<char>) -> Seq<char> {
    if s.len() > 0 && (s[0] == '-' || s[0] == '+') {
        s.drop_first()
    } else {
        s
    }
}

pub open spec fn parse_sign_negative(s: Seq<char>) -> bool {
    s.len() > 0 && s[0] == '-'
}

/// The signed 64-bit value a decimal string denotes: an optional sign, then
/// one or more digits, with the value in range; anything else is `None`.
pub open spec fn spec_parse_i64(s: Seq<char>) -> Option<i64> {
    let digits = parse_digits_part(s);
    if digits.len() == 0 || !all_digits(digits) {
        None
    } else if parse_sign_negative(s) {
        if digits_val(digits) <= 0x8000_0000_0000_0000 {
            Some((-digits_val(digits)) as i64)
        } else {
            None
        }
    } else {
        if digits_val(digits) <= 0x7fff_ffff_ffff_ffff {
            Some(digits_val(digits) as i64)
        } else {
            None
        }
    }
}

proof fn lemma_digits_val_nonneg(s: Seq<char>)
    requires
        all_digits(s),
    ensures
        digits_val(s) >= 0,
    decreases s.len(),
{
    if s.len() > 0 {
        assert(all_digits(s.drop_last()));
        lemma_digits_val_nonneg(s.drop_last());
    }
}

/// A digit string is worth at least any of its prefixes.
proof fn lemma_digits_val_prefix(s: Seq<char>, i: int)
    requires
        all_digits(s),
        0 <= i <= s.len(),
    ensures
        digits_val(s.take(i)) <= digits_val(s),
    decreases s.len() - i,
{
    if i == s.len() {
        assert(s.take(i) =~= s);
    } else {
        assert(s.take(i + 1).drop_last() =~= s.take(i));
        assert(all_digits(s.take(i)));
        lemma_digits_val_nonneg(s.take(i));
        lemma_digits_val_prefix(s, i + 1);
    }
}

/// Parse a decimal string exactly as the specification describes.
pub fn parse_i64(s: &str) -> (r: Option<i64>)
    ensures
        r == spec_parse_i64(s@),
{
    if !s.is_ascii() {
        proof {
            let bad = choose|i: int| 0 <= i < s@.len() && !('\0' <= #[trigger] s@[i] <= '\u{7f}');
            let digits = parse_digits_part(s@);
            if s@.len() > 0 && (s@[0] == '-' || s@[0] == '+') {
                assert(digits[bad - 1] == s@[bad]);
                assert(!all_digits(digits));
            } else {
                assert(digits[bad] == s@[bad]);
                assert(!all_digits(digits));
            }
        }
        return None;
    }
    let bytes = s.as_bytes();
    let n = bytes.len();
    proof {
        assert(bytes@.len() == s@.len());
        assert(forall|i: int| 0 <= i < s@.len() ==> bytes@[i] == #[trigger] s@[i] as u8);
    }
    let mut idx: usize = 0;
    let mut neg = false;
    if n > 0 && (bytes[0] == 45 || bytes[0] == 43) {
        neg = bytes[0] == 45;
        idx = 1;
    }
    proof {
        assert(neg == parse_sign_negative(s@));
        assert(s@.skip(idx as int) =~= parse_digits_part(s@));
    }
    if idx >= n {
        return None;
    }
    let ghost digits = parse_digits_part(s@);
    let mut acc: u64 = 0;
    let mut k: usize = idx;
    while k < n
        invariant
            is_ascii(s),
            bytes@.len() == s@.len(),
            forall|i: int| 0 <= i < s@.len() ==> bytes@[i] == #[trigger] s@[i] as u8,
            n == s@.len(),
            digits =~= s@.skip(idx as int),
            digits == parse_digits_part(s@),
            neg == parse_sign_negative(s@),
            idx <= 1,
            idx <= k <= n,
            idx < n,
            forall|j: int| 0 <= j < k - idx ==> is_decimal_digit(#[trigger] digits[j]),
            acc == digits_val(digits.take(k - idx)),
        decreases n - k,
    {
        let b = bytes[k];
        if b < 48 || b > 57 {
            proof {
                assert(digits[k - idx] == s@[k as int]);
                assert(!is_decimal_digit(digits[k - idx]));
                assert(!all_digits(digits));
            }
            return None;
        }
        let d = (b - 48) as u64;
        proof {
            assert(digits[k - idx] == s@[k as int]);
            assert(is_decimal_digit(digits[k - idx]));
            assert(digits.take(k - idx + 1).drop_last() =~= digits.take(k - idx));
            assert(digit_val(digits[k - idx]) == d);
        }
        let m = acc.checked_mul(10);
        if m.is_none() {
            proof {
                lemma_overflow_means_out_of_range(digits, k - idx, acc as int, d as int, s@);
            }
            return None;
        }
        let a2 = m.unwrap().checked_add(d);
        if a2.is_none() {
            proof {
                lemma_overflow_means_out_of_range(digits, k - idx, acc as int, d as int, s@);
            }
            return None;
        }
        acc = a2.unwrap();
        k = k + 1;
    }
    proof {
        assert(digits.take(n - idx) =~= digits);
        assert(all_digits(digits));
        assert(digits.len() > 0);
    }
    if neg {
        if acc == 9223372036854775808u64 {
            Some(i64::MIN)
        } else if acc < 9223372036854775808u64 {
            Some(-(acc as i64))
        } else {
            None
        }
    } else {
        if acc <= 9223372036854775807u64 {
            Some(acc as i64)
        } else {
            None
        }
    }
}

/// When the running accumulator leaves `u64`, the full digit string's value
/// is far outside the signed 64-bit range, so parsing yields `None`.
proof fn lemma_overflow_means_out_of_range(
    digits: Seq<char>,
    pos: int,
    acc: int,
    d: int,
    s: Seq<char>,
)
    requires
        digits == parse_digits_part(s),
        0 <= pos < digits.len(),
        forall|j: int| 0 <= j < pos ==> is_decimal_digit(#[trigger] digits[j]),
        is_decimal_digit(digits[pos]),
        acc == digits_val(digits.take(pos)),
        digit_val(digits[pos]) == d,
        acc * 10 + d > 0xffff_ffff_ffff_ffff,
    ensures
        spec_parse_i64(s) is None,
{
    if all_digits(digits) {
        assert(digits.take(pos + 1).drop_last() =~= digits.take(pos));
        assert(digits_val(digits.take(pos + 1)) == acc * 10 + d);
        lemma_digits_val_prefix(digits, pos + 1);
        assert(digits_val(digits) > 0xffff_ffff_ffff_ffff);
    }
}

} // verus!
