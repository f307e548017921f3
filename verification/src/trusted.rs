//! The trusted boundary: every call into the outside world, with the named
//! results the rest of the crate reasons over.
//!
//! A binary64 number is carried through the crate as its decimal text; each
//! wrapper below parses such texts back into floats, works on the floats,
//! and prints the result again. Parsing a non-numeric text falls back to
//! zero, so every name below is a total function of its text arguments.

use vstd::prelude::*;
use crate::value::{Value, ValueV, wf_val};
use rustc_serialize::json::Json;

verus! {

#[verifier::external_type_specification]
#[verifier::external_body]
pub struct ExJson(Json);

/// Whether two binary64 numbers, given as decimal texts, are equal under
/// IEEE 754 equality.
pub uninterp spec fn feq(a: Seq<char>, b: Seq<char>) -> bool;

/// Whether the first binary64 number, given as decimal text, is strictly
/// below the second under IEEE 754 ordering.
pub uninterp spec fn flt(a: Seq<char>, b: Seq<char>) -> bool;

/// The decimal text of the IEEE 754 sum of two binary64 numbers.
pub uninterp spec fn fadd(a: Seq<char>, b: Seq<char>) -> Seq<char>;

/// The decimal text of the IEEE 754 quotient of two binary64 numbers.
pub uninterp spec fn fdiv(a: Seq<char>, b: Seq<char>) -> Seq<char>;

/// The decimal text of the smallest integral binary64 not below the given one.
pub uninterp spec fn fceil(a: Seq<char>) -> Seq<char>;

/// The decimal text of the largest integral binary64 not above the given one.
pub uninterp spec fn ffloor(a: Seq<char>) -> Seq<char>;

/// The decimal text of the absolute value of the given binary64.
pub uninterp spec fn fabs(a: Seq<char>) -> Seq<char>;

/// The decimal text of the binary64 nearest to the given integer.
pub uninterp spec fn ftext_of_i64(n: i64) -> Seq<char>;

/// The decimal text of the binary64 nearest to the given integer.
pub uninterp spec fn ftext_of_u64(n: u64) -> Seq<char>;

/// What the outside JSON parser decodes the given text to: a well-formed
/// value of this crate's model, or the printed parse error.
pub uninterp spec fn json_decoded(s: Seq<char>) -> Result<ValueV, Seq<char>>;

/// The JSON text the outside encoder prints for a value of this crate.
pub uninterp spec fn json_text_of(v: ValueV) -> Seq<char>;

/// Parses a decimal float text, falling back to zero off the float grammar.
#[verifier::external_body]
fn parse_f64_json(s: &str) -> Json {
    Json::F64(s.parse().unwrap_or_default())
}

/// Relies on f64's `PartialEq`: IEEE 754 equality of the two parsed texts.
#[verifier::external_body]
pub fn f64_eq(a: &str, b: &str) -> (r: bool)
    ensures
        r == feq(a@, b@),
{
    match (parse_f64_json(a), parse_f64_json(b)) {
        (Json::F64(x), Json::F64(y)) => x == y,
        _ => false,
    }
}

/// Relies on f64's `PartialOrd`: IEEE 754 strict order of the parsed texts.
#[verifier::external_body]
pub fn f64_lt(a: &str, b: &str) -> (r: bool)
    ensures
        r == flt(a@, b@),
{
    match (parse_f64_json(a), parse_f64_json(b)) {
        (Json::F64(x), Json::F64(y)) => x < y,
        _ => false,
    }
}

/// Relies on f64 addition; the result is printed by Rust's float formatter,
/// whose text parses back to the same float.
#[verifier::external_body]
pub fn f64_add(a: &str, b: &str) -> (r: String)
    ensures
        r@ == fadd(a@, b@),
{
    match (parse_f64_json(a), parse_f64_json(b)) {
        (Json::F64(x), Json::F64(y)) => format!("{}", x + y),
        _ => String::new(),
    }
}

/// Relies on f64 division; the result is printed by Rust's float formatter.
#[verifier::external_body]
pub fn f64_div(a: &str, b: &str) -> (r: String)
    ensures
        r@ == fdiv(a@, b@),
{
    match (parse_f64_json(a), parse_f64_json(b)) {
        (Json::F64(x), Json::F64(y)) => format!("{}", x / y),
        _ => String::new(),
    }
}

/// Relies on f64::ceil; the result is printed by Rust's float formatter.
#[verifier::external_body]
pub fn f64_ceil(a: &str) -> (r: String)
    ensures
        r@ == fceil(a@),
{
    match parse_f64_json(a) {
        Json::F64(x) => format!("{}", x.ceil()),
        _ => String::new(),
    }
}

/// Relies on f64::floor; the result is printed by Rust's float formatter.
#[verifier::external_body]
pub fn f64_floor(a: &str) -> (r: String)
    ensures
        r@ == ffloor(a@),
{
    match parse_f64_json(a) {
        Json::F64(x) => format!("{}", x.floor()),
        _ => String::new(),
    }
}

/// Relies on f64::abs; the result is printed by Rust's float formatter.
#[verifier::external_body]
pub fn f64_abs(a: &str) -> (r: String)
    ensures
        r@ == fabs(a@),
{
    match parse_f64_json(a) {
        Json::F64(x) => format!("{}", x.abs()),
        _ => String::new(),
    }
}

/// Relies on str::parse into f64: the nearest binary64 to the integer,
/// printed by Rust's float formatter.
#[verifier::external_body]
pub fn f64_text_of_i64(n: i64) -> (r: String)
    ensures
        r@ == ftext_of_i64(n),
{
    match parse_f64_json(&format!("{}", n)) {
        Json::F64(x) => format!("{}", x),
        _ => String::new(),
    }
}

/// Relies on str::parse into f64: the nearest binary64 to the integer,
/// printed by Rust's float formatter.
#[verifier::external_body]
pub fn f64_text_of_u64(n: u64) -> (r: String)
    ensures
        r@ == ftext_of_u64(n),
{
    match parse_f64_json(&format!("{}", n)) {
        Json::F64(x) => format!("{}", x),
        _ => String::new(),
    }
}

/// Converts a decoded JSON tree into this crate's value model, variant by
/// variant; floats become their decimal text, object entries keep the
/// sorted order the decoder's map iterates in.
#[verifier::external_body]
fn json_to_value(j: Json) -> Value {
    match j {
        Json::Null => Value::Null,
        Json::Boolean(b) => Value::Bool(b),
        Json::I64(n) => Value::I64(n),
        Json::U64(n) => Value::U64(n),
        Json::F64(x) => Value::F64(format!("{}", x)),
        Json::String(s) => Value::Str(s),
        Json::Array(a) => Value::Array(a.into_iter().map(json_to_value).collect()),
        Json::Object(m) => Value::Object(m.into_iter().map(|(k, v)| (k, json_to_value(v))).collect()),
    }
}

/// An ASCII decimal digit.
pub open spec fn ascii_digit(c: char) -> bool {
    48 <= c as u32 <= 57
}

/// The end of the digit run starting at `i`.
pub open spec fn digit_run_end(s: Seq<char>, i: int) -> int
    decreases s.len() - i,
{
    if 0 <= i < s.len() && ascii_digit(s[i]) {
        digit_run_end(s, i + 1)
    } else {
        i
    }
}

/// Where the digits of an exponent written at `i` start: right after the
/// marker, letting one sign character through.
pub open spec fn exp_digits_start(s: Seq<char>, i: int) -> int {
    if i + 1 < s.len() && (s[i + 1] == '+' || s[i + 1] == '-') {
        i + 2
    } else {
        i + 1
    }
}

/// Every exponent marker in the text is followed by at most eighteen
/// digits. The outside number parser folds the exponent digits with
/// unchecked machine arithmetic, so texts beyond this bound must not reach
/// it; eighteen digits keep the fold far below the machine's range while
/// admitting every exponent a binary64 can carry.
pub open spec fn short_exponents(s: Seq<char>) -> bool {
    forall|i: int|
        0 <= i < s.len() && ((#[trigger] s[i]) == 'e' || s[i] == 'E') ==> digit_run_end(
            s,
            exp_digits_start(s, i),
        ) - exp_digits_start(s, i) <= 18
}

/// A digit run never ends before its start.
proof fn lemma_digit_run_ge(s: Seq<char>, a: int)
    ensures
        digit_run_end(s, a) >= a,
    decreases s.len() - a,
{
    if 0 <= a < s.len() && ascii_digit(s[a]) {
        lemma_digit_run_ge(s, a + 1);
    }
}

/// A run of digits from `a` through `b` puts the run's end at `b` or later.
proof fn lemma_digit_run_lb(s: Seq<char>, a: int, b: int)
    requires
        0 <= a <= b <= s.len(),
        forall|q: int| a <= q < b ==> ascii_digit(#[trigger] s[q]),
    ensures
        digit_run_end(s, a) >= b,
    decreases b - a,
{
    if a < b {
        lemma_digit_run_lb(s, a + 1, b);
    } else {
        lemma_digit_run_ge(s, a);
    }
}

/// A run of digits from `a` that stops at `j` ends exactly there.
proof fn lemma_digit_run_exact(s: Seq<char>, a: int, j: int)
    requires
        0 <= a <= j <= s.len(),
        forall|q: int| a <= q < j ==> ascii_digit(#[trigger] s[q]),
        j == s.len() || !ascii_digit(s[j]),
    ensures
        digit_run_end(s, a) == j,
    decreases j - a,
{
    if a < j {
        lemma_digit_run_exact(s, a + 1, j);
    }
}

/// Whether the character at `j` is an ASCII digit.
fn digit_at(cs: &Vec<char>, j: usize) -> (r: bool)
    requires
        j < cs@.len(),
    ensures
        r == ascii_digit(cs@[j as int]),
{
    let u = cs[j] as u32;
    48 <= u && u <= 57
}

/// Decides whether every exponent marker of the text is short enough for
/// the outside number parser.
pub fn exponents_ok(s: &str) -> (r: bool)
    ensures
        r == short_exponents(s@),
{
    let cs = str_chars(s);
    let n = cs.len();
    let mut i: usize = 0;
    while i < n
        invariant
            cs@ == s@,
            n == cs@.len(),
            0 <= i <= n,
            forall|k: int|
                0 <= k < i && ((#[trigger] s@[k]) == 'e' || s@[k] == 'E') ==> digit_run_end(
                    s@,
                    exp_digits_start(s@, k),
                ) - exp_digits_start(s@, k) <= 18,
        decreases n - i,
    {
        let c = cs[i];
        if c == 'e' || c == 'E' {
            let st: usize = if i + 1 < n {
                let nxt = cs[i + 1];
                if nxt == '+' || nxt == '-' {
                    i + 2
                } else {
                    i + 1
                }
            } else {
                i + 1
            };
            proof {
                assert(st as int == exp_digits_start(s@, i as int));
            }
            let mut j = st;
            let mut cnt: usize = 0;
            while j < n && cnt < 19 && digit_at(&cs, j)
                invariant
                    cs@ == s@,
                    n == cs@.len(),
                    st <= j <= n,
                    cnt == j - st,
                    cnt <= 19,
                    forall|q: int| st <= q < j ==> ascii_digit(#[trigger] s@[q]),
                decreases n - j,
            {
                j += 1;
                cnt += 1;
            }
            if cnt >= 19 {
                proof {
                    lemma_digit_run_lb(s@, st as int, j as int);
                    assert(!short_exponents(s@));
                }
                return false;
            }
            proof {
                lemma_digit_run_exact(s@, st as int, j as int);
            }
        }
        i += 1;
    }
    true
}

/// What decoding yields behind the exponent screen: the decoder's own
/// result for a document that begins with a double quote (the string
/// parser reads no numbers) or whose exponents are all short, and a decode
/// error naming the screen otherwise. The screen is conservative: it also
/// turns away documents whose long exponent digits sit harmlessly inside a
/// nested string.
pub open spec fn screened_decode(s: Seq<char>) -> Result<ValueV, Seq<char>> {
    if (s.len() >= 1 && s[0] == '"') || short_exponents(s) {
        json_decoded(s)
    } else {
        Err("exponent too long"@)
    }
}

/// Decodes a JSON text after screening its exponents, so the outside
/// parser's exponent arithmetic cannot overflow.
pub fn json_decode_checked(s: &str) -> (r: Result<Value, String>)
    ensures
        (match (r, screened_decode(s@)) {
            (Ok(v), Ok(m)) => v@ == m && wf_val(v@),
            (Err(e), Err(m)) => e@ == m,
            _ => false,
        }),
        (r matches Ok(v) && s@.len() >= 1 && s@[0] == '"') ==> (r matches Ok(v) && v@ matches ValueV::Str(_)),
{
    let cs = str_chars(s);
    let quoted = cs.len() >= 1 && cs[0] == '"';
    if quoted || exponents_ok(s) {
        json_decode(s)
    } else {
        Err("exponent too long".to_owned())
    }
}

/// Relies on rustc_serialize's `Json::from_str`: the decoded value (or the
/// printed parse error) depends on the text alone; the decoder's object map
/// iterates in strictly sorted key order, so the result is well-formed; and
/// a JSON document that begins with a double quote, when it parses at all,
/// is a string. The parser folds exponent digits with unchecked machine
/// arithmetic, so the text must either begin with a double quote — the
/// string parser reads no numbers, and trailing text fails before any
/// number is read — or keep its exponents short.
#[verifier::external_body]
pub fn json_decode(s: &str) -> (r: Result<Value, String>)
    requires
        (s@.len() >= 1 && s@[0] == '"') || short_exponents(s@),
    ensures
        (match (r, json_decoded(s@)) {
            (Ok(v), Ok(m)) => v@ == m && wf_val(v@),
            (Err(e), Err(m)) => e@ == m,
            _ => false,
        }),
        (r matches Ok(v) && s@.len() >= 1 && s@[0] == '"') ==> (r matches Ok(v) && v@ matches ValueV::Str(_)),
{
    match Json::from_str(s) {
        Ok(j) => Ok(json_to_value(j)),
        Err(e) => Err(format!("{}", e)),
    }
}

/// Converts a value of this crate back into the outside JSON tree, variant
/// by variant; float texts are parsed back, an expref (which no caller
/// serializes) maps to null.
#[verifier::external_body]
fn value_to_json(v: &Value) -> Json {
    match v {
        Value::Null => Json::Null,
        Value::Bool(b) => Json::Boolean(*b),
        Value::I64(n) => Json::I64(*n),
        Value::U64(n) => Json::U64(*n),
        Value::F64(t) => parse_f64_json(t),
        Value::Str(s) => Json::String(s.clone()),
        Value::Array(a) => Json::Array(a.iter().map(value_to_json).collect()),
        Value::Object(m) => Json::Object(m.iter().map(|p| (p.0.clone(), value_to_json(&p.1))).collect()),
        Value::Expref(_) => Json::Null,
    }
}

/// Relies on rustc_serialize's JSON encoder (`Json`'s `Display`): the
/// printed text depends on the value alone.
#[verifier::external_body]
pub fn json_encode(v: &Value) -> (r: String)
    ensures
        r@ == json_text_of(v@),
{
    format!("{}", value_to_json(v))
}

/// Relies on str::chars: the characters of a text, in order.
#[verifier::external_body]
pub fn str_chars(s: &str) -> (r: Vec<char>)
    ensures
        r@ == s@,
{
    s.chars().collect()
}

/// Relies on String's FromIterator over chars: the text made of exactly
/// these characters, in order.
#[verifier::external_body]
pub fn chars_to_string(cs: &Vec<char>) -> (r: String)
    ensures
        r@ == cs@,
{
    cs.iter().collect()
}

} // verus!
