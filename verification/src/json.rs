//! JSON documents: one strict decoder that refuses duplicate object keys at
//! every depth before anything else looks at the document, and the
//! mathematical model of a decoded document.

use vstd::prelude::*;
use crate::text::{chars_of, string_from_chars, owned};

verus! {

/// Mathematical form of one JSON value. Numbers keep their exact text;
/// objects keep their members in document order.
pub enum Json {
    Null,
    Bool(bool),
    Number(Seq<char>),
    Str(Seq<char>),
    Array(Seq<Json>),
    Object(Seq<Seq<char>>, Seq<Json>),
}

/// One decoded JSON value.
#[derive(Debug, PartialEq, Eq)]
pub enum JsonValue {
    Null,
    Bool(bool),
    Number(String),
    String(String),
    Array(Vec<JsonValue>),
    Object(Vec<JsonMember>),
}

/// One object member: a key and its value.
#[derive(Debug, PartialEq, Eq)]
pub struct JsonMember {
    pub key: String,
    pub value: JsonValue,
}

impl View for JsonValue {
    type V = Json;

    open spec fn view(&self) -> Json
        decreases self,
    {
        match self {
            JsonValue::Null => Json::Null,
            JsonValue::Bool(b) => Json::Bool(*b),
            JsonValue::Number(n) => Json::Number(n@),
            JsonValue::String(s) => Json::Str(s@),
            JsonValue::Array(items) => Json::Array(
                Seq::new(items.len() as nat, |i: int| if 0 <= i < items.len() { items@[i].view() } else { Json::Null }),
            ),
            JsonValue::Object(members) => Json::Object(
                Seq::new(members.len() as nat, |i: int| if 0 <= i < members.len() { members@[i].key@ } else { Seq::empty() }),
                Seq::new(members.len() as nat, |i: int| if 0 <= i < members.len() { members@[i].value.view() } else { Json::Null }),
            ),
        }
    }
}

pub proof fn lemma_array_view(items: Vec<JsonValue>)
    ensures
        JsonValue::Array(items)@ == Json::Array(item_views(items@)),
{
    let v = JsonValue::Array(items);
    let a = v.view()->Array_0;
    assert(v.view() is Array);
    assert(a =~= item_views(items@));
}

pub proof fn lemma_object_view(members: Vec<JsonMember>)
    ensures
        JsonValue::Object(members)@ == Json::Object(key_views(members@), value_views(members@)),
{
    let v = JsonValue::Object(members);
    assert(v.view() is Object);
    let ks = v.view()->Object_0;
    let vs = v.view()->Object_1;
    assert(ks =~= key_views(members@));
    assert(vs =~= value_views(members@));
}

pub open spec fn item_views(items: Seq<JsonValue>) -> Seq<Json> {
    Seq::new(items.len() as nat, |i: int| if 0 <= i < items.len() { items[i].view() } else { Json::Null })
}

pub open spec fn key_views(members: Seq<JsonMember>) -> Seq<Seq<char>> {
    Seq::new(members.len() as nat, |i: int| if 0 <= i < members.len() { members[i].key@ } else { Seq::empty() })
}

pub open spec fn value_views(members: Seq<JsonMember>) -> Seq<Json> {
    Seq::new(members.len() as nat, |i: int| if 0 <= i < members.len() { members[i].value.view() } else { Json::Null })
}

/// Why the strict grammar refuses a document.
pub enum JsonFailure {
    /// An object repeats this key; this is found before anything later in
    /// the document is read.
    Duplicate(Seq<char>),
    /// Anything else: malformed syntax, an unpaired surrogate escape, a
    /// control character in a string, nesting deeper than allowed, or
    /// trailing characters.
    Syntax,
}

/// Nesting that the decoder allows: 127 open arrays or objects.
pub const MAX_DEPTH: u8 = 128;

pub open spec fn is_json_ws(c: char) -> bool {
    c == ' ' || c == '\t' || c == '\n' || c == '\r'
}

pub open spec fn is_digit(c: char) -> bool {
    '0' <= c && c <= '9'
}

/// The first position at or after `i` that is not JSON whitespace.
pub open spec fn skip_ws(s: Seq<char>, i: int) -> int
    decreases s.len() - i,
{
    if 0 <= i < s.len() && is_json_ws(s[i]) {
        skip_ws(s, i + 1)
    } else {
        i
    }
}

pub proof fn lemma_skip_ws(s: Seq<char>, i: int)
    ensures
        skip_ws(s, i) >= i,
        i >= 0 ==> (skip_ws(s, i) >= s.len() || !is_json_ws(s[skip_ws(s, i)])),
        forall|k: int| i <= k < skip_ws(s, i) ==> is_json_ws(s[k]),
    decreases s.len() - i,
{
    if 0 <= i < s.len() && is_json_ws(s[i]) {
        lemma_skip_ws(s, i + 1);
    }
}

/// JSON whitespace is exactly space, tab, line feed and carriage return
/// (RFC 8259): skipping whitespace from a position passes over only those
/// four characters, and stops at the end of the text or at a character
/// that is none of them.
pub proof fn lemma_whitespace_is_exactly_rfc8259(s: Seq<char>, i: int)
    requires
        0 <= i <= s.len(),
    ensures
        i <= skip_ws(s, i) <= s.len(),
        forall|k: int|
            i <= k < skip_ws(s, i) ==> (#[trigger] s[k] == ' ' || s[k] == '\t' || s[k] == '\n' || s[k] == '\r'),
        skip_ws(s, i) < s.len() ==> {
            let c = s[skip_ws(s, i)];
            c != ' ' && c != '\t' && c != '\n' && c != '\r'
        },
    decreases s.len() - i,
{
    if i < s.len() && is_json_ws(s[i]) {
        lemma_whitespace_is_exactly_rfc8259(s, i + 1);
    }
}

/// Whitespace before a value changes nothing: reading a value from `i`,
/// where every character from `i` up to `j` is a space, tab, line feed or
/// carriage return, reads the same value, ending at the same position, or
/// fails in the same way, as reading it from `j`.
pub proof fn lemma_whitespace_before_value_skipped(s: Seq<char>, i: int, j: int, depth: nat)
    requires
        0 <= i <= j <= s.len(),
        forall|k: int| i <= k < j ==> (#[trigger] s[k] == ' ' || s[k] == '\t' || s[k] == '\n' || s[k] == '\r'),
    ensures
        value_at(s, i, depth) == value_at(s, j, depth),
{
    lemma_skip_ws_passes(s, i, j);
}

proof fn lemma_skip_ws_passes(s: Seq<char>, i: int, j: int)
    requires
        0 <= i <= j <= s.len(),
        forall|k: int| i <= k < j ==> (#[trigger] s[k] == ' ' || s[k] == '\t' || s[k] == '\n' || s[k] == '\r'),
    ensures
        skip_ws(s, i) == skip_ws(s, j),
    decreases j - i,
{
    if i < j {
        assert(is_json_ws(s[i]));
        lemma_skip_ws_passes(s, i + 1, j);
    }
}

/// A value followed by nothing but JSON whitespace (space, tab, line feed,
/// carriage return, in any mix, such as CRLF line ends) is a whole
/// document, which decodes to that value.
pub proof fn lemma_trailing_whitespace_accepted(s: Seq<char>, v: Json, j: int)
    requires
        value_at(s, 0, MAX_DEPTH as nat) == Ok::<(Json, int), JsonFailure>((v, j)),
        0 <= j <= s.len(),
        forall|k: int| j <= k < s.len() ==> (#[trigger] s[k] == ' ' || s[k] == '\t' || s[k] == '\n' || s[k] == '\r'),
    ensures
        document(s) == Ok::<Json, JsonFailure>(v),
{
    lemma_whitespace_is_exactly_rfc8259(s, j);
    if skip_ws(s, j) < s.len() {
        let c = s[skip_ws(s, j)];
        assert(c == ' ' || c == '\t' || c == '\n' || c == '\r');
    }
}

/// The first position at or after `i` that is not a decimal digit.
pub open spec fn digits_end(s: Seq<char>, i: int) -> int
    decreases s.len() - i,
{
    if 0 <= i < s.len() && is_digit(s[i]) {
        digits_end(s, i + 1)
    } else {
        i
    }
}

pub proof fn lemma_digits_end(s: Seq<char>, i: int)
    ensures
        digits_end(s, i) >= i,
    decreases s.len() - i,
{
    if 0 <= i < s.len() && is_digit(s[i]) {
        lemma_digits_end(s, i + 1);
    }
}

/// Where the number that starts at `i` ends: an optional minus, one `0` or
/// a digit run not starting with `0`, an optional fraction with at least one
/// digit, and an optional exponent with at least one digit.
pub open spec fn number_end(s: Seq<char>, i: int) -> Option<int> {
    let p = if 0 <= i < s.len() && s[i] == '-' { i + 1 } else { i };
    if !(0 <= p < s.len() && is_digit(s[p])) {
        None
    } else {
        let int_end = if s[p] == '0' { p + 1 } else { digits_end(s, p) };
        if s[p] == '0' && int_end < s.len() && is_digit(s[int_end]) {
            None
        } else {
            let frac_ok = !(int_end < s.len() && s[int_end] == '.') || (int_end + 1 < s.len()
                && is_digit(s[int_end + 1]));
            let frac_end = if int_end < s.len() && s[int_end] == '.' {
                digits_end(s, int_end + 1)
            } else {
                int_end
            };
            let has_exp = frac_end < s.len() && (s[frac_end] == 'e' || s[frac_end] == 'E');
            let sign_end = if has_exp && frac_end + 1 < s.len() && (s[frac_end + 1] == '+' || s[frac_end
                + 1] == '-') {
                frac_end + 2
            } else {
                frac_end + 1
            };
            if !frac_ok {
                None
            } else if !has_exp {
                Some(frac_end)
            } else if sign_end < s.len() && is_digit(s[sign_end]) {
                Some(digits_end(s, sign_end))
            } else {
                None
            }
        }
    }
}

pub open spec fn hex_value(c: char) -> Option<u32> {
    if '0' <= c && c <= '9' {
        Some((c as u32 - '0' as u32) as u32)
    } else if 'a' <= c && c <= 'f' {
        Some((c as u32 - 'a' as u32 + 10) as u32)
    } else if 'A' <= c && c <= 'F' {
        Some((c as u32 - 'A' as u32 + 10) as u32)
    } else {
        None
    }
}

/// The four hex digits at `i..i + 4`, read as one UTF-16 code unit.
pub open spec fn hex4(s: Seq<char>, i: int) -> Option<u32> {
    if 0 <= i && i + 4 <= s.len() && hex_value(s[i]) is Some && hex_value(s[i + 1]) is Some
        && hex_value(s[i + 2]) is Some && hex_value(s[i + 3]) is Some {
        Some(
            (hex_value(s[i]).unwrap() * 4096 + hex_value(s[i + 1]).unwrap() * 256 + hex_value(
                s[i + 2],
            ).unwrap() * 16 + hex_value(s[i + 3]).unwrap()) as u32,
        )
    } else {
        None
    }
}

/// The character a one-letter escape stands for.
pub open spec fn simple_escape(c: char) -> Option<char> {
    if c == '"' {
        Some('"')
    } else if c == '\\' {
        Some('\\')
    } else if c == '/' {
        Some('/')
    } else if c == 'b' {
        Some('\u{8}')
    } else if c == 'f' {
        Some('\u{c}')
    } else if c == 'n' {
        Some('\n')
    } else if c == 'r' {
        Some('\r')
    } else if c == 't' {
        Some('\t')
    } else {
        None
    }
}

/// The contents of the string whose opening quote precedes `i`, read up to
/// and including its closing quote; also the position after that quote.
/// Surrogate escapes must come as one leading and one trailing half.
pub open spec fn string_body(s: Seq<char>, i: int, acc: Seq<char>) -> Option<(Seq<char>, int)>
    decreases s.len() - i,
{
    if i < 0 || i >= s.len() {
        None
    } else if s[i] == '"' {
        Some((acc, i + 1))
    } else if s[i] == '\\' {
        if i + 1 >= s.len() {
            None
        } else if simple_escape(s[i + 1]) is Some {
            string_body(s, i + 2, acc.push(simple_escape(s[i + 1]).unwrap()))
        } else if s[i + 1] == 'u' {
            match hex4(s, i + 2) {
                None => None,
                Some(u) => {
                    if 0xDC00 <= u <= 0xDFFF {
                        None
                    } else if 0xD800 <= u <= 0xDBFF {
                        if i + 8 <= s.len() && s[i + 6] == '\\' && s[i + 7] == 'u' {
                            match hex4(s, i + 8) {
                                None => None,
                                Some(w) => if 0xDC00 <= w <= 0xDFFF {
                                    let cp = (0x10000 + (u - 0xD800) * 1024 + (w - 0xDC00)) as u32;
                                    string_body(s, i + 12, acc.push(cp as char))
                                } else {
                                    None
                                },
                            }
                        } else {
                            None
                        }
                    } else {
                        string_body(s, i + 6, acc.push(u as char))
                    }
                },
            }
        } else {
            None
        }
    } else if (s[i] as u32) < 0x20 {
        None
    } else {
        string_body(s, i + 1, acc.push(s[i]))
    }
}

pub open spec fn literal_at(s: Seq<char>, i: int, word: Seq<char>) -> bool {
    0 <= i && i + word.len() <= s.len() && s.subrange(i, i + word.len()) == word
}

pub open spec fn has_key(keys: Seq<Seq<char>>, key: Seq<char>) -> bool {
    exists|m: int| 0 <= m < keys.len() && keys[m] == key
}

/// The value that starts at or after `i` (after whitespace), with the
/// position just past it; `depth` is how many more levels of nesting the
/// decoder still allows, counting the one a bracket would open.
pub open spec fn value_at(s: Seq<char>, i: int, depth: nat) -> Result<(Json, int), JsonFailure>
    decreases s.len() - i, 0nat,
{
    let k = skip_ws(s, i);
    if !(0 <= k < s.len()) {
        Err(JsonFailure::Syntax)
    } else if s[k] == 'n' {
        if literal_at(s, k, seq!['n', 'u', 'l', 'l']) { Ok((Json::Null, k + 4)) } else { Err(JsonFailure::Syntax) }
    } else if s[k] == 't' {
        if literal_at(s, k, seq!['t', 'r', 'u', 'e']) { Ok((Json::Bool(true), k + 4)) } else { Err(JsonFailure::Syntax) }
    } else if s[k] == 'f' {
        if literal_at(s, k, seq!['f', 'a', 'l', 's', 'e']) {
            Ok((Json::Bool(false), k + 5))
        } else {
            Err(JsonFailure::Syntax)
        }
    } else if s[k] == '"' {
        match string_body(s, k + 1, Seq::empty()) {
            Some((text, e)) => Ok((Json::Str(text), e)),
            None => Err(JsonFailure::Syntax),
        }
    } else if s[k] == '-' || is_digit(s[k]) {
        match number_end(s, k) {
            Some(e) => Ok((Json::Number(s.subrange(k, e)), e)),
            None => Err(JsonFailure::Syntax),
        }
    } else if s[k] == '[' || s[k] == '{' {
        if depth <= 1 {
            Err(JsonFailure::Syntax)
        } else {
            proof {
                lemma_skip_ws(s, i);
            }
            let p = skip_ws(s, k + 1);
            if s[k] == '[' {
                if 0 <= p < s.len() && s[p] == ']' {
                    Ok((Json::Array(Seq::empty()), p + 1))
                } else {
                    items_at(s, k + 1, (depth - 1) as nat, Seq::empty())
                }
            } else {
                if 0 <= p < s.len() && s[p] == '}' {
                    Ok((Json::Object(Seq::empty(), Seq::empty()), p + 1))
                } else {
                    members_at(s, k + 1, (depth - 1) as nat, Seq::empty(), Seq::empty())
                }
            }
        }
    } else {
        Err(JsonFailure::Syntax)
    }
}

/// The rest of an array whose next element starts at or after `i`, given
/// the elements already read.
pub open spec fn items_at(s: Seq<char>, i: int, depth: nat, acc: Seq<Json>) -> Result<(Json, int), JsonFailure>
    decreases s.len() - i, 1nat,
{
    match value_at(s, i, depth) {
        Err(e) => Err(e),
        Ok((v, j)) => {
            if j <= i {
                Err(JsonFailure::Syntax)
            } else {
                proof {
                    lemma_skip_ws(s, j);
                }
                let q = skip_ws(s, j);
                if 0 <= q < s.len() && s[q] == ',' {
                    items_at(s, q + 1, depth, acc.push(v))
                } else if 0 <= q < s.len() && s[q] == ']' {
                    Ok((Json::Array(acc.push(v)), q + 1))
                } else {
                    Err(JsonFailure::Syntax)
                }
            }
        },
    }
}

/// The rest of an object whose next member starts at or after `i`, given
/// the members already read. A repeated key is refused once its value has
/// been read.
pub open spec fn members_at(
    s: Seq<char>,
    i: int,
    depth: nat,
    keys: Seq<Seq<char>>,
    vals: Seq<Json>,
) -> Result<(Json, int), JsonFailure>
    decreases s.len() - i, 1nat,
{
    let k = skip_ws(s, i);
    if !(0 <= k < s.len() && s[k] == '"') {
        Err(JsonFailure::Syntax)
    } else {
        match string_body(s, k + 1, Seq::empty()) {
            None => Err(JsonFailure::Syntax),
            Some((key, e)) => {
                let c = skip_ws(s, e);
                if !(0 <= c < s.len() && s[c] == ':') {
                    Err(JsonFailure::Syntax)
                } else {
                    proof {
                        lemma_skip_ws(s, i);
                        lemma_string_body(s, k + 1, Seq::empty());
                        lemma_skip_ws(s, e);
                    }
                    match value_at(s, c + 1, depth) {
                        Err(f) => Err(f),
                        Ok((v, j)) => {
                            if j <= i {
                                Err(JsonFailure::Syntax)
                            } else if has_key(keys, key) {
                                Err(JsonFailure::Duplicate(key))
                            } else {
                                proof {
                                    lemma_skip_ws(s, j);
                                }
                                let q = skip_ws(s, j);
                                if 0 <= q < s.len() && s[q] == ',' {
                                    members_at(s, q + 1, depth, keys.push(key), vals.push(v))
                                } else if 0 <= q < s.len() && s[q] == '}' {
                                    Ok((Json::Object(keys.push(key), vals.push(v)), q + 1))
                                } else {
                                    Err(JsonFailure::Syntax)
                                }
                            }
                        },
                    }
                }
            },
        }
    }
}

pub proof fn lemma_string_body(s: Seq<char>, i: int, acc: Seq<char>)
    ensures
        string_body(s, i, acc) matches Some((_, e)) ==> e > i,
    decreases s.len() - i,
{
    if 0 <= i < s.len() && s[i] != '"' {
        if s[i] == '\\' {
            if i + 1 < s.len() {
                if simple_escape(s[i + 1]) is Some {
                    lemma_string_body(s, i + 2, acc.push(simple_escape(s[i + 1]).unwrap()));
                } else if s[i + 1] == 'u' {
                    if let Some(u) = hex4(s, i + 2) {
                        if 0xD800 <= u <= 0xDBFF {
                            if i + 8 <= s.len() && s[i + 6] == '\\' && s[i + 7] == 'u' {
                                if let Some(w) = hex4(s, i + 8) {
                                    let cp = (0x10000 + (u - 0xD800) * 1024 + (w - 0xDC00)) as u32;
                                    lemma_string_body(s, i + 12, acc.push(cp as char));
                                }
                            }
                        } else if !(0xDC00 <= u <= 0xDFFF) {
                            lemma_string_body(s, i + 6, acc.push(u as char));
                        }
                    }
                }
            }
        } else if (s[i] as u32) >= 0x20 {
            lemma_string_body(s, i + 1, acc.push(s[i]));
        }
    }
}

/// The whole document: one value, then nothing but whitespace.
pub open spec fn document(s: Seq<char>) -> Result<Json, JsonFailure> {
    match value_at(s, 0, MAX_DEPTH as nat) {
        Err(e) => Err(e),
        Ok((v, j)) => if skip_ws(s, j) == s.len() { Ok(v) } else { Err(JsonFailure::Syntax) },
    }
}

/// The key as a decoding error reports it: the text before its first
/// backtick, since the report quotes the key between backticks.
pub open spec fn reported_key(key: Seq<char>) -> Seq<char> {
    match crate::identity::first_index_from(key, '`', 0) {
        Some(i) => key.subrange(0, i),
        None => key,
    }
}

/// A refused JSON document.
#[derive(Debug, PartialEq, Eq)]
pub enum StrictJsonError {
    /// An object repeated this key (as reported, see `reported_key`).
    DuplicateObjectKey(String),
    /// Malformed JSON, invalid UTF-8, nesting too deep, or trailing data.
    Invalid(String),
}

/// A refusal found while reading a document.
pub enum ParseFault {
    Duplicate(String),
    Syntax,
}

impl View for ParseFault {
    type V = JsonFailure;

    open spec fn view(&self) -> JsonFailure {
        match self {
            ParseFault::Duplicate(k) => JsonFailure::Duplicate(k@),
            ParseFault::Syntax => JsonFailure::Syntax,
        }
    }
}

/// `char::from_u32`: the character with this scalar value, if it is one
/// (at most `0x10FFFF` and not a surrogate), as the standard library
/// documents.
#[verifier::external_body]
fn char_from_u32(x: u32) -> (r: Option<char>)
    ensures
        r is Some <==> (x <= 0x10FFFF && !(0xD800 <= x <= 0xDFFF)),
        r matches Some(c) ==> c == x as char,
{
    char::from_u32(x)
}

fn skip_ws_exec(s: &Vec<char>, i: usize) -> (r: usize)
    requires
        i <= s.len(),
    ensures
        r as int == skip_ws(s@, i as int),
        i <= r <= s.len(),
{
    let mut k = i;
    while k < s.len() && (s[k] == ' ' || s[k] == '\t' || s[k] == '\n' || s[k] == '\r')
        invariant
            i <= k <= s.len(),
            skip_ws(s@, k as int) == skip_ws(s@, i as int),
        decreases s.len() - k,
    {
        k = k + 1;
    }
    k
}

fn digits_end_exec(s: &Vec<char>, i: usize) -> (r: usize)
    requires
        i <= s.len(),
    ensures
        r as int == digits_end(s@, i as int),
        i <= r <= s.len(),
{
    let mut k = i;
    while k < s.len() && ('0' <= s[k] && s[k] <= '9')
        invariant
            i <= k <= s.len(),
            digits_end(s@, k as int) == digits_end(s@, i as int),
        decreases s.len() - k,
    {
        k = k + 1;
    }
    k
}

fn number_end_exec(s: &Vec<char>, i: usize) -> (r: Option<usize>)
    requires
        i <= s.len(),
    ensures
        r matches Some(e) ==> number_end(s@, i as int) == Some(e as int) && e <= s.len(),
        r is None ==> number_end(s@, i as int) is None,
{
    let p = if i < s.len() && s[i] == '-' { i + 1 } else { i };
    if !(p < s.len() && '0' <= s[p] && s[p] <= '9') {
        return None;
    }
    let int_end = if s[p] == '0' { p + 1 } else { digits_end_exec(s, p) };
    if s[p] == '0' && int_end < s.len() && '0' <= s[int_end] && s[int_end] <= '9' {
        return None;
    }
    let has_frac = int_end < s.len() && s[int_end] == '.';
    if has_frac && !(int_end + 1 < s.len() && '0' <= s[int_end + 1] && s[int_end + 1] <= '9') {
        return None;
    }
    let frac_end = if has_frac { digits_end_exec(s, int_end + 1) } else { int_end };
    let has_exp = frac_end < s.len() && (s[frac_end] == 'e' || s[frac_end] == 'E');
    if !has_exp {
        return Some(frac_end);
    }
    let sign_end = if frac_end + 1 < s.len() && (s[frac_end + 1] == '+' || s[frac_end + 1] == '-') {
        frac_end + 2
    } else {
        frac_end + 1
    };
    if sign_end < s.len() && '0' <= s[sign_end] && s[sign_end] <= '9' {
        Some(digits_end_exec(s, sign_end))
    } else {
        None
    }
}

fn hex_value_exec(c: char) -> (r: Option<u32>)
    ensures
        r == hex_value(c),
{
    if '0' <= c && c <= '9' {
        Some(c as u32 - '0' as u32)
    } else if 'a' <= c && c <= 'f' {
        Some(c as u32 - 'a' as u32 + 10)
    } else if 'A' <= c && c <= 'F' {
        Some(c as u32 - 'A' as u32 + 10)
    } else {
        None
    }
}

fn hex4_exec(s: &Vec<char>, i: usize) -> (r: Option<u32>)
    requires
        i <= s.len(),
    ensures
        r == hex4(s@, i as int),
        r matches Some(u) ==> u < 0x10000,
{
    if i > s.len() || s.len() - i < 4 {
        return None;
    }
    let a = hex_value_exec(s[i]);
    let b = hex_value_exec(s[i + 1]);
    let c = hex_value_exec(s[i + 2]);
    let d = hex_value_exec(s[i + 3]);
    match (a, b, c, d) {
        (Some(a), Some(b), Some(c), Some(d)) => Some(a * 4096 + b * 256 + c * 16 + d),
        _ => None,
    }
}

fn simple_escape_exec(c: char) -> (r: Option<char>)
    ensures
        r == simple_escape(c),
{
    if c == '"' {
        Some('"')
    } else if c == '\\' {
        Some('\\')
    } else if c == '/' {
        Some('/')
    } else if c == 'b' {
        Some('\u{8}')
    } else if c == 'f' {
        Some('\u{c}')
    } else if c == 'n' {
        Some('\n')
    } else if c == 'r' {
        Some('\r')
    } else if c == 't' {
        Some('\t')
    } else {
        None
    }
}

fn string_body_exec(s: &Vec<char>, i: usize) -> (r: Option<(Vec<char>, usize)>)
    requires
        i <= s.len(),
    ensures
        r matches Some((text, e)) ==> string_body(s@, i as int, Seq::empty()) == Some((text@, e as int))
            && e <= s.len(),
        r is None ==> string_body(s@, i as int, Seq::empty()) is None,
{
    let mut acc: Vec<char> = Vec::new();
    let mut k = i;
    loop
        invariant
            i <= k <= s.len(),
            string_body(s@, k as int, acc@) == string_body(s@, i as int, Seq::empty()),
        decreases s.len() - k,
    {
        if k >= s.len() {
            return None;
        }
        let c = s[k];
        if c == '"' {
            return Some((acc, k + 1));
        } else if c == '\\' {
            if k + 1 >= s.len() {
                return None;
            }
            match simple_escape_exec(s[k + 1]) {
                Some(e) => {
                    acc.push(e);
                    k = k + 2;
                },
                None => {
                    if s[k + 1] != 'u' {
                        return None;
                    }
                    let u = match hex4_exec(s, k + 2) {
                        Some(u) => u,
                        None => return None,
                    };
                    if 0xDC00 <= u && u <= 0xDFFF {
                        return None;
                    } else if 0xD800 <= u && u <= 0xDBFF {
                        if !(s.len() - k >= 8 && s[k + 6] == '\\' && s[k + 7] == 'u') {
                            return None;
                        }
                        let w = match hex4_exec(s, k + 8) {
                            Some(w) => w,
                            None => return None,
                        };
                        if !(0xDC00 <= w && w <= 0xDFFF) {
                            return None;
                        }
                        let cp: u32 = 0x10000 + (u - 0xD800) * 1024 + (w - 0xDC00);
                        match char_from_u32(cp) {
                            Some(ch) => {
                                acc.push(ch);
                                k = k + 12;
                            },
                            None => return None,
                        }
                    } else {
                        match char_from_u32(u) {
                            Some(ch) => {
                                acc.push(ch);
                                k = k + 6;
                            },
                            None => return None,
                        }
                    }
                },
            }
        } else if (c as u32) < 0x20 {
            return None;
        } else {
            acc.push(c);
            k = k + 1;
        }
    }
}

fn literal_at_exec(s: &Vec<char>, i: usize, word: &[char]) -> (r: bool)
    requires
        i <= s.len(),
    ensures
        r == literal_at(s@, i as int, word@),
{
    if word.len() > s.len() - i {
        return false;
    }
    let mut k: usize = 0;
    while k < word.len()
        invariant
            word.len() <= s.len() - i,
            k <= word.len(),
            forall|m: int| 0 <= m < k ==> s@[i + m] == word@[m],
        decreases word.len() - k,
    {
        if s[i + k] != word[k] {
            assert(s@.subrange(i as int, i + word@.len())[k as int] != word@[k as int]);
            return false;
        }
        k = k + 1;
    }
    assert(s@.subrange(i as int, i + word@.len()) =~= word@);
    true
}

fn has_key_exec(members: &Vec<JsonMember>, key: &String) -> (r: bool)
    ensures
        r == has_key(key_views(members@), key@),
{
    let mut m: usize = 0;
    while m < members.len()
        invariant
            m <= members.len(),
            forall|x: int| 0 <= x < m ==> members@[x].key@ != key@,
        decreases members.len() - m,
    {
        if members[m].key == *key {
            assert(key_views(members@)[m as int] == key@);
            return true;
        }
        m = m + 1;
    }
    proof {
        if has_key(key_views(members@), key@) {
            let x = choose|x: int| 0 <= x < key_views(members@).len() && key_views(members@)[x] == key@;
            assert(key_views(members@)[x] == members@[x].key@);
        }
    }
    false
}

fn sub_text(s: &Vec<char>, from: usize, to: usize) -> (r: String)
    requires
        from <= to <= s.len(),
    ensures
        r@ == s@.subrange(from as int, to as int),
{
    let mut v: Vec<char> = Vec::new();
    let mut k = from;
    while k < to
        invariant
            from <= k <= to <= s.len(),
            v@ == s@.subrange(from as int, k as int),
        decreases to - k,
    {
        v.push(s[k]);
        k = k + 1;
        assert(v@ =~= s@.subrange(from as int, k as int));
    }
    string_from_chars(v.as_slice())
}

fn parse_value(s: &Vec<char>, i: usize, depth: u8) -> (r: Result<(JsonValue, usize), ParseFault>)
    requires
        i <= s.len(),
    ensures
        r matches Ok((v, j)) ==> value_at(s@, i as int, depth as nat) == Ok::<(Json, int), JsonFailure>((v@, j as int))
            && j <= s.len(),
        r matches Err(f) ==> value_at(s@, i as int, depth as nat) == Err::<(Json, int), JsonFailure>(f@),
    decreases s.len() - i, 0nat,
{
    let k = skip_ws_exec(s, i);
    if k >= s.len() {
        return Err(ParseFault::Syntax);
    }
    let c = s[k];
    if c == 'n' {
        if literal_at_exec(s, k, &['n', 'u', 'l', 'l']) {
            Ok((JsonValue::Null, k + 4))
        } else {
            Err(ParseFault::Syntax)
        }
    } else if c == 't' {
        if literal_at_exec(s, k, &['t', 'r', 'u', 'e']) {
            Ok((JsonValue::Bool(true), k + 4))
        } else {
            Err(ParseFault::Syntax)
        }
    } else if c == 'f' {
        if literal_at_exec(s, k, &['f', 'a', 'l', 's', 'e']) {
            Ok((JsonValue::Bool(false), k + 5))
        } else {
            Err(ParseFault::Syntax)
        }
    } else if c == '"' {
        match string_body_exec(s, k + 1) {
            Some((text, e)) => Ok((JsonValue::String(string_from_chars(text.as_slice())), e)),
            None => Err(ParseFault::Syntax),
        }
    } else if c == '-' || ('0' <= c && c <= '9') {
        match number_end_exec(s, k) {
            Some(e) => {
                proof {
                    lemma_number_end(s@, k as int);
                }
                Ok((JsonValue::Number(sub_text(s, k, e)), e))
            },
            None => Err(ParseFault::Syntax),
        }
    } else if c == '[' || c == '{' {
        if depth <= 1 {
            return Err(ParseFault::Syntax);
        }
        let p = skip_ws_exec(s, k + 1);
        if c == '[' {
            if p < s.len() && s[p] == ']' {
                let empty: Vec<JsonValue> = Vec::new();
                proof {
                    lemma_array_view(empty);
                    assert(item_views(empty@) =~= Seq::<Json>::empty());
                }
                let v = JsonValue::Array(empty);
                Ok((v, p + 1))
            } else {
                parse_items(s, k + 1, depth - 1)
            }
        } else {
            if p < s.len() && s[p] == '}' {
                let empty: Vec<JsonMember> = Vec::new();
                proof {
                    lemma_object_view(empty);
                    assert(key_views(empty@) =~= Seq::<Seq<char>>::empty());
                    assert(value_views(empty@) =~= Seq::<Json>::empty());
                }
                let v = JsonValue::Object(empty);
                Ok((v, p + 1))
            } else {
                parse_members(s, k + 1, depth - 1)
            }
        }
    } else {
        Err(ParseFault::Syntax)
    }
}

proof fn lemma_number_end(s: Seq<char>, i: int)
    requires
        number_end(s, i) is Some,
    ensures
        i <= number_end(s, i).unwrap(),
{
    let p = if 0 <= i < s.len() && s[i] == '-' { i + 1 } else { i };
    lemma_digits_end(s, p);
    let int_end = if s[p] == '0' { p + 1 } else { digits_end(s, p) };
    lemma_digits_end(s, int_end + 1);
    let frac_end = if int_end < s.len() && s[int_end] == '.' { digits_end(s, int_end + 1) } else { int_end };
    lemma_digits_end(s, frac_end + 1);
    lemma_digits_end(s, frac_end + 2);
}

fn parse_items(s: &Vec<char>, i: usize, depth: u8) -> (r: Result<(JsonValue, usize), ParseFault>)
    requires
        i <= s.len(),
    ensures
        r matches Ok((v, j)) ==> items_at(s@, i as int, depth as nat, Seq::empty()) == Ok::<(Json, int), JsonFailure>((v@, j as int))
            && j <= s.len(),
        r matches Err(f) ==> items_at(s@, i as int, depth as nat, Seq::empty()) == Err::<(Json, int), JsonFailure>(f@),
    decreases s.len() - i, 1nat,
{
    let mut acc: Vec<JsonValue> = Vec::new();
    let mut pos = i;
    assert(item_views(acc@) =~= Seq::<Json>::empty());
    loop
        invariant
            i <= pos <= s.len(),
            items_at(s@, pos as int, depth as nat, item_views(acc@)) == items_at(s@, i as int, depth as nat, Seq::empty()),
        decreases s.len() - pos,
    {
        match parse_value(s, pos, depth) {
            Err(e) => return Err(e),
            Ok((v, j)) => {
                if j <= pos {
                    return Err(ParseFault::Syntax);
                }
                let q = skip_ws_exec(s, j);
                let ghost before = acc@;
                let ghost vv = v@;
                if q < s.len() && s[q] == ',' {
                    acc.push(v);
                    assert(item_views(acc@) =~= item_views(before).push(vv));
                    pos = q + 1;
                } else if q < s.len() && s[q] == ']' {
                    acc.push(v);
                    assert(item_views(acc@) =~= item_views(before).push(vv));
                    proof {
                        lemma_array_view(acc);
                    }
                    let out = JsonValue::Array(acc);
                    return Ok((out, q + 1));
                } else {
                    return Err(ParseFault::Syntax);
                }
            },
        }
    }
}

fn parse_members(s: &Vec<char>, i: usize, depth: u8) -> (r: Result<(JsonValue, usize), ParseFault>)
    requires
        i <= s.len(),
    ensures
        r matches Ok((v, j)) ==> members_at(s@, i as int, depth as nat, Seq::empty(), Seq::empty()) == Ok::<(Json, int), JsonFailure>((v@, j as int))
            && j <= s.len(),
        r matches Err(f) ==> members_at(s@, i as int, depth as nat, Seq::empty(), Seq::empty()) == Err::<(Json, int), JsonFailure>(f@),
    decreases s.len() - i, 1nat,
{
    let mut acc: Vec<JsonMember> = Vec::new();
    let mut pos = i;
    assert(key_views(acc@) =~= Seq::<Seq<char>>::empty());
    assert(value_views(acc@) =~= Seq::<Json>::empty());
    loop
        invariant
            i <= pos <= s.len(),
            members_at(s@, pos as int, depth as nat, key_views(acc@), value_views(acc@)) == members_at(s@, i as int, depth as nat, Seq::empty(), Seq::empty()),
        decreases s.len() - pos,
    {
        let k = skip_ws_exec(s, pos);
        if !(k < s.len() && s[k] == '"') {
            return Err(ParseFault::Syntax);
        }
        let (key_chars, e) = match string_body_exec(s, k + 1) {
            Some(found) => found,
            None => return Err(ParseFault::Syntax),
        };
        let key = string_from_chars(key_chars.as_slice());
        let c = skip_ws_exec(s, e);
        if !(c < s.len() && s[c] == ':') {
            return Err(ParseFault::Syntax);
        }
        proof {
            lemma_string_body(s@, k + 1, Seq::empty());
        }
        match parse_value(s, c + 1, depth) {
            Err(f) => return Err(f),
            Ok((v, j)) => {
                if j <= pos {
                    return Err(ParseFault::Syntax);
                }
                if has_key_exec(&acc, &key) {
                    return Err(ParseFault::Duplicate(key));
                }
                let q = skip_ws_exec(s, j);
                let ghost before = acc@;
                let ghost kv = key@;
                let ghost vv = v@;
                if q < s.len() && s[q] == ',' {
                    acc.push(JsonMember { key, value: v });
                    assert(key_views(acc@) =~= key_views(before).push(kv));
                    assert(value_views(acc@) =~= value_views(before).push(vv));
                    pos = q + 1;
                } else if q < s.len() && s[q] == '}' {
                    acc.push(JsonMember { key, value: v });
                    assert(key_views(acc@) =~= key_views(before).push(kv));
                    assert(value_views(acc@) =~= value_views(before).push(vv));
                    proof {
                        lemma_object_view(acc);
                    }
                    let out = JsonValue::Object(acc);
                    return Ok((out, q + 1));
                } else {
                    return Err(ParseFault::Syntax);
                }
            },
        }
    }
}

fn reported_key_exec(key: &String) -> (r: String)
    ensures
        r@ == reported_key(key@),
{
    let chars = chars_of(key.as_str());
    let mut i: usize = 0;
    while i < chars.len()
        invariant
            i <= chars.len(),
            chars@ == key@,
            forall|m: int| 0 <= m < i ==> chars@[m] != '`',
        decreases chars.len() - i,
    {
        if chars[i] == '`' {
            proof {
                crate::identity::lemma_first_index_is(key@, '`', 0, i as int);
            }
            return sub_text(&chars, 0, i);
        }
        i = i + 1;
    }
    proof {
        crate::identity::lemma_first_index_from(key@, '`', 0);
    }
    owned(key.as_str())
}

/// The outcome a decoding reports for a document that the grammar refuses
/// with `failure`.
pub open spec fn reports(failure: JsonFailure, error: StrictJsonError) -> bool {
    match failure {
        JsonFailure::Duplicate(key) => error matches StrictJsonError::DuplicateObjectKey(k) && k@
            == reported_key(key),
        JsonFailure::Syntax => error is Invalid,
    }
}

/// Decodes one complete JSON document given as characters.
pub fn from_chars(s: &Vec<char>) -> (r: Result<JsonValue, StrictJsonError>)
    ensures
        r matches Ok(v) ==> document(s@) == Ok::<Json, JsonFailure>(v@),
        r matches Err(e) ==> document(s@) matches Err(f) && reports(f, e),
{
    match parse_value(s, 0, MAX_DEPTH) {
        Ok((v, j)) => {
            let end = skip_ws_exec(s, j);
            if end == s.len() {
                Ok(v)
            } else {
                Err(StrictJsonError::Invalid(owned("trailing characters after the JSON document")))
            }
        },
        Err(ParseFault::Duplicate(key)) => Err(StrictJsonError::DuplicateObjectKey(reported_key_exec(&key))),
        Err(ParseFault::Syntax) => Err(StrictJsonError::Invalid(owned("malformed JSON document"))),
    }
}

/// Decodes one complete UTF-8 JSON document after recursively rejecting
/// duplicate object keys: a duplicate is reported before anything that
/// follows it in the document is looked at.
pub fn from_str(input: &str) -> (r: Result<JsonValue, StrictJsonError>)
    ensures
        r matches Ok(v) ==> document(input@) == Ok::<Json, JsonFailure>(v@),
        r matches Err(e) ==> document(input@) matches Err(f) && reports(f, e),
{
    let chars = chars_of(input);
    from_chars(&chars)
}

/// `std::str::from_utf8`: the text that the bytes encode, when they are
/// valid UTF-8, as the standard library documents.
#[verifier::external_body]
fn utf8_text(bytes: &[u8]) -> (r: Option<&str>)
    ensures
        r is Some <==> vstd::utf8::valid_utf8(bytes@),
        r matches Some(t) ==> t@ == vstd::utf8::decode_utf8(bytes@),
{
    std::str::from_utf8(bytes).ok()
}

/// Decodes one complete JSON byte document. Bytes that are not UTF-8 are
/// refused as invalid before the document is read.
pub fn from_slice(input: &[u8]) -> (r: Result<JsonValue, StrictJsonError>)
    ensures
        !vstd::utf8::valid_utf8(input@) ==> r is Err && r->Err_0 is Invalid,
        vstd::utf8::valid_utf8(input@) ==> {
            let text = vstd::utf8::decode_utf8(input@);
            &&& r matches Ok(v) ==> document(text) == Ok::<Json, JsonFailure>(v@)
            &&& r matches Err(e) ==> document(text) matches Err(f) && reports(f, e)
        },
{
    match utf8_text(input) {
        Some(text) => from_str(text),
        None => Err(StrictJsonError::Invalid(owned("JSON document is not valid UTF-8"))),
    }
}

/// `\u00XX` for a character below `0x20`.
pub open spec fn hex_digit(n: u32) -> char {
    if n < 10 { (('0' as u32) + n) as char } else { (('a' as u32) + n - 10) as char }
}

/// One character as it stands inside a quoted JSON string: the short
/// escapes of `serde_json`, and `\u00XX` for the other control characters.
pub open spec fn escape_char(c: char) -> Seq<char> {
    if c == '"' {
        seq!['\\', '"']
    } else if c == '\\' {
        seq!['\\', '\\']
    } else if c == '\u{8}' {
        seq!['\\', 'b']
    } else if c == '\u{c}' {
        seq!['\\', 'f']
    } else if c == '\n' {
        seq!['\\', 'n']
    } else if c == '\r' {
        seq!['\\', 'r']
    } else if c == '\t' {
        seq!['\\', 't']
    } else if (c as u32) < 0x20 {
        seq!['\\', 'u', '0', '0', hex_digit((c as u32) / 16), hex_digit((c as u32) % 16)]
    } else {
        seq![c]
    }
}

pub open spec fn escaped(s: Seq<char>) -> Seq<char>
    decreases s.len(),
{
    if s.len() == 0 { Seq::empty() } else { escaped(s.drop_last()) + escape_char(s.last()) }
}

/// A quoted JSON string.
pub open spec fn quoted(s: Seq<char>) -> Seq<char> {
    seq!['"'] + escaped(s) + seq!['"']
}

/// Parts joined with commas.
pub open spec fn joined(parts: Seq<Seq<char>>) -> Seq<char>
    decreases parts.len(),
{
    if parts.len() == 0 {
        Seq::empty()
    } else if parts.len() == 1 {
        parts[0]
    } else {
        joined(parts.drop_last()) + seq![','] + parts.last()
    }
}

/// Compact JSON text of a value: no whitespace, members in their order.
pub open spec fn render(v: Json) -> Seq<char>
    decreases v,
{
    match v {
        Json::Null => seq!['n', 'u', 'l', 'l'],
        Json::Bool(b) => if b { seq!['t', 'r', 'u', 'e'] } else { seq!['f', 'a', 'l', 's', 'e'] },
        Json::Number(n) => n,
        Json::Str(text) => quoted(text),
        Json::Array(items) => seq!['['] + joined(render_items(items)) + seq![']'],
        Json::Object(keys, vals) => seq!['{'] + joined(render_members(keys, vals)) + seq!['}'],
    }
}

/// The text of each element.
pub open spec fn render_items(items: Seq<Json>) -> Seq<Seq<char>>
    decreases items,
{
    Seq::new(items.len(), |i: int| if 0 <= i < items.len() { render(items[i]) } else { Seq::empty() })
}

/// The text of each member, `"key":value`.
pub open spec fn render_members(keys: Seq<Seq<char>>, vals: Seq<Json>) -> Seq<Seq<char>>
    decreases vals,
{
    Seq::new(
        keys.len(),
        |i: int|
            if 0 <= i < keys.len() && i < vals.len() {
                quoted(keys[i]) + seq![':'] + render(vals[i])
            } else {
                Seq::empty()
            },
    )
}

fn push_hex_digit(out: &mut Vec<char>, n: u32)
    requires
        n < 16,
    ensures
        final(out)@ == old(out)@.push(hex_digit(n)),
{
    let c: char = if n < 10 {
        let d: u8 = 48 + n as u8;
        d as char
    } else {
        let d: u8 = 87 + n as u8;
        d as char
    };
    assert(c == hex_digit(n)) by {
        assert(('0' as u32) == 48);
        assert(('a' as u32) == 97);
    }
    out.push(c);
}

fn push_escaped(out: &mut Vec<char>, text: &Vec<char>)
    ensures
        final(out)@ == old(out)@ + escaped(text@),
{
    let mut i: usize = 0;
    while i < text.len()
        invariant
            i <= text.len(),
            out@ == old(out)@ + escaped(text@.subrange(0, i as int)),
        decreases text.len() - i,
    {
        let c = text[i];
        let ghost before = out@;
        if c == '"' {
            out.push('\\');
            out.push('"');
        } else if c == '\\' {
            out.push('\\');
            out.push('\\');
        } else if c == '\u{8}' {
            out.push('\\');
            out.push('b');
        } else if c == '\u{c}' {
            out.push('\\');
            out.push('f');
        } else if c == '\n' {
            out.push('\\');
            out.push('n');
        } else if c == '\r' {
            out.push('\\');
            out.push('r');
        } else if c == '\t' {
            out.push('\\');
            out.push('t');
        } else if (c as u32) < 0x20 {
            out.push('\\');
            out.push('u');
            out.push('0');
            out.push('0');
            push_hex_digit(out, (c as u32) / 16);
            push_hex_digit(out, (c as u32) % 16);
        } else {
            out.push(c);
        }
        assert(out@ =~= before + escape_char(c));
        assert(text@.subrange(0, i + 1).drop_last() =~= text@.subrange(0, i as int));
        i = i + 1;
    }
    assert(text@.subrange(0, text@.len() as int) =~= text@);
}

fn push_quoted(out: &mut Vec<char>, text: &String)
    ensures
        final(out)@ == old(out)@ + quoted(text@),
{
    let chars = chars_of(text.as_str());
    let ghost start = out@;
    out.push('"');
    push_escaped(out, &chars);
    out.push('"');
    assert(out@ =~= start + quoted(text@));
}

fn push_str(out: &mut Vec<char>, text: &String)
    ensures
        final(out)@ == old(out)@ + text@,
{
    let chars = chars_of(text.as_str());
    let mut i: usize = 0;
    while i < chars.len()
        invariant
            i <= chars.len(),
            out@ == old(out)@ + chars@.subrange(0, i as int),
        decreases chars.len() - i,
    {
        out.push(chars[i]);
        i = i + 1;
        assert(out@ =~= old(out)@ + chars@.subrange(0, i as int));
    }
    assert(chars@.subrange(0, chars@.len() as int) =~= text@);
}

proof fn lemma_joined_push(parts: Seq<Seq<char>>, p: Seq<char>)
    ensures
        joined(parts.push(p)) == if parts.len() == 0 { p } else { joined(parts) + seq![','] + p },
{
    assert(parts.push(p).drop_last() =~= parts);
}

/// Appends the compact text of `v`.
#[verifier::loop_isolation(false)]
#[verifier::spinoff_prover]
#[verifier::rlimit(50)]
pub fn render_into(out: &mut Vec<char>, v: &JsonValue)
    ensures
        final(out)@ == old(out)@ + render(v@),
    decreases v,
{
    let ghost start = out@;
    match v {
        JsonValue::Null => {
            out.push('n');
            out.push('u');
            out.push('l');
            out.push('l');
        },
        JsonValue::Bool(b) => {
            if *b {
                out.push('t');
                out.push('r');
                out.push('u');
                out.push('e');
            } else {
                out.push('f');
                out.push('a');
                out.push('l');
                out.push('s');
                out.push('e');
            }
        },
        JsonValue::Number(n) => {
            push_str(out, n);
        },
        JsonValue::String(text) => {
            push_quoted(out, text);
        },
        JsonValue::Array(items) => {
            proof {
                lemma_array_view(*items);
            }
            let ghost views = item_views(items@);
            let ghost parts = render_items(views);
            out.push('[');
            let mut i: usize = 0;
            while i < items.len()
                invariant
                    i <= items.len(),
                    views == item_views(items@),
                    parts == render_items(views),
                    out@ == start + seq!['['] + joined(parts.subrange(0, i as int)),
                decreases items.len() - i,
            {
                let ghost before = out@;
                if i > 0 {
                    out.push(',');
                }
                proof {
                    let ghost whole = *v;
                    assert(whole is Array);
                    assert(whole->Array_0 == *items);
                    assert(decreases_to!(whole => whole->Array_0));
                    assert(decreases_to!(whole->Array_0 => whole->Array_0@));
                    assert(decreases_to!(whole->Array_0@ => whole->Array_0@[i as int]));
                }
                render_into(out, &items[i]);
                proof {
                    assert(parts.subrange(0, i + 1) =~= parts.subrange(0, i as int).push(parts[i as int]));
                    lemma_joined_push(parts.subrange(0, i as int), parts[i as int]);
                    assert(views[i as int] == items@[i as int]@);
                }
                assert(out@ =~= start + seq!['['] + joined(parts.subrange(0, i + 1)));
                i = i + 1;
            }
            out.push(']');
            assert(parts.subrange(0, items.len() as int) =~= parts);
            assert(v@ == Json::Array(views));
            assert(render(v@) == seq!['['] + joined(parts) + seq![']']);
            assert(out@ =~= start + render(v@));
        },
        JsonValue::Object(members) => {
            proof {
                lemma_object_view(*members);
            }
            let ghost keys = key_views(members@);
            let ghost vals = value_views(members@);
            let ghost parts = render_members(keys, vals);
            out.push('{');
            let mut i: usize = 0;
            while i < members.len()
                invariant
                    i <= members.len(),
                    keys == key_views(members@),
                    vals == value_views(members@),
                    parts == render_members(keys, vals),
                    out@ == start + seq!['{'] + joined(parts.subrange(0, i as int)),
                decreases members.len() - i,
            {
                let ghost before = out@;
                if i > 0 {
                    out.push(',');
                }
                let ghost mark = out@;
                push_quoted(out, &members[i].key);
                out.push(':');
                proof {
                    let ghost whole = *v;
                    assert(whole is Object);
                    assert(whole->Object_0 == *members);
                    assert(decreases_to!(whole => whole->Object_0));
                    assert(decreases_to!(whole->Object_0 => whole->Object_0@));
                    assert(decreases_to!(whole->Object_0@ => whole->Object_0@[i as int]));
                    assert(decreases_to!(whole->Object_0@[i as int] => whole->Object_0@[i as int].value));
                }
                render_into(out, &members[i].value);
                proof {
                    assert(keys[i as int] == members@[i as int].key@);
                    assert(vals[i as int] == members@[i as int].value@);
                    assert(out@ =~= mark + parts[i as int]);
                    assert(parts.subrange(0, i + 1) =~= parts.subrange(0, i as int).push(parts[i as int]));
                    lemma_joined_push(parts.subrange(0, i as int), parts[i as int]);
                }
                assert(out@ =~= start + seq!['{'] + joined(parts.subrange(0, i + 1)));
                i = i + 1;
            }
            out.push('}');
            assert(parts.subrange(0, members.len() as int) =~= parts);
            assert(out@ =~= start + render(v@));
        },
    }
}

/// The compact JSON text of a value.
pub fn to_text(v: &JsonValue) -> (r: String)
    ensures
        r@ == render(v@),
{
    let mut out: Vec<char> = Vec::new();
    render_into(&mut out, v);
    assert(out@ =~= render(v@));
    string_from_chars(out.as_slice())
}

impl Clone for JsonValue {
    fn clone(&self) -> (r: Self)
        ensures
            r@ == self@,
    {
        copy_json(self)
    }
}

impl Clone for JsonMember {
    fn clone(&self) -> (r: Self)
        ensures
            r.key@ == self.key@,
            r.value@ == self.value@,
    {
        JsonMember { key: self.key.clone(), value: copy_json(&self.value) }
    }
}

/// An equal, separately owned copy of a value.
#[verifier::loop_isolation(false)]
pub fn copy_json(v: &JsonValue) -> (r: JsonValue)
    ensures
        r@ == v@,
    decreases v,
{
    match v {
        JsonValue::Null => JsonValue::Null,
        JsonValue::Bool(b) => JsonValue::Bool(*b),
        JsonValue::Number(n) => JsonValue::Number(n.clone()),
        JsonValue::String(t) => JsonValue::String(t.clone()),
        JsonValue::Array(items) => {
            let mut out: Vec<JsonValue> = Vec::new();
            let mut i: usize = 0;
            while i < items.len()
                invariant
                    i <= items.len(),
                    item_views(out@) == item_views(items@).subrange(0, i as int),
                decreases items.len() - i,
            {
                proof {
                    let ghost whole = *v;
                    assert(decreases_to!(whole => whole->Array_0));
                    assert(decreases_to!(whole->Array_0 => whole->Array_0@));
                    assert(decreases_to!(whole->Array_0@ => whole->Array_0@[i as int]));
                }
                let c = copy_json(&items[i]);
                let ghost before = out@;
                out.push(c);
                assert(item_views(out@) =~= item_views(items@).subrange(0, i + 1)) by {
                    assert(item_views(out@) =~= item_views(before).push(items@[i as int]@));
                }
                i = i + 1;
            }
            proof {
                lemma_array_view(out);
                lemma_array_view(*items);
                assert(item_views(items@).subrange(0, items@.len() as int) =~= item_views(items@));
            }
            JsonValue::Array(out)
        },
        JsonValue::Object(members) => {
            let mut out: Vec<JsonMember> = Vec::new();
            let mut i: usize = 0;
            while i < members.len()
                invariant
                    i <= members.len(),
                    key_views(out@) == key_views(members@).subrange(0, i as int),
                    value_views(out@) == value_views(members@).subrange(0, i as int),
                decreases members.len() - i,
            {
                proof {
                    let ghost whole = *v;
                    assert(decreases_to!(whole => whole->Object_0));
                    assert(decreases_to!(whole->Object_0 => whole->Object_0@));
                    assert(decreases_to!(whole->Object_0@ => whole->Object_0@[i as int]));
                    assert(decreases_to!(whole->Object_0@[i as int] => whole->Object_0@[i as int].value));
                }
                let c = copy_json(&members[i].value);
                let k = members[i].key.clone();
                let ghost before = out@;
                out.push(JsonMember { key: k, value: c });
                assert(key_views(out@) =~= key_views(members@).subrange(0, i + 1)) by {
                    assert(key_views(out@) =~= key_views(before).push(members@[i as int].key@));
                }
                assert(value_views(out@) =~= value_views(members@).subrange(0, i + 1)) by {
                    assert(value_views(out@) =~= value_views(before).push(members@[i as int].value@));
                }
                i = i + 1;
            }
            proof {
                lemma_object_view(out);
                lemma_object_view(*members);
                assert(key_views(members@).subrange(0, members@.len() as int) =~= key_views(members@));
                assert(value_views(members@).subrange(0, members@.len() as int) =~= value_views(members@));
            }
            JsonValue::Object(out)
        },
    }
}

/// A string value.
pub fn json_text(s: &str) -> (r: JsonValue)
    ensures
        r@ == Json::Str(s@),
{
    JsonValue::String(owned(s))
}

/// An object with these members, in this order.
pub fn json_object(members: Vec<JsonMember>) -> (r: JsonValue)
    ensures
        r@ == Json::Object(key_views(members@), value_views(members@)),
{
    proof {
        lemma_object_view(members);
    }
    JsonValue::Object(members)
}

/// An array with these items, in this order.
pub fn json_array(items: Vec<JsonValue>) -> (r: JsonValue)
    ensures
        r@ == Json::Array(item_views(items@)),
{
    proof {
        lemma_array_view(items);
    }
    JsonValue::Array(items)
}

/// Whether a value is an object.
pub fn is_object(v: &JsonValue) -> (r: bool)
    ensures
        r == (v@ is Object),
{
    match v {
        JsonValue::Object(members) => {
            proof {
                lemma_object_view(*members);
            }
            true
        },
        JsonValue::Array(items) => {
            proof {
                lemma_array_view(*items);
            }
            false
        },
        _ => false,
    }
}

/// Appends one member to an object under construction.
pub fn push_member(members: &mut Vec<JsonMember>, key: &str, value: JsonValue)
    ensures
        key_views(final(members)@) == key_views(old(members)@).push(key@),
        value_views(final(members)@) == value_views(old(members)@).push(value@),
{
    let ghost kv = key@;
    let ghost vv = value@;
    let ghost before = members@;
    members.push(JsonMember { key: owned(key), value });
    assert(key_views(members@) =~= key_views(before).push(kv));
    assert(value_views(members@) =~= value_views(before).push(vv));
}



/// Code-point order of text, which is the byte order of its UTF-8 form and
/// so the order of `String` keys in `serde_json`'s object map.
pub open spec fn key_less(a: Seq<char>, b: Seq<char>) -> bool
    decreases a.len(),
{
    if a.len() == 0 {
        b.len() > 0
    } else if b.len() == 0 {
        false
    } else if a[0] != b[0] {
        (a[0] as u32) < (b[0] as u32)
    } else {
        key_less(a.drop_first(), b.drop_first())
    }
}

/// The first position from `i` on whose key is not below `k`.
pub open spec fn insert_pos_from(keys: Seq<Seq<char>>, k: Seq<char>, i: int) -> int
    decreases keys.len() - i,
{
    if i < 0 || i >= keys.len() {
        if i < 0 { 0 } else { i }
    } else if key_less(keys[i], k) {
        insert_pos_from(keys, k, i + 1)
    } else {
        i
    }
}

/// One insertion into an ordered map: a present key gets the new value in
/// place, an absent key is inserted at its ordered position.
pub open spec fn map_insert(keys: Seq<Seq<char>>, vals: Seq<Json>, k: Seq<char>, v: Json) -> (Seq<Seq<char>>, Seq<Json>) {
    let p = insert_pos_from(keys, k, 0);
    if p < keys.len() && keys[p] == k {
        (keys, vals.update(p, v))
    } else {
        (keys.insert(p, k), vals.insert(p, v))
    }
}

/// A value as `serde_json` holds it: every object's members inserted, in
/// document order, into an ordered map, so keys come out in order and a
/// repeated key keeps its last value.
pub open spec fn normalize(v: Json) -> Json
    decreases v, 0nat,
{
    match v {
        Json::Array(items) => Json::Array(
            Seq::new(items.len(), |i: int| if 0 <= i < items.len() { normalize(items[i]) } else { Json::Null }),
        ),
        Json::Object(keys, vals) => {
            let m = normalized_members(keys, vals, vals.len());
            Json::Object(m.0, m.1)
        },
        _ => v,
    }
}

/// The ordered map of the first `n` members.
pub open spec fn normalized_members(keys: Seq<Seq<char>>, vals: Seq<Json>, n: nat) -> (Seq<Seq<char>>, Seq<Json>)
    decreases vals, n,
{
    if n == 0 || n > vals.len() {
        (Seq::empty(), Seq::empty())
    } else {
        let m = normalized_members(keys, vals, (n - 1) as nat);
        let k = if n - 1 < keys.len() { keys[n - 1] } else { Seq::empty() };
        map_insert(m.0, m.1, k, normalize(vals[n - 1]))
    }
}

pub fn key_less_exec(a: &String, b: &String) -> (r: bool)
    ensures
        r == key_less(a@, b@),
{
    key_less_text(a.as_str(), b.as_str())
}

/// Whether one text comes before another in code-point order.
pub fn key_less_text(a: &str, b: &str) -> (r: bool)
    ensures
        r == key_less(a@, b@),
{
    let x = chars_of(a);
    let y = chars_of(b);
    let mut i: usize = 0;
    assert(x@.subrange(0, x@.len() as int) =~= x@);
    assert(y@.subrange(0, y@.len() as int) =~= y@);
    while i < x.len() && i < y.len()
        invariant
            i <= x.len(),
            i <= y.len(),
            x@ == a@,
            y@ == b@,
            forall|j: int| 0 <= j < i ==> x@[j] == y@[j],
            key_less(a@, b@) == key_less(x@.subrange(i as int, x@.len() as int), y@.subrange(i as int, y@.len() as int)),
        decreases x.len() - i,
    {
        let ghost xs = x@.subrange(i as int, x@.len() as int);
        let ghost ys = y@.subrange(i as int, y@.len() as int);
        if x[i] != y[i] {
            assert(xs[0] == x@[i as int] && ys[0] == y@[i as int]);
            return (x[i] as u32) < (y[i] as u32);
        }
        assert(xs.drop_first() =~= x@.subrange(i + 1, x@.len() as int));
        assert(ys.drop_first() =~= y@.subrange(i + 1, y@.len() as int));
        i = i + 1;
    }
    let ghost xs = x@.subrange(i as int, x@.len() as int);
    let ghost ys = y@.subrange(i as int, y@.len() as int);
    assert(xs.len() == 0 || ys.len() == 0);
    i >= x.len() && i < y.len()
}

/// The value as `serde_json` holds it: object keys in order, a repeated
/// key keeping its last value.
#[verifier::loop_isolation(false)]
pub fn normalize_json(v: &JsonValue) -> (r: JsonValue)
    ensures
        r@ == normalize(v@),
    decreases v,
{
    match v {
        JsonValue::Array(items) => {
            let mut out: Vec<JsonValue> = Vec::new();
            let mut i: usize = 0;
            while i < items.len()
                invariant
                    i <= items.len(),
                    item_views(out@) == Seq::new(i as nat, |j: int| normalize(item_views(items@)[j])),
                decreases items.len() - i,
            {
                proof {
                    let ghost whole = *v;
                    assert(decreases_to!(whole => whole->Array_0));
                    assert(decreases_to!(whole->Array_0 => whole->Array_0@));
                    assert(decreases_to!(whole->Array_0@ => whole->Array_0@[i as int]));
                }
                let c = normalize_json(&items[i]);
                let ghost before = out@;
                out.push(c);
                assert(item_views(out@) =~= Seq::new((i + 1) as nat, |j: int| normalize(item_views(items@)[j]))) by {
                    assert(item_views(out@) =~= item_views(before).push(c@));
                }
                i = i + 1;
            }
            proof {
                lemma_array_view(out);
                lemma_array_view(*items);
                let its = item_views(items@);
                assert(v@ == Json::Array(its));
                let target = normalize(v@);
                assert(target is Array);
                assert(target->Array_0 =~= item_views(out@));
            }
            JsonValue::Array(out)
        },
        JsonValue::Object(members) => {
            let ghost ks = key_views(members@);
            let ghost vs = value_views(members@);
            let mut out: Vec<JsonMember> = Vec::new();
            let mut i: usize = 0;
            assert(key_views(out@) =~= Seq::<Seq<char>>::empty());
            assert(value_views(out@) =~= Seq::<Json>::empty());
            while i < members.len()
                invariant
                    i <= members.len(),
                    ks == key_views(members@),
                    vs == value_views(members@),
                    (key_views(out@), value_views(out@)) == normalized_members(ks, vs, i as nat),
                decreases members.len() - i,
            {
                proof {
                    let ghost whole = *v;
                    assert(decreases_to!(whole => whole->Object_0));
                    assert(decreases_to!(whole->Object_0 => whole->Object_0@));
                    assert(decreases_to!(whole->Object_0@ => whole->Object_0@[i as int]));
                    assert(decreases_to!(whole->Object_0@[i as int] => whole->Object_0@[i as int].value));
                }
                let child = normalize_json(&members[i].value);
                let k = members[i].key.clone();
                let ghost okeys = key_views(out@);
                let ghost ovals = value_views(out@);
                let mut p: usize = 0;
                while p < out.len() && key_less_exec(&out[p].key, &k)
                    invariant
                        p <= out.len(),
                        okeys == key_views(out@),
                        insert_pos_from(okeys, k@, 0) == insert_pos_from(okeys, k@, p as int),
                    decreases out.len() - p,
                {
                    p = p + 1;
                }
                assert(insert_pos_from(okeys, k@, 0) == p);
                if p < out.len() && out[p].key == k {
                    out.set(p, JsonMember { key: k, value: child });
                    assert(key_views(out@) =~= okeys);
                    assert(value_views(out@) =~= ovals.update(p as int, normalize(vs[i as int])));
                } else {
                    out.insert(p, JsonMember { key: k, value: child });
                    assert(key_views(out@) =~= okeys.insert(p as int, ks[i as int]));
                    assert(value_views(out@) =~= ovals.insert(p as int, normalize(vs[i as int])));
                }
                i = i + 1;
            }
            proof {
                lemma_object_view(out);
                lemma_object_view(*members);
            }
            JsonValue::Object(out)
        },
        JsonValue::Null => JsonValue::Null,
        JsonValue::Bool(b) => JsonValue::Bool(*b),
        JsonValue::Number(n) => JsonValue::Number(n.clone()),
        JsonValue::String(t) => JsonValue::String(t.clone()),
    }
}


/// Whether two values are the same document.
#[verifier::loop_isolation(false)]
pub fn json_equal(a: &JsonValue, b: &JsonValue) -> (r: bool)
    ensures
        r == (a@ == b@),
    decreases a,
{
    match (a, b) {
        (JsonValue::Null, JsonValue::Null) => true,
        (JsonValue::Bool(x), JsonValue::Bool(y)) => *x == *y,
        (JsonValue::Number(x), JsonValue::Number(y)) => *x == *y,
        (JsonValue::String(x), JsonValue::String(y)) => *x == *y,
        (JsonValue::Array(xs), JsonValue::Array(ys)) => {
            proof {
                lemma_array_view(*xs);
                lemma_array_view(*ys);
            }
            if xs.len() != ys.len() {
                assert(item_views(xs@).len() != item_views(ys@).len());
                return false;
            }
            let mut i: usize = 0;
            while i < xs.len()
                invariant
                    i <= xs.len(),
                    xs.len() == ys.len(),
                    forall|k: int| 0 <= k < i ==> item_views(xs@)[k] == item_views(ys@)[k],
                decreases xs.len() - i,
            {
                proof {
                    let ghost whole = *a;
                    assert(decreases_to!(whole => whole->Array_0));
                    assert(decreases_to!(whole->Array_0 => whole->Array_0@));
                    assert(decreases_to!(whole->Array_0@ => whole->Array_0@[i as int]));
                }
                if !json_equal(&xs[i], &ys[i]) {
                    assert(item_views(xs@)[i as int] != item_views(ys@)[i as int]);
                    return false;
                }
                i = i + 1;
            }
            assert(item_views(xs@) =~= item_views(ys@));
            true
        },
        (JsonValue::Object(xs), JsonValue::Object(ys)) => {
            proof {
                lemma_object_view(*xs);
                lemma_object_view(*ys);
            }
            if xs.len() != ys.len() {
                assert(key_views(xs@).len() != key_views(ys@).len());
                return false;
            }
            let mut i: usize = 0;
            while i < xs.len()
                invariant
                    i <= xs.len(),
                    xs.len() == ys.len(),
                    forall|k: int| 0 <= k < i ==> key_views(xs@)[k] == key_views(ys@)[k],
                    forall|k: int| 0 <= k < i ==> value_views(xs@)[k] == value_views(ys@)[k],
                decreases xs.len() - i,
            {
                proof {
                    let ghost whole = *a;
                    assert(decreases_to!(whole => whole->Object_0));
                    assert(decreases_to!(whole->Object_0 => whole->Object_0@));
                    assert(decreases_to!(whole->Object_0@ => whole->Object_0@[i as int]));
                    assert(decreases_to!(whole->Object_0@[i as int] => whole->Object_0@[i as int].value));
                }
                if xs[i].key != ys[i].key {
                    assert(key_views(xs@)[i as int] != key_views(ys@)[i as int]);
                    return false;
                }
                if !json_equal(&xs[i].value, &ys[i].value) {
                    assert(value_views(xs@)[i as int] != value_views(ys@)[i as int]);
                    return false;
                }
                i = i + 1;
            }
            assert(key_views(xs@) =~= key_views(ys@));
            assert(value_views(xs@) =~= value_views(ys@));
            true
        },
        _ => {
            proof {
                match a {
                    JsonValue::Array(xs) => lemma_array_view(*xs),
                    JsonValue::Object(xs) => lemma_object_view(*xs),
                    _ => {},
                }
                match b {
                    JsonValue::Array(ys) => lemma_array_view(*ys),
                    JsonValue::Object(ys) => lemma_object_view(*ys),
                    _ => {},
                }
            }
            false
        },
    }
}

} // verus!
