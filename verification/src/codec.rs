//! Base64 and JSON: the two notations in which the page takes and gives its data.

use base64::engine::general_purpose::STANDARD;
use base64::Engine;
use vstd::prelude::*;

verus! {

/// Why a text is not base64.
#[verifier::external_type_specification]
#[verifier::external_body]
pub struct ExDecodeError(base64::DecodeError);

/// Why a text is not the JSON that was asked for.
#[verifier::external_type_specification]
#[verifier::external_body]
pub struct ExJsonError(serde_json::Error);

/// The standard base64 notation of `bytes`, with padding.
pub uninterp spec fn base64_text(bytes: Seq<u8>) -> Seq<char>;

/// The bytes of which `text` is the standard base64 notation.
pub uninterp spec fn base64_bytes(text: Seq<char>) -> Option<Seq<u8>>;

/// The text that a JSON document holds which is nothing but a string.
pub uninterp spec fn json_string(json: Seq<char>) -> Option<Seq<char>>;

/// `c` belongs to the standard base64 notation.
pub open spec fn is_base64_char(c: char) -> bool {
    ||| 'A' <= c <= 'Z'
    ||| 'a' <= c <= 'z'
    ||| '0' <= c <= '9'
    ||| c == '+'
    ||| c == '/'
    ||| c == '='
}

/// The base64 notation of `len` bytes fits in memory: four characters for each three bytes.
pub open spec fn encodable(len: nat) -> bool {
    (len + 2) / 3 * 4 <= isize::MAX
}

/// `json` is a string in JSON notation in which no character is written as an escape.
pub open spec fn is_plain_json_string(json: Seq<char>) -> bool {
    &&& json.len() >= 2
    &&& json[0] == '"'
    &&& json.last() == '"'
    &&& forall|i: int|
        1 <= i < json.len() - 1 ==> #[trigger] json[i] != '"' && json[i] != '\\' && json[i] as int
            >= 32
}

/// `json` is empty, or begins with neither a quotation mark nor white space.
pub open spec fn begins_no_string(json: Seq<char>) -> bool {
    json.len() == 0 || (json[0] != '"' && json[0] as int > 32)
}

/// Calls `Engine::encode` of base64 with the engine `STANDARD`: the standard alphabet with
/// padding. The result depends on the bytes alone, is made of the alphabet and `=`, and is
/// what `Engine::decode` of the same engine takes back to the bytes. The call needs the
/// notation to fit in one allocation.
#[verifier::external_body]
fn standard_encode(bytes: &Vec<u8>) -> (text: String)
    requires
        encodable(bytes@.len()),
    ensures
        text@ == base64_text(bytes@),
        base64_bytes(text@) == Some(bytes@),
        forall|i: int| 0 <= i < text@.len() ==> is_base64_char(#[trigger] text@[i]),
{
    STANDARD.encode(bytes.as_slice())
}

/// Calls `Engine::decode` of base64 with the engine `STANDARD` on the bytes of a text. Whether
/// it succeeds, and with which bytes, depends on the text alone.
#[verifier::external_body]
fn standard_decode(text: &str) -> (r: Result<Vec<u8>, base64::DecodeError>)
    ensures
        base64_bytes(text@) == (match r {
            Ok(bytes) => Some(bytes@),
            Err(_) => None,
        }),
{
    STANDARD.decode(text.as_bytes())
}

/// Calls `serde_json::from_str` for a `String`: it succeeds where the whole text is one JSON
/// string, and gives what that string holds. A string without escapes holds what stands
/// between its quotation marks; a text that begins with anything but a quotation mark or white
/// space is no string.
#[verifier::external_body]
fn parse_string(json: &str) -> (r: Result<String, serde_json::Error>)
    ensures
        json_string(json@) == (match r {
            Ok(text) => Some(text@),
            Err(_) => None,
        }),
        is_plain_json_string(json@) ==> r is Ok && r->Ok_0@ == json@.subrange(
            1,
            json@.len() - 1,
        ),
        begins_no_string(json@) ==> r is Err,
{
    serde_json::from_str::<String>(json)
}

/// The base64 notation of an image. It reads back as the same bytes, and holds no character
/// that could end a quoted text of a script.
pub fn encode_image(raw: &Vec<u8>) -> (text: String)
    requires
        encodable(raw@.len()),
    ensures
        text@ == base64_text(raw@),
        base64_bytes(text@) == Some(raw@),
        forall|i: int| 0 <= i < text@.len() ==> is_base64_char(#[trigger] text@[i]),
{
    standard_encode(raw)
}

/// The image in base64 notation, or `None` where the text is not base64.
pub fn decode_image(text: &str) -> (r: Option<Vec<u8>>)
    ensures
        base64_bytes(text@) == (match r {
            Some(bytes) => Some(bytes@),
            None => None,
        }),
{
    match standard_decode(text) {
        Ok(bytes) => Some(bytes),
        Err(_) => None,
    }
}

/// The text that stands for the value of a script: what a string holds, the JSON notation of
/// anything else, and nothing for no value. `parsed` is what a JSON string holds.
pub open spec fn value_text(parsed: Option<Seq<char>>, json: Option<Seq<char>>) -> Seq<char> {
    match json {
        Some(j) => match parsed {
            Some(s) => s,
            None => j,
        },
        None => Seq::empty(),
    }
}

/// The text of a value whose JSON notation is `json`, with the outcome of reading it as a
/// string.
pub fn string_or_json(parsed: Option<String>, json: &str) -> (s: String)
    ensures
        s@ == value_text(
            match parsed {
                Some(p) => Some(p@),
                None => None,
            },
            Some(json@),
        ),
{
    match parsed {
        Some(text) => text,
        None => json.to_owned(),
    }
}

/// What a JSON document holds which is nothing but a string: what stands between the quotation
/// marks, unless there are escapes to read.
pub open spec fn string_held(json: Seq<char>) -> Option<Seq<char>> {
    if is_plain_json_string(json) {
        Some(json.subrange(1, json.len() - 1))
    } else if begins_no_string(json) {
        None
    } else {
        json_string(json)
    }
}

/// The text of a script's value, by the value's JSON notation.
pub open spec fn evaluated_text(json: Option<Seq<char>>) -> Seq<char> {
    value_text(
        match json {
            Some(j) => string_held(j),
            None => None,
        },
        json,
    )
}

/// The text that stands for the value of a script, which comes in JSON notation.
pub fn eval_str(json: &Option<String>) -> (s: String)
    ensures
        s@ == evaluated_text(
            match json {
                Some(j) => Some(j@),
                None => None,
            },
        ),
{
    match json {
        Some(j) => match parse_string(j.as_str()) {
            Ok(text) => string_or_json(Some(text), j.as_str()),
            Err(_) => string_or_json(None, j.as_str()),
        },
        None => String::new(),
    }
}

} // verus!
