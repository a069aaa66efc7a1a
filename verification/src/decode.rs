//! Decoding the JSON response body into a typed weather reading.
//!
//! The JSON itself is handled by `serde_json` behind one trusted wrapper.
//! What that wrapper yields is a function of the body text alone, so each
//! of its results carries a name that the contracts downstream speak of:
//! whether the body parses, and the payloads found under the `current`
//! object. The numeric payloads are handed over as their default-formatted
//! decimal text, which the verified parser in `temperature` checks and
//! keeps verbatim.

use crate::errors::OperationError;
use crate::report::ConditionText;
use crate::report::WeatherReading;
use crate::temperature::is_decimal_text;
use crate::temperature::parse_temperature;
use crate::temperature::temp_text;
use crate::temperature::MAX_NUMBER_LEN;
use vstd::prelude::*;

verus! {

/// Whether `serde_json::from_str::<Value>` accepts the body as a complete
/// JSON document; a function of the text alone.
pub uninterp spec fn json_body_parses(body: Seq<char>) -> bool;

/// The message `serde_json` reports for a body it does not accept.
pub uninterp spec fn json_parse_error(body: Seq<char>) -> Seq<char>;

/// Whether the parsed body is an object with a `current` key.
pub uninterp spec fn current_present(body: Seq<char>) -> bool;

/// The default-formatted text of the number at `current.temp_c`, when the
/// body parses and that path holds a number; `None` otherwise.
pub uninterp spec fn current_temp_text(body: Seq<char>) -> Option<Seq<char>>;

/// The default-formatted text of the number at `current.feelslike_c`, when
/// the body parses and that path holds a number; `None` otherwise.
pub uninterp spec fn current_feels_text(body: Seq<char>) -> Option<Seq<char>>;

/// The string at `current.condition.text`, when the body parses and that
/// path holds a string; `None` otherwise.
pub uninterp spec fn current_condition_text(body: Seq<char>) -> Option<Seq<char>>;

/// The payloads a response body yields for the `current` object, each
/// `None` when the body lacks the field or holds it with the wrong type.
pub struct RawCurrent {
    pub current_present: bool,
    pub temp_text: Option<String>,
    pub feels_text: Option<String>,
    pub condition_text: Option<String>,
}

pub open spec fn opt_view(o: Option<String>) -> Option<Seq<char>> {
    match o {
        Some(s) => Some(s@),
        None => None,
    }
}

/// Relies on `serde_json::from_str::<Value>`, `Value::get`, `Value::as_f64`
/// and `Value::as_str`, composed over the body text. Whether the body
/// parses, the parse failure's message (its `Error`'s `Display` text), and
/// the field payloads under `current` are all functions of the text alone;
/// the names above stand for them. A numeric payload is handed over as the
/// text Rust's default formatting writes for its `f64` value.
#[verifier::external_body]
pub(crate) fn read_current_fields(body: &str) -> (r: Result<RawCurrent, String>)
    ensures
        r is Ok <==> json_body_parses(body@),
        r matches Err(m) ==> m@ == json_parse_error(body@),
        r matches Ok(raw) ==> raw.current_present == current_present(body@) && opt_view(
            raw.temp_text,
        ) == current_temp_text(body@) && opt_view(raw.feels_text) == current_feels_text(body@)
            && opt_view(raw.condition_text) == current_condition_text(body@),
{
    let v: serde_json::Value = serde_json::from_str(body).map_err(|e| format!("{}", e))?;
    let cur = v.get("current");
    let (mut t, mut f, mut c) = (None, None, None);
    if let Some(cur) = cur {
        t = cur.get("temp_c").and_then(serde_json::Value::as_f64).map(|x| format!("{}", x));
        f = cur.get("feelslike_c").and_then(serde_json::Value::as_f64).map(|x| format!("{}", x));
        c = cur.get("condition").and_then(|k| k.get("text")).and_then(|s| s.as_str()).map(str::to_owned);
    }
    Ok(RawCurrent { current_present: cur.is_some(), temp_text: t, feels_text: f, condition_text: c })
}

/// A numeric field text the decoder accepts: the decimal shape Rust's
/// float formatting writes, within the machine limit on its length.
pub open spec fn accepted_number_text(s: Seq<char>) -> bool {
    is_decimal_text(s) && s.len() <= MAX_NUMBER_LEN as int
}

pub open spec fn field_number_ok(o: Option<Seq<char>>) -> bool {
    o matches Some(s) && accepted_number_text(s)
}

/// A reading can be built exactly when both temperature texts are present
/// and of numeric shape, and the condition text is present.
pub open spec fn fields_decodable(
    t: Option<Seq<char>>,
    f: Option<Seq<char>>,
    c: Option<Seq<char>>,
) -> bool {
    field_number_ok(t) && field_number_ok(f) && c is Some
}

/// A response body decodes into a reading exactly when it parses to an
/// object whose `current` fields are all present and well-typed.
pub open spec fn decodable_body(body: Seq<char>) -> bool {
    current_present(body) && fields_decodable(
        current_temp_text(body),
        current_feels_text(body),
        current_condition_text(body),
    )
}

/// The decode failure's message for a parsed body: the `current` object
/// itself, or the first of its fields in `temp_c`, `feelslike_c`,
/// `condition.text` order, that is missing or malformed.
pub open spec fn decode_error_text(body: Seq<char>) -> Seq<char> {
    if !current_present(body) {
        "missing field `current`"@
    } else if !field_number_ok(current_temp_text(body)) {
        "missing or malformed field `current.temp_c`"@
    } else if !field_number_ok(current_feels_text(body)) {
        "missing or malformed field `current.feelslike_c`"@
    } else {
        "missing or malformed field `current.condition.text`"@
    }
}

/// Assembles a reading from the extracted field payloads: the two numeric
/// texts and the condition text. Fails with a `Decode` error whose message
/// names the first field in `temp_c`, `feelslike_c`, `condition.text`
/// order that is missing or malformed.
pub fn build_reading(
    temp_repr: Option<String>,
    feels_repr: Option<String>,
    condition_text: Option<String>,
) -> (r: Result<WeatherReading, OperationError>)
    ensures
        r is Ok <==> fields_decodable(
            opt_view(temp_repr),
            opt_view(feels_repr),
            opt_view(condition_text),
        ),
        r matches Ok(w) ==> w.wf() && temp_text(w.temperature_celsius) == temp_repr.unwrap()@
            && temp_text(w.feels_like_celsius) == feels_repr.unwrap()@ && w.condition.text@
            == condition_text.unwrap()@,
        r matches Err(e) ==> e matches OperationError::Decode(m) && m@ == (if !field_number_ok(
            opt_view(temp_repr),
        ) {
            "missing or malformed field `current.temp_c`"@
        } else if !field_number_ok(opt_view(feels_repr)) {
            "missing or malformed field `current.feelslike_c`"@
        } else {
            "missing or malformed field `current.condition.text`"@
        }),
{
    let temperature_celsius = match temp_repr {
        Some(s) => match parse_temperature(s.as_str()) {
            Some(t) => t,
            None => {
                return Err(
                    OperationError::Decode("missing or malformed field `current.temp_c`".to_owned()),
                );
            },
        },
        None => {
            return Err(
                OperationError::Decode("missing or malformed field `current.temp_c`".to_owned()),
            );
        },
    };
    let feels_like_celsius = match feels_repr {
        Some(s) => match parse_temperature(s.as_str()) {
            Some(t) => t,
            None => {
                return Err(
                    OperationError::Decode(
                        "missing or malformed field `current.feelslike_c`".to_owned(),
                    ),
                );
            },
        },
        None => {
            return Err(
                OperationError::Decode(
                    "missing or malformed field `current.feelslike_c`".to_owned(),
                ),
            );
        },
    };
    let text = match condition_text {
        Some(c) => c,
        None => {
            return Err(
                OperationError::Decode(
                    "missing or malformed field `current.condition.text`".to_owned(),
                ),
            );
        },
    };
    Ok(
        WeatherReading {
            temperature_celsius,
            feels_like_celsius,
            condition: ConditionText { text },
        },
    )
}

/// Decodes the extracted payloads of a parsed body: succeeds exactly when
/// the `current` object and all three of its fields are there and
/// well-typed, with every field of the reading pinned; fails with the
/// `Decode` error whose message names the first thing missing.
pub fn decode_fields(raw: RawCurrent) -> (r: Result<WeatherReading, OperationError>)
    ensures
        r is Ok <==> raw.current_present && fields_decodable(
            opt_view(raw.temp_text),
            opt_view(raw.feels_text),
            opt_view(raw.condition_text),
        ),
        r matches Ok(w) ==> w.wf() && temp_text(w.temperature_celsius) == raw.temp_text.unwrap()@
            && temp_text(w.feels_like_celsius) == raw.feels_text.unwrap()@ && w.condition.text@
            == raw.condition_text.unwrap()@,
        r matches Err(e) ==> e matches OperationError::Decode(m) && m@ == (if !raw.current_present {
            "missing field `current`"@
        } else if !field_number_ok(opt_view(raw.temp_text)) {
            "missing or malformed field `current.temp_c`"@
        } else if !field_number_ok(opt_view(raw.feels_text)) {
            "missing or malformed field `current.feelslike_c`"@
        } else {
            "missing or malformed field `current.condition.text`"@
        }),
{
    if !raw.current_present {
        return Err(OperationError::Decode("missing field `current`".to_owned()));
    }
    build_reading(raw.temp_text, raw.feels_text, raw.condition_text)
}

} // verus!
