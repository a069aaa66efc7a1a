//! The compute side of the request/response cycle.

use crate::decode::current_condition_text;
use crate::decode::current_feels_text;
use crate::decode::current_temp_text;
use crate::decode::decodable_body;
use crate::decode::decode_error_text;
use crate::decode::decode_fields;
use crate::decode::json_body_parses;
use crate::decode::json_parse_error;
use crate::decode::read_current_fields;
use crate::errors::OperationError;
use crate::temperature::temp_text;
use crate::report::format_report;
use crate::report::report_text;
use crate::report::WeatherReading;
use vstd::prelude::*;

verus! {

/// Turns the outcome of the HTTP fetch into the final report or an error.
///
/// A transport failure is passed through unchanged as a `Transport` error
/// carrying the client's message; no decoding is attempted. A fetched body
/// that is not JSON is a transport-level failure too, as the HTTP client
/// reports such bodies, carrying the parser's message. A body that parses
/// decodes exactly when its `current` fields are all there and well-typed:
/// then the result is the report, for this location, of the reading those
/// fields denote; otherwise it is the `Decode` error naming the first
/// thing missing.
pub fn summarize(location: &str, fetch: Result<String, String>) -> (r: Result<
    String,
    OperationError,
>)
    ensures
        fetch matches Err(m) ==> r == Err::<String, OperationError>(OperationError::Transport(m)),
        fetch matches Ok(b) ==> !json_body_parses(b@) ==> ({
            &&& r matches Err(e)
            &&& e matches OperationError::Transport(m)
            &&& m@ == json_parse_error(b@)
        }),
        fetch matches Ok(b) ==> json_body_parses(b@) ==> (r is Ok <==> decodable_body(b@)),
        fetch matches Ok(b) ==> json_body_parses(b@) && decodable_body(b@) ==> ({
            &&& r matches Ok(msg)
            &&& exists|w: WeatherReading|
                {
                    &&& w.wf()
                    &&& temp_text(w.temperature_celsius) == current_temp_text(b@).unwrap()
                    &&& temp_text(w.feels_like_celsius) == current_feels_text(b@).unwrap()
                    &&& w.condition.text@ == current_condition_text(b@).unwrap()
                    &&& msg@ == report_text(location@, w)
                }
        }),
        fetch matches Ok(b) ==> json_body_parses(b@) && !decodable_body(b@) ==> ({
            &&& r matches Err(e)
            &&& e matches OperationError::Decode(m)
            &&& m@ == decode_error_text(b@)
        }),
{
    let body = match fetch {
        Err(m) => {
            return Err(OperationError::Transport(m));
        },
        Ok(b) => b,
    };
    let raw = match read_current_fields(body.as_str()) {
        Err(m) => {
            return Err(OperationError::Transport(m));
        },
        Ok(raw) => raw,
    };
    let reading = match decode_fields(raw) {
        Err(e) => {
            return Err(e);
        },
        Ok(w) => w,
    };
    let msg = format_report(location, &reading);
    proof {
        assert(reading.wf() && msg@ == report_text(location@, reading));
    }
    Ok(msg)
}

} // verus!
