//! Building the query URL for the upstream weather service.

use vstd::prelude::*;
use vstd::string::StringExecFns;

verus! {

/// The exact URL obtained by substituting the API key and the raw location
/// string into the fixed request template. The location is inserted verbatim:
/// no percent-encoding or trimming is applied.
pub open spec fn spec_url(key: Seq<char>, location: Seq<char>) -> Seq<char> {
    "http://api.weatherapi.com/v1/current.json?key="@ + key + "&q="@ + location
}

/// Builds the request URL from the API key and the location exactly as the
/// user entered it (including any trailing newline).
pub fn build_url(api_key: &str, location: &str) -> (url: String)
    ensures
        url@ == spec_url(api_key@, location@),
{
    let mut url = String::new();
    url.append("http://api.weatherapi.com/v1/current.json?key=");
    url.append(api_key);
    url.append("&q=");
    url.append(location);
    proof {
        assert(url@ =~= spec_url(api_key@, location@));
    }
    url
}

} // verus!
