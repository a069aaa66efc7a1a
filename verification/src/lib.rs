//! A small weather-report library: builds the query URL for the upstream
//! weather service, decodes the JSON it answers with into a typed reading,
//! and formats the one- or two-sentence summary. Temperatures keep their
//! decimal text verbatim, and the warning threshold is decided by exact
//! decimal arithmetic on the digits; the JSON handling itself is
//! `serde_json`'s, behind a trusted wrapper.

pub mod decode;
pub mod errors;
pub mod pipeline;
pub mod report;
pub mod request;
pub mod temperature;
