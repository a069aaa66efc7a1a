//! The weather reading and the report sentence built from it.

use crate::temperature::spec_warning_pair;
use crate::temperature::temp_text;
use crate::temperature::Temperature;
use vstd::prelude::*;
use vstd::string::StringExecFns;

verus! {

/// A human-readable condition phrase, e.g. "Partly cloudy".
pub struct ConditionText {
    pub text: String,
}

/// One decoded weather observation.
pub struct WeatherReading {
    pub temperature_celsius: Temperature,
    pub feels_like_celsius: Temperature,
    pub condition: ConditionText,
}

impl WeatherReading {
    pub open spec fn wf(self) -> bool {
        self.temperature_celsius.wf() && self.feels_like_celsius.wf()
    }
}

/// What `str::to_lowercase` returns for a given text; the result depends on
/// the characters alone.
pub uninterp spec fn lower_of(s: Seq<char>) -> Seq<char>;

/// Relies on `str::to_lowercase` for Unicode-correct case folding of the
/// condition phrase.
#[verifier::external_body]
fn lowercase(s: &str) -> (r: String)
    ensures
        r@ == lower_of(s@),
{
    s.to_lowercase()
}

/// The warning threshold: the report carries its second sentence exactly
/// when the felt temperature differs from the measured one by at least
/// five degrees, the boundary included, decided by exact decimal
/// comparison of the two texts.
pub open spec fn warning_due(r: WeatherReading) -> bool {
    spec_warning_pair(r.temperature_celsius, r.feels_like_celsius)
}

pub open spec fn report_before_condition(location: Seq<char>, r: WeatherReading) -> Seq<char> {
    "The current temperature in "@ + location + " is "@ + temp_text(r.temperature_celsius)
        + "°C and the weather is "@
}

pub open spec fn warning_sentence(r: WeatherReading) -> Seq<char> {
    " But be warned that it feels more like "@ + temp_text(r.feels_like_celsius) + "."@
}

/// The primary sentence: location and temperature interpolated verbatim,
/// the condition phrase lowercased.
pub open spec fn primary_text(location: Seq<char>, r: WeatherReading) -> Seq<char> {
    report_before_condition(location, r) + lower_of(r.condition.text@) + "."@
}

/// The full report for a reading and the location exactly as entered.
pub open spec fn report_text(location: Seq<char>, r: WeatherReading) -> Seq<char> {
    primary_text(location, r) + if warning_due(r) {
        warning_sentence(r)
    } else {
        Seq::<char>::empty()
    }
}

/// The condition phrase enters the report only through `lower_of`: whatever
/// its original casing, the primary sentence shows its lowercased form
/// between the fixed lead-in and the closing full stop.
pub proof fn lemma_condition_lowercased(location: Seq<char>, r: WeatherReading)
    ensures
        primary_text(location, r) == report_before_condition(location, r) + lower_of(
            r.condition.text@,
        ) + "."@,
{
}

/// Casing of the condition never changes the report: two readings with the
/// same temperatures whose condition texts agree once lowercased produce
/// the same report.
pub proof fn lemma_condition_case_irrelevant(
    location: Seq<char>,
    r1: WeatherReading,
    r2: WeatherReading,
)
    requires
        r1.temperature_celsius == r2.temperature_celsius,
        r1.feels_like_celsius == r2.feels_like_celsius,
        lower_of(r1.condition.text@) == lower_of(r2.condition.text@),
    ensures
        report_text(location, r1) == report_text(location, r2),
{
}

/// The warning sentence is appended exactly at and above the five-degree
/// threshold; below it the report is the primary sentence alone.
pub proof fn lemma_warning_threshold(location: Seq<char>, r: WeatherReading)
    ensures
        spec_warning_pair(r.temperature_celsius, r.feels_like_celsius) ==> report_text(location, r)
            == primary_text(location, r) + warning_sentence(r),
        !spec_warning_pair(r.temperature_celsius, r.feels_like_celsius) ==> report_text(
            location,
            r,
        ) == primary_text(location, r),
{
}

/// Decides whether the felt temperature diverges enough for the warning.
pub fn warning_applies(r: &WeatherReading) -> (b: bool)
    requires
        r.wf(),
    ensures
        b == warning_due(*r),
{
    crate::temperature::warning_pair(&r.temperature_celsius, &r.feels_like_celsius)
}

/// Builds the report: the primary sentence always, the warning sentence
/// exactly when the threshold is met.
pub fn format_report(location: &str, reading: &WeatherReading) -> (r: String)
    requires
        reading.wf(),
    ensures
        r@ == report_text(location@, *reading),
{
    let mut m = String::new();
    m.append("The current temperature in ");
    m.append(location);
    m.append(" is ");
    let ts = crate::temperature::render_temperature(&reading.temperature_celsius);
    m.append(ts.as_str());
    m.append("°C and the weather is ");
    let low = lowercase(reading.condition.text.as_str());
    m.append(low.as_str());
    m.append(".");
    if warning_applies(reading) {
        m.append(" But be warned that it feels more like ");
        let fs = crate::temperature::render_temperature(&reading.feels_like_celsius);
        m.append(fs.as_str());
        m.append(".");
    }
    proof {
        assert(m@ =~= report_text(location@, *reading));
    }
    m
}

} // verus!
