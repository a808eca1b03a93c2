//! The weather service: the request for a place, and the report in its
//! answer.

use vstd::prelude::*;
use vstd::string::*;
use crate::binary64::Binary64;
use crate::decimal::{decimal, decimal_string};
use crate::error::MyError;
use crate::json::{element, json_of, member, required_number, required_text, Json};

verus! {

/// The weather at a place: a few words, and the temperature in degrees
/// Celsius.
#[derive(Debug, Clone, PartialEq, Eq)]
pub struct WeatherReport {
    pub description: String,
    pub temperature: Binary64,
}

/// The request for the weather at whole degrees `lat` and `lon`: the query is
/// put directly behind `api_url`, which brings its own `?` or `&`.
pub open spec fn weather_url_text(
    api_url: Seq<char>,
    lat: nat,
    lon: nat,
    api_key: Seq<char>,
) -> Seq<char> {
    api_url + "lat="@ + decimal(lat) + "&lon="@ + decimal(lon) + "&appid="@ + api_key
        + "&units=metric&exclude=hourly,daily"@
}

/// Builds the URL that asks the weather service for the current weather.
pub fn weather_url(api_url: &str, lat: u32, lon: u32, api_key: &str) -> (url: String)
    ensures
        url@ == weather_url_text(api_url@, lat as nat, lon as nat, api_key@),
{
    let mut url = String::from_str(api_url);
    url.append("lat=");
    url.append(decimal_string(lat as u64).as_str());
    url.append("&lon=");
    url.append(decimal_string(lon as u64).as_str());
    url.append("&appid=");
    url.append(api_key);
    url.append("&units=metric&exclude=hourly,daily");
    url
}

/// The words for the current weather in an answer, if it has them.
pub open spec fn description(answer: Json) -> Option<Seq<char>> {
    answer.member("current"@).member("weather"@).element(0).member("description"@).text()
}

/// The current temperature in an answer, if it has one.
pub open spec fn temperature(answer: Json) -> Option<Binary64> {
    answer.member("current"@).member("temp"@).number()
}

/// What the error says where an answer has no words for the weather.
pub const DESCRIPTION_MISSING: &'static str = "Weather description is missing or not a string";

/// What the error says where an answer has the words and no temperature.
pub const TEMPERATURE_MISSING: &'static str = "Temperature is missing or not a float";

/// What `weather_report` returns on an answer: the report where both parts
/// are there, else the error for the first that is not, the words before the
/// temperature.
pub open spec fn reads_report(answer: Json, outcome: Result<WeatherReport, MyError>) -> bool {
    match (description(answer), temperature(answer)) {
        (Some(words), Some(degrees)) => outcome matches Ok(report) && report.description@ == words
            && report.temperature == degrees,
        (None, _) => outcome matches Err(MyError::MissingField(text)) && text@
            == DESCRIPTION_MISSING@,
        (Some(_), None) => outcome matches Err(MyError::MissingField(text)) && text@
            == TEMPERATURE_MISSING@,
    }
}

/// An answer whose `weather` is empty, or is no array, has no words for the
/// weather: what is read is the error that says so.
pub proof fn lemma_no_conditions_no_report(answer: Json, outcome: Result<WeatherReport, MyError>)
    requires
        answer.member("current"@).member("weather"@) matches Json::List(found) ==> found.len()
            == 0,
        reads_report(answer, outcome),
    ensures
        outcome matches Err(MyError::MissingField(text)) && text@ == DESCRIPTION_MISSING@,
{
}

/// Reading a report never reports a failed exchange: it gives the report, or
/// says which field is missing.
pub proof fn lemma_reads_or_names_field(answer: Json, outcome: Result<WeatherReport, MyError>)
    requires
        reads_report(answer, outcome),
    ensures
        outcome is Ok <==> description(answer) is Some && temperature(answer) is Some,
        outcome matches Err(error) ==> error is MissingField,
{
}

/// Reads the current weather out of an answer of the weather service.
pub fn weather_report(answer: &serde_json::Value) -> (outcome: Result<WeatherReport, MyError>)
    ensures
        reads_report(json_of(*answer), outcome),
{
    let current = member(answer, "current");
    let first = element(member(current, "weather"), 0);
    let description = required_text(member(first, "description"), DESCRIPTION_MISSING)?;
    let temperature = required_number(member(current, "temp"), TEMPERATURE_MISSING)?;
    Ok(WeatherReport { description, temperature })
}

} // verus!
