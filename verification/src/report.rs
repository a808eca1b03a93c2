//! The lines that are shown for a city: the summary of a lookup that went
//! well, and the line for one that failed.

use vstd::prelude::*;
use vstd::string::*;
use crate::binary64::Binary64;
use crate::fixed::{two_decimal_string, two_decimals};
use crate::geocode::Coordinates;
use crate::weather::WeatherReport;

verus! {

/// The four lines of a summary: the city, the place, the weather in words,
/// and the temperature. Each number has two decimals.
pub open spec fn summary_text(
    city_name: Seq<char>,
    place: Coordinates,
    description: Seq<char>,
    temperature: Binary64,
) -> Seq<char> {
    "City: "@ + city_name + "\nLatitude: "@ + two_decimals(place.lat) + ", Longitude: "@
        + two_decimals(place.lng) + "\nCurrent Weather: "@ + description + "\nTemperature: "@
        + two_decimals(temperature) + "°C"@
}

/// Lays out the summary of a city's weather.
pub fn summary(city_name: &str, place: &Coordinates, report: &WeatherReport) -> (lines: String)
    ensures
        lines@ == summary_text(city_name@, *place, report.description@, report.temperature),
{
    let mut lines = String::from_str("City: ");
    lines.append(city_name);
    lines.append("\nLatitude: ");
    lines.append(two_decimal_string(place.lat).as_str());
    lines.append(", Longitude: ");
    lines.append(two_decimal_string(place.lng).as_str());
    lines.append("\nCurrent Weather: ");
    lines.append(report.description.as_str());
    lines.append("\nTemperature: ");
    lines.append(two_decimal_string(report.temperature).as_str());
    lines.append("°C");
    lines
}

/// The line for a lookup that failed.
pub open spec fn error_text(detail: Seq<char>) -> Seq<char> {
    "Error: "@ + detail
}

/// Lays out the line that reports a failure, from the error written out.
pub fn error_line(detail: &str) -> (line: String)
    ensures
        line@ == error_text(detail@),
{
    let mut line = String::from_str("Error: ");
    line.append(detail);
    line
}

} // verus!
