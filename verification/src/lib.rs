//! Looking up the current weather of a city.
//!
//! A lookup asks a geocoding service where the city lies, and then a weather
//! service what the weather is there. This library holds everything in it
//! that is computed: the two request URLs, what is read out of the two JSON
//! answers, which step follows which, and the lines that are shown in the
//! end. Sending a request and printing a line are left to the caller.
//!
//! Floating-point numbers are carried by their IEEE 754 bit patterns, as
//! [`binary64::Binary64`], and all arithmetic on them is done on whole
//! numbers.

pub mod binary64;
pub mod decimal;
pub mod driver;
pub mod error;
pub mod fixed;
pub mod geocode;
pub mod json;
pub mod report;
pub mod weather;
