//! The geocoding service: the request for a city, and the coordinates in its
//! answer.

use vstd::prelude::*;
use vstd::string::*;
use crate::binary64::Binary64;
use crate::error::MyError;
use crate::json::{element, json_of, member, required_number, Json};

verus! {

/// A place on the globe, in degrees.
#[derive(Debug, Clone, Copy, PartialEq, Eq)]
pub struct Coordinates {
    pub lat: Binary64,
    pub lng: Binary64,
}

impl Coordinates {
    /// Both numbers cut down to whole degrees, as the weather service is
    /// asked for them.
    pub fn truncated(&self) -> (degrees: (u32, u32))
        ensures
            degrees.0 == self.lat.truncation(),
            degrees.1 == self.lng.truncation(),
    {
        (self.lat.truncate(), self.lng.truncate())
    }
}

/// The bytes that a query value holds as they are: ASCII letters, digits,
/// `-`, `.`, `_` and `~`.
pub open spec fn is_unreserved(b: u8) -> bool {
    ||| 0x30 <= b <= 0x39
    ||| 0x41 <= b <= 0x5a
    ||| 0x61 <= b <= 0x7a
    ||| b == 0x2d
    ||| b == 0x2e
    ||| b == 0x5f
    ||| b == 0x7e
}

/// The sixteen hexadecimal digits, upper case, in order.
pub open spec fn hex_digits() -> Seq<char> {
    seq!['0', '1', '2', '3', '4', '5', '6', '7', '8', '9', 'A', 'B', 'C', 'D', 'E', 'F']
}

/// A byte of a query value: itself where it is an ASCII letter, a digit,
/// `-`, `_`, `.` or `~`; else `%` and its two hexadecimal digits, upper case.
pub open spec fn escaped_byte(b: u8) -> Seq<char> {
    if is_unreserved(b) {
        seq![b as char]
    } else {
        seq!['%', hex_digits()[b as int / 16], hex_digits()[b as int % 16]]
    }
}

/// The bytes of a query value, each escaped, in order.
pub open spec fn escaped(bytes: Seq<u8>) -> Seq<char>
    decreases bytes.len(),
{
    if bytes.len() == 0 {
        Seq::<char>::empty()
    } else {
        escaped(bytes.drop_last()) + escaped_byte(bytes.last())
    }
}

/// A character that escaped text is made of: what stays as it is, and what
/// an escape is written with.
pub open spec fn is_plain(c: char) -> bool {
    ||| '0' <= c <= '9'
    ||| 'A' <= c <= 'Z'
    ||| 'a' <= c <= 'z'
    ||| c == '-'
    ||| c == '.'
    ||| c == '_'
    ||| c == '~'
    ||| c == '%'
}

/// Escaped text holds nothing that divides a URL: no `&`, `=`, `#`, `?`, `/`
/// or blank, whatever the value held.
pub proof fn lemma_escaped_is_plain(bytes: Seq<u8>)
    ensures
        forall|i: int| 0 <= i < escaped(bytes).len() ==> is_plain(#[trigger] escaped(bytes)[i]),
    decreases bytes.len(),
{
    if bytes.len() > 0 {
        lemma_escaped_is_plain(bytes.drop_last());
        let b = bytes.last();
        let one = escaped_byte(b);
        assert forall|k: int| 0 <= k < one.len() implies is_plain(#[trigger] one[k]) by {
            if is_unreserved(b) {
                assert(one[k] == b as char);
            } else {
                assert(0 <= b as int / 16 < 16 && 0 <= b as int % 16 < 16);
            }
        }
        let front = escaped(bytes.drop_last());
        let all = escaped(bytes);
        assert forall|i: int| 0 <= i < all.len() implies is_plain(#[trigger] all[i]) by {
            if i < front.len() {
                assert(all[i] == front[i]);
            } else {
                assert(all[i] == one[i - front.len()]);
            }
        }
    }
}

/// Escaping keeps a value made of letters and digits as it is.
pub proof fn lemma_escaped_keeps_unreserved(bytes: Seq<u8>)
    requires
        forall|i: int| 0 <= i < bytes.len() ==> is_unreserved(#[trigger] bytes[i]),
    ensures
        escaped(bytes) =~= Seq::new(bytes.len(), |i: int| bytes[i] as char),
    decreases bytes.len(),
{
    if bytes.len() > 0 {
        let front = bytes.drop_last();
        assert forall|i: int| 0 <= i < front.len() implies is_unreserved(#[trigger] front[i]) by {
            assert(front[i] == bytes[i]);
        }
        lemma_escaped_keeps_unreserved(front);
    }
}

/// The text of one escaped byte.
fn escaped_byte_text(b: u8) -> (text: String)
    ensures
        text@ == escaped_byte(b),
{
    // Every character that escaped text is made of but `%`; the first
    // sixteen are the hexadecimal digits.
    let plain = "0123456789ABCDEFGHIJKLMNOPQRSTUVWXYZabcdefghijklmnopqrstuvwxyz-._~";
    proof {
        reveal_strlit("0123456789ABCDEFGHIJKLMNOPQRSTUVWXYZabcdefghijklmnopqrstuvwxyz-._~");
        reveal_strlit("%");
    }
    if 0x30 <= b && b <= 0x39 || 0x41 <= b && b <= 0x5a || 0x61 <= b && b <= 0x7a || b == 0x2d
        || b == 0x2e || b == 0x5f || b == 0x7e {
        let at: usize = if b == 0x2d {
            62
        } else if b == 0x2e {
            63
        } else if b == 0x5f {
            64
        } else if b == 0x7e {
            65
        } else if b <= 0x39 {
            (b - 0x30) as usize
        } else if b <= 0x5a {
            (b - 0x41) as usize + 10
        } else {
            (b - 0x61) as usize + 36
        };
        let text = String::from_str(plain.substring_char(at, at + 1));
        assert(plain@[at as int] == b as char);
        assert(text@ =~= escaped_byte(b));
        text
    } else {
        let mut text = String::from_str("%");
        let high = (b / 16) as usize;
        let low = (b % 16) as usize;
        text.append(plain.substring_char(high, high + 1));
        text.append(plain.substring_char(low, low + 1));
        assert(plain@[high as int] == hex_digits()[high as int]);
        assert(plain@[low as int] == hex_digits()[low as int]);
        assert(text@ =~= escaped_byte(b));
        text
    }
}

/// Where the geocoding service is asked, up to the city's name.
pub const GEOCODING_ENDPOINT: &'static str =
    "https://maps.googleapis.com/maps/api/geocode/json?address=";

/// Builds the URL that asks the geocoding service for a city: the endpoint,
/// the city's name with every byte of its UTF-8 form escaped, and the key as
/// it is.
pub fn geocoding_url(city_name: &str, api_key: &str) -> (url: String)
    ensures
        url@ == GEOCODING_ENDPOINT@ + escaped(city_name.spec_bytes()) + "&key="@ + api_key@,
{
    let bytes = city_name.as_bytes_vec();
    let mut url = String::from_str(GEOCODING_ENDPOINT);
    let mut i: usize = 0;
    while i < bytes.len()
        invariant
            i <= bytes.len(),
            url@ == GEOCODING_ENDPOINT@ + escaped(bytes@.subrange(0, i as int)),
        decreases bytes.len() - i,
    {
        let piece = escaped_byte_text(bytes[i]);
        proof {
            let old_part = bytes@.subrange(0, i as int);
            let new_part = bytes@.subrange(0, i + 1);
            assert(new_part.drop_last() =~= old_part);
            assert(new_part.last() == bytes[i as int]);
        }
        url.append(piece.as_str());
        i += 1;
    }
    proof {
        assert(bytes@.subrange(0, i as int) =~= bytes@);
    }
    url.append("&key=");
    url.append(api_key);
    url
}

/// What the error says where an answer has no latitude.
pub const LATITUDE_MISSING: &'static str = "Latitude is missing or not a float";

/// What the error says where an answer has a latitude and no longitude.
pub const LONGITUDE_MISSING: &'static str = "Longitude is missing or not a float";

/// The first result's location in a geocoding answer: `Null` where the
/// answer has no results, or lacks a step on the way.
pub open spec fn location(answer: Json) -> Json {
    answer.member("results"@).element(0).member("geometry"@).member("location"@)
}

/// The latitude in a geocoding answer, if it has one.
pub open spec fn latitude(answer: Json) -> Option<Binary64> {
    location(answer).member("lat"@).number()
}

/// The longitude in a geocoding answer, if it has one.
pub open spec fn longitude(answer: Json) -> Option<Binary64> {
    location(answer).member("lng"@).number()
}

/// What `coordinates` returns on an answer: the pair where both numbers are
/// there, else the error for the first that is not, latitude before
/// longitude.
pub open spec fn resolves_to(answer: Json, outcome: Result<Coordinates, MyError>) -> bool {
    match (latitude(answer), longitude(answer)) {
        (Some(lat), Some(lng)) => outcome == Ok::<Coordinates, MyError>(Coordinates { lat, lng }),
        (None, _) => outcome matches Err(MyError::MissingField(text)) && text@
            == LATITUDE_MISSING@,
        (Some(_), None) => outcome matches Err(MyError::MissingField(text)) && text@
            == LONGITUDE_MISSING@,
    }
}

/// An answer whose `results` are empty, or are no array, has no latitude: the
/// place that is not there reads as `Null`, and so does everything below it.
pub proof fn lemma_no_results_no_coordinates(answer: Json, outcome: Result<Coordinates, MyError>)
    requires
        answer.member("results"@) matches Json::List(found) ==> found.len() == 0,
        resolves_to(answer, outcome),
    ensures
        outcome matches Err(MyError::MissingField(text)) && text@ == LATITUDE_MISSING@,
{
}

/// Reading coordinates never reports a failed exchange: it gives the pair,
/// or says which field is missing.
pub proof fn lemma_resolves_or_names_field(answer: Json, outcome: Result<Coordinates, MyError>)
    requires
        resolves_to(answer, outcome),
    ensures
        outcome is Ok <==> latitude(answer) is Some && longitude(answer) is Some,
        outcome matches Err(error) ==> error is MissingField,
{
}

/// Reads the coordinates of the first result out of a geocoding answer.
pub fn coordinates(answer: &serde_json::Value) -> (outcome: Result<Coordinates, MyError>)
    ensures
        resolves_to(json_of(*answer), outcome),
{
    let results = member(answer, "results");
    let first = element(results, 0);
    let geometry = member(first, "geometry");
    let place = member(geometry, "location");
    let lat = required_number(member(place, "lat"), LATITUDE_MISSING)?;
    let lng = required_number(member(place, "lng"), LONGITUDE_MISSING)?;
    Ok(Coordinates { lat, lng })
}

} // verus!
