use city_weather::binary64::Binary64;
use city_weather::error::MyError;
use city_weather::geocode::{
    coordinates, geocoding_url, Coordinates, LATITUDE_MISSING, LONGITUDE_MISSING,
};

fn answer(text: &str) -> serde_json::Value {
    serde_json::from_str(text).unwrap()
}

fn missing(outcome: Result<Coordinates, MyError>) -> String {
    match outcome {
        Err(MyError::MissingField(text)) => text,
        other => panic!("expected a missing field, got {:?}", other),
    }
}

#[test]
fn coordinates_of_first_result() {
    let doc = answer(
        r#"{"results":[{"geometry":{"location":{"lat":48.85,"lng":2.35}}}],"status":"OK"}"#,
    );
    let place = coordinates(&doc).unwrap();
    assert_eq!(f64::from_bits(place.lat.bits), 48.85);
    assert_eq!(f64::from_bits(place.lng.bits), 2.35);
    assert_eq!(
        place,
        Coordinates {
            lat: Binary64 { bits: 0x4048_6ccc_cccc_cccd },
            lng: Binary64 { bits: 0x4002_cccc_cccc_cccd },
        }
    );
}

#[test]
fn coordinates_take_the_first_of_several_results() {
    let doc = answer(
        r#"{"results":[
            {"geometry":{"location":{"lat":-33.5,"lng":151.25}}},
            {"geometry":{"location":{"lat":1.0,"lng":2.0}}}
        ]}"#,
    );
    let place = coordinates(&doc).unwrap();
    assert_eq!(f64::from_bits(place.lat.bits), -33.5);
    assert_eq!(f64::from_bits(place.lng.bits), 151.25);
}

#[test]
fn whole_numbers_are_coordinates_too() {
    let doc = answer(r#"{"results":[{"geometry":{"location":{"lat":48,"lng":-2}}}]}"#);
    let place = coordinates(&doc).unwrap();
    assert_eq!(f64::from_bits(place.lat.bits), 48.0);
    assert_eq!(f64::from_bits(place.lng.bits), -2.0);
}

#[test]
fn empty_results_are_a_missing_field() {
    let doc = answer(r#"{"results":[],"status":"ZERO_RESULTS"}"#);
    assert_eq!(missing(coordinates(&doc)), "Latitude is missing or not a float");
}

#[test]
fn absent_results_are_a_missing_field() {
    assert_eq!(missing(coordinates(&answer(r#"{"status":"REQUEST_DENIED"}"#))), LATITUDE_MISSING);
    assert_eq!(missing(coordinates(&answer("null"))), LATITUDE_MISSING);
    assert_eq!(missing(coordinates(&answer("[1, 2]"))), LATITUDE_MISSING);
    assert_eq!(missing(coordinates(&answer(r#"{"results":{"0":1}}"#))), LATITUDE_MISSING);
}

#[test]
fn latitude_of_another_type_is_missing() {
    let doc = answer(r#"{"results":[{"geometry":{"location":{"lat":"48.85","lng":2.35}}}]}"#);
    assert_eq!(missing(coordinates(&doc)), LATITUDE_MISSING);
}

#[test]
fn longitude_is_asked_for_after_latitude() {
    let only_lat = answer(r#"{"results":[{"geometry":{"location":{"lat":48.85}}}]}"#);
    assert_eq!(missing(coordinates(&only_lat)), "Longitude is missing or not a float");
    let wrong_lng = answer(r#"{"results":[{"geometry":{"location":{"lat":48.85,"lng":null}}}]}"#);
    assert_eq!(missing(coordinates(&wrong_lng)), LONGITUDE_MISSING);
    let neither = answer(r#"{"results":[{"geometry":{"location":{}}}]}"#);
    assert_eq!(missing(coordinates(&neither)), LATITUDE_MISSING);
}

#[test]
fn geocoding_url_embeds_city_and_key() {
    assert_eq!(
        geocoding_url("Paris", "k3y"),
        "https://maps.googleapis.com/maps/api/geocode/json?address=Paris&key=k3y"
    );
    assert_eq!(
        geocoding_url("", ""),
        "https://maps.googleapis.com/maps/api/geocode/json?address=&key="
    );
}

#[test]
fn geocoding_url_escapes_the_city() {
    assert_eq!(
        geocoding_url("New York", "k"),
        "https://maps.googleapis.com/maps/api/geocode/json?address=New%20York&key=k"
    );
    assert_eq!(
        geocoding_url("A&B", "k"),
        "https://maps.googleapis.com/maps/api/geocode/json?address=A%26B&key=k"
    );
    assert_eq!(
        geocoding_url("a=b#c?d/e+f%g", "k"),
        "https://maps.googleapis.com/maps/api/geocode/json?address=a%3Db%23c%3Fd%2Fe%2Bf%25g&key=k"
    );
    assert_eq!(
        geocoding_url("\u{0}\n\u{7f},", "k"),
        "https://maps.googleapis.com/maps/api/geocode/json?address=%00%0A%7F%2C&key=k"
    );
}

#[test]
fn geocoding_url_keeps_letters_digits_and_four_marks() {
    let plain = "ABCDEFGHIJKLMNOPQRSTUVWXYZabcdefghijklmnopqrstuvwxyz0123456789-._~";
    assert_eq!(
        geocoding_url(plain, "k"),
        format!("https://maps.googleapis.com/maps/api/geocode/json?address={}&key=k", plain)
    );
}

#[test]
fn geocoding_url_escapes_each_byte_of_a_character() {
    assert_eq!(
        geocoding_url("S\u{e3}o Paulo", "k"),
        "https://maps.googleapis.com/maps/api/geocode/json?address=S%C3%A3o%20Paulo&key=k"
    );
    assert_eq!(
        geocoding_url("\u{6771}\u{4eac}", "k"),
        "https://maps.googleapis.com/maps/api/geocode/json?address=%E6%9D%B1%E4%BA%AC&key=k"
    );
    assert_eq!(
        geocoding_url("\u{1f600}", "k"),
        "https://maps.googleapis.com/maps/api/geocode/json?address=%F0%9F%98%80&key=k"
    );
}

#[test]
fn geocoding_url_escapes_every_byte_but_the_plain_ones() {
    let mut b: u8 = 0;
    while b < 128 {
        let name = (b as char).to_string();
        let plain = b.is_ascii_alphanumeric() || b"-._~".contains(&b);
        let expected = if plain { name.clone() } else { format!("%{:02X}", b) };
        assert_eq!(
            geocoding_url(&name, "k"),
            format!(
                "https://maps.googleapis.com/maps/api/geocode/json?address={}&key=k",
                expected
            )
        );
        b += 1;
    }
}

#[test]
fn geocoding_url_takes_the_key_as_it_is() {
    assert_eq!(
        geocoding_url("Paris", "a b&c"),
        "https://maps.googleapis.com/maps/api/geocode/json?address=Paris&key=a b&c"
    );
}

#[test]
fn truncated_coordinates_drop_the_fraction() {
    let place = Coordinates {
        lat: Binary64 { bits: 48.856f64.to_bits() },
        lng: Binary64 { bits: 2.352f64.to_bits() },
    };
    assert_eq!(place.truncated(), (48, 2));
}

#[test]
fn truncated_coordinates_south_and_west_are_zero() {
    let place = Coordinates {
        lat: Binary64 { bits: (-33.87f64).to_bits() },
        lng: Binary64 { bits: (-70.66f64).to_bits() },
    };
    assert_eq!(place.truncated(), (0, 0));
}
