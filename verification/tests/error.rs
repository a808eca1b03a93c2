use city_weather::error::MyError;

fn failed_exchange() -> reqwest::Error {
    reqwest::Client::new().get("not a url").build().unwrap_err()
}

#[test]
fn transport_errors_are_wrapped() {
    let inner = failed_exchange();
    let shown = format!("{:?}", inner);
    match MyError::from(inner) {
        MyError::ReqwestError(kept) => assert_eq!(format!("{:?}", kept), shown),
        other => panic!("expected a transport error, got {:?}", other),
    }
}

fn exchange() -> Result<(), MyError> {
    Err(failed_exchange())?;
    Ok(())
}

#[test]
fn question_mark_wraps_transport_errors() {
    assert!(matches!(exchange(), Err(MyError::ReqwestError(_))));
}

#[test]
fn missing_field_shows_its_text() {
    let error = MyError::MissingField("Latitude is missing or not a float".to_string());
    assert_eq!(
        format!("{:?}", error),
        "MissingField(\"Latitude is missing or not a float\")"
    );
}
