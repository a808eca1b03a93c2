//! The course of a lookup: which step follows which answer.
//!
//! The caller asks the two services and shows the lines; what it does next is
//! decided here. A lookup starts with the geocoding service.

use vstd::prelude::*;
use crate::error::MyError;
use crate::geocode::Coordinates;
use crate::weather::WeatherReport;

verus! {

/// What came back from a service.
#[derive(Debug)]
pub enum Event {
    /// The geocoding service was asked for the city.
    Resolved(Result<Coordinates, MyError>),
    /// The weather service was asked about this place.
    Fetched(Coordinates, Result<WeatherReport, MyError>),
}

/// What to do next.
#[derive(Debug)]
pub enum Action {
    /// Ask the weather service about the place, by these whole degrees.
    Fetch { place: Coordinates, lat: u32, lon: u32 },
    /// Show the summary of the place and its weather, and stop.
    Summarize { place: Coordinates, report: WeatherReport },
    /// Show the error, and stop.
    Fail(MyError),
}

/// The action that an event calls for: a place is followed by the question
/// for its weather, in whole degrees; a report by the summary; and a failure
/// of either service ends the lookup.
pub open spec fn calls_for(event: Event, action: Action) -> bool {
    match event {
        Event::Resolved(Ok(found)) => action matches Action::Fetch { place, lat, lon } && place
            == found && lat == found.lat.truncation() && lon == found.lng.truncation(),
        Event::Resolved(Err(error)) => action == Action::Fail(error),
        Event::Fetched(place, Ok(report)) => action == (Action::Summarize { place, report }),
        Event::Fetched(_, Err(error)) => action == Action::Fail(error),
    }
}

/// Decides what follows an event.
pub fn next_action(event: Event) -> (action: Action)
    ensures
        calls_for(event, action),
{
    match event {
        Event::Resolved(Ok(place)) => {
            let (lat, lon) = place.truncated();
            Action::Fetch { place, lat, lon }
        },
        Event::Resolved(Err(error)) => Action::Fail(error),
        Event::Fetched(place, Ok(report)) => Action::Summarize { place, report },
        Event::Fetched(_, Err(error)) => Action::Fail(error),
    }
}

/// The weather service is asked only after the geocoding service has found
/// the place, and a lookup that has its report asks nothing more.
pub proof fn lemma_fetch_follows_place(event: Event, action: Action)
    requires
        calls_for(event, action),
    ensures
        action is Fetch <==> event matches Event::Resolved(Ok(_)),
        action is Summarize <==> event matches Event::Fetched(_, Ok(_)),
{
}

} // verus!
