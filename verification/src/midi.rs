//! The numbers by which the device addresses its locations in MIDI messages.
//!
//! A pad or a button of the right strip is a note: ten times the row, counted
//! from one at the bottom, plus the column, counted from one at the left, the
//! right strip being the ninth column. A button of the top strip is a
//! controller, numbered from 104.

use vstd::prelude::*;

use crate::ui::ButtonSide;
use crate::ui::Event;
use crate::ui::Location;

verus! {

/// The status byte of a note message.
pub const NOTE_ON: u8 = 0x90;

/// The status byte of a controller message.
pub const CONTROL_CHANGE: u8 = 0xB0;

/// The number that addresses `location`.
pub open spec fn spec_position(location: Location) -> int {
    match location {
        Location::Pad(x, y) => 10 * (y + 1) + x + 1,
        Location::Button(index, ButtonSide::Right) => 10 * (index + 1) + 9,
        Location::Button(index, ButtonSide::Top) => 104 + index,
    }
}

/// The status byte of the messages that speak of `location`.
pub open spec fn spec_status(location: Location) -> u8 {
    match location {
        Location::Button(_, ButtonSide::Top) => CONTROL_CHANGE,
        _ => NOTE_ON,
    }
}

/// The location that a message with this status byte and number speaks of,
/// if it speaks of one.
pub open spec fn spec_locate(status: u8, number: u8) -> Option<Location> {
    if status == CONTROL_CHANGE && 104 <= number <= 111 {
        Some(Location::Button((number - 104) as u8, ButtonSide::Top))
    } else if status == NOTE_ON && 11 <= number <= 89 && number % 10 == 9 {
        Some(Location::Button((number / 10 - 1) as u8, ButtonSide::Right))
    } else if status == NOTE_ON && 11 <= number <= 89 && number % 10 != 0 {
        Some(Location::Pad((number % 10 - 1) as u8, (number / 10 - 1) as u8))
    } else {
        None
    }
}

/// What a message reports: a press where its value is above zero, a release
/// where it is zero, of the location that it speaks of; nothing where it
/// speaks of none.
pub open spec fn spec_decode(status: u8, number: u8, value: u8) -> Option<Event> {
    match spec_locate(status, number) {
        Some(location) => if value > 0 {
            Some(Event::Press(location))
        } else {
            Some(Event::Release(location))
        },
        None => None,
    }
}

/// The number by which the device is told to light `location`.
pub fn position(location: &Location) -> (number: u8)
    requires
        location.in_range(),
    ensures
        number == spec_position(*location),
{
    match location {
        Location::Pad(x, y) => 10 * (*y + 1) + *x + 1,
        Location::Button(index, ButtonSide::Right) => 10 * (*index + 1) + 9,
        Location::Button(index, ButtonSide::Top) => 104 + *index,
    }
}

/// Reads an event from the three bytes of a message of the device.
pub fn decode(status: u8, number: u8, value: u8) -> (event: Option<Event>)
    ensures
        event == spec_decode(status, number, value),
        event matches Some(e) ==> e.location().in_range(),
{
    let location = if status == CONTROL_CHANGE && 104 <= number && number <= 111 {
        Location::Button(number - 104, ButtonSide::Top)
    } else if status == NOTE_ON && 11 <= number && number <= 89 && number % 10 == 9 {
        Location::Button(number / 10 - 1, ButtonSide::Right)
    } else if status == NOTE_ON && 11 <= number && number <= 89 && number % 10 != 0 {
        Location::Pad(number % 10 - 1, number / 10 - 1)
    } else {
        return None;
    };
    if value > 0 {
        Some(Event::Press(location))
    } else {
        Some(Event::Release(location))
    }
}

/// A message that speaks of a location by its own number and status byte is
/// read as an event of that location, and every event that is read lies on
/// the device.
pub proof fn lemma_decode_position(location: Location, value: u8)
    requires
        location.in_range(),
    ensures
        0 <= spec_position(location) < 256,
        spec_decode(spec_status(location), spec_position(location) as u8, value) == Some(
            if value > 0 {
                Event::Press(location)
            } else {
                Event::Release(location)
            },
        ),
{
}

} // verus!
