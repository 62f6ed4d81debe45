use vstd::prelude::*;
use crate::entity::COORD_SCALE;

verus! {

/// A client intent, decoded to plain values. Click coordinates are in
/// sub-units.
#[derive(Clone, Copy, Debug, PartialEq, Eq, Structural)]
pub enum Input {
    UpStart,
    UpEnd,
    DownStart,
    DownEnd,
    LeftStart,
    LeftEnd,
    RightStart,
    RightEnd,
    Click { x: i64, y: i64 },
}

/// What one wire message means: the first byte selects the intent; a click
/// carries two big-endian world coordinates, which scale into sub-units.
pub open spec fn spec_parse(buf: Seq<u8>) -> Option<Input> {
    if buf[0] == 0 {
        Some(Input::UpStart)
    } else if buf[0] == 1 {
        Some(Input::UpEnd)
    } else if buf[0] == 2 {
        Some(Input::DownStart)
    } else if buf[0] == 3 {
        Some(Input::DownEnd)
    } else if buf[0] == 4 {
        Some(Input::LeftStart)
    } else if buf[0] == 5 {
        Some(Input::LeftEnd)
    } else if buf[0] == 6 {
        Some(Input::RightStart)
    } else if buf[0] == 7 {
        Some(Input::RightEnd)
    } else if buf[0] == 8 {
        if buf.len() >= 5 {
            Some(
                Input::Click {
                    x: ((buf[1] * 256 + buf[2]) * COORD_SCALE) as i64,
                    y: ((buf[3] * 256 + buf[4]) * COORD_SCALE) as i64,
                },
            )
        } else {
            None
        }
    } else {
        None
    }
}

/// Decode one wire message, exactly `spec_parse`; a decoded click always
/// lies within the coordinate range the simulation accepts.
pub fn parse_binary(buf: &[u8]) -> (r: Option<Input>)
    requires
        buf@.len() >= 1,
    ensures
        r == spec_parse(buf@),
        r matches Some(i) ==> (i matches Input::Click { x, y } ==> 0 <= x <= 0x40_0000 && 0 <= y
            <= 0x40_0000),
{
    match buf[0] {
        0 => Some(Input::UpStart),
        1 => Some(Input::UpEnd),
        2 => Some(Input::DownStart),
        3 => Some(Input::DownEnd),
        4 => Some(Input::LeftStart),
        5 => Some(Input::LeftEnd),
        6 => Some(Input::RightStart),
        7 => Some(Input::RightEnd),
        8 => {
            if buf.len() >= 5 {
                let x: i64 = ((buf[1] as i64) * 256 + (buf[2] as i64)) * COORD_SCALE;
                let y: i64 = ((buf[3] as i64) * 256 + (buf[4] as i64)) * COORD_SCALE;
                Some(Input::Click { x, y })
            } else {
                None
            }
        },
        _ => None,
    }
}

} // verus!
