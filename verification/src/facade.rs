//! The foreign-language facade's runtime-free timecode arithmetic.
use vstd::prelude::*;

use crate::timecode::{advance_delta, spec_advance, supported_format};
use crate::{error_text, Error, FrameFormat, Position, Rate};

verus! {

/// Validated timecode arithmetic shared by native and runtime-free clients.
pub struct TimecodeFormat {
    inner: FrameFormat,
}

impl TimecodeFormat {
    pub closed spec fn format(&self) -> FrameFormat {
        self.inner
    }
}

/// Signed whole frames plus unsigned Q32 fractional frames.
#[derive(Clone, Copy, Debug, PartialEq, Eq, Structural)]
pub struct FramePosition {
    pub frames: i64,
    pub subframe: u32,
}

impl Default for FramePosition {
    fn default() -> (r: Self)
        ensures
            r.frames == 0 && r.subframe == 0,
    {
        FramePosition { frames: 0, subframe: 0 }
    }
}

impl From<Position> for FramePosition {
    fn from(p: Position) -> (r: Self) {
        FramePosition { frames: p.frames, subframe: p.subframe }
    }
}

impl vstd::std_specs::convert::FromSpecImpl<Position> for FramePosition {
    open spec fn obeys_from_spec() -> bool {
        true
    }

    open spec fn from_spec(p: Position) -> Self {
        FramePosition { frames: p.frames, subframe: p.subframe }
    }
}

fn error(e: Error) -> (s: String)
    ensures
        s@ == error_text(e),
{
    e.to_string()
}

pub fn timecode_format_new(numerator: u32, denominator: u32, drop_frame: bool) -> (r: Result<
    TimecodeFormat,
    String,
>)
    ensures
        match r {
            Ok(f) => supported_format(numerator, denominator, drop_frame)
                && f.format().spec_numerator() == numerator && f.format().spec_denominator()
                == denominator && f.format().spec_drop_frame() == drop_frame,
            Err(s) => !supported_format(numerator, denominator, drop_frame) && s@ == error_text(
                Error::Invalid("frame format"),
            ),
        },
{
    match FrameFormat::new(numerator, denominator, drop_frame) {
        Ok(inner) => Ok(TimecodeFormat { inner }),
        Err(e) => Err(error(e)),
    }
}

pub fn timecode_format_position(
    format: &TimecodeFormat,
    hours: u8,
    minutes: u8,
    seconds: u8,
    frames: u8,
) -> (r: Result<FramePosition, String>)
    ensures
        match r {
            Ok(p) => format.format().label_accepted(
                hours as int,
                minutes as int,
                seconds as int,
                frames as int,
            ) && p.subframe == 0 && p.frames == format.format().label_frames(
                hours as int,
                minutes as int,
                seconds as int,
                frames as int,
            ),
            Err(s) => !format.format().label_accepted(
                hours as int,
                minutes as int,
                seconds as int,
                frames as int,
            ) && s@ == error_text(Error::Invalid("timecode label")),
        },
{
    match format.inner.position(hours, minutes, seconds, frames) {
        Ok(p) => Ok(FramePosition { frames: p.frames, subframe: p.subframe }),
        Err(e) => Err(error(e)),
    }
}

/// Elapsed real time, not nominal timecode label seconds. Negative durations retain Q32 precision.
pub fn timecode_format_elapsed(format: &TimecodeFormat, nanoseconds: i64) -> (r: FramePosition)
    ensures
        ({
            let p = spec_advance(
                Position { frames: 0, subframe: 0 },
                nanoseconds as int,
                format.format(),
                Rate::normal_spec(),
            );
            r.frames == p.frames && r.subframe == p.subframe
        }),
{
    let p = Position::zero().advance(nanoseconds, format.inner, Rate::normal());
    FramePosition { frames: p.frames, subframe: p.subframe }
}

} // verus!
