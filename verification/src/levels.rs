//! The arithmetic of volume and brightness: levels are percentages, and a
//! sound device takes them on a scale of its own.

use vstd::prelude::*;
use crate::text::{parse_unsigned, trim, trimmed, unsigned_of};

verus! {

/// The highest level, in percent.
pub const MAX_LEVEL: u8 = 100;

/// The volume that is taken for the current one when the system does not
/// tell.
pub const DEFAULT_VOLUME: u8 = 50;

/// Full volume on the scale of the sound device.
pub const DEVICE_SCALE: u32 = 65535;

/// Why a level was refused.
#[derive(Clone, Copy, Debug)]
pub enum LevelError {
    /// A volume above `MAX_LEVEL`.
    VolumeOutOfRange,
    /// A brightness above `MAX_LEVEL`.
    BrightnessOutOfRange,
}

impl LevelError {
    /// The error as a message for the user.
    pub fn message(&self) -> (text: String)
        ensures
            text@ == match *self {
                LevelError::VolumeOutOfRange => "Volume must be between 0 and 100"@,
                LevelError::BrightnessOutOfRange => "Brightness must be between 0 and 100"@,
            },
    {
        match self {
            LevelError::VolumeOutOfRange => "Volume must be between 0 and 100".to_owned(),
            LevelError::BrightnessOutOfRange => "Brightness must be between 0 and 100".to_owned(),
        }
    }
}

/// Accepts a volume that is a percentage, and no other.
pub fn checked_volume(volume: u8) -> (level: Result<u8, LevelError>)
    ensures
        level is Ok <==> volume <= MAX_LEVEL,
        level is Ok ==> level->Ok_0 == volume,
        level is Err ==> level->Err_0 == LevelError::VolumeOutOfRange,
{
    if volume > MAX_LEVEL {
        Err(LevelError::VolumeOutOfRange)
    } else {
        Ok(volume)
    }
}

/// Accepts a brightness that is a percentage, and no other.
pub fn checked_brightness(brightness: u8) -> (level: Result<u8, LevelError>)
    ensures
        level is Ok <==> brightness <= MAX_LEVEL,
        level is Ok ==> level->Ok_0 == brightness,
        level is Err ==> level->Err_0 == LevelError::BrightnessOutOfRange,
{
    if brightness > MAX_LEVEL {
        Err(LevelError::BrightnessOutOfRange)
    } else {
        Ok(brightness)
    }
}

/// The level that a text writes: a number up to 255 in decimal digits,
/// with white space allowed around it.
pub open spec fn level_of(text: Seq<char>) -> Option<u8> {
    match unsigned_of(trimmed(text)) {
        Some(value) => if value <= u8::MAX {
            Some(value as u8)
        } else {
            None
        },
        None => None,
    }
}

/// Reads the level that the system reported as text, if it is one.
pub fn read_level(text: &str) -> (level: Option<u8>)
    ensures
        level == level_of(text@),
{
    match parse_unsigned(trim(text)) {
        Some(value) => {
            if value <= 255 {
                Some(value as u8)
            } else {
                None
            }
        },
        None => None,
    }
}

/// The current volume, or the default where the system gave none.
pub open spec fn current_or_default(current: Option<u8>) -> int {
    match current {
        Some(volume) => volume as int,
        None => DEFAULT_VOLUME as int,
    }
}

/// The volume after it is raised by `delta`: never above `MAX_LEVEL`.
pub fn raised_volume(current: Option<u8>, delta: u8) -> (volume: u8)
    ensures
        volume == if current_or_default(current) + delta < MAX_LEVEL {
            current_or_default(current) + delta
        } else {
            MAX_LEVEL as int
        },
{
    let from = match current {
        Some(volume) => volume,
        None => DEFAULT_VOLUME,
    };
    let sum = from.saturating_add(delta);
    if sum < MAX_LEVEL {
        sum
    } else {
        MAX_LEVEL
    }
}

/// The volume after it is lowered by `delta`: never below zero.
pub fn lowered_volume(current: Option<u8>, delta: u8) -> (volume: u8)
    ensures
        volume == if current_or_default(current) > delta {
            current_or_default(current) - delta
        } else {
            0
        },
{
    let from = match current {
        Some(volume) => volume,
        None => DEFAULT_VOLUME,
    };
    from.saturating_sub(delta)
}

/// A percentage on the scale of the sound device, rounded down.
pub fn device_level(percent: u8) -> (level: u32)
    ensures
        level == percent * DEVICE_SCALE / 100,
{
    let scaled: u32 = percent as u32 * DEVICE_SCALE;
    scaled / 100
}

/// What lowers the device's volume by a percentage: the step on the
/// device's scale, negated as a 32-bit number in two's complement.
pub fn device_step_down(percent: u8) -> (step: u32)
    ensures
        step == if percent * DEVICE_SCALE / 100 == 0 {
            0
        } else {
            0x1_0000_0000 - percent * DEVICE_SCALE / 100
        },
{
    let step = device_level(percent);
    if step == 0 {
        0
    } else {
        u32::MAX - step + 1
    }
}

} // verus!
