//! Timers and alarms: what a command asks for, and when an alarm is due.
//!
//! Sleeping and reading the clock are the caller's part.

use vstd::prelude::*;
use chrono::Timelike;
use crate::text::{parse_unsigned, unsigned_of};

verus! {

/// How often, in seconds, a waiting alarm looks at the clock.
pub const ALARM_POLL_SECONDS: u64 = 30;

/// A time of day, to the minute.
#[derive(Clone, Copy, Debug, PartialEq, Eq, Structural)]
pub struct TimeOfDay {
    pub hour: u8,
    pub minute: u8,
}

impl TimeOfDay {
    /// Whether this is a time that a clock can show.
    pub open spec fn wf(self) -> bool {
        self.hour < 24 && self.minute < 60
    }

    /// The minutes since midnight.
    pub open spec fn minutes(self) -> int {
        self.hour * 60 + self.minute
    }
}

/// What a timer or alarm command asks for.
#[derive(Clone, Copy, Debug, PartialEq, Eq, Structural)]
pub enum ClockCommand {
    /// Wait this many seconds.
    Timer { seconds: u64 },
    /// Wait until the clock shows this time.
    Alarm { at: TimeOfDay },
}

/// Why a timer or alarm command was refused.
#[derive(Clone, Copy, Debug, PartialEq, Eq, Structural)]
pub enum ClockError {
    /// The command is neither `timer` nor `alarm`.
    UnknownCommand,
    /// The value of a timer is not a number of minutes.
    InvalidMinutes,
    /// The minutes of a timer, in seconds, are more than fits.
    TimerTooLong,
    /// The value of an alarm is not a time of day.
    InvalidTime,
}

impl ClockError {
    /// The error as a message for the user.
    pub fn message(&self) -> (text: String)
        ensures
            text@ == match *self {
                ClockError::UnknownCommand => "Unknown command"@,
                ClockError::InvalidMinutes => "Invalid minutes value"@,
                ClockError::TimerTooLong => "Timer too long"@,
                ClockError::InvalidTime => "Invalid time format, expected HH:MM"@,
            },
    {
        match self {
            ClockError::UnknownCommand => "Unknown command".to_owned(),
            ClockError::InvalidMinutes => "Invalid minutes value".to_owned(),
            ClockError::TimerTooLong => "Timer too long".to_owned(),
            ClockError::InvalidTime => "Invalid time format, expected HH:MM".to_owned(),
        }
    }
}

/// The time of day that a text writes in hours and minutes, as
/// `chrono::NaiveTime::parse_from_str` reads it with the format `%H:%M`:
/// the hour and the minute of the time it returns, or nothing where it
/// returns an error.
pub uninterp spec fn parsed_clock_time(value: Seq<char>) -> Option<(u32, u32)>;

/// Calls `chrono::NaiveTime::parse_from_str` with the format `%H:%M`, and
/// takes the hour and the minute of the time it gives with `hour` and
/// `minute` of `chrono::Timelike`. The contract only names that result.
#[verifier::external_body]
fn parse_clock_time(value: &str) -> (time: Option<(u32, u32)>)
    ensures
        time == parsed_clock_time(value@),
{
    match chrono::NaiveTime::parse_from_str(value, "%H:%M") {
        Ok(time) => Some((time.hour(), time.minute())),
        Err(_) => None,
    }
}

/// How long a timer of so many minutes waits, in seconds.
pub open spec fn timer_seconds_of(minutes: Option<u64>) -> Result<u64, ClockError> {
    match minutes {
        None => Err(ClockError::InvalidMinutes),
        Some(m) => if m * 60 <= u64::MAX {
            Ok((m * 60) as u64)
        } else {
            Err(ClockError::TimerTooLong)
        },
    }
}

/// How long a timer waits, in seconds, given the minutes that its value
/// writes.
pub fn timer_seconds(minutes: Option<u64>) -> (seconds: Result<u64, ClockError>)
    ensures
        seconds == timer_seconds_of(minutes),
{
    match minutes {
        None => Err(ClockError::InvalidMinutes),
        Some(m) => match m.checked_mul(60) {
            Some(seconds) => Ok(seconds),
            None => Err(ClockError::TimerTooLong),
        },
    }
}

/// The time of an alarm, given the hour and minute that its value writes.
pub open spec fn alarm_time_of(parsed: Option<(u32, u32)>) -> Result<TimeOfDay, ClockError> {
    match parsed {
        Some((hour, minute)) => if hour < 24 && minute < 60 {
            Ok(TimeOfDay { hour: hour as u8, minute: minute as u8 })
        } else {
            Err(ClockError::InvalidTime)
        },
        None => Err(ClockError::InvalidTime),
    }
}

/// The time of an alarm, given the hour and minute that its value writes.
pub fn alarm_time(parsed: Option<(u32, u32)>) -> (time: Result<TimeOfDay, ClockError>)
    ensures
        time == alarm_time_of(parsed),
        time is Ok ==> time->Ok_0.wf(),
{
    match parsed {
        Some((hour, minute)) => {
            if hour < 24 && minute < 60 {
                Ok(TimeOfDay { hour: hour as u8, minute: minute as u8 })
            } else {
                Err(ClockError::InvalidTime)
            }
        },
        None => Err(ClockError::InvalidTime),
    }
}

/// What a command and its value ask for.
pub open spec fn command_of(command: Seq<char>, value: Seq<char>) -> Result<
    ClockCommand,
    ClockError,
> {
    if command == "timer"@ {
        match timer_seconds_of(unsigned_of(value)) {
            Ok(seconds) => Ok(ClockCommand::Timer { seconds }),
            Err(e) => Err(e),
        }
    } else if command == "alarm"@ {
        match alarm_time_of(parsed_clock_time(value)) {
            Ok(at) => Ok(ClockCommand::Alarm { at }),
            Err(e) => Err(e),
        }
    } else {
        Err(ClockError::UnknownCommand)
    }
}

/// Reads a command: `timer` with a number of minutes, or `alarm` with a
/// time of day.
pub fn run_timer_alarm(command: &str, value: &str) -> (asked: Result<ClockCommand, ClockError>)
    ensures
        asked == command_of(command@, value@),
{
    let name = command.to_owned();
    if name == "timer".to_owned() {
        match timer_seconds(parse_unsigned(value)) {
            Ok(seconds) => Ok(ClockCommand::Timer { seconds }),
            Err(e) => Err(e),
        }
    } else if name == "alarm".to_owned() {
        match alarm_time(parse_clock_time(value)) {
            Ok(at) => Ok(ClockCommand::Alarm { at }),
            Err(e) => Err(e),
        }
    } else {
        Err(ClockError::UnknownCommand)
    }
}

/// Whether an alarm set for `target` is due when the clock shows `now`:
/// the time of day has reached the target.
pub fn alarm_due(now: TimeOfDay, target: TimeOfDay) -> (due: bool)
    ensures
        due == (now.minutes() >= target.minutes()),
{
    now.hour as u32 * 60 + now.minute as u32 >= target.hour as u32 * 60 + target.minute as u32
}

} // verus!
