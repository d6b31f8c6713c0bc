use chrono::NaiveTime;
use astrolaunch::clock::{
    alarm_due, alarm_time, run_timer_alarm, timer_seconds, ClockCommand,
    ClockError, TimeOfDay, ALARM_POLL_SECONDS,
};

fn at(hour: u8, minute: u8) -> TimeOfDay {
    TimeOfDay { hour, minute }
}

#[test]
fn timer_command_gives_seconds() {
    assert_eq!(run_timer_alarm("timer", "5"), Ok(ClockCommand::Timer { seconds: 300 }));
    assert_eq!(run_timer_alarm("timer", "0"), Ok(ClockCommand::Timer { seconds: 0 }));
    assert_eq!(run_timer_alarm("timer", "+90"), Ok(ClockCommand::Timer { seconds: 5400 }));
}

#[test]
fn timer_command_with_bad_minutes() {
    for value in ["", "five", "5 ", " 5", "-5", "5.5", "+", "1e3"] {
        assert_eq!(run_timer_alarm("timer", value), Err(ClockError::InvalidMinutes), "{:?}", value);
    }
    assert_eq!(run_timer_alarm("timer", "18446744073709551616"), Err(ClockError::InvalidMinutes));
}

#[test]
fn timer_command_too_long() {
    assert_eq!(run_timer_alarm("timer", "18446744073709551615"), Err(ClockError::TimerTooLong));
    assert_eq!(run_timer_alarm("timer", "307445734561825861"), Err(ClockError::TimerTooLong));
    assert_eq!(
        run_timer_alarm("timer", "307445734561825860"),
        Ok(ClockCommand::Timer { seconds: 18446744073709551600 })
    );
}

#[test]
fn alarm_command_gives_a_time() {
    assert_eq!(run_timer_alarm("alarm", "07:30"), Ok(ClockCommand::Alarm { at: at(7, 30) }));
    assert_eq!(run_timer_alarm("alarm", "23:59"), Ok(ClockCommand::Alarm { at: at(23, 59) }));
    assert_eq!(run_timer_alarm("alarm", "00:00"), Ok(ClockCommand::Alarm { at: at(0, 0) }));
    assert_eq!(run_timer_alarm("alarm", "7:15"), Ok(ClockCommand::Alarm { at: at(7, 15) }));
}

#[test]
fn alarm_command_with_bad_time() {
    for value in ["", "noon", "24:00", "17:60", "12", "12:", "12:30:15"] {
        assert_eq!(run_timer_alarm("alarm", value), Err(ClockError::InvalidTime), "{:?}", value);
    }
}

#[test]
fn unknown_command() {
    assert_eq!(run_timer_alarm("stopwatch", "5"), Err(ClockError::UnknownCommand));
    assert_eq!(run_timer_alarm("", "5"), Err(ClockError::UnknownCommand));
    assert_eq!(run_timer_alarm("Timer", "5"), Err(ClockError::UnknownCommand));
    assert_eq!(run_timer_alarm("timer ", "5"), Err(ClockError::UnknownCommand));
}

#[test]
fn clock_error_messages() {
    assert_eq!(ClockError::UnknownCommand.message(), "Unknown command");
    assert_eq!(ClockError::InvalidMinutes.message(), "Invalid minutes value");
    assert_eq!(ClockError::InvalidTime.message(), "Invalid time format, expected HH:MM");
    assert_eq!(ClockError::TimerTooLong.message(), "Timer too long");
}

#[test]
fn timer_seconds_from_minutes() {
    assert_eq!(timer_seconds(Some(2)), Ok(120));
    assert_eq!(timer_seconds(None), Err(ClockError::InvalidMinutes));
    assert_eq!(timer_seconds(Some(u64::MAX / 60)), Ok(u64::MAX / 60 * 60));
    assert_eq!(timer_seconds(Some(u64::MAX / 60 + 1)), Err(ClockError::TimerTooLong));
}

#[test]
fn alarm_time_from_hour_and_minute() {
    assert_eq!(alarm_time(Some((6, 45))), Ok(at(6, 45)));
    assert_eq!(alarm_time(Some((24, 0))), Err(ClockError::InvalidTime));
    assert_eq!(alarm_time(Some((0, 60))), Err(ClockError::InvalidTime));
    assert_eq!(alarm_time(Some((300, 5))), Err(ClockError::InvalidTime));
    assert_eq!(alarm_time(None), Err(ClockError::InvalidTime));
}

#[test]
fn alarm_is_due_once_the_time_is_reached() {
    assert!(!alarm_due(at(6, 59), at(7, 0)));
    assert!(alarm_due(at(7, 0), at(7, 0)));
    assert!(alarm_due(at(7, 1), at(7, 0)));
    assert!(alarm_due(at(8, 0), at(7, 30)));
    assert!(!alarm_due(at(7, 29), at(7, 30)));
    assert!(!alarm_due(at(0, 0), at(23, 59)));
    assert!(alarm_due(at(23, 59), at(0, 0)));
    assert_eq!(ALARM_POLL_SECONDS, 30);
}

#[test]
fn alarm_due_agrees_with_the_order_of_times() {
    for (h1, m1, s1, h2, m2) in [(7, 0, 0, 7, 0), (7, 0, 59, 7, 1), (6, 59, 59, 7, 0), (12, 30, 1, 12, 30), (0, 0, 0, 0, 1)] {
        let now = NaiveTime::from_hms_opt(h1, m1, s1).unwrap();
        let target = NaiveTime::from_hms_opt(h2, m2, 0).unwrap();
        assert_eq!(alarm_due(at(h1 as u8, m1 as u8), at(h2 as u8, m2 as u8)), now >= target);
    }
}
