//! Verified core of a desktop launcher.
//!
//! The heart of it is the fuzzy file search: a walk of the file system is
//! scored name by name against a query, and only the few best matches are
//! kept ([`finder`], [`ranking`], [`similarity`], [`seen`]). Around it
//! stand the rules of the launcher's other commands: the clipboard history
//! ([`clipboard`]), the list of applications ([`apps`]), the address of a
//! web search ([`web`]), volume and brightness levels ([`levels`]), timers
//! and alarms ([`clock`]). [`text`] and [`strings`] hold what several of
//! them share.
//!
//! Nothing here touches the file system, the clipboard, the clock or a
//! process: the caller does, and hands over plain values.
//!
//! # What is assumed
//!
//! Every function is verified against its contract, but for five that call
//! code from outside and whose contracts are taken on trust:
//!
//! - `similarity::jaro_winkler` calls `strsim::jaro_winkler`; its result is
//!   only named, as `similarity::jaro_winkler_bits`.
//! - `text::char_is_whitespace` calls `char::is_whitespace`; its result is
//!   only named, as `text::is_whitespace`.
//! - `web::percent_encode` calls `urlencoding::encode`, and `web::starts_with`
//!   calls `str::starts_with`; their contracts say what they return.
//! - `clock::parse_clock_time` calls `chrono::NaiveTime::parse_from_str`; its
//!   result is only named, as `clock::parsed_clock_time`.

pub mod apps;
pub mod clipboard;
pub mod clock;
pub mod finder;
pub mod levels;
pub mod platform;
pub mod ranking;
pub mod seen;
pub mod similarity;
pub mod strings;
pub mod text;
pub mod web;
