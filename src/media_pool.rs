//! Tape media pool configuration and its policies.

use vstd::prelude::*;
use vstd::string::StringSliceAdditionalSpecFns;

use crate::calendar::{calendar_spec, parse_calendar_event, CalendarError, CalendarEvent};
use crate::text::same_text;
use crate::time_span::{parse_time_span, time_span_spec, TimeSpan, TimeSpanError};

verus! {

/// Media set allocation policy.
#[derive(Debug, Clone, PartialEq, Eq)]
pub enum MediaSetPolicy {
    /// Try to use the current media set.
    ContinueCurrent,
    /// Each backup job creates a new media set.
    AlwaysCreate,
    /// Create a new set when the calendar event triggers.
    CreateAt(CalendarEvent),
}

impl MediaSetPolicy {
    /// `continue`, `always`, or a calendar event.
    pub fn from_str(s: &str) -> (r: Result<MediaSetPolicy, CalendarError>)
        ensures
            s@ == "continue"@ ==> r == Ok::<MediaSetPolicy, CalendarError>(MediaSetPolicy::ContinueCurrent),
            s@ == "always"@ ==> r == Ok::<MediaSetPolicy, CalendarError>(MediaSetPolicy::AlwaysCreate),
            s@ != "continue"@ && s@ != "always"@ ==> match calendar_spec(s.spec_bytes()) {
                Ok(v) => r is Ok && r->Ok_0 is CreateAt && r->Ok_0->CreateAt_0@ == v,
                Err(e) => r == Err::<MediaSetPolicy, CalendarError>(e),
            },
    {
        proof {
            reveal_strlit("continue");
            reveal_strlit("always");
        }
        if same_text(s, "continue") {
            return Ok(MediaSetPolicy::ContinueCurrent);
        }
        if same_text(s, "always") {
            return Ok(MediaSetPolicy::AlwaysCreate);
        }
        match parse_calendar_event(s) {
            Ok(event) => Ok(MediaSetPolicy::CreateAt(event)),
            Err(e) => Err(e),
        }
    }
}

/// Media retention policy.
#[derive(Debug, Clone, Copy, PartialEq, Eq, Structural)]
pub enum RetentionPolicy {
    /// Always overwrite media.
    OverwriteAlways,
    /// Protect data for the time span given.
    ProtectFor(TimeSpan),
    /// Never overwrite data.
    KeepForever,
}

impl RetentionPolicy {
    /// `overwrite`, `keep`, or a time span to protect data for.
    pub fn from_str(s: &str) -> (r: Result<RetentionPolicy, TimeSpanError>)
        ensures
            s@ == "overwrite"@ ==> r == Ok::<RetentionPolicy, TimeSpanError>(RetentionPolicy::OverwriteAlways),
            s@ == "keep"@ ==> r == Ok::<RetentionPolicy, TimeSpanError>(RetentionPolicy::KeepForever),
            s@ != "overwrite"@ && s@ != "keep"@ ==> match time_span_spec(s.spec_bytes()) {
                Some(ts) => r == Ok::<RetentionPolicy, TimeSpanError>(RetentionPolicy::ProtectFor(ts)),
                None => r is Err,
            },
    {
        proof {
            reveal_strlit("overwrite");
            reveal_strlit("keep");
        }
        if same_text(s, "overwrite") {
            return Ok(RetentionPolicy::OverwriteAlways);
        }
        if same_text(s, "keep") {
            return Ok(RetentionPolicy::KeepForever);
        }
        match parse_time_span(s) {
            Ok(ts) => Ok(RetentionPolicy::ProtectFor(ts)),
            Err(e) => Err(e),
        }
    }
}


/// Media pool configuration.
#[derive(Debug, Clone, PartialEq, Eq)]
pub struct MediaPoolConfig {
    /// The pool name.
    pub name: String,
    /// The associated drive.
    pub drive: String,
    /// Media set allocation policy.
    pub allocation: Option<String>,
    /// Media retention policy.
    pub retention: Option<String>,
    /// Media set naming template (default "%c").
    pub template: Option<String>,
}

} // verus!
