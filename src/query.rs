//! Checks a feed query and turns it into an event filter.
use vstd::prelude::*;
use crate::filter::{EventFilter, FilterV, Pattern, opt_pattern_view, regex_compiles, regex_finds};
use crate::event::opt_text_view;

verus! {

/// What a list of calendar ids must contain.
pub const CALENDARS_REG: &'static str = r"\d+(?:,\d+)*";

/// What a host name or address must look like.
pub const HOST_REG: &'static str = r"^((?:(?:[a-zA-Z0-9-_]+\.)+[a-zA-Z]{2,})|(?:\d{1,3}\.){3}\d{1,3}|\[(?:[a-fA-F0-9:]+)\])$";

/// A request for a filtered calendar feed.
pub struct CalQuery {
    pub summary: Option<String>,
    pub location: Option<String>,
    pub teacher: Option<String>,
    pub tags: Option<String>,
    pub all: Option<bool>,
    pub host: String,
    pub calendars: String,
    pub nb_weeks: u8,
}

/// Why a query was refused.
pub enum QueryError {
    InvalidCalendars,
    InvalidHost,
    /// A pattern did not compile.
    BadPattern(regex::Error),
}

pub open spec fn pattern_ok(p: Option<String>) -> bool {
    p matches Some(s) ==> regex_compiles(s@)
}

pub open spec fn calendars_ok(q: CalQuery) -> bool {
    regex_compiles(CALENDARS_REG@) && regex_finds(CALENDARS_REG@, q.calendars@)
}

pub open spec fn host_ok(q: CalQuery) -> bool {
    regex_compiles(HOST_REG@) && regex_finds(HOST_REG@, q.host@)
}

pub open spec fn query_ok(q: CalQuery) -> bool {
    calendars_ok(q) && host_ok(q) && pattern_ok(q.summary) && pattern_ok(q.location) && pattern_ok(
        q.teacher,
    ) && pattern_ok(q.tags)
}

/// The filter that a valid query asks for; `all` defaults to false.
pub open spec fn query_filter(q: CalQuery) -> FilterV {
    FilterV {
        summary: opt_text_view(q.summary),
        location: opt_text_view(q.location),
        teacher: opt_text_view(q.teacher),
        tags: opt_text_view(q.tags),
        all: match q.all {
            Some(b) => b,
            None => false,
        },
    }
}

fn compile_opt(p: &Option<String>) -> (r: Result<Option<Pattern>, regex::Error>)
    ensures
        r is Ok <==> pattern_ok(*p),
        r matches Ok(x) ==> opt_pattern_view(x) == opt_text_view(*p),
{
    match p {
        Some(s) => match Pattern::new(s.as_str()) {
            Ok(x) => Ok(Some(x)),
            Err(e) => Err(e),
        },
        None => Ok(None),
    }
}

/// Checks the calendar ids, then the host, then compiles each pattern; the
/// first check that fails decides the error.
pub fn build_filter(q: &CalQuery) -> (r: Result<EventFilter, QueryError>)
    ensures
        r is Ok <==> query_ok(*q),
        r matches Ok(f) ==> f@ == query_filter(*q),
        r matches Err(QueryError::InvalidCalendars) <==> regex_compiles(CALENDARS_REG@)
            && !regex_finds(CALENDARS_REG@, q.calendars@),
        r matches Err(QueryError::InvalidHost) <==> calendars_ok(*q) && regex_compiles(HOST_REG@)
            && !regex_finds(HOST_REG@, q.host@),
{
    let cal = match Pattern::new(CALENDARS_REG) {
        Ok(p) => p,
        Err(e) => {
            return Err(QueryError::BadPattern(e));
        },
    };
    if !cal.is_match(q.calendars.as_str()) {
        return Err(QueryError::InvalidCalendars);
    }
    let host = match Pattern::new(HOST_REG) {
        Ok(p) => p,
        Err(e) => {
            return Err(QueryError::BadPattern(e));
        },
    };
    if !host.is_match(q.host.as_str()) {
        return Err(QueryError::InvalidHost);
    }
    let summary = match compile_opt(&q.summary) {
        Ok(p) => p,
        Err(e) => {
            return Err(QueryError::BadPattern(e));
        },
    };
    let location = match compile_opt(&q.location) {
        Ok(p) => p,
        Err(e) => {
            return Err(QueryError::BadPattern(e));
        },
    };
    let teacher = match compile_opt(&q.teacher) {
        Ok(p) => p,
        Err(e) => {
            return Err(QueryError::BadPattern(e));
        },
    };
    let tags = match compile_opt(&q.tags) {
        Ok(p) => p,
        Err(e) => {
            return Err(QueryError::BadPattern(e));
        },
    };
    let all = match q.all {
        Some(b) => b,
        None => false,
    };
    Ok(EventFilter { summary, location, teacher, tags, all })
}

} // verus!
