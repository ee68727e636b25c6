//! The component grammar: a state machine over tokens that builds, filters and
//! stores events in one pass, aborting on the first error.
use vstd::prelude::*;
use vstd::utf8::{decode_utf8, valid_utf8};
use crate::date::{in_range, instant, normalize};
use crate::error::ICalError;
use crate::event::{Event, EventV, opt_text_view, texts_view};
use crate::filter::{EventFilter, FilterV, filter_accepts};
use crate::lexer::{Param, ParamV, Token, TokenV, lex, params_view, tokenize, tokens_view};
use crate::store::{ICal, lemma_store_insert_ordered, ordered, store_insert};
use crate::text::{chars_equal, str_chars};

verus! {

pub open spec fn vcalendar_word() -> Seq<char> {
    seq!['V', 'C', 'A', 'L', 'E', 'N', 'D', 'A', 'R']
}

pub open spec fn vevent_word() -> Seq<char> {
    seq!['V', 'E', 'V', 'E', 'N', 'T']
}

pub open spec fn dtstart_word() -> Seq<char> {
    seq!['D', 'T', 'S', 'T', 'A', 'R', 'T']
}

pub open spec fn dtend_word() -> Seq<char> {
    seq!['D', 'T', 'E', 'N', 'D']
}

pub open spec fn summary_word() -> Seq<char> {
    seq!['S', 'U', 'M', 'M', 'A', 'R', 'Y']
}

pub open spec fn location_word() -> Seq<char> {
    seq!['L', 'O', 'C', 'A', 'T', 'I', 'O', 'N']
}

/// The custom property that names the teacher of an event.
pub open spec fn teacher_word() -> Seq<char> {
    seq!['X', '-', 'T', 'E', 'A', 'C', 'H', 'E', 'R']
}

/// The custom property that adds one tag to an event.
pub open spec fn tag_word() -> Seq<char> {
    seq!['X', '-', 'T', 'A', 'G']
}

/// An event under construction: every field absent until its property is seen.
pub ghost struct DraftV {
    pub start: Option<int>,
    pub end: Option<int>,
    pub summary: Option<Seq<char>>,
    pub location: Option<Seq<char>>,
    pub teacher: Option<Seq<char>>,
    pub tags: Seq<Seq<char>>,
}

pub ghost enum PhaseV {
    Outside,
    InCalendar,
    InEvent(DraftV),
}

pub ghost struct StateV {
    pub phase: PhaseV,
    pub days: Seq<(int, Seq<EventV>)>,
}

pub open spec fn empty_draft() -> DraftV {
    DraftV {
        start: None,
        end: None,
        summary: None,
        location: None,
        teacher: None,
        tags: Seq::<Seq<char>>::empty(),
    }
}

/// The draft after one property line of its event; unknown properties are
/// ignored.
pub open spec fn apply_property(d: DraftV, name: Seq<char>, params: Seq<ParamV>, value: Seq<char>) -> Result<DraftV, ICalError> {
    if name == dtstart_word() {
        match instant(value, params) {
            Ok(t) => Ok(DraftV { start: Some(t), ..d }),
            Err(e) => Err(e),
        }
    } else if name == dtend_word() {
        match instant(value, params) {
            Ok(t) => Ok(DraftV { end: Some(t), ..d }),
            Err(e) => Err(e),
        }
    } else if name == summary_word() {
        Ok(DraftV { summary: Some(value), ..d })
    } else if name == location_word() {
        Ok(DraftV { location: Some(value), ..d })
    } else if name == teacher_word() {
        Ok(DraftV { teacher: Some(value), ..d })
    } else if name == tag_word() {
        Ok(DraftV { tags: d.tags.push(value), ..d })
    } else {
        Ok(d)
    }
}

/// The event of a finished draft; `None` where start, end or summary is
/// missing. A missing location is empty.
pub open spec fn complete(d: DraftV) -> Option<EventV> {
    if d.start is Some && d.end is Some && d.summary is Some {
        Some(
            EventV {
                start: d.start->0,
                end: d.end->0,
                summary: d.summary->0,
                location: match d.location {
                    Some(l) => l,
                    None => Seq::<char>::empty(),
                },
                teacher: d.teacher,
                tags: d.tags,
            },
        )
    } else {
        None
    }
}

/// One transition of the grammar.
pub open spec fn step(s: StateV, t: TokenV, f: FilterV) -> Result<StateV, ICalError> {
    match s.phase {
        PhaseV::Outside => match t {
            TokenV::Begin(n) if n == vcalendar_word() => Ok(StateV { phase: PhaseV::InCalendar, ..s }),
            _ => Err(ICalError::UnableEvaluateExpression),
        },
        PhaseV::InCalendar => match t {
            TokenV::Begin(n) if n == vevent_word() => Ok(
                StateV { phase: PhaseV::InEvent(empty_draft()), ..s },
            ),
            TokenV::End(n) if n == vcalendar_word() => Ok(StateV { phase: PhaseV::Outside, ..s }),
            TokenV::Property { .. } => Ok(s),
            _ => Err(ICalError::UnableEvaluateExpression),
        },
        PhaseV::InEvent(d) => match t {
            TokenV::End(n) if n == vevent_word() => match complete(d) {
                Some(e) => Ok(
                    StateV {
                        phase: PhaseV::InCalendar,
                        days: if filter_accepts(f, e) {
                            store_insert(s.days, e)
                        } else {
                            s.days
                        },
                    },
                ),
                None => Err(ICalError::UnableEvaluateExpression),
            },
            TokenV::Property { name, params, value } => match apply_property(d, name, params, value) {
                Ok(d2) => Ok(StateV { phase: PhaseV::InEvent(d2), ..s }),
                Err(e) => Err(e),
            },
            _ => Err(ICalError::UnableEvaluateExpression),
        },
    }
}

pub open spec fn initial_state() -> StateV {
    StateV { phase: PhaseV::Outside, days: Seq::<(int, Seq<EventV>)>::empty() }
}

/// The state after a sequence of tokens; the first failing token decides the
/// error.
pub open spec fn run(ts: Seq<TokenV>, f: FilterV) -> Result<StateV, ICalError>
    decreases ts.len(),
{
    if ts.len() == 0 {
        Ok(initial_state())
    } else {
        match run(ts.drop_last(), f) {
            Ok(s) => step(s, ts.last(), f),
            Err(e) => Err(e),
        }
    }
}

/// The result of parsing a document: its days, or the first error. The input
/// must end outside any component.
pub open spec fn parse_result(text: Seq<char>, f: FilterV) -> Result<Seq<(int, Seq<EventV>)>, ICalError> {
    match lex(text) {
        Err(e) => Err(e),
        Ok(ts) => match run(ts, f) {
            Err(e) => Err(e),
            Ok(s) => if s.phase is Outside {
                Ok(s.days)
            } else {
                Err(ICalError::UnableEvaluateExpression)
            },
        },
    }
}

/// Every instant that a draft holds is in range.
pub open spec fn draft_ok(d: DraftV) -> bool {
    (d.start matches Some(t) ==> in_range(t)) && (d.end matches Some(t) ==> in_range(t))
}

pub open spec fn phase_ok(p: PhaseV) -> bool {
    p matches PhaseV::InEvent(d) ==> draft_ok(d)
}

struct Draft {
    start: Option<i64>,
    end: Option<i64>,
    summary: Option<String>,
    location: Option<String>,
    teacher: Option<String>,
    tags: Vec<String>,
}

pub open spec fn opt_int_view(t: Option<i64>) -> Option<int> {
    match t {
        Some(x) => Some(x as int),
        None => None,
    }
}

impl View for Draft {
    type V = DraftV;

    closed spec fn view(&self) -> DraftV {
        DraftV {
            start: opt_int_view(self.start),
            end: opt_int_view(self.end),
            summary: opt_text_view(self.summary),
            location: opt_text_view(self.location),
            teacher: opt_text_view(self.teacher),
            tags: texts_view(self.tags@),
        }
    }
}

enum Phase {
    Outside,
    InCalendar,
    InEvent(Draft),
}

impl View for Phase {
    type V = PhaseV;

    closed spec fn view(&self) -> PhaseV {
        match self {
            Phase::Outside => PhaseV::Outside,
            Phase::InCalendar => PhaseV::InCalendar,
            Phase::InEvent(d) => PhaseV::InEvent(d@),
        }
    }
}

fn apply(d: Draft, name: &Vec<char>, params: &Vec<Param>, value: &String) -> (r: Result<Draft, ICalError>)
    requires
        draft_ok(d@),
    ensures
        match r {
            Ok(d2) => apply_property(d@, name@, params_view(params@), value@) == Ok::<DraftV, ICalError>(d2@)
                && draft_ok(d2@),
            Err(e) => apply_property(d@, name@, params_view(params@), value@) == Err::<DraftV, ICalError>(e),
        },
{
    let mut d = d;
    assert(['D', 'T', 'S', 'T', 'A', 'R', 'T']@ =~= dtstart_word());
    assert(['D', 'T', 'E', 'N', 'D']@ =~= dtend_word());
    assert(['S', 'U', 'M', 'M', 'A', 'R', 'Y']@ =~= summary_word());
    assert(['L', 'O', 'C', 'A', 'T', 'I', 'O', 'N']@ =~= location_word());
    assert(['X', '-', 'T', 'E', 'A', 'C', 'H', 'E', 'R']@ =~= teacher_word());
    assert(['X', '-', 'T', 'A', 'G']@ =~= tag_word());
    let chars = str_chars(value.as_str());
    if chars_equal(name, &['D', 'T', 'S', 'T', 'A', 'R', 'T']) {
        let t = normalize(&chars, params)?;
        d.start = Some(t);
    } else if chars_equal(name, &['D', 'T', 'E', 'N', 'D']) {
        let t = normalize(&chars, params)?;
        d.end = Some(t);
    } else if chars_equal(name, &['S', 'U', 'M', 'M', 'A', 'R', 'Y']) {
        d.summary = Some(value.clone());
    } else if chars_equal(name, &['L', 'O', 'C', 'A', 'T', 'I', 'O', 'N']) {
        d.location = Some(value.clone());
    } else if chars_equal(name, &['X', '-', 'T', 'E', 'A', 'C', 'H', 'E', 'R']) {
        d.teacher = Some(value.clone());
    } else if chars_equal(name, &['X', '-', 'T', 'A', 'G']) {
        let ghost before = d.tags@;
        d.tags.push(value.clone());
        assert(texts_view(d.tags@) =~= texts_view(before).push(value@));
    }
    Ok(d)
}

fn finish(d: Draft) -> (r: Option<Event>)
    requires
        draft_ok(d@),
    ensures
        match r {
            Some(e) => complete(d@) == Some(e@) && in_range(e.start as int),
            None => complete(d@) is None,
        },
{
    match (d.start, d.end, d.summary) {
        (Some(start), Some(end), Some(summary)) => {
            let location = match d.location {
                Some(l) => l,
                None => String::new(),
            };
            Some(Event { start, end, summary, location, teacher: d.teacher, tags: d.tags })
        },
        _ => None,
    }
}

fn advance(phase: Phase, t: &Token, f: &EventFilter, ical: &mut ICal) -> (r: Result<Phase, ICalError>)
    requires
        phase_ok(phase@),
    ensures
        match r {
            Ok(p) => step(StateV { phase: phase@, days: old(ical)@ }, t@, f@) == Ok::<StateV, ICalError>(
                StateV { phase: p@, days: final(ical)@ },
            ) && phase_ok(p@),
            Err(e) => step(StateV { phase: phase@, days: old(ical)@ }, t@, f@) == Err::<StateV, ICalError>(e),
        },
{
    assert(['V', 'C', 'A', 'L', 'E', 'N', 'D', 'A', 'R']@ =~= vcalendar_word());
    assert(['V', 'E', 'V', 'E', 'N', 'T']@ =~= vevent_word());
    match phase {
        Phase::Outside => match t {
            Token::Begin(n) => {
                if chars_equal(n, &['V', 'C', 'A', 'L', 'E', 'N', 'D', 'A', 'R']) {
                    Ok(Phase::InCalendar)
                } else {
                    Err(ICalError::UnableEvaluateExpression)
                }
            },
            _ => Err(ICalError::UnableEvaluateExpression),
        },
        Phase::InCalendar => match t {
            Token::Begin(n) => {
                if chars_equal(n, &['V', 'E', 'V', 'E', 'N', 'T']) {
                    let d = Draft {
                        start: None,
                        end: None,
                        summary: None,
                        location: None,
                        teacher: None,
                        tags: Vec::new(),
                    };
                    assert(texts_view(d.tags@) =~= Seq::<Seq<char>>::empty());
                    assert(d@ =~= empty_draft());
                    Ok(Phase::InEvent(d))
                } else {
                    Err(ICalError::UnableEvaluateExpression)
                }
            },
            Token::End(n) => {
                if chars_equal(n, &['V', 'C', 'A', 'L', 'E', 'N', 'D', 'A', 'R']) {
                    Ok(Phase::Outside)
                } else {
                    Err(ICalError::UnableEvaluateExpression)
                }
            },
            Token::Property { .. } => Ok(Phase::InCalendar),
        },
        Phase::InEvent(d) => match t {
            Token::End(n) => {
                if !chars_equal(n, &['V', 'E', 'V', 'E', 'N', 'T']) {
                    return Err(ICalError::UnableEvaluateExpression);
                }
                match finish(d) {
                    Some(e) => {
                        if f.accepts(&e) {
                            ical.insert(e);
                        }
                        Ok(Phase::InCalendar)
                    },
                    None => Err(ICalError::UnableEvaluateExpression),
                }
            },
            Token::Property { name, params, value } => {
                let d2 = apply(d, name, params, value)?;
                Ok(Phase::InEvent(d2))
            },
            _ => Err(ICalError::UnableEvaluateExpression),
        },
    }
}

/// A failing token fails the whole run.
proof fn lemma_run_prefix(ts: Seq<TokenV>, f: FilterV, i: int, e: ICalError)
    requires
        0 <= i <= ts.len(),
        run(ts.subrange(0, i), f) == Err::<StateV, ICalError>(e),
    ensures
        run(ts, f) == Err::<StateV, ICalError>(e),
    decreases ts.len() - i,
{
    if i < ts.len() {
        assert(ts.subrange(0, i + 1).drop_last() =~= ts.subrange(0, i));
        lemma_run_prefix(ts, f, i + 1, e);
    } else {
        assert(ts.subrange(0, i) =~= ts);
    }
}

/// Every state reached by the grammar holds ordered days.
pub proof fn lemma_run_ordered(ts: Seq<TokenV>, f: FilterV)
    ensures
        run(ts, f) matches Ok(s) ==> ordered(s.days),
    decreases ts.len(),
{
    if ts.len() > 0 {
        lemma_run_ordered(ts.drop_last(), f);
        match run(ts.drop_last(), f) {
            Ok(s) => {
                if let PhaseV::InEvent(d) = s.phase {
                    if let Some(e) = complete(d) {
                        lemma_store_insert_ordered(s.days, e);
                    }
                }
            },
            Err(_) => {},
        }
    }
}

/// Whatever document is parsed, with whatever filter, the days of the result
/// have strictly ascending keys, and within each day the events are in event
/// order (start, then end, then summary), each on the day of its start.
pub proof fn lemma_parse_ordered(text: Seq<char>, f: FilterV)
    ensures
        parse_result(text, f) matches Ok(days) ==> ordered(days),
{
    if let Ok(ts) = lex(text) {
        lemma_run_ordered(ts, f);
    }
}

/// Parses a calendar document, keeping the events that pass the filter.
/// Fails with the first error met: `TokenParse` from the lexer, `DateParse`
/// from a date value, `UnableEvaluateExpression` from the grammar.
pub fn parse(cal: &str, filter: EventFilter) -> (r: Result<ICal, ICalError>)
    ensures
        match r {
            Ok(c) => parse_result(cal@, filter@) == Ok::<Seq<(int, Seq<EventV>)>, ICalError>(c@)
                && ordered(c@),
            Err(e) => parse_result(cal@, filter@) == Err::<Seq<(int, Seq<EventV>)>, ICalError>(e),
        },
{
    let tokens = tokenize(cal)?;
    let ghost ts = tokens_view(tokens@);
    let mut ical = ICal::new();
    let mut phase = Phase::Outside;
    let mut i: usize = 0;
    assert(ts.subrange(0, 0) =~= Seq::<TokenV>::empty());
    while i < tokens.len()
        invariant
            i <= tokens.len(),
            ts == tokens_view(tokens@),
            lex(cal@) == Ok::<Seq<TokenV>, ICalError>(ts),
            run(ts.subrange(0, i as int), filter@) == Ok::<StateV, ICalError>(
                StateV { phase: phase@, days: ical@ },
            ),
            phase_ok(phase@),
        decreases tokens.len() - i,
    {
        assert(ts.subrange(0, i as int + 1).drop_last() =~= ts.subrange(0, i as int));
        match advance(phase, &tokens[i], &filter, &mut ical) {
            Ok(p) => {
                phase = p;
            },
            Err(e) => {
                proof { lemma_run_prefix(ts, filter@, i as int + 1, e); }
                return Err(e);
            },
        }
        i = i + 1;
    }
    assert(ts.subrange(0, tokens.len() as int) =~= ts);
    proof { lemma_run_ordered(ts, filter@); }
    match phase {
        Phase::Outside => Ok(ical),
        _ => Err(ICalError::UnableEvaluateExpression),
    }
}

/// Relies on `std::str::from_utf8`, which succeeds exactly on valid UTF-8 and
/// then views the same bytes as text.
#[verifier::external_body]
fn decode_utf8_text(bytes: &[u8]) -> (r: Option<&str>)
    ensures
        r is Some <==> valid_utf8(bytes@),
        r matches Some(s) ==> s@ == decode_utf8(bytes@),
{
    match std::str::from_utf8(bytes) {
        Ok(s) => Some(s),
        Err(_) => None,
    }
}

/// Parses a calendar document given as bytes: bytes that are not UTF-8 fail
/// with `TokenParse`; otherwise as `parse` on the decoded text.
pub fn parse_bytes(cal: &[u8], filter: EventFilter) -> (r: Result<ICal, ICalError>)
    ensures
        !valid_utf8(cal@) ==> r == Err::<ICal, ICalError>(ICalError::TokenParse),
        valid_utf8(cal@) ==> match r {
            Ok(c) => parse_result(decode_utf8(cal@), filter@) == Ok::<
                Seq<(int, Seq<EventV>)>,
                ICalError,
            >(c@) && ordered(c@),
            Err(e) => parse_result(decode_utf8(cal@), filter@) == Err::<
                Seq<(int, Seq<EventV>)>,
                ICalError,
            >(e),
        },
{
    match decode_utf8_text(cal) {
        Some(text) => parse(text, filter),
        None => Err(ICalError::TokenParse),
    }
}

} // verus!
