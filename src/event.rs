//! Events and their order.
use vstd::prelude::*;
use core::cmp::Ordering;

verus! {

/// Lexicographic order of texts by code point.
pub open spec fn text_lt(a: Seq<char>, b: Seq<char>) -> bool
    decreases a.len(),
{
    if a.len() == 0 {
        b.len() > 0
    } else if b.len() == 0 {
        false
    } else if a[0] != b[0] {
        a[0] < b[0]
    } else {
        text_lt(a.drop_first(), b.drop_first())
    }
}

pub proof fn lemma_text_lt_irreflexive(a: Seq<char>)
    ensures
        !text_lt(a, a),
    decreases a.len(),
{
    if a.len() > 0 {
        lemma_text_lt_irreflexive(a.drop_first());
    }
}

pub proof fn lemma_text_lt_total(a: Seq<char>, b: Seq<char>)
    ensures
        a == b || text_lt(a, b) || text_lt(b, a),
    decreases a.len(),
{
    if a.len() > 0 && b.len() > 0 && a[0] == b[0] {
        lemma_text_lt_total(a.drop_first(), b.drop_first());
        if a.drop_first() == b.drop_first() {
            assert(a =~= seq![a[0]] + a.drop_first());
            assert(b =~= seq![b[0]] + b.drop_first());
        }
    } else if a.len() == 0 && b.len() == 0 {
        assert(a =~= b);
    }
}

pub proof fn lemma_text_lt_transitive(a: Seq<char>, b: Seq<char>, c: Seq<char>)
    requires
        text_lt(a, b),
        text_lt(b, c),
    ensures
        text_lt(a, c),
    decreases a.len(),
{
    if a.len() > 0 && b.len() > 0 && c.len() > 0 && a[0] == b[0] && b[0] == c[0] {
        lemma_text_lt_transitive(a.drop_first(), b.drop_first(), c.drop_first());
    }
}

/// The mathematical value of an event: instants as seconds since the Unix epoch.
pub ghost struct EventV {
    pub start: int,
    pub end: int,
    pub summary: Seq<char>,
    pub location: Seq<char>,
    pub teacher: Option<Seq<char>>,
    pub tags: Seq<Seq<char>>,
}

/// The order of events: by start, then end, then summary. Location, teacher
/// and tags take no part in it.
pub open spec fn event_lt(a: EventV, b: EventV) -> bool {
    a.start < b.start || (a.start == b.start && (a.end < b.end || (a.end == b.end && text_lt(
        a.summary,
        b.summary,
    ))))
}

/// Equality of events under their order.
pub open spec fn event_same(a: EventV, b: EventV) -> bool {
    a.start == b.start && a.end == b.end && a.summary == b.summary
}

pub open spec fn event_le(a: EventV, b: EventV) -> bool {
    !event_lt(b, a)
}

pub proof fn lemma_event_order(a: EventV, b: EventV, c: EventV)
    ensures
        !event_lt(a, a),
        event_lt(a, b) || event_lt(b, a) || event_same(a, b),
        event_lt(a, b) && event_lt(b, c) ==> event_lt(a, c),
        event_le(a, b) && event_le(b, c) ==> event_le(a, c),
        event_lt(a, b) && event_le(b, c) ==> event_lt(a, c),
        event_le(a, b) && event_lt(b, c) ==> event_lt(a, c),
{
    lemma_text_lt_irreflexive(a.summary);
    lemma_text_lt_total(a.summary, b.summary);
    lemma_text_lt_total(b.summary, c.summary);
    lemma_text_lt_total(a.summary, c.summary);
    if text_lt(a.summary, b.summary) && text_lt(b.summary, c.summary) {
        lemma_text_lt_transitive(a.summary, b.summary, c.summary);
    }
    if text_lt(c.summary, b.summary) && text_lt(b.summary, a.summary) {
        lemma_text_lt_transitive(c.summary, b.summary, a.summary);
    }
    if text_lt(a.summary, c.summary) && text_lt(c.summary, b.summary) {
        lemma_text_lt_transitive(a.summary, c.summary, b.summary);
    }
    if text_lt(b.summary, a.summary) && text_lt(a.summary, c.summary) {
        lemma_text_lt_transitive(b.summary, a.summary, c.summary);
    }
    if text_lt(c.summary, a.summary) && text_lt(a.summary, b.summary) {
        lemma_text_lt_transitive(c.summary, a.summary, b.summary);
    }
    if text_lt(b.summary, c.summary) && text_lt(c.summary, a.summary) {
        lemma_text_lt_transitive(b.summary, c.summary, a.summary);
    }
    lemma_text_lt_irreflexive(b.summary);
    lemma_text_lt_irreflexive(c.summary);
}

/// Relies on the `<` of `str`, which orders strings lexicographically by code
/// point.
#[verifier::external_body]
fn text_less(a: &str, b: &str) -> (r: bool)
    ensures
        r == text_lt(a@, b@),
{
    a < b
}

/// One occurrence extracted from a calendar document.
pub struct Event {
    pub start: i64,
    pub end: i64,
    pub summary: String,
    pub location: String,
    pub teacher: Option<String>,
    pub tags: Vec<String>,
}

pub open spec fn opt_text_view(t: Option<String>) -> Option<Seq<char>> {
    match t {
        Some(s) => Some(s@),
        None => None,
    }
}

pub open spec fn texts_view(ts: Seq<String>) -> Seq<Seq<char>> {
    ts.map_values(|t: String| t@)
}

impl View for Event {
    type V = EventV;

    open spec fn view(&self) -> EventV {
        EventV {
            start: self.start as int,
            end: self.end as int,
            summary: self.summary@,
            location: self.location@,
            teacher: opt_text_view(self.teacher),
            tags: texts_view(self.tags@),
        }
    }
}

impl Event {
    /// Whether `self` comes strictly before `other` in the event order.
    pub fn precedes(&self, other: &Event) -> (r: bool)
        ensures
            r == event_lt(self@, other@),
    {
        if self.start != other.start {
            return self.start < other.start;
        }
        if self.end != other.end {
            return self.end < other.end;
        }
        text_less(self.summary.as_str(), other.summary.as_str())
    }
}

impl PartialEq for Event {
    fn eq(&self, other: &Event) -> (r: bool)
        ensures
            r == event_same(self@, other@),
    {
        self.start == other.start && self.end == other.end && self.summary == other.summary
    }
}

impl vstd::std_specs::cmp::PartialEqSpecImpl for Event {
    open spec fn obeys_eq_spec() -> bool {
        true
    }

    open spec fn eq_spec(&self, other: &Event) -> bool {
        event_same(self@, other@)
    }
}

impl Eq for Event {}

pub open spec fn event_cmp(a: EventV, b: EventV) -> Ordering {
    if event_lt(a, b) {
        Ordering::Less
    } else if event_lt(b, a) {
        Ordering::Greater
    } else {
        Ordering::Equal
    }
}

impl PartialOrd for Event {
    fn partial_cmp(&self, other: &Event) -> (r: Option<Ordering>)
        ensures
            r == Some(event_cmp(self@, other@)),
    {
        if self.precedes(other) {
            Some(Ordering::Less)
        } else if other.precedes(self) {
            Some(Ordering::Greater)
        } else {
            Some(Ordering::Equal)
        }
    }
}

impl vstd::std_specs::cmp::PartialOrdSpecImpl for Event {
    open spec fn obeys_partial_cmp_spec() -> bool {
        true
    }

    open spec fn partial_cmp_spec(&self, other: &Event) -> Option<Ordering> {
        Some(event_cmp(self@, other@))
    }
}

} // verus!
