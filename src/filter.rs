//! Field-level regular-expression filtering of events.
use vstd::prelude::*;
use crate::event::{Event, EventV, texts_view};

verus! {

#[verifier::external_type_specification]
#[verifier::external_body]
pub struct ExRegex(regex::Regex);

#[verifier::external_type_specification]
#[verifier::external_body]
pub struct ExRegexError(regex::Error);

/// Whether a pattern is accepted by the regex compiler.
pub uninterp spec fn regex_compiles(pattern: Seq<char>) -> bool;

/// Whether the regex compiled from `pattern` matches somewhere in `haystack`.
pub uninterp spec fn regex_finds(pattern: Seq<char>, haystack: Seq<char>) -> bool;

/// Relies on `regex::Regex::new`: whether it succeeds depends on the pattern
/// alone.
#[verifier::external_body]
fn compile(pattern: &str) -> (r: Result<regex::Regex, regex::Error>)
    ensures
        r is Ok <==> regex_compiles(pattern@),
{
    regex::Regex::new(pattern)
}

/// A compiled regular expression together with the pattern it was compiled
/// from.
pub struct Pattern {
    source: String,
    regex: regex::Regex,
}

impl View for Pattern {
    type V = Seq<char>;

    closed spec fn view(&self) -> Seq<char> {
        self.source@
    }
}

/// Relies on `regex::Regex::is_match` on the regex that `Pattern::new`
/// compiled from the pattern's source.
#[verifier::external_body]
fn pattern_finds(p: &Pattern, haystack: &str) -> (r: bool)
    ensures
        r == regex_finds(p@, haystack@),
{
    p.regex.is_match(haystack)
}

impl Pattern {
    /// Compiles a pattern; fails exactly where the regex compiler does.
    pub fn new(pattern: &str) -> (r: Result<Pattern, regex::Error>)
        ensures
            r is Ok <==> regex_compiles(pattern@),
            r matches Ok(p) ==> p@ == pattern@,
    {
        match compile(pattern) {
            Ok(regex) => Ok(Pattern { source: pattern.to_owned(), regex }),
            Err(e) => Err(e),
        }
    }

    /// The source of the pattern.
    pub fn as_str(&self) -> (r: &str)
        ensures
            r@ == self@,
    {
        self.source.as_str()
    }

    /// Whether the pattern matches somewhere in `haystack`.
    pub fn is_match(&self, haystack: &str) -> (r: bool)
        ensures
            r == regex_finds(self@, haystack@),
    {
        pattern_finds(self, haystack)
    }
}

/// The query applied to every completed event.
pub ghost struct FilterV {
    pub summary: Option<Seq<char>>,
    pub location: Option<Seq<char>>,
    pub teacher: Option<Seq<char>>,
    pub tags: Option<Seq<char>>,
    pub all: bool,
}

/// Up to four regex predicates, one per field, and the combinator `all`
/// (conjunction when true, disjunction when false) over those present.
pub struct EventFilter {
    pub summary: Option<Pattern>,
    pub location: Option<Pattern>,
    pub teacher: Option<Pattern>,
    pub tags: Option<Pattern>,
    pub all: bool,
}

pub open spec fn opt_pattern_view(p: Option<Pattern>) -> Option<Seq<char>> {
    match p {
        Some(q) => Some(q@),
        None => None,
    }
}

impl View for EventFilter {
    type V = FilterV;

    open spec fn view(&self) -> FilterV {
        FilterV {
            summary: opt_pattern_view(self.summary),
            location: opt_pattern_view(self.location),
            teacher: opt_pattern_view(self.teacher),
            tags: opt_pattern_view(self.tags),
            all: self.all,
        }
    }
}

/// A teacher predicate never matches an event without a teacher.
pub open spec fn teacher_matches(p: Seq<char>, t: Option<Seq<char>>) -> bool {
    match t {
        Some(x) => regex_finds(p, x),
        None => false,
    }
}

/// A tag predicate matches when at least one tag matches.
pub open spec fn some_tag_matches(p: Seq<char>, tags: Seq<Seq<char>>) -> bool {
    exists|i: int| 0 <= i < tags.len() && regex_finds(p, #[trigger] tags[i])
}

pub open spec fn outcome(p: Option<Seq<char>>, hit: spec_fn(Seq<char>) -> bool) -> Seq<bool> {
    match p {
        Some(q) => seq![hit(q)],
        None => Seq::<bool>::empty(),
    }
}

/// The outcome of each predicate that the filter holds, in field order.
pub open spec fn predicate_outcomes(f: FilterV, e: EventV) -> Seq<bool> {
    outcome(f.summary, |q: Seq<char>| regex_finds(q, e.summary)) + outcome(
        f.location,
        |q: Seq<char>| regex_finds(q, e.location),
    ) + outcome(f.teacher, |q: Seq<char>| teacher_matches(q, e.teacher)) + outcome(
        f.tags,
        |q: Seq<char>| some_tag_matches(q, e.tags),
    )
}

/// All outcomes true under `all`, at least one otherwise; with no predicate
/// at all, every event is kept.
pub open spec fn combine(rs: Seq<bool>, all: bool) -> bool {
    if all {
        forall|i: int| 0 <= i < rs.len() ==> #[trigger] rs[i]
    } else {
        rs.len() == 0 || exists|i: int| 0 <= i < rs.len() && #[trigger] rs[i]
    }
}

pub open spec fn filter_accepts(f: FilterV, e: EventV) -> bool {
    combine(predicate_outcomes(f, e), f.all)
}

fn combine_outcomes(rs: &Vec<bool>, all: bool) -> (r: bool)
    ensures
        r == combine(rs@, all),
{
    if rs.len() == 0 {
        return true;
    }
    let mut i: usize = 0;
    while i < rs.len()
        invariant
            i <= rs.len(),
            forall|j: int| 0 <= j < i ==> rs@[j] == all,
        decreases rs.len() - i,
    {
        if rs[i] != all {
            return !all;
        }
        i = i + 1;
    }
    all
}

fn any_tag_matches(p: &Pattern, tags: &Vec<String>) -> (r: bool)
    ensures
        r == some_tag_matches(p@, texts_view(tags@)),
{
    let mut i: usize = 0;
    while i < tags.len()
        invariant
            i <= tags.len(),
            forall|j: int| 0 <= j < i ==> !regex_finds(p@, #[trigger] texts_view(tags@)[j]),
        decreases tags.len() - i,
    {
        if pattern_finds(p, tags[i].as_str()) {
            assert(regex_finds(p@, texts_view(tags@)[i as int]));
            return true;
        }
        i = i + 1;
    }
    false
}

impl EventFilter {
    /// Whether an event passes the filter: each present predicate is tested
    /// against its field, and the outcomes are combined by `all`.
    pub fn accepts(&self, e: &Event) -> (r: bool)
        ensures
            r == filter_accepts(self@, e@),
    {
        let ghost f = self@;
        let ghost ev = e@;
        let mut rs: Vec<bool> = Vec::new();
        if let Some(p) = &self.summary {
            rs.push(pattern_finds(p, e.summary.as_str()));
        }
        assert(rs@ =~= outcome(f.summary, |q: Seq<char>| regex_finds(q, ev.summary)));
        let ghost r1 = rs@;
        if let Some(p) = &self.location {
            rs.push(pattern_finds(p, e.location.as_str()));
        }
        assert(rs@ =~= r1 + outcome(f.location, |q: Seq<char>| regex_finds(q, ev.location)));
        let ghost r2 = rs@;
        if let Some(p) = &self.teacher {
            let hit = match &e.teacher {
                Some(t) => pattern_finds(p, t.as_str()),
                None => false,
            };
            rs.push(hit);
        }
        assert(rs@ =~= r2 + outcome(f.teacher, |q: Seq<char>| teacher_matches(q, ev.teacher)));
        let ghost r3 = rs@;
        if let Some(p) = &self.tags {
            rs.push(any_tag_matches(p, &e.tags));
        }
        assert(rs@ =~= r3 + outcome(f.tags, |q: Seq<char>| some_tag_matches(q, ev.tags)));
        assert(rs@ =~= predicate_outcomes(f, ev));
        combine_outcomes(&rs, self.all)
    }
}

} // verus!
