use edt_ical::date::normalize;
use edt_ical::lexer::{tokenize, Token};
use edt_ical::query::{build_filter, CalQuery, QueryError};
use edt_ical::{parse, parse_bytes, EventFilter, ICal, ICalError, Pattern};

fn no_filter() -> EventFilter {
    EventFilter { summary: None, location: None, teacher: None, tags: None, all: false }
}

fn pat(p: &str) -> Option<Pattern> {
    Some(Pattern::new(p).unwrap())
}

fn event_block(start: &str, end: &str, summary: &str, extra: &str) -> String {
    format!(
        "BEGIN:VEVENT\r\nDTSTART:{}\r\nDTEND:{}\r\nSUMMARY:{}\r\n{}END:VEVENT\r\n",
        start, end, summary, extra
    )
}

fn calendar(events: &[String]) -> String {
    let mut s = String::from("BEGIN:VCALENDAR\r\nVERSION:2.0\r\nPRODID:test\r\n");
    for e in events {
        s.push_str(e);
    }
    s.push_str("END:VCALENDAR\r\n");
    s
}

fn summaries(c: &ICal) -> Vec<String> {
    let mut out = Vec::new();
    for d in c.days() {
        for e in &d.events {
            out.push(e.summary.clone());
        }
    }
    out
}

#[test]
fn minimal_round_trip() {
    let doc = calendar(&[event_block("20230105T080000Z", "20230105T100000Z", "Math", "")]);
    let c = parse(&doc, no_filter()).unwrap();
    assert_eq!(c.days().len(), 1);
    let d = &c.days()[0];
    assert_eq!(d.key, 1672876800);
    assert_eq!(d.events.len(), 1);
    let e = &d.events[0];
    assert_eq!(e.start, 1672905600);
    assert_eq!(e.end, 1672912800);
    assert_eq!(e.summary, "Math");
    assert_eq!(e.location, "");
    assert_eq!(e.teacher, None);
    assert!(e.tags.is_empty());
}

#[test]
fn ordering_within_and_across_days() {
    let doc = calendar(&[
        event_block("20230106T090000Z", "20230106T100000Z", "late", ""),
        event_block("20230105T090000Z", "20230105T110000Z", "b", ""),
        event_block("20230105T090000Z", "20230105T110000Z", "a", ""),
        event_block("20230105T090000Z", "20230105T100000Z", "z", ""),
        event_block("20230105T070000Z", "20230105T080000Z", "first", ""),
    ]);
    let c = parse(&doc, no_filter()).unwrap();
    assert_eq!(summaries(&c), vec!["first", "z", "a", "b", "late"]);
    let days = c.days();
    assert_eq!(days.len(), 2);
    assert!(days[0].key < days[1].key);
    for d in days {
        for w in d.events.windows(2) {
            assert!(w[0] <= w[1]);
        }
    }
}

#[test]
fn equal_events_keep_insertion_order() {
    let doc = calendar(&[
        event_block("20230105T090000Z", "20230105T100000Z", "Same", "LOCATION:one\r\n"),
        event_block("20230105T090000Z", "20230105T100000Z", "Same", "LOCATION:two\r\n"),
    ]);
    let c = parse(&doc, no_filter()).unwrap();
    let ev = &c.days()[0].events;
    assert_eq!(ev[0].location, "one");
    assert_eq!(ev[1].location, "two");
    assert!(ev[0] == ev[1]);
}

fn two_single_matchers() -> String {
    calendar(&[
        event_block("20230105T080000Z", "20230105T090000Z", "Math 101", "LOCATION:Room 3\r\n"),
        event_block("20230105T100000Z", "20230105T110000Z", "Physics", "LOCATION:Lab 2\r\n"),
        event_block("20230105T120000Z", "20230105T130000Z", "Math lab", "LOCATION:Lab 1\r\n"),
        event_block("20230105T140000Z", "20230105T150000Z", "History", "LOCATION:Hall\r\n"),
    ])
}

#[test]
fn filter_disjunction() {
    let f = EventFilter {
        summary: pat("^Math"),
        location: pat("^Lab"),
        teacher: None,
        tags: None,
        all: false,
    };
    let c = parse(&two_single_matchers(), f).unwrap();
    assert_eq!(summaries(&c), vec!["Math 101", "Physics", "Math lab"]);
}

#[test]
fn filter_conjunction() {
    let f = EventFilter {
        summary: pat("^Math"),
        location: pat("^Lab"),
        teacher: None,
        tags: None,
        all: true,
    };
    let c = parse(&two_single_matchers(), f).unwrap();
    assert_eq!(summaries(&c), vec!["Math lab"]);
}

#[test]
fn empty_filter_keeps_everything_under_all() {
    let mut f = no_filter();
    f.all = true;
    let c = parse(&two_single_matchers(), f).unwrap();
    assert_eq!(summaries(&c).len(), 4);
}

#[test]
fn tag_any_of() {
    let doc = calendar(&[
        event_block("20230105T080000Z", "20230105T090000Z", "A", "X-TAG:TP\r\nX-TAG:CM\r\n"),
        event_block("20230105T100000Z", "20230105T110000Z", "B", "X-TAG:CM\r\n"),
        event_block("20230105T120000Z", "20230105T130000Z", "C", ""),
    ]);
    let f = EventFilter { summary: None, location: None, teacher: None, tags: pat("^TP$"), all: false };
    let c = parse(&doc, f).unwrap();
    assert_eq!(summaries(&c), vec!["A"]);
    let e = &c.days()[0].events[0];
    assert_eq!(e.tags, vec!["TP".to_string(), "CM".to_string()]);
}

#[test]
fn teacher_predicate_needs_a_teacher() {
    let doc = calendar(&[
        event_block("20230105T080000Z", "20230105T090000Z", "A", "X-TEACHER:Dupont\r\n"),
        event_block("20230105T100000Z", "20230105T110000Z", "B", ""),
    ]);
    let f = EventFilter { summary: None, location: None, teacher: pat(".*"), tags: None, all: false };
    let c = parse(&doc, f).unwrap();
    assert_eq!(summaries(&c), vec!["A"]);
    assert_eq!(c.days()[0].events[0].teacher, Some("Dupont".to_string()));
}

#[test]
fn fatal_structural_error() {
    let doc = "BEGIN:VCALENDAR\r\nEND:VEVENT\r\nEND:VCALENDAR\r\n";
    assert!(matches!(parse(doc, no_filter()), Err(ICalError::UnableEvaluateExpression)));
}

#[test]
fn unclosed_calendar_is_an_error() {
    let doc = "BEGIN:VCALENDAR\r\n";
    assert!(matches!(parse(doc, no_filter()), Err(ICalError::UnableEvaluateExpression)));
}

#[test]
fn missing_summary_is_an_error() {
    let doc = calendar(&["BEGIN:VEVENT\r\nDTSTART:20230105T080000Z\r\nDTEND:20230105T090000Z\r\nEND:VEVENT\r\n".to_string()]);
    assert!(matches!(parse(&doc, no_filter()), Err(ICalError::UnableEvaluateExpression)));
}

#[test]
fn nested_unknown_component_is_an_error() {
    let doc = calendar(&["BEGIN:VTODO\r\nEND:VTODO\r\n".to_string()]);
    assert!(matches!(parse(&doc, no_filter()), Err(ICalError::UnableEvaluateExpression)));
}

#[test]
fn date_failure_aborts_everything() {
    let doc = calendar(&[
        event_block("20230105T080000Z", "20230105T090000Z", "Good", ""),
        event_block("2023-01-05 08:00", "20230105T090000Z", "Bad", ""),
    ]);
    assert!(matches!(parse(&doc, no_filter()), Err(ICalError::DateParse)));
}

#[test]
fn impossible_dates_fail() {
    for v in ["20230230T080000Z", "20231301", "20230105T240000Z", "20230105T086000"] {
        let doc = calendar(&[event_block(v, "20230105T090000Z", "X", "")]);
        assert!(matches!(parse(&doc, no_filter()), Err(ICalError::DateParse)), "{}", v);
    }
}

#[test]
fn midnight_boundary() {
    let doc = calendar(&[
        event_block("20230106T000100Z", "20230106T010000Z", "after", ""),
        event_block("20230105T235900Z", "20230106T000000Z", "before", ""),
    ]);
    let c = parse(&doc, no_filter()).unwrap();
    let days = c.days();
    assert_eq!(days.len(), 2);
    assert_eq!(days[0].key, 1672876800);
    assert_eq!(days[1].key, 1672963200);
    assert_eq!(days[0].events[0].summary, "before");
    assert_eq!(days[0].events[0].start, 1672963140);
    assert_eq!(days[1].events[0].summary, "after");
    assert_eq!(days[1].events[0].start, 1672963260);
}

#[test]
fn date_forms() {
    let v = |s: &str| s.chars().collect::<Vec<char>>();
    assert_eq!(normalize(&v("19700101"), &Vec::new()), Ok(0));
    assert_eq!(normalize(&v("20240229"), &Vec::new()), Ok(1709164800));
    assert_eq!(normalize(&v("20230105T080000"), &Vec::new()), Ok(1672905600));
    assert_eq!(normalize(&v("20230105T080000Z"), &Vec::new()), Ok(1672905600));
    assert_eq!(normalize(&v("19691231T235959Z"), &Vec::new()), Ok(-1));
    assert_eq!(normalize(&v("00000101"), &Vec::new()), Ok(-62167219200));
    assert_eq!(normalize(&v("20230229"), &Vec::new()), Err(ICalError::DateParse));
}

#[test]
fn zoned_date_times() {
    let doc = calendar(&[
        event_block("20230105T090000", "20230105T100000", "plain", ""),
    ])
    .replace("DTSTART:", "DTSTART;TZID=+0100:")
    .replace("DTEND:", "DTEND;VALUE=DATE-TIME;TZID=UTC:");
    let c = parse(&doc, no_filter()).unwrap();
    let e = &c.days()[0].events[0];
    assert_eq!(e.start, 1672905600);
    assert_eq!(e.end, 1672912800);
    let bad = doc.replace("TZID=+0100", "TZID=Mars/Olympus");
    assert!(matches!(parse(&bad, no_filter()), Err(ICalError::DateParse)));
}

#[test]
fn bare_date_is_utc_midnight() {
    let doc = calendar(&[event_block("20230105", "20230106", "all day", "")]);
    let c = parse(&doc, no_filter()).unwrap();
    let e = &c.days()[0].events[0];
    assert_eq!(e.start, 1672876800);
    assert_eq!(e.end, 1672963200);
}

#[test]
fn folded_lines_and_escapes() {
    let doc = calendar(&[event_block(
        "20230105T080000Z",
        "20230105T090000Z",
        "Alge\r\n bra\\, part 1\\; intro\\nnext\\\\end",
        "LOCATION:Room\n\t 12\r\n",
    )]);
    let c = parse(&doc, no_filter()).unwrap();
    let e = &c.days()[0].events[0];
    assert_eq!(e.summary, "Algebra, part 1; intro\nnext\\end");
    assert_eq!(e.location, "Room 12");
}

#[test]
fn token_errors() {
    let no_colon = calendar(&["GARBAGE LINE\r\n".to_string()]);
    assert!(matches!(parse(&no_colon, no_filter()), Err(ICalError::TokenParse)));
    let bad_escape = calendar(&[event_block("20230105T080000Z", "20230105T090000Z", "a\\qb", "")]);
    assert!(matches!(parse(&bad_escape, no_filter()), Err(ICalError::TokenParse)));
    let bad_param = calendar(&["X-THING;NOEQUALS:1\r\n".to_string()]);
    assert!(matches!(parse(&bad_param, no_filter()), Err(ICalError::TokenParse)));
}

#[test]
fn tokens_of_a_line() {
    let t = tokenize("DTSTART;TZID=UTC;X=1:20230105T080000\r\nBEGIN:VEVENT\n\nEND:VEVENT").unwrap();
    assert_eq!(t.len(), 3);
    match &t[0] {
        Token::Property { name, params, value } => {
            assert_eq!(name.iter().collect::<String>(), "DTSTART");
            assert_eq!(params.len(), 2);
            assert_eq!(params[0].name.iter().collect::<String>(), "TZID");
            assert_eq!(params[0].value.iter().collect::<String>(), "UTC");
            assert_eq!(value, "20230105T080000");
        }
        _ => panic!("expected a property"),
    }
    assert!(matches!(&t[1], Token::Begin(n) if n.iter().collect::<String>() == "VEVENT"));
    assert!(matches!(&t[2], Token::End(n) if n.iter().collect::<String>() == "VEVENT"));
}

#[test]
fn empty_document_is_empty_result() {
    let c = parse("", no_filter()).unwrap();
    assert!(c.days().is_empty());
}

#[test]
fn invalid_pattern_is_rejected() {
    assert!(Pattern::new("(").is_err());
    let p = Pattern::new("^a+$").unwrap();
    assert_eq!(p.as_str(), "^a+$");
    assert!(p.is_match("aaa"));
    assert!(!p.is_match("aab"));
}

#[test]
fn error_messages() {
    assert_eq!(ICalError::DateParse.message(), "Error during the parse of a date");
    assert_eq!(ICalError::TokenParse.message(), "Error during the parse of the token given by LEX");
    assert_eq!(ICalError::UnableEvaluateExpression.message(), "Unable to evaluate expression");
}

fn query(calendars: &str, host: &str) -> CalQuery {
    CalQuery {
        summary: Some("^Math".to_string()),
        location: None,
        teacher: None,
        tags: None,
        all: None,
        host: host.to_string(),
        calendars: calendars.to_string(),
        nb_weeks: 4,
    }
}

#[test]
fn query_checks() {
    let f = build_filter(&query("12,34", "ade.example.org")).ok().unwrap();
    assert!(!f.all);
    assert_eq!(f.summary.as_ref().unwrap().as_str(), "^Math");
    assert!(f.location.is_none());
    assert!(matches!(build_filter(&query("abc", "ade.example.org")), Err(QueryError::InvalidCalendars)));
    assert!(matches!(build_filter(&query("12", "bad host!")), Err(QueryError::InvalidHost)));
    let mut q = query("12", "10.0.0.1");
    q.tags = Some("(".to_string());
    assert!(matches!(build_filter(&q), Err(QueryError::BadPattern(_))));
}

#[test]
fn undecodable_bytes_fail_to_tokenize() {
    let mut doc = calendar(&[event_block("20230105T080000Z", "20230105T090000Z", "Caf\u{e9}", "")]).into_bytes();
    let c = parse_bytes(&doc, no_filter()).unwrap();
    assert_eq!(c.days()[0].events[0].summary, "Caf\u{e9}");
    let at = doc.len() - 20;
    doc[at] = 0xff;
    assert!(matches!(parse_bytes(&doc, no_filter()), Err(ICalError::TokenParse)));
}
