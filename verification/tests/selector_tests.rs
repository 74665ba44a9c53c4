use std::time::{Duration, SystemTime};
use zenoh_envelope::params::{Parameters, SelectorError};
use zenoh_envelope::selector::{KeyExpr, Selector};
use zenoh_util::time_range::{TimeBound, TimeExpr, TimeRange};

fn sorted_entries(p: &Parameters) -> Vec<(String, String)> {
    let mut v = p.entries();
    v.sort();
    v
}

#[test]
fn selector_accessors() {
    for selector in [
        "hello/there?_timetrick",
        "hello/there?_timetrick;_time",
        "hello/there?_timetrick;_time;_filter",
        "hello/there?_timetrick;_time=[..]",
        "hello/there?_timetrick;_time=[..];_filter",
    ] {
        let Selector(key_expr, parameters) = Selector::parse(selector).unwrap();
        let mut parameters = parameters.into_owned();

        assert_eq!(key_expr.as_str(), "hello/there");

        println!("Parameters start: {}", parameters.to_string());
        for i in parameters.entries() {
            println!("\t{:?}", i);
        }

        assert_eq!(parameters.get("_timetrick").unwrap().unwrap(), "");

        let time_range = "[now(-2s)..now(2s)]";
        let tr: TimeRange = time_range.parse().unwrap();
        parameters.set_time_range(Some(tr)).unwrap();
        assert_eq!(parameters.time_range().unwrap().unwrap(), tr);
        assert_eq!(parameters.get("_time").unwrap().unwrap(), time_range);

        parameters.insert("_filter", "");
        assert_eq!(parameters.get("_filter").unwrap().unwrap(), "");

        // Re-inserting the current entries must not create duplicates.
        let entries = parameters.entries();
        for (k, v) in entries.iter() {
            parameters.insert(k, v);
        }
        assert_eq!(parameters.get("_filter").unwrap().unwrap(), "");

        parameters.insert("_anyke", "");

        println!("Parameters end: {}", parameters.to_string());
        for i in parameters.entries() {
            println!("\t{:?}", i);
        }

        assert_eq!(
            sorted_entries(&parameters),
            sorted_entries(
                &Parameters::parse("_anyke;_filter;_time=[now(-2s)..now(2s)];_timetrick")
                    .unwrap()
            )
        );
    }
}

#[test]
fn selector_end_to_end_scenario() {
    let sel = Selector::parse("hello/there?_timetrick;_time=[now(-2s)..now(2s)]").unwrap();
    assert_eq!(sel.0.as_str(), "hello/there");
    assert_eq!(sel.1.get("_timetrick").unwrap().unwrap(), "");
    assert_eq!(sel.1.get("_time").unwrap().unwrap(), "[now(-2s)..now(2s)]");

    let text = sel.to_string();
    let sel2 = Selector::parse(&text).unwrap();
    assert_eq!(sel2.0.as_str(), "hello/there");
    assert_eq!(sorted_entries(&sel.1), sorted_entries(&sel2.1));
}

#[test]
fn duplicate_parameter_rejected() {
    let sel = Selector::parse("k?a=1;a=2").unwrap();
    assert_eq!(sel.1.get("a"), Err(SelectorError::DuplicateParameter));
}

#[test]
fn invalid_key_expr_rejected() {
    assert_eq!(Selector::parse("?a=1").unwrap_err(), SelectorError::InvalidKeyExpr);
    assert_eq!(Selector::parse("hello//there").unwrap_err(), SelectorError::InvalidKeyExpr);
    assert_eq!(Selector::parse("hello/there#").unwrap_err(), SelectorError::InvalidKeyExpr);
    assert!(KeyExpr::new("hello/there").is_ok());
    assert!(KeyExpr::new("").is_err());
}

#[test]
fn malformed_escape_rejected() {
    assert_eq!(Selector::parse("k?a=%zz").unwrap_err(), SelectorError::MalformedEscape);
    assert_eq!(Selector::parse("k?a=%2").unwrap_err(), SelectorError::MalformedEscape);
    assert!(Parameters::parse("a=%2f").is_ok());
}

#[test]
fn percent_encoding_round_trip() {
    let mut p = Parameters::new();
    p.insert("a b", "c;d=e%f");
    p.insert("plain", "value");
    let text = p.to_string();
    // The delimiter, `=` and `%` are escaped in the text.
    assert_eq!(text, "a%20b=c%3bd%3de%25f;plain=value");
    let q = Parameters::parse(&text).unwrap();
    assert_eq!(q.get("a b").unwrap().unwrap(), "c;d=e%f");
    assert_eq!(q.get("plain").unwrap().unwrap(), "value");
    assert_eq!(p.entries(), q.entries());
}

#[test]
fn parameters_no_question_mark_means_empty() {
    let sel = Selector::parse("hello/there").unwrap();
    assert!(sel.1.is_empty());
    assert_eq!(sel.to_string(), "hello/there");
}

#[test]
fn parameters_empty_value_serializes_without_equals() {
    let mut p = Parameters::new();
    p.insert("flag", "");
    p.insert("x", "1");
    assert_eq!(p.to_string(), "flag;x=1");
}

#[test]
fn parameters_insert_overwrites() {
    let mut p = Parameters::parse("a=1;b=2").unwrap();
    p.insert("a", "3");
    assert_eq!(p.get("a").unwrap().unwrap(), "3");
    assert_eq!(p.len(), 2);
    p.remove("b");
    assert_eq!(p.get("b").unwrap(), None);
    assert_eq!(p.len(), 1);
}

#[test]
fn time_range_accessors() {
    let mut p = Parameters::parse("k=1").unwrap();
    assert_eq!(p.time_range().unwrap(), None);

    p.insert("_time", "[now(-2s)..now(2s)]");
    let tr = p.time_range().unwrap().unwrap();
    p.set_time_range(Some(tr)).unwrap();
    assert_eq!(p.time_range().unwrap().unwrap(), tr);
    assert_eq!(p.get("_time").unwrap().unwrap(), "[now(-2s)..now(2s)]");

    p.set_time_range(None).unwrap();
    assert_eq!(p.time_range().unwrap(), None);
    assert_eq!(p.get("_time").unwrap(), None);

    let bad = Parameters::parse("_time=nonsense").unwrap();
    assert_eq!(bad.time_range(), Err(SelectorError::InvalidTimeRange));

    let dup = Parameters::parse("_time=[..];_time=[..]").unwrap();
    assert_eq!(dup.time_range(), Err(SelectorError::DuplicateParameter));
}

#[test]
fn time_range_hostile_values_are_invalid_not_fatal() {
    // Values that would drive the external parser into a panic come back
    // as the invalid-time-range error instead.
    let mut p = Parameters::new();
    p.insert("_time", "[now(s)..]");
    assert_eq!(p.time_range(), Err(SelectorError::InvalidTimeRange));

    p.insert("_time", "[now(-s)..now(2s)]");
    assert_eq!(p.time_range(), Err(SelectorError::InvalidTimeRange));

    p.insert("_time", "[1970-01-02 00:00:00;-1]");
    assert_eq!(p.time_range(), Err(SelectorError::InvalidTimeRange));

    p.insert("_time", "[1970-01-02 00:00:00;s]");
    assert_eq!(p.time_range(), Err(SelectorError::InvalidTimeRange));

    p.insert("_time", "[1970-01-02 00:00:00;1e300]");
    assert_eq!(p.time_range(), Err(SelectorError::InvalidTimeRange));

    // Plain time-and-duration ranges stay accepted, up to thirteen
    // integer digits of duration.
    p.insert("_time", "[1970-01-02 00:00:00;86400]");
    assert!(p.time_range().unwrap().is_some());

    p.insert("_time", "[1970-01-02 00:00:00;12345678901]");
    assert!(p.time_range().unwrap().is_some());

    p.insert("_time", "[1970-01-02 00:00:00;12345678901234]");
    assert_eq!(p.time_range(), Err(SelectorError::InvalidTimeRange));
}

#[test]
fn set_time_range_rejects_unrenderable_fixed_bounds() {
    let pre = TimeRange(
        TimeBound::Inclusive(TimeExpr::Fixed(SystemTime::UNIX_EPOCH - Duration::from_secs(1))),
        TimeBound::Unbounded,
    );
    let mut p = Parameters::parse("a=1").unwrap();
    assert_eq!(p.set_time_range(Some(pre)), Err(SelectorError::InvalidTimeRange));
    assert_eq!(p.get("_time").unwrap(), None);

    // From year 10000 on the external formatter reports an error instead
    // of rendering; such a bound is reachable by parsing a year-9999
    // instant with a one-week duration.
    let past_9999 = TimeRange(
        TimeBound::Inclusive(TimeExpr::Fixed(
            SystemTime::UNIX_EPOCH + Duration::from_secs(253_402_300_800),
        )),
        TimeBound::Unbounded,
    );
    assert_eq!(p.set_time_range(Some(past_9999)), Err(SelectorError::InvalidTimeRange));
    assert_eq!(p.get("_time").unwrap(), None);

    p.insert("_time", "[9999-12-31 23:59:59;1w]");
    let parsed = p.time_range().unwrap().unwrap();
    assert_eq!(p.set_time_range(Some(parsed)), Err(SelectorError::InvalidTimeRange));

    let fixed = TimeRange(
        TimeBound::Inclusive(TimeExpr::Fixed(SystemTime::UNIX_EPOCH + Duration::from_secs(86400))),
        TimeBound::Unbounded,
    );
    p.set_time_range(Some(fixed)).unwrap();
    assert_eq!(p.time_range().unwrap().unwrap(), fixed);
}
