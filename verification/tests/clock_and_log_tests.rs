use rt_server::metric::PricingMetric;
use rt_server::nav::{clock_reading, millis_since_epoch, NavBook};
use rt_server::processor_middle::{BehindStep, MiddleAction, ProcessorMiddleStateful};
use rt_server::processor_msg::{PNStateDistr, ProcessorMiddleMessage, ProcessorMiddleMessageStates};
use rt_server::processor_setup::{layer_note, log_answer, parse_directives, plan_log_directives, span_events_note};
use rt_server::strmap::StrMap;
use rt_server::trade_set::TradeSet;

fn params(pairs: &[(&str, &str)]) -> StrMap<String> {
    let mut m = StrMap::new();
    for (k, v) in pairs {
        m.insert(k.to_string(), v.to_string());
    }
    m
}

fn add(a: f64, b: f64) -> f64 {
    a + b
}

#[test]
fn millis_of_a_reading() {
    assert_eq!(millis_since_epoch(Some((1_700_000_000, 123_456_789))), 1_700_000_000_123);
    assert_eq!(millis_since_epoch(Some((0, 999_999_999))), 999);
    assert_eq!(millis_since_epoch(None), 0);
}

#[test]
fn millis_keep_the_low_64_bits() {
    // u64::MAX seconds is 18446744073709551615000 ms; its low 64 bits:
    let expected = ((u64::MAX as u128) * 1000 % (1u128 << 64)) as u64;
    assert_eq!(millis_since_epoch(Some((u64::MAX, 0))), expected);
}

#[test]
fn later_readings_give_more_millis() {
    let a = millis_since_epoch(Some((10, 999_000_000)));
    let b = millis_since_epoch(Some((11, 0)));
    assert!(a < b);
}

#[test]
fn clock_reading_has_a_fraction_below_a_second() {
    match clock_reading() {
        Some((secs, nanos)) => {
            assert!(secs > 1_600_000_000);
            assert!(nanos < 1_000_000_000);
        },
        None => panic!("the clock is after the epoch"),
    }
}

#[test]
fn level_is_lowercased() {
    let plan = plan_log_directives(&params(&[("level", "Debug"), ("target", "rt_server")])).ok().unwrap();
    assert_eq!(plan.directives, vec!["rt_server=debug".to_string()]);
    let shown = format!("{:?}", plan.directives);
    assert_eq!(log_answer(&shown, &vec![]), r#"OK: log directives set to ["rt_server=debug"]"#);
}

#[test]
fn unicode_whitespace_is_trimmed() {
    let plan =
        plan_log_directives(&params(&[("level", "info"), ("target", "\u{3000}rt_server\u{a0}\t")])).ok().unwrap();
    assert_eq!(plan.directives, vec!["rt_server=info".to_string()]);
    let parsed = parse_directives(&plan.directives);
    assert!(parsed.is_ok());
}

#[test]
fn answer_with_notes() {
    let notes = vec![span_events_note(&"full".to_string()), layer_note(&"{\"layer_1\": \"a=info\"}".to_string())];
    assert_eq!(
        log_answer(&"[\"info\"]".to_string(), &notes),
        "OK: log directives set to [\"info\"]. NOTE: span_events='full' requested but not applied (not supported by current reload handle). NOTE: layer_* directives were merged into the global filter (per-layer filters require subscriber changes). Received: {\"layer_1\": \"a=info\"}"
    );
}

#[test]
fn middle_processor_counts_each_message() {
    let mut st: ProcessorMiddleStateful<f64> = ProcessorMiddleStateful::new();
    let mut d = PNStateDistr::new();
    let a = st.on_message(&mut d, ProcessorMiddleMessage::NewTrade("t1".to_string()));
    assert!(matches!(a, MiddleAction::Nothing));
    assert_eq!(d.get(ProcessorMiddleMessageStates::NewTrade), 1);
    let a = st.on_message(&mut d, ProcessorMiddleMessage::Metric(vec![PricingMetric::PV]));
    assert!(matches!(a, MiddleAction::Nothing));
    assert_eq!(st.pricing_metrics(), &vec![PricingMetric::PV]);
    assert_eq!(d.get(ProcessorMiddleMessageStates::Metric), 1);
    match st.on_message(&mut d, ProcessorMiddleMessage::NewTrade("t2".to_string())) {
        MiddleAction::PriceNewTrade(t) => assert_eq!(t, "t2"),
        _ => panic!("a trade with metrics is priced"),
    }
    assert_eq!(d.get(ProcessorMiddleMessageStates::NewTrade), 2);
    let a = st.on_message(&mut d, ProcessorMiddleMessage::BulkBusy);
    assert!(matches!(a, MiddleAction::Nothing));
    assert_eq!(d.get(ProcessorMiddleMessageStates::BulkBusy), 1);
    assert_eq!(d.get(ProcessorMiddleMessageStates::Behind), 0);
    assert_eq!(st.trades().len(), 2);
}

#[test]
fn middle_processor_without_market_is_told_so_when_behind() {
    let mut st: ProcessorMiddleStateful<f64> = ProcessorMiddleStateful::new();
    let mut d = PNStateDistr::new();
    let mut behind = TradeSet::new();
    behind.insert("t9".to_string());
    match st.on_message(&mut d, ProcessorMiddleMessage::Behind("m1".to_string(), behind)) {
        MiddleAction::Behind(m, ts, BehindStep::NoMarket) => {
            assert_eq!(m, "m1");
            assert!(ts.contains(&"t9".to_string()));
        },
        _ => panic!("no market yet"),
    }
    assert_eq!(d.get(ProcessorMiddleMessageStates::Behind), 1);
    assert!(st.trades().contains(&"t9".to_string()));
    match st.on_message(&mut d, ProcessorMiddleMessage::Behind("m1".to_string(), TradeSet::new())) {
        MiddleAction::Behind(_, _, BehindStep::Accepted) => {},
        _ => panic!("an empty answer is an acceptance"),
    }
}

#[test]
fn nav_book_totals_each_value_once() {
    let mut book: NavBook<f64> = NavBook::new();
    book.apply(&vec![("a".to_string(), 5.0), ("b".to_string(), 2.0)]);
    book.apply(&vec![("a".to_string(), 1.0)]);
    assert_eq!(book.total(0.0, &add), 3.0);
}
