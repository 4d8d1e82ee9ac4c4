use rt_server::nav::{NavBook, NavRoute};
use rt_server::pm_portfolio::PmPortfolio;
use rt_server::processor_middle::{BehindStep, ProcessorMiddleStateful};
use rt_server::streaming::{next_retry_delay, FIRST_RETRY_DELAY_SECS, MAX_RETRY_DELAY_SECS};
use rt_server::trade_set::TradeSet;
use rt_server::var::{factor_name, FactorNameValue, TaggedValue};

fn add(a: f64, b: f64) -> f64 {
    a + b
}

fn ids(xs: &[&str]) -> TradeSet {
    let mut s = TradeSet::new();
    for x in xs {
        s.insert(x.to_string());
    }
    s
}

#[test]
fn retry_delays_grow_to_five_seconds() {
    let mut d = FIRST_RETRY_DELAY_SECS;
    let mut seen = vec![d];
    for _ in 0..6 {
        d = next_retry_delay(d);
        seen.push(d);
    }
    assert_eq!(seen, vec![1, 2, 3, 4, 5, 5, 5]);
    assert_eq!(next_retry_delay(u64::MAX), MAX_RETRY_DELAY_SECS);
}

#[test]
fn factor_names() {
    assert_eq!(factor_name(FactorNameValue::Text("SPY".to_string()), "\"SPY\"".to_string()), "SPY");
    assert_eq!(
        factor_name(FactorNameValue::Tagged("Equity".to_string(), TaggedValue::Text("QQQ".to_string())), "x".to_string()),
        "QQQ"
    );
    assert_eq!(
        factor_name(FactorNameValue::Tagged("Id".to_string(), TaggedValue::Number("42".to_string())), "x".to_string()),
        "42"
    );
    assert_eq!(
        factor_name(FactorNameValue::Tagged("Cash".to_string(), TaggedValue::Null), "{\"Cash\":null}".to_string()),
        "Cash"
    );
    assert_eq!(
        factor_name(FactorNameValue::Tagged("A".to_string(), TaggedValue::Inner("B".to_string())), "x".to_string()),
        "B"
    );
    assert_eq!(
        factor_name(FactorNameValue::Tagged("A".to_string(), TaggedValue::Other), "{\"A\":[1]}".to_string()),
        "{\"A\":[1]}"
    );
    assert_eq!(factor_name(FactorNameValue::Other, "17".to_string()), "17");
}

#[test]
fn nav_book_publishes_only_present_values() {
    let mut book: NavBook<f64> = NavBook::new();
    assert_eq!(book.on_update(NavRoute::Ignore, Some(vec![("a".to_string(), 1.0)]), 0.0, &add), None);
    assert_eq!(book.on_update(NavRoute::Pv, None, 0.0, &add), None);
    assert_eq!(book.on_update(NavRoute::Pv, Some(vec![]), 0.0, &add), None);
    assert_eq!(book.on_update(NavRoute::Pv, Some(vec![("a".to_string(), 4.0)]), 0.0, &add), Some(4.0));
    assert_eq!(book.on_update(NavRoute::Legacy, Some(vec![("b".to_string(), 2.5)]), 0.0, &add), Some(6.5));
    assert_eq!(book.on_update(NavRoute::BadKey, Some(vec![("b".to_string(), 9.0)]), 0.0, &add), None);
    assert_eq!(book.total(0.0, &add), 6.5);
}

#[test]
fn middle_processor_ignores_a_proposal_that_lacks_trades() {
    let mut st: ProcessorMiddleStateful<f64> = ProcessorMiddleStateful::new();
    st.on_new_trade("t1".to_string());
    st.on_new_trade("t2".to_string());
    let behind = st.accept_ntp(&ids(&["t1", "t3"]), PmPortfolio::new(), "m1".to_string());
    assert_eq!(behind.len(), 1);
    assert!(behind.contains(&"t2".to_string()));
    assert_eq!(st.curr_market(), &None);
    assert!(!st.trades().contains(&"t3".to_string()));
    let behind = st.accept_ntp(&ids(&["t1", "t2", "t3"]), PmPortfolio::new(), "m1".to_string());
    assert_eq!(behind.len(), 0);
    assert_eq!(st.curr_market(), &Some("m1".to_string()));
    assert!(st.trades().contains(&"t3".to_string()));
    assert_eq!(st.trades_since_ntp(), 0);
}

#[test]
fn middle_processor_takes_the_market_below() {
    let mut st: ProcessorMiddleStateful<f64> = ProcessorMiddleStateful::new();
    assert!(matches!(st.on_behind(&ids(&["t1"])), BehindStep::NoMarket));
    st.take_market("m2".to_string());
    assert_eq!(st.curr_market(), &Some("m2".to_string()));
    st.replace_results(PmPortfolio::new());
    assert!(matches!(st.on_behind(&ids(&["t2"])), BehindStep::PriceOn(_)));
}
