use rt_server::ao_trade::AOTradeRep;
use rt_server::metric::{results_payload, PricingMetric};
use rt_server::pricing_results::{pv01_results, pv_results, single_value_result, PricingResults};
use rt_server::processor_msg::{PNStateDistr, ProcessorMiddleMessageStates};
use rt_server::trade::{BaseTrade, TradeDirection, TradeRep};

fn add(a: f64, b: f64) -> f64 {
    a + b
}

#[test]
fn pv_answer_becomes_portfolio() {
    match pv_results(Some(vec![("t1".to_string(), 1.0), ("t2".to_string(), 2.5)])) {
        PricingResults::PV(p) => {
            assert_eq!(p.len(), 2);
            assert_eq!(p.get(&"t2".to_string()), Some(2.5));
        },
        _ => panic!("a PV answer gives a PV result"),
    }
    match pv_results::<f64>(None) {
        PricingResults::PV(p) => assert_eq!(p.len(), 0),
        _ => panic!("a PV answer gives a PV result"),
    }
}

#[test]
fn pv01_answer_becomes_exposures() {
    let answer = vec![
        ("t1".to_string(), vec![("SPY".to_string(), 1.0), ("QQQ".to_string(), 2.0)]),
        ("t2".to_string(), vec![("SPY".to_string(), 3.0)]),
    ];
    let r = pv01_results(Some(answer));
    match &r {
        PricingResults::PV01(p) => {
            assert_eq!(p.len(), 2);
            assert_eq!(p.get(&"t1".to_string()).unwrap().len(), 2);
        },
        _ => panic!("a PV01 answer gives a PV01 result"),
    }
    let total = r.aggregate(&add);
    assert_eq!(total.get(&"SPY".to_string()), Some(4.0));
    assert_eq!(total.get(&"QQQ".to_string()), Some(2.0));
}

#[test]
fn single_values() {
    match single_value_result("t9".to_string(), Some(-1.5)) {
        PricingResults::PV(p) => assert_eq!(p.get(&"t9".to_string()), Some(-1.5)),
        _ => panic!("a single value is a PV result"),
    }
    match single_value_result::<f64>("t9".to_string(), None) {
        PricingResults::PV(p) => assert_eq!(p.len(), 0),
        _ => panic!("a single value is a PV result"),
    }
}

#[test]
fn counts_from_pairs_take_the_last() {
    let d = PNStateDistr::from_counts(&vec![
        (ProcessorMiddleMessageStates::Behind, 3),
        (ProcessorMiddleMessageStates::Metric, 1),
        (ProcessorMiddleMessageStates::Behind, 5),
    ]);
    assert_eq!(d.get(ProcessorMiddleMessageStates::Behind), 5);
    assert_eq!(d.get(ProcessorMiddleMessageStates::Metric), 1);
    assert_eq!(d.get(ProcessorMiddleMessageStates::NewTrade), 0);
}

#[test]
fn results_payload_wraps_portfolio() {
    assert_eq!(results_payload(PricingMetric::PV, &"{\"t1\":1.0}".to_string()), "{\"PV\": {\"t1\":1.0}}");
    assert_eq!(results_payload(PricingMetric::PnL, &"{}".to_string()), "{\"PnL\": {}}");
}

#[test]
fn registry_as_a_trade() {
    let reg: TradeRep<u8> = TradeRep::new();
    assert_eq!(reg.id(), "TradeRep".to_string());
    assert_eq!(reg.direction(), TradeDirection::Create);
}

#[test]
fn registry_from_trades_keeps_the_last_of_an_id() {
    let reg = TradeRep::from_trades(vec![
        AOTradeRep("a".to_string()),
        AOTradeRep("b".to_string()),
        AOTradeRep("a".to_string()),
    ]);
    assert_eq!(reg.len(), 2);
    assert!(reg.contains(&"a".to_string()) && reg.contains(&"b".to_string()));
}
