use rt_server::ao_trade::{AOTrade, AOTradeRep, AfterPosition, BeforePosition, Payload};
use rt_server::bergomi_calib::{hash_quote, OptionType, XorShift64};
use rt_server::controller_actor::{prune_offsetting_trades, Trade};
use rt_server::decimal::{i64_to_decimal, u64_to_decimal};
use rt_server::metric::PricingMetric;
use rt_server::nav::{nav_result, nav_route, now_ms, var_route, NavBook, NavRoute, VarRiskRoute};
use rt_server::pm_portfolio::{change_metrics, PmPortfolio};
use rt_server::portfolio::PortfolioType;
use rt_server::processor_bulk::{add_priced, bulk_processor_name, missing_trades, BulkPlan, PricingStyle, ProcessorBulk};
use rt_server::processor_curr::{ProcessorCurrState, RTOperatingMode};
use rt_server::processor_middle::{BehindStep, ProcessorMiddleStateful};
use rt_server::processor_msg::{PNStateDistr, ProcessorMiddleMessageStates};
use rt_server::processor_new::{NewMarketStep, ProcessorNewState, ProcessorNewStateful};
use rt_server::processor_setup::{extra_directive_list, log_level_known, parse_directives, plan_log_directives};
use rt_server::rm_local::RTRMConfig;
use rt_server::streaming::bootstrap_servers;
use rt_server::strmap::StrMap;
use rt_server::text::{chars_of, lex_less};
use rt_server::trade::{AggregatedTrades, BaseTrade, TradeDirection, TradeRep};
use rt_server::trade_set::TradeSet;
use rt_server::all_markets::AllMarkets;
use rt_server::var::{var_result, VarBook};

fn add(a: f64, b: f64) -> f64 {
    a + b
}

fn portfolio(pairs: &[(&str, f64)]) -> PortfolioType<f64> {
    PortfolioType::from_pairs(pairs.iter().map(|(k, v)| (k.to_string(), *v)).collect())
}

fn same(a: &PortfolioType<f64>, b: &PortfolioType<f64>) -> bool {
    a.matches(b, &|x: f64, y: f64| x == y)
}

fn ids(names: &[&str]) -> TradeSet {
    TradeSet::from_ids(names.iter().map(|s| s.to_string()).collect())
}

fn ao_trade(op: &str, id: i64) -> AOTrade {
    AOTrade {
        payload: Payload {
            op: op.to_string(),
            after: AfterPosition { position_id: id },
            before: Some(BeforePosition { position_id: id }),
        },
    }
}

fn params(pairs: &[(&str, &str)]) -> StrMap<String> {
    let mut m = StrMap::new();
    for (k, v) in pairs {
        m.insert(k.to_string(), v.to_string());
    }
    m
}

#[test]
fn ao_trade_id_is_position_id() {
    assert_eq!(ao_trade("c", 42).id(), "42".to_string());
    assert_eq!(ao_trade("c", -7).id(), "-7".to_string());
    assert_eq!(ao_trade("d", 0).display(), "0".to_string());
}

#[test]
fn ao_trade_direction_from_op() {
    assert_eq!(ao_trade("c", 1).direction(), TradeDirection::Create);
    assert_eq!(ao_trade("d", 1).direction(), TradeDirection::Delete);
    assert_eq!(ao_trade("u", 1).try_direction(), None);
    assert_eq!(ao_trade("c", 1).try_direction(), Some(TradeDirection::Create));
}

#[test]
fn ao_trade_rep_is_a_creation_of_its_id() {
    let r = AOTradeRep("trade_9".to_string());
    assert_eq!(r.id(), "trade_9".to_string());
    assert_eq!(r.direction(), TradeDirection::Create);
}

#[test]
fn decimal_rendering() {
    assert_eq!(u64_to_decimal(0), "0");
    assert_eq!(u64_to_decimal(18446744073709551615), "18446744073709551615");
    assert_eq!(i64_to_decimal(i64::MIN), "-9223372036854775808");
    assert_eq!(i64_to_decimal(-15), "-15");
}

#[test]
fn aggregated_positions_create_then_delete() {
    let mut agg = AggregatedTrades::new();
    agg.add(&ao_trade("c", 5));
    assert_eq!(agg.get(&"5".to_string()), Some(1));
    agg.add(&ao_trade("c", 5));
    assert_eq!(agg.get(&"5".to_string()), Some(2));
    agg.add(&ao_trade("d", 5));
    agg.add(&ao_trade("d", 5));
    assert_eq!(agg.get(&"5".to_string()), None);
    agg.add(&ao_trade("d", 6));
    assert_eq!(agg.get(&"6".to_string()), Some(-1));
}

#[test]
fn trade_registry_upsert_and_lookup() {
    let mut reg: TradeRep<String> = TradeRep::new();
    reg.upsert("t1".to_string(), "first".to_string());
    reg.upsert("t1".to_string(), "second".to_string());
    reg.upsert("t2".to_string(), "other".to_string());
    assert_eq!(reg.len(), 2);
    assert_eq!(reg.get(&"t1".to_string()), Some("second".to_string()));
    assert!(!reg.contains(&"t3".to_string()));
}

#[test]
fn xorshift_known_values() {
    let mut g = XorShift64::new(1);
    assert_eq!(g.next_u64(), 1082269761);
    assert_eq!(g.next_u64(), 1152992998833853505);
    let mut z = XorShift64::new(0);
    assert_eq!(z.state(), 0xdead_beef_cafe_babe);
    assert_eq!(z.next_u64(), 2872271934144653387);
}

#[test]
fn quote_hash_known_values() {
    let maturity = 1.0f64.to_bits();
    let strike = 18.0f64.to_bits();
    assert_eq!(hash_quote(maturity, strike, OptionType::Call), 13125900617025488379);
    assert_eq!(hash_quote(maturity, strike, OptionType::Put), 13125901716537116590);
}

#[test]
fn prune_cancels_create_with_delete() {
    let c = |id: u8| Trade { trade_id: id, direction: TradeDirection::Create };
    let d = |id: u8| Trade { trade_id: id, direction: TradeDirection::Delete };
    let u = |id: u8| Trade { trade_id: id, direction: TradeDirection::Update };
    let kept = prune_offsetting_trades(&vec![c(1), c(2), d(1), u(3), d(4), c(1)]);
    assert_eq!(kept, vec![c(2), u(3), c(1)]);
    let kept = prune_offsetting_trades(&vec![c(1), c(1), d(1)]);
    assert_eq!(kept, vec![c(1)]);
    assert!(prune_offsetting_trades(&vec![]).is_empty());
}

#[test]
fn bulk_name_and_missing_trades() {
    assert_eq!(bulk_processor_name(&"processor_new".to_string()), "processor_new_bulk".to_string());
    let b = ProcessorBulk::new("curr".to_string(), PricingStyle::Sequential);
    assert_eq!(b.processor_name, "curr_bulk".to_string());
    let mut reg: TradeRep<u8> = TradeRep::new();
    reg.upsert("a".to_string(), 1);
    let missing = missing_trades(&ids(&["a", "b", "c"]), &reg);
    assert_eq!(missing.len(), 2);
    assert!(missing.contains(&"b".to_string()) && missing.contains(&"c".to_string()));
}

#[test]
fn bulk_plan_abandons_unknown_market() {
    let b = ProcessorBulk::new("new".to_string(), PricingStyle::Parallel);
    let mut markets: AllMarkets<String> = AllMarkets::new();
    let reg: TradeRep<u8> = TradeRep::new();
    let plan = b.plan(&mut markets, &"m1".to_string(), &ids(&["a"]), &reg);
    assert!(matches!(plan, BulkPlan::Abandon));
    assert_eq!(markets.get_processor(&"new_bulk".to_string()), Some("m1".to_string()));
    markets.insert("m1".to_string(), "market one".to_string());
    match b.plan(&mut markets, &"m1".to_string(), &ids(&["a"]), &reg) {
        BulkPlan::Price(m, missing) => {
            assert_eq!(m, "market one".to_string());
            assert_eq!(missing.len(), 1);
        },
        BulkPlan::Abandon => panic!("market is held"),
    }
}

#[test]
fn add_priced_sums_trade_results() {
    let mut pm = PmPortfolio::new();
    add_priced(&mut pm, PricingMetric::PV, &vec![portfolio(&[("t1", 1.0)]), portfolio(&[("t1", 2.0), ("t2", 4.0)])], &add);
    assert!(same(pm.get(PricingMetric::PV).unwrap(), &portfolio(&[("t1", 3.0), ("t2", 4.0)])));
    add_priced(&mut pm, PricingMetric::PnL, &vec![], &add);
    assert!(pm.get(PricingMetric::PnL).is_none());
}

#[test]
fn change_metrics_follows_the_list() {
    let mut pm = PmPortfolio::new();
    pm.assign_metric(PricingMetric::PV, portfolio(&[("t1", 1.0)]), &add);
    change_metrics(&mut pm, &vec![PricingMetric::PV01]);
    assert!(pm.get(PricingMetric::PV).is_none());
    assert_eq!(pm.get(PricingMetric::PV01).unwrap().len(), 0);
}

#[test]
fn curr_processor_accepts_close_proposal() {
    let mut st: ProcessorCurrState<f64> = ProcessorCurrState::new();
    st.on_metric(vec![PricingMetric::PV]);
    assert_eq!(st.on_new_trade("t1".to_string(), RTOperatingMode::DoubleBuffer), None);
    assert_eq!(st.newtrades_since_last_newmarket(), 1);
    assert_eq!(st.on_new_trade("t2".to_string(), RTOperatingMode::SingleBuffer), None);
    assert_eq!(st.trades().len(), 1);
    let mut proposal = PmPortfolio::new();
    proposal.assign_metric(PricingMetric::PV, portfolio(&[("t0", 1.0)]), &add);
    let d = st.ntp_plan(&proposal).unwrap();
    assert!(d.accepted);
    assert!(d.behind.contains(&"t1".to_string()));
    let switched = st.accept_ntp(&ids(&["t0"]), proposal, &PmPortfolio::new(), "m2".to_string(), &add);
    assert!(!switched);
    assert_eq!(st.curr_market(), &Some("m2".to_string()));
    assert_eq!(st.newtrades_since_last_newmarket(), 0);
    assert_eq!(st.on_new_trade("t3".to_string(), RTOperatingMode::DoubleBuffer), Some("m2".to_string()));
}

#[test]
fn curr_processor_rejects_far_behind_proposal() {
    let mut st: ProcessorCurrState<f64> = ProcessorCurrState::new();
    assert!(st.ntp_plan(&PmPortfolio::new()).is_none());
    st.on_metric(vec![PricingMetric::PV]);
    for i in 0..10 {
        st.on_new_trade(format!("t{}", i), RTOperatingMode::DoubleBuffer);
    }
    let d = st.ntp_plan(&PmPortfolio::new()).unwrap();
    assert_eq!(d.behind.len(), 10);
    assert!(!d.accepted);
}

#[test]
fn middle_processor_behind_steps() {
    let mut st: ProcessorMiddleStateful<f64> = ProcessorMiddleStateful::new();
    assert!(!st.on_new_trade("t1".to_string()));
    assert!(matches!(st.on_behind(&TradeSet::new()), BehindStep::Accepted));
    assert!(matches!(st.on_behind(&ids(&["t2"])), BehindStep::NoMarket));
    assert!(st.trades().contains(&"t2".to_string()));
    let behind = st.accept_ntp(&ids(&["t1"]), PmPortfolio::new(), "m1".to_string());
    assert_eq!(behind.len(), 1);
    assert_eq!(st.curr_market(), &None);
    assert!(matches!(st.on_behind(&ids(&["t4"])), BehindStep::NoMarket));
    let behind = st.accept_ntp(&ids(&["t1", "t2", "t4", "t5"]), PmPortfolio::new(), "m1".to_string());
    assert_eq!(behind.len(), 0);
    assert!(st.trades().contains(&"t5".to_string()));
    match st.on_behind(&ids(&["t3"])) {
        BehindStep::PriceOn(m) => assert_eq!(m, "m1".to_string()),
        _ => panic!("the processor has a market"),
    }
}

#[test]
fn new_processor_market_and_bulk_cycle() {
    let mut st: ProcessorNewStateful<f64> = ProcessorNewStateful::new();
    st.on_metric(vec![PricingMetric::PV]);
    assert_eq!(st.on_new_trade("t1".to_string()), None);
    assert!(matches!(st.on_new_market(), NewMarketStep::FetchFuture));
    let (trades, metrics) = st.start_bulk("mkt_a".to_string());
    assert_eq!(trades.len(), 1);
    assert_eq!(metrics, vec![PricingMetric::PV]);
    assert_eq!(st.processor_state(), ProcessorNewState::CalculatingBulk);
    assert!(matches!(st.on_new_market(), NewMarketStep::Ignore));
    assert_eq!(st.on_new_trade("t2".to_string()), None);
    let mut computed = PmPortfolio::new();
    computed.assign_metric(PricingMetric::PV, portfolio(&[("t1", 5.0)]), &add);
    st.on_bulk_receive(&ids(&["t1"]), &computed, &ids(&["tx"]), "mkt_a".to_string());
    assert_eq!(st.processor_state(), ProcessorNewState::CalculatingSingle);
    assert_eq!(st.trades_not_pricing(), &vec!["tx".to_string()]);
    assert_eq!(st.on_new_trade("t3".to_string()), Some("mkt_a".to_string()));
    let (t, p, m) = st.proposal().unwrap();
    assert_eq!(t.len(), 3);
    assert!(same(p.get(PricingMetric::PV).unwrap(), &portfolio(&[("t1", 5.0)])));
    assert_eq!(m, "mkt_a".to_string());
}

#[test]
fn message_counts_snapshot() {
    let mut d = PNStateDistr::new();
    d.incr_one(ProcessorMiddleMessageStates::NewTrade);
    d.incr_one(ProcessorMiddleMessageStates::NewTrade);
    d.incr_one(ProcessorMiddleMessageStates::Metric);
    let snap = d.snapshot();
    assert_eq!(snap.len(), 8);
    assert_eq!(snap[0], ("NewTrade".to_string(), 2));
    assert_eq!(snap[7], ("Metric".to_string(), 1));
    assert_eq!(snap[3], ("BulkReceive".to_string(), 0));
}

#[test]
fn config_metric_and_bootstrap() {
    let cfg = RTRMConfig {
        kafka_server_name: "localhost".to_string(),
        kafka_server_port: 9092,
        metric: "PV01".to_string(),
        results_topic: "r".to_string(),
        mkt_topic: "m".to_string(),
        risk_topic: "k".to_string(),
        positions_topic: "p".to_string(),
    };
    assert_eq!(cfg.pricing_metric(), Some(PricingMetric::PV01));
    assert_eq!(bootstrap_servers(&cfg), "localhost:9092".to_string());
    let other = RTRMConfig { metric: "VaR".to_string(), ..cfg };
    assert_eq!(other.pricing_metric(), None);
}

#[test]
fn metric_names_round_trip() {
    for m in [PricingMetric::PV, PricingMetric::PV01, PricingMetric::PnL] {
        assert_eq!(PricingMetric::from_name(&m.name()), Some(m));
    }
    assert_eq!(PricingMetric::from_name(&"pv".to_string()), None);
}

#[test]
fn log_plan_missing_and_invalid_level() {
    match plan_log_directives(&params(&[("target", "x")])) {
        Err(e) => assert_eq!(e, "ERROR: missing required key 'level'"),
        Ok(_) => panic!("level is required"),
    }
    match plan_log_directives(&params(&[("level", "loud")])) {
        Err(e) => assert_eq!(e, "ERROR: invalid level. Use one of: trace, debug, info, warn, error"),
        Ok(_) => panic!("level is not known"),
    }
}

#[test]
fn log_plan_builds_directives_in_order() {
    let p = params(&[
        ("level", "DEBUG"),
        ("target", " rt_server::processor_bulk "),
        ("directives", "hyper=warn, ,tower_http=info"),
        ("layer_2", "b=trace"),
        ("my_layer_1", " a=info "),
        ("layer_", "ignored=info"),
        ("span_events", "full"),
    ]);
    let plan = plan_log_directives(&p).ok().unwrap();
    assert_eq!(
        plan.directives,
        vec![
            "rt_server::processor_bulk=debug".to_string(),
            "hyper=warn".to_string(),
            "tower_http=info".to_string(),
            "b=trace".to_string(),
            "a=info".to_string(),
        ]
    );
    assert_eq!(plan.layer_filters[0].0, "layer_2".to_string());
    assert_eq!(plan.span_events, Some("full".to_string()));
    let plan = plan_log_directives(&params(&[("level", "warn"), ("target", "  ")])).ok().unwrap();
    assert_eq!(plan.directives, vec!["warn".to_string()]);
    assert_eq!(plan.span_events, None);
}

#[test]
fn directive_parsing_reports_first_bad_one() {
    assert!(parse_directives(&vec!["hyper=warn".to_string(), "debug".to_string()]).is_ok());
    match parse_directives(&vec!["info".to_string(), "a=[".to_string(), "b=[".to_string()]) {
        Err(e) => assert!(e.starts_with("ERROR: invalid directive 'a=[': ")),
        Ok(_) => panic!("directive does not parse"),
    }
}

#[test]
fn levels_and_extra_directives() {
    assert!(log_level_known(&"trace".to_string()));
    assert!(!log_level_known(&"TRACE".to_string()));
    assert_eq!(extra_directive_list(&"".to_string()), Vec::<String>::new());
    assert_eq!(extra_directive_list(&"a, b,,c ".to_string()), vec!["a".to_string(), "b".to_string(), "c".to_string()]);
}

#[test]
fn string_order_is_lexicographic() {
    let s = |x: &str| chars_of(&x.to_string());
    assert!(lex_less(&s("abc"), &s("abd")));
    assert!(lex_less(&s("ab"), &s("abc")));
    assert!(!lex_less(&s("abc"), &s("abc")));
    assert!(lex_less(&s("B"), &s("a")));
}

#[test]
fn nav_routes_by_key() {
    assert_eq!(nav_route(None), NavRoute::Legacy);
    assert_eq!(nav_route(Some(b"PV")), NavRoute::Pv);
    assert_eq!(nav_route(Some(b"NAV")), NavRoute::Ignore);
    assert_eq!(nav_route(Some(&[0xff, 0xfe])), NavRoute::BadKey);
    assert_eq!(var_route(Some(b"PV01")), VarRiskRoute::Exposures);
    assert_eq!(var_route(Some(b"PnL")), VarRiskRoute::PostProcessed);
    assert_eq!(var_route(Some(b"delta")), VarRiskRoute::Unsupported);
    assert_eq!(var_route(None), VarRiskRoute::Legacy);
}

#[test]
fn nav_book_keeps_latest_and_totals() {
    let mut book: NavBook<f64> = NavBook::new();
    assert!(!book.apply(&vec![]));
    assert!(book.apply(&vec![("t1".to_string(), 1.5), ("t2".to_string(), 2.0)]));
    assert!(book.apply(&vec![("t1".to_string(), 3.0)]));
    assert_eq!(book.total(0.0, &add), 5.0);
    let m = nav_result(book.total(0.0, &add), 17);
    assert_eq!((m.id.as_str(), m.metric.as_str(), m.kind.as_str(), m.ts_ms), ("TOTAL_NAV", "NAV", "nav", 17));
}

#[test]
fn var_book_exposures() {
    let mut book: VarBook<f64> = VarBook::new();
    let mut exp = StrMap::new();
    exp.insert("SPY".to_string(), 2.0);
    book.on_exposures(exp);
    book.on_legacy(&vec![("t1".to_string(), 1.0)], StrMap::new());
    assert_eq!(book.exposures().len(), 1);
    let mut delta = StrMap::new();
    delta.insert("QQQ".to_string(), 1.0);
    delta.insert("IWM".to_string(), 1.0);
    book.on_legacy(&vec![], delta);
    assert_eq!(book.exposures().len(), 2);
    let m = var_result(1.0, 0.95, 3);
    assert_eq!(m.methodology, "delta_normal_full_covariance_from_rolling_returns".to_string());
}

#[test]
fn clock_is_after_the_epoch() {
    assert!(now_ms() > 1_600_000_000_000);
}
