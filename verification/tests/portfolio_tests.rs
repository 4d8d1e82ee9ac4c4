use rt_server::metric::PricingMetric;
use rt_server::pm_portfolio::PmPortfolio;
use rt_server::portfolio::PortfolioType;
use std::cmp::Ordering;

fn portfolio(pairs: &[(&str, f64)]) -> PortfolioType<f64> {
    PortfolioType::from_pairs(pairs.iter().map(|(k, v)| (k.to_string(), *v)).collect())
}

fn add(a: f64, b: f64) -> f64 {
    a + b
}

fn same(a: &PortfolioType<f64>, b: &PortfolioType<f64>) -> bool {
    a.matches(b, &|x: f64, y: f64| x == y)
}

fn metric_is(p: &PmPortfolio<f64>, m: PricingMetric, expected: &PortfolioType<f64>) -> bool {
    match p.get(m) {
        Some(q) => same(q, expected),
        None => false,
    }
}

#[test]
fn portfolio_works_1() {
    let mut portfolio_1 = portfolio(&[("1", 10.), ("2", 20.)]);
    let portfolio_2 = portfolio(&[("1", 20.)]);
    portfolio_1.add_assign_with(&portfolio_2, &add);
    let portfolio_res = portfolio(&[("1", 30.), ("2", 20.)]);

    assert!(same(&portfolio_1, &portfolio_res));
}

#[test]
fn partial_cmp_equal_when_same_keys() {
    let p1 = portfolio(&[("1", 10.), ("2", 20.)]);
    let p2 = portfolio(&[("1", -999.), ("2", 0.)]);

    assert_eq!(p1.partial_cmp(&p2), Some(Ordering::Equal));
    assert_eq!(p2.partial_cmp(&p1), Some(Ordering::Equal));
}

#[test]
fn partial_cmp_less_when_subset_of_keys() {
    let smaller = portfolio(&[("1", 10.)]);
    let bigger = portfolio(&[("1", 10.), ("2", 20.)]);

    assert_eq!(smaller.partial_cmp(&bigger), Some(Ordering::Less));
    assert_eq!(bigger.partial_cmp(&smaller), Some(Ordering::Greater));
}

#[test]
fn partial_cmp_none_when_incomparable_key_sets() {
    let p1 = portfolio(&[("1", 10.)]);
    let p2 = portfolio(&[("2", 20.)]);

    assert_eq!(p1.partial_cmp(&p2), None);
    assert_eq!(p2.partial_cmp(&p1), None);
}

#[test]
fn partial_cmp_less_for_empty_vs_nonempty() {
    let empty: PortfolioType<f64> = PortfolioType::new();
    let nonempty = portfolio(&[("1", 10.)]);

    assert_eq!(empty.partial_cmp(&nonempty), Some(Ordering::Less));
    assert_eq!(nonempty.partial_cmp(&empty), Some(Ordering::Greater));
}

#[test]
fn partial_cmp_equal_for_both_empty() {
    let p1: PortfolioType<f64> = PortfolioType::new();
    let p2: PortfolioType<f64> = PortfolioType::new();

    assert_eq!(p1.partial_cmp(&p2), Some(Ordering::Equal));
    assert_eq!(p2.partial_cmp(&p1), Some(Ordering::Equal));
}

#[test]
fn pmportfolio_assign_metric_inserts_when_missing() {
    let mut pmp = PmPortfolio::new();
    let pv = portfolio(&[("t1", 1.0)]);

    pmp.assign_metric(PricingMetric::PV, pv.duplicate(), &add);

    assert!(metric_is(&pmp, PricingMetric::PV, &pv));
}

#[test]
fn pmportfolio_assign_metric_adds_when_existing() {
    let mut pmp = PmPortfolio::new();
    pmp.assign_metric(PricingMetric::PV, portfolio(&[("t1", 1.0)]), &add);

    pmp.assign_metric(PricingMetric::PV, portfolio(&[("t1", 2.0), ("t2", 10.0)]), &add);

    let expected = portfolio(&[("t1", 3.0), ("t2", 10.0)]);
    assert!(metric_is(&pmp, PricingMetric::PV, &expected));
}

#[test]
fn pmportfolio_add_assign_merges_metrics_and_adds_values() {
    let mut a = PmPortfolio::new();
    a.assign_metric(PricingMetric::PV, portfolio(&[("t1", 1.0)]), &add);

    let mut b = PmPortfolio::new();
    b.assign_metric(PricingMetric::PV, portfolio(&[("t1", 2.0), ("t2", 10.0)]), &add);
    b.assign_metric(PricingMetric::PnL, portfolio(&[("t1", -1.0)]), &add);

    a.add_assign_with(&b, &add);

    let expected_pv = portfolio(&[("t1", 3.0), ("t2", 10.0)]);
    let expected_pnl = portfolio(&[("t1", -1.0)]);
    assert!(metric_is(&a, PricingMetric::PV, &expected_pv));
    assert!(metric_is(&a, PricingMetric::PnL, &expected_pnl));
}

#[test]
fn pmportfolio_partial_cmp_less_when_metric_keys_subset_and_each_portfolio_ordered() {
    let mut a = PmPortfolio::new();
    a.assign_metric(PricingMetric::PV, portfolio(&[("t1", 1.0)]), &add);

    let mut b = PmPortfolio::new();
    b.assign_metric(PricingMetric::PV, portfolio(&[("t1", 999.0), ("t2", 2.0)]), &add);
    b.assign_metric(PricingMetric::PnL, portfolio(&[("t1", 0.0)]), &add);

    assert_eq!(a.partial_cmp(&b), Some(Ordering::Less));
    assert_eq!(b.partial_cmp(&a), Some(Ordering::Greater));
}

#[test]
fn pmportfolio_partial_cmp_none_when_common_metric_portfolios_incomparable() {
    let mut a = PmPortfolio::new();
    a.assign_metric(PricingMetric::PV, portfolio(&[("t1", 1.0)]), &add);

    let mut b = PmPortfolio::new();
    b.assign_metric(PricingMetric::PV, portfolio(&[("t2", 2.0)]), &add);

    assert_eq!(a.partial_cmp(&b), None);
    assert_eq!(b.partial_cmp(&a), None);
}

#[test]
fn pmportfolio_count_reports_trade_counts_per_metric() {
    let mut pmp = PmPortfolio::new();
    pmp.assign_metric(PricingMetric::PV, portfolio(&[("t1", 1.0), ("t2", 2.0)]), &add);
    pmp.assign_metric(PricingMetric::PnL, portfolio(&[("t1", -1.0)]), &add);

    let counts = pmp.count();
    assert_eq!(counts.get(PricingMetric::PV), Some(2usize));
    assert_eq!(counts.get(PricingMetric::PnL), Some(1usize));
}

#[test]
fn pmportfolio_simple_empty_is_braces() {
    let pmp: PmPortfolio<f64> = PmPortfolio::new();
    assert_eq!(pmp.simple(), "{}".to_string());
}

#[test]
fn pmportfolio_simple_includes_metric_names() {
    let mut pmp = PmPortfolio::new();
    pmp.assign_metric(PricingMetric::PV, portfolio(&[("t1", 1.0)]), &add);

    let s = pmp.simple();
    assert!(s.contains("PV"));
    assert!(s.contains("1"));
}

#[test]
fn pmportfolio_assign_overwrites_existing_metric_portfolio() {
    let mut a = PmPortfolio::new();
    a.assign_metric(PricingMetric::PV, portfolio(&[("t1", 1.0)]), &add);

    let mut b = PmPortfolio::new();
    b.assign_metric(PricingMetric::PV, portfolio(&[("t2", 2.0)]), &add);

    a.assign(&b);

    let expected = portfolio(&[("t2", 2.0)]);
    assert!(metric_is(&a, PricingMetric::PV, &expected));
}
