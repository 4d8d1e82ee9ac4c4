//! The risk metrics that portfolios are priced for.
use vstd::prelude::*;

verus! {

/// Which risk metric a portfolio holds.
#[derive(Clone, Copy, Debug, PartialEq, Eq, Structural)]
pub enum PricingMetric {
    PV,
    PV01,
    PnL,
}

/// The label under which a metric is shown and published.
pub open spec fn metric_label(m: PricingMetric) -> Seq<char> {
    match m {
        PricingMetric::PV => "PV"@,
        PricingMetric::PV01 => "PV01"@,
        PricingMetric::PnL => "PnL"@,
    }
}

impl PricingMetric {
    /// The metric's label: "PV", "PV01" or "PnL".
    pub fn name(&self) -> (s: String)
        ensures
            s@ == metric_label(*self),
    {
        match self {
            PricingMetric::PV => String::from_str("PV"),
            PricingMetric::PV01 => String::from_str("PV01"),
            PricingMetric::PnL => String::from_str("PnL"),
        }
    }

    /// The metric with the given label, if any.
    pub fn from_name(s: &String) -> (m: Option<PricingMetric>)
        ensures
            match m {
                Some(x) => metric_label(x) == s@,
                None => forall|x: PricingMetric| metric_label(x) != s@,
            },
    {
        let pv = String::from_str("PV");
        let pv01 = String::from_str("PV01");
        let pnl = String::from_str("PnL");
        if *s == pv {
            Some(PricingMetric::PV)
        } else if *s == pv01 {
            Some(PricingMetric::PV01)
        } else if *s == pnl {
            Some(PricingMetric::PnL)
        } else {
            proof {
                assert forall|x: PricingMetric| metric_label(x) != s@ by {
                    match x {
                        PricingMetric::PV => {},
                        PricingMetric::PV01 => {},
                        PricingMetric::PnL => {},
                    }
                }
            }
            None
        }
    }
}

/// A request on the setup topic.
#[derive(Debug)]
pub enum SetupRequest {
    /// The metrics that the processors are to compute from now on.
    Metrics(Vec<PricingMetric>),
}

impl SetupRequest {
    /// The metrics that the request asks for.
    pub fn metrics(&self) -> (v: &Vec<PricingMetric>)
        ensures
            match self {
                SetupRequest::Metrics(ms) => v@ == ms@,
            },
    {
        match self {
            SetupRequest::Metrics(ms) => ms,
        }
    }
}

/// The payload under which a portfolio is published for a metric: a JSON
/// object with the metric's label as its one key and the portfolio's JSON
/// text as its value.
pub open spec fn results_payload_of(metric: PricingMetric, portfolio_json: Seq<char>) -> Seq<char> {
    "{\""@ + metric_label(metric) + "\": "@ + portfolio_json + "}"@
}

/// The published payload for `metric`, around the portfolio's JSON text.
pub fn results_payload(metric: PricingMetric, portfolio_json: &String) -> (payload: String)
    ensures
        payload@ == results_payload_of(metric, portfolio_json@),
{
    let mut payload = String::from_str("{\"");
    let label = metric.name();
    payload.append(label.as_str());
    payload.append("\": ");
    payload.append(portfolio_json.as_str());
    payload.append("}");
    payload
}

} // verus!
