//! The configuration of the local real-time risk manager.
use vstd::prelude::*;
use crate::metric::{metric_label, PricingMetric};
use crate::streaming::Streaming;

verus! {

/// The settings read from the risk manager's configuration file.
pub struct RTRMConfig {
    pub kafka_server_name: String,
    pub kafka_server_port: i32,
    pub metric: String,
    pub results_topic: String,
    pub mkt_topic: String,
    pub risk_topic: String,
    pub positions_topic: String,
}

impl RTRMConfig {
    /// The metric that the configuration names, if it names one of "PV",
    /// "PV01" or "PnL".
    pub fn pricing_metric(&self) -> (m: Option<PricingMetric>)
        ensures
            match m {
                Some(x) => metric_label(x) == self.metric@,
                None => forall|x: PricingMetric| metric_label(x) != self.metric@,
            },
    {
        PricingMetric::from_name(&self.metric)
    }
}

impl Streaming for RTRMConfig {
    open spec fn server_name_view(&self) -> Seq<char> {
        self.kafka_server_name@
    }

    open spec fn port_view(&self) -> i32 {
        self.kafka_server_port
    }

    fn kafka_server_name(&self) -> (name: String) {
        self.kafka_server_name.clone()
    }

    fn kafka_port(&self) -> (port: i32) {
        self.kafka_server_port
    }
}

} // verus!
