pub mod all_markets;
pub mod ao_trade;
pub mod bergomi_calib;
pub mod controller_actor;
pub mod decimal;
pub mod laws;
pub mod market;
pub mod metric;
pub mod nav;
pub mod pm_portfolio;
pub mod portfolio;
pub mod pricer;
pub mod pricing_results;
pub mod processor_bulk;
pub mod processor_curr;
pub mod processor_middle;
pub mod processor_msg;
pub mod processor_new;
pub mod processor_setup;
pub mod ref_deref;
pub mod rm_local;
pub mod streaming;
pub mod strmap;
pub mod text;
pub mod trade;
pub mod trade_set;
pub mod var;
