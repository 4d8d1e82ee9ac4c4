//! Components that read from or write to the message broker.
use vstd::prelude::*;
use crate::decimal::{i64_to_decimal, signed_decimal};

verus! {

/// A component that knows the broker's server name and port.
pub trait Streaming {
    /// The server name, as a spec value.
    spec fn server_name_view(&self) -> Seq<char>;

    /// The port, as a spec value.
    spec fn port_view(&self) -> i32;

    fn kafka_server_name(&self) -> (name: String)
        ensures
            name@ == self.server_name_view(),
    ;

    fn kafka_port(&self) -> (port: i32)
        ensures
            port == self.port_view(),
    ;
}

/// The bootstrap address of a broker: server name, a colon, and the port.
pub open spec fn bootstrap_address(server_name: Seq<char>, port: i32) -> Seq<char> {
    server_name + ":"@ + signed_decimal(port as int)
}

/// The bootstrap address under which a streaming component reaches the
/// broker.
pub fn bootstrap_servers<S: Streaming>(s: &S) -> (address: String)
    ensures
        address@ == bootstrap_address(s.server_name_view(), s.port_view()),
{
    let mut address = s.kafka_server_name();
    address.append(":");
    let port = i64_to_decimal(s.kafka_port() as i64);
    address.append(port.as_str());
    address
}

/// The seconds to wait before the first new attempt to reach the broker.
pub const FIRST_RETRY_DELAY_SECS: u64 = 1;

/// The longest wait between two attempts to reach the broker, in seconds.
pub const MAX_RETRY_DELAY_SECS: u64 = 5;

/// The wait before the attempt after one that waited `secs` seconds: one
/// second longer, but at most `MAX_RETRY_DELAY_SECS`.
pub fn next_retry_delay(secs: u64) -> (next: u64)
    ensures
        next == if secs + 1 < MAX_RETRY_DELAY_SECS { secs + 1 } else { MAX_RETRY_DELAY_SECS as int },
{
    if secs < MAX_RETRY_DELAY_SECS - 1 {
        secs + 1
    } else {
        MAX_RETRY_DELAY_SECS
    }
}

} // verus!
