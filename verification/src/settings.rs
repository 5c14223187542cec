//! The process configuration as plain values: listener addresses, the
//! initial routes in wire form, and per-upstream probe settings. Reading
//! the file and opening sockets happen outside the library.

use vstd::prelude::*;

use crate::route;
use crate::serial;
use crate::strutil::{dec_digits, push_char, push_dec};

verus! {

/// How one upstream is probed: how often, and how many consecutive
/// failures or successes flip it.
#[derive(Clone, Debug, PartialEq)]
pub struct ProbeSettings {
    pub upstream_address: String,
    pub poll_interval_ms: u64,
    pub error_count: u64,
    pub success_count: u64,
}

/// The mathematical form of probe settings.
pub struct ProbeSettingsView {
    pub upstream_address: Seq<char>,
    pub poll_interval_ms: u64,
    pub error_count: u64,
    pub success_count: u64,
}

impl View for ProbeSettings {
    type V = ProbeSettingsView;

    open spec fn view(&self) -> ProbeSettingsView {
        ProbeSettingsView {
            upstream_address: self.upstream_address@,
            poll_interval_ms: self.poll_interval_ms,
            error_count: self.error_count,
            success_count: self.success_count,
        }
    }
}

impl ProbeSettings {
    /// The settings used when the configuration names none for an
    /// upstream: a tick every second, five failures down, five successes up.
    pub fn default(upstream_address: &str) -> (r: Self)
        ensures
            r@ == (ProbeSettingsView {
                upstream_address: upstream_address@,
                poll_interval_ms: 1000,
                error_count: 5,
                success_count: 5,
            }),
    {
        ProbeSettings {
            upstream_address: upstream_address.to_owned(),
            poll_interval_ms: 1000,
            error_count: 5,
            success_count: 5,
        }
    }
}

/// The whole configuration: where the two listeners bind, the initial
/// routes, and any per-upstream probe settings.
#[derive(Debug)]
pub struct HapiSettings {
    pub ip_address: String,
    pub port: u16,
    pub probes: Option<Vec<ProbeSettings>>,
    pub routes: Vec<serial::Route>,
    pub api_ip_address: String,
    pub api_port: u16,
}

impl HapiSettings {
    /// The configured routes, built into model routes.
    pub fn routes(&self) -> (r: Vec<route::Route>)
        ensures
            r@.len() == self.routes@.len(),
            forall|j: int|
                0 <= j < r@.len() ==> r@[j]@ == serial::spec_into_model(self.routes@[j]@),
    {
        let mut result: Vec<route::Route> = Vec::new();
        let mut i: usize = 0;
        while i < self.routes.len()
            invariant
                i <= self.routes.len(),
                result@.len() == i,
                forall|j: int|
                    0 <= j < i ==> result@[j]@ == serial::spec_into_model(self.routes@[j]@),
            decreases self.routes.len() - i,
        {
            result.push(self.routes[i].into_model());
            i = i + 1;
        }
        result
    }

    /// The data-plane listener's address as `ip:port`.
    pub fn server_address_string(&self) -> (r: String)
        ensures
            r@ == socket_chars(self.ip_address@, self.port),
    {
        socket_address(self.ip_address.as_str(), self.port)
    }

    /// The management listener's address as `ip:port`.
    pub fn api_address_string(&self) -> (r: String)
        ensures
            r@ == socket_chars(self.api_ip_address@, self.api_port),
    {
        socket_address(self.api_ip_address.as_str(), self.api_port)
    }
}

/// An `ip:port` string.
pub open spec fn socket_chars(ip: Seq<char>, port: u16) -> Seq<char> {
    ip + seq![':'] + dec_digits(port as nat)
}

/// Joins an ip and a port into the `ip:port` form.
pub fn socket_address(ip: &str, port: u16) -> (r: String)
    ensures
        r@ == socket_chars(ip@, port),
{
    let mut r = ip.to_owned();
    push_char(&mut r, ':');
    push_dec(&mut r, port as u64);
    proof {
        assert(r@ =~= socket_chars(ip@, port));
    }
    r
}

} // verus!
