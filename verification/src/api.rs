//! The control server: where it listens and what it does with each command.
use vstd::prelude::*;
use crate::command::APICommand;
use crate::dns::address_port;
use crate::text::{
    before_first_colon, has_colon, host_port_text, join_host_port, lemma_host_port_round_trip,
    same_text,
};

verus! {

/// The control server's settings: the address and port it listens on, and
/// the addresses on which the TCP and the UDP proxies it starts take their
/// own control commands.
pub struct APIServer {
    pub server: String,
    pub port: u16,
    pub control_tcp_addr: String,
    pub control_udp_addr: String,
}

/// The addresses of a proxy to start: its control port, where it listens, and
/// where it forwards to.
pub struct ProxyPlan {
    pub signal_addr: String,
    pub listen_addr: String,
    pub remote_addr: String,
}

/// What the control server does with one command.
pub enum ApiAction {
    /// Start a TCP proxy.
    StartTcp(ProxyPlan),
    /// Start a UDP proxy.
    StartUdp(ProxyPlan),
    /// An `UP` command for a protocol other than `TCP` and `UDP` (named here).
    UnsupportedProtocol(String),
    /// A command other than `UP` (its property named here).
    UnknownCommand(String),
}

/// Whether `plan` is the proxy that `command` asks for, with its control port
/// on `control_addr` at the proxy's listening port.
pub open spec fn plan_matches(plan: ProxyPlan, control_addr: Seq<char>, command: &APICommand) -> bool {
    &&& plan.signal_addr@ == host_port_text(control_addr, command.listen_port)
    &&& plan.listen_addr@ == host_port_text(command.listen_addr@, command.listen_port)
    &&& plan.remote_addr@ == host_port_text(command.remote_addr@, command.remote_port)
}

/// A proxy that the control server starts reads its ports back: its control
/// address and its listening address both carry the command's listening
/// port, its remote address the command's remote port, and, for a remote
/// host without `:`, the host part of its remote address is that host.
pub proof fn lemma_plan_reads_back(plan: ProxyPlan, control_addr: Seq<char>, command: &APICommand)
    requires
        plan_matches(plan, control_addr, command),
    ensures
        address_port(plan.signal_addr@) == Some(command.listen_port),
        address_port(plan.listen_addr@) == Some(command.listen_port),
        address_port(plan.remote_addr@) == Some(command.remote_port),
        !has_colon(command.remote_addr@) ==> before_first_colon(plan.remote_addr@)
            == command.remote_addr@,
{
    lemma_host_port_round_trip(control_addr, command.listen_port);
    lemma_host_port_round_trip(command.listen_addr@, command.listen_port);
    lemma_host_port_round_trip(command.remote_addr@, command.remote_port);
}

impl APIServer {
    /// The address the control server listens on, `server:port`.
    pub fn bind_address(&self) -> (r: String)
        ensures
            r@ == host_port_text(self.server@, self.port),
    {
        join_host_port(self.server.as_str(), self.port)
    }

    /// The addresses of the proxy that an `UP` command asks for, with its
    /// control port on `control_addr`.
    fn proxy_plan(control_addr: &String, command: &APICommand) -> (r: ProxyPlan)
        ensures
            plan_matches(r, control_addr@, command),
    {
        ProxyPlan {
            signal_addr: join_host_port(control_addr.as_str(), command.listen_port),
            listen_addr: join_host_port(command.listen_addr.as_str(), command.listen_port),
            remote_addr: join_host_port(command.remote_addr.as_str(), command.remote_port),
        }
    }

    /// What the control server does with `command`: an `UP` over `TCP` or
    /// `UDP` starts that proxy, with its control port on the matching control
    /// address at the proxy's listening port; anything else is refused.
    pub fn plan(&self, command: &APICommand) -> (r: ApiAction)
        ensures
            command.property@ != "UP"@ ==> r == ApiAction::UnknownCommand(command.property),
            command.property@ == "UP"@ && command.protocol@ == "TCP"@ ==> (r matches ApiAction::StartTcp(p)
                && plan_matches(p, self.control_tcp_addr@, command)),
            command.property@ == "UP"@ && command.protocol@ == "UDP"@ ==> (r matches ApiAction::StartUdp(p)
                && plan_matches(p, self.control_udp_addr@, command)),
            command.property@ == "UP"@ && command.protocol@ != "TCP"@ && command.protocol@ != "UDP"@
                ==> r == ApiAction::UnsupportedProtocol(command.protocol),
    {
        proof {
            reveal_strlit("TCP");
            reveal_strlit("UDP");
            assert("TCP"@ != "UDP"@) by {
                assert("TCP"@[0] != "UDP"@[0]);
            }
        }
        if same_text(&command.property, "UP") {
            if same_text(&command.protocol, "TCP") {
                ApiAction::StartTcp(Self::proxy_plan(&self.control_tcp_addr, command))
            } else if same_text(&command.protocol, "UDP") {
                ApiAction::StartUdp(Self::proxy_plan(&self.control_udp_addr, command))
            } else {
                ApiAction::UnsupportedProtocol(command.protocol.clone())
            }
        } else {
            ApiAction::UnknownCommand(command.property.clone())
        }
    }
}

} // verus!
