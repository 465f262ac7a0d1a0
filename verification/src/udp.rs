//! The UDP proxy: its addresses, its client tunnels, and what a tunnel does
//! with each message it is handed.
use vstd::prelude::*;
use crate::dns::DNSResolve;
use crate::tunnel::{
    PeerAddr, TunnelTable, all_used_by, expired_entries, has_peer, live_entries, unique_peers,
};

verus! {

/// A message handed to a client tunnel.
#[derive(Clone, Copy, Debug, PartialEq, Eq, Structural)]
pub enum MessageType {
    /// A datagram to forward.
    Data,
    /// The tunnel is to close.
    Terminate,
    /// A change of the remote address.
    DNS,
}

/// What a client tunnel does with a message.
#[derive(Clone, Copy, Debug, PartialEq, Eq, Structural)]
pub enum RelayAction {
    /// Forward the message's bytes to the remote address.
    Forward,
    /// Close the tunnel.
    Close,
}

impl MessageType {
    /// What a tunnel does with this message: a `Terminate` closes it, any
    /// other message is forwarded.
    pub fn relay_action(&self) -> (r: RelayAction)
        ensures
            (*self == MessageType::Terminate) == (r == RelayAction::Close),
    {
        match self {
            MessageType::Terminate => RelayAction::Close,
            _ => RelayAction::Forward,
        }
    }
}

/// A UDP proxy: it takes control commands on `signal_addr`, listens on
/// `addr`, forwards each client's datagrams through a tunnel of its own to
/// the first address that `remote` resolved to, and drops tunnels that stay
/// silent too long. `T` is the handle through which a tunnel is reached.
pub struct UDPProxy<T> {
    pub signal_addr: String,
    pub addr: String,
    pub remote: String,
    pub stop: bool,
    pub dns: Vec<String>,
    pub client_tunnels: TunnelTable<T>,
}

impl<T> DNSResolve for UDPProxy<T> {
    open spec fn remote_text(&self) -> Seq<char> {
        self.remote@
    }

    open spec fn client_text(&self) -> Seq<char> {
        self.addr@
    }

    open spec fn dns_list(&self) -> Seq<String> {
        self.dns@
    }

    open spec fn same_but_dns(&self, other: &Self) -> bool {
        &&& self.signal_addr == other.signal_addr
        &&& self.addr == other.addr
        &&& self.remote == other.remote
        &&& self.stop == other.stop
        &&& self.client_tunnels@ == other.client_tunnels@
    }

    fn remote(&self) -> (r: String)
        ensures
            r == self.remote,
    {
        self.remote.clone()
    }

    fn client(&self) -> (r: &String)
        ensures
            *r == self.addr,
    {
        &self.addr
    }

    fn dns(&self) -> (r: &Vec<String>)
        ensures
            *r == self.dns,
    {
        &self.dns
    }

    fn reset_dns(&mut self, d: &Vec<String>) -> (n: usize)
        ensures
            final(self).dns@ == d@,
            final(self).signal_addr == old(self).signal_addr,
            final(self).addr == old(self).addr,
            final(self).remote == old(self).remote,
            final(self).stop == old(self).stop,
            final(self).client_tunnels@ == old(self).client_tunnels@,
    {
        self.dns = d.clone();
        proof {
            assert(self.dns@ =~= d@);
        }
        d.len()
    }
}

impl<T> UDPProxy<T> {
    /// A proxy that takes commands on `signal_addr`, listens on `addr` and
    /// forwards to `remote`; not stopped, with no resolved address and no
    /// client tunnel yet.
    pub fn new(signal_addr: String, addr: String, remote: String) -> (r: Self)
        ensures
            r.signal_addr == signal_addr,
            r.addr == addr,
            r.remote == remote,
            r.remote_text() == remote@,
            r.client_text() == addr@,
            r.dns_list() == Seq::<String>::empty(),
            !r.stop,
            r.dns@ == Seq::<String>::empty(),
            r.client_tunnels@ == Seq::<(PeerAddr, T, u128)>::empty(),
    {
        UDPProxy {
            signal_addr,
            addr,
            remote,
            stop: false,
            dns: Vec::new(),
            client_tunnels: TunnelTable::new(),
        }
    }

    /// Takes in a datagram from `peer` at `now`: a known client's tunnel is
    /// marked as used at `now`; for a new client nothing changes and the
    /// answer is `true`: it needs a tunnel of its own (see `open_tunnel`).
    pub fn take_datagram(&mut self, peer: PeerAddr, now: u128) -> (needs_tunnel: bool)
        ensures
            needs_tunnel == !has_peer(old(self).client_tunnels@, peer),
            needs_tunnel ==> final(self).client_tunnels@ == old(self).client_tunnels@,
            forall|i: int|
                0 <= i < old(self).client_tunnels@.len() && (#[trigger] old(
                    self,
                ).client_tunnels@[i]).0 == peer ==> final(self).client_tunnels@ == old(
                    self,
                ).client_tunnels@.update(i, (peer, old(self).client_tunnels@[i].1, now)),
            unique_peers(final(self).client_tunnels@),
            final(self).signal_addr == old(self).signal_addr,
            final(self).addr == old(self).addr,
            final(self).remote == old(self).remote,
            final(self).stop == old(self).stop,
            final(self).dns == old(self).dns,
    {
        !self.client_tunnels.touch(&peer, now)
    }

    /// Records the tunnel `handle` opened at `now` for the new client `peer`,
    /// at the end of the table.
    pub fn open_tunnel(&mut self, peer: PeerAddr, handle: T, now: u128)
        requires
            !has_peer(old(self).client_tunnels@, peer),
        ensures
            final(self).client_tunnels@ == old(self).client_tunnels@.push((peer, handle, now)),
            unique_peers(final(self).client_tunnels@),
            final(self).signal_addr == old(self).signal_addr,
            final(self).addr == old(self).addr,
            final(self).remote == old(self).remote,
            final(self).stop == old(self).stop,
            final(self).dns == old(self).dns,
    {
        self.client_tunnels.insert(peer, handle, now);
    }

    /// The tunnel through which `peer`'s datagrams go, if it has one.
    pub fn tunnel(&self, peer: &PeerAddr) -> (r: Option<&T>)
        ensures
            r is Some <==> has_peer(self.client_tunnels@, *peer),
            r matches Some(t) ==> exists|i: int|
                0 <= i < self.client_tunnels@.len() && (#[trigger] self.client_tunnels@[i]).0
                    == *peer && self.client_tunnels@[i].1 == *t,
    {
        self.client_tunnels.get(peer)
    }

    /// The periodic address refresh: the proxy takes `remote`, the remote
    /// address its control port holds now, to resolve again.
    pub fn adopt_remote(&mut self, remote: String)
        ensures
            final(self).remote == remote,
            final(self).signal_addr == old(self).signal_addr,
            final(self).addr == old(self).addr,
            final(self).stop == old(self).stop,
            final(self).dns == old(self).dns,
            final(self).client_tunnels@ == old(self).client_tunnels@,
    {
        self.remote = remote;
    }

    /// The periodic check: when a stop was requested, `None`, and the proxy
    /// is marked stopped and ends with its tunnels as they are; otherwise the tunnels that have
    /// expired at `now` are removed and handed back, in table order, to be
    /// told to close.
    pub fn sweep(&mut self, stop_requested: bool, now: u128) -> (r: Option<Vec<(PeerAddr, T, u128)>>)
        requires
            !stop_requested ==> all_used_by(old(self).client_tunnels@, now),
        ensures
            stop_requested ==> r is None && final(self).client_tunnels@ == old(self).client_tunnels@
                && final(self).stop,
            !stop_requested ==> (r matches Some(v) && v@ == expired_entries(
                old(self).client_tunnels@,
                now,
            ) && final(self).client_tunnels@ == live_entries(old(self).client_tunnels@, now)
                && unique_peers(final(self).client_tunnels@)),
            final(self).signal_addr == old(self).signal_addr,
            final(self).addr == old(self).addr,
            final(self).remote == old(self).remote,
            !stop_requested ==> final(self).stop == old(self).stop,
            final(self).dns == old(self).dns,
    {
        if stop_requested {
            self.stop = true;
            None
        } else {
            Some(self.client_tunnels.remove_expired(now))
        }
    }
}


/// A UDP proxy looks up and forwards to the address held in its `remote`
/// field and listens on the one in its `addr` field: the remote address is
/// the remote text (so `domain` is the host of `remote`, and `port` of `dist`
/// reads `remote`), and the listening address is the client text (so `port`
/// of `src` reads `addr`); its address list is its `dns` field.
pub proof fn lemma_udp_addresses<T>(p: UDPProxy<T>)
    ensures
        p.remote_text() == p.remote@,
        p.client_text() == p.addr@,
        p.dns_list() == p.dns@,
{
}

/// A UDP proxy built from `(signal_addr, addr, remote)` looks up the host of
/// `remote` and reads its `dist` port from `remote` and its `src` port from
/// `addr`, whatever the three texts are.
pub proof fn lemma_udp_new_addresses<T>(p: UDPProxy<T>, signal_addr: String, addr: String, remote: String)
    requires
        p.signal_addr == signal_addr,
        p.addr == addr,
        p.remote == remote,
    ensures
        p.remote_text() == remote@,
        p.client_text() == addr@,
        crate::dns::selected_address("dist"@, p.remote_text(), p.client_text()) == Some(remote@),
        crate::dns::selected_address("src"@, p.remote_text(), p.client_text()) == Some(addr@),
{
    reveal_strlit("dist");
    reveal_strlit("src");
    assert("dist"@ != "src"@) by {
        assert("dist"@.len() != "src"@.len());
    }
}


/// Two UDP proxies agree in everything but their address lists exactly
/// when their control address, listening address, remote address and stop
/// flag agree and they hold the same tunnels; a lookup changes only the address list.
pub proof fn lemma_udp_same_but_dns<T>(a: UDPProxy<T>, b: UDPProxy<T>)
    ensures
        a.same_but_dns(&b) <==> (a.signal_addr == b.signal_addr && a.addr == b.addr
            && a.remote == b.remote && a.stop == b.stop
            && a.client_tunnels@ == b.client_tunnels@),
{
}

} // verus!
