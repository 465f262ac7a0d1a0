//! The TCP proxy: its addresses, its control state and the addresses its
//! remote resolved to.
use vstd::prelude::*;
use crate::dns::DNSResolve;

verus! {

/// A TCP proxy: it takes control commands on `signal_addr`, listens on
/// `addr`, and forwards each connection to the first address that `remote`
/// resolved to.
pub struct TCPProxy {
    pub signal_addr: String,
    pub addr: String,
    pub remote: String,
    pub stop: bool,
    pub dns: Vec<String>,
}

impl DNSResolve for TCPProxy {
    open spec fn remote_text(&self) -> Seq<char> {
        self.remote@
    }

    open spec fn client_text(&self) -> Seq<char> {
        self.addr@
    }

    open spec fn dns_list(&self) -> Seq<String> {
        self.dns@
    }

    open spec fn same_but_dns(&self, other: &Self) -> bool {
        &&& self.signal_addr == other.signal_addr
        &&& self.addr == other.addr
        &&& self.remote == other.remote
        &&& self.stop == other.stop
    }

    fn remote(&self) -> (r: String)
        ensures
            r == self.remote,
    {
        self.remote.clone()
    }

    fn client(&self) -> (r: &String)
        ensures
            *r == self.addr,
    {
        &self.addr
    }

    fn dns(&self) -> (r: &Vec<String>)
        ensures
            *r == self.dns,
    {
        &self.dns
    }

    fn reset_dns(&mut self, d: &Vec<String>) -> (n: usize)
        ensures
            final(self).dns@ == d@,
            final(self).signal_addr == old(self).signal_addr,
            final(self).addr == old(self).addr,
            final(self).remote == old(self).remote,
            final(self).stop == old(self).stop,
    {
        self.dns = d.clone();
        proof {
            assert(self.dns@ =~= d@);
        }
        self.dns.len()
    }
}

impl TCPProxy {
    /// A proxy that takes commands on `signal_addr`, listens on `addr` and
    /// forwards to `remote`; not stopped, and with no resolved address yet.
    pub fn new(signal_addr: String, addr: String, remote: String) -> (r: Self)
        ensures
            r.signal_addr == signal_addr,
            r.addr == addr,
            r.remote == remote,
            r.remote_text() == remote@,
            r.client_text() == addr@,
            r.dns_list() == Seq::<String>::empty(),
            !r.stop,
            r.dns@ == Seq::<String>::empty(),
    {
        TCPProxy { signal_addr, addr, remote, stop: false, dns: Vec::new() }
    }

    /// The periodic address refresh: when a stop was requested, the proxy is
    /// marked stopped and ends (`false`); otherwise it takes `remote`, the
    /// remote address its control port holds now, to resolve again (`true`).
    pub fn tick(&mut self, stop_requested: bool, remote: String) -> (r: bool)
        ensures
            r == !stop_requested,
            stop_requested ==> final(self).stop && final(self).remote == old(self).remote,
            !stop_requested ==> final(self).remote == remote && final(self).stop == old(self).stop,
            final(self).signal_addr == old(self).signal_addr,
            final(self).addr == old(self).addr,
            final(self).dns == old(self).dns,
    {
        if stop_requested {
            self.stop = true;
            false
        } else {
            self.remote = remote;
            true
        }
    }
}


/// A TCP proxy looks up and forwards to the address held in its `remote`
/// field and listens on the one in its `addr` field: the remote address is
/// the remote text (so `domain` is the host of `remote`, and `port` of `dist`
/// reads `remote`), and the listening address is the client text (so `port`
/// of `src` reads `addr`); its address list is its `dns` field.
pub proof fn lemma_tcp_addresses(p: TCPProxy)
    ensures
        p.remote_text() == p.remote@,
        p.client_text() == p.addr@,
        p.dns_list() == p.dns@,
{
}

/// A TCP proxy built from `(signal_addr, addr, remote)` looks up the host of
/// `remote` and reads its `dist` port from `remote` and its `src` port from
/// `addr`, whatever the three texts are.
pub proof fn lemma_tcp_new_addresses(p: TCPProxy, signal_addr: String, addr: String, remote: String)
    requires
        p.signal_addr == signal_addr,
        p.addr == addr,
        p.remote == remote,
    ensures
        p.remote_text() == remote@,
        p.client_text() == addr@,
        crate::dns::selected_address("dist"@, p.remote_text(), p.client_text()) == Some(remote@),
        crate::dns::selected_address("src"@, p.remote_text(), p.client_text()) == Some(addr@),
{
    reveal_strlit("dist");
    reveal_strlit("src");
    assert("dist"@ != "src"@) by {
        assert("dist"@.len() != "src"@.len());
    }
}


/// Two TCP proxies agree in everything but their address lists exactly
/// when their control address, listening address, remote address and stop
/// flag agree; a lookup changes only the address list.
pub proof fn lemma_tcp_same_but_dns(a: TCPProxy, b: TCPProxy)
    ensures
        a.same_but_dns(&b) <==> (a.signal_addr == b.signal_addr && a.addr == b.addr
            && a.remote == b.remote && a.stop == b.stop),
{
}

} // verus!
