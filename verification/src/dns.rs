//! Name resolution of a proxy's remote address: what the proxy keeps of a
//! lookup, and the host and port parts of its addresses.
use vstd::prelude::*;
use crate::text::{
    after_last_colon, before_first_colon, has_colon, host_part, parse_u16, parse_u16_spec,
    port_part, same_text,
};

verus! {

/// Every this many seconds a proxy looks its remote address up again.
pub const DNS_REFRESH_SECS: u64 = 30;

/// Whether some address of `list` reads `addr`.
pub open spec fn listed(list: Seq<String>, addr: Seq<char>) -> bool {
    exists|j: int| 0 <= j < list.len() && (#[trigger] list[j])@ == addr
}

/// The addresses of `found` that `known` does not list, in order.
pub open spec fn unseen(known: Seq<String>, found: Seq<String>) -> Seq<String> {
    found.filter(|a: String| !listed(known, a@))
}

/// The addresses that a lookup gave and the proxy did not hold are exactly
/// those whose text differs from the text of every held address: each one
/// handed back was found and reads unlike every held address, and each found
/// address that reads unlike every held address is handed back. Two
/// addresses that differ anywhere (host or port) are different addresses.
pub proof fn lemma_unseen_exact(known: Seq<String>, found: Seq<String>)
    ensures
        forall|i: int|
            0 <= i < unseen(known, found).len() ==> found.contains(#[trigger] unseen(known, found)[i])
                && forall|j: int| 0 <= j < known.len() ==> (#[trigger] known[j])@ != unseen(known, found)[i]@,
        forall|i: int|
            0 <= i < found.len() && (forall|j: int| 0 <= j < known.len() ==> (#[trigger] known[j])@ != found[i]@)
                ==> unseen(known, found).contains(#[trigger] found[i]),
        forall|i: int|
            0 <= i < found.len() && (exists|j: int| 0 <= j < known.len() && (#[trigger] known[j])@ == found[i]@)
                ==> !unseen(known, found).contains(#[trigger] found[i]),
{
    let keep = |a: String| !listed(known, a@);
    assert forall|i: int| 0 <= i < unseen(known, found).len() implies found.contains(#[trigger] unseen(known, found)[i])
        && forall|j: int| 0 <= j < known.len() ==> (#[trigger] known[j])@ != unseen(known, found)[i]@ by {
        found.lemma_filter_pred(keep, i);
        found.lemma_filter_contains_rev(keep, found.filter(keep)[i]);
        assert(found.filter(keep).contains(found.filter(keep)[i]));
    }
    assert forall|i: int|
        0 <= i < found.len() && (forall|j: int| 0 <= j < known.len() ==> (#[trigger] known[j])@ != found[i]@)
        implies unseen(known, found).contains(#[trigger] found[i]) by {
        assert(keep(found[i]));
        found.lemma_filter_contains(keep, i);
    }
    assert forall|i: int|
        0 <= i < found.len() && (exists|j: int| 0 <= j < known.len() && (#[trigger] known[j])@ == found[i]@)
        implies !unseen(known, found).contains(#[trigger] found[i]) by {
        if unseen(known, found).contains(found[i]) {
            let k = choose|k: int| 0 <= k < found.filter(keep).len() && found.filter(keep)[k] == found[i];
            found.lemma_filter_pred(keep, k);
        }
    }
}

/// The address that a port selector names: `dist` the remote address, `src`
/// the listening address; any other selector names none.
pub open spec fn selected_address(option: Seq<char>, remote: Seq<char>, client: Seq<char>) -> Option<Seq<char>> {
    if option == "dist"@ {
        Some(remote)
    } else if option == "src"@ {
        Some(client)
    } else {
        None
    }
}

/// The port of an address, as the text after its last `:` read as a `u16`;
/// `None` when the address holds no `:`.
pub open spec fn address_port(addr: Seq<char>) -> Option<u16> {
    if has_colon(addr) {
        parse_u16_spec(after_last_colon(addr))
    } else {
        None
    }
}

/// Whether the port of the address that `option` names can be read: it names
/// none, or that address holds no `:`, or the text after its last `:` is a
/// `u16`.
pub open spec fn port_readable(option: Seq<char>, remote: Seq<char>, client: Seq<char>) -> bool {
    match selected_address(option, remote, client) {
        Some(addr) => has_colon(addr) ==> parse_u16_spec(after_last_colon(addr)) is Some,
        None => true,
    }
}

/// Whether `list` holds an address that reads `addr`.
fn lists(list: &Vec<String>, addr: &String) -> (r: bool)
    ensures
        r == listed(list@, addr@),
        r == exists|j: int| 0 <= j < list@.len() && (#[trigger] list@[j])@ == addr@,
{
    let mut j: usize = 0;
    while j < list.len()
        invariant
            j <= list@.len(),
            forall|k: int| 0 <= k < j ==> (#[trigger] list@[k])@ != addr@,
        decreases list@.len() - j,
    {
        if same_text(&list[j], addr.as_str()) {
            return true;
        }
        j = j + 1;
    }
    false
}

/// A proxy whose remote address is resolved: it keeps the addresses that the
/// last lookup gave, and forwards to the first of them.
pub trait DNSResolve: Sized {
    /// The remote address, `host:port`.
    spec fn remote_text(&self) -> Seq<char>;

    /// The listening address.
    spec fn client_text(&self) -> Seq<char>;

    /// The addresses that the last lookup gave.
    spec fn dns_list(&self) -> Seq<String>;

    /// Whether `self` and `other` agree in everything but the addresses that
    /// the last lookup gave.
    spec fn same_but_dns(&self, other: &Self) -> bool;

    /// The remote address.
    fn remote(&self) -> (r: String)
        ensures
            r@ == self.remote_text(),
    ;

    /// The listening address.
    fn client(&self) -> (r: &String)
        ensures
            r@ == self.client_text(),
    ;

    /// The addresses that the last lookup gave.
    fn dns(&self) -> (r: &Vec<String>)
        ensures
            r@ == self.dns_list(),
    ;

    /// Replaces the addresses with `d`; gives how many there are now.
    fn reset_dns(&mut self, d: &Vec<String>) -> (n: usize)
        ensures
            final(self).dns_list() == d@,
            n == d@.len(),
            final(self).remote_text() == old(self).remote_text(),
            final(self).client_text() == old(self).client_text(),
            final(self).same_but_dns(old(self)),
    ;

    /// The host of the remote address: the text before its first `:`.
    fn domain(&mut self) -> (r: String)
        ensures
            r@ == before_first_colon(old(self).remote_text()),
            *final(self) == *old(self),
    {
        let rx = self.remote();
        host_part(rx.as_str())
    }

    /// The port of the address that `option` names (`dist` the remote
    /// address, `src` the listening address): the text after its last `:`
    /// read as a `u16`, or `None` when it holds no `:` or `option` names no
    /// address.
    fn port(&mut self, option: &String) -> (r: Option<u16>)
        requires
            port_readable(option@, old(self).remote_text(), old(self).client_text()),
        ensures
            r == (match selected_address(option@, old(self).remote_text(), old(self).client_text()) {
                Some(addr) => address_port(addr),
                None => None,
            }),
            *final(self) == *old(self),
    {
        proof {
            reveal_strlit("dist");
            reveal_strlit("src");
        }
        let rx = if same_text(option, "dist") {
            self.remote()
        } else if same_text(option, "src") {
            self.client().clone()
        } else {
            return None;
        };
        match port_part(rx.as_str()) {
            Some(last) => match parse_u16(last.as_str()) {
                Some(p) => Some(p),
                None => {
                    assert(false);
                    None
                },
            },
            None => None,
        }
    }

    /// Called for each address that a lookup gives and the proxy did not hold
    /// before; does nothing unless an implementation says otherwise.
    fn on_dns_changed(&self, _new_addr: &String) {
    }

    /// The addresses of `found` that the proxy does not hold yet, in order.
    fn unseen_addresses(&self, found: &Vec<String>) -> (r: Vec<String>)
        ensures
            r@ == unseen(self.dns_list(), found@),
            forall|i: int|
                0 <= i < r@.len() ==> found@.contains(#[trigger] r@[i]) && forall|j: int|
                    0 <= j < self.dns_list().len() ==> (#[trigger] self.dns_list()[j])@ != r@[i]@,
            forall|i: int|
                0 <= i < found@.len() && (forall|j: int|
                    0 <= j < self.dns_list().len() ==> (#[trigger] self.dns_list()[j])@ != found@[i]@)
                    ==> r@.contains(#[trigger] found@[i]),
    {
        proof { lemma_unseen_exact(self.dns_list(), found@); }
        let known = self.dns();
        let ghost keep = |a: String| !listed(known@, a@);
        let mut r: Vec<String> = Vec::new();
        let mut i: usize = 0;
        proof {
            reveal_with_fuel(Seq::<_>::filter, 1);
            assert(found@.take(0) =~= Seq::<String>::empty());
        }
        while i < found.len()
            invariant
                i <= found@.len(),
                known@ == self.dns_list(),
                keep == (|a: String| !listed(known@, a@)),
                r@ == found@.take(i as int).filter(keep),
            decreases found@.len() - i,
        {
            assert(found@.take(i + 1) =~= found@.take(i as int).push(found@[i as int]));
            proof { found@.take(i as int).lemma_filter_push(found@[i as int], keep); }
            if !lists(known, &found[i]) {
                r.push(found[i].clone());
            }
            i = i + 1;
        }
        assert(found@.take(i as int) =~= found@);
        r
    }

    /// Keeps what a lookup of the remote address gave: the addresses found,
    /// in order, or, when the lookup failed (`None`), the remote address's
    /// host alone. Gives how many addresses the proxy holds now.
    fn apply_lookup(&mut self, found: Option<Vec<String>>) -> (n: usize)
        ensures
            found matches Some(v) ==> final(self).dns_list() == v@,
            found is None ==> final(self).dns_list().len() == 1
                && final(self).dns_list()[0]@ == before_first_colon(old(self).remote_text()),
            n == final(self).dns_list().len(),
            final(self).remote_text() == old(self).remote_text(),
            final(self).client_text() == old(self).client_text(),
            final(self).same_but_dns(old(self)),
    {
        match found {
            Some(v) => self.reset_dns(&v),
            None => {
                let mut d: Vec<String> = Vec::new();
                d.push(self.domain());
                self.reset_dns(&d)
            },
        }
    }

    /// The address the proxy forwards to: the first that the last lookup
    /// gave, or `None` when it holds none.
    fn first_address(&self) -> (r: Option<String>)
        ensures
            self.dns_list().len() > 0 ==> r == Some(self.dns_list()[0]),
            self.dns_list().len() == 0 ==> r is None,
    {
        let d = self.dns();
        if d.len() > 0 {
            Some(d[0].clone())
        } else {
            None
        }
    }
}

} // verus!
