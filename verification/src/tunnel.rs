//! The table of UDP client tunnels: one entry per client address, with the
//! handle of the tunnel's task and the time the client last sent a datagram.
use vstd::prelude::*;

verus! {

/// A socket address as plain values: the family, the IP address (an IPv4
/// address in the low 32 bits), the port, and the IPv6 flow label and scope
/// (0 for IPv4). Two addresses are the same client when all of these agree.
#[derive(Clone, Copy, Debug, PartialEq, Eq, Structural)]
pub struct PeerAddr {
    pub v6: bool,
    pub ip: u128,
    pub port: u16,
    pub flowinfo: u32,
    pub scope_id: u32,
}

/// Nanoseconds in a second.
pub const NANOS_PER_SEC: u128 = 1_000_000_000;

/// A client that has been silent for more than this many whole seconds is
/// dropped.
pub const TUNNEL_IDLE_LIMIT_SECS: u128 = 120;

/// Every this many seconds a UDP proxy looks for expired tunnels.
pub const TUNNEL_SWEEP_SECS: u64 = 5;

/// The whole seconds from `since` to `now` (times in nanoseconds).
pub open spec fn idle_secs(now: u128, since: u128) -> int {
    (now - since) / (NANOS_PER_SEC as int)
}

/// Whether a tunnel last used at `since` has expired at `now`.
pub open spec fn tunnel_expired(now: u128, since: u128) -> bool {
    idle_secs(now, since) > TUNNEL_IDLE_LIMIT_SECS as int
}

/// Whether some entry of `s` belongs to `peer`.
pub open spec fn has_peer<T>(s: Seq<(PeerAddr, T, u128)>, peer: PeerAddr) -> bool {
    exists|i: int| 0 <= i < s.len() && (#[trigger] s[i]).0 == peer
}

/// Whether no two entries of `s` belong to the same client.
pub open spec fn unique_peers<T>(s: Seq<(PeerAddr, T, u128)>) -> bool {
    forall|i: int, j: int| 0 <= i < s.len() && 0 <= j < s.len() && i != j ==> (#[trigger] s[i]).0 != (#[trigger] s[j]).0
}

/// Whether every entry of `s` was last used no later than `now`.
pub open spec fn all_used_by<T>(s: Seq<(PeerAddr, T, u128)>, now: u128) -> bool {
    forall|i: int| 0 <= i < s.len() ==> (#[trigger] s[i]).2 <= now
}

/// The entries of `s` that have expired at `now`, in order.
pub open spec fn expired_entries<T>(s: Seq<(PeerAddr, T, u128)>, now: u128) -> Seq<(PeerAddr, T, u128)> {
    s.filter(|e: (PeerAddr, T, u128)| tunnel_expired(now, e.2))
}

/// The entries of `s` that have not expired at `now`, in order.
pub open spec fn live_entries<T>(s: Seq<(PeerAddr, T, u128)>, now: u128) -> Seq<(PeerAddr, T, u128)> {
    s.filter(|e: (PeerAddr, T, u128)| !tunnel_expired(now, e.2))
}

/// A sweep splits the tunnels in two: those it keeps have all been used
/// within the limit, those it removes have all been silent longer, and every
/// tunnel is in exactly one of the two.
pub proof fn lemma_sweep_partition<T>(s: Seq<(PeerAddr, T, u128)>, now: u128)
    ensures
        forall|i: int|
            0 <= i < live_entries(s, now).len() ==> !tunnel_expired(now, (#[trigger] live_entries(s, now)[i]).2),
        forall|i: int|
            0 <= i < expired_entries(s, now).len() ==> tunnel_expired(now, (#[trigger] expired_entries(s, now)[i]).2),
        forall|i: int|
            0 <= i < s.len() ==> (tunnel_expired(now, s[i].2) && expired_entries(s, now).contains(#[trigger] s[i]))
                || (!tunnel_expired(now, s[i].2) && live_entries(s, now).contains(s[i])),
        live_entries(s, now).len() + expired_entries(s, now).len() == s.len(),
    decreases s.len(),
{
    let expired = |e: (PeerAddr, T, u128)| tunnel_expired(now, e.2);
    let live = |e: (PeerAddr, T, u128)| !tunnel_expired(now, e.2);
    broadcast use Seq::lemma_filter_pred, Seq::lemma_filter_contains;
    assert forall|i: int| 0 <= i < s.len() implies (tunnel_expired(now, s[i].2) && expired_entries(s, now).contains(#[trigger] s[i]))
        || (!tunnel_expired(now, s[i].2) && live_entries(s, now).contains(s[i])) by {
        if expired(s[i]) {
            s.lemma_filter_contains(expired, i);
        } else {
            s.lemma_filter_contains(live, i);
        }
    }
    assert forall|i: int| 0 <= i < live_entries(s, now).len() implies !tunnel_expired(now, (#[trigger] live_entries(s, now)[i]).2) by {
        s.lemma_filter_pred(live, i);
    }
    assert forall|i: int| 0 <= i < expired_entries(s, now).len() implies tunnel_expired(now, (#[trigger] expired_entries(s, now)[i]).2) by {
        s.lemma_filter_pred(expired, i);
    }
    if s.len() > 0 {
        lemma_sweep_partition(s.drop_last(), now);
        assert(s.drop_last().push(s.last()) =~= s);
        s.drop_last().lemma_filter_push(s.last(), expired);
        s.drop_last().lemma_filter_push(s.last(), live);
    } else {
        reveal_with_fuel(Seq::<_>::filter, 1);
    }
}

/// Keeping some entries of a table in order keeps no client twice.
proof fn lemma_filter_unique<T>(s: Seq<(PeerAddr, T, u128)>, pred: spec_fn((PeerAddr, T, u128)) -> bool)
    requires
        unique_peers(s),
    ensures
        unique_peers(s.filter(pred)),
    decreases s.len(),
{
    reveal_with_fuel(Seq::<_>::filter, 1);
    if s.len() > 0 {
        let d = s.drop_last();
        assert(unique_peers(d)) by {
            assert forall|a: int, b: int| 0 <= a < d.len() && 0 <= b < d.len() && a != b implies
                (#[trigger] d[a]).0 != (#[trigger] d[b]).0 by {
                assert(d[a] == s[a] && d[b] == s[b]);
            }
        }
        lemma_filter_unique(d, pred);
        let f = d.filter(pred);
        if pred(s.last()) {
            assert forall|j: int| 0 <= j < f.len() implies (#[trigger] f[j]).0 != s.last().0 by {
                assert(f.contains(f[j]));
                d.lemma_filter_contains_rev(pred, f[j]);
                let k = choose|k: int| 0 <= k < d.len() && d[k] == f[j];
                assert(s[k] == d[k]);
                assert(s[s.len() - 1] == s.last());
            }
            let g = f.push(s.last());
            assert forall|a: int, b: int| 0 <= a < g.len() && 0 <= b < g.len() && a != b implies
                (#[trigger] g[a]).0 != (#[trigger] g[b]).0 by {
                if a < f.len() && b < f.len() {
                    assert(g[a] == f[a] && g[b] == f[b]);
                } else if a < f.len() {
                    assert(g[a] == f[a]);
                } else {
                    assert(g[b] == f[b]);
                }
            }
        }
    }
}

/// What a sweep at `now` does to one client `s[i]` of a table: if it has
/// been silent longer than the limit, exactly one entry handed back is its
/// tunnel, and none kept is, so its next datagram opens a fresh tunnel; if
/// not, its entry is kept as it was (same handle, same time) and none handed
/// back is its.
pub proof fn lemma_sweep_client<T>(s: Seq<(PeerAddr, T, u128)>, now: u128, i: int)
    requires
        unique_peers(s),
        0 <= i < s.len(),
    ensures
        unique_peers(expired_entries(s, now)),
        unique_peers(live_entries(s, now)),
        tunnel_expired(now, s[i].2) ==> expired_entries(s, now).contains(s[i]) && !has_peer(
            live_entries(s, now),
            s[i].0,
        ),
        !tunnel_expired(now, s[i].2) ==> live_entries(s, now).contains(s[i]) && !has_peer(
            expired_entries(s, now),
            s[i].0,
        ),
{
    let expired = |e: (PeerAddr, T, u128)| tunnel_expired(now, e.2);
    let live = |e: (PeerAddr, T, u128)| !tunnel_expired(now, e.2);
    lemma_filter_unique(s, expired);
    lemma_filter_unique(s, live);
    lemma_sweep_partition(s, now);
    let ex = expired_entries(s, now);
    let lv = live_entries(s, now);
    if tunnel_expired(now, s[i].2) {
        if has_peer(lv, s[i].0) {
            let j = choose|j: int| 0 <= j < lv.len() && (#[trigger] lv[j]).0 == s[i].0;
            assert(lv.contains(lv[j]));
            s.lemma_filter_contains_rev(live, lv[j]);
            let k = choose|k: int| 0 <= k < s.len() && s[k] == lv[j];
            assert(s[k].0 == s[i].0);
            assert(k == i);
            assert(!tunnel_expired(now, lv[j].2));
        }
    } else {
        if has_peer(ex, s[i].0) {
            let j = choose|j: int| 0 <= j < ex.len() && (#[trigger] ex[j]).0 == s[i].0;
            assert(ex.contains(ex[j]));
            s.lemma_filter_contains_rev(expired, ex[j]);
            let k = choose|k: int| 0 <= k < s.len() && s[k] == ex[j];
            assert(s[k].0 == s[i].0);
            assert(k == i);
            assert(tunnel_expired(now, ex[j].2));
        }
    }
}

/// A tunnel is dropped only once it has been silent for more than the limit:
/// one used at `now` survives a sweep at `now`, and one used at `since`
/// expires exactly when at least 121 whole seconds have passed.
pub proof fn lemma_expiry_threshold(now: u128, since: u128)
    requires
        since <= now,
    ensures
        !tunnel_expired(now, now),
        tunnel_expired(now, since) <==> now - since >= (TUNNEL_IDLE_LIMIT_SECS + 1) * NANOS_PER_SEC,
{
}

/// The client tunnels: for each client address, the tunnel's handle and the
/// time (nanoseconds) of its last datagram.
pub struct TunnelTable<T> {
    entries: Vec<(PeerAddr, T, u128)>,
}

impl<T> View for TunnelTable<T> {
    type V = Seq<(PeerAddr, T, u128)>;

    closed spec fn view(&self) -> Seq<(PeerAddr, T, u128)> {
        self.entries@
    }
}

impl<T> TunnelTable<T> {
    #[verifier::type_invariant]
    spec fn inv(self) -> bool {
        unique_peers(self.entries@)
    }

    /// An empty table.
    pub fn new() -> (r: Self)
        ensures
            r@ == Seq::<(PeerAddr, T, u128)>::empty(),
    {
        TunnelTable { entries: Vec::new() }
    }

    /// The number of tunnels.
    pub fn len(&self) -> (r: usize)
        ensures
            r == self@.len(),
            unique_peers(self@),
    {
        proof { use_type_invariant(self); }
        self.entries.len()
    }

    /// Whether every tunnel was last used no later than `now`.
    pub fn used_no_later_than(&self, now: u128) -> (r: bool)
        ensures
            r == all_used_by(self@, now),
    {
        let mut i: usize = 0;
        while i < self.entries.len()
            invariant
                i <= self.entries@.len(),
                forall|j: int| 0 <= j < i ==> (#[trigger] self.entries@[j]).2 <= now,
            decreases self.entries@.len() - i,
        {
            if self.entries[i].2 > now {
                return false;
            }
            i = i + 1;
        }
        true
    }

    /// Whether `peer` has a tunnel.
    pub fn contains(&self, peer: &PeerAddr) -> (r: bool)
        ensures
            r == has_peer(self@, *peer),
            unique_peers(self@),
    {
        proof { use_type_invariant(self); }
        Self::find_in(&self.entries, peer).is_some()
    }

    /// The handle of `peer`'s tunnel, if it has one.
    pub fn get(&self, peer: &PeerAddr) -> (r: Option<&T>)
        ensures
            r is Some <==> has_peer(self@, *peer),
            r matches Some(t) ==> exists|i: int|
                0 <= i < self@.len() && (#[trigger] self@[i]).0 == *peer && self@[i].1 == *t,
            unique_peers(self@),
    {
        proof { use_type_invariant(self); }
        match Self::find_in(&self.entries, peer) {
            Some(i) => {
                assert(self@[i as int].0 == *peer);
                Some(&self.entries[i].1)
            },
            None => None,
        }
    }

    /// Records `peer`'s tunnel, last used at `now`: a new entry at the end for a
    /// new client, or the client's entry replaced in place.
    pub fn insert(&mut self, peer: PeerAddr, handle: T, now: u128)
        ensures
            !has_peer(old(self)@, peer) ==> final(self)@ == old(self)@.push((peer, handle, now)),
            forall|i: int|
                0 <= i < old(self)@.len() && (#[trigger] old(self)@[i]).0 == peer
                    ==> final(self)@ == old(self)@.update(i, (peer, handle, now)),
            has_peer(final(self)@, peer),
            unique_peers(final(self)@),
    {
        proof { use_type_invariant(&*self); }
        let mut entries: Vec<(PeerAddr, T, u128)> = Vec::new();
        std::mem::swap(&mut entries, &mut self.entries);
        let ghost before = entries@;
        match Self::find_in(&entries, &peer) {
            Some(i) => {
                let _ = entries.remove(i);
                entries.insert(i, (peer, handle, now));
                assert(entries@ =~= before.update(i as int, (peer, handle, now)));
                assert(entries@[i as int].0 == peer);
                assert forall|a: int, b: int|
                    0 <= a < entries@.len() && 0 <= b < entries@.len() && a != b implies
                    (#[trigger] entries@[a]).0 != (#[trigger] entries@[b]).0 by {
                    if a != i && b != i {
                        assert(entries@[a] == before[a] && entries@[b] == before[b]);
                    } else if a == i {
                        assert(entries@[b] == before[b]);
                    } else {
                        assert(entries@[a] == before[a]);
                    }
                }
            },
            None => {
                entries.push((peer, handle, now));
                assert(entries@[before.len() as int].0 == peer);
                assert forall|a: int, b: int|
                    0 <= a < entries@.len() && 0 <= b < entries@.len() && a != b implies
                    (#[trigger] entries@[a]).0 != (#[trigger] entries@[b]).0 by {
                    if a < before.len() && b < before.len() {
                        assert(entries@[a] == before[a] && entries@[b] == before[b]);
                    } else if a < before.len() {
                        assert(entries@[a] == before[a]);
                    } else {
                        assert(entries@[b] == before[b]);
                    }
                }
            },
        }
        self.entries = entries;
    }

    /// Marks `peer`'s tunnel as used at `now`; `false`, with nothing changed,
    /// when `peer` has no tunnel.
    pub fn touch(&mut self, peer: &PeerAddr, now: u128) -> (r: bool)
        ensures
            r == has_peer(old(self)@, *peer),
            !r ==> final(self)@ == old(self)@,
            forall|i: int|
                0 <= i < old(self)@.len() && (#[trigger] old(self)@[i]).0 == *peer
                    ==> final(self)@ == old(self)@.update(i, (*peer, old(self)@[i].1, now)),
            unique_peers(final(self)@),
    {
        proof { use_type_invariant(&*self); }
        let mut entries: Vec<(PeerAddr, T, u128)> = Vec::new();
        std::mem::swap(&mut entries, &mut self.entries);
        let ghost before = entries@;
        let found = match Self::find_in(&entries, peer) {
            Some(i) => {
                let (p, handle, _) = entries.remove(i);
                entries.insert(i, (p, handle, now));
                assert(entries@ =~= before.update(i as int, (*peer, before[i as int].1, now)));
                assert forall|a: int, b: int|
                    0 <= a < entries@.len() && 0 <= b < entries@.len() && a != b implies
                    (#[trigger] entries@[a]).0 != (#[trigger] entries@[b]).0 by {
                    if a != i && b != i {
                        assert(entries@[a] == before[a] && entries@[b] == before[b]);
                    } else if a == i {
                        assert(entries@[b] == before[b]);
                    } else {
                        assert(entries@[a] == before[a]);
                    }
                }
                true
            },
            None => false,
        };
        self.entries = entries;
        found
    }

    /// Removes every tunnel that has expired at `now` and hands them back in
    /// table order; the others stay, in order.
    pub fn remove_expired(&mut self, now: u128) -> (r: Vec<(PeerAddr, T, u128)>)
        requires
            all_used_by(old(self)@, now),
        ensures
            r@ == expired_entries(old(self)@, now),
            final(self)@ == live_entries(old(self)@, now),
            unique_peers(final(self)@),
    {
        proof { use_type_invariant(&*self); }
        let mut entries: Vec<(PeerAddr, T, u128)> = Vec::new();
        std::mem::swap(&mut entries, &mut self.entries);
        let ghost before = entries@;
        let ghost expired = |e: (PeerAddr, T, u128)| tunnel_expired(now, e.2);
        let ghost live = |e: (PeerAddr, T, u128)| !tunnel_expired(now, e.2);
        let mut out: Vec<(PeerAddr, T, u128)> = Vec::new();
        let mut i: usize = 0;
        let ghost mut k: int = 0;
        proof {
            reveal_with_fuel(Seq::<_>::filter, 1);
            assert(before.take(0) =~= Seq::<(PeerAddr, T, u128)>::empty());
            assert(entries@.take(0) =~= Seq::<(PeerAddr, T, u128)>::empty());
            assert(before.skip(0) =~= before);
        }
        while i < entries.len()
            invariant
                0 <= i <= k <= before.len(),
                entries@.len() == i + (before.len() - k),
                entries@.take(i as int) == before.take(k).filter(live),
                entries@.skip(i as int) == before.skip(k),
                out@ == before.take(k).filter(expired),
                unique_peers(entries@),
                all_used_by(before, now),
                expired == (|e: (PeerAddr, T, u128)| tunnel_expired(now, e.2)),
                live == (|e: (PeerAddr, T, u128)| !tunnel_expired(now, e.2)),
            decreases entries@.len() - i,
        {
            let ghost cur = entries@;
            assert(cur[i as int] == before[k]) by {
                assert(cur.skip(i as int)[0] == cur[i as int]);
            }
            assert(before.take(k + 1) =~= before.take(k).push(before[k]));
            proof {
                before.take(k).lemma_filter_push(before[k], expired);
                before.take(k).lemma_filter_push(before[k], live);
            }
            let since = entries[i].2;
            assert(since <= now);
            if (now - since) / NANOS_PER_SEC > TUNNEL_IDLE_LIMIT_SECS {
                let e = entries.remove(i);
                out.push(e);
                assert(entries@.take(i as int) =~= cur.take(i as int));
                assert(entries@.skip(i as int) =~= cur.skip(i as int).drop_first());
                assert(before.skip(k + 1) =~= before.skip(k).drop_first());
                assert forall|a: int, b: int|
                    0 <= a < entries@.len() && 0 <= b < entries@.len() && a != b implies
                    (#[trigger] entries@[a]).0 != (#[trigger] entries@[b]).0 by {
                    let a2 = if a < i { a } else { a + 1 };
                    let b2 = if b < i { b } else { b + 1 };
                    assert(entries@[a] == cur[a2] && entries@[b] == cur[b2]);
                }
            } else {
                assert(entries@.take(i + 1) =~= entries@.take(i as int).push(cur[i as int]));
                assert(entries@.skip(i + 1) =~= entries@.skip(i as int).drop_first());
                assert(before.skip(k + 1) =~= before.skip(k).drop_first());
                i = i + 1;
            }
            proof { k = k + 1; }
        }
        proof {
            assert(k == before.len());
            assert(before.take(k) =~= before);
            assert(entries@.take(i as int) =~= entries@);
        }
        self.entries = entries;
        out
    }

    /// The index of `peer`'s entry in `entries`, if it has one.
    fn find_in(entries: &Vec<(PeerAddr, T, u128)>, peer: &PeerAddr) -> (r: Option<usize>)
        requires
            unique_peers(entries@),
        ensures
            r is Some <==> has_peer(entries@, *peer),
            r matches Some(i) ==> i < entries@.len() && entries@[i as int].0 == *peer,
            r is None ==> forall|j: int| 0 <= j < entries@.len() ==> (#[trigger] entries@[j]).0 != *peer,
    {
        let mut i: usize = 0;
        while i < entries.len()
            invariant
                i <= entries@.len(),
                forall|j: int| 0 <= j < i ==> (#[trigger] entries@[j]).0 != *peer,
            decreases entries@.len() - i,
        {
            if entries[i].0 == *peer {
                return Some(i);
            }
            i = i + 1;
        }
        None
    }
}

} // verus!
