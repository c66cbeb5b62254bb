//! The table of MonoMouse instances found on the network by mDNS. The mDNS
//! daemon and its events are the caller's part; here each event updates
//! the table, keyed by the service's full name.

use vstd::prelude::*;
use crate::machine::IpAddress;

verus! {

broadcast use vstd::string::group_string_axioms;

/// The mDNS service type under which MonoMouse instances advertise.
pub const SERVICE_TYPE: &'static str = "_monomouse._tcp.local.";

/// A MonoMouse instance found on the network.
#[derive(Debug)]
pub struct DiscoveredHost {
    pub name: String,
    pub addr: IpAddress,
    pub port: u16,
    pub is_server: bool,
}

impl Clone for DiscoveredHost {
    fn clone(&self) -> (r: Self)
        ensures
            r == *self,
    {
        DiscoveredHost { name: self.name.clone(), addr: self.addr, port: self.port, is_server: self.is_server }
    }
}

/// What the mDNS browser reports.
#[derive(Debug)]
pub enum ServiceEvent {
    /// A service was resolved: its full name, host name, port, addresses
    /// and the value of its `role` property, if it has one.
    Resolved { fullname: String, hostname: String, port: u16, addresses: Vec<IpAddress>, role: Option<String> },
    /// The service of this full name went away.
    Removed { fullname: String },
    /// Anything else the browser reports.
    Other,
}

/// The instances found so far, each under the full name of its service.
#[derive(Debug)]
pub struct DiscoveryTable {
    entries: Vec<(String, DiscoveredHost)>,
}

/// Whether a `role` property marks a server.
pub open spec fn role_is_server(role: Option<String>) -> bool {
    role matches Some(r) && r@ == "server"@
}

/// Where the key `key` stands among the entries, if it does.
pub open spec fn key_index(es: Seq<(String, DiscoveredHost)>, key: Seq<char>) -> Option<int> {
    if exists|i: int| 0 <= i < es.len() && (#[trigger] es[i]).0@ == key {
        Some(choose|i: int| 0 <= i < es.len() && (#[trigger] es[i]).0@ == key)
    } else {
        None
    }
}

/// The host a resolved service stands for, where it has an address: its
/// first address is the one used.
pub open spec fn resolved_host(hostname: String, port: u16, addresses: Seq<IpAddress>, role: Option<String>) -> Option<DiscoveredHost> {
    if addresses.len() > 0 {
        Some(DiscoveredHost { name: hostname, addr: addresses[0], port, is_server: role_is_server(role) })
    } else {
        None
    }
}

/// The first server among the hosts, if any.
pub open spec fn first_server(hs: Seq<DiscoveredHost>) -> Option<DiscoveredHost>
    decreases hs.len(),
{
    if hs.len() == 0 {
        None
    } else {
        match first_server(hs.drop_last()) {
            Some(h) => Some(h),
            None => if hs.last().is_server {
                Some(hs.last())
            } else {
                None
            },
        }
    }
}

/// Whether `s` is exactly `"server"`.
fn is_server_role(role: &Option<String>) -> (b: bool)
    ensures
        b == role_is_server(*role),
{
    match role {
        Some(r) => {
            proof {
                reveal_strlit("server");
            }
            let server = "server".to_owned();
            *r == server
        },
        None => false,
    }
}

impl DiscoveryTable {
    /// The table as the map from full names to hosts.
    pub closed spec fn view(&self) -> Map<Seq<char>, DiscoveredHost> {
        Map::new(
            |k: Seq<char>| key_index(self.entries@, k) is Some,
            |k: Seq<char>| self.entries@[key_index(self.entries@, k)->0].1,
        )
    }

    /// The hosts in the order they were first seen.
    pub closed spec fn hosts(&self) -> Seq<DiscoveredHost> {
        self.entries@.map_values(|e: (String, DiscoveredHost)| e.1)
    }

    /// No full name stands twice.
    pub closed spec fn wf(&self) -> bool {
        forall|i: int, j: int|
            0 <= i < j < self.entries@.len() ==> (#[trigger] self.entries@[i]).0@ != (#[trigger] self.entries@[j]).0@
    }

    /// The hosts are those of the map, each once.
    pub proof fn lemma_hosts_are_values(&self)
        requires
            self.wf(),
        ensures
            self.hosts().len() == self@.dom().len(),
            self@.dom().finite(),
            forall|h: DiscoveredHost| #[trigger] self.hosts().contains(h) <==> exists|k: Seq<char>| self@.dom().contains(k) && self@[k] == h,
    {
        let es = self.entries@;
        let keys = es.map_values(|e: (String, DiscoveredHost)| e.0@);
        assert forall|k: Seq<char>| self@.dom().contains(k) <==> keys.contains(k) by {
            if keys.contains(k) {
                let i = choose|i: int| 0 <= i < keys.len() && keys[i] == k;
                assert(es[i].0@ == k);
            }
            if self@.dom().contains(k) {
                let i = key_index(es, k)->0;
                assert(keys[i] == k);
            }
        }
        assert(self@.dom() =~= keys.to_set());
        assert forall|i: int, j: int| 0 <= i < keys.len() && 0 <= j < keys.len() && i != j implies keys[i] != keys[j] by {
            if i < j {
                assert(es[i].0@ != es[j].0@);
            } else {
                assert(es[j].0@ != es[i].0@);
            }
        }
        assert(keys.no_duplicates());
        keys.unique_seq_to_set();
        assert forall|h: DiscoveredHost| #[trigger] self.hosts().contains(h) implies exists|k: Seq<char>|
            self@.dom().contains(k) && self@[k] == h by {
            let i = choose|i: int| 0 <= i < self.hosts().len() && self.hosts()[i] == h;
            assert(self.hosts()[i] == es[i].1);
            let k = es[i].0@;
            assert(es[i].0@ == k);
            assert(key_index(es, k) is Some);
            let j = key_index(es, k)->0;
            if j != i {
                if i < j {
                    assert(es[i].0@ != es[j].0@);
                } else {
                    assert(es[j].0@ != es[i].0@);
                }
            }
            assert(self@.dom().contains(k));
            assert(self@[k] == es[j].1);
        }
        assert forall|h: DiscoveredHost| (exists|k: Seq<char>| self@.dom().contains(k) && self@[k] == h) implies #[trigger] self.hosts().contains(h) by {
            let k = choose|k: Seq<char>| self@.dom().contains(k) && self@[k] == h;
            let i = key_index(es, k)->0;
            assert(self.hosts()[i] == h);
        }
    }

    /// The first server of the table is a server the table holds, and there
    /// is one exactly when the table holds a server.
    proof fn lemma_first_server_in_view(&self)
        requires
            self.wf(),
        ensures
            first_server(self.hosts()) is Some <==> exists|k: Seq<char>|
                self@.dom().contains(k) && (#[trigger] self@[k]).is_server,
            first_server(self.hosts()) matches Some(h) ==> h.is_server && exists|k: Seq<char>|
                self@.dom().contains(k) && self@[k] == h,
    {
        self.lemma_hosts_are_values();
        let hs = self.hosts();
        lemma_first_server_found(hs);
        if first_server(hs) is Some {
            let h = first_server(hs)->0;
            assert(hs.contains(h));
            let k = choose|k: Seq<char>| self@.dom().contains(k) && self@[k] == h;
            assert(self@.dom().contains(k) && self@[k].is_server);
        }
        if exists|k: Seq<char>| self@.dom().contains(k) && (#[trigger] self@[k]).is_server {
            let k = choose|k: Seq<char>| self@.dom().contains(k) && (#[trigger] self@[k]).is_server;
            let h = self@[k];
            assert(exists|k2: Seq<char>| self@.dom().contains(k2) && self@[k2] == h);
            assert(hs.contains(h));
            let i = choose|i: int| 0 <= i < hs.len() && hs[i] == h;
            assert(hs[i].is_server);
        }
    }

    /// An empty table.
    pub fn new() -> (t: Self)
        ensures
            t.wf(),
            t@ == Map::<Seq<char>, DiscoveredHost>::empty(),
            t.hosts().len() == 0,
    {
        let t = DiscoveryTable { entries: Vec::new() };
        assert(t@ =~= Map::<Seq<char>, DiscoveredHost>::empty());
        t
    }

    /// Where the full name `key` stands in the table.
    fn position(&self, key: &String) -> (r: Option<usize>)
        requires
            self.wf(),
        ensures
            match r {
                Some(i) => i < self.entries@.len() && self.entries@[i as int].0@ == key@ && key_index(self.entries@, key@)
                    == Some(i as int),
                None => key_index(self.entries@, key@) is None,
            },
    {
        let mut i: usize = 0;
        while i < self.entries.len()
            invariant
                i <= self.entries@.len(),
                self.wf(),
                forall|j: int| 0 <= j < i ==> (#[trigger] self.entries@[j]).0@ != key@,
            decreases self.entries.len() - i,
        {
            if self.entries[i].0 == *key {
                proof {
                    let k = key_index(self.entries@, key@)->0;
                    if k != i {
                        if k < i {
                            assert(self.entries@[k].0@ != self.entries@[i as int].0@);
                        } else {
                            assert(self.entries@[i as int].0@ != self.entries@[k].0@);
                        }
                    }
                }
                return Some(i);
            }
            i += 1;
        }
        None
    }

    /// Put a host into the table under `key`: it replaces the host under
    /// that key where there is one, and is added after the others where
    /// there is none.
    pub fn insert(&mut self, key: String, host: DiscoveredHost)
        requires
            old(self).wf(),
        ensures
            final(self).wf(),
            final(self)@ == old(self)@.insert(key@, host),
    {
        let ghost k = key@;
        let ghost old_es = self.entries@;
        match self.position(&key) {
            Some(i) => {
                self.entries.set(i, (key, host));
                proof {
                    let es = self.entries@;
                    assert forall|a: int, b: int| 0 <= a < b < es.len() implies (#[trigger] es[a]).0@ != (#[trigger] es[b]).0@ by {
                        assert(old_es[a].0@ != old_es[b].0@);
                    }
                    assert forall|q: Seq<char>| #[trigger] key_index(es, q) is Some <==> key_index(old_es, q) is Some || q == k by {
                        if key_index(old_es, q) is Some {
                            let j = key_index(old_es, q)->0;
                            if j == i {
                                assert(es[j].0@ == q);
                            } else {
                                assert(es[j] == old_es[j]);
                            }
                        }
                        if q == k {
                            assert(es[i as int].0@ == q);
                        }
                        if key_index(es, q) is Some {
                            let j = key_index(es, q)->0;
                            if j != i {
                                assert(es[j] == old_es[j]);
                            }
                        }
                    }
                    assert forall|q: Seq<char>| key_index(es, q) is Some implies es[key_index(es, q)->0].1 == (if q == k {
                        host
                    } else {
                        old_es[key_index(old_es, q)->0].1
                    }) by {
                        let j = key_index(es, q)->0;
                        if q == k {
                            if j != i {
                                assert(es[j].0@ == es[i as int].0@);
                                if j < i {
                                    assert(es[j].0@ != es[i as int].0@);
                                } else {
                                    assert(es[i as int].0@ != es[j].0@);
                                }
                            }
                        } else {
                            assert(j != i);
                            assert(es[j] == old_es[j]);
                            let j2 = key_index(old_es, q)->0;
                            if j2 != j {
                                assert(old_es[j2] == es[j2]);
                                if j < j2 {
                                    assert(es[j].0@ != es[j2].0@);
                                } else {
                                    assert(es[j2].0@ != es[j].0@);
                                }
                            }
                        }
                    }
                    assert(self@ =~= old(self)@.insert(k, host));
                }
            },
            None => {
                self.entries.push((key, host));
                proof {
                    let es = self.entries@;
                    let n = old_es.len() as int;
                    assert forall|a: int, b: int| 0 <= a < b < es.len() implies (#[trigger] es[a]).0@ != (#[trigger] es[b]).0@ by {
                        if b == n {
                            assert(es[a] == old_es[a]);
                            assert(old_es[a].0@ != k);
                        } else {
                            assert(old_es[a].0@ != old_es[b].0@);
                        }
                    }
                    assert forall|q: Seq<char>| #[trigger] key_index(es, q) is Some <==> key_index(old_es, q) is Some || q == k by {
                        if key_index(old_es, q) is Some {
                            let j = key_index(old_es, q)->0;
                            assert(es[j] == old_es[j]);
                        }
                        if q == k {
                            assert(es[n].0@ == q);
                        }
                        if key_index(es, q) is Some {
                            let j = key_index(es, q)->0;
                            if j != n {
                                assert(es[j] == old_es[j]);
                            }
                        }
                    }
                    assert forall|q: Seq<char>| key_index(es, q) is Some implies es[key_index(es, q)->0].1 == (if q == k {
                        host
                    } else {
                        old_es[key_index(old_es, q)->0].1
                    }) by {
                        let j = key_index(es, q)->0;
                        if q == k {
                            if j != n {
                                assert(es[j] == old_es[j]);
                            }
                        } else {
                            assert(j != n);
                            assert(es[j] == old_es[j]);
                            let j2 = key_index(old_es, q)->0;
                            if j2 != j {
                                assert(old_es[j2] == es[j2]);
                                if j < j2 {
                                    assert(es[j].0@ != es[j2].0@);
                                } else {
                                    assert(es[j2].0@ != es[j].0@);
                                }
                            }
                        }
                    }
                    assert(self@ =~= old(self)@.insert(k, host));
                }
            },
        }
    }

    /// Take the host under `key` out of the table, if there is one.
    pub fn remove(&mut self, key: &String)
        requires
            old(self).wf(),
        ensures
            final(self).wf(),
            final(self)@ == old(self)@.remove(key@),
    {
        let ghost k = key@;
        let ghost old_es = self.entries@;
        match self.position(key) {
            Some(i) => {
                self.entries.remove(i);
                proof {
                    let es = self.entries@;
                    assert(forall|a: int| 0 <= a < i ==> es[a] == old_es[a]);
                    assert(forall|a: int| i <= a < es.len() ==> es[a] == old_es[a + 1]);
                    assert forall|a: int, b: int| 0 <= a < b < es.len() implies (#[trigger] es[a]).0@ != (#[trigger] es[b]).0@ by {
                        let oa = if a < i { a } else { a + 1 };
                        let ob = if b < i { b } else { b + 1 };
                        assert(es[a] == old_es[oa]);
                        assert(es[b] == old_es[ob]);
                        assert(old_es[oa].0@ != old_es[ob].0@);
                    }
                    assert forall|q: Seq<char>| #[trigger] key_index(es, q) is Some <==> key_index(old_es, q) is Some && q != k by {
                        if key_index(es, q) is Some {
                            let j = key_index(es, q)->0;
                            let oj = if j < i { j } else { j + 1 };
                            assert(es[j] == old_es[oj]);
                            if q == k {
                                assert(old_es[oj].0@ == old_es[i as int].0@);
                                if oj < i {
                                    assert(old_es[oj].0@ != old_es[i as int].0@);
                                } else {
                                    assert(old_es[i as int].0@ != old_es[oj].0@);
                                }
                            }
                        }
                        if key_index(old_es, q) is Some && q != k {
                            let j = key_index(old_es, q)->0;
                            assert(j != i);
                            let nj = if j < i { j } else { j - 1 };
                            assert(es[nj] == old_es[j]);
                        }
                    }
                    assert forall|q: Seq<char>| key_index(es, q) is Some implies es[key_index(es, q)->0].1
                        == old_es[key_index(old_es, q)->0].1 by {
                        let j = key_index(es, q)->0;
                        let oj = if j < i { j } else { j + 1 };
                        assert(es[j] == old_es[oj]);
                        let j2 = key_index(old_es, q)->0;
                        if j2 != oj {
                            if oj < j2 {
                                assert(old_es[oj].0@ != old_es[j2].0@);
                            } else {
                                assert(old_es[j2].0@ != old_es[oj].0@);
                            }
                        }
                    }
                    assert(self@ =~= old(self)@.remove(k));
                }
            },
            None => {
                assert(self@ =~= old(self)@.remove(k));
            },
        }
    }

    /// Update the table with what the browser reports: a resolved service
    /// with an address is put under its full name, as a server where its
    /// `role` property is `server`; a removed service leaves the table;
    /// anything else changes nothing.
    pub fn apply(&mut self, event: ServiceEvent)
        requires
            old(self).wf(),
        ensures
            final(self).wf(),
            final(self)@ == match event {
                ServiceEvent::Resolved { fullname, hostname, port, addresses, role } => match resolved_host(
                    hostname,
                    port,
                    addresses@,
                    role,
                ) {
                    Some(h) => old(self)@.insert(fullname@, h),
                    None => old(self)@,
                },
                ServiceEvent::Removed { fullname } => old(self)@.remove(fullname@),
                ServiceEvent::Other => old(self)@,
            },
    {
        match event {
            ServiceEvent::Resolved { fullname, hostname, port, addresses, role } => {
                if addresses.len() > 0 {
                    let is_server = is_server_role(&role);
                    let host = DiscoveredHost { name: hostname, addr: addresses[0], port, is_server };
                    self.insert(fullname, host);
                }
            },
            ServiceEvent::Removed { fullname } => {
                self.remove(&fullname);
            },
            ServiceEvent::Other => {},
        }
    }

    /// All hosts found so far, in the order they were first seen.
    pub fn get_discovered(&self) -> (r: Vec<DiscoveredHost>)
        requires
            self.wf(),
        ensures
            r@ == self.hosts(),
            r@.len() == self@.dom().len(),
            forall|h: DiscoveredHost| #[trigger] r@.contains(h) <==> exists|k: Seq<char>|
                self@.dom().contains(k) && self@[k] == h,
    {
        proof {
            self.lemma_hosts_are_values();
        }
        let mut r: Vec<DiscoveredHost> = Vec::new();
        let mut i: usize = 0;
        while i < self.entries.len()
            invariant
                i <= self.entries@.len(),
                r@ == self.hosts().take(i as int),
            decreases self.entries.len() - i,
        {
            r.push(self.entries[i].1.clone());
            assert(r@ =~= self.hosts().take(i + 1));
            i += 1;
        }
        assert(self.hosts().take(self.entries@.len() as int) =~= self.hosts());
        r
    }

    /// The first server found, if any.
    pub fn find_server(&self) -> (r: Option<DiscoveredHost>)
        requires
            self.wf(),
        ensures
            r == first_server(self.hosts()),
            r is Some <==> exists|k: Seq<char>| self@.dom().contains(k) && (#[trigger] self@[k]).is_server,
            r matches Some(h) ==> h.is_server && exists|k: Seq<char>| self@.dom().contains(k) && self@[k] == h,
    {
        proof {
            self.lemma_first_server_in_view();
        }
        let ghost hs = self.hosts();
        let mut i: usize = 0;
        while i < self.entries.len()
            invariant
                i <= self.entries@.len(),
                self.wf(),
                hs == self.hosts(),
                first_server(hs.take(i as int)) is None,
            decreases self.entries.len() - i,
        {
            assert(hs.take(i + 1).drop_last() =~= hs.take(i as int));
            if self.entries[i].1.is_server {
                let h = self.entries[i].1.clone();
                assert(first_server(hs.take(i + 1)) == Some(h));
                proof {
                    lemma_first_server_prefix(hs, i + 1);
                    self.lemma_first_server_in_view();
                }
                return Some(h);
            }
            i += 1;
        }
        assert(hs.take(hs.len() as int) =~= hs);
        None
    }
}

/// The first server is a server of the sequence, and there is one exactly
/// when some host is a server.
proof fn lemma_first_server_found(hs: Seq<DiscoveredHost>)
    ensures
        first_server(hs) is Some <==> exists|i: int| 0 <= i < hs.len() && (#[trigger] hs[i]).is_server,
        first_server(hs) matches Some(h) ==> h.is_server && hs.contains(h),
    decreases hs.len(),
{
    if hs.len() > 0 {
        let p = hs.drop_last();
        lemma_first_server_found(p);
        if exists|i: int| 0 <= i < p.len() && (#[trigger] p[i]).is_server {
            let i = choose|i: int| 0 <= i < p.len() && (#[trigger] p[i]).is_server;
            assert(hs[i] == p[i]);
        }
        if exists|i: int| 0 <= i < hs.len() && (#[trigger] hs[i]).is_server {
            let i = choose|i: int| 0 <= i < hs.len() && (#[trigger] hs[i]).is_server;
            if i < p.len() {
                assert(p[i] == hs[i]);
            }
        }
        if first_server(p) is Some {
            let h = first_server(p)->0;
            let j = choose|j: int| 0 <= j < p.len() && p[j] == h;
            assert(hs[j] == p[j]);
        }
        if first_server(p) is None && hs.last().is_server {
            assert(hs[hs.len() - 1] == hs.last());
        }
    }
}

/// Once a prefix holds a server, the first server of the whole is that of
/// the prefix.
proof fn lemma_first_server_prefix(hs: Seq<DiscoveredHost>, k: int)
    requires
        0 <= k <= hs.len(),
        first_server(hs.take(k)) is Some,
    ensures
        first_server(hs) == first_server(hs.take(k)),
    decreases hs.len() - k,
{
    if k < hs.len() {
        assert(hs.take(k + 1).drop_last() =~= hs.take(k));
        lemma_first_server_prefix(hs, k + 1);
    } else {
        assert(hs.take(k) =~= hs);
    }
}

} // verus!
