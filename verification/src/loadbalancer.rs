//! The leader's load balancer: a registry of worker loads with round-robin
//! and least-loaded selection.
//!
//! The registry keeps one entry per server identifier, in registration order.
//! The round-robin cursor wraps modulo the count of currently available
//! servers; the least-loaded selection takes the earliest registered entry of
//! minimal load. No operation fails: updates to absent servers are ignored.

use vstd::prelude::*;

verus! {

/// One registered worker and its advertised load.
#[derive(Debug, Clone)]
pub struct ServerLoad {
    pub server_id: u32,
    pub address: String,
    pub current_load: usize,
    pub available: bool,
}

/// The mathematical view of one registry entry.
#[verifier::ext_equal]
pub struct ServerEntry {
    pub server_id: u32,
    pub address: Seq<char>,
    pub current_load: usize,
    pub available: bool,
}

impl View for ServerLoad {
    type V = ServerEntry;

    open spec fn view(&self) -> ServerEntry {
        ServerEntry {
            server_id: self.server_id,
            address: self.address@,
            current_load: self.current_load,
            available: self.available,
        }
    }
}

/// The available entries, in registration order.
pub open spec fn available_of(es: Seq<ServerEntry>) -> Seq<ServerEntry>
    decreases es.len(),
{
    if es.len() == 0 {
        Seq::empty()
    } else {
        let rest = available_of(es.drop_last());
        if es.last().available {
            rest.push(es.last())
        } else {
            rest
        }
    }
}

/// The earliest available entry of minimal load, if any.
pub open spec fn least_loaded_of(es: Seq<ServerEntry>) -> Option<ServerEntry>
    decreases es.len(),
{
    if es.len() == 0 {
        None
    } else {
        let prev = least_loaded_of(es.drop_last());
        let x = es.last();
        if !x.available {
            prev
        } else {
            match prev {
                None => Some(x),
                Some(m) => if x.current_load < m.current_load {
                    Some(x)
                } else {
                    Some(m)
                },
            }
        }
    }
}

/// The worker-load registry and the round-robin cursor.
pub struct LoadBalancer {
    pub servers: Vec<ServerLoad>,
    pub next_index: usize,
}

impl LoadBalancer {
    /// The registry's view, in registration order.
    pub open spec fn entries(self) -> Seq<ServerEntry> {
        self.servers@.map_values(|s: ServerLoad| s@)
    }

    /// Registry identifiers are unique.
    pub open spec fn wf(self) -> bool {
        forall|i: int, j: int|
            0 <= i < j < self.entries().len() ==> (#[trigger] self.entries()[i]).server_id != (
            #[trigger] self.entries()[j]).server_id
    }

    pub fn new() -> (r: LoadBalancer)
        ensures
            r.entries() == Seq::<ServerEntry>::empty(),
            r.next_index == 0,
            r.wf(),
    {
        let r = LoadBalancer { servers: Vec::new(), next_index: 0 };
        proof {
            assert(r.entries() =~= Seq::<ServerEntry>::empty());
        }
        r
    }

    /// The registry index holding `server_id`, by linear scan.
    fn find_index(&self, server_id: u32) -> (r: Option<usize>)
        ensures
            match r {
                Some(i) => 0 <= i < self.entries().len() && self.entries()[i as int].server_id
                    == server_id && (forall|j: int|
                    0 <= j < i ==> (#[trigger] self.entries()[j]).server_id != server_id),
                None => forall|j: int|
                    0 <= j < self.entries().len() ==> (#[trigger] self.entries()[j]).server_id
                        != server_id,
            },
    {
        let mut i: usize = 0;
        while i < self.servers.len()
            invariant
                0 <= i <= self.servers@.len(),
                forall|j: int| 0 <= j < i ==> (#[trigger] self.entries()[j]).server_id != server_id,
            decreases self.servers@.len() - i,
        {
            proof {
                assert(self.entries()[i as int] == self.servers@[i as int]@);
            }
            if self.servers[i].server_id == server_id {
                return Some(i);
            }
            i += 1;
        }
        None
    }

    /// Registers the server with zero load, available, overwriting any entry
    /// with the same identifier.
    pub fn register_server(&mut self, server_id: u32, address: String)
        requires
            old(self).wf(),
        ensures
            final(self).wf(),
            final(self).next_index == old(self).next_index,
            old(self).registered(server_id) ==> exists|i: int|
                0 <= i < old(self).entries().len() && (
                #[trigger] old(self).entries()[i]).server_id == server_id && final(self).entries()
                    == old(self).entries().update(
                    i,
                    (ServerEntry {
                        server_id,
                        address: address@,
                        current_load: 0,
                        available: true,
                    }),
                ),
            !old(self).registered(server_id) ==> final(self).entries() == old(
                self,
            ).entries().push(
                (ServerEntry { server_id, address: address@, current_load: 0, available: true }),
            ),
    {
        let ghost prior = self.entries();
        let entry = ServerLoad { server_id, address, current_load: 0, available: true };
        match self.find_index(server_id) {
            Some(i) => {
                self.servers.set(i, entry);
                proof {
                    assert(self.entries() =~= prior.update(i as int, entry@));
                    assert(forall|x: int|
                        0 <= x < self.entries().len() ==> (#[trigger] self.entries()[x]).server_id
                            == (#[trigger] prior[x]).server_id);
                }
            },
            None => {
                self.servers.push(entry);
                proof {
                    assert(self.entries() =~= prior.push(entry@));
                }
            },
        }
    }

    /// Some entry with this identifier is registered.
    pub open spec fn registered(self, server_id: u32) -> bool {
        exists|i: int|
            0 <= i < self.entries().len() && (#[trigger] self.entries()[i]).server_id == server_id
    }

    /// Removes the server's entry, if it has one.
    pub fn unregister_server(&mut self, server_id: u32)
        requires
            old(self).wf(),
        ensures
            final(self).wf(),
            final(self).next_index == old(self).next_index,
            old(self).registered(server_id) ==> exists|i: int|
                0 <= i < old(self).entries().len() && (
                #[trigger] old(self).entries()[i]).server_id == server_id && final(self).entries()
                    == old(self).entries().remove(i),
            !old(self).registered(server_id) ==> final(self).entries() == old(self).entries(),
    {
        let ghost prior = self.entries();
        match self.find_index(server_id) {
            Some(i) => {
                self.servers.remove(i);
                proof {
                    assert(self.entries() =~= prior.remove(i as int));
                    assert forall|a: int, b: int|
                        0 <= a < b < self.entries().len() implies (
                    #[trigger] self.entries()[a]).server_id != (
                    #[trigger] self.entries()[b]).server_id by {
                        let pa = if a < i { a } else { a + 1 };
                        let pb = if b < i { b } else { b + 1 };
                        assert(prior[pa].server_id != prior[pb].server_id);
                    }
                }
            },
            None => {},
        }
    }

    /// The available servers as (id, address) pairs, in registration order.
    pub fn get_available_servers(&self) -> (r: Vec<(u32, String)>)
        ensures
            r@.len() == available_of(self.entries()).len(),
            forall|k: int|
                0 <= k < r@.len() ==> (#[trigger] r@[k]).0 == available_of(self.entries())[k].server_id
                    && r@[k].1@ == available_of(self.entries())[k].address,
    {
        let mut r: Vec<(u32, String)> = Vec::new();
        let mut i: usize = 0;
        proof {
            assert(self.entries().subrange(0, 0) =~= Seq::<ServerEntry>::empty());
        }
        while i < self.servers.len()
            invariant
                0 <= i <= self.servers@.len(),
                r@.len() == available_of(self.entries().subrange(0, i as int)).len(),
                forall|k: int|
                    0 <= k < r@.len() ==> (#[trigger] r@[k]).0 == available_of(
                        self.entries().subrange(0, i as int),
                    )[k].server_id && r@[k].1@ == available_of(
                        self.entries().subrange(0, i as int),
                    )[k].address,
            decreases self.servers@.len() - i,
        {
            let s = &self.servers[i];
            proof {
                let full = self.entries();
                let upto = full.subrange(0, i as int + 1);
                assert(upto.drop_last() =~= full.subrange(0, i as int));
                assert(upto.last() == full[i as int]);
                assert(full[i as int] == self.servers@[i as int]@);
            }
            if s.available {
                r.push((s.server_id, s.address.clone()));
            }
            i += 1;
        }
        proof {
            assert(self.entries().subrange(0, self.entries().len() as int) =~= self.entries());
        }
        r
    }

    /// The count of available servers.
    pub fn get_server_count(&self) -> (r: usize)
        ensures
            r == available_of(self.entries()).len(),
    {
        let avail = self.get_available_servers();
        avail.len()
    }

    /// Round-robin selection: the available server the cursor points at, the
    /// cursor then advancing modulo the count of available servers. With no
    /// available server, nothing is selected and the cursor stays.
    pub fn get_next_server(&mut self) -> (r: Option<(u32, String)>)
        ensures
            final(self).entries() == old(self).entries(),
            ({
                let avail = available_of(old(self).entries());
                if avail.len() == 0 {
                    r is None && final(self).next_index == old(self).next_index
                } else {
                    let pick = avail[old(self).next_index as int % avail.len() as int];
                    (r matches Some(p) && p.0 == pick.server_id && p.1@ == pick.address) && final(
                        self).next_index == (old(self).next_index + 1) % (avail.len() as int)
                }
            }),
    {
        let avail = self.get_available_servers();
        if avail.len() == 0 {
            return None;
        }
        let idx = self.next_index % avail.len();
        proof {
            let n = avail.len() as int;
            vstd::arithmetic::div_mod::lemma_add_mod_noop(old(self).next_index as int, 1, n);
            if n == 1 {
                vstd::arithmetic::div_mod::lemma_mod_self_0(1);
                assert(idx == 0);
                assert((idx + 1) % n == 0);
                assert((old(self).next_index + 1) % n == 0) by {
                    vstd::arithmetic::div_mod::lemma_mod_twice(old(self).next_index + 1, 1);
                    vstd::arithmetic::div_mod::lemma_mod_self_0(1);
                }
            } else {
                vstd::arithmetic::div_mod::lemma_small_mod(1, n as nat);
            }
            assert((idx + 1) % n == (old(self).next_index + 1) % n);
        }
        self.next_index = (idx + 1) % avail.len();
        let (id, address) = (avail[idx].0, avail[idx].1.clone());
        Some((id, address))
    }

    /// Least-loaded selection: the earliest registered available server of
    /// minimal load, if any.
    pub fn get_least_loaded_server(&self) -> (r: Option<(u32, String)>)
        ensures
            match r {
                Some(p) => least_loaded_of(self.entries()) matches Some(e) && p.0 == e.server_id
                    && p.1@ == e.address,
                None => least_loaded_of(self.entries()) is None,
            },
    {
        let mut best: Option<usize> = None;
        let mut i: usize = 0;
        proof {
            assert(self.entries().subrange(0, 0) =~= Seq::<ServerEntry>::empty());
        }
        while i < self.servers.len()
            invariant
                0 <= i <= self.servers@.len(),
                match best {
                    Some(b) => 0 <= b < i && least_loaded_of(self.entries().subrange(0, i as int))
                        == Some(self.entries()[b as int]),
                    None => least_loaded_of(self.entries().subrange(0, i as int)) is None,
                },
            decreases self.servers@.len() - i,
        {
            proof {
                let full = self.entries();
                let upto = full.subrange(0, i as int + 1);
                assert(upto.drop_last() =~= full.subrange(0, i as int));
                assert(upto.last() == full[i as int]);
                assert(full[i as int] == self.servers@[i as int]@);
            }
            if self.servers[i].available {
                best = match best {
                    None => Some(i),
                    Some(b) => {
                        if self.servers[i].current_load < self.servers[b].current_load {
                            Some(i)
                        } else {
                            Some(b)
                        }
                    },
                };
            }
            i += 1;
        }
        proof {
            assert(self.entries().subrange(0, self.entries().len() as int) =~= self.entries());
        }
        match best {
            Some(b) => Some((self.servers[b].server_id, self.servers[b].address.clone())),
            None => None,
        }
    }

    /// Sets the server's load; an absent server is silently ignored.
    pub fn update_server_load(&mut self, server_id: u32, load: usize)
        requires
            old(self).wf(),
        ensures
            final(self).wf(),
            final(self).next_index == old(self).next_index,
            old(self).registered(server_id) ==> exists|i: int|
                0 <= i < old(self).entries().len() && (
                #[trigger] old(self).entries()[i]).server_id == server_id && final(self).entries()
                    == old(self).entries().update(
                    i,
                    (ServerEntry { current_load: load, ..old(self).entries()[i] }),
                ),
            !old(self).registered(server_id) ==> final(self).entries() == old(self).entries(),
    {
        let ghost prior = self.entries();
        match self.find_index(server_id) {
            Some(i) => {
                let address = self.servers[i].address.clone();
                let available = self.servers[i].available;
                self.servers.set(
                    i,
                    ServerLoad { server_id, address, current_load: load, available },
                );
                proof {
                    assert(self.entries() =~= prior.update(
                        i as int,
                        (ServerEntry { current_load: load, ..prior[i as int] }),
                    ));
                    assert(forall|x: int|
                        0 <= x < self.entries().len() ==> (#[trigger] self.entries()[x]).server_id
                            == (#[trigger] prior[x]).server_id);
                }
            },
            None => {},
        }
    }

    /// Marks the server unavailable; an absent server is silently ignored.
    pub fn mark_server_unavailable(&mut self, server_id: u32)
        requires
            old(self).wf(),
        ensures
            final(self).wf(),
            final(self).next_index == old(self).next_index,
            old(self).registered(server_id) ==> exists|i: int|
                0 <= i < old(self).entries().len() && (
                #[trigger] old(self).entries()[i]).server_id == server_id && final(self).entries()
                    == old(self).entries().update(
                    i,
                    (ServerEntry { available: false, ..old(self).entries()[i] }),
                ),
            !old(self).registered(server_id) ==> final(self).entries() == old(self).entries(),
    {
        let ghost prior = self.entries();
        match self.find_index(server_id) {
            Some(i) => {
                let address = self.servers[i].address.clone();
                let current_load = self.servers[i].current_load;
                self.servers.set(
                    i,
                    ServerLoad { server_id, address, current_load, available: false },
                );
                proof {
                    assert(self.entries() =~= prior.update(
                        i as int,
                        (ServerEntry { available: false, ..prior[i as int] }),
                    ));
                    assert(forall|x: int|
                        0 <= x < self.entries().len() ==> (#[trigger] self.entries()[x]).server_id
                            == (#[trigger] prior[x]).server_id);
                }
            },
            None => {},
        }
    }

    /// Marks the server available; an absent server is silently ignored.
    pub fn mark_server_available(&mut self, server_id: u32)
        requires
            old(self).wf(),
        ensures
            final(self).wf(),
            final(self).next_index == old(self).next_index,
            old(self).registered(server_id) ==> exists|i: int|
                0 <= i < old(self).entries().len() && (
                #[trigger] old(self).entries()[i]).server_id == server_id && final(self).entries()
                    == old(self).entries().update(
                    i,
                    (ServerEntry { available: true, ..old(self).entries()[i] }),
                ),
            !old(self).registered(server_id) ==> final(self).entries() == old(self).entries(),
    {
        let ghost prior = self.entries();
        match self.find_index(server_id) {
            Some(i) => {
                let address = self.servers[i].address.clone();
                let current_load = self.servers[i].current_load;
                self.servers.set(
                    i,
                    ServerLoad { server_id, address, current_load, available: true },
                );
                proof {
                    assert(self.entries() =~= prior.update(
                        i as int,
                        (ServerEntry { available: true, ..prior[i as int] }),
                    ));
                    assert(forall|x: int|
                        0 <= x < self.entries().len() ==> (#[trigger] self.entries()[x]).server_id
                            == (#[trigger] prior[x]).server_id);
                }
            },
            None => {},
        }
    }

    /// A copy of the balancer: same registry, same cursor.
    pub fn clone(&self) -> (r: LoadBalancer)
        ensures
            r.entries() == self.entries(),
            r.next_index == self.next_index,
    {
        let mut servers: Vec<ServerLoad> = Vec::new();
        let mut i: usize = 0;
        while i < self.servers.len()
            invariant
                0 <= i <= self.servers@.len(),
                servers@.len() == i,
                forall|j: int| 0 <= j < i ==> (#[trigger] servers@[j])@ == self.servers@[j]@,
            decreases self.servers@.len() - i,
        {
            let s = &self.servers[i];
            servers.push(
                ServerLoad {
                    server_id: s.server_id,
                    address: s.address.clone(),
                    current_load: s.current_load,
                    available: s.available,
                },
            );
            i += 1;
        }
        let r = LoadBalancer { servers, next_index: self.next_index };
        proof {
            assert(r.entries() =~= self.entries());
        }
        r
    }
}

} // verus!
