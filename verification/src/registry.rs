//! The registry of known devices.
//!
//! The registry owns the device handles, keyed by identifier (keys unique,
//! insertion order kept for name lookup). Persistence is write-ahead: a
//! record is inserted into the map only after the external store has
//! acknowledged it, so every in-memory entry has a persisted record; when the
//! store fails, the map is left unchanged. The store call itself and the lock
//! that serializes concurrent callers belong to the embedding program; the
//! operations here are the decisions taken under that lock, verified for
//! every store answer and every transport event.

use vstd::prelude::*;
use crate::codec::{spec_encode_request, Command};
use crate::device::{
    bulb_after_set, bulb_after_query, spec_set_outcome, spec_query_outcome, Bulb, DeviceError,
    TransportEvent,
};
use crate::ident::{id_eq, Identifier, Ipv4};
use crate::scanner::{collect_discovered, spec_collect, Discovered, ScanReply};

verus! {

/// Why a registry operation failed.
#[derive(Clone, Copy, PartialEq, Eq, Structural, Debug)]
pub enum RegistryError {
    /// No device with the given identifier.
    NotFound,
    /// `add` was given an identifier that is already a key.
    AlreadyExists,
    /// The external store refused the record; nothing was inserted.
    StorageFailure,
    /// The device exchange failed; carries the device-level reason.
    CommandFailed(DeviceError),
}

/// What a caller hands to `add`: the identifier may be absent, in which case
/// the store assigns one.
#[derive(Debug)]
pub struct BulbRecord {
    pub id: Option<Identifier>,
    /// Manufacturer-assigned identifier, recorded alongside the registry id.
    pub mac: String,
    pub name: String,
    pub addr: Ipv4,
    pub power: Option<bool>,
}

/// The external store's answer to a create request.
#[derive(Debug)]
pub enum StoreReply {
    /// The record was persisted under this identifier.
    Assigned(Identifier),
    /// The store failed or refused the record.
    Failed,
}

/// The identifier is the opaque string `m`.
pub open spec fn id_is_opaque(id: Identifier, m: Seq<char>) -> bool {
    match id {
        Identifier::Opaque(s) => s@ == m,
        _ => false,
    }
}

/// The identifier a committed record is keyed by: the caller's, or the one
/// the store assigned.
pub open spec fn chosen_id(rec: BulbRecord, aid: Identifier) -> Identifier {
    match rec.id {
        Some(i) => i,
        None => aid,
    }
}

/// Maps a device-level failure to the registry's error.
pub open spec fn as_command_result(r: Result<bool, DeviceError>) -> Result<
    bool,
    RegistryError,
> {
    match r {
        Ok(b) => Ok(b),
        Err(d) => Err(RegistryError::CommandFailed(d)),
    }
}

/// The registry: device handles keyed by identifier.
#[derive(Debug)]
pub struct Registry {
    pub bulbs: Vec<Bulb>,
}

impl Registry {
    /// Keys are pairwise distinct.
    pub open spec fn wf(self) -> bool {
        forall|i: int, j: int|
            0 <= i < j < self.bulbs@.len() ==> !id_eq(
                #[trigger] self.bulbs@[i].id,
                #[trigger] self.bulbs@[j].id,
            )
    }

    /// Some entry is keyed by `id`.
    pub open spec fn has_id(self, id: Identifier) -> bool {
        exists|i: int| 0 <= i < self.bulbs@.len() && id_eq(#[trigger] self.bulbs@[i].id, id)
    }

    /// A reported identifier is already known: it is a key, or it is the
    /// recorded manufacturer identifier of some entry.
    pub open spec fn known_report(self, m: Seq<char>) -> bool {
        (exists|i: int|
            0 <= i < self.bulbs@.len() && id_is_opaque(#[trigger] self.bulbs@[i].id, m)) || (
        exists|i: int| 0 <= i < self.bulbs@.len() && (#[trigger] self.bulbs@[i].mac)@ == m)
    }

    /// An empty registry.
    pub fn new() -> (r: Registry)
        ensures
            r.bulbs@.len() == 0,
            r.wf(),
    {
        Registry { bulbs: Vec::new() }
    }

    /// The index of the entry keyed by `id`, if any.
    #[verifier::loop_isolation(false)]
    fn find_index(&self, id: &Identifier) -> (r: Option<usize>)
        ensures
            r matches Some(i) ==> i < self.bulbs@.len() && id_eq(self.bulbs@[i as int].id, *id),
            r is None ==> !self.has_id(*id),
    {
        let mut i: usize = 0;
        while i < self.bulbs.len()
            invariant
                i <= self.bulbs@.len(),
                forall|k: int| 0 <= k < i ==> !id_eq(#[trigger] self.bulbs@[k].id, *id),
            decreases self.bulbs@.len() - i,
        {
            if self.bulbs[i].id.same_as(id) {
                return Some(i);
            }
            i = i + 1;
        }
        None
    }

    /// Looks up a device by name: the first match in insertion order, `None`
    /// — never an error — when no entry carries the name.
    #[verifier::loop_isolation(false)]
    pub fn find_by_name<'a>(&'a self, name: &str) -> (r: Option<&'a Bulb>)
        ensures
            r is None <==> (forall|i: int|
                0 <= i < self.bulbs@.len() ==> (#[trigger] self.bulbs@[i].name)@ != name@),
            r matches Some(b) ==> exists|i: int|
                0 <= i < self.bulbs@.len() && *b == self.bulbs@[i] && (
                #[trigger] self.bulbs@[i].name)@ == name@ && (forall|k: int|
                    0 <= k < i ==> (#[trigger] self.bulbs@[k].name)@ != name@),
    {
        let mut i: usize = 0;
        while i < self.bulbs.len()
            invariant
                i <= self.bulbs@.len(),
                forall|k: int| 0 <= k < i ==> (#[trigger] self.bulbs@[k].name)@ != name@,
            decreases self.bulbs@.len() - i,
        {
            if crate::codec::str_eq_whole(self.bulbs[i].name.as_str(), name) {
                return Some(&self.bulbs[i]);
            }
            i = i + 1;
        }
        None
    }

    /// First phase of `add`, under the read lock: rejects an identifier that
    /// is already a key, before anything is sent to the store.
    pub fn prepare_add(&self, rec: &BulbRecord) -> (r: Result<(), RegistryError>)
        ensures
            rec.id matches Some(id) ==> (r == Ok::<(), RegistryError>(()) <==> !self.has_id(id)),
            rec.id is None ==> r == Ok::<(), RegistryError>(()),
            r is Err ==> r == Err::<(), RegistryError>(RegistryError::AlreadyExists),
    {
        match &rec.id {
            Some(id) => match self.find_index(id) {
                Some(_) => Err(RegistryError::AlreadyExists),
                None => Ok(()),
            },
            None => Ok(()),
        }
    }

    /// Completes `add`, under the write lock, given the store's answer:
    /// insertion happens only after the record is persisted. A store failure
    /// leaves the registry unchanged and is `StorageFailure`; an identifier
    /// that became a key in the meantime is rejected rather than
    /// overwritten.
    pub fn add(&mut self, rec: BulbRecord, store: StoreReply) -> (r: Result<
        (),
        RegistryError,
    >)
        requires
            old(self).wf(),
        ensures
            final(self).wf(),
            store is Failed ==> r == Err::<(), RegistryError>(RegistryError::StorageFailure)
                && *final(self) == *old(self),
            store matches StoreReply::Assigned(aid) ==> ({
                &&& old(self).has_id(chosen_id(rec, aid)) ==> r == Err::<(), RegistryError>(
                    RegistryError::AlreadyExists,
                ) && *final(self) == *old(self)
                &&& !old(self).has_id(chosen_id(rec, aid)) ==> r == Ok::<(), RegistryError>(())
                    && final(self).bulbs@ == old(self).bulbs@.push(
                    Bulb {
                        id: chosen_id(rec, aid),
                        mac: rec.mac,
                        name: rec.name,
                        addr: rec.addr,
                        power: rec.power,
                    },
                )
            }),
    {
        match store {
            StoreReply::Failed => Err(RegistryError::StorageFailure),
            StoreReply::Assigned(aid) => {
                let key = match rec.id {
                    Some(i) => i,
                    None => aid,
                };
                match self.find_index(&key) {
                    Some(_) => Err(RegistryError::AlreadyExists),
                    None => {
                        let entry = Bulb {
                            id: key,
                            mac: rec.mac,
                            name: rec.name,
                            addr: rec.addr,
                            power: rec.power,
                        };
                        proof {
                            lemma_push_fresh_keeps_wf(self.bulbs@, entry);
                        }
                        self.bulbs.push(entry);
                        Ok(())
                    },
                }
            },
        }
    }

    /// Removes a device: the terminal state of an entry's lifecycle.
    /// `NotFound` exactly when the identifier is not a key; otherwise the
    /// entry is taken out and handed back.
    pub fn remove_by_id(&mut self, id: &Identifier) -> (r: Result<Bulb, RegistryError>)
        requires
            old(self).wf(),
        ensures
            final(self).wf(),
            !old(self).has_id(*id) ==> r == Err::<Bulb, RegistryError>(RegistryError::NotFound)
                && *final(self) == *old(self),
            old(self).has_id(*id) ==> (r matches Ok(b) && exists|i: int|
                0 <= i < old(self).bulbs@.len() && id_eq(#[trigger] old(self).bulbs@[i].id, *id)
                    && b == old(self).bulbs@[i] && final(self).bulbs@ == old(
                    self,
                ).bulbs@.remove(i)),
    {
        match self.find_index(id) {
            None => Err(RegistryError::NotFound),
            Some(i) => {
                let ghost prev = self.bulbs@;
                let b = self.bulbs.remove(i);
                proof {
                    let cur = self.bulbs@;
                    assert forall|p: int, q: int|
                        0 <= p < q < cur.len() implies !id_eq(
                        #[trigger] cur[p].id,
                        #[trigger] cur[q].id,
                    ) by {
                        let pp: int = if p < i { p } else { p + 1 };
                        let qq: int = if q < i { q } else { q + 1 };
                        assert(cur[p] == prev[pp]);
                        assert(cur[q] == prev[qq]);
                    }
                }
                Ok(b)
            },
        }
    }

    /// The request text and destination for a command to a known device;
    /// `NotFound` exactly when the identifier is not a key.
    pub fn request_for(&self, id: &Identifier, cmd: Command) -> (r: Result<
        (String, Ipv4),
        RegistryError,
    >)
        ensures
            !self.has_id(*id) <==> r == Err::<(String, Ipv4), RegistryError>(
                RegistryError::NotFound,
            ),
            r matches Ok(p) ==> p.0@ == spec_encode_request(cmd) && exists|i: int|
                0 <= i < self.bulbs@.len() && id_eq(#[trigger] self.bulbs@[i].id, *id) && p.1
                    == self.bulbs@[i].addr,
    {
        match self.find_index(id) {
            Some(i) => Ok((crate::codec::encode_request(cmd), self.bulbs[i].addr)),
            None => Err(RegistryError::NotFound),
        }
    }

    /// Completes a turn-on command: `NotFound` for an unknown identifier;
    /// otherwise the device handle finishes the exchange and only that
    /// entry's cached state can change.
    pub fn turn_on_by_id(&mut self, id: &Identifier, ev: &TransportEvent) -> (r: Result<
        bool,
        RegistryError,
    >)
        requires
            old(self).wf(),
        ensures
            final(self).wf(),
            !old(self).has_id(*id) ==> r == Err::<bool, RegistryError>(RegistryError::NotFound)
                && *final(self) == *old(self),
            old(self).has_id(*id) ==> r == as_command_result(spec_set_outcome(*ev)) && exists|
                i: int,
            |
                0 <= i < old(self).bulbs@.len() && id_eq(#[trigger] old(self).bulbs@[i].id, *id)
                    && final(self).bulbs@ == old(self).bulbs@.update(
                    i,
                    bulb_after_set(old(self).bulbs@[i], *ev, true),
                ),
    {
        match self.find_index(id) {
            None => Err(RegistryError::NotFound),
            Some(i) => {
                let ghost prev = self.bulbs@;
                let mut b = self.bulbs.remove(i);
                let dr = b.on(ev);
                self.bulbs.insert(i, b);
                proof {
                    assert(self.bulbs@ =~= prev.update(
                        i as int,
                        bulb_after_set(prev[i as int], *ev, true),
                    ));
                    lemma_update_same_id_keeps_wf(prev, self.bulbs@, i as int);
                }
                match dr {
                    Ok(v) => Ok(v),
                    Err(d) => Err(RegistryError::CommandFailed(d)),
                }
            },
        }
    }

    /// Completes a turn-off command; the mirror of `turn_on_by_id`.
    pub fn turn_off_by_id(&mut self, id: &Identifier, ev: &TransportEvent) -> (r: Result<
        bool,
        RegistryError,
    >)
        requires
            old(self).wf(),
        ensures
            final(self).wf(),
            !old(self).has_id(*id) ==> r == Err::<bool, RegistryError>(RegistryError::NotFound)
                && *final(self) == *old(self),
            old(self).has_id(*id) ==> r == as_command_result(spec_set_outcome(*ev)) && exists|
                i: int,
            |
                0 <= i < old(self).bulbs@.len() && id_eq(#[trigger] old(self).bulbs@[i].id, *id)
                    && final(self).bulbs@ == old(self).bulbs@.update(
                    i,
                    bulb_after_set(old(self).bulbs@[i], *ev, false),
                ),
    {
        match self.find_index(id) {
            None => Err(RegistryError::NotFound),
            Some(i) => {
                let ghost prev = self.bulbs@;
                let mut b = self.bulbs.remove(i);
                let dr = b.off(ev);
                self.bulbs.insert(i, b);
                proof {
                    assert(self.bulbs@ =~= prev.update(
                        i as int,
                        bulb_after_set(prev[i as int], *ev, false),
                    ));
                    lemma_update_same_id_keeps_wf(prev, self.bulbs@, i as int);
                }
                match dr {
                    Ok(v) => Ok(v),
                    Err(d) => Err(RegistryError::CommandFailed(d)),
                }
            },
        }
    }

    /// Refreshes one entry's cached state from a `QueryState` exchange; used
    /// by the periodic liveness task, which holds the write lock only for
    /// this step, never across the network wait.
    pub fn refresh_by_id(&mut self, id: &Identifier, ev: &TransportEvent) -> (r: Result<
        bool,
        RegistryError,
    >)
        requires
            old(self).wf(),
        ensures
            final(self).wf(),
            !old(self).has_id(*id) ==> r == Err::<bool, RegistryError>(RegistryError::NotFound)
                && *final(self) == *old(self),
            old(self).has_id(*id) ==> r == as_command_result(spec_query_outcome(*ev)) && exists|
                i: int,
            |
                0 <= i < old(self).bulbs@.len() && id_eq(#[trigger] old(self).bulbs@[i].id, *id)
                    && final(self).bulbs@ == old(self).bulbs@.update(
                    i,
                    bulb_after_query(old(self).bulbs@[i], *ev),
                ),
    {
        match self.find_index(id) {
            None => Err(RegistryError::NotFound),
            Some(i) => {
                let ghost prev = self.bulbs@;
                let mut b = self.bulbs.remove(i);
                let dr = b.get_state(ev);
                self.bulbs.insert(i, b);
                proof {
                    assert(self.bulbs@ =~= prev.update(
                        i as int,
                        bulb_after_query(prev[i as int], *ev),
                    ));
                    lemma_update_same_id_keeps_wf(prev, self.bulbs@, i as int);
                }
                match dr {
                    Ok(v) => Ok(v),
                    Err(d) => Err(RegistryError::CommandFailed(d)),
                }
            },
        }
    }

    /// One refresh round's worth of work: for every entry, its identifier,
    /// address, and the encoded state query to send.
    #[verifier::loop_isolation(false)]
    pub fn refresh_targets(&self) -> (r: Vec<(Identifier, Ipv4, String)>)
        ensures
            r@.len() == self.bulbs@.len(),
            forall|i: int|
                0 <= i < r@.len() ==> id_eq(#[trigger] r@[i].0, self.bulbs@[i].id) && r@[i].1
                    == self.bulbs@[i].addr && r@[i].2@ == spec_encode_request(
                    Command::QueryState,
                ),
    {
        let mut out: Vec<(Identifier, Ipv4, String)> = Vec::new();
        let mut i: usize = 0;
        while i < self.bulbs.len()
            invariant
                i <= self.bulbs@.len(),
                out@.len() == i,
                forall|k: int|
                    0 <= k < i ==> id_eq(#[trigger] out@[k].0, self.bulbs@[k].id) && out@[k].1
                        == self.bulbs@[k].addr && out@[k].2@ == spec_encode_request(
                        Command::QueryState,
                    ),
            decreases self.bulbs@.len() - i,
        {
            let id = self.bulbs[i].id.clone();
            let addr = self.bulbs[i].addr;
            let req = crate::codec::encode_request(Command::QueryState);
            out.push((id, addr, req));
            i = i + 1;
        }
        out
    }

    /// Runs the filter step of discovery over one scan's collection: keeps
    /// exactly the responders whose reported identifier is not yet known —
    /// never one whose identifier is already a key. Read-only: discovered
    /// devices are not auto-registered.
    #[verifier::loop_isolation(false)]
    pub fn discover_unknown_bulbs(&self, replies: &Vec<ScanReply>) -> (r: Vec<Discovered>)
        ensures
            r@.map_values(|x: Discovered| (x.addr, x.mac@)) == self.spec_filter_unknown(
                spec_collect(replies@),
            ),
            forall|k: int|
                0 <= k < r@.len() ==> !self.known_report((#[trigger] r@[k].mac)@)
                    && !self.has_id(Identifier::Opaque(r@[k].mac)),
    {
        let found = collect_discovered(replies);
        let mut out: Vec<Discovered> = Vec::new();
        let ghost fv = found@.map_values(|x: Discovered| (x.addr, x.mac@));
        proof {
            assert(out@.map_values(|x: Discovered| (x.addr, x.mac@)) =~= self.spec_filter_unknown(
                fv.subrange(0, 0),
            ));
        }
        let mut j: usize = 0;
        while j < found.len()
            invariant
                j <= found@.len(),
                fv == found@.map_values(|x: Discovered| (x.addr, x.mac@)),
                fv == spec_collect(replies@),
                out@.map_values(|x: Discovered| (x.addr, x.mac@)) == self.spec_filter_unknown(
                    fv.subrange(0, j as int),
                ),
                forall|k: int|
                    0 <= k < out@.len() ==> !self.known_report((#[trigger] out@[k].mac)@),
            decreases found@.len() - j,
        {
            proof {
                assert(fv.subrange(0, j as int + 1).drop_last() =~= fv.subrange(0, j as int));
            }
            let known = self.knows_report(&found[j].mac);
            if !known {
                let entry = Discovered { addr: found[j].addr, mac: found[j].mac.clone() };
                out.push(entry);
                proof {
                    assert(out@.map_values(|x: Discovered| (x.addr, x.mac@))
                        =~= self.spec_filter_unknown(fv.subrange(0, j as int + 1)));
                }
            }
            j = j + 1;
        }
        proof {
            assert(fv.subrange(0, fv.len() as int) =~= fv);
            assert forall|k: int|
                0 <= k < out@.len() implies !self.has_id(
                Identifier::Opaque(#[trigger] out@[k].mac),
            ) by {
                assert(!self.known_report(out@[k].mac@));
            }
        }
        out
    }

    /// The entries of a collection whose reported identifier is unknown,
    /// in order.
    pub open spec fn spec_filter_unknown(self, d: Seq<(Ipv4, Seq<char>)>) -> Seq<
        (Ipv4, Seq<char>),
    >
        decreases d.len(),
    {
        if d.len() == 0 {
            Seq::empty()
        } else {
            let prev = self.spec_filter_unknown(d.drop_last());
            if self.known_report(d.last().1) {
                prev
            } else {
                prev.push(d.last())
            }
        }
    }

    /// Decides whether a reported identifier is already known.
    #[verifier::loop_isolation(false)]
    fn knows_report(&self, m: &String) -> (r: bool)
        ensures
            r == self.known_report(m@),
    {
        let mut i: usize = 0;
        while i < self.bulbs.len()
            invariant
                i <= self.bulbs@.len(),
                forall|k: int| 0 <= k < i ==> !id_is_opaque(#[trigger] self.bulbs@[k].id, m@),
                forall|k: int| 0 <= k < i ==> (#[trigger] self.bulbs@[k].mac)@ != m@,
            decreases self.bulbs@.len() - i,
        {
            match &self.bulbs[i].id {
                Identifier::Opaque(s) => {
                    if crate::codec::str_eq_whole(s.as_str(), m.as_str()) {
                        return true;
                    }
                },
                _ => {},
            }
            if crate::codec::str_eq_whole(self.bulbs[i].mac.as_str(), m.as_str()) {
                return true;
            }
            i = i + 1;
        }
        false
    }

    /// Builds the registry from the records the store holds at startup: one
    /// entry per persisted identifier, first record wins, records without an
    /// identifier are ignored.
    #[verifier::loop_isolation(false)]
    pub fn hydrate(records: Vec<BulbRecord>) -> (r: Registry)
        ensures
            r.bulbs@ == spec_hydrate(records@),
            r.wf(),
    {
        let mut recs = records;
        let total: usize = recs.len();
        let mut reg = Registry::new();
        let ghost all = recs@;
        let mut i: usize = 0;
        proof {
            assert(reg.bulbs@ =~= spec_hydrate(all.subrange(0, 0)));
        }
        while recs.len() > 0
            invariant
                i <= all.len(),
                i + recs@.len() == total,
                recs@ == all.subrange(i as int, all.len() as int),
                reg.bulbs@ == spec_hydrate(all.subrange(0, i as int)),
                reg.wf(),
            decreases recs@.len(),
        {
            let rec = recs.remove(0);
            proof {
                assert(rec == all[i as int]);
                assert(recs@ =~= all.subrange(i as int + 1, all.len() as int));
                assert(all.subrange(0, i as int + 1).drop_last() =~= all.subrange(0, i as int));
            }
            match rec.id {
                Some(id) => {
                    match reg.find_index(&id) {
                        Some(_) => {
                            proof {
                                assert(reg.bulbs@ =~= spec_hydrate(all.subrange(0, i as int + 1)));
                            }
                        },
                        None => {
                            let entry = Bulb {
                                id,
                                mac: rec.mac,
                                name: rec.name,
                                addr: rec.addr,
                                power: rec.power,
                            };
                            proof {
                                lemma_push_fresh_keeps_wf(reg.bulbs@, entry);
                            }
                            reg.bulbs.push(entry);
                            proof {
                                assert(reg.bulbs@ =~= spec_hydrate(all.subrange(0, i as int + 1)));
                            }
                        },
                    }
                },
                None => {
                    proof {
                        assert(reg.bulbs@ =~= spec_hydrate(all.subrange(0, i as int + 1)));
                    }
                },
            }
            i = i + 1;
        }
        proof {
            assert(all.subrange(0, i as int) =~= all);
        }
        reg
    }
}

/// An update that keeps an entry's key keeps the registry well-formed.
proof fn lemma_update_same_id_keeps_wf(prev: Seq<Bulb>, cur: Seq<Bulb>, i: int)
    requires
        0 <= i < prev.len(),
        cur.len() == prev.len(),
        cur[i].id == prev[i].id,
        forall|k: int| 0 <= k < prev.len() && k != i ==> #[trigger] cur[k] == prev[k],
        forall|p: int, q: int|
            0 <= p < q < prev.len() ==> !id_eq(#[trigger] prev[p].id, #[trigger] prev[q].id),
    ensures
        forall|p: int, q: int|
            0 <= p < q < cur.len() ==> !id_eq(#[trigger] cur[p].id, #[trigger] cur[q].id),
{
    assert forall|p: int, q: int|
        0 <= p < q < cur.len() implies !id_eq(#[trigger] cur[p].id, #[trigger] cur[q].id) by {
        assert(cur[p].id == prev[p].id);
        assert(cur[q].id == prev[q].id);
    }
}

/// Appending an entry under a fresh key keeps the keys pairwise distinct.
proof fn lemma_push_fresh_keeps_wf(prev: Seq<Bulb>, b: Bulb)
    requires
        forall|p: int, q: int|
            0 <= p < q < prev.len() ==> !id_eq(#[trigger] prev[p].id, #[trigger] prev[q].id),
        forall|k: int| 0 <= k < prev.len() ==> !id_eq(#[trigger] prev[k].id, b.id),
    ensures
        forall|p: int, q: int|
            0 <= p < q < prev.push(b).len() ==> !id_eq(
                #[trigger] prev.push(b)[p].id,
                #[trigger] prev.push(b)[q].id,
            ),
{
    let cur = prev.push(b);
    assert forall|p: int, q: int|
        0 <= p < q < cur.len() implies !id_eq(#[trigger] cur[p].id, #[trigger] cur[q].id) by {
        if q < prev.len() {
            assert(cur[p] == prev[p]);
            assert(cur[q] == prev[q]);
        } else {
            assert(cur[p] == prev[p]);
            assert(cur[q] == b);
        }
    }
}

/// What hydration yields: one entry per persisted identifier, first wins.
pub open spec fn spec_hydrate(records: Seq<BulbRecord>) -> Seq<Bulb>
    decreases records.len(),
{
    if records.len() == 0 {
        Seq::empty()
    } else {
        let prev = spec_hydrate(records.drop_last());
        let rec = records.last();
        match rec.id {
            Some(id) => if exists|i: int| 0 <= i < prev.len() && id_eq(#[trigger] prev[i].id, id) {
                prev
            } else {
                prev.push(
                    Bulb { id, mac: rec.mac, name: rec.name, addr: rec.addr, power: rec.power },
                )
            },
            None => prev,
        }
    }
}

/// Registering a fresh identifier grows the key set by exactly one, and a
/// second `add` with the same identifier is rejected while the registry is
/// unchanged: `add` is idempotent-rejecting.
pub proof fn lemma_add_is_idempotent_rejecting(
    before: Registry,
    after: Registry,
    rec: BulbRecord,
    aid: Identifier,
)
    requires
        before.wf(),
        !before.has_id(chosen_id(rec, aid)),
        after.bulbs@ == before.bulbs@.push(
            Bulb {
                id: chosen_id(rec, aid),
                mac: rec.mac,
                name: rec.name,
                addr: rec.addr,
                power: rec.power,
            },
        ),
    ensures
        after.wf(),
        after.has_id(chosen_id(rec, aid)),
        after.bulbs@.len() == before.bulbs@.len() + 1,
{
    let key = chosen_id(rec, aid);
    let n = before.bulbs@.len() as int;
    assert(id_eq(after.bulbs@[n].id, key)) by {
        lemma_id_eq_reflexive(key);
    }
    assert forall|p: int, q: int|
        0 <= p < q < after.bulbs@.len() implies !id_eq(
        #[trigger] after.bulbs@[p].id,
        #[trigger] after.bulbs@[q].id,
    ) by {
        if q < n {
            assert(after.bulbs@[p].id == before.bulbs@[p].id);
            assert(after.bulbs@[q].id == before.bulbs@[q].id);
        } else {
            assert(after.bulbs@[p].id == before.bulbs@[p].id);
            assert(after.bulbs@[q].id == key);
        }
    }
}

/// After an acknowledged turn-on of a registered device, the cached power
/// of that device's entry is on: the state a follow-up query reports is the
/// state the command set, given that the device acknowledged.
pub proof fn lemma_turn_on_ack_caches_on(before: Registry, after: Registry, i: int, s: String)
    requires
        0 <= i < before.bulbs@.len(),
        s@ == crate::codec::lit_set_ack(true),
        after.bulbs@ == before.bulbs@.update(
            i,
            bulb_after_set(before.bulbs@[i], TransportEvent::Reply(s), true),
        ),
    ensures
        after.bulbs@[i].power == Some(true),
        after.bulbs@[i].id == before.bulbs@[i].id,
{
}

/// Identifier equality is reflexive.
pub proof fn lemma_id_eq_reflexive(id: Identifier)
    ensures
        id_eq(id, id),
{
}

} // verus!
