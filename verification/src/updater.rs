//! Which services wait for a new release of their package, and which have
//! found one.
//!
//! The updater runs no worker. It says which kind of worker is to watch a
//! service, and keeps what the workers report until the service is taken
//! off the list.

use vstd::prelude::*;
use crate::id_table::IdTable;

verus! {

/// How a service takes up a new release.
#[derive(Clone, Copy, Debug, PartialEq, Eq, Structural)]
pub enum UpdateStrategy {
    /// Not at all.
    Never,
    /// As soon as the release is there.
    AtOnce,
    /// One member of the service group after the other.
    Rolling,
}

/// The kind of worker that watches a service.
#[derive(Clone, Copy, Debug, PartialEq, Eq, Structural)]
pub enum WorkerKind {
    AtOnce,
    Rolling,
}

/// The worker that a strategy calls for, if it calls for one.
pub open spec fn spec_worker(strategy: UpdateStrategy) -> Option<WorkerKind> {
    match strategy {
        UpdateStrategy::Never => None,
        UpdateStrategy::AtOnce => Some(WorkerKind::AtOnce),
        UpdateStrategy::Rolling => Some(WorkerKind::Rolling),
    }
}

/// The number that stands for a kind of worker in the table of workers.
spec fn code_of(kind: WorkerKind) -> u64 {
    match kind {
        WorkerKind::AtOnce => 1,
        WorkerKind::Rolling => 2,
    }
}

/// The kind of worker that a number of the table stands for.
spec fn kind_of(code: u64) -> WorkerKind {
    if code == 1 {
        WorkerKind::AtOnce
    } else {
        WorkerKind::Rolling
    }
}

/// An updater as a mathematical value.
pub struct UpdaterView {
    /// For each service group that has found a release, the release.
    pub updates: Map<Seq<u8>, Seq<u8>>,
    /// For each service group that is watched, the kind of its worker.
    pub workers: Map<Seq<u8>, WorkerKind>,
}

/// The services that wait for a release, and the releases that were found.
pub struct ServiceUpdater {
    idents: Vec<Vec<u8>>,
    updates: IdTable,
    workers: IdTable,
}

impl View for ServiceUpdater {
    type V = UpdaterView;

    closed spec fn view(&self) -> UpdaterView {
        UpdaterView {
            updates: Map::new(
                |g: Seq<u8>| self.updates@.contains_key(g),
                |g: Seq<u8>| self.idents@[self.updates@[g] as int]@,
            ),
            workers: Map::new(
                |g: Seq<u8>| self.workers@.contains_key(g),
                |g: Seq<u8>| kind_of(self.workers@[g]),
            ),
        }
    }
}

impl ServiceUpdater {
    /// The invariant.
    pub closed spec fn wf(&self) -> bool {
        &&& self.updates.wf()
        &&& self.workers.wf()
        &&& forall|g: Seq<u8>| #[trigger]
            self.updates@.contains_key(g) ==> self.updates@[g] < self.idents@.len()
    }

    /// An updater that watches nothing.
    pub fn new() -> (r: ServiceUpdater)
        ensures
            r.wf(),
            r@.updates == Map::<Seq<u8>, Seq<u8>>::empty(),
            r@.workers == Map::<Seq<u8>, WorkerKind>::empty(),
    {
        let r = ServiceUpdater { idents: Vec::new(), updates: IdTable::new(), workers: IdTable::new() };
        assert(r@.updates =~= Map::<Seq<u8>, Seq<u8>>::empty());
        assert(r@.workers =~= Map::<Seq<u8>, WorkerKind>::empty());
        r
    }

    /// Takes a service off the list, as when it is unloaded: its worker is
    /// to be stopped, and a release that was found for it is forgotten.
    pub fn remove(&mut self, service_group: &[u8])
        requires
            old(self).wf(),
        ensures
            final(self).wf(),
            final(self)@.updates == old(self)@.updates.remove(service_group@),
            final(self)@.workers == old(self)@.workers.remove(service_group@),
    {
        self.workers.remove(service_group);
        self.updates.remove(service_group);
        assert(self@.updates =~= old(self)@.updates.remove(service_group@));
        assert(self@.workers =~= old(self)@.workers.remove(service_group@));
    }

    /// Puts a service on the list. Whatever watched the service before is
    /// to be stopped first; then the worker that comes back, if any, is to
    /// be started.
    pub fn add(&mut self, service_group: &[u8], strategy: UpdateStrategy) -> (r: Option<WorkerKind>)
        requires
            old(self).wf(),
        ensures
            final(self).wf(),
            r == spec_worker(strategy),
            final(self)@.updates == old(self)@.updates.remove(service_group@),
            final(self)@.workers == match r {
                Some(kind) => old(self)@.workers.insert(service_group@, kind),
                None => old(self)@.workers.remove(service_group@),
            },
    {
        self.remove(service_group);
        let ghost mid = *self;
        let kind = match strategy {
            UpdateStrategy::Never => None,
            UpdateStrategy::AtOnce => Some(WorkerKind::AtOnce),
            UpdateStrategy::Rolling => Some(WorkerKind::Rolling),
        };
        match kind {
            Some(WorkerKind::AtOnce) => {
                self.workers.set(service_group, 1);
            },
            Some(WorkerKind::Rolling) => {
                self.workers.set(service_group, 2);
            },
            None => {},
        }
        proof {
            match kind {
                Some(k) => {
                    let want = old(self)@.workers.insert(service_group@, k);
                    assert forall|g: Seq<u8>| self@.workers.contains_key(g) == want.contains_key(
                        g,
                    ) by {
                        if g != service_group@ {
                            assert(mid@.workers.contains_key(g) == mid.workers@.contains_key(g));
                        }
                    }
                    assert forall|g: Seq<u8>| self@.workers.contains_key(g) implies self@.workers[g]
                        == want[g] by {
                        if g != service_group@ {
                            assert(mid@.workers.contains_key(g));
                            assert(mid@.workers[g] == kind_of(mid.workers@[g]));
                        }
                    }
                    assert(self@.workers =~= want);
                },
                None => {},
            }
            assert(self@.updates =~= old(self)@.updates.remove(service_group@));
        }
        kind
    }

    /// Takes note that the worker of a service has found a release. What a
    /// worker reports of a service that is not watched is ignored.
    pub fn found(&mut self, service_group: &[u8], ident: Vec<u8>)
        requires
            old(self).wf(),
        ensures
            final(self).wf(),
            final(self)@.workers == old(self)@.workers,
            final(self)@.updates == if old(self)@.workers.contains_key(service_group@) {
                old(self)@.updates.insert(service_group@, ident@)
            } else {
                old(self)@.updates
            },
    {
        if !self.workers.contains(service_group) {
            return ;
        }
        assert(self@.workers.contains_key(service_group@));
        let at = self.idents.len();
        self.idents.push(ident);
        self.updates.set(service_group, at as u64);
        proof {
            assert forall|g: Seq<u8>| #[trigger] self.updates@.contains_key(g) implies self.updates@[g]
                < self.idents@.len() by {
                if g != service_group@ {
                    assert(old(self).updates@.contains_key(g));
                }
            }
            assert(self@.updates =~= old(self)@.updates.insert(service_group@, ident@)) by {
                assert forall|g: Seq<u8>| #[trigger] self@.updates.contains_key(g) implies self@.updates[g]
                    == old(self)@.updates.insert(service_group@, ident@)[g] by {
                    if g != service_group@ {
                        assert(old(self).updates@.contains_key(g));
                    }
                }
            }
        }
    }

    /// The release that was found for a service. Once one was found it is
    /// handed out until the service is taken off the list.
    pub fn has_update(&self, service_group: &[u8]) -> (r: Option<Vec<u8>>)
        requires
            self.wf(),
        ensures
            r is Some <==> self@.updates.contains_key(service_group@),
            r matches Some(ident) ==> ident@ == self@.updates[service_group@],
    {
        match self.updates.get(service_group) {
            Some(at) => {
                assert(self.updates@.contains_key(service_group@));
                let n = self.idents.len();
                assert(at < n);
                let i = at as usize;
                Some(self.idents[i].clone())
            },
            None => None,
        }
    }

    /// The kind of worker that watches a service.
    pub fn worker_of(&self, service_group: &[u8]) -> (r: Option<WorkerKind>)
        requires
            self.wf(),
        ensures
            r is Some <==> self@.workers.contains_key(service_group@),
            r matches Some(kind) ==> self@.workers[service_group@] == kind,
    {
        match self.workers.get(service_group) {
            Some(code) => {
                if code == 1 {
                    Some(WorkerKind::AtOnce)
                } else {
                    Some(WorkerKind::Rolling)
                }
            },
            None => None,
        }
    }
}

} // verus!
