//! Multi-attach dispatchers: one umbrella program per (interface,
//! direction) hook, chaining up to [`MAX_DISPATCHER_ACTIONS`] extensions,
//! replaced wholesale at a fresh revision on every membership change.

use vstd::prelude::*;
use vstd::string::*;
use crate::program::Program;
use crate::types::Direction;
use crate::types::ProgramType;

verus! {

/// Most extension slots one dispatcher offers.
pub const MAX_DISPATCHER_ACTIONS: usize = 10;

/// Names the dispatcher a filter program attaches through.
#[derive(Clone, Copy, PartialEq, Eq, Structural, Debug, Hash)]
pub enum DispatcherId {
    Xdp(u32),
    Tc(u32, Direction),
}

/// One live dispatcher: its hook, its current revision, and how many
/// extensions it chains.
#[derive(Debug)]
pub struct Dispatcher {
    pub kind: ProgramType,
    pub if_index: u32,
    pub if_name: String,
    pub direction: Option<Direction>,
    pub revision: u32,
    pub num_extensions: usize,
}

/// Whether two dispatchers read the same.
pub open spec fn dispatcher_eqv(a: &Dispatcher, b: &Dispatcher) -> bool {
    &&& a.kind == b.kind
    &&& a.if_index == b.if_index
    &&& a.if_name@ == b.if_name@
    &&& a.direction == b.direction
    &&& a.revision == b.revision
    &&& a.num_extensions == b.num_extensions
}

impl Clone for Dispatcher {
    fn clone(&self) -> (r: Self)
        ensures
            dispatcher_eqv(&r, self),
    {
        Dispatcher {
            kind: self.kind,
            if_index: self.if_index,
            if_name: self.if_name.clone(),
            direction: self.direction,
            revision: self.revision,
            num_extensions: self.num_extensions,
        }
    }
}

/// Revision that replaces `rev`: the next integer, wrapping at the top.
pub open spec fn spec_next_revision(rev: u32) -> u32 {
    if rev == u32::MAX {
        0
    } else {
        (rev + 1) as u32
    }
}

impl Dispatcher {
    pub fn num_extensions(&self) -> (r: usize)
        ensures
            r == self.num_extensions,
    {
        self.num_extensions
    }

    /// Revision a replacement dispatcher is built at.  It always differs
    /// from the current one, which is all the atomic swap needs.
    pub fn next_revision(&self) -> (r: u32)
        ensures
            r == spec_next_revision(self.revision),
            r != self.revision,
            self.revision < u32::MAX ==> r == self.revision + 1,
    {
        if self.revision == u32::MAX {
            0
        } else {
            self.revision + 1
        }
    }
}

/// Monotonic revision: as long as the counter has room, each replacement
/// dispatcher carries a strictly larger revision than the one it retires;
/// and a replacement never reuses the revision it retires.
pub proof fn lemma_revision_monotonic(rev: u32)
    ensures
        rev < u32::MAX ==> spec_next_revision(rev) > rev,
        spec_next_revision(rev) != rev,
{
}

/// The dispatcher a program would attach through, if its kind wants one
/// and its interface index is resolved.
pub open spec fn spec_dispatcher_id(p: &Program) -> Option<DispatcherId> {
    match p {
        Program::Xdp(x) => match x.if_index {
            Some(i) => Some(DispatcherId::Xdp(i)),
            None => None,
        },
        Program::Tc(x) => match x.if_index {
            Some(i) => Some(DispatcherId::Tc(i, x.direction)),
            None => None,
        },
        _ => None,
    }
}

/// Computes [`spec_dispatcher_id`] for a program.
pub fn dispatcher_id_of(p: &Program) -> (r: Option<DispatcherId>)
    ensures
        r == spec_dispatcher_id(p),
{
    match p {
        Program::Xdp(x) => match x.if_index {
            Some(i) => Some(DispatcherId::Xdp(i)),
            None => None,
        },
        Program::Tc(x) => match x.if_index {
            Some(i) => Some(DispatcherId::Tc(i, x.direction)),
            None => None,
        },
        _ => None,
    }
}

/// One dispatcher held under its id.
#[derive(Debug)]
pub struct DispEntry {
    pub did: DispatcherId,
    pub disp: Dispatcher,
}

/// Index of active dispatchers by id.
#[derive(Debug)]
pub struct DispatcherMap {
    pub entries: Vec<DispEntry>,
}

/// First dispatcher held under `did`, scanning left to right.
pub open spec fn disp_find(s: Seq<DispEntry>, did: DispatcherId) -> Option<Dispatcher>
    decreases s.len(),
{
    if s.len() == 0 {
        None
    } else if s[0].did == did {
        Some(s[0].disp)
    } else {
        disp_find(s.drop_first(), did)
    }
}

impl DispatcherMap {
    /// Keys are unique, so each id names at most one dispatcher.
    pub open spec fn wf(&self) -> bool {
        forall|i: int, j: int|
            0 <= i < j < self.entries@.len() ==> (#[trigger] self.entries@[i]).did != (
            #[trigger] self.entries@[j]).did
    }

    /// Dispatcher held under `did`.
    pub open spec fn spec_get(&self, did: DispatcherId) -> Option<Dispatcher> {
        disp_find(self.entries@, did)
    }

    /// How many extensions the dispatcher for `did` chains; zero when no
    /// dispatcher is active there.
    pub open spec fn spec_attached_programs(&self, did: DispatcherId) -> usize {
        match self.spec_get(did) {
            Some(d) => d.num_extensions,
            None => 0,
        }
    }

    pub fn new() -> (r: Self)
        ensures
            r.wf(),
            r.entries@.len() == 0,
    {
        DispatcherMap { entries: Vec::new() }
    }

    /// Index of the entry keyed `did`, if one exists.
    fn find_idx(&self, did: DispatcherId) -> (r: Option<usize>)
        ensures
            r matches Some(i) ==> i < self.entries@.len() && self.entries@[i as int].did == did,
            r is None ==> forall|i: int|
                0 <= i < self.entries@.len() ==> (#[trigger] self.entries@[i]).did != did,
    {
        let n = self.entries.len();
        let mut i: usize = 0;
        while i < n
            invariant
                0 <= i <= n,
                n == self.entries@.len(),
                forall|k: int| 0 <= k < i ==> (#[trigger] self.entries@[k]).did != did,
            decreases n - i,
        {
            if self.entries[i].did == did {
                return Some(i);
            }
            i = i + 1;
        }
        None
    }

    /// Stores `disp` under `did`, handing back what was there.
    pub fn insert(&mut self, did: DispatcherId, disp: Dispatcher) -> (r: Option<Dispatcher>)
        requires
            old(self).wf(),
        ensures
            final(self).wf(),
            final(self).spec_get(did) == Some(disp),
            forall|x: DispatcherId|
                x != did ==> #[trigger] final(self).spec_get(x) == old(self).spec_get(x),
            r == old(self).spec_get(did),
    {
        proof {
            disp_lemma_find_index(self.entries@, did);
        }
        match self.find_idx(did) {
            Some(i) => {
                let old_entry = self.entries.remove(i);
                self.entries.insert(i, DispEntry { did, disp });
                proof {
                    disp_lemma_find_at_index(old(self).entries@, did, i as int);
                    assert forall|x: DispatcherId|
                        disp_find(self.entries@, x) == (if x == did {
                            Some(disp)
                        } else {
                            disp_find(old(self).entries@, x)
                        }) by {
                        disp_lemma_find_update(old(self).entries@, self.entries@, i as int, x);
                    }
                }
                Some(old_entry.disp)
            },
            None => {
                self.entries.push(DispEntry { did, disp });
                proof {
                    assert forall|x: DispatcherId|
                        disp_find(self.entries@, x) == (if x == did {
                            Some(disp)
                        } else {
                            disp_find(old(self).entries@, x)
                        }) by {
                        disp_lemma_find_push(old(self).entries@, DispEntry { did, disp }, x);
                    }
                }
                None
            },
        }
    }

    /// Takes the dispatcher under `did` out of the index.
    pub fn remove(&mut self, did: DispatcherId) -> (r: Option<Dispatcher>)
        requires
            old(self).wf(),
        ensures
            final(self).wf(),
            final(self).spec_get(did) is None,
            forall|x: DispatcherId|
                x != did ==> #[trigger] final(self).spec_get(x) == old(self).spec_get(x),
            r == old(self).spec_get(did),
    {
        proof {
            disp_lemma_find_index(self.entries@, did);
        }
        match self.find_idx(did) {
            Some(i) => {
                let e = self.entries.remove(i);
                proof {
                    disp_lemma_find_at_index(old(self).entries@, did, i as int);
                    assert forall|x: DispatcherId|
                        disp_find(self.entries@, x) == (if x == did {
                            None::<Dispatcher>
                        } else {
                            disp_find(old(self).entries@, x)
                        }) by {
                        disp_lemma_find_remove(old(self).entries@, i as int, x);
                    }
                }
                Some(e.disp)
            },
            None => None,
        }
    }

    /// Dispatcher held under `did`.
    pub fn get(&self, did: &DispatcherId) -> (r: Option<&Dispatcher>)
        requires
            self.wf(),
        ensures
            r matches Some(d) ==> self.spec_get(*did) == Some(*d),
            r is None ==> self.spec_get(*did) is None,
    {
        proof {
            disp_lemma_find_index(self.entries@, *did);
        }
        match self.find_idx(*did) {
            Some(i) => {
                proof {
                    disp_lemma_find_at_index(self.entries@, *did, i as int);
                }
                Some(&self.entries[i].disp)
            },
            None => None,
        }
    }

    /// How many extension programs are attached through the dispatcher
    /// that `did` names; zero when none is active.
    pub fn attached_programs(&self, did: &DispatcherId) -> (r: usize)
        requires
            self.wf(),
        ensures
            r == self.spec_attached_programs(*did),
    {
        proof {
            disp_lemma_find_index(self.entries@, *did);
        }
        match self.find_idx(*did) {
            Some(i) => {
                proof {
                    disp_lemma_find_at_index(self.entries@, *did, i as int);
                }
                self.entries[i].disp.num_extensions
            },
            None => 0,
        }
    }
}

/// If no index holds `did`, the scan finds nothing; if some index holds
/// it, the scan finds something.
proof fn disp_lemma_find_index(s: Seq<DispEntry>, did: DispatcherId)
    ensures
        (forall|i: int| 0 <= i < s.len() ==> (#[trigger] s[i]).did != did) ==> disp_find(s, did)
            is None,
        (exists|i: int| 0 <= i < s.len() && (#[trigger] s[i]).did == did) ==> disp_find(s, did)
            is Some,
    decreases s.len(),
{
    if s.len() > 0 {
        if s[0].did == did {
        } else {
            disp_lemma_find_index(s.drop_first(), did);
            if exists|i: int| 0 <= i < s.len() && (#[trigger] s[i]).did == did {
                let w = choose|i: int| 0 <= i < s.len() && (#[trigger] s[i]).did == did;
                assert(s.drop_first()[w - 1] == s[w]);
            }
        }
    }
}

/// With unique keys, the scan finds the value stored at any index that
/// holds `did`.
proof fn disp_lemma_find_at_index(s: Seq<DispEntry>, did: DispatcherId, i: int)
    requires
        0 <= i < s.len(),
        s[i].did == did,
        forall|a: int, b: int|
            0 <= a < b < s.len() ==> (#[trigger] s[a]).did != (#[trigger] s[b]).did,
    ensures
        disp_find(s, did) == Some(s[i].disp),
    decreases s.len(),
{
    if s[0].did == did {
        assert(i == 0);
    } else {
        assert(i >= 1);
        assert(s.drop_first()[i - 1] == s[i]);
        assert forall|a: int, b: int|
            0 <= a < b < s.drop_first().len() implies (#[trigger] s.drop_first()[a]).did != (
        #[trigger] s.drop_first()[b]).did by {
            assert(s.drop_first()[a] == s[a + 1]);
            assert(s.drop_first()[b] == s[b + 1]);
        }
        disp_lemma_find_at_index(s.drop_first(), did, i - 1);
    }
}

/// Effect of replacing the entry at `i` on every lookup.
proof fn disp_lemma_find_update(s: Seq<DispEntry>, t: Seq<DispEntry>, i: int, x: DispatcherId)
    requires
        0 <= i < s.len(),
        t.len() == s.len(),
        t[i].did == s[i].did,
        forall|k: int| 0 <= k < s.len() && k != i ==> t[k] == s[k],
        forall|a: int, b: int|
            0 <= a < b < s.len() ==> (#[trigger] s[a]).did != (#[trigger] s[b]).did,
    ensures
        disp_find(t, x) == if x == s[i].did {
            Some(t[i].disp)
        } else {
            disp_find(s, x)
        },
    decreases s.len(),
{
    if s.len() > 0 {
        if i == 0 {
            if x == s[0].did {
            } else {
                assert(t.drop_first() =~= s.drop_first());
            }
        } else {
            if x == s[0].did {
                assert(t[0] == s[0]);
            } else {
                assert(t[0] == s[0]);
                assert(t.drop_first()[i - 1].did == s.drop_first()[i - 1].did);
                assert forall|k: int|
                    0 <= k < s.drop_first().len() && k != i - 1 implies s.drop_first()[k]
                    == t.drop_first()[k] by {
                    assert(s.drop_first()[k] == s[k + 1]);
                    assert(t.drop_first()[k] == t[k + 1]);
                }
                assert forall|a: int, b: int|
                    0 <= a < b < s.drop_first().len() implies (#[trigger] s.drop_first()[a]).did
                    != (#[trigger] s.drop_first()[b]).did by {
                    assert(s.drop_first()[a] == s[a + 1]);
                    assert(s.drop_first()[b] == s[b + 1]);
                }
                disp_lemma_find_update(s.drop_first(), t.drop_first(), i - 1, x);
                assert(s.drop_first()[i - 1] == s[i]);
            }
        }
    }
}

/// Effect of appending an entry on every lookup.
proof fn disp_lemma_find_push(s: Seq<DispEntry>, e: DispEntry, x: DispatcherId)
    requires
        forall|i: int| 0 <= i < s.len() ==> (#[trigger] s[i]).did != e.did,
    ensures
        disp_find(s.push(e), x) == if x == e.did {
            Some(e.disp)
        } else {
            disp_find(s, x)
        },
    decreases s.len(),
{
    let t = s.push(e);
    assert(t.len() == s.len() + 1);
    if s.len() == 0 {
        assert(t[0] == e);
        if x == e.did {
            assert(disp_find(t, x) == Some(e.disp));
        } else {
            assert(t.drop_first() =~= Seq::<DispEntry>::empty());
            assert(disp_find(t, x) == disp_find(t.drop_first(), x));
            assert(disp_find(t.drop_first(), x) is None);
            assert(disp_find(s, x) is None);
        }
    } else {
        assert(t[0] == s[0]);
        assert(t.drop_first() =~= s.drop_first().push(e));
        if x == s[0].did {
            assert(s[0].did != e.did);
            assert(disp_find(t, x) == Some(t[0].disp));
            assert(disp_find(s, x) == Some(s[0].disp));
        } else {
            assert forall|i: int|
                0 <= i < s.drop_first().len() implies (#[trigger] s.drop_first()[i]).did
                != e.did by {
                assert(s.drop_first()[i] == s[i + 1]);
            }
            disp_lemma_find_push(s.drop_first(), e, x);
        }
    }
}

/// Effect of removing the entry at `i` on every lookup.
proof fn disp_lemma_find_remove(s: Seq<DispEntry>, i: int, x: DispatcherId)
    requires
        0 <= i < s.len(),
        forall|a: int, b: int|
            0 <= a < b < s.len() ==> (#[trigger] s[a]).did != (#[trigger] s[b]).did,
    ensures
        disp_find(s.remove(i), x) == if x == s[i].did {
            None
        } else {
            disp_find(s, x)
        },
    decreases s.len(),
{
    let t = s.remove(i);
    if i == 0 {
        assert(t =~= s.drop_first());
        if x == s[0].did {
            disp_lemma_none(s.drop_first(), x);
        }
    } else {
        assert(t[0] == s[0]);
        if x == s[0].did {
        } else {
            assert(t.drop_first() =~= s.drop_first().remove(i - 1));
            assert forall|a: int, b: int|
                0 <= a < b < s.drop_first().len() implies (#[trigger] s.drop_first()[a]).did != (
            #[trigger] s.drop_first()[b]).did by {
                assert(s.drop_first()[a] == s[a + 1]);
                assert(s.drop_first()[b] == s[b + 1]);
            }
            assert(s.drop_first()[i - 1] == s[i]);
            disp_lemma_find_remove(s.drop_first(), i - 1, x);
        }
    }
}

/// A scan over entries none of which hold `x` finds nothing.
proof fn disp_lemma_none(s: Seq<DispEntry>, x: DispatcherId)
    requires
        forall|i: int| 0 <= i < s.len() ==> (#[trigger] s[i]).did != x,
    ensures
        disp_find(s, x) is None,
    decreases s.len(),
{
    if s.len() > 0 {
        assert forall|i: int|
            0 <= i < s.drop_first().len() implies (#[trigger] s.drop_first()[i]).did != x by {
            assert(s.drop_first()[i] == s[i + 1]);
        }
        disp_lemma_none(s.drop_first(), x);
    }
}

} // verus!
