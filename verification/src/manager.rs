//! The program manager: the single owner of the program index, the
//! dispatcher index and the shared-map registry.  It decides every load,
//! unload and rebuild step; the surrounding process performs the kernel and
//! filesystem work those decisions call for and reports the outcomes back.

use vstd::prelude::*;
use vstd::string::*;
use crate::dispatcher::Dispatcher;
use crate::dispatcher::DispatcherId;
use crate::dispatcher::DispatcherMap;
use crate::dispatcher::MAX_DISPATCHER_ACTIONS;
use crate::dispatcher::dispatcher_id_of;
use crate::dispatcher::spec_dispatcher_id;
use crate::dispatcher::spec_next_revision;
use crate::errors::BpfmanError;
use crate::program::Program;
use crate::program::ProgramData;
use crate::program::is_filter_at;
use crate::types::Direction;
use crate::types::ProgramType;
use crate::progmap::ProgramMap;
use crate::progmap::SortItem;
use crate::progmap::copy_u32s;
use crate::strutil::push_dec_u32;
use crate::strutil::spec_u32_dec;

verus! {

/// After a membership change: every program named by the list and present
/// in the index carries the list as its own `maps_used_by`, with nothing
/// else of it changed, and programs outside the list are untouched.
pub open spec fn programs_carry_list(
    old_pm: &ProgramMap,
    new_pm: &ProgramMap,
    list: Seq<u32>,
) -> bool {
    &&& (forall|id: u32|
        list.contains(id) ==> match old_pm.spec_get(id) {
            Some(p) => {
                &&& new_pm.spec_get(id) matches Some(p2)
                &&& new_pm.spec_get(id)->0 == p.spec_with_data(
                    ProgramData {
                        maps_used_by: new_pm.spec_get(id)->0.spec_data().maps_used_by,
                        ..*p.spec_data()
                    },
                )
                &&& new_pm.spec_get(id)->0.spec_data().maps_used_by@ == list
            },
            None => new_pm.spec_get(id) is None,
        })
    &&& (forall|id: u32| !list.contains(id) ==> new_pm.spec_get(id) == old_pm.spec_get(id))
}

/// Whether a membership list names pairwise different programs.
pub open spec fn distinct_ids(u: Seq<u32>) -> bool {
    forall|a: int, b: int| 0 <= a < b < u.len() ==> u[a] != u[b]
}

/// One registry row, keyed by the owning program's id.
#[derive(Debug)]
pub struct MapEntry {
    pub owner: u32,
    pub used_by: Vec<u32>,
}

/// First membership list held under `owner`, scanning left to right.
pub open spec fn map_find(s: Seq<MapEntry>, owner: u32) -> Option<Seq<u32>>
    decreases s.len(),
{
    if s.len() == 0 {
        None
    } else if s[0].owner == owner {
        Some(s[0].used_by@)
    } else {
        map_find(s.drop_first(), owner)
    }
}

/// First index of `id` in `u`, or a negative marker.
pub open spec fn first_u32_index(u: Seq<u32>, id: u32) -> int
    decreases u.len(),
{
    if u.len() == 0 {
        -1
    } else if u[0] == id {
        0
    } else {
        let r = first_u32_index(u.drop_first(), id);
        if r < 0 {
            -1
        } else {
            r + 1
        }
    }
}

/// Membership after a removal: the member swaps places with the last
/// entry, then the list shrinks by one.
pub open spec fn spec_remove_member(u: Seq<u32>, id: u32) -> Seq<u32> {
    let i = first_u32_index(u, id);
    if i < 0 {
        u
    } else {
        u.update(i, u.last()).drop_last()
    }
}

/// The manager's whole in-memory state.
#[derive(Debug)]
pub struct BpfManager {
    pub programs: ProgramMap,
    pub dispatchers: DispatcherMap,
    pub maps: Vec<MapEntry>,
}

/// Root of the filesystem tree that holds the pinned shared maps.
pub open spec fn spec_maps_root() -> Seq<char> {
    "/run/bpfd/fs/maps/"@
}

/// Directory the shared maps of owner `id` are pinned under.
pub open spec fn spec_map_pin_path(id: u32) -> Seq<char> {
    spec_maps_root() + spec_u32_dec(id as nat)
}

/// Directory the shared maps of owner `id` are pinned under.
pub fn calc_map_pin_path(id: u32) -> (r: String)
    ensures
        r@ == spec_map_pin_path(id),
{
    let mut s = String::from_str("/run/bpfd/fs/maps/");
    push_dec_u32(&mut s, id);
    s
}

impl BpfManager {
    /// Registry keys are unique, and every owner is a member of its own
    /// list.
    pub open spec fn maps_wf(&self) -> bool {
        &&& forall|i: int, j: int|
            0 <= i < j < self.maps@.len() ==> (#[trigger] self.maps@[i]).owner != (
            #[trigger] self.maps@[j]).owner
        &&& forall|i: int|
            0 <= i < self.maps@.len() ==> distinct_ids((#[trigger] self.maps@[i]).used_by@)
        &&& forall|i: int| 0 <= i < self.maps@.len() ==> (#[trigger] self.maps@[i]).used_by@.len() > 0
    }

    /// The whole state is well formed.
    pub open spec fn wf(&self) -> bool {
        &&& self.programs.wf()
        &&& self.dispatchers.wf()
        &&& self.maps_wf()
    }

    /// Membership list of the map directory owned by `owner`.
    pub open spec fn spec_map_used_by(&self, owner: u32) -> Option<Seq<u32>> {
        map_find(self.maps@, owner)
    }

    pub fn new() -> (r: Self)
        ensures
            r.wf(),
            r.programs.entries@.len() == 0,
            r.dispatchers.entries@.len() == 0,
            r.maps@.len() == 0,
    {
        BpfManager {
            programs: ProgramMap::new(),
            dispatchers: DispatcherMap::new(),
            maps: Vec::new(),
        }
    }

    /// Index of the registry row keyed `owner`, if one exists.
    fn map_idx(&self, owner: u32) -> (r: Option<usize>)
        ensures
            r matches Some(i) ==> i < self.maps@.len() && self.maps@[i as int].owner == owner,
            r is None ==> forall|i: int|
                0 <= i < self.maps@.len() ==> (#[trigger] self.maps@[i]).owner != owner,
    {
        let n = self.maps.len();
        let mut i: usize = 0;
        while i < n
            invariant
                0 <= i <= n,
                n == self.maps@.len(),
                forall|k: int| 0 <= k < i ==> (#[trigger] self.maps@[k]).owner != owner,
            decreases n - i,
        {
            if self.maps[i].owner == owner {
                return Some(i);
            }
            i = i + 1;
        }
        None
    }

    /// Checks a client-supplied owner id: the owner must have a registered
    /// map directory, whose path is handed back.
    pub fn is_map_owner_id_valid(&self, map_owner_id: u32) -> (r: Result<String, BpfmanError>)
        requires
            self.wf(),
        ensures
            r matches Ok(p) <==> self.spec_map_used_by(map_owner_id) is Some,
            r matches Ok(p) ==> p@ == spec_map_pin_path(map_owner_id),
            r is Err ==> (r matches Err(BpfmanError::Error(m)) && self.spec_map_used_by(
                map_owner_id,
            ) is None),
    {
        proof {
            map_lemma_find_index(self.maps@, map_owner_id);
        }
        match self.map_idx(map_owner_id) {
            Some(i) => {
                proof {
                    map_lemma_find_at_index(self.maps@, map_owner_id, i as int);
                }
                Ok(calc_map_pin_path(map_owner_id))
            },
            None => Err(BpfmanError::Error(String::from_str("map_owner_id does not exists"))),
        }
    }

    /// Whether the failed load left a freshly created map directory to
    /// remove: only when the program owned its maps itself.
    pub fn cleanup_map_pin_path(&self, map_owner_id: Option<u32>) -> (r: bool)
        ensures
            r == (map_owner_id is None),
    {
        map_owner_id.is_none()
    }
}

/// If no row holds `owner`, the scan finds nothing; if some row holds it,
/// the scan finds something.
proof fn map_lemma_find_index(s: Seq<MapEntry>, owner: u32)
    ensures
        (forall|i: int| 0 <= i < s.len() ==> (#[trigger] s[i]).owner != owner) ==> map_find(
            s,
            owner,
        ) is None,
        (exists|i: int| 0 <= i < s.len() && (#[trigger] s[i]).owner == owner) ==> map_find(
            s,
            owner,
        ) is Some,
    decreases s.len(),
{
    if s.len() > 0 {
        if s[0].owner == owner {
        } else {
            map_lemma_find_index(s.drop_first(), owner);
            if exists|i: int| 0 <= i < s.len() && (#[trigger] s[i]).owner == owner {
                let w = choose|i: int| 0 <= i < s.len() && (#[trigger] s[i]).owner == owner;
                assert(s.drop_first()[w - 1] == s[w]);
            }
        }
    }
}

/// With unique keys, the scan finds the list stored at any row that holds
/// `owner`.
proof fn map_lemma_find_at_index(s: Seq<MapEntry>, owner: u32, i: int)
    requires
        0 <= i < s.len(),
        s[i].owner == owner,
        forall|a: int, b: int|
            0 <= a < b < s.len() ==> (#[trigger] s[a]).owner != (#[trigger] s[b]).owner,
    ensures
        map_find(s, owner) == Some(s[i].used_by@),
    decreases s.len(),
{
    if s[0].owner == owner {
        assert(i == 0);
    } else {
        assert(i >= 1);
        assert(s.drop_first()[i - 1] == s[i]);
        assert forall|a: int, b: int|
            0 <= a < b < s.drop_first().len() implies (#[trigger] s.drop_first()[a]).owner != (
        #[trigger] s.drop_first()[b]).owner by {
            assert(s.drop_first()[a] == s[a + 1]);
            assert(s.drop_first()[b] == s[b + 1]);
        }
        map_lemma_find_at_index(s.drop_first(), owner, i - 1);
    }
}

} // verus!

verus! {

impl BpfManager {
    /// Records a freshly loaded program in the shared-map registry.  With
    /// an owner named, the program joins that owner's membership list and
    /// every member learns the new list; without one, the program opens a
    /// directory of its own.  On an unknown owner nothing changes.
    pub fn save_map(&mut self, program: &mut Program, id: u32, map_owner_id: Option<u32>) -> (r:
        Result<(), BpfmanError>)
        requires
            old(self).wf(),
            match map_owner_id {
                Some(m) => (old(self).spec_map_used_by(m) matches Some(u) ==> !u.contains(id)),
                None => old(self).spec_map_used_by(id) is None,
            },
        ensures
            final(self).wf(),
            final(self).dispatchers == old(self).dispatchers,
            r is Err <==> (map_owner_id matches Some(m) && old(self).spec_map_used_by(m) is None),
            r is Err ==> *final(self) == *old(self) && *final(program) == *old(program),
            r is Ok && map_owner_id is Some ==> ({
                let m = map_owner_id->0;
                &&& final(self).spec_map_used_by(m) == Some(
                    old(self).spec_map_used_by(m)->0.push(id),
                )
                &&& final(program).spec_data().maps_used_by@ == old(self).spec_map_used_by(
                    m,
                )->0.push(id)
                &&& (forall|o: u32|
                    o != m ==> #[trigger] final(self).spec_map_used_by(o) == old(
                        self,
                    ).spec_map_used_by(o))
                &&& programs_carry_list(
                    &old(self).programs,
                    &final(self).programs,
                    old(self).spec_map_used_by(m)->0.push(id),
                )
            }),
            r is Ok && map_owner_id is None ==> {
                &&& final(self).spec_map_used_by(id) == Some(seq![id])
                &&& final(program).spec_data().maps_used_by@ == seq![id]
                &&& (forall|o: u32|
                    o != id ==> #[trigger] final(self).spec_map_used_by(o) == old(
                        self,
                    ).spec_map_used_by(o))
                &&& final(self).programs == old(self).programs
            },
            *final(program) == old(program).spec_with_data(
                ProgramData {
                    maps_used_by: final(program).spec_data().maps_used_by,
                    ..*old(program).spec_data()
                },
            ),
    {
        match map_owner_id {
            Some(m) => {
                proof {
                    map_lemma_find_index(self.maps@, m);
                }
                let i = match self.map_idx(m) {
                    Some(i) => i,
                    None => {
                        return Err(
                            BpfmanError::Error(String::from_str("map_owner_id does not exists")),
                        );
                    },
                };
                proof {
                    map_lemma_find_at_index(self.maps@, m, i as int);
                }
                let ghost before = self.maps@;
                let e = &mut self.maps[i];
                e.used_by.push(id);
                proof {
                    assert(self.maps@[i as int].owner == m);
                    assert(self.maps@[i as int].used_by@ == before[i as int].used_by@.push(id));
                    assert forall|idx: int|
                        0 <= idx < self.maps@.len() && idx != i implies self.maps@[idx] == before[
                        idx] by {}
                    assert(distinct_ids(self.maps@[i as int].used_by@)) by {
                        let u = before[i as int].used_by@;
                        assert(!u.contains(id));
                        assert forall|a: int, b: int|
                            0 <= a < b < u.push(id).len() implies u.push(id)[a] != u.push(
                            id,
                        )[b] by {
                            if b < u.len() {
                                assert(u.push(id)[a] == u[a]);
                                assert(u.push(id)[b] == u[b]);
                            } else {
                                assert(u.push(id)[b] == id);
                                assert(u.push(id)[a] == u[a]);
                                assert(u.contains(u[a]));
                            }
                        }
                    }
                }
                let ub = copy_u32s(&self.maps[i].used_by);
                let ub2 = copy_u32s(&ub);
                program.get_data_mut().set_maps_used_by(ub2);
                self.programs.set_maps_used_by_for(&ub, &ub);
                proof {
                    assert forall|o: u32|
                        o != m implies #[trigger] map_find(self.maps@, o) == map_find(
                        before,
                        o,
                    ) by {
                        map_lemma_frame(before, self.maps@, i as int, o);
                    }
                    map_lemma_find_at_index(self.maps@, m, i as int);
                }
                Ok(())
            },
            None => {
                proof {
                    map_lemma_find_index(self.maps@, id);
                }
                let ghost before = self.maps@;
                let mut ub: Vec<u32> = Vec::new();
                ub.push(id);
                let ub2 = copy_u32s(&ub);
                program.get_data_mut().set_maps_used_by(ub2);
                self.maps.push(MapEntry { owner: id, used_by: ub });
                proof {
                    assert(self.maps@.len() == before.len() + 1);
                    assert(self.maps@[before.len() as int].owner == id);
                    assert forall|idx: int|
                        0 <= idx < before.len() implies self.maps@[idx] == before[idx] by {}
                    map_lemma_push(before, self.maps@[before.len() as int]);
                    assert(self.maps@ =~= before.push(self.maps@[before.len() as int]));
                    assert(self.maps@[before.len() as int].used_by@ =~= seq![id]);
                }
                Ok(())
            },
        }
    }

    /// Clears a program out of the shared-map registry when it unloads.
    /// The last member to leave takes the directory with it: the result
    /// says whether the caller must remove it.
    pub fn delete_map(&mut self, id: u32, map_owner_id: Option<u32>) -> (r: Result<
        bool,
        BpfmanError,
    >)
        requires
            old(self).wf(),
        ensures
            final(self).wf(),
            final(self).dispatchers == old(self).dispatchers,
            ({
                let index = match map_owner_id {
                    Some(m) => m,
                    None => id,
                };
                &&& (r is Err <==> old(self).spec_map_used_by(index) is None)
                &&& (r is Err ==> *final(self) == *old(self))
                &&& (r matches Ok(remove_dir) ==> {
                    let after = spec_remove_member(old(self).spec_map_used_by(index)->0, id);
                    &&& (remove_dir <==> after.len() == 0)
                    &&& (after.len() == 0 ==> final(self).spec_map_used_by(index) is None
                        && final(self).programs == old(self).programs)
                    &&& (after.len() > 0 ==> final(self).spec_map_used_by(index) == Some(after)
                        && programs_carry_list(&old(self).programs, &final(self).programs, after))
                    &&& (forall|o: u32|
                        o != index ==> #[trigger] final(self).spec_map_used_by(o) == old(
                            self,
                        ).spec_map_used_by(o))
                })
            }),
    {
        let index = match map_owner_id {
            Some(m) => m,
            None => id,
        };
        proof {
            map_lemma_find_index(self.maps@, index);
        }
        let i = match self.map_idx(index) {
            Some(i) => i,
            None => {
                return Err(BpfmanError::Error(String::from_str("map_pin_path does not exists")));
            },
        };
        proof {
            map_lemma_find_at_index(self.maps@, index, i as int);
        }
        let ghost before = self.maps@;
        let ghost old_u = self.maps@[i as int].used_by@;
        let n = self.maps[i].used_by.len();
        let mut j: usize = 0;
        let mut found: Option<usize> = None;
        while j < n
            invariant
                0 <= j <= n,
                n == self.maps@[i as int].used_by@.len(),
                0 <= i < self.maps@.len(),
                self.maps@ == before,
                found matches Some(f) ==> f < j && self.maps@[i as int].used_by@[f as int] == id
                    && (forall|t: int| 0 <= t < f ==> self.maps@[i as int].used_by@[t] != id),
                found is None ==> forall|t: int|
                    0 <= t < j ==> self.maps@[i as int].used_by@[t] != id,
            decreases n - j,
        {
            if found.is_none() && self.maps[i].used_by[j] == id {
                found = Some(j);
            }
            j = j + 1;
        }
        match found {
            Some(f) => {
                proof {
                    lemma_first_u32_index(old_u, id, f as int);
                }
                let e = &mut self.maps[i];
                e.used_by.swap_remove(f);
                proof {
                    assert(self.maps@[i as int].used_by@ == old_u.update(
                        f as int,
                        old_u.last(),
                    ).drop_last());
                    assert(self.maps@[i as int].used_by@ == spec_remove_member(old_u, id));
                    assert forall|idx: int|
                        0 <= idx < self.maps@.len() && idx != i implies self.maps@[idx] == before[
                        idx] by {}
                    assert(distinct_ids(self.maps@[i as int].used_by@)) by {
                        let v = self.maps@[i as int].used_by@;
                        assert forall|a: int, b: int|
                            0 <= a < b < v.len() implies v[a] != v[b] by {
                            assert(v[a] == old_u.update(f as int, old_u.last())[a]);
                            assert(v[b] == old_u.update(f as int, old_u.last())[b]);
                        }
                    }
                }
                if self.maps[i].used_by.len() == 0 {
                    let ghost mid = self.maps@;
                    let gone = self.maps.remove(i);
                    proof {
                        assert(self.maps@ =~= before.remove(i as int));
                        map_lemma_remove(before, i as int, index);
                        assert forall|o: u32|
                            o != index implies #[trigger] map_find(self.maps@, o) == map_find(
                            before,
                            o,
                        ) by {
                            map_lemma_remove(before, i as int, o);
                        }
                    }
                    Ok(true)
                } else {
                    let ub = copy_u32s(&self.maps[i].used_by);
                    self.programs.set_maps_used_by_for(&ub, &ub);
                    proof {
                        map_lemma_find_at_index(self.maps@, index, i as int);
                        assert forall|o: u32|
                            o != index implies #[trigger] map_find(self.maps@, o) == map_find(
                            before,
                            o,
                        ) by {
                            map_lemma_frame(before, self.maps@, i as int, o);
                        }
                    }
                    Ok(false)
                }
            },
            None => {
                proof {
                    lemma_first_u32_index_none(old_u, id);
                    assert(spec_remove_member(old_u, id) == old_u);
                    assert(old_u.len() > 0);
                }
                if self.maps[i].used_by.len() == 0 {
                    proof {
                        assert(false);
                    }
                    Ok(true)
                } else {
                    let ub = copy_u32s(&self.maps[i].used_by);
                    self.programs.set_maps_used_by_for(&ub, &ub);
                    proof {
                        map_lemma_find_at_index(self.maps@, index, i as int);
                        assert forall|o: u32|
                            o != index implies #[trigger] map_find(self.maps@, o) == map_find(
                            before,
                            o,
                        ) by {
                            map_lemma_frame(before, self.maps@, i as int, o);
                        }
                    }
                    Ok(false)
                }
            },
        }
    }
}

/// The index scan and the first-index function agree.
proof fn lemma_first_u32_index(u: Seq<u32>, id: u32, i: int)
    requires
        0 <= i < u.len(),
        u[i] == id,
        forall|t: int| 0 <= t < i ==> u[t] != id,
    ensures
        first_u32_index(u, id) == i,
    decreases u.len(),
{
    if u[0] == id {
        assert(i == 0);
    } else {
        assert(i >= 1);
        assert forall|t: int| 0 <= t < i - 1 implies u.drop_first()[t] != id by {
            assert(u.drop_first()[t] == u[t + 1]);
        }
        assert(u.drop_first()[i - 1] == u[i]);
        lemma_first_u32_index(u.drop_first(), id, i - 1);
    }
}

/// A scan over ids none of which are `id` finds nothing.
proof fn lemma_first_u32_index_none(u: Seq<u32>, id: u32)
    requires
        forall|t: int| 0 <= t < u.len() ==> u[t] != id,
    ensures
        first_u32_index(u, id) == -1,
    decreases u.len(),
{
    if u.len() > 0 {
        assert forall|t: int| 0 <= t < u.drop_first().len() implies u.drop_first()[t] != id by {
            assert(u.drop_first()[t] == u[t + 1]);
        }
        lemma_first_u32_index_none(u.drop_first(), id);
    }
}

/// Effect of rewriting the row at `i` on every lookup, when only that
/// row's list changed.
proof fn map_lemma_frame(s: Seq<MapEntry>, t: Seq<MapEntry>, i: int, o: u32)
    requires
        0 <= i < s.len(),
        t.len() == s.len(),
        t[i].owner == s[i].owner,
        o != s[i].owner,
        forall|k: int| 0 <= k < s.len() && k != i ==> t[k] == s[k],
    ensures
        map_find(t, o) == map_find(s, o),
    decreases s.len(),
{
    if s.len() > 0 {
        if i == 0 {
            assert(t.drop_first() =~= s.drop_first());
        } else {
            assert(t[0] == s[0]);
            if o == s[0].owner {
            } else {
                assert forall|k: int|
                    0 <= k < s.drop_first().len() && k != i - 1 implies t.drop_first()[k]
                    == s.drop_first()[k] by {
                    assert(s.drop_first()[k] == s[k + 1]);
                    assert(t.drop_first()[k] == t[k + 1]);
                }
                assert(t.drop_first()[i - 1].owner == s.drop_first()[i - 1].owner);
                assert(s.drop_first()[i - 1] == s[i]);
                map_lemma_frame(s.drop_first(), t.drop_first(), i - 1, o);
            }
        }
    }
}

/// Effect of appending a row on every lookup.
proof fn map_lemma_push(s: Seq<MapEntry>, e: MapEntry)
    requires
        forall|i: int| 0 <= i < s.len() ==> (#[trigger] s[i]).owner != e.owner,
    ensures
        forall|o: u32|
            #[trigger] map_find(s.push(e), o) == if o == e.owner {
                Some(e.used_by@)
            } else {
                map_find(s, o)
            },
    decreases s.len(),
{
    let t = s.push(e);
    assert forall|o: u32|
        #[trigger] map_find(t, o) == (if o == e.owner {
            Some(e.used_by@)
        } else {
            map_find(s, o)
        }) by {
        map_lemma_push_one(s, e, o);
    }
}

/// One-lookup form of the push frame fact.
proof fn map_lemma_push_one(s: Seq<MapEntry>, e: MapEntry, o: u32)
    requires
        forall|i: int| 0 <= i < s.len() ==> (#[trigger] s[i]).owner != e.owner,
    ensures
        map_find(s.push(e), o) == if o == e.owner {
            Some(e.used_by@)
        } else {
            map_find(s, o)
        },
    decreases s.len(),
{
    let t = s.push(e);
    assert(t.len() == s.len() + 1);
    if s.len() == 0 {
        assert(t[0] == e);
        if o == e.owner {
        } else {
            assert(t.drop_first() =~= Seq::<MapEntry>::empty());
            assert(map_find(t, o) == map_find(t.drop_first(), o));
            assert(map_find(s, o) is None);
        }
    } else {
        assert(t[0] == s[0]);
        assert(t.drop_first() =~= s.drop_first().push(e));
        if o == s[0].owner {
            assert(s[0].owner != e.owner);
        } else {
            assert forall|i: int|
                0 <= i < s.drop_first().len() implies (#[trigger] s.drop_first()[i]).owner
                != e.owner by {
                assert(s.drop_first()[i] == s[i + 1]);
            }
            map_lemma_push_one(s.drop_first(), e, o);
        }
    }
}

/// Effect of removing the row at `i` on every lookup, when keys are
/// unique.
proof fn map_lemma_remove(s: Seq<MapEntry>, i: int, o: u32)
    requires
        0 <= i < s.len(),
        forall|a: int, b: int|
            0 <= a < b < s.len() ==> (#[trigger] s[a]).owner != (#[trigger] s[b]).owner,
    ensures
        map_find(s.remove(i), o) == if o == s[i].owner {
            None
        } else {
            map_find(s, o)
        },
    decreases s.len(),
{
    let t = s.remove(i);
    if i == 0 {
        assert(t =~= s.drop_first());
        if o == s[0].owner {
            map_lemma_none(s.drop_first(), o);
        }
    } else {
        assert(t[0] == s[0]);
        if o == s[0].owner {
        } else {
            assert(t.drop_first() =~= s.drop_first().remove(i - 1));
            assert forall|a: int, b: int|
                0 <= a < b < s.drop_first().len() implies (#[trigger] s.drop_first()[a]).owner
                != (#[trigger] s.drop_first()[b]).owner by {
                assert(s.drop_first()[a] == s[a + 1]);
                assert(s.drop_first()[b] == s[b + 1]);
            }
            assert(s.drop_first()[i - 1] == s[i]);
            map_lemma_remove(s.drop_first(), i - 1, o);
        }
    }
}

/// A scan over rows none of which hold `o` finds nothing.
proof fn map_lemma_none(s: Seq<MapEntry>, o: u32)
    requires
        forall|i: int| 0 <= i < s.len() ==> (#[trigger] s[i]).owner != o,
    ensures
        map_find(s, o) is None,
    decreases s.len(),
{
    if s.len() > 0 {
        assert forall|i: int|
            0 <= i < s.drop_first().len() implies (#[trigger] s.drop_first()[i]).owner != o by {
            assert(s.drop_first()[i] == s[i + 1]);
        }
        map_lemma_none(s.drop_first(), o);
    }
}

/// Idempotent sharing: with programs B and C joined to owner A's map,
/// removing B leaves exactly A and C as members, so the directory stays;
/// and removing A afterwards still leaves C, so the directory stays again.
pub proof fn lemma_map_sharing_retained(a: u32, b: u32, c: u32)
    requires
        a != b,
        b != c,
        a != c,
    ensures
        ({
            let after_adds = seq![a].push(b).push(c);
            let after_del_b = spec_remove_member(after_adds, b);
            &&& after_del_b =~= seq![a, c]
            &&& after_del_b.len() > 0
            &&& spec_remove_member(after_del_b, a) =~= seq![c]
            &&& spec_remove_member(after_del_b, a).len() > 0
        }),
{
    let after_adds = seq![a].push(b).push(c);
    assert(after_adds =~= seq![a, b, c]);
    assert(first_u32_index(after_adds, b) == 1) by {
        assert(after_adds[0] == a);
        assert(after_adds.drop_first() =~= seq![b, c]);
        assert(first_u32_index(seq![b, c], b) == 0) by {
            assert(seq![b, c][0] == b);
        }
    }
    let after_del_b = spec_remove_member(after_adds, b);
    assert(after_del_b =~= seq![a, c]);
    assert(first_u32_index(after_del_b, a) == 0) by {
        assert(after_del_b[0] == a);
    }
    assert(spec_remove_member(after_del_b, a) =~= seq![c]);
}

} // verus!

verus! {

/// Everything the kernel-facing build step needs to assemble one more
/// filter program onto a hook: the dispatcher to replace, the revision to
/// build at, and who sits in which slot.
#[derive(Debug)]
pub struct MultiAttachPlan {
    pub did: DispatcherId,
    pub next_revision: u32,
    pub order: Vec<SortItem>,
}

impl BpfManager {
    /// Decides whether one more filter program may join its hook, and at
    /// which slots and revision the replacement dispatcher is built.
    /// Nothing is mutated: the plan is applied only after the kernel
    /// accepts the new dispatcher.  A full dispatcher is refused, and a
    /// bytecode object without the announced function symbol is refused.
    pub fn plan_add_multi_attach(&self, program: &Program, bpf_function_name_valid: bool) -> (r:
        Result<MultiAttachPlan, BpfmanError>)
        requires
            self.wf(),
            (*program) is Xdp || (*program) is Tc,
            program.spec_if_index() is Some,
        ensures
            !bpf_function_name_valid <==> (r matches Err(BpfmanError::BpfFunctionNameNotValid(n))
                && n@ == program.spec_data().name@),
            bpf_function_name_valid ==> ((r matches Err(BpfmanError::TooManyPrograms))
                <==> self.dispatchers.spec_attached_programs(spec_dispatcher_id(program)->0)
                >= MAX_DISPATCHER_ACTIONS),
            bpf_function_name_valid && self.dispatchers.spec_attached_programs(
                spec_dispatcher_id(program)->0,
            ) < MAX_DISPATCHER_ACTIONS ==> r is Ok,
            r matches Ok(plan) ==> {
                &&& plan.did == spec_dispatcher_id(program)->0
                &&& plan.next_revision == (match self.dispatchers.spec_get(plan.did) {
                    Some(d) => spec_next_revision(d.revision),
                    None => 1,
                })
                &&& (forall|k1: int, k2: int|
                    0 <= k1 < k2 < plan.order@.len() ==> crate::progmap::item_le(
                        #[trigger] plan.order@[k1],
                        #[trigger] plan.order@[k2],
                    ))
                &&& crate::progmap::distinct_targets(plan.order@)
                &&& (exists|k: int|
                    0 <= k < plan.order@.len() && (#[trigger] plan.order@[k]).target is New)
                &&& (forall|k: int|
                    0 <= k < plan.order@.len() && (#[trigger] plan.order@[k]).target is New
                        ==> Some(plan.order@[k].priority) == program.spec_priority()
                        && plan.order@[k].attached == program.spec_attached()
                        && plan.order@[k].name@ == program.spec_data().name@)
                &&& (forall|k: int|
                    0 <= k < plan.order@.len() && (#[trigger] plan.order@[k]).target is Existing
                        ==> crate::progmap::item_names_program(
                        &self.programs,
                        plan.order@[k],
                        program.spec_kind(),
                        program.spec_if_index()->0,
                        program.spec_direction(),
                    ))
                &&& (forall|id: u32|
                    #[trigger] self.programs.spec_get(id) matches Some(p) && is_filter_at(
                        &p,
                        program.spec_kind(),
                        program.spec_if_index()->0,
                        program.spec_direction(),
                    ) ==> exists|k: int|
                        0 <= k < plan.order@.len() && (#[trigger] plan.order@[k]).target
                            == crate::progmap::SlotTarget::Existing(id))
                &&& crate::progmap::order_applicable(&self.programs, plan.order@)
            },
    {
        if !bpf_function_name_valid {
            return Err(BpfmanError::BpfFunctionNameNotValid(program.get_data().name.clone()));
        }
        let did = match dispatcher_id_of(program) {
            Some(d) => d,
            None => {
                proof {
                    assert(false);
                }
                return Err(BpfmanError::DispatcherNotRequired);
            },
        };
        let next_available_id = self.dispatchers.attached_programs(&did);
        if next_available_id >= MAX_DISPATCHER_ACTIONS {
            return Err(BpfmanError::TooManyPrograms);
        }
        let order = self.programs.plan_add_positions(program);
        let next_revision = match self.dispatchers.get(&did) {
            Some(d) => d.next_revision(),
            None => 1,
        };
        Ok(MultiAttachPlan { did, next_revision, order })
    }

    /// Replays one program's shared-map membership while rebuilding after
    /// a restart.  The first program seen for a directory opens its row;
    /// later ones join it, and every already-rebuilt member learns the
    /// grown list.
    pub fn rebuild_map_entry(&mut self, id: u32, program: &mut Program)
        requires
            old(self).wf(),
            ({
                let index = match old(program).spec_data().map_owner_id {
                    Some(m) => m,
                    None => id,
                };
                old(self).spec_map_used_by(index) is Some ==> !old(self).spec_map_used_by(
                    index,
                )->0.contains(id)
            }),
        ensures
            final(self).wf(),
            final(self).dispatchers == old(self).dispatchers,
            ({
                let index = match old(program).spec_data().map_owner_id {
                    Some(m) => m,
                    None => id,
                };
                &&& ({
                    let u0 = old(self).spec_map_used_by(index);
                    let u1 = final(self).spec_map_used_by(index);
                    let m1 = final(program).spec_data().maps_used_by@;
                    u0 is Some ==> (u1 == Some(u0->0.push(id)) && m1 == u0->0.push(id)
                        && programs_carry_list(
                        &old(self).programs,
                        &final(self).programs,
                        u0->0.push(id),
                    ))
                })
                &&& (old(self).spec_map_used_by(index) is None ==> (final(self).spec_map_used_by(
                    index,
                ) == Some(seq![id]) && final(program).spec_data().maps_used_by@ == seq![id]
                    && final(self).programs == old(self).programs))
                &&& (forall|o: u32|
                    o != index ==> #[trigger] final(self).spec_map_used_by(o) == old(
                        self,
                    ).spec_map_used_by(o))
            }),
            *final(program) == old(program).spec_with_data(
                ProgramData {
                    maps_used_by: final(program).spec_data().maps_used_by,
                    ..*old(program).spec_data()
                },
            ),
    {
        let index = match program.get_data().map_owner_id {
            Some(m) => m,
            None => id,
        };
        proof {
            map_lemma_find_index(self.maps@, index);
        }
        match self.map_idx(index) {
            Some(i) => {
                proof {
                    map_lemma_find_at_index(self.maps@, index, i as int);
                }
                let ghost before = self.maps@;
                let ghost old_u = self.maps@[i as int].used_by@;
                let e = &mut self.maps[i];
                e.used_by.push(id);
                proof {
                    assert(self.maps@[i as int].owner == index);
                    assert(self.maps@[i as int].used_by@ == old_u.push(id));
                    assert forall|idx: int|
                        0 <= idx < self.maps@.len() && idx != i implies self.maps@[idx] == before[
                        idx] by {}
                    assert(distinct_ids(self.maps@[i as int].used_by@)) by {
                        assert(!old_u.contains(id));
                        assert forall|a: int, b: int|
                            0 <= a < b < old_u.push(id).len() implies old_u.push(id)[a]
                            != old_u.push(id)[b] by {
                            if b < old_u.len() {
                                assert(old_u.push(id)[a] == old_u[a]);
                                assert(old_u.push(id)[b] == old_u[b]);
                            } else {
                                assert(old_u.push(id)[b] == id);
                                assert(old_u.push(id)[a] == old_u[a]);
                                assert(old_u.contains(old_u[a]));
                            }
                        }
                    }
                }
                let ub = copy_u32s(&self.maps[i].used_by);
                let ub2 = copy_u32s(&ub);
                program.get_data_mut().set_maps_used_by(ub2);
                self.programs.set_maps_used_by_for(&ub, &ub);
                proof {
                    assert forall|o: u32|
                        o != index implies #[trigger] map_find(self.maps@, o) == map_find(
                        before,
                        o,
                    ) by {
                        map_lemma_frame(before, self.maps@, i as int, o);
                    }
                    map_lemma_find_at_index(self.maps@, index, i as int);
                }
            },
            None => {
                let ghost before = self.maps@;
                let mut ub: Vec<u32> = Vec::new();
                ub.push(id);
                let ub2 = copy_u32s(&ub);
                program.get_data_mut().set_maps_used_by(ub2);
                self.maps.push(MapEntry { owner: index, used_by: ub });
                proof {
                    assert(self.maps@.len() == before.len() + 1);
                    assert(self.maps@[before.len() as int].owner == index);
                    assert forall|idx: int|
                        0 <= idx < before.len() implies self.maps@[idx] == before[idx] by {}
                    map_lemma_push(before, self.maps@[before.len() as int]);
                    assert(self.maps@ =~= before.push(self.maps@[before.len() as int]));
                    assert(self.maps@[before.len() as int].used_by@ =~= seq![id]);
                }
            },
        }
    }
}

} // verus!

verus! {

impl BpfManager {
    /// Applies an accepted plan once the kernel has taken the replacement
    /// dispatcher: stored programs take their planned slots, the newcomer
    /// enters the index attached at its slot under its kernel id, and the
    /// dispatcher index swaps to the replacement, which carries the
    /// planned revision.
    pub fn commit_multi_attach(
        &mut self,
        plan: MultiAttachPlan,
        program: Program,
        id: u32,
        dispatcher: Dispatcher,
    )
        requires
            old(self).wf(),
            program is Xdp || program is Tc,
            plan.did == spec_dispatcher_id(&program)->0,
            spec_dispatcher_id(&program) is Some,
            crate::progmap::distinct_targets(plan.order@),
            crate::progmap::order_applicable(&old(self).programs, plan.order@),
            exists|k: int| 0 <= k < plan.order@.len() && (#[trigger] plan.order@[k]).target is New,
            !old(self).programs.contains_id(id),
            dispatcher.revision == plan.next_revision,
            dispatcher.num_extensions == plan.order@.len(),
        ensures
            final(self).wf(),
            final(self).maps == old(self).maps,
            final(self).dispatchers.spec_get(plan.did) == Some(dispatcher),
            final(self).dispatchers.spec_get(plan.did)->0.revision == plan.next_revision,
            forall|x: crate::dispatcher::DispatcherId|
                x != plan.did ==> #[trigger] final(self).dispatchers.spec_get(x) == old(
                    self,
                ).dispatchers.spec_get(x),
            final(self).programs.spec_get(id) matches Some(p) && p.spec_attached() && (exists|
                k: int,
            |
                0 <= k < plan.order@.len() && (#[trigger] plan.order@[k]).target is New
                    && p.spec_position() == Some(k as usize)) && crate::program::equal_but_position(
                &program.spec_with_data(
                    ProgramData { attached: true, ..*program.spec_data() },
                ),
                &final(self).programs.spec_get(id)->0,
            ),
            forall|k: int|
                0 <= k < plan.order@.len() ==> match (#[trigger] plan.order@[k]).target {
                    crate::progmap::SlotTarget::Existing(eid) => {
                        &&& final(self).programs.spec_get(eid) matches Some(p2)
                        &&& crate::program::equal_but_position(
                            &old(self).programs.spec_get(eid)->0,
                            &final(self).programs.spec_get(eid)->0,
                        )
                        &&& final(self).programs.spec_get(eid)->0.spec_position() == Some(
                            k as usize,
                        )
                    },
                    crate::progmap::SlotTarget::New => true,
                },
            forall|xid: u32|
                xid != id && (forall|k: int|
                    0 <= k < plan.order@.len() ==> (#[trigger] plan.order@[k]).target
                        != crate::progmap::SlotTarget::Existing(xid)) ==> ({
                    let a = #[trigger] final(self).programs.spec_get(xid);
                    let b = old(self).programs.spec_get(xid);
                    a == b
                }),
    {
        let mut program = program;
        let k_new = match crate::progmap::find_new_slot(&plan.order) {
            Some(k) => k,
            None => {
                proof {
                    let w = choose|k: int|
                        0 <= k < plan.order@.len() && (#[trigger] plan.order@[k]).target is New;
                    assert(false);
                }
                0
            },
        };
        program.set_position(k_new);
        program.set_attached();
        proof {
            assert forall|k: int|
                0 <= k < plan.order@.len() implies (#[trigger] plan.order@[k]).target
                != crate::progmap::SlotTarget::Existing(id) by {
                if plan.order@[k].target == crate::progmap::SlotTarget::Existing(id) {
                    assert(old(self).programs.spec_get(id) is Some);
                }
            }
        }
        self.programs.apply_positions(&plan.order);
        self.programs.insert(id, program);
        self.dispatchers.insert(plan.did, dispatcher);
    }
}

} // verus!

verus! {

/// What unloading a filter program asks of the kernel next.
#[derive(Debug)]
pub enum RemoveMultiAction {
    /// The departing program was the last extension: tear the dispatcher
    /// down entirely.
    Teardown,
    /// Extensions remain: build a replacement at this revision, slotted in
    /// this order.
    Rebuild { order: Vec<SortItem>, next_revision: u32 },
}

impl BpfManager {
    /// Starts detaching a filter program whose entry the caller has
    /// already taken out of the program index: the old dispatcher leaves
    /// the dispatcher index, and either it is torn down (it held only the
    /// departing program) or the remaining programs are renumbered for a
    /// replacement at the next revision.
    pub fn begin_remove_multi_attach(&mut self, program: &Program) -> (r: Result<
        RemoveMultiAction,
        BpfmanError,
    >)
        requires
            old(self).wf(),
            spec_dispatcher_id(program) is Some ==> old(self).dispatchers.spec_attached_programs(
                spec_dispatcher_id(program)->0,
            ) >= 1,
        ensures
            final(self).wf(),
            final(self).maps == old(self).maps,
            r is Err <==> spec_dispatcher_id(program) is None,
            r is Err ==> (r matches Err(BpfmanError::DispatcherNotRequired) && *final(self)
                == *old(self)),
            spec_dispatcher_id(program) is Some ==> ({
                let did = spec_dispatcher_id(program)->0;
                &&& final(self).dispatchers.spec_get(did) is None
                &&& (forall|x: DispatcherId|
                    x != did ==> #[trigger] final(self).dispatchers.spec_get(x) == old(
                        self,
                    ).dispatchers.spec_get(x))
                &&& ((r matches Ok(a) && a is Teardown) <==> old(
                    self,
                ).dispatchers.spec_attached_programs(did) == 1)
                &&& (r matches Ok(a) && a is Teardown ==> final(self).programs == old(
                    self,
                ).programs)
                &&& (r matches Ok(a) && a matches RemoveMultiAction::Rebuild {
                    order,
                    next_revision,
                } ==> {
                    &&& next_revision == spec_next_revision(
                        old(self).dispatchers.spec_get(did)->0.revision,
                    )
                    &&& (forall|k1: int, k2: int|
                        0 <= k1 < k2 < order@.len() ==> crate::progmap::item_le(
                            #[trigger] order@[k1],
                            #[trigger] order@[k2],
                        ))
                    &&& crate::progmap::distinct_targets(order@)
                    &&& (forall|k: int|
                        0 <= k < order@.len() ==> ({
                            let tid = crate::progmap::spec_target_id(
                                (#[trigger] order@[k]).target,
                            );
                            &&& final(self).programs.spec_get(tid) matches Some(p2)
                            &&& crate::program::equal_but_position(
                                &old(self).programs.spec_get(tid)->0,
                                &final(self).programs.spec_get(tid)->0,
                            )
                            &&& final(self).programs.spec_get(tid)->0.spec_position() == Some(
                                k as usize,
                            )
                        }))
                    &&& (forall|xid: u32|
                        (forall|k: int|
                            0 <= k < order@.len() ==> (#[trigger] order@[k]).target
                                != crate::progmap::SlotTarget::Existing(xid)) ==> ({
                            let a = #[trigger] final(self).programs.spec_get(xid);
                            let b = old(self).programs.spec_get(xid);
                            a == b
                        }))
                })
            }),
    {
        let did = match dispatcher_id_of(program) {
            Some(d) => d,
            None => {
                return Err(BpfmanError::DispatcherNotRequired);
            },
        };
        let count = self.dispatchers.attached_programs(&did);
        let old_disp = match self.dispatchers.remove(did) {
            Some(d) => d,
            None => {
                proof {
                    assert(false);
                }
                return Err(BpfmanError::DispatcherNotRequired);
            },
        };
        if count == 1 {
            return Ok(RemoveMultiAction::Teardown);
        }
        let if_index = match program.if_index() {
            Some(i) => i,
            None => {
                proof {
                    assert(false);
                }
                0
            },
        };
        let order = self.programs.set_program_positions(
            program.kind(),
            if_index,
            program.direction(),
        );
        let next_revision = old_disp.next_revision();
        proof {
            assert forall|k: int| 0 <= k < order@.len() implies ({
                let tid = crate::progmap::spec_target_id((#[trigger] order@[k]).target);
                &&& self.programs.spec_get(tid) matches Some(p2)
                &&& crate::program::equal_but_position(
                    &old(self).programs.spec_get(tid)->0,
                    &self.programs.spec_get(tid)->0,
                )
                &&& self.programs.spec_get(tid)->0.spec_position() == Some(k as usize)
            }) by {
                assert(crate::progmap::item_names_program(
                    &old(self).programs,
                    order@[k],
                    program.spec_kind(),
                    if_index,
                    program.spec_direction(),
                ));
            }
        }
        Ok(RemoveMultiAction::Rebuild { order, next_revision })
    }

    /// Records the replacement dispatcher the kernel accepted for `did`.
    pub fn commit_rebuilt_dispatcher(&mut self, did: DispatcherId, dispatcher: Dispatcher)
        requires
            old(self).wf(),
        ensures
            final(self).wf(),
            final(self).maps == old(self).maps,
            final(self).programs == old(self).programs,
            final(self).dispatchers.spec_get(did) == Some(dispatcher),
            forall|x: DispatcherId|
                x != did ==> #[trigger] final(self).dispatchers.spec_get(x) == old(
                    self,
                ).dispatchers.spec_get(x),
    {
        self.dispatchers.insert(did, dispatcher);
    }
}

} // verus!

verus! {

/// Filesystem pin of a loaded program.
pub open spec fn spec_prog_pin_path(id: u32) -> Seq<char> {
    "/run/bpfd/fs/prog_"@ + spec_u32_dec(id as nat)
}

/// Filesystem pin of a program's attach link.
pub open spec fn spec_prog_link_pin_path(id: u32) -> Seq<char> {
    spec_prog_pin_path(id) + "_link"@
}

/// Path the program with kernel id `id` is pinned at.
pub fn prog_pin_path(id: u32) -> (r: String)
    ensures
        r@ == spec_prog_pin_path(id),
{
    let mut s = String::from_str("/run/bpfd/fs/prog_");
    crate::strutil::push_dec_u32(&mut s, id);
    s
}

/// Path the attach link of the program with kernel id `id` is pinned at.
pub fn prog_link_pin_path(id: u32) -> (r: String)
    ensures
        r@ == spec_prog_link_pin_path(id),
{
    let mut s = prog_pin_path(id);
    s.append("_link");
    s
}

/// The attachment a single-attach program asks the kernel for.
#[derive(Debug)]
pub enum SingleAttachSpec {
    /// Attach at the tracepoint `category/name`.
    Tracepoint { category: String, name: String },
    /// Attach at a kernel symbol, as a return probe when `retprobe`.
    Kprobe { fn_name: String, offset: u64, retprobe: bool },
    /// Attach in a user binary, optionally inside another container.
    Uprobe {
        fn_name: Option<String>,
        target: String,
        offset: u64,
        retprobe: bool,
        pid: Option<i32>,
        container_pid: Option<i32>,
    },
}

/// Decides how a tracepoint, kprobe or uprobe program attaches.  A
/// kretprobe must not carry an offset; a tracepoint's hook name must be
/// exactly `category/name`.  Nothing of the manager's state is involved:
/// the kernel work happens outside, against the returned attachment.
pub fn plan_single_attach(program: &Program) -> (r: Result<SingleAttachSpec, BpfmanError>)
    requires
        program is Tracepoint || program is Kprobe || program is Uprobe,
    ensures
        program matches Program::Kprobe(k) ==> ((r is Err) <==> (k.retprobe && k.offset != 0)),
        program matches Program::Kprobe(k) ==> (r is Err ==> (r matches Err(
            BpfmanError::Error(m),
        ) && m@ == "offset not allowed for kretprobe"@)),
        program matches Program::Kprobe(k) ==> (r is Ok ==> (r matches Ok(
            SingleAttachSpec::Kprobe { fn_name, offset, retprobe },
        ) && fn_name@ == k.fn_name@ && offset == k.offset && retprobe == k.retprobe)),
        program matches Program::Tracepoint(t) ==> ((r is Ok) <==> (exists|i: int|
            crate::strutil::only_index_of(t.tracepoint@, '/', i))),
        program matches Program::Tracepoint(t) ==> (r is Ok ==> (r matches Ok(
            SingleAttachSpec::Tracepoint { category, name },
        ) && (exists|i: int|
            #[trigger] crate::strutil::only_index_of(t.tracepoint@, '/', i) && category@
                == t.tracepoint@.take(i) && name@ == t.tracepoint@.skip(i + 1)))),
        program matches Program::Tracepoint(t) ==> (r is Err ==> (r matches Err(
            BpfmanError::InvalidAttach(d),
        ) && d@ == t.tracepoint@)),
        program matches Program::Uprobe(u) ==> (r matches Ok(
            SingleAttachSpec::Uprobe { fn_name, target, offset, retprobe, pid, container_pid },
        ) && crate::image::opt_string_view(&fn_name) == crate::image::opt_string_view(&u.fn_name)
            && target@ == u.target@ && offset == u.offset && retprobe == u.retprobe && pid == u.pid
            && container_pid == u.container_pid),
{
    match program {
        Program::Tracepoint(t) => {
            match crate::strutil::split_once_unique(t.tracepoint.as_str(), '/') {
                Some((category, name)) => Ok(SingleAttachSpec::Tracepoint { category, name }),
                None => Err(BpfmanError::InvalidAttach(t.tracepoint.clone())),
            }
        },
        Program::Kprobe(k) => {
            if k.retprobe && k.offset != 0 {
                Err(BpfmanError::Error(String::from_str("offset not allowed for kretprobe")))
            } else {
                Ok(
                    SingleAttachSpec::Kprobe {
                        fn_name: k.fn_name.clone(),
                        offset: k.offset,
                        retprobe: k.retprobe,
                    },
                )
            }
        },
        Program::Uprobe(u) => Ok(
            SingleAttachSpec::Uprobe {
                fn_name: crate::image::clone_opt_string(&u.fn_name),
                target: u.target.clone(),
                offset: u.offset,
                retprobe: u.retprobe,
                pid: u.pid,
                container_pid: u.container_pid,
            },
        ),
        _ => {
            proof {
                assert(false);
            }
            Err(BpfmanError::DispatcherNotRequired)
        },
    }
}

} // verus!

verus! {

/// Argument list handed to the helper binary that enters another mount
/// namespace to attach a uprobe there.
pub open spec fn spec_container_args(
    fn_name: Option<Seq<char>>,
    target: Seq<char>,
    offset: u64,
    retprobe: bool,
    pid: Option<i32>,
    container_pid: i32,
    pin_path: Seq<char>,
) -> Seq<Seq<char>> {
    seq![
        "uprobe"@,
        "--program-pin-path"@,
        pin_path,
        "--offset"@,
        spec_u32_dec(offset as nat),
        "--target"@,
        target,
        "--container-pid"@,
        crate::strutil::spec_i32_dec(container_pid as int),
    ] + (match fn_name {
        Some(n) => seq!["--fn-name"@, n],
        None => Seq::<Seq<char>>::empty(),
    }) + (if retprobe {
        seq!["--retprobe"@]
    } else {
        Seq::<Seq<char>>::empty()
    }) + (match pid {
        Some(x) => seq!["--pid"@, crate::strutil::spec_i32_dec(x as int)],
        None => Seq::<Seq<char>>::empty(),
    })
}

/// Builds the helper binary's argument list for a uprobe attached inside
/// another container, exactly in the order the helper expects.
pub fn container_attach_args(
    fn_name: &Option<String>,
    target: &String,
    offset: u64,
    retprobe: bool,
    pid: &Option<i32>,
    container_pid: i32,
    pin_path: &String,
) -> (r: Vec<String>)
    ensures
        r.deep_view() == spec_container_args(
            crate::image::opt_string_view(fn_name),
            target@,
            offset,
            retprobe,
            *pid,
            container_pid,
            pin_path@,
        ),
{
    let ghost base = seq![
        "uprobe"@,
        "--program-pin-path"@,
        pin_path@,
        "--offset"@,
        spec_u32_dec(offset as nat),
        "--target"@,
        target@,
        "--container-pid"@,
        crate::strutil::spec_i32_dec(container_pid as int),
    ];
    let mut r: Vec<String> = Vec::new();
    r.push(String::from_str("uprobe"));
    r.push(String::from_str("--program-pin-path"));
    r.push(pin_path.clone());
    r.push(String::from_str("--offset"));
    r.push(crate::strutil::u64_to_string(offset));
    r.push(String::from_str("--target"));
    r.push(target.clone());
    r.push(String::from_str("--container-pid"));
    r.push(crate::strutil::i32_to_string(container_pid));
    proof {
        assert(r.deep_view() =~= base);
    }
    let ghost with_fn = base + (match crate::image::opt_string_view(fn_name) {
        Some(n) => seq!["--fn-name"@, n],
        None => Seq::<Seq<char>>::empty(),
    });
    match fn_name {
        Some(n) => {
            r.push(String::from_str("--fn-name"));
            r.push(n.clone());
        },
        None => (),
    }
    proof {
        assert(r.deep_view() =~= with_fn);
    }
    let ghost with_rp = with_fn + (if retprobe {
        seq!["--retprobe"@]
    } else {
        Seq::<Seq<char>>::empty()
    });
    if retprobe {
        r.push(String::from_str("--retprobe"));
    }
    proof {
        assert(r.deep_view() =~= with_rp);
    }
    match pid {
        Some(x) => {
            r.push(String::from_str("--pid"));
            r.push(crate::strutil::i32_to_string(*x));
        },
        None => (),
    }
    proof {
        assert(r.deep_view() =~= with_rp + (match *pid {
            Some(x) => seq!["--pid"@, crate::strutil::spec_i32_dec(x as int)],
            None => Seq::<Seq<char>>::empty(),
        }));
    }
    r
}

/// Parses a dispatcher pin entry named `<if_index>_<revision>`: exactly
/// one underscore, a 32-bit interface index before it and a 32-bit
/// revision after it.
pub fn parse_dispatcher_entry(name: &str) -> (r: Option<(u32, u32)>)
    ensures
        r matches Some(p) ==> (exists|i: int|
            #[trigger] crate::strutil::only_index_of(name@, '_', i)
                && crate::strutil::spec_parse_u32(name@.take(i)) == Some(p.0)
                && crate::strutil::spec_parse_u32(name@.skip(i + 1)) == Some(p.1)),
        r is None ==> !(exists|i: int|
            #[trigger] crate::strutil::only_index_of(name@, '_', i)
                && crate::strutil::spec_parse_u32(name@.take(i)) is Some
                && crate::strutil::spec_parse_u32(name@.skip(i + 1)) is Some),
{
    let (a, b) = match crate::strutil::split_once_unique(name, '_') {
        Some(p) => p,
        None => {
            return None;
        },
    };
    let ghost i0 = choose|i: int|
        #[trigger] crate::strutil::only_index_of(name@, '_', i) && a@ == name@.take(i) && b@
            == name@.skip(i + 1);
    let if_index = match crate::strutil::try_parse_u32(a.as_str()) {
        Some(v) => v,
        None => {
            proof {
                assert forall|i: int|
                    !(#[trigger] crate::strutil::only_index_of(name@, '_', i)
                        && crate::strutil::spec_parse_u32(name@.take(i)) is Some
                        && crate::strutil::spec_parse_u32(name@.skip(i + 1)) is Some) by {
                    if crate::strutil::only_index_of(name@, '_', i) {
                        assert(name@[i0] == '_');
                        assert(i == i0);
                    }
                }
            }
            return None;
        },
    };
    let revision = match crate::strutil::try_parse_u32(b.as_str()) {
        Some(v) => v,
        None => {
            proof {
                assert forall|i: int|
                    !(#[trigger] crate::strutil::only_index_of(name@, '_', i)
                        && crate::strutil::spec_parse_u32(name@.take(i)) is Some
                        && crate::strutil::spec_parse_u32(name@.skip(i + 1)) is Some) by {
                    if crate::strutil::only_index_of(name@, '_', i) {
                        assert(name@[i0] == '_');
                        assert(i == i0);
                    }
                }
            }
            return None;
        },
    };
    Some((if_index, revision))
}

} // verus!

verus! {

impl BpfManager {
    /// Runs one whole filter-program load over the manager's state, taking
    /// the two outside outcomes as they happened: the bytecode fetch, and
    /// the kernel's verdict on the replacement dispatcher built from the
    /// plan (the new program's kernel id on success).  Every refusal —
    /// unknown map owner, failed fetch, bad function symbol, full
    /// dispatcher, failed build — leaves the state exactly as it was; on
    /// success the program is attached in the index and the hook's
    /// dispatcher carries the next revision.
    #[verifier::rlimit(60)]
    pub fn add_filter_program(
        &mut self,
        program: Program,
        bytes_fetched: Result<Vec<u8>, BpfmanError>,
        bpf_function_name_valid: bool,
        build_outcome: Result<u32, BpfmanError>,
    ) -> (r: Result<u32, BpfmanError>)
        requires
            old(self).wf(),
            program is Xdp || program is Tc,
            program.spec_if_index() is Some,
            program.spec_if_name() is Some,
            build_outcome matches Ok(id) ==> !old(self).programs.contains_id(id) && (match program.spec_data().map_owner_id {
                Some(m) => (old(self).spec_map_used_by(m) matches Some(u) ==> !u.contains(id)),
                None => old(self).spec_map_used_by(id) is None,
            }),
        ensures
            final(self).wf(),
            r is Err ==> *final(self) == *old(self),
            ({
                let owner_missing = program.spec_data().map_owner_id matches Some(m) && old(
                    self,
                ).spec_map_used_by(m) is None;
                &&& (owner_missing ==> r matches Err(BpfmanError::Error(_)))
                &&& (!owner_missing && bytes_fetched is Err ==> r == Err::<u32, BpfmanError>(
                    bytes_fetched->Err_0,
                ))
                &&& (!owner_missing && bytes_fetched is Ok && !bpf_function_name_valid ==> r matches Err(BpfmanError::BpfFunctionNameNotValid(_)))
                &&& (!owner_missing && bytes_fetched is Ok && bpf_function_name_valid
                    && build_outcome is Ok ==> ((r matches Err(BpfmanError::TooManyPrograms))
                    <==> old(self).dispatchers.spec_attached_programs(
                    spec_dispatcher_id(&program)->0,
                ) >= MAX_DISPATCHER_ACTIONS))
                &&& (!owner_missing && bytes_fetched is Ok && bpf_function_name_valid && old(
                    self,
                ).dispatchers.spec_attached_programs(spec_dispatcher_id(&program)->0)
                    < MAX_DISPATCHER_ACTIONS ==> (match build_outcome {
                    Ok(id) => r == Ok::<u32, BpfmanError>(id),
                    Err(e) => r == Err::<u32, BpfmanError>(e),
                }))
            }),
            r matches Ok(id) ==> ({
                let did = spec_dispatcher_id(&program)->0;
                &&& (final(self).programs.spec_get(id) matches Some(p) && p.spec_attached())
                &&& (final(self).dispatchers.spec_get(did) matches Some(d) && d.revision == (
                match old(self).dispatchers.spec_get(did) {
                    Some(od) => spec_next_revision(od.revision),
                    None => 1,
                }))
            }),
    {
        let mut program = program;
        let map_owner_id = match program.get_data().map_owner_id {
            Some(m) => Some(m),
            None => None,
        };
        match map_owner_id {
            Some(m) => {
                match self.is_map_owner_id_valid(m) {
                    Ok(path) => {
                        let d = program.get_data_mut();
                        d.set_map_pin_path(path);
                    },
                    Err(e) => {
                        return Err(e);
                    },
                }
            },
            None => (),
        }
        let _bytes = match bytes_fetched {
            Ok(b) => b,
            Err(e) => {
                return Err(e);
            },
        };
        let plan = match self.plan_add_multi_attach(&program, bpf_function_name_valid) {
            Ok(p) => p,
            Err(e) => {
                return Err(e);
            },
        };
        let id = match build_outcome {
            Ok(i) => i,
            Err(e) => {
                return Err(e);
            },
        };
        let if_index = match program.if_index() {
            Some(i) => i,
            None => {
                proof {
                    assert(false);
                }
                0
            },
        };
        let if_name = match program.if_name() {
            Some(n) => n.clone(),
            None => {
                proof {
                    assert(false);
                }
                String::new()
            },
        };
        let dispatcher = Dispatcher {
            kind: program.kind(),
            if_index,
            if_name,
            direction: program.direction(),
            revision: plan.next_revision,
            num_extensions: plan.order.len(),
        };
        let ghost pre_save = *self;
        let res = self.save_map(&mut program, id, map_owner_id);
        proof {
            assert(res is Ok);
        }
        proof {
            assert(!self.programs.contains_id(id)) by {
                match map_owner_id {
                    Some(m) => {
                        let list = pre_save.spec_map_used_by(m)->0.push(id);
                        assert(list.contains(id)) by {
                            assert(list[list.len() - 1] == id);
                        }
                    },
                    None => (),
                }
            }
            assert(crate::progmap::order_applicable(&self.programs, plan.order@)) by {
                assert forall|k: int|
                    0 <= k < plan.order@.len() implies match (#[trigger] plan.order@[k]).target {
                    crate::progmap::SlotTarget::Existing(eid) => self.programs.spec_get(eid)
                        matches Some(p) && (p is Xdp || p is Tc),
                    crate::progmap::SlotTarget::New => true,
                } by {
                    match plan.order@[k].target {
                        crate::progmap::SlotTarget::Existing(eid) => {
                            match map_owner_id {
                                Some(m) => {
                                    let list = pre_save.spec_map_used_by(m)->0.push(id);
                                    if list.contains(eid) {
                                        assert(pre_save.programs.spec_get(eid) is Some);
                                    }
                                },
                                None => (),
                            }
                        },
                        crate::progmap::SlotTarget::New => (),
                    }
                }
            }
        }
        self.commit_multi_attach(plan, program, id, dispatcher);
        Ok(id)
    }
}

} // verus!

verus! {

/// What rebuilding one hook after a restart asks of the kernel next.
#[derive(Debug)]
pub enum RebuildMultiAction {
    /// No dispatcher was recorded for the hook; nothing to do.
    NoDispatcher,
    /// The hook has a dispatcher but no programs: tear it down.
    Teardown,
    /// Build a replacement at this revision, slotted in this order.
    Rebuild { order: Vec<SortItem>, next_revision: u32 },
}

impl BpfManager {
    /// Re-establishes one hook's dispatcher after a restart: any recorded
    /// dispatcher leaves the index, and the hook is then torn down (it has
    /// no programs), refused (it is over-full), or renumbered by
    /// [`ProgramMap::set_program_positions`] for a replacement at the next
    /// revision.
    pub fn begin_rebuild_multiattach(
        &mut self,
        did: DispatcherId,
        program_type: ProgramType,
        if_index: u32,
        direction: Option<Direction>,
    ) -> (r: Result<RebuildMultiAction, BpfmanError>)
        requires
            old(self).wf(),
            program_type == ProgramType::Xdp || program_type == ProgramType::Tc,
        ensures
            final(self).wf(),
            final(self).maps == old(self).maps,
            final(self).dispatchers.spec_get(did) is None,
            forall|x: DispatcherId|
                x != did ==> #[trigger] final(self).dispatchers.spec_get(x) == old(
                    self,
                ).dispatchers.spec_get(x),
            r matches Ok(a) ==> ((a is NoDispatcher) <==> old(self).dispatchers.spec_get(did)
                is None),
            r is Err ==> r matches Err(BpfmanError::TooManyPrograms),
            r matches Ok(a) ==> (a is Teardown ==> final(self).programs == old(self).programs
                && !(exists|id: u32|
                #[trigger] old(self).programs.spec_get(id) matches Some(p) && is_filter_at(
                    &p,
                    program_type,
                    if_index,
                    direction,
                ))),
            r matches Ok(a) ==> (a matches RebuildMultiAction::Rebuild { order, next_revision }
                ==> {
                &&& next_revision == spec_next_revision(
                    old(self).dispatchers.spec_get(did)->0.revision,
                )
                &&& order@.len() <= MAX_DISPATCHER_ACTIONS
                &&& (forall|k1: int, k2: int|
                    0 <= k1 < k2 < order@.len() ==> crate::progmap::item_le(
                        #[trigger] order@[k1],
                        #[trigger] order@[k2],
                    ))
                &&& crate::progmap::distinct_targets(order@)
                &&& (forall|k: int|
                    0 <= k < order@.len() ==> ({
                        let tid = crate::progmap::spec_target_id((#[trigger] order@[k]).target);
                        &&& final(self).programs.spec_get(tid) matches Some(p2)
                        &&& crate::program::equal_but_position(
                            &old(self).programs.spec_get(tid)->0,
                            &final(self).programs.spec_get(tid)->0,
                        )
                        &&& final(self).programs.spec_get(tid)->0.spec_position() == Some(
                            k as usize,
                        )
                    }))
            }),
    {
        let old_disp = match self.dispatchers.remove(did) {
            Some(d) => d,
            None => {
                return Ok(RebuildMultiAction::NoDispatcher);
            },
        };
        if !self.programs.any_filter_at(program_type, if_index, direction) {
            return Ok(RebuildMultiAction::Teardown);
        }
        let order = self.programs.set_program_positions(program_type, if_index, direction);
        if order.len() > MAX_DISPATCHER_ACTIONS {
            return Err(BpfmanError::TooManyPrograms);
        }
        let next_revision = old_disp.next_revision();
        proof {
            assert forall|k: int| 0 <= k < order@.len() implies ({
                let tid = crate::progmap::spec_target_id((#[trigger] order@[k]).target);
                &&& self.programs.spec_get(tid) matches Some(p2)
                &&& crate::program::equal_but_position(
                    &old(self).programs.spec_get(tid)->0,
                    &self.programs.spec_get(tid)->0,
                )
                &&& self.programs.spec_get(tid)->0.spec_position() == Some(k as usize)
            }) by {
                assert(crate::progmap::item_names_program(
                    &old(self).programs,
                    order@[k],
                    program_type,
                    if_index,
                    direction,
                ));
            }
        }
        Ok(RebuildMultiAction::Rebuild { order, next_revision })
    }
}

} // verus!
