//! In-memory index of loaded programs by kernel id, and the deterministic
//! slot ordering for filter programs that share one dispatcher.

use vstd::prelude::*;
use vstd::string::*;
use vstd::multiset::Multiset;
use crate::program::Program;
use crate::program::ProgramData;
use crate::program::equal_but_position;
use crate::program::is_filter_at;
use crate::types::Direction;
use crate::types::ProgramType;

verus! {

/// One program held under its kernel id.
#[derive(Debug)]
pub struct ProgEntry {
    pub id: u32,
    pub prog: Program,
}

/// Index of loaded programs by kernel id.
#[derive(Debug)]
pub struct ProgramMap {
    pub entries: Vec<ProgEntry>,
}

/// First value held under `id`, scanning left to right.
pub open spec fn spec_find(s: Seq<ProgEntry>, id: u32) -> Option<Program>
    decreases s.len(),
{
    if s.len() == 0 {
        None
    } else if s[0].id == id {
        Some(s[0].prog)
    } else {
        spec_find(s.drop_first(), id)
    }
}

impl ProgramMap {
    /// Keys are unique, so each id names at most one program.
    pub open spec fn wf(&self) -> bool {
        forall|i: int, j: int|
            0 <= i < j < self.entries@.len() ==> (#[trigger] self.entries@[i]).id != (
            #[trigger] self.entries@[j]).id
    }

    /// Program held under `id`.
    pub open spec fn spec_get(&self, id: u32) -> Option<Program> {
        spec_find(self.entries@, id)
    }

    /// Whether some program is held under `id`.
    pub open spec fn contains_id(&self, id: u32) -> bool {
        self.spec_get(id) is Some
    }

    pub fn new() -> (r: Self)
        ensures
            r.wf(),
            r.entries@.len() == 0,
    {
        ProgramMap { entries: Vec::new() }
    }

    /// Index of the entry keyed `id`, if one exists.
    fn find_idx(&self, id: u32) -> (r: Option<usize>)
        ensures
            r matches Some(i) ==> i < self.entries@.len() && self.entries@[i as int].id == id,
            r is None ==> forall|i: int|
                0 <= i < self.entries@.len() ==> (#[trigger] self.entries@[i]).id != id,
    {
        let n = self.entries.len();
        let mut i: usize = 0;
        while i < n
            invariant
                0 <= i <= n,
                n == self.entries@.len(),
                forall|k: int| 0 <= k < i ==> (#[trigger] self.entries@[k]).id != id,
            decreases n - i,
        {
            if self.entries[i].id == id {
                return Some(i);
            }
            i = i + 1;
        }
        None
    }

    /// Stores `prog` under `id`, handing back what was there.
    pub fn insert(&mut self, id: u32, prog: Program) -> (r: Option<Program>)
        requires
            old(self).wf(),
        ensures
            final(self).wf(),
            final(self).spec_get(id) == Some(prog),
            forall|x: u32| x != id ==> #[trigger] final(self).spec_get(x) == old(self).spec_get(x),
            r == old(self).spec_get(id),
    {
        proof {
            lemma_find_index(self.entries@, id);
        }
        match self.find_idx(id) {
            Some(i) => {
                let old_entry = self.entries.remove(i);
                self.entries.insert(i, ProgEntry { id, prog });
                proof {
                    lemma_find_at_index(old(self).entries@, id, i as int);
                    assert forall|x: u32|
                        spec_find(self.entries@, x) == (if x == id {
                            Some(prog)
                        } else {
                            spec_find(old(self).entries@, x)
                        }) by {
                        lemma_find_update(old(self).entries@, self.entries@, i as int, x);
                    }
                }
                Some(old_entry.prog)
            },
            None => {
                self.entries.push(ProgEntry { id, prog });
                proof {
                    assert forall|x: u32|
                        spec_find(self.entries@, x) == (if x == id {
                            Some(prog)
                        } else {
                            spec_find(old(self).entries@, x)
                        }) by {
                        lemma_find_push(old(self).entries@, ProgEntry { id, prog }, x);
                    }
                }
                None
            },
        }
    }

    /// Takes the program under `id` out of the index.
    pub fn remove(&mut self, id: u32) -> (r: Option<Program>)
        requires
            old(self).wf(),
        ensures
            final(self).wf(),
            final(self).spec_get(id) is None,
            forall|x: u32| x != id ==> #[trigger] final(self).spec_get(x) == old(self).spec_get(x),
            r == old(self).spec_get(id),
    {
        proof {
            lemma_find_index(self.entries@, id);
        }
        match self.find_idx(id) {
            Some(i) => {
                let e = self.entries.remove(i);
                proof {
                    lemma_find_at_index(old(self).entries@, id, i as int);
                    assert forall|x: u32|
                        spec_find(self.entries@, x) == (if x == id {
                            None::<Program>
                        } else {
                            spec_find(old(self).entries@, x)
                        }) by {
                        lemma_find_remove(old(self).entries@, i as int, x);
                    }
                }
                Some(e.prog)
            },
            None => {
                proof {
                    lemma_find_index(self.entries@, id);
                }
                None
            },
        }
    }

    /// Program held under `id`.
    pub fn get(&self, id: u32) -> (r: Option<&Program>)
        requires
            self.wf(),
        ensures
            r matches Some(p) ==> self.spec_get(id) == Some(*p),
            r is None ==> self.spec_get(id) is None,
    {
        proof {
            lemma_find_index(self.entries@, id);
        }
        match self.find_idx(id) {
            Some(i) => {
                proof {
                    lemma_find_at_index(self.entries@, id, i as int);
                }
                Some(&self.entries[i].prog)
            },
            None => None,
        }
    }
}

/// If no index holds `id`, the scan finds nothing; if some index holds it,
/// the scan finds something.
proof fn lemma_find_index(s: Seq<ProgEntry>, id: u32)
    ensures
        (forall|i: int| 0 <= i < s.len() ==> (#[trigger] s[i]).id != id) ==> spec_find(s, id)
            is None,
        (exists|i: int| 0 <= i < s.len() && (#[trigger] s[i]).id == id) ==> spec_find(s, id)
            is Some,
    decreases s.len(),
{
    if s.len() > 0 {
        if s[0].id == id {
        } else {
            lemma_find_index(s.drop_first(), id);
            if exists|i: int| 0 <= i < s.len() && (#[trigger] s[i]).id == id {
                let w = choose|i: int| 0 <= i < s.len() && (#[trigger] s[i]).id == id;
                assert(s.drop_first()[w - 1] == s[w]);
            }
        }
    }
}

/// With unique keys, the scan finds the value stored at any index that
/// holds `id`.
proof fn lemma_find_at_index(s: Seq<ProgEntry>, id: u32, i: int)
    requires
        0 <= i < s.len(),
        s[i].id == id,
        forall|a: int, b: int|
            0 <= a < b < s.len() ==> (#[trigger] s[a]).id != (#[trigger] s[b]).id,
    ensures
        spec_find(s, id) == Some(s[i].prog),
    decreases s.len(),
{
    if s[0].id == id {
        assert(i == 0);
    } else {
        assert(i >= 1);
        assert(s.drop_first()[i - 1] == s[i]);
        assert forall|a: int, b: int|
            0 <= a < b < s.drop_first().len() implies (#[trigger] s.drop_first()[a]).id != (
        #[trigger] s.drop_first()[b]).id by {
            assert(s.drop_first()[a] == s[a + 1]);
            assert(s.drop_first()[b] == s[b + 1]);
        }
        lemma_find_at_index(s.drop_first(), id, i - 1);
    }
}

/// Effect of replacing the entry at `i` on every lookup, when the keys
/// before and after agree except at `i` and keys are unique.
proof fn lemma_find_update(s: Seq<ProgEntry>, t: Seq<ProgEntry>, i: int, x: u32)
    requires
        0 <= i < s.len(),
        t.len() == s.len(),
        t[i].id == s[i].id,
        forall|k: int| 0 <= k < s.len() && k != i ==> t[k] == s[k],
        forall|a: int, b: int|
            0 <= a < b < s.len() ==> (#[trigger] s[a]).id != (#[trigger] s[b]).id,
    ensures
        spec_find(t, x) == if x == s[i].id {
            Some(t[i].prog)
        } else {
            spec_find(s, x)
        },
    decreases s.len(),
{
    if s.len() > 0 {
        if i == 0 {
            if x == s[0].id {
            } else {
                assert(t.drop_first() =~= s.drop_first());
            }
        } else {
            if x == s[0].id {
                assert(t[0] == s[0]);
            } else {
                assert(t[0] == s[0]);
                assert(t.drop_first()[i - 1].id == s.drop_first()[i - 1].id);
                assert forall|k: int|
                    0 <= k < s.drop_first().len() && k != i - 1 implies s.drop_first()[k]
                    == t.drop_first()[k] by {
                    assert(s.drop_first()[k] == s[k + 1]);
                    assert(t.drop_first()[k] == t[k + 1]);
                }
                assert forall|a: int, b: int|
                    0 <= a < b < s.drop_first().len() implies (#[trigger] s.drop_first()[a]).id
                    != (#[trigger] s.drop_first()[b]).id by {
                    assert(s.drop_first()[a] == s[a + 1]);
                    assert(s.drop_first()[b] == s[b + 1]);
                }
                lemma_find_update(s.drop_first(), t.drop_first(), i - 1, x);
                assert(s.drop_first()[i - 1] == s[i]);
            }
        }
    }
}

/// Effect of appending an entry on every lookup.
proof fn lemma_find_push(s: Seq<ProgEntry>, e: ProgEntry, x: u32)
    requires
        forall|i: int| 0 <= i < s.len() ==> (#[trigger] s[i]).id != e.id,
    ensures
        spec_find(s.push(e), x) == if x == e.id {
            Some(e.prog)
        } else {
            spec_find(s, x)
        },
    decreases s.len(),
{
    let t = s.push(e);
    assert(t.len() == s.len() + 1);
    if s.len() == 0 {
        assert(t[0] == e);
        if x == e.id {
            assert(spec_find(t, x) == Some(e.prog));
        } else {
            assert(t.drop_first() =~= Seq::<ProgEntry>::empty());
            assert(spec_find(t, x) == spec_find(t.drop_first(), x));
            assert(spec_find(t.drop_first(), x) is None);
            assert(spec_find(s, x) is None);
        }
    } else {
        assert(t[0] == s[0]);
        assert(t.drop_first() =~= s.drop_first().push(e));
        if x == s[0].id {
            assert(s[0].id != e.id);
            assert(spec_find(t, x) == Some(t[0].prog));
            assert(spec_find(s, x) == Some(s[0].prog));
        } else {
            assert forall|i: int|
                0 <= i < s.drop_first().len() implies (#[trigger] s.drop_first()[i]).id != e.id by {
                assert(s.drop_first()[i] == s[i + 1]);
            }
            lemma_find_push(s.drop_first(), e, x);
        }
    }
}

/// Effect of removing the entry at `i` on every lookup, when keys are
/// unique.
proof fn lemma_find_remove(s: Seq<ProgEntry>, i: int, x: u32)
    requires
        0 <= i < s.len(),
        forall|a: int, b: int|
            0 <= a < b < s.len() ==> (#[trigger] s[a]).id != (#[trigger] s[b]).id,
    ensures
        spec_find(s.remove(i), x) == if x == s[i].id {
            None
        } else {
            spec_find(s, x)
        },
    decreases s.len(),
{
    let t = s.remove(i);
    if i == 0 {
        assert(t =~= s.drop_first());
        if x == s[0].id {
            lemma_find_index_none(s.drop_first(), x, s[0].id);
        }
    } else {
        assert(t[0] == s[0]);
        if x == s[0].id {
        } else {
            assert(t.drop_first() =~= s.drop_first().remove(i - 1));
            assert forall|a: int, b: int|
                0 <= a < b < s.drop_first().len() implies (#[trigger] s.drop_first()[a]).id != (
            #[trigger] s.drop_first()[b]).id by {
                assert(s.drop_first()[a] == s[a + 1]);
                assert(s.drop_first()[b] == s[b + 1]);
            }
            assert(s.drop_first()[i - 1] == s[i]);
            lemma_find_remove(s.drop_first(), i - 1, x);
        }
    }
}

/// A scan over entries none of which hold `id` finds nothing; stated with
/// the offending key named, for use after a removal.
proof fn lemma_find_index_none(s: Seq<ProgEntry>, x: u32, banned: u32)
    requires
        x == banned,
        forall|i: int| 0 <= i < s.len() ==> (#[trigger] s[i]).id != banned,
    ensures
        spec_find(s, x) is None,
    decreases s.len(),
{
    if s.len() > 0 {
        assert(s.drop_first() =~= s.drop_first());
        assert forall|i: int|
            0 <= i < s.drop_first().len() implies (#[trigger] s.drop_first()[i]).id != banned by {
            assert(s.drop_first()[i] == s[i + 1]);
        }
        lemma_find_index_none(s.drop_first(), x, banned);
    }
}

} // verus!

verus! {

/// Whom a dispatcher slot is for: a program already in the index, or the
/// one being loaded now.
#[derive(Clone, Copy, PartialEq, Eq, Structural, Debug)]
pub enum SlotTarget {
    Existing(u32),
    New,
}

/// Sort key of one filter program competing for a dispatcher slot.
#[derive(Debug)]
pub struct SortItem {
    pub target: SlotTarget,
    pub priority: i32,
    pub attached: bool,
    pub name: String,
}

/// The slot ordering: priority ascending, already-attached programs first,
/// then name ascending.
pub open spec fn item_le(a: SortItem, b: SortItem) -> bool {
    ||| a.priority < b.priority
    ||| (a.priority == b.priority && ((a.attached && !b.attached) || (a.attached == b.attached
        && crate::strutil::lex_le(a.name@, b.name@))))
}

/// Decides the slot ordering between two keys.
pub fn item_le_exec(a: &SortItem, b: &SortItem) -> (r: bool)
    ensures
        r == item_le(*a, *b),
{
    if a.priority < b.priority {
        true
    } else if a.priority > b.priority {
        false
    } else if a.attached && !b.attached {
        true
    } else if a.attached != b.attached {
        false
    } else {
        crate::strutil::str_le(a.name.as_str(), b.name.as_str())
    }
}

/// The slot ordering relates every pair.
pub proof fn lemma_item_le_total(a: SortItem, b: SortItem)
    ensures
        item_le(a, b) || item_le(b, a),
{
    crate::strutil::lemma_lex_le_total(a.name@, b.name@);
}

/// The slot ordering is transitive.
pub proof fn lemma_item_le_trans(a: SortItem, b: SortItem, c: SortItem)
    requires
        item_le(a, b),
        item_le(b, c),
    ensures
        item_le(a, c),
{
    if a.priority == b.priority && b.priority == c.priority && a.attached == b.attached
        && b.attached == c.attached {
        crate::strutil::lemma_lex_le_trans(a.name@, b.name@, c.name@);
    }
}

/// Whether two key lists name pairwise different targets.
pub open spec fn distinct_targets(s: Seq<SortItem>) -> bool {
    forall|k1: int, k2: int|
        0 <= k1 < k2 < s.len() ==> (#[trigger] s[k1]).target != (#[trigger] s[k2]).target
}

/// Sorts the keys by the slot ordering.  The result is a rearrangement of
/// the input: same multiset, and targets stay pairwise different.
pub fn sort_items(v: Vec<SortItem>) -> (r: Vec<SortItem>)
    requires
        distinct_targets(v@),
    ensures
        r@.len() == v@.len(),
        r@.to_multiset() == v@.to_multiset(),
        forall|i: int, j: int| 0 <= i < j < r@.len() ==> item_le(#[trigger] r@[i], #[trigger] r@[j]),
        distinct_targets(r@),
    decreases v@.len(),
{
    broadcast use vstd::seq_lib::group_to_multiset_ensures;

    let mut rest = v;
    let mut out: Vec<SortItem> = Vec::new();
    proof {
        assert(out@.to_multiset().add(rest@.to_multiset()) =~= v@.to_multiset());
    }
    while rest.len() > 0
        invariant
            out@.len() + rest@.len() == v@.len(),
            out@.to_multiset().add(rest@.to_multiset()) == v@.to_multiset(),
            forall|i: int, j: int|
                0 <= i < j < out@.len() ==> item_le(#[trigger] out@[i], #[trigger] out@[j]),
            forall|i: int, j: int|
                0 <= i < out@.len() && 0 <= j < rest@.len() ==> item_le(
                    #[trigger] out@[i],
                    #[trigger] rest@[j],
                ),
            distinct_targets(out@),
            distinct_targets(rest@),
            forall|i: int, j: int|
                0 <= i < out@.len() && 0 <= j < rest@.len() ==> (#[trigger] out@[i]).target != (
                #[trigger] rest@[j]).target,
        decreases rest@.len(),
    {
        let mut m: usize = 0;
        let mut k: usize = 1;
        proof {
            lemma_item_le_total(rest@[0], rest@[0]);
        }
        while k < rest.len()
            invariant
                0 <= m < k <= rest@.len(),
                rest@.len() > 0,
                forall|t: int| 0 <= t < k ==> item_le(rest@[m as int], #[trigger] rest@[t]),
            decreases rest@.len() - k,
        {
            if !item_le_exec(&rest[m], &rest[k]) {
                proof {
                    lemma_item_le_total(rest@[m as int], rest@[k as int]);
                    assert forall|t: int| 0 <= t < k + 1 implies item_le(
                        rest@[k as int],
                        #[trigger] rest@[t],
                    ) by {
                        if t < k {
                            lemma_item_le_trans(rest@[k as int], rest@[m as int], rest@[t]);
                        } else {
                            lemma_item_le_total(rest@[k as int], rest@[k as int]);
                        }
                    }
                }
                m = k;
            }
            k = k + 1;
        }
        let ghost old_rest = rest@;
        let ghost old_out = out@;
        let x = rest.remove(m);
        out.push(x);
        proof {
            assert(rest@ == old_rest.remove(m as int));
            assert(out@ == old_out.push(x));
            lemma_item_le_total(x, x);
            assert(old_rest.contains(x)) by {
                assert(old_rest[m as int] == x);
            }
            vstd::seq_lib::to_multiset_build::<SortItem>(old_out, x);
            vstd::seq_lib::to_multiset_remove::<SortItem>(old_rest, m as int);
            vstd::seq_lib::to_multiset_contains::<SortItem>(old_rest, x);
            assert(old_out.push(x).to_multiset() =~= old_out.to_multiset().insert(x));
            assert(old_rest.remove(m as int).to_multiset() == old_rest.to_multiset().remove(x));
            assert(old_rest.to_multiset().count(x) > 0);
            assert(out@.to_multiset().add(rest@.to_multiset()) =~= v@.to_multiset());
            assert forall|j: int| 0 <= j < rest@.len() implies item_le(x, #[trigger] rest@[j])
                && x.target != rest@[j].target by {
                if j < m {
                    assert(rest@[j] == old_rest[j]);
                } else {
                    assert(rest@[j] == old_rest[j + 1]);
                }
            }
            assert forall|i: int, j: int|
                0 <= i < j < rest@.len() implies (#[trigger] rest@[i]).target != (
            #[trigger] rest@[j]).target by {
                let i0 = if i < m {
                    i
                } else {
                    i + 1
                };
                let j0 = if j < m {
                    j
                } else {
                    j + 1
                };
                assert(rest@[i] == old_rest[i0]);
                assert(rest@[j] == old_rest[j0]);
            }
        }
    }
    proof {
        vstd::seq_lib::to_multiset_len::<SortItem>(rest@);
        assert(rest@.to_multiset() =~= Multiset::<SortItem>::empty());
        assert(out@.to_multiset() =~= v@.to_multiset());
    }
    out
}

} // verus!

verus! {

/// Whether `it` is the sort key of the entry `e`.
pub open spec fn entry_item(e: ProgEntry, it: SortItem) -> bool {
    &&& it.target == SlotTarget::Existing(e.id)
    &&& Some(it.priority) == e.prog.spec_priority()
    &&& it.attached == e.prog.spec_attached()
    &&& it.name@ == e.prog.spec_data().name@
}

/// Whether every key in `order` that names a stored program names a filter
/// program the index holds.
pub open spec fn order_applicable(m: &ProgramMap, order: Seq<SortItem>) -> bool {
    forall|k: int|
        0 <= k < order.len() ==> match (#[trigger] order[k]).target {
            SlotTarget::Existing(id) => m.spec_get(id) matches Some(p) && (p is Xdp || p is Tc),
            SlotTarget::New => true,
        }
}

/// Id a slot key names; the program being loaded has no id yet.
pub open spec fn spec_target_id(t: SlotTarget) -> u32 {
    match t {
        SlotTarget::Existing(id) => id,
        SlotTarget::New => 0,
    }
}

/// Whether `it` is the sort key of a filter program the index holds for
/// the hook.
pub open spec fn item_names_program(
    m: &ProgramMap,
    it: SortItem,
    kind: ProgramType,
    if_index: u32,
    direction: Option<Direction>,
) -> bool {
    &&& it.target is Existing
    &&& m.spec_get(spec_target_id(it.target)) matches Some(p)
    &&& is_filter_at(&m.spec_get(spec_target_id(it.target))->0, kind, if_index, direction)
    &&& Some(it.priority) == m.spec_get(spec_target_id(it.target))->0.spec_priority()
    &&& it.attached == m.spec_get(spec_target_id(it.target))->0.spec_attached()
    &&& it.name@ == m.spec_get(spec_target_id(it.target))->0.spec_data().name@
}

/// Every filter entry for the hook has a key in `items` naming it.
pub open spec fn slots_cover_entries(
    entries: Seq<ProgEntry>,
    items: Seq<SortItem>,
    kind: ProgramType,
    if_index: u32,
    direction: Option<Direction>,
) -> bool {
    forall|i0: int|
        0 <= i0 < entries.len() && is_filter_at(
            &(#[trigger] entries[i0]).prog,
            kind,
            if_index,
            direction,
        ) ==> exists|k: int|
            0 <= k < items.len() && (#[trigger] items[k]).target == SlotTarget::Existing(
                entries[i0].id,
            )
}

/// A successful lookup comes from some entry.
proof fn lemma_find_exists(s: Seq<ProgEntry>, id: u32)
    ensures
        spec_find(s, id) matches Some(p) ==> exists|i: int|
            0 <= i < s.len() && (#[trigger] s[i]).id == id && s[i].prog == p,
    decreases s.len(),
{
    if s.len() > 0 {
        if s[0].id == id {
        } else {
            lemma_find_exists(s.drop_first(), id);
            if spec_find(s, id) is Some {
                let w = choose|i: int|
                    0 <= i < s.drop_first().len() && (#[trigger] s.drop_first()[i]).id == id
                        && s.drop_first()[i].prog == spec_find(s, id)->0;
                assert(s[w + 1] == s.drop_first()[w]);
            }
        }
    }
}

/// Whether `p` is a filter program for the given hook.
pub fn filter_matches(
    p: &Program,
    kind: ProgramType,
    if_index: u32,
    direction: Option<Direction>,
) -> (r: bool)
    ensures
        r == is_filter_at(p, kind, if_index, direction),
{
    let km = p.kind() == kind;
    let im = match p.if_index() {
        Some(x) => x == if_index,
        None => false,
    };
    let dm = match (p.direction(), direction) {
        (None, None) => true,
        (Some(a), Some(b)) => a == b,
        _ => false,
    };
    km && im && dm
}

impl ProgramMap {
    /// Sort keys of every filter program the index holds for the hook.
    fn collect_items(
        &self,
        kind: ProgramType,
        if_index: u32,
        direction: Option<Direction>,
    ) -> (r: Vec<SortItem>)
        requires
            self.wf(),
        ensures
            forall|k: int|
                0 <= k < r@.len() ==> item_names_program(
                    self,
                    #[trigger] r@[k],
                    kind,
                    if_index,
                    direction,
                ),
            slots_cover_entries(self.entries@, r@, kind, if_index, direction),
            distinct_targets(r@),
    {
        let n = self.entries.len();
        let mut items: Vec<SortItem> = Vec::new();
        let ghost mut src: Seq<int> = Seq::empty();
        let mut i: usize = 0;
        while i < n
            invariant
                0 <= i <= n,
                n == self.entries@.len(),
                self.wf(),
                src.len() == items@.len(),
                forall|k: int|
                    0 <= k < items@.len() ==> 0 <= #[trigger] src[k] < i
                        && self.entries@[src[k]].id == spec_target_id(items@[k].target),
                forall|k1: int, k2: int| 0 <= k1 < k2 < src.len() ==> src[k1] != src[k2],
                forall|k: int|
                    0 <= k < items@.len() ==> item_names_program(
                        self,
                        #[trigger] items@[k],
                        kind,
                        if_index,
                        direction,
                    ),
                slots_cover_entries(
                    self.entries@.take(i as int),
                    items@,
                    kind,
                    if_index,
                    direction,
                ),
            decreases n - i,
        {
            let e = &self.entries[i];
            if filter_matches(&e.prog, kind, if_index, direction) {
                let pr = match e.prog.priority() {
                    Some(x) => x,
                    None => 0,
                };
                let it = SortItem {
                    target: SlotTarget::Existing(e.id),
                    priority: pr,
                    attached: e.prog.attached(),
                    name: e.prog.get_data().name.clone(),
                };
                let ghost old_items = items@;
                items.push(it);
                proof {
                    src = src.push(i as int);
                    lemma_find_at_index(self.entries@, self.entries@[i as int].id, i as int);
                    assert(item_names_program(
                        self,
                        items@[items@.len() - 1],
                        kind,
                        if_index,
                        direction,
                    ));
                    let pre = self.entries@.take(i as int);
                    let cur = self.entries@.take(i + 1);
                    assert(cur[i as int] == self.entries@[i as int]);
                    assert forall|i0: int|
                        0 <= i0 < cur.len() && is_filter_at(
                            &(#[trigger] cur[i0]).prog,
                            kind,
                            if_index,
                            direction,
                        ) implies exists|k: int|
                            0 <= k < items@.len() && (#[trigger] items@[k]).target
                                == SlotTarget::Existing(cur[i0].id) by {
                        if i0 < i {
                            assert(pre[i0] == cur[i0]);
                            let k0 = choose|k: int|
                                0 <= k < old_items.len() && (#[trigger] old_items[k]).target
                                    == SlotTarget::Existing(pre[i0].id);
                            assert(items@[k0].target == SlotTarget::Existing(cur[i0].id));
                        } else {
                            assert(items@[items@.len() - 1].target == SlotTarget::Existing(
                                cur[i0].id,
                            ));
                        }
                    }
                }
            } else {
                proof {
                    let pre = self.entries@.take(i as int);
                    let cur = self.entries@.take(i + 1);
                    assert(cur[i as int] == self.entries@[i as int]);
                    assert forall|i0: int|
                        0 <= i0 < cur.len() && is_filter_at(
                            &(#[trigger] cur[i0]).prog,
                            kind,
                            if_index,
                            direction,
                        ) implies exists|k: int|
                            0 <= k < items@.len() && (#[trigger] items@[k]).target
                                == SlotTarget::Existing(cur[i0].id) by {
                        assert(i0 < i);
                        assert(pre[i0] == cur[i0]);
                    }
                }
            }
            i = i + 1;
        }
        proof {
            assert(self.entries@.take(i as int) =~= self.entries@);
            assert forall|k1: int, k2: int|
                0 <= k1 < k2 < items@.len() implies (#[trigger] items@[k1]).target != (
            #[trigger] items@[k2]).target by {
                assert(self.entries@[src[k1]].id != self.entries@[src[k2]].id);
            }
        }
        items
    }

    /// Writes the slot of each named program: the one under the key at
    /// index `k` of `order` gets position `k`.  Keys naming the program
    /// being loaded are left to the caller.
    pub fn apply_positions(&mut self, order: &Vec<SortItem>)
        requires
            old(self).wf(),
            distinct_targets(order@),
            order_applicable(old(self), order@),
        ensures
            final(self).wf(),
            forall|k: int|
                0 <= k < order@.len() ==> match (#[trigger] order@[k]).target {
                    SlotTarget::Existing(id) => {
                        &&& old(self).spec_get(id) matches Some(p1)
                        &&& final(self).spec_get(id) matches Some(p2)
                        &&& equal_but_position(&old(self).spec_get(id)->0, &final(self).spec_get(id)->0)
                        &&& final(self).spec_get(id)->0.spec_position() == Some(k as usize)
                    },
                    SlotTarget::New => true,
                },
            forall|id: u32|
                (forall|k: int|
                    0 <= k < order@.len() ==> (#[trigger] order@[k]).target != SlotTarget::Existing(
                        id,
                    )) ==> final(self).spec_get(id) == old(self).spec_get(id),
    {
        let n = order.len();
        let mut k: usize = 0;
        while k < n
            invariant
                0 <= k <= n,
                n == order@.len(),
                old(self).wf(),
                distinct_targets(order@),
                order_applicable(old(self), order@),
                self.entries@.len() == old(self).entries@.len(),
                forall|idx: int|
                    0 <= idx < self.entries@.len() ==> (#[trigger] self.entries@[idx]).id == old(
                        self,
                    ).entries@[idx].id,
                self.wf(),
                forall|idx: int|
                    0 <= idx < self.entries@.len() ==> if exists|k2: int|
                        0 <= k2 < k && (#[trigger] order@[k2]).target == SlotTarget::Existing(
                            old(self).entries@[idx].id,
                        ) {
                        {
                            let k2 = choose|k2: int|
                                0 <= k2 < k && (#[trigger] order@[k2]).target
                                    == SlotTarget::Existing(old(self).entries@[idx].id);
                            equal_but_position(
                                &old(self).entries@[idx].prog,
                                &(#[trigger] self.entries@[idx]).prog,
                            ) && self.entries@[idx].prog.spec_position() == Some(k2 as usize)
                        }
                    } else {
                        (#[trigger] self.entries@[idx]).prog == old(self).entries@[idx].prog
                    },
            decreases n - k,
        {
            let tgt = order[k].target;
            match tgt {
                SlotTarget::Existing(id) => {
                    proof {
                        lemma_find_index(self.entries@, id);
                        lemma_find_exists(old(self).entries@, id);
                        assert(old(self).spec_get(id) is Some);
                        let w = choose|i: int|
                            0 <= i < old(self).entries@.len() && (#[trigger] old(
                                self,
                            ).entries@[i]).id == id && old(self).entries@[i].prog == old(
                                self,
                            ).spec_get(id)->0;
                        assert(self.entries@[w].id == id);
                    }
                    let i = match self.find_idx(id) {
                        Some(i) => i,
                        None => {
                            proof {
                                assert(false);
                            }
                            0
                        },
                    };
                    proof {
                        assert(old(self).entries@[i as int].id == id);
                        lemma_find_at_index(old(self).entries@, id, i as int);
                        assert(old(self).entries@[i as int].prog is Xdp || old(
                            self,
                        ).entries@[i as int].prog is Tc);
                    }
                    let ghost before = self.entries@;
                    self.entries[i].prog.set_position(k);
                    proof {
                        assert(self.entries@[i as int].id == id);
                        assert forall|idx: int|
                            0 <= idx < self.entries@.len() && idx != i implies self.entries@[idx]
                            == before[idx] by {}
                        assert(equal_but_position(
                            &before[i as int].prog,
                            &self.entries@[i as int].prog,
                        ));
                    }
                },
                SlotTarget::New => (),
            }
            k = k + 1;
        }
        proof {
            assert forall|k2: int|
                0 <= k2 < order@.len() implies match (#[trigger] order@[k2]).target {
                SlotTarget::Existing(id) => {
                    &&& old(self).spec_get(id) matches Some(p1)
                    &&& self.spec_get(id) matches Some(p2)
                    &&& equal_but_position(&old(self).spec_get(id)->0, &self.spec_get(id)->0)
                    &&& self.spec_get(id)->0.spec_position() == Some(k2 as usize)
                },
                SlotTarget::New => true,
            } by {
                match order@[k2].target {
                    SlotTarget::Existing(id) => {
                        lemma_find_exists(old(self).entries@, id);
                        let w = choose|i: int|
                            0 <= i < old(self).entries@.len() && (#[trigger] old(
                                self,
                            ).entries@[i]).id == id && old(self).entries@[i].prog == old(
                                self,
                            ).spec_get(id)->0;
                        lemma_find_at_index(self.entries@, id, w);
                        lemma_find_at_index(old(self).entries@, id, w);
                    },
                    SlotTarget::New => (),
                }
            }
            assert forall|id: u32|
                (forall|k2: int|
                    0 <= k2 < order@.len() ==> (#[trigger] order@[k2]).target
                        != SlotTarget::Existing(id)) implies self.spec_get(id) == old(
                self,
            ).spec_get(id) by {
                lemma_find_index(self.entries@, id);
                lemma_find_index(old(self).entries@, id);
                lemma_find_exists(old(self).entries@, id);
                if old(self).spec_get(id) is Some {
                    let w = choose|i: int|
                        0 <= i < old(self).entries@.len() && (#[trigger] old(self).entries@[i]).id
                            == id && old(self).entries@[i].prog == old(self).spec_get(id)->0;
                    lemma_find_at_index(self.entries@, id, w);
                    lemma_find_at_index(old(self).entries@, id, w);
                } else {
                    assert forall|i: int|
                        0 <= i < self.entries@.len() implies (#[trigger] self.entries@[i]).id
                        != id by {
                        if self.entries@[i].id == id {
                            lemma_find_at_index(old(self).entries@, id, i);
                        }
                    }
                }
            }
        }
    }
}

} // verus!

verus! {

/// Transfers per-item facts across a rearrangement: any item of `b` is an
/// item of `a` when the two hold the same multiset.
proof fn lemma_perm_member(a: Seq<SortItem>, b: Seq<SortItem>, k: int)
    requires
        a.to_multiset() == b.to_multiset(),
        0 <= k < b.len(),
    ensures
        exists|k2: int| 0 <= k2 < a.len() && a[k2] == b[k],
{
    vstd::seq_lib::to_multiset_contains::<SortItem>(b, b[k]);
    assert(b.contains(b[k]));
    vstd::seq_lib::to_multiset_contains::<SortItem>(a, b[k]);
    assert(a.contains(b[k]));
}

impl ProgramMap {
    /// Re-sorts the filter programs of one hook and renumbers their
    /// dispatcher slots 0..N-1; used after a removal and on rebuild.  The
    /// returned order lists who sits in each slot: positions form exactly
    /// 0..N-1 and the sort key (priority, attached first, name) is
    /// non-decreasing along it.
    pub fn set_program_positions(
        &mut self,
        program_type: ProgramType,
        if_index: u32,
        direction: Option<Direction>,
    ) -> (order: Vec<SortItem>)
        requires
            old(self).wf(),
            program_type == ProgramType::Xdp || program_type == ProgramType::Tc,
        ensures
            final(self).wf(),
            forall|k1: int, k2: int|
                0 <= k1 < k2 < order@.len() ==> item_le(#[trigger] order@[k1], #[trigger] order@[k2]),
            distinct_targets(order@),
            forall|k: int|
                0 <= k < order@.len() ==> item_names_program(
                    old(self),
                    #[trigger] order@[k],
                    program_type,
                    if_index,
                    direction,
                ),
            forall|k: int|
                0 <= k < order@.len() ==> (final(self).spec_get(
                    spec_target_id((#[trigger] order@[k]).target),
                ) matches Some(p2) && equal_but_position(
                    &old(self).spec_get(spec_target_id(order@[k].target))->0,
                    &p2,
                ) && p2.spec_position() == Some(k as usize)),
            forall|id: u32|
                #[trigger] old(self).spec_get(id) matches Some(p) && is_filter_at(
                    &p,
                    program_type,
                    if_index,
                    direction,
                ) ==> exists|k: int|
                    0 <= k < order@.len() && (#[trigger] order@[k]).target == SlotTarget::Existing(
                        id,
                    ),
            forall|id: u32|
                (forall|k: int|
                    0 <= k < order@.len() ==> (#[trigger] order@[k]).target != SlotTarget::Existing(
                        id,
                    )) ==> final(self).spec_get(id) == old(self).spec_get(id),
    {
        let items = self.collect_items(program_type, if_index, direction);
        let order = sort_items(items);
        proof {
            assert forall|k: int| 0 <= k < order@.len() implies item_names_program(
                self,
                #[trigger] order@[k],
                program_type,
                if_index,
                direction,
            ) by {
                lemma_perm_member(items@, order@, k);
            }
            assert(order_applicable(self, order@)) by {
                assert forall|k: int|
                    0 <= k < order@.len() implies match (#[trigger] order@[k]).target {
                    SlotTarget::Existing(id) => self.spec_get(id) matches Some(p) && (p is Xdp
                        || p is Tc),
                    SlotTarget::New => true,
                } by {
                    assert(item_names_program(self, order@[k], program_type, if_index, direction));
                }
            }
        }
        self.apply_positions(&order);
        proof {
            assert forall|id: u32|
                #[trigger] old(self).spec_get(id) matches Some(p) && is_filter_at(
                    &p,
                    program_type,
                    if_index,
                    direction,
                ) implies exists|k: int|
                0 <= k < order@.len() && (#[trigger] order@[k]).target == SlotTarget::Existing(
                    id,
                ) by {
                lemma_find_exists(old(self).entries@, id);
                let i0 = choose|i0: int|
                    0 <= i0 < old(self).entries@.len() && (#[trigger] old(self).entries@[i0]).id
                        == id && old(self).entries@[i0].prog == old(self).spec_get(id)->0;
                assert(is_filter_at(
                    &old(self).entries@[i0].prog,
                    program_type,
                    if_index,
                    direction,
                ));
                let k1 = choose|k1: int|
                    0 <= k1 < items@.len() && (#[trigger] items@[k1]).target
                        == SlotTarget::Existing(old(self).entries@[i0].id);
                lemma_perm_member(order@, items@, k1);
                let k2 = choose|k2: int| 0 <= k2 < order@.len() && order@[k2] == items@[k1];
                assert(order@[k2].target == SlotTarget::Existing(id));
            }
        }
        order
    }

    /// Slot order for loading one more filter program onto a hook: the
    /// programs already present plus the new one, sorted, without touching
    /// any state.  Slots naming stored programs are applied at commit.
    pub fn plan_add_positions(&self, program: &Program) -> (order: Vec<SortItem>)
        requires
            self.wf(),
            (*program) is Xdp || (*program) is Tc,
            program.spec_if_index() is Some,
        ensures
            forall|k1: int, k2: int|
                0 <= k1 < k2 < order@.len() ==> item_le(#[trigger] order@[k1], #[trigger] order@[k2]),
            distinct_targets(order@),
            order@.len() >= 1,
            exists|k: int| 0 <= k < order@.len() && (#[trigger] order@[k]).target is New,
            forall|k: int|
                0 <= k < order@.len() && (#[trigger] order@[k]).target is New ==> Some(
                    order@[k].priority,
                ) == program.spec_priority() && order@[k].attached == program.spec_attached()
                    && order@[k].name@ == program.spec_data().name@,
            forall|k: int|
                0 <= k < order@.len() && (#[trigger] order@[k]).target is Existing
                    ==> item_names_program(
                    self,
                    order@[k],
                    program.spec_kind(),
                    program.spec_if_index()->0,
                    program.spec_direction(),
                ),
            forall|id: u32|
                #[trigger] self.spec_get(id) matches Some(p) && is_filter_at(
                    &p,
                    program.spec_kind(),
                    program.spec_if_index()->0,
                    program.spec_direction(),
                ) ==> exists|k: int|
                    0 <= k < order@.len() && (#[trigger] order@[k]).target == SlotTarget::Existing(
                        id,
                    ),
            order_applicable(self, order@),
    {
        let if_index = match program.if_index() {
            Some(x) => x,
            None => 0,
        };
        let direction = program.direction();
        let kind_exec = program.kind();
        let mut items = self.collect_items(kind_exec, if_index, direction);
        let pr = match program.priority() {
            Some(x) => x,
            None => 0,
        };
        let newit = SortItem {
            target: SlotTarget::New,
            priority: pr,
            attached: program.attached(),
            name: program.get_data().name.clone(),
        };
        let ghost pre_items = items@;
        items.push(newit);
        proof {
            assert(items@[items@.len() - 1] == newit);
            assert forall|k1: int, k2: int|
                0 <= k1 < k2 < items@.len() implies (#[trigger] items@[k1]).target != (
            #[trigger] items@[k2]).target by {
                if k2 == items@.len() - 1 {
                    assert(items@[k1] == pre_items[k1]);
                    assert(pre_items[k1].target is Existing);
                }
            }
        }
        let order = sort_items(items);
        proof {
            assert forall|k: int|
                0 <= k < order@.len() implies ((#[trigger] order@[k]).target is New ==> Some(
                order@[k].priority,
            ) == program.spec_priority() && order@[k].attached == program.spec_attached()
                && order@[k].name@ == program.spec_data().name@) && (order@[k].target is Existing
                ==> item_names_program(
                self,
                order@[k],
                program.spec_kind(),
                program.spec_if_index()->0,
                program.spec_direction(),
            )) by {
                lemma_perm_member(items@, order@, k);
                let k2 = choose|k2: int| 0 <= k2 < items@.len() && items@[k2] == order@[k];
                if k2 < items@.len() - 1 {
                    assert(items@[k2] == pre_items[k2]);
                    assert(item_names_program(self, pre_items[k2], kind_exec, if_index, direction));
                } else {
                    assert(items@[k2] == newit);
                }
            }
            lemma_perm_member(order@, items@, items@.len() - 1);
            let kn = choose|kn: int|
                0 <= kn < order@.len() && order@[kn] == items@[items@.len() - 1];
            assert(order@[kn].target is New);
            assert forall|id: u32|
                #[trigger] self.spec_get(id) matches Some(p) && is_filter_at(
                    &p,
                    program.spec_kind(),
                    program.spec_if_index()->0,
                    program.spec_direction(),
                ) implies exists|k: int|
                0 <= k < order@.len() && (#[trigger] order@[k]).target == SlotTarget::Existing(
                    id,
                ) by {
                lemma_find_exists(self.entries@, id);
                let i0 = choose|i0: int|
                    0 <= i0 < self.entries@.len() && (#[trigger] self.entries@[i0]).id == id
                        && self.entries@[i0].prog == self.spec_get(id)->0;
                assert(is_filter_at(&self.entries@[i0].prog, kind_exec, if_index, direction));
                let k1 = choose|k1: int|
                    0 <= k1 < pre_items.len() && (#[trigger] pre_items[k1]).target
                        == SlotTarget::Existing(self.entries@[i0].id);
                assert(items@[k1] == pre_items[k1]);
                lemma_perm_member(order@, items@, k1);
                let k2 = choose|k2: int| 0 <= k2 < order@.len() && order@[k2] == items@[k1];
                assert(order@[k2].target == SlotTarget::Existing(id));
            }
            assert(order_applicable(self, order@)) by {
                assert forall|k: int|
                    0 <= k < order@.len() implies match (#[trigger] order@[k]).target {
                    SlotTarget::Existing(id) => self.spec_get(id) matches Some(p) && (p is Xdp
                        || p is Tc),
                    SlotTarget::New => true,
                } by {
                    if order@[k].target is Existing {
                        assert(item_names_program(
                            self,
                            order@[k],
                            program.spec_kind(),
                            program.spec_if_index()->0,
                            program.spec_direction(),
                        ));
                    }
                }
            }
        }
        order
    }

}

/// Index of the slot reserved for the program being loaded.
pub fn find_new_slot(order: &Vec<SortItem>) -> (r: Option<usize>)
    ensures
        r matches Some(k) ==> k < order@.len() && order@[k as int].target is New,
        r is None ==> forall|k: int| 0 <= k < order@.len() ==> !((#[trigger] order@[k]).target
            is New),
{
    let n = order.len();
    let mut k: usize = 0;
    while k < n
        invariant
            0 <= k <= n,
            n == order@.len(),
            forall|t: int| 0 <= t < k ==> !((#[trigger] order@[t]).target is New),
        decreases n - k,
    {
        match order[k].target {
            SlotTarget::New => {
                return Some(k);
            },
            SlotTarget::Existing(_) => (),
        }
        k = k + 1;
    }
    None
}

} // verus!

verus! {

impl ProgramMap {
    /// Rewrites the shared-map membership list of every named program; ids
    /// not in the index are passed over.
    pub fn set_maps_used_by_for(&mut self, ids: &Vec<u32>, used_by: &Vec<u32>)
        requires
            old(self).wf(),
            forall|k1: int, k2: int| 0 <= k1 < k2 < ids@.len() ==> ids@[k1] != ids@[k2],
        ensures
            final(self).wf(),
            forall|k: int|
                0 <= k < ids@.len() ==> match old(self).spec_get(#[trigger] ids@[k]) {
                    Some(p) => {
                        &&& final(self).spec_get(ids@[k]) matches Some(p2)
                        &&& final(self).spec_get(ids@[k])->0 == p.spec_with_data(
                            ProgramData {
                                maps_used_by: final(self).spec_get(
                                    ids@[k],
                                )->0.spec_data().maps_used_by,
                                ..*p.spec_data()
                            },
                        )
                        &&& final(self).spec_get(ids@[k])->0.spec_data().maps_used_by@ == used_by@
                    },
                    None => final(self).spec_get(ids@[k]) is None,
                },
            forall|id: u32|
                (forall|k: int| 0 <= k < ids@.len() ==> ids@[k] != id) ==> final(self).spec_get(id)
                    == old(self).spec_get(id),
    {
        let n = ids.len();
        let mut k: usize = 0;
        while k < n
            invariant
                0 <= k <= n,
                n == ids@.len(),
                old(self).wf(),
                self.wf(),
                forall|k1: int, k2: int| 0 <= k1 < k2 < ids@.len() ==> ids@[k1] != ids@[k2],
                self.entries@.len() == old(self).entries@.len(),
                forall|idx: int|
                    0 <= idx < self.entries@.len() ==> (#[trigger] self.entries@[idx]).id == old(
                        self,
                    ).entries@[idx].id,
                forall|idx: int|
                    0 <= idx < self.entries@.len() ==> if exists|k2: int|
                        0 <= k2 < k && #[trigger] ids@[k2] == old(self).entries@[idx].id {
                        (#[trigger] self.entries@[idx]).prog == old(
                            self,
                        ).entries@[idx].prog.spec_with_data(
                            ProgramData {
                                maps_used_by: self.entries@[idx].prog.spec_data().maps_used_by,
                                ..*old(self).entries@[idx].prog.spec_data()
                            },
                        ) && self.entries@[idx].prog.spec_data().maps_used_by@ == used_by@
                    } else {
                        (#[trigger] self.entries@[idx]).prog == old(self).entries@[idx].prog
                    },
            decreases n - k,
        {
            let id = ids[k];
            match self.find_idx(id) {
                Some(i) => {
                    let ghost before = self.entries@;
                    let ub = copy_u32s(used_by);
                    let d = self.entries[i].prog.get_data_mut();
                    d.set_maps_used_by(ub);
                    proof {
                        assert(self.entries@[i as int].id == id);
                        assert forall|idx: int|
                            0 <= idx < self.entries@.len() && idx != i implies self.entries@[idx]
                            == before[idx] by {}
                        assert(self.entries@[i as int].prog.spec_data().maps_used_by@
                            == used_by@);
                    }
                },
                None => {
                    proof {
                        assert forall|idx: int|
                            0 <= idx < self.entries@.len() implies old(self).entries@[idx].id
                            != ids@[k as int] by {
                            assert((self.entries@[idx]).id == old(self).entries@[idx].id);
                            assert((self.entries@[idx]).id != ids@[k as int]);
                        }
                    }
                },
            }
            k = k + 1;
        }
        proof {
            assert forall|k2: int|
                0 <= k2 < ids@.len() implies match old(self).spec_get(#[trigger] ids@[k2]) {
                Some(p) => {
                    &&& self.spec_get(ids@[k2]) matches Some(p2)
                    &&& self.spec_get(ids@[k2])->0 == p.spec_with_data(
                        ProgramData {
                            maps_used_by: self.spec_get(ids@[k2])->0.spec_data().maps_used_by,
                            ..*p.spec_data()
                        },
                    )
                    &&& self.spec_get(ids@[k2])->0.spec_data().maps_used_by@ == used_by@
                },
                None => self.spec_get(ids@[k2]) is None,
            } by {
                lemma_find_exists(old(self).entries@, ids@[k2]);
                lemma_find_index(old(self).entries@, ids@[k2]);
                lemma_find_index(self.entries@, ids@[k2]);
                if old(self).spec_get(ids@[k2]) is Some {
                    let w = choose|i: int|
                        0 <= i < old(self).entries@.len() && (#[trigger] old(self).entries@[i]).id
                            == ids@[k2] && old(self).entries@[i].prog == old(self).spec_get(
                            ids@[k2],
                        )->0;
                    lemma_find_at_index(self.entries@, ids@[k2], w);
                    lemma_find_at_index(old(self).entries@, ids@[k2], w);
                }
            }
            assert forall|id: u32|
                (forall|k2: int| 0 <= k2 < ids@.len() ==> ids@[k2] != id) implies self.spec_get(id)
                == old(self).spec_get(id) by {
                lemma_find_exists(old(self).entries@, id);
                lemma_find_index(old(self).entries@, id);
                lemma_find_index(self.entries@, id);
                if old(self).spec_get(id) is Some {
                    let w = choose|i: int|
                        0 <= i < old(self).entries@.len() && (#[trigger] old(self).entries@[i]).id
                            == id && old(self).entries@[i].prog == old(self).spec_get(id)->0;
                    lemma_find_at_index(self.entries@, id, w);
                    lemma_find_at_index(old(self).entries@, id, w);
                } else {
                    assert forall|i: int|
                        0 <= i < self.entries@.len() implies (#[trigger] self.entries@[i]).id
                        != id by {
                        if self.entries@[i].id == id {
                            lemma_find_at_index(old(self).entries@, id, i);
                        }
                    }
                }
            }
        }
    }
}

/// Copy of a list of ids.
pub fn copy_u32s(v: &Vec<u32>) -> (r: Vec<u32>)
    ensures
        r@ == v@,
{
    let mut r: Vec<u32> = Vec::new();
    let n = v.len();
    let mut i: usize = 0;
    while i < n
        invariant
            0 <= i <= n,
            n == v@.len(),
            r@ == v@.take(i as int),
        decreases n - i,
    {
        r.push(v[i]);
        proof {
            assert(r@ =~= v@.take(i + 1));
        }
        i = i + 1;
    }
    proof {
        assert(v@.take(n as int) =~= v@);
    }
    r
}

} // verus!

verus! {

impl ProgramMap {
    /// Whether the index holds any filter program for the hook.
    pub fn any_filter_at(
        &self,
        kind: ProgramType,
        if_index: u32,
        direction: Option<Direction>,
    ) -> (r: bool)
        requires
            self.wf(),
        ensures
            r <==> (exists|id: u32|
                #[trigger] self.spec_get(id) matches Some(p) && is_filter_at(
                    &p,
                    kind,
                    if_index,
                    direction,
                )),
    {
        let n = self.entries.len();
        let mut i: usize = 0;
        while i < n
            invariant
                0 <= i <= n,
                n == self.entries@.len(),
                self.wf(),
                forall|k: int|
                    0 <= k < i ==> !is_filter_at(
                        &(#[trigger] self.entries@[k]).prog,
                        kind,
                        if_index,
                        direction,
                    ),
            decreases n - i,
        {
            let e = &self.entries[i];
            if filter_matches(&e.prog, kind, if_index, direction) {
                proof {
                    lemma_find_at_index(self.entries@, self.entries@[i as int].id, i as int);
                    assert(self.spec_get(self.entries@[i as int].id) matches Some(p)
                        && is_filter_at(&p, kind, if_index, direction));
                }
                return true;
            }
            i = i + 1;
        }
        proof {
            assert forall|id: u32| !(#[trigger] self.spec_get(id) matches Some(p) && is_filter_at(
                &p,
                kind,
                if_index,
                direction,
            )) by {
                lemma_find_exists(self.entries@, id);
                if self.spec_get(id) is Some {
                    let w = choose|w: int|
                        0 <= w < self.entries@.len() && (#[trigger] self.entries@[w]).id == id
                            && self.entries@[w].prog == self.spec_get(id)->0;
                }
            }
        }
        false
    }
}

} // verus!
