//! A node of the tree: who has been seated where, and how the answers of
//! the children are reduced to one.

use crate::metadata::{BacktraceState, ProcessInfo, RunState, SymbolTable, TreeIdFactory};
use crate::protocol::GdbMachineResponse;
use crate::snapshot::{
    components_view, components_views, lemma_merge_identity, map_keys, merge_into, merge_one,
    sat_add, saturated, spec_components_merge, ComponentsView, ProgramSnapshot,
};
use crate::tools::{str_distance_u64, str_eq, strdistance};
use std::collections::HashMap;
use vstd::prelude::*;

verus! {

/// The states of `other` added to `base`; where both know an identifier,
/// the state of `other` stands.
pub fn merge_states(base: &mut HashMap<u64, RunState>, other: &HashMap<u64, RunState>)
    ensures
        final(base)@ == old(base)@.union_prefer_right(other@),
{
    broadcast use vstd::std_specs::hash::group_hash_axioms;

    let ghost start = base@;
    let keys = map_keys(other);
    let ghost mut seen: Set<u64> = Set::empty();
    let mut i: usize = 0;
    assert(base@ =~= start.union_prefer_right(other@.restrict(seen)));
    while i < keys.len()
        invariant
            i <= keys.len(),
            keys@.to_set() == other@.dom(),
            forall|h: u64| seen.contains(h) <==> exists|j: int| 0 <= j < i && keys@[j] == h,
            base@ == start.union_prefer_right(other@.restrict(seen)),
        decreases keys.len() - i,
    {
        let h: u64 = keys[i];
        assert(keys@.to_set().contains(keys@[i as int]));
        match other.get(&h) {
            Some(st) => {
                base.insert(h, st.clone());
            },
            None => {
                assert(false);
            },
        }
        proof {
            let next = seen.insert(h);
            assert(base@ =~= start.union_prefer_right(other@.restrict(next)));
            assert forall|x: u64| next.contains(x) <==> exists|j: int|
                0 <= j < i + 1 && keys@[j] == x by {
                if next.contains(x) {
                    if x == h {
                        assert(keys@[i as int] == x);
                    } else {
                        let j = choose|j: int| 0 <= j < i && keys@[j] == x;
                        assert(0 <= j < i + 1 && keys@[j] == x);
                    }
                }
            }
            seen = next;
        }
        i = i + 1;
    }
    proof {
        assert forall|h: u64| other@.contains_key(h) implies seen.contains(h) by {
            assert(keys@.to_set().contains(h));
            let j = choose|j: int| 0 <= j < keys@.len() && keys@[j] == h;
            assert(0 <= j < i && keys@[j] == h);
        }
        assert(other@.restrict(seen) =~= other@);
    }
}

/// Whether `r` is what two answers to one command reduce to.
///
/// Without a second answer the first stands. An error on either side gives
/// an error, the first one's before the second one's. Two `Okay` give
/// `Okay`; two counts their sum, held at `u64::MAX`; two states their union,
/// the second one's entry standing where both know an identifier; two sets
/// of components the first merged into the second. Two answers of different
/// kinds, or of a kind that has no reduction, give an error.
pub open spec fn is_merge_of(
    r: GdbMachineResponse,
    res1: GdbMachineResponse,
    res2: Option<GdbMachineResponse>,
) -> bool {
    match res2 {
        None => r == res1,
        Some(r2) => match res1 {
            GdbMachineResponse::Error(e) => r == GdbMachineResponse::Error(e),
            GdbMachineResponse::Okay => match r2 {
                GdbMachineResponse::Error(e) => r == GdbMachineResponse::Error(e),
                GdbMachineResponse::Okay => r is Okay,
                _ => r is Error && r->Error_0@ == "Incompatible type to be merged Ok"@,
            },
            GdbMachineResponse::State(st1) => match r2 {
                GdbMachineResponse::State(st2) => r is State && r->State_0@
                    == st1@.union_prefer_right(st2@),
                GdbMachineResponse::Error(e) => r == GdbMachineResponse::Error(e),
                _ => r is Error && r->Error_0@ == "Incompatible type to be merged State"@,
            },
            GdbMachineResponse::Snapshot(st1) => match r2 {
                GdbMachineResponse::Snapshot(st2) => r is Snapshot && components_view(
                    r->Snapshot_0@,
                ) == merge_into(components_view(st2@), components_view(st1@)),
                GdbMachineResponse::Error(e) => r == GdbMachineResponse::Error(e),
                _ => r is Error && r->Error_0@ == "Incompatible type to be merged snapshot"@,
            },
            GdbMachineResponse::Count(c1) => match r2 {
                GdbMachineResponse::Count(c2) => r == GdbMachineResponse::Count(sat_add(c1, c2)),
                GdbMachineResponse::Error(e) => r == GdbMachineResponse::Error(e),
                _ => r is Error && r->Error_0@ == "Incompatible type to be merged Count"@,
            },
            GdbMachineResponse::Symbols(_) => r is Error && r->Error_0@
                == "Conversion case not handled"@,
            GdbMachineResponse::Pivot(_, _) => r is Error && r->Error_0@
                == "Conversion case not handled"@,
        },
    }
}

/// One child that the root has seated: the address it serves, and the range
/// it seats its own children from.
#[derive(Debug)]
pub struct SeenChild {
    pub locator: String,
    pub url: String,
    pub factory: TreeIdFactory,
}

/// The state of a tree node.
#[derive(Debug)]
pub struct TreeState {
    id: Option<u64>,
    seen_children: Vec<SeenChild>,
    children: Vec<String>,
}

impl TreeState {
    /// Reduces the answer of the node's own debugger and the answer of its
    /// children to one.
    pub fn merge_results(res1: GdbMachineResponse, res2: Option<GdbMachineResponse>) -> (r:
        GdbMachineResponse)
        ensures
            is_merge_of(r, res1, res2),
    {
        let r2 = match res2 {
            None => {
                return res1;
            },
            Some(r2) => r2,
        };
        match res1 {
            GdbMachineResponse::Error(e) => GdbMachineResponse::Error(e),
            GdbMachineResponse::Okay => match r2 {
                GdbMachineResponse::Error(e) => GdbMachineResponse::Error(e),
                GdbMachineResponse::Okay => GdbMachineResponse::Okay,
                _ => GdbMachineResponse::Error(
                    String::from_str("Incompatible type to be merged Ok"),
                ),
            },
            GdbMachineResponse::State(st1) => match r2 {
                GdbMachineResponse::State(st2) => {
                    let mut st1 = st1;
                    merge_states(&mut st1, &st2);
                    GdbMachineResponse::State(st1)
                },
                GdbMachineResponse::Error(e) => GdbMachineResponse::Error(e),
                _ => GdbMachineResponse::Error(
                    String::from_str("Incompatible type to be merged State"),
                ),
            },
            GdbMachineResponse::Snapshot(st1) => match r2 {
                GdbMachineResponse::Snapshot(st2) => {
                    let mut base = st2;
                    merge_one(&mut base, &st1);
                    GdbMachineResponse::Snapshot(base)
                },
                GdbMachineResponse::Error(e) => GdbMachineResponse::Error(e),
                _ => GdbMachineResponse::Error(
                    String::from_str("Incompatible type to be merged snapshot"),
                ),
            },
            GdbMachineResponse::Count(c1) => match r2 {
                GdbMachineResponse::Count(c2) => GdbMachineResponse::Count(c1.saturating_add(c2)),
                GdbMachineResponse::Error(e) => GdbMachineResponse::Error(e),
                _ => GdbMachineResponse::Error(
                    String::from_str("Incompatible type to be merged Count"),
                ),
            },
            GdbMachineResponse::Symbols(_) => GdbMachineResponse::Error(
                String::from_str("Conversion case not handled"),
            ),
            GdbMachineResponse::Pivot(_, _) => GdbMachineResponse::Error(
                String::from_str("Conversion case not handled"),
            ),
        }
    }
}


/// Why a node could not be seated.
#[derive(Debug)]
pub enum PivotError {
    /// The locality descriptor is registered already.
    AlreadyRegistered(String),
    /// This node is no root: it has no entry of its own to seat under.
    NotRoot,
    /// No registered node has a free slot.
    NoAttachPoint,
    /// The node to attach to has a free slot, but no identifiers left.
    Exhausted,
}

/// The text of a pivot error.
pub open spec fn spec_pivot_message(e: PivotError) -> Seq<char> {
    match e {
        PivotError::AlreadyRegistered(locator) => "Process \""@ + locator@
            + "\" is already registered"@,
        PivotError::NotRoot => "It is only possible to pivot on root process"@,
        PivotError::NoAttachPoint => "Root should have had at least another child"@,
        PivotError::Exhausted => "No identifier is left under the closest process"@,
    }
}

impl PivotError {
    /// The error as text.
    pub fn message(&self) -> (r: String)
        ensures
            r@ == spec_pivot_message(*self),
    {
        match self {
            PivotError::AlreadyRegistered(locator) => {
                let mut out = String::from_str("Process \"");
                out.append(locator.as_str());
                out.append("\" is already registered");
                out
            },
            PivotError::NotRoot => String::from_str("It is only possible to pivot on root process"),
            PivotError::NoAttachPoint => String::from_str(
                "Root should have had at least another child",
            ),
            PivotError::Exhausted => String::from_str(
                "No identifier is left under the closest process",
            ),
        }
    }
}

/// Two ranges keep apart: they share no identifier, or one lies among the
/// slots that the other has handed out.
pub open spec fn ranges_apart(a: TreeIdFactory, b: TreeIdFactory) -> bool {
    ||| a.span_end() <= b.spec_id()
    ||| b.span_end() <= a.spec_id()
    ||| (a.spec_id() < b.spec_id() && b.span_end() <= a.used_end() && b.span_end()
        <= a.span_end())
    ||| (b.spec_id() < a.spec_id() && a.span_end() <= b.used_end() && a.span_end()
        <= b.span_end())
}

/// How many slots the ranges of a registry have handed out.
pub open spec fn slots_taken(entries: Seq<SeenChild>) -> int
    decreases entries.len(),
{
    if entries.len() == 0 {
        0
    } else {
        slots_taken(entries.drop_last()) + entries.last().factory.spec_offset()
    }
}

/// The invariant of a registry: the first entry is the root's own, no
/// locality descriptor occurs twice, every range is valid and holds at least
/// its owner's identifier, every slot handed out stands for one entry
/// besides the root's, and any two ranges keep apart.
pub open spec fn registry_wf(entries: Seq<SeenChild>) -> bool {
    &&& entries.len() > 0 ==> entries[0].locator@ == "ROOT"@
    &&& forall|i: int, j: int|
        0 <= i < j < entries.len() ==> entries[i].locator@ != entries[j].locator@
    &&& forall|i: int|
        0 <= i < entries.len() ==> (#[trigger] entries[i]).factory.wf()
            && entries[i].factory.spec_dynamic() >= 1
    &&& entries.len() > 0 ==> slots_taken(entries) == entries.len() - 1
    &&& forall|i: int, j: int|
        0 <= i < j < entries.len() ==> ranges_apart(
            (#[trigger] entries[i]).factory,
            (#[trigger] entries[j]).factory,
        )
}

/// Whether a locality descriptor is registered.
pub open spec fn is_registered(entries: Seq<SeenChild>, locator: Seq<char>) -> bool {
    exists|i: int| 0 <= i < entries.len() && (#[trigger] entries[i]).locator@ == locator
}

/// How far the entry at `i` is from a locality descriptor.
pub open spec fn entry_distance(entries: Seq<SeenChild>, i: int, locator: Seq<char>) -> u64 {
    str_distance_u64(entries[i].locator@, locator)
}

/// The entry at `k` is the closest one with a free slot: none with a free
/// slot is closer, and none before it is as close.
pub open spec fn is_closest(entries: Seq<SeenChild>, locator: Seq<char>, k: int) -> bool {
    &&& 0 <= k < entries.len()
    &&& !entries[k].factory.spec_full()
    &&& forall|j: int|
        0 <= j < entries.len() && !(#[trigger] entries[j]).factory.spec_full()
            ==> entry_distance(entries, k, locator) <= entry_distance(entries, j, locator)
    &&& forall|j: int|
        0 <= j < k && !(#[trigger] entries[j]).factory.spec_full() ==> entry_distance(
            entries,
            k,
            locator,
        ) < entry_distance(entries, j, locator)
}

/// The entry under which a new node is seated: the root's while it has a
/// free slot, then the closest one that has.
pub open spec fn is_attach_point(entries: Seq<SeenChild>, locator: Seq<char>, k: int) -> bool {
    &&& entries.len() > 0
    &&& if !entries[0].factory.spec_full() {
        k == 0
    } else {
        is_closest(entries, locator, k)
    }
}

/// Whether a new node finds an entry to be seated under.
pub open spec fn has_attach_point(entries: Seq<SeenChild>) -> bool {
    exists|j: int| 0 <= j < entries.len() && !(#[trigger] entries[j]).factory.spec_full()
}

/// The registry after a node was seated under the entry at `k`: that entry
/// has one more slot taken, and the node's entry stands at the end.
pub open spec fn seated_under(
    after: Seq<SeenChild>,
    before: Seq<SeenChild>,
    k: int,
    locator: Seq<char>,
    from: Seq<char>,
) -> bool {
    &&& after.len() == before.len() + 1
    &&& forall|i: int|
        0 <= i < before.len() && i != k ==> (#[trigger] after[i]) == before[i]
    &&& after[k].locator == before[k].locator
    &&& after[k].url == before[k].url
    &&& TreeIdFactory::is_advanced(after[k].factory, before[k].factory)
    &&& after.last().locator@ == locator
    &&& after.last().url@ == from
    &&& TreeIdFactory::is_child_of(after.last().factory, before[k].factory)
}

/// Whether `r` and the registry `after` are what comes of seating a node
/// with the locality descriptor `locator`, served at `from`, in the registry
/// `before`.
///
/// A locality descriptor that is registered already is refused, and so is
/// any on a node that is no root. Else the node is seated under its attach
/// point: it gets the identifier of that entry's next free slot and the
/// address of that entry's node, and its own entry is added. Where that
/// entry has no identifiers left the node is refused. An error leaves the
/// registry as it was.
pub open spec fn is_seating(
    before: Seq<SeenChild>,
    after: Seq<SeenChild>,
    locator: Seq<char>,
    from: Seq<char>,
    r: Result<(u64, String), PivotError>,
) -> bool {
    &&& r is Err ==> after == before
    &&& is_registered(before, locator) ==> r is Err && r->Err_0 is AlreadyRegistered
        && r->Err_0->AlreadyRegistered_0@ == locator
    &&& !is_registered(before, locator) && before.len() == 0 ==> r is Err && r->Err_0 is NotRoot
    &&& !is_registered(before, locator) && before.len() > 0 && !has_attach_point(before) ==> r
        is Err && r->Err_0 is NoAttachPoint
    &&& forall|k: int|
        !is_registered(before, locator) && is_attach_point(before, locator, k) ==> {
            if before[k].factory.can_inherit() {
                &&& r is Ok
                &&& r->Ok_0.0 == before[k].factory.slot_id(before[k].factory.spec_offset() as int)
                &&& r->Ok_0.1 == before[k].url
                &&& seated_under(after, before, k, locator, from)
            } else {
                r is Err && r->Err_0 is Exhausted
            }
        }
}

impl TreeState {
    /// The identifier of the node, once it has one.
    pub closed spec fn spec_id(&self) -> Option<u64> {
        self.id
    }

    /// The registry: the root's own entry first, then every node that was
    /// seated, in the order in which they came.
    pub closed spec fn registry(&self) -> Seq<SeenChild> {
        self.seen_children@
    }

    /// The addresses of the children that this node is connected to.
    pub closed spec fn spec_children(&self) -> Seq<String> {
        self.children@
    }

    /// The registry of the node keeps its invariant.
    pub open spec fn wf(&self) -> bool {
        registry_wf(self.registry())
    }

    /// The state of a node that has no identifier, no registry and no child.
    pub fn default() -> (r: TreeState)
        ensures
            r.wf(),
            r.spec_id() is None,
            r.registry().len() == 0,
            r.spec_children().len() == 0,
    {
        TreeState { seen_children: Vec::new(), children: Vec::new(), id: None }
    }

    /// Gives the node its identifier.
    pub fn set_id(&mut self, id: u64)
        ensures
            final(self).spec_id() == Some(id),
            final(self).registry() == old(self).registry(),
            final(self).spec_children() == old(self).spec_children(),
    {
        self.id = Some(id);
    }

    /// The identifier of the node, or 0 where it has none.
    pub fn get_id(&self) -> (r: u64)
        ensures
            r == match self.spec_id() {
                Some(id) => id,
                None => 0,
            },
    {
        match self.id {
            Some(id) => id,
            None => 0,
        }
    }

    /// How many nodes were seated, the root's own entry not counted; `None`
    /// where the node has the identifier 0 or no registry.
    pub fn tree_count(&self) -> (r: Option<usize>)
        ensures
            r == if self.spec_id() == Some(0u64) || self.registry().len() == 0 {
                None
            } else {
                Some((self.registry().len() - 1) as usize)
            },
    {
        match self.id {
            Some(id) => {
                if id == 0 {
                    return None;
                }
            },
            None => {},
        }
        if self.seen_children.len() == 0 {
            return None;
        }
        Some(self.seen_children.len() - 1)
    }

    /// Makes the node the root of a tree that is served at `root_url`. On a
    /// node that is a root already, only the address changes.
    pub fn set_root(&mut self, root_url: String)
        requires
            old(self).wf(),
        ensures
            final(self).wf(),
            final(self).spec_id() == old(self).spec_id(),
            final(self).spec_children() == old(self).spec_children(),
            final(self).registry().len() > 0,
            final(self).registry()[0].locator@ == "ROOT"@,
            final(self).registry()[0].url == root_url,
            old(self).registry().len() == 0 ==> final(self).registry().len() == 1
                && final(self).registry()[0].factory.spec_id() == 0 && final(
                self).registry()[0].factory.spec_offset() == 0 && final(
                self).registry()[0].factory.spec_dynamic() == u64::MAX,
            old(self).registry().len() > 0 ==> final(self).registry().len() == old(
                self).registry().len() && final(self).registry()[0].factory == old(
                self).registry()[0].factory && forall|i: int|
                1 <= i < old(self).registry().len() ==> final(self).registry()[i] == old(
                    self).registry()[i],
    {
        let ghost before = self.registry();
        if self.seen_children.len() == 0 {
            self.seen_children.push(
                SeenChild {
                    locator: String::from_str("ROOT"),
                    url: root_url,
                    factory: TreeIdFactory::default(),
                },
            );
            assert(self.registry().drop_last() =~= Seq::empty());
            assert(slots_taken(self.registry().drop_last()) == 0);
            assert(slots_taken(self.registry()) == 0);
            assert(registry_wf(self.registry()));
        } else {
            let factory = self.seen_children[0].factory.clone();
            let locator = self.seen_children[0].locator.clone();
            self.seen_children.set(0, SeenChild { locator, url: root_url, factory });
            proof {
                lemma_slots_after_update(before, 0, self.registry()[0]);
                assert(self.registry() =~= before.update(0, self.registry()[0]));
                let after = self.registry();
                assert forall|i: int| 1 <= i < after.len() implies after[i] == before[i] by {}
                assert forall|i: int, j: int| 0 <= i < j < after.len() implies ranges_apart(
                    (#[trigger] after[i]).factory,
                    (#[trigger] after[j]).factory,
                ) by {
                    assert(ranges_apart(before[i].factory, before[j].factory));
                }
                assert forall|i: int, j: int| 0 <= i < j < after.len() implies after[i].locator@
                    != after[j].locator@ by {
                    assert(before[i].locator@ != before[j].locator@);
                }
                assert forall|i: int| 0 <= i < after.len() implies (
                #[trigger] after[i]).factory.wf() && after[i].factory.spec_dynamic() >= 1 by {
                    assert(before[i].factory.wf());
                }
                assert(registry_wf(after));
            }
        }
    }

    /// The position of the entry of a locality descriptor.
    fn find_locator(&self, locator: &String) -> (r: Option<usize>)
        ensures
            r is Some <==> is_registered(self.registry(), locator@),
            r is Some ==> r->0 < self.registry().len() && self.registry()[r->0 as int].locator@
                == locator@,
    {
        let mut i: usize = 0;
        while i < self.seen_children.len()
            invariant
                i <= self.seen_children.len(),
                forall|j: int| 0 <= j < i ==> self.seen_children@[j].locator@ != locator@,
            decreases self.seen_children.len() - i,
        {
            if str_eq(self.seen_children[i].locator.as_str(), locator.as_str()) {
                return Some(i);
            }
            i = i + 1;
        }
        None
    }

    /// The position of the closest entry that has a free slot.
    fn find_closest(&self, locator: &String) -> (r: Option<usize>)
        ensures
            r is Some <==> has_attach_point(self.registry()),
            r is Some ==> is_closest(self.registry(), locator@, r->0 as int),
    {
        let mut best: Option<usize> = None;
        let mut distance: u64 = 0;
        let mut i: usize = 0;
        while i < self.seen_children.len()
            invariant
                i <= self.seen_children.len(),
                best is None ==> forall|j: int|
                    0 <= j < i ==> (#[trigger] self.seen_children@[j]).factory.spec_full(),
                best is Some ==> {
                    &&& best->0 < i
                    &&& distance == entry_distance(self.seen_children@, best->0 as int, locator@)
                    &&& !self.seen_children@[best->0 as int].factory.spec_full()
                    &&& forall|j: int|
                        0 <= j < i && !(#[trigger] self.seen_children@[j]).factory.spec_full()
                            ==> distance <= entry_distance(self.seen_children@, j, locator@)
                    &&& forall|j: int|
                        0 <= j < best->0 && !(#[trigger] self.seen_children@[j]).factory.spec_full()
                            ==> distance < entry_distance(self.seen_children@, j, locator@)
                },
            decreases self.seen_children.len() - i,
        {
            if !self.seen_children[i].factory.full() {
                let dist = strdistance(&self.seen_children[i].locator, locator);
                match best {
                    None => {
                        best = Some(i);
                        distance = dist;
                    },
                    Some(_) => {
                        if dist < distance {
                            best = Some(i);
                            distance = dist;
                        }
                    },
                }
            }
            i = i + 1;
        }
        best
    }

    /// Picks the entry to seat a new node under, and takes a slot from it.
    /// Returns the address of that entry's node and the range of the new
    /// node.
    fn _pivot_get_closest_id_match(&mut self, locator: &String) -> (r: Result<
        (String, TreeIdFactory),
        PivotError,
    >)
        requires
            old(self).wf(),
        ensures
            final(self).spec_id() == old(self).spec_id(),
            final(self).spec_children() == old(self).spec_children(),
            final(self).registry().len() == old(self).registry().len(),
            r is Err ==> final(self).registry() == old(self).registry(),
            is_registered(old(self).registry(), locator@) ==> r is Err && r->Err_0
                is AlreadyRegistered && r->Err_0->AlreadyRegistered_0@ == locator@,
            !is_registered(old(self).registry(), locator@) && old(self).registry().len() == 0
                ==> r is Err && r->Err_0 is NotRoot,
            !is_registered(old(self).registry(), locator@) && old(self).registry().len() > 0
                && !has_attach_point(old(self).registry()) ==> r is Err && r->Err_0
                is NoAttachPoint,
            forall|k: int|
                !is_registered(old(self).registry(), locator@) && is_attach_point(
                    old(self).registry(),
                    locator@,
                    k,
                ) ==> {
                    if old(self).registry()[k].factory.can_inherit() {
                        &&& r is Ok
                        &&& r->Ok_0.0 == old(self).registry()[k].url
                        &&& TreeIdFactory::is_child_of(r->Ok_0.1, old(self).registry()[k].factory)
                        &&& r->Ok_0.1.wf()
                        &&& r->Ok_0.1.spec_dynamic() >= 1
                        &&& r->Ok_0.1.span_end() <= final(self).registry()[k].factory.used_end()
                        &&& r->Ok_0.1.span_end() <= final(self).registry()[k].factory.span_end()
                        &&& final(self).registry()[k].locator == old(self).registry()[k].locator
                        &&& final(self).registry()[k].url == old(self).registry()[k].url
                        &&& final(self).registry()[k].factory.wf()
                        &&& TreeIdFactory::is_advanced(
                            final(self).registry()[k].factory,
                            old(self).registry()[k].factory,
                        )
                        &&& forall|i: int|
                            0 <= i < old(self).registry().len() && i != k ==> (
                            #[trigger] final(self).registry()[i]) == old(self).registry()[i]
                    } else {
                        r is Err && r->Err_0 is Exhausted
                    }
                },
    {
        match self.find_locator(locator) {
            Some(_) => {
                return Err(PivotError::AlreadyRegistered(locator.clone()));
            },
            None => {},
        }
        if self.seen_children.len() == 0 {
            return Err(PivotError::NotRoot);
        }
        let k: usize = if !self.seen_children[0].factory.full() {
            0
        } else {
            match self.find_closest(locator) {
                Some(k) => k,
                None => {
                    assert forall|k: int|
                        !is_attach_point(old(self).registry(), locator@, k) by {}
                    return Err(PivotError::NoAttachPoint);
                },
            }
        };
        assert(is_attach_point(self.registry(), locator@, k as int));
        assert(has_attach_point(self.registry()));
        assert forall|k2: int| is_attach_point(self.registry(), locator@, k2) implies k2 == k by {
            if self.registry()[0].factory.spec_full() {
                if k2 < k {
                    assert(!self.registry()[k2].factory.spec_full());
                } else if k < k2 {
                    assert(!self.registry()[k as int].factory.spec_full());
                }
            }
        }
        let mut factory = self.seen_children[k].factory.clone();
        match factory.inherit() {
            Ok(child) => {
                let url = self.seen_children[k].url.clone();
                let locator_k = self.seen_children[k].locator.clone();
                let url_k = self.seen_children[k].url.clone();
                self.seen_children.set(k, SeenChild { locator: locator_k, url: url_k, factory });
                Ok((url, child))
            },
            Err(_) => Err(PivotError::Exhausted),
        }
    }

    /// Seats a new node: registers it and tells it its identifier and the
    /// address of the node to attach to.
    ///
    /// A locality descriptor that is registered already is refused. The node
    /// is seated under the root while the root has a free slot, and then
    /// under the registered node with a free slot whose locality descriptor
    /// is closest to its own, the one seen first where several are as close.
    pub fn pivot(&mut self, process_info: &ProcessInfo, from: String) -> (r: Result<
        (u64, String),
        PivotError,
    >)
        requires
            old(self).wf(),
        ensures
            final(self).wf(),
            final(self).spec_id() == old(self).spec_id(),
            final(self).spec_children() == old(self).spec_children(),
            is_seating(
                old(self).registry(),
                final(self).registry(),
                process_info.locality_descriptor@,
                from@,
                r,
            ),
    {
        let ghost before = self.registry();
        let ghost locator = process_info.locality_descriptor@;
        match self._pivot_get_closest_id_match(&process_info.locality_descriptor) {
            Ok((url, new_range)) => {
                let id = new_range.id();
                let ghost mid = self.registry();
                proof {
                    if before[0].factory.spec_full() {
                        assert(has_attach_point(before));
                    }
                }
                let ghost k: int = choose|k: int| is_attach_point(before, locator, k);
                proof {
                    if !before[0].factory.spec_full() {
                        assert(is_attach_point(before, locator, 0));
                    } else {
                        assert(has_attach_point(before));
                        lemma_closest_exists(before, locator);
                        let w = choose|w: int| is_closest(before, locator, w);
                        assert(is_attach_point(before, locator, w));
                    }
                    assert(is_attach_point(before, locator, k));
                }
                self.seen_children.push(
                    SeenChild {
                        locator: process_info.locality_descriptor.clone(),
                        url: from,
                        factory: new_range,
                    },
                );
                proof {
                    let after = self.registry();
                    assert(seated_under(after, before, k, locator, from@));
                    lemma_seating_keeps_wf(before, after, k, locator, from@);
                }
                Ok((id, url))
            },
            Err(e) => Err(e),
        }
    }

    /// Records that the node is connected to a child that serves `targ`.
    pub fn join(&mut self, targ: String)
        ensures
            final(self).spec_id() == old(self).spec_id(),
            final(self).registry() == old(self).registry(),
            final(self).spec_children() == old(self).spec_children().push(targ),
    {
        self.children.push(targ);
    }

    /// How many children the node is connected to.
    pub fn children_count(&self) -> (r: usize)
        ensures
            r == self.spec_children().len(),
    {
        self.children.len()
    }
}

/// Where an entry has a free slot, one of them is the closest.
pub proof fn lemma_closest_exists(entries: Seq<SeenChild>, locator: Seq<char>)
    requires
        has_attach_point(entries),
    ensures
        exists|k: int| is_closest(entries, locator, k),
{
    lemma_closest_upto(entries, locator, entries.len() as int);
    let k = choose|k: int| is_closest(entries.take(entries.len() as int), locator, k);
    assert(entries.take(entries.len() as int) =~= entries);
}

proof fn lemma_closest_upto(entries: Seq<SeenChild>, locator: Seq<char>, n: int)
    requires
        0 <= n <= entries.len(),
    ensures
        has_attach_point(entries.take(n)) ==> exists|k: int|
            is_closest(entries.take(n), locator, k),
    decreases n,
{
    if n > 0 {
        lemma_closest_upto(entries, locator, n - 1);
        let prev = entries.take(n - 1);
        let cur = entries.take(n);
        assert forall|j: int| 0 <= j < n - 1 implies #[trigger] cur[j] == prev[j] by {}
        if has_attach_point(cur) {
            if has_attach_point(prev) {
                let b = choose|k: int| is_closest(prev, locator, k);
                assert(cur[b] == prev[b]);
                if !cur[n - 1].factory.spec_full() && entry_distance(cur, n - 1, locator)
                    < entry_distance(cur, b, locator) {
                    assert forall|j: int|
                        0 <= j < cur.len() && !(#[trigger] cur[j]).factory.spec_full()
                        implies entry_distance(cur, n - 1, locator) <= entry_distance(
                        cur,
                        j,
                        locator,
                    ) by {
                        if j < n - 1 {
                            assert(cur[j] == prev[j]);
                            assert(entry_distance(prev, b, locator) <= entry_distance(
                                prev,
                                j,
                                locator,
                            ));
                        }
                    }
                    assert forall|j: int|
                        0 <= j < n - 1 && !(#[trigger] cur[j]).factory.spec_full()
                        implies entry_distance(cur, n - 1, locator) < entry_distance(
                        cur,
                        j,
                        locator,
                    ) by {
                        assert(cur[j] == prev[j]);
                        assert(entry_distance(prev, b, locator) <= entry_distance(
                            prev,
                            j,
                            locator,
                        ));
                    }
                    assert(is_closest(cur, locator, n - 1));
                } else {
                    assert forall|j: int|
                        0 <= j < cur.len() && !(#[trigger] cur[j]).factory.spec_full()
                        implies entry_distance(cur, b, locator) <= entry_distance(
                        cur,
                        j,
                        locator,
                    ) by {
                        if j < n - 1 {
                            assert(cur[j] == prev[j]);
                            assert(entry_distance(prev, b, locator) <= entry_distance(
                                prev,
                                j,
                                locator,
                            ));
                        }
                    }
                    assert forall|j: int|
                        0 <= j < b && !(#[trigger] cur[j]).factory.spec_full()
                        implies entry_distance(cur, b, locator) < entry_distance(
                        cur,
                        j,
                        locator,
                    ) by {
                        assert(cur[j] == prev[j]);
                        assert(entry_distance(prev, b, locator) < entry_distance(
                            prev,
                            j,
                            locator,
                        ));
                    }
                    assert(is_closest(cur, locator, b));
                }
            } else {
                let w = choose|j: int|
                    0 <= j < cur.len() && !(#[trigger] cur[j]).factory.spec_full();
                if w < n - 1 {
                    assert(prev[w] == cur[w]);
                    assert(has_attach_point(prev));
                }
                assert forall|j: int|
                    0 <= j < n - 1 implies (#[trigger] cur[j]).factory.spec_full() by {
                    assert(prev[j] == cur[j]);
                    if !prev[j].factory.spec_full() {
                        assert(has_attach_point(prev));
                    }
                }
                assert(is_closest(cur, locator, n - 1));
            }
        }
    }
}

/// Seating a node keeps the registry's invariant.
pub proof fn lemma_seating_keeps_wf(
    before: Seq<SeenChild>,
    after: Seq<SeenChild>,
    k: int,
    locator: Seq<char>,
    from: Seq<char>,
)
    requires
        registry_wf(before),
        0 <= k < before.len(),
        !is_registered(before, locator),
        before[k].factory.can_inherit(),
        seated_under(after, before, k, locator, from),
    ensures
        registry_wf(after),
{
    let p = before[k].factory;
    let q = after[k].factory;
    let c = after.last().factory;
    let n = before.len() as int;
    crate::metadata::lemma_slots_fit(
        p.spec_dynamic() as int,
        p.spec_stride() as int,
        p.spec_offset() as int,
    );
    assert(c.spec_id() == p.used_end());
    assert(q.used_end() == p.used_end() + p.spec_stride());
    assert(c.span_end() <= q.used_end());
    assert(c.span_end() <= q.span_end());
    assert(c.wf());
    assert forall|i: int| 0 <= i < after.len() implies (#[trigger] after[i]).factory.wf()
        && after[i].factory.spec_dynamic() >= 1 by {
        if i < n && i != k {
            assert(after[i] == before[i]);
        }
    }
    assert forall|i: int, j: int| 0 <= i < j < after.len() implies after[i].locator@
        != after[j].locator@ by {
        if i < n {
            assert(after[i].locator == before[i].locator);
        }
        if j < n {
            assert(after[j].locator == before[j].locator);
        }
    }
    assert forall|i: int, j: int| 0 <= i < j < after.len() implies ranges_apart(
        (#[trigger] after[i]).factory,
        (#[trigger] after[j]).factory,
    ) by {
        if j < n {
            if i != k && j != k {
                assert(after[i] == before[i]);
                assert(after[j] == before[j]);
            } else if i == k {
                assert(after[j] == before[j]);
                assert(ranges_apart(before[k].factory, before[j].factory));
            } else {
                assert(after[i] == before[i]);
                assert(ranges_apart(before[i].factory, before[k].factory));
            }
        } else {
            if i == k {
            } else {
                assert(after[i] == before[i]);
                if i < k {
                    assert(ranges_apart(before[i].factory, before[k].factory));
                } else {
                    assert(ranges_apart(before[k].factory, before[i].factory));
                }
            }
        }
    }
    if k != 0 {
        assert(after[0] == before[0]);
    }
    lemma_slots_after_update(before, k, after[k]);
    assert(after.drop_last() =~= before.update(k, after[k]));
}

/// Replacing one entry changes the slots handed out by what the two
/// entries differ in.
pub proof fn lemma_slots_after_update(entries: Seq<SeenChild>, k: int, entry: SeenChild)
    requires
        0 <= k < entries.len(),
    ensures
        slots_taken(entries.update(k, entry)) == slots_taken(entries)
            - entries[k].factory.spec_offset() + entry.factory.spec_offset(),
    decreases entries.len(),
{
    let updated = entries.update(k, entry);
    if k == entries.len() - 1 {
        assert(updated.drop_last() =~= entries.drop_last());
    } else {
        assert(updated.drop_last() =~= entries.drop_last().update(k, entry));
        lemma_slots_after_update(entries.drop_last(), k, entry);
    }
}

/// A registry whose ranges are all full has handed out `TREE_ARITY` slots
/// for each entry.
proof fn lemma_slots_when_full(entries: Seq<SeenChild>)
    requires
        forall|i: int| 0 <= i < entries.len() ==> (#[trigger] entries[i]).factory.spec_full(),
    ensures
        slots_taken(entries) == 24 * entries.len(),
    decreases entries.len(),
{
    if entries.len() > 0 {
        assert forall|i: int| 0 <= i < entries.drop_last().len() implies (
        #[trigger] entries.drop_last()[i]).factory.spec_full() by {
            assert(entries.drop_last()[i] == entries[i]);
        }
        lemma_slots_when_full(entries.drop_last());
    }
}

/// A root always has an entry with a free slot: a full root with no other
/// node to seat under cannot come about.
pub proof fn lemma_attach_point_exists(entries: Seq<SeenChild>)
    requires
        registry_wf(entries),
        entries.len() > 0,
    ensures
        has_attach_point(entries),
        entries.len() == 1 ==> !entries[0].factory.spec_full(),
{
    if !has_attach_point(entries) {
        assert forall|i: int| 0 <= i < entries.len() implies (
        #[trigger] entries[i]).factory.spec_full() by {}
        lemma_slots_when_full(entries);
    }
    if entries.len() == 1 && entries[0].factory.spec_full() {
        assert(entries.drop_last() =~= Seq::empty());
    }
}

/// Whether what is left of two ranges, from the first free slot to the end
/// of the span, shares an identifier.
pub open spec fn remaining_overlap(a: TreeIdFactory, b: TreeIdFactory) -> bool {
    &&& a.used_end() < a.span_end()
    &&& b.used_end() < b.span_end()
    &&& a.used_end() < b.span_end()
    &&& b.used_end() < a.span_end()
}

/// Any two entries of a registry have different identifiers, and what is
/// left of their ranges shares no identifier.
pub proof fn lemma_ranges_disjoint(entries: Seq<SeenChild>, i: int, j: int)
    requires
        registry_wf(entries),
        0 <= i < entries.len(),
        0 <= j < entries.len(),
        i != j,
    ensures
        entries[i].factory.spec_id() != entries[j].factory.spec_id(),
        !remaining_overlap(entries[i].factory, entries[j].factory),
        entries[i].locator@ != entries[j].locator@,
{
    if i < j {
        assert(ranges_apart(entries[i].factory, entries[j].factory));
    } else {
        assert(ranges_apart(entries[j].factory, entries[i].factory));
    }
    assert(entries[i].factory.wf() && entries[i].factory.spec_dynamic() >= 1);
    assert(entries[j].factory.wf() && entries[j].factory.spec_dynamic() >= 1);
}

/// A root that is full and has seated no one besides refuses whoever asks
/// to be seated, and its registry stays as it is.
pub proof fn lemma_full_root_alone_refuses(
    before: Seq<SeenChild>,
    after: Seq<SeenChild>,
    locator: Seq<char>,
    from: Seq<char>,
    r: Result<(u64, String), PivotError>,
)
    requires
        is_seating(before, after, locator, from, r),
        before.len() == 1,
        before[0].factory.spec_full(),
    ensures
        r is Err,
        after == before,
        !is_registered(before, locator) ==> r->Err_0 is NoAttachPoint,
{
    assert(!has_attach_point(before));
}

/// While the root has a free slot, a new node is seated under the root and
/// nowhere else.
pub proof fn lemma_root_first(entries: Seq<SeenChild>, locator: Seq<char>, k: int)
    requires
        entries.len() > 0,
        !entries[0].factory.spec_full(),
    ensures
        is_attach_point(entries, locator, k) <==> k == 0,
{
}


/// The messages of the errors among the answers, in order.
pub open spec fn error_messages(resps: Seq<GdbMachineResponse>) -> Seq<Seq<char>>
    decreases resps.len(),
{
    if resps.len() == 0 {
        Seq::empty()
    } else {
        let rest = error_messages(resps.drop_last());
        match resps.last() {
            GdbMachineResponse::Error(e) => rest.push(e@),
            _ => rest,
        }
    }
}

/// The messages in one text, with a comma between any two.
pub open spec fn join_commas(msgs: Seq<Seq<char>>) -> Seq<char>
    decreases msgs.len(),
{
    if msgs.len() == 0 {
        Seq::empty()
    } else if msgs.len() == 1 {
        msgs[0]
    } else {
        join_commas(msgs.drop_last()) + ","@ + msgs.last()
    }
}

/// The sum of the counts among the answers.
pub open spec fn total_count(resps: Seq<GdbMachineResponse>) -> nat
    decreases resps.len(),
{
    if resps.len() == 0 {
        0
    } else {
        let rest = total_count(resps.drop_last());
        match resps.last() {
            GdbMachineResponse::Count(c) => rest + c as nat,
            _ => rest,
        }
    }
}

/// The states among the answers in one map; where two answers know an
/// identifier, the later one's state stands.
pub open spec fn union_states(resps: Seq<GdbMachineResponse>) -> Map<u64, RunState>
    decreases resps.len(),
{
    if resps.len() == 0 {
        Map::empty()
    } else {
        let rest = union_states(resps.drop_last());
        match resps.last() {
            GdbMachineResponse::State(st) => rest.union_prefer_right(st@),
            _ => rest,
        }
    }
}

/// The sets of components among the answers, in order.
pub open spec fn snapshot_views(resps: Seq<GdbMachineResponse>) -> Seq<ComponentsView>
    decreases resps.len(),
{
    if resps.len() == 0 {
        Seq::empty()
    } else {
        let rest = snapshot_views(resps.drop_last());
        match resps.last() {
            GdbMachineResponse::Snapshot(sn) => rest.push(components_view(sn@)),
            _ => rest,
        }
    }
}

/// The answers of the children, where every child has answered; else the
/// error of the first child that has not.
pub fn collect_responses(results: Vec<Result<GdbMachineResponse, String>>) -> (r: Result<
    Vec<GdbMachineResponse>,
    String,
>)
    ensures
        r is Ok <==> forall|i: int| 0 <= i < results@.len() ==> results@[i] is Ok,
        r is Ok ==> r->Ok_0@.len() == results@.len() && forall|i: int|
            0 <= i < results@.len() ==> r->Ok_0@[i] == results@[i]->Ok_0,
        r is Err ==> exists|k: int|
            {
                &&& 0 <= k < results@.len()
                &&& results@[k] == Err::<GdbMachineResponse, String>(r->Err_0)
                &&& forall|i: int| 0 <= i < k ==> results@[i] is Ok
            },
{
    let mut results = results;
    let ghost all = results@;
    let mut out: Vec<GdbMachineResponse> = Vec::new();
    let mut failure: Option<String> = None;
    let ghost mut failed_at: int = -1;
    while results.len() > 0
        invariant
            results@.len() <= all.len(),
            results@ == all.take(results@.len() as int),
            failure is None ==> {
                &&& out@.len() == all.len() - results@.len()
                &&& forall|i: int|
                    results@.len() <= i < all.len() ==> all[i] is Ok && all[i]->Ok_0
                        == out@[all.len() - 1 - i]
            },
            failure is Some ==> {
                &&& results@.len() <= failed_at < all.len()
                &&& all[failed_at] == Err::<GdbMachineResponse, String>(failure->0)
                &&& forall|i: int| results@.len() <= i < failed_at ==> all[i] is Ok
            },
        decreases results@.len(),
    {
        let ghost n = results@.len() as int;
        let last = results.pop();
        assert(results@ =~= all.take(n - 1));
        match last {
            Some(Ok(resp)) => {
                if failure.is_none() {
                    out.push(resp);
                }
            },
            Some(Err(e)) => {
                failure = Some(e);
                proof {
                    failed_at = n - 1;
                }
            },
            None => {},
        }
    }
    match failure {
        Some(e) => Err(e),
        None => {
            let mut ordered: Vec<GdbMachineResponse> = Vec::new();
            let ghost rev = out@;
            while out.len() > 0
                invariant
                    out@.len() <= rev.len(),
                    out@ == rev.take(out@.len() as int),
                    ordered@.len() == rev.len() - out@.len(),
                    forall|i: int|
                        0 <= i < ordered@.len() ==> ordered@[i] == rev[rev.len() - 1 - i],
                decreases out@.len(),
            {
                let ghost n = out@.len() as int;
                let last = out.pop();
                assert(out@ =~= rev.take(n - 1));
                match last {
                    Some(resp) => {
                        ordered.push(resp);
                    },
                    None => {},
                }
            }
            Ok(ordered)
        },
    }
}

impl TreeState {
    /// Whether no child has answered with an error. Where some have, their
    /// messages come back in one text, with commas between them.
    pub fn all_resp_ok(resps: &Vec<GdbMachineResponse>) -> (r: Result<(), String>)
        ensures
            r is Ok <==> error_messages(resps@).len() == 0,
            r is Err ==> r->Err_0@ == join_commas(error_messages(resps@)),
    {
        let mut joined = String::new();
        let mut found: usize = 0;
        let mut i: usize = 0;
        assert(resps@.take(0) =~= Seq::empty());
        while i < resps.len()
            invariant
                i <= resps.len(),
                found == error_messages(resps@.take(i as int)).len(),
                found <= i,
                joined@ == join_commas(error_messages(resps@.take(i as int))),
            decreases resps.len() - i,
        {
            assert(resps@.take(i + 1).drop_last() =~= resps@.take(i as int));
            assert(resps@.take(i + 1).last() == resps@[i as int]);
            match &resps[i] {
                GdbMachineResponse::Error(e) => {
                    let ghost before = error_messages(resps@.take(i as int));
                    let ghost after = error_messages(resps@.take(i + 1));
                    assert(after == before.push(e@));
                    assert(after.drop_last() =~= before);
                    if found > 0 {
                        joined.append(",");
                    } else {
                        assert(joined@ + e@ =~= e@);
                    }
                    joined.append(e.as_str());
                    found = found + 1;
                },
                _ => {},
            }
            i = i + 1;
        }
        assert(resps@.take(resps.len() as int) =~= resps@);
        if found > 0 {
            Err(joined)
        } else {
            Ok(())
        }
    }

    /// How many debuggers stand under this node: the sum of the counts that
    /// its children have answered, held at `u64::MAX`, or the errors where a
    /// child has answered with one.
    pub fn count(resps: &Vec<GdbMachineResponse>) -> (r: Result<u64, String>)
        ensures
            r is Ok <==> error_messages(resps@).len() == 0,
            r is Ok ==> r->Ok_0 == saturated(total_count(resps@)),
            r is Err ==> r->Err_0@ == join_commas(error_messages(resps@)),
    {
        match TreeState::all_resp_ok(resps) {
            Err(e) => {
                return Err(e);
            },
            Ok(_) => {},
        }
        let mut ret: u64 = 0;
        let mut i: usize = 0;
        assert(resps@.take(0) =~= Seq::empty());
        while i < resps.len()
            invariant
                i <= resps.len(),
                ret == saturated(total_count(resps@.take(i as int))),
            decreases resps.len() - i,
        {
            assert(resps@.take(i + 1).drop_last() =~= resps@.take(i as int));
            assert(resps@.take(i + 1).last() == resps@[i as int]);
            match &resps[i] {
                GdbMachineResponse::Count(c) => {
                    ret = ret.saturating_add(*c);
                },
                _ => {},
            }
            i = i + 1;
        }
        assert(resps@.take(resps.len() as int) =~= resps@);
        Ok(ret)
    }

    /// The states of the programs under this node: the union of the states
    /// that its children have answered, or the errors where a child has
    /// answered with one.
    pub fn state(resps: &Vec<GdbMachineResponse>) -> (r: Result<HashMap<u64, RunState>, String>)
        ensures
            r is Ok <==> error_messages(resps@).len() == 0,
            r is Ok ==> r->Ok_0@ == union_states(resps@),
            r is Err ==> r->Err_0@ == join_commas(error_messages(resps@)),
    {
        match TreeState::all_resp_ok(resps) {
            Err(e) => {
                return Err(e);
            },
            Ok(_) => {},
        }
        let mut ret: HashMap<u64, RunState> = HashMap::new();
        let mut i: usize = 0;
        assert(resps@.take(0) =~= Seq::empty());
        while i < resps.len()
            invariant
                i <= resps.len(),
                ret@ == union_states(resps@.take(i as int)),
            decreases resps.len() - i,
        {
            assert(resps@.take(i + 1).drop_last() =~= resps@.take(i as int));
            assert(resps@.take(i + 1).last() == resps@[i as int]);
            match &resps[i] {
                GdbMachineResponse::State(st) => {
                    merge_states(&mut ret, st);
                },
                _ => {},
            }
            i = i + 1;
        }
        assert(resps@.take(resps.len() as int) =~= resps@);
        Ok(ret)
    }

    /// The components of the programs under this node: those that its
    /// children have answered, merged, or the errors where a child has
    /// answered with one.
    pub fn snapshot(resps: &Vec<GdbMachineResponse>) -> (r: Result<
        HashMap<u64, (u64, Vec<BacktraceState>)>,
        String,
    >)
        ensures
            r is Ok <==> error_messages(resps@).len() == 0,
            r is Ok ==> components_view(r->Ok_0@) == spec_components_merge(
                snapshot_views(resps@),
            ),
            r is Err ==> r->Err_0@ == join_commas(error_messages(resps@)),
    {
        match TreeState::all_resp_ok(resps) {
            Err(e) => {
                return Err(e);
            },
            Ok(_) => {},
        }
        let mut components: Vec<HashMap<u64, (u64, Vec<BacktraceState>)>> = Vec::new();
        let mut i: usize = 0;
        assert(resps@.take(0) =~= Seq::empty());
        assert(components_views(components@) =~= Seq::empty());
        while i < resps.len()
            invariant
                i <= resps.len(),
                components_views(components@) == snapshot_views(resps@.take(i as int)),
            decreases resps.len() - i,
        {
            assert(resps@.take(i + 1).drop_last() =~= resps@.take(i as int));
            assert(resps@.take(i + 1).last() == resps@[i as int]);
            match &resps[i] {
                GdbMachineResponse::Snapshot(sn) => {
                    let ghost before = components_views(components@);
                    let mut copy: HashMap<u64, (u64, Vec<BacktraceState>)> = HashMap::new();
                    assert(components_view(copy@) =~= Map::empty());
                    merge_one(&mut copy, sn);
                    proof {
                        lemma_merge_identity(components_view(sn@));
                    }
                    components.push(copy);
                    assert(components_views(components@) =~= before.push(components_view(sn@)));
                },
                _ => {},
            }
            i = i + 1;
        }
        assert(resps@.take(resps.len() as int) =~= resps@);
        Ok(ProgramSnapshot::components_merge(components))
    }

    /// The symbols of the programs under this node. No reduction of symbol
    /// tables is defined, so this is an error whatever the children answer.
    pub fn symbols(resps: &Vec<GdbMachineResponse>) -> (r: Result<SymbolTable, String>)
        ensures
            r is Err,
            r->Err_0@ == "Symbols are not gathered across the tree"@,
    {
        Err(String::from_str("Symbols are not gathered across the tree"))
    }
}

} // verus!
