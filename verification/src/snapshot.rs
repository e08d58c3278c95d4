//! Snapshots of a program and their deduplicated, countable form.

use crate::metadata::{
    spec_component_hash, BacktraceState, BacktraceStateView, DebugFrame, DisplayFrame, StopReason,
};
use std::collections::HashMap;
use vstd::prelude::*;
use vstd::std_specs::iter::IteratorSpec;

verus! {

/// The keys of `m`, each once, in no particular order.
pub fn map_keys<K: Copy, V>(m: &HashMap<K, V>) -> (v: Vec<K>)
    requires
        vstd::std_specs::hash::obeys_key_model::<K>(),
    ensures
        v@.no_duplicates(),
        v@.to_set() == m@.dom(),
{
    let mut v: Vec<K> = Vec::new();
    let ghost full: Seq<K> = vstd::std_specs::hash::spec_keys_iter(m).remaining().unref();
    proof {
        vstd::std_specs::hash::axiom_spec_keys_iter(m);
    }
    for k in it: m.keys()
        invariant
            it.seq().unref() == full,
            v@ == full.take(it.index() as int),
            it.index() == full.len() ==> v@ == full,
    {
        v.push(*k);
        assert(it.index() + 1 == full.len() ==> v@ =~= full);
    }
    v
}

/// Aggregated components: for each hash, how many backtraces have it, and
/// the elements of one of them.
pub type ComponentsView = Map<u64, (u64, Seq<BacktraceStateView>)>;

/// What a map of components holds.
pub open spec fn components_view(m: Map<u64, (u64, Vec<BacktraceState>)>) -> ComponentsView {
    m.map_values(|v: (u64, Vec<BacktraceState>)| (v.0, v.1.deep_view()))
}

/// The count of every hash, without the elements.
pub open spec fn counts(c: ComponentsView) -> Map<u64, u64> {
    c.map_values(|v: (u64, Seq<BacktraceStateView>)| v.0)
}

/// The sum of two counts, held at `u64::MAX` where it would pass it.
pub open spec fn sat_add(a: u64, b: u64) -> u64 {
    if a + b <= u64::MAX {
        (a + b) as u64
    } else {
        u64::MAX
    }
}

/// `other` merged into `base`: every hash of either; the counts summed
/// where both have the hash; the elements of `base` where it has the hash,
/// else those of `other`.
pub open spec fn merge_into(base: ComponentsView, other: ComponentsView) -> ComponentsView {
    Map::new(
        |h: u64| base.contains_key(h) || other.contains_key(h),
        |h: u64|
            if base.contains_key(h) {
                if other.contains_key(h) {
                    (sat_add(base[h].0, other[h].0), base[h].1)
                } else {
                    base[h]
                }
            } else {
                other[h]
            },
    )
}

/// The first `n` of `maps` merged into `base`, one after the other.
pub open spec fn merge_prefix(base: ComponentsView, maps: Seq<ComponentsView>, n: nat) -> ComponentsView
    decreases n,
{
    if n == 0 {
        base
    } else {
        merge_into(merge_prefix(base, maps, (n - 1) as nat), maps[n - 1])
    }
}

/// All of `maps` merged: the last one is the base, and the others are
/// merged into it from the first on. No map gives the empty map.
pub open spec fn spec_components_merge(maps: Seq<ComponentsView>) -> ComponentsView {
    if maps.len() == 0 {
        Map::empty()
    } else {
        merge_prefix(maps.last(), maps.drop_last(), (maps.len() - 1) as nat)
    }
}

/// What each of a list of maps holds.
pub open spec fn components_views(maps: Seq<HashMap<u64, (u64, Vec<BacktraceState>)>>) -> Seq<
    ComponentsView,
> {
    Seq::new(maps.len(), |i: int| components_view(maps[i]@))
}

/// A copy of a list of backtrace elements.
pub fn clone_elements(v: &Vec<BacktraceState>) -> (r: Vec<BacktraceState>)
    ensures
        r@ == v@,
        r.deep_view() == v.deep_view(),
{
    let mut out: Vec<BacktraceState> = Vec::new();
    let mut i: usize = 0;
    while i < v.len()
        invariant
            i <= v.len(),
            out@ == v@.take(i as int),
        decreases v.len() - i,
    {
        out.push(v[i].clone());
        assert(out@ =~= v@.take(i + 1));
        i = i + 1;
    }
    assert(v@.take(v.len() as int) =~= v@);
    assert(out.deep_view() =~= v.deep_view());
    out
}

/// Merges `other` into `first`.
pub fn merge_one(
    first: &mut HashMap<u64, (u64, Vec<BacktraceState>)>,
    other: &HashMap<u64, (u64, Vec<BacktraceState>)>,
)
    ensures
        components_view(final(first)@) == merge_into(
            components_view(old(first)@),
            components_view(other@),
        ),
{
    broadcast use vstd::std_specs::hash::group_hash_axioms;

    let ghost base = components_view(first@);
    let ghost add = components_view(other@);
    let keys = map_keys(other);
    let ghost mut seen: Set<u64> = Set::empty();
    let mut i: usize = 0;
    assert(components_view(first@) =~= merge_into(base, add.restrict(seen)));
    while i < keys.len()
        invariant
            i <= keys.len(),
            keys@.no_duplicates(),
            keys@.to_set() == other@.dom(),
            add == components_view(other@),
            forall|h: u64| seen.contains(h) <==> exists|j: int| 0 <= j < i && keys@[j] == h,
            components_view(first@) == merge_into(base, add.restrict(seen)),
        decreases keys.len() - i,
    {
        let h: u64 = keys[i];
        assert(keys@.to_set().contains(keys@[i as int]));
        assert(!seen.contains(h));
        let ghost before = components_view(first@);
        let ghost fm0 = first@;
        let ghost fresh: (u64, Vec<BacktraceState>);
        match other.get(&h) {
            Some(entry) => {
                let cnt: u64 = entry.0;
                assert(other@.contains_key(h) && other@[h] == *entry);
                match first.remove(&h) {
                    Some(mine) => {
                        assert(fm0.contains_key(h) && fm0[h] == mine);
                        let (targ_cnt, elems) = mine;
                        proof {
                            fresh = (sat_add(targ_cnt, cnt), elems);
                        }
                        first.insert(h, (targ_cnt.saturating_add(cnt), elems));
                    },
                    None => {
                        assert(!fm0.contains_key(h));
                        let elems = clone_elements(&entry.1);
                        proof {
                            fresh = (cnt, elems);
                        }
                        first.insert(h, (cnt, elems));
                    },
                }
            },
            None => {
                assert(false);
                proof {
                    fresh = arbitrary();
                }
            },
        }
        assert(first@ =~= fm0.insert(h, fresh));
        proof {
            let next = seen.insert(h);
            let target = merge_into(base, add.restrict(next));
            let prev = merge_into(base, add.restrict(seen));
            assert(!add.restrict(seen).contains_key(h));
            assert(add.restrict(next).contains_key(h) && add.restrict(next)[h] == add[h]);
            assert(add[h] == (other@[h].0, other@[h].1.deep_view()));
            assert forall|x: u64| components_view(first@).contains_key(x) == target.contains_key(
                x,
            ) by {
                if x != h {
                    assert(before.contains_key(x) == prev.contains_key(x));
                    assert(add.restrict(next).contains_key(x) == add.restrict(seen).contains_key(
                        x,
                    ));
                }
            }
            assert forall|x: u64| components_view(first@).contains_key(x) implies components_view(
                first@,
            )[x] == target[x] by {
                if x != h {
                    assert(before.contains_key(x));
                    assert(before[x] == prev[x]);
                    assert(add.restrict(next).contains_key(x) == add.restrict(seen).contains_key(
                        x,
                    ));
                } else {
                    assert(before.contains_key(h) == prev.contains_key(h));
                    if fm0.contains_key(h) {
                        assert(before[h] == prev[h]);
                    }
                }
            }
            assert(components_view(first@) =~= target);
            assert forall|x: u64| next.contains(x) <==> exists|j: int|
                0 <= j < i + 1 && keys@[j] == x by {
                if next.contains(x) {
                    if x == h {
                        assert(keys@[i as int] == x);
                    } else {
                        let j = choose|j: int| 0 <= j < i && keys@[j] == x;
                        assert(0 <= j < i + 1 && keys@[j] == x);
                    }
                }
            }
            seen = next;
        }
        i = i + 1;
    }
    proof {
        assert forall|h: u64| add.contains_key(h) implies seen.contains(h) by {
            assert(keys@.to_set().contains(h));
            let j = choose|j: int| 0 <= j < keys@.len() && keys@[j] == h;
            assert(0 <= j < i && keys@[j] == h);
        }
        assert(add.restrict(seen) =~= add);
    }
}


/// The stacks of the threads of one program, and why it has stopped.
#[derive(Debug)]
pub struct ProgramSnapshot {
    /// The frames of each thread, by thread identifier.
    pub state: HashMap<u32, Vec<DebugFrame>>,
    /// Why the program has stopped, where that is known.
    pub stop_state: Option<StopReason>,
}

/// A thread of a program in a set of snapshots: the program's identifier,
/// then the thread's.
pub type ThreadKey = (u64, u32);

/// Every thread of every program in `ds`.
pub open spec fn thread_pairs(ds: Map<u64, ProgramSnapshot>) -> Set<ThreadKey> {
    Set::new(|p: ThreadKey| ds.contains_key(p.0) && ds[p.0].state@.contains_key(p.1))
}

/// The backtrace of thread `p`.
pub open spec fn pair_component(ds: Map<u64, ProgramSnapshot>, p: ThreadKey) -> Seq<
    BacktraceStateView,
> {
    ds[p.0].thread_component(p.1)
}

/// The threads among `among` whose backtrace has the hash `h`.
pub open spec fn pairs_hashing_to(
    ds: Map<u64, ProgramSnapshot>,
    among: Set<ThreadKey>,
    h: u64,
) -> Set<ThreadKey> {
    among.filter(|p: ThreadKey| spec_component_hash(pair_component(ds, p)) == h)
}

/// A number of backtraces as a count, held at `u64::MAX`.
pub open spec fn saturated(n: nat) -> u64 {
    if n <= u64::MAX {
        n as u64
    } else {
        u64::MAX
    }
}

/// `c` holds the components of the threads `among`: a hash is in it where
/// a thread's backtrace has that hash; its count is the number of such
/// threads; its elements are the backtrace of one of them.
pub open spec fn is_components_of(
    c: ComponentsView,
    ds: Map<u64, ProgramSnapshot>,
    among: Set<ThreadKey>,
) -> bool {
    &&& forall|p: ThreadKey| #[trigger]
        among.contains(p) ==> c.contains_key(spec_component_hash(pair_component(ds, p)))
    &&& forall|h: u64| #[trigger]
        c.contains_key(h) ==> {
            &&& c[h].0 == saturated(pairs_hashing_to(ds, among, h).len())
            &&& exists|p: ThreadKey| #[trigger]
                pairs_hashing_to(ds, among, h).contains(p) && c[h].1 == pair_component(ds, p)
        }
}

/// Every key of a map of components is the hash of the elements it holds.
pub open spec fn components_wf(c: ComponentsView) -> bool {
    forall|h: u64| #[trigger] c.contains_key(h) ==> spec_component_hash(c[h].1) == h
}

/// Counting one more thread keeps the components those of the threads
/// counted.
proof fn lemma_count_one_more(
    c: ComponentsView,
    ds: Map<u64, ProgramSnapshot>,
    among: Set<ThreadKey>,
    p: ThreadKey,
    next: ComponentsView,
)
    requires
        is_components_of(c, ds, among),
        among.finite(),
        !among.contains(p),
        ({
            let h = spec_component_hash(pair_component(ds, p));
            next == if c.contains_key(h) {
                c.insert(h, (sat_add(c[h].0, 1), c[h].1))
            } else {
                c.insert(h, (1u64, pair_component(ds, p)))
            }
        }),
    ensures
        is_components_of(next, ds, among.insert(p)),
{
    let h = spec_component_hash(pair_component(ds, p));
    let f = |q: ThreadKey| spec_component_hash(pair_component(ds, q)) == h;
    let grown = among.insert(p);
    among.lemma_len_filter(f);
    assert(pairs_hashing_to(ds, grown, h) =~= pairs_hashing_to(ds, among, h).insert(p));
    assert(pairs_hashing_to(ds, among, h).finite());
    assert(!pairs_hashing_to(ds, among, h).contains(p));
    assert forall|x: u64| #[trigger] next.contains_key(x) implies {
        &&& next[x].0 == saturated(pairs_hashing_to(ds, grown, x).len())
        &&& exists|q: ThreadKey| #[trigger]
            pairs_hashing_to(ds, grown, x).contains(q) && next[x].1 == pair_component(ds, q)
    } by {
        if x == h {
            if c.contains_key(h) {
                let q = choose|q: ThreadKey| #[trigger]
                    pairs_hashing_to(ds, among, h).contains(q) && c[h].1 == pair_component(ds, q);
                assert(pairs_hashing_to(ds, grown, h).contains(q));
            } else {
                assert(pairs_hashing_to(ds, among, h) =~= Set::empty()) by {
                    assert forall|q: ThreadKey| !pairs_hashing_to(ds, among, h).contains(q) by {
                        if among.contains(q) {
                            assert(c.contains_key(spec_component_hash(pair_component(ds, q))));
                        }
                    }
                }
                assert(pairs_hashing_to(ds, grown, h).contains(p));
            }
        } else {
            assert(pairs_hashing_to(ds, grown, x) =~= pairs_hashing_to(ds, among, x));
            let q = choose|q: ThreadKey| #[trigger]
                pairs_hashing_to(ds, among, x).contains(q) && c[x].1 == pair_component(ds, q);
            assert(pairs_hashing_to(ds, grown, x).contains(q));
        }
    }
    assert forall|q: ThreadKey| #[trigger] grown.contains(q) implies next.contains_key(
        spec_component_hash(pair_component(ds, q)),
    ) by {
        if q != p {
            assert(among.contains(q));
        }
    }
}

/// The components of a set of threads are keyed by the hash of their
/// elements.
pub proof fn lemma_components_of_wf(
    c: ComponentsView,
    ds: Map<u64, ProgramSnapshot>,
    among: Set<ThreadKey>,
)
    requires
        is_components_of(c, ds, among),
    ensures
        components_wf(c),
{
    assert forall|h: u64| #[trigger] c.contains_key(h) implies spec_component_hash(c[h].1)
        == h by {
        let q = choose|q: ThreadKey| #[trigger]
            pairs_hashing_to(ds, among, h).contains(q) && c[h].1 == pair_component(ds, q);
    }
}

impl ProgramSnapshot {
    /// What stands in front of the frames of every thread: the stop state,
    /// where there is one and it is not an interrupt signal.
    pub open spec fn spec_prefix(&self) -> Seq<BacktraceStateView> {
        match self.stop_state {
            Some(reason) => if reason.spec_is_sigint() {
                Seq::empty()
            } else {
                seq![reason.spec_descriptor()]
            },
            None => Seq::empty(),
        }
    }

    /// The backtrace of thread `t`: the prefix, then its frames.
    pub open spec fn thread_component(&self, t: u32) -> Seq<BacktraceStateView> {
        self.spec_prefix() + DebugFrame::spec_component(self.state@[t]@)
    }

    /// The snapshot of a program that has exited: one thread, numbered 0,
    /// with the placeholder frame, and the stop state given.
    pub fn exited(stop_state: Option<StopReason>) -> (r: ProgramSnapshot)
        ensures
            r.stop_state == stop_state,
            r.state@.dom() == set![0u32],
            r.state@[0u32]@.len() == 1,
            r.state@[0u32]@[0].is_exited_frame(),
    {
        broadcast use vstd::std_specs::hash::group_hash_axioms;

        let mut state: HashMap<u32, Vec<DebugFrame>> = HashMap::new();
        let mut frames: Vec<DebugFrame> = Vec::new();
        frames.push(DebugFrame::exited());
        state.insert(0, frames);
        assert(state@.dom() =~= set![0u32]);
        ProgramSnapshot { state, stop_state }
    }

    /// The backtrace of one thread: the stop state in front, unless the
    /// program was stopped by an interrupt signal, then the frames.
    pub fn component_of(&self, frames: &Vec<DebugFrame>) -> (r: Vec<BacktraceState>)
        ensures
            r.deep_view() == self.spec_prefix() + DebugFrame::spec_component(frames@),
    {
        let mut comp: Vec<BacktraceState> = Vec::new();
        match &self.stop_state {
            Some(stop_reason) => {
                if !stop_reason.is_sigint() {
                    comp.push(stop_reason.descriptor());
                }
            },
            None => {},
        }
        assert(comp.deep_view() =~= self.spec_prefix());
        let mut rest = DebugFrame::to_component(frames);
        let ghost head = comp.deep_view();
        let ghost tail = rest.deep_view();
        let ghost head_raw = comp@;
        let ghost tail_raw = rest@;
        comp.append(&mut rest);
        assert(comp@ == head_raw + tail_raw);
        assert(comp.deep_view() =~= head + tail);
        comp
    }

    /// Deduplicates the backtraces of every thread of every program: one
    /// entry for each hash, with the number of threads whose backtrace has
    /// it and the elements of one of them.
    pub fn generate_components(dist_state: HashMap<u64, ProgramSnapshot>) -> (r: HashMap<
        u64,
        (u64, Vec<BacktraceState>),
    >)
        ensures
            is_components_of(components_view(r@), dist_state@, thread_pairs(dist_state@)),
            components_wf(components_view(r@)),
    {
        broadcast use vstd::std_specs::hash::group_hash_axioms;

        let mut components: HashMap<u64, (u64, Vec<BacktraceState>)> = HashMap::new();
        let ghost ds = dist_state@;
        let ghost mut done: Set<ThreadKey> = Set::empty();
        let nodes = map_keys(&dist_state);
        let mut i: usize = 0;
        assert(components_view(components@) =~= Map::empty());
        while i < nodes.len()
            invariant
                i <= nodes.len(),
                ds == dist_state@,
                nodes@.no_duplicates(),
                nodes@.to_set() == ds.dom(),
                done.finite(),
                forall|p: ThreadKey|
                    done.contains(p) <==> thread_pairs(ds).contains(p) && exists|a: int|
                        0 <= a < i && nodes@[a] == p.0,
                is_components_of(components_view(components@), ds, done),
            decreases nodes.len() - i,
        {
            let node: u64 = nodes[i];
            assert(nodes@.to_set().contains(nodes@[i as int]));
            let snap_opt = dist_state.get(&node);
            assert(snap_opt is Some);
            let snap: &ProgramSnapshot = snap_opt.unwrap();
            assert(*snap == ds[node]);
            let threads = map_keys(&snap.state);
            let ghost outer = done;
            let mut j: usize = 0;
            while j < threads.len()
                invariant
                    j <= threads.len(),
                    i < nodes.len(),
                    node == nodes@[i as int],
                    ds == dist_state@,
                    ds.contains_key(node),
                    *snap == ds[node],
                    nodes@.no_duplicates(),
                    threads@.no_duplicates(),
                    threads@.to_set() == snap.state@.dom(),
                    done.finite(),
                    forall|p: ThreadKey|
                        outer.contains(p) <==> thread_pairs(ds).contains(p) && exists|a: int|
                            0 <= a < i && nodes@[a] == p.0,
                    forall|p: ThreadKey|
                        done.contains(p) <==> outer.contains(p) || (p.0 == node && exists|b: int|
                            0 <= b < j && threads@[b] == p.1),
                    is_components_of(components_view(components@), ds, done),
                decreases threads.len() - j,
            {
                let th: u32 = threads[j];
                assert(threads@.to_set().contains(threads@[j as int]));
                let frames_opt = snap.state.get(&th);
                assert(frames_opt is Some);
                let thsnap: &Vec<DebugFrame> = frames_opt.unwrap();
                let comp = snap.component_of(thsnap);
                let hash = DebugFrame::hash_component(&comp);
                let ghost p: ThreadKey = (node, th);
                let ghost before = components_view(components@);
                let ghost raw = components@;
                assert(comp.deep_view() == pair_component(ds, p));
                assert(!done.contains(p)) by {
                    if outer.contains(p) {
                        let a = choose|a: int| 0 <= a < i && nodes@[a] == p.0;
                        assert(nodes@[a] == nodes@[i as int]);
                    }
                }
                let ghost fresh: (u64, Vec<BacktraceState>);
                match components.remove(&hash) {
                    Some(mine) => {
                        assert(raw.contains_key(hash) && raw[hash] == mine);
                        let (cnt, elems) = mine;
                        proof {
                            fresh = (sat_add(cnt, 1), elems);
                        }
                        components.insert(hash, (cnt.saturating_add(1), elems));
                    },
                    None => {
                        assert(!raw.contains_key(hash));
                        proof {
                            fresh = (1u64, comp);
                        }
                        components.insert(hash, (1, comp));
                    },
                }
                proof {
                    assert(components@ =~= raw.insert(hash, fresh));
                    let next = components_view(components@);
                    let want = if before.contains_key(hash) {
                        before.insert(hash, (sat_add(before[hash].0, 1), before[hash].1))
                    } else {
                        before.insert(hash, (1u64, pair_component(ds, p)))
                    };
                    assert(next =~= want);
                    lemma_count_one_more(before, ds, done, p, next);
                    let grown = done.insert(p);
                    assert forall|q: ThreadKey|
                        grown.contains(q) <==> outer.contains(q) || (q.0 == node && exists|b: int|
                            0 <= b < j + 1 && threads@[b] == q.1) by {
                        if grown.contains(q) && !outer.contains(q) {
                            if q == p {
                                assert(threads@[j as int] == q.1);
                            } else {
                                let b = choose|b: int| 0 <= b < j && threads@[b] == q.1;
                                assert(0 <= b < j + 1 && threads@[b] == q.1);
                            }
                        }
                        if q.0 == node && (exists|b: int| 0 <= b < j + 1 && threads@[b] == q.1) {
                            let b = choose|b: int| 0 <= b < j + 1 && threads@[b] == q.1;
                            if b < j {
                                assert(done.contains(q));
                            } else {
                                assert(q == p);
                            }
                        }
                    }
                    done = grown;
                }
                j = j + 1;
            }
            proof {
                assert forall|p: ThreadKey|
                    done.contains(p) <==> thread_pairs(ds).contains(p) && exists|a: int|
                        0 <= a < i + 1 && nodes@[a] == p.0 by {
                    if done.contains(p) {
                        if outer.contains(p) {
                            let a = choose|a: int| 0 <= a < i && nodes@[a] == p.0;
                            assert(0 <= a < i + 1 && nodes@[a] == p.0);
                        } else {
                            let b = choose|b: int| 0 <= b < j && threads@[b] == p.1;
                            assert(threads@.to_set().contains(threads@[b]));
                            assert(nodes@[i as int] == p.0);
                        }
                    }
                    if thread_pairs(ds).contains(p) && (exists|a: int|
                        0 <= a < i + 1 && nodes@[a] == p.0) {
                        let a = choose|a: int| 0 <= a < i + 1 && nodes@[a] == p.0;
                        if a < i {
                            assert(outer.contains(p));
                        } else {
                            assert(p.0 == node);
                            assert(threads@.to_set().contains(p.1));
                            let b = choose|b: int| 0 <= b < threads@.len() && threads@[b] == p.1;
                            assert(0 <= b < j && threads@[b] == p.1);
                        }
                    }
                }
            }
            i = i + 1;
        }
        proof {
            assert forall|p: ThreadKey| thread_pairs(ds).contains(p) implies done.contains(p) by {
                assert(nodes@.to_set().contains(p.0));
                let a = choose|a: int| 0 <= a < nodes@.len() && nodes@[a] == p.0;
                assert(0 <= a < i && nodes@[a] == p.0);
            }
            assert(done =~= thread_pairs(ds));
            lemma_components_of_wf(components_view(components@), ds, done);
        }
        components
    }

    /// Merges maps of components: the last one is the base, and the others
    /// are merged into it from the first on. For each hash the counts are
    /// summed, and never pass `u64::MAX`.
    pub fn components_merge(mut components: Vec<HashMap<u64, (u64, Vec<BacktraceState>)>>) -> (r:
        HashMap<u64, (u64, Vec<BacktraceState>)>)
        ensures
            components_view(r@) == spec_components_merge(components_views(components@)),
    {
        let ghost all = components_views(components@);
        match components.pop() {
            Some(base) => {
                let mut first = base;
                let mut i: usize = 0;
                assert(components_views(components@) =~= all.drop_last());
                assert(components_view(first@) == all.last());
                while i < components.len()
                    invariant
                        i <= components.len(),
                        components_views(components@) == all.drop_last(),
                        components_view(first@) == merge_prefix(
                            all.last(),
                            all.drop_last(),
                            i as nat,
                        ),
                    decreases components.len() - i,
                {
                    assert(components_views(components@)[i as int] == components_view(
                        components@[i as int]@,
                    ));
                    merge_one(&mut first, &components[i]);
                    i = i + 1;
                }
                first
            },
            None => {
                let out: HashMap<u64, (u64, Vec<BacktraceState>)> = HashMap::new();
                assert(components_view(out@) =~= Map::empty());
                out
            },
        }
    }
}


impl ProgramSnapshot {
    /// The entries of a map of components, one for each hash, in no
    /// particular order.
    pub fn components_vec(components: &HashMap<u64, (u64, Vec<DisplayFrame>)>) -> (r: Vec<
        (u64, Vec<DisplayFrame>),
    >)
        ensures
            exists|keys: Seq<u64>|
                {
                    &&& keys.no_duplicates()
                    &&& keys.to_set() == components@.dom()
                    &&& r@.len() == keys.len()
                    &&& forall|i: int|
                        0 <= i < keys.len() ==> r@[i].0 == components@[#[trigger] keys[i]].0
                            && r@[i].1@ == components@[keys[i]].1@
                },
    {
        broadcast use vstd::std_specs::hash::group_hash_axioms;

        let keys = map_keys(components);
        let mut out: Vec<(u64, Vec<DisplayFrame>)> = Vec::new();
        let mut i: usize = 0;
        while i < keys.len()
            invariant
                i <= keys.len(),
                keys@.to_set() == components@.dom(),
                out@.len() == i,
                forall|j: int|
                    0 <= j < i ==> out@[j].0 == components@[#[trigger] keys@[j]].0 && out@[j].1@
                        == components@[keys@[j]].1@,
            decreases keys.len() - i,
        {
            assert(keys@.to_set().contains(keys@[i as int]));
            match components.get(&keys[i]) {
                Some(entry) => {
                    let frames = clone_frames(&entry.1);
                    out.push((entry.0, frames));
                },
                None => {
                    assert(false);
                },
            }
            i = i + 1;
        }
        out
    }
}

/// A copy of a list of frames.
pub fn clone_frames(v: &Vec<DisplayFrame>) -> (r: Vec<DisplayFrame>)
    ensures
        r@ == v@,
{
    let mut out: Vec<DisplayFrame> = Vec::new();
    let mut i: usize = 0;
    while i < v.len()
        invariant
            i <= v.len(),
            out@ == v@.take(i as int),
        decreases v.len() - i,
    {
        out.push(v[i].clone());
        assert(out@ =~= v@.take(i + 1));
        i = i + 1;
    }
    assert(v@.take(v.len() as int) =~= v@);
    out
}

/// Within one map of components no two entries share a hash: where the
/// elements of two entries hash alike, they are the same entry with the same
/// elements.
pub proof fn lemma_no_collision_within(c: ComponentsView, h1: u64, h2: u64)
    requires
        components_wf(c),
        c.contains_key(h1),
        c.contains_key(h2),
        spec_component_hash(c[h1].1) == spec_component_hash(c[h2].1),
    ensures
        h1 == h2,
        c[h1].1 == c[h2].1,
{
}

/// Merging keeps every key the hash of its elements.
pub proof fn lemma_merge_keeps_wf(a: ComponentsView, b: ComponentsView)
    requires
        components_wf(a),
        components_wf(b),
    ensures
        components_wf(merge_into(a, b)),
{
    assert forall|h: u64| #[trigger] merge_into(a, b).contains_key(h) implies spec_component_hash(
        merge_into(a, b)[h].1,
    ) == h by {
        if a.contains_key(h) {
        } else {
            assert(b.contains_key(h));
        }
    }
}

/// The empty map is the identity of merging, on either side.
pub proof fn lemma_merge_identity(c: ComponentsView)
    ensures
        merge_into(c, Map::empty()) == c,
        merge_into(Map::empty(), c) == c,
{
    assert(merge_into(c, Map::empty()) =~= c);
    assert(merge_into(Map::empty(), c) =~= c);
}

/// The counts of a merge do not depend on the order of the two maps.
pub proof fn lemma_merge_commutative(a: ComponentsView, b: ComponentsView)
    ensures
        counts(merge_into(a, b)) == counts(merge_into(b, a)),
{
    assert(counts(merge_into(a, b)) =~= counts(merge_into(b, a)));
}

/// The counts of a merge of three maps do not depend on how the maps are
/// grouped nor on their order.
pub proof fn lemma_merge_associative(a: ComponentsView, b: ComponentsView, c: ComponentsView)
    ensures
        counts(merge_into(merge_into(a, b), c)) == counts(merge_into(a, merge_into(b, c))),
        counts(merge_into(merge_into(a, b), c)) == counts(merge_into(merge_into(c, a), b)),
{
    assert(counts(merge_into(merge_into(a, b), c)) =~= counts(merge_into(a, merge_into(b, c))));
    assert(counts(merge_into(merge_into(a, b), c)) =~= counts(merge_into(merge_into(c, a), b)));
}

/// Where the maps are keyed by the hash of their elements and no two
/// different backtraces among them hash alike, the whole merge, elements
/// included, does not depend on the order of the two maps.
pub proof fn lemma_merge_commutative_exact(a: ComponentsView, b: ComponentsView)
    requires
        forall|h: u64| a.contains_key(h) && b.contains_key(h) ==> a[h].1 == b[h].1,
    ensures
        merge_into(a, b) == merge_into(b, a),
{
    assert(merge_into(a, b) =~= merge_into(b, a));
}

/// A map merged with itself has the same hashes and the same elements, and
/// every count twice.
pub proof fn lemma_merge_self_doubles(c: ComponentsView)
    ensures
        merge_into(c, c).dom() == c.dom(),
        forall|h: u64| #[trigger]
            c.contains_key(h) ==> merge_into(c, c)[h] == (sat_add(c[h].0, c[h].0), c[h].1),
{
    assert(merge_into(c, c).dom() =~= c.dom());
}

/// Merging two maps is the merge of the list of the two, the second being
/// the base.
pub proof fn lemma_merge_pair(a: ComponentsView, b: ComponentsView)
    ensures
        spec_components_merge(seq![a, b]) == merge_into(b, a),
{
    let maps = seq![a, b];
    assert(maps.drop_last() =~= seq![a]);
    assert(merge_prefix(b, seq![a], 1) == merge_into(merge_prefix(b, seq![a], 0), a));
}

/// Summing counts does not depend on their order nor on how they are
/// grouped.
pub proof fn lemma_sat_add_laws(a: u64, b: u64, c: u64)
    ensures
        sat_add(a, 0) == a,
        sat_add(a, b) == sat_add(b, a),
        sat_add(sat_add(a, b), c) == sat_add(a, sat_add(b, c)),
{
}

/// Where no two different backtraces among the threads hash alike, every
/// entry counts the threads that have exactly its backtrace.
pub proof fn lemma_counts_exact_without_collisions(
    c: ComponentsView,
    ds: Map<u64, ProgramSnapshot>,
    among: Set<ThreadKey>,
    h: u64,
)
    requires
        is_components_of(c, ds, among),
        c.contains_key(h),
        forall|p: ThreadKey, q: ThreadKey|
            among.contains(p) && among.contains(q) && spec_component_hash(pair_component(ds, p))
                == spec_component_hash(pair_component(ds, q)) ==> pair_component(ds, p)
                == pair_component(ds, q),
    ensures
        c[h].0 == saturated(among.filter(|p: ThreadKey| pair_component(ds, p) == c[h].1).len()),
{
    let by_hash = pairs_hashing_to(ds, among, h);
    let by_content = among.filter(|p: ThreadKey| pair_component(ds, p) == c[h].1);
    let w = choose|w: ThreadKey| #[trigger]
        pairs_hashing_to(ds, among, h).contains(w) && c[h].1 == pair_component(ds, w);
    assert forall|p: ThreadKey| by_hash.contains(p) <==> by_content.contains(p) by {
        if by_hash.contains(p) {
            assert(among.contains(p) && among.contains(w));
        }
    }
    assert(by_hash =~= by_content);
}

/// A second program that stands as the first one does, thread for thread
/// and backtrace for backtrace, adds no hash and doubles every count; the
/// elements of every entry are still the backtrace of a thread of the
/// first program.
pub proof fn lemma_equal_program_doubles(
    c1: ComponentsView,
    c2: ComponentsView,
    d1: Map<u64, ProgramSnapshot>,
    d2: Map<u64, ProgramSnapshot>,
    i: u64,
    j: u64,
)
    requires
        i != j,
        d1.dom() == set![i],
        d2.dom() == set![i, j],
        d2[i] == d1[i],
        d1[i].state@.dom().finite(),
        d2[j].state@.dom() == d1[i].state@.dom(),
        forall|t: u32|
            d1[i].state@.contains_key(t) ==> #[trigger] d2[j].thread_component(t)
                == d1[i].thread_component(t),
        is_components_of(c1, d1, thread_pairs(d1)),
        is_components_of(c2, d2, thread_pairs(d2)),
    ensures
        c2.dom() == c1.dom(),
        forall|h: u64| #[trigger]
            c1.contains_key(h) ==> {
                &&& c2[h].0 == sat_add(c1[h].0, c1[h].0)
                &&& exists|t: u32|
                    d1[i].state@.contains_key(t) && c2[h].1 == #[trigger] d1[i].thread_component(
                        t,
                    ) && spec_component_hash(d1[i].thread_component(t)) == h
            },
{
    let threads = d1[i].state@.dom();
    let all1 = thread_pairs(d1);
    let all2 = thread_pairs(d2);
    let first = |t: u32| (i, t);
    let over = |p: ThreadKey| (j, p.1);
    assert(all1 =~= threads.map(first)) by {
        assert forall|p: ThreadKey| all1.contains(p) implies threads.map(first).contains(p) by {
            assert(d1.dom().contains(p.0));
            assert(threads.contains(p.1) && first(p.1) == p);
        }
        assert forall|p: ThreadKey| threads.map(first).contains(p) implies all1.contains(p) by {
            let t = choose|t: u32| threads.contains(t) && first(t) == p;
            assert(d1.dom().contains(i));
        }
    }
    threads.lemma_map_finite(first);
    assert forall|p: ThreadKey| all2.contains(p) implies (p.0 == i || p.0 == j) && threads.contains(
        p.1,
    ) && pair_component(d2, p) == d1[i].thread_component(p.1) by {
        assert(d2.dom().contains(p.0));
    }
    assert forall|t: u32| threads.contains(t) implies all2.contains((i, t)) && all2.contains(
        (j, t),
    ) && all1.contains((i, t)) by {
        assert(d2.dom().contains(i) && d2.dom().contains(j) && d1.dom().contains(i));
    }
    assert forall|h: u64| c2.contains_key(h) <==> c1.contains_key(h) by {
        if c2.contains_key(h) {
            let p = choose|p: ThreadKey| #[trigger]
                pairs_hashing_to(d2, all2, h).contains(p) && c2[h].1 == pair_component(d2, p);
            assert(all1.contains((i, p.1)));
            assert(pair_component(d1, (i, p.1)) == d1[i].thread_component(p.1));
        }
        if c1.contains_key(h) {
            let p = choose|p: ThreadKey| #[trigger]
                pairs_hashing_to(d1, all1, h).contains(p) && c1[h].1 == pair_component(d1, p);
            assert(d1.dom().contains(p.0));
            assert(all2.contains((i, p.1)));
            assert(pair_component(d2, (i, p.1)) == d1[i].thread_component(p.1));
        }
    }
    assert(c2.dom() =~= c1.dom());
    assert forall|h: u64| #[trigger] c1.contains_key(h) implies {
        &&& c2[h].0 == sat_add(c1[h].0, c1[h].0)
        &&& exists|t: u32|
            d1[i].state@.contains_key(t) && c2[h].1 == #[trigger] d1[i].thread_component(t)
                && spec_component_hash(d1[i].thread_component(t)) == h
    } by {
        assert(c2.contains_key(h));
        let a = pairs_hashing_to(d1, all1, h);
        let both = pairs_hashing_to(d2, all2, h);
        let b = a.map(over);
        all1.lemma_len_filter(|p: ThreadKey| spec_component_hash(pair_component(d1, p)) == h);
        assert(vstd::relations::injective_on(over, a)) by {
            assert forall|x: ThreadKey, y: ThreadKey|
                a.contains(x) && a.contains(y) && #[trigger] over(x) == #[trigger] over(
                    y,
                ) implies x == y by {
                assert(d1.dom().contains(x.0) && d1.dom().contains(y.0));
            }
        }
        vstd::set_lib::lemma_map_size(a, b, over);
        assert(both =~= a + b) by {
            assert forall|p: ThreadKey| both.contains(p) implies (a + b).contains(p) by {
                if p.0 == i {
                    assert(pair_component(d1, p) == d1[i].thread_component(p.1));
                    assert(all1.contains(p));
                    assert(a.contains(p));
                } else {
                    let q = (i, p.1);
                    assert(all1.contains(q));
                    assert(pair_component(d1, q) == d1[i].thread_component(p.1));
                    assert(a.contains(q) && over(q) == p);
                    assert(b.contains(p));
                }
            }
            assert forall|p: ThreadKey| (a + b).contains(p) implies both.contains(p) by {
                if a.contains(p) {
                    assert(d1.dom().contains(p.0));
                    assert(all2.contains(p));
                    assert(pair_component(d1, p) == d1[i].thread_component(p.1));
                } else {
                    let q = choose|q: ThreadKey| a.contains(q) && over(q) == p;
                    assert(d1.dom().contains(q.0));
                    assert(pair_component(d1, q) == d1[i].thread_component(q.1));
                    assert(all2.contains(p));
                }
            }
        }
        assert(a.disjoint(b)) by {
            assert forall|p: ThreadKey| a.contains(p) implies !b.contains(p) by {
                assert(d1.dom().contains(p.0));
                if b.contains(p) {
                    let q = choose|q: ThreadKey| a.contains(q) && over(q) == p;
                }
            }
        }
        vstd::set_lib::lemma_set_disjoint_lens(a, b);
        assert(both.len() == 2 * a.len());
        let w = choose|w: ThreadKey| #[trigger]
            pairs_hashing_to(d2, all2, h).contains(w) && c2[h].1 == pair_component(d2, w);
        assert(all2.contains(w));
        assert(d1[i].state@.contains_key(w.1));
        assert(c2[h].1 == d1[i].thread_component(w.1));
    }
}

/// One program with one thread gives one entry: the hash of the thread's
/// backtrace, counted once, with that backtrace. Where the program was
/// stopped by the interrupt signal the backtrace is the thread's frames and
/// nothing else.
pub proof fn lemma_single_thread_components(
    c: ComponentsView,
    ds: Map<u64, ProgramSnapshot>,
    id: u64,
    t: u32,
)
    requires
        ds.dom() == set![id],
        ds[id].state@.dom() == set![t],
        is_components_of(c, ds, thread_pairs(ds)),
    ensures
        c.dom() == set![spec_component_hash(ds[id].thread_component(t))],
        c[spec_component_hash(ds[id].thread_component(t))] == (
            1u64,
            ds[id].thread_component(t),
        ),
        ds[id].stop_state is Some && ds[id].stop_state->0.spec_is_sigint()
            ==> ds[id].thread_component(t) == DebugFrame::spec_component(ds[id].state@[t]@),
{
    let all = thread_pairs(ds);
    let only: ThreadKey = (id, t);
    let h = spec_component_hash(ds[id].thread_component(t));
    assert(all =~= set![only]) by {
        assert forall|p: ThreadKey| all.contains(p) implies p == only by {
            assert(ds.dom().contains(p.0));
            assert(ds[id].state@.dom().contains(p.1));
        }
        assert(ds.dom().contains(id) && ds[id].state@.dom().contains(t));
    }
    assert(all.contains(only));
    assert(c.contains_key(h));
    assert forall|x: u64| c.contains_key(x) implies x == h by {
        let p = choose|p: ThreadKey| #[trigger]
            pairs_hashing_to(ds, all, x).contains(p) && c[x].1 == pair_component(ds, p);
        assert(all.contains(p));
    }
    assert(c.dom() =~= set![h]);
    assert(pairs_hashing_to(ds, all, h) =~= set![only]);
    let p = choose|p: ThreadKey| #[trigger]
        pairs_hashing_to(ds, all, h).contains(p) && c[h].1 == pair_component(ds, p);
    assert(all.contains(p));
    assert(Seq::<BacktraceStateView>::empty() + DebugFrame::spec_component(ds[id].state@[t]@)
        =~= DebugFrame::spec_component(ds[id].state@[t]@));
}

} // verus!
