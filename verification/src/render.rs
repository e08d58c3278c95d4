//! The aggregated backtraces as a tree that shares common prefixes, and
//! the pieces of text that a display of it needs.

use crate::metadata::{spec_element_hash, BacktraceState, BacktraceStateView};
use crate::snapshot::{map_keys, sat_add};
use crate::tools::{code_of, first_index_of, str_eq, sub_string, to_chars};
use std::collections::HashMap;
use vstd::prelude::*;

verus! {

/// One node of the tree of frames: a backtrace element, how many
/// backtraces pass through it, and the elements that follow it, by hash.
#[derive(Debug)]
pub struct FrameTree {
    pub frame: BacktraceState,
    pub counter: u64,
    pub child: HashMap<u64, FrameTree>,
}

/// The hashes of the last `upto` steps of a walk through a backtrace, from
/// the element at `upto - 1` down to the first one.
pub open spec fn walk_hashes(elems: Seq<BacktraceStateView>, upto: int) -> Seq<u64> {
    Seq::new(upto as nat, |i: int| spec_element_hash(elems[upto - 1 - i]))
}

/// The hashes along the walk through a whole backtrace, from its outermost
/// (last) element to its innermost (first) one.
pub open spec fn hash_path(elems: Seq<BacktraceStateView>) -> Seq<u64> {
    walk_hashes(elems, elems.len() as int)
}

impl FrameTree {
    /// The node at the end of a path of hashes, where the tree has it.
    pub open spec fn node_at(self, path: Seq<u64>) -> Option<FrameTree>
        decreases path.len(),
    {
        if path.len() == 0 {
            Some(self)
        } else if self.child@.contains_key(path[0]) {
            self.child@[path[0]].node_at(path.skip(1))
        } else {
            None
        }
    }

    /// The counter of the node at the end of a path, or 0 where the tree
    /// has no such node.
    pub open spec fn counter_at(self, path: Seq<u64>) -> u64 {
        match self.node_at(path) {
            Some(node) => node.counter,
            None => 0,
        }
    }

    /// Whether `after` is `before` with one backtrace walked in: every node
    /// along the walk is there and counts `counter` more, a node that was
    /// not there holding the element of the backtrace at its depth; every
    /// other node is as it was.
    pub open spec fn walked_in(
        before: FrameTree,
        after: FrameTree,
        elems: Seq<BacktraceStateView>,
        upto: int,
        counter: u64,
    ) -> bool {
        &&& after.frame == before.frame
        &&& after.counter == before.counter
        &&& forall|p: Seq<u64>|
            p.len() > 0 && p.is_prefix_of(walk_hashes(elems, upto)) ==> {
                &&& (#[trigger] after.node_at(p)) is Some
                &&& after.node_at(p)->0.counter == sat_add(before.counter_at(p), counter)
                &&& after.node_at(p)->0.frame.deep_view() == match before.node_at(p) {
                    Some(old) => old.frame.deep_view(),
                    None => elems[upto - p.len()],
                }
            }
        &&& forall|p: Seq<u64>|
            p.len() > 0 && !p.is_prefix_of(walk_hashes(elems, upto)) ==> #[trigger] after.node_at(
                p,
            ) == before.node_at(p)
    }

    /// A node without followers that no backtrace has passed through yet.
    pub fn leaf(frame: BacktraceState) -> (r: FrameTree)
        ensures
            r.frame == frame,
            r.counter == 0,
            r.child@ == Map::<u64, FrameTree>::empty(),
    {
        FrameTree { frame, counter: 0, child: HashMap::new() }
    }

    /// The root of an empty tree.
    pub fn default() -> (r: FrameTree)
        ensures
            r.frame.deep_view() == BacktraceStateView::Frame(
                crate::metadata::DisplayFrameView { func: "."@, file: None, line: None },
            ),
            r.counter == 0,
            r.child@ == Map::<u64, FrameTree>::empty(),
    {
        FrameTree::leaf(BacktraceState::root())
    }

    /// Walks the first `upto` elements of a backtrace into the tree, from
    /// the element at `upto - 1` down to the first one, and counts `counter`
    /// more at every node on the way.
    pub fn insert_path(&mut self, elems: &Vec<BacktraceState>, upto: usize, counter: u64)
        requires
            upto <= elems@.len(),
        ensures
            FrameTree::walked_in(*old(self), *final(self), elems.deep_view(), upto as int, counter),
        decreases upto,
    {
        broadcast use vstd::std_specs::hash::group_hash_axioms;

        let ghost views = elems.deep_view();
        let ghost path = walk_hashes(views, upto as int);
        if upto == 0 {
            assert forall|p: Seq<u64>| p.len() > 0 implies !p.is_prefix_of(path) by {}
            return ;
        }
        let frame = &elems[upto - 1];
        let h = frame.get_hash();
        let ghost rest = walk_hashes(views, upto - 1);
        assert(path[0] == h);
        assert(path.skip(1) =~= rest);
        let ghost before = *self;
        let mut node = match self.child.remove(&h) {
            Some(n) => n,
            None => FrameTree::leaf(frame.clone()),
        };
        let ghost start = node;
        node.counter = node.counter.saturating_add(counter);
        let ghost bumped = node;
        node.insert_path(elems, upto - 1, counter);
        let ghost done = node;
        self.child.insert(h, node);
        proof {
            assert(self.child@ =~= before.child@.insert(h, done));
            assert forall|p: Seq<u64>| p.len() > 0 implies {
                &&& p.is_prefix_of(path) ==> {
                    &&& (#[trigger] self.node_at(p)) is Some
                    &&& self.node_at(p)->0.counter == sat_add(before.counter_at(p), counter)
                    &&& self.node_at(p)->0.frame.deep_view() == match before.node_at(p) {
                        Some(old) => old.frame.deep_view(),
                        None => views[upto - p.len()],
                    }
                }
                &&& !p.is_prefix_of(path) ==> self.node_at(p) == before.node_at(p)
            } by {
                let q = p.skip(1);
                if p[0] == h {
                    assert(self.node_at(p) == done.node_at(q));
                    assert(before.node_at(p) == if before.child@.contains_key(h) {
                        start.node_at(q)
                    } else {
                        None
                    });
                    assert(p.is_prefix_of(path) <==> q.is_prefix_of(rest)) by {
                        if p.is_prefix_of(path) {
                            assert(q =~= rest.subrange(0, q.len() as int));
                        }
                        if q.is_prefix_of(rest) {
                            assert(q == rest.subrange(0, q.len() as int));
                            assert forall|i: int| 0 <= i < p.len() implies p[i] == path[i] by {
                                if i > 0 {
                                    assert(p[i] == q[i - 1]);
                                    assert(q[i - 1] == rest.subrange(0, q.len() as int)[i - 1]);
                                    assert(rest[i - 1] == path.skip(1)[i - 1]);
                                }
                            }
                            assert(p =~= path.subrange(0, p.len() as int));
                        }
                    }
                    if q.len() == 0 {
                        assert(p.is_prefix_of(path));
                        assert(done.node_at(q) == Some(done));
                        assert(start.node_at(q) == Some(start));
                    } else {
                        assert(bumped.node_at(q) == start.node_at(q));
                        if !before.child@.contains_key(h) {
                            assert(start.node_at(q) is None);
                        }
                    }
                } else {
                    assert(!p.is_prefix_of(path)) by {
                        if p.is_prefix_of(path) {
                            assert(p[0] == path.subrange(0, p.len() as int)[0]);
                        }
                    }
                    assert(self.child@.contains_key(p[0]) == before.child@.contains_key(p[0]));
                }
            }
        }
    }
}

/// The sum of the counts of the first `n` of `keys`, held at `u64::MAX`.
pub open spec fn total_upto(
    comps: Map<u64, (u64, Vec<BacktraceState>)>,
    keys: Seq<u64>,
    n: nat,
) -> u64
    decreases n,
{
    if n == 0 {
        0
    } else {
        sat_add(total_upto(comps, keys, (n - 1) as nat), comps[keys[n - 1]].0)
    }
}

/// The sum of the counts of those of the first `n` of `keys` whose
/// backtrace walks along `p`, held at `u64::MAX`.
pub open spec fn weight_upto(
    comps: Map<u64, (u64, Vec<BacktraceState>)>,
    keys: Seq<u64>,
    n: nat,
    p: Seq<u64>,
) -> u64
    decreases n,
{
    if n == 0 {
        0
    } else {
        let rest = weight_upto(comps, keys, (n - 1) as nat, p);
        if p.is_prefix_of(hash_path(comps[keys[n - 1]].1.deep_view())) {
            sat_add(rest, comps[keys[n - 1]].0)
        } else {
            rest
        }
    }
}

/// Whether the backtrace of one of the first `n` of `keys` walks along `p`
/// and has `frame` at the end of `p`.
pub open spec fn walks_along(
    comps: Map<u64, (u64, Vec<BacktraceState>)>,
    keys: Seq<u64>,
    n: nat,
    p: Seq<u64>,
    frame: BacktraceStateView,
) -> bool {
    exists|j: int|
        0 <= j < n && p.is_prefix_of(#[trigger] hash_path(comps[keys[j]].1.deep_view()))
            && comps[keys[j]].1.deep_view()[comps[keys[j]].1.deep_view().len() - p.len()] == frame
}

/// Whether the backtrace of one of the first `n` of `keys` walks along `p`.
pub open spec fn is_walked(
    comps: Map<u64, (u64, Vec<BacktraceState>)>,
    keys: Seq<u64>,
    n: nat,
    p: Seq<u64>,
) -> bool {
    exists|j: int|
        0 <= j < n && p.is_prefix_of(#[trigger] hash_path(comps[keys[j]].1.deep_view()))
}

/// Whether `tree` is the tree of the backtraces of the first `n` of `keys`:
/// a node stands at the end of a path where a backtrace walks along it; it
/// counts the backtraces that do, each by its count; and it holds the
/// element that one of them has there.
pub open spec fn is_tree_of(
    tree: FrameTree,
    comps: Map<u64, (u64, Vec<BacktraceState>)>,
    keys: Seq<u64>,
    n: nat,
) -> bool {
    forall|p: Seq<u64>|
        p.len() > 0 ==> {
            &&& (#[trigger] tree.node_at(p)) is Some <==> is_walked(comps, keys, n, p)
            &&& tree.node_at(p) is Some ==> {
                &&& tree.node_at(p)->0.counter == weight_upto(comps, keys, n, p)
                &&& walks_along(comps, keys, n, p, tree.node_at(p)->0.frame.deep_view())
            }
        }
}

/// One more backtrace walked in keeps the tree that of the backtraces
/// walked in.
proof fn lemma_walk_one_more(
    before: FrameTree,
    after: FrameTree,
    comps: Map<u64, (u64, Vec<BacktraceState>)>,
    keys: Seq<u64>,
    n: nat,
)
    requires
        n < keys.len(),
        is_tree_of(before, comps, keys, n),
        FrameTree::walked_in(
            before,
            after,
            comps[keys[n as int]].1.deep_view(),
            comps[keys[n as int]].1.deep_view().len() as int,
            comps[keys[n as int]].0,
        ),
    ensures
        is_tree_of(after, comps, keys, n + 1),
{
    let elems = comps[keys[n as int]].1.deep_view();
    let path = hash_path(elems);
    assert forall|p: Seq<u64>| p.len() > 0 implies {
        &&& (#[trigger] after.node_at(p)) is Some <==> is_walked(comps, keys, n + 1, p)
        &&& after.node_at(p) is Some ==> {
            &&& after.node_at(p)->0.counter == weight_upto(comps, keys, n + 1, p)
            &&& walks_along(comps, keys, n + 1, p, after.node_at(p)->0.frame.deep_view())
        }
    } by {
        assert(before.node_at(p) is Some <==> is_walked(comps, keys, n, p));
        if p.is_prefix_of(path) {
            assert(p.is_prefix_of(hash_path(comps[keys[n as int]].1.deep_view())));
            assert(is_walked(comps, keys, n + 1, p));
            if before.node_at(p) is Some {
                let f = before.node_at(p)->0.frame.deep_view();
                assert(walks_along(comps, keys, n, p, f));
                let j = choose|j: int|
                    0 <= j < n && p.is_prefix_of(#[trigger] hash_path(comps[keys[j]].1.deep_view()))
                        && comps[keys[j]].1.deep_view()[comps[keys[j]].1.deep_view().len()
                        - p.len()] == f;
                assert(0 <= j < n + 1);
            } else {
                lemma_weight_zero(comps, keys, n, p);
            }
        } else {
            assert(after.node_at(p) == before.node_at(p));
            if is_walked(comps, keys, n + 1, p) {
                let j = choose|j: int|
                    0 <= j < n + 1 && p.is_prefix_of(
                        #[trigger] hash_path(comps[keys[j]].1.deep_view()),
                    );
                assert(j < n);
                assert(is_walked(comps, keys, n, p));
            }
            if before.node_at(p) is Some {
                let f = before.node_at(p)->0.frame.deep_view();
                let j = choose|j: int|
                    0 <= j < n && p.is_prefix_of(#[trigger] hash_path(comps[keys[j]].1.deep_view()))
                        && comps[keys[j]].1.deep_view()[comps[keys[j]].1.deep_view().len()
                        - p.len()] == f;
                assert(0 <= j < n + 1);
                assert(is_walked(comps, keys, n + 1, p));
            }
        }
    }
}

/// A path that no backtrace walks along weighs nothing.
proof fn lemma_weight_zero(
    comps: Map<u64, (u64, Vec<BacktraceState>)>,
    keys: Seq<u64>,
    n: nat,
    p: Seq<u64>,
)
    requires
        !is_walked(comps, keys, n, p),
    ensures
        weight_upto(comps, keys, n, p) == 0,
    decreases n,
{
    if n > 0 {
        assert(!is_walked(comps, keys, (n - 1) as nat, p)) by {
            if is_walked(comps, keys, (n - 1) as nat, p) {
                let j = choose|j: int|
                    0 <= j < n - 1 && p.is_prefix_of(
                        #[trigger] hash_path(comps[keys[j]].1.deep_view()),
                    );
                assert(0 <= j < n);
            }
        }
        lemma_weight_zero(comps, keys, (n - 1) as nat, p);
        assert(!p.is_prefix_of(hash_path(comps[keys[n - 1]].1.deep_view())));
    }
}

impl FrameTree {
    /// Builds the tree of a map of aggregated backtraces. The root counts
    /// every backtrace; below it each backtrace is walked from its outermost
    /// element to its innermost one, and backtraces that begin alike share
    /// their nodes.
    pub fn from_components(components: &HashMap<u64, (u64, Vec<BacktraceState>)>) -> (r:
        FrameTree)
        ensures
            r.frame.deep_view() == BacktraceStateView::Frame(
                crate::metadata::DisplayFrameView { func: "."@, file: None, line: None },
            ),
            exists|keys: Seq<u64>|
                {
                    &&& keys.no_duplicates()
                    &&& keys.to_set() == components@.dom()
                    &&& r.counter == total_upto(components@, keys, keys.len())
                    &&& is_tree_of(r, components@, keys, keys.len())
                },
    {
        broadcast use vstd::std_specs::hash::group_hash_axioms;

        let keys = map_keys(components);
        let mut root = FrameTree::default();
        let mut i: usize = 0;
        assert(is_tree_of(root, components@, keys@, 0)) by {
            assert forall|p: Seq<u64>| p.len() > 0 implies (#[trigger] root.node_at(p)) is None by {}
        }
        while i < keys.len()
            invariant
                i <= keys.len(),
                keys@.to_set() == components@.dom(),
                root.frame.deep_view() == BacktraceStateView::Frame(
                    crate::metadata::DisplayFrameView { func: "."@, file: None, line: None },
                ),
                root.counter == total_upto(components@, keys@, i as nat),
                is_tree_of(root, components@, keys@, i as nat),
            decreases keys.len() - i,
        {
            assert(keys@.to_set().contains(keys@[i as int]));
            match components.get(&keys[i]) {
                Some(entry) => {
                    let ghost before = root;
                    root.insert_path(&entry.1, entry.1.len(), entry.0);
                    let ghost walked = root;
                    root.counter = root.counter.saturating_add(entry.0);
                    proof {
                        lemma_walk_one_more(before, walked, components@, keys@, i as nat);
                        assert forall|p: Seq<u64>| p.len() > 0 implies (#[trigger] root.node_at(p))
                            == walked.node_at(p) by {}
                    }
                },
                None => {
                    assert(false);
                },
            }
            i = i + 1;
        }
        root
    }
}

/// What stands behind the last slash of a path, or the whole path where it
/// has none.
pub open spec fn spec_file_name(path: Seq<char>) -> Seq<char>
    decreases path.len(),
{
    if path.len() == 0 {
        path
    } else if path.last() == '/' {
        Seq::empty()
    } else {
        spec_file_name(path.drop_last()).push(path.last())
    }
}

/// Where no slash stands from `start` on, the file name is that of the
/// path before `start`, and what stands from `start` on.
proof fn lemma_file_name_tail(path: Seq<char>, start: int)
    requires
        0 <= start <= path.len(),
        forall|j: int| start <= j < path.len() ==> path[j] != '/',
    ensures
        spec_file_name(path) == spec_file_name(path.take(start)) + path.skip(start),
    decreases path.len() - start,
{
    if start == path.len() {
        assert(path.take(start) =~= path);
        assert(spec_file_name(path) + path.skip(start) =~= spec_file_name(path));
    } else {
        let front = path.drop_last();
        assert forall|j: int| start <= j < front.len() implies front[j] != '/' by {
            assert(front[j] == path[j]);
        }
        lemma_file_name_tail(front, start);
        assert(front.take(start) =~= path.take(start));
        assert(front.skip(start).push(path.last()) =~= path.skip(start));
        assert((spec_file_name(front.take(start)) + front.skip(start)).push(path.last())
            =~= spec_file_name(path.take(start)) + path.skip(start));
    }
}

/// The name of a file without the directories that lead to it.
pub fn keep_file(fullpath: &Option<String>) -> (r: Option<String>)
    ensures
        r.deep_view() == match *fullpath {
            Some(p) => Some(spec_file_name(p@)),
            None => None,
        },
{
    match fullpath {
        Some(p) => {
            let v = to_chars(p.as_str());
            let mut start: usize = v.len();
            while start > 0 && v[start - 1] != '/'
                invariant
                    start <= v.len(),
                    forall|j: int| start <= j < v.len() ==> v@[j] != '/',
                decreases start,
            {
                start = start - 1;
            }
            proof {
                lemma_file_name_tail(v@, start as int);
                let head = v@.take(start as int);
                if start > 0 {
                    assert(head.last() == '/');
                }
                assert(spec_file_name(head) =~= Seq::<char>::empty());
                assert(Seq::<char>::empty() + v@.skip(start as int) =~= v@.skip(start as int));
            }
            let out = sub_string(&v, start, v.len());
            assert(v@.subrange(start as int, v.len() as int) =~= v@.skip(start as int));
            Some(out)
        },
        None => None,
    }
}

/// The `k`-th of the pieces that line feeds part a text into, counted from
/// 0; none where the text has fewer pieces.
pub open spec fn nth_line(text: Seq<char>, k: nat) -> Option<Seq<char>>
    decreases k,
{
    let cut = first_index_of(text, '\n');
    if k == 0 {
        Some(text.take(cut))
    } else if cut < text.len() {
        nth_line(text.skip(cut + 1), (k - 1) as nat)
    } else {
        None
    }
}

/// The `k`-th of the pieces that line feeds part a text into.
pub fn line_at(text: &Vec<char>, k: usize) -> (r: Option<String>)
    ensures
        r.deep_view() == nth_line(text@, k as nat),
{
    let mut start: usize = 0;
    let mut left: usize = k;
    assert(text@.skip(0) =~= text@);
    loop
        invariant
            start <= text.len(),
            left <= k,
            nth_line(text@, k as nat) == nth_line(text@.skip(start as int), left as nat),
        decreases left,
    {
        let mut end: usize = start;
        while end < text.len() && text[end] != '\n'
            invariant
                start <= end <= text.len(),
                forall|j: int| start <= j < end ==> text@[j] != '\n',
            decreases text.len() - end,
        {
            end = end + 1;
        }
        proof {
            crate::tools::lemma_first_index_at(text@.skip(start as int), '\n', end - start);
        }
        if left == 0 {
            let out = sub_string(text, start, end);
            assert(text@.subrange(start as int, end as int) =~= text@.skip(start as int).take(
                end - start,
            ));
            return Some(out);
        }
        if end == text.len() {
            return None;
        }
        assert(text@.skip(start as int).skip(end - start + 1) =~= text@.skip(end + 1));
        start = end + 1;
        left = left - 1;
    }
}

/// Whether a character is white space: a blank, a tab, a line ending, or
/// one of the other spaces of Unicode.
pub open spec fn is_space(c: char) -> bool {
    let n = c as int;
    ||| 0x09 <= n <= 0x0d
    ||| n == 0x20
    ||| n == 0x85
    ||| n == 0xa0
    ||| n == 0x1680
    ||| 0x2000 <= n <= 0x200a
    ||| n == 0x2028
    ||| n == 0x2029
    ||| n == 0x202f
    ||| n == 0x205f
    ||| n == 0x3000
}

/// Whether a character is white space.
pub fn space_char(c: char) -> (r: bool)
    ensures
        r == is_space(c),
{
    let n = code_of(c);
    (0x09 <= n && n <= 0x0d) || n == 0x20 || n == 0x85 || n == 0xa0 || n == 0x1680 || (0x2000 <= n
        && n <= 0x200a) || n == 0x2028 || n == 0x2029 || n == 0x202f || n == 0x205f || n == 0x3000
}

/// A text without the white space at its beginning.
pub open spec fn trim_start(text: Seq<char>) -> Seq<char>
    decreases text.len(),
{
    if text.len() > 0 && is_space(text[0]) {
        trim_start(text.skip(1))
    } else {
        text
    }
}

/// A text without the white space at its end.
pub open spec fn trim_end(text: Seq<char>) -> Seq<char>
    decreases text.len(),
{
    if text.len() > 0 && is_space(text.last()) {
        trim_end(text.drop_last())
    } else {
        text
    }
}

/// A text without the white space at its two ends.
pub open spec fn spec_trim(text: Seq<char>) -> Seq<char> {
    trim_end(trim_start(text))
}

/// A text without the white space at its two ends.
pub fn trimmed(text: &str) -> (r: String)
    ensures
        r@ == spec_trim(text@),
{
    let v = to_chars(text);
    let mut start: usize = 0;
    assert(v@.skip(0) =~= v@);
    while start < v.len() && space_char(v[start])
        invariant
            start <= v.len(),
            trim_start(v@) == trim_start(v@.skip(start as int)),
        decreases v.len() - start,
    {
        assert(v@.skip(start as int)[0] == v@[start as int]);
        assert(v@.skip(start as int).skip(1) =~= v@.skip(start + 1));
        start = start + 1;
    }
    proof {
        if start < v.len() {
            assert(v@.skip(start as int)[0] == v@[start as int]);
        }
        assert(trim_start(v@) == v@.skip(start as int));
    }
    let mut end: usize = v.len();
    assert(v@.subrange(start as int, end as int) =~= v@.skip(start as int));
    while end > start && space_char(v[end - 1])
        invariant
            start <= end <= v.len(),
            spec_trim(v@) == trim_end(v@.subrange(start as int, end as int)),
        decreases end,
    {
        assert(v@.subrange(start as int, end as int).last() == v@[end - 1]);
        assert(v@.subrange(start as int, end as int).drop_last() =~= v@.subrange(
            start as int,
            end - 1,
        ));
        end = end - 1;
    }
    proof {
        if end > start {
            assert(v@.subrange(start as int, end as int).last() == v@[end - 1]);
        }
    }
    sub_string(&v, start, end)
}

/// The line of a source text to show for a line number: the line itself
/// without the white space around it; the line behind it, as it is, where
/// the line is only an opening brace; nothing where the line is blank or
/// the text has no such line.
pub open spec fn spec_source_line(content: Seq<char>, line: u32) -> Option<Seq<char>> {
    if line == 0 {
        None
    } else {
        match nth_line(content, (line - 1) as nat) {
            Some(l) => if spec_trim(l).len() == 0 {
                None
            } else if spec_trim(l) == "{"@ {
                nth_line(content, line as nat)
            } else {
                Some(spec_trim(l))
            },
            None => None,
        }
    }
}

/// The line of a source text to show for a line number.
pub fn source_line(content: &str, line: u32) -> (r: Option<String>)
    ensures
        r.deep_view() == spec_source_line(content@, line),
{
    if line == 0 {
        return None;
    }
    let text = to_chars(content);
    match line_at(&text, (line - 1) as usize) {
        Some(l) => {
            let l = trimmed(l.as_str());
            if l.as_str().unicode_len() == 0 {
                return None;
            }
            if str_eq(l.as_str(), "{") {
                return line_at(&text, line as usize);
            }
            Some(l)
        },
        None => None,
    }
}

} // verus!
