//! Aggregated backtraces as lines of text, the most frequent first.

use crate::metadata::{spec_print, BacktraceState, BacktraceStateView, DebugFrame};
use crate::tools::{decimal, push_decimal};
use vstd::prelude::*;

verus! {

/// `order` with the entry `i` put in: behind every entry that counts at
/// least as much, before the others.
pub open spec fn insert_desc(order: Seq<int>, counts: Seq<u64>, i: int) -> Seq<int>
    decreases order.len(),
{
    if order.len() == 0 {
        seq![i]
    } else if counts[order.last()] >= counts[i] {
        order.push(i)
    } else {
        insert_desc(order.drop_last(), counts, i).push(order.last())
    }
}

/// The first `n` entries in the order of their counts, the largest first;
/// entries that count alike stay in the order in which they came.
pub open spec fn sorted_order(counts: Seq<u64>, n: nat) -> Seq<int>
    decreases n,
{
    if n == 0 {
        Seq::empty()
    } else {
        insert_desc(sorted_order(counts, (n - 1) as nat), counts, n - 1)
    }
}

/// Whether the counts along `order` never rise.
pub open spec fn is_descending(order: Seq<int>, counts: Seq<u64>) -> bool {
    forall|a: int, b: int| 0 <= a < b < order.len() ==> counts[order[a]] >= counts[order[b]]
}

/// Whether every entry of `order` is one of the first `n`.
pub open spec fn within(order: Seq<int>, n: int) -> bool {
    forall|a: int| 0 <= a < order.len() ==> 0 <= #[trigger] order[a] < n
}

proof fn lemma_insert_desc(order: Seq<int>, counts: Seq<u64>, i: int)
    requires
        is_descending(order, counts),
        within(order, i),
        0 <= i < counts.len(),
    ensures
        is_descending(insert_desc(order, counts, i), counts),
        within(insert_desc(order, counts, i), i + 1),
        insert_desc(order, counts, i).len() == order.len() + 1,
        insert_desc(order, counts, i).to_multiset() == order.to_multiset().insert(i),
    decreases order.len(),
{
    broadcast use vstd::seq_lib::group_to_multiset_ensures;

    let out = insert_desc(order, counts, i);
    if order.len() == 0 {
        assert(out =~= Seq::<int>::empty().push(i));
    } else if counts[order.last()] >= counts[i] {
        assert forall|a: int, b: int| 0 <= a < b < out.len() implies counts[out[a]]
            >= counts[out[b]] by {
            if b == out.len() - 1 {
                if a < order.len() - 1 {
                    assert(counts[order[a]] >= counts[order.last()]);
                }
            }
        }
    } else {
        let rest = order.drop_last();
        assert(is_descending(rest, counts)) by {
            assert forall|a: int, b: int| 0 <= a < b < rest.len() implies counts[rest[a]]
                >= counts[rest[b]] by {
                assert(rest[a] == order[a] && rest[b] == order[b]);
            }
        }
        assert(within(rest, i)) by {
            assert forall|a: int| 0 <= a < rest.len() implies 0 <= #[trigger] rest[a] < i by {
                assert(rest[a] == order[a]);
            }
        }
        lemma_insert_desc(rest, counts, i);
        let inner = insert_desc(rest, counts, i);
        assert(out == inner.push(order.last()));
        assert(order =~= rest.push(order.last()));
        assert forall|a: int, b: int| 0 <= a < b < out.len() implies counts[out[a]]
            >= counts[out[b]] by {
            if b == out.len() - 1 {
                lemma_member_of_insert(rest, counts, i, a);
                if out[a] == i {
                } else {
                    let k = choose|k: int| 0 <= k < rest.len() && rest[k] == inner[a];
                    assert(order[k] == rest[k]);
                    assert(counts[order[k]] >= counts[order.last()]);
                }
            }
        }
        assert(within(out, i + 1)) by {
            assert forall|a: int| 0 <= a < out.len() implies 0 <= #[trigger] out[a] < i + 1 by {
                if a == out.len() - 1 {
                    assert(out[a] == order[order.len() - 1]);
                }
            }
        }
    }
}

/// Every entry of an order with `i` put in is `i` or an entry of the order.
proof fn lemma_member_of_insert(order: Seq<int>, counts: Seq<u64>, i: int, a: int)
    requires
        0 <= a < insert_desc(order, counts, i).len(),
    ensures
        insert_desc(order, counts, i)[a] == i || exists|k: int|
            0 <= k < order.len() && order[k] == insert_desc(order, counts, i)[a],
    decreases order.len(),
{
    let out = insert_desc(order, counts, i);
    if order.len() == 0 {
    } else if counts[order.last()] >= counts[i] {
        if a < order.len() {
            assert(order[a] == out[a]);
        }
    } else {
        let rest = order.drop_last();
        let inner = insert_desc(rest, counts, i);
        if a < inner.len() {
            lemma_member_of_insert(rest, counts, i, a);
            if inner[a] != i {
                let k = choose|k: int| 0 <= k < rest.len() && rest[k] == inner[a];
                assert(order[k] == out[a]);
            }
        } else {
            assert(order[order.len() - 1] == out[a]);
        }
    }
}

/// The sorted order holds each of the first `n` entries once, and its
/// counts never rise.
pub proof fn lemma_sorted_order(counts: Seq<u64>, n: nat)
    requires
        n <= counts.len(),
    ensures
        sorted_order(counts, n).len() == n,
        is_descending(sorted_order(counts, n), counts),
        within(sorted_order(counts, n), n as int),
        sorted_order(counts, n).to_multiset() == Seq::new(n, |k: int| k).to_multiset(),
    decreases n,
{
    broadcast use vstd::seq_lib::group_to_multiset_ensures;

    if n == 0 {
        assert(Seq::new(0, |k: int| k) =~= Seq::<int>::empty());
    } else {
        lemma_sorted_order(counts, (n - 1) as nat);
        lemma_insert_desc(sorted_order(counts, (n - 1) as nat), counts, n - 1);
        assert(Seq::new(n, |k: int| k) =~= Seq::new((n - 1) as nat, |k: int| k).push(n - 1));
    }
}

/// The counts of the entries of a list of stacks.
pub open spec fn counts_of(comp: Seq<(u64, Vec<BacktraceState>)>) -> Seq<u64> {
    Seq::new(comp.len(), |k: int| comp[k].0)
}

/// The line that stands between two stacks.
pub open spec fn rule() -> Seq<char> {
    "============="@
}

/// The lines of one stack: its heading, its elements, a rule.
pub open spec fn stack_lines(idx: nat, count: u64, elems: Seq<BacktraceStateView>) -> Seq<
    Seq<char>,
> {
    seq![
        "Stack #"@ + decimal(idx) + " with "@ + decimal(count as nat) + " contributors:"@,
    ] + Seq::new(elems.len(), |k: int| "\t"@ + spec_print(elems[k])) + seq![rule()]
}

/// A rule, then the lines of the first `n` stacks along `order`.
pub open spec fn report_upto(
    comp: Seq<(u64, Vec<BacktraceState>)>,
    order: Seq<int>,
    n: nat,
) -> Seq<Seq<char>>
    decreases n,
{
    if n == 0 {
        seq![rule()]
    } else {
        report_upto(comp, order, (n - 1) as nat) + stack_lines(
            (n - 1) as nat,
            comp[order[n - 1]].0,
            comp[order[n - 1]].1.deep_view(),
        )
    }
}

/// The order in which the stacks are shown.
pub fn order_by_count(comp: &Vec<(u64, Vec<BacktraceState>)>) -> (r: Vec<usize>)
    ensures
        r@.len() == comp@.len(),
        r@.map_values(|k: usize| k as int) == sorted_order(counts_of(comp@), comp@.len()),
        forall|a: int| 0 <= a < r@.len() ==> #[trigger] r@[a] < comp@.len(),
{
    let ghost counts = counts_of(comp@);
    let mut order: Vec<usize> = Vec::new();
    let mut i: usize = 0;
    assert(order@.map_values(|k: usize| k as int) =~= sorted_order(counts, 0));
    while i < comp.len()
        invariant
            i <= comp.len(),
            counts == counts_of(comp@),
            order@.len() == i,
            order@.map_values(|k: usize| k as int) == sorted_order(counts, i as nat),
            forall|a: int| 0 <= a < order@.len() ==> #[trigger] order@[a] < i,
        decreases comp.len() - i,
    {
        let ghost before = order@.map_values(|k: usize| k as int);
        let mut p: usize = order.len();
        assert(before.take(p as int) =~= before);
        assert(before.skip(p as int) =~= Seq::empty());
        assert(insert_desc(before.take(p as int), counts, i as int) + before.skip(p as int)
            =~= insert_desc(before, counts, i as int));
        while p > 0 && comp[order[p - 1]].0 < comp[i].0
            invariant
                p <= order@.len(),
                i < comp.len(),
                order@.len() == i,
                counts == counts_of(comp@),
                before == order@.map_values(|k: usize| k as int),
                forall|a: int| 0 <= a < order@.len() ==> #[trigger] order@[a] < i,
                insert_desc(before, counts, i as int) == insert_desc(
                    before.take(p as int),
                    counts,
                    i as int,
                ) + before.skip(p as int),
            decreases p,
        {
            proof {
                let head = before.take(p as int);
                assert(head.last() == before[p - 1]);
                assert(head.drop_last() =~= before.take(p - 1));
                assert(counts[head.last()] < counts[i as int]);
                assert(insert_desc(head, counts, i as int) == insert_desc(
                    before.take(p - 1),
                    counts,
                    i as int,
                ).push(before[p - 1]));
                assert(insert_desc(before.take(p - 1), counts, i as int).push(before[p - 1])
                    + before.skip(p as int) =~= insert_desc(before.take(p - 1), counts, i as int)
                    + before.skip(p - 1));
            }
            p = p - 1;
        }
        proof {
            let head = before.take(p as int);
            if p > 0 {
                assert(head.last() == before[p - 1]);
                assert(counts[head.last()] >= counts[i as int]);
            }
            assert(insert_desc(head, counts, i as int) == head.push(i as int));
        }
        order.insert(p, i);
        assert(order@.map_values(|k: usize| k as int) =~= before.take(p as int).push(i as int)
            + before.skip(p as int));
        i = i + 1;
    }
    order
}

impl DebugFrame {
    /// The aggregated stacks as lines of text: a rule, then each stack with
    /// its heading, its elements and a rule, the stack with the most
    /// contributors first.
    pub fn pretty_print_component(comp: Vec<(u64, Vec<BacktraceState>)>) -> (r: Vec<String>)
        ensures
            r.deep_view() == report_upto(
                comp@,
                sorted_order(counts_of(comp@), comp@.len()),
                comp@.len(),
            ),
    {
        let order = order_by_count(&comp);
        let ghost ord = sorted_order(counts_of(comp@), comp@.len());
        let mut out: Vec<String> = Vec::new();
        out.push(String::from_str("============="));
        assert(out.deep_view() =~= report_upto(comp@, ord, 0));
        let mut n: usize = 0;
        while n < order.len()
            invariant
                n <= order@.len(),
                order@.len() == comp@.len(),
                order@.map_values(|k: usize| k as int) == ord,
                forall|a: int| 0 <= a < order@.len() ==> #[trigger] order@[a] < comp@.len(),
                out.deep_view() == report_upto(comp@, ord, n as nat),
            decreases order.len() - n,
        {
            let idx: usize = order[n];
            assert(ord[n as int] == idx as int);
            let entry = &comp[idx];
            let ghost elems = entry.1.deep_view();
            let ghost start = out.deep_view();
            let mut head = String::from_str("Stack #");
            push_decimal(&mut head, n as u64);
            head.append(" with ");
            push_decimal(&mut head, entry.0);
            head.append(" contributors:");
            out.push(head);
            let ghost head_line = "Stack #"@ + decimal(n as nat) + " with "@ + decimal(
                entry.0 as nat,
            ) + " contributors:"@;
            assert(out.deep_view() =~= start.push(head_line));
            let mut k: usize = 0;
            while k < entry.1.len()
                invariant
                    k <= entry.1@.len(),
                    elems == entry.1.deep_view(),
                    out.deep_view() == start.push(head_line) + Seq::new(
                        k as nat,
                        |j: int| "\t"@ + spec_print(elems[j]),
                    ),
                decreases entry.1.len() - k,
            {
                let ghost sofar = out.deep_view();
                let mut line = String::from_str("\t");
                let text = entry.1[k].print();
                line.append(text.as_str());
                assert(entry.1@[k as int].deep_view() == elems[k as int]);
                out.push(line);
                assert(out.deep_view() =~= sofar.push("\t"@ + spec_print(elems[k as int])));
                assert(out.deep_view() =~= start.push(head_line) + Seq::new(
                    (k + 1) as nat,
                    |j: int| "\t"@ + spec_print(elems[j]),
                ));
                k = k + 1;
            }
            let ghost body = out.deep_view();
            out.push(String::from_str("============="));
            assert(out.deep_view() =~= body.push(rule()));
            assert(out.deep_view() =~= start + stack_lines(n as nat, entry.0, elems));
            n = n + 1;
        }
        out
    }
}

} // verus!
