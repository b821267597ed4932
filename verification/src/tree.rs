//! What the totals of [`crate::cumulate`] stand for: the sum over a whole process tree.

use std::ops::Add;

use vstd::prelude::*;
use vstd::std_specs::ops::AddSpec;

use crate::cumulate::{cumulate_adds_descendants, descends, sum_defined, sum_from, Forest};

verus! {

/// The sum of the values of `ids`.
pub open spec fn value_sum<Id>(values: Map<Id, u64>, ids: Seq<Id>) -> int
    decreases ids.len(),
{
    if ids.len() == 0 {
        0
    } else {
        value_sum(values, ids.drop_last()) + values[ids.last()]
    }
}

/// Whether every node is listed once at most, as a child of one node at most.
pub open spec fn one_parent<Id, V: Add<V, Output = V>>(f: Forest<Id, V>) -> bool {
    forall|p: Id, i: int, q: Id, j: int|
        0 <= i < f.kids(p).len() && 0 <= j < f.kids(q).len() && #[trigger] f.kids(p)[i]
            == #[trigger] f.kids(q)[j] ==> p == q && i == j
}

/// Whether `ids` lists `root` and everything below it, each node once.
pub open spec fn lists_tree<Id, V: Add<V, Output = V>>(
    f: Forest<Id, V>,
    root: Id,
    ids: Seq<Id>,
) -> bool {
    &&& ids.no_duplicates()
    &&& forall|id: Id| #[trigger] ids.contains(id) <==> f.below(root, id)
}

proof fn lemma_value_sum<Id>(values: Map<Id, u64>, a: Seq<Id>, b: Seq<Id>)
    ensures
        value_sum(values, a + b) == value_sum(values, a) + value_sum(values, b),
    decreases b.len(),
{
    if b.len() == 0 {
        assert(a + b =~= a);
    } else {
        assert((a + b).drop_last() =~= a + b.drop_last());
        lemma_value_sum(values, a, b.drop_last());
    }
}

/// The nodes of the trees of `ids`, each before those below it, at most `depth` levels down.
spec fn nodes_within<Id, V: Add<V, Output = V>>(f: Forest<Id, V>, depth: nat, ids: Seq<Id>) -> Seq<
    Id,
>
    decreases depth, ids.len(),
{
    if depth == 0 || ids.len() == 0 {
        Seq::empty()
    } else {
        nodes_within(f, depth, ids.drop_last()) + (seq![ids.last()] + nodes_within(
            f,
            (depth - 1) as nat,
            f.kids(ids.last()),
        ))
    }
}

/// Whether no total is known, and those of `ids` can be computed within `depth` levels.
spec fn all_summable<Id, V: Add<V, Output = V>>(
    f: Forest<Id, V>,
    depth: nat,
    ids: Seq<Id>,
) -> bool {
    &&& f.known == Map::<Id, V>::empty()
    &&& forall|i: int| 0 <= i < ids.len() ==> f.summable_within(depth, #[trigger] ids[i])
}

spec fn totals<Id, V: Add<V, Output = V>>(f: Forest<Id, V>, depth: nat, ids: Seq<Id>) -> Seq<V> {
    Seq::new(ids.len(), |i: int| f.total_within(depth, ids[i]))
}

/// The totals of `ids` add up to the values of the nodes of their trees.
proof fn lemma_nodes_sum<Id>(f: Forest<Id, u64>, depth: nat, ids: Seq<Id>)
    requires
        f.zero == 0,
        all_summable(f, depth, ids),
        sum_defined(f.zero, totals(f, depth, ids)),
    ensures
        sum_from(f.zero, totals(f, depth, ids)) == value_sum(
            f.values,
            nodes_within(f, depth, ids),
        ),
    decreases depth, ids.len(),
{
    if ids.len() > 0 {
        let rest = ids.drop_last();
        let last = ids.last();
        let all = totals(f, depth, ids);
        assert(totals(f, depth, rest) =~= all.drop_last());
        assert forall|i: int| 0 <= i < rest.len() implies f.summable_within(
            depth,
            #[trigger] rest[i],
        ) by {
            assert(ids[i] == rest[i]);
        }
        assert forall|i: int| 0 <= i < all.drop_last().len() implies (#[trigger] sum_from(
            f.zero,
            all.drop_last().take(i),
        )).add_req(all.drop_last()[i]) by {
            assert(all.drop_last().take(i) =~= all.take(i));
        }
        lemma_nodes_sum(f, depth, rest);
        assert(f.summable_within(depth, ids[ids.len() - 1]));
        let kids = f.kids(last);
        assert(totals(f, (depth - 1) as nat, kids) =~= f.kid_totals(depth, last));
        lemma_nodes_sum(f, (depth - 1) as nat, kids);
        let below = nodes_within(f, (depth - 1) as nat, kids);
        lemma_value_sum(f.values, seq![last], below);
        lemma_value_sum(f.values, nodes_within(f, depth, rest), seq![last] + below);
        assert(value_sum(f.values, seq![last]) == f.values[last]) by {
            assert(seq![last].drop_last() =~= Seq::<Id>::empty());
            reveal_with_fuel(value_sum, 2);
        }
        assert(all.take(all.len() - 1) =~= all.drop_last());
        assert(sum_from(f.zero, all.take(all.len() - 1)).add_req(all[all.len() - 1]));
    }
}

/// What lies below a node is the node itself, or lies below one of its children.
proof fn lemma_below_step<Id, V: Add<V, Output = V>>(f: Forest<Id, V>, root: Id, id: Id)
    requires
        f.below(root, id),
    ensures
        root == id || exists|i: int|
            0 <= i < f.kids(root).len() && f.below(#[trigger] f.kids(root)[i], id),
{
    let path = choose|path: Seq<Id>| #[trigger]
        f.is_path(path) && path.first() == root && path.last() == id;
    if path.len() > 1 {
        let kid = path[1];
        assert(f.kids(path[0]).contains(path[1]));
        let i = f.kids(root).index_of(kid);
        let rest = path.skip(1);
        assert forall|j: int| 0 < j < rest.len() implies f.kids(rest[j - 1]).contains(
            #[trigger] rest[j],
        ) by {
            assert(f.kids(path[j]).contains(path[j + 1]));
        }
        assert(f.is_path(rest) && rest.first() == kid && rest.last() == id);
        assert(f.below(f.kids(root)[i], id));
    }
}

/// What lies below a child lies below its parent.
proof fn lemma_below_child<Id, V: Add<V, Output = V>>(
    f: Forest<Id, V>,
    root: Id,
    i: int,
    id: Id,
)
    requires
        f.known == Map::<Id, V>::empty(),
        0 <= i < f.kids(root).len(),
        f.below(f.kids(root)[i], id),
    ensures
        f.below(root, id),
{
    let kid = f.kids(root)[i];
    let path = choose|path: Seq<Id>| #[trigger]
        f.is_path(path) && path.first() == kid && path.last() == id;
    let longer = seq![root] + path;
    assert forall|j: int| 0 < j < longer.len() implies f.kids(longer[j - 1]).contains(
        #[trigger] longer[j],
    ) by {
        assert(longer[j] == path[j - 1]);
        if j > 1 {
            assert(f.kids(path[j - 2]).contains(path[j - 1]));
        }
    }
    assert(f.is_path(longer) && longer.first() == root && longer.last() == id);
}

/// Every node lies below itself.
proof fn lemma_below_itself<Id, V: Add<V, Output = V>>(f: Forest<Id, V>, id: Id)
    requires
        f.known == Map::<Id, V>::empty(),
    ensures
        f.below(id, id),
{
    assert(f.is_path(seq![id]) && seq![id].first() == id && seq![id].last() == id);
}

/// The nodes of the trees of `ids` are those that lie below one of them.
proof fn lemma_nodes<Id, V: Add<V, Output = V>>(f: Forest<Id, V>, depth: nat, ids: Seq<Id>, id: Id)
    requires
        all_summable(f, depth, ids),
    ensures
        nodes_within(f, depth, ids).contains(id) <==> exists|i: int|
            0 <= i < ids.len() && f.below(#[trigger] ids[i], id),
    decreases depth, ids.len(),
{
    if ids.len() > 0 {
        let rest = ids.drop_last();
        let last = ids[ids.len() - 1];
        let kids = f.kids(last);
        assert forall|i: int| 0 <= i < rest.len() implies f.summable_within(
            depth,
            #[trigger] rest[i],
        ) by {
            assert(ids[i] == rest[i]);
        }
        assert(f.summable_within(depth, last));
        lemma_nodes(f, depth, rest, id);
        lemma_nodes(f, (depth - 1) as nat, kids, id);
        let before = nodes_within(f, depth, rest);
        let below = nodes_within(f, (depth - 1) as nat, kids);
        let all = nodes_within(f, depth, ids);
        assert(all == before + (seq![last] + below));
        if before.contains(id) {
            assert(all[before.index_of(id)] == id);
            let i = choose|i: int| 0 <= i < rest.len() && f.below(#[trigger] rest[i], id);
            assert(f.below(ids[i], id));
        }
        if below.contains(id) {
            assert(all[before.len() + 1 + below.index_of(id)] == id);
            let i = choose|i: int| 0 <= i < kids.len() && f.below(#[trigger] kids[i], id);
            lemma_below_child(f, last, i, id);
        }
        if id == last {
            assert(all[before.len() as int] == id);
            lemma_below_itself(f, id);
        }
        if all.contains(id) {
            let at = all.index_of(id);
            if at < before.len() {
                assert(before[at] == id);
            } else if at > before.len() {
                assert(below[at - before.len() - 1] == id);
            }
        }
        if exists|i: int| 0 <= i < ids.len() && f.below(#[trigger] ids[i], id) {
            let i = choose|i: int| 0 <= i < ids.len() && f.below(#[trigger] ids[i], id);
            if i < rest.len() {
                assert(f.below(rest[i], id));
            } else {
                lemma_below_step(f, last, id);
            }
        }
    }
}

/// A node that can be summed does not lie below one of its own children.
proof fn lemma_no_cycle<Id, V: Add<V, Output = V>>(
    f: Forest<Id, V>,
    depth: nat,
    root: Id,
    path: Seq<Id>,
)
    requires
        f.known == Map::<Id, V>::empty(),
        f.is_path(path),
        path.len() > 1,
        path.first() == root,
        path.last() == root,
    ensures
        !f.summable_within(depth, root),
    decreases depth,
{
    if f.summable_within(depth, root) {
        lemma_path_depth(f, depth, path, path.len() - 1);
        lemma_no_cycle(f, (depth - (path.len() - 1)) as nat, root, path);
    }
}

/// Each step down a path takes one level less.
proof fn lemma_path_depth<Id, V: Add<V, Output = V>>(
    f: Forest<Id, V>,
    depth: nat,
    path: Seq<Id>,
    at: int,
)
    requires
        f.known == Map::<Id, V>::empty(),
        f.is_path(path),
        f.summable_within(depth, path.first()),
        0 <= at < path.len(),
    ensures
        at < depth,
        f.summable_within((depth - at) as nat, path[at]),
    decreases at,
{
    if at > 0 {
        lemma_path_depth(f, depth, path, at - 1);
        let parent = path[at - 1];
        assert(f.kids(parent).contains(path[at]));
        let i = f.kids(parent).index_of(path[at]);
        assert(f.summable_within((depth - (at - 1) - 1) as nat, f.kids(parent)[i]));
    }
}

/// Of two paths to the same node, the shorter is the end of the longer.
proof fn lemma_same_end<Id, V: Add<V, Output = V>>(
    f: Forest<Id, V>,
    short: Seq<Id>,
    long: Seq<Id>,
    back: int,
)
    requires
        one_parent(f),
        f.is_path(short),
        f.is_path(long),
        short.len() <= long.len(),
        short.last() == long.last(),
        0 <= back < short.len(),
    ensures
        short[short.len() - 1 - back] == long[long.len() - 1 - back],
    decreases back,
{
    if back > 0 {
        lemma_same_end(f, short, long, back - 1);
        let s = short.len() - back;
        let l = long.len() - back;
        assert(short[s] == long[l]);
        assert(f.kids(short[s - 1]).contains(short[s]));
        assert(f.kids(long[l - 1]).contains(long[l]));
        let i = f.kids(short[s - 1]).index_of(short[s]);
        let j = f.kids(long[l - 1]).index_of(long[l]);
        assert(f.kids(short[s - 1])[i] == f.kids(long[l - 1])[j]);
    }
}

/// Where one child of `root` has a longer path to some node than another one, it is that other
/// child's ancestor, which cannot be.
proof fn lemma_siblings_of_paths<Id, V: Add<V, Output = V>>(
    f: Forest<Id, V>,
    depth: nat,
    root: Id,
    i: int,
    j: int,
    short: Seq<Id>,
    long: Seq<Id>,
)
    requires
        one_parent(f),
        f.known == Map::<Id, V>::empty(),
        f.summable_within(depth, root),
        0 <= i < f.kids(root).len(),
        0 <= j < f.kids(root).len(),
        f.is_path(short),
        f.is_path(long),
        short.first() == f.kids(root)[i],
        long.first() == f.kids(root)[j],
        short.last() == long.last(),
        short.len() <= long.len(),
    ensures
        i == j,
{
    lemma_same_end(f, short, long, short.len() - 1);
    let at = long.len() - short.len();
    assert(long[at] == short[0]);
    if at == 0 {
        assert(f.kids(root)[i] == f.kids(root)[j]);
    } else {
        assert(f.kids(long[at - 1]).contains(long[at]));
        let l = f.kids(long[at - 1]).index_of(long[at]);
        assert(f.kids(long[at - 1])[l] == f.kids(root)[i]);
        assert(long[at - 1] == root);
        let around = seq![root] + long.take(at);
        assert forall|k: int| 0 < k < around.len() implies f.kids(around[k - 1]).contains(
            #[trigger] around[k],
        ) by {
            assert(around[k] == long[k - 1]);
            if k > 1 {
                assert(around[k - 1] == long[k - 2]);
                assert(f.kids(long[k - 2]).contains(long[k - 1]));
            }
        }
        assert(f.is_path(around));
        assert(around.last() == root);
        lemma_no_cycle(f, depth, root, around);
    }
}

/// The trees of two children of one node have no node in common.
proof fn lemma_siblings<Id, V: Add<V, Output = V>>(
    f: Forest<Id, V>,
    depth: nat,
    root: Id,
    i: int,
    j: int,
    id: Id,
)
    requires
        one_parent(f),
        f.known == Map::<Id, V>::empty(),
        f.summable_within(depth, root),
        0 <= i < f.kids(root).len(),
        0 <= j < f.kids(root).len(),
        f.below(f.kids(root)[i], id),
        f.below(f.kids(root)[j], id),
    ensures
        i == j,
{
    let p = choose|path: Seq<Id>| #[trigger]
        f.is_path(path) && path.first() == f.kids(root)[i] && path.last() == id;
    let q = choose|path: Seq<Id>| #[trigger]
        f.is_path(path) && path.first() == f.kids(root)[j] && path.last() == id;
    if p.len() <= q.len() {
        lemma_siblings_of_paths(f, depth, root, i, j, p, q);
    } else {
        lemma_siblings_of_paths(f, depth, root, j, i, q, p);
    }
}

/// Whether the trees of `ids` have no node in common.
spec fn disjoint_trees<Id, V: Add<V, Output = V>>(f: Forest<Id, V>, ids: Seq<Id>) -> bool {
    forall|i: int, j: int, id: Id|
        0 <= i < ids.len() && 0 <= j < ids.len() && #[trigger] f.below(ids[i], id)
            && #[trigger] f.below(ids[j], id) ==> i == j
}

/// Disjoint trees have no node twice.
proof fn lemma_nodes_once<Id, V: Add<V, Output = V>>(f: Forest<Id, V>, depth: nat, ids: Seq<Id>)
    requires
        one_parent(f),
        all_summable(f, depth, ids),
        disjoint_trees(f, ids),
    ensures
        nodes_within(f, depth, ids).no_duplicates(),
    decreases depth, ids.len(),
{
    if ids.len() > 0 {
        let rest = ids.drop_last();
        let last = ids[ids.len() - 1];
        let kids = f.kids(last);
        assert forall|i: int| 0 <= i < rest.len() implies f.summable_within(
            depth,
            #[trigger] rest[i],
        ) by {
            assert(ids[i] == rest[i]);
        }
        assert forall|i: int, j: int, id: Id|
            0 <= i < rest.len() && 0 <= j < rest.len() && #[trigger] f.below(rest[i], id)
                && #[trigger] f.below(rest[j], id) implies i == j by {
            assert(f.below(ids[i], id) && f.below(ids[j], id));
        }
        lemma_nodes_once(f, depth, rest);
        assert(f.summable_within(depth, last));
        assert forall|i: int, j: int, id: Id|
            0 <= i < kids.len() && 0 <= j < kids.len() && #[trigger] f.below(kids[i], id)
                && #[trigger] f.below(kids[j], id) implies i == j by {
            lemma_siblings(f, depth, last, i, j, id);
        }
        lemma_nodes_once(f, (depth - 1) as nat, kids);
        let before = nodes_within(f, depth, rest);
        let below = nodes_within(f, (depth - 1) as nat, kids);
        if below.contains(last) {
            lemma_nodes(f, (depth - 1) as nat, kids, last);
            let i = choose|i: int| 0 <= i < kids.len() && f.below(#[trigger] kids[i], last);
            lemma_kid_path(f, depth, last, i);
        }
        assert forall|id: Id| before.contains(id) implies !(seq![last] + below).contains(id) by {
            lemma_nodes(f, depth, rest, id);
            let i = choose|i: int| 0 <= i < rest.len() && f.below(#[trigger] rest[i], id);
            assert(f.below(ids[i], id));
            if (seq![last] + below).contains(id) {
                let at = (seq![last] + below).index_of(id);
                if at == 0 {
                    lemma_below_itself(f, last);
                } else {
                    assert(below[at - 1] == id);
                    lemma_nodes(f, (depth - 1) as nat, kids, id);
                    let j = choose|j: int| 0 <= j < kids.len() && f.below(#[trigger] kids[j], id);
                    lemma_below_child(f, last, j, id);
                }
                assert(f.below(ids[ids.len() - 1], id));
            }
        }
        lemma_no_duplicates(seq![last], below);
        lemma_no_duplicates(before, seq![last] + below);
    }
}

/// A node that can be summed does not lie below its child `i`.
proof fn lemma_kid_path<Id, V: Add<V, Output = V>>(f: Forest<Id, V>, depth: nat, root: Id, i: int)
    requires
        f.known == Map::<Id, V>::empty(),
        f.summable_within(depth, root),
        0 <= i < f.kids(root).len(),
    ensures
        !f.below(f.kids(root)[i], root),
{
    if f.below(f.kids(root)[i], root) {
        let path = choose|path: Seq<Id>| #[trigger]
            f.is_path(path) && path.first() == f.kids(root)[i] && path.last() == root;
        let around = seq![root] + path;
        assert forall|k: int| 0 < k < around.len() implies f.kids(around[k - 1]).contains(
            #[trigger] around[k],
        ) by {
            assert(around[k] == path[k - 1]);
            if k > 1 {
                assert(around[k - 1] == path[k - 2]);
                assert(f.kids(path[k - 2]).contains(path[k - 1]));
            }
        }
        assert(f.is_path(around));
        assert(around.last() == root);
        lemma_no_cycle(f, depth, root, around);
    }
}

proof fn lemma_no_duplicates<Id>(a: Seq<Id>, b: Seq<Id>)
    requires
        a.no_duplicates(),
        b.no_duplicates(),
        forall|id: Id| a.contains(id) ==> !b.contains(id),
    ensures
        (a + b).no_duplicates(),
{
    let all = a + b;
    assert forall|i: int, j: int|
        0 <= i < all.len() && 0 <= j < all.len() && i != j implies all[i] != all[j] by {
        if i < a.len() && j >= a.len() {
            assert(a.contains(a[i]) && b.contains(b[j - a.len()]));
        }
        if j < a.len() && i >= a.len() {
            assert(a.contains(a[j]) && b.contains(b[i - a.len()]));
        }
    }
}

/// Where every node has one parent at most, the total of a node is the sum of the values of its
/// whole tree, each node counted once.
///
/// This holds of numbers whose addition is exact.
pub proof fn total_is_sum_over_tree<Id>(f: Forest<Id, u64>, root: Id)
    requires
        f.zero == 0,
        f.known == Map::<Id, u64>::empty(),
        f.summable(root),
        one_parent(f),
    ensures
        exists|ids: Seq<Id>| #[trigger]
            lists_tree(f, root, ids) && f.total(root) == value_sum(f.values, ids),
{
    let depth = choose|depth: nat| f.summable_within(depth, root);
    let ids = nodes_within(f, depth, seq![root]);
    assert(seq![root].drop_last() =~= Seq::<Id>::empty());
    assert(nodes_within(f, depth, seq![root].drop_last()) =~= Seq::<Id>::empty());
    lemma_nodes_once(f, depth, seq![root]);
    assert forall|id: Id| #[trigger] ids.contains(id) <==> f.below(root, id) by {
        lemma_nodes(f, depth, seq![root], id);
        if f.below(root, id) {
            assert(f.below(seq![root][0], id));
        }
    }
    let kids = f.kids(root);
    assert(totals(f, (depth - 1) as nat, kids) =~= f.kid_totals(depth, root));
    lemma_nodes_sum(f, (depth - 1) as nat, kids);
    let below = nodes_within(f, (depth - 1) as nat, kids);
    assert(ids =~= seq![root] + below);
    lemma_value_sum(f.values, seq![root], below);
    assert(value_sum(f.values, seq![root]) == f.values[root]) by {
        reveal_with_fuel(value_sum, 2);
    }
    assert(lists_tree(f, root, ids));
}

/// Where each process is listed once at most, the total of a process is the sum of its own value
/// and those of all its descendants, however deep they stand, each counted once, and of no other
/// values.
///
/// This holds of numbers whose addition is exact.
pub proof fn total_is_sum_over_descendants<Id>(f: Forest<Id, u64>, root: Id)
    requires
        f.zero == 0,
        f.known == Map::<Id, u64>::empty(),
        f.summable(root),
        forall|p: Id, i: int, q: Id, j: int|
            f.children.contains_key(p) && f.children.contains_key(q) && 0 <= i
                < f.children[p]@.len() && 0 <= j < f.children[q]@.len()
                && #[trigger] f.children[p]@[i] == #[trigger] f.children[q]@[j] ==> p == q && i
                == j,
    ensures
        exists|ids: Seq<Id>|
            {
                &&& ids.no_duplicates()
                &&& forall|id: Id| #[trigger] ids.contains(id) <==> descends(f.children, root, id)
                &&& f.total(root) == #[trigger] value_sum(f.values, ids)
            },
{
    assert(one_parent(f)) by {
        assert forall|p: Id, i: int, q: Id, j: int|
            0 <= i < f.kids(p).len() && 0 <= j < f.kids(q).len() && #[trigger] f.kids(p)[i]
                == #[trigger] f.kids(q)[j] implies p == q && i == j by {
            assert(f.children[p]@[i] == f.children[q]@[j]);
        }
    }
    total_is_sum_over_tree(f, root);
    let ids = choose|ids: Seq<Id>| #[trigger]
        lists_tree(f, root, ids) && f.total(root) == value_sum(f.values, ids);
    assert forall|id: Id| #[trigger] ids.contains(id) <==> descends(f.children, root, id) by {
        cumulate_adds_descendants(f, root, id);
        assert(f.extended(root).contains_key(id) <==> f.below(root, id));
    }
}

} // verus!
