//! Sums over process trees: what each process and all its descendants have used together.

use std::collections::{HashMap, HashSet};
use std::hash::Hash;
use std::ops::Add;

use vstd::prelude::*;
use vstd::std_specs::hash::obeys_key_model;
use vstd::std_specs::ops::AddSpec;

verus! {

/// The left-to-right sum of `items`, starting from `zero`.
pub open spec fn sum_from<V: Add<V, Output = V>>(zero: V, items: Seq<V>) -> V
    decreases items.len(),
{
    if items.len() == 0 {
        zero
    } else {
        sum_from(zero, items.drop_last()).add_spec(items.last())
    }
}

/// Whether every addition of that sum is one that `V` can perform.
pub open spec fn sum_defined<V: Add<V, Output = V>>(zero: V, items: Seq<V>) -> bool {
    forall|i: int|
        0 <= i < items.len() ==> (#[trigger] sum_from(zero, items.take(i))).add_req(items[i])
}

/// What a summation reads: the children of each node, the nodes' own values, the totals that are
/// known already, and the empty sum.
#[verifier::reject_recursive_types(Id)]
pub struct Forest<Id, V> {
    pub children: Map<Id, Vec<Id>>,
    pub values: Map<Id, V>,
    pub known: Map<Id, V>,
    pub zero: V,
}

impl<Id, V: Add<V, Output = V>> Forest<Id, V> {
    /// The listed children of `id`.
    pub open spec fn kids(self, id: Id) -> Seq<Id> {
        if self.children.contains_key(id) {
            self.children[id]@
        } else {
            Seq::empty()
        }
    }

    /// The total of `id`, looking at most `depth` levels down.
    pub open spec fn total_within(self, depth: nat, id: Id) -> V
        decreases depth, 1int,
    {
        if self.known.contains_key(id) {
            self.known[id]
        } else if depth == 0 {
            self.zero
        } else {
            self.values[id].add_spec(sum_from(self.zero, self.kid_totals(depth, id)))
        }
    }

    /// The totals of the children of `id`, in the order in which they are listed.
    pub open spec fn kid_totals(self, depth: nat, id: Id) -> Seq<V>
        decreases depth, 0int,
        when depth > 0
    {
        let kids = self.kids(id);
        Seq::new(kids.len(), |i: int| self.total_within((depth - 1) as nat, kids[i]))
    }

    /// Whether the total of `id` can be computed by looking at most `depth` levels down: every node
    /// on the way has a value, and every addition is one that `V` can perform.
    pub open spec fn summable_within(self, depth: nat, id: Id) -> bool
        decreases depth,
    {
        ||| self.known.contains_key(id)
        ||| {
            &&& depth > 0
            &&& self.values.contains_key(id)
            &&& forall|i: int|
                0 <= i < self.kids(id).len() ==> self.summable_within(
                    (depth - 1) as nat,
                    #[trigger] self.kids(id)[i],
                )
            &&& sum_defined(self.zero, self.kid_totals(depth, id))
            &&& self.values[id].add_req(sum_from(self.zero, self.kid_totals(depth, id)))
        }
    }

    /// Whether the total of `id` can be computed at all: no node below it is its own descendant,
    /// every node below it has a value, and no addition is out of range.
    pub open spec fn summable(self, id: Id) -> bool {
        exists|depth: nat| self.summable_within(depth, id)
    }

    /// Whether `id` and every node below it has a value, within `depth` levels.
    pub open spec fn grounded_within(self, depth: nat, id: Id) -> bool
        decreases depth,
    {
        ||| self.known.contains_key(id)
        ||| {
            &&& depth > 0
            &&& self.values.contains_key(id)
            &&& forall|i: int|
                0 <= i < self.kids(id).len() ==> self.grounded_within(
                    (depth - 1) as nat,
                    #[trigger] self.kids(id)[i],
                )
        }
    }

    /// Whether no node below `id` is its own descendant and every one of them has a value.
    pub open spec fn grounded(self, id: Id) -> bool {
        exists|depth: nat| self.grounded_within(depth, id)
    }

    /// The total of `id`: its own value plus the totals of its children, unless it is known.
    pub open spec fn total(self, id: Id) -> V {
        self.total_within(choose|depth: nat| self.summable_within(depth, id), id)
    }

    /// Whether `path` leads from node to child, through nodes whose totals are not known.
    pub open spec fn is_path(self, path: Seq<Id>) -> bool {
        &&& path.len() > 0
        &&& forall|i: int| 0 <= i < path.len() ==> !self.known.contains_key(#[trigger] path[i])
        &&& forall|i: int|
            0 < i < path.len() ==> self.kids(path[i - 1]).contains(#[trigger] path[i])
    }

    /// Whether `id` is `root` or lies below it, reached through nodes whose totals are not known.
    pub open spec fn below(self, root: Id, id: Id) -> bool {
        exists|path: Seq<Id>| #[trigger]
            self.is_path(path) && path.first() == root && path.last() == id
    }

    /// The known totals together with those of `root` and of everything below it.
    pub open spec fn extended(self, root: Id) -> Map<Id, V> {
        Map::new(
            |id: Id| self.known.contains_key(id) || self.below(root, id),
            |id: Id| self.total(id),
        )
    }

    /// A depth that suffices stays sufficient when it grows, and the total is the same.
    proof fn lemma_deeper(self, depth: nat, deeper: nat, id: Id)
        requires
            self.summable_within(depth, id),
            depth <= deeper,
        ensures
            self.summable_within(deeper, id),
            self.total_within(deeper, id) == self.total_within(depth, id),
        decreases depth,
    {
        if !self.known.contains_key(id) {
            let kids = self.kids(id);
            assert forall|i: int| 0 <= i < kids.len() implies {
                &&& self.summable_within((deeper - 1) as nat, #[trigger] kids[i])
                &&& self.total_within((deeper - 1) as nat, kids[i]) == self.total_within(
                    (depth - 1) as nat,
                    kids[i],
                )
            } by {
                self.lemma_deeper((depth - 1) as nat, (deeper - 1) as nat, kids[i]);
            }
            assert(self.kid_totals(deeper, id) =~= self.kid_totals(depth, id));
        }
    }

    /// Any sufficient depth gives the total.
    proof fn lemma_total(self, depth: nat, id: Id)
        requires
            self.summable_within(depth, id),
        ensures
            self.total(id) == self.total_within(depth, id),
    {
        let chosen = choose|depth: nat| self.summable_within(depth, id);
        if depth <= chosen {
            self.lemma_deeper(depth, chosen, id);
        } else {
            self.lemma_deeper(chosen, depth, id);
        }
    }

    /// Totals do not change when some of them become known.
    proof fn lemma_more_known(self, more: Self, depth: nat, id: Id)
        requires
            self.summable_within(depth, id),
            more.children == self.children,
            more.values == self.values,
            more.zero == self.zero,
            self.known.submap_of(more.known),
            forall|k: Id| #[trigger] more.known.contains_key(k) ==> more.known[k] == self.total(k),
        ensures
            more.summable_within(depth, id),
            more.total_within(depth, id) == self.total_within(depth, id),
        decreases depth,
    {
        self.lemma_total(depth, id);
        if !more.known.contains_key(id) {
            let kids = self.kids(id);
            assert(more.kids(id) == kids);
            assert forall|i: int| 0 <= i < kids.len() implies {
                &&& more.summable_within((depth - 1) as nat, #[trigger] kids[i])
                &&& more.total_within((depth - 1) as nat, kids[i]) == self.total_within(
                    (depth - 1) as nat,
                    kids[i],
                )
            } by {
                self.lemma_more_known(more, (depth - 1) as nat, kids[i]);
            }
            assert(more.kid_totals(depth, id) =~= self.kid_totals(depth, id));
        }
    }

    /// A node without a known total lies below itself.
    proof fn lemma_below_self(self, id: Id)
        requires
            !self.known.contains_key(id),
        ensures
            self.below(id, id),
    {
        assert(self.is_path(seq![id]));
    }

    /// The children of a node below `root` are known or lie below `root` too.
    proof fn lemma_below_kid(self, root: Id, id: Id, kid: Id)
        requires
            self.below(root, id),
            self.kids(id).contains(kid),
            !self.known.contains_key(kid),
        ensures
            self.below(root, kid),
    {
        let path = choose|path: Seq<Id>| #[trigger]
            self.is_path(path) && path.first() == root && path.last() == id;
        let longer = path.push(kid);
        assert forall|i: int| 0 < i < longer.len() implies self.kids(longer[i - 1]).contains(
            #[trigger] longer[i],
        ) by {
            if i < path.len() {
                assert(longer[i] == path[i]);
            }
        }
        assert(self.is_path(longer));
    }

    /// What lies below a child of `root` lies below `root`, even if fewer totals are known.
    proof fn lemma_below_parent(self, more: Self, root: Id, kid: Id, id: Id)
        requires
            more.children == self.children,
            self.known.submap_of(more.known),
            !self.known.contains_key(root),
            self.kids(root).contains(kid),
            more.below(kid, id),
        ensures
            self.below(root, id),
    {
        let path = choose|path: Seq<Id>| #[trigger]
            more.is_path(path) && path.first() == kid && path.last() == id;
        let longer = seq![root] + path;
        assert forall|i: int| 0 <= i < longer.len() implies !self.known.contains_key(
            #[trigger] longer[i],
        ) by {
            if i > 0 {
                assert(longer[i] == path[i - 1]);
            }
        }
        assert forall|i: int| 0 < i < longer.len() implies self.kids(longer[i - 1]).contains(
            #[trigger] longer[i],
        ) by {
            assert(longer[i] == path[i - 1]);
            if i > 1 {
                assert(longer[i - 1] == path[i - 2]);
                assert(more.kids(path[i - 2]).contains(path[i - 1]));
            }
        }
        assert(self.is_path(longer));
        assert(longer.last() == id);
    }

    /// Every node on a path from a node that can be summed can be summed.
    proof fn lemma_path_summable(self, path: Seq<Id>, at: int)
        requires
            self.is_path(path),
            self.summable(path.first()),
            0 <= at < path.len(),
        ensures
            self.summable(path[at]),
        decreases at,
    {
        if at > 0 {
            self.lemma_path_summable(path, at - 1);
            let parent = path[at - 1];
            let depth = choose|depth: nat| self.summable_within(depth, parent);
            assert(self.kids(parent).contains(path[at]));
            let i = self.kids(parent).index_of(path[at]);
            assert(self.summable_within((depth - 1) as nat, self.kids(parent)[i]));
        }
    }

    /// Whatever lies below a node that can be summed can be summed.
    proof fn lemma_below_summable(self, root: Id, id: Id)
        requires
            self.summable(root),
            self.below(root, id),
        ensures
            self.summable(id),
    {
        let path = choose|path: Seq<Id>| #[trigger]
            self.is_path(path) && path.first() == root && path.last() == id;
        self.lemma_path_summable(path, path.len() - 1);
    }

    /// Whether `totals` holds the known totals and, with each further node, its children.
    spec fn covers(self, totals: Map<Id, V>) -> bool {
        &&& self.known.submap_of(totals)
        &&& forall|k: Id| #[trigger] totals.contains_key(k) ==> totals[k] == self.total(k)
        &&& forall|k: Id, kid: Id|
            totals.contains_key(k) && !self.known.contains_key(k) && #[trigger] self.kids(
                k,
            ).contains(kid) ==> totals.contains_key(kid)
    }

    /// Totals that cover `root` cover everything below it.
    proof fn lemma_covers_path(self, totals: Map<Id, V>, path: Seq<Id>, at: int)
        requires
            self.covers(totals),
            self.is_path(path),
            totals.contains_key(path.first()),
            0 <= at < path.len(),
        ensures
            totals.contains_key(path[at]),
        decreases at,
    {
        if at > 0 {
            self.lemma_covers_path(totals, path, at - 1);
            assert(self.kids(path[at - 1]).contains(path[at]));
        }
    }

    /// Extending totals that cover some nodes by those below one more node.
    proof fn lemma_covers_extended(self, totals: Map<Id, V>, depth: nat, root: Id)
        requires
            self.covers(totals),
            self.summable_within(depth, root),
        ensures
            ({
                let more = Forest { known: totals, ..self };
                &&& more.summable_within(depth, root)
                &&& totals.submap_of(more.extended(root))
                &&& more.extended(root).contains_key(root)
                &&& self.covers(more.extended(root))
            }),
    {
        let more = Forest { known: totals, ..self };
        let extended = more.extended(root);
        self.lemma_more_known(more, depth, root);
        assert forall|k: Id| #[trigger] extended.contains_key(k) implies extended[k] == self.total(
            k,
        ) by {
            if totals.contains_key(k) {
                more.lemma_total(0, k);
            } else {
                let path = choose|path: Seq<Id>| #[trigger]
                    more.is_path(path) && path.first() == root && path.last() == k;
                assert(self.is_path(path)) by {
                    assert forall|i: int| 0 < i < path.len() implies self.kids(
                        path[i - 1],
                    ).contains(#[trigger] path[i]) by {
                        assert(more.kids(path[i - 1]).contains(path[i]));
                    }
                }
                self.lemma_path_summable(path, path.len() - 1);
                let d = choose|d: nat| self.summable_within(d, k);
                self.lemma_more_known(more, d, k);
                self.lemma_total(d, k);
                more.lemma_total(d, k);
            }
        }
        assert forall|k: Id| totals.contains_key(k) implies extended.contains_key(k) && extended[k]
            == totals[k] by {
            more.lemma_total(0, k);
        }
        assert forall|k: Id, kid: Id|
            extended.contains_key(k) && !self.known.contains_key(k) && #[trigger] self.kids(
                k,
            ).contains(kid) implies extended.contains_key(kid) by {
            if !totals.contains_key(k) && !totals.contains_key(kid) {
                assert(more.kids(k).contains(kid));
                more.lemma_below_kid(root, k, kid);
            }
        }
        if !totals.contains_key(root) {
            more.lemma_below_self(root);
        }
    }
}

/// The forest that a summation over these tables reads.
pub open spec fn forest<Id, V>(
    children: HashMap<Id, Vec<Id>>,
    values: HashMap<Id, V>,
    known: HashMap<Id, V>,
    zero: V,
) -> Forest<Id, V> {
    Forest { children: children@, values: values@, known: known@, zero }
}

/// Adds the totals of `root` and of everything below it to `cumulated`, looking at most `depth`
/// levels down.
fn cumulate_within<Id, V>(
    root: Id,
    children: &HashMap<Id, Vec<Id>>,
    values: &HashMap<Id, V>,
    zero: V,
    cumulated: &mut HashMap<Id, V>,
    Ghost(depth): Ghost<nat>,
) where Id: Copy + Eq + Hash, V: Copy + Add<V, Output = V>
    requires
        obeys_key_model::<Id>(),
        V::obeys_add_spec(),
        forest(*children, *values, *old(cumulated), zero).summable_within(depth, root),
    ensures
        final(cumulated)@ == forest(*children, *values, *old(cumulated), zero).extended(root),
    decreases depth,
{
    let ghost f = forest(*children, *values, *old(cumulated), zero);
    if cumulated.contains_key(&root) {
        proof {
            assert forall|k: Id| #[trigger] f.known.contains_key(k) implies f.total(k)
                == f.known[k] by {
                f.lemma_total(0, k);
            }
            assert(f.extended(root) =~= cumulated@);
        }
        return;
    }
    proof {
        assert forall|k: Id| #[trigger] f.known.contains_key(k) implies f.known[k] == f.total(k) by {
            f.lemma_total(0, k);
        }
    }
    let own: V = *values.get(&root).unwrap();
    let mut sum: V = zero;
    if let Some(kids) = children.get(&root) {
        let ghost totals = f.kid_totals(depth, root);
        assert(totals.take(0) =~= Seq::<V>::empty());
        let mut i: usize = 0;
        while i < kids.len()
            invariant
                obeys_key_model::<Id>(),
                V::obeys_add_spec(),
                f == forest(*children, *values, *old(cumulated), zero),
                depth > 0,
                !f.known.contains_key(root),
                f.summable_within(depth, root),
                totals == f.kid_totals(depth, root),
                kids@ == f.kids(root),
                i <= kids.len(),
                f.covers(cumulated@),
                forall|j: int| 0 <= j < i ==> cumulated@.contains_key(#[trigger] kids[j]),
                forall|k: Id| #[trigger]
                    cumulated@.contains_key(k) ==> f.known.contains_key(k) || f.below(root, k),
                sum == sum_from(zero, totals.take(i as int)),
            decreases kids.len() - i,
        {
            let kid: Id = kids[i];
            let ghost before = cumulated@;
            let ghost more = Forest { known: before, ..f };
            proof {
                assert(f.summable_within((depth - 1) as nat, f.kids(root)[i as int]));
                f.lemma_covers_extended(before, (depth - 1) as nat, kid);
            }
            cumulate_within(kid, children, values, zero, cumulated, Ghost((depth - 1) as nat));
            proof {
                f.lemma_total((depth - 1) as nat, kid);
                assert(totals[i as int] == f.total(kid));
                assert(totals.take(i + 1).drop_last() =~= totals.take(i as int));
                assert(f.kids(root).contains(kid));
                assert forall|k: Id| #[trigger] cumulated@.contains_key(k) implies f.known.contains_key(
                    k,
                ) || f.below(root, k) by {
                    if !before.contains_key(k) {
                        f.lemma_below_parent(more, root, kid, k);
                    }
                }
            }
            sum = sum + *cumulated.get(&kid).unwrap();
            i = i + 1;
        }
        assert(totals.take(kids.len() as int) =~= totals);
    } else {
        assert(f.kid_totals(depth, root) =~= Seq::<V>::empty());
    }
    let ghost before = cumulated@;
    cumulated.insert(root, own + sum);
    proof {
        f.lemma_total(depth, root);
        f.lemma_below_self(root);
        assert(f.covers(cumulated@)) by {
            assert forall|k: Id, kid: Id|
                cumulated@.contains_key(k) && !f.known.contains_key(k) && #[trigger] f.kids(
                    k,
                ).contains(kid) implies cumulated@.contains_key(kid) by {
                if k == root {
                    let j = f.kids(root).index_of(kid);
                    assert(f.kids(root)[j] == kid);
                }
            }
        }
        assert forall|k: Id| f.below(root, k) implies cumulated@.contains_key(k) by {
            let path = choose|path: Seq<Id>| #[trigger]
                f.is_path(path) && path.first() == root && path.last() == k;
            f.lemma_covers_path(cumulated@, path, path.len() - 1);
        }
        assert(cumulated@ =~= f.extended(root));
    }
}

/// Adds to `cumulated` the total of `root` and of everything below it that it does not hold yet.
///
/// The total of a node is its own value plus the sum of its children's totals, taken in the order
/// in which they are listed, starting from `zero`. Totals that `cumulated` holds are taken as they
/// are. What `V` adds up to has to depend on the operands alone; the addition need not be exact.
pub fn cumulate<Id, V>(
    root: Id,
    children: &HashMap<Id, Vec<Id>>,
    values: &HashMap<Id, V>,
    zero: V,
    cumulated: &mut HashMap<Id, V>,
) where Id: Copy + Eq + Hash, V: Copy + Add<V, Output = V>
    requires
        obeys_key_model::<Id>(),
        V::obeys_add_spec(),
        forest(*children, *values, *old(cumulated), zero).summable(root),
    ensures
        final(cumulated)@ == forest(*children, *values, *old(cumulated), zero).extended(root),
{
    let ghost f = forest(*children, *values, *old(cumulated), zero);
    let ghost depth = choose|depth: nat| f.summable_within(depth, root);
    cumulate_within(root, children, values, zero, cumulated, Ghost(depth));
}

/// The forest of these tables before any total is known.
pub open spec fn fresh<Id, V>(
    children: HashMap<Id, Vec<Id>>,
    values: HashMap<Id, V>,
    zero: V,
) -> Forest<Id, V> {
    Forest { children: children@, values: values@, known: Map::empty(), zero }
}

/// The total of every node that has a value.
///
/// What comes out does not depend on the order in which the nodes are visited (see
/// [`cumulate_in_any_order`]).
pub fn get_cumulated<Id, V>(
    children: &HashMap<Id, Vec<Id>>,
    values: &HashMap<Id, V>,
    zero: V,
) -> (cumulated: HashMap<Id, V>) where Id: Copy + Eq + Hash, V: Copy + Add<V, Output = V>
    requires
        obeys_key_model::<Id>(),
        V::obeys_add_spec(),
        forall|id: Id| #[trigger]
            values@.contains_key(id) ==> fresh(*children, *values, zero).summable(id),
    ensures
        cumulated@ == Map::new(
            |id: Id| values@.contains_key(id),
            |id: Id| fresh(*children, *values, zero).total(id),
        ),
{
    let ghost f = fresh(*children, *values, zero);
    let mut cumulated: HashMap<Id, V> = HashMap::new();
    for node in it: values.keys()
        invariant
            obeys_key_model::<Id>(),
            V::obeys_add_spec(),
            f == fresh(*children, *values, zero),
            forall|id: Id| #[trigger] values@.contains_key(id) ==> f.summable(id),
            it.seq().unref().to_set() == values@.dom(),
            f.covers(cumulated@),
            forall|id: Id| #[trigger] cumulated@.contains_key(id) ==> values@.contains_key(id),
            forall|i: int|
                0 <= i < it.index() ==> cumulated@.contains_key(*#[trigger] it.seq()[i]),
    {
        let ghost before = cumulated@;
        let ghost more = Forest { known: before, ..f };
        proof {
            assert(it.seq().unref()[it.index() as int] == *node);
            assert(it.seq().unref().to_set().contains(*node));
            let depth = choose|depth: nat| f.summable_within(depth, *node);
            f.lemma_covers_extended(before, depth, *node);
        }
        cumulate(*node, children, values, zero, &mut cumulated);
        proof {
            assert forall|id: Id| #[trigger] cumulated@.contains_key(id) implies values@.contains_key(
                id,
            ) by {
                if !before.contains_key(id) {
                    more.lemma_below_summable(*node, id);
                }
            }
        }
    }
    proof {
        assert forall|id: Id| #[trigger] values@.contains_key(id) implies cumulated@.contains_key(
            id,
        ) by {
        }
        assert(cumulated@ =~= Map::new(|id: Id| values@.contains_key(id), |id: Id| f.total(id)));
    }
    cumulated
}

/// Whether every child of `id` is among `settled`.
spec fn kids_settled<Id, V: Add<V, Output = V>>(
    f: Forest<Id, V>,
    id: Id,
    settled: Set<Id>,
) -> bool {
    forall|i: int| 0 <= i < f.kids(id).len() ==> settled.contains(#[trigger] f.kids(id)[i])
}

/// A node all of whose children are grounded is grounded.
proof fn lemma_grounded_parent<Id, V: Add<V, Output = V>>(f: Forest<Id, V>, id: Id, count: nat) -> (
    depth: nat)
    requires
        f.values.contains_key(id),
        count <= f.kids(id).len(),
        forall|i: int| 0 <= i < f.kids(id).len() ==> f.grounded(#[trigger] f.kids(id)[i]),
    ensures
        forall|i: int| 0 <= i < count ==> f.grounded_within(depth, #[trigger] f.kids(id)[i]),
        count == f.kids(id).len() ==> f.grounded(id),
    decreases count,
{
    let depth = if count == 0 {
        0
    } else {
        let rest = lemma_grounded_parent(f, id, (count - 1) as nat);
        let last = f.kids(id)[count - 1];
        let own = choose|depth: nat| f.grounded_within(depth, last);
        let depth = rest + own;
        assert forall|i: int| 0 <= i < count implies f.grounded_within(
            depth,
            #[trigger] f.kids(id)[i],
        ) by {
            lemma_grounded_deeper(f, if i < count - 1 { rest } else { own }, depth, f.kids(id)[i]);
        }
        depth
    };
    if count == f.kids(id).len() {
        assert(f.grounded_within(depth + 1, id));
    }
    depth
}

proof fn lemma_grounded_deeper<Id, V: Add<V, Output = V>>(
    f: Forest<Id, V>,
    depth: nat,
    deeper: nat,
    id: Id,
)
    requires
        f.grounded_within(depth, id),
        depth <= deeper,
    ensures
        f.grounded_within(deeper, id),
    decreases depth,
{
    if !f.known.contains_key(id) {
        assert forall|i: int| 0 <= i < f.kids(id).len() implies f.grounded_within(
            (deeper - 1) as nat,
            #[trigger] f.kids(id)[i],
        ) by {
            lemma_grounded_deeper(f, (depth - 1) as nat, (deeper - 1) as nat, f.kids(id)[i]);
        }
    }
}

/// No node is grounded outside a set that holds every node whose children are all in it.
proof fn lemma_stuck<Id, V: Add<V, Output = V>>(
    f: Forest<Id, V>,
    settled: Set<Id>,
    depth: nat,
    id: Id,
)
    requires
        f.known == Map::<Id, V>::empty(),
        forall|k: Id|
            f.values.contains_key(k) && #[trigger] kids_settled(f, k, settled)
                ==> settled.contains(k),
        !settled.contains(id),
    ensures
        !f.grounded_within(depth, id),
    decreases depth,
{
    if depth > 0 && f.values.contains_key(id) {
        assert(!kids_settled(f, id, settled));
        let i = choose|i: int| 0 <= i < f.kids(id).len() && !settled.contains(
            #[trigger] f.kids(id)[i],
        );
        lemma_stuck(f, settled, (depth - 1) as nat, f.kids(id)[i]);
    }
}

/// Where every addition is in range, a grounded node can be summed.
pub proof fn grounded_is_summable<Id, V: Add<V, Output = V>>(f: Forest<Id, V>, id: Id)
    requires
        forall|a: V, b: V| #[trigger] a.add_req(b),
        f.grounded(id),
    ensures
        f.summable(id),
{
    let depth = choose|depth: nat| f.grounded_within(depth, id);
    lemma_grounded_summable(f, depth, id);
}

proof fn lemma_grounded_summable<Id, V: Add<V, Output = V>>(f: Forest<Id, V>, depth: nat, id: Id)
    requires
        forall|a: V, b: V| #[trigger] a.add_req(b),
        f.grounded_within(depth, id),
    ensures
        f.summable_within(depth, id),
    decreases depth,
{
    if !f.known.contains_key(id) {
        assert forall|i: int| 0 <= i < f.kids(id).len() implies f.summable_within(
            (depth - 1) as nat,
            #[trigger] f.kids(id)[i],
        ) by {
            lemma_grounded_summable(f, (depth - 1) as nat, f.kids(id)[i]);
        }
    }
}

/// Whether a node is grounded depends on which nodes have values, not on the values.
pub proof fn grounded_alike<Id, V: Add<V, Output = V>, W: Add<W, Output = W>>(
    f: Forest<Id, V>,
    g: Forest<Id, W>,
    id: Id,
)
    requires
        f.children == g.children,
        f.values.dom() == g.values.dom(),
        f.known.dom() == g.known.dom(),
    ensures
        f.grounded(id) <==> g.grounded(id),
{
    if f.grounded(id) {
        lemma_grounded_alike(f, g, choose|depth: nat| f.grounded_within(depth, id), id);
    }
    if g.grounded(id) {
        lemma_grounded_alike(g, f, choose|depth: nat| g.grounded_within(depth, id), id);
    }
}

proof fn lemma_grounded_alike<Id, V: Add<V, Output = V>, W: Add<W, Output = W>>(
    f: Forest<Id, V>,
    g: Forest<Id, W>,
    depth: nat,
    id: Id,
)
    requires
        f.children == g.children,
        f.values.dom() == g.values.dom(),
        f.known.dom() == g.known.dom(),
        f.grounded_within(depth, id),
    ensures
        g.grounded_within(depth, id),
    decreases depth,
{
    assert(f.known.dom().contains(id) == g.known.dom().contains(id));
    assert(f.values.dom().contains(id) == g.values.dom().contains(id));
    if !g.known.contains_key(id) {
        assert forall|i: int| 0 <= i < g.kids(id).len() implies g.grounded_within(
            (depth - 1) as nat,
            #[trigger] g.kids(id)[i],
        ) by {
            assert(f.kids(id)[i] == g.kids(id)[i]);
            lemma_grounded_alike(f, g, (depth - 1) as nat, f.kids(id)[i]);
        }
    }
}

/// Whether every node with a value has a total: whether every node below it has a value and none
/// is its own descendant.
pub fn has_totals<Id, V>(
    children: &HashMap<Id, Vec<Id>>,
    values: &HashMap<Id, V>,
    zero: V,
) -> (grounded: bool) where Id: Copy + Eq + Hash, V: Copy + Add<V, Output = V>
    requires
        obeys_key_model::<Id>(),
    ensures
        grounded == (forall|id: Id| #[trigger]
            values@.contains_key(id) ==> fresh(*children, *values, zero).grounded(id)),
{
    let ghost f = fresh(*children, *values, zero);
    let mut settled: HashSet<Id> = HashSet::new();
    let mut pending: Vec<Id> = Vec::new();
    for node in it: values.keys()
        invariant
            it.seq().unref().to_set() == values@.dom(),
            forall|i: int| 0 <= i < pending.len() ==> values@.contains_key(#[trigger] pending[i]),
            forall|i: int| 0 <= i < it.index() ==> pending@.contains(*#[trigger] it.seq()[i]),
    {
        let ghost before = pending@;
        proof {
            assert(it.seq().unref()[it.index() as int] == *node);
            assert(it.seq().unref().to_set().contains(*node));
        }
        pending.push(*node);
        proof {
            assert(pending@[before.len() as int] == *node);
            assert forall|i: int| 0 <= i < it.index() implies pending@.contains(
                *#[trigger] it.seq()[i],
            ) by {
                let j = before.index_of(*it.seq()[i]);
                assert(pending@[j] == *it.seq()[i]);
            }
        }
    }
    loop
        invariant
            obeys_key_model::<Id>(),
            f == fresh(*children, *values, zero),
            forall|i: int| 0 <= i < pending.len() ==> values@.contains_key(#[trigger] pending[i]),
            forall|id: Id| #[trigger]
                values@.contains_key(id) ==> settled@.contains(id) || pending@.contains(id),
            forall|id: Id| #[trigger]
                settled@.contains(id) ==> values@.contains_key(id) && f.grounded(id),
        decreases pending.len(),
    {
        let ghost start = settled@;
        let mut next: Vec<Id> = Vec::new();
        let mut i: usize = 0;
        while i < pending.len()
            invariant
                obeys_key_model::<Id>(),
                f == fresh(*children, *values, zero),
                i <= pending.len(),
                next.len() <= i,
                forall|j: int|
                    0 <= j < pending.len() ==> values@.contains_key(#[trigger] pending[j]),
                forall|id: Id| #[trigger]
                    values@.contains_key(id) ==> settled@.contains(id) || pending@.contains(id),
                forall|id: Id| #[trigger]
                    settled@.contains(id) ==> values@.contains_key(id) && f.grounded(id),
                forall|j: int| 0 <= j < next.len() ==> values@.contains_key(#[trigger] next[j]),
                forall|j: int|
                    0 <= j < i ==> settled@.contains(#[trigger] pending[j]) || next@.contains(
                        pending[j],
                    ),
                next.len() == i ==> {
                    &&& settled@ == start
                    &&& forall|j: int|
                        0 <= j < i ==> !kids_settled(f, #[trigger] pending[j], start)
                },
            decreases pending.len() - i,
        {
            let node: Id = pending[i];
            let mut ready: bool = true;
            if let Some(kids) = children.get(&node) {
                let mut j: usize = 0;
                while j < kids.len() && ready
                    invariant
                        obeys_key_model::<Id>(),
                        kids@ == f.kids(node),
                        j <= kids.len(),
                        ready ==> forall|l: int|
                            0 <= l < j ==> settled@.contains(#[trigger] f.kids(node)[l]),
                        !ready ==> !kids_settled(f, node, settled@),
                    decreases kids.len() - j,
                {
                    if !settled.contains(&kids[j]) {
                        ready = false;
                        assert(!settled@.contains(f.kids(node)[j as int]));
                    }
                    j = j + 1;
                }
            }
            assert(ready == kids_settled(f, node, settled@));
            let ghost next_before = next@;
            if ready {
                proof {
                    lemma_grounded_parent(f, node, f.kids(node).len());
                }
                settled.insert(node);
            } else {
                next.push(node);
                proof {
                    assert(next@[next_before.len() as int] == node);
                    assert forall|j: int| 0 <= j < i implies settled@.contains(
                        #[trigger] pending[j],
                    ) || next@.contains(pending[j]) by {
                        if next_before.contains(pending[j]) {
                            let l = next_before.index_of(pending[j]);
                            assert(next@[l] == pending[j]);
                        }
                    }
                }
            }
            i = i + 1;
        }
        if next.len() == pending.len() {
            proof {
                assert forall|k: Id|
                    f.values.contains_key(k) && #[trigger] kids_settled(
                        f,
                        k,
                        settled@,
                    ) implies settled@.contains(k) by {
                    if !settled@.contains(k) {
                        let j = pending@.index_of(k);
                        assert(pending[j] == k);
                    }
                }
                if pending.len() > 0 {
                    let k = pending[0];
                    if settled@.contains(k) {
                        assert(!kids_settled(f, k, settled@));
                        let depth = choose|depth: nat| f.grounded_within(depth, k);
                        let l = choose|l: int|
                            0 <= l < f.kids(k).len() && !settled@.contains(
                                #[trigger] f.kids(k)[l],
                            );
                        lemma_stuck(f, settled@, (depth - 1) as nat, f.kids(k)[l]);
                    } else {
                        assert forall|depth: nat| !f.grounded_within(depth, k) by {
                            lemma_stuck(f, settled@, depth, k);
                        }
                    }
                }
            }
            return pending.len() == 0;
        }
        proof {
            assert forall|id: Id| #[trigger] values@.contains_key(id) implies settled@.contains(id)
                || next@.contains(id) by {
                if !settled@.contains(id) {
                    let j = pending@.index_of(id);
                    assert(pending[j] == id);
                }
            }
        }
        pending = next;
    }
}

/// The total of a node is its own value plus the sum of its children's totals.
pub proof fn total_is_own_plus_children<Id, V: Add<V, Output = V>>(f: Forest<Id, V>, id: Id)
    requires
        f.summable(id),
        !f.known.contains_key(id),
    ensures
        f.total(id) == f.values[id].add_spec(
            sum_from(f.zero, f.kids(id).map_values(|kid: Id| f.total(kid))),
        ),
{
    let depth = choose|depth: nat| f.summable_within(depth, id);
    f.lemma_total(depth, id);
    assert forall|i: int| 0 <= i < f.kids(id).len() implies f.total(#[trigger] f.kids(id)[i])
        == f.total_within((depth - 1) as nat, f.kids(id)[i]) by {
        f.lemma_total((depth - 1) as nat, f.kids(id)[i]);
    }
    assert(f.kids(id).map_values(|kid: Id| f.total(kid)) =~= f.kid_totals(depth, id));
}

/// Adding totals keeps the known ones as they are.
pub proof fn cumulate_keeps_known<Id, V: Add<V, Output = V>>(f: Forest<Id, V>, root: Id)
    ensures
        f.known.submap_of(f.extended(root)),
{
    assert forall|k: Id| #[trigger] f.known.contains_key(k) implies f.extended(root).contains_key(k)
        && f.known[k] == f.extended(root)[k] by {
        f.lemma_total(0, k);
    }
}

/// It does not matter below which of two nodes the totals are added first.
pub proof fn cumulate_in_any_order<Id, V: Add<V, Output = V>>(f: Forest<Id, V>, a: Id, b: Id)
    requires
        f.summable(a),
        f.summable(b),
    ensures
        (Forest { known: f.extended(a), ..f }).extended(b) == (Forest {
            known: f.extended(b),
            ..f
        }).extended(a),
{
    lemma_extended_twice(f, a, b);
    lemma_extended_twice(f, b, a);
    let one = (Forest { known: f.extended(a), ..f }).extended(b);
    let other = (Forest { known: f.extended(b), ..f }).extended(a);
    assert(one =~= other);
}

/// What the totals below `a` and then those below `b` amount to.
proof fn lemma_extended_twice<Id, V: Add<V, Output = V>>(f: Forest<Id, V>, a: Id, b: Id)
    requires
        f.summable(a),
        f.summable(b),
    ensures
        ({
            let both = (Forest { known: f.extended(a), ..f }).extended(b);
            &&& forall|k: Id| #[trigger]
                both.contains_key(k) <==> f.known.contains_key(k) || f.below(a, k) || f.below(b, k)
            &&& forall|k: Id| #[trigger] both.contains_key(k) ==> both[k] == f.total(k)
        }),
{
    let first = f.extended(a);
    let more = Forest { known: first, ..f };
    let both = more.extended(b);
    assert(f.covers(f.known)) by {
        assert forall|k: Id| #[trigger] f.known.contains_key(k) implies f.known[k] == f.total(k) by {
            f.lemma_total(0, k);
        }
    }
    assert(Forest { known: f.known, ..f } == f);
    f.lemma_covers_extended(f.known, choose|depth: nat| f.summable_within(depth, a), a);
    f.lemma_covers_extended(first, choose|depth: nat| f.summable_within(depth, b), b);
    assert forall|k: Id| #[trigger] both.contains_key(k) <==> f.known.contains_key(k) || f.below(a, k)
        || f.below(b, k) by {
        if more.below(b, k) {
            let path = choose|path: Seq<Id>| #[trigger]
                more.is_path(path) && path.first() == b && path.last() == k;
            assert forall|i: int| 0 < i < path.len() implies f.kids(path[i - 1]).contains(
                #[trigger] path[i],
            ) by {
                assert(more.kids(path[i - 1]).contains(path[i]));
            }
            assert(f.is_path(path));
        }
        if f.below(b, k) {
            let path = choose|path: Seq<Id>| #[trigger]
                f.is_path(path) && path.first() == b && path.last() == k;
            f.lemma_covers_path(both, path, path.len() - 1);
        }
    }
}

/// Adding the totals below a node once more adds nothing.
pub proof fn cumulate_again_adds_nothing<Id, V: Add<V, Output = V>>(f: Forest<Id, V>, root: Id)
    requires
        f.summable(root),
    ensures
        (Forest { known: f.extended(root), ..f }).extended(root) == f.extended(root),
{
    let after = Forest { known: f.extended(root), ..f };
    assert(f.extended(root).contains_key(root)) by {
        if !f.known.contains_key(root) {
            f.lemma_below_self(root);
        }
    }
    assert forall|k: Id| #[trigger] after.known.contains_key(k) implies after.total(k)
        == after.known[k] by {
        after.lemma_total(0, k);
    }
    assert(after.extended(root) =~= f.extended(root));
}

/// Whether `parent` has `child` among its listed children.
pub open spec fn lists<Id>(children: Map<Id, Vec<Id>>, parent: Id, child: Id) -> bool {
    children.contains_key(parent) && children[parent]@.contains(child)
}

/// Whether each node of `path` is a listed child of the one before it.
pub open spec fn lineage<Id>(children: Map<Id, Vec<Id>>, path: Seq<Id>) -> bool {
    &&& path.len() > 0
    &&& forall|i: int| 0 < i < path.len() ==> lists(children, path[i - 1], #[trigger] path[i])
}

/// Whether `id` is `root` or a descendant of it.
pub open spec fn descends<Id>(children: Map<Id, Vec<Id>>, root: Id, id: Id) -> bool {
    exists|path: Seq<Id>| #[trigger]
        lineage(children, path) && path.first() == root && path.last() == id
}

/// Whether some descendant of `root` is its own descendant.
pub open spec fn has_cycle<Id>(children: Map<Id, Vec<Id>>, root: Id) -> bool {
    exists|path: Seq<Id>| #[trigger]
        lineage(children, path) && path.len() > 1 && path.first() == path.last() && descends(
            children,
            root,
            path.first(),
        )
}

proof fn lemma_lineage<Id, V: Add<V, Output = V>>(f: Forest<Id, V>, path: Seq<Id>)
    ensures
        f.is_path(path) <==> lineage(f.children, path) && forall|i: int|
            0 <= i < path.len() ==> !f.known.contains_key(#[trigger] path[i]),
{
    if f.is_path(path) {
        assert forall|i: int| 0 < i < path.len() implies lists(
            f.children,
            path[i - 1],
            #[trigger] path[i],
        ) by {
            assert(f.kids(path[i - 1]).contains(path[i]));
        }
    }
    if lineage(f.children, path) {
        assert forall|i: int| 0 < i < path.len() implies f.kids(path[i - 1]).contains(
            #[trigger] path[i],
        ) by {
            assert(lists(f.children, path[i - 1], path[i]));
        }
    }
}

/// Adding the totals of a node adds those of the node and its descendants, as far as they are
/// reached without passing a node whose total is known, and those of no other nodes.
pub proof fn cumulate_adds_descendants<Id, V: Add<V, Output = V>>(
    f: Forest<Id, V>,
    root: Id,
    id: Id,
)
    ensures
        f.extended(root).contains_key(id) <==> f.known.contains_key(id) || exists|path: Seq<Id>|
            {
                &&& #[trigger] lineage(f.children, path)
                &&& path.first() == root
                &&& path.last() == id
                &&& forall|i: int| 0 <= i < path.len() ==> !f.known.contains_key(#[trigger] path[i])
            },
        f.known == Map::<Id, V>::empty() ==> (f.extended(root).contains_key(id) <==> descends(
            f.children,
            root,
            id,
        )),
{
    if f.below(root, id) {
        let path = choose|path: Seq<Id>| #[trigger]
            f.is_path(path) && path.first() == root && path.last() == id;
        lemma_lineage(f, path);
    }
    assert forall|path: Seq<Id>|
        {
            &&& #[trigger] lineage(f.children, path)
            &&& path.first() == root
            &&& path.last() == id
            &&& forall|i: int| 0 <= i < path.len() ==> !f.known.contains_key(#[trigger] path[i])
        } implies f.below(root, id) by {
        lemma_lineage(f, path);
    }
}

/// The total of a node is its own value plus the totals of all children that are listed, in their
/// order; where none is, that is the empty sum.
pub proof fn total_counts_every_listed_child<Id, V: Add<V, Output = V>>(f: Forest<Id, V>, id: Id)
    requires
        f.summable(id),
        !f.known.contains_key(id),
    ensures
        !f.children.contains_key(id) ==> f.total(id) == f.values[id].add_spec(f.zero),
        f.children.contains_key(id) ==> f.total(id) == f.values[id].add_spec(
            sum_from(f.zero, f.children[id]@.map_values(|kid: Id| f.total(kid))),
        ),
{
    total_is_own_plus_children(f, id);
    if !f.children.contains_key(id) {
        assert(f.kids(id).map_values(|kid: Id| f.total(kid)) =~= Seq::<V>::empty());
    }
}

/// A total that is known is taken as it is.
pub proof fn known_total_stands<Id, V: Add<V, Output = V>>(f: Forest<Id, V>, id: Id)
    requires
        f.known.contains_key(id),
    ensures
        f.summable(id),
        f.total(id) == f.known[id],
{
    assert(f.summable_within(0, id));
    f.lemma_total(0, id);
}

/// A sum starts from `zero`, and its items are added from left to right.
pub proof fn sum_goes_from_left_to_right<V: Add<V, Output = V>>(zero: V, items: Seq<V>, item: V)
    ensures
        sum_from(zero, Seq::empty()) == zero,
        sum_from(zero, items.push(item)) == sum_from(zero, items).add_spec(item),
{
    assert(items.push(item).drop_last() =~= items);
}

proof fn lemma_grounded_path<Id, V: Add<V, Output = V>>(
    f: Forest<Id, V>,
    depth: nat,
    path: Seq<Id>,
    at: int,
)
    requires
        f.known == Map::<Id, V>::empty(),
        lineage(f.children, path),
        f.grounded_within(depth, path.first()),
        0 <= at < path.len(),
    ensures
        at < depth,
        f.grounded_within((depth - at) as nat, path[at]),
    decreases at,
{
    if at > 0 {
        lemma_grounded_path(f, depth, path, at - 1);
        let parent = path[at - 1];
        assert(lists(f.children, parent, path[at]));
        assert(f.kids(parent).contains(path[at]));
        let i = f.kids(parent).index_of(path[at]);
        assert(f.grounded_within((depth - (at - 1) - 1) as nat, f.kids(parent)[i]));
    }
}

proof fn lemma_grounded_no_cycle<Id, V: Add<V, Output = V>>(
    f: Forest<Id, V>,
    depth: nat,
    path: Seq<Id>,
)
    requires
        f.known == Map::<Id, V>::empty(),
        lineage(f.children, path),
        path.len() > 1,
        path.first() == path.last(),
    ensures
        !f.grounded_within(depth, path.first()),
    decreases depth,
{
    if f.grounded_within(depth, path.first()) {
        lemma_grounded_path(f, depth, path, path.len() - 1);
        lemma_grounded_no_cycle(f, (depth - (path.len() - 1)) as nat, path);
    }
}

/// From a node that is not grounded, though all its descendants have values, ever longer paths lead
/// down.
proof fn lemma_endless<Id, V: Add<V, Output = V>>(f: Forest<Id, V>, root: Id, n: nat) -> (path: Seq<
    Id,
>)
    requires
        f.known == Map::<Id, V>::empty(),
        !f.grounded(root),
        forall|id: Id| #[trigger] descends(f.children, root, id) ==> f.values.contains_key(id),
    ensures
        lineage(f.children, path),
        path.len() == n + 1,
        path.first() == root,
        !f.grounded(path.last()),
    decreases n,
{
    if n == 0 {
        seq![root]
    } else {
        let path = lemma_endless(f, root, (n - 1) as nat);
        let last = path.last();
        assert(descends(f.children, root, last));
        if forall|i: int| 0 <= i < f.kids(last).len() ==> f.grounded(#[trigger] f.kids(last)[i]) {
            lemma_grounded_parent(f, last, f.kids(last).len());
        }
        let i = choose|i: int|
            0 <= i < f.kids(last).len() && !f.grounded(#[trigger] f.kids(last)[i]);
        let longer = path.push(f.kids(last)[i]);
        assert forall|k: int| 0 < k < longer.len() implies lists(
            f.children,
            longer[k - 1],
            #[trigger] longer[k],
        ) by {
            if k < path.len() {
                assert(longer[k] == path[k]);
            } else {
                assert(f.kids(last).contains(f.kids(last)[i]));
            }
        }
        longer
    }
}

/// A node has a total to compute if and only if it and every descendant has a value and none of
/// them is its own descendant.
pub proof fn grounded_means_valued_and_acyclic<Id, V: Add<V, Output = V>>(
    f: Forest<Id, V>,
    root: Id,
)
    requires
        f.known == Map::<Id, V>::empty(),
        f.values.dom().finite(),
    ensures
        f.grounded(root) <==> {
            &&& forall|id: Id| #[trigger] descends(f.children, root, id) ==> f.values.contains_key(id)
            &&& !has_cycle(f.children, root)
        },
{
    if f.grounded(root) {
        let depth = choose|depth: nat| f.grounded_within(depth, root);
        assert forall|id: Id| #[trigger] descends(
            f.children,
            root,
            id,
        ) implies f.values.contains_key(id) by {
            let path = choose|path: Seq<Id>| #[trigger]
                lineage(f.children, path) && path.first() == root && path.last() == id;
            lemma_grounded_path(f, depth, path, path.len() - 1);
        }
        if has_cycle(f.children, root) {
            let cycle = choose|path: Seq<Id>| #[trigger]
                lineage(f.children, path) && path.len() > 1 && path.first() == path.last()
                    && descends(f.children, root, path.first());
            let id = cycle.first();
            let path = choose|path: Seq<Id>| #[trigger]
                lineage(f.children, path) && path.first() == root && path.last() == id;
            lemma_grounded_path(f, depth, path, path.len() - 1);
            lemma_grounded_no_cycle(f, (depth - (path.len() - 1)) as nat, cycle);
        }
    } else if forall|id: Id| #[trigger]
        descends(f.children, root, id) ==> f.values.contains_key(id) {
        let path = lemma_endless(f, root, f.values.dom().len());
        assert forall|i: int| 0 <= i < path.len() implies descends(
            f.children,
            root,
            #[trigger] path[i],
        ) by {
            let part = path.take(i + 1);
            assert forall|k: int| 0 < k < part.len() implies lists(
                f.children,
                part[k - 1],
                #[trigger] part[k],
            ) by {
                assert(path[k] == part[k]);
            }
            assert(lineage(f.children, part) && part.first() == root && part.last() == path[i]);
        }
        if path.no_duplicates() {
            path.unique_seq_to_set();
            assert forall|id: Id| #[trigger] path.to_set().contains(
                id,
            ) implies f.values.dom().contains(id) by {
                let i = path.index_of(id);
                assert(descends(f.children, root, path[i]));
            }
            vstd::set_lib::lemma_len_subset(path.to_set(), f.values.dom());
        }
        let (i, j) = choose|i: int, j: int|
            0 <= i < path.len() && 0 <= j < path.len() && i != j && #[trigger] path[i]
                == #[trigger] path[j];
        let (low, high) = if i < j {
            (i, j)
        } else {
            (j, i)
        };
        let cycle = path.subrange(low, high + 1);
        assert forall|k: int| 0 < k < cycle.len() implies lists(
            f.children,
            cycle[k - 1],
            #[trigger] cycle[k],
        ) by {
            assert(path[low + k] == cycle[k]);
            assert(lists(f.children, path[low + k - 1], path[low + k]));
        }
        assert(descends(f.children, root, path[low]));
        assert(lineage(f.children, cycle) && cycle.first() == path[low] && cycle.last()
            == path[high]);
    }
}

} // verus!
