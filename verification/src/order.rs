//! The order of a listing.
//!
//! A directory is listed in whatever order the file system yields. Here two
//! trees are called alike when they hold the same entries and differ at most
//! in the order of their listings, at any depth; and walks over trees that
//! are alike are shown to report the same entries, each as often.

use crate::compare::Matcher;
use crate::laws::{
    goes_into, lemma_found_add, lemma_found_one, lemma_reached_add, reached, reached_by, reports,
    selection, shown, walk_reports_matches, Found, Reported,
};
use crate::model::{actions, run, Listing, Node, Rules};
use vstd::multiset::Multiset;
use vstd::prelude::*;
use vstd::seq_lib::{
    commutative_foldr, lemma_fold_right_permutation, lemma_multiset_commutative, to_multiset_len,
};

verus! {

/// Whether `first` and `second` are the same entry, and hold the same
/// entries at any depth but for the order of the listings.
pub open spec fn alike_node<P, E>(first: Node<P, E>, second: Node<P, E>) -> bool
    decreases second, 1int,
{
    first.entry == second.entry && match second.listing {
        Listing::Failed(error) => first.listing == Listing::<P, E>::Failed(error),
        Listing::Entries(nodes) => first.listing is Entries && alike(shown(first.listing), nodes),
    }
}

/// Whether `first` and `second` are listings of the same directory: the
/// nodes of `first` can be put in an order in which each is like the node
/// of `second` in its place.
pub open spec fn alike<P, E>(first: Seq<Node<P, E>>, second: Seq<Node<P, E>>) -> bool
    decreases second, 0int,
{
    exists|sorted: Seq<Node<P, E>>|
        #![trigger sorted.to_multiset()]
        {
            &&& sorted.to_multiset() == first.to_multiset()
            &&& sorted.len() == second.len()
            &&& forall|i: int|
                0 <= i < second.len() ==> alike_node(sorted[i], #[trigger] second[i])
        }
}

/// Whether two trees are alike: both cannot be listed, for the same reason,
/// or both can, and what they hold is alike.
pub open spec fn alike_listing<P, E>(first: Listing<P, E>, second: Listing<P, E>) -> bool {
    match second {
        Listing::Failed(error) => first == Listing::<P, E>::Failed(error),
        Listing::Entries(nodes) => first is Entries && alike(shown(first), nodes),
    }
}

/// The reports of the matching entries among `found`, each as often as it
/// comes.
pub open spec fn bag<P, E, M: Matcher>(found: Seq<Found<P, E>>, filter: M) -> Multiset<
    Reported<P>,
> {
    selection(found, filter).to_multiset()
}

/// Adds to `sum` what a walk in `dir` reports by way of a node.
spec fn adder<P, E, M: Matcher>(dir: P, recursive: bool, filter: M) -> spec_fn(
    Node<P, E>,
    Multiset<Reported<P>>,
) -> Multiset<Reported<P>> {
    |node: Node<P, E>, sum: Multiset<Reported<P>>|
        sum.add(bag(reached_by(dir, node, recursive), filter))
}

/// What a walk reaches is what it reaches by way of each node in turn.
proof fn lemma_reached_last<P, E>(dir: P, nodes: Seq<Node<P, E>>, recursive: bool)
    requires
        nodes.len() > 0,
    ensures
        reached(dir, nodes, recursive) == reached(dir, nodes.drop_last(), recursive) + reached_by(
            dir,
            nodes.last(),
            recursive,
        ),
{
    let alone = seq![nodes.last()];
    assert(nodes =~= nodes.drop_last() + alone);
    lemma_reached_add(dir, nodes.drop_last(), alone, recursive);
    assert(reached(dir, alone.drop_first(), recursive) =~= Seq::<Found<P, E>>::empty());
}

/// The reports of a directory are the sum of those of its nodes.
proof fn lemma_bag_is_sum<P, E, M: Matcher>(
    dir: P,
    nodes: Seq<Node<P, E>>,
    recursive: bool,
    filter: M,
    start: Multiset<Reported<P>>,
)
    ensures
        nodes.fold_right(adder(dir, recursive, filter), start) == start.add(
            bag(reached(dir, nodes, recursive), filter),
        ),
    decreases nodes.len(),
{
    if nodes.len() == 0 {
        let nothing = selection(reached(dir, nodes, recursive), filter);
        to_multiset_len(nothing);
    } else {
        let front = reached(dir, nodes.drop_last(), recursive);
        let back = reached_by(dir, nodes.last(), recursive);
        let next = start.add(bag(back, filter));
        lemma_bag_is_sum(dir, nodes.drop_last(), recursive, filter, next);
        lemma_reached_last(dir, nodes, recursive);
        lemma_found_add(front, back, recursive, filter);
        lemma_multiset_commutative(selection(front, filter), selection(back, filter));
    }
}

/// In what order the reports of the nodes are added does not matter.
proof fn lemma_adder_commutes<P, E, M: Matcher>(dir: P, recursive: bool, filter: M)
    ensures
        commutative_foldr(adder::<P, E, M>(dir, recursive, filter)),
{
    let f = adder::<P, E, M>(dir, recursive, filter);
    assert forall|x: Node<P, E>, y: Node<P, E>, v: Multiset<Reported<P>>| #[trigger]
        f(x, f(y, v)) == f(y, f(x, v)) by {
    }
}

/// Listings whose nodes report the same, place by place, report the same.
proof fn lemma_bag_by_place<P, E, M: Matcher>(
    dir: P,
    first: Seq<Node<P, E>>,
    second: Seq<Node<P, E>>,
    recursive: bool,
    filter: M,
)
    requires
        first.len() == second.len(),
        forall|i: int|
            0 <= i < second.len() ==> bag(reached_by(dir, first[i], recursive), filter) == bag(
                reached_by(dir, #[trigger] second[i], recursive),
                filter,
            ),
    ensures
        bag(reached(dir, first, recursive), filter) == bag(
            reached(dir, second, recursive),
            filter,
        ),
    decreases second.len(),
{
    if second.len() > 0 {
        lemma_bag_by_place(dir, first.drop_last(), second.drop_last(), recursive, filter);
        lemma_reached_last(dir, first, recursive);
        lemma_reached_last(dir, second, recursive);
        let front1 = reached(dir, first.drop_last(), recursive);
        let front2 = reached(dir, second.drop_last(), recursive);
        let back1 = reached_by(dir, first.last(), recursive);
        let back2 = reached_by(dir, second.last(), recursive);
        lemma_found_add(front1, back1, recursive, filter);
        lemma_found_add(front2, back2, recursive, filter);
        lemma_multiset_commutative(selection(front1, filter), selection(back1, filter));
        lemma_multiset_commutative(selection(front2, filter), selection(back2, filter));
    }
}

/// Nodes that are alike report the same.
proof fn lemma_alike_node<P, E, M: Matcher>(
    dir: P,
    first: Node<P, E>,
    second: Node<P, E>,
    recursive: bool,
    filter: M,
)
    requires
        alike_node(first, second),
    ensures
        bag(reached_by(dir, first, recursive), filter) == bag(
            reached_by(dir, second, recursive),
            filter,
        ),
    decreases second, 1int,
{
    let found1 = Found { dir, node: first };
    let found2 = Found { dir, node: second };
    let deeper1 = if goes_into(first, recursive) {
        reached(first.entry.path, shown(first.listing), recursive)
    } else {
        Seq::empty()
    };
    let deeper2 = if goes_into(second, recursive) {
        reached(second.entry.path, shown(second.listing), recursive)
    } else {
        Seq::empty()
    };
    lemma_found_add(seq![found1], deeper1, recursive, filter);
    lemma_found_add(seq![found2], deeper2, recursive, filter);
    lemma_found_one(found1, recursive, filter);
    lemma_found_one(found2, recursive, filter);
    lemma_multiset_commutative(selection(seq![found1], filter), selection(deeper1, filter));
    lemma_multiset_commutative(selection(seq![found2], filter), selection(deeper2, filter));
    if goes_into(second, recursive) {
        if let Listing::Entries(nodes) = second.listing {
            lemma_alike(first.entry.path, shown(first.listing), nodes, recursive, filter);
        }
    }
}

/// Listings that are alike report the same.
proof fn lemma_alike<P, E, M: Matcher>(
    dir: P,
    first: Seq<Node<P, E>>,
    second: Seq<Node<P, E>>,
    recursive: bool,
    filter: M,
)
    requires
        alike(first, second),
    ensures
        bag(reached(dir, first, recursive), filter) == bag(
            reached(dir, second, recursive),
            filter,
        ),
    decreases second, 0int,
{
    let sorted = choose|sorted: Seq<Node<P, E>>|
        #![trigger sorted.to_multiset()]
        {
            &&& sorted.to_multiset() == first.to_multiset()
            &&& sorted.len() == second.len()
            &&& forall|i: int|
                0 <= i < second.len() ==> alike_node(sorted[i], #[trigger] second[i])
        };
    let f = adder::<P, E, M>(dir, recursive, filter);
    let none = Multiset::<Reported<P>>::empty();
    lemma_adder_commutes::<P, E, M>(dir, recursive, filter);
    lemma_fold_right_permutation(first, sorted, f, none);
    lemma_bag_is_sum(dir, first, recursive, filter, none);
    lemma_bag_is_sum(dir, sorted, recursive, filter, none);
    assert(none.add(bag(reached(dir, first, recursive), filter)) =~= bag(
        reached(dir, first, recursive),
        filter,
    ));
    assert forall|i: int| 0 <= i < second.len() implies bag(
        reached_by(dir, sorted[i], recursive),
        filter,
    ) == bag(reached_by(dir, #[trigger] second[i], recursive), filter) by {
        lemma_alike_node(dir, sorted[i], second[i], recursive, filter);
    }
    lemma_bag_by_place(dir, sorted, second, recursive, filter);
}

/// The order of the listings does not change what a walk reports.
///
/// Two walks under the same rules, over trees that are alike, report the
/// same entries, each as often: what the one reports is what the other
/// reports, in another order at most. So do two walks over one tree.
pub proof fn order_of_listings_is_immaterial<P, E, M: Matcher>(
    root: P,
    first: Listing<P, E>,
    second: Listing<P, E>,
    rules: Rules<M>,
)
    requires
        alike_listing(first, second),
    ensures
        reports(actions(run(root, first, rules))).to_multiset() == reports(
            actions(run(root, second, rules)),
        ).to_multiset(),
        first == second ==> reports(actions(run(root, first, rules))) == reports(
            actions(run(root, second, rules)),
        ),
{
    walk_reports_matches(root, first, rules);
    walk_reports_matches(root, second, rules);
    if let Listing::Entries(nodes) = second {
        lemma_alike(root, shown(first), nodes, rules.recursive, rules.filter);
    }
}

/// A listing in another order is alike.
///
/// Two listings that hold the same nodes, each as often, are alike: so is
/// every listing to itself, and to what it is in any other order.
pub proof fn reordered_is_alike<P, E>(first: Seq<Node<P, E>>, second: Seq<Node<P, E>>)
    requires
        first.to_multiset() == second.to_multiset(),
    ensures
        alike(first, second),
    decreases second, 0int,
{
    assert forall|i: int| 0 <= i < second.len() implies alike_node(
        second[i],
        #[trigger] second[i],
    ) by {
        lemma_alike_itself(second[i]);
    }
    assert(second.to_multiset() == first.to_multiset());
}

/// Every node is like itself.
proof fn lemma_alike_itself<P, E>(node: Node<P, E>)
    ensures
        alike_node(node, node),
    decreases node, 1int,
{
    if let Listing::Entries(nodes) = node.listing {
        reordered_is_alike(nodes, nodes);
    }
}

} // verus!
