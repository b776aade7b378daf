//! Which entries a walk over a tree reports, and which failures.
//!
//! [`walk_follows_tree`](crate::model::walk_follows_tree) says that a walk
//! over a tree goes through the turns of [`run`]. The laws here say what is
//! in those turns: the reports are the matching ones among the entries that
//! the walk reaches, the complaints are the failed listings among them, the
//! listings are the directories among them that the walk goes into, and all
//! come once each, in the order of the walk.

use crate::cli::FileType;
use crate::compare::{Matcher, NameFilter};
use crate::entry::EntryKind;
use crate::model::{
    actions, descent, ending, listing_turn, run, visit, visit_all, Listing, Node, Rules, Turn,
};
use crate::pattern::pattern_accepts;
use crate::walk::{descends, ActionView, EventView};
use vstd::prelude::*;

verus! {

/// An entry of a tree, with the directory that it was found in.
pub struct Found<P, E> {
    pub dir: P,
    pub node: Node<P, E>,
}

/// A report: the entry `name` of the directory `dir` matched.
pub struct Reported<P> {
    pub dir: P,
    pub name: Seq<char>,
}

/// A complaint: a subdirectory of `dir` could not be listed.
pub struct Complaint<P, E> {
    pub error: E,
    pub dir: P,
}

/// Whether a walk goes into `node`: it has a name, and the walk descends
/// into entries of its kind.
pub open spec fn goes_into<P, E>(node: Node<P, E>, recursive: bool) -> bool {
    node.entry.name is Some && descends(recursive, node.entry)
}

/// The entries that a listing shows: none where it failed.
pub open spec fn shown<P, E>(listing: Listing<P, E>) -> Seq<Node<P, E>> {
    match listing {
        Listing::Failed(_) => Seq::empty(),
        Listing::Entries(nodes) => nodes,
    }
}

/// The entries that a walk reaches by way of `node`, an entry of the
/// directory `dir`: the node itself, and what the walk reaches in it if it
/// goes into it.
pub open spec fn reached_by<P, E>(dir: P, node: Node<P, E>, recursive: bool) -> Seq<Found<P, E>>
    decreases node, 1int,
{
    seq![Found { dir, node }] + if goes_into(node, recursive) {
        match node.listing {
            Listing::Failed(_) => Seq::empty(),
            Listing::Entries(nodes) => reached(node.entry.path, nodes, recursive),
        }
    } else {
        Seq::empty()
    }
}

/// The entries that a walk reaches in the directory `dir`, of which `nodes`
/// are the entries, in the order of the walk.
pub open spec fn reached<P, E>(dir: P, nodes: Seq<Node<P, E>>, recursive: bool) -> Seq<
    Found<P, E>,
>
    decreases nodes, 0int,
{
    if nodes.len() == 0 {
        Seq::empty()
    } else {
        reached_by(dir, nodes.first(), recursive) + reached(dir, nodes.drop_first(), recursive)
    }
}

/// The entries `nodes` of the directory `dir` themselves, and nothing below.
pub open spec fn children<P, E>(dir: P, nodes: Seq<Node<P, E>>) -> Seq<Found<P, E>> {
    nodes.map_values(|node: Node<P, E>| Found { dir, node })
}

/// Every entry at any depth below the directory `dir`, of which `nodes` are
/// the entries: each node, followed by all that lies in it.
pub open spec fn descendants<P, E>(dir: P, nodes: Seq<Node<P, E>>) -> Seq<Found<P, E>>
    decreases nodes, 0int,
{
    if nodes.len() == 0 {
        Seq::empty()
    } else {
        descendants_by(dir, nodes.first()) + descendants(dir, nodes.drop_first())
    }
}

/// The node itself, followed by every entry at any depth in it.
pub open spec fn descendants_by<P, E>(dir: P, node: Node<P, E>) -> Seq<Found<P, E>>
    decreases node, 1int,
{
    seq![Found { dir, node }] + match node.listing {
        Listing::Failed(_) => Seq::empty(),
        Listing::Entries(nodes) => descendants(node.entry.path, nodes),
    }
}

/// Whether a recursive walk gets everywhere in `node`: a directory has a
/// name, can be listed, and the walk gets everywhere in what it holds; and
/// what is not known to be a directory holds nothing.
pub open spec fn walkable_node<P, E>(node: Node<P, E>) -> bool
    decreases node, 1int,
{
    if node.entry.kind == Some(EntryKind::Dir) {
        &&& node.entry.name is Some
        &&& node.listing matches Listing::Entries(nodes)
        &&& walkable(nodes)
    } else {
        shown(node.listing).len() == 0
    }
}

/// Whether a recursive walk gets everywhere in each of `nodes`.
pub open spec fn walkable<P, E>(nodes: Seq<Node<P, E>>) -> bool
    decreases nodes, 0int,
{
    nodes.len() > 0 ==> walkable_node(nodes.first()) && walkable(nodes.drop_first())
}

/// The report that a walk makes of `found`: of an entry that has a name
/// that `filter` accepts.
pub open spec fn picked<P, E, M: Matcher>(found: Found<P, E>, filter: M) -> Option<Reported<P>> {
    match found.node.entry.name {
        Some(name) if filter.accepts(found.node.entry.kind, name) => Some(
            Reported { dir: found.dir, name },
        ),
        _ => None,
    }
}

/// [`picked`] as a function of the entry.
pub open spec fn picker<P, E, M: Matcher>(filter: M) -> spec_fn(Found<P, E>) -> Option<
    Reported<P>,
> {
    |found: Found<P, E>| picked(found, filter)
}

/// The reports of those of `found` that have a name that `filter` accepts,
/// in the same order.
pub open spec fn selection<P, E, M: Matcher>(found: Seq<Found<P, E>>, filter: M) -> Seq<
    Reported<P>,
> {
    found.filter_map(picker(filter))
}

/// The complaint that a walk makes of `found`: of a directory that the walk
/// goes into and cannot list.
pub open spec fn failed<P, E>(found: Found<P, E>, recursive: bool) -> Option<Complaint<P, E>> {
    match found.node.listing {
        Listing::Failed(error) if goes_into(found.node, recursive) => Some(
            Complaint { error, dir: found.dir },
        ),
        _ => None,
    }
}

/// [`failed`] as a function of the entry.
pub open spec fn failer<P, E>(recursive: bool) -> spec_fn(Found<P, E>) -> Option<
    Complaint<P, E>,
> {
    |found: Found<P, E>| failed(found, recursive)
}

/// The complaints of those directories among `found` that a walk goes into
/// and cannot list, in the same order.
pub open spec fn failures<P, E>(found: Seq<Found<P, E>>, recursive: bool) -> Seq<
    Complaint<P, E>,
> {
    found.filter_map(failer(recursive))
}

/// The directory that a walk lists by way of `found`: the entry itself, if
/// the walk goes into it.
pub open spec fn opened<P, E>(found: Found<P, E>, recursive: bool) -> Option<P> {
    if goes_into(found.node, recursive) {
        Some(found.node.entry.path)
    } else {
        None
    }
}

/// [`opened`] as a function of the entry.
pub open spec fn opener<P, E>(recursive: bool) -> spec_fn(Found<P, E>) -> Option<P> {
    |found: Found<P, E>| opened(found, recursive)
}

/// The directories among `found` that a walk goes into, in the same order.
pub open spec fn openings<P, E>(found: Seq<Found<P, E>>, recursive: bool) -> Seq<P> {
    found.filter_map(opener(recursive))
}

/// The report that an action asks for, if it asks for one.
pub open spec fn as_report<P, E>(action: ActionView<P, E>) -> Option<Reported<P>> {
    match action {
        ActionView::Report { dir, name } => Some(Reported { dir, name }),
        _ => None,
    }
}

/// The complaint that an action asks for, if it asks for one.
pub open spec fn as_complaint<P, E>(action: ActionView<P, E>) -> Option<Complaint<P, E>> {
    match action {
        ActionView::ReportError { error, dir } => Some(Complaint { error, dir }),
        _ => None,
    }
}

/// The directory that an action asks to be listed, if it asks for one.
pub open spec fn as_listing<P, E>(action: ActionView<P, E>) -> Option<P> {
    match action {
        ActionView::List { path } => Some(path),
        _ => None,
    }
}

/// The reports among `actions`, in the same order.
pub open spec fn reports<P, E>(actions: Seq<ActionView<P, E>>) -> Seq<Reported<P>> {
    actions.filter_map(|action: ActionView<P, E>| as_report(action))
}

/// The complaints among `actions`, in the same order.
pub open spec fn complaints<P, E>(actions: Seq<ActionView<P, E>>) -> Seq<Complaint<P, E>> {
    actions.filter_map(|action: ActionView<P, E>| as_complaint(action))
}

/// The directories that `actions` ask to be listed, in the same order.
pub open spec fn listings<P, E>(actions: Seq<ActionView<P, E>>) -> Seq<P> {
    actions.filter_map(|action: ActionView<P, E>| as_listing(action))
}

/// What is picked out of two sequences in a row is what is picked out of
/// the first, followed by what is picked out of the second.
proof fn lemma_filter_map_add<A, B>(first: Seq<A>, second: Seq<A>, f: spec_fn(A) -> Option<B>)
    ensures
        (first + second).filter_map(f) == first.filter_map(f) + second.filter_map(f),
    decreases second.len(),
{
    if second.len() > 0 {
        assert((first + second).drop_last() =~= first + second.drop_last());
        lemma_filter_map_add(first, second.drop_last(), f);
    }
}

/// The reports, complaints and listings of one turn after the other.
proof fn lemma_turns_add<P, E>(first: Seq<Turn<P, E>>, second: Seq<Turn<P, E>>)
    ensures
        reports(actions(first + second)) == reports(actions(first)) + reports(actions(second)),
        complaints(actions(first + second)) == complaints(actions(first)) + complaints(
            actions(second),
        ),
        listings(actions(first + second)) == listings(actions(first)) + listings(
            actions(second),
        ),
{
    assert(actions(first + second) =~= actions(first) + actions(second));
    lemma_filter_map_add(
        actions(first),
        actions(second),
        |action: ActionView<P, E>| as_report(action),
    );
    lemma_filter_map_add(
        actions(first),
        actions(second),
        |action: ActionView<P, E>| as_complaint(action),
    );
    lemma_filter_map_add(
        actions(first),
        actions(second),
        |action: ActionView<P, E>| as_listing(action),
    );
}

/// The reports, complaints and listings of a single turn.
proof fn lemma_turns_one<P, E>(turn: Turn<P, E>)
    ensures
        reports(actions(seq![turn])) == match as_report(turn.action) {
            Some(report) => seq![report],
            None => Seq::empty(),
        },
        complaints(actions(seq![turn])) == match as_complaint(turn.action) {
            Some(complaint) => seq![complaint],
            None => Seq::empty(),
        },
        listings(actions(seq![turn])) == match as_listing(turn.action) {
            Some(path) => seq![path],
            None => Seq::empty(),
        },
{
    assert(actions(seq![turn]) =~= seq![turn.action]);
    Seq::lemma_filter_map_singleton(turn.action, |action: ActionView<P, E>| as_report(action));
    Seq::lemma_filter_map_singleton(turn.action, |action: ActionView<P, E>| as_complaint(action));
    Seq::lemma_filter_map_singleton(turn.action, |action: ActionView<P, E>| as_listing(action));
}

/// The selection, the failures and the openings of entries found one after
/// the other.
pub(crate) proof fn lemma_found_add<P, E, M: Matcher>(
    first: Seq<Found<P, E>>,
    second: Seq<Found<P, E>>,
    recursive: bool,
    filter: M,
)
    ensures
        selection(first + second, filter) == selection(first, filter) + selection(second, filter),
        failures(first + second, recursive) == failures(first, recursive) + failures(
            second,
            recursive,
        ),
        openings(first + second, recursive) == openings(first, recursive) + openings(
            second,
            recursive,
        ),
{
    lemma_filter_map_add(first, second, picker(filter));
    lemma_filter_map_add(first, second, failer(recursive));
    lemma_filter_map_add(first, second, opener(recursive));
}

/// The selection, the failures and the openings of a single entry.
pub(crate) proof fn lemma_found_one<P, E, M: Matcher>(found: Found<P, E>, recursive: bool, filter: M)
    ensures
        selection(seq![found], filter) == match picked(found, filter) {
            Some(report) => seq![report],
            None => Seq::empty(),
        },
        failures(seq![found], recursive) == match failed(found, recursive) {
            Some(complaint) => seq![complaint],
            None => Seq::empty(),
        },
        openings(seq![found], recursive) == match opened(found, recursive) {
            Some(path) => seq![path],
            None => Seq::empty(),
        },
{
    Seq::lemma_filter_map_singleton(found, picker(filter));
    Seq::lemma_filter_map_singleton(found, failer::<P, E>(recursive));
    Seq::lemma_filter_map_singleton(found, opener::<P, E>(recursive));
}

/// What a walk reports, complains of and lists by way of one node.
proof fn lemma_visit_reports<P, E, M: Matcher>(dir: P, node: Node<P, E>, rules: Rules<M>)
    ensures
        reports(actions(visit(dir, node, rules))) == selection(
            reached_by(dir, node, rules.recursive),
            rules.filter,
        ),
        complaints(actions(visit(dir, node, rules))) == if rules.print_errors {
            failures(reached_by(dir, node, rules.recursive), rules.recursive)
        } else {
            Seq::empty()
        },
        listings(actions(visit(dir, node, rules))) == openings(
            reached_by(dir, node, rules.recursive),
            rules.recursive,
        ),
    decreases node, 1int,
{
    let found = Found { dir, node };
    let recursive = rules.recursive;
    let deeper = if goes_into(node, recursive) {
        match node.listing {
            Listing::Failed(_) => Seq::empty(),
            Listing::Entries(nodes) => reached(node.entry.path, nodes, recursive),
        }
    } else {
        Seq::empty()
    };
    lemma_found_add(seq![found], deeper, recursive, rules.filter);
    lemma_found_one(found, recursive, rules.filter);
    if let Some(name) = node.entry.name {
        let report = Turn::<P, E> {
            action: ActionView::Report { dir, name },
            reply: EventView::Resume,
        };
        let reported = if rules.filter.accepts(node.entry.kind, name) {
            seq![report]
        } else {
            Seq::empty()
        };
        let below = if descends(recursive, node.entry) {
            descent(dir, node, rules)
        } else {
            Seq::empty()
        };
        lemma_turns_add(reported, below);
        lemma_turns_one(report);
        if descends(recursive, node.entry) {
            let list = listing_turn(node.entry.path, node.listing);
            lemma_turns_one(list);
            match node.listing {
                Listing::Failed(error) => {
                    let complaint = Turn::<P, E> {
                        action: ActionView::ReportError { error, dir },
                        reply: EventView::Resume,
                    };
                    lemma_turns_add(seq![list], seq![complaint]);
                    lemma_turns_one(complaint);
                },
                Listing::Entries(nodes) => {
                    lemma_turns_add(seq![list], visit_all(node.entry.path, nodes, rules));
                    lemma_visit_all_reports(node.entry.path, nodes, rules);
                },
            }
        }
    }
}

/// What a walk reports, complains of and lists in one directory.
proof fn lemma_visit_all_reports<P, E, M: Matcher>(
    dir: P,
    nodes: Seq<Node<P, E>>,
    rules: Rules<M>,
)
    ensures
        reports(actions(visit_all(dir, nodes, rules))) == selection(
            reached(dir, nodes, rules.recursive),
            rules.filter,
        ),
        complaints(actions(visit_all(dir, nodes, rules))) == if rules.print_errors {
            failures(reached(dir, nodes, rules.recursive), rules.recursive)
        } else {
            Seq::empty()
        },
        listings(actions(visit_all(dir, nodes, rules))) == openings(
            reached(dir, nodes, rules.recursive),
            rules.recursive,
        ),
    decreases nodes, 0int,
{
    let recursive = rules.recursive;
    if nodes.len() > 0 {
        lemma_visit_reports(dir, nodes.first(), rules);
        lemma_visit_all_reports(dir, nodes.drop_first(), rules);
        lemma_turns_add(
            visit(dir, nodes.first(), rules),
            visit_all(dir, nodes.drop_first(), rules),
        );
        lemma_found_add(
            reached_by(dir, nodes.first(), recursive),
            reached(dir, nodes.drop_first(), recursive),
            recursive,
            rules.filter,
        );
    }
}

/// A walk reports the matching entries among those it reaches.
///
/// Where the place that the walk starts from can be listed, the reports of
/// the walk are those of the entries that it reaches, at any depth, that
/// have a name that the filter accepts: each of them once, in the order of
/// the walk, with the directory that holds it. What the walk cannot list
/// takes nothing from this, and whether errors are reported changes nothing
/// in it. Where the start cannot be listed, nothing is reported.
pub proof fn walk_reports_matches<P, E, M: Matcher>(
    root: P,
    listing: Listing<P, E>,
    rules: Rules<M>,
)
    ensures
        reports(actions(run(root, listing, rules))) == selection(
            reached(root, shown(listing), rules.recursive),
            rules.filter,
        ),
{
    let list = listing_turn(root, listing);
    lemma_turns_one(list);
    if let Listing::Entries(nodes) = listing {
        lemma_turns_add(seq![list], visit_all(root, nodes, rules));
        lemma_visit_all_reports(root, nodes, rules);
    }
}

/// A walk that stays in one directory reports its matching entries.
///
/// A walk that does not go into subdirectories reports those of the entries
/// of the directory that it starts from that have a name that the filter
/// accepts, and nothing from further down.
pub proof fn flat_walk_reports_children<P, E, M: Matcher>(
    root: P,
    nodes: Seq<Node<P, E>>,
    rules: Rules<M>,
)
    requires
        !rules.recursive,
    ensures
        reports(actions(run(root, Listing::Entries(nodes), rules))) == selection(
            children(root, nodes),
            rules.filter,
        ),
{
    walk_reports_matches(root, Listing::Entries(nodes), rules);
    lemma_flat_reach(root, nodes);
}

/// Without recursion a walk reaches the entries of one directory.
proof fn lemma_flat_reach<P, E>(dir: P, nodes: Seq<Node<P, E>>)
    ensures
        reached(dir, nodes, false) == children(dir, nodes),
    decreases nodes.len(),
{
    if nodes.len() > 0 {
        lemma_flat_reach(dir, nodes.drop_first());
        assert(reached_by(dir, nodes.first(), false) =~= seq![Found { dir, node: nodes.first() }]);
    }
}

/// A recursive walk reports every matching descendant.
///
/// Where every directory of the tree has a name and can be listed, and
/// nothing else holds entries, a recursive walk reports every entry at any
/// depth that has a name that the filter accepts, and complains of nothing.
pub proof fn deep_walk_reports_descendants<P, E, M: Matcher>(
    root: P,
    nodes: Seq<Node<P, E>>,
    rules: Rules<M>,
)
    requires
        rules.recursive,
        walkable(nodes),
    ensures
        reports(actions(run(root, Listing::Entries(nodes), rules))) == selection(
            descendants(root, nodes),
            rules.filter,
        ),
        complaints(actions(run(root, Listing::Entries(nodes), rules))) == Seq::<
            Complaint<P, E>,
        >::empty(),
{
    walk_reports_matches(root, Listing::Entries(nodes), rules);
    walk_complains_of_failures(root, Listing::Entries(nodes), rules);
    lemma_deep_reach(root, nodes);
}

/// A recursive walk reaches every entry of a tree that it gets everywhere
/// in, and none that it cannot list.
proof fn lemma_deep_reach<P, E>(dir: P, nodes: Seq<Node<P, E>>)
    requires
        walkable(nodes),
    ensures
        reached(dir, nodes, true) == descendants(dir, nodes),
        failures(reached(dir, nodes, true), true) == Seq::<Complaint<P, E>>::empty(),
    decreases nodes, 0int,
{
    if nodes.len() > 0 {
        lemma_deep_reach_by(dir, nodes.first());
        lemma_deep_reach(dir, nodes.drop_first());
        lemma_filter_map_add(
            reached_by(dir, nodes.first(), true),
            reached(dir, nodes.drop_first(), true),
            failer(true),
        );
    }
}

/// A recursive walk reaches every entry in a node that it gets everywhere
/// in, and none that it cannot list.
proof fn lemma_deep_reach_by<P, E>(dir: P, node: Node<P, E>)
    requires
        walkable_node(node),
    ensures
        reached_by(dir, node, true) == descendants_by(dir, node),
        failures(reached_by(dir, node, true), true) == Seq::<Complaint<P, E>>::empty(),
    decreases node, 1int,
{
    let found = Found { dir, node };
    let deeper = if goes_into(node, true) {
        reached(node.entry.path, shown(node.listing), true)
    } else {
        Seq::empty()
    };
    lemma_filter_map_add(seq![found], deeper, failer(true));
    Seq::lemma_filter_map_singleton(found, failer::<P, E>(true));
    if let Listing::Entries(nodes) = node.listing {
        if node.entry.kind == Some(EntryKind::Dir) {
            lemma_deep_reach(node.entry.path, nodes);
        }
    }
}

/// A walk complains once of each directory that it cannot list.
///
/// Where errors are reported, the complaints of a walk are those of the
/// directories that it goes into and cannot list: each of them once, in the
/// order of the walk, with the directory that holds the one that failed.
/// Where errors are not reported there is no complaint. Either way the walk
/// ends well if the place that it started from could be listed.
pub proof fn walk_complains_of_failures<P, E, M: Matcher>(
    root: P,
    listing: Listing<P, E>,
    rules: Rules<M>,
)
    ensures
        complaints(actions(run(root, listing, rules))) == if rules.print_errors {
            failures(reached(root, shown(listing), rules.recursive), rules.recursive)
        } else {
            Seq::empty()
        },
        listing is Entries ==> ending(listing) == Ok::<(), E>(()),
{
    let list = listing_turn(root, listing);
    lemma_turns_one(list);
    if let Listing::Entries(nodes) = listing {
        lemma_turns_add(seq![list], visit_all(root, nodes, rules));
        lemma_visit_all_reports(root, nodes, rules);
    }
}

/// A walk lists where it starts and what it goes into, and nothing else.
///
/// The directories that a walk asks to be listed are the one that it starts
/// from and then, of the entries that it reaches, the directories that it
/// goes into: each of them once, in the order of the walk. A walk that does
/// not go into subdirectories lists the one directory that it starts from.
pub proof fn walk_lists_what_it_enters<P, E, M: Matcher>(
    root: P,
    listing: Listing<P, E>,
    rules: Rules<M>,
)
    ensures
        listings(actions(run(root, listing, rules))) == seq![root] + openings(
            reached(root, shown(listing), rules.recursive),
            rules.recursive,
        ),
        !rules.recursive ==> listings(actions(run(root, listing, rules))) == seq![root],
{
    let list = listing_turn(root, listing);
    lemma_turns_one(list);
    if let Listing::Entries(nodes) = listing {
        lemma_turns_add(seq![list], visit_all(root, nodes, rules));
        lemma_visit_all_reports(root, nodes, rules);
        if !rules.recursive {
            lemma_flat_openings(root, nodes);
        }
    }
}

/// Without recursion a walk goes into nothing.
proof fn lemma_flat_openings<P, E>(dir: P, nodes: Seq<Node<P, E>>)
    ensures
        openings(reached(dir, nodes, false), false) == Seq::<P>::empty(),
    decreases nodes.len(),
{
    if nodes.len() > 0 {
        let found = Found { dir, node: nodes.first() };
        lemma_flat_openings(dir, nodes.drop_first());
        lemma_filter_map_add(
            reached_by(dir, nodes.first(), false),
            reached(dir, nodes.drop_first(), false),
            opener(false),
        );
        Seq::lemma_filter_map_singleton(found, opener::<P, E>(false));
        assert(reached_by(dir, nodes.first(), false) =~= seq![found]);
    }
}

/// What a walk reaches in entries that follow one another.
pub(crate) proof fn lemma_reached_add<P, E>(
    dir: P,
    first: Seq<Node<P, E>>,
    second: Seq<Node<P, E>>,
    recursive: bool,
)
    ensures
        reached(dir, first + second, recursive) == reached(dir, first, recursive) + reached(
            dir,
            second,
            recursive,
        ),
    decreases first.len(),
{
    if first.len() > 0 {
        assert((first + second).drop_first() =~= first.drop_first() + second);
        lemma_reached_add(dir, first.drop_first(), second, recursive);
    }
}

/// A directory that cannot be listed takes nothing from its neighbours.
///
/// Of a directory that cannot be listed the walk reaches the entry itself
/// and no more; what it reaches in the entries before it and behind it is
/// what it would reach in them were the directory not there.
pub proof fn failure_spares_neighbours<P, E>(
    dir: P,
    before: Seq<Node<P, E>>,
    node: Node<P, E>,
    behind: Seq<Node<P, E>>,
    recursive: bool,
)
    requires
        node.listing is Failed,
    ensures
        reached(dir, before + seq![node] + behind, recursive) == reached(dir, before, recursive)
            + seq![Found { dir, node }] + reached(dir, behind, recursive),
{
    lemma_reached_add(dir, before + seq![node], behind, recursive);
    lemma_reached_add(dir, before, seq![node], recursive);
    assert(reached(dir, seq![node].drop_first(), recursive) =~= Seq::<Found<P, E>>::empty());
    assert(reached_by(dir, node, recursive) =~= seq![Found { dir, node }]);
}

/// A walk for directories and a walk for regular files report different
/// entries.
///
/// Of the entries of a tree, a walk whose type filter asks for directories
/// reports the directories whose names satisfy its pattern, a walk whose
/// type filter asks for regular files reports the regular files whose names
/// satisfy its pattern, and no entry is reported by both.
pub proof fn dir_and_file_walks_part<P, E>(found: Found<P, E>, dirs: NameFilter, files: NameFilter)
    requires
        dirs.file_type() == FileType::Dir,
        files.file_type() == FileType::File,
    ensures
        picked(found, dirs) is Some <==> (found.node.entry.name matches Some(name)
            && found.node.entry.kind == Some(EntryKind::Dir) && pattern_accepts(
            dirs.pattern(),
            name,
        )),
        picked(found, files) is Some <==> (found.node.entry.name matches Some(name)
            && found.node.entry.kind == Some(EntryKind::File) && pattern_accepts(
            files.pattern(),
            name,
        )),
        !(picked(found, dirs) is Some && picked(found, files) is Some),
{
}

} // verus!
