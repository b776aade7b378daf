//! What a walk does over a whole tree.
//!
//! The engine sees one event at a time. Here a directory tree is written
//! down as a value, with what each listing in it yields, and the turns of
//! the walk over it are counted out. The law at the end says that the
//! engine, answered as the tree says, goes through just these turns.

use crate::compare::Matcher;
use crate::entry::EntryView;
use crate::walk::{advance, descends, walk_spec, ActionView, EventView, FrameView, WalkerView};
use vstd::prelude::*;

verus! {

/// What listing a directory yields: a failure, or the entries in it.
pub enum Listing<P, E> {
    Failed(E),
    Entries(Seq<Node<P, E>>),
}

/// An entry in a tree, with what listing it yields should a walk go into it.
pub struct Node<P, E> {
    pub entry: EntryView<P>,
    pub listing: Listing<P, E>,
}

/// The rules of a walk.
pub struct Rules<M> {
    /// Whether the walk goes into subdirectories.
    pub recursive: bool,
    /// Whether a subdirectory that cannot be listed is reported.
    pub print_errors: bool,
    /// Which entries are reported.
    pub filter: M,
}

/// One turn of a walk: what the engine asks, and what the caller answers.
pub struct Turn<P, E> {
    pub action: ActionView<P, E>,
    pub reply: EventView<P, E>,
}

/// The entries that a listing shows.
pub open spec fn entries_of<P, E>(nodes: Seq<Node<P, E>>) -> Seq<EntryView<P>> {
    nodes.map_values(|node: Node<P, E>| node.entry)
}

/// What the caller has to say of a listing.
pub open spec fn outcome_of<P, E>(listing: Listing<P, E>) -> Result<Seq<EntryView<P>>, E> {
    match listing {
        Listing::Failed(error) => Err(error),
        Listing::Entries(nodes) => Ok(entries_of(nodes)),
    }
}

/// The turn in which the directory at `path` is listed.
pub open spec fn listing_turn<P, E>(path: P, listing: Listing<P, E>) -> Turn<P, E> {
    Turn {
        action: ActionView::List { path },
        reply: EventView::Listed { path, outcome: outcome_of(listing) },
    }
}

/// The turns that a walk in the directory `dir` spends on `node`: a report
/// if the node has a name that the filter accepts, and then, if the walk
/// goes into it, the turns of [`descent`].
pub open spec fn visit<P, E, M: Matcher>(dir: P, node: Node<P, E>, rules: Rules<M>) -> Seq<
    Turn<P, E>,
>
    decreases node, 1int,
{
    match node.entry.name {
        None => Seq::empty(),
        Some(name) => {
            let report = if rules.filter.accepts(node.entry.kind, name) {
                seq![Turn { action: ActionView::Report { dir, name }, reply: EventView::Resume }]
            } else {
                Seq::empty()
            };
            let below = if descends(rules.recursive, node.entry) {
                descent(dir, node, rules)
            } else {
                Seq::empty()
            };
            report + below
        },
    }
}

/// The turns that a walk in the directory `dir` spends on going into `node`:
/// the listing, and then either the walk through what was listed, or, where
/// the listing failed, the report of that if errors are reported.
pub open spec fn descent<P, E, M: Matcher>(dir: P, node: Node<P, E>, rules: Rules<M>) -> Seq<
    Turn<P, E>,
>
    decreases node, 0int,
{
    seq![listing_turn(node.entry.path, node.listing)] + match node.listing {
        Listing::Failed(error) => {
            if rules.print_errors {
                seq![
                    Turn {
                        action: ActionView::ReportError { error, dir },
                        reply: EventView::Resume,
                    },
                ]
            } else {
                Seq::empty()
            }
        },
        Listing::Entries(nodes) => visit_all(node.entry.path, nodes, rules),
    }
}

/// The turns that a walk spends on the entries `nodes` of the directory
/// `dir`, one after the other.
pub open spec fn visit_all<P, E, M: Matcher>(
    dir: P,
    nodes: Seq<Node<P, E>>,
    rules: Rules<M>,
) -> Seq<Turn<P, E>>
    decreases nodes, 0int,
{
    if nodes.len() == 0 {
        Seq::empty()
    } else {
        visit(dir, nodes.first(), rules) + visit_all(dir, nodes.drop_first(), rules)
    }
}

/// The turns of a whole walk that starts at `root`, where listing `root`
/// yields `listing`.
pub open spec fn run<P, E, M: Matcher>(root: P, listing: Listing<P, E>, rules: Rules<M>) -> Seq<
    Turn<P, E>,
> {
    seq![listing_turn(root, listing)] + match listing {
        Listing::Failed(_) => Seq::empty(),
        Listing::Entries(nodes) => visit_all(root, nodes, rules),
    }
}

/// How a whole walk ends: with the failure to list where it started, or well.
pub open spec fn ending<P, E>(listing: Listing<P, E>) -> Result<(), E> {
    match listing {
        Listing::Failed(error) => Err(error),
        Listing::Entries(_) => Ok(()),
    }
}

/// What the engine asks in each of `turns`.
pub open spec fn actions<P, E>(turns: Seq<Turn<P, E>>) -> Seq<ActionView<P, E>> {
    turns.map_values(|turn: Turn<P, E>| turn.action)
}

/// What the caller answers in each of `turns`.
pub open spec fn replies<P, E>(turns: Seq<Turn<P, E>>) -> Seq<EventView<P, E>> {
    turns.map_values(|turn: Turn<P, E>| turn.reply)
}

/// The actions that the engine returns, one for each of `events`, when it
/// is handed them in turn from the state `state`.
pub open spec fn actions_from<P, E, M: Matcher>(
    state: WalkerView<P>,
    events: Seq<EventView<P, E>>,
    filter: M,
) -> Seq<ActionView<P, E>>
    decreases events.len(),
{
    if events.len() == 0 {
        Seq::empty()
    } else {
        let (next, action) = walk_spec(state, events.first(), filter);
        seq![action] + actions_from(next, events.drop_first(), filter)
    }
}

/// The first event yields the first action, and the rest goes on from the
/// state that it leaves.
proof fn lemma_first_turn<P, E, M: Matcher>(
    state: WalkerView<P>,
    event: EventView<P, E>,
    more: Seq<EventView<P, E>>,
    filter: M,
)
    ensures
        actions_from(state, seq![event] + more, filter) == seq![
            walk_spec(state, event, filter).1,
        ] + actions_from(walk_spec(state, event, filter).0, more, filter),
{
    let events = seq![event] + more;
    assert(events.drop_first() =~= more);
}

/// Two events that the engine answers alike are followed alike.
proof fn lemma_same_turn<P, E, M: Matcher>(
    state1: WalkerView<P>,
    event1: EventView<P, E>,
    state2: WalkerView<P>,
    event2: EventView<P, E>,
    more: Seq<EventView<P, E>>,
    filter: M,
)
    requires
        walk_spec(state1, event1, filter) == walk_spec(state2, event2, filter),
    ensures
        actions_from(state1, seq![event1] + more, filter) == actions_from(
            state2,
            seq![event2] + more,
            filter,
        ),
{
    lemma_first_turn(state1, event1, more, filter);
    lemma_first_turn(state2, event2, more, filter);
}

/// The state `state` with the entries `ahead` left in its innermost directory.
pub open spec fn with_ahead<P>(state: WalkerView<P>, ahead: Seq<EntryView<P>>) -> WalkerView<P>
    recommends
        state.stack.len() > 0,
{
    WalkerView {
        stack: state.stack.drop_last().push(FrameView { dir: state.stack.last().dir, ahead }),
        ..state
    }
}

/// A walk that stands before `node` spends on it the turns of [`visit`], and
/// then stands behind it.
proof fn lemma_visit<P, E, M: Matcher>(
    before: WalkerView<P>,
    event: EventView<P, E>,
    state: WalkerView<P>,
    node: Node<P, E>,
    rest: Seq<EntryView<P>>,
    more: Seq<EventView<P, E>>,
    rules: Rules<M>,
)
    requires
        walk_spec(before, event, rules.filter) == advance::<P, E, M>(state, rules.filter),
        state.pending is None,
        state.stack.len() > 0,
        state.stack.last().ahead == seq![node.entry] + rest,
        state.recursive == rules.recursive,
        state.print_errors == rules.print_errors,
    ensures
        actions_from(
            before,
            seq![event] + replies(visit(state.stack.last().dir, node, rules)) + more,
            rules.filter,
        ) == actions(visit(state.stack.last().dir, node, rules)) + actions_from(
            with_ahead(state, rest),
            seq![EventView::Resume] + more,
            rules.filter,
        ),
    decreases node, 1int,
{
    let filter = rules.filter;
    let dir = state.stack.last().dir;
    let turns = visit(dir, node, rules);
    let behind = with_ahead(state, rest);
    let ahead = state.stack.last().ahead;
    assert(ahead.drop_first() =~= rest);
    match node.entry.name {
        None => {
            lemma_same_turn(before, event, behind, EventView::Resume, more, filter);
        },
        Some(name) => {
            let accepted = filter.accepts(node.entry.kind, name);
            let goes_in = descends(rules.recursive, node.entry);
            if accepted {
                let waiting = WalkerView {
                    pending: if goes_in {
                        Some(node.entry.path)
                    } else {
                        None
                    },
                    ..behind
                };
                if goes_in {
                    let below = descent(dir, node, rules);
                    assert(seq![event] + replies(turns) + more =~= seq![event] + (seq![
                        EventView::Resume,
                    ] + (replies(below) + more)));
                    lemma_first_turn(
                        before,
                        event,
                        seq![EventView::Resume] + (replies(below) + more),
                        filter,
                    );
                    lemma_descent(waiting, EventView::Resume, behind, node, more, rules);
                    assert(seq![EventView::Resume] + replies(below) + more =~= seq![
                        EventView::Resume,
                    ] + (replies(below) + more));
                } else {
                    assert(seq![event] + replies(turns) + more =~= seq![event] + (seq![
                        EventView::Resume,
                    ] + more));
                    lemma_first_turn(before, event, seq![EventView::Resume] + more, filter);
                }
            } else if goes_in {
                lemma_descent(before, event, behind, node, more, rules);
            } else {
                lemma_same_turn(before, event, behind, EventView::Resume, more, filter);
            }
        },
    }
}

/// A walk that asks for `node` to be listed spends on it the turns of
/// [`descent`], and then goes on in the directory that it was in.
proof fn lemma_descent<P, E, M: Matcher>(
    before: WalkerView<P>,
    event: EventView<P, E>,
    behind: WalkerView<P>,
    node: Node<P, E>,
    more: Seq<EventView<P, E>>,
    rules: Rules<M>,
)
    requires
        walk_spec(before, event, rules.filter) == (
            behind,
            ActionView::<P, E>::List { path: node.entry.path },
        ),
        behind.pending is None,
        behind.stack.len() > 0,
        behind.recursive == rules.recursive,
        behind.print_errors == rules.print_errors,
    ensures
        actions_from(
            before,
            seq![event] + replies(descent(behind.stack.last().dir, node, rules)) + more,
            rules.filter,
        ) == actions(descent(behind.stack.last().dir, node, rules)) + actions_from(
            behind,
            seq![EventView::Resume] + more,
            rules.filter,
        ),
    decreases node, 0int,
{
    let filter = rules.filter;
    let dir = behind.stack.last().dir;
    let path = node.entry.path;
    let turns = descent(dir, node, rules);
    let list = listing_turn(path, node.listing);
    match node.listing {
        Listing::Failed(_) => {
            if rules.print_errors {
                assert(seq![event] + replies(turns) + more =~= seq![event] + (seq![list.reply] + (
                seq![EventView::Resume] + more)));
                lemma_first_turn(
                    before,
                    event,
                    seq![list.reply] + (seq![EventView::Resume] + more),
                    filter,
                );
                lemma_first_turn(behind, list.reply, seq![EventView::Resume] + more, filter);
            } else {
                assert(seq![event] + replies(turns) + more =~= seq![event] + (seq![list.reply]
                    + more));
                lemma_first_turn(before, event, seq![list.reply] + more, filter);
                lemma_same_turn(behind, list.reply, behind, EventView::Resume, more, filter);
            }
        },
        Listing::Entries(nodes) => {
            let inside = visit_all(path, nodes, rules);
            let entered = behind.entered(path, entries_of(nodes));
            let emptied = with_ahead(entered, Seq::empty());
            assert(seq![event] + replies(turns) + more =~= seq![event] + (seq![list.reply]
                + replies(inside) + more));
            lemma_first_turn(before, event, seq![list.reply] + replies(inside) + more, filter);
            lemma_visit_all(behind, list.reply, entered, nodes, Seq::empty(), more, rules);
            assert(emptied.left().stack =~= behind.stack);
        },
    }
}

/// A walk that stands before `nodes` spends on them the turns of
/// [`visit_all`], and then stands behind them.
proof fn lemma_visit_all<P, E, M: Matcher>(
    before: WalkerView<P>,
    event: EventView<P, E>,
    state: WalkerView<P>,
    nodes: Seq<Node<P, E>>,
    rest: Seq<EntryView<P>>,
    more: Seq<EventView<P, E>>,
    rules: Rules<M>,
)
    requires
        walk_spec(before, event, rules.filter) == advance::<P, E, M>(state, rules.filter),
        state.pending is None,
        state.stack.len() > 0,
        state.stack.last().ahead == entries_of(nodes) + rest,
        state.recursive == rules.recursive,
        state.print_errors == rules.print_errors,
    ensures
        actions_from(
            before,
            seq![event] + replies(visit_all(state.stack.last().dir, nodes, rules)) + more,
            rules.filter,
        ) == actions(visit_all(state.stack.last().dir, nodes, rules)) + actions_from(
            with_ahead(state, rest),
            seq![EventView::Resume] + more,
            rules.filter,
        ),
    decreases nodes, 0int,
{
    let filter = rules.filter;
    let dir = state.stack.last().dir;
    let turns = visit_all(dir, nodes, rules);
    let behind = with_ahead(state, rest);
    if nodes.len() == 0 {
        assert(behind.stack =~= state.stack);
        lemma_same_turn(before, event, behind, EventView::Resume, more, filter);
    } else {
        let node = nodes.first();
        let others = nodes.drop_first();
        let first = visit(dir, node, rules);
        let second = visit_all(dir, others, rules);
        let middle = with_ahead(state, entries_of(others) + rest);
        assert(state.stack.last().ahead =~= seq![node.entry] + (entries_of(others) + rest));
        lemma_visit(
            before,
            event,
            state,
            node,
            entries_of(others) + rest,
            replies(second) + more,
            rules,
        );
        assert(seq![event] + replies(turns) + more =~= seq![event] + replies(first) + (replies(
            second,
        ) + more));
        lemma_visit_all(middle, EventView::Resume, middle, others, rest, more, rules);
        assert(with_ahead(middle, rest).stack =~= behind.stack);
        assert(seq![EventView::Resume] + replies(second) + more =~= seq![EventView::Resume] + (
        replies(second) + more));
    }
}

/// The events of a whole walk over a tree: the one that begins it, and then
/// the caller's answer in each turn.
pub open spec fn events_of<P, E>(turns: Seq<Turn<P, E>>) -> Seq<EventView<P, E>> {
    seq![EventView::Resume] + replies(turns)
}

/// A walk over a tree goes through the turns of [`run`] and then ends.
///
/// Take a new walk from `root`, hand it `Event::Resume`, and answer each of
/// its actions as the tree says: a listing with what the tree holds there,
/// a report with `Event::Resume`. Then the actions of the walk are those of
/// `run`, in that order, followed by `Action::Finished`: with the failure if
/// `root` itself could not be listed, and well in every other case.
pub proof fn walk_follows_tree<P, E, M: Matcher>(root: P, listing: Listing<P, E>, rules: Rules<M>)
    ensures
        actions_from(
            WalkerView::start(root, rules.recursive, rules.print_errors),
            events_of(run(root, listing, rules)),
            rules.filter,
        ) == actions(run(root, listing, rules)) + seq![ActionView::Finished(ending(listing))],
{
    let filter = rules.filter;
    let start = WalkerView::start(root, rules.recursive, rules.print_errors);
    let idle = WalkerView { pending: None, ..start };
    let turns = run(root, listing, rules);
    let list = listing_turn(root, listing);
    let none = Seq::<EventView<P, E>>::empty();
    let end = seq![ActionView::Finished(ending(listing))];
    match listing {
        Listing::Failed(_) => {
            assert(events_of(turns) =~= seq![EventView::Resume] + (seq![list.reply] + none));
            lemma_first_turn(start, EventView::Resume, seq![list.reply] + none, filter);
            lemma_first_turn(idle, list.reply, none, filter);
        },
        Listing::Entries(nodes) => {
            let inside = visit_all(root, nodes, rules);
            let entered = idle.entered(root, entries_of(nodes));
            let emptied = with_ahead(entered, Seq::empty());
            assert(events_of(turns) =~= seq![EventView::Resume] + (seq![list.reply] + replies(
                inside,
            ) + none));
            lemma_first_turn(
                start,
                EventView::Resume,
                seq![list.reply] + replies(inside) + none,
                filter,
            );
            lemma_visit_all(idle, list.reply, entered, nodes, Seq::empty(), none, rules);
            lemma_first_turn(emptied, EventView::Resume, none, filter);
            assert(advance::<P, E, M>(emptied.left(), filter).1 == ActionView::<P, E>::Finished(
                Ok(()),
            ));
            assert(actions(turns) + end =~= seq![list.action] + (actions(inside) + end));
        },
    }
}

} // verus!
