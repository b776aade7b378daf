//! The traversal engine.
//!
//! A walk is a conversation. The engine asks for a directory to be listed,
//! for a match to be reported, or for a failed subdirectory to be reported;
//! the caller does so and comes back. [`walk`] is one turn of it: it takes
//! what the caller has to say and returns what to do next. Everything that
//! is decided on the way (which entries are reported, which are walked into,
//! what becomes of a failure) is decided here.

use crate::compare::Matcher;
use crate::entry::{Entry, EntryKind, EntryView};
use vstd::prelude::*;

verus! {

/// What the caller tells the engine.
pub enum Event<P, E> {
    /// Go on: the walk begins, or the last report was made.
    Resume,
    /// The directory `path` was listed, with this outcome.
    Listed { path: P, outcome: Result<Vec<Entry<P>>, E> },
}

/// What the engine asks of the caller.
pub enum Action<'a, P, E> {
    /// List the directory `path` and come back with `Event::Listed`.
    List { path: P },
    /// Report the entry `name` of the directory `dir` as a match.
    Report { dir: &'a P, name: String },
    /// Report that a subdirectory of `dir` could not be listed.
    ReportError { error: E, dir: &'a P },
    /// The walk is over: well, or with the failure to list where it started.
    Finished(Result<(), E>),
}

/// An event as contracts see it.
pub enum EventView<P, E> {
    Resume,
    Listed { path: P, outcome: Result<Seq<EntryView<P>>, E> },
}

/// An action as contracts see it.
pub enum ActionView<P, E> {
    List { path: P },
    Report { dir: P, name: Seq<char> },
    ReportError { error: E, dir: P },
    Finished(Result<(), E>),
}

/// A directory that the walk is in, as contracts see it.
pub struct FrameView<P> {
    /// The directory.
    pub dir: P,
    /// Its entries that are still to be visited, in the order of the listing.
    pub ahead: Seq<EntryView<P>>,
}

/// The state of a walk as contracts see it.
pub struct WalkerView<P> {
    /// The directories that the walk is in, the outermost first.
    pub stack: Seq<FrameView<P>>,
    /// A directory that is to be listed next, before anything else.
    pub pending: Option<P>,
    /// Whether the walk goes into subdirectories.
    pub recursive: bool,
    /// Whether a subdirectory that cannot be listed is reported.
    pub print_errors: bool,
}

/// The entries of a listing as contracts see them.
pub open spec fn entries_view<P>(entries: Seq<Entry<P>>) -> Seq<EntryView<P>> {
    entries.map_values(|entry: Entry<P>| entry@)
}

impl<P, E> View for Event<P, E> {
    type V = EventView<P, E>;

    open spec fn view(&self) -> EventView<P, E> {
        match *self {
            Event::Resume => EventView::Resume,
            Event::Listed { path, outcome } => EventView::Listed {
                path,
                outcome: match outcome {
                    Ok(entries) => Ok(entries_view(entries@)),
                    Err(error) => Err(error),
                },
            },
        }
    }
}

impl<'a, P, E> View for Action<'a, P, E> {
    type V = ActionView<P, E>;

    open spec fn view(&self) -> ActionView<P, E> {
        match *self {
            Action::List { path } => ActionView::List { path },
            Action::Report { dir, name } => ActionView::Report { dir: *dir, name: name@ },
            Action::ReportError { error, dir } => ActionView::ReportError { error, dir: *dir },
            Action::Finished(outcome) => ActionView::Finished(outcome),
        }
    }
}

impl<P> WalkerView<P> {
    /// The state in which a walk from `root` begins.
    pub open spec fn start(root: P, recursive: bool, print_errors: bool) -> WalkerView<P> {
        WalkerView { stack: Seq::empty(), pending: Some(root), recursive, print_errors }
    }

    /// The state with the directory `dir` entered, its entries all to visit.
    pub open spec fn entered(self, dir: P, ahead: Seq<EntryView<P>>) -> WalkerView<P> {
        WalkerView { stack: self.stack.push(FrameView { dir, ahead }), ..self }
    }

    /// The state with the innermost directory left.
    pub open spec fn left(self) -> WalkerView<P>
        recommends
            self.stack.len() > 0,
    {
        WalkerView { stack: self.stack.drop_last(), ..self }
    }

    /// The state with the next entry of the innermost directory passed.
    pub open spec fn passed(self) -> WalkerView<P>
        recommends
            self.stack.len() > 0,
            self.stack.last().ahead.len() > 0,
    {
        let top = self.stack.last();
        WalkerView {
            stack: self.stack.drop_last().push(
                FrameView { dir: top.dir, ahead: top.ahead.drop_first() },
            ),
            ..self
        }
    }

    /// How many entries of the innermost directory are still to visit.
    pub open spec fn ahead_len(self) -> nat {
        if self.stack.len() > 0 {
            self.stack.last().ahead.len()
        } else {
            0
        }
    }
}

/// Whether a walk goes into `entry`: only a recursive walk does, and only
/// into what is known to be a directory.
pub open spec fn descends<P>(recursive: bool, entry: EntryView<P>) -> bool {
    recursive && entry.kind == Some(EntryKind::Dir)
}

/// The next action of a walk in state `state`, and the state it leaves.
///
/// A pending directory is listed first. Otherwise the walk visits the
/// entries of the innermost directory in turn. An entry without a name is
/// passed over. An entry that `filter` accepts is reported; if the walk goes
/// into it, that is put off to the next turn. An entry that is only gone into
/// is listed. A directory with nothing left is left for the one around it,
/// and a walk that is in no directory is over.
pub open spec fn advance<P, E, M: Matcher>(state: WalkerView<P>, filter: M) -> (
    WalkerView<P>,
    ActionView<P, E>,
)
    decreases state.stack.len(), state.ahead_len(),
{
    if let Some(path) = state.pending {
        (WalkerView { pending: None, ..state }, ActionView::List { path })
    } else if state.stack.len() == 0 {
        (state, ActionView::Finished(Ok(())))
    } else if state.stack.last().ahead.len() == 0 {
        advance(state.left(), filter)
    } else {
        let dir = state.stack.last().dir;
        let entry = state.stack.last().ahead.first();
        match entry.name {
            None => advance(state.passed(), filter),
            Some(name) => {
                if filter.accepts(entry.kind, name) {
                    let pending = if descends(state.recursive, entry) {
                        Some(entry.path)
                    } else {
                        None
                    };
                    (WalkerView { pending, ..state.passed() }, ActionView::Report { dir, name })
                } else if descends(state.recursive, entry) {
                    (state.passed(), ActionView::List { path: entry.path })
                } else {
                    advance(state.passed(), filter)
                }
            },
        }
    }
}

/// One turn of a walk: the action that answers `event` in state `state`, and
/// the state it leaves.
///
/// A listing that succeeded is entered, and the walk goes on in it. A listing
/// that failed ends the walk if the walk is in no directory yet: it was the
/// listing of the place where the walk started. Below that it never ends the
/// walk: it is reported, with the directory that the walk is in, if errors
/// are to be reported, and passed over if not.
pub open spec fn walk_spec<P, E, M: Matcher>(
    state: WalkerView<P>,
    event: EventView<P, E>,
    filter: M,
) -> (WalkerView<P>, ActionView<P, E>) {
    match event {
        EventView::Resume => advance(state, filter),
        EventView::Listed { path, outcome } => match outcome {
            Ok(entries) => advance(state.entered(path, entries), filter),
            Err(error) => {
                if state.stack.len() == 0 {
                    (state, ActionView::Finished(Err(error)))
                } else if state.print_errors {
                    (state, ActionView::ReportError { error, dir: state.stack.last().dir })
                } else {
                    advance(state, filter)
                }
            },
        },
    }
}

/// A directory that the walk is in.
struct Frame<P> {
    dir: P,
    /// The entries still to visit, the next one last.
    rest: Vec<Entry<P>>,
}

impl<P> View for Frame<P> {
    type V = FrameView<P>;

    closed spec fn view(&self) -> FrameView<P> {
        FrameView { dir: self.dir, ahead: entries_view(self.rest@).reverse() }
    }
}

/// The state of a walk.
pub struct Walker<P> {
    stack: Vec<Frame<P>>,
    pending: Option<P>,
    recursive: bool,
    print_errors: bool,
}

impl<P> View for Walker<P> {
    type V = WalkerView<P>;

    closed spec fn view(&self) -> WalkerView<P> {
        WalkerView {
            stack: self.stack@.map_values(|frame: Frame<P>| frame@),
            pending: self.pending,
            recursive: self.recursive,
            print_errors: self.print_errors,
        }
    }
}

impl<P> Walker<P> {
    /// A walk that starts at `root`. A recursive walk goes into
    /// subdirectories; with `print_errors` it reports those it cannot list.
    pub fn new(root: P, recursive: bool, print_errors: bool) -> (walker: Walker<P>)
        ensures
            walker@ == WalkerView::start(root, recursive, print_errors),
    {
        let walker = Walker { stack: Vec::new(), pending: Some(root), recursive, print_errors };
        assert(walker@.stack =~= Seq::empty());
        walker
    }
}

/// The entries of a listing in reverse order.
fn reversed<P>(entries: Vec<Entry<P>>) -> (turned: Vec<Entry<P>>)
    ensures
        turned@ == entries@.reverse(),
{
    let ghost all = entries@;
    let mut entries = entries;
    let mut turned: Vec<Entry<P>> = Vec::new();
    loop
        invariant
            entries@.len() + turned@.len() == all.len(),
            entries@ == all.take(entries@.len() as int),
            turned@ == all.skip(entries@.len() as int).reverse(),
        ensures
            entries@.len() == 0,
        decreases entries@.len(),
    {
        match entries.pop() {
            None => {
                break;
            },
            Some(entry) => {
                turned.push(entry);
            },
        }
    }
    turned
}

/// The next action of the walk.
fn step<'a, P, E, M: Matcher>(state: &'a mut Walker<P>, filter: &M) -> (action: Action<'a, P, E>)
    ensures
        (final(state)@, action@) == advance::<P, E, M>(old(state)@, *filter),
{
    if state.pending.is_some() {
        let path = state.pending.take().unwrap();
        return Action::List { path };
    }
    loop
        invariant
            state.pending is None,
            advance::<P, E, M>(state@, *filter) == advance::<P, E, M>(old(state)@, *filter),
        decreases state@.stack.len(), state@.ahead_len(),
    {
        if state.stack.len() == 0 {
            return Action::Finished(Ok(()));
        }
        let ghost before = state@;
        let mut frame = state.stack.pop().unwrap();
        assert(state@.stack =~= before.stack.drop_last());
        if let Some(entry) = frame.rest.pop() {
            assert(frame@.ahead =~= before.stack.last().ahead.drop_first());
            state.stack.push(frame);
            assert(state@.stack =~= before.passed().stack);
            let Entry { path, name, kind } = entry;
            if let Some(name) = name {
                let descend = state.recursive && match kind {
                    Some(EntryKind::Dir) => true,
                    _ => false,
                };
                if filter.matches(kind, &name) {
                    state.pending = if descend {
                        Some(path)
                    } else {
                        None
                    };
                    let top = state.stack.len() - 1;
                    return Action::Report { dir: &state.stack[top].dir, name };
                } else if descend {
                    return Action::List { path };
                }
            }
        }
    }
}

/// One turn of the walk `state`: takes in `event` and returns what the
/// caller is to do next. `filter` says which entries are reported.
///
/// A walk begins with `Event::Resume` on a new [`Walker`]. After
/// `Action::List` the caller lists that directory and comes back with
/// `Event::Listed`; after a report it comes back with `Event::Resume`; after
/// `Action::Finished` the walk is over.
pub fn walk<'a, P, E, M: Matcher>(state: &'a mut Walker<P>, event: Event<P, E>, filter: &M) -> (action:
    Action<'a, P, E>)
    ensures
        (final(state)@, action@) == walk_spec(old(state)@, event@, *filter),
{
    match event {
        Event::Resume => {},
        Event::Listed { path, outcome } => match outcome {
            Ok(entries) => {
                let ghost listed = entries_view(entries@);
                let rest = reversed(entries);
                let frame = Frame { dir: path, rest };
                assert(frame@.ahead =~= listed);
                state.stack.push(frame);
                assert(state@.stack =~= old(state)@.entered(path, listed).stack);
            },
            Err(error) => {
                if state.stack.len() == 0 {
                    return Action::Finished(Err(error));
                }
                if state.print_errors {
                    let top = state.stack.len() - 1;
                    return Action::ReportError { error, dir: &state.stack[top].dir };
                }
            },
        },
    }
    step(state, filter)
}

} // verus!
