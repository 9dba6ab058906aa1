use vstd::prelude::*;
use vstd::string::*;
use crate::config::WalkerConfig;
use crate::entry::{Entry, EntryKind, EntryView, KindView};
use crate::matcher::Matcher;
use crate::stack::TraversalStack;

verus! {

/// What the caller reports to the walker after a read or an open.
#[derive(Clone, Debug, PartialEq, Eq)]
pub enum Event {
    /// The directory being enumerated has no more entries.
    Exhausted,
    /// The directory being enumerated produced this entry.
    Found(Entry),
    /// The directory at this path, which the walker asked for, is open.
    Opened(String),
    /// The directory at this path could not be opened; the second text is
    /// the cause.
    OpenFailed(String, String),
}

/// The mathematical value of an [`Event`].
pub enum EventView {
    Exhausted,
    Found(EntryView),
    Opened(Seq<char>),
    OpenFailed(Seq<char>, Seq<char>),
}

impl View for Event {
    type V = EventView;

    open spec fn view(&self) -> EventView {
        match self {
            Event::Exhausted => EventView::Exhausted,
            Event::Found(e) => EventView::Found(e@),
            Event::Opened(p) => EventView::Opened(p@),
            Event::OpenFailed(p, cause) => EventView::OpenFailed(p@, cause@),
        }
    }
}

/// What the caller has to do before it reports the next event.
#[derive(Clone, Debug, PartialEq, Eq)]
pub enum Action {
    /// Hand this path to the consumer, then read on in the same directory.
    Yield(String),
    /// Try to open the directory at this path and report the outcome.
    Open(String),
    /// Keep the directory just opened at this path as the one to read from.
    Descend(String),
    /// Close the directory that was being read and resume its parent.
    Ascend,
    /// Nothing to do: read on. A directory that was opened unasked is closed.
    Skip,
    /// Emit this diagnostic line, then read on.
    Report(String),
    /// The walk is over; nothing is open.
    Finished,
}

/// The mathematical value of an [`Action`].
pub enum ActionView {
    Yield(Seq<char>),
    Open(Seq<char>),
    Descend(Seq<char>),
    Ascend,
    Skip,
    Report(Seq<char>),
    Finished,
}

impl View for Action {
    type V = ActionView;

    open spec fn view(&self) -> ActionView {
        match self {
            Action::Yield(p) => ActionView::Yield(p@),
            Action::Open(p) => ActionView::Open(p@),
            Action::Descend(p) => ActionView::Descend(p@),
            Action::Ascend => ActionView::Ascend,
            Action::Skip => ActionView::Skip,
            Action::Report(line) => ActionView::Report(line@),
            Action::Finished => ActionView::Finished,
        }
    }
}

/// The walk could not start: the root directory could not be opened.
#[derive(Clone, Debug, PartialEq, Eq)]
pub struct RootOpenError {
    pub path: String,
    pub cause: String,
}

/// The text of the diagnostic line for a fault with this cause at this path.
pub open spec fn diagnostic(cause: Seq<char>, path: Seq<char>) -> Seq<char> {
    "Error: "@ + cause + " | '"@ + path + "'"@
}

/// Whether a directory seen now may be entered: recursion is on and one more
/// open directory stays within the depth bound.
pub open spec fn may_descend(config: WalkerConfig, stack: Seq<Seq<char>>) -> bool {
    config.recurse && stack.len() < config.max_depth
}

/// The path whose match decides whether an event yields: that of a found
/// file. No other event has one.
pub open spec fn candidate(event: EventView) -> Option<Seq<char>> {
    match event {
        EventView::Found(e) => if e.kind is File {
            Some(e.path)
        } else {
            None
        },
        _ => None,
    }
}

/// The open directories after an event.
pub open spec fn next_stack(config: WalkerConfig, stack: Seq<Seq<char>>, event: EventView) -> Seq<
    Seq<char>,
> {
    if stack.len() == 0 {
        stack
    } else {
        match event {
            EventView::Exhausted => stack.drop_last(),
            EventView::Opened(path) => if may_descend(config, stack) {
                stack.push(path)
            } else {
                stack
            },
            _ => stack,
        }
    }
}

/// The fault action: a diagnostic line where logging is on, else a skip.
pub open spec fn fault_action(config: WalkerConfig, cause: Seq<char>, path: Seq<char>) -> ActionView {
    if config.debug_logging {
        ActionView::Report(diagnostic(cause, path))
    } else {
        ActionView::Skip
    }
}

/// The action that answers an event. `matched` says whether the matcher
/// accepts the event's candidate path; it is read for found files only.
pub open spec fn action_for(
    config: WalkerConfig,
    stack: Seq<Seq<char>>,
    event: EventView,
    matched: bool,
) -> ActionView {
    if stack.len() == 0 {
        ActionView::Finished
    } else {
        match event {
            EventView::Exhausted => ActionView::Ascend,
            EventView::Found(e) => match e.kind {
                KindView::Error(cause) => fault_action(config, cause, e.path),
                KindView::Symlink => ActionView::Skip,
                KindView::Directory => if may_descend(config, stack) {
                    ActionView::Open(e.path)
                } else {
                    ActionView::Skip
                },
                KindView::File => if matched {
                    ActionView::Yield(e.path)
                } else {
                    ActionView::Skip
                },
            },
            EventView::Opened(path) => if may_descend(config, stack) {
                ActionView::Descend(path)
            } else {
                ActionView::Skip
            },
            EventView::OpenFailed(path, cause) => fault_action(config, cause, path),
        }
    }
}

/// The views of a run of events.
pub open spec fn events_view(events: Seq<Event>) -> Seq<EventView> {
    events.map_values(|e: Event| e@)
}

/// The views of a run of actions.
pub open spec fn actions_view(acts: Seq<Action>) -> Seq<ActionView> {
    acts.map_values(|a: Action| a@)
}

/// Whether the predicate accepts the event's candidate path.
pub open spec fn matched_by(accepts: spec_fn(Seq<char>) -> bool, event: EventView) -> bool {
    candidate(event) is Some && accepts(candidate(event).unwrap())
}

/// The open directories after a run of events.
pub open spec fn stack_after(config: WalkerConfig, stack: Seq<Seq<char>>, events: Seq<EventView>) -> Seq<
    Seq<char>,
>
    decreases events.len(),
{
    if events.len() == 0 {
        stack
    } else {
        next_stack(config, stack_after(config, stack, events.drop_last()), events.last())
    }
}

/// The actions that answer a run of events, one for each, in order.
pub open spec fn actions(
    config: WalkerConfig,
    stack: Seq<Seq<char>>,
    events: Seq<EventView>,
    accepts: spec_fn(Seq<char>) -> bool,
) -> Seq<ActionView>
    decreases events.len(),
{
    if events.len() == 0 {
        Seq::<ActionView>::empty()
    } else {
        actions(config, stack, events.drop_last(), accepts).push(
            action_for(
                config,
                stack_after(config, stack, events.drop_last()),
                events.last(),
                matched_by(accepts, events.last()),
            ),
        )
    }
}

/// Builds the diagnostic line for a recoverable fault.
pub fn diagnostic_line(cause: &str, path: &str) -> (line: String)
    ensures
        line@ == diagnostic(cause@, path@),
{
    let mut line = String::from_str("Error: ");
    line.append(cause);
    line.append(" | '");
    line.append(path);
    line.append("'");
    line
}

/// The walker: its settings and the directories that are open. It is active
/// while a directory is open and exhausted, for good, once none is.
#[derive(Debug)]
pub struct TreeWalker {
    config: WalkerConfig,
    stack: TraversalStack,
}

impl TreeWalker {
    /// The settings of this walk.
    pub closed spec fn settings(&self) -> WalkerConfig {
        self.config
    }

    /// The paths of the open directories, root first.
    pub closed spec fn dirs(&self) -> Seq<Seq<char>> {
        self.stack@
    }

    /// The settings are well formed and the open directories stay within
    /// the depth bound.
    pub open spec fn wf(&self) -> bool {
        self.settings().wf() && self.dirs().len() <= self.settings().max_depth
    }

    /// Starts a walk at `root` from the outcome of opening it. A root that
    /// could not be opened is fatal: no walker exists and nothing is yielded.
    pub fn new(config: WalkerConfig, root: String, opened: Result<(), String>) -> (r: Result<
        TreeWalker,
        RootOpenError,
    >)
        requires
            config.wf(),
        ensures
            r is Ok <==> opened is Ok,
            r is Ok ==> r.unwrap().wf() && r.unwrap().settings() == config && r.unwrap().dirs()
                == seq![root@],
            r is Err ==> r.unwrap_err().path@ == root@ && r.unwrap_err().cause@
                == opened.unwrap_err()@,
    {
        match opened {
            Ok(_) => {
                let mut stack = TraversalStack::new();
                stack.push(root);
                assert(stack@ =~= seq![root@]);
                Ok(TreeWalker { config, stack })
            },
            Err(cause) => Err(RootOpenError { path: root, cause }),
        }
    }

    /// The settings of this walk.
    pub fn config(&self) -> (c: WalkerConfig)
        ensures
            c == self.settings(),
    {
        self.config
    }

    /// Whether a directory is still open, that is, whether the walk goes on.
    pub fn is_active(&self) -> (b: bool)
        ensures
            b == (self.dirs().len() > 0),
    {
        !self.stack.is_empty()
    }

    /// The number of directories that are open.
    pub fn open_count(&self) -> (n: usize)
        ensures
            n == self.dirs().len(),
    {
        self.stack.len()
    }

    /// The depth of the directory being enumerated; `None` once exhausted.
    pub fn depth(&self) -> (d: Option<usize>)
        ensures
            d is Some <==> self.dirs().len() > 0,
            d is Some ==> d.unwrap() == self.dirs().len() - 1,
    {
        self.stack.depth()
    }

    /// The path of the directory being enumerated; `None` once exhausted.
    pub fn current(&self) -> (p: Option<&String>)
        ensures
            p is Some <==> self.dirs().len() > 0,
            p is Some ==> p.unwrap()@ == self.dirs().last(),
    {
        self.stack.top()
    }

    /// Whether a directory seen now would be entered.
    pub fn can_descend(&self) -> (b: bool)
        ensures
            b == may_descend(self.settings(), self.dirs()),
    {
        self.config.recurse && self.stack.len() < self.config.max_depth
    }

    fn fault(&self, cause: &str, path: &str) -> (action: Action)
        ensures
            action@ == fault_action(self.settings(), cause@, path@),
    {
        if self.config.debug_logging {
            Action::Report(diagnostic_line(cause, path))
        } else {
            Action::Skip
        }
    }

    /// Takes one event and answers with the action to perform, given whether
    /// the matcher accepts the event's candidate path.
    pub fn on_event(&mut self, event: &Event, matched: bool) -> (action: Action)
        requires
            old(self).wf(),
        ensures
            final(self).wf(),
            final(self).settings() == old(self).settings(),
            final(self).dirs() == next_stack(old(self).settings(), old(self).dirs(), event@),
            action@ == action_for(old(self).settings(), old(self).dirs(), event@, matched),
    {
        if self.stack.is_empty() {
            return Action::Finished;
        }
        match event {
            Event::Exhausted => {
                let _closed = self.stack.pop();
                Action::Ascend
            },
            Event::Found(entry) => match &entry.kind {
                EntryKind::Error(cause) => self.fault(cause.as_str(), entry.path.as_str()),
                EntryKind::Symlink => Action::Skip,
                EntryKind::Directory => {
                    if self.can_descend() {
                        Action::Open(entry.path.clone())
                    } else {
                        Action::Skip
                    }
                },
                EntryKind::File => {
                    if matched {
                        Action::Yield(entry.path.clone())
                    } else {
                        Action::Skip
                    }
                },
            },
            Event::Opened(path) => {
                if self.can_descend() {
                    self.stack.push(path.clone());
                    Action::Descend(path.clone())
                } else {
                    Action::Skip
                }
            },
            Event::OpenFailed(path, cause) => self.fault(cause.as_str(), path.as_str()),
        }
    }

    /// Takes one event and answers with the action to perform. A found file
    /// is yielded exactly when the matcher accepts its path.
    pub fn step(&mut self, matcher: &Matcher, event: &Event) -> (action: Action)
        requires
            old(self).wf(),
        ensures
            final(self).wf(),
            final(self).settings() == old(self).settings(),
            final(self).dirs() == next_stack(old(self).settings(), old(self).dirs(), event@),
            action@ == action_for(
                old(self).settings(),
                old(self).dirs(),
                event@,
                matched_by(matcher.predicate(), event@),
            ),
    {
        let matched = match event {
            Event::Found(entry) => match &entry.kind {
                EntryKind::File => matcher.is_match(entry.path.as_str()),
                _ => false,
            },
            _ => false,
        };
        self.on_event(event, matched)
    }

    /// Takes a run of events in order and answers with one action for each.
    pub fn run(&mut self, matcher: &Matcher, events: &Vec<Event>) -> (out: Vec<Action>)
        requires
            old(self).wf(),
        ensures
            final(self).wf(),
            final(self).settings() == old(self).settings(),
            final(self).dirs() == stack_after(
                old(self).settings(),
                old(self).dirs(),
                events_view(events@),
            ),
            actions_view(out@) == actions(
                old(self).settings(),
                old(self).dirs(),
                events_view(events@),
                matcher.predicate(),
            ),
    {
        let mut out: Vec<Action> = Vec::new();
        let ghost config = self.settings();
        let ghost start = self.dirs();
        let ghost all = events_view(events@);
        let ghost accepts = matcher.predicate();
        let mut i: usize = 0;
        while i < events.len()
            invariant
                i <= events.len(),
                self.wf(),
                self.settings() == config,
                all == events_view(events@),
                accepts == matcher.predicate(),
                self.dirs() == stack_after(config, start, all.take(i as int)),
                actions_view(out@) =~= actions(config, start, all.take(i as int), accepts),
            decreases events.len() - i,
        {
            let action = self.step(matcher, &events[i]);
            out.push(action);
            proof {
                assert(all.take(i + 1).drop_last() =~= all.take(i as int));
                assert(all.take(i + 1).last() == events@[i as int]@);
            }
            i = i + 1;
        }
        proof {
            assert(all.take(i as int) =~= all);
        }
        out
    }
}

} // verus!
