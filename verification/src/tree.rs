use vstd::prelude::*;
use crate::config::WalkerConfig;
use crate::entry::{EntryView, KindView};
use crate::laws::lemma_run_split;
use crate::walker::{
    action_for, actions, matched_by, next_stack, stack_after, ActionView, EventView,
};

verus! {

/// A directory tree as the walk meets it: each directory lists its entries
/// in the order in which the system enumerates them.
pub enum Node {
    /// A regular file at this path.
    File(Seq<char>),
    /// A symbolic link at this path, whatever it points to.
    Symlink(Seq<char>),
    /// An entry at this path whose metadata cannot be resolved, and why.
    Broken(Seq<char>, Seq<char>),
    /// A directory at this path with its entries.
    Dir(Seq<char>, Seq<Node>),
    /// A directory at this path that cannot be opened, and why.
    Locked(Seq<char>, Seq<char>),
}

/// The event that reports a found entry of this kind.
pub open spec fn found(path: Seq<char>, kind: KindView) -> EventView {
    EventView::Found(EntryView { path, kind })
}

/// Whether a directory met while `level` directories are open is entered.
pub open spec fn enters(config: WalkerConfig, level: nat) -> bool {
    config.recurse && level < config.max_depth
}

/// What a faithful caller reports while it enumerates these entries with
/// `level` directories open: each entry as it is found, the outcome of each
/// open that the walker asks for, and, for a directory that was entered, all
/// of its own entries and then its exhaustion, before the next sibling.
pub open spec fn script(config: WalkerConfig, level: nat, entries: Seq<Node>) -> Seq<EventView>
    decreases entries,
{
    if entries.len() == 0 {
        Seq::<EventView>::empty()
    } else {
        script(config, level, entries.drop_last()) + (match entries.last() {
            Node::File(p) => seq![found(p, KindView::File)],
            Node::Symlink(p) => seq![found(p, KindView::Symlink)],
            Node::Broken(p, cause) => seq![found(p, KindView::Error(cause))],
            Node::Locked(p, cause) => if enters(config, level) {
                seq![found(p, KindView::Directory), EventView::OpenFailed(p, cause)]
            } else {
                seq![found(p, KindView::Directory)]
            },
            Node::Dir(p, children) => if enters(config, level) {
                seq![found(p, KindView::Directory), EventView::Opened(p)] + script(
                    config,
                    level + 1,
                    children,
                ) + seq![EventView::Exhausted]
            } else {
                seq![found(p, KindView::Directory)]
            },
        })
    }
}

/// The paths that a walk of these entries owes, in order. With `opens`
/// false: the accepted files that lie within the depth bound. With `opens`
/// true: the directories within the bound, each of which is asked for once.
pub open spec fn expected(
    config: WalkerConfig,
    level: nat,
    entries: Seq<Node>,
    accepts: spec_fn(Seq<char>) -> bool,
    opens: bool,
) -> Seq<Seq<char>>
    decreases entries,
{
    if entries.len() == 0 {
        Seq::<Seq<char>>::empty()
    } else {
        expected(config, level, entries.drop_last(), accepts, opens) + (match entries.last() {
            Node::File(p) => if !opens && accepts(p) {
                seq![p]
            } else {
                Seq::<Seq<char>>::empty()
            },
            Node::Symlink(_) => Seq::<Seq<char>>::empty(),
            Node::Broken(_, _) => Seq::<Seq<char>>::empty(),
            Node::Locked(p, _) => if opens && enters(config, level) {
                seq![p]
            } else {
                Seq::<Seq<char>>::empty()
            },
            Node::Dir(p, children) => if enters(config, level) {
                (if opens {
                    seq![p]
                } else {
                    Seq::<Seq<char>>::empty()
                }) + expected(config, level + 1, children, accepts, opens)
            } else {
                Seq::<Seq<char>>::empty()
            },
        })
    }
}

/// The path that an action hands out: with `opens` false the path that it
/// yields, with `opens` true the directory that it asks for.
pub open spec fn emitted(action: ActionView, opens: bool) -> Seq<Seq<char>> {
    match action {
        ActionView::Yield(p) => if opens {
            Seq::<Seq<char>>::empty()
        } else {
            seq![p]
        },
        ActionView::Open(p) => if opens {
            seq![p]
        } else {
            Seq::<Seq<char>>::empty()
        },
        _ => Seq::<Seq<char>>::empty(),
    }
}

/// The paths that a run of actions hands out, in order.
pub open spec fn collected(acts: Seq<ActionView>, opens: bool) -> Seq<Seq<char>>
    decreases acts.len(),
{
    if acts.len() == 0 {
        Seq::<Seq<char>>::empty()
    } else {
        collected(acts.drop_last(), opens) + emitted(acts.last(), opens)
    }
}

/// The paths that a run of actions yields, in order.
pub open spec fn yielded(acts: Seq<ActionView>) -> Seq<Seq<char>> {
    collected(acts, false)
}

/// The directories that a run of actions asks for, in order.
pub open spec fn asked(acts: Seq<ActionView>) -> Seq<Seq<char>> {
    collected(acts, true)
}

/// What two runs of actions hand out is what the first hands out, then what
/// the second does.
pub proof fn lemma_collected_concat(a: Seq<ActionView>, b: Seq<ActionView>, opens: bool)
    ensures
        collected(a + b, opens) == collected(a, opens) + collected(b, opens),
    decreases b.len(),
{
    if b.len() == 0 {
        assert(a + b =~= a);
        assert(collected(a, opens) + collected(b, opens) =~= collected(a, opens));
    } else {
        lemma_collected_concat(a, b.drop_last(), opens);
        assert((a + b).drop_last() =~= a + b.drop_last());
        assert((a + b).last() == b.last());
        assert(collected(a + b, opens) =~= collected(a, opens) + collected(b, opens));
    }
}

/// A run of one event is one step of the walker.
pub proof fn lemma_run_one(
    config: WalkerConfig,
    stack: Seq<Seq<char>>,
    event: EventView,
    accepts: spec_fn(Seq<char>) -> bool,
    opens: bool,
)
    ensures
        stack_after(config, stack, seq![event]) == next_stack(config, stack, event),
        actions(config, stack, seq![event], accepts) == seq![
            action_for(config, stack, event, matched_by(accepts, event)),
        ],
        collected(actions(config, stack, seq![event], accepts), opens) == emitted(
            action_for(config, stack, event, matched_by(accepts, event)),
            opens,
        ),
{
    let one = seq![event];
    assert(one.drop_last() =~= Seq::<EventView>::empty());
    assert(one.last() == event);
    assert(stack_after(config, stack, one.drop_last()) == stack);
    assert(actions(config, stack, one.drop_last(), accepts) =~= Seq::<ActionView>::empty());
    let acts = actions(config, stack, one, accepts);
    assert(acts =~= seq![action_for(config, stack, event, matched_by(accepts, event))]);
    assert(acts.drop_last() =~= Seq::<ActionView>::empty());
    assert(collected(acts.drop_last(), opens) =~= Seq::<Seq<char>>::empty());
    assert(collected(acts, opens) =~= emitted(acts.last(), opens));
}

/// A run in two parts: where it ends and what it hands out.
pub proof fn lemma_run_then(
    config: WalkerConfig,
    stack: Seq<Seq<char>>,
    first: Seq<EventView>,
    second: Seq<EventView>,
    accepts: spec_fn(Seq<char>) -> bool,
    opens: bool,
)
    ensures
        stack_after(config, stack, first + second) == stack_after(
            config,
            stack_after(config, stack, first),
            second,
        ),
        collected(actions(config, stack, first + second, accepts), opens) == collected(
            actions(config, stack, first, accepts),
            opens,
        ) + collected(
            actions(config, stack_after(config, stack, first), second, accepts),
            opens,
        ),
{
    lemma_run_split(config, stack, first, second, accepts);
    lemma_collected_concat(
        actions(config, stack, first, accepts),
        actions(config, stack_after(config, stack, first), second, accepts),
        opens,
    );
}

/// The walk of a tree. From any state within the depth bound, a faithful
/// enumeration of these entries brings the walker back to the state it
/// started in, the paths yielded on the way are exactly the accepted files
/// within the bound, in order and each once, and the directories asked for
/// are exactly the directories within the bound, each once.
pub proof fn lemma_walk_of_tree(
    config: WalkerConfig,
    stack: Seq<Seq<char>>,
    entries: Seq<Node>,
    accepts: spec_fn(Seq<char>) -> bool,
    opens: bool,
)
    requires
        1 <= stack.len() <= config.max_depth,
    ensures
        stack_after(config, stack, script(config, stack.len(), entries)) == stack,
        collected(actions(config, stack, script(config, stack.len(), entries), accepts), opens)
            == expected(config, stack.len(), entries, accepts, opens),
    decreases entries,
{
    let level = stack.len();
    if entries.len() == 0 {
    } else {
        let init = script(config, level, entries.drop_last());
        lemma_walk_of_tree(config, stack, entries.drop_last(), accepts, opens);
        match entries.last() {
            Node::File(p) => {
                let ev = found(p, KindView::File);
                lemma_run_then(config, stack, init, seq![ev], accepts, opens);
                lemma_run_one(config, stack, ev, accepts, opens);
            },
            Node::Symlink(p) => {
                let ev = found(p, KindView::Symlink);
                lemma_run_then(config, stack, init, seq![ev], accepts, opens);
                lemma_run_one(config, stack, ev, accepts, opens);
            },
            Node::Broken(p, cause) => {
                let ev = found(p, KindView::Error(cause));
                lemma_run_then(config, stack, init, seq![ev], accepts, opens);
                lemma_run_one(config, stack, ev, accepts, opens);
            },
            Node::Locked(p, cause) => {
                let ev = found(p, KindView::Directory);
                lemma_run_one(config, stack, ev, accepts, opens);
                if enters(config, level) {
                    let fail = EventView::OpenFailed(p, cause);
                    lemma_run_one(config, stack, fail, accepts, opens);
                    lemma_run_then(config, stack, seq![ev], seq![fail], accepts, opens);
                    assert(seq![ev] + seq![fail] =~= seq![ev, fail]);
                    lemma_run_then(config, stack, init, seq![ev, fail], accepts, opens);
                } else {
                    lemma_run_then(config, stack, init, seq![ev], accepts, opens);
                }
            },
            Node::Dir(p, children) => {
                let ev = found(p, KindView::Directory);
                lemma_run_one(config, stack, ev, accepts, opens);
                if enters(config, level) {
                    let inner = stack.push(p);
                    let open = EventView::Opened(p);
                    let body = script(config, level + 1, children);
                    let end = EventView::Exhausted;
                    lemma_run_one(config, stack, open, accepts, opens);
                    lemma_run_then(config, stack, seq![ev], seq![open], accepts, opens);
                    assert(seq![ev] + seq![open] =~= seq![ev, open]);
                    lemma_walk_of_tree(config, inner, children, accepts, opens);
                    lemma_run_then(config, stack, seq![ev, open], body, accepts, opens);
                    lemma_run_one(config, inner, end, accepts, opens);
                    assert(inner.drop_last() =~= stack);
                    lemma_run_then(config, stack, seq![ev, open] + body, seq![end], accepts, opens);
                    let tail = seq![ev, open] + body + seq![end];
                    lemma_run_then(config, stack, init, tail, accepts, opens);
                } else {
                    lemma_run_then(config, stack, init, seq![ev], accepts, opens);
                }
            },
        }
    }
}

/// The events of a whole walk from a fresh walker: the entries of the root,
/// enumerated faithfully, and then the root's exhaustion.
pub open spec fn whole_walk(config: WalkerConfig, entries: Seq<Node>) -> Seq<EventView> {
    script(config, 1, entries) + seq![EventView::Exhausted]
}

/// A whole walk ends with nothing open, yields exactly the accepted files
/// within the depth bound and asks exactly for the directories within it.
pub proof fn lemma_whole_walk(
    config: WalkerConfig,
    root: Seq<char>,
    entries: Seq<Node>,
    accepts: spec_fn(Seq<char>) -> bool,
    opens: bool,
)
    requires
        config.wf(),
    ensures
        stack_after(config, seq![root], whole_walk(config, entries)).len() == 0,
        collected(actions(config, seq![root], whole_walk(config, entries), accepts), opens)
            == expected(config, 1, entries, accepts, opens),
{
    let stack = seq![root];
    let body = script(config, 1, entries);
    lemma_walk_of_tree(config, stack, entries, accepts, opens);
    lemma_run_then(config, stack, body, seq![EventView::Exhausted], accepts, opens);
    lemma_run_one(config, stack, EventView::Exhausted, accepts, opens);
    assert(collected(actions(config, stack, body, accepts), opens) + Seq::<Seq<char>>::empty()
        =~= collected(actions(config, stack, body, accepts), opens));
}

/// The accepted files among these entries themselves, in order.
pub open spec fn immediate_files(entries: Seq<Node>, accepts: spec_fn(Seq<char>) -> bool) -> Seq<
    Seq<char>,
>
    decreases entries.len(),
{
    if entries.len() == 0 {
        Seq::<Seq<char>>::empty()
    } else {
        immediate_files(entries.drop_last(), accepts) + (match entries.last() {
            Node::File(p) => if accepts(p) {
                seq![p]
            } else {
                Seq::<Seq<char>>::empty()
            },
            _ => Seq::<Seq<char>>::empty(),
        })
    }
}

/// Every path below these entries that is not behind a symbolic link, in
/// the order of a depth-first walk, each entry once. With `opens` false:
/// the accepted files. With `opens` true: the directories.
pub open spec fn reachable(entries: Seq<Node>, accepts: spec_fn(Seq<char>) -> bool, opens: bool) -> Seq<
    Seq<char>,
>
    decreases entries,
{
    if entries.len() == 0 {
        Seq::<Seq<char>>::empty()
    } else {
        reachable(entries.drop_last(), accepts, opens) + (match entries.last() {
            Node::File(p) => if !opens && accepts(p) {
                seq![p]
            } else {
                Seq::<Seq<char>>::empty()
            },
            Node::Symlink(_) => Seq::<Seq<char>>::empty(),
            Node::Broken(_, _) => Seq::<Seq<char>>::empty(),
            Node::Locked(p, _) => if opens {
                seq![p]
            } else {
                Seq::<Seq<char>>::empty()
            },
            Node::Dir(p, children) => (if opens {
                seq![p]
            } else {
                Seq::<Seq<char>>::empty()
            }) + reachable(children, accepts, opens),
        })
    }
}

/// Whether the depth bound leaves room for every directory below these
/// entries, when `level` directories are open where they are listed.
pub open spec fn fits(config: WalkerConfig, level: nat, entries: Seq<Node>) -> bool
    decreases entries,
{
    if entries.len() == 0 {
        true
    } else {
        fits(config, level, entries.drop_last()) && (match entries.last() {
            Node::Dir(_, children) => level < config.max_depth && fits(config, level + 1, children),
            Node::Locked(_, _) => level < config.max_depth,
            _ => true,
        })
    }
}

/// Without recursion a walk owes the immediate files and no directory.
pub proof fn lemma_expected_flat(
    config: WalkerConfig,
    level: nat,
    entries: Seq<Node>,
    accepts: spec_fn(Seq<char>) -> bool,
)
    requires
        !config.recurse,
    ensures
        expected(config, level, entries, accepts, false) == immediate_files(entries, accepts),
        expected(config, level, entries, accepts, true).len() == 0,
    decreases entries.len(),
{
    if entries.len() > 0 {
        lemma_expected_flat(config, level, entries.drop_last(), accepts);
    }
}

/// With recursion, and a depth bound that leaves room for the whole tree, a
/// walk owes everything that is reachable.
pub proof fn lemma_expected_full(
    config: WalkerConfig,
    level: nat,
    entries: Seq<Node>,
    accepts: spec_fn(Seq<char>) -> bool,
    opens: bool,
)
    requires
        config.recurse,
        fits(config, level, entries),
    ensures
        expected(config, level, entries, accepts, opens) == reachable(entries, accepts, opens),
    decreases entries,
{
    if entries.len() > 0 {
        lemma_expected_full(config, level, entries.drop_last(), accepts, opens);
        match entries.last() {
            Node::Dir(_, children) => {
                lemma_expected_full(config, level + 1, children, accepts, opens);
            },
            _ => {},
        }
    }
}

/// Without recursion, for every tree, a whole walk yields exactly the
/// accepted files that lie in the root itself, in the order in which the
/// root lists them, asks for no directory, and ends with nothing open.
pub proof fn lemma_flat_walk_of_tree(
    config: WalkerConfig,
    root: Seq<char>,
    entries: Seq<Node>,
    accepts: spec_fn(Seq<char>) -> bool,
)
    requires
        config.wf(),
        !config.recurse,
    ensures
        yielded(actions(config, seq![root], whole_walk(config, entries), accepts))
            == immediate_files(entries, accepts),
        asked(actions(config, seq![root], whole_walk(config, entries), accepts)).len() == 0,
        stack_after(config, seq![root], whole_walk(config, entries)).len() == 0,
{
    lemma_whole_walk(config, root, entries, accepts, false);
    lemma_whole_walk(config, root, entries, accepts, true);
    lemma_expected_flat(config, 1, entries, accepts);
}

/// With recursion, for every tree that the depth bound leaves room for, a
/// whole walk yields every accepted file that is reachable without passing
/// a symbolic link, each once and in depth-first order, and asks for every
/// reachable directory once.
pub proof fn lemma_full_walk_of_tree(
    config: WalkerConfig,
    root: Seq<char>,
    entries: Seq<Node>,
    accepts: spec_fn(Seq<char>) -> bool,
)
    requires
        config.wf(),
        config.recurse,
        fits(config, 1, entries),
    ensures
        yielded(actions(config, seq![root], whole_walk(config, entries), accepts)) == reachable(
            entries,
            accepts,
            false,
        ),
        asked(actions(config, seq![root], whole_walk(config, entries), accepts)) == reachable(
            entries,
            accepts,
            true,
        ),
        stack_after(config, seq![root], whole_walk(config, entries)).len() == 0,
{
    lemma_whole_walk(config, root, entries, accepts, false);
    lemma_whole_walk(config, root, entries, accepts, true);
    lemma_expected_full(config, 1, entries, accepts, false);
    lemma_expected_full(config, 1, entries, accepts, true);
}

} // verus!
