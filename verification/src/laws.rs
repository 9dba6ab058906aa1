use vstd::prelude::*;
use crate::config::WalkerConfig;
use crate::entry::{EntryView, KindView};
use crate::walker::{
    action_for, actions, may_descend, matched_by, next_stack, stack_after,
    ActionView, EventView,
};

verus! {

/// Whether an event reports a recoverable fault: an entry whose metadata
/// could not be resolved, or a directory that could not be opened.
pub open spec fn is_fault(event: EventView) -> bool {
    match event {
        EventView::Found(e) => e.kind is Error,
        EventView::OpenFailed(_, _) => true,
        _ => false,
    }
}

/// A run in two parts is the second part run from where the first one ends:
/// both for the open directories and for the actions.
pub proof fn lemma_run_split(
    config: WalkerConfig,
    stack: Seq<Seq<char>>,
    first: Seq<EventView>,
    second: Seq<EventView>,
    accepts: spec_fn(Seq<char>) -> bool,
)
    ensures
        stack_after(config, stack, first + second) == stack_after(
            config,
            stack_after(config, stack, first),
            second,
        ),
        actions(config, stack, first + second, accepts) == actions(config, stack, first, accepts)
            + actions(config, stack_after(config, stack, first), second, accepts),
    decreases second.len(),
{
    let mid = stack_after(config, stack, first);
    if second.len() == 0 {
        assert(first + second =~= first);
        assert(actions(config, stack, first, accepts) + actions(config, mid, second, accepts)
            =~= actions(config, stack, first, accepts));
    } else {
        lemma_run_split(config, stack, first, second.drop_last(), accepts);
        assert((first + second).drop_last() =~= first + second.drop_last());
        assert((first + second).last() == second.last());
        assert(actions(config, stack, first + second, accepts) =~= actions(
            config,
            stack,
            first,
            accepts,
        ) + actions(config, mid, second, accepts));
    }
}

/// A run answers each event with one action: the one that the event calls
/// for in the state that the events before it have led to.
pub proof fn lemma_action_at(
    config: WalkerConfig,
    stack: Seq<Seq<char>>,
    events: Seq<EventView>,
    accepts: spec_fn(Seq<char>) -> bool,
    i: int,
)
    requires
        0 <= i < events.len(),
    ensures
        actions(config, stack, events, accepts).len() == events.len(),
        actions(config, stack, events, accepts)[i] == action_for(
            config,
            stack_after(config, stack, events.take(i)),
            events[i],
            matched_by(accepts, events[i]),
        ),
    decreases events.len(),
{
    lemma_actions_len(config, stack, events, accepts);
    lemma_actions_len(config, stack, events.drop_last(), accepts);
    if i == events.len() - 1 {
        assert(events.take(i) =~= events.drop_last());
    } else {
        lemma_action_at(config, stack, events.drop_last(), accepts, i);
        assert(events.drop_last().take(i) =~= events.take(i));
    }
}

/// A run has as many actions as events.
pub proof fn lemma_actions_len(
    config: WalkerConfig,
    stack: Seq<Seq<char>>,
    events: Seq<EventView>,
    accepts: spec_fn(Seq<char>) -> bool,
)
    ensures
        actions(config, stack, events, accepts).len() == events.len(),
    decreases events.len(),
{
    if events.len() > 0 {
        lemma_actions_len(config, stack, events.drop_last(), accepts);
    }
}

/// The number of open directories never exceeds the depth bound, whatever
/// events arrive.
pub proof fn lemma_depth_bounded(
    config: WalkerConfig,
    stack: Seq<Seq<char>>,
    events: Seq<EventView>,
)
    requires
        stack.len() <= config.max_depth,
    ensures
        stack_after(config, stack, events).len() <= config.max_depth,
    decreases events.len(),
{
    if events.len() > 0 {
        lemma_depth_bounded(config, stack, events.drop_last());
    }
}

/// A path is yielded only while at most `max_depth` directories are open,
/// the root among them: no file deeper than the bound is ever yielded.
pub proof fn lemma_yield_within_bound(
    config: WalkerConfig,
    stack: Seq<Seq<char>>,
    events: Seq<EventView>,
    accepts: spec_fn(Seq<char>) -> bool,
    i: int,
)
    requires
        stack.len() <= config.max_depth,
        0 <= i < events.len(),
        actions(config, stack, events, accepts)[i] is Yield,
    ensures
        1 <= stack_after(config, stack, events.take(i)).len() <= config.max_depth,
{
    lemma_action_at(config, stack, events, accepts, i);
    lemma_depth_bounded(config, stack, events.take(i));
}

/// A directory met while the bound is reached is neither asked for nor
/// entered: the walker answers with a skip and its state stays as it is,
/// also where a directory is reported open.
pub proof fn lemma_boundary_directory_never_opened(
    config: WalkerConfig,
    stack: Seq<Seq<char>>,
    path: Seq<char>,
    matched: bool,
)
    requires
        1 <= stack.len(),
        stack.len() >= config.max_depth,
    ensures
        action_for(
            config,
            stack,
            EventView::Found(EntryView { path, kind: KindView::Directory }),
            matched,
        ) == ActionView::Skip,
        action_for(config, stack, EventView::Opened(path), matched) == ActionView::Skip,
        next_stack(config, stack, EventView::Opened(path)) == stack,
        next_stack(config, stack, EventView::Found(EntryView { path, kind: KindView::Directory }))
            == stack,
{
}

/// A symbolic link is never yielded and never entered, whatever the settings
/// and whatever the matcher says: the walker skips it and stays as it is.
pub proof fn lemma_symlink_skipped(
    config: WalkerConfig,
    stack: Seq<Seq<char>>,
    path: Seq<char>,
    matched: bool,
)
    ensures
        ({
            let event = EventView::Found(EntryView { path, kind: KindView::Symlink });
            &&& next_stack(config, stack, event) == stack
            &&& action_for(config, stack, event, matched) == (if stack.len() == 0 {
                ActionView::Finished
            } else {
                ActionView::Skip
            })
        }),
{
}

/// In any run, a path is yielded only in answer to a found file with that
/// path that the predicate accepts, and a directory is asked for only in
/// answer to a found directory with that path, and entered only in answer to
/// the report that it is open. So nothing else is ever yielded or entered:
/// no symbolic link, no entry in error, no directory as a file.
pub proof fn lemma_yield_and_open_causes(
    config: WalkerConfig,
    stack: Seq<Seq<char>>,
    events: Seq<EventView>,
    accepts: spec_fn(Seq<char>) -> bool,
    i: int,
)
    requires
        0 <= i < events.len(),
    ensures
        ({
            let act = actions(config, stack, events, accepts)[i];
            let before = stack_after(config, stack, events.take(i));
            &&& act is Yield <==> before.len() > 0 && events[i] is Found && events[i]->Found_0.kind
                is File && accepts(events[i]->Found_0.path)
            &&& act is Yield ==> act->Yield_0 == events[i]->Found_0.path
            &&& act is Open <==> events[i] is Found && events[i]->Found_0.kind is Directory
                && before.len() > 0 && may_descend(config, before)
            &&& act is Open ==> act->Open_0 == events[i]->Found_0.path
            &&& act is Descend <==> events[i] is Opened && before.len() > 0 && may_descend(
                config,
                before,
            )
            &&& act is Descend ==> act->Descend_0 == events[i]->Opened_0
        }),
{
    lemma_action_at(config, stack, events, accepts, i);
}

/// Without recursion the walk never leaves the root: from a fresh walker the
/// root stays the only open directory until it is reported exhausted, and
/// from then on nothing is open.
pub proof fn lemma_flat_walk_stays_at_root(
    config: WalkerConfig,
    root: Seq<char>,
    events: Seq<EventView>,
)
    requires
        !config.recurse,
    ensures
        stack_after(config, seq![root], events) == (if events.contains(EventView::Exhausted) {
            Seq::<Seq<char>>::empty()
        } else {
            seq![root]
        }),
    decreases events.len(),
{
    if events.len() > 0 {
        let init = events.drop_last();
        lemma_flat_walk_stays_at_root(config, root, init);
        if init.contains(EventView::Exhausted) {
            let j = choose|j: int| 0 <= j < init.len() && init[j] == EventView::Exhausted;
            assert(events[j] == EventView::Exhausted);
        } else if events.last() == EventView::Exhausted {
            assert(events[events.len() - 1] == EventView::Exhausted);
            assert(seq![root].drop_last() =~= Seq::<Seq<char>>::empty());
        } else {
            assert forall|j: int| 0 <= j < events.len() implies events[j]
                != EventView::Exhausted by {
                if j < init.len() {
                    assert(init[j] == events[j]);
                }
            }
        }
    }
}

/// Without recursion the paths yielded are exactly the accepted files that
/// the root reports before it is exhausted, each where it is reported, and
/// no directory is ever asked for or entered.
pub proof fn lemma_flat_walk_yields_root_files(
    config: WalkerConfig,
    root: Seq<char>,
    events: Seq<EventView>,
    accepts: spec_fn(Seq<char>) -> bool,
    i: int,
)
    requires
        !config.recurse,
        0 <= i < events.len(),
    ensures
        ({
            let act = actions(config, seq![root], events, accepts)[i];
            &&& !(act is Open) && !(act is Descend)
            &&& act is Yield <==> !events.take(i).contains(EventView::Exhausted) && events[i]
                is Found && events[i]->Found_0.kind is File && accepts(events[i]->Found_0.path)
            &&& act is Yield ==> act->Yield_0 == events[i]->Found_0.path
        }),
{
    lemma_action_at(config, seq![root], events, accepts, i);
    lemma_flat_walk_stays_at_root(config, root, events.take(i));
}

/// A fault does not halt the walk. The walker answers a fault with a skip,
/// or with one diagnostic line where logging is on, and stays as it is.
pub proof fn lemma_fault_leaves_state(
    config: WalkerConfig,
    stack: Seq<Seq<char>>,
    event: EventView,
    matched: bool,
)
    requires
        is_fault(event),
        stack.len() > 0,
    ensures
        next_stack(config, stack, event) == stack,
        action_for(config, stack, event, matched) is Skip || action_for(
            config,
            stack,
            event,
            matched,
        ) is Report,
        action_for(config, stack, event, matched) is Report <==> config.debug_logging,
{
}

/// A fault in the middle of a run changes nothing around it: the events
/// before and after it are answered as if it had not occurred, and the walk
/// ends in the same state.
pub proof fn lemma_fault_does_not_disturb(
    config: WalkerConfig,
    stack: Seq<Seq<char>>,
    before: Seq<EventView>,
    fault: EventView,
    after: Seq<EventView>,
    accepts: spec_fn(Seq<char>) -> bool,
)
    requires
        is_fault(fault),
    ensures
        stack_after(config, stack, before + seq![fault] + after) == stack_after(
            config,
            stack,
            before + after,
        ),
        actions(config, stack, before + seq![fault] + after, accepts) == actions(
            config,
            stack,
            before,
            accepts,
        ) + seq![
            action_for(
                config,
                stack_after(config, stack, before),
                fault,
                matched_by(accepts, fault),
            ),
        ] + actions(config, stack_after(config, stack, before), after, accepts),
        actions(config, stack, before + after, accepts) == actions(config, stack, before, accepts)
            + actions(config, stack_after(config, stack, before), after, accepts),
{
    let mid = stack_after(config, stack, before);
    let one = seq![fault];
    lemma_run_split(config, stack, before, after, accepts);
    lemma_run_split(config, stack, before, one, accepts);
    lemma_run_split(config, stack, before + one, after, accepts);
    assert(one.drop_last() =~= Seq::<EventView>::empty());
    assert(one.last() == fault);
    assert(stack_after(config, mid, one.drop_last()) == mid);
    assert(stack_after(config, mid, one) == next_stack(config, mid, fault));
    assert(next_stack(config, mid, fault) == mid);
    assert(actions(config, mid, one.drop_last(), accepts) =~= Seq::<ActionView>::empty());
    assert(actions(config, mid, one, accepts) =~= seq![
        action_for(config, mid, fault, matched_by(accepts, fault)),
    ]);
}

} // verus!
