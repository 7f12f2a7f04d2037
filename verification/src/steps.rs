//! What each event does to a session, step by step.
use vstd::prelude::*;

use crate::cmd::{create_link_view, link_created, link_removed, remove_link_view};
use crate::config::{mic_of, ConfigView};
use crate::error::{error_text, ErrorView};
use crate::messages::{
    creating_view, link_failure_view, linking_view, ready_view, skip_views, transient_view,
    unload_failure_view, MessageView,
};
use crate::models::{
    goes_by, NodeRecord, NodeView, PortDirection, RouteView, SinkInfoView, VirtualSinkInfo,
};
use crate::modules::{load_mic_view, load_sink_view, module_id_of, unload_view};
use crate::plan::{
    first_by_name, has_two, info_view, law_sink_is_ready, mic_in, planned, ready_sink, skipped,
};
use crate::routes::in_order;
use crate::shareable::listing;
use crate::snapshot::{law_sink_is_found_by_name, PipeWireSnapshot};
use crate::state::{
    initial, leftover_error, other_than, replaced_by, summed_up, unload_complaint, without,
    ActionView, EventView, GoalView, PatchbayState, PhaseView, ReplyView, StateView, StepView,
    SINK_POLL_MS, SINK_WAIT_MS,
};
use crate::text::{decimal, joined};

verus! {

/// Whether an operation is over with a reply, and the session is otherwise as
/// `state` is.
pub open spec fn ends(at: (StateView, StepView), state: StateView, reply: ReplyView) -> bool {
    &&& at.1 == StepView::Done(reply)
    &&& at.0.phase is Idle
    &&& same_session(at.0, state)
}

/// Whether an operation goes on to a phase with an action, and the session is
/// otherwise as `state` is.
pub open spec fn goes_to(
    at: (StateView, StepView),
    state: StateView,
    phase: PhaseView,
    action: ActionView,
) -> bool {
    &&& at.1 == StepView::Act(action)
    &&& at.0.phase == phase
    &&& same_session(at.0, state)
}

/// Whether two sessions are the same but for what they are waiting for.
pub open spec fn same_session(a: StateView, b: StateView) -> bool {
    &&& a.sink_name == b.sink_name
    &&& a.sink_description == b.sink_description
    &&& a.mic == b.mic
    &&& a.available == b.available
    &&& a.module_id == b.module_id
    &&& a.mic_module_id == b.mic_module_id
    &&& a.replaced == b.replaced
    &&& a.routes == b.routes
}

/// A new session has made nothing and waits for nothing.
pub proof fn law_new_session(config: ConfigView, process_id: u32, unique: u64, available: bool)
    ensures
        ({
            let state = initial(config, process_id, unique, available);
            &&& state.sink_name == config.sink_prefix + "-"@ + decimal(process_id as nat) + "-"@
                + decimal(unique as nat)
            &&& state.sink_description == config.sink_description
            &&& state.mic == mic_of(config, process_id, unique)
            &&& state.available == available
            &&& state.module_id is None
            &&& state.mic_module_id is None
            &&& state.replaced == Seq::<u32>::empty()
            &&& state.routes == Set::<RouteView>::empty()
            &&& state.phase is Idle
        }),
{
}

/// To list nodes the graph is read, and its nodes are the answer, or the reason
/// why it could not be read.
pub proof fn law_listing_nodes(
    state: StateView,
    include_devices: bool,
    nodes: Seq<NodeView>,
    error: ErrorView,
    now: u64,
)
    requires
        state.available,
    ensures
        goes_to(
            state.list_begun(include_devices),
            state,
            PhaseView::Listing { include_devices },
            ActionView::Collect,
        ),
        ends(
            state.list_begun(include_devices).0.resumed(EventView::Collected(Ok(nodes)), now),
            state,
            ReplyView::Nodes(Ok(listing(nodes, state.sink_name, include_devices))),
        ),
        ends(
            state.list_begun(include_devices).0.resumed(EventView::Collected(Err(error)), now),
            state,
            ReplyView::Nodes(Err(error)),
        ),
{
}

/// Without PipeWire nothing is read or made.
pub proof fn law_nothing_without_pipewire(
    state: StateView,
    include_devices: bool,
    goal: GoalView,
    ids: Seq<u32>,
)
    requires
        !state.available,
    ensures
        ends(
            state.list_begun(include_devices),
            state,
            ReplyView::Nodes(Err(ErrorView::Unsupported)),
        ),
        ends(state.sink_begun(goal), state, ReplyView::Sink(Err(ErrorView::Unsupported))),
        ids.len() > 0 ==> ends(
            state.route_begun(ids),
            state,
            ReplyView::Sink(Err(ErrorView::Unsupported)),
        ),
{
}

/// To route nodes there must be some; then the sink is looked for, as it is where
/// it is wanted for itself.
pub proof fn law_sink_is_looked_for(state: StateView, ids: Seq<u32>)
    ensures
        ids.len() == 0 ==> ends(
            state.route_begun(ids),
            state,
            ReplyView::Sink(Err(ErrorView::Message("at least one node id is required"@))),
        ),
        state.available ==> goes_to(
            state.sink_begun(GoalView::Sink),
            state,
            PhaseView::Checking { goal: GoalView::Sink },
            ActionView::Collect,
        ),
        state.available && ids.len() > 0 ==> goes_to(
            state.route_begun(ids),
            state,
            PhaseView::Checking { goal: GoalView::Route(ids) },
            ActionView::Collect,
        ),
{
}

/// Whether an operation goes on with the devices that it needs: a sink that was
/// wanted for itself is the answer, and to route nodes the graph is read once
/// more.
pub open spec fn goes_on(
    at: (StateView, StepView),
    state: StateView,
    goal: GoalView,
    info: SinkInfoView,
) -> bool {
    match goal {
        GoalView::Sink => ends(at, state, ReplyView::Sink(Ok(info))),
        GoalView::Route(ids) => goes_to(
            at,
            state,
            PhaseView::Planning { ids, info },
            ActionView::Collect,
        ),
    }
}

/// A sink that is ready is used, when it is first looked for as well as when it
/// is awaited. A microphone that is wanted is made where the graph lacks it.
pub proof fn law_ready_sink_is_used(
    state: StateView,
    goal: GoalView,
    nodes: Seq<NodeView>,
    node_id: u32,
    now: u64,
)
    requires
        state.phase == (PhaseView::Checking { goal }) || exists|deadline: u64|
            state.phase == (PhaseView::Waiting { goal, deadline }),
        ready_sink(nodes, state.sink_name, state.sink_description) == Some(node_id),
    ensures
        ({
            let next = state.resumed(EventView::Collected(Ok(nodes)), now);
            let info = info_view(state.sink_name, state.mic, node_id);
            match state.mic {
                None => goes_on(next, state, goal, info),
                Some(mic) => if mic_in(nodes, mic.name) {
                    goes_on(next, state, goal, info)
                } else {
                    goes_to(
                        next,
                        state,
                        PhaseView::LoadingMic { goal, info },
                        ActionView::Run(load_mic_view(state.sink_name, mic.name, mic.description)),
                    )
                },
            }
        }),
{
}

/// A sink that is not ready when it is first looked for is made, and a graph that
/// cannot be read then ends the operation.
pub proof fn law_sink_is_made(
    state: StateView,
    goal: GoalView,
    nodes: Seq<NodeView>,
    error: ErrorView,
    now: u64,
)
    requires
        state.phase == (PhaseView::Checking { goal }),
    ensures
        ready_sink(nodes, state.sink_name, state.sink_description) is None ==> goes_to(
            state.resumed(EventView::Collected(Ok(nodes)), now),
            state,
            PhaseView::LoadingSink { goal },
            ActionView::Run(load_sink_view(state.sink_name, state.sink_description)),
        ),
        ends(
            state.resumed(EventView::Collected(Err(error)), now),
            state,
            ReplyView::Sink(Err(error)),
        ),
{
}

/// The module of a sink that was made is kept in mind, and the sink is awaited for
/// three seconds. A module that could not be loaded, or whose id cannot be read,
/// ends the operation.
pub proof fn law_sink_was_made(
    state: StateView,
    goal: GoalView,
    text: Seq<char>,
    error: ErrorView,
    now: u64,
)
    requires
        state.phase == (PhaseView::LoadingSink { goal }),
    ensures
        match module_id_of(text) {
            Ok(id) => goes_to(
                state.resumed(EventView::Ran(Ok(text)), now),
                StateView {
                    module_id: Some(id),
                    replaced: replaced_by(state.replaced, state.module_id, id),
                    ..state
                },
                PhaseView::Waiting {
                    goal,
                    deadline: if now + 3000 <= u64::MAX {
                        (now + 3000) as u64
                    } else {
                        u64::MAX
                    },
                },
                ActionView::Collect,
            ),
            Err(refusal) => ends(
                state.resumed(EventView::Ran(Ok(text)), now),
                state,
                ReplyView::Sink(Err(refusal)),
            ),
        },
        ends(state.resumed(EventView::Ran(Err(error)), now), state, ReplyView::Sink(Err(error))),
{
}

/// While a new sink is not ready, or the graph cannot be read, it is looked for
/// again after a twentieth of a second, until its time is over.
pub proof fn law_sink_is_awaited(
    state: StateView,
    goal: GoalView,
    deadline: u64,
    nodes: Seq<NodeView>,
    error: ErrorView,
    now: u64,
)
    requires
        state.phase == (PhaseView::Waiting { goal, deadline }),
        ready_sink(nodes, state.sink_name, state.sink_description) is None,
    ensures
        now < deadline ==> goes_to(
            state.resumed(EventView::Collected(Ok(nodes)), now),
            state,
            PhaseView::Pausing { goal, deadline },
            ActionView::Pause(50),
        ),
        now < deadline ==> goes_to(
            state.resumed(EventView::Collected(Err(error)), now),
            state,
            PhaseView::Pausing { goal, deadline },
            ActionView::Pause(50),
        ),
        now >= deadline ==> ends(
            state.resumed(EventView::Collected(Ok(nodes)), now),
            state,
            ReplyView::Sink(Err(ErrorView::Timeout("virtual sink"@))),
        ),
        now >= deadline ==> ends(
            state.resumed(EventView::Collected(Err(error)), now),
            state,
            ReplyView::Sink(Err(ErrorView::Timeout("virtual sink"@))),
        ),
{
}

/// After a pause the sink is looked for with the time that it had.
pub proof fn law_pause_is_over(state: StateView, goal: GoalView, deadline: u64, now: u64)
    requires
        state.phase == (PhaseView::Pausing { goal, deadline }),
    ensures
        goes_to(
            state.resumed(EventView::Paused, now),
            state,
            PhaseView::Waiting { goal, deadline },
            ActionView::Collect,
        ),
{
}

/// The sink has three seconds to show up, and is looked for twenty times a second.
pub proof fn law_sink_times()
    ensures
        SINK_WAIT_MS == 3 * 1000,
        20 * SINK_POLL_MS == 1000,
{
}

/// The module of a microphone that was made is kept in mind, and the operation
/// goes on. A module that could not be loaded, or whose id cannot be read, ends
/// it.
pub proof fn law_microphone_was_made(
    state: StateView,
    goal: GoalView,
    info: SinkInfoView,
    text: Seq<char>,
    error: ErrorView,
    now: u64,
)
    requires
        state.phase == (PhaseView::LoadingMic { goal, info }),
    ensures
        match module_id_of(text) {
            Ok(id) => goes_on(
                state.resumed(EventView::Ran(Ok(text)), now),
                StateView {
                    mic_module_id: Some(id),
                    replaced: replaced_by(state.replaced, state.mic_module_id, id),
                    ..state
                },
                goal,
                info,
            ),
            Err(refusal) => ends(
                state.resumed(EventView::Ran(Ok(text)), now),
                state,
                ReplyView::Sink(Err(refusal)),
            ),
        },
        ends(state.resumed(EventView::Ran(Err(error)), now), state, ReplyView::Sink(Err(error))),
{
}

/// Whether an operation that has made its links goes on to remove those that
/// nobody wants any more, or is over where there are none.
pub open spec fn settles(
    at: (StateView, StepView),
    state: StateView,
    info: SinkInfoView,
    stale: Seq<RouteView>,
    kept: Set<RouteView>,
) -> bool {
    if stale.len() > 0 {
        goes_to(
            at,
            state,
            PhaseView::Unlinking { info, todo: stale, kept },
            ActionView::Run(remove_link_view(stale[0])),
        )
    } else {
        ends(at, StateView { routes: kept, ..state }, ReplyView::Sink(Ok(info)))
    }
}

/// Once the graph was read, exactly the planned links that the session does not
/// have yet are made, in order. Those that it has stay. A graph that cannot be
/// read, and a plan that cannot be made, end the operation.
pub proof fn law_links_are_planned(
    state: StateView,
    ids: Seq<u32>,
    info: SinkInfoView,
    nodes: Seq<NodeView>,
    error: ErrorView,
    now: u64,
)
    requires
        state.phase == (PhaseView::Planning { ids, info }),
    ensures
        ends(
            state.resumed(EventView::Collected(Err(error)), now),
            state,
            ReplyView::Sink(Err(error)),
        ),
        ({
            let next = state.resumed(EventView::Collected(Ok(nodes)), now);
            match planned(nodes, state.sink_name, state.sink_description, ids) {
                Err(refusal) => ends(next, state, ReplyView::Sink(Err(refusal))),
                Ok(wanted) => {
                    let fresh = in_order(wanted.difference(state.routes));
                    let kept = state.routes.intersect(wanted);
                    if fresh.len() > 0 {
                        goes_to(
                            next,
                            state,
                            PhaseView::Linking { info, wanted, todo: fresh, active: kept },
                            ActionView::Run(create_link_view(fresh[0])),
                        )
                    } else if kept == Set::<RouteView>::empty() {
                        ends(
                            next,
                            state,
                            ReplyView::Sink(
                                Err(
                                    ErrorView::Message(
                                        "none of the selected nodes could be linked"@,
                                    ),
                                ),
                            ),
                        )
                    } else {
                        settles(
                            next,
                            state,
                            info,
                            in_order(state.routes.difference(wanted)),
                            kept,
                        )
                    }
                },
            }
        }),
{
}

/// A link that was made counts, and one that could not be made does not; either
/// way the next one is made. After the last one the operation fails where none
/// counts, and else goes on.
pub proof fn law_one_link_is_made(
    state: StateView,
    info: SinkInfoView,
    wanted: Set<RouteView>,
    route: RouteView,
    rest: Seq<RouteView>,
    active: Set<RouteView>,
    outcome: Result<Seq<char>, ErrorView>,
    now: u64,
)
    requires
        state.phase == (PhaseView::Linking { info, wanted, todo: seq![route] + rest, active }),
    ensures
        ({
            let next = state.resumed(EventView::Ran(outcome), now);
            let now_active = if link_created(outcome) is Ok {
                active.insert(route)
            } else {
                active
            };
            if rest.len() > 0 {
                goes_to(
                    next,
                    state,
                    PhaseView::Linking { info, wanted, todo: rest, active: now_active },
                    ActionView::Run(create_link_view(rest[0])),
                )
            } else if now_active == Set::<RouteView>::empty() {
                ends(
                    next,
                    state,
                    ReplyView::Sink(
                        Err(ErrorView::Message("none of the selected nodes could be linked"@)),
                    ),
                )
            } else {
                settles(
                    next,
                    state,
                    info,
                    in_order(state.routes.difference(wanted)),
                    now_active,
                )
            }
        }),
{
    assert((seq![route] + rest).drop_first() =~= rest);
}

/// A link that nobody wants any more is forgotten once it was removed, and kept in
/// mind where it could not be; either way the next one is removed.
pub proof fn law_one_stale_link_is_removed(
    state: StateView,
    info: SinkInfoView,
    route: RouteView,
    rest: Seq<RouteView>,
    kept: Set<RouteView>,
    outcome: Result<Seq<char>, ErrorView>,
    now: u64,
)
    requires
        state.phase == (PhaseView::Unlinking { info, todo: seq![route] + rest, kept }),
    ensures
        settles(
            state.resumed(EventView::Ran(outcome), now),
            state,
            info,
            rest,
            if link_removed(outcome) is Ok {
                kept
            } else {
                kept.insert(route)
            },
        ),
{
    assert((seq![route] + rest).drop_first() =~= rest);
}

/// To clear the routes of a session each of them is removed, in order, and none
/// is left where there were none.
pub proof fn law_clearing_starts(state: StateView, disposing: bool)
    ensures
        ({
            let todo = in_order(state.routes);
            todo.len() > 0 ==> goes_to(
                state.clear_begun(disposing),
                StateView { routes: Set::empty(), ..state },
                PhaseView::Clearing { todo, failed: Set::empty(), disposing },
                ActionView::Run(remove_link_view(todo[0])),
            )
        }),
        in_order(state.routes).len() == 0 && !disposing ==> ends(
            state.clear_begun(disposing),
            StateView { routes: Set::empty(), ..state },
            ReplyView::Unit(Ok(())),
        ),
        in_order(state.routes).len() == 0 && disposing ==> unloads_devices(
            state.clear_begun(disposing),
            StateView { routes: Set::empty(), ..state },
            seq![],
        ),
{
}

/// Whether an operation goes on to take the devices of a session away: the
/// microphone first, then the sink, then the modules that they replaced, each
/// where there is one.
pub open spec fn unloads_devices(
    at: (StateView, StepView),
    state: StateView,
    errors: Seq<Seq<char>>,
) -> bool {
    match state.mic_module_id {
        Some(id) => goes_to(
            at,
            state,
            PhaseView::UnloadingMic { id, errors },
            ActionView::Run(unload_view(id)),
        ),
        None => unloads_sink(at, state, errors),
    }
}

/// Whether an operation goes on to take the sink away, or what it replaced.
pub open spec fn unloads_sink(
    at: (StateView, StepView),
    state: StateView,
    errors: Seq<Seq<char>>,
) -> bool {
    match state.module_id {
        Some(id) => goes_to(
            at,
            state,
            PhaseView::UnloadingSink { id, errors },
            ActionView::Run(unload_view(id)),
        ),
        None => unloads_others(at, state, state.replaced, errors),
    }
}

/// Whether an operation goes on to take replaced modules away, or is over with
/// all that went wrong where there are none.
pub open spec fn unloads_others(
    at: (StateView, StepView),
    state: StateView,
    left: Seq<u32>,
    errors: Seq<Seq<char>>,
) -> bool {
    if left.len() > 0 {
        goes_to(
            at,
            state,
            PhaseView::UnloadingReplaced { left, errors },
            ActionView::Run(unload_view(left[0])),
        )
    } else if errors.len() > 0 {
        ends(at, state, ReplyView::Unit(Err(ErrorView::Message(joined(errors, "; "@)))))
    } else {
        ends(at, state, ReplyView::Unit(Ok(())))
    }
}

/// What is said when so many routes could not be removed.
pub open spec fn leftover_text(failures: nat) -> Seq<char> {
    "failed to remove "@ + decimal(failures) + " route(s); cleanup will be retried later"@
}

/// A route that could not be removed stays, and any other is forgotten; either way
/// the next one is removed. After the last one it is told how many stay, and where
/// the session is disposed of its devices are taken away.
pub proof fn law_one_route_is_cleared(
    state: StateView,
    route: RouteView,
    rest: Seq<RouteView>,
    failed: Set<RouteView>,
    disposing: bool,
    outcome: Result<Seq<char>, ErrorView>,
    now: u64,
)
    requires
        state.phase == (PhaseView::Clearing { todo: seq![route] + rest, failed, disposing }),
    ensures
        ({
            let next = state.resumed(EventView::Ran(outcome), now);
            let now_failed = if link_removed(outcome) is Ok {
                failed
            } else {
                failed.insert(route)
            };
            let left = StateView { routes: now_failed, ..state };
            if rest.len() > 0 {
                goes_to(
                    next,
                    state,
                    PhaseView::Clearing { todo: rest, failed: now_failed, disposing },
                    ActionView::Run(remove_link_view(rest[0])),
                )
            } else if disposing {
                unloads_devices(
                    next,
                    left,
                    if now_failed.len() == 0 {
                        seq![]
                    } else {
                        seq![leftover_text(now_failed.len())]
                    },
                )
            } else {
                ends(
                    next,
                    left,
                    ReplyView::Unit(
                        if now_failed.len() == 0 {
                            Ok(())
                        } else {
                            Err(ErrorView::Message(leftover_text(now_failed.len())))
                        },
                    ),
                )
            }
        }),
{
    assert((seq![route] + rest).drop_first() =~= rest);
}

/// What is said of a module that could not be taken away.
pub open spec fn stuck_text(head: Seq<char>, id: u32, error: ErrorView) -> Seq<char> {
    head + decimal(id as nat) + ": "@ + error_text(error)
}

/// A microphone that was taken away is forgotten, and one that could not be is
/// kept in mind and complained of; either way the sink comes next.
pub proof fn law_microphone_is_unloaded(
    state: StateView,
    id: u32,
    errors: Seq<Seq<char>>,
    text: Seq<char>,
    error: ErrorView,
    now: u64,
)
    requires
        state.phase == (PhaseView::UnloadingMic { id, errors }),
    ensures
        unloads_sink(
            state.resumed(EventView::Ran(Ok(text)), now),
            StateView { mic_module_id: None, ..state },
            errors,
        ),
        unloads_sink(
            state.resumed(EventView::Ran(Err(error)), now),
            state,
            errors.push(stuck_text("failed to unload virtual microphone module "@, id, error)),
        ),
{
}

/// A sink that was taken away is forgotten, and one that could not be is kept in
/// mind and complained of; either way the replaced modules come next.
pub proof fn law_sink_is_unloaded(
    state: StateView,
    id: u32,
    errors: Seq<Seq<char>>,
    text: Seq<char>,
    error: ErrorView,
    now: u64,
)
    requires
        state.phase == (PhaseView::UnloadingSink { id, errors }),
    ensures
        unloads_others(
            state.resumed(EventView::Ran(Ok(text)), now),
            StateView { module_id: None, ..state },
            state.replaced,
            errors,
        ),
        unloads_others(
            state.resumed(EventView::Ran(Err(error)), now),
            state,
            state.replaced,
            errors.push(stuck_text("failed to unload virtual sink module "@, id, error)),
        ),
{
}

/// A replaced module that was taken away is forgotten, and one that could not be is
/// kept in mind and complained of; either way the next one follows.
pub proof fn law_replaced_module_is_unloaded(
    state: StateView,
    id: u32,
    rest: Seq<u32>,
    errors: Seq<Seq<char>>,
    text: Seq<char>,
    error: ErrorView,
    now: u64,
)
    requires
        state.phase == (PhaseView::UnloadingReplaced { left: seq![id] + rest, errors }),
    ensures
        unloads_others(
            state.resumed(EventView::Ran(Ok(text)), now),
            StateView { replaced: without(state.replaced, id), ..state },
            rest,
            errors,
        ),
        unloads_others(
            state.resumed(EventView::Ran(Err(error)), now),
            state,
            rest,
            errors.push(stuck_text("failed to unload replaced module "@, id, error)),
        ),
{
    assert((seq![id] + rest).drop_first() =~= rest);
}

/// To forget a module takes its id out and leaves the others in their order.
pub proof fn law_forgetting(ids: Seq<u32>, last: u32, id: u32)
    ensures
        without(seq![], id) == Seq::<u32>::empty(),
        without(ids.push(last), id) == if last == id {
            without(ids, id)
        } else {
            without(ids, id).push(last)
        },
{
    let none = Seq::<u32>::empty();
    assert(none.filter(other_than(id)) =~= none) by {
        reveal(Seq::filter);
    }
    ids.lemma_filter_push(last, other_than(id));
}

/// The replaced modules are those that were, and the one in whose place a module
/// was loaded, but not the loaded one. Each stands there once.
pub proof fn law_replaced_modules(replaced: Seq<u32>, former: Option<u32>, loaded: u32, id: u32)
    ensures
        replaced_by(replaced, former, loaded).contains(id) <==> id != loaded && (replaced.contains(
            id,
        ) || former == Some(id)),
        replaced.no_duplicates() ==> replaced_by(replaced, former, loaded).no_duplicates(),
{
    let others = without(replaced, loaded);
    lemma_without(replaced, loaded, id);
    if let Some(old) = former {
        lemma_without(replaced, loaded, old);
        let more = others.push(old);
        if others.contains(id) {
            let k = choose|k: int| 0 <= k < others.len() && others[k] == id;
            assert(more[k] == id);
        }
        assert(more[others.len() as int] == old);
    }
    if replaced.no_duplicates() {
        lemma_without_once(replaced, loaded);
    }
}

proof fn lemma_without(ids: Seq<u32>, id: u32, other: u32)
    ensures
        without(ids, id).contains(other) <==> other != id && ids.contains(other),
    decreases ids.len(),
{
    if ids.len() == 0 {
        law_forgetting(ids, 0, id);
        assert(ids =~= Seq::empty());
    } else {
        let front = ids.drop_last();
        let last = ids.last();
        assert(front.push(last) =~= ids);
        law_forgetting(front, last, id);
        lemma_without(front, id, other);
        let less = without(front, id);
        let all = without(ids, id);
        if all.contains(other) {
            let k = choose|k: int| 0 <= k < all.len() && all[k] == other;
            if k < less.len() {
                assert(less[k] == other);
                let j = choose|j: int| 0 <= j < front.len() && front[j] == other;
                assert(ids[j] == other);
            } else {
                assert(ids[ids.len() - 1] == last);
            }
        }
        if other != id && ids.contains(other) {
            let j = choose|j: int| 0 <= j < ids.len() && ids[j] == other;
            if j < front.len() {
                assert(front[j] == other);
                let k = choose|k: int| 0 <= k < less.len() && less[k] == other;
                assert(all[k] == other);
            } else {
                assert(all.last() == other);
            }
        }
    }
}

proof fn lemma_without_once(ids: Seq<u32>, id: u32)
    requires
        ids.no_duplicates(),
    ensures
        without(ids, id).no_duplicates(),
    decreases ids.len(),
{
    if ids.len() == 0 {
        law_forgetting(ids, 0, id);
        assert(ids =~= Seq::empty());
    } else {
        let front = ids.drop_last();
        let last = ids.last();
        assert(front.push(last) =~= ids);
        law_forgetting(front, last, id);
        lemma_without_once(front, id);
        lemma_without(front, id, last);
        if without(front, id).contains(last) {
            let j = choose|j: int| 0 <= j < front.len() && front[j] == last;
            assert(ids[j] == ids[ids.len() - 1]);
        }
    }
}

/// What is said of what stays behind.
pub proof fn law_complaints(failures: nat, head: Seq<char>, id: u32, error: ErrorView)
    ensures
        leftover_error(failures) == ErrorView::Message(leftover_text(failures)),
        unload_complaint(head, id, error) == stuck_text(head, id, error),
        summed_up(seq![]) == Ok::<(), ErrorView>(()),
        summed_up(seq![head]) == Err::<(), ErrorView>(ErrorView::Message(head)),
        forall|errors: Seq<Seq<char>>|
            errors.len() > 0 ==> #[trigger] summed_up(errors) == Err::<(), ErrorView>(
                ErrorView::Message(joined(errors, "; "@)),
            ),
{
    reveal_with_fuel(joined, 2);
    assert(joined(seq![head], "; "@) =~= head);
}

/// Each phase waits for the kind of event that its action gives.
pub proof fn law_awaited_events(
    state: StateView,
    graph: Result<Seq<NodeView>, ErrorView>,
    text: Result<Seq<char>, ErrorView>,
)
    ensures
        state.expects(EventView::Collected(graph)) <==> state.phase is Listing || state.phase
            is Checking || state.phase is Waiting || state.phase is Planning,
        state.expects(EventView::Paused) <==> state.phase is Pausing,
        state.expects(EventView::Ran(text)) <==> !(state.phase is Idle) && !state.expects(
            EventView::Collected(graph),
        ) && !state.expects(EventView::Paused),
{
}

/// What is logged of a graph: that a sink is made, that a new one is ready, that
/// the graph could not be read while it is awaited, and the nodes that are passed
/// over. Nothing else is.
pub proof fn law_graph_messages(state: StateView, graph: Result<Seq<NodeView>, ErrorView>)
    ensures
        ({
            let said = state.messages(EventView::Collected(graph));
            match (state.phase, graph) {
                (PhaseView::Checking { .. }, Ok(nodes)) => if ready_sink(
                    nodes,
                    state.sink_name,
                    state.sink_description,
                ) is None {
                    said == seq![creating_view(state.sink_name)]
                } else {
                    said.len() == 0
                },
                (PhaseView::Waiting { .. }, Ok(nodes)) => match ready_sink(
                    nodes,
                    state.sink_name,
                    state.sink_description,
                ) {
                    Some(id) => said == seq![ready_view(state.sink_name, id)],
                    None => said.len() == 0,
                },
                (PhaseView::Waiting { .. }, Err(error)) => said == seq![
                    transient_view(error_text(error)),
                ],
                (PhaseView::Planning { ids, .. }, Ok(nodes)) => said == skip_views(
                    skipped(nodes, state.sink_name, state.sink_description, ids),
                ),
                _ => said.len() == 0,
            }
        }),
        state.messages(EventView::Paused).len() == 0,
{
}

/// What is logged of a command: a link that could not be made or removed, or a
/// module that could not be taken away, with the reason. Nothing else is.
pub proof fn law_command_messages(state: StateView, outcome: Result<Seq<char>, ErrorView>)
    ensures
        ({
            let said = state.messages(EventView::Ran(outcome));
            match state.phase {
                PhaseView::Linking { todo, .. } => match link_created(outcome) {
                    Ok(_) => said.len() == 0,
                    Err(error) => said == seq![
                        link_failure_view("[patchbay] failed to link "@, todo[0], error_text(error)),
                    ],
                },
                PhaseView::Unlinking { todo, .. } => match link_removed(outcome) {
                    Ok(_) => said.len() == 0,
                    Err(error) => said == seq![
                        link_failure_view(
                            "[patchbay] failed to remove stale link "@,
                            todo[0],
                            error_text(error),
                        ),
                    ],
                },
                PhaseView::Clearing { todo, .. } => match link_removed(outcome) {
                    Ok(_) => said.len() == 0,
                    Err(error) => said == seq![
                        link_failure_view(
                            "[patchbay] failed to remove link "@,
                            todo[0],
                            error_text(error),
                        ),
                    ],
                },
                PhaseView::UnloadingMic { id, .. } => tells_failure(said, id, outcome),
                PhaseView::UnloadingSink { id, .. } => tells_failure(said, id, outcome),
                PhaseView::UnloadingReplaced { left, .. } => tells_failure(said, left[0], outcome),
                _ => said.len() == 0,
            }
        }),
{
}

/// Whether what is said tells of a module that could not be taken away, and says
/// nothing where it was.
pub open spec fn tells_failure(
    said: Seq<MessageView>,
    id: u32,
    outcome: Result<Seq<char>, ErrorView>,
) -> bool {
    match outcome {
        Ok(_) => said.len() == 0,
        Err(error) => said == seq![unload_failure_view(id, error_text(error))],
    }
}

/// A link is announced before it is made, and nothing else is.
pub proof fn law_announcements(state: StateView)
    ensures
        state.phase matches PhaseView::Linking { todo, .. } ==> state.announcement() == Some(
            linking_view(todo[0]),
        ),
        !(state.phase is Linking) ==> state.announcement() is None,
{
}

/// The virtual objects of a session are the nodes that have the name of its sink or
/// of the monitor of it.
pub proof fn law_virtual_objects(
    state: PatchbayState,
    node: NodeRecord,
    sink: bool,
    monitor: bool,
    either: bool,
)
    requires
        call_ensures(PatchbayState::is_our_virtual_sink_node, (&state, &node), sink),
        call_ensures(PatchbayState::is_our_monitor_node, (&state, &node), monitor),
        call_ensures(PatchbayState::is_our_virtual_audio_object, (&state, &node), either),
    ensures
        sink <==> goes_by(node@, state@.sink_name),
        monitor <==> goes_by(node@, state@.sink_name + ".monitor"@),
        either <==> sink || monitor,
{
}

/// The node of the sink is told as soon as a node has its name, and where its
/// audio can be picked up as soon as it is ready.
pub proof fn law_sink_is_told(
    state: PatchbayState,
    graph: PipeWireSnapshot,
    i: int,
    id: Option<u32>,
    info: Option<VirtualSinkInfo>,
)
    requires
        call_ensures(PatchbayState::virtual_sink_node_id, (&state, &graph), id),
        call_ensures(PatchbayState::virtual_sink_info, (&state, &graph), info),
        first_by_name(graph@, state@.sink_name, i),
    ensures
        id == Some(graph@[i].id),
        info is Some <==> has_two(graph@[i], PortDirection::Input),
        info matches Some(info) ==> info@ == info_view(
            state@.sink_name,
            state@.mic,
            graph@[i].id,
        ),
{
    law_sink_is_found_by_name(graph@, state@.sink_name, state@.sink_description, i);
    law_sink_is_ready(graph@, state@.sink_name, state@.sink_description, i);
}

} // verus!
