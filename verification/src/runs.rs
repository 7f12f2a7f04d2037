//! What whole operations come to.
use vstd::prelude::*;

use crate::cmd::{create_link_view, later, link_created, link_removed, remove_link_view};
use crate::config::{ConfigView, MicView};
use crate::error::{error_text, ErrorView};
use crate::models::{NodeView, RouteView, SinkInfoView};
use crate::modules::{load_mic_view, load_sink_view, module_id_of, unload_view};
use crate::plan::{info_view, mic_in, planned, ready_sink};
use crate::routes::{ascending, in_order, lemma_in_order, lemma_in_order_of_finite};
use crate::state::{
    initial, leftover_error, other_than, replaced_by, summed_up, unload_complaint, without,
    ActionView, EventView, GoalView, PhaseView, ReplyView, StateView, StepView, SINK_POLL_MS,
    SINK_WAIT_MS,
};

verus! {

/// What a command gave, and when it ended.
pub type Ended = (Result<Seq<char>, ErrorView>, u64);

/// The state and the step after a row of events.
pub open spec fn played(at: (StateView, StepView), events: Seq<(EventView, u64)>) -> (
    StateView,
    StepView,
)
    decreases events.len(),
{
    if events.len() == 0 {
        at
    } else {
        played(at.0.resumed(events[0].0, events[0].1), events.drop_first())
    }
}

/// The steps on the way through a row of events, the first one included.
pub open spec fn steps(at: (StateView, StepView), events: Seq<(EventView, u64)>) -> Seq<StepView>
    decreases events.len(),
{
    if events.len() == 0 {
        seq![at.1]
    } else {
        seq![at.1] + steps(at.0.resumed(events[0].0, events[0].1), events.drop_first())
    }
}

/// A row of commands that end one after the other.
pub open spec fn ran(outcomes: Seq<Ended>) -> Seq<(EventView, u64)> {
    outcomes.map_values(|ended: Ended| (EventView::Ran(ended.0), ended.1))
}

/// The steps that make links.
pub open spec fn creations(routes: Seq<RouteView>) -> Seq<StepView> {
    routes.map_values(|route: RouteView| StepView::Act(ActionView::Run(create_link_view(route))))
}

/// The steps that remove links.
pub open spec fn removals(routes: Seq<RouteView>) -> Seq<StepView> {
    routes.map_values(|route: RouteView| StepView::Act(ActionView::Run(remove_link_view(route))))
}

/// The routes whose links could be made.
pub open spec fn made(routes: Seq<RouteView>, outcomes: Seq<Ended>) -> Set<RouteView> {
    Set::new(
        |route: RouteView|
            exists|i: int|
                0 <= i < routes.len() && #[trigger] routes[i] == route && link_created(
                    outcomes[i].0,
                ) is Ok,
    )
}

/// The routes whose links could not be removed.
pub open spec fn stuck(routes: Seq<RouteView>, outcomes: Seq<Ended>) -> Set<RouteView> {
    Set::new(
        |route: RouteView|
            exists|i: int|
                0 <= i < routes.len() && #[trigger] routes[i] == route && link_removed(
                    outcomes[i].0,
                ) is Err,
    )
}

proof fn lemma_made_first(routes: Seq<RouteView>, outcomes: Seq<Ended>)
    requires
        routes.len() > 0,
        routes.len() == outcomes.len(),
    ensures
        made(routes, outcomes) == if link_created(outcomes[0].0) is Ok {
            made(routes.drop_first(), outcomes.drop_first()).insert(routes[0])
        } else {
            made(routes.drop_first(), outcomes.drop_first())
        },
{
    let rest = made(routes.drop_first(), outcomes.drop_first());
    let expected = if link_created(outcomes[0].0) is Ok {
        rest.insert(routes[0])
    } else {
        rest
    };
    assert forall|route: RouteView| made(routes, outcomes).contains(route) <==> expected.contains(
        route,
    ) by {
        if made(routes, outcomes).contains(route) {
            let i = choose|i: int|
                0 <= i < routes.len() && #[trigger] routes[i] == route && link_created(
                    outcomes[i].0,
                ) is Ok;
            if i > 0 {
                assert(routes.drop_first()[i - 1] == route);
            }
        }
        if rest.contains(route) {
            let i = choose|i: int|
                0 <= i < routes.drop_first().len() && #[trigger] routes.drop_first()[i] == route
                    && link_created(outcomes.drop_first()[i].0) is Ok;
            assert(routes[i + 1] == route);
        }
        if link_created(outcomes[0].0) is Ok && route == routes[0] {
            assert(routes[0] == route);
        }
    }
    assert(made(routes, outcomes) =~= expected);
}

proof fn lemma_stuck_first(routes: Seq<RouteView>, outcomes: Seq<Ended>)
    requires
        routes.len() > 0,
        routes.len() == outcomes.len(),
    ensures
        stuck(routes, outcomes) == if link_removed(outcomes[0].0) is Err {
            stuck(routes.drop_first(), outcomes.drop_first()).insert(routes[0])
        } else {
            stuck(routes.drop_first(), outcomes.drop_first())
        },
{
    let rest = stuck(routes.drop_first(), outcomes.drop_first());
    let expected = if link_removed(outcomes[0].0) is Err {
        rest.insert(routes[0])
    } else {
        rest
    };
    assert forall|route: RouteView| stuck(routes, outcomes).contains(route) <==> expected.contains(
        route,
    ) by {
        if stuck(routes, outcomes).contains(route) {
            let i = choose|i: int|
                0 <= i < routes.len() && #[trigger] routes[i] == route && link_removed(
                    outcomes[i].0,
                ) is Err;
            if i > 0 {
                assert(routes.drop_first()[i - 1] == route);
            }
        }
        if rest.contains(route) {
            let i = choose|i: int|
                0 <= i < routes.drop_first().len() && #[trigger] routes.drop_first()[i] == route
                    && link_removed(outcomes.drop_first()[i].0) is Err;
            assert(routes[i + 1] == route);
        }
        if link_removed(outcomes[0].0) is Err && route == routes[0] {
            assert(routes[0] == route);
        }
    }
    assert(stuck(routes, outcomes) =~= expected);
}

/// Two rows of events are played one after the other.
proof fn lemma_played_on(
    at: (StateView, StepView),
    first: Seq<(EventView, u64)>,
    second: Seq<(EventView, u64)>,
)
    ensures
        played(at, first + second) == played(played(at, first), second),
        steps(at, first + second) == steps(at, first).drop_last() + steps(
            played(at, first),
            second,
        ),
        steps(at, first).len() == first.len() + 1,
        steps(at, first).last() == played(at, first).1,
    decreases first.len(),
{
    if first.len() == 0 {
        assert(first + second =~= second);
        assert(steps(at, first).drop_last() =~= seq![]);
        assert(steps(at, second) =~= steps(at, first).drop_last() + steps(at, second));
    } else {
        let next = at.0.resumed(first[0].0, first[0].1);
        let rest = first.drop_first();
        lemma_played_on(next, rest, second);
        assert((first + second).drop_first() =~= rest + second);
        assert(steps(at, first).drop_last() =~= seq![at.1] + steps(next, rest).drop_last());
        assert(steps(at, first + second) =~= steps(at, first).drop_last() + steps(
            played(at, first),
            second,
        ));
    }
}

/// A row of links is made one by one, in order. A link that cannot be made does
/// not keep the others from being made.
pub proof fn law_links_are_made(
    state: StateView,
    info: SinkInfoView,
    wanted: Set<RouteView>,
    todo: Seq<RouteView>,
    active: Set<RouteView>,
    outcomes: Seq<Ended>,
)
    requires
        outcomes.len() == todo.len(),
    ensures
        played(state.linking(info, wanted, todo, active), ran(outcomes)) == state.linking(
            info,
            wanted,
            seq![],
            active.union(made(todo, outcomes)),
        ),
        steps(state.linking(info, wanted, todo, active), ran(outcomes)).drop_last() == creations(
            todo,
        ),
    decreases todo.len(),
{
    let at = state.linking(info, wanted, todo, active);
    if todo.len() == 0 {
        assert(active.union(made(todo, outcomes)) =~= active);
        assert(todo =~= seq![]);
        assert(steps(at, ran(outcomes)).drop_last() =~= creations(todo));
    } else {
        let rest = todo.drop_first();
        let after = match link_created(outcomes[0].0) {
            Ok(()) => active.insert(todo[0]),
            Err(_) => active,
        };
        let events = ran(outcomes);
        let next = at.0.resumed(events[0].0, events[0].1);
        assert(next == state.linking(info, wanted, rest, after));
        assert(events.drop_first() =~= ran(outcomes.drop_first()));
        law_links_are_made(state, info, wanted, rest, after, outcomes.drop_first());
        lemma_made_first(todo, outcomes);
        assert(after.union(made(rest, outcomes.drop_first())) =~= active.union(
            made(todo, outcomes),
        ));
        lemma_played_on(next, events.drop_first(), seq![]);
        assert(steps(at, events).drop_last() =~= creations(todo));
    }
}

/// A row of links is removed one by one, in order. A link that cannot be
/// removed does not keep the others from being removed, and it is kept.
pub proof fn law_links_are_removed(
    state: StateView,
    info: SinkInfoView,
    todo: Seq<RouteView>,
    kept: Set<RouteView>,
    outcomes: Seq<Ended>,
)
    requires
        outcomes.len() == todo.len(),
    ensures
        played(state.unlinking(info, todo, kept), ran(outcomes)) == state.unlinking(
            info,
            seq![],
            kept.union(stuck(todo, outcomes)),
        ),
        steps(state.unlinking(info, todo, kept), ran(outcomes)).drop_last() == removals(todo),
    decreases todo.len(),
{
    let at = state.unlinking(info, todo, kept);
    if todo.len() == 0 {
        assert(kept.union(stuck(todo, outcomes)) =~= kept);
        assert(todo =~= seq![]);
        assert(steps(at, ran(outcomes)).drop_last() =~= removals(todo));
    } else {
        let rest = todo.drop_first();
        let after = match link_removed(outcomes[0].0) {
            Ok(()) => kept,
            Err(_) => kept.insert(todo[0]),
        };
        let events = ran(outcomes);
        let next = at.0.resumed(events[0].0, events[0].1);
        assert(next == state.unlinking(info, rest, after));
        assert(events.drop_first() =~= ran(outcomes.drop_first()));
        law_links_are_removed(state, info, rest, after, outcomes.drop_first());
        lemma_stuck_first(todo, outcomes);
        assert(after.union(stuck(rest, outcomes.drop_first())) =~= kept.union(
            stuck(todo, outcomes),
        ));
        lemma_played_on(next, events.drop_first(), seq![]);
        assert(steps(at, events).drop_last() =~= removals(todo));
    }
}

proof fn lemma_stuck_is_finite(routes: Seq<RouteView>, outcomes: Seq<Ended>)
    ensures
        stuck(routes, outcomes).finite(),
        stuck(routes, outcomes).len() == 0 <==> stuck(routes, outcomes) == Set::<RouteView>::empty(),
{
    vstd::seq_lib::seq_to_set_is_finite(routes);
    assert forall|route: RouteView| #[trigger]
        stuck(routes, outcomes).contains(route) implies routes.to_set().contains(route) by {
        let i = choose|i: int|
            0 <= i < routes.len() && #[trigger] routes[i] == route && link_removed(
                outcomes[i].0,
            ) is Err;
        assert(routes.contains(routes[i]));
    }
    vstd::set_lib::lemma_set_subset_finite(routes.to_set(), stuck(routes, outcomes));
    if stuck(routes, outcomes).len() == 0 {
        stuck(routes, outcomes).lemma_len0_is_empty();
    }
}

proof fn lemma_clearing(
    state: StateView,
    todo: Seq<RouteView>,
    failed: Set<RouteView>,
    disposing: bool,
    outcomes: Seq<Ended>,
)
    requires
        outcomes.len() == todo.len(),
    ensures
        played(state.clearing(todo, failed, disposing), ran(outcomes)) == state.clearing(
            seq![],
            failed.union(stuck(todo, outcomes)),
            disposing,
        ),
        steps(state.clearing(todo, failed, disposing), ran(outcomes)).drop_last() == removals(todo),
    decreases todo.len(),
{
    let at = state.clearing(todo, failed, disposing);
    if todo.len() == 0 {
        assert(failed.union(stuck(todo, outcomes)) =~= failed);
        assert(todo =~= seq![]);
        assert(steps(at, ran(outcomes)).drop_last() =~= removals(todo));
    } else {
        let rest = todo.drop_first();
        let after = match link_removed(outcomes[0].0) {
            Ok(()) => failed,
            Err(_) => failed.insert(todo[0]),
        };
        let events = ran(outcomes);
        let next = at.0.resumed(events[0].0, events[0].1);
        assert(next == state.clearing(rest, after, disposing));
        assert(events.drop_first() =~= ran(outcomes.drop_first()));
        lemma_clearing(state, rest, after, disposing, outcomes.drop_first());
        lemma_stuck_first(todo, outcomes);
        assert(after.union(stuck(rest, outcomes.drop_first())) =~= failed.union(
            stuck(todo, outcomes),
        ));
        lemma_played_on(next, events.drop_first(), seq![]);
        assert(steps(at, events).drop_last() =~= removals(todo));
    }
}

/// Clearing removes each route of the session, in order, and nothing else. The
/// routes that could not be removed stay with the session and are counted in
/// the answer; the virtual devices stay as they are.
pub proof fn law_clearing(state: StateView, outcomes: Seq<Ended>)
    requires
        state.routes.finite(),
        outcomes.len() == in_order(state.routes).len(),
    ensures
        in_order(state.routes).to_set() == state.routes,
        steps(state.clear_begun(false), ran(outcomes)).drop_last() == removals(
            in_order(state.routes),
        ),
        played(state.clear_begun(false), ran(outcomes)) == (StateView {
            routes: stuck(in_order(state.routes), outcomes),
            ..state
        }).answered(
            ReplyView::Unit(
                if stuck(in_order(state.routes), outcomes) == Set::<RouteView>::empty() {
                    Ok(())
                } else {
                    Err(leftover_error(stuck(in_order(state.routes), outcomes).len()))
                },
            ),
        ),
{
    let todo = in_order(state.routes);
    let left = stuck(todo, outcomes);
    lemma_in_order_of_finite(state.routes);
    lemma_clearing(
        StateView { routes: Set::empty(), ..state },
        todo,
        Set::empty(),
        false,
        outcomes,
    );
    assert(Set::<RouteView>::empty().union(left) =~= left);
    lemma_stuck_is_finite(todo, outcomes);
}

/// What could not be removed the last time is what the next clearing removes.
pub proof fn law_leftovers_are_retried(state: StateView, outcomes: Seq<Ended>, retried: Seq<Ended>)
    requires
        state.routes.finite(),
        outcomes.len() == in_order(state.routes).len(),
        retried.len() == in_order(stuck(in_order(state.routes), outcomes)).len(),
    ensures
        steps(
            played(state.clear_begun(false), ran(outcomes)).0.clear_begun(false),
            ran(retried),
        ).drop_last() == removals(in_order(stuck(in_order(state.routes), outcomes))),
{
    law_clearing(state, outcomes);
    lemma_stuck_is_finite(in_order(state.routes), outcomes);
    law_clearing(played(state.clear_begun(false), ran(outcomes)).0, retried);
}

/// A session without routes has nothing to clear.
pub proof fn law_nothing_to_clear(state: StateView)
    requires
        state.routes == Set::<RouteView>::empty(),
    ensures
        state.clear_begun(false) == state.answered(ReplyView::Unit(Ok(()))),
{
    lemma_in_order_of_empty();
}

proof fn lemma_in_order_of_empty()
    ensures
        in_order(Set::<RouteView>::empty()) == Seq::<RouteView>::empty(),
{
    let none = Seq::<RouteView>::empty();
    assert(none.to_set() =~= Set::<RouteView>::empty());
    assert(ascending(none));
    lemma_in_order(none);
}

/// The end of the command that takes a module away, where there is one.
pub open spec fn unloaded(module: Option<u32>, ended: Ended) -> Seq<Ended> {
    match module {
        Some(_) => seq![ended],
        None => seq![],
    }
}

/// The step that takes a module away, where there is one.
pub open spec fn unloads(module: Option<u32>) -> Seq<StepView> {
    match module {
        Some(id) => seq![StepView::Act(ActionView::Run(unload_view(id)))],
        None => seq![],
    }
}

/// The module that is left after an attempt to take it away.
pub open spec fn left_module(module: Option<u32>, ended: Ended) -> Option<u32> {
    match ended.0 {
        Ok(_) => None,
        Err(_) => module,
    }
}

/// What an attempt to take a module away adds to the complaints.
pub open spec fn complaints(module: Option<u32>, head: Seq<char>, ended: Ended) -> Seq<Seq<char>> {
    match (module, ended.0) {
        (Some(id), Err(error)) => seq![unload_complaint(head, id, error)],
        _ => seq![],
    }
}

/// What leftover routes add to the complaints.
pub open spec fn leftover_complaints(left: Set<RouteView>) -> Seq<Seq<char>> {
    if left == Set::<RouteView>::empty() {
        seq![]
    } else {
        seq![error_text(leftover_error(left.len()))]
    }
}

/// The replaced modules that could be taken away.
pub open spec fn gone(ids: Seq<u32>, outcomes: Seq<Ended>) -> Set<u32> {
    Set::new(
        |id: u32|
            exists|i: int|
                0 <= i < ids.len() && #[trigger] ids[i] == id && outcomes[i].0 is Ok,
    )
}

/// Whether an id is none of some others.
pub open spec fn none_of(others: Set<u32>) -> spec_fn(u32) -> bool {
    |id: u32| !others.contains(id)
}

/// The replaced modules that are left after attempts to take them away.
pub open spec fn left_replaced(ids: Seq<u32>, outcomes: Seq<Ended>) -> Seq<u32> {
    ids.filter(none_of(gone(ids, outcomes)))
}

/// What attempts to take replaced modules away add to the complaints.
pub open spec fn replaced_complaints(ids: Seq<u32>, outcomes: Seq<Ended>) -> Seq<Seq<char>>
    decreases ids.len(),
{
    if ids.len() == 0 {
        seq![]
    } else {
        complaints(Some(ids[0]), "failed to unload replaced module "@, outcomes[0])
            + replaced_complaints(ids.drop_first(), outcomes.drop_first())
    }
}

/// The steps that take replaced modules away.
pub open spec fn replaced_unloads(ids: Seq<u32>) -> Seq<StepView> {
    ids.map_values(|id: u32| StepView::Act(ActionView::Run(unload_view(id))))
}

/// How the commands of a disposal end.
pub struct Disposal {
    pub routes: Seq<Ended>,
    pub mic: Ended,
    pub sink: Ended,
    pub replaced: Seq<Ended>,
}

/// Whether a disposal has an end for each command that the session needs.
pub open spec fn covers(disposal: Disposal, state: StateView) -> bool {
    &&& disposal.routes.len() == in_order(state.routes).len()
    &&& disposal.replaced.len() == state.replaced.len()
}

/// The events of a disposal.
pub open spec fn disposal_events(state: StateView, disposal: Disposal) -> Seq<(EventView, u64)> {
    ran(disposal.routes) + ran(unloaded(state.mic_module_id, disposal.mic)) + ran(
        unloaded(state.module_id, disposal.sink),
    ) + ran(disposal.replaced)
}

/// The steps of a disposal before its answer.
pub open spec fn disposal_steps(state: StateView) -> Seq<StepView> {
    removals(in_order(state.routes)) + unloads(state.mic_module_id) + unloads(state.module_id)
        + replaced_unloads(state.replaced)
}

/// What a disposal complains of.
pub open spec fn disposal_complaints(state: StateView, disposal: Disposal) -> Seq<Seq<char>> {
    leftover_complaints(stuck(in_order(state.routes), disposal.routes)) + complaints(
        state.mic_module_id,
        "failed to unload virtual microphone module "@,
        disposal.mic,
    ) + complaints(state.module_id, "failed to unload virtual sink module "@, disposal.sink)
        + replaced_complaints(state.replaced, disposal.replaced)
}

/// The session after it was disposed of.
pub open spec fn after_disposal(state: StateView, disposal: Disposal) -> StateView {
    StateView {
        routes: stuck(in_order(state.routes), disposal.routes),
        mic_module_id: left_module(state.mic_module_id, disposal.mic),
        module_id: left_module(state.module_id, disposal.sink),
        replaced: left_replaced(state.replaced, disposal.replaced),
        ..state
    }
}

/// Disposing removes each route, then the microphone, then the sink, then the
/// modules that these replaced, as far as they are there, and goes through to
/// the end whatever fails. What failed stays with the session, and the answer
/// tells all of it.
pub proof fn law_disposing(state: StateView, disposal: Disposal)
    requires
        state.routes.finite(),
        covers(disposal, state),
    ensures
        steps(state.clear_begun(true), disposal_events(state, disposal)).drop_last()
            == disposal_steps(state),
        played(state.clear_begun(true), disposal_events(state, disposal)) == after_disposal(
            state,
            disposal,
        ).answered(ReplyView::Unit(summed_up(disposal_complaints(state, disposal)))),
{
    let todo = in_order(state.routes);
    let left = stuck(todo, disposal.routes);
    let start = state.clear_begun(true);
    let first = ran(disposal.routes);
    let second = ran(unloaded(state.mic_module_id, disposal.mic));
    let third = ran(unloaded(state.module_id, disposal.sink));
    let fourth = ran(disposal.replaced);
    lemma_in_order_of_finite(state.routes);
    lemma_clearing(
        StateView { routes: Set::empty(), ..state },
        todo,
        Set::empty(),
        true,
        disposal.routes,
    );
    assert(Set::<RouteView>::empty().union(left) =~= left);
    lemma_stuck_is_finite(todo, disposal.routes);
    let errors = leftover_complaints(left);
    let cleared = StateView { routes: left, ..state };
    assert(played(start, first) == cleared.unloading_mic(errors));
    lemma_played_on(start, first, second);
    let more = errors + complaints(
        state.mic_module_id,
        "failed to unload virtual microphone module "@,
        disposal.mic,
    );
    let without_mic = StateView {
        mic_module_id: left_module(state.mic_module_id, disposal.mic),
        ..cleared
    };
    lemma_unloading_mic(cleared, errors, disposal.mic);
    assert(played(start, first + second) == without_mic.unloading_sink(more));
    lemma_played_on(start, first + second, third);
    lemma_unloading_sink(without_mic, more, disposal.sink);
    let most = more + complaints(
        state.module_id,
        "failed to unload virtual sink module "@,
        disposal.sink,
    );
    let without_sink = StateView {
        module_id: left_module(state.module_id, disposal.sink),
        ..without_mic
    };
    assert(played(start, first + second + third) == without_sink.unloading_replaced(
        state.replaced,
        most,
    ));
    lemma_played_on(start, first + second + third, fourth);
    lemma_unloading_replaced(without_sink, state.replaced, most, disposal.replaced);
    assert(steps(start, first + second).drop_last() =~= removals(todo) + unloads(
        state.mic_module_id,
    ));
    assert(steps(start, first + second + third).drop_last() =~= removals(todo) + unloads(
        state.mic_module_id,
    ) + unloads(state.module_id));
    assert(steps(start, first + second + third + fourth).drop_last() =~= disposal_steps(state));
}

proof fn lemma_gone_first(ids: Seq<u32>, outcomes: Seq<Ended>)
    requires
        ids.len() > 0,
        ids.len() == outcomes.len(),
    ensures
        gone(ids, outcomes) == if outcomes[0].0 is Ok {
            gone(ids.drop_first(), outcomes.drop_first()).insert(ids[0])
        } else {
            gone(ids.drop_first(), outcomes.drop_first())
        },
{
    let rest = gone(ids.drop_first(), outcomes.drop_first());
    let expected = if outcomes[0].0 is Ok {
        rest.insert(ids[0])
    } else {
        rest
    };
    assert forall|id: u32| gone(ids, outcomes).contains(id) <==> expected.contains(id) by {
        if gone(ids, outcomes).contains(id) {
            let i = choose|i: int|
                0 <= i < ids.len() && #[trigger] ids[i] == id && outcomes[i].0 is Ok;
            if i > 0 {
                assert(ids.drop_first()[i - 1] == id);
            }
        }
        if rest.contains(id) {
            let i = choose|i: int|
                0 <= i < ids.drop_first().len() && #[trigger] ids.drop_first()[i] == id
                    && outcomes.drop_first()[i].0 is Ok;
            assert(ids[i + 1] == id);
        }
        if outcomes[0].0 is Ok && id == ids[0] {
            assert(ids[0] == id);
        }
    }
    assert(gone(ids, outcomes) =~= expected);
}

/// To leave out one id and then some others is to leave out all of them.
proof fn lemma_left_out_together(ids: Seq<u32>, id: u32, others: Set<u32>)
    ensures
        without(ids, id).filter(none_of(others)) == ids.filter(none_of(others.insert(id))),
    decreases ids.len(),
{
    if ids.len() == 0 {
        reveal(Seq::filter);
        assert(without(ids, id) =~= seq![]);
        assert(ids.filter(none_of(others.insert(id))) =~= seq![]);
        assert(without(ids, id).filter(none_of(others)) =~= seq![]);
    } else {
        let front = ids.drop_last();
        let last = ids.last();
        lemma_left_out_together(front, id, others);
        assert(front.push(last) =~= ids);
        front.lemma_filter_push(last, other_than(id));
        front.lemma_filter_push(last, none_of(others.insert(id)));
        without(front, id).lemma_filter_push(last, none_of(others));
    }
}

proof fn lemma_nothing_left_out(ids: Seq<u32>)
    ensures
        ids.filter(none_of(Set::empty())) == ids,
    decreases ids.len(),
{
    if ids.len() == 0 {
        reveal(Seq::filter);
        assert(ids.filter(none_of(Set::empty())) =~= ids);
    } else {
        lemma_nothing_left_out(ids.drop_last());
        assert(ids.drop_last().push(ids.last()) =~= ids);
        ids.drop_last().lemma_filter_push(ids.last(), none_of(Set::empty()));
    }
}

proof fn lemma_unloading_replaced(
    state: StateView,
    left: Seq<u32>,
    errors: Seq<Seq<char>>,
    outcomes: Seq<Ended>,
)
    requires
        outcomes.len() == left.len(),
    ensures
        played(state.unloading_replaced(left, errors), ran(outcomes)) == (StateView {
            replaced: state.replaced.filter(none_of(gone(left, outcomes))),
            ..state
        }).answered(
            ReplyView::Unit(summed_up(errors + replaced_complaints(left, outcomes))),
        ),
        steps(state.unloading_replaced(left, errors), ran(outcomes)).drop_last()
            == replaced_unloads(left),
    decreases left.len(),
{
    let at = state.unloading_replaced(left, errors);
    let events = ran(outcomes);
    if left.len() == 0 {
        assert(gone(left, outcomes) =~= Set::empty());
        lemma_nothing_left_out(state.replaced);
        assert(errors + replaced_complaints(left, outcomes) =~= errors);
        assert(steps(at, events).drop_last() =~= replaced_unloads(left));
    } else {
        let rest = left.drop_first();
        let later_outcomes = outcomes.drop_first();
        let added = complaints(
            Some(left[0]),
            "failed to unload replaced module "@,
            outcomes[0],
        );
        let after = if outcomes[0].0 is Ok {
            StateView { replaced: without(state.replaced, left[0]), ..state }
        } else {
            state
        };
        let next = at.0.resumed(events[0].0, events[0].1);
        match outcomes[0].0 {
            Ok(_) => {
                assert(errors + added =~= errors);
            },
            Err(error) => {
                assert(errors + added =~= errors.push(added[0]));
            },
        }
        assert(next == after.unloading_replaced(rest, errors + added));
        assert(events.drop_first() =~= ran(later_outcomes));
        lemma_unloading_replaced(after, rest, errors + added, later_outcomes);
        lemma_gone_first(left, outcomes);
        if outcomes[0].0 is Ok {
            lemma_left_out_together(state.replaced, left[0], gone(rest, later_outcomes));
        }
        assert(errors + added + replaced_complaints(rest, later_outcomes) =~= errors
            + replaced_complaints(left, outcomes));
        lemma_played_on(next, events.drop_first(), seq![]);
        assert(steps(at, events).drop_last() =~= replaced_unloads(left));
    }
}

/// Where there is nothing to complain of, every replaced module is gone.
proof fn lemma_no_complaint_no_module(ids: Seq<u32>, outcomes: Seq<Ended>)
    requires
        ids.len() == outcomes.len(),
        replaced_complaints(ids, outcomes).len() == 0,
    ensures
        forall|i: int| 0 <= i < ids.len() ==> (#[trigger] outcomes[i]).0 is Ok,
        left_replaced(ids, outcomes) == Seq::<u32>::empty(),
    decreases ids.len(),
{
    if ids.len() > 0 {
        let rest = outcomes.drop_first();
        lemma_no_complaint_no_module(ids.drop_first(), rest);
        assert forall|i: int| 0 <= i < ids.len() implies (#[trigger] outcomes[i]).0 is Ok by {
            if i > 0 {
                assert(rest[i - 1] == outcomes[i]);
            }
        }
    }
    let left = left_replaced(ids, outcomes);
    if left.len() > 0 {
        broadcast use {Seq::lemma_filter_contains_rev, Seq::lemma_filter_contains};

        assert(ids.filter(none_of(gone(ids, outcomes))).contains(left[0]));
        assert(none_of(gone(ids, outcomes))(left[0]));
        assert(ids.contains(left[0]));
        let i = choose|i: int| 0 <= i < ids.len() && ids[i] == left[0];
        assert(outcomes[i].0 is Ok);
    }
    assert(left =~= seq![]);
}

proof fn lemma_unloading_mic(state: StateView, errors: Seq<Seq<char>>, mic: Ended)
    ensures
        played(state.unloading_mic(errors), ran(unloaded(state.mic_module_id, mic))) == (StateView {
            mic_module_id: left_module(state.mic_module_id, mic),
            ..state
        }).unloading_sink(
            errors + complaints(
                state.mic_module_id,
                "failed to unload virtual microphone module "@,
                mic,
            ),
        ),
        steps(
            state.unloading_mic(errors),
            ran(unloaded(state.mic_module_id, mic)),
        ).drop_last() == unloads(state.mic_module_id),
{
    let at = state.unloading_mic(errors);
    let events = ran(unloaded(state.mic_module_id, mic));
    reveal_with_fuel(played, 2);
    reveal_with_fuel(steps, 2);
    let added = complaints(
        state.mic_module_id,
        "failed to unload virtual microphone module "@,
        mic,
    );
    match state.mic_module_id {
        Some(id) => {
            assert(events.drop_first() =~= seq![]);
            match mic.0 {
                Ok(_) => {
                    assert(errors + added =~= errors);
                },
                Err(error) => {
                    assert(errors + added =~= errors.push(added[0]));
                },
            }
            assert(steps(at, events).drop_last() =~= unloads(state.mic_module_id));
        },
        None => {
            assert(errors + added =~= errors);
            assert(steps(at, events).drop_last() =~= seq![]);
            assert(left_module(state.mic_module_id, mic) == state.mic_module_id);
        },
    }
}

proof fn lemma_unloading_sink(state: StateView, errors: Seq<Seq<char>>, sink: Ended)
    ensures
        played(state.unloading_sink(errors), ran(unloaded(state.module_id, sink))) == (StateView {
            module_id: left_module(state.module_id, sink),
            ..state
        }).unloading_replaced(
            state.replaced,
            errors + complaints(
                state.module_id,
                "failed to unload virtual sink module "@,
                sink,
            ),
        ),
        steps(state.unloading_sink(errors), ran(unloaded(state.module_id, sink))).drop_last()
            == unloads(state.module_id),
{
    let at = state.unloading_sink(errors);
    let events = ran(unloaded(state.module_id, sink));
    reveal_with_fuel(played, 2);
    reveal_with_fuel(steps, 2);
    let added = complaints(state.module_id, "failed to unload virtual sink module "@, sink);
    match state.module_id {
        Some(id) => {
            assert(events.drop_first() =~= seq![]);
            match sink.0 {
                Ok(_) => {
                    assert(errors + added =~= errors);
                },
                Err(error) => {
                    assert(errors + added =~= errors.push(added[0]));
                },
            }
            assert(steps(at, events).drop_last() =~= unloads(state.module_id));
        },
        None => {
            assert(errors + added =~= errors);
            assert(steps(at, events).drop_last() =~= seq![]);
            assert(left_module(state.module_id, sink) == state.module_id);
        },
    }
}

/// Where disposing is answered without an error, the session holds no route and
/// no module any more.
pub proof fn law_disposed_session_holds_nothing(state: StateView, disposal: Disposal)
    requires
        state.routes.finite(),
        covers(disposal, state),
        played(state.clear_begun(true), disposal_events(state, disposal)).1 == StepView::Done(
            ReplyView::Unit(Ok(())),
        ),
    ensures
        played(state.clear_begun(true), disposal_events(state, disposal)).0.routes == Set::<
            RouteView,
        >::empty(),
        held(played(state.clear_begun(true), disposal_events(state, disposal)).0) == Set::<
            u32,
        >::empty(),
{
    law_disposing(state, disposal);
    assert(disposal_complaints(state, disposal).len() == 0);
    lemma_no_complaint_no_module(state.replaced, disposal.replaced);
    assert(held(after_disposal(state, disposal)) =~= Set::empty());
}

/// A session that holds no route and no module is disposed of without any
/// action.
pub proof fn law_disposing_again_does_nothing(state: StateView)
    requires
        state.routes == Set::<RouteView>::empty(),
        held(state) == Set::<u32>::empty(),
    ensures
        state.clear_begun(true) == state.answered(ReplyView::Unit(Ok(()))),
{
    lemma_in_order_of_empty();
    if let Some(id) = state.mic_module_id {
        assert(held(state).contains(id));
    }
    if let Some(id) = state.module_id {
        assert(held(state).contains(id));
    }
    if state.replaced.len() > 0 {
        assert(state.replaced.contains(state.replaced[0]));
        assert(held(state).contains(state.replaced[0]));
    }
}

/// The modules that a session holds.
pub open spec fn held(state: StateView) -> Set<u32> {
    Set::new(
        |id: u32|
            state.module_id == Some(id) || state.mic_module_id == Some(id)
                || state.replaced.contains(id),
    )
}

/// The modules that stand after an event, where `standing` stood before it: one
/// that was loaded is added, and one that was taken away is gone.
pub open spec fn standing_after(
    state: StateView,
    event: EventView,
    standing: Set<u32>,
) -> Set<u32> {
    match (state.phase, event) {
        (PhaseView::LoadingSink { .. }, EventView::Ran(Ok(text))) => match module_id_of(text) {
            Ok(id) => standing.insert(id),
            Err(_) => standing,
        },
        (PhaseView::LoadingMic { .. }, EventView::Ran(Ok(text))) => match module_id_of(text) {
            Ok(id) => standing.insert(id),
            Err(_) => standing,
        },
        (PhaseView::UnloadingMic { id, .. }, EventView::Ran(Ok(_))) => standing.remove(id),
        (PhaseView::UnloadingSink { id, .. }, EventView::Ran(Ok(_))) => standing.remove(id),
        (PhaseView::UnloadingReplaced { left, .. }, EventView::Ran(Ok(_))) => standing.remove(
            left[0],
        ),
        _ => standing,
    }
}

/// The modules that stand after a row of events.
pub open spec fn standing(
    at: (StateView, StepView),
    events: Seq<(EventView, u64)>,
    before: Set<u32>,
) -> Set<u32>
    decreases events.len(),
{
    if events.len() == 0 {
        before
    } else {
        standing(
            at.0.resumed(events[0].0, events[0].1),
            events.drop_first(),
            standing_after(at.0, events[0].0, before),
        )
    }
}

/// Whether the module that is being taken away is the one that the session has
/// in that place.
pub open spec fn unloads_its_own(state: StateView) -> bool {
    match state.phase {
        PhaseView::UnloadingMic { id, .. } => state.mic_module_id == Some(id),
        PhaseView::UnloadingSink { id, .. } => state.module_id == Some(id),
        _ => true,
    }
}

proof fn lemma_without(ids: Seq<u32>, id: u32, other: u32)
    ensures
        without(ids, id).contains(other) <==> ids.contains(other) && other != id,
{
    broadcast use {Seq::lemma_filter_contains_rev, Seq::lemma_filter_contains};

    if without(ids, id).contains(other) {
        assert(ids.filter(other_than(id)).contains(other));
        assert(other_than(id)(other));
    }
    if ids.contains(other) && other != id {
        let i = choose|i: int| 0 <= i < ids.len() && ids[i] == other;
        assert(other_than(id)(ids[i]));
    }
}

proof fn lemma_replaced_by(ids: Seq<u32>, former: Option<u32>, loaded: u32, other: u32)
    ensures
        replaced_by(ids, former, loaded).contains(other) <==> other != loaded && (ids.contains(
            other,
        ) || former == Some(other)),
{
    lemma_without(ids, loaded, other);
    let others = without(ids, loaded);
    if let Some(id) = former {
        if id != loaded && !others.contains(id) {
            vstd::seq_lib::lemma_seq_contains_after_push(others, id, other);
        }
    }
}

proof fn lemma_one_step_holds(
    state: StateView,
    event: EventView,
    now: u64,
    before: Set<u32>,
)
    requires
        before.subset_of(held(state)),
        unloads_its_own(state),
    ensures
        standing_after(state, event, before).subset_of(held(state.resumed(event, now).0)),
        unloads_its_own(state.resumed(event, now).0),
{
    let after = state.resumed(event, now).0;
    assert forall|other: u32| #[trigger]
        standing_after(state, event, before).contains(other) implies held(after).contains(
        other,
    ) by {
        assert(before.contains(other) ==> held(state).contains(other));
        lemma_module_of_step(state, event, now, other);
    }
}

/// A module that the session held, or that was loaded, is held after the event
/// unless it was taken away.
proof fn lemma_module_of_step(state: StateView, event: EventView, now: u64, other: u32)
    requires
        unloads_its_own(state),
    ensures
        standing_after(state, event, held(state)).contains(other) ==> held(
            state.resumed(event, now).0,
        ).contains(other),
{
    match (state.phase, event) {
        (PhaseView::LoadingSink { .. }, EventView::Ran(Ok(text))) => {
            if let Ok(id) = module_id_of(text) {
                lemma_replaced_by(state.replaced, state.module_id, id, other);
            }
        },
        (PhaseView::LoadingMic { .. }, EventView::Ran(Ok(text))) => {
            if let Ok(id) = module_id_of(text) {
                lemma_replaced_by(state.replaced, state.mic_module_id, id, other);
            }
        },
        (PhaseView::UnloadingReplaced { left, .. }, EventView::Ran(Ok(_))) => {
            lemma_without(state.replaced, left[0], other);
        },
        _ => {},
    }
}

/// No module is forgotten: where the session held all modules that stood, it
/// holds, after whatever events, all modules that stand, whether they stood
/// before or were loaded on the way.
pub proof fn law_no_module_is_forgotten(
    at: (StateView, StepView),
    events: Seq<(EventView, u64)>,
    before: Set<u32>,
)
    requires
        before.subset_of(held(at.0)),
        unloads_its_own(at.0),
    ensures
        standing(at, events, before).subset_of(held(played(at, events).0)),
        unloads_its_own(played(at, events).0),
    decreases events.len(),
{
    if events.len() > 0 {
        lemma_one_step_holds(at.0, events[0].0, events[0].1, before);
        law_no_module_is_forgotten(
            at.0.resumed(events[0].0, events[0].1),
            events.drop_first(),
            standing_after(at.0, events[0].0, before),
        );
    }
}

/// To start an operation neither loads nor forgets a module.
pub proof fn law_starting_keeps_the_modules(
    state: StateView,
    include_devices: bool,
    goal: GoalView,
    ids: Seq<u32>,
    disposing: bool,
)
    requires
        state.phase is Idle,
    ensures
        held(state.list_begun(include_devices).0) == held(state),
        held(state.sink_begun(goal).0) == held(state),
        held(state.route_begun(ids).0) == held(state),
        held(state.clear_begun(disposing).0) == held(state),
        unloads_its_own(state.list_begun(include_devices).0),
        unloads_its_own(state.sink_begun(goal).0),
        unloads_its_own(state.route_begun(ids).0),
        unloads_its_own(state.clear_begun(disposing).0),
{
    let cleared = state.clear_begun(disposing).0;
    assert(cleared.module_id == state.module_id);
    assert(cleared.mic_module_id == state.mic_module_id);
    assert(cleared.replaced == state.replaced);
    assert(held(cleared) =~= held(state));
    assert(held(state.list_begun(include_devices).0) =~= held(state));
    assert(held(state.sink_begun(goal).0) =~= held(state));
    assert(held(state.route_begun(ids).0) =~= held(state));
}

/// A new session holds no module.
pub proof fn law_new_session_holds_no_module(
    config: ConfigView,
    process_id: u32,
    unique: u64,
    available: bool,
)
    ensures
        held(initial(config, process_id, unique, available)) == Set::<u32>::empty(),
{
    assert(held(initial(config, process_id, unique, available)) =~= Set::empty());
}

/// Where disposing is answered without an error, none of the modules that the
/// session held stands any more.
pub proof fn law_disposed_session_leaves_no_module(
    state: StateView,
    disposal: Disposal,
    before: Set<u32>,
)
    requires
        state.phase is Idle,
        state.routes.finite(),
        covers(disposal, state),
        before.subset_of(held(state)),
        played(state.clear_begun(true), disposal_events(state, disposal)).1 == StepView::Done(
            ReplyView::Unit(Ok(())),
        ),
    ensures
        standing(state.clear_begun(true), disposal_events(state, disposal), before) == Set::<
            u32,
        >::empty(),
{
    let start = state.clear_begun(true);
    let events = disposal_events(state, disposal);
    law_starting_keeps_the_modules(state, true, GoalView::Sink, seq![], true);
    law_no_module_is_forgotten(start, events, before);
    law_disposed_session_holds_nothing(state, disposal);
    assert(standing(start, events, before) =~= Set::empty());
}

/// The links that are to be made, in order.
pub open spec fn fresh_links(state: StateView, wanted: Set<RouteView>) -> Seq<RouteView> {
    in_order(wanted.difference(state.routes))
}

/// The links that nobody wants any more, in order.
pub open spec fn stale_links(state: StateView, wanted: Set<RouteView>) -> Seq<RouteView> {
    in_order(state.routes.difference(wanted))
}

/// The wanted routes that are there after the new links were made.
pub open spec fn linked(state: StateView, wanted: Set<RouteView>, links: Seq<Ended>) -> Set<
    RouteView,
> {
    state.routes.intersect(wanted).union(made(fresh_links(state, wanted), links))
}

/// The new links are the wanted ones that are not there, and the stale links
/// are those that are there and not wanted.
pub proof fn law_links_to_change(state: StateView, wanted: Set<RouteView>)
    requires
        state.routes.finite(),
        wanted.finite(),
    ensures
        fresh_links(state, wanted).to_set() == wanted.difference(state.routes),
        stale_links(state, wanted).to_set() == state.routes.difference(wanted),
        fresh_links(state, wanted).no_duplicates(),
        stale_links(state, wanted).no_duplicates(),
{
    vstd::set_lib::lemma_set_subset_finite(wanted, wanted.difference(state.routes));
    vstd::set_lib::lemma_set_subset_finite(state.routes, state.routes.difference(wanted));
    lemma_in_order_of_finite(wanted.difference(state.routes));
    lemma_in_order_of_finite(state.routes.difference(wanted));
    crate::routes::lemma_ascending_no_duplicates(fresh_links(state, wanted));
    crate::routes::lemma_ascending_no_duplicates(stale_links(state, wanted));
}

/// Once it is known which routes are wanted, those that are missing are made and
/// then those that are stale are removed. Afterwards the session has the wanted
/// routes, but for those that could not be made, and the stale ones that could
/// not be removed.
pub proof fn law_routing(
    state: StateView,
    info: SinkInfoView,
    wanted: Set<RouteView>,
    links: Seq<Ended>,
    unlinks: Seq<Ended>,
)
    requires
        links.len() == fresh_links(state, wanted).len(),
        unlinks.len() == stale_links(state, wanted).len(),
        linked(state, wanted, links) != Set::<RouteView>::empty(),
    ensures
        steps(state.routes_planned(info, wanted), ran(links) + ran(unlinks)).drop_last()
            == creations(fresh_links(state, wanted)) + removals(stale_links(state, wanted)),
        played(state.routes_planned(info, wanted), ran(links) + ran(unlinks)) == (StateView {
            routes: linked(state, wanted, links).union(
                stuck(stale_links(state, wanted), unlinks),
            ),
            ..state
        }).answered(ReplyView::Sink(Ok(info))),
{
    let start = state.routes_planned(info, wanted);
    let fresh = fresh_links(state, wanted);
    let stale = stale_links(state, wanted);
    let active = linked(state, wanted, links);
    law_links_are_made(state, info, wanted, fresh, state.routes.intersect(wanted), links);
    assert(played(start, ran(links)) == state.unlinking(info, stale, active));
    law_links_are_removed(state, info, stale, active, unlinks);
    lemma_played_on(start, ran(links), ran(unlinks));
    assert(steps(start, ran(links) + ran(unlinks)).drop_last() =~= creations(fresh) + removals(
        stale,
    ));
}

/// Where none of the wanted routes is there in the end, the session keeps the
/// routes that it had, and no link was made.
pub proof fn law_routing_fails(
    state: StateView,
    info: SinkInfoView,
    wanted: Set<RouteView>,
    links: Seq<Ended>,
)
    requires
        links.len() == fresh_links(state, wanted).len(),
        linked(state, wanted, links) == Set::<RouteView>::empty(),
    ensures
        steps(state.routes_planned(info, wanted), ran(links)).drop_last() == creations(
            fresh_links(state, wanted),
        ),
        played(state.routes_planned(info, wanted), ran(links)) == state.answered(
            ReplyView::Sink(
                Err(ErrorView::Message("none of the selected nodes could be linked"@)),
            ),
        ),
        made(fresh_links(state, wanted), links) == Set::<RouteView>::empty(),
{
    let fresh = fresh_links(state, wanted);
    law_links_are_made(state, info, wanted, fresh, state.routes.intersect(wanted), links);
    assert forall|route: RouteView| !(#[trigger] made(fresh, links).contains(route)) by {
        if made(fresh, links).contains(route) {
            assert(linked(state, wanted, links).contains(route));
        }
    }
    assert(made(fresh, links) =~= Set::empty());
}

/// Whether a graph has the microphone, where there is to be one.
pub open spec fn mic_settled(state: StateView, nodes: Seq<NodeView>) -> bool {
    state.mic matches Some(mic) ==> mic_in(nodes, mic.name)
}

/// With the virtual devices in place, routing reads the graph twice, makes the
/// missing links and removes the stale ones.
pub proof fn law_route_nodes(
    state: StateView,
    ids: Seq<u32>,
    seen: (Seq<NodeView>, u64),
    nodes: (Seq<NodeView>, u64),
    node_id: u32,
    wanted: Set<RouteView>,
    links: Seq<Ended>,
    unlinks: Seq<Ended>,
)
    requires
        state.available,
        mic_settled(state, seen.0),
        ids.len() > 0,
        ready_sink(seen.0, state.sink_name, state.sink_description) == Some(node_id),
        planned(nodes.0, state.sink_name, state.sink_description, ids) == Ok::<_, ErrorView>(wanted),
        links.len() == fresh_links(state, wanted).len(),
        unlinks.len() == stale_links(state, wanted).len(),
        linked(state, wanted, links) != Set::<RouteView>::empty(),
    ensures
        steps(
            state.route_begun(ids),
            seq![
                (EventView::Collected(Ok(seen.0)), seen.1),
                (EventView::Collected(Ok(nodes.0)), nodes.1),
            ] + (ran(links) + ran(unlinks)),
        ).drop_last() == seq![
            StepView::Act(ActionView::Collect),
            StepView::Act(ActionView::Collect),
        ] + (creations(fresh_links(state, wanted)) + removals(stale_links(state, wanted))),
        played(
            state.route_begun(ids),
            seq![
                (EventView::Collected(Ok(seen.0)), seen.1),
                (EventView::Collected(Ok(nodes.0)), nodes.1),
            ] + (ran(links) + ran(unlinks)),
        ) == (StateView {
            routes: linked(state, wanted, links).union(
                stuck(stale_links(state, wanted), unlinks),
            ),
            ..state
        }).answered(ReplyView::Sink(Ok(info_view(state.sink_name, state.mic, node_id)))),
{
    let info = info_view(state.sink_name, state.mic, node_id);
    let start = state.route_begun(ids);
    let reads = seq![
        (EventView::Collected(Ok(seen.0)), seen.1),
        (EventView::Collected(Ok(nodes.0)), nodes.1),
    ];
    let rest = ran(links) + ran(unlinks);
    let first = start.0.resumed(reads[0].0, reads[0].1);
    let second = first.0.resumed(reads[1].0, reads[1].1);
    assert(second == state.routes_planned(info, wanted));
    assert(reads.drop_first().drop_first() =~= seq![]);
    reveal_with_fuel(played, 3);
    reveal_with_fuel(steps, 3);
    assert(played(start, reads) == second);
    assert(steps(start, reads) =~= seq![start.1, first.1, second.1]);
    lemma_played_on(start, reads, rest);
    law_routing(state, info, wanted, links, unlinks);
    lemma_played_on(second, rest, seq![]);
    assert(steps(start, reads + rest).drop_last() =~= seq![
        StepView::Act(ActionView::Collect),
        StepView::Act(ActionView::Collect),
    ] + (creations(fresh_links(state, wanted)) + removals(stale_links(state, wanted))));
}

/// Where the wanted routes are the routes of the session, there is nothing to
/// do.
pub proof fn law_same_routes_need_no_commands(
    state: StateView,
    info: SinkInfoView,
    wanted: Set<RouteView>,
)
    requires
        state.routes == wanted,
        wanted != Set::<RouteView>::empty(),
    ensures
        state.routes_planned(info, wanted) == state.answered(ReplyView::Sink(Ok(info))),
{
    lemma_in_order_of_empty();
    assert(wanted.difference(state.routes) =~= Set::empty());
    assert(state.routes.difference(wanted) =~= Set::empty());
    assert(state.routes.intersect(wanted) =~= wanted);
}

/// Where all links can be made and removed, the session ends up with exactly
/// the wanted routes.
pub proof fn law_routing_without_failures(
    state: StateView,
    wanted: Set<RouteView>,
    links: Seq<Ended>,
    unlinks: Seq<Ended>,
)
    requires
        state.routes.finite(),
        wanted.finite(),
        links.len() == fresh_links(state, wanted).len(),
        unlinks.len() == stale_links(state, wanted).len(),
        forall|i: int| 0 <= i < links.len() ==> link_created(#[trigger] links[i].0) is Ok,
        forall|i: int| 0 <= i < unlinks.len() ==> link_removed(#[trigger] unlinks[i].0) is Ok,
    ensures
        linked(state, wanted, links).union(stuck(stale_links(state, wanted), unlinks)) == wanted,
{
    let fresh = fresh_links(state, wanted);
    let stale = stale_links(state, wanted);
    law_links_to_change(state, wanted);
    assert forall|route: RouteView|
        linked(state, wanted, links).union(stuck(stale, unlinks)).contains(route)
            <==> wanted.contains(route) by {
        if made(fresh, links).contains(route) {
            let i = choose|i: int|
                0 <= i < fresh.len() && #[trigger] fresh[i] == route && link_created(
                    links[i].0,
                ) is Ok;
            assert(fresh.to_set().contains(fresh[i]));
        }
        if stuck(stale, unlinks).contains(route) {
            let i = choose|i: int|
                0 <= i < stale.len() && #[trigger] stale[i] == route && link_removed(
                    unlinks[i].0,
                ) is Err;
            assert(link_removed(unlinks[i].0) is Ok);
        }
        if wanted.contains(route) && !state.routes.contains(route) {
            assert(fresh.to_set().contains(route));
            let i = choose|i: int| 0 <= i < fresh.len() && fresh[i] == route;
            assert(link_created(links[i].0) is Ok);
            assert(made(fresh, links).contains(route));
        }
    }
    assert(linked(state, wanted, links).union(stuck(stale, unlinks)) =~= wanted);
}

/// The routes whose links were removed.
pub open spec fn removed(routes: Seq<RouteView>, outcomes: Seq<Ended>) -> Set<RouteView> {
    Set::new(
        |route: RouteView|
            exists|i: int|
                0 <= i < routes.len() && #[trigger] routes[i] == route && link_removed(
                    outcomes[i].0,
                ) is Ok,
    )
}

/// Of links that were each to be removed once, those that were not removed are
/// stuck.
proof fn lemma_stuck_or_removed(routes: Seq<RouteView>, outcomes: Seq<Ended>)
    requires
        routes.no_duplicates(),
    ensures
        stuck(routes, outcomes) == routes.to_set().difference(removed(routes, outcomes)),
{
    assert forall|route: RouteView|
        stuck(routes, outcomes).contains(route) <==> routes.to_set().difference(
            removed(routes, outcomes),
        ).contains(route) by {
        if stuck(routes, outcomes).contains(route) {
            let i = choose|i: int|
                0 <= i < routes.len() && #[trigger] routes[i] == route && link_removed(
                    outcomes[i].0,
                ) is Err;
            assert(routes.to_set().contains(routes[i]));
        }
        if routes.contains(route) && !removed(routes, outcomes).contains(route) {
            let i = choose|i: int| 0 <= i < routes.len() && routes[i] == route;
            assert(routes[i] == route);
        }
    }
    assert(stuck(routes, outcomes) =~= routes.to_set().difference(removed(routes, outcomes)));
}

/// No link is forgotten: after routing, the routes of the session are those
/// that it had and those that were made, without those that were removed.
pub proof fn law_routing_forgets_no_link(
    state: StateView,
    wanted: Set<RouteView>,
    links: Seq<Ended>,
    unlinks: Seq<Ended>,
)
    requires
        state.routes.finite(),
        wanted.finite(),
    ensures
        linked(state, wanted, links).union(stuck(stale_links(state, wanted), unlinks))
            == state.routes.union(made(fresh_links(state, wanted), links)).difference(
            removed(stale_links(state, wanted), unlinks),
        ),
{
    let fresh = fresh_links(state, wanted);
    let stale = stale_links(state, wanted);
    law_links_to_change(state, wanted);
    lemma_stuck_or_removed(stale, unlinks);
    assert forall|route: RouteView| #[trigger]
        removed(stale, unlinks).contains(route) implies stale.to_set().contains(route) by {
        let i = choose|i: int|
            0 <= i < stale.len() && #[trigger] stale[i] == route && link_removed(
                unlinks[i].0,
            ) is Ok;
        assert(stale.contains(stale[i]));
    }
    assert forall|route: RouteView| #[trigger]
        made(fresh, links).contains(route) implies fresh.to_set().contains(route) by {
        let i = choose|i: int|
            0 <= i < fresh.len() && #[trigger] fresh[i] == route && link_created(
                links[i].0,
            ) is Ok;
        assert(fresh.contains(fresh[i]));
    }
    assert forall|route: RouteView|
        linked(state, wanted, links).union(stuck(stale, unlinks)).contains(route)
            <==> state.routes.union(made(fresh, links)).difference(
            removed(stale, unlinks),
        ).contains(route) by {
        assert(stale.to_set().contains(route) <==> state.routes.contains(route)
            && !wanted.contains(route));
        assert(fresh.to_set().contains(route) <==> wanted.contains(route)
            && !state.routes.contains(route));
    }
    assert(linked(state, wanted, links).union(stuck(stale, unlinks)) =~= state.routes.union(
        made(fresh, links),
    ).difference(removed(stale, unlinks)));
}

/// No link is forgotten: after clearing or disposing, the routes of the session
/// are those that it had, without those that were removed.
pub proof fn law_clearing_forgets_no_link(state: StateView, outcomes: Seq<Ended>)
    requires
        state.routes.finite(),
    ensures
        stuck(in_order(state.routes), outcomes) == state.routes.difference(
            removed(in_order(state.routes), outcomes),
        ),
{
    lemma_in_order_of_finite(state.routes);
    crate::routes::lemma_ascending_no_duplicates(in_order(state.routes));
    lemma_stuck_or_removed(in_order(state.routes), outcomes);
}

/// A sink that is ready is used as it is.
pub proof fn law_ready_sink_is_reused(
    state: StateView,
    nodes: Seq<NodeView>,
    node_id: u32,
    now: u64,
)
    requires
        state.available,
        mic_settled(state, nodes),
        ready_sink(nodes, state.sink_name, state.sink_description) == Some(node_id),
    ensures
        state.sink_begun(GoalView::Sink).1 == StepView::Act(ActionView::Collect),
        state.sink_begun(GoalView::Sink).0.resumed(EventView::Collected(Ok(nodes)), now)
            == state.answered(
            ReplyView::Sink(Ok(info_view(state.sink_name, state.mic, node_id))),
        ),
{
}

/// A graph that was read, and when.
pub type Look = (Result<Seq<NodeView>, ErrorView>, u64);

/// Whether a look at the graph does not show the sink ready.
pub open spec fn not_ready(state: StateView, look: Look) -> bool {
    match look.0 {
        Ok(nodes) => ready_sink(nodes, state.sink_name, state.sink_description) is None,
        Err(_) => true,
    }
}

/// A row of looks with a pause after each.
pub open spec fn waited(looks: Seq<Look>) -> Seq<(EventView, u64)>
    decreases looks.len(),
{
    if looks.len() == 0 {
        seq![]
    } else {
        seq![
            (EventView::Collected(looks[0].0), looks[0].1),
            (EventView::Paused, looks[0].1),
        ] + waited(looks.drop_first())
    }
}

/// As long as there is time, the session looks for the new sink again and
/// again, whether the graph lacks it or cannot be read at all.
pub proof fn law_sink_is_waited_for(
    state: StateView,
    goal: GoalView,
    deadline: u64,
    looks: Seq<Look>,
)
    requires
        forall|i: int|
            0 <= i < looks.len() ==> not_ready(state, #[trigger] looks[i]) && looks[i].1 < deadline,
    ensures
        played(
            state.acting(PhaseView::Waiting { goal, deadline }, ActionView::Collect),
            waited(looks),
        ) == state.acting(PhaseView::Waiting { goal, deadline }, ActionView::Collect),
    decreases looks.len(),
{
    let at = state.acting(PhaseView::Waiting { goal, deadline }, ActionView::Collect);
    if looks.len() > 0 {
        let events = waited(looks);
        let rest = looks.drop_first();
        assert forall|i: int| 0 <= i < rest.len() implies not_ready(state, #[trigger] rest[i])
            && rest[i].1 < deadline by {
            assert(rest[i] == looks[i + 1]);
        }
        law_sink_is_waited_for(state, goal, deadline, rest);
        assert(not_ready(state, looks[0]));
        assert(events[0] == (EventView::Collected(looks[0].0), looks[0].1));
        assert(events[1] == (EventView::Paused, looks[0].1));
        assert(events.drop_first()[0] == events[1]);
        assert(events.drop_first().drop_first() =~= waited(rest));
        let pausing = at.0.resumed(events[0].0, events[0].1);
        assert(pausing == state.acting(
            PhaseView::Pausing { goal, deadline },
            ActionView::Pause(SINK_POLL_MS),
        ));
        assert(pausing.0.resumed(events[1].0, events[1].1) == at);
        assert(played(at, events) == played(pausing, events.drop_first()));
        assert(played(pausing, events.drop_first()) == played(at, waited(rest)));
    }
}

/// A missing sink is made, and once it shows up in time the session goes on
/// with it.
pub proof fn law_missing_sink_is_made(
    state: StateView,
    goal: GoalView,
    seen: (Seq<NodeView>, u64),
    module: (Seq<char>, u64),
    module_id: u32,
    looks: Seq<Look>,
    nodes: (Seq<NodeView>, u64),
    node_id: u32,
)
    requires
        state.available,
        ready_sink(seen.0, state.sink_name, state.sink_description) is None,
        module_id_of(module.0) == Ok::<u32, ErrorView>(module_id),
        forall|i: int|
            0 <= i < looks.len() ==> not_ready(state, #[trigger] looks[i]) && looks[i].1 < later(
                module.1,
                SINK_WAIT_MS,
            ),
        ready_sink(nodes.0, state.sink_name, state.sink_description) == Some(node_id),
    ensures
        state.sink_begun(goal).0.resumed(EventView::Collected(Ok(seen.0)), seen.1).1
            == StepView::Act(
            ActionView::Run(load_sink_view(state.sink_name, state.sink_description)),
        ),
        played(
            state.sink_begun(goal),
            seq![
                (EventView::Collected(Ok(seen.0)), seen.1),
                (EventView::Ran(Ok(module.0)), module.1),
            ] + waited(looks) + seq![(EventView::Collected(Ok(nodes.0)), nodes.1)],
        ) == (StateView {
            module_id: Some(module_id),
            replaced: replaced_by(state.replaced, state.module_id, module_id),
            ..state
        }).sink_found(goal, nodes.0, node_id),
{
    let start = state.sink_begun(goal);
    let made = StateView {
        module_id: Some(module_id),
        replaced: replaced_by(state.replaced, state.module_id, module_id),
        ..state
    };
    let deadline = later(module.1, SINK_WAIT_MS);
    let head = seq![
        (EventView::Collected(Ok(seen.0)), seen.1),
        (EventView::Ran(Ok(module.0)), module.1),
    ];
    let tail = seq![(EventView::Collected(Ok(nodes.0)), nodes.1)];
    let waiting = made.acting(PhaseView::Waiting { goal, deadline }, ActionView::Collect);
    assert(head.drop_first().drop_first() =~= seq![]);
    assert(tail.drop_first() =~= seq![]);
    reveal_with_fuel(played, 3);
    assert(played(start, head) == waiting);
    assert forall|i: int| 0 <= i < looks.len() implies not_ready(made, #[trigger] looks[i])
        && looks[i].1 < deadline by {
        assert(not_ready(state, looks[i]));
    }
    law_sink_is_waited_for(made, goal, deadline, looks);
    lemma_played_on(start, head, waited(looks));
    lemma_played_on(start, head + waited(looks), tail);
    assert(played(waiting, tail) == made.sink_found(goal, nodes.0, node_id));
}

/// A new sink that does not show up in time is given up. Its module stays with
/// the session, to be taken away when it is disposed of.
pub proof fn law_waiting_ends(state: StateView, goal: GoalView, deadline: u64, look: Look)
    requires
        state.phase == (PhaseView::Waiting { goal, deadline }),
        not_ready(state, look),
        look.1 >= deadline,
    ensures
        state.resumed(EventView::Collected(look.0), look.1) == state.answered(
            ReplyView::Sink(Err(ErrorView::Timeout("virtual sink"@))),
        ),
{
}

/// The names of a session never change.
pub proof fn law_names_stay(state: StateView, event: EventView, now: u64)
    ensures
        state.resumed(event, now).0.sink_name == state.sink_name,
        state.resumed(event, now).0.sink_description == state.sink_description,
        state.resumed(event, now).0.mic == state.mic,
        state.resumed(event, now).0.available == state.available,
{
}

/// Whether an event is what comes of an action.
pub open spec fn comes_of(event: EventView, action: ActionView) -> bool {
    match action {
        ActionView::Collect => event is Collected,
        ActionView::Run(_) => event is Ran,
        ActionView::Pause(_) => event is Paused,
    }
}

/// Whether the state and the step agree: an operation that is answered is over,
/// and one that acts waits for what comes of the action.
pub open spec fn in_step(at: (StateView, StepView)) -> bool {
    match at.1 {
        StepView::Act(action) => forall|event: EventView|
            comes_of(event, action) ==> #[trigger] at.0.expects(event),
        StepView::Done(_) => at.0.phase is Idle,
    }
}

/// Every operation starts in step.
pub proof fn law_operations_start_in_step(
    state: StateView,
    include_devices: bool,
    goal: GoalView,
    ids: Seq<u32>,
    disposing: bool,
)
    ensures
        in_step(state.list_begun(include_devices)),
        in_step(state.sink_begun(goal)),
        in_step(state.route_begun(ids)),
        in_step(state.clear_begun(disposing)),
{
}

/// Every operation stays in step.
pub proof fn law_operations_stay_in_step(state: StateView, event: EventView, now: u64)
    requires
        state.expects(event),
    ensures
        in_step(state.resumed(event, now)),
{
}

/// Without PipeWire nothing is listed, made or routed.
pub proof fn law_without_pipewire(
    state: StateView,
    include_devices: bool,
    goal: GoalView,
    ids: Seq<u32>,
)
    requires
        !state.available,
    ensures
        state.list_begun(include_devices) == state.answered(
            ReplyView::Nodes(Err(ErrorView::Unsupported)),
        ),
        state.sink_begun(goal) == state.answered(ReplyView::Sink(Err(ErrorView::Unsupported))),
        ids.len() > 0 ==> state.route_begun(ids) == state.answered(
            ReplyView::Sink(Err(ErrorView::Unsupported)),
        ),
{
}

/// Two sessions of one process do not share a sink.
pub proof fn law_sessions_have_their_own_sink(
    config: ConfigView,
    process_id: u32,
    a: u64,
    b: u64,
    available: bool,
)
    requires
        a != b,
    ensures
        initial(config, process_id, a, available).sink_name != initial(
            config,
            process_id,
            b,
            available,
        ).sink_name,
{
    crate::modules::law_names_are_unique(config.sink_prefix, process_id, a, b);
}

/// Whether each event of a row is awaited when it comes.
pub open spec fn orderly(at: (StateView, StepView), events: Seq<(EventView, u64)>) -> bool
    decreases events.len(),
{
    events.len() > 0 ==> at.0.expects(events[0].0) && orderly(
        at.0.resumed(events[0].0, events[0].1),
        events.drop_first(),
    )
}

/// The links that are made on the way through a row of events.
pub open spec fn made_on_the_way(
    at: (StateView, StepView),
    events: Seq<(EventView, u64)>,
) -> Set<RouteView>
    decreases events.len(),
{
    if events.len() == 0 {
        Set::empty()
    } else {
        let rest = made_on_the_way(
            at.0.resumed(events[0].0, events[0].1),
            events.drop_first(),
        );
        match (at.0.phase, events[0].0) {
            (PhaseView::Linking { todo, .. }, EventView::Ran(outcome)) => if link_created(
                outcome,
            ) is Ok {
                rest.insert(todo[0])
            } else {
                rest
            },
            _ => rest,
        }
    }
}

/// The links that are to be removed on the way through a row of events.
pub open spec fn removed_on_the_way(
    at: (StateView, StepView),
    events: Seq<(EventView, u64)>,
) -> Set<RouteView>
    decreases events.len(),
{
    if events.len() == 0 {
        Set::empty()
    } else {
        let rest = removed_on_the_way(
            at.0.resumed(events[0].0, events[0].1),
            events.drop_first(),
        );
        match at.0.phase {
            PhaseView::Unlinking { todo, .. } => rest.insert(todo[0]),
            PhaseView::Clearing { todo, .. } => rest.insert(todo[0]),
            _ => rest,
        }
    }
}

/// Where a run ends with a failure to get the sink or to route nodes, the part
/// of the run that is left neither makes nor removes a link.
proof fn lemma_failed_run(
    at: (StateView, StepView),
    events: Seq<(EventView, u64)>,
    error: ErrorView,
)
    requires
        in_step(at),
        orderly(at, events),
        played(at, events).1 == StepView::Done(ReplyView::Sink(Err(error))),
    ensures
        played(at, events).0.routes == at.0.routes,
        made_on_the_way(at, events) == Set::<RouteView>::empty(),
        removed_on_the_way(at, events) == Set::<RouteView>::empty(),
        at.0.phase matches PhaseView::Linking { active, .. } ==> active
            == Set::<RouteView>::empty(),
        at.0.phase !is Listing,
        at.0.phase !is Unlinking,
        at.0.phase !is Clearing,
        at.0.phase !is UnloadingMic,
        at.0.phase !is UnloadingSink,
        at.0.phase !is UnloadingReplaced,
        at.0.phase is Idle ==> at.1 == StepView::Done(ReplyView::Sink(Err(error))),
    decreases events.len(),
{
    if events.len() > 0 {
        let next = at.0.resumed(events[0].0, events[0].1);
        law_operations_stay_in_step(at.0, events[0].0, events[0].1);
        lemma_failed_run(next, events.drop_first(), error);
        if let PhaseView::Linking { info, wanted, todo, active } = at.0.phase {
            if let EventView::Ran(outcome) = events[0].0 {
                let after = match link_created(outcome) {
                    Ok(()) => active.insert(todo[0]),
                    Err(_) => active,
                };
                assert(next == at.0.linking(info, wanted, todo.drop_first(), after));
                assert(after == Set::<RouteView>::empty());
                assert(link_created(outcome) is Ok ==> after.contains(todo[0]));
            }
        }
    }
}

/// Whatever happens on the way, a request to route nodes that ends in an error
/// leaves the session with the routes that it had, and no link was made or
/// removed for it.
pub proof fn law_failed_routing_changes_no_link(
    state: StateView,
    ids: Seq<u32>,
    events: Seq<(EventView, u64)>,
    error: ErrorView,
)
    requires
        orderly(state.route_begun(ids), events),
        played(state.route_begun(ids), events).1 == StepView::Done(ReplyView::Sink(Err(error))),
    ensures
        played(state.route_begun(ids), events).0.routes == state.routes,
        made_on_the_way(state.route_begun(ids), events) == Set::<RouteView>::empty(),
        removed_on_the_way(state.route_begun(ids), events) == Set::<RouteView>::empty(),
{
    law_operations_start_in_step(state, true, GoalView::Sink, ids, true);
    lemma_failed_run(state.route_begun(ids), events, error);
}

/// A request for the sink that ends in an error leaves the session with the
/// routes that it had, and no link was made or removed for it.
pub proof fn law_failed_sink_changes_no_link(
    state: StateView,
    events: Seq<(EventView, u64)>,
    error: ErrorView,
)
    requires
        orderly(state.sink_begun(GoalView::Sink), events),
        played(state.sink_begun(GoalView::Sink), events).1 == StepView::Done(
            ReplyView::Sink(Err(error)),
        ),
    ensures
        played(state.sink_begun(GoalView::Sink), events).0.routes == state.routes,
        made_on_the_way(state.sink_begun(GoalView::Sink), events) == Set::<RouteView>::empty(),
        removed_on_the_way(state.sink_begun(GoalView::Sink), events) == Set::<RouteView>::empty(),
{
    law_operations_start_in_step(state, true, GoalView::Sink, seq![], true);
    lemma_failed_run(state.sink_begun(GoalView::Sink), events, error);
}

/// Two goals that differ at most in the order and the repetition of the chosen
/// nodes.
pub open spec fn alike_goals(a: GoalView, b: GoalView) -> bool {
    match (a, b) {
        (GoalView::Sink, GoalView::Sink) => true,
        (GoalView::Route(x), GoalView::Route(y)) => x.to_set() == y.to_set(),
        _ => false,
    }
}

/// Two phases that differ at most in the order and the repetition of the chosen
/// nodes.
pub open spec fn alike_phases(a: PhaseView, b: PhaseView) -> bool {
    match (a, b) {
        (PhaseView::Checking { goal: x }, PhaseView::Checking { goal: y }) => alike_goals(x, y),
        (PhaseView::LoadingSink { goal: x }, PhaseView::LoadingSink { goal: y }) => alike_goals(
            x,
            y,
        ),
        (
            PhaseView::Waiting { goal: x, deadline: s },
            PhaseView::Waiting { goal: y, deadline: t },
        ) => alike_goals(x, y) && s == t,
        (
            PhaseView::Pausing { goal: x, deadline: s },
            PhaseView::Pausing { goal: y, deadline: t },
        ) => alike_goals(x, y) && s == t,
        (
            PhaseView::LoadingMic { goal: x, info: s },
            PhaseView::LoadingMic { goal: y, info: t },
        ) => alike_goals(x, y) && s == t,
        (PhaseView::Planning { ids: x, info: s }, PhaseView::Planning { ids: y, info: t }) => {
            x.to_set() == y.to_set() && s == t
        },
        _ => a == b,
    }
}

/// Two states that differ at most in the order and the repetition of the chosen
/// nodes.
pub open spec fn alike(a: StateView, b: StateView) -> bool {
    alike_phases(a.phase, b.phase) && b == (StateView { phase: b.phase, ..a })
}

proof fn lemma_alike_goes_on(a: StateView, b: StateView, event: EventView, now: u64)
    requires
        alike(a, b),
    ensures
        a.expects(event) ==> alike(a.resumed(event, now).0, b.resumed(event, now).0),
        a.expects(event) ==> a.resumed(event, now).1 == b.resumed(event, now).1,
        a.expects(event) == b.expects(event),
{
    if let PhaseView::Planning { ids: x, .. } = a.phase {
        if let PhaseView::Planning { ids: y, .. } = b.phase {
            if let EventView::Collected(Ok(nodes)) = event {
                crate::plan::law_choice_is_a_set(nodes, a.sink_name, a.sink_description, x, y);
            }
        }
    }
}

proof fn lemma_alike_runs(
    a: (StateView, StepView),
    b: (StateView, StepView),
    events: Seq<(EventView, u64)>,
)
    requires
        alike(a.0, b.0),
        a.1 == b.1,
        orderly(a, events),
    ensures
        orderly(b, events),
        steps(a, events) == steps(b, events),
        alike(played(a, events).0, played(b, events).0),
        played(a, events).1 == played(b, events).1,
    decreases events.len(),
{
    if events.len() > 0 {
        lemma_alike_goes_on(a.0, b.0, events[0].0, events[0].1);
        lemma_alike_runs(
            a.0.resumed(events[0].0, events[0].1),
            b.0.resumed(events[0].0, events[0].1),
            events.drop_first(),
        );
    }
}

/// The order of the chosen nodes, and how often each is chosen, do not matter to
/// a request to route them: on the same events it takes the same steps, and it
/// leaves the session the same.
pub proof fn law_order_of_choice_does_not_matter(
    state: StateView,
    a: Seq<u32>,
    b: Seq<u32>,
    events: Seq<(EventView, u64)>,
)
    requires
        a.to_set() == b.to_set(),
        orderly(state.route_begun(a), events),
    ensures
        orderly(state.route_begun(b), events),
        steps(state.route_begun(a), events) == steps(state.route_begun(b), events),
        played(state.route_begun(a), events).0.phase is Idle ==> played(
            state.route_begun(a),
            events,
        ) == played(state.route_begun(b), events),
{
    if a.len() > 0 {
        assert(a.to_set().contains(a[0]));
        assert(b.contains(a[0]));
    }
    if b.len() > 0 {
        assert(b.to_set().contains(b[0]));
        assert(a.contains(b[0]));
    }
    lemma_alike_runs(state.route_begun(a), state.route_begun(b), events);
}

/// Where the session has the routes that a choice of nodes asks for, choosing
/// them reads the graph twice and does nothing else.
pub proof fn law_routed_nodes_need_no_commands(
    state: StateView,
    ids: Seq<u32>,
    seen: (Seq<NodeView>, u64),
    nodes: (Seq<NodeView>, u64),
    node_id: u32,
)
    requires
        state.available,
        mic_settled(state, seen.0),
        ids.len() > 0,
        ready_sink(seen.0, state.sink_name, state.sink_description) == Some(node_id),
        planned(nodes.0, state.sink_name, state.sink_description, ids) == Ok::<_, ErrorView>(
            state.routes,
        ),
    ensures
        steps(state.route_begun(ids), two_looks(seen, nodes)).drop_last() == seq![
            StepView::Act(ActionView::Collect),
            StepView::Act(ActionView::Collect),
        ],
        played(state.route_begun(ids), two_looks(seen, nodes)) == state.answered(
            ReplyView::Sink(Ok(info_view(state.sink_name, state.mic, node_id))),
        ),
{
    let info = info_view(state.sink_name, state.mic, node_id);
    let start = state.route_begun(ids);
    let looks = two_looks(seen, nodes);
    let first = start.0.resumed(looks[0].0, looks[0].1);
    let second = first.0.resumed(looks[1].0, looks[1].1);
    law_same_routes_need_no_commands(state, info, state.routes);
    assert(second == state.routes_planned(info, state.routes));
    assert(looks.drop_first().drop_first() =~= seq![]);
    reveal_with_fuel(played, 3);
    reveal_with_fuel(steps, 3);
    assert(steps(start, looks).drop_last() =~= seq![start.1, first.1]);
}

/// Two graphs that are read one after the other.
pub open spec fn two_looks(first: (Seq<NodeView>, u64), second: (Seq<NodeView>, u64)) -> Seq<
    (EventView, u64),
> {
    seq![
        (EventView::Collected(Ok(first.0)), first.1),
        (EventView::Collected(Ok(second.0)), second.1),
    ]
}

/// Nodes that were routed without a failure are routed a second time, on the
/// same graph, without any command.
pub proof fn law_routing_again_runs_no_commands(
    state: StateView,
    ids: Seq<u32>,
    seen: (Seq<NodeView>, u64),
    nodes: (Seq<NodeView>, u64),
    node_id: u32,
    wanted: Set<RouteView>,
    links: Seq<Ended>,
    unlinks: Seq<Ended>,
)
    requires
        state.available,
        state.routes.finite(),
        mic_settled(state, seen.0),
        ids.len() > 0,
        ready_sink(seen.0, state.sink_name, state.sink_description) == Some(node_id),
        planned(nodes.0, state.sink_name, state.sink_description, ids) == Ok::<_, ErrorView>(wanted),
        links.len() == fresh_links(state, wanted).len(),
        unlinks.len() == stale_links(state, wanted).len(),
        forall|i: int| 0 <= i < links.len() ==> link_created(#[trigger] links[i].0) is Ok,
        forall|i: int| 0 <= i < unlinks.len() ==> link_removed(#[trigger] unlinks[i].0) is Ok,
    ensures
        steps(
            played(
                state.route_begun(ids),
                two_looks(seen, nodes) + (ran(links) + ran(unlinks)),
            ).0.route_begun(ids),
            two_looks(seen, nodes),
        ) == seq![
            StepView::Act(ActionView::Collect),
            StepView::Act(ActionView::Collect),
            StepView::Done(
                ReplyView::Sink(Ok(info_view(state.sink_name, state.mic, node_id))),
            ),
        ],
{
    crate::plan::law_plans_are_finite(
        nodes.0,
        state.sink_name,
        state.sink_description,
        ids,
    );
    law_routing_without_failures(state, wanted, links, unlinks);
    assert(linked(state, wanted, links) != Set::<RouteView>::empty()) by {
        let stale = stale_links(state, wanted);
        assert forall|route: RouteView| !(#[trigger] stuck(stale, unlinks).contains(route)) by {
            if stuck(stale, unlinks).contains(route) {
                let i = choose|i: int|
                    0 <= i < stale.len() && #[trigger] stale[i] == route && link_removed(
                        unlinks[i].0,
                    ) is Err;
                assert(link_removed(unlinks[i].0) is Ok);
            }
        }
        assert(linked(state, wanted, links) =~= wanted);
    }
    law_route_nodes(state, ids, seen, nodes, node_id, wanted, links, unlinks);
    let after = played(
        state.route_begun(ids),
        two_looks(seen, nodes) + (ran(links) + ran(unlinks)),
    ).0;
    law_routed_nodes_need_no_commands(after, ids, seen, nodes, node_id);
    let again = after.route_begun(ids);
    lemma_played_on(again, two_looks(seen, nodes), seq![]);
    let all = steps(again, two_looks(seen, nodes));
    assert(all =~= all.drop_last().push(all.last()));
    assert(all =~= seq![
        StepView::Act(ActionView::Collect),
        StepView::Act(ActionView::Collect),
        StepView::Done(ReplyView::Sink(Ok(info_view(state.sink_name, state.mic, node_id)))),
    ]);
}

/// A microphone that the graph lacks is made, whatever the session made before,
/// and with its module known the session goes on.
pub proof fn law_missing_mic_is_made(
    state: StateView,
    goal: GoalView,
    mic: MicView,
    nodes: (Seq<NodeView>, u64),
    node_id: u32,
    module: (Seq<char>, u64),
    module_id: u32,
)
    requires
        state.available,
        state.mic == Some(mic),
        ready_sink(nodes.0, state.sink_name, state.sink_description) == Some(node_id),
        !mic_in(nodes.0, mic.name),
        module_id_of(module.0) == Ok::<u32, ErrorView>(module_id),
    ensures
        state.sink_begun(goal).0.resumed(EventView::Collected(Ok(nodes.0)), nodes.1).1
            == StepView::Act(
            ActionView::Run(load_mic_view(state.sink_name, mic.name, mic.description)),
        ),
        played(
            state.sink_begun(goal),
            seq![
                (EventView::Collected(Ok(nodes.0)), nodes.1),
                (EventView::Ran(Ok(module.0)), module.1),
            ],
        ) == (StateView {
            mic_module_id: Some(module_id),
            replaced: replaced_by(state.replaced, state.mic_module_id, module_id),
            ..state
        }).devices_ready(
            goal,
            info_view(state.sink_name, state.mic, node_id),
        ),
{
    let events = seq![
        (EventView::Collected(Ok(nodes.0)), nodes.1),
        (EventView::Ran(Ok(module.0)), module.1),
    ];
    assert(events.drop_first().drop_first() =~= seq![]);
    reveal_with_fuel(played, 3);
}

/// A microphone that the graph has is not made again.
pub proof fn law_existing_mic_is_kept(
    state: StateView,
    goal: GoalView,
    nodes: (Seq<NodeView>, u64),
    node_id: u32,
)
    requires
        state.available,
        mic_settled(state, nodes.0),
        ready_sink(nodes.0, state.sink_name, state.sink_description) == Some(node_id),
    ensures
        state.sink_begun(goal).0.resumed(EventView::Collected(Ok(nodes.0)), nodes.1)
            == state.devices_ready(goal, info_view(state.sink_name, state.mic, node_id)),
{
}

/// The module of the sink changes only when a sink was loaded or taken away,
/// that of the microphone only when a microphone was, and the replaced modules
/// only when one of them was taken away or another module was loaded.
pub proof fn law_modules_stay(state: StateView, event: EventView, now: u64)
    requires
        state.expects(event),
    ensures
        state.phase !is LoadingSink && state.phase !is UnloadingSink ==> state.resumed(
            event,
            now,
        ).0.module_id == state.module_id,
        state.phase !is LoadingMic && state.phase !is UnloadingMic ==> state.resumed(
            event,
            now,
        ).0.mic_module_id == state.mic_module_id,
        state.phase !is LoadingSink && state.phase !is LoadingMic && state.phase
            !is UnloadingReplaced ==> state.resumed(event, now).0.replaced == state.replaced,
{
}

/// A disposal that follows the making of a missing sink takes away the module
/// that was loaded for it, and after it what was replaced.
pub proof fn law_loaded_sink_is_unloaded(
    state: StateView,
    seen: (Seq<NodeView>, u64),
    module: (Seq<char>, u64),
    module_id: u32,
    looks: Seq<Look>,
    nodes: (Seq<NodeView>, u64),
    node_id: u32,
    disposal: Disposal,
)
    requires
        state.available,
        state.routes.finite(),
        mic_settled(state, nodes.0),
        ready_sink(seen.0, state.sink_name, state.sink_description) is None,
        module_id_of(module.0) == Ok::<u32, ErrorView>(module_id),
        forall|i: int|
            0 <= i < looks.len() ==> not_ready(state, #[trigger] looks[i]) && looks[i].1 < later(
                module.1,
                SINK_WAIT_MS,
            ),
        ready_sink(nodes.0, state.sink_name, state.sink_description) == Some(node_id),
        covers(
            disposal,
            played(
                state.sink_begun(GoalView::Sink),
                sink_made(seen, module, looks, nodes),
            ).0,
        ),
    ensures
        ({
            let made = played(
                state.sink_begun(GoalView::Sink),
                sink_made(seen, module, looks, nodes),
            ).0;
            steps(made.clear_begun(true), disposal_events(made, disposal)).drop_last() == removals(
                in_order(state.routes),
            ) + unloads(state.mic_module_id) + seq![
                StepView::Act(ActionView::Run(unload_view(module_id))),
            ] + replaced_unloads(replaced_by(state.replaced, state.module_id, module_id))
        }),
{
    law_missing_sink_is_made(
        state,
        GoalView::Sink,
        seen,
        module,
        module_id,
        looks,
        nodes,
        node_id,
    );
    let after = played(
        state.sink_begun(GoalView::Sink),
        sink_made(seen, module, looks, nodes),
    ).0;
    assert(after.module_id == Some(module_id));
    law_disposing(after, disposal);
}

/// The events on the way to a new sink.
pub open spec fn sink_made(
    seen: (Seq<NodeView>, u64),
    module: (Seq<char>, u64),
    looks: Seq<Look>,
    nodes: (Seq<NodeView>, u64),
) -> Seq<(EventView, u64)> {
    seq![
        (EventView::Collected(Ok(seen.0)), seen.1),
        (EventView::Ran(Ok(module.0)), module.1),
    ] + waited(looks) + seq![(EventView::Collected(Ok(nodes.0)), nodes.1)]
}

/// A disposal that follows the making of a missing microphone takes away the
/// module that was loaded for it, and in the end what was replaced.
pub proof fn law_loaded_mic_is_unloaded(
    state: StateView,
    setup: MicView,
    nodes: (Seq<NodeView>, u64),
    node_id: u32,
    module: (Seq<char>, u64),
    module_id: u32,
    disposal: Disposal,
)
    requires
        state.available,
        state.routes.finite(),
        state.mic == Some(setup),
        ready_sink(nodes.0, state.sink_name, state.sink_description) == Some(node_id),
        !mic_in(nodes.0, setup.name),
        module_id_of(module.0) == Ok::<u32, ErrorView>(module_id),
        covers(disposal, played(state.sink_begun(GoalView::Sink), mic_made(nodes, module)).0),
    ensures
        ({
            let made = played(state.sink_begun(GoalView::Sink), mic_made(nodes, module)).0;
            steps(made.clear_begun(true), disposal_events(made, disposal)).drop_last() == removals(
                in_order(state.routes),
            ) + seq![StepView::Act(ActionView::Run(unload_view(module_id)))] + unloads(
                state.module_id,
            ) + replaced_unloads(replaced_by(state.replaced, state.mic_module_id, module_id))
        }),
{
    law_missing_mic_is_made(state, GoalView::Sink, setup, nodes, node_id, module, module_id);
    let after = played(state.sink_begun(GoalView::Sink), mic_made(nodes, module)).0;
    assert(after.mic_module_id == Some(module_id));
    law_disposing(after, disposal);
}

/// The events on the way to a new microphone.
pub open spec fn mic_made(nodes: (Seq<NodeView>, u64), module: (Seq<char>, u64)) -> Seq<
    (EventView, u64),
> {
    seq![
        (EventView::Collected(Ok(nodes.0)), nodes.1),
        (EventView::Ran(Ok(module.0)), module.1),
    ]
}

} // verus!
