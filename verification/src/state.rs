//! The virtual sink, the virtual microphone and the routes of one session.
//!
//! An operation is a row of steps. Each step asks for an action of the outside
//! world, and what came of the action decides the next step, until the
//! operation is answered.
use vstd::prelude::*;

use crate::cmd::{
    create_link, create_link_command, create_link_view, creation_complaint, later, link_created,
    link_removed, removal_complaint, remove_link, remove_link_command, remove_link_view,
    CommandLine, CommandView,
};
use crate::config::{mic_config, mic_of, ConfigView, MicConfig, MicView, PatchbayConfig};
use crate::detect::ensure_pipewire;
use crate::error::{error_text, text_result, BackendError, ErrorView};
use crate::messages::{
    creating_message, creating_view, link_failure_message, link_failure_view, linking_message,
    linking_view, ready_message, ready_view, skip_messages, skip_views, transient_message,
    transient_view, unload_failure_message, unload_failure_view, Message, MessageView,
};
use crate::models::{
    NodeRecord, NodeView, Route, RouteView, ShareableNode, ShareableView, SinkInfoView,
    VirtualSinkInfo,
};
use crate::modules::{
    load_mic_command, load_mic_view, load_sink_command, load_sink_view, make_unique_name,
    module_id_of, monitor_name, monitor_of, parse_module_id, unique_name, unload_command,
    unload_view,
};
use crate::plan::{
    find_ready_sink, has_mic, info_view, mic_in, plan_routes, planned, ready_sink, sink_info,
    skipped, skipped_nodes,
};
use crate::routes::{in_order, RouteSet};
use crate::routing::has_id;
use crate::shareable::{is_monitor_node, is_virtual_sink_node, list_nodes, listing};
use crate::snapshot::{graph_result, sink_in, PipeWireSnapshot};
use crate::text::{decimal, join, joined, number_text};

verus! {

/// How long a new virtual sink may take to show up, in milliseconds.
pub const SINK_WAIT_MS: u64 = 3000;

/// How long to wait before the graph is read again for a new virtual sink, in
/// milliseconds.
pub const SINK_POLL_MS: u64 = 50;

/// What the outside world is asked to do.
#[derive(Debug)]
pub enum Action {
    /// Read the graph.
    Collect,
    /// Run a command.
    Run(CommandLine),
    /// Do nothing for so many milliseconds.
    Pause(u64),
}

/// An [`Action`] with its texts as sequences of characters.
pub enum ActionView {
    Collect,
    Run(CommandView),
    Pause(u64),
}

impl View for Action {
    type V = ActionView;

    open spec fn view(&self) -> ActionView {
        match self {
            Action::Collect => ActionView::Collect,
            Action::Run(command) => ActionView::Run(command@),
            Action::Pause(span) => ActionView::Pause(*span),
        }
    }
}

/// What came of an action.
#[derive(Debug)]
pub enum Event {
    Collected(Result<PipeWireSnapshot, BackendError>),
    Ran(Result<String, BackendError>),
    Paused,
}

/// An [`Event`] with its texts as sequences of characters.
pub enum EventView {
    Collected(Result<Seq<NodeView>, ErrorView>),
    Ran(Result<Seq<char>, ErrorView>),
    Paused,
}

impl View for Event {
    type V = EventView;

    open spec fn view(&self) -> EventView {
        match self {
            Event::Collected(outcome) => EventView::Collected(graph_result(*outcome)),
            Event::Ran(outcome) => EventView::Ran(text_result(*outcome)),
            Event::Paused => EventView::Paused,
        }
    }
}

/// The answer to an operation.
#[derive(Debug)]
pub enum Reply {
    Nodes(Result<Vec<ShareableNode>, BackendError>),
    Sink(Result<VirtualSinkInfo, BackendError>),
    Unit(Result<(), BackendError>),
}

/// A [`Reply`] with its texts as sequences of characters.
pub enum ReplyView {
    Nodes(Result<Seq<ShareableView>, ErrorView>),
    Sink(Result<SinkInfoView, ErrorView>),
    Unit(Result<(), ErrorView>),
}

impl View for Reply {
    type V = ReplyView;

    open spec fn view(&self) -> ReplyView {
        match self {
            Reply::Nodes(Ok(nodes)) => ReplyView::Nodes(Ok(nodes.deep_view())),
            Reply::Nodes(Err(error)) => ReplyView::Nodes(Err(error@)),
            Reply::Sink(Ok(info)) => ReplyView::Sink(Ok(info@)),
            Reply::Sink(Err(error)) => ReplyView::Sink(Err(error@)),
            Reply::Unit(Ok(())) => ReplyView::Unit(Ok(())),
            Reply::Unit(Err(error)) => ReplyView::Unit(Err(error@)),
        }
    }
}

/// Where an operation stands: something is to be done, or it is answered.
#[derive(Debug)]
pub enum Step {
    Act(Action),
    Done(Reply),
}

/// A [`Step`] with its texts as sequences of characters.
pub enum StepView {
    Act(ActionView),
    Done(ReplyView),
}

impl View for Step {
    type V = StepView;

    open spec fn view(&self) -> StepView {
        match self {
            Step::Act(action) => StepView::Act(action@),
            Step::Done(reply) => StepView::Done(reply@),
        }
    }
}

/// What the virtual sink is wanted for.
#[derive(Debug)]
enum Goal {
    Sink,
    Route(Vec<u32>),
}

/// What the virtual sink is wanted for: for itself, or for nodes to be heard
/// through it.
pub enum GoalView {
    Sink,
    Route(Seq<u32>),
}

impl View for Goal {
    type V = GoalView;

    closed spec fn view(&self) -> GoalView {
        match self {
            Goal::Sink => GoalView::Sink,
            Goal::Route(ids) => GoalView::Route(ids@),
        }
    }
}

/// What an operation is waiting for.
#[derive(Debug)]
enum Phase {
    Idle,
    Listing { include_devices: bool },
    Checking { goal: Goal },
    LoadingSink { goal: Goal },
    Waiting { goal: Goal, deadline: u64 },
    Pausing { goal: Goal, deadline: u64 },
    LoadingMic { goal: Goal, info: VirtualSinkInfo },
    Planning { ids: Vec<u32>, info: VirtualSinkInfo },
    Linking { info: VirtualSinkInfo, wanted: RouteSet, todo: Vec<Route>, active: RouteSet },
    Unlinking { info: VirtualSinkInfo, todo: Vec<Route>, kept: RouteSet },
    Clearing { todo: Vec<Route>, failed: RouteSet, disposing: bool },
    UnloadingMic { id: u32, errors: Vec<String> },
    UnloadingSink { id: u32, errors: Vec<String> },
    UnloadingReplaced { left: Vec<u32>, errors: Vec<String> },
}

/// What an operation is waiting for.
pub enum PhaseView {
    /// No operation is under way.
    Idle,
    /// The graph, to list its nodes.
    Listing { include_devices: bool },
    /// The graph, to see whether the sink is there.
    Checking { goal: GoalView },
    /// The command that makes the sink.
    LoadingSink { goal: GoalView },
    /// The graph, to see whether the new sink is there.
    Waiting { goal: GoalView, deadline: u64 },
    /// The end of a pause between two looks for the new sink.
    Pausing { goal: GoalView, deadline: u64 },
    /// The command that makes the microphone.
    LoadingMic { goal: GoalView, info: SinkInfoView },
    /// The graph, to find the ports to link.
    Planning { ids: Seq<u32>, info: SinkInfoView },
    /// The command that creates the first of the links to be made.
    Linking {
        info: SinkInfoView,
        wanted: Set<RouteView>,
        todo: Seq<RouteView>,
        active: Set<RouteView>,
    },
    /// The command that removes the first of the links that nobody wants any
    /// more.
    Unlinking { info: SinkInfoView, todo: Seq<RouteView>, kept: Set<RouteView> },
    /// The command that removes the first of the links that are left.
    Clearing { todo: Seq<RouteView>, failed: Set<RouteView>, disposing: bool },
    /// The command that takes the microphone away.
    UnloadingMic { id: u32, errors: Seq<Seq<char>> },
    /// The command that takes the sink away.
    UnloadingSink { id: u32, errors: Seq<Seq<char>> },
    /// The command that takes the first of the replaced modules away.
    UnloadingReplaced { left: Seq<u32>, errors: Seq<Seq<char>> },
}

impl View for Phase {
    type V = PhaseView;

    closed spec fn view(&self) -> PhaseView {
        match self {
            Phase::Idle => PhaseView::Idle,
            Phase::Listing { include_devices } => PhaseView::Listing {
                include_devices: *include_devices,
            },
            Phase::Checking { goal } => PhaseView::Checking { goal: goal@ },
            Phase::LoadingSink { goal } => PhaseView::LoadingSink { goal: goal@ },
            Phase::Waiting { goal, deadline } => PhaseView::Waiting {
                goal: goal@,
                deadline: *deadline,
            },
            Phase::Pausing { goal, deadline } => PhaseView::Pausing {
                goal: goal@,
                deadline: *deadline,
            },
            Phase::LoadingMic { goal, info } => PhaseView::LoadingMic { goal: goal@, info: info@ },
            Phase::Planning { ids, info } => PhaseView::Planning { ids: ids@, info: info@ },
            Phase::Linking { info, wanted, todo, active } => PhaseView::Linking {
                info: info@,
                wanted: wanted@,
                todo: todo.deep_view(),
                active: active@,
            },
            Phase::Unlinking { info, todo, kept } => PhaseView::Unlinking {
                info: info@,
                todo: todo.deep_view(),
                kept: kept@,
            },
            Phase::Clearing { todo, failed, disposing } => PhaseView::Clearing {
                todo: todo.deep_view(),
                failed: failed@,
                disposing: *disposing,
            },
            Phase::UnloadingMic { id, errors } => PhaseView::UnloadingMic {
                id: *id,
                errors: errors.deep_view(),
            },
            Phase::UnloadingSink { id, errors } => PhaseView::UnloadingSink {
                id: *id,
                errors: errors.deep_view(),
            },
            Phase::UnloadingReplaced { left, errors } => PhaseView::UnloadingReplaced {
                left: left@,
                errors: errors.deep_view(),
            },
        }
    }
}

impl Phase {
    /// The sets of routes are in order, and where a link is under way, or a
    /// replaced module, there is one.
    closed spec fn wf(&self) -> bool {
        match self {
            Phase::Linking { wanted, todo, active, .. } => wanted.wf() && active.wf() && todo.len()
                > 0,
            Phase::Unlinking { todo, kept, .. } => kept.wf() && todo.len() > 0,
            Phase::Clearing { todo, failed, .. } => failed.wf() && todo.len() > 0,
            Phase::UnloadingReplaced { left, .. } => left.len() > 0,
            _ => true,
        }
    }
}

/// The state of a session.
pub struct StateView {
    pub sink_name: Seq<char>,
    pub sink_description: Seq<char>,
    pub mic: Option<MicView>,
    /// Whether PipeWire is the active audio server.
    pub available: bool,
    /// The module of the virtual sink, once it was loaded.
    pub module_id: Option<u32>,
    /// The module of the virtual microphone, once it was loaded.
    pub mic_module_id: Option<u32>,
    /// The modules in whose place another was loaded, as long as they were not
    /// taken away.
    pub replaced: Seq<u32>,
    /// The links that the session made and has not removed.
    pub routes: Set<RouteView>,
    pub phase: PhaseView,
}

/// The state of a new session.
pub open spec fn initial(
    config: ConfigView,
    process_id: u32,
    unique: u64,
    available: bool,
) -> StateView {
    StateView {
        sink_name: unique_name(config.sink_prefix, process_id, unique),
        sink_description: config.sink_description,
        mic: mic_of(config, process_id, unique),
        available,
        module_id: None,
        mic_module_id: None,
        replaced: seq![],
        routes: Set::empty(),
        phase: PhaseView::Idle,
    }
}

/// Whether an id is another one than `id`.
pub open spec fn other_than(id: u32) -> spec_fn(u32) -> bool {
    |other: u32| other != id
}

/// `ids` without one of them.
pub open spec fn without(ids: Seq<u32>, id: u32) -> Seq<u32> {
    ids.filter(other_than(id))
}

/// The replaced modules after `loaded` was loaded in the place of `former`. An
/// id that is given again belongs to the new module.
pub open spec fn replaced_by(replaced: Seq<u32>, former: Option<u32>, loaded: u32) -> Seq<u32> {
    let others = without(replaced, loaded);
    match former {
        Some(id) => if id == loaded || others.contains(id) {
            others
        } else {
            others.push(id)
        },
        None => others,
    }
}

/// What is said when routes could not be removed.
pub open spec fn leftover_error(failures: nat) -> ErrorView {
    ErrorView::Message(
        "failed to remove "@ + decimal(failures)
            + " route(s); cleanup will be retried later"@,
    )
}

/// What is said when a module could not be taken away.
pub open spec fn unload_complaint(head: Seq<char>, id: u32, error: ErrorView) -> Seq<char> {
    head + decimal(id as nat) + ": "@ + error_text(error)
}

/// What came of a number of things that may each have failed.
pub open spec fn summed_up(errors: Seq<Seq<char>>) -> Result<(), ErrorView> {
    if errors.len() == 0 {
        Ok(())
    } else {
        Err(ErrorView::Message(joined(errors, "; "@)))
    }
}

impl StateView {
    /// The operation is answered.
    pub open spec fn answered(self, reply: ReplyView) -> (StateView, StepView) {
        (StateView { phase: PhaseView::Idle, ..self }, StepView::Done(reply))
    }

    /// The operation waits for an action.
    pub open spec fn acting(self, phase: PhaseView, action: ActionView) -> (StateView, StepView) {
        (StateView { phase, ..self }, StepView::Act(action))
    }

    /// Nodes are to be listed.
    pub open spec fn list_begun(self, include_devices: bool) -> (StateView, StepView) {
        if self.available {
            self.acting(PhaseView::Listing { include_devices }, ActionView::Collect)
        } else {
            self.answered(ReplyView::Nodes(Err(ErrorView::Unsupported)))
        }
    }

    /// The sink is wanted.
    pub open spec fn sink_begun(self, goal: GoalView) -> (StateView, StepView) {
        if self.available {
            self.acting(PhaseView::Checking { goal }, ActionView::Collect)
        } else {
            self.answered(ReplyView::Sink(Err(ErrorView::Unsupported)))
        }
    }

    /// Nodes are to be heard through the sink.
    pub open spec fn route_begun(self, ids: Seq<u32>) -> (StateView, StepView) {
        if ids.len() == 0 {
            self.answered(
                ReplyView::Sink(Err(ErrorView::Message("at least one node id is required"@))),
            )
        } else {
            self.sink_begun(GoalView::Route(ids))
        }
    }

    /// The routes are to be removed, and with `disposing` the devices too.
    pub open spec fn clear_begun(self, disposing: bool) -> (StateView, StepView) {
        StateView { routes: Set::empty(), ..self }.clearing(
            in_order(self.routes),
            Set::empty(),
            disposing,
        )
    }

    /// The routes of `todo` are to be removed, after `failed` could not be.
    pub open spec fn clearing(
        self,
        todo: Seq<RouteView>,
        failed: Set<RouteView>,
        disposing: bool,
    ) -> (StateView, StepView) {
        if todo.len() > 0 {
            self.acting(
                PhaseView::Clearing { todo, failed, disposing },
                ActionView::Run(remove_link_view(todo[0])),
            )
        } else {
            StateView { routes: failed, ..self }.cleared(failed.len(), disposing)
        }
    }

    /// The routes were removed but for so many.
    pub open spec fn cleared(self, failures: nat, disposing: bool) -> (StateView, StepView) {
        if disposing {
            self.unloading_mic(
                if failures == 0 {
                    seq![]
                } else {
                    seq![error_text(leftover_error(failures))]
                },
            )
        } else {
            self.answered(
                ReplyView::Unit(
                    if failures == 0 {
                        Ok(())
                    } else {
                        Err(leftover_error(failures))
                    },
                ),
            )
        }
    }

    /// The microphone is to be taken away, where there is one.
    pub open spec fn unloading_mic(self, errors: Seq<Seq<char>>) -> (StateView, StepView) {
        match self.mic_module_id {
            Some(id) => self.acting(
                PhaseView::UnloadingMic { id, errors },
                ActionView::Run(unload_view(id)),
            ),
            None => self.unloading_sink(errors),
        }
    }

    /// The sink is to be taken away, where there is one.
    pub open spec fn unloading_sink(self, errors: Seq<Seq<char>>) -> (StateView, StepView) {
        match self.module_id {
            Some(id) => self.acting(
                PhaseView::UnloadingSink { id, errors },
                ActionView::Run(unload_view(id)),
            ),
            None => self.unloading_replaced(self.replaced, errors),
        }
    }

    /// The modules of `left`, in whose place others were loaded, are to be taken
    /// away.
    pub open spec fn unloading_replaced(self, left: Seq<u32>, errors: Seq<Seq<char>>) -> (
        StateView,
        StepView,
    ) {
        if left.len() > 0 {
            self.acting(
                PhaseView::UnloadingReplaced { left, errors },
                ActionView::Run(unload_view(left[0])),
            )
        } else {
            self.answered(ReplyView::Unit(summed_up(errors)))
        }
    }

    /// The new sink was not found ready: there is time for another look, or
    /// there is not.
    pub open spec fn still_waiting(self, goal: GoalView, deadline: u64, now: u64) -> (
        StateView,
        StepView,
    ) {
        if now >= deadline {
            self.answered(ReplyView::Sink(Err(ErrorView::Timeout("virtual sink"@))))
        } else {
            self.acting(PhaseView::Pausing { goal, deadline }, ActionView::Pause(SINK_POLL_MS))
        }
    }

    /// The sink was found ready in a graph. A microphone that the graph lacks
    /// is made.
    pub open spec fn sink_found(self, goal: GoalView, nodes: Seq<NodeView>, node_id: u32) -> (
        StateView,
        StepView,
    ) {
        let info = info_view(self.sink_name, self.mic, node_id);
        match self.mic {
            Some(mic) => if mic_in(nodes, mic.name) {
                self.devices_ready(goal, info)
            } else {
                self.acting(
                    PhaseView::LoadingMic { goal, info },
                    ActionView::Run(load_mic_view(self.sink_name, mic.name, mic.description)),
                )
            },
            None => self.devices_ready(goal, info),
        }
    }

    /// The sink is ready, and so is the microphone where there is to be one.
    pub open spec fn devices_ready(self, goal: GoalView, info: SinkInfoView) -> (
        StateView,
        StepView,
    ) {
        match goal {
            GoalView::Sink => self.answered(ReplyView::Sink(Ok(info))),
            GoalView::Route(ids) => self.acting(
                PhaseView::Planning { ids, info },
                ActionView::Collect,
            ),
        }
    }

    /// The routes that are wanted are known. Those that are there stay.
    pub open spec fn routes_planned(self, info: SinkInfoView, wanted: Set<RouteView>) -> (
        StateView,
        StepView,
    ) {
        self.linking(
            info,
            wanted,
            in_order(wanted.difference(self.routes)),
            self.routes.intersect(wanted),
        )
    }

    /// The links of `todo` are to be made.
    pub open spec fn linking(
        self,
        info: SinkInfoView,
        wanted: Set<RouteView>,
        todo: Seq<RouteView>,
        active: Set<RouteView>,
    ) -> (StateView, StepView) {
        if todo.len() > 0 {
            self.acting(
                PhaseView::Linking { info, wanted, todo, active },
                ActionView::Run(create_link_view(todo[0])),
            )
        } else if active == Set::<RouteView>::empty() {
            self.answered(
                ReplyView::Sink(
                    Err(ErrorView::Message("none of the selected nodes could be linked"@)),
                ),
            )
        } else {
            self.unlinking(info, in_order(self.routes.difference(wanted)), active)
        }
    }

    /// The links of `todo` are to be removed; `kept` are those that stay.
    pub open spec fn unlinking(
        self,
        info: SinkInfoView,
        todo: Seq<RouteView>,
        kept: Set<RouteView>,
    ) -> (StateView, StepView) {
        if todo.len() > 0 {
            self.acting(
                PhaseView::Unlinking { info, todo, kept },
                ActionView::Run(remove_link_view(todo[0])),
            )
        } else {
            StateView { routes: kept, ..self }.answered(ReplyView::Sink(Ok(info)))
        }
    }

    /// Whether the operation waits for such an event.
    pub open spec fn expects(self, event: EventView) -> bool {
        match event {
            EventView::Collected(_) => {
                ||| self.phase is Listing
                ||| self.phase is Checking
                ||| self.phase is Waiting
                ||| self.phase is Planning
            },
            EventView::Ran(_) => {
                ||| self.phase is LoadingSink
                ||| self.phase is LoadingMic
                ||| self.phase is Linking
                ||| self.phase is Unlinking
                ||| self.phase is Clearing
                ||| self.phase is UnloadingMic
                ||| self.phase is UnloadingSink
                ||| self.phase is UnloadingReplaced
            },
            EventView::Paused => self.phase is Pausing,
        }
    }

    /// What follows the reading of the graph.
    pub open spec fn after_graph(self, outcome: Result<Seq<NodeView>, ErrorView>, now: u64) -> (
        StateView,
        StepView,
    ) {
        match self.phase {
            PhaseView::Listing { include_devices } => self.answered(
                ReplyView::Nodes(
                    match outcome {
                        Ok(nodes) => Ok(listing(nodes, self.sink_name, include_devices)),
                        Err(error) => Err(error),
                    },
                ),
            ),
            PhaseView::Checking { goal } => match outcome {
                Ok(nodes) => match ready_sink(nodes, self.sink_name, self.sink_description) {
                    Some(id) => self.sink_found(goal, nodes, id),
                    None => self.acting(
                        PhaseView::LoadingSink { goal },
                        ActionView::Run(load_sink_view(self.sink_name, self.sink_description)),
                    ),
                },
                Err(error) => self.answered(ReplyView::Sink(Err(error))),
            },
            PhaseView::Waiting { goal, deadline } => match outcome {
                Ok(nodes) => match ready_sink(nodes, self.sink_name, self.sink_description) {
                    Some(id) => self.sink_found(goal, nodes, id),
                    None => self.still_waiting(goal, deadline, now),
                },
                Err(_) => self.still_waiting(goal, deadline, now),
            },
            PhaseView::Planning { ids, info } => match outcome {
                Ok(nodes) => match planned(nodes, self.sink_name, self.sink_description, ids) {
                    Ok(wanted) => self.routes_planned(info, wanted),
                    Err(error) => self.answered(ReplyView::Sink(Err(error))),
                },
                Err(error) => self.answered(ReplyView::Sink(Err(error))),
            },
            _ => (self, StepView::Act(ActionView::Collect)),
        }
    }

    /// What follows the end of a command.
    pub open spec fn after_command(self, outcome: Result<Seq<char>, ErrorView>, now: u64) -> (
        StateView,
        StepView,
    ) {
        match self.phase {
            PhaseView::LoadingSink { goal } => match outcome {
                Ok(text) => match module_id_of(text) {
                    Ok(id) => StateView {
                        module_id: Some(id),
                        replaced: replaced_by(self.replaced, self.module_id, id),
                        ..self
                    }.acting(
                        PhaseView::Waiting { goal, deadline: later(now, SINK_WAIT_MS) },
                        ActionView::Collect,
                    ),
                    Err(error) => self.answered(ReplyView::Sink(Err(error))),
                },
                Err(error) => self.answered(ReplyView::Sink(Err(error))),
            },
            PhaseView::LoadingMic { goal, info } => match outcome {
                Ok(text) => match module_id_of(text) {
                    Ok(id) => StateView {
                        mic_module_id: Some(id),
                        replaced: replaced_by(self.replaced, self.mic_module_id, id),
                        ..self
                    }.devices_ready(goal, info),
                    Err(error) => self.answered(ReplyView::Sink(Err(error))),
                },
                Err(error) => self.answered(ReplyView::Sink(Err(error))),
            },
            PhaseView::Linking { info, wanted, todo, active } => self.linking(
                info,
                wanted,
                todo.drop_first(),
                match link_created(outcome) {
                    Ok(()) => active.insert(todo[0]),
                    Err(_) => active,
                },
            ),
            PhaseView::Unlinking { info, todo, kept } => self.unlinking(
                info,
                todo.drop_first(),
                match link_removed(outcome) {
                    Ok(()) => kept,
                    Err(_) => kept.insert(todo[0]),
                },
            ),
            PhaseView::Clearing { todo, failed, disposing } => self.clearing(
                todo.drop_first(),
                match link_removed(outcome) {
                    Ok(()) => failed,
                    Err(_) => failed.insert(todo[0]),
                },
                disposing,
            ),
            PhaseView::UnloadingMic { id, errors } => match outcome {
                Ok(_) => StateView { mic_module_id: None, ..self }.unloading_sink(errors),
                Err(error) => self.unloading_sink(
                    errors.push(
                        unload_complaint(
                            "failed to unload virtual microphone module "@,
                            id,
                            error,
                        ),
                    ),
                ),
            },
            PhaseView::UnloadingSink { id, errors } => match outcome {
                Ok(_) => StateView { module_id: None, ..self }.unloading_replaced(
                    self.replaced,
                    errors,
                ),
                Err(error) => self.unloading_replaced(
                    self.replaced,
                    errors.push(
                        unload_complaint("failed to unload virtual sink module "@, id, error),
                    ),
                ),
            },
            PhaseView::UnloadingReplaced { left, errors } => match outcome {
                Ok(_) => StateView {
                    replaced: without(self.replaced, left[0]),
                    ..self
                }.unloading_replaced(left.drop_first(), errors),
                Err(error) => self.unloading_replaced(
                    left.drop_first(),
                    errors.push(
                        unload_complaint("failed to unload replaced module "@, left[0], error),
                    ),
                ),
            },
            _ => (self, StepView::Act(ActionView::Collect)),
        }
    }

    /// What follows a pause.
    pub open spec fn after_pause(self) -> (StateView, StepView) {
        match self.phase {
            PhaseView::Pausing { goal, deadline } => self.acting(
                PhaseView::Waiting { goal, deadline },
                ActionView::Collect,
            ),
            _ => (self, StepView::Act(ActionView::Collect)),
        }
    }

    /// What follows an event at the time `now`.
    pub open spec fn resumed(self, event: EventView, now: u64) -> (StateView, StepView) {
        match event {
            EventView::Collected(outcome) => self.after_graph(outcome, now),
            EventView::Ran(outcome) => self.after_command(outcome, now),
            EventView::Paused => self.after_pause(),
        }
    }
}

impl StateView {
    /// What there is to log of a graph before the operation goes on with it.
    pub open spec fn graph_messages(self, outcome: Result<Seq<NodeView>, ErrorView>) -> Seq<
        MessageView,
    > {
        match (self.phase, outcome) {
            (PhaseView::Checking { .. }, Ok(nodes)) => match ready_sink(
                nodes,
                self.sink_name,
                self.sink_description,
            ) {
                Some(_) => seq![],
                None => seq![creating_view(self.sink_name)],
            },
            (PhaseView::Waiting { .. }, Ok(nodes)) => match ready_sink(
                nodes,
                self.sink_name,
                self.sink_description,
            ) {
                Some(id) => seq![ready_view(self.sink_name, id)],
                None => seq![],
            },
            (PhaseView::Waiting { .. }, Err(error)) => seq![transient_view(error_text(error))],
            (PhaseView::Planning { ids, .. }, Ok(nodes)) => skip_views(
                skipped(nodes, self.sink_name, self.sink_description, ids),
            ),
            _ => seq![],
        }
    }

    /// What there is to log of a command before the operation goes on with what
    /// it gave.
    pub open spec fn command_messages(self, outcome: Result<Seq<char>, ErrorView>) -> Seq<
        MessageView,
    > {
        match self.phase {
            PhaseView::Linking { todo, .. } => match link_created(outcome) {
                Ok(()) => seq![],
                Err(error) => seq![
                    link_failure_view("[patchbay] failed to link "@, todo[0], error_text(error)),
                ],
            },
            PhaseView::Unlinking { todo, .. } => match link_removed(outcome) {
                Ok(()) => seq![],
                Err(error) => seq![
                    link_failure_view(
                        "[patchbay] failed to remove stale link "@,
                        todo[0],
                        error_text(error),
                    ),
                ],
            },
            PhaseView::Clearing { todo, .. } => match link_removed(outcome) {
                Ok(()) => seq![],
                Err(error) => seq![
                    link_failure_view(
                        "[patchbay] failed to remove link "@,
                        todo[0],
                        error_text(error),
                    ),
                ],
            },
            PhaseView::UnloadingMic { id, .. } => match outcome {
                Ok(_) => seq![],
                Err(error) => seq![unload_failure_view(id, error_text(error))],
            },
            PhaseView::UnloadingSink { id, .. } => match outcome {
                Ok(_) => seq![],
                Err(error) => seq![unload_failure_view(id, error_text(error))],
            },
            PhaseView::UnloadingReplaced { left, .. } => match outcome {
                Ok(_) => seq![],
                Err(error) => seq![unload_failure_view(left[0], error_text(error))],
            },
            _ => seq![],
        }
    }

    /// What there is to log of an event before the operation goes on with it.
    pub open spec fn messages(self, event: EventView) -> Seq<MessageView> {
        match event {
            EventView::Collected(outcome) => self.graph_messages(outcome),
            EventView::Ran(outcome) => self.command_messages(outcome),
            EventView::Paused => seq![],
        }
    }

    /// What there is to log of the action that the operation waits for.
    pub open spec fn announcement(self) -> Option<MessageView> {
        match self.phase {
            PhaseView::Linking { todo, .. } => Some(linking_view(todo[0])),
            _ => None,
        }
    }
}

/// The virtual devices and the routes of one session.
#[derive(Debug)]
pub struct PatchbayState {
    sink_name: String,
    sink_description: String,
    mic: Option<MicConfig>,
    available: bool,
    module_id: Option<u32>,
    mic_module_id: Option<u32>,
    replaced: Vec<u32>,
    routes: RouteSet,
    phase: Phase,
}

impl View for PatchbayState {
    type V = StateView;

    closed spec fn view(&self) -> StateView {
        StateView {
            sink_name: self.sink_name@,
            sink_description: self.sink_description@,
            mic: self.mic.deep_view(),
            available: self.available,
            module_id: self.module_id,
            mic_module_id: self.mic_module_id,
            replaced: self.replaced@,
            routes: self.routes@,
            phase: self.phase@,
        }
    }
}

impl PatchbayState {
    /// The sets of routes are in order, and where a link is under way, or a
    /// replaced module, there is one.
    pub closed spec fn wf(&self) -> bool {
        self.routes.wf() && self.phase.wf()
    }

    /// At any time a session has finitely many routes.
    pub proof fn law_routes_are_finite(&self)
        ensures
            self@.routes.finite(),
    {
        self.routes.lemma_finite();
    }

    /// A new session. `unique` is a number that no other session of the process
    /// has.
    pub fn new(config: &PatchbayConfig, process_id: u32, unique: u64, available: bool) -> (state:
        PatchbayState)
        ensures
            state.wf(),
            state@ == initial(config@, process_id, unique, available),
    {
        PatchbayState {
            sink_name: make_unique_name(config.sink_prefix.as_str(), process_id, unique),
            sink_description: config.sink_description.clone(),
            mic: mic_config(config, process_id, unique),
            available,
            module_id: None,
            mic_module_id: None,
            replaced: Vec::new(),
            routes: RouteSet::new(),
            phase: Phase::Idle,
        }
    }

    fn answer(&mut self, reply: Reply) -> (step: Step)
        requires
            old(self).wf(),
        ensures
            final(self).wf(),
            (final(self)@, step@) == old(self)@.answered(reply@),
    {
        self.phase = Phase::Idle;
        Step::Done(reply)
    }

    fn act(&mut self, phase: Phase, action: Action) -> (step: Step)
        requires
            old(self).wf(),
            phase.wf(),
        ensures
            final(self).wf(),
            (final(self)@, step@) == old(self)@.acting(phase@, action@),
    {
        self.phase = phase;
        Step::Act(action)
    }

    fn fail(&mut self, error: BackendError) -> (step: Step)
        requires
            old(self).wf(),
        ensures
            final(self).wf(),
            (final(self)@, step@) == old(self)@.answered(ReplyView::Sink(Err(error@))),
    {
        self.answer(Reply::Sink(Err(error)))
    }

    /// Lists the nodes that can be shared.
    pub fn list_shareable_nodes(&mut self, include_devices: bool) -> (step: Step)
        requires
            old(self).wf(),
            old(self)@.phase is Idle,
        ensures
            final(self).wf(),
            (final(self)@, step@) == old(self)@.list_begun(include_devices),
    {
        match ensure_pipewire(self.available) {
            Ok(()) => self.act(Phase::Listing { include_devices }, Action::Collect),
            Err(error) => self.answer(Reply::Nodes(Err(error))),
        }
    }

    fn want_sink(&mut self, goal: Goal) -> (step: Step)
        requires
            old(self).wf(),
        ensures
            final(self).wf(),
            (final(self)@, step@) == old(self)@.sink_begun(goal@),
    {
        match ensure_pipewire(self.available) {
            Ok(()) => self.act(Phase::Checking { goal }, Action::Collect),
            Err(error) => self.fail(error),
        }
    }

    /// Makes the virtual sink where it is missing, and the virtual microphone
    /// where there is to be one.
    pub fn ensure_virtual_sink(&mut self) -> (step: Step)
        requires
            old(self).wf(),
            old(self)@.phase is Idle,
        ensures
            final(self).wf(),
            (final(self)@, step@) == old(self)@.sink_begun(GoalView::Sink),
    {
        self.want_sink(Goal::Sink)
    }

    /// Lets the chosen nodes, and no others, be heard through the virtual sink.
    pub fn route_nodes(&mut self, node_ids: Vec<u32>) -> (step: Step)
        requires
            old(self).wf(),
            old(self)@.phase is Idle,
        ensures
            final(self).wf(),
            (final(self)@, step@) == old(self)@.route_begun(node_ids@),
    {
        if node_ids.len() == 0 {
            self.fail(BackendError::Message("at least one node id is required".to_string()))
        } else {
            self.want_sink(Goal::Route(node_ids))
        }
    }

    fn begin_clearing(&mut self, disposing: bool) -> (step: Step)
        requires
            old(self).wf(),
        ensures
            final(self).wf(),
            (final(self)@, step@) == old(self)@.clear_begun(disposing),
    {
        let todo = self.routes.to_vec();
        self.routes = RouteSet::new();
        self.clear_next(todo, RouteSet::new(), disposing)
    }

    fn clear_next(&mut self, todo: Vec<Route>, failed: RouteSet, disposing: bool) -> (step: Step)
        requires
            old(self).wf(),
            failed.wf(),
        ensures
            final(self).wf(),
            (final(self)@, step@) == old(self)@.clearing(todo.deep_view(), failed@, disposing),
    {
        assert(todo.len() == todo.deep_view().len());
        if todo.len() > 0 {
            assert(todo.deep_view()[0] == todo@[0]@);
            let command = remove_link_command(
                todo[0].output_path.as_str(),
                todo[0].input_path.as_str(),
            );
            self.act(Phase::Clearing { todo, failed, disposing }, Action::Run(command))
        } else {
            let failures = failed.len();
            self.routes = failed;
            self.finish_clearing(failures, disposing)
        }
    }

    fn finish_clearing(&mut self, failures: usize, disposing: bool) -> (step: Step)
        requires
            old(self).wf(),
        ensures
            final(self).wf(),
            (final(self)@, step@) == old(self)@.cleared(failures as nat, disposing),
    {
        let outcome = if failures == 0 {
            Ok(())
        } else {
            let mut text = "failed to remove ".to_string();
            text.append(number_text(failures as u64).as_str());
            text.append(" route(s); cleanup will be retried later");
            Err(BackendError::Message(text))
        };
        if disposing {
            let mut errors: Vec<String> = Vec::new();
            assert(errors.deep_view() =~= seq![]);
            if let Err(error) = &outcome {
                errors.push(error.message());
                assert(errors.deep_view() =~= seq![error_text(error@)]);
            }
            self.unload_mic(errors)
        } else {
            self.answer(Reply::Unit(outcome))
        }
    }

    fn unload_mic(&mut self, errors: Vec<String>) -> (step: Step)
        requires
            old(self).wf(),
        ensures
            final(self).wf(),
            (final(self)@, step@) == old(self)@.unloading_mic(errors.deep_view()),
    {
        match self.mic_module_id {
            Some(id) => self.act(
                Phase::UnloadingMic { id, errors },
                Action::Run(unload_command(id)),
            ),
            None => self.unload_sink(errors),
        }
    }

    fn unload_sink(&mut self, errors: Vec<String>) -> (step: Step)
        requires
            old(self).wf(),
        ensures
            final(self).wf(),
            (final(self)@, step@) == old(self)@.unloading_sink(errors.deep_view()),
    {
        match self.module_id {
            Some(id) => self.act(
                Phase::UnloadingSink { id, errors },
                Action::Run(unload_command(id)),
            ),
            None => self.unload_all_replaced(errors),
        }
    }

    fn unload_all_replaced(&mut self, errors: Vec<String>) -> (step: Step)
        requires
            old(self).wf(),
        ensures
            final(self).wf(),
            (final(self)@, step@) == old(self)@.unloading_replaced(
                old(self)@.replaced,
                errors.deep_view(),
            ),
    {
        let left = self.replaced.clone();
        self.unload_next_replaced(left, errors)
    }

    fn unload_next_replaced(&mut self, left: Vec<u32>, errors: Vec<String>) -> (step: Step)
        requires
            old(self).wf(),
        ensures
            final(self).wf(),
            (final(self)@, step@) == old(self)@.unloading_replaced(left@, errors.deep_view()),
    {
        if left.len() > 0 {
            let command = unload_command(left[0]);
            self.act(Phase::UnloadingReplaced { left, errors }, Action::Run(command))
        } else {
            self.sum_up(errors)
        }
    }

    fn sum_up(&mut self, errors: Vec<String>) -> (step: Step)
        requires
            old(self).wf(),
        ensures
            final(self).wf(),
            (final(self)@, step@) == old(self)@.answered(
                ReplyView::Unit(summed_up(errors.deep_view())),
            ),
    {
        assert(errors.len() == errors.deep_view().len());
        if errors.len() == 0 {
            self.answer(Reply::Unit(Ok(())))
        } else {
            self.answer(Reply::Unit(Err(BackendError::Message(join(&errors, "; ")))))
        }
    }

    /// Removes all routes of the session. The virtual devices stay.
    pub fn clear_routes(&mut self) -> (step: Step)
        requires
            old(self).wf(),
            old(self)@.phase is Idle,
        ensures
            final(self).wf(),
            (final(self)@, step@) == old(self)@.clear_begun(false),
    {
        self.begin_clearing(false)
    }

    /// Removes all routes of the session, then its virtual devices, and then the
    /// modules that these replaced.
    pub fn dispose(&mut self) -> (step: Step)
        requires
            old(self).wf(),
            old(self)@.phase is Idle,
        ensures
            final(self).wf(),
            (final(self)@, step@) == old(self)@.clear_begun(true),
    {
        self.begin_clearing(true)
    }

    fn accept_sink(&mut self, goal: Goal, snapshot: &PipeWireSnapshot, node_id: u32) -> (step: Step)
        requires
            old(self).wf(),
        ensures
            final(self).wf(),
            (final(self)@, step@) == old(self)@.sink_found(goal@, snapshot@, node_id),
    {
        let info = sink_info(self.sink_name.as_str(), &self.mic, node_id);
        match &self.mic {
            Some(mic) => {
                if has_mic(snapshot, mic.name.as_str()) {
                    self.go_on(goal, info)
                } else {
                    let command = load_mic_command(
                        self.sink_name.as_str(),
                        mic.name.as_str(),
                        mic.description.as_str(),
                    );
                    self.act(Phase::LoadingMic { goal, info }, Action::Run(command))
                }
            },
            None => self.go_on(goal, info),
        }
    }

    fn keep_waiting(&mut self, goal: Goal, deadline: u64, now: u64) -> (step: Step)
        requires
            old(self).wf(),
        ensures
            final(self).wf(),
            (final(self)@, step@) == old(self)@.still_waiting(goal@, deadline, now),
    {
        if now >= deadline {
            self.fail(BackendError::Timeout("virtual sink"))
        } else {
            self.act(Phase::Pausing { goal, deadline }, Action::Pause(SINK_POLL_MS))
        }
    }

    fn go_on(&mut self, goal: Goal, info: VirtualSinkInfo) -> (step: Step)
        requires
            old(self).wf(),
        ensures
            final(self).wf(),
            (final(self)@, step@) == old(self)@.devices_ready(goal@, info@),
    {
        match goal {
            Goal::Sink => self.answer(Reply::Sink(Ok(info))),
            Goal::Route(ids) => self.act(Phase::Planning { ids, info }, Action::Collect),
        }
    }

    fn start_linking(&mut self, info: VirtualSinkInfo, wanted: RouteSet) -> (step: Step)
        requires
            old(self).wf(),
            wanted.wf(),
        ensures
            final(self).wf(),
            (final(self)@, step@) == old(self)@.routes_planned(info@, wanted@),
    {
        let todo = wanted.difference(&self.routes).to_vec();
        let active = self.routes.intersection(&wanted);
        self.link_next(info, wanted, todo, active)
    }

    fn link_next(
        &mut self,
        info: VirtualSinkInfo,
        wanted: RouteSet,
        todo: Vec<Route>,
        active: RouteSet,
    ) -> (step: Step)
        requires
            old(self).wf(),
            wanted.wf(),
            active.wf(),
        ensures
            final(self).wf(),
            (final(self)@, step@) == old(self)@.linking(info@, wanted@, todo.deep_view(), active@),
    {
        assert(todo.len() == todo.deep_view().len());
        if todo.len() > 0 {
            assert(todo.deep_view()[0] == todo@[0]@);
            let command = create_link_command(
                todo[0].output_path.as_str(),
                todo[0].input_path.as_str(),
            );
            self.act(Phase::Linking { info, wanted, todo, active }, Action::Run(command))
        } else if active.is_empty() {
            self.fail(
                BackendError::Message("none of the selected nodes could be linked".to_string()),
            )
        } else {
            let stale = self.routes.difference(&wanted).to_vec();
            self.unlink_next(info, stale, active)
        }
    }

    fn unlink_next(&mut self, info: VirtualSinkInfo, todo: Vec<Route>, kept: RouteSet) -> (step: Step)
        requires
            old(self).wf(),
            kept.wf(),
        ensures
            final(self).wf(),
            (final(self)@, step@) == old(self)@.unlinking(info@, todo.deep_view(), kept@),
    {
        assert(todo.len() == todo.deep_view().len());
        if todo.len() > 0 {
            assert(todo.deep_view()[0] == todo@[0]@);
            let command = remove_link_command(
                todo[0].output_path.as_str(),
                todo[0].input_path.as_str(),
            );
            self.act(Phase::Unlinking { info, todo, kept }, Action::Run(command))
        } else {
            self.routes = kept;
            self.answer(Reply::Sink(Ok(info)))
        }
    }

    /// Takes what came of the last action, at the time `now` in milliseconds,
    /// and goes on with the operation.
    pub fn resume(&mut self, event: Event, now: u64) -> (step: Step)
        requires
            old(self).wf(),
            old(self)@.expects(event@),
        ensures
            final(self).wf(),
            (final(self)@, step@) == old(self)@.resumed(event@, now),
    {
        let mut phase = Phase::Idle;
        std::mem::swap(&mut phase, &mut self.phase);
        match event {
            Event::Collected(outcome) => self.take_graph(phase, outcome, now),
            Event::Ran(outcome) => self.take_text(phase, outcome, now),
            Event::Paused => match phase {
                Phase::Pausing { goal, deadline } => self.act(
                    Phase::Waiting { goal, deadline },
                    Action::Collect,
                ),
                _ => self.act(phase, Action::Collect),
            },
        }
    }

    fn take_graph(
        &mut self,
        phase: Phase,
        outcome: Result<PipeWireSnapshot, BackendError>,
        now: u64,
    ) -> (step: Step)
        requires
            old(self).wf(),
            phase.wf(),
        ensures
            final(self).wf(),
            (final(self)@, step@) == (StateView { phase: phase@, ..old(self)@ }).after_graph(
                graph_result(outcome),
                now,
            ),
    {
        match phase {
            Phase::Listing { include_devices } => match outcome {
                Ok(snapshot) => {
                    let nodes = list_nodes(&snapshot, self.sink_name.as_str(), include_devices);
                    self.answer(Reply::Nodes(Ok(nodes)))
                },
                Err(error) => self.answer(Reply::Nodes(Err(error))),
            },
            Phase::Checking { goal } => match outcome {
                Ok(snapshot) => match self.ready_node_id(&snapshot) {
                    Some(id) => self.accept_sink(goal, &snapshot, id),
                    None => {
                        let command = load_sink_command(
                            self.sink_name.as_str(),
                            self.sink_description.as_str(),
                        );
                        self.act(Phase::LoadingSink { goal }, Action::Run(command))
                    },
                },
                Err(error) => self.fail(error),
            },
            Phase::Waiting { goal, deadline } => match outcome {
                Ok(snapshot) => match self.ready_node_id(&snapshot) {
                    Some(id) => self.accept_sink(goal, &snapshot, id),
                    None => self.keep_waiting(goal, deadline, now),
                },
                Err(_) => self.keep_waiting(goal, deadline, now),
            },
            Phase::Planning { ids, info } => match outcome {
                Ok(snapshot) => {
                    let plan = plan_routes(
                        &snapshot,
                        self.sink_name.as_str(),
                        self.sink_description.as_str(),
                        ids,
                    );
                    match plan {
                        Ok(wanted) => self.start_linking(info, wanted),
                        Err(error) => self.fail(error),
                    }
                },
                Err(error) => self.fail(error),
            },
            _ => self.act(phase, Action::Collect),
        }
    }

    fn take_text(
        &mut self,
        phase: Phase,
        outcome: Result<String, BackendError>,
        now: u64,
    ) -> (step: Step)
        requires
            old(self).wf(),
            phase.wf(),
        ensures
            final(self).wf(),
            (final(self)@, step@) == (StateView { phase: phase@, ..old(self)@ }).after_command(
                text_result(outcome),
                now,
            ),
    {
        match phase {
            Phase::LoadingSink { goal } => match outcome {
                Ok(text) => match parse_module_id(text.as_str()) {
                    Ok(id) => {
                        self.replaced = replace_module(&self.replaced, self.module_id, id);
                        self.module_id = Some(id);
                        let deadline = now.saturating_add(SINK_WAIT_MS);
                        self.act(Phase::Waiting { goal, deadline }, Action::Collect)
                    },
                    Err(error) => self.fail(error),
                },
                Err(error) => self.fail(error),
            },
            Phase::LoadingMic { goal, info } => match outcome {
                Ok(text) => match parse_module_id(text.as_str()) {
                    Ok(id) => {
                        self.replaced = replace_module(&self.replaced, self.mic_module_id, id);
                        self.mic_module_id = Some(id);
                        self.go_on(goal, info)
                    },
                    Err(error) => self.fail(error),
                },
                Err(error) => self.fail(error),
            },
            Phase::Linking { info, wanted, todo, active } => {
                let (mut todo, mut active) = (todo, active);
                let ghost all = todo.deep_view();
                let route = todo.remove(0);
                assert(route@ == all[0]);
                assert(todo.deep_view() =~= all.drop_first());
                if create_link(outcome).is_ok() {
                    active.insert(route);
                }
                self.link_next(info, wanted, todo, active)
            },
            Phase::Unlinking { info, todo, kept } => {
                let (mut todo, mut kept) = (todo, kept);
                let ghost all = todo.deep_view();
                let route = todo.remove(0);
                assert(route@ == all[0]);
                assert(todo.deep_view() =~= all.drop_first());
                if remove_link(outcome).is_err() {
                    kept.insert(route);
                }
                self.unlink_next(info, todo, kept)
            },
            Phase::Clearing { todo, failed, disposing } => {
                let (mut todo, mut failed) = (todo, failed);
                let ghost all = todo.deep_view();
                let route = todo.remove(0);
                assert(route@ == all[0]);
                assert(todo.deep_view() =~= all.drop_first());
                if remove_link(outcome).is_err() {
                    failed.insert(route);
                }
                self.clear_next(todo, failed, disposing)
            },
            Phase::UnloadingMic { id, errors } => {
                let mut errors = errors;
                match outcome {
                    Ok(_) => {
                        self.mic_module_id = None;
                    },
                    Err(error) => {
                        let ghost known = errors.deep_view();
                        let complaint = unload_message(
                            "failed to unload virtual microphone module ",
                            id,
                            &error,
                        );
                        let ghost said = complaint@;
                        errors.push(complaint);
                        assert(errors.deep_view() =~= known.push(said));
                    },
                }
                self.unload_sink(errors)
            },
            Phase::UnloadingSink { id, errors } => {
                let mut errors = errors;
                match outcome {
                    Ok(_) => {
                        self.module_id = None;
                    },
                    Err(error) => {
                        let ghost known = errors.deep_view();
                        let complaint = unload_message(
                            "failed to unload virtual sink module ",
                            id,
                            &error,
                        );
                        let ghost said = complaint@;
                        errors.push(complaint);
                        assert(errors.deep_view() =~= known.push(said));
                    },
                }
                self.unload_all_replaced(errors)
            },
            Phase::UnloadingReplaced { left, errors } => {
                let (mut left, mut errors) = (left, errors);
                let ghost all = left@;
                let id = left.remove(0);
                assert(left@ =~= all.drop_first());
                match outcome {
                    Ok(_) => {
                        self.replaced = ids_without(&self.replaced, id);
                    },
                    Err(error) => {
                        let ghost known = errors.deep_view();
                        let complaint = unload_message(
                            "failed to unload replaced module ",
                            id,
                            &error,
                        );
                        let ghost said = complaint@;
                        errors.push(complaint);
                        assert(errors.deep_view() =~= known.push(said));
                    },
                }
                self.unload_next_replaced(left, errors)
            },
            _ => self.act(phase, Action::Collect),
        }
    }

    fn graph_log(&self, outcome: &Result<PipeWireSnapshot, BackendError>) -> (messages: Vec<Message>)
        ensures
            messages.deep_view() == self@.graph_messages(graph_result(*outcome)),
    {
        let mut messages: Vec<Message> = Vec::new();
        assert(messages.deep_view() =~= seq![]);
        match (&self.phase, outcome) {
            (Phase::Checking { .. }, Ok(snapshot)) => {
                if self.ready_node_id(snapshot).is_none() {
                    messages.push(creating_message(self.sink_name.as_str()));
                    assert(messages.deep_view() =~= seq![creating_view(self.sink_name@)]);
                }
            },
            (Phase::Waiting { .. }, Ok(snapshot)) => {
                if let Some(id) = self.ready_node_id(snapshot) {
                    messages.push(ready_message(self.sink_name.as_str(), id));
                    assert(messages.deep_view() =~= seq![ready_view(self.sink_name@, id)]);
                }
            },
            (Phase::Waiting { .. }, Err(error)) => {
                messages.push(transient_message(error.message().as_str()));
                assert(messages.deep_view() =~= seq![transient_view(error_text(error@))]);
            },
            (Phase::Planning { ids, .. }, Ok(snapshot)) => {
                let passed_over = skipped_nodes(
                    snapshot,
                    self.sink_name.as_str(),
                    self.sink_description.as_str(),
                    ids,
                );
                return skip_messages(&passed_over);
            },
            _ => {},
        }
        messages
    }

    fn command_log(&self, outcome: &Result<String, BackendError>) -> (messages: Vec<Message>)
        requires
            self.wf(),
        ensures
            messages.deep_view() == self@.command_messages(text_result(*outcome)),
    {
        let mut messages: Vec<Message> = Vec::new();
        let ghost said = self@.command_messages(text_result(*outcome));
        assert(messages.deep_view() =~= seq![]);
        match &self.phase {
            Phase::Linking { todo, .. } => {
                if let Some(complaint) = creation_complaint(outcome) {
                    assert(todo.deep_view()[0] == todo@[0]@);
                    messages.push(
                        link_failure_message(
                            "[patchbay] failed to link ",
                            &todo[0],
                            complaint.as_str(),
                        ),
                    );
                    assert(messages.deep_view() =~= said);
                }
            },
            Phase::Unlinking { todo, .. } => {
                if let Some(complaint) = removal_complaint(outcome) {
                    assert(todo.deep_view()[0] == todo@[0]@);
                    messages.push(
                        link_failure_message(
                            "[patchbay] failed to remove stale link ",
                            &todo[0],
                            complaint.as_str(),
                        ),
                    );
                    assert(messages.deep_view() =~= said);
                }
            },
            Phase::Clearing { todo, .. } => {
                if let Some(complaint) = removal_complaint(outcome) {
                    assert(todo.deep_view()[0] == todo@[0]@);
                    messages.push(
                        link_failure_message(
                            "[patchbay] failed to remove link ",
                            &todo[0],
                            complaint.as_str(),
                        ),
                    );
                    assert(messages.deep_view() =~= said);
                }
            },
            Phase::UnloadingMic { id, .. } => {
                if let Err(error) = outcome {
                    messages.push(unload_failure_message(*id, error.message().as_str()));
                    assert(messages.deep_view() =~= said);
                }
            },
            Phase::UnloadingSink { id, .. } => {
                if let Err(error) = outcome {
                    messages.push(unload_failure_message(*id, error.message().as_str()));
                    assert(messages.deep_view() =~= said);
                }
            },
            Phase::UnloadingReplaced { left, .. } => {
                if let Err(error) = outcome {
                    messages.push(unload_failure_message(left[0], error.message().as_str()));
                    assert(messages.deep_view() =~= said);
                }
            },
            _ => {},
        }
        messages
    }

    /// What there is to log of an event, to be asked before the event is taken.
    pub fn messages(&self, event: &Event) -> (messages: Vec<Message>)
        requires
            self.wf(),
        ensures
            messages.deep_view() == self@.messages(event@),
    {
        match event {
            Event::Collected(outcome) => self.graph_log(outcome),
            Event::Ran(outcome) => self.command_log(outcome),
            Event::Paused => {
                let messages: Vec<Message> = Vec::new();
                assert(messages.deep_view() =~= seq![]);
                messages
            },
        }
    }

    /// What there is to log of the action that the session waits for.
    pub fn announcement(&self) -> (message: Option<Message>)
        requires
            self.wf(),
        ensures
            message.deep_view() == self@.announcement(),
    {
        match &self.phase {
            Phase::Linking { todo, .. } => {
                assert(todo.deep_view()[0] == todo@[0]@);
                Some(linking_message(&todo[0]))
            },
            _ => None,
        }
    }

    /// Whether the session waits for an event of this kind.
    pub fn accepts(&self, event: &Event) -> (yes: bool)
        ensures
            yes == self@.expects(event@),
    {
        match (event, &self.phase) {
            (Event::Collected(_), Phase::Listing { .. }) => true,
            (Event::Collected(_), Phase::Checking { .. }) => true,
            (Event::Collected(_), Phase::Waiting { .. }) => true,
            (Event::Collected(_), Phase::Planning { .. }) => true,
            (Event::Ran(_), Phase::LoadingSink { .. }) => true,
            (Event::Ran(_), Phase::LoadingMic { .. }) => true,
            (Event::Ran(_), Phase::Linking { .. }) => true,
            (Event::Ran(_), Phase::Unlinking { .. }) => true,
            (Event::Ran(_), Phase::Clearing { .. }) => true,
            (Event::Ran(_), Phase::UnloadingMic { .. }) => true,
            (Event::Ran(_), Phase::UnloadingSink { .. }) => true,
            (Event::Ran(_), Phase::UnloadingReplaced { .. }) => true,
            (Event::Paused, Phase::Pausing { .. }) => true,
            _ => false,
        }
    }

    /// Whether no operation is under way.
    pub fn is_idle(&self) -> (yes: bool)
        ensures
            yes == (self@.phase is Idle),
    {
        matches!(self.phase, Phase::Idle)
    }

    /// Whether PipeWire is the active audio server.
    pub fn is_available(&self) -> (yes: bool)
        ensures
            yes == self@.available,
    {
        self.available
    }

    /// The name of the virtual sink.
    pub fn sink_name(&self) -> (name: &str)
        ensures
            name@ == self@.sink_name,
    {
        self.sink_name.as_str()
    }

    /// The module of the virtual sink.
    pub fn module_id(&self) -> (id: Option<u32>)
        ensures
            id == self@.module_id,
    {
        self.module_id
    }

    /// The module of the virtual microphone.
    pub fn mic_module_id(&self) -> (id: Option<u32>)
        ensures
            id == self@.mic_module_id,
    {
        self.mic_module_id
    }

    /// The modules in whose place another was loaded.
    pub fn replaced_modules(&self) -> (ids: &Vec<u32>)
        ensures
            ids@ == self@.replaced,
    {
        &self.replaced
    }

    /// The routes of the session in ascending order.
    pub fn routes(&self) -> (routes: Vec<Route>)
        requires
            self.wf(),
        ensures
            routes.deep_view() == in_order(self@.routes),
            routes.deep_view().to_set() == self@.routes,
    {
        self.routes.to_vec()
    }

    /// The node of the virtual sink, whether it can be used yet or not.
    pub fn virtual_sink_node_id(&self, snapshot: &PipeWireSnapshot) -> (id: Option<u32>)
        ensures
            id == match sink_in(snapshot@, self@.sink_name, self@.sink_description) {
                Some(node) => Some(node.id),
                None => None,
            },
    {
        match snapshot.find_virtual_sink(
            self.sink_name.as_str(),
            self.sink_description.as_str(),
        ) {
            Some(node) => Some(node.id),
            None => None,
        }
    }

    fn ready_node_id(&self, snapshot: &PipeWireSnapshot) -> (id: Option<u32>)
        ensures
            id == ready_sink(snapshot@, self@.sink_name, self@.sink_description),
    {
        find_ready_sink(snapshot, self.sink_name.as_str(), self.sink_description.as_str())
    }

    /// Where the shared audio can be picked up, once the virtual sink can be
    /// used.
    pub fn virtual_sink_info(&self, snapshot: &PipeWireSnapshot) -> (info: Option<VirtualSinkInfo>)
        ensures
            match info {
                Some(info) => ready_sink(
                    snapshot@,
                    self@.sink_name,
                    self@.sink_description,
                ) matches Some(id) && info@ == info_view(self@.sink_name, self@.mic, id),
                None => ready_sink(snapshot@, self@.sink_name, self@.sink_description) is None,
            },
    {
        match self.ready_node_id(snapshot) {
            Some(id) => Some(sink_info(self.sink_name.as_str(), &self.mic, id)),
            None => None,
        }
    }

    /// The name of the source that carries what is played to the virtual sink.
    pub fn monitor_source_name(&self) -> (name: String)
        ensures
            name@ == monitor_of(self@.sink_name),
    {
        monitor_name(self.sink_name.as_str())
    }

    /// Whether the node is the virtual sink.
    pub fn is_our_virtual_sink_node(&self, node: &NodeRecord) -> (yes: bool)
        ensures
            yes == node@.is_named(self@.sink_name),
    {
        is_virtual_sink_node(node, self.sink_name.as_str())
    }

    /// Whether the node is the monitor of the virtual sink.
    pub fn is_our_monitor_node(&self, node: &NodeRecord) -> (yes: bool)
        ensures
            yes == node@.is_named(monitor_of(self@.sink_name)),
    {
        is_monitor_node(node, self.sink_name.as_str())
    }

    /// Whether the node is one of the virtual objects of the session.
    pub fn is_our_virtual_audio_object(&self, node: &NodeRecord) -> (yes: bool)
        ensures
            yes == node@.is_own(self@.sink_name),
    {
        self.is_our_virtual_sink_node(node) || self.is_our_monitor_node(node)
    }
}

fn ids_without(ids: &Vec<u32>, id: u32) -> (others: Vec<u32>)
    ensures
        others@ == without(ids@, id),
{
    let ghost differs = other_than(id);
    let mut others: Vec<u32> = Vec::new();
    let mut i: usize = 0;
    assert(ids@.take(0).filter(differs) =~= seq![]) by {
        reveal(Seq::filter);
    }
    while i < ids.len()
        invariant
            i <= ids.len(),
            differs == other_than(id),
            others@ == ids@.take(i as int).filter(differs),
        decreases ids.len() - i,
    {
        proof {
            ids@.take(i as int).lemma_filter_push(ids@[i as int], differs);
            assert(ids@.take(i + 1) =~= ids@.take(i as int).push(ids@[i as int]));
        }
        if ids[i] != id {
            others.push(ids[i]);
        }
        i += 1;
    }
    assert(ids@.take(i as int) =~= ids@);
    others
}

fn replace_module(replaced: &Vec<u32>, former: Option<u32>, loaded: u32) -> (ids: Vec<u32>)
    ensures
        ids@ == replaced_by(replaced@, former, loaded),
{
    let mut others = ids_without(replaced, loaded);
    if let Some(id) = former {
        if id != loaded && !has_id(&others, id) {
            others.push(id);
        }
    }
    others
}

fn unload_message(head: &str, id: u32, error: &BackendError) -> (text: String)
    ensures
        text@ == unload_complaint(head@, id, error@),
{
    let mut text = head.to_string();
    text.append(number_text(id as u64).as_str());
    text.append(": ");
    text.append(error.message().as_str());
    text
}

} // verus!
