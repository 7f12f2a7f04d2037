//! The patchbay that a session shares audio with.
use vstd::prelude::*;

use crate::config::PatchbayConfig;
use crate::detect::has_pipewire;
use crate::error::BackendError;
use crate::messages::Message;
use crate::models::{Route, RouteView};
use crate::routes::in_order;
use crate::state::{initial, Event, GoalView, PatchbayState, StateView, Step};

verus! {

/// Shares the audio of chosen nodes through a virtual sink.
#[derive(Debug)]
pub struct AudioSharePatchbay {
    state: PatchbayState,
}

impl View for AudioSharePatchbay {
    type V = StateView;

    closed spec fn view(&self) -> StateView {
        self.state@
    }
}

impl AudioSharePatchbay {
    /// The state of the patchbay is well formed.
    pub closed spec fn wf(&self) -> bool {
        self.state.wf()
    }

    /// A patchbay with nothing in it. `unique` is a number that no other
    /// patchbay of the process has, and `detection` is what the search for
    /// PipeWire brought.
    pub fn new(
        config: &PatchbayConfig,
        process_id: u32,
        unique: u64,
        detection: &Result<bool, BackendError>,
    ) -> (patchbay: AudioSharePatchbay)
        ensures
            patchbay.wf(),
            patchbay@ == initial(
                config@,
                process_id,
                unique,
                *detection == Ok::<bool, BackendError>(true),
            ),
    {
        AudioSharePatchbay {
            state: PatchbayState::new(config, process_id, unique, has_pipewire(detection)),
        }
    }

    /// Whether PipeWire is the active audio server.
    pub fn is_available(&self) -> (yes: bool)
        ensures
            yes == self@.available,
    {
        self.state.is_available()
    }

    /// Whether no operation is under way.
    pub fn is_idle(&self) -> (yes: bool)
        ensures
            yes == (self@.phase is Idle),
    {
        self.state.is_idle()
    }

    /// The routes of the session in ascending order.
    pub fn routes(&self) -> (routes: Vec<Route>)
        requires
            self.wf(),
        ensures
            routes.deep_view() == in_order(self@.routes),
            routes.deep_view().to_set() == self@.routes,
    {
        self.state.routes()
    }

    /// Lists the nodes that can be shared.
    pub fn list_shareable_nodes(&mut self, include_devices: bool) -> (step: Step)
        requires
            old(self).wf(),
            old(self)@.phase is Idle,
        ensures
            final(self).wf(),
            (final(self)@, step@) == old(self)@.list_begun(include_devices),
    {
        self.state.list_shareable_nodes(include_devices)
    }

    /// Makes the virtual sink where it is missing, and the virtual microphone
    /// where there is to be one.
    pub fn ensure_virtual_sink(&mut self) -> (step: Step)
        requires
            old(self).wf(),
            old(self)@.phase is Idle,
        ensures
            final(self).wf(),
            (final(self)@, step@) == old(self)@.sink_begun(GoalView::Sink),
    {
        self.state.ensure_virtual_sink()
    }

    /// Lets the chosen nodes, and no others, be heard through the virtual sink.
    pub fn route_nodes(&mut self, node_ids: Vec<u32>) -> (step: Step)
        requires
            old(self).wf(),
            old(self)@.phase is Idle,
        ensures
            final(self).wf(),
            (final(self)@, step@) == old(self)@.route_begun(node_ids@),
    {
        self.state.route_nodes(node_ids)
    }

    /// Removes all routes of the session. The virtual devices stay.
    pub fn clear_routes(&mut self) -> (step: Step)
        requires
            old(self).wf(),
            old(self)@.phase is Idle,
        ensures
            final(self).wf(),
            (final(self)@, step@) == old(self)@.clear_begun(false),
    {
        self.state.clear_routes()
    }

    /// Removes all routes of the session, and then its virtual devices.
    pub fn dispose(&mut self) -> (step: Step)
        requires
            old(self).wf(),
            old(self)@.phase is Idle,
        ensures
            final(self).wf(),
            (final(self)@, step@) == old(self)@.clear_begun(true),
    {
        self.state.dispose()
    }

    /// What there is to log of an event, to be asked before the event is taken.
    pub fn messages(&self, event: &Event) -> (messages: Vec<Message>)
        requires
            self.wf(),
        ensures
            messages.deep_view() == self@.messages(event@),
    {
        self.state.messages(event)
    }

    /// What there is to log of the action that the patchbay waits for.
    pub fn announcement(&self) -> (message: Option<Message>)
        requires
            self.wf(),
        ensures
            message.deep_view() == self@.announcement(),
    {
        self.state.announcement()
    }

    /// Whether the patchbay waits for an event of this kind.
    pub fn accepts(&self, event: &Event) -> (yes: bool)
        ensures
            yes == self@.expects(event@),
    {
        self.state.accepts(event)
    }

    /// Takes what came of the last action, at the time `now` in milliseconds,
    /// and goes on with the operation.
    pub fn resume(&mut self, event: Event, now: u64) -> (step: Step)
        requires
            old(self).wf(),
            old(self)@.expects(event@),
        ensures
            final(self).wf(),
            (final(self)@, step@) == old(self)@.resumed(event@, now),
    {
        self.state.resume(event, now)
    }
}

/// A patchbay can be used exactly when PipeWire was found, and starts with nothing
/// in it.
pub proof fn law_new_patchbay(
    config: PatchbayConfig,
    process_id: u32,
    unique: u64,
    detection: Result<bool, BackendError>,
    patchbay: AudioSharePatchbay,
)
    requires
        call_ensures(
            AudioSharePatchbay::new,
            (&config, process_id, unique, &detection),
            patchbay,
        ),
    ensures
        patchbay@.available <==> detection is Ok && detection->Ok_0,
        patchbay@ == initial(config@, process_id, unique, patchbay@.available),
        patchbay@.phase is Idle,
        patchbay@.routes == Set::<RouteView>::empty(),
{
}

} // verus!
