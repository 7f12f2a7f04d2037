//! Requests and the responses to them.
use vstd::prelude::*;

use crate::error::error_text;
use crate::messages::Message;
use crate::models::{ShareableNode, ShareableView, SinkInfoView, VirtualSinkInfo};
use crate::patchbay::AudioSharePatchbay;
use crate::runs::{
    comes_of, in_step, law_operations_start_in_step, law_operations_stay_in_step,
};
use crate::state::{
    Action, ActionView, Event, EventView, GoalView, Reply, ReplyView, StateView, Step, StepView,
};
use crate::text::{
    all_white, law_trimmed, law_trimming_keeps_text, same_text, trim, trimmed,
};

verus! {

/// What can be asked for.
#[derive(Debug, Clone, Copy, PartialEq, Eq, Structural)]
pub enum Method {
    HasPipeWire,
    ListShareableNodes,
    EnsureVirtualSink,
    RouteNodes,
    ClearRoutes,
    Dispose,
}

/// The method of a name.
pub open spec fn method_of(name: Seq<char>) -> Option<Method> {
    if name == "hasPipeWire"@ {
        Some(Method::HasPipeWire)
    } else if name == "listShareableNodes"@ {
        Some(Method::ListShareableNodes)
    } else if name == "ensureVirtualSink"@ {
        Some(Method::EnsureVirtualSink)
    } else if name == "routeNodes"@ {
        Some(Method::RouteNodes)
    } else if name == "clearRoutes"@ {
        Some(Method::ClearRoutes)
    } else if name == "dispose"@ {
        Some(Method::Dispose)
    } else {
        None
    }
}

impl Method {
    /// The method of a name.
    pub fn parse(name: &str) -> (method: Option<Method>)
        ensures
            method == method_of(name@),
    {
        if same_text(name, "hasPipeWire") {
            Some(Method::HasPipeWire)
        } else if same_text(name, "listShareableNodes") {
            Some(Method::ListShareableNodes)
        } else if same_text(name, "ensureVirtualSink") {
            Some(Method::EnsureVirtualSink)
        } else if same_text(name, "routeNodes") {
            Some(Method::RouteNodes)
        } else if same_text(name, "clearRoutes") {
            Some(Method::ClearRoutes)
        } else if same_text(name, "dispose") {
            Some(Method::Dispose)
        } else {
            None
        }
    }
}

/// A request with its id.
#[derive(Debug, PartialEq, Eq)]
pub enum Request {
    HasPipeWire { id: u64 },
    ListShareableNodes { id: u64, include_devices: bool },
    EnsureVirtualSink { id: u64 },
    RouteNodes { id: u64, node_ids: Vec<u32> },
    ClearRoutes { id: u64 },
    Dispose { id: u64 },
}

/// A [`Request`] with its nodes as a sequence.
pub enum RequestView {
    HasPipeWire { id: u64 },
    ListShareableNodes { id: u64, include_devices: bool },
    EnsureVirtualSink { id: u64 },
    RouteNodes { id: u64, node_ids: Seq<u32> },
    ClearRoutes { id: u64 },
    Dispose { id: u64 },
}

impl View for Request {
    type V = RequestView;

    open spec fn view(&self) -> RequestView {
        match self {
            Request::HasPipeWire { id } => RequestView::HasPipeWire { id: *id },
            Request::ListShareableNodes { id, include_devices } => RequestView::ListShareableNodes {
                id: *id,
                include_devices: *include_devices,
            },
            Request::EnsureVirtualSink { id } => RequestView::EnsureVirtualSink { id: *id },
            Request::RouteNodes { id, node_ids } => RequestView::RouteNodes {
                id: *id,
                node_ids: node_ids@,
            },
            Request::ClearRoutes { id } => RequestView::ClearRoutes { id: *id },
            Request::Dispose { id } => RequestView::Dispose { id: *id },
        }
    }
}

impl DeepView for Request {
    type V = RequestView;

    open spec fn deep_view(&self) -> RequestView {
        self@
    }
}

/// The fields of a request. Devices are left out where nothing is said of them.
#[derive(Debug)]
pub struct Fields {
    pub id: Option<u64>,
    pub include_devices: Option<bool>,
    pub node_ids: Option<Vec<u32>>,
}

/// The request that a method and its fields make. An id is always needed, and
/// nodes where they are to be routed.
pub open spec fn request_of(method: Method, fields: Fields) -> Option<RequestView> {
    match fields.id {
        None => None,
        Some(id) => match method {
            Method::HasPipeWire => Some(RequestView::HasPipeWire { id }),
            Method::ListShareableNodes => Some(
                RequestView::ListShareableNodes {
                    id,
                    include_devices: fields.include_devices == Some(true),
                },
            ),
            Method::EnsureVirtualSink => Some(RequestView::EnsureVirtualSink { id }),
            Method::RouteNodes => match fields.node_ids {
                Some(node_ids) => Some(RequestView::RouteNodes { id, node_ids: node_ids@ }),
                None => None,
            },
            Method::ClearRoutes => Some(RequestView::ClearRoutes { id }),
            Method::Dispose => Some(RequestView::Dispose { id }),
        },
    }
}

impl Request {
    /// The request that a method and its fields make.
    pub fn from_fields(method: Method, fields: Fields) -> (request: Option<Request>)
        ensures
            request.deep_view() == request_of(method, fields),
    {
        let id = match fields.id {
            Some(id) => id,
            None => return None,
        };
        match method {
            Method::HasPipeWire => Some(Request::HasPipeWire { id }),
            Method::ListShareableNodes => {
                let include_devices = match fields.include_devices {
                    Some(include_devices) => include_devices,
                    None => false,
                };
                Some(Request::ListShareableNodes { id, include_devices })
            },
            Method::EnsureVirtualSink => Some(Request::EnsureVirtualSink { id }),
            Method::RouteNodes => match fields.node_ids {
                Some(node_ids) => Some(Request::RouteNodes { id, node_ids }),
                None => None,
            },
            Method::ClearRoutes => Some(Request::ClearRoutes { id }),
            Method::Dispose => Some(Request::Dispose { id }),
        }
    }
}

impl RequestView {
    pub open spec fn id(self) -> u64 {
        match self {
            RequestView::HasPipeWire { id } => id,
            RequestView::ListShareableNodes { id, .. } => id,
            RequestView::EnsureVirtualSink { id } => id,
            RequestView::RouteNodes { id, .. } => id,
            RequestView::ClearRoutes { id } => id,
            RequestView::Dispose { id } => id,
        }
    }
}

/// The response to a request, with the id of the request.
#[derive(Debug, PartialEq, Eq)]
pub enum Response {
    Flag { id: u64, value: bool },
    Nodes { id: u64, nodes: Vec<ShareableNode> },
    Sink { id: u64, info: VirtualSinkInfo },
    Unit { id: u64 },
    Error { id: u64, error: String },
}

/// A [`Response`] with its texts as sequences of characters.
pub enum ResponseView {
    Flag { id: u64, value: bool },
    Nodes { id: u64, nodes: Seq<ShareableView> },
    Sink { id: u64, info: SinkInfoView },
    Unit { id: u64 },
    Error { id: u64, error: Seq<char> },
}

impl View for Response {
    type V = ResponseView;

    open spec fn view(&self) -> ResponseView {
        match self {
            Response::Flag { id, value } => ResponseView::Flag { id: *id, value: *value },
            Response::Nodes { id, nodes } => ResponseView::Nodes {
                id: *id,
                nodes: nodes.deep_view(),
            },
            Response::Sink { id, info } => ResponseView::Sink { id: *id, info: info@ },
            Response::Unit { id } => ResponseView::Unit { id: *id },
            Response::Error { id, error } => ResponseView::Error { id: *id, error: error@ },
        }
    }
}

impl ResponseView {
    pub open spec fn id(self) -> u64 {
        match self {
            ResponseView::Flag { id, .. } => id,
            ResponseView::Nodes { id, .. } => id,
            ResponseView::Sink { id, .. } => id,
            ResponseView::Unit { id } => id,
            ResponseView::Error { id, .. } => id,
        }
    }
}

/// How an operation is answered to the one who asked for it.
pub open spec fn response_to(id: u64, reply: ReplyView) -> ResponseView {
    match reply {
        ReplyView::Nodes(Ok(nodes)) => ResponseView::Nodes { id, nodes },
        ReplyView::Nodes(Err(error)) => ResponseView::Error { id, error: error_text(error) },
        ReplyView::Sink(Ok(info)) => ResponseView::Sink { id, info },
        ReplyView::Sink(Err(error)) => ResponseView::Error { id, error: error_text(error) },
        ReplyView::Unit(Ok(())) => ResponseView::Unit { id },
        ReplyView::Unit(Err(error)) => ResponseView::Error { id, error: error_text(error) },
    }
}

/// How an operation is answered to the one who asked for it.
pub fn respond(id: u64, reply: Reply) -> (response: Response)
    ensures
        response@ == response_to(id, reply@),
{
    match reply {
        Reply::Nodes(Ok(nodes)) => Response::Nodes { id, nodes },
        Reply::Nodes(Err(error)) => Response::Error { id, error: error.message() },
        Reply::Sink(Ok(info)) => Response::Sink { id, info },
        Reply::Sink(Err(error)) => Response::Error { id, error: error.message() },
        Reply::Unit(Ok(())) => Response::Unit { id },
        Reply::Unit(Err(error)) => Response::Error { id, error: error.message() },
    }
}

/// The response to a line that is no request. The id is that of the line, where
/// it has one, and else 0.
pub fn invalid_request(id: Option<u64>, reason: &str) -> (response: Response)
    ensures
        response@ == (ResponseView::Error {
            id: match id {
                Some(id) => id,
                None => 0,
            },
            error: "invalid request: "@ + reason@,
        }),
{
    let id = match id {
        Some(id) => id,
        None => 0,
    };
    let mut error = "invalid request: ".to_string();
    error.append(reason);
    Response::Error { id, error }
}

/// Whether a line is to be read as a request: blank lines are not.
pub fn is_request_line(line: &str) -> (yes: bool)
    ensures
        yes == (trimmed(line@).len() > 0),
{
    !trim(line).as_str().is_empty()
}

/// What the handling of a request came to.
#[derive(Debug)]
pub enum Progress {
    /// Something is to be done first.
    Act(Action),
    /// The request is answered. Without `go_on` it was the last one.
    Respond { response: Response, go_on: bool },
}

/// [`Progress`] with its texts as sequences of characters.
pub enum ProgressView {
    Act(ActionView),
    Respond { response: ResponseView, go_on: bool },
}

impl View for Progress {
    type V = ProgressView;

    open spec fn view(&self) -> ProgressView {
        match self {
            Progress::Act(action) => ProgressView::Act(action@),
            Progress::Respond { response, go_on } => ProgressView::Respond {
                response: response@,
                go_on: *go_on,
            },
        }
    }
}

/// A request that is being handled.
#[derive(Debug, Clone, Copy)]
pub struct Pending {
    pub id: u64,
    /// Whether the session ends with the response.
    pub last: bool,
}

/// A session: its patchbay, and the request that is being handled.
pub struct SessionView {
    pub state: StateView,
    pub pending: Option<Pending>,
}

impl SessionView {
    /// How the handling of a request stands with its operation at a step.
    pub open spec fn advanced(at: (StateView, StepView), pending: Pending) -> (
        SessionView,
        ProgressView,
    ) {
        match at.1 {
            StepView::Act(action) => (
                SessionView { state: at.0, pending: Some(pending) },
                ProgressView::Act(action),
            ),
            StepView::Done(reply) => (
                SessionView { state: at.0, pending: None },
                ProgressView::Respond {
                    response: response_to(pending.id, reply),
                    go_on: !pending.last,
                },
            ),
        }
    }

    /// What a request sets off.
    pub open spec fn handled(self, request: RequestView) -> (SessionView, ProgressView) {
        let pending = Pending { id: request.id(), last: request is Dispose };
        match request {
            RequestView::HasPipeWire { id } => (
                self,
                ProgressView::Respond {
                    response: ResponseView::Flag { id, value: self.state.available },
                    go_on: true,
                },
            ),
            RequestView::ListShareableNodes { include_devices, .. } => SessionView::advanced(
                self.state.list_begun(include_devices),
                pending,
            ),
            RequestView::EnsureVirtualSink { .. } => SessionView::advanced(
                self.state.sink_begun(GoalView::Sink),
                pending,
            ),
            RequestView::RouteNodes { node_ids, .. } => SessionView::advanced(
                self.state.route_begun(node_ids),
                pending,
            ),
            RequestView::ClearRoutes { .. } => SessionView::advanced(
                self.state.clear_begun(false),
                pending,
            ),
            RequestView::Dispose { .. } => SessionView::advanced(
                self.state.clear_begun(true),
                pending,
            ),
        }
    }

    /// Whether the session waits for such an event.
    pub open spec fn expects(self, event: EventView) -> bool {
        self.pending is Some && self.state.expects(event)
    }

    /// What follows an event at the time `now`.
    pub open spec fn resumed(self, event: EventView, now: u64) -> (SessionView, ProgressView)
        recommends
            self.expects(event),
    {
        SessionView::advanced(self.state.resumed(event, now), self.pending->Some_0)
    }
}

/// Handles requests one after the other.
#[derive(Debug)]
pub struct Session {
    patchbay: AudioSharePatchbay,
    pending: Option<Pending>,
}

impl View for Session {
    type V = SessionView;

    closed spec fn view(&self) -> SessionView {
        SessionView { state: self.patchbay@, pending: self.pending }
    }
}

impl Session {
    /// An operation is under way exactly when a request is being handled.
    pub closed spec fn wf(&self) -> bool {
        self.patchbay.wf() && (self.pending is None <==> self.patchbay@.phase is Idle)
    }

    /// A session that handles requests with `patchbay`.
    pub fn new(patchbay: AudioSharePatchbay) -> (session: Session)
        requires
            patchbay.wf(),
            patchbay@.phase is Idle,
        ensures
            session.wf(),
            session@ == (SessionView { state: patchbay@, pending: None }),
    {
        Session { patchbay, pending: None }
    }

    /// Whether a request is being handled.
    pub fn is_busy(&self) -> (yes: bool)
        ensures
            yes == (self@.pending is Some),
    {
        self.pending.is_some()
    }

    /// Whether the session waits for an event of this kind.
    pub fn accepts(&self, event: &Event) -> (yes: bool)
        ensures
            yes == self@.expects(event@),
    {
        self.pending.is_some() && self.patchbay.accepts(event)
    }

    /// What there is to log of an event, to be asked before the event is taken.
    pub fn messages(&self, event: &Event) -> (messages: Vec<Message>)
        requires
            self.wf(),
        ensures
            messages.deep_view() == self@.state.messages(event@),
    {
        self.patchbay.messages(event)
    }

    /// What there is to log of the action that the session waits for.
    pub fn announcement(&self) -> (message: Option<Message>)
        requires
            self.wf(),
        ensures
            message.deep_view() == self@.state.announcement(),
    {
        self.patchbay.announcement()
    }

    fn advance(&mut self, step: Step, pending: Pending) -> (progress: Progress)
        requires
            old(self).patchbay.wf(),
            in_step((old(self).patchbay@, step@)),
        ensures
            final(self).wf(),
            (final(self)@, progress@) == SessionView::advanced(
                (old(self).patchbay@, step@),
                pending,
            ),
    {
        match step {
            Step::Act(action) => {
                proof {
                    let event = match action@ {
                        ActionView::Collect => EventView::Collected(Ok(seq![])),
                        ActionView::Run(_) => EventView::Ran(Ok(seq![])),
                        ActionView::Pause(_) => EventView::Paused,
                    };
                    assert(comes_of(event, action@));
                    assert(self.patchbay@.expects(event));
                }
                self.pending = Some(pending);
                Progress::Act(action)
            },
            Step::Done(reply) => {
                self.pending = None;
                Progress::Respond { response: respond(pending.id, reply), go_on: !pending.last }
            },
        }
    }

    /// Starts to handle a request.
    pub fn handle_request(&mut self, request: Request) -> (progress: Progress)
        requires
            old(self).wf(),
            old(self)@.pending is None,
        ensures
            final(self).wf(),
            (final(self)@, progress@) == old(self)@.handled(request@),
    {
        proof {
            let state = self.patchbay@;
            law_operations_start_in_step(state, true, GoalView::Sink, seq![], true);
            law_operations_start_in_step(state, false, GoalView::Sink, seq![], false);
            if let RequestView::RouteNodes { node_ids, .. } = request@ {
                law_operations_start_in_step(state, true, GoalView::Sink, node_ids, true);
            }
        }
        match request {
            Request::HasPipeWire { id } => Progress::Respond {
                response: Response::Flag { id, value: self.patchbay.is_available() },
                go_on: true,
            },
            Request::ListShareableNodes { id, include_devices } => {
                let step = self.patchbay.list_shareable_nodes(include_devices);
                self.advance(step, Pending { id, last: false })
            },
            Request::EnsureVirtualSink { id } => {
                let step = self.patchbay.ensure_virtual_sink();
                self.advance(step, Pending { id, last: false })
            },
            Request::RouteNodes { id, node_ids } => {
                let step = self.patchbay.route_nodes(node_ids);
                self.advance(step, Pending { id, last: false })
            },
            Request::ClearRoutes { id } => {
                let step = self.patchbay.clear_routes();
                self.advance(step, Pending { id, last: false })
            },
            Request::Dispose { id } => {
                let step = self.patchbay.dispose();
                self.advance(step, Pending { id, last: true })
            },
        }
    }

    /// Takes what came of the last action, at the time `now` in milliseconds,
    /// and goes on with the request.
    pub fn resume(&mut self, event: Event, now: u64) -> (progress: Progress)
        requires
            old(self).wf(),
            old(self)@.expects(event@),
        ensures
            final(self).wf(),
            (final(self)@, progress@) == old(self)@.resumed(event@, now),
    {
        proof {
            law_operations_stay_in_step(self.patchbay@, event@, now);
        }
        let pending = self.pending.unwrap();
        let step = self.patchbay.resume(event, now);
        self.advance(step, pending)
    }

    /// Removes everything that the session made, when it ends without a request
    /// to dispose of it.
    pub fn close(&mut self) -> (progress: Progress)
        requires
            old(self).wf(),
            old(self)@.pending is None,
        ensures
            final(self).wf(),
            (final(self)@, progress@) == old(self)@.handled(RequestView::Dispose { id: 0 }),
    {
        self.handle_request(Request::Dispose { id: 0 })
    }
}

/// Whatever a request sets off at once bears its id, and only a request to
/// dispose of the session is the last one.
pub proof fn law_requests_are_answered_under_their_id(session: SessionView, request: RequestView)
    requires
        session.pending is None,
    ensures
        match session.handled(request) {
            (_, ProgressView::Respond { response, go_on }) => {
                &&& response.id() == request.id()
                &&& go_on == !(request is Dispose)
            },
            (next, ProgressView::Act(_)) => {
                &&& next.pending matches Some(pending)
                &&& pending.id == request.id()
                &&& pending.last == (request is Dispose)
            },
        },
{
}

/// The request that is being handled stays the same until it is answered, and
/// it is answered under its id.
pub proof fn law_pending_request_is_answered(session: SessionView, event: EventView, now: u64)
    requires
        session.expects(event),
    ensures
        match session.resumed(event, now) {
            (next, ProgressView::Respond { response, go_on }) => {
                &&& response.id() == session.pending->Some_0.id
                &&& go_on == !session.pending->Some_0.last
                &&& next.pending is None
            },
            (next, ProgressView::Act(_)) => next.pending == session.pending,
        },
{
}

/// Asking for PipeWire changes nothing.
pub proof fn law_asking_for_pipewire_changes_nothing(session: SessionView, id: u64)
    ensures
        session.handled(RequestView::HasPipeWire { id }).0 == session,
{
}

/// Each method has its name, and no other name is one of a method.
pub proof fn law_method_names(name: Seq<char>)
    ensures
        method_of("hasPipeWire"@) == Some(Method::HasPipeWire),
        method_of("listShareableNodes"@) == Some(Method::ListShareableNodes),
        method_of("ensureVirtualSink"@) == Some(Method::EnsureVirtualSink),
        method_of("routeNodes"@) == Some(Method::RouteNodes),
        method_of("clearRoutes"@) == Some(Method::ClearRoutes),
        method_of("dispose"@) == Some(Method::Dispose),
        name != "hasPipeWire"@ && name != "listShareableNodes"@ && name != "ensureVirtualSink"@
            && name != "routeNodes"@ && name != "clearRoutes"@ && name != "dispose"@ ==> method_of(
            name,
        ) is None,
{
    reveal_strlit("hasPipeWire");
    reveal_strlit("listShareableNodes");
    reveal_strlit("ensureVirtualSink");
    reveal_strlit("routeNodes");
    reveal_strlit("clearRoutes");
    reveal_strlit("dispose");
    assert("hasPipeWire"@[0] == 'h');
    assert("listShareableNodes"@[0] == 'l');
    assert("ensureVirtualSink"@[0] == 'e');
    assert("routeNodes"@[0] == 'r');
    assert("clearRoutes"@[0] == 'c');
    assert("dispose"@[0] == 'd');
}

/// A request has the id and the nodes that its fields tell. Devices are asked for
/// only where the fields say so.
pub proof fn law_requests(id: u64, devices: Option<bool>, nodes: Option<Vec<u32>>)
    ensures
        ({
            let fields = Fields { id: Some(id), include_devices: devices, node_ids: nodes };
            &&& request_of(Method::HasPipeWire, fields) == Some(RequestView::HasPipeWire { id })
            &&& request_of(Method::EnsureVirtualSink, fields) == Some(
                RequestView::EnsureVirtualSink { id },
            )
            &&& request_of(Method::ClearRoutes, fields) == Some(RequestView::ClearRoutes { id })
            &&& request_of(Method::Dispose, fields) == Some(RequestView::Dispose { id })
            &&& devices matches Some(wanted) ==> request_of(Method::ListShareableNodes, fields)
                == Some(RequestView::ListShareableNodes { id, include_devices: wanted })
            &&& devices is None ==> request_of(Method::ListShareableNodes, fields) == Some(
                RequestView::ListShareableNodes { id, include_devices: false },
            )
            &&& nodes matches Some(chosen) ==> request_of(Method::RouteNodes, fields) == Some(
                RequestView::RouteNodes { id, node_ids: chosen@ },
            )
            &&& nodes is None ==> request_of(Method::RouteNodes, fields) is None
        }),
{
}

/// Without an id there is no request.
pub proof fn law_requests_need_an_id(method: Method, fields: Fields)
    requires
        fields.id is None,
    ensures
        request_of(method, fields) is None,
{
}

/// A reply is told as it is, under the id, and an error in its words.
pub proof fn law_responses(
    id: u64,
    nodes: Seq<ShareableView>,
    info: SinkInfoView,
    error: crate::error::ErrorView,
)
    ensures
        response_to(id, ReplyView::Nodes(Ok(nodes))) == (ResponseView::Nodes { id, nodes }),
        response_to(id, ReplyView::Sink(Ok(info))) == (ResponseView::Sink { id, info }),
        response_to(id, ReplyView::Unit(Ok(()))) == (ResponseView::Unit { id }),
        response_to(id, ReplyView::Nodes(Err(error))) == (ResponseView::Error {
            id,
            error: error_text(error),
        }),
        response_to(id, ReplyView::Sink(Err(error))) == (ResponseView::Error {
            id,
            error: error_text(error),
        }),
        response_to(id, ReplyView::Unit(Err(error))) == (ResponseView::Error {
            id,
            error: error_text(error),
        }),
{
}

/// Whether a session stands where the operation of a request stands: it does the
/// same, and answers what the operation answers.
pub open spec fn follows(
    at: (SessionView, ProgressView),
    operation: (StateView, StepView),
    id: u64,
    last: bool,
) -> bool {
    &&& at.0.state == operation.0
    &&& match operation.1 {
        StepView::Act(action) => {
            &&& at.1 == ProgressView::Act(action)
            &&& at.0.pending matches Some(pending)
            &&& pending.id == id
            &&& pending.last == last
        },
        StepView::Done(reply) => {
            &&& at.1 == (ProgressView::Respond { response: response_to(id, reply), go_on: !last })
            &&& at.0.pending is None
        },
    }
}

/// Each request sets off its own operation, and whether PipeWire is there is told
/// at once.
pub proof fn law_requests_set_off_their_operation(
    session: SessionView,
    id: u64,
    devices: bool,
    nodes: Seq<u32>,
)
    ensures
        session.handled(RequestView::HasPipeWire { id }).1 == (ProgressView::Respond {
            response: ResponseView::Flag { id, value: session.state.available },
            go_on: true,
        }),
        follows(
            session.handled(RequestView::ListShareableNodes { id, include_devices: devices }),
            session.state.list_begun(devices),
            id,
            false,
        ),
        follows(
            session.handled(RequestView::EnsureVirtualSink { id }),
            session.state.sink_begun(GoalView::Sink),
            id,
            false,
        ),
        follows(
            session.handled(RequestView::RouteNodes { id, node_ids: nodes }),
            session.state.route_begun(nodes),
            id,
            false,
        ),
        follows(
            session.handled(RequestView::ClearRoutes { id }),
            session.state.clear_begun(false),
            id,
            false,
        ),
        follows(
            session.handled(RequestView::Dispose { id }),
            session.state.clear_begun(true),
            id,
            true,
        ),
{
}

/// An event goes to the operation of the request that is being handled, and it is
/// taken exactly when the operation waits for it.
pub proof fn law_events_go_to_the_operation(
    session: SessionView,
    pending: Pending,
    event: EventView,
    now: u64,
)
    requires
        session.pending == Some(pending),
    ensures
        session.expects(event) <==> session.state.expects(event),
        follows(
            session.resumed(event, now),
            session.state.resumed(event, now),
            pending.id,
            pending.last,
        ),
        !(SessionView { pending: None, ..session }).expects(event),
{
}

/// A line that is no request is answered under its id, and without one under 0.
pub proof fn law_invalid_requests(id: u64, reason: &str, response: Response)
    ensures
        call_ensures(invalid_request, (Some(id), reason), response) ==> response@ == (
        ResponseView::Error { id, error: "invalid request: "@ + reason@ }),
        call_ensures(invalid_request, (None::<u64>, reason), response) ==> response@ == (
        ResponseView::Error { id: 0, error: "invalid request: "@ + reason@ }),
{
}

/// A line is read as a request exactly when it holds more than white space.
pub proof fn law_request_lines(line: &str, yes: bool)
    requires
        call_ensures(is_request_line, (line,), yes),
    ensures
        yes <==> !all_white(line@),
{
    if all_white(line@) {
        let none = Seq::<char>::empty();
        law_trimmed(line@, none, none);
        assert(line@ + none + none =~= line@);
    } else {
        law_trimming_keeps_text(line@);
    }
}

} // verus!
