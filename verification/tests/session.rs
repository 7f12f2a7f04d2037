use patchcord::config::PatchbayConfig;
use patchcord::error::BackendError;
use patchcord::models::VirtualSinkInfo;
use patchcord::patchbay::AudioSharePatchbay;
use patchcord::session::{
    invalid_request, is_request_line, respond, Fields, Method, Progress, Request, Response, Session,
};
use patchcord::snapshot::PipeWireSnapshot;
use patchcord::state::{Action, Event, Reply, Step};

fn patchbay(detection: Result<bool, BackendError>) -> AudioSharePatchbay {
    AudioSharePatchbay::new(&PatchbayConfig::default(), 7, 1, &detection)
}

fn session() -> Session {
    Session::new(patchbay(Ok(true)))
}

fn fields(id: Option<u64>) -> Fields {
    Fields { id, include_devices: None, node_ids: None }
}

fn response(progress: Progress) -> (Response, bool) {
    match progress {
        Progress::Respond { response, go_on } => (response, go_on),
        other => panic!("no response: {other:?}"),
    }
}

fn error(id: u64, text: &str) -> Response {
    Response::Error { id, error: text.to_string() }
}

fn resume(session: &mut Session, event: Event) -> Progress {
    assert!(session.is_busy());
    assert!(session.accepts(&event));
    session.resume(event, 0)
}

fn empty_graph() -> Event {
    Event::Collected(Ok(PipeWireSnapshot { nodes: Vec::new() }))
}

#[test]
fn methods_are_parsed() {
    assert_eq!(Method::parse("hasPipeWire"), Some(Method::HasPipeWire));
    assert_eq!(Method::parse("listShareableNodes"), Some(Method::ListShareableNodes));
    assert_eq!(Method::parse("ensureVirtualSink"), Some(Method::EnsureVirtualSink));
    assert_eq!(Method::parse("routeNodes"), Some(Method::RouteNodes));
    assert_eq!(Method::parse("clearRoutes"), Some(Method::ClearRoutes));
    assert_eq!(Method::parse("dispose"), Some(Method::Dispose));
    assert_eq!(Method::parse("Dispose"), None);
    assert_eq!(Method::parse(""), None);
}

#[test]
fn requests_are_made_of_fields() {
    assert_eq!(
        Request::from_fields(Method::HasPipeWire, fields(Some(1))),
        Some(Request::HasPipeWire { id: 1 })
    );
    assert_eq!(
        Request::from_fields(Method::ListShareableNodes, fields(Some(2))),
        Some(Request::ListShareableNodes { id: 2, include_devices: false })
    );
    let mut with_devices = fields(Some(2));
    with_devices.include_devices = Some(true);
    assert_eq!(
        Request::from_fields(Method::ListShareableNodes, with_devices),
        Some(Request::ListShareableNodes { id: 2, include_devices: true })
    );
    assert_eq!(
        Request::from_fields(Method::EnsureVirtualSink, fields(Some(3))),
        Some(Request::EnsureVirtualSink { id: 3 })
    );
    let mut with_nodes = fields(Some(4));
    with_nodes.node_ids = Some(vec![42, 55]);
    assert_eq!(
        Request::from_fields(Method::RouteNodes, with_nodes),
        Some(Request::RouteNodes { id: 4, node_ids: vec![42, 55] })
    );
    assert_eq!(
        Request::from_fields(Method::ClearRoutes, fields(Some(5))),
        Some(Request::ClearRoutes { id: 5 })
    );
    assert_eq!(
        Request::from_fields(Method::Dispose, fields(Some(6))),
        Some(Request::Dispose { id: 6 })
    );
}

#[test]
fn required_fields_are_required() {
    assert_eq!(Request::from_fields(Method::RouteNodes, fields(Some(4))), None);
    for method in [Method::HasPipeWire, Method::Dispose, Method::ListShareableNodes] {
        assert_eq!(Request::from_fields(method, fields(None)), None);
    }
}

#[test]
fn pipewire_can_be_asked_for() {
    let mut session = session();
    let answer = response(session.handle_request(Request::HasPipeWire { id: 1 }));
    assert_eq!(answer, (Response::Flag { id: 1, value: true }, true));

    for detection in [Ok(false), Err(BackendError::Timeout("pactl"))] {
        let mut session = Session::new(patchbay(detection));
        let answer = response(session.handle_request(Request::HasPipeWire { id: 9 }));
        assert_eq!(answer, (Response::Flag { id: 9, value: false }, true));
    }
}

#[test]
fn responses_bear_the_id_of_the_request() {
    let mut session = session();
    let progress = session.handle_request(Request::ListShareableNodes {
        id: u64::MAX,
        include_devices: true,
    });
    assert!(matches!(progress, Progress::Act(Action::Collect)));
    let answer = response(resume(&mut session, empty_graph()));
    assert_eq!(answer, (Response::Nodes { id: u64::MAX, nodes: Vec::new() }, true));
    assert!(!session.is_busy());
}

#[test]
fn errors_are_answered_in_words() {
    let mut session = Session::new(patchbay(Ok(false)));
    let unsupported = "PipeWire was not detected as the active audio server";
    let answer = response(session.handle_request(Request::EnsureVirtualSink { id: 3 }));
    assert_eq!(answer, (error(3, unsupported), true));
    let answer = response(session.handle_request(Request::RouteNodes { id: 4, node_ids: vec![] }));
    assert_eq!(answer, (error(4, "at least one node id is required"), true));
}

#[test]
fn routes_can_be_cleared() {
    let mut session = session();
    let answer = response(session.handle_request(Request::ClearRoutes { id: 5 }));
    assert_eq!(answer, (Response::Unit { id: 5 }, true));
}

#[test]
fn dispose_ends_the_session() {
    let mut session = session();
    let answer = response(session.handle_request(Request::Dispose { id: 6 }));
    assert_eq!(answer, (Response::Unit { id: 6 }, false));
}

#[test]
fn failed_dispose_ends_the_session_too() {
    let mut session = session();
    session.handle_request(Request::EnsureVirtualSink { id: 1 });
    resume(&mut session, empty_graph());
    resume(&mut session, Event::Ran(Ok("5".to_string())));
    let event = Event::Collected(Err(BackendError::Timeout("pw-dump")));
    session.resume(event, u64::MAX);
    assert!(!session.is_busy());

    session.handle_request(Request::Dispose { id: 6 });
    let failed = Event::Ran(Err(BackendError::Timeout("pactl")));
    let answer = response(resume(&mut session, failed));
    assert_eq!(
        answer,
        (
            error(6, "failed to unload virtual sink module 5: timed out waiting for pactl"),
            false
        )
    );
}

#[test]
fn closing_disposes() {
    let mut session = session();
    let answer = response(session.close());
    assert_eq!(answer, (Response::Unit { id: 0 }, false));
}

#[test]
fn sink_is_answered() {
    let info = VirtualSinkInfo {
        sink_name: "s".to_string(),
        monitor_source: "s.monitor".to_string(),
        node_id: 9,
        virtual_mic_name: None,
        virtual_mic_description: None,
    };
    match respond(3, Reply::Sink(Ok(info))) {
        Response::Sink { id, info } => {
            assert_eq!(id, 3);
            assert_eq!(info.node_id, 9);
        }
        other => panic!("{other:?}"),
    }
    assert_eq!(respond(1, Reply::Nodes(Err(BackendError::Timeout("x")))), error(1, "timed out waiting for x"));
    assert_eq!(respond(1, Reply::Unit(Err(BackendError::Timeout("x")))), error(1, "timed out waiting for x"));
}

#[test]
fn invalid_requests_are_answered() {
    assert_eq!(invalid_request(Some(12), "Error"), error(12, "invalid request: Error"));
    assert_eq!(invalid_request(None, "Error"), error(0, "invalid request: Error"));
}

#[test]
fn blank_lines_are_no_requests() {
    assert!(is_request_line("{}"));
    assert!(is_request_line("  x\n"));
    assert!(!is_request_line(""));
    assert!(!is_request_line(" \t\u{3000}\n"));
}

#[test]
fn patchbay_works_on_its_own() {
    let mut patchbay = patchbay(Ok(true));
    assert!(patchbay.is_available());
    assert!(patchbay.is_idle());
    assert!(matches!(patchbay.list_shareable_nodes(false), Step::Act(Action::Collect)));
    assert!(patchbay.accepts(&empty_graph()));
    let step = patchbay.resume(empty_graph(), 0);
    assert!(matches!(step, Step::Done(Reply::Nodes(Ok(_)))));
    assert!(matches!(patchbay.ensure_virtual_sink(), Step::Act(Action::Collect)));
    patchbay.resume(Event::Collected(Err(BackendError::Timeout("x"))), 0);
    assert!(matches!(patchbay.route_nodes(Vec::new()), Step::Done(Reply::Sink(Err(_)))));
    assert!(matches!(patchbay.clear_routes(), Step::Done(Reply::Unit(Ok(())))));
    assert!(matches!(patchbay.dispose(), Step::Done(Reply::Unit(Ok(())))));
    assert!(patchbay.routes().is_empty());
}

#[test]
fn sessions_have_something_to_log() {
    let mut session = session();
    session.handle_request(Request::EnsureVirtualSink { id: 1 });
    let messages = session.messages(&empty_graph());
    assert_eq!(messages.len(), 1);
    assert_eq!(messages[0].text, "[patchbay] creating virtual sink patchcord-screen-share-7-1");
    assert!(session.announcement().is_none());

    let patchbay = patchbay(Ok(true));
    assert!(patchbay.messages(&empty_graph()).is_empty());
    assert!(patchbay.announcement().is_none());
}
