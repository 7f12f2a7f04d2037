use patchcord::config::PatchbayConfig;
use patchcord::error::BackendError;
use patchcord::logger::Level;
use patchcord::messages::Message;
use patchcord::models::{NodeRecord, PortDirection, PortRecord, Route, VirtualSinkInfo};
use patchcord::plan::{
    find_ready_sink, has_mic, plan_routes, sink_info, skipped_nodes, SkipReason,
};
use patchcord::props::PropMap;
use patchcord::snapshot::PipeWireSnapshot;
use patchcord::state::{Action, Event, PatchbayState, Reply, Step, SINK_POLL_MS, SINK_WAIT_MS};

const SINK: &str = "patchcord-screen-share-77-1";

fn new_state(available: bool) -> PatchbayState {
    PatchbayState::new(&PatchbayConfig::default(), 77, 1, available)
}

fn mic_state() -> PatchbayState {
    let mut config = PatchbayConfig::default();
    config.virtual_mic = true;
    PatchbayState::new(&config, 77, 1, true)
}

fn port(direction: PortDirection, channel: &str, path: &str) -> PortRecord {
    PortRecord {
        direction,
        channel: Some(channel.to_string()),
        port_index: None,
        path: Some(path.to_string()),
        port_name: None,
        object_path: None,
    }
}

fn node(id: u32, name: &str, ports: Vec<PortRecord>) -> NodeRecord {
    let mut props = PropMap::new();
    props.insert("node.name".to_string(), name.to_string());
    props.insert("application.name".to_string(), name.to_string());
    NodeRecord { id, props, ports }
}

fn sink_node() -> NodeRecord {
    node(
        99,
        SINK,
        vec![
            port(PortDirection::Input, "FL", "sink:FL"),
            port(PortDirection::Input, "FR", "sink:FR"),
            port(PortDirection::Output, "FL", "sink:monitor_FL"),
        ],
    )
}

fn app_node(id: u32, name: &str) -> NodeRecord {
    node(
        id,
        name,
        vec![
            port(PortDirection::Output, "FL", &format!("{name}:FL")),
            port(PortDirection::Output, "FR", &format!("{name}:FR")),
        ],
    )
}

fn graph(nodes: Vec<NodeRecord>) -> Event {
    Event::Collected(Ok(PipeWireSnapshot { nodes }))
}

fn full_graph() -> Event {
    graph(vec![sink_node(), app_node(1, "one"), app_node(2, "two")])
}

fn ran(text: &str) -> Event {
    Event::Ran(Ok(text.to_string()))
}

fn failed(stderr: &str) -> Event {
    Event::Ran(Err(BackendError::CommandFailed("pw-link", stderr.to_string())))
}

fn resume(state: &mut PatchbayState, event: Event, now: u64) -> Step {
    assert!(state.accepts(&event));
    state.resume(event, now)
}

fn command(step: &Step) -> String {
    match step {
        Step::Act(Action::Run(command)) => {
            format!("{} {}", command.program, command.args.join(" "))
        }
        other => panic!("no command: {other:?}"),
    }
}

fn collects(step: &Step) -> bool {
    matches!(step, Step::Act(Action::Collect))
}

fn sink(step: Step) -> VirtualSinkInfo {
    match step {
        Step::Done(Reply::Sink(Ok(info))) => info,
        other => panic!("no sink: {other:?}"),
    }
}

fn error(step: Step) -> String {
    match step {
        Step::Done(Reply::Sink(Err(error))) => error.message(),
        Step::Done(Reply::Unit(Err(error))) => error.message(),
        Step::Done(Reply::Nodes(Err(error))) => error.message(),
        other => panic!("no error: {other:?}"),
    }
}

fn done(step: Step) -> bool {
    matches!(step, Step::Done(Reply::Unit(Ok(()))))
}

fn route(output: &str, input: &str) -> Route {
    Route { output_path: output.to_string(), input_path: input.to_string() }
}

/// Routes node 1 with every link made.
fn routed_state() -> PatchbayState {
    let mut state = new_state(true);
    assert!(collects(&state.route_nodes(vec![1])));
    assert!(collects(&resume(&mut state, full_graph(), 0)));
    assert_eq!(command(&resume(&mut state, full_graph(), 0)), "pw-link -L one:FL sink:FL");
    assert_eq!(command(&resume(&mut state, ran(""), 0)), "pw-link -L one:FR sink:FR");
    assert_eq!(sink(resume(&mut state, ran(""), 0)).node_id, 99);
    state
}

#[test]
fn new_sessions_have_nothing() {
    let state = new_state(true);
    assert_eq!(state.sink_name(), SINK);
    assert_eq!(state.monitor_source_name(), format!("{SINK}.monitor"));
    assert_eq!(state.module_id(), None);
    assert_eq!(state.mic_module_id(), None);
    assert!(state.routes().is_empty());
    assert!(state.is_idle());
    assert!(state.is_available());
}

#[test]
fn sessions_have_their_own_sink() {
    let other = PatchbayState::new(&PatchbayConfig::default(), 77, 2, true);
    assert_ne!(new_state(true).sink_name(), other.sink_name());
}

#[test]
fn nothing_works_without_pipewire() {
    let expected = "PipeWire was not detected as the active audio server";
    let mut state = new_state(false);
    assert_eq!(error(state.list_shareable_nodes(true)), expected);
    assert_eq!(error(state.ensure_virtual_sink()), expected);
    assert_eq!(error(state.route_nodes(vec![1])), expected);
    assert!(done(state.clear_routes()));
    assert!(done(state.dispose()));
}

#[test]
fn nodes_are_listed() {
    let mut state = new_state(true);
    assert!(collects(&state.list_shareable_nodes(false)));
    match resume(&mut state, full_graph(), 0) {
        Step::Done(Reply::Nodes(Ok(nodes))) => {
            let ids: Vec<u32> = nodes.iter().map(|node| node.id).collect();
            assert_eq!(ids, vec![1, 2]);
        }
        other => panic!("{other:?}"),
    }
    assert!(state.is_idle());
}

#[test]
fn unreadable_graph_fails_the_listing() {
    let mut state = new_state(true);
    state.list_shareable_nodes(false);
    let step = resume(&mut state, Event::Collected(Err(BackendError::Json("Error".to_string()))), 0);
    assert_eq!(error(step), "failed to parse PipeWire state: Error");
}

#[test]
fn ready_sink_is_reused() {
    let mut state = new_state(true);
    assert!(collects(&state.ensure_virtual_sink()));
    let info = sink(resume(&mut state, full_graph(), 0));
    assert_eq!(
        info,
        VirtualSinkInfo {
            sink_name: SINK.to_string(),
            monitor_source: format!("{SINK}.monitor"),
            node_id: 99,
            virtual_mic_name: None,
            virtual_mic_description: None,
        }
    );
    assert_eq!(state.module_id(), None);
}

#[test]
fn missing_sink_is_made() {
    let mut state = new_state(true);
    state.ensure_virtual_sink();
    let step = resume(&mut state, graph(Vec::new()), 0);
    assert_eq!(
        command(&step),
        format!(
            "pactl load-module module-null-sink sink_name={SINK} channels=2 \
             channel_map=front-left,front-right sink_properties=device.description=\
             \"GoofCord Screen Share\" node.description=\"GoofCord Screen Share\" \
             node.name=\"{SINK}\""
        )
    );
    assert!(collects(&resume(&mut state, ran("536870913\n"), 1000)));
    assert_eq!(state.module_id(), Some(536870913));
    let step = resume(&mut state, graph(Vec::new()), 1000);
    assert!(matches!(step, Step::Act(Action::Pause(SINK_POLL_MS))));
    assert!(collects(&resume(&mut state, Event::Paused, 1050)));
    let unreadable = Event::Collected(Err(BackendError::Timeout("pw-dump")));
    let step = resume(&mut state, unreadable, 1060);
    assert!(matches!(step, Step::Act(Action::Pause(_))));
    assert!(collects(&resume(&mut state, Event::Paused, 1110)));
    assert_eq!(sink(resume(&mut state, full_graph(), 1120)).node_id, 99);
}

#[test]
fn waiting_for_the_sink_ends() {
    let mut state = new_state(true);
    state.ensure_virtual_sink();
    resume(&mut state, graph(Vec::new()), 0);
    resume(&mut state, ran("5"), 1000);
    let step = resume(&mut state, graph(Vec::new()), 999 + SINK_WAIT_MS);
    assert!(matches!(step, Step::Act(Action::Pause(_))));
    resume(&mut state, Event::Paused, 0);
    let step = resume(&mut state, graph(Vec::new()), 1000 + SINK_WAIT_MS);
    assert_eq!(error(step), "timed out waiting for virtual sink");
    assert_eq!(state.module_id(), Some(5));
    assert!(state.is_idle());
}

#[test]
fn sink_that_shows_up_late_is_still_taken() {
    let mut state = new_state(true);
    state.ensure_virtual_sink();
    resume(&mut state, graph(Vec::new()), 0);
    resume(&mut state, ran("5"), 0);
    assert_eq!(sink(resume(&mut state, full_graph(), 2 * SINK_WAIT_MS)).node_id, 99);
}

#[test]
fn sink_needs_two_inputs() {
    let mut lame = sink_node();
    lame.ports.remove(0);
    let mut state = new_state(true);
    state.ensure_virtual_sink();
    let step = resume(&mut state, graph(vec![lame]), 0);
    assert!(command(&step).starts_with("pactl load-module module-null-sink"));
}

#[test]
fn failures_to_make_the_sink_are_told() {
    let mut state = new_state(true);
    state.ensure_virtual_sink();
    let unreadable = Event::Collected(Err(BackendError::Timeout("pw-dump")));
    assert_eq!(error(resume(&mut state, unreadable, 0)), "timed out waiting for pw-dump");

    state.ensure_virtual_sink();
    resume(&mut state, graph(Vec::new()), 0);
    assert_eq!(error(resume(&mut state, failed("refused"), 0)), "pw-link failed: refused");

    state.ensure_virtual_sink();
    resume(&mut state, graph(Vec::new()), 0);
    let reason = "x".parse::<u32>().unwrap_err().to_string();
    assert_eq!(
        error(resume(&mut state, ran("x"), 0)),
        format!("invalid output from pactl: failed to parse module id: {reason}")
    );
    assert_eq!(state.module_id(), None);
}

const MIC: &str = "patchcord-screen-share-mic-77-1";

fn mic_node() -> NodeRecord {
    node(98, MIC, vec![port(PortDirection::Output, "FL", "mic:FL")])
}

fn graph_with_mic() -> Event {
    graph(vec![sink_node(), mic_node(), app_node(1, "one")])
}

#[test]
fn missing_microphone_is_made() {
    let mut state = mic_state();
    state.ensure_virtual_sink();
    let step = resume(&mut state, full_graph(), 0);
    assert_eq!(
        command(&step),
        format!(
            "pactl load-module module-remap-source master={SINK}.monitor \
             source_name={MIC} source_properties=device.description=\
             \"GoofCord Screen Share (Virtual Mic)\" node.description=\
             \"GoofCord Screen Share (Virtual Mic)\" node.name=\"{MIC}\""
        )
    );
    let info = sink(resume(&mut state, ran("8\n"), 0));
    assert_eq!(info.virtual_mic_name.as_deref(), Some(MIC));
    assert_eq!(
        info.virtual_mic_description.as_deref(),
        Some("GoofCord Screen Share (Virtual Mic)")
    );
    assert_eq!(state.mic_module_id(), Some(8));
}

#[test]
fn existing_microphone_is_kept() {
    let mut state = mic_state();
    state.ensure_virtual_sink();
    resume(&mut state, full_graph(), 0);
    sink(resume(&mut state, ran("8"), 0));

    state.ensure_virtual_sink();
    assert_eq!(sink(resume(&mut state, graph_with_mic(), 0)).node_id, 99);
    assert_eq!(state.mic_module_id(), Some(8));
}

#[test]
fn foreign_microphone_of_that_name_is_kept() {
    let mut state = mic_state();
    state.ensure_virtual_sink();
    let info = sink(resume(&mut state, graph_with_mic(), 0));
    assert_eq!(info.virtual_mic_name.as_deref(), Some(MIC));
    assert_eq!(state.mic_module_id(), None);
}

#[test]
fn vanished_microphone_is_made_again() {
    let mut state = mic_state();
    state.ensure_virtual_sink();
    resume(&mut state, full_graph(), 0);
    sink(resume(&mut state, ran("8"), 0));

    state.ensure_virtual_sink();
    let step = resume(&mut state, full_graph(), 0);
    assert!(command(&step).contains("module-remap-source"));
    sink(resume(&mut state, ran("12"), 0));
    assert_eq!(state.mic_module_id(), Some(12));
    assert_eq!(command(&state.dispose()), "pactl unload-module 12");
}

#[test]
fn graph_is_asked_for_the_microphone() {
    let snapshot = PipeWireSnapshot { nodes: vec![sink_node(), mic_node()] };
    assert!(has_mic(&snapshot, MIC));
    assert!(!has_mic(&snapshot, "mic"));
}

#[test]
fn failed_microphone_is_tried_again() {
    let mut state = mic_state();
    state.ensure_virtual_sink();
    resume(&mut state, full_graph(), 0);
    assert_eq!(error(resume(&mut state, failed("no"), 0)), "pw-link failed: no");
    assert_eq!(state.mic_module_id(), None);
    state.route_nodes(vec![1]);
    let step = resume(&mut state, full_graph(), 0);
    assert!(command(&step).contains("module-remap-source"));
    assert!(collects(&resume(&mut state, ran("9"), 0)));
    assert_eq!(command(&resume(&mut state, full_graph(), 0)), "pw-link -L one:FL sink:FL");
}

#[test]
fn routing_needs_nodes() {
    let mut state = new_state(false);
    assert_eq!(error(state.route_nodes(Vec::new())), "at least one node id is required");
}

#[test]
fn chosen_nodes_are_linked() {
    let state = routed_state();
    assert_eq!(state.routes(), vec![route("one:FL", "sink:FL"), route("one:FR", "sink:FR")]);
    assert!(state.is_idle());
}

#[test]
fn same_routes_need_no_commands() {
    let mut state = routed_state();
    state.route_nodes(vec![1, 1]);
    resume(&mut state, full_graph(), 0);
    assert_eq!(sink(resume(&mut state, full_graph(), 0)).node_id, 99);
    assert_eq!(state.routes().len(), 2);
}

#[test]
fn stale_routes_are_removed() {
    let mut state = routed_state();
    state.route_nodes(vec![2]);
    resume(&mut state, full_graph(), 0);
    assert_eq!(command(&resume(&mut state, full_graph(), 0)), "pw-link -L two:FL sink:FL");
    assert_eq!(command(&resume(&mut state, ran(""), 0)), "pw-link -L two:FR sink:FR");
    assert_eq!(command(&resume(&mut state, ran(""), 0)), "pw-link -d one:FL sink:FL");
    assert_eq!(command(&resume(&mut state, ran(""), 0)), "pw-link -d one:FR sink:FR");
    assert_eq!(sink(resume(&mut state, ran(""), 0)).node_id, 99);
    assert_eq!(state.routes(), vec![route("two:FL", "sink:FL"), route("two:FR", "sink:FR")]);
}

#[test]
fn links_that_fail_are_left_out() {
    let mut state = routed_state();
    state.route_nodes(vec![2]);
    resume(&mut state, full_graph(), 0);
    resume(&mut state, full_graph(), 0);
    resume(&mut state, failed("busy"), 0);
    resume(&mut state, failed("File exists"), 0);
    resume(&mut state, failed("busy"), 0);
    sink(resume(&mut state, failed("not found"), 0));
    assert_eq!(state.routes(), vec![route("one:FL", "sink:FL"), route("two:FR", "sink:FR")]);
}

#[test]
fn routing_that_fails_keeps_the_routes() {
    let mut state = routed_state();
    let before = state.routes();
    state.route_nodes(vec![2]);
    resume(&mut state, full_graph(), 0);
    resume(&mut state, full_graph(), 0);
    resume(&mut state, failed("busy"), 0);
    let step = resume(&mut state, failed("busy"), 0);
    assert_eq!(error(step), "none of the selected nodes could be linked");
    assert_eq!(state.routes(), before);
}

#[test]
fn nodes_that_cannot_be_linked_are_passed_over() {
    let mut mute = app_node(3, "mute");
    mute.ports.clear();
    let mut monitor = app_node(4, "monitor");
    monitor.props.insert("node.name".to_string(), format!("{SINK}.monitor"));
    for ids in [vec![99], vec![3], vec![4], vec![1234]] {
        let mut state = new_state(true);
        state.route_nodes(ids);
        resume(&mut state, full_graph(), 0);
        let nodes = vec![sink_node(), mute.clone(), monitor.clone()];
        let step = resume(&mut state, graph(nodes), 0);
        assert_eq!(error(step), "none of the selected nodes could be linked");
    }
}

#[test]
fn sink_can_vanish_before_the_links_are_made() {
    let mut state = new_state(true);
    state.route_nodes(vec![1]);
    resume(&mut state, full_graph(), 0);
    assert_eq!(
        error(resume(&mut state, graph(vec![app_node(1, "one")]), 0)),
        "virtual sink exists in PulseAudio but was not found in PipeWire"
    );

    let mut lame = sink_node();
    lame.ports.remove(1);
    state.route_nodes(vec![1]);
    resume(&mut state, full_graph(), 0);
    assert_eq!(
        error(resume(&mut state, graph(vec![lame, app_node(1, "one")]), 0)),
        "virtual sink has no usable stereo input ports"
    );

    state.route_nodes(vec![1]);
    resume(&mut state, full_graph(), 0);
    let unreadable = Event::Collected(Err(BackendError::Timeout("pw-dump")));
    assert_eq!(error(resume(&mut state, unreadable, 0)), "timed out waiting for pw-dump");
}

#[test]
fn clearing_removes_all_routes() {
    let mut state = routed_state();
    assert_eq!(command(&state.clear_routes()), "pw-link -d one:FL sink:FL");
    assert_eq!(command(&resume(&mut state, ran(""), 0)), "pw-link -d one:FR sink:FR");
    assert!(done(resume(&mut state, failed("No such file"), 0)));
    assert!(state.routes().is_empty());
    assert!(done(state.clear_routes()));
}

#[test]
fn leftovers_are_retried() {
    let mut state = routed_state();
    state.clear_routes();
    resume(&mut state, ran(""), 0);
    assert_eq!(
        error(resume(&mut state, failed("busy"), 0)),
        "failed to remove 1 route(s); cleanup will be retried later"
    );
    assert_eq!(state.routes(), vec![route("one:FR", "sink:FR")]);
    assert_eq!(command(&state.clear_routes()), "pw-link -d one:FR sink:FR");
    assert!(done(resume(&mut state, ran(""), 0)));
}

/// A session with routes, a sink of its own and a microphone.
fn furnished_state() -> PatchbayState {
    let mut state = mic_state();
    state.route_nodes(vec![1]);
    resume(&mut state, graph(Vec::new()), 0);
    resume(&mut state, ran("5"), 0);
    resume(&mut state, full_graph(), 0);
    resume(&mut state, ran("8"), 0);
    resume(&mut state, full_graph(), 0);
    resume(&mut state, ran(""), 0);
    sink(resume(&mut state, ran(""), 0));
    state
}

#[test]
fn disposing_takes_everything_away_in_order() {
    let mut state = furnished_state();
    assert_eq!(command(&state.dispose()), "pw-link -d one:FL sink:FL");
    assert_eq!(command(&resume(&mut state, ran(""), 0)), "pw-link -d one:FR sink:FR");
    assert_eq!(command(&resume(&mut state, ran(""), 0)), "pactl unload-module 8");
    assert_eq!(command(&resume(&mut state, ran(""), 0)), "pactl unload-module 5");
    assert!(done(resume(&mut state, ran(""), 0)));
    assert!(state.routes().is_empty());
    assert_eq!(state.module_id(), None);
    assert_eq!(state.mic_module_id(), None);
    assert!(done(state.dispose()));
}

#[test]
fn disposing_goes_through_whatever_fails() {
    let mut state = furnished_state();
    state.dispose();
    resume(&mut state, failed("busy"), 0);
    resume(&mut state, failed("busy"), 0);
    resume(&mut state, failed("mic"), 0);
    assert_eq!(
        error(resume(&mut state, failed("sink"), 0)),
        "failed to remove 2 route(s); cleanup will be retried later; \
         failed to unload virtual microphone module 8: pw-link failed: mic; \
         failed to unload virtual sink module 5: pw-link failed: sink"
    );
    assert_eq!(state.routes().len(), 2);
    assert_eq!(state.module_id(), Some(5));
    assert_eq!(state.mic_module_id(), Some(8));

    state.dispose();
    resume(&mut state, ran(""), 0);
    resume(&mut state, ran(""), 0);
    resume(&mut state, ran(""), 0);
    assert!(done(resume(&mut state, ran(""), 0)));
}

#[test]
fn events_are_expected_in_turn() {
    let mut state = new_state(true);
    assert!(!state.accepts(&Event::Paused));
    assert!(!state.accepts(&ran("")));
    state.ensure_virtual_sink();
    assert!(!state.is_idle());
    assert!(state.accepts(&full_graph()));
    assert!(!state.accepts(&ran("")));
    resume(&mut state, graph(Vec::new()), 0);
    assert!(state.accepts(&ran("")));
    assert!(!state.accepts(&full_graph()));
}

#[test]
fn own_nodes_are_known() {
    let state = new_state(true);
    assert!(state.is_our_virtual_sink_node(&sink_node()));
    assert!(!state.is_our_monitor_node(&sink_node()));
    assert!(state.is_our_virtual_audio_object(&sink_node()));
    let monitor = node(3, &format!("{SINK}.monitor"), Vec::new());
    assert!(state.is_our_monitor_node(&monitor));
    assert!(state.is_our_virtual_audio_object(&monitor));
    assert!(!state.is_our_virtual_audio_object(&app_node(1, "one")));
}

#[test]
fn sink_is_told_of_a_graph() {
    let state = new_state(true);
    let ready = PipeWireSnapshot { nodes: vec![sink_node()] };
    let mut lame = sink_node();
    lame.ports.clear();
    let lame = PipeWireSnapshot { nodes: vec![lame] };
    assert_eq!(state.virtual_sink_node_id(&ready), Some(99));
    assert_eq!(state.virtual_sink_node_id(&lame), Some(99));
    assert_eq!(state.virtual_sink_info(&ready).map(|info| info.node_id), Some(99));
    assert!(state.virtual_sink_info(&lame).is_none());
    assert_eq!(find_ready_sink(&ready, SINK, "none"), Some(99));
    assert_eq!(find_ready_sink(&lame, SINK, "none"), None);
    assert_eq!(sink_info("s", &None, 3).monitor_source, "s.monitor");
}

#[test]
fn choice_is_a_set() {
    let snapshot = PipeWireSnapshot {
        nodes: vec![sink_node(), app_node(1, "one"), app_node(2, "two")],
    };
    let a = plan_routes(&snapshot, SINK, "none", vec![1, 2]).unwrap();
    let b = plan_routes(&snapshot, SINK, "none", vec![2, 1, 2, 99]).unwrap();
    assert_eq!(a.to_vec(), b.to_vec());
    assert_eq!(a.len(), 4);
}

fn said(state: &PatchbayState, event: &Event) -> Vec<(Level, String)> {
    state.messages(event).into_iter().map(|message: Message| (message.level, message.text)).collect()
}

fn line(level: Level, text: &str) -> Vec<(Level, String)> {
    vec![(level, text.to_string())]
}

fn awkward_graph() -> Vec<NodeRecord> {
    let mut mute = app_node(3, "mute");
    mute.ports.clear();
    vec![sink_node(), app_node(1, "one"), mute, node(4, &format!("{SINK}.monitor"), Vec::new())]
}

#[test]
fn skipped_nodes_are_told() {
    let snapshot = PipeWireSnapshot { nodes: awkward_graph() };
    let ids = vec![3, 99, 1, 1234, 3, 4, 99];
    assert_eq!(
        skipped_nodes(&snapshot, SINK, "none", &ids),
        vec![
            (3, SkipReason::NoOutputs),
            (99, SkipReason::Sink),
            (1234, SkipReason::Missing),
            (4, SkipReason::Own),
        ]
    );
    assert!(skipped_nodes(&snapshot, "other", "none", &ids).is_empty());
    let mut lame = sink_node();
    lame.ports.remove(0);
    let snapshot = PipeWireSnapshot { nodes: vec![lame] };
    assert!(skipped_nodes(&snapshot, SINK, "none", &ids).is_empty());
}

#[test]
fn skipped_nodes_are_logged() {
    let mut state = new_state(true);
    state.route_nodes(vec![99, 1234, 4, 3, 1]);
    assert!(said(&state, &full_graph()).is_empty());
    resume(&mut state, full_graph(), 0);
    assert_eq!(
        said(&state, &graph(awkward_graph())),
        vec![
            (Level::Warn, "[patchbay] refusing to link the virtual sink to itself".to_string()),
            (Level::Warn, "[patchbay] node 1234 does not exist".to_string()),
            (Level::Warn, "[patchbay] refusing to route helper-owned virtual node 4".to_string()),
            (Level::Debug, "[patchbay] node 3 has no usable output ports".to_string()),
        ]
    );
    assert!(state.announcement().is_none());
    resume(&mut state, graph(awkward_graph()), 0);
    let announced = state.announcement().unwrap();
    assert_eq!(announced.level, Level::Trace);
    assert_eq!(announced.text, "[patchbay] linking one:FL -> sink:FL");
}

#[test]
fn making_of_the_sink_is_logged() {
    let mut state = new_state(true);
    state.ensure_virtual_sink();
    assert_eq!(
        said(&state, &graph(Vec::new())),
        line(Level::Info, &format!("[patchbay] creating virtual sink {SINK}"))
    );
    resume(&mut state, graph(Vec::new()), 0);
    assert!(said(&state, &ran("5")).is_empty());
    resume(&mut state, ran("5"), 0);
    let unreadable = Event::Collected(Err(BackendError::Timeout("pw-dump")));
    assert_eq!(
        said(&state, &unreadable),
        line(
            Level::Trace,
            "[patchbay] transient error while waiting for sink: timed out waiting for pw-dump"
        )
    );
    assert!(said(&state, &graph(Vec::new())).is_empty());
    assert_eq!(
        said(&state, &full_graph()),
        line(Level::Info, &format!("[patchbay] virtual sink ready: {SINK} (99)"))
    );
}

#[test]
fn failed_links_are_logged_and_harmless_ones_are_not() {
    let mut state = routed_state();
    state.route_nodes(vec![2]);
    resume(&mut state, full_graph(), 0);
    resume(&mut state, full_graph(), 0);
    assert!(said(&state, &failed("File exists")).is_empty());
    assert_eq!(
        said(&state, &failed("busy")),
        line(Level::Warn, "[patchbay] failed to link two:FL -> sink:FL: pw-link failed: busy")
    );
    resume(&mut state, ran(""), 0);
    resume(&mut state, ran(""), 0);
    assert!(said(&state, &failed("not found")).is_empty());
    assert_eq!(
        said(&state, &failed("busy")),
        line(
            Level::Warn,
            "[patchbay] failed to remove stale link one:FL -> sink:FL: pw-link failed: busy"
        )
    );
}

#[test]
fn failed_cleanup_is_logged() {
    let mut state = furnished_state();
    state.dispose();
    assert!(said(&state, &failed("does not exist")).is_empty());
    assert_eq!(
        said(&state, &failed("busy")),
        line(Level::Warn, "[patchbay] failed to remove link one:FL -> sink:FL: pw-link failed: busy")
    );
    resume(&mut state, ran(""), 0);
    resume(&mut state, ran(""), 0);
    assert!(said(&state, &ran("")).is_empty());
    let timeout = || Event::Ran(Err(BackendError::Timeout("pactl")));
    assert_eq!(
        said(&state, &timeout()),
        line(Level::Warn, "[patchbay] failed to unload module 8: timed out waiting for pactl")
    );
    resume(&mut state, ran(""), 0);
    assert_eq!(
        said(&state, &timeout()),
        line(Level::Warn, "[patchbay] failed to unload module 5: timed out waiting for pactl")
    );
}

#[test]
fn order_of_choice_does_not_matter() {
    let mut routes = Vec::new();
    for ids in [vec![1, 2], vec![2, 1, 2]] {
        let mut state = new_state(true);
        state.route_nodes(ids);
        resume(&mut state, full_graph(), 0);
        let mut step = resume(&mut state, full_graph(), 0);
        let mut commands = Vec::new();
        while matches!(step, Step::Act(_)) {
            commands.push(command(&step));
            step = resume(&mut state, ran(""), 0);
        }
        assert_eq!(commands.len(), 4);
        routes.push((commands, state.routes()));
    }
    assert_eq!(routes[0], routes[1]);
}

#[test]
fn records_are_cloned() {
    let node = sink_node();
    let copy = node.clone();
    assert_eq!(copy.id, 99);
    assert_eq!(copy.prop("node.name"), Some(SINK));
    assert_eq!(copy.ports.len(), 3);
    assert_eq!(copy.ports[1].path.as_deref(), Some("sink:FR"));
    let info = sink_info("s", &None, 3);
    assert_eq!(info.clone(), info);
}

/// A session that loaded the microphone twice, before the first was to be seen.
fn state_with_replaced_mic() -> PatchbayState {
    let mut state = mic_state();
    for module in ["8", "12"] {
        state.ensure_virtual_sink();
        let step = resume(&mut state, full_graph(), 0);
        assert!(command(&step).contains("module-remap-source"));
        sink(resume(&mut state, ran(module), 0));
    }
    assert_eq!(state.mic_module_id(), Some(12));
    assert_eq!(state.replaced_modules(), &vec![8]);
    state
}

#[test]
fn replaced_modules_are_taken_away_last() {
    let mut state = state_with_replaced_mic();
    assert_eq!(command(&state.dispose()), "pactl unload-module 12");
    assert_eq!(command(&resume(&mut state, ran(""), 0)), "pactl unload-module 8");
    assert!(done(resume(&mut state, ran(""), 0)));
    assert!(state.replaced_modules().is_empty());
    assert_eq!(state.mic_module_id(), None);
    assert!(done(state.dispose()));
}

#[test]
fn replaced_modules_are_kept_until_they_are_gone() {
    let mut state = state_with_replaced_mic();
    state.dispose();
    resume(&mut state, ran(""), 0);
    let timeout = || Event::Ran(Err(BackendError::Timeout("pactl")));
    assert_eq!(
        said(&state, &timeout()),
        line(Level::Warn, "[patchbay] failed to unload module 8: timed out waiting for pactl")
    );
    assert_eq!(
        error(resume(&mut state, timeout(), 0)),
        "failed to unload replaced module 8: timed out waiting for pactl"
    );
    assert_eq!(state.replaced_modules(), &vec![8]);
    assert_eq!(command(&state.dispose()), "pactl unload-module 8");
    assert!(done(resume(&mut state, ran(""), 0)));
    assert!(state.replaced_modules().is_empty());
}

#[test]
fn sink_that_came_too_late_is_not_forgotten() {
    let mut state = new_state(true);
    for module in ["5", "6"] {
        state.ensure_virtual_sink();
        resume(&mut state, graph(Vec::new()), 0);
        resume(&mut state, ran(module), 0);
        let step = resume(&mut state, graph(Vec::new()), SINK_WAIT_MS);
        assert_eq!(error(step), "timed out waiting for virtual sink");
    }
    assert_eq!(state.module_id(), Some(6));
    assert_eq!(command(&state.dispose()), "pactl unload-module 6");
    assert_eq!(command(&resume(&mut state, ran(""), 0)), "pactl unload-module 5");
    assert!(done(resume(&mut state, ran(""), 0)));
}

#[test]
fn id_that_is_given_again_belongs_to_the_new_module() {
    let mut state = state_with_replaced_mic();
    for (module, replaced) in [("8", vec![12]), ("8", vec![12]), ("12", vec![8])] {
        state.ensure_virtual_sink();
        resume(&mut state, full_graph(), 0);
        sink(resume(&mut state, ran(module), 0));
        assert_eq!(state.replaced_modules(), &replaced);
    }
}
