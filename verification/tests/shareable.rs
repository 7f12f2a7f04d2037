use patchcord::models::{NodeRecord, PortDirection, PortRecord, ShareableNode};
use patchcord::props::PropMap;
use patchcord::shareable::{is_offered, list_nodes, to_shareable_node, usable_ports};
use patchcord::snapshot::PipeWireSnapshot;

fn output(path: Option<&str>) -> PortRecord {
    PortRecord {
        direction: PortDirection::Output,
        channel: None,
        port_index: None,
        path: path.map(str::to_string),
        port_name: None,
        object_path: None,
    }
}

fn node(id: u32, props: &[(&str, &str)], ports: Vec<PortRecord>) -> NodeRecord {
    let mut map = PropMap::new();
    for (key, value) in props {
        map.insert(key.to_string(), value.to_string());
    }
    NodeRecord { id, props: map, ports }
}

fn app(id: u32, name: &str) -> NodeRecord {
    node(id, &[("application.name", name)], vec![output(Some("p"))])
}

fn listed(nodes: Vec<NodeRecord>, include_devices: bool) -> Vec<u32> {
    list_nodes(&PipeWireSnapshot { nodes }, "sink", include_devices)
        .iter()
        .map(|node| node.id)
        .collect()
}

#[test]
fn nodes_are_told_with_all_they_have() {
    let told = to_shareable_node(&node(
        42,
        &[
            ("application.name", "Firefox"),
            ("node.name", "Firefox"),
            ("node.description", "Firefox"),
            ("device.description", "Other"),
            ("media.name", "AudioStream"),
            ("application.process.binary", "firefox"),
            ("application.process.id", "12345"),
        ],
        Vec::new(),
    ));
    assert_eq!(
        told,
        ShareableNode {
            id: 42,
            display_name: "Firefox".to_string(),
            application_name: Some("Firefox".to_string()),
            node_name: Some("Firefox".to_string()),
            description: Some("Firefox".to_string()),
            media_name: Some("AudioStream".to_string()),
            binary: Some("firefox".to_string()),
            process_id: Some(12345),
            is_device: false,
        }
    );
}

#[test]
fn bare_nodes_are_shown_by_their_id() {
    let told = to_shareable_node(&node(7, &[("application.process.id", "x")], Vec::new()));
    assert_eq!(told.display_name, "Node 7");
    assert_eq!(told.process_id, None);
    assert_eq!(told.description, None);
}

#[test]
fn shown_name_is_the_first_that_is_there() {
    let shown = |props: &[(&str, &str)]| to_shareable_node(&node(1, props, Vec::new())).display_name;
    let all = [
        ("node.description", "a"),
        ("device.description", "b"),
        ("media.name", "c"),
        ("application.name", "d"),
        ("node.name", "e"),
    ];
    assert_eq!(shown(&all), "a");
    assert_eq!(shown(&all[1..]), "b");
    assert_eq!(shown(&all[2..]), "c");
    assert_eq!(shown(&all[3..]), "d");
    assert_eq!(shown(&all[4..]), "e");
}

#[test]
fn listing_is_in_order() {
    let nodes = vec![app(5, "beta"), app(9, "Alpha"), app(3, "alpha"), app(1, "Zeta"), app(2, "_")];
    assert_eq!(listed(nodes, false), vec![2, 3, 9, 5, 1]);
}

#[test]
fn own_nodes_are_not_listed() {
    let named = |id: u32, key: &str, value: &str| {
        node(id, &[("application.name", "x"), (key, value)], vec![output(Some("p"))])
    };
    let nodes = vec![
        named(1, "node.name", "sink"),
        named(2, "device.name", "sink"),
        named(3, "node.nick", "sink.monitor"),
        named(4, "node.name", "sink.monitors"),
    ];
    assert_eq!(listed(nodes, true), vec![4]);
}

#[test]
fn nodes_need_an_output_that_can_be_linked() {
    let mut input = output(Some("p"));
    input.direction = PortDirection::Input;
    let nodes = vec![
        node(1, &[("application.name", "x")], vec![output(None)]),
        node(2, &[("application.name", "x")], vec![input]),
        node(3, &[("application.name", "x")], vec![output(None), output(Some("p"))]),
        node(4, &[("application.name", "x")], Vec::new()),
    ];
    assert_eq!(listed(nodes, true), vec![3]);
}

#[test]
fn devices_only_add() {
    let nodes = || {
        vec![
            node(1, &[("device.id", "1"), ("application.name", "x")], vec![output(Some("p"))]),
            node(2, &[("media.class", "Audio/Sink")], vec![output(Some("p"))]),
            node(3, &[("application.process.binary", "b")], vec![output(Some("p"))]),
            node(4, &[("application.name", "")], vec![output(Some("p"))]),
        ]
    };
    assert_eq!(listed(nodes(), false), vec![3]);
    assert_eq!(listed(nodes(), true), vec![2, 3, 1]);
    assert!(is_offered(&nodes()[0], "sink", true));
    assert!(!is_offered(&nodes()[0], "sink", false));
}

#[test]
fn usable_ports_have_a_path() {
    let node = node(1, &[], vec![output(None), output(Some("a")), output(Some("b"))]);
    let paths: Vec<Option<String>> =
        usable_ports(&node, PortDirection::Output).into_iter().map(|port| port.path).collect();
    assert_eq!(paths, vec![Some("a".to_string()), Some("b".to_string())]);
    assert!(usable_ports(&node, PortDirection::Input).is_empty());
}

#[test]
fn listing_is_strict() {
    let nodes = vec![app(2, "a"), app(1, "A"), app(3, "a")];
    let shown = list_nodes(&PipeWireSnapshot { nodes }, "sink", false);
    for pair in shown.windows(2) {
        let left = (pair[0].display_name.to_ascii_lowercase(), pair[0].id);
        let right = (pair[1].display_name.to_ascii_lowercase(), pair[1].id);
        assert!(left < right);
    }
    assert_eq!(shown.clone(), shown);
}

#[test]
fn leaving_devices_out_keeps_the_order() {
    let nodes = || {
        vec![
            app(7, "b"),
            node(6, &[("device.id", "1"), ("media.name", "aa")], vec![output(Some("p"))]),
            app(5, "a"),
        ]
    };
    assert_eq!(listed(nodes(), true), vec![5, 6, 7]);
    assert_eq!(listed(nodes(), false), vec![5, 7]);
}
