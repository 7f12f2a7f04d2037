use patchcord::models::{NodeRecord, PortDirection, PortRecord};
use patchcord::props::{PropMap, PropNumber, PropValue};
use patchcord::snapshot::{
    fallback_port_path, parse_link_line, parse_link_paths, PipeWireSnapshot, RawPwInfo, RawPwObject,
};

fn node_with_props(id: u32, props: &[(&str, &str)]) -> NodeRecord {
    let mut map = PropMap::new();
    for (key, value) in props {
        map.insert(key.to_string(), value.to_string());
    }
    NodeRecord { id, props: map, ports: Vec::new() }
}

fn text(value: &str) -> PropValue {
    PropValue::Text(value.to_string())
}

fn object(id: u32, kind: &str, props: Vec<(&str, PropValue)>, direction: Option<&str>) -> RawPwObject {
    RawPwObject {
        id,
        kind: kind.to_string(),
        info: RawPwInfo {
            props: props.into_iter().map(|(key, value)| (key.to_string(), value)).collect(),
            direction: direction.map(str::to_string),
        },
    }
}

const NODE: &str = "PipeWire:Interface:Node";
const PORT: &str = "PipeWire:Interface:Port";

#[test]
fn virtual_sink_lookup_prefers_unique_name_over_description() {
    let snapshot = PipeWireSnapshot {
        nodes: vec![
            node_with_props(1, &[("node.description", "Vencord Screen Share"), ("node.name", "other")]),
            node_with_props(
                2,
                &[("node.description", "Something Else"), ("node.name", "patchcord-screen-share-123")],
            ),
        ],
    };

    let found = snapshot
        .find_virtual_sink("patchcord-screen-share-123", "Vencord Screen Share")
        .expect("virtual sink should be found");

    assert_eq!(found.id, 2);
}

#[test]
fn virtual_sink_is_found_by_any_of_its_names() {
    for key in ["node.name", "device.name", "node.nick"] {
        let snapshot = PipeWireSnapshot { nodes: vec![node_with_props(5, &[(key, "sink")])] };
        assert_eq!(snapshot.find_virtual_sink("sink", "none").map(|node| node.id), Some(5));
    }
    for key in ["node.description", "device.description"] {
        let snapshot = PipeWireSnapshot { nodes: vec![node_with_props(6, &[(key, "Sink")])] };
        assert_eq!(snapshot.find_virtual_sink("sink", "Sink").map(|node| node.id), Some(6));
        assert!(snapshot.find_virtual_sink("Sink", "sink").is_none());
    }
}

#[test]
fn nodes_are_found_by_id() {
    let snapshot = PipeWireSnapshot {
        nodes: vec![node_with_props(1, &[]), node_with_props(2, &[("node.name", "two")])],
    };
    assert_eq!(snapshot.node(2).and_then(|node| node.prop("node.name")), Some("two"));
    assert!(snapshot.node(3).is_none());
}

#[test]
fn link_lines_tell_id_and_path() {
    assert_eq!(
        parse_link_line("  42 Firefox:output_FL"),
        Some((42, "Firefox:output_FL".to_string()))
    );
    assert_eq!(
        parse_link_line("7\tMy App:out 1 [active] [x]"),
        Some((7, "My App:out 1".to_string()))
    );
    assert_eq!(parse_link_line("42"), None);
    assert_eq!(parse_link_line("x path"), None);
    assert_eq!(parse_link_line("4294967296 path"), None);
    assert_eq!(parse_link_line("5  [only]"), Some((5, "[only]".to_string())));
    assert_eq!(parse_link_line("   "), None);
}

#[test]
fn listings_give_a_path_per_port() {
    let paths = parse_link_paths("1 a:b\r\n\n junk\n2 c:d [x]\n1 e:f\n");
    assert_eq!(paths.len(), 2);
    assert_eq!(paths.get(&1).map(String::as_str), Some("e:f"));
    assert_eq!(paths.get(&2).map(String::as_str), Some("c:d"));
}

#[test]
fn graph_is_put_together() {
    let objects = vec![
        object(30, PORT, vec![
            ("node.id", PropValue::Number(PropNumber::Unsigned(10))),
            ("audio.channel", text("FL")),
            ("port.id", PropValue::Number(PropNumber::Unsigned(0))),
            ("port.name", text("output_FL")),
        ], Some("output")),
        object(10, NODE, vec![("node.name", text("Firefox"))], None),
        object(31, PORT, vec![
            ("node.id", text("10")),
            ("port.direction", text("in")),
            ("object.path", text("obj")),
        ], Some("sideways")),
        object(32, PORT, vec![("node.id", text("10"))], None),
        object(33, PORT, vec![("node.id", text("99"))], Some("in")),
        object(34, PORT, vec![], Some("in")),
        object(20, "PipeWire:Interface:Link", vec![("node.name", text("no"))], None),
        object(11, NODE, vec![("node.name", text("old"))], None),
        object(11, NODE, vec![("media.class", text("Audio/Sink"))], None),
    ];

    let snapshot = PipeWireSnapshot::collect(objects, "30 Firefox:output_FL [x]\n", "30 wrong\n");

    assert_eq!(snapshot.nodes.len(), 2);
    let firefox = snapshot.node(10).unwrap();
    assert_eq!(firefox.prop("node.name"), Some("Firefox"));
    assert_eq!(firefox.ports.len(), 2);
    assert_eq!(firefox.ports[0].direction, PortDirection::Output);
    assert_eq!(firefox.ports[0].channel.as_deref(), Some("FL"));
    assert_eq!(firefox.ports[0].port_index.as_deref(), Some("0"));
    assert_eq!(firefox.ports[0].path.as_deref(), Some("Firefox:output_FL"));
    assert_eq!(firefox.ports[1].direction, PortDirection::Input);
    assert_eq!(firefox.ports[1].path.as_deref(), Some("Firefox:obj"));
    assert_eq!(firefox.output_ports().len(), 1);
    assert_eq!(firefox.input_ports().len(), 1);

    let replaced = snapshot.node(11).unwrap();
    assert_eq!(replaced.prop("node.name"), None);
    assert!(replaced.is_device());
}

#[test]
fn collected_ids_are_unique() {
    let objects = vec![object(1, NODE, vec![], None), object(2, NODE, vec![], None), object(1, NODE, vec![], None)];
    let snapshot = PipeWireSnapshot::collect(objects, "", "");
    let ids: Vec<u32> = snapshot.nodes.iter().map(|node| node.id).collect();
    assert_eq!(ids, vec![1, 2]);
}

#[test]
fn fallback_path_needs_both_names() {
    let port = |name: Option<&str>, path: Option<&str>| PortRecord {
        direction: PortDirection::Output,
        channel: None,
        port_index: None,
        path: None,
        port_name: name.map(str::to_string),
        object_path: path.map(str::to_string),
    };
    let named = node_with_props(1, &[("node.name", "n")]);
    let nameless = node_with_props(1, &[]);

    assert_eq!(fallback_port_path(&named, &port(Some("p"), Some("o"))).as_deref(), Some("n:p"));
    assert_eq!(fallback_port_path(&named, &port(None, Some("o"))).as_deref(), Some("n:o"));
    assert_eq!(fallback_port_path(&named, &port(None, None)), None);
    assert_eq!(fallback_port_path(&nameless, &port(Some("p"), None)), None);
}

#[test]
fn directions_are_parsed() {
    assert_eq!(PortDirection::parse("in"), Some(PortDirection::Input));
    assert_eq!(PortDirection::parse("input"), Some(PortDirection::Input));
    assert_eq!(PortDirection::parse("out"), Some(PortDirection::Output));
    assert_eq!(PortDirection::parse("output"), Some(PortDirection::Output));
    assert_eq!(PortDirection::parse("Input"), None);
}

#[test]
fn devices_are_told_from_applications() {
    assert!(node_with_props(1, &[("device.id", "3")]).is_device());
    assert!(!node_with_props(1, &[("device.id", "")]).is_device());
    assert!(node_with_props(1, &[("media.class", "Audio/Source/Virtual")]).is_device());
    assert!(!node_with_props(1, &[("media.class", "Stream/Output/Audio")]).is_device());
    assert!(!node_with_props(1, &[]).is_device());
    assert!(node_with_props(1, &[("a", "b")]).matches_prop("a", "b"));
    assert!(!node_with_props(1, &[("a", "b")]).matches_prop("a", "c"));
    assert!(!node_with_props(1, &[]).matches_prop("a", "b"));
}
