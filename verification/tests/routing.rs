use patchcord::models::{PortDirection, PortRecord};
use patchcord::routing::{dedupe_node_ids, has_id, map_ports};

fn port(
    direction: PortDirection,
    channel: Option<&str>,
    port_index: Option<&str>,
    path: &str,
) -> PortRecord {
    PortRecord {
        direction,
        channel: channel.map(str::to_string),
        port_index: port_index.map(str::to_string),
        path: Some(path.to_string()),
        port_name: None,
        object_path: None,
    }
}

fn paths(pairs: &Vec<(PortRecord, PortRecord)>) -> Vec<(String, String)> {
    pairs
        .iter()
        .map(|(output, input)| (output.path.clone().unwrap(), input.path.clone().unwrap()))
        .collect()
}

fn pair(output: &str, input: &str) -> (String, String) {
    (output.to_string(), input.to_string())
}

#[test]
fn mono_output_maps_to_all_inputs() {
    let outputs = vec![port(PortDirection::Output, Some("FL"), Some("0"), "out")];
    let inputs = vec![
        port(PortDirection::Input, Some("FL"), Some("0"), "in-left"),
        port(PortDirection::Input, Some("FR"), Some("1"), "in-right"),
    ];

    let mapped = map_ports(&outputs, &inputs);

    assert_eq!(mapped.len(), 2);
    assert_eq!(paths(&mapped), vec![pair("out", "in-left"), pair("out", "in-right")]);
}

#[test]
fn stereo_output_matches_by_channel() {
    let outputs = vec![
        port(PortDirection::Output, Some("FL"), Some("0"), "out-left"),
        port(PortDirection::Output, Some("FR"), Some("1"), "out-right"),
    ];
    let inputs = vec![
        port(PortDirection::Input, Some("FL"), Some("0"), "in-left"),
        port(PortDirection::Input, Some("FR"), Some("1"), "in-right"),
    ];

    let mapped = map_ports(&outputs, &inputs);

    assert_eq!(mapped.len(), 2);
    assert_eq!(mapped[0].0.path.as_deref(), Some("out-left"));
    assert_eq!(mapped[0].1.path.as_deref(), Some("in-left"));
    assert_eq!(mapped[1].0.path.as_deref(), Some("out-right"));
    assert_eq!(mapped[1].1.path.as_deref(), Some("in-right"));
}

#[test]
fn unknown_channels_fall_back_to_port_index() {
    let outputs = vec![
        port(PortDirection::Output, None, Some("0"), "out-left"),
        port(PortDirection::Output, None, Some("1"), "out-right"),
    ];
    let inputs = vec![
        port(PortDirection::Input, None, Some("0"), "in-left"),
        port(PortDirection::Input, None, Some("1"), "in-right"),
    ];

    let mapped = map_ports(&outputs, &inputs);

    assert_eq!(mapped.len(), 2);
    assert_eq!(mapped[0].0.path.as_deref(), Some("out-left"));
    assert_eq!(mapped[0].1.path.as_deref(), Some("in-left"));
    assert_eq!(mapped[1].0.path.as_deref(), Some("out-right"));
    assert_eq!(mapped[1].1.path.as_deref(), Some("in-right"));
}

#[test]
fn one_unknown_channel_is_enough_to_go_by_index() {
    let outputs = vec![
        port(PortDirection::Output, Some("UNK"), Some("1"), "a"),
        port(PortDirection::Output, Some("FL"), Some("7"), "b"),
    ];
    let inputs = vec![
        port(PortDirection::Input, Some("FL"), Some("0"), "left"),
        port(PortDirection::Input, Some("FR"), Some("1"), "right"),
    ];

    assert_eq!(
        paths(&map_ports(&outputs, &inputs)),
        vec![pair("a", "right"), pair("b", "left")]
    );
}

#[test]
fn ports_without_channel_and_index_all_match() {
    let outputs = vec![
        port(PortDirection::Output, None, None, "a"),
        port(PortDirection::Output, None, None, "b"),
    ];
    let inputs = vec![port(PortDirection::Input, None, None, "in")];

    assert_eq!(paths(&map_ports(&outputs, &inputs)), vec![pair("a", "in"), pair("b", "in")]);
}

#[test]
fn nothing_is_mapped_without_ports() {
    let some = vec![port(PortDirection::Output, None, None, "a")];
    let none: Vec<PortRecord> = Vec::new();

    assert!(map_ports(&none, &some).is_empty());
    assert!(map_ports(&some, &none).is_empty());
    assert!(map_ports(&none, &none).is_empty());
}

#[test]
fn test_dedupe_node_ids() {
    let input = vec![1, 2, 2, 3, 1, 4];
    let expected = vec![1, 2, 3, 4];
    assert_eq!(dedupe_node_ids(input), expected);
}

#[test]
fn deduping_keeps_the_first_of_each() {
    assert_eq!(dedupe_node_ids(vec![9, 3, 9, 3, 1]), vec![9, 3, 1]);
    assert_eq!(dedupe_node_ids(vec![5, 4]), vec![5, 4]);
    assert_eq!(dedupe_node_ids(Vec::new()), Vec::<u32>::new());
}

#[test]
fn ids_are_found() {
    assert!(has_id(&vec![1, 2], 2));
    assert!(!has_id(&vec![1, 2], 3));
}
