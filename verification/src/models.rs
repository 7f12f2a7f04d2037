//! The objects of the audio graph and what is told about them.
use vstd::prelude::*;

use crate::props::PropMap;
use crate::text::{same_text, starts_with};

verus! {

/// A node that can be shared, as it is told to the user.
#[derive(Debug, PartialEq, Eq)]
pub struct ShareableNode {
    pub id: u32,
    pub display_name: String,
    pub application_name: Option<String>,
    pub node_name: Option<String>,
    pub description: Option<String>,
    pub media_name: Option<String>,
    pub binary: Option<String>,
    pub process_id: Option<u32>,
    pub is_device: bool,
}

/// A [`ShareableNode`] with its texts as sequences of characters.
pub struct ShareableView {
    pub id: u32,
    pub display_name: Seq<char>,
    pub application_name: Option<Seq<char>>,
    pub node_name: Option<Seq<char>>,
    pub description: Option<Seq<char>>,
    pub media_name: Option<Seq<char>>,
    pub binary: Option<Seq<char>>,
    pub process_id: Option<u32>,
    pub is_device: bool,
}

impl View for ShareableNode {
    type V = ShareableView;

    open spec fn view(&self) -> ShareableView {
        ShareableView {
            id: self.id,
            display_name: self.display_name@,
            application_name: self.application_name.deep_view(),
            node_name: self.node_name.deep_view(),
            description: self.description.deep_view(),
            media_name: self.media_name.deep_view(),
            binary: self.binary.deep_view(),
            process_id: self.process_id,
            is_device: self.is_device,
        }
    }
}

impl DeepView for ShareableNode {
    type V = ShareableView;

    open spec fn deep_view(&self) -> ShareableView {
        self@
    }
}

impl Clone for ShareableNode {
    fn clone(&self) -> (copy: ShareableNode)
        ensures
            copy@ == self@,
    {
        ShareableNode {
            id: self.id,
            display_name: self.display_name.clone(),
            application_name: self.application_name.clone(),
            node_name: self.node_name.clone(),
            description: self.description.clone(),
            media_name: self.media_name.clone(),
            binary: self.binary.clone(),
            process_id: self.process_id,
            is_device: self.is_device,
        }
    }
}

/// Where the shared audio can be picked up.
#[derive(Debug, PartialEq, Eq)]
pub struct VirtualSinkInfo {
    pub sink_name: String,
    pub monitor_source: String,
    pub node_id: u32,
    pub virtual_mic_name: Option<String>,
    pub virtual_mic_description: Option<String>,
}

/// A [`VirtualSinkInfo`] with its texts as sequences of characters.
pub struct SinkInfoView {
    pub sink_name: Seq<char>,
    pub monitor_source: Seq<char>,
    pub node_id: u32,
    pub virtual_mic_name: Option<Seq<char>>,
    pub virtual_mic_description: Option<Seq<char>>,
}

impl View for VirtualSinkInfo {
    type V = SinkInfoView;

    open spec fn view(&self) -> SinkInfoView {
        SinkInfoView {
            sink_name: self.sink_name@,
            monitor_source: self.monitor_source@,
            node_id: self.node_id,
            virtual_mic_name: self.virtual_mic_name.deep_view(),
            virtual_mic_description: self.virtual_mic_description.deep_view(),
        }
    }
}

impl Clone for VirtualSinkInfo {
    fn clone(&self) -> (copy: VirtualSinkInfo)
        ensures
            copy@ == self@,
    {
        VirtualSinkInfo {
            sink_name: self.sink_name.clone(),
            monitor_source: self.monitor_source.clone(),
            node_id: self.node_id,
            virtual_mic_name: self.virtual_mic_name.clone(),
            virtual_mic_description: self.virtual_mic_description.clone(),
        }
    }
}

/// Which way audio passes through a port.
#[derive(Debug, Clone, Copy, PartialEq, Eq, Structural)]
pub enum PortDirection {
    Input,
    Output,
}

/// The direction that a word stands for.
pub open spec fn direction_of(word: Seq<char>) -> Option<PortDirection> {
    if word == "in"@ || word == "input"@ {
        Some(PortDirection::Input)
    } else if word == "out"@ || word == "output"@ {
        Some(PortDirection::Output)
    } else {
        None
    }
}

impl PortDirection {
    /// The direction that `value` stands for.
    pub fn parse(value: &str) -> (direction: Option<PortDirection>)
        ensures
            direction == direction_of(value@),
    {
        if same_text(value, "in") || same_text(value, "input") {
            Some(PortDirection::Input)
        } else if same_text(value, "out") || same_text(value, "output") {
            Some(PortDirection::Output)
        } else {
            None
        }
    }
}

/// A link from an output port to an input port.
#[derive(Debug, PartialEq, Eq, PartialOrd, Ord, Hash)]
pub struct Route {
    pub output_path: String,
    pub input_path: String,
}

/// A [`Route`] with its texts as sequences of characters.
pub struct RouteView {
    pub output_path: Seq<char>,
    pub input_path: Seq<char>,
}

impl View for Route {
    type V = RouteView;

    open spec fn view(&self) -> RouteView {
        RouteView { output_path: self.output_path@, input_path: self.input_path@ }
    }
}

impl DeepView for Route {
    type V = RouteView;

    open spec fn deep_view(&self) -> RouteView {
        self@
    }
}

impl Clone for Route {
    fn clone(&self) -> (copy: Route)
        ensures
            copy@ == self@,
    {
        Route { output_path: self.output_path.clone(), input_path: self.input_path.clone() }
    }
}

/// A port of a node.
#[derive(Debug)]
pub struct PortRecord {
    pub direction: PortDirection,
    pub channel: Option<String>,
    pub port_index: Option<String>,
    pub path: Option<String>,
    pub port_name: Option<String>,
    pub object_path: Option<String>,
}

/// A [`PortRecord`] with its texts as sequences of characters.
pub struct PortView {
    pub direction: PortDirection,
    pub channel: Option<Seq<char>>,
    pub port_index: Option<Seq<char>>,
    pub path: Option<Seq<char>>,
    pub port_name: Option<Seq<char>>,
    pub object_path: Option<Seq<char>>,
}

impl View for PortRecord {
    type V = PortView;

    open spec fn view(&self) -> PortView {
        PortView {
            direction: self.direction,
            channel: self.channel.deep_view(),
            port_index: self.port_index.deep_view(),
            path: self.path.deep_view(),
            port_name: self.port_name.deep_view(),
            object_path: self.object_path.deep_view(),
        }
    }
}

impl DeepView for PortRecord {
    type V = PortView;

    open spec fn deep_view(&self) -> PortView {
        self@
    }
}

impl Clone for PortRecord {
    fn clone(&self) -> (copy: PortRecord)
        ensures
            copy@ == self@,
    {
        PortRecord {
            direction: self.direction,
            channel: self.channel.clone(),
            port_index: self.port_index.clone(),
            path: self.path.clone(),
            port_name: self.port_name.clone(),
            object_path: self.object_path.clone(),
        }
    }
}

/// A node with its properties and ports.
#[derive(Debug)]
pub struct NodeRecord {
    pub id: u32,
    pub props: PropMap,
    pub ports: Vec<PortRecord>,
}

/// A [`NodeRecord`] with its texts as sequences of characters.
pub struct NodeView {
    pub id: u32,
    pub props: Map<Seq<char>, Seq<char>>,
    pub ports: Seq<PortView>,
}

impl View for NodeRecord {
    type V = NodeView;

    open spec fn view(&self) -> NodeView {
        NodeView { id: self.id, props: self.props@, ports: self.ports.deep_view() }
    }
}

impl DeepView for NodeRecord {
    type V = NodeView;

    open spec fn deep_view(&self) -> NodeView {
        self@
    }
}

impl Clone for NodeRecord {
    fn clone(&self) -> (copy: NodeRecord)
        ensures
            copy@ == self@,
    {
        let ghost all = self.ports.deep_view();
        let mut ports: Vec<PortRecord> = Vec::new();
        let mut i: usize = 0;
        assert(ports.deep_view() =~= all.take(0));
        while i < self.ports.len()
            invariant
                i <= self.ports.len(),
                all == self.ports.deep_view(),
                ports.deep_view() == all.take(i as int),
            decreases self.ports.len() - i,
        {
            let ghost before = ports.deep_view();
            ports.push(self.ports[i].clone());
            i += 1;
            assert(ports.deep_view() =~= before.push(all[i - 1]));
            assert(all.take(i as int) =~= before.push(all[i - 1]));
        }
        assert(all.take(i as int) =~= all);
        NodeRecord { id: self.id, props: self.props.clone(), ports }
    }
}

/// Whether there is a text and it is not empty.
pub open spec fn filled(text: Option<Seq<char>>) -> bool {
    text matches Some(t) && t.len() > 0
}

impl NodeView {
    /// The property under `key`.
    pub open spec fn prop(self, key: Seq<char>) -> Option<Seq<char>> {
        if self.props.contains_key(key) {
            Some(self.props[key])
        } else {
            None
        }
    }

    /// Whether the property under `key` is `expected`.
    pub open spec fn matches_prop(self, key: Seq<char>, expected: Seq<char>) -> bool {
        self.prop(key) == Some(expected)
    }

    /// The ports of one direction, in their order.
    pub open spec fn ports_towards(self, direction: PortDirection) -> Seq<PortView> {
        self.ports.filter(|port: PortView| port.direction == direction)
    }

    /// A device has a device id, or is an audio sink or source by its class.
    pub open spec fn is_device(self) -> bool {
        ||| filled(self.prop("device.id"@))
        ||| self.prop("media.class"@) matches Some(class) && ("Audio/Sink"@.is_prefix_of(class)
            || "Audio/Source"@.is_prefix_of(class))
    }
}

/// The ports of `ports` that have one direction, in their order.
fn ports_towards(ports: &Vec<PortRecord>, direction: PortDirection) -> (chosen: Vec<&PortRecord>)
    ensures
        chosen.deep_view() == ports.deep_view().filter(
            |port: PortView| port.direction == direction,
        ),
{
    let mut chosen: Vec<&PortRecord> = Vec::new();
    let mut i: usize = 0;
    let ghost all = ports.deep_view();
    let ghost wanted = |port: PortView| port.direction == direction;
    assert(all.take(0).filter(wanted) =~= seq![]) by {
        reveal(Seq::filter);
    }
    assert(chosen.deep_view() =~= seq![]);
    while i < ports.len()
        invariant
            i <= ports.len(),
            all == ports.deep_view(),
            wanted == (|port: PortView| port.direction == direction),
            chosen.deep_view() == all.take(i as int).filter(wanted),
        decreases ports.len() - i,
    {
        let ghost before = chosen.deep_view();
        let port = &ports[i];
        if port.direction == direction {
            chosen.push(port);
            assert(chosen.deep_view() =~= before.push(port@));
        }
        i += 1;
        proof {
            all.take(i - 1).lemma_filter_push(all[i - 1], wanted);
            assert(all.take(i as int) =~= all.take(i - 1).push(all[i - 1]));
        }
    }
    assert(all.take(i as int) =~= all);
    chosen
}

impl NodeRecord {
    /// The property under `key`.
    pub fn prop(&self, key: &str) -> (value: Option<&str>)
        ensures
            value.deep_view() == self@.prop(key@),
    {
        self.props.get(key)
    }

    /// Whether the property under `key` is `expected`.
    pub fn matches_prop(&self, key: &str, expected: &str) -> (yes: bool)
        ensures
            yes == self@.matches_prop(key@, expected@),
    {
        match self.prop(key) {
            Some(value) => same_text(value, expected),
            None => false,
        }
    }

    /// The ports that audio leaves by.
    pub fn output_ports(&self) -> (ports: Vec<&PortRecord>)
        ensures
            ports.deep_view() == self@.ports_towards(PortDirection::Output),
    {
        ports_towards(&self.ports, PortDirection::Output)
    }

    /// The ports that audio enters by.
    pub fn input_ports(&self) -> (ports: Vec<&PortRecord>)
        ensures
            ports.deep_view() == self@.ports_towards(PortDirection::Input),
    {
        ports_towards(&self.ports, PortDirection::Input)
    }

    /// Whether the property under `key` is there and not empty.
    pub fn has_filled_prop(&self, key: &str) -> (yes: bool)
        ensures
            yes == filled(self@.prop(key@)),
    {
        match self.prop(key) {
            Some(value) => !value.is_empty(),
            None => false,
        }
    }

    /// Whether the node belongs to a device.
    pub fn is_device(&self) -> (yes: bool)
        ensures
            yes == self@.is_device(),
    {
        let is_audio_device = match self.prop("media.class") {
            Some(class) => starts_with(class, "Audio/Sink") || starts_with(class, "Audio/Source"),
            None => false,
        };
        self.has_filled_prop("device.id") || is_audio_device
    }
}

/// Whether a node has a property of a value.
pub open spec fn has_value(node: NodeView, key: Seq<char>, value: Seq<char>) -> bool {
    node.props.contains_key(key) && node.props[key] == value
}

/// Whether a node has a property that is not empty.
pub open spec fn has_some(node: NodeView, key: Seq<char>) -> bool {
    node.props.contains_key(key) && node.props[key].len() > 0
}

/// `in` and `input` stand for one direction, `out` and `output` for the other,
/// and no other word for any.
pub proof fn law_direction_words(word: Seq<char>)
    ensures
        direction_of("in"@) == Some(PortDirection::Input),
        direction_of("input"@) == Some(PortDirection::Input),
        direction_of("out"@) == Some(PortDirection::Output),
        direction_of("output"@) == Some(PortDirection::Output),
        word != "in"@ && word != "input"@ && word != "out"@ && word != "output"@ ==> direction_of(
            word,
        ) is None,
{
    reveal_strlit("in");
    reveal_strlit("input");
    reveal_strlit("out");
    reveal_strlit("output");
    assert("in"@.len() == 2);
    assert("input"@.len() == 5);
    assert("out"@.len() == 3);
    assert("output"@.len() == 6);
}

/// A property is told as it is, and one that is missing is told as missing.
pub proof fn law_properties(node: NodeView, key: Seq<char>, value: Seq<char>)
    ensures
        node.prop(key) == Some(value) <==> has_value(node, key, value),
        node.prop(key) is None <==> !node.props.contains_key(key),
        node.matches_prop(key, value) <==> has_value(node, key, value),
{
}

/// A node is a device exactly when it has a device id that is not empty, or a
/// media class that starts as that of an audio sink or of an audio source. Its
/// other properties and its ports play no part.
pub proof fn law_devices(node: NodeView)
    ensures
        node.is_device() <==> is_hardware(node),
{
}

/// Whether a node has a name in one of the three properties that hold one.
pub open spec fn goes_by(node: NodeView, name: Seq<char>) -> bool {
    ||| has_value(node, "node.name"@, name)
    ||| has_value(node, "device.name"@, name)
    ||| has_value(node, "node.nick"@, name)
}

/// Whether a node has a description in one of the two properties that hold one.
pub open spec fn is_told_as(node: NodeView, description: Seq<char>) -> bool {
    ||| has_value(node, "node.description"@, description)
    ||| has_value(node, "device.description"@, description)
}

/// Whether the properties of a node tell that it is a device.
pub open spec fn is_hardware(node: NodeView) -> bool {
    ||| has_some(node, "device.id"@)
    ||| node.props.contains_key("media.class"@) && "Audio/Sink"@.is_prefix_of(
        node.props["media.class"@],
    )
    ||| node.props.contains_key("media.class"@) && "Audio/Source"@.is_prefix_of(
        node.props["media.class"@],
    )
}

/// The ports of a direction are all those of the node that have it, with a path or
/// without, in their order.
pub proof fn law_ports_towards(node: NodeView, port: PortView, direction: PortDirection)
    ensures
        (NodeView { ports: seq![], ..node }).ports_towards(direction).len() == 0,
        (NodeView { ports: node.ports.push(port), ..node }).ports_towards(direction) == if port.direction
            == direction {
            node.ports_towards(direction).push(port)
        } else {
            node.ports_towards(direction)
        },
{
    let wanted = |port: PortView| port.direction == direction;
    node.ports.lemma_filter_push(port, wanted);
    assert(Seq::<PortView>::empty().filter(wanted) =~= seq![]) by {
        reveal(Seq::filter);
    }
}

} // verus!
