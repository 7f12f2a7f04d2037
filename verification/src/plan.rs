//! What a graph says about the virtual sink: whether it is ready, and which
//! links it takes to hear the chosen nodes through it.
use vstd::prelude::*;

use crate::config::{MicConfig, MicView};
use crate::error::{BackendError, ErrorView};
use crate::models::{
    goes_by, is_told_as, NodeRecord, NodeView, PortDirection, PortRecord, PortView, Route,
    RouteView, SinkInfoView, VirtualSinkInfo,
};
use crate::modules::{monitor_name, monitor_of};
use crate::routes::RouteSet;
use crate::routing::{dedupe_node_ids, deduped, law_deduped_ids, map_ports, mapped, ports_match};
use crate::shareable::{
    is_monitor_node, is_virtual_sink_node, law_names, law_usable_port, law_usable_ports, linkable,
    usable_ports,
};
use crate::snapshot::{
    law_node_is_found_by_id, law_sink_is_found_by_description, law_sink_is_found_by_name,
    law_sink_is_missing, node_with_id, sink_in, PipeWireSnapshot,
};

verus! {

/// Where the shared audio can be picked up when the sink is the node `node_id`.
pub open spec fn info_view(sink_name: Seq<char>, mic: Option<MicView>, node_id: u32) -> SinkInfoView {
    SinkInfoView {
        sink_name,
        monitor_source: monitor_of(sink_name),
        node_id,
        virtual_mic_name: match mic {
            Some(mic) => Some(mic.name),
            None => None,
        },
        virtual_mic_description: match mic {
            Some(mic) => Some(mic.description),
            None => None,
        },
    }
}

/// The node of the virtual sink, once it has two inputs that can be linked.
pub open spec fn ready_sink(
    nodes: Seq<NodeView>,
    sink_name: Seq<char>,
    sink_description: Seq<char>,
) -> Option<u32> {
    match sink_in(nodes, sink_name, sink_description) {
        Some(node) => if node.usable_ports(PortDirection::Input).len() >= 2 {
            Some(node.id)
        } else {
            None
        },
        None => None,
    }
}

/// The node of the virtual sink, once it has two inputs that can be linked.
pub fn find_ready_sink(snapshot: &PipeWireSnapshot, sink_name: &str, sink_description: &str) -> (id:
    Option<u32>)
    ensures
        id == ready_sink(snapshot@, sink_name@, sink_description@),
{
    match snapshot.find_virtual_sink(sink_name, sink_description) {
        Some(node) => {
            let inputs = usable_ports(node, PortDirection::Input);
            assert(inputs.len() == inputs.deep_view().len());
            if inputs.len() >= 2 {
                Some(node.id)
            } else {
                None
            }
        },
        None => None,
    }
}

/// Whether a graph has a node that goes by the name of the microphone.
pub open spec fn mic_in(nodes: Seq<NodeView>, mic_name: Seq<char>) -> bool {
    exists|i: int| 0 <= i < nodes.len() && (#[trigger] nodes[i]).is_named(mic_name)
}

/// Whether the graph has a node that goes by the name of the microphone.
pub fn has_mic(snapshot: &PipeWireSnapshot, mic_name: &str) -> (yes: bool)
    ensures
        yes == mic_in(snapshot@, mic_name@),
{
    let mut i: usize = 0;
    while i < snapshot.nodes.len()
        invariant
            i <= snapshot.nodes.len(),
            forall|j: int| 0 <= j < i ==> !(#[trigger] snapshot@[j]).is_named(mic_name@),
        decreases snapshot.nodes.len() - i,
    {
        if snapshot.nodes[i].is_named(mic_name) {
            assert(snapshot@[i as int].is_named(mic_name@));
            return true;
        }
        assert(!snapshot@[i as int].is_named(mic_name@));
        i += 1;
    }
    false
}

/// Where the shared audio can be picked up when the sink is the node `node_id`.
pub fn sink_info(sink_name: &str, mic: &Option<MicConfig>, node_id: u32) -> (info: VirtualSinkInfo)
    ensures
        info@ == info_view(sink_name@, mic.deep_view(), node_id),
{
    let (virtual_mic_name, virtual_mic_description) = match mic {
        Some(mic) => (Some(mic.name.clone()), Some(mic.description.clone())),
        None => (None, None),
    };
    VirtualSinkInfo {
        sink_name: sink_name.to_string(),
        monitor_source: monitor_name(sink_name),
        node_id,
        virtual_mic_name,
        virtual_mic_description,
    }
}

/// Whether a route links the two ports of a pair.
pub open spec fn links_pair(route: RouteView, pair: (PortView, PortView)) -> bool {
    pair.0.path == Some(route.output_path) && pair.1.path == Some(route.input_path)
}

/// The routes that link the pairs of ports that have paths.
pub open spec fn routes_between(pairs: Seq<(PortView, PortView)>) -> Set<RouteView> {
    Set::new(
        |route: RouteView|
            exists|i: int| 0 <= i < pairs.len() && links_pair(route, #[trigger] pairs[i]),
    )
}

/// The routes that link one node with the virtual sink. There are none for the
/// sink itself, for an id that no node has, and for the virtual objects.
pub open spec fn node_routes(
    nodes: Seq<NodeView>,
    sink_name: Seq<char>,
    sink: NodeView,
    id: u32,
) -> Set<RouteView> {
    match node_with_id(nodes, id) {
        Some(node) => if id == sink.id || node.is_own(sink_name) {
            Set::empty()
        } else {
            routes_between(
                mapped(
                    node.usable_ports(PortDirection::Output),
                    sink.usable_ports(PortDirection::Input),
                ),
            )
        },
        None => Set::empty(),
    }
}

/// The routes that link the chosen nodes with the virtual sink.
pub open spec fn desired(
    nodes: Seq<NodeView>,
    sink_name: Seq<char>,
    sink: NodeView,
    ids: Seq<u32>,
) -> Set<RouteView> {
    Set::new(
        |route: RouteView|
            exists|k: int|
                0 <= k < ids.len() && node_routes(
                    nodes,
                    sink_name,
                    sink,
                    #[trigger] ids[k],
                ).contains(route),
    )
}

/// The routes that a choice of nodes asks for, or why there are none.
pub open spec fn planned(
    nodes: Seq<NodeView>,
    sink_name: Seq<char>,
    sink_description: Seq<char>,
    ids: Seq<u32>,
) -> Result<Set<RouteView>, ErrorView> {
    match sink_in(nodes, sink_name, sink_description) {
        None => Err(
            ErrorView::Message("virtual sink exists in PulseAudio but was not found in PipeWire"@),
        ),
        Some(sink) => if sink.usable_ports(PortDirection::Input).len() < 2 {
            Err(ErrorView::Message("virtual sink has no usable stereo input ports"@))
        } else if desired(nodes, sink_name, sink, ids) == Set::<RouteView>::empty() {
            Err(ErrorView::Message("none of the selected nodes could be linked"@))
        } else {
            Ok(desired(nodes, sink_name, sink, ids))
        },
    }
}

fn add_routes(routes: &mut RouteSet, pairs: &Vec<(PortRecord, PortRecord)>)
    requires
        old(routes).wf(),
    ensures
        final(routes).wf(),
        final(routes)@ == old(routes)@.union(routes_between(pairs.deep_view())),
{
    let ghost all = pairs.deep_view();
    let mut i: usize = 0;
    assert(routes@ =~= routes@.union(routes_between(all.take(0))));
    while i < pairs.len()
        invariant
            i <= pairs.len(),
            all == pairs.deep_view(),
            routes.wf(),
            routes@ == old(routes)@.union(routes_between(all.take(i as int))),
        decreases pairs.len() - i,
    {
        let (output, input) = &pairs[i];
        let ghost before = routes@;
        let ghost now = all[i as int];
        assert(now == (output@, input@));
        assert(forall|j: int| 0 <= j < i ==> all.take(i + 1)[j] == all.take(i as int)[j]);
        assert(all.take(i + 1)[i as int] == now);
        match (&output.path, &input.path) {
            (Some(output_path), Some(input_path)) => {
                let route = Route {
                    output_path: output_path.clone(),
                    input_path: input_path.clone(),
                };
                let ghost fresh = route@;
                routes.insert(route);
                assert(links_pair(fresh, now));
                assert(routes@ =~= old(routes)@.union(routes_between(all.take(i + 1)))) by {
                    lemma_routes_between_push(all.take(i as int), now);
                    assert(all.take(i + 1) =~= all.take(i as int).push(now));
                }
            },
            _ => {
                assert(routes@ =~= old(routes)@.union(routes_between(all.take(i + 1)))) by {
                    lemma_routes_between_push(all.take(i as int), now);
                    assert(all.take(i + 1) =~= all.take(i as int).push(now));
                }
            },
        }
        i += 1;
    }
    assert(all.take(i as int) =~= all);
}

/// What one more pair of ports adds.
proof fn lemma_routes_between_push(pairs: Seq<(PortView, PortView)>, pair: (PortView, PortView))
    ensures
        forall|route: RouteView| #[trigger]
            routes_between(pairs.push(pair)).contains(route) <==> routes_between(pairs).contains(
                route,
            ) || links_pair(route, pair),
{
    let more = pairs.push(pair);
    assert forall|route: RouteView| #[trigger]
        routes_between(more).contains(route) <==> routes_between(pairs).contains(route)
            || links_pair(route, pair) by {
        if routes_between(more).contains(route) && !links_pair(route, pair) {
            let i = choose|i: int| 0 <= i < more.len() && links_pair(route, #[trigger] more[i]);
            assert(links_pair(route, pairs[i]));
        }
        if routes_between(pairs).contains(route) {
            let i = choose|i: int| 0 <= i < pairs.len() && links_pair(route, #[trigger] pairs[i]);
            assert(links_pair(route, more[i]));
        }
        if links_pair(route, pair) {
            assert(links_pair(route, more[pairs.len() as int]));
        }
    }
}

fn add_node_routes(
    routes: &mut RouteSet,
    snapshot: &PipeWireSnapshot,
    sink_name: &str,
    sink: &NodeRecord,
    inputs: &Vec<PortRecord>,
    id: u32,
)
    requires
        old(routes).wf(),
        inputs.deep_view() == sink@.usable_ports(PortDirection::Input),
    ensures
        final(routes).wf(),
        final(routes)@ == old(routes)@.union(node_routes(snapshot@, sink_name@, sink@, id)),
{
    let ghost none = Set::<RouteView>::empty();
    assert(routes@ =~= routes@.union(none));
    if id == sink.id {
        return;
    }
    let node = match snapshot.node(id) {
        Some(node) => node,
        None => return,
    };
    if is_virtual_sink_node(node, sink_name) || is_monitor_node(node, sink_name) {
        return;
    }
    let outputs = usable_ports(node, PortDirection::Output);
    let pairs = map_ports(outputs.as_slice(), inputs.as_slice());
    add_routes(routes, &pairs);
}

/// The routes that a choice of nodes asks for, or why there are none.
pub fn plan_routes(
    snapshot: &PipeWireSnapshot,
    sink_name: &str,
    sink_description: &str,
    ids: Vec<u32>,
) -> (plan: Result<RouteSet, BackendError>)
    ensures
        match plan {
            Ok(routes) => routes.wf() && planned(
                snapshot@,
                sink_name@,
                sink_description@,
                ids@,
            ) == Ok::<Set<RouteView>, ErrorView>(routes@),
            Err(error) => planned(snapshot@, sink_name@, sink_description@, ids@) == Err::<
                Set<RouteView>,
                ErrorView,
            >(error@),
        },
{
    let sink = match snapshot.find_virtual_sink(sink_name, sink_description) {
        Some(sink) => sink,
        None => return Err(
            BackendError::Message(
                "virtual sink exists in PulseAudio but was not found in PipeWire".to_string(),
            ),
        ),
    };
    let inputs = usable_ports(sink, PortDirection::Input);
    assert(inputs.len() == inputs.deep_view().len());
    if inputs.len() < 2 {
        return Err(
            BackendError::Message("virtual sink has no usable stereo input ports".to_string()),
        );
    }
    let ghost chosen = ids@;
    let ids = dedupe_node_ids(ids);
    let mut routes = RouteSet::new();
    let mut i: usize = 0;
    assert(routes@ =~= desired(snapshot@, sink_name@, sink@, ids@.take(0)));
    while i < ids.len()
        invariant
            i <= ids.len(),
            routes.wf(),
            inputs.deep_view() == sink@.usable_ports(PortDirection::Input),
            routes@ == desired(snapshot@, sink_name@, sink@, ids@.take(i as int)),
        decreases ids.len() - i,
    {
        add_node_routes(&mut routes, snapshot, sink_name, sink, &inputs, ids[i]);
        i += 1;
        proof {
            let less = ids@.take(i - 1);
            let more = ids@.take(i as int);
            assert(forall|k: int| 0 <= k < i - 1 ==> more[k] == less[k]);
            assert(more[i - 1] == ids@[i - 1]);
            assert forall|route: RouteView|
                routes@.contains(route) <==> desired(
                    snapshot@,
                    sink_name@,
                    sink@,
                    more,
                ).contains(route) by {
                if desired(snapshot@, sink_name@, sink@, less).contains(route) {
                    let k = choose|k: int|
                        0 <= k < less.len() && node_routes(
                            snapshot@,
                            sink_name@,
                            sink@,
                            #[trigger] less[k],
                        ).contains(route);
                    assert(node_routes(snapshot@, sink_name@, sink@, more[k]).contains(route));
                }
                if node_routes(snapshot@, sink_name@, sink@, more[i - 1]).contains(route) {
                    assert(desired(snapshot@, sink_name@, sink@, more).contains(route));
                }
                if desired(snapshot@, sink_name@, sink@, more).contains(route) {
                    let k = choose|k: int|
                        0 <= k < more.len() && node_routes(
                            snapshot@,
                            sink_name@,
                            sink@,
                            #[trigger] more[k],
                        ).contains(route);
                    if k < i - 1 {
                        assert(node_routes(snapshot@, sink_name@, sink@, less[k]).contains(route));
                    }
                }
            }
            assert(routes@ =~= desired(snapshot@, sink_name@, sink@, more));
        }
    }
    proof {
        assert(ids@.take(i as int) =~= ids@);
        lemma_desired_of_same_ids(snapshot@, sink_name@, sink@, chosen, ids@);
    }
    if routes.is_empty() {
        return Err(
            BackendError::Message("none of the selected nodes could be linked".to_string()),
        );
    }
    Ok(routes)
}

/// Why a chosen node is passed over.
#[derive(Debug, Clone, Copy, PartialEq, Eq, Structural)]
pub enum SkipReason {
    /// It is the virtual sink.
    Sink,
    /// There is no such node.
    Missing,
    /// It is another of the virtual objects.
    Own,
    /// It has no output port that can be linked.
    NoOutputs,
}

/// Why a chosen node is passed over, where it is.
pub open spec fn skip_reason(
    nodes: Seq<NodeView>,
    sink_name: Seq<char>,
    sink: NodeView,
    id: u32,
) -> Option<SkipReason> {
    if id == sink.id {
        Some(SkipReason::Sink)
    } else {
        match node_with_id(nodes, id) {
            None => Some(SkipReason::Missing),
            Some(node) => if node.is_own(sink_name) {
                Some(SkipReason::Own)
            } else if node.usable_ports(PortDirection::Output).len() == 0 {
                Some(SkipReason::NoOutputs)
            } else {
                None
            },
        }
    }
}

/// The chosen nodes that are passed over, each once and in the order in which
/// they were first chosen. Without a sink that can be used no node is looked
/// at.
pub open spec fn skipped(
    nodes: Seq<NodeView>,
    sink_name: Seq<char>,
    sink_description: Seq<char>,
    ids: Seq<u32>,
) -> Seq<(u32, SkipReason)> {
    match sink_in(nodes, sink_name, sink_description) {
        Some(sink) => if sink.usable_ports(PortDirection::Input).len() >= 2 {
            skipped_with(nodes, sink_name, sink, deduped(ids))
        } else {
            seq![]
        },
        None => seq![],
    }
}

/// The ids of `ids` that are passed over, in their order.
pub open spec fn skipped_with(
    nodes: Seq<NodeView>,
    sink_name: Seq<char>,
    sink: NodeView,
    ids: Seq<u32>,
) -> Seq<(u32, SkipReason)> {
    ids.filter_map(
        |id: u32|
            match skip_reason(nodes, sink_name, sink, id) {
                Some(reason) => Some((id, reason)),
                None => None,
            },
    )
}

fn find_skip_reason(
    snapshot: &PipeWireSnapshot,
    sink_name: &str,
    sink: &NodeRecord,
    id: u32,
) -> (reason: Option<SkipReason>)
    ensures
        reason == skip_reason(snapshot@, sink_name@, sink@, id),
{
    if id == sink.id {
        return Some(SkipReason::Sink);
    }
    match snapshot.node(id) {
        None => Some(SkipReason::Missing),
        Some(node) => {
            if is_virtual_sink_node(node, sink_name) || is_monitor_node(node, sink_name) {
                return Some(SkipReason::Own);
            }
            let outputs = usable_ports(node, PortDirection::Output);
            assert(outputs.len() == outputs.deep_view().len());
            if outputs.len() == 0 {
                Some(SkipReason::NoOutputs)
            } else {
                None
            }
        },
    }
}

/// The chosen nodes that are passed over, and why.
pub fn skipped_nodes(
    snapshot: &PipeWireSnapshot,
    sink_name: &str,
    sink_description: &str,
    ids: &Vec<u32>,
) -> (passed_over: Vec<(u32, SkipReason)>)
    ensures
        passed_over@ == skipped(snapshot@, sink_name@, sink_description@, ids@),
{
    let mut passed_over: Vec<(u32, SkipReason)> = Vec::new();
    let sink = match snapshot.find_virtual_sink(sink_name, sink_description) {
        Some(sink) => sink,
        None => return passed_over,
    };
    let inputs = usable_ports(sink, PortDirection::Input);
    assert(inputs.len() == inputs.deep_view().len());
    if inputs.len() < 2 {
        return passed_over;
    }
    let once = dedupe_node_ids(ids.clone());
    let ghost reading = |id: u32|
        match skip_reason(snapshot@, sink_name@, sink@, id) {
            Some(reason) => Some((id, reason)),
            None => None,
        };
    let mut i: usize = 0;
    assert(once@.take(0).filter_map(reading) =~= seq![]);
    while i < once.len()
        invariant
            i <= once.len(),
            reading == (|id: u32|
                match skip_reason(snapshot@, sink_name@, sink@, id) {
                    Some(reason) => Some((id, reason)),
                    None => None,
                }),
            passed_over@ == once@.take(i as int).filter_map(reading),
        decreases once.len() - i,
    {
        proof {
            once@.lemma_filter_map_take_succ(reading, i as int);
        }
        if let Some(reason) = find_skip_reason(snapshot, sink_name, sink, once[i]) {
            passed_over.push((once[i], reason));
        }
        i += 1;
    }
    assert(once@.take(i as int) =~= once@);
    passed_over
}

/// A node that is passed over adds no route.
pub proof fn law_skipped_nodes_add_no_route(
    nodes: Seq<NodeView>,
    sink_name: Seq<char>,
    sink: NodeView,
    id: u32,
)
    requires
        skip_reason(nodes, sink_name, sink, id) is Some,
    ensures
        node_routes(nodes, sink_name, sink, id) == Set::<RouteView>::empty(),
{
    if let Some(node) = node_with_id(nodes, id) {
        let outputs = node.usable_ports(PortDirection::Output);
        let inputs = sink.usable_ports(PortDirection::Input);
        if outputs.len() == 0 {
            let pairs = mapped(outputs, inputs);
            assert(outputs =~= seq![]);
            assert forall|route: RouteView| !(#[trigger] routes_between(pairs).contains(route)) by {
                if routes_between(pairs).contains(route) {
                    let i = choose|i: int|
                        0 <= i < pairs.len() && links_pair(route, #[trigger] pairs[i]);
                    assert(pairs.contains(pairs[i]));
                    crate::routing::law_mapped_pairs(outputs, inputs, pairs[i].0, pairs[i].1);
                }
            }
            assert(routes_between(pairs) =~= Set::empty());
        }
    }
}

/// A node that is chosen twice is heard as if it were chosen once.
proof fn lemma_desired_of_same_ids(
    nodes: Seq<NodeView>,
    sink_name: Seq<char>,
    sink: NodeView,
    ids: Seq<u32>,
    once: Seq<u32>,
)
    requires
        once == deduped(ids),
    ensures
        desired(nodes, sink_name, sink, ids) == desired(nodes, sink_name, sink, once),
{
    law_deduped_ids(ids);
    assert forall|route: RouteView|
        desired(nodes, sink_name, sink, ids).contains(route) <==> desired(
            nodes,
            sink_name,
            sink,
            once,
        ).contains(route) by {
        if desired(nodes, sink_name, sink, ids).contains(route) {
            let k = choose|k: int|
                0 <= k < ids.len() && node_routes(
                    nodes,
                    sink_name,
                    sink,
                    #[trigger] ids[k],
                ).contains(route);
            assert(ids.contains(ids[k]));
            assert(once.contains(ids[k]));
            let j = choose|j: int| 0 <= j < once.len() && once[j] == ids[k];
            assert(node_routes(nodes, sink_name, sink, once[j]).contains(route));
        }
        if desired(nodes, sink_name, sink, once).contains(route) {
            let k = choose|k: int|
                0 <= k < once.len() && node_routes(
                    nodes,
                    sink_name,
                    sink,
                    #[trigger] once[k],
                ).contains(route);
            assert(once.contains(once[k]));
            assert(ids.contains(once[k]));
            let j = choose|j: int| 0 <= j < ids.len() && ids[j] == once[k];
            assert(node_routes(nodes, sink_name, sink, ids[j]).contains(route));
        }
    }
    assert(desired(nodes, sink_name, sink, ids) =~= desired(nodes, sink_name, sink, once));
}

/// Whether a node is chosen and may be linked with the sink.
pub open spec fn asks_for(
    nodes: Seq<NodeView>,
    sink_name: Seq<char>,
    sink: NodeView,
    ids: Seq<u32>,
    node: NodeView,
) -> bool {
    &&& ids.contains(node.id)
    &&& node_with_id(nodes, node.id) == Some(node)
    &&& node.id != sink.id
    &&& !node.is_own(sink_name)
}

/// Whether a route links an output port of a node with an input port of the
/// sink, and the two ports belong together.
pub open spec fn joins(
    route: RouteView,
    node: NodeView,
    output: PortView,
    sink: NodeView,
    input: PortView,
) -> bool {
    let outputs = node.usable_ports(PortDirection::Output);
    &&& outputs.contains(output)
    &&& sink.usable_ports(PortDirection::Input).contains(input)
    &&& ports_match(outputs.len() == 1, output, input)
    &&& links_pair(route, (output, input))
}

/// A route is asked for exactly when it links an output port of a chosen node
/// with an input port of the sink, the two ports belong together, and the node
/// is neither the sink nor another of the virtual objects.
pub proof fn law_desired_routes(
    nodes: Seq<NodeView>,
    sink_name: Seq<char>,
    sink: NodeView,
    ids: Seq<u32>,
    route: RouteView,
)
    ensures
        desired(nodes, sink_name, sink, ids).contains(route) <==> exists|
            node: NodeView,
            output: PortView,
            input: PortView,
        |
            asks_for(nodes, sink_name, sink, ids, node) && #[trigger] joins(
                route,
                node,
                output,
                sink,
                input,
            ),
{
    let inputs = sink.usable_ports(PortDirection::Input);
    if desired(nodes, sink_name, sink, ids).contains(route) {
        let k = choose|k: int|
            0 <= k < ids.len() && node_routes(nodes, sink_name, sink, #[trigger] ids[k]).contains(
                route,
            );
        let node = node_with_id(nodes, ids[k])->Some_0;
        let outputs = node.usable_ports(PortDirection::Output);
        let pairs = mapped(outputs, inputs);
        let i = choose|i: int| 0 <= i < pairs.len() && links_pair(route, #[trigger] pairs[i]);
        let (output, input) = pairs[i];
        assert(pairs.contains((output, input)));
        crate::routing::law_mapped_pairs(outputs, inputs, output, input);
        assert(asks_for(nodes, sink_name, sink, ids, node)) by {
            let own_id = ids[k];
            crate::snapshot::lemma_first_node_found(nodes, |node: NodeView| node.id == own_id);
            assert(ids.contains(own_id));
        }
        assert(joins(route, node, output, sink, input));
    }
    if exists|node: NodeView, output: PortView, input: PortView|
        asks_for(nodes, sink_name, sink, ids, node) && #[trigger] joins(
            route,
            node,
            output,
            sink,
            input,
        ) {
        let (node, output, input) = choose|node: NodeView, output: PortView, input: PortView|
            asks_for(nodes, sink_name, sink, ids, node) && #[trigger] joins(
                route,
                node,
                output,
                sink,
                input,
            );
        let outputs = node.usable_ports(PortDirection::Output);
        let pairs = mapped(outputs, inputs);
        crate::routing::law_mapped_pairs(outputs, inputs, output, input);
        let i = choose|i: int| 0 <= i < pairs.len() && pairs[i] == (output, input);
        assert(links_pair(route, pairs[i]));
        let k = choose|k: int| 0 <= k < ids.len() && ids[k] == node.id;
        assert(node_routes(nodes, sink_name, sink, ids[k]).contains(route));
    }
}

/// The order of the chosen nodes, and how often each is chosen, do not matter.
pub proof fn law_choice_is_a_set(
    nodes: Seq<NodeView>,
    sink_name: Seq<char>,
    sink_description: Seq<char>,
    a: Seq<u32>,
    b: Seq<u32>,
)
    requires
        a.to_set() == b.to_set(),
    ensures
        planned(nodes, sink_name, sink_description, a) == planned(
            nodes,
            sink_name,
            sink_description,
            b,
        ),
{
    if let Some(sink) = sink_in(nodes, sink_name, sink_description) {
        assert forall|route: RouteView|
            desired(nodes, sink_name, sink, a).contains(route) <==> desired(
                nodes,
                sink_name,
                sink,
                b,
            ).contains(route) by {
            lemma_same_choice(nodes, sink_name, sink, a, b, route);
            lemma_same_choice(nodes, sink_name, sink, b, a, route);
        }
        assert(desired(nodes, sink_name, sink, a) =~= desired(nodes, sink_name, sink, b));
    }
}

proof fn lemma_same_choice(
    nodes: Seq<NodeView>,
    sink_name: Seq<char>,
    sink: NodeView,
    a: Seq<u32>,
    b: Seq<u32>,
    route: RouteView,
)
    requires
        a.to_set() == b.to_set(),
    ensures
        desired(nodes, sink_name, sink, a).contains(route) ==> desired(
            nodes,
            sink_name,
            sink,
            b,
        ).contains(route),
{
    if desired(nodes, sink_name, sink, a).contains(route) {
        let k = choose|k: int|
            0 <= k < a.len() && node_routes(nodes, sink_name, sink, #[trigger] a[k]).contains(
                route,
            );
        assert(a.to_set().contains(a[k]));
        assert(b.contains(a[k]));
        let j = choose|j: int| 0 <= j < b.len() && b[j] == a[k];
        assert(node_routes(nodes, sink_name, sink, b[j]).contains(route));
    }
}

/// Finitely many routes are asked for.
pub proof fn law_plans_are_finite(
    nodes: Seq<NodeView>,
    sink_name: Seq<char>,
    sink_description: Seq<char>,
    ids: Seq<u32>,
)
    ensures
        planned(nodes, sink_name, sink_description, ids) matches Ok(wanted) ==> wanted.finite(),
{
    if let Some(sink) = sink_in(nodes, sink_name, sink_description) {
        lemma_desired_is_finite(nodes, sink_name, sink, ids);
    }
}

proof fn lemma_desired_is_finite(
    nodes: Seq<NodeView>,
    sink_name: Seq<char>,
    sink: NodeView,
    ids: Seq<u32>,
)
    ensures
        desired(nodes, sink_name, sink, ids).finite(),
    decreases ids.len(),
{
    let all = desired(nodes, sink_name, sink, ids);
    if ids.len() == 0 {
        assert(all =~= Set::empty());
    } else {
        let rest = ids.drop_first();
        let others = desired(nodes, sink_name, sink, rest);
        let own = node_routes(nodes, sink_name, sink, ids[0]);
        lemma_desired_is_finite(nodes, sink_name, sink, rest);
        if let Some(node) = node_with_id(nodes, ids[0]) {
            lemma_routes_between_is_finite(
                mapped(
                    node.usable_ports(PortDirection::Output),
                    sink.usable_ports(PortDirection::Input),
                ),
            );
        }
        assert forall|route: RouteView| #[trigger] all.contains(route) implies own.union(
            others,
        ).contains(route) by {
            let k = choose|k: int|
                0 <= k < ids.len() && node_routes(
                    nodes,
                    sink_name,
                    sink,
                    #[trigger] ids[k],
                ).contains(route);
            if k > 0 {
                assert(rest[k - 1] == ids[k]);
            }
        }
        vstd::set_lib::lemma_set_subset_finite(own.union(others), all);
    }
}

proof fn lemma_routes_between_is_finite(pairs: Seq<(PortView, PortView)>)
    ensures
        routes_between(pairs).finite(),
{
    let ends = pairs.map_values(
        |pair: (PortView, PortView)|
            RouteView { output_path: pair.0.path->Some_0, input_path: pair.1.path->Some_0 },
    );
    vstd::seq_lib::seq_to_set_is_finite(ends);
    assert forall|route: RouteView| #[trigger] routes_between(pairs).contains(
        route,
    ) implies ends.to_set().contains(route) by {
        let i = choose|i: int| 0 <= i < pairs.len() && links_pair(route, #[trigger] pairs[i]);
        assert(ends[i] == route);
    }
    vstd::set_lib::lemma_set_subset_finite(ends.to_set(), routes_between(pairs));
}

/// Whether a node has at least two ports of a direction that can be linked.
pub open spec fn has_two(node: NodeView, direction: PortDirection) -> bool {
    exists|a: int, b: int|
        0 <= a < b < node.ports.len() && linkable(#[trigger] node.ports[a], direction) && linkable(
            #[trigger] node.ports[b],
            direction,
        )
}

/// Whether the node at `i` is the first that has a name.
pub open spec fn first_by_name(nodes: Seq<NodeView>, name: Seq<char>, i: int) -> bool {
    &&& 0 <= i < nodes.len()
    &&& goes_by(nodes[i], name)
    &&& forall|j: int| 0 <= j < i ==> !goes_by(#[trigger] nodes[j], name)
}

/// Whether the node at `i` is the first that has a description, in a graph where
/// no node has the name.
pub open spec fn first_by_description(
    nodes: Seq<NodeView>,
    name: Seq<char>,
    description: Seq<char>,
    i: int,
) -> bool {
    &&& 0 <= i < nodes.len()
    &&& forall|j: int| 0 <= j < nodes.len() ==> !goes_by(#[trigger] nodes[j], name)
    &&& is_told_as(nodes[i], description)
    &&& forall|j: int| 0 <= j < i ==> !is_told_as(#[trigger] nodes[j], description)
}

/// The sink is ready as soon as the first node that has its name has two input
/// ports with a path, whatever outputs it has, and not before.
pub proof fn law_sink_is_ready(
    nodes: Seq<NodeView>,
    sink_name: Seq<char>,
    sink_description: Seq<char>,
    i: int,
)
    requires
        first_by_name(nodes, sink_name, i),
    ensures
        has_two(nodes[i], PortDirection::Input) ==> ready_sink(nodes, sink_name, sink_description)
            == Some(nodes[i].id),
        !has_two(nodes[i], PortDirection::Input) ==> ready_sink(
            nodes,
            sink_name,
            sink_description,
        ) is None,
{
    law_sink_is_found_by_name(nodes, sink_name, sink_description, i);
    law_usable_ports(nodes[i], PortDirection::Input);
}

/// Where no node has the name of the sink, the same holds of the first node that
/// has its description.
pub proof fn law_described_sink_is_ready(
    nodes: Seq<NodeView>,
    sink_name: Seq<char>,
    sink_description: Seq<char>,
    i: int,
)
    requires
        first_by_description(nodes, sink_name, sink_description, i),
    ensures
        has_two(nodes[i], PortDirection::Input) ==> ready_sink(nodes, sink_name, sink_description)
            == Some(nodes[i].id),
        !has_two(nodes[i], PortDirection::Input) ==> ready_sink(
            nodes,
            sink_name,
            sink_description,
        ) is None,
{
    law_sink_is_found_by_description(nodes, sink_name, sink_description, i);
    law_usable_ports(nodes[i], PortDirection::Input);
}

/// A sink that no node has the name or the description of is not ready, and
/// nothing can be linked with it.
pub proof fn law_missing_sink_is_not_ready(
    nodes: Seq<NodeView>,
    sink_name: Seq<char>,
    sink_description: Seq<char>,
    ids: Seq<u32>,
)
    requires
        forall|j: int|
            0 <= j < nodes.len() ==> !goes_by(#[trigger] nodes[j], sink_name) && !is_told_as(
                nodes[j],
                sink_description,
            ),
    ensures
        ready_sink(nodes, sink_name, sink_description) is None,
        planned(nodes, sink_name, sink_description, ids) == Err::<Set<RouteView>, ErrorView>(
            ErrorView::Message("virtual sink exists in PulseAudio but was not found in PipeWire"@),
        ),
        skipped(nodes, sink_name, sink_description, ids).len() == 0,
{
    law_sink_is_missing(nodes, sink_name, sink_description);
}

/// The microphone is there exactly when some node has its name in one of the
/// properties that hold a name.
pub proof fn law_microphone_is_known_by_name(nodes: Seq<NodeView>, mic_name: Seq<char>)
    ensures
        mic_in(nodes, mic_name) <==> exists|i: int|
            0 <= i < nodes.len() && goes_by(#[trigger] nodes[i], mic_name),
{
    if mic_in(nodes, mic_name) {
        let i = choose|i: int| 0 <= i < nodes.len() && (#[trigger] nodes[i]).is_named(mic_name);
        assert(goes_by(nodes[i], mic_name));
    }
    if exists|i: int| 0 <= i < nodes.len() && goes_by(#[trigger] nodes[i], mic_name) {
        let i = choose|i: int| 0 <= i < nodes.len() && goes_by(#[trigger] nodes[i], mic_name);
        assert(nodes[i].is_named(mic_name));
    }
}

/// What is told of the sink: its name, the source that carries what is played to
/// it, its node, and the microphone where there is one.
pub proof fn law_sink_info(sink_name: Seq<char>, mic: Option<MicView>, node_id: u32)
    ensures
        info_view(sink_name, mic, node_id).sink_name == sink_name,
        info_view(sink_name, mic, node_id).monitor_source == sink_name + ".monitor"@,
        info_view(sink_name, mic, node_id).node_id == node_id,
        mic matches Some(mic) ==> info_view(sink_name, Some(mic), node_id).virtual_mic_name == Some(
            mic.name,
        ),
        mic matches Some(mic) ==> info_view(
            sink_name,
            Some(mic),
            node_id,
        ).virtual_mic_description == Some(mic.description),
        mic is None ==> info_view(sink_name, mic, node_id).virtual_mic_name is None,
        mic is None ==> info_view(sink_name, mic, node_id).virtual_mic_description is None,
{
}

/// Whether the channel of a port is told, and not told as unknown.
pub open spec fn channel_is_told(port: PortView) -> bool {
    port.channel is Some && port.channel != Some("UNK"@)
}

/// Whether an output of a node belongs together with an input: a single output
/// does with every input, one of several by the channels where both are told,
/// and by the port indices where one is not.
pub open spec fn belong_together(node: NodeView, output: PortView, input: PortView) -> bool {
    if !has_two(node, PortDirection::Output) {
        true
    } else if channel_is_told(output) && channel_is_told(input) {
        output.channel == input.channel
    } else {
        output.port_index == input.port_index
    }
}

/// Whether a node may be linked with the sink at `s`: it is the first one with
/// its id, and it is neither the sink nor another of the virtual objects.
pub open spec fn may_be_linked(nodes: Seq<NodeView>, sink_name: Seq<char>, s: int, n: int) -> bool {
    &&& 0 <= n < nodes.len()
    &&& forall|j: int| 0 <= j < n ==> (#[trigger] nodes[j]).id != nodes[n].id
    &&& nodes[n].id != nodes[s].id
    &&& !goes_by(nodes[n], sink_name)
    &&& !goes_by(nodes[n], sink_name + ".monitor"@)
}

/// Whether a route links the port at `o` of the node at `n` with the port at `i`
/// of the sink at `s`, and the two ports belong together.
pub open spec fn leads_from(
    nodes: Seq<NodeView>,
    s: int,
    n: int,
    o: int,
    i: int,
    route: RouteView,
) -> bool {
    &&& 0 <= o < nodes[n].ports.len()
    &&& 0 <= i < nodes[s].ports.len()
    &&& linkable(nodes[n].ports[o], PortDirection::Output)
    &&& linkable(nodes[s].ports[i], PortDirection::Input)
    &&& belong_together(nodes[n], nodes[n].ports[o], nodes[s].ports[i])
    &&& nodes[n].ports[o].path == Some(route.output_path)
    &&& nodes[s].ports[i].path == Some(route.input_path)
}

/// Whether a choice of nodes asks for a route.
pub open spec fn is_asked_for(
    nodes: Seq<NodeView>,
    sink_name: Seq<char>,
    s: int,
    ids: Seq<u32>,
    route: RouteView,
) -> bool {
    exists|n: int, o: int, i: int|
        may_be_linked(nodes, sink_name, s, n) && ids.contains(nodes[n].id) && #[trigger] leads_from(
            nodes,
            s,
            n,
            o,
            i,
            route,
        )
}

proof fn lemma_belong_together(node: NodeView, output: PortView, input: PortView)
    requires
        node.usable_ports(PortDirection::Output).contains(output),
    ensures
        belong_together(node, output, input) == ports_match(
            node.usable_ports(PortDirection::Output).len() == 1,
            output,
            input,
        ),
{
    law_usable_ports(node, PortDirection::Output);
    assert(node.usable_ports(PortDirection::Output).len() > 0);
}

/// With a sink that is ready, exactly the routes are planned that the choice asks
/// for, as the ports of the nodes tell. Where it asks for none, this is an error.
pub proof fn law_planned_routes(
    nodes: Seq<NodeView>,
    sink_name: Seq<char>,
    sink_description: Seq<char>,
    s: int,
    ids: Seq<u32>,
    route: RouteView,
)
    requires
        first_by_name(nodes, sink_name, s) || first_by_description(
            nodes,
            sink_name,
            sink_description,
            s,
        ),
        has_two(nodes[s], PortDirection::Input),
    ensures
        match planned(nodes, sink_name, sink_description, ids) {
            Ok(wanted) => {
                &&& wanted.contains(route) <==> is_asked_for(nodes, sink_name, s, ids, route)
                &&& wanted != Set::<RouteView>::empty()
            },
            Err(error) => {
                &&& !is_asked_for(nodes, sink_name, s, ids, route)
                &&& error == ErrorView::Message("none of the selected nodes could be linked"@)
            },
        },
{
    let sink = nodes[s];
    lemma_sink_at(nodes, sink_name, sink_description, s);
    law_usable_ports(sink, PortDirection::Input);
    law_desired_routes(nodes, sink_name, sink, ids, route);
    if desired(nodes, sink_name, sink, ids).contains(route) {
        let (node, output, input) = choose|node: NodeView, output: PortView, input: PortView|
            asks_for(nodes, sink_name, sink, ids, node) && #[trigger] joins(
                route,
                node,
                output,
                sink,
                input,
            );
        lemma_found_at(nodes, node.id);
        let n = choose|n: int|
            0 <= n < nodes.len() && nodes[n] == node && forall|j: int|
                0 <= j < n ==> (#[trigger] nodes[j]).id != node.id;
        law_names(node, sink_name);
        law_usable_port(node, PortDirection::Output, output);
        law_usable_port(sink, PortDirection::Input, input);
        lemma_belong_together(node, output, input);
        let o = choose|o: int| 0 <= o < node.ports.len() && node.ports[o] == output;
        let i = choose|i: int| 0 <= i < sink.ports.len() && sink.ports[i] == input;
        assert(may_be_linked(nodes, sink_name, s, n));
        assert(leads_from(nodes, s, n, o, i, route));
    }
    if is_asked_for(nodes, sink_name, s, ids, route) {
        let (n, o, i) = choose|n: int, o: int, i: int|
            may_be_linked(nodes, sink_name, s, n) && ids.contains(nodes[n].id)
                && #[trigger] leads_from(nodes, s, n, o, i, route);
        let node = nodes[n];
        let output = node.ports[o];
        let input = sink.ports[i];
        law_node_is_found_by_id(nodes, n);
        law_names(node, sink_name);
        law_usable_port(node, PortDirection::Output, output);
        law_usable_port(sink, PortDirection::Input, input);
        lemma_belong_together(node, output, input);
        assert(asks_for(nodes, sink_name, sink, ids, node));
        assert(joins(route, node, output, sink, input));
    }
}

/// Without two input ports of the sink that can be linked nothing is planned and
/// no node is looked at.
pub proof fn law_unready_sink_takes_no_routes(
    nodes: Seq<NodeView>,
    sink_name: Seq<char>,
    sink_description: Seq<char>,
    s: int,
    ids: Seq<u32>,
)
    requires
        first_by_name(nodes, sink_name, s) || first_by_description(
            nodes,
            sink_name,
            sink_description,
            s,
        ),
        !has_two(nodes[s], PortDirection::Input),
    ensures
        planned(nodes, sink_name, sink_description, ids) == Err::<Set<RouteView>, ErrorView>(
            ErrorView::Message("virtual sink has no usable stereo input ports"@),
        ),
        skipped(nodes, sink_name, sink_description, ids).len() == 0,
{
    lemma_sink_at(nodes, sink_name, sink_description, s);
    law_usable_ports(nodes[s], PortDirection::Input);
}

proof fn lemma_sink_at(
    nodes: Seq<NodeView>,
    sink_name: Seq<char>,
    sink_description: Seq<char>,
    s: int,
)
    requires
        first_by_name(nodes, sink_name, s) || first_by_description(
            nodes,
            sink_name,
            sink_description,
            s,
        ),
    ensures
        sink_in(nodes, sink_name, sink_description) == Some(nodes[s]),
{
    if first_by_name(nodes, sink_name, s) {
        law_sink_is_found_by_name(nodes, sink_name, sink_description, s);
    } else {
        law_sink_is_found_by_description(nodes, sink_name, sink_description, s);
    }
}

proof fn lemma_found_at(nodes: Seq<NodeView>, id: u32)
    ensures
        match node_with_id(nodes, id) {
            Some(node) => exists|n: int|
                0 <= n < nodes.len() && #[trigger] nodes[n] == node && node.id == id && forall|j: int|
                    0 <= j < n ==> (#[trigger] nodes[j]).id != id,
            None => forall|j: int| 0 <= j < nodes.len() ==> (#[trigger] nodes[j]).id != id,
        },
    decreases nodes.len(),
{
    if nodes.len() == 0 {
    } else if nodes[0].id == id {
        law_node_is_found_by_id(nodes, 0);
    } else {
        let rest = nodes.drop_first();
        lemma_found_at(rest, id);
        match node_with_id(rest, id) {
            Some(node) => {
                let m = choose|m: int|
                    0 <= m < rest.len() && #[trigger] rest[m] == node && node.id == id && forall|
                        j: int,
                    |
                        0 <= j < m ==> (#[trigger] rest[j]).id != id;
                assert forall|j: int| 0 <= j < m + 1 implies (#[trigger] nodes[j]).id != id by {
                    if j > 0 {
                        assert(rest[j - 1] == nodes[j]);
                    }
                }
                assert(nodes[m + 1] == node);
                law_node_is_found_by_id(nodes, m + 1);
            },
            None => {
                assert forall|j: int| 0 <= j < nodes.len() implies (#[trigger] nodes[j]).id
                    != id by {
                    if j > 0 {
                        assert(rest[j - 1] == nodes[j]);
                    }
                }
                crate::snapshot::law_node_is_missing(nodes, id);
            },
        }
    }
}

/// Why a node that the graph has is passed over: it is the sink, it is another of
/// the virtual objects, or it has no output port with a path. Else it is not.
pub proof fn law_skip_reasons(nodes: Seq<NodeView>, sink_name: Seq<char>, sink: NodeView, n: int)
    requires
        0 <= n < nodes.len(),
        forall|j: int| 0 <= j < n ==> (#[trigger] nodes[j]).id != nodes[n].id,
    ensures
        ({
            let node = nodes[n];
            let own = goes_by(node, sink_name) || goes_by(node, sink_name + ".monitor"@);
            let heard = exists|a: int|
                0 <= a < node.ports.len() && linkable(
                    #[trigger] node.ports[a],
                    PortDirection::Output,
                );
            let reason = skip_reason(nodes, sink_name, sink, node.id);
            &&& reason == Some(SkipReason::Sink) <==> node.id == sink.id
            &&& reason == Some(SkipReason::Own) <==> node.id != sink.id && own
            &&& reason == Some(SkipReason::NoOutputs) <==> node.id != sink.id && !own && !heard
            &&& reason is None <==> node.id != sink.id && !own && heard
        }),
{
    law_node_is_found_by_id(nodes, n);
    law_names(nodes[n], sink_name);
    law_usable_ports(nodes[n], PortDirection::Output);
}

/// An id that no node has is passed over for that.
pub proof fn law_missing_nodes_are_skipped(
    nodes: Seq<NodeView>,
    sink_name: Seq<char>,
    sink: NodeView,
    id: u32,
)
    requires
        id != sink.id,
        forall|j: int| 0 <= j < nodes.len() ==> (#[trigger] nodes[j]).id != id,
    ensures
        skip_reason(nodes, sink_name, sink, id) == Some(SkipReason::Missing),
{
    crate::snapshot::law_node_is_missing(nodes, id);
}

/// With a sink that is ready, the nodes that are passed over are told in the order
/// of the choice, each where it is first chosen.
pub proof fn law_skipped_in_order(
    nodes: Seq<NodeView>,
    sink_name: Seq<char>,
    sink_description: Seq<char>,
    s: int,
    ids: Seq<u32>,
    id: u32,
)
    requires
        first_by_name(nodes, sink_name, s) || first_by_description(
            nodes,
            sink_name,
            sink_description,
            s,
        ),
        has_two(nodes[s], PortDirection::Input),
    ensures
        skipped(nodes, sink_name, sink_description, seq![]).len() == 0,
        ({
            let before = skipped(nodes, sink_name, sink_description, ids);
            let after = skipped(nodes, sink_name, sink_description, ids.push(id));
            match skip_reason(nodes, sink_name, nodes[s], id) {
                Some(reason) => after == if ids.contains(id) {
                    before
                } else {
                    before.push((id, reason))
                },
                None => after == before,
            }
        }),
{
    let sink = nodes[s];
    lemma_sink_at(nodes, sink_name, sink_description, s);
    law_usable_ports(sink, PortDirection::Input);
    crate::routing::law_deduping_goes_by_first_choice(ids, id);
    let reading = |id: u32|
        match skip_reason(nodes, sink_name, sink, id) {
            Some(reason) => Some((id, reason)),
            None => None,
        };
    let once = deduped(ids);
    let more = once.push(id);
    assert(deduped(seq![]) =~= seq![]);
    assert(Seq::<u32>::empty().filter_map(reading) =~= seq![]);
    more.lemma_filter_map_take_succ(reading, once.len() as int);
    assert(more.take(once.len() as int) =~= once);
    assert(more.take(once.len() as int + 1) =~= more);
}

} // verus!
