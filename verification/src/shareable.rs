//! Which nodes can be shared, and how they are told to the user.
use vstd::prelude::*;

use crate::models::{
    filled, goes_by, has_some, has_value, is_hardware, is_told_as, NodeRecord, NodeView,
    PortDirection, PortRecord, PortView, ShareableNode, ShareableView,
};
use crate::modules::{monitor_name, monitor_of};
use crate::snapshot::{
    collected, law_collected_ids_are_unique, ObjectView, PipeWireSnapshot,
};
use crate::text::{
    comes_before, decimal, lemma_text_less_irreflexive, lemma_text_less_total,
    lemma_text_less_transitive, lower, lowered, number_of, number_text, parse_number, same_text,
    text_less,
};

verus! {

/// The first text that is there.
pub open spec fn first_of(a: Option<Seq<char>>, b: Option<Seq<char>>) -> Option<Seq<char>> {
    match a {
        Some(text) => Some(text),
        None => b,
    }
}

/// The name that a node is shown under: its description, or else the name of
/// its media, of its application or of the node, or else its id.
pub open spec fn display_name_of(node: NodeView) -> Seq<char> {
    match first_of(
        first_of(node.prop("node.description"@), node.prop("device.description"@)),
        first_of(
            node.prop("media.name"@),
            first_of(node.prop("application.name"@), node.prop("node.name"@)),
        ),
    ) {
        Some(name) => name,
        None => "Node "@ + decimal(node.id as nat),
    }
}

/// How a node is told to the user.
pub open spec fn shareable_view(node: NodeView) -> ShareableView {
    ShareableView {
        id: node.id,
        display_name: display_name_of(node),
        application_name: node.prop("application.name"@),
        node_name: node.prop("node.name"@),
        description: first_of(node.prop("node.description"@), node.prop("device.description"@)),
        media_name: node.prop("media.name"@),
        binary: node.prop("application.process.binary"@),
        process_id: match node.prop("application.process.id"@) {
            Some(text) => number_of(text),
            None => None,
        },
        is_device: node.is_device(),
    }
}

fn text_of(node: &NodeRecord, key: &str) -> (text: Option<String>)
    ensures
        text.deep_view() == node@.prop(key@),
{
    match node.prop(key) {
        Some(text) => Some(text.to_string()),
        None => None,
    }
}

fn text_or(a: Option<String>, b: Option<String>) -> (text: Option<String>)
    ensures
        text.deep_view() == first_of(a.deep_view(), b.deep_view()),
{
    match a {
        Some(text) => Some(text),
        None => b,
    }
}

/// How a node is told to the user.
pub fn to_shareable_node(node: &NodeRecord) -> (shareable: ShareableNode)
    ensures
        shareable@ == shareable_view(node@),
{
    let application_name = text_of(node, "application.name");
    let node_name = text_of(node, "node.name");
    let description = text_or(text_of(node, "node.description"), text_of(node, "device.description"));
    let media_name = text_of(node, "media.name");
    let binary = text_of(node, "application.process.binary");
    let process_id = match node.prop("application.process.id") {
        Some(text) => match parse_number(text) {
            Ok(id) => Some(id),
            Err(_) => None,
        },
        None => None,
    };
    let told = text_or(
        description.clone(),
        text_or(media_name.clone(), text_or(application_name.clone(), node_name.clone())),
    );
    let display_name = match told {
        Some(name) => name,
        None => {
            let mut name = "Node ".to_string();
            name.append(number_text(node.id as u64).as_str());
            name
        },
    };
    ShareableNode {
        id: node.id,
        display_name,
        application_name,
        node_name,
        description,
        media_name,
        binary,
        process_id,
        is_device: node.is_device(),
    }
}

impl NodeView {
    /// Whether the node is the virtual sink of a name, or its monitor.
    pub open spec fn is_own(self, sink_name: Seq<char>) -> bool {
        self.is_named(sink_name) || self.is_named(monitor_of(sink_name))
    }

    /// The ports of one direction that can be linked.
    pub open spec fn usable_ports(self, direction: PortDirection) -> Seq<PortView> {
        self.ports_towards(direction).filter(|port: PortView| port.path is Some)
    }

    /// Whether an application stands behind the node.
    pub open spec fn is_application(self) -> bool {
        filled(self.prop("application.name"@)) || filled(self.prop("application.process.binary"@))
    }

    /// Whether the node is offered: it is none of the virtual objects, audio
    /// leaves it by a port that can be linked, and it is a device where devices
    /// are wanted or else belongs to an application.
    pub open spec fn is_offered(self, sink_name: Seq<char>, include_devices: bool) -> bool {
        &&& !self.is_own(sink_name)
        &&& self.usable_ports(PortDirection::Output).len() > 0
        &&& if self.is_device() {
            include_devices
        } else {
            self.is_application()
        }
    }
}

/// Whether the node is the virtual sink `sink_name`.
pub fn is_virtual_sink_node(node: &NodeRecord, sink_name: &str) -> (yes: bool)
    ensures
        yes == node@.is_named(sink_name@),
{
    node.is_named(sink_name)
}

/// Whether the node is the monitor of the virtual sink `sink_name`.
pub fn is_monitor_node(node: &NodeRecord, sink_name: &str) -> (yes: bool)
    ensures
        yes == node@.is_named(monitor_of(sink_name@)),
{
    node.is_named(monitor_name(sink_name).as_str())
}

/// The ports of one direction that can be linked.
pub fn usable_ports(node: &NodeRecord, direction: PortDirection) -> (usable: Vec<PortRecord>)
    ensures
        usable.deep_view() == node@.usable_ports(direction),
{
    let ports = match direction {
        PortDirection::Input => node.input_ports(),
        PortDirection::Output => node.output_ports(),
    };
    let ghost all = ports.deep_view();
    let ghost wanted = |port: PortView| port.path is Some;
    let mut usable: Vec<PortRecord> = Vec::new();
    let mut i: usize = 0;
    proof {
        assert(all.take(0).filter(wanted) =~= seq![]) by {
            reveal(Seq::filter);
        }
        assert(usable.deep_view() =~= seq![]);
    }
    while i < ports.len()
        invariant
            i <= ports.len(),
            all == ports.deep_view(),
            wanted == (|port: PortView| port.path is Some),
            usable.deep_view() == all.take(i as int).filter(wanted),
        decreases ports.len() - i,
    {
        let ghost chosen = usable.deep_view();
        let port = ports[i];
        assert(all[i as int] == port@);
        if port.path.is_some() {
            usable.push(port.clone());
            assert(usable.deep_view() =~= chosen.push(port@));
        }
        i += 1;
        proof {
            all.take(i - 1).lemma_filter_push(all[i - 1], wanted);
            assert(all.take(i as int) =~= all.take(i - 1).push(all[i - 1]));
        }
    }
    assert(all.take(i as int) =~= all);
    usable
}

/// Whether the node is offered to the user.
pub fn is_offered(node: &NodeRecord, sink_name: &str, include_devices: bool) -> (yes: bool)
    ensures
        yes == node@.is_offered(sink_name@, include_devices),
{
    if is_virtual_sink_node(node, sink_name) || is_monitor_node(node, sink_name) {
        return false;
    }
    let outputs = usable_ports(node, PortDirection::Output);
    assert(outputs.len() == outputs.deep_view().len());
    if outputs.len() == 0 {
        return false;
    }
    if node.is_device() {
        include_devices
    } else {
        node.has_filled_prop("application.name") || node.has_filled_prop(
            "application.process.binary",
        )
    }
}

/// The order of the listing: by the shown name without regard to the case of
/// ASCII letters, and by id where these agree.
pub open spec fn listed_before(a: ShareableView, b: ShareableView) -> bool {
    ||| text_less(lowered(a.display_name), lowered(b.display_name))
    ||| lowered(a.display_name) == lowered(b.display_name) && a.id < b.id
}

/// No node is listed before one that stands ahead of it.
pub open spec fn in_listing_order(nodes: Seq<ShareableView>) -> bool {
    forall|i: int, j: int|
        0 <= i < j < nodes.len() ==> !listed_before(#[trigger] nodes[j], #[trigger] nodes[i])
}

/// `nodes` with `node` behind the last one that it is not listed before.
pub open spec fn placed(nodes: Seq<ShareableView>, node: ShareableView) -> Seq<ShareableView>
    decreases nodes.len(),
{
    if nodes.len() > 0 && listed_before(node, nodes.last()) {
        placed(nodes.drop_last(), node).push(nodes.last())
    } else {
        nodes.push(node)
    }
}

/// The nodes in the order of the listing. Nodes that the order does not tell
/// apart keep theirs.
pub open spec fn sorted(nodes: Seq<ShareableView>) -> Seq<ShareableView>
    decreases nodes.len(),
{
    if nodes.len() == 0 {
        seq![]
    } else {
        placed(sorted(nodes.drop_last()), nodes.last())
    }
}

/// The nodes that are offered, in the order of the graph.
pub open spec fn offered(nodes: Seq<NodeView>, sink_name: Seq<char>, include_devices: bool) -> Seq<
    ShareableView,
> {
    nodes.filter(|node: NodeView| node.is_offered(sink_name, include_devices)).map_values(
        |node: NodeView| shareable_view(node),
    )
}

/// What is listed of a graph.
pub open spec fn listing(nodes: Seq<NodeView>, sink_name: Seq<char>, include_devices: bool) -> Seq<
    ShareableView,
> {
    sorted(offered(nodes, sink_name, include_devices))
}

fn goes_before(a: &ShareableNode, b: &ShareableNode) -> (yes: bool)
    ensures
        yes == listed_before(a@, b@),
{
    let left = lower(a.display_name.as_str());
    let right = lower(b.display_name.as_str());
    comes_before(left.as_str(), right.as_str()) || (same_text(left.as_str(), right.as_str()) && a.id
        < b.id)
}

fn place(nodes: &mut Vec<ShareableNode>, node: ShareableNode)
    ensures
        final(nodes).deep_view() == placed(old(nodes).deep_view(), node@),
{
    let ghost all = nodes.deep_view();
    let mut at: usize = nodes.len();
    proof {
        assert(all.take(at as int) =~= all);
        assert(placed(all, node@) =~= placed(all, node@) + all.skip(at as int));
    }
    while at > 0 && goes_before(&node, &nodes[at - 1])
        invariant
            at <= nodes.len(),
            all == nodes.deep_view(),
            placed(all, node@) == placed(all.take(at as int), node@) + all.skip(at as int),
        decreases at,
    {
        proof {
            let front = all.take(at as int);
            assert(front.last() == all[at - 1]);
            assert(front.drop_last() =~= all.take(at - 1));
            assert(placed(front, node@) == placed(all.take(at - 1), node@).push(all[at - 1]));
            assert(placed(all.take(at - 1), node@).push(all[at - 1]) + all.skip(at as int)
                =~= placed(all.take(at - 1), node@) + all.skip(at - 1));
        }
        at -= 1;
    }
    proof {
        let front = all.take(at as int);
        if at > 0 {
            assert(front.last() == all[at - 1]);
        }
        assert(placed(front, node@) == front.push(node@));
        assert(front.push(node@) + all.skip(at as int) =~= all.insert(at as int, node@));
    }
    let ghost fresh = node@;
    nodes.insert(at, node);
    assert(nodes.deep_view() =~= all.insert(at as int, fresh));
}

/// What is listed of a graph for the user.
pub fn list_nodes(snapshot: &PipeWireSnapshot, sink_name: &str, include_devices: bool) -> (nodes: Vec<
    ShareableNode,
>)
    ensures
        nodes.deep_view() == listing(snapshot@, sink_name@, include_devices),
{
    let ghost all = snapshot@;
    let ghost wanted = |node: NodeView| node.is_offered(sink_name@, include_devices);
    let mut nodes: Vec<ShareableNode> = Vec::new();
    let mut i: usize = 0;
    proof {
        assert(all.take(0).filter(wanted) =~= seq![]) by {
            reveal(Seq::filter);
        }
        assert(offered(all.take(0), sink_name@, include_devices) =~= seq![]);
        assert(nodes.deep_view() =~= seq![]);
    }
    while i < snapshot.nodes.len()
        invariant
            i <= snapshot.nodes.len(),
            all == snapshot@,
            wanted == (|node: NodeView| node.is_offered(sink_name@, include_devices)),
            nodes.deep_view() == sorted(offered(all.take(i as int), sink_name@, include_devices)),
        decreases snapshot.nodes.len() - i,
    {
        let node = &snapshot.nodes[i];
        let ghost seen = all.take(i as int);
        proof {
            assert(all[i as int] == node@);
            seen.lemma_filter_push(node@, wanted);
            assert(all.take(i + 1) =~= seen.push(node@));
            let known = offered(seen, sink_name@, include_devices);
            if node@.is_offered(sink_name@, include_devices) {
                let more = known.push(shareable_view(node@));
                assert(offered(all.take(i + 1), sink_name@, include_devices) =~= more);
                assert(more.drop_last() =~= known);
            } else {
                assert(offered(all.take(i + 1), sink_name@, include_devices) =~= known);
            }
        }
        if is_offered(node, sink_name, include_devices) {
            place(&mut nodes, to_shareable_node(node));
        }
        i += 1;
    }
    assert(all.take(i as int) =~= all);
    nodes
}

/// What follows a node that is not listed before another is not listed before
/// that one either.
proof fn lemma_order_carries(a: ShareableView, b: ShareableView, c: ShareableView)
    requires
        !listed_before(b, a),
        !listed_before(c, b),
    ensures
        !listed_before(c, a),
{
    let x = lowered(a.display_name);
    let y = lowered(b.display_name);
    let z = lowered(c.display_name);
    lemma_text_less_total(x, y);
    lemma_text_less_total(y, z);
    lemma_text_less_irreflexive(x);
    if text_less(x, y) && text_less(y, z) {
        lemma_text_less_transitive(x, y, z);
    }
    if text_less(z, x) && text_less(x, z) {
        lemma_text_less_transitive(x, z, x);
    }
}

proof fn lemma_placed(nodes: Seq<ShareableView>, node: ShareableView)
    requires
        in_listing_order(nodes),
    ensures
        in_listing_order(placed(nodes, node)),
        placed(nodes, node).to_multiset() == nodes.to_multiset().insert(node),
        forall|i: int|
            0 <= i < placed(nodes, node).len() ==> #[trigger] placed(nodes, node)[i] == node
                || nodes.contains(placed(nodes, node)[i]),
    decreases nodes.len(),
{
    broadcast use vstd::seq_lib::group_to_multiset_ensures;

    let all = placed(nodes, node);
    if nodes.len() > 0 && listed_before(node, nodes.last()) {
        let front = nodes.drop_last();
        lemma_placed(front, node);
        let inner = placed(front, node);
        assert(front.push(nodes.last()) =~= nodes);
        assert(all.to_multiset() =~= nodes.to_multiset().insert(node));
        assert forall|i: int| 0 <= i < all.len() implies #[trigger] all[i] == node
            || nodes.contains(all[i]) by {
            if i < inner.len() {
                assert(all[i] == inner[i]);
                if inner[i] != node {
                    let k = choose|k: int| 0 <= k < front.len() && front[k] == inner[i];
                    assert(nodes[k] == all[i]);
                }
            } else {
                assert(nodes[nodes.len() - 1] == all[i]);
            }
        }
        assert forall|i: int, j: int| 0 <= i < j < all.len() implies !listed_before(
            #[trigger] all[j],
            #[trigger] all[i],
        ) by {
            if j < inner.len() {
                assert(!listed_before(inner[j], inner[i]));
            } else {
                assert(all[i] == inner[i]);
                lemma_not_both_ways(node, nodes.last());
                if inner[i] != node {
                    let k = choose|k: int| 0 <= k < front.len() && front[k] == inner[i];
                    assert(nodes[k] == all[i]);
                    assert(!listed_before(nodes[nodes.len() - 1], nodes[k]));
                }
            }
        }
    } else {
        assert forall|i: int, j: int| 0 <= i < j < all.len() implies !listed_before(
            #[trigger] all[j],
            #[trigger] all[i],
        ) by {
            if j < nodes.len() {
                assert(!listed_before(nodes[j], nodes[i]));
            } else if i < nodes.len() - 1 {
                assert(!listed_before(nodes[nodes.len() - 1], nodes[i]));
                lemma_order_carries(nodes[i], nodes.last(), node);
            }
        }
        assert forall|i: int| 0 <= i < all.len() implies #[trigger] all[i] == node
            || nodes.contains(all[i]) by {
            if i < nodes.len() {
                assert(nodes[i] == all[i]);
            }
        }
    }
}

/// Of two nodes at most one is listed before the other.
proof fn lemma_not_both_ways(a: ShareableView, b: ShareableView)
    requires
        listed_before(a, b),
    ensures
        !listed_before(b, a),
{
    let x = lowered(a.display_name);
    let y = lowered(b.display_name);
    lemma_text_less_irreflexive(x);
    if text_less(x, y) && text_less(y, x) {
        lemma_text_less_transitive(x, y, x);
    }
}

proof fn lemma_sorted(nodes: Seq<ShareableView>)
    ensures
        in_listing_order(sorted(nodes)),
        sorted(nodes).to_multiset() == nodes.to_multiset(),
    decreases nodes.len(),
{
    broadcast use vstd::seq_lib::group_to_multiset_ensures;

    if nodes.len() > 0 {
        lemma_sorted(nodes.drop_last());
        lemma_placed(sorted(nodes.drop_last()), nodes.last());
        assert(nodes.drop_last().push(nodes.last()) =~= nodes);
    } else {
        assert(nodes =~= seq![]);
    }
}

/// The listing has the nodes that are offered, each as often as the graph has
/// it, and has them in order.
pub proof fn law_listing_is_ordered(
    nodes: Seq<NodeView>,
    sink_name: Seq<char>,
    include_devices: bool,
)
    ensures
        in_listing_order(listing(nodes, sink_name, include_devices)),
        listing(nodes, sink_name, include_devices).to_multiset() == offered(
            nodes,
            sink_name,
            include_devices,
        ).to_multiset(),
{
    lemma_sorted(offered(nodes, sink_name, include_devices));
}

/// A node is listed exactly when the graph has a node that is offered and is
/// told that way.
pub proof fn law_listed_nodes(
    nodes: Seq<NodeView>,
    sink_name: Seq<char>,
    include_devices: bool,
    shown: ShareableView,
)
    ensures
        listing(nodes, sink_name, include_devices).contains(shown) <==> exists|i: int|
            0 <= i < nodes.len() && (#[trigger] nodes[i]).is_offered(sink_name, include_devices)
                && shown == shareable_view(nodes[i]),
{
    broadcast use vstd::seq_lib::group_to_multiset_ensures;
    broadcast use {Seq::lemma_filter_contains_rev, Seq::lemma_filter_contains};

    let wanted = |node: NodeView| node.is_offered(sink_name, include_devices);
    let chosen = nodes.filter(wanted);
    let told = offered(nodes, sink_name, include_devices);
    let shown_nodes = listing(nodes, sink_name, include_devices);
    lemma_sorted(told);
    assert(shown_nodes.contains(shown) <==> told.contains(shown)) by {
        assert(shown_nodes.contains(shown) <==> shown_nodes.to_multiset().count(shown) > 0);
        assert(told.contains(shown) <==> told.to_multiset().count(shown) > 0);
    }
    if told.contains(shown) {
        let k = choose|k: int| 0 <= k < told.len() && told[k] == shown;
        assert(nodes.filter(wanted).contains(chosen[k]));
        assert(wanted(chosen[k]));
        assert(nodes.contains(chosen[k]));
        let i = choose|i: int| 0 <= i < nodes.len() && nodes[i] == chosen[k];
        assert(nodes[i].is_offered(sink_name, include_devices));
    }
    if exists|i: int|
        0 <= i < nodes.len() && (#[trigger] nodes[i]).is_offered(sink_name, include_devices)
            && shown == shareable_view(nodes[i]) {
        let i = choose|i: int|
            0 <= i < nodes.len() && (#[trigger] nodes[i]).is_offered(sink_name, include_devices)
                && shown == shareable_view(nodes[i]);
        assert(wanted(nodes[i]));
        assert(chosen.contains(nodes[i]));
        let k = choose|k: int| 0 <= k < chosen.len() && chosen[k] == nodes[i];
        assert(told[k] == shown);
    }
}

/// No node that is listed has the id of the virtual sink or of its monitor,
/// where no two nodes have the same id.
pub proof fn law_own_nodes_are_not_listed(
    nodes: Seq<NodeView>,
    sink_name: Seq<char>,
    include_devices: bool,
    own: int,
    shown: ShareableView,
)
    requires
        0 <= own < nodes.len(),
        nodes[own].is_own(sink_name),
        ids_differ(nodes),
        listing(nodes, sink_name, include_devices).contains(shown),
    ensures
        shown.id != nodes[own].id,
{
    law_listed_nodes(nodes, sink_name, include_devices, shown);
}

/// No two nodes have the same id.
pub open spec fn ids_differ(nodes: Seq<NodeView>) -> bool {
    forall|i: int, j: int|
        0 <= i < j < nodes.len() ==> #[trigger] nodes[i].id != #[trigger] nodes[j].id
}

proof fn lemma_offered_once(nodes: Seq<NodeView>, sink_name: Seq<char>, include_devices: bool)
    requires
        ids_differ(nodes),
    ensures
        offered(nodes, sink_name, include_devices).no_duplicates(),
        forall|k: int|
            0 <= k < offered(nodes, sink_name, include_devices).len() ==> exists|i: int|
                0 <= i < nodes.len() && (#[trigger] nodes[i]).id == (#[trigger] offered(
                    nodes,
                    sink_name,
                    include_devices,
                )[k]).id,
    decreases nodes.len(),
{
    let told = offered(nodes, sink_name, include_devices);
    if nodes.len() == 0 {
        reveal(Seq::filter);
        assert(told =~= seq![]);
    } else {
        let front = nodes.drop_last();
        let last = nodes.last();
        let known = offered(front, sink_name, include_devices);
        assert forall|i: int, j: int| 0 <= i < j < front.len() implies #[trigger] front[i].id
            != #[trigger] front[j].id by {
            assert(nodes[i].id != nodes[j].id);
        }
        lemma_offered_once(front, sink_name, include_devices);
        lemma_offered_push(front, last, sink_name, include_devices);
        assert(front.push(last) =~= nodes);
        assert forall|k: int| 0 <= k < told.len() implies exists|i: int|
            0 <= i < nodes.len() && (#[trigger] nodes[i]).id == (#[trigger] told[k]).id by {
            if k < known.len() {
                assert(told[k] == known[k]);
                let i = choose|i: int|
                    0 <= i < front.len() && (#[trigger] front[i]).id == known[k].id;
                assert(nodes[i].id == told[k].id);
            } else {
                assert(nodes[nodes.len() - 1].id == told[k].id);
            }
        }
        assert forall|i: int, j: int| 0 <= i < told.len() && 0 <= j < told.len() && i
            != j implies told[i] != told[j] by {
            let (low, high) = if i < j {
                (i, j)
            } else {
                (j, i)
            };
            if high < known.len() {
                assert(known[low] != known[high]);
            } else {
                let k = choose|k: int|
                    0 <= k < front.len() && (#[trigger] front[k]).id == known[low].id;
                assert(nodes[k].id != nodes[nodes.len() - 1].id);
            }
        }
    }
}

proof fn lemma_offered_push(
    nodes: Seq<NodeView>,
    node: NodeView,
    sink_name: Seq<char>,
    include_devices: bool,
)
    ensures
        offered(nodes.push(node), sink_name, include_devices) == if node.is_offered(
            sink_name,
            include_devices,
        ) {
            offered(nodes, sink_name, include_devices).push(shareable_view(node))
        } else {
            offered(nodes, sink_name, include_devices)
        },
{
    let known = offered(nodes, sink_name, include_devices);
    nodes.lemma_filter_push(node, |node: NodeView| node.is_offered(sink_name, include_devices));
    if node.is_offered(sink_name, include_devices) {
        assert(offered(nodes.push(node), sink_name, include_devices) =~= known.push(
            shareable_view(node),
        ));
    } else {
        assert(offered(nodes.push(node), sink_name, include_devices) =~= known);
    }
}

/// Where no two nodes have the same id, no id is listed twice, and each node is
/// listed strictly before those that follow it.
pub proof fn law_listing_is_strict(
    nodes: Seq<NodeView>,
    sink_name: Seq<char>,
    include_devices: bool,
    i: int,
    j: int,
)
    requires
        ids_differ(nodes),
        0 <= i < j < listing(nodes, sink_name, include_devices).len(),
    ensures
        listing(nodes, sink_name, include_devices)[i].id != listing(
            nodes,
            sink_name,
            include_devices,
        )[j].id,
        listed_before(
            listing(nodes, sink_name, include_devices)[i],
            listing(nodes, sink_name, include_devices)[j],
        ),
{
    let told = offered(nodes, sink_name, include_devices);
    let shown = listing(nodes, sink_name, include_devices);
    lemma_sorted(told);
    lemma_offered_once(nodes, sink_name, include_devices);
    told.lemma_multiset_has_no_duplicates();
    assert(shown.no_duplicates()) by {
        assert forall|x: ShareableView| shown.to_multiset().contains(
            x,
        ) implies shown.to_multiset().count(x) == 1 by {
            assert(told.to_multiset().contains(x));
        }
        shown.lemma_multiset_has_no_duplicates_conv();
    }
    assert(shown.contains(shown[i]));
    assert(shown.contains(shown[j]));
    law_listed_nodes(nodes, sink_name, include_devices, shown[i]);
    law_listed_nodes(nodes, sink_name, include_devices, shown[j]);
    let a = choose|a: int|
        0 <= a < nodes.len() && (#[trigger] nodes[a]).is_offered(sink_name, include_devices)
            && shown[i] == shareable_view(nodes[a]);
    let b = choose|b: int|
        0 <= b < nodes.len() && (#[trigger] nodes[b]).is_offered(sink_name, include_devices)
            && shown[j] == shareable_view(nodes[b]);
    assert(a != b);
    if a < b {
        assert(nodes[a].id != nodes[b].id);
    } else {
        assert(nodes[b].id != nodes[a].id);
    }
    assert(!listed_before(shown[j], shown[i]));
    lemma_text_less_total(lowered(shown[i].display_name), lowered(shown[j].display_name));
}

/// In the listing of a graph that was read, no id comes twice and each node is
/// listed strictly before those that follow it.
pub proof fn law_listing_of_a_read_graph_is_strict(
    objects: Seq<ObjectView>,
    output_paths: Map<u32, Seq<char>>,
    input_paths: Map<u32, Seq<char>>,
    sink_name: Seq<char>,
    include_devices: bool,
    i: int,
    j: int,
)
    requires
        0 <= i < j < listing(
            collected(objects, output_paths, input_paths),
            sink_name,
            include_devices,
        ).len(),
    ensures
        listing(collected(objects, output_paths, input_paths), sink_name, include_devices)[i].id
            != listing(
            collected(objects, output_paths, input_paths),
            sink_name,
            include_devices,
        )[j].id,
        listed_before(
            listing(collected(objects, output_paths, input_paths), sink_name, include_devices)[i],
            listing(collected(objects, output_paths, input_paths), sink_name, include_devices)[j],
        ),
{
    let nodes = collected(objects, output_paths, input_paths);
    assert forall|a: int, b: int| 0 <= a < b < nodes.len() implies #[trigger] nodes[a].id
        != #[trigger] nodes[b].id by {
        law_collected_ids_are_unique(objects, output_paths, input_paths, a, b);
    }
    law_listing_is_strict(nodes, sink_name, include_devices, i, j);
}

/// Whether a listed node is no device.
pub open spec fn no_device() -> spec_fn(ShareableView) -> bool {
    |node: ShareableView| !node.is_device
}

/// What is placed among others stands in the same place when some are left out.
proof fn lemma_placed_filter(
    nodes: Seq<ShareableView>,
    node: ShareableView,
    keep: spec_fn(ShareableView) -> bool,
)
    requires
        in_listing_order(nodes),
    ensures
        placed(nodes, node).filter(keep) == if keep(node) {
            placed(nodes.filter(keep), node)
        } else {
            nodes.filter(keep)
        },
    decreases nodes.len(),
{
    let kept = nodes.filter(keep);
    if nodes.len() > 0 && listed_before(node, nodes.last()) {
        let front = nodes.drop_last();
        let last = nodes.last();
        assert(in_listing_order(front)) by {
            assert forall|i: int, j: int| 0 <= i < j < front.len() implies !listed_before(
                #[trigger] front[j],
                #[trigger] front[i],
            ) by {
                assert(!listed_before(nodes[j], nodes[i]));
            }
        }
        lemma_placed_filter(front, node, keep);
        assert(front.push(last) =~= nodes);
        front.lemma_filter_push(last, keep);
        placed(front, node).lemma_filter_push(last, keep);
        if keep(last) {
            assert(kept.last() == last);
            assert(kept.drop_last() =~= front.filter(keep));
        }
    } else {
        nodes.lemma_filter_push(node, keep);
        if keep(node) && kept.len() > 0 {
            broadcast use {Seq::lemma_filter_contains_rev, Seq::lemma_filter_contains};

            let e = kept.last();
            assert(nodes.filter(keep).contains(e));
            assert(nodes.contains(e));
            let k = choose|k: int| 0 <= k < nodes.len() && nodes[k] == e;
            if k < nodes.len() - 1 {
                assert(!listed_before(nodes[nodes.len() - 1], nodes[k]));
                lemma_order_carries(e, nodes.last(), node);
            }
        }
    }
}

proof fn lemma_sorted_filter(nodes: Seq<ShareableView>, keep: spec_fn(ShareableView) -> bool)
    ensures
        sorted(nodes).filter(keep) == sorted(nodes.filter(keep)),
    decreases nodes.len(),
{
    if nodes.len() == 0 {
        reveal(Seq::filter);
        assert(nodes.filter(keep) =~= seq![]);
    } else {
        let front = nodes.drop_last();
        let last = nodes.last();
        lemma_sorted_filter(front, keep);
        lemma_sorted(front);
        lemma_placed_filter(sorted(front), last, keep);
        assert(front.push(last) =~= nodes);
        front.lemma_filter_push(last, keep);
        if keep(last) {
            assert(front.filter(keep).push(last).drop_last() =~= front.filter(keep));
        }
    }
}

proof fn lemma_offered_without_devices(nodes: Seq<NodeView>, sink_name: Seq<char>)
    ensures
        offered(nodes, sink_name, false) == offered(nodes, sink_name, true).filter(no_device()),
    decreases nodes.len(),
{
    if nodes.len() == 0 {
        reveal(Seq::filter);
        assert(offered(nodes, sink_name, false) =~= seq![]);
        assert(offered(nodes, sink_name, true) =~= seq![]);
    } else {
        let front = nodes.drop_last();
        let last = nodes.last();
        lemma_offered_without_devices(front, sink_name);
        assert(front.push(last) =~= nodes);
        lemma_offered_push(front, last, sink_name, false);
        lemma_offered_push(front, last, sink_name, true);
        offered(front, sink_name, true).lemma_filter_push(shareable_view(last), no_device());
    }
}

/// The listing without devices is the listing with them, in the same order, but
/// for the devices.
pub proof fn law_devices_only_add(nodes: Seq<NodeView>, sink_name: Seq<char>)
    ensures
        listing(nodes, sink_name, false) == listing(nodes, sink_name, true).filter(
            |node: ShareableView| !node.is_device,
        ),
{
    lemma_offered_without_devices(nodes, sink_name);
    lemma_sorted_filter(offered(nodes, sink_name, true), no_device());
}

/// Whether a port has a direction and a path.
pub open spec fn linkable(port: PortView, direction: PortDirection) -> bool {
    port.direction == direction && port.path is Some
}

proof fn lemma_usable_is_linkable(ports: Seq<PortView>, direction: PortDirection)
    ensures
        ports.filter(|port: PortView| port.direction == direction).filter(
            |port: PortView| port.path is Some,
        ) == ports.filter(|port: PortView| linkable(port, direction)),
    decreases ports.len(),
{
    let towards = |port: PortView| port.direction == direction;
    let pathed = |port: PortView| port.path is Some;
    let both = |port: PortView| linkable(port, direction);
    if ports.len() == 0 {
        reveal(Seq::filter);
        assert(ports.filter(towards) =~= seq![]);
        assert(ports.filter(both) =~= seq![]);
        assert(ports.filter(towards).filter(pathed) =~= seq![]);
    } else {
        let front = ports.drop_last();
        let last = ports.last();
        lemma_usable_is_linkable(front, direction);
        assert(front.push(last) =~= ports);
        front.lemma_filter_push(last, towards);
        front.lemma_filter_push(last, both);
        front.filter(towards).lemma_filter_push(last, pathed);
    }
}

proof fn lemma_filter_count(ports: Seq<PortView>, keep: spec_fn(PortView) -> bool)
    ensures
        ports.filter(keep).len() > 0 <==> exists|a: int|
            0 <= a < ports.len() && keep(#[trigger] ports[a]),
        ports.filter(keep).len() > 1 <==> exists|a: int, b: int|
            0 <= a < b < ports.len() && keep(#[trigger] ports[a]) && keep(#[trigger] ports[b]),
    decreases ports.len(),
{
    if ports.len() == 0 {
        reveal(Seq::filter);
        assert(ports.filter(keep) =~= seq![]);
    } else {
        let front = ports.drop_last();
        let last = ports.last();
        lemma_filter_count(front, keep);
        assert(front.push(last) =~= ports);
        front.lemma_filter_push(last, keep);
        let end = ports.len() - 1;
        assert(ports[end] == last);
        assert(forall|k: int| 0 <= k < front.len() ==> front[k] == ports[k]);
        if ports.filter(keep).len() > 0 {
            if keep(last) {
                assert(keep(ports[end]));
            } else {
                let a = choose|a: int| 0 <= a < front.len() && keep(#[trigger] front[a]);
                assert(keep(ports[a]));
            }
        }
        if exists|a: int| 0 <= a < ports.len() && keep(#[trigger] ports[a]) {
            let a = choose|a: int| 0 <= a < ports.len() && keep(#[trigger] ports[a]);
            if a < end {
                assert(keep(front[a]));
            }
        }
        if ports.filter(keep).len() > 1 {
            if keep(last) && front.filter(keep).len() > 0 {
                let a = choose|a: int| 0 <= a < front.len() && keep(#[trigger] front[a]);
                assert(keep(ports[a]) && keep(ports[end]));
            } else {
                let (a, b) = choose|a: int, b: int|
                    0 <= a < b < front.len() && keep(#[trigger] front[a]) && keep(
                        #[trigger] front[b],
                    );
                assert(keep(ports[a]) && keep(ports[b]));
            }
        }
        if exists|a: int, b: int|
            0 <= a < b < ports.len() && keep(#[trigger] ports[a]) && keep(#[trigger] ports[b]) {
            let (a, b) = choose|a: int, b: int|
                0 <= a < b < ports.len() && keep(#[trigger] ports[a]) && keep(
                    #[trigger] ports[b],
                );
            assert(keep(front[a]));
            if b < end {
                assert(keep(front[b]));
            }
        }
    }
}

/// The usable ports of a direction are those that have it and have a path, in
/// the order of the node, and no others.
pub proof fn law_usable_ports(node: NodeView, direction: PortDirection)
    ensures
        node.usable_ports(direction) == node.ports.filter(
            |port: PortView| port.direction == direction && port.path is Some,
        ),
        node.usable_ports(direction).len() > 0 <==> exists|a: int|
            0 <= a < node.ports.len() && linkable(#[trigger] node.ports[a], direction),
        node.usable_ports(direction).len() >= 2 <==> exists|a: int, b: int|
            0 <= a < b < node.ports.len() && linkable(#[trigger] node.ports[a], direction)
                && linkable(#[trigger] node.ports[b], direction),
{
    let both = |port: PortView| linkable(port, direction);
    lemma_usable_is_linkable(node.ports, direction);
    lemma_filter_count(node.ports, both);
    assert(both =~= (|port: PortView| port.direction == direction && port.path is Some));
    let usable = node.usable_ports(direction);
    assert(usable == node.ports.filter(both));
    if usable.len() > 0 {
        let a = choose|a: int| 0 <= a < node.ports.len() && both(#[trigger] node.ports[a]);
        assert(linkable(node.ports[a], direction));
    }
    if exists|a: int| 0 <= a < node.ports.len() && linkable(#[trigger] node.ports[a], direction) {
        let a = choose|a: int|
            0 <= a < node.ports.len() && linkable(#[trigger] node.ports[a], direction);
        assert(both(node.ports[a]));
    }
    if usable.len() >= 2 {
        let (a, b) = choose|a: int, b: int|
            0 <= a < b < node.ports.len() && both(#[trigger] node.ports[a]) && both(
                #[trigger] node.ports[b],
            );
        assert(linkable(node.ports[a], direction) && linkable(node.ports[b], direction));
    }
    if exists|a: int, b: int|
        0 <= a < b < node.ports.len() && linkable(#[trigger] node.ports[a], direction) && linkable(
            #[trigger] node.ports[b],
            direction,
        ) {
        let (a, b) = choose|a: int, b: int|
            0 <= a < b < node.ports.len() && linkable(#[trigger] node.ports[a], direction)
                && linkable(#[trigger] node.ports[b], direction);
        assert(both(node.ports[a]) && both(node.ports[b]));
    }
}

/// A port is usable exactly when the node has it, and it has the direction and a
/// path.
pub proof fn law_usable_port(node: NodeView, direction: PortDirection, port: PortView)
    ensures
        node.usable_ports(direction).contains(port) <==> node.ports.contains(port) && linkable(
            port,
            direction,
        ),
{
    let both = |port: PortView| linkable(port, direction);
    lemma_usable_is_linkable(node.ports, direction);
    broadcast use {Seq::lemma_filter_contains_rev, Seq::lemma_filter_contains};

    let usable = node.ports.filter(both);
    if usable.contains(port) {
        assert(node.ports.filter(both).contains(port));
        assert(both(port));
    }
    if node.ports.contains(port) && linkable(port, direction) {
        let k = choose|k: int| 0 <= k < node.ports.len() && node.ports[k] == port;
        assert(both(node.ports[k]));
    }
}

/// A node goes by a name under three keys, and by a description under two.
pub proof fn law_names(node: NodeView, name: Seq<char>)
    ensures
        node.is_named(name) <==> goes_by(node, name),
        node.is_described(name) <==> is_told_as(node, name),
        node.is_own(name) <==> goes_by(node, name) || goes_by(node, name + ".monitor"@),
{
}

/// Whether a graph node is shown in a row of listed ones.
pub open spec fn is_shown(shown: Seq<ShareableView>, node: NodeView) -> bool {
    exists|k: int| 0 <= k < shown.len() && (#[trigger] shown[k]).id == node.id
}

/// A node that is neither the virtual sink nor its monitor, that has an output
/// port with a path and that is no device, is listed as soon as its application
/// has a name, and as soon as it has a binary, whatever else it has.
pub proof fn law_applications_are_listed(
    nodes: Seq<NodeView>,
    sink_name: Seq<char>,
    include_devices: bool,
    i: int,
    port: int,
)
    requires
        0 <= i < nodes.len(),
        !goes_by(nodes[i], sink_name),
        !goes_by(nodes[i], sink_name + ".monitor"@),
        0 <= port < nodes[i].ports.len(),
        nodes[i].ports[port].direction == PortDirection::Output,
        nodes[i].ports[port].path is Some,
        !is_hardware(nodes[i]),
        has_some(nodes[i], "application.name"@) || has_some(
            nodes[i],
            "application.process.binary"@,
        ),
    ensures
        is_shown(listing(nodes, sink_name, include_devices), nodes[i]),
{
    law_usable_ports(nodes[i], PortDirection::Output);
    assert(linkable(nodes[i].ports[port], PortDirection::Output));
    assert(nodes[i].is_offered(sink_name, include_devices));
    lemma_offered_is_shown(nodes, sink_name, include_devices, i);
}

/// A device that is neither the virtual sink nor its monitor, and that has an
/// output port with a path, is listed where devices are wanted, whatever else it
/// has.
pub proof fn law_devices_are_listed(
    nodes: Seq<NodeView>,
    sink_name: Seq<char>,
    i: int,
    port: int,
)
    requires
        0 <= i < nodes.len(),
        !goes_by(nodes[i], sink_name),
        !goes_by(nodes[i], sink_name + ".monitor"@),
        0 <= port < nodes[i].ports.len(),
        nodes[i].ports[port].direction == PortDirection::Output,
        nodes[i].ports[port].path is Some,
        is_hardware(nodes[i]),
    ensures
        is_shown(listing(nodes, sink_name, true), nodes[i]),
{
    law_usable_ports(nodes[i], PortDirection::Output);
    assert(linkable(nodes[i].ports[port], PortDirection::Output));
    assert(nodes[i].is_offered(sink_name, true));
    lemma_offered_is_shown(nodes, sink_name, true, i);
}

proof fn lemma_offered_is_shown(
    nodes: Seq<NodeView>,
    sink_name: Seq<char>,
    include_devices: bool,
    i: int,
)
    requires
        0 <= i < nodes.len(),
        nodes[i].is_offered(sink_name, include_devices),
    ensures
        is_shown(listing(nodes, sink_name, include_devices), nodes[i]),
{
    let shown = listing(nodes, sink_name, include_devices);
    law_listed_nodes(nodes, sink_name, include_devices, shareable_view(nodes[i]));
    assert(shown.contains(shareable_view(nodes[i])));
    let k = choose|k: int| 0 <= k < shown.len() && shown[k] == shareable_view(nodes[i]);
    assert(shown[k].id == nodes[i].id);
}

/// Whether a listed entry tells a node of the graph that may be listed: it is
/// not the virtual sink or its monitor, it has an output port with a path, and
/// it is a device where devices are wanted or has an application.
pub open spec fn rightly_shown(
    node: NodeView,
    sink_name: Seq<char>,
    include_devices: bool,
) -> bool {
    &&& !goes_by(node, sink_name)
    &&& !goes_by(node, sink_name + ".monitor"@)
    &&& exists|a: int|
        0 <= a < node.ports.len() && linkable(#[trigger] node.ports[a], PortDirection::Output)
    &&& is_hardware(node) ==> include_devices
    &&& !is_hardware(node) ==> has_some(node, "application.name"@) || has_some(
        node,
        "application.process.binary"@,
    )
}

/// Nothing else is listed.
pub proof fn law_nothing_else_is_listed(
    nodes: Seq<NodeView>,
    sink_name: Seq<char>,
    include_devices: bool,
    k: int,
)
    requires
        0 <= k < listing(nodes, sink_name, include_devices).len(),
    ensures
        exists|i: int|
            0 <= i < nodes.len() && rightly_shown(
                #[trigger] nodes[i],
                sink_name,
                include_devices,
            ) && nodes[i].id == listing(nodes, sink_name, include_devices)[k].id,
{
    let shown = listing(nodes, sink_name, include_devices);
    assert(shown.contains(shown[k]));
    law_listed_nodes(nodes, sink_name, include_devices, shown[k]);
    let i = choose|i: int|
        0 <= i < nodes.len() && (#[trigger] nodes[i]).is_offered(sink_name, include_devices)
            && shown[k] == shareable_view(nodes[i]);
    law_usable_ports(nodes[i], PortDirection::Output);
    assert(rightly_shown(nodes[i], sink_name, include_devices));
}

/// A listed node is told with the properties that it has, each under its key.
pub proof fn law_told_properties(node: NodeView, value: Seq<char>)
    ensures
        shareable_view(node).id == node.id,
        shareable_view(node).is_device == is_hardware(node),
        shareable_view(node).application_name == Some(value) <==> has_value(
            node,
            "application.name"@,
            value,
        ),
        shareable_view(node).node_name == Some(value) <==> has_value(node, "node.name"@, value),
        shareable_view(node).media_name == Some(value) <==> has_value(node, "media.name"@, value),
        shareable_view(node).binary == Some(value) <==> has_value(
            node,
            "application.process.binary"@,
            value,
        ),
        has_value(node, "node.description"@, value) ==> shareable_view(node).description == Some(
            value,
        ),
        !node.props.contains_key("node.description"@) ==> (shareable_view(node).description
            == Some(value) <==> has_value(node, "device.description"@, value)),
        has_value(node, "application.process.id"@, value) ==> shareable_view(node).process_id
            == number_of(value),
        !node.props.contains_key("application.process.id"@) ==> shareable_view(
            node,
        ).process_id is None,
{
}

/// A node is shown under its description, or else under the first that it has of
/// the names of its media, its application and itself, or else under its id.
pub proof fn law_shown_names(node: NodeView)
    ensures
        ({
            let shown = shareable_view(node).display_name;
            let told = node.props;
            if told.contains_key("node.description"@) {
                shown == told["node.description"@]
            } else if told.contains_key("device.description"@) {
                shown == told["device.description"@]
            } else if told.contains_key("media.name"@) {
                shown == told["media.name"@]
            } else if told.contains_key("application.name"@) {
                shown == told["application.name"@]
            } else if told.contains_key("node.name"@) {
                shown == told["node.name"@]
            } else {
                shown == "Node "@ + decimal(node.id as nat)
            }
        }),
{
}

/// The listing goes by the shown names in lower case, and where these are the
/// same by the ids.
pub proof fn law_listing_goes_by_name(
    nodes: Seq<NodeView>,
    sink_name: Seq<char>,
    include_devices: bool,
    i: int,
    j: int,
)
    requires
        0 <= i < j < listing(nodes, sink_name, include_devices).len(),
    ensures
        ({
            let shown = listing(nodes, sink_name, include_devices);
            let a = lowered(shown[i].display_name);
            let b = lowered(shown[j].display_name);
            text_less(a, b) || a == b && shown[i].id <= shown[j].id
        }),
{
    let shown = listing(nodes, sink_name, include_devices);
    law_listing_is_ordered(nodes, sink_name, include_devices);
    assert(!listed_before(shown[j], shown[i]));
    lemma_text_less_total(lowered(shown[i].display_name), lowered(shown[j].display_name));
}

} // verus!
