//! A picture of the audio graph at one moment.
use std::collections::HashMap;

use vstd::prelude::*;

use crate::error::{BackendError, ErrorView};
use crate::models::{
    direction_of, goes_by, is_told_as, NodeRecord, NodeView, PortDirection, PortRecord, PortView,
};
use crate::props::{normalize_props, normalized, PropMap, PropValue, PropValueView};
use crate::routing::deduped;
use crate::text::{
    all_white, before, chars_of, decimal, first_index, has_tight_ends, is_digit, is_white,
    law_before, law_before_no_mark, law_number_reads_back, law_trimmed, lemma_decimal,
    lemma_first_index, lemma_trim_end_parts, lines, lines_of, number_of, occurs, parse_number,
    same_text, text_before, text_between, trim, trim_end, trimmed, white,
};

verus! {

/// An object of the dump of the graph, as far as it matters.
#[derive(Debug)]
pub struct RawPwObject {
    pub id: u32,
    pub kind: String,
    pub info: RawPwInfo,
}

/// What the dump tells of an object.
#[derive(Debug)]
pub struct RawPwInfo {
    pub props: Vec<(String, PropValue)>,
    pub direction: Option<String>,
}

/// A [`RawPwObject`] with its texts as sequences of characters.
pub struct ObjectView {
    pub id: u32,
    pub kind: Seq<char>,
    pub props: Seq<(Seq<char>, PropValueView)>,
    pub direction: Option<Seq<char>>,
}

impl View for RawPwObject {
    type V = ObjectView;

    open spec fn view(&self) -> ObjectView {
        ObjectView {
            id: self.id,
            kind: self.kind@,
            props: self.info.props.deep_view(),
            direction: self.info.direction.deep_view(),
        }
    }
}

impl DeepView for RawPwObject {
    type V = ObjectView;

    open spec fn deep_view(&self) -> ObjectView {
        self@
    }
}

/// The port id and the path that a line of a port listing tells. The path ends
/// before the first blank with an opening bracket.
pub open spec fn listed_port(line: Seq<char>) -> Option<(u32, Seq<char>)> {
    let entry = trimmed(line);
    let split = first_index(entry, |c: char| is_white(c));
    if 0 <= split < entry.len() {
        let path = trimmed(before(trimmed(entry.skip(split)), " ["@));
        match number_of(trimmed(entry.take(split))) {
            Some(id) => if path.len() > 0 {
                Some((id, path))
            } else {
                None
            },
            None => None,
        }
    } else {
        None
    }
}

/// The path of each port in a listing; the last line of a port counts.
pub open spec fn listed_paths(lines: Seq<Seq<char>>) -> Map<u32, Seq<char>>
    decreases lines.len(),
{
    if lines.len() == 0 {
        Map::empty()
    } else {
        let paths = listed_paths(lines.drop_last());
        match listed_port(lines.last()) {
            Some((id, path)) => paths.insert(id, path),
            None => paths,
        }
    }
}

/// A map of texts with the texts as sequences of characters.
pub open spec fn texts(map: Map<u32, String>) -> Map<u32, Seq<char>> {
    map.map_values(|text: String| text@)
}

/// Reads one line of a port listing.
pub fn parse_link_line(line: &str) -> (port: Option<(u32, String)>)
    ensures
        port.deep_view() == listed_port(line@),
{
    let entry = trim(line);
    let chars = chars_of(entry.as_str());
    let mut split: usize = 0;
    while split < chars.len() && !white(chars[split])
        invariant
            split <= chars.len(),
            forall|i: int| 0 <= i < split ==> !is_white(#[trigger] chars@[i]),
        decreases chars.len() - split,
    {
        split += 1;
    }
    proof {
        lemma_first_index(chars@, |c: char| is_white(c), split as int);
    }
    if split == chars.len() {
        return None;
    }
    let head = text_between(&chars, 0, split);
    let tail = text_between(&chars, split, chars.len());
    assert(head@ =~= chars@.take(split as int));
    assert(tail@ =~= chars@.skip(split as int));
    let rest = trim(tail.as_str());
    let path = trim(text_before(rest.as_str(), " [").as_str());
    match parse_number(trim(head.as_str()).as_str()) {
        Ok(id) => {
            if path.as_str().is_empty() {
                None
            } else {
                Some((id, path))
            }
        },
        Err(_) => None,
    }
}

/// Reads the path of each port in a listing.
pub fn parse_link_paths(listing: &str) -> (paths: HashMap<u32, String>)
    ensures
        texts(paths@) == listed_paths(lines_of(listing@)),
{
    broadcast use vstd::std_specs::hash::group_hash_axioms;

    let rows = lines(listing);
    let ghost all = rows.deep_view();
    let mut paths: HashMap<u32, String> = HashMap::new();
    let mut i: usize = 0;
    assert(all.take(0) =~= seq![]);
    assert(texts(paths@) =~= listed_paths(all.take(0)));
    while i < rows.len()
        invariant
            i <= rows.len(),
            all == rows.deep_view(),
            texts(paths@) == listed_paths(all.take(i as int)),
        decreases rows.len() - i,
    {
        assert(all.take(i + 1).drop_last() =~= all.take(i as int));
        let ghost known = paths@;
        if let Some((id, path)) = parse_link_line(rows[i].as_str()) {
            let ghost text = path@;
            paths.insert(id, path);
            assert(texts(paths@) =~= texts(known).insert(id, text));
        }
        i += 1;
    }
    assert(all.take(i as int) =~= all);
    paths
}

pub open spec fn is_node(object: ObjectView) -> bool {
    object.kind == "PipeWire:Interface:Node"@
}

/// The ids of the nodes, in the order of the dump.
pub open spec fn node_ids(objects: Seq<ObjectView>) -> Seq<u32> {
    objects.filter(|object: ObjectView| is_node(object)).map_values(|object: ObjectView| object.id)
}

/// The properties of a node: those of the last object with its id.
pub open spec fn node_props(objects: Seq<ObjectView>, id: u32) -> Map<Seq<char>, Seq<char>>
    decreases objects.len(),
{
    if objects.len() == 0 {
        Map::empty()
    } else if is_node(objects.last()) && objects.last().id == id {
        normalized(objects.last().props)
    } else {
        node_props(objects.drop_last(), id)
    }
}

pub open spec fn lookup(props: Map<Seq<char>, Seq<char>>, key: Seq<char>) -> Option<Seq<char>> {
    if props.contains_key(key) {
        Some(props[key])
    } else {
        None
    }
}

/// The node that a port says it belongs to.
pub open spec fn owner_of(props: Map<Seq<char>, Seq<char>>) -> Option<u32> {
    match lookup(props, "node.id"@) {
        Some(text) => number_of(text),
        None => None,
    }
}

/// The direction of a port: what the object says, or what its properties say.
pub open spec fn port_direction(
    told: Option<Seq<char>>,
    props: Map<Seq<char>, Seq<char>>,
) -> Option<PortDirection> {
    let direct = match told {
        Some(word) => direction_of(word),
        None => None,
    };
    match direct {
        Some(direction) => Some(direction),
        None => match lookup(props, "port.direction"@) {
            Some(word) => direction_of(word),
            None => None,
        },
    }
}

/// The port that an object of the dump stands for, with the id of its node.
/// An object that names no node or no direction stands for none.
pub open spec fn port_of(
    object: ObjectView,
    output_paths: Map<u32, Seq<char>>,
    input_paths: Map<u32, Seq<char>>,
) -> Option<(u32, PortView)> {
    let props = normalized(object.props);
    if object.kind == "PipeWire:Interface:Port"@ {
        match (owner_of(props), port_direction(object.direction, props)) {
            (Some(owner), Some(direction)) => {
                let paths = match direction {
                    PortDirection::Input => input_paths,
                    PortDirection::Output => output_paths,
                };
                Some(
                    (
                        owner,
                        PortView {
                            direction,
                            channel: lookup(props, "audio.channel"@),
                            port_index: lookup(props, "port.id"@),
                            path: if paths.contains_key(object.id) {
                                Some(paths[object.id])
                            } else {
                                None
                            },
                            port_name: lookup(props, "port.name"@),
                            object_path: lookup(props, "object.path"@),
                        },
                    ),
                )
            },
            _ => None,
        }
    } else {
        None
    }
}

/// The path of a port that no listing tells, made of the names of its node and
/// of the port.
pub open spec fn fallback_path(
    props: Map<Seq<char>, Seq<char>>,
    port: PortView,
) -> Option<Seq<char>> {
    let port_name = match port.port_name {
        Some(name) => Some(name),
        None => port.object_path,
    };
    match (lookup(props, "node.name"@), port_name) {
        (Some(node), Some(name)) => Some(node + ":"@ + name),
        _ => None,
    }
}

/// A port with a path where one can be had.
pub open spec fn completed(props: Map<Seq<char>, Seq<char>>, port: PortView) -> PortView {
    if port.path is None {
        PortView { path: fallback_path(props, port), ..port }
    } else {
        port
    }
}

/// All ports of the dump, each with the id of its node.
pub open spec fn all_ports(
    objects: Seq<ObjectView>,
    output_paths: Map<u32, Seq<char>>,
    input_paths: Map<u32, Seq<char>>,
) -> Seq<(u32, PortView)> {
    objects.filter_map(|object: ObjectView| port_of(object, output_paths, input_paths))
}

/// The ports of one node, in the order of the dump.
pub open spec fn own_ports(
    ports: Seq<(u32, PortView)>,
    id: u32,
    props: Map<Seq<char>, Seq<char>>,
) -> Seq<PortView> {
    ports.filter(|port: (u32, PortView)| port.0 == id).map_values(
        |port: (u32, PortView)| completed(props, port.1),
    )
}

/// The node with an id.
pub open spec fn node_view(
    objects: Seq<ObjectView>,
    ports: Seq<(u32, PortView)>,
    id: u32,
) -> NodeView {
    let props = node_props(objects, id);
    NodeView { id, props, ports: own_ports(ports, id, props) }
}

/// The nodes of the dump, in the order in which their ids first come.
pub open spec fn collected(
    objects: Seq<ObjectView>,
    output_paths: Map<u32, Seq<char>>,
    input_paths: Map<u32, Seq<char>>,
) -> Seq<NodeView> {
    let ports = all_ports(objects, output_paths, input_paths);
    deduped(node_ids(objects)).map_values(|id: u32| node_view(objects, ports, id))
}

/// The nodes of the graph, each with its ports.
#[derive(Debug)]
pub struct PipeWireSnapshot {
    pub nodes: Vec<NodeRecord>,
}

impl View for PipeWireSnapshot {
    type V = Seq<NodeView>;

    open spec fn view(&self) -> Seq<NodeView> {
        self.nodes.deep_view()
    }
}

/// A graph that was read, or why there is none.
pub open spec fn graph_result(result: Result<PipeWireSnapshot, BackendError>) -> Result<
    Seq<NodeView>,
    ErrorView,
> {
    match result {
        Ok(snapshot) => Ok(snapshot@),
        Err(error) => Err(error@),
    }
}

/// A copy of the property under `key`.
fn prop_text(props: &PropMap, key: &str) -> (text: Option<String>)
    ensures
        text.deep_view() == lookup(props@, key@),
{
    match props.get(key) {
        Some(text) => Some(text.to_string()),
        None => None,
    }
}

/// The path of a port that no listing tells.
pub fn fallback_port_path(node: &NodeRecord, port: &PortRecord) -> (path: Option<String>)
    ensures
        path.deep_view() == fallback_path(node@.props, port@),
{
    let port_name = match &port.port_name {
        Some(name) => Some(name),
        None => port.object_path.as_ref(),
    };
    match (node.prop("node.name"), port_name) {
        (Some(node_name), Some(name)) => {
            let mut path = node_name.to_string();
            path.append(":");
            path.append(name.as_str());
            Some(path)
        },
        _ => None,
    }
}

/// The port that an object of the dump stands for, with the id of its node.
fn read_port(
    object: RawPwObject,
    output_paths: &HashMap<u32, String>,
    input_paths: &HashMap<u32, String>,
) -> (port: Option<(u32, PortRecord)>)
    requires
        object@.kind == "PipeWire:Interface:Port"@,
    ensures
        port.deep_view() == port_of(object@, texts(output_paths@), texts(input_paths@)),
{
    broadcast use vstd::std_specs::hash::group_hash_axioms;

    let id = object.id;
    let told = match object.info.direction {
        Some(word) => PortDirection::parse(word.as_str()),
        None => None,
    };
    let props = normalize_props(object.info.props);
    let owner = match props.get("node.id") {
        Some(text) => match parse_number(text) {
            Ok(owner) => owner,
            Err(_) => return None,
        },
        None => return None,
    };
    let direction = match told {
        Some(direction) => direction,
        None => match props.get("port.direction") {
            Some(word) => match PortDirection::parse(word) {
                Some(direction) => direction,
                None => return None,
            },
            None => return None,
        },
    };
    let path = match direction {
        PortDirection::Input => input_paths.get(&id),
        PortDirection::Output => output_paths.get(&id),
    };
    let path = match path {
        Some(text) => Some(text.clone()),
        None => None,
    };
    Some(
        (
            owner,
            PortRecord {
                direction,
                channel: prop_text(&props, "audio.channel"),
                port_index: prop_text(&props, "port.id"),
                path,
                port_name: prop_text(&props, "port.name"),
                object_path: prop_text(&props, "object.path"),
            },
        ),
    )
}

/// Where the node with an id stands.
fn position_of(nodes: &Vec<NodeRecord>, id: u32) -> (position: Option<usize>)
    ensures
        match position {
            Some(at) => at < nodes.len() && nodes@[at as int].id == id,
            None => forall|i: int| 0 <= i < nodes.len() ==> (#[trigger] nodes@[i]).id != id,
        },
{
    let mut i: usize = 0;
    while i < nodes.len()
        invariant
            i <= nodes.len(),
            forall|j: int| 0 <= j < i ==> (#[trigger] nodes@[j]).id != id,
        decreases nodes.len() - i,
    {
        if nodes[i].id == id {
            return Some(i);
        }
        i += 1;
    }
    None
}

/// The nodes of the dump before they have their ports.
spec fn bare(objects: Seq<ObjectView>) -> Seq<NodeView> {
    deduped(node_ids(objects)).map_values(
        |id: u32| NodeView { id, props: node_props(objects, id), ports: seq![] },
    )
}

/// The nodes of the dump with the ports that were handed out so far.
spec fn partly(objects: Seq<ObjectView>, ports: Seq<(u32, PortView)>) -> Seq<NodeView> {
    deduped(node_ids(objects)).map_values(|id: u32| node_view(objects, ports, id))
}

proof fn lemma_node_ids_push(objects: Seq<ObjectView>, object: ObjectView)
    ensures
        node_ids(objects.push(object)) == if is_node(object) {
            node_ids(objects).push(object.id)
        } else {
            node_ids(objects)
        },
{
    objects.lemma_filter_push(object, |object: ObjectView| is_node(object));
    assert(node_ids(objects.push(object)) =~= if is_node(object) {
        node_ids(objects).push(object.id)
    } else {
        node_ids(objects)
    });
}

/// What one more object does to the bare nodes.
proof fn lemma_bare_push(objects: Seq<ObjectView>, object: ObjectView)
    ensures
        !is_node(object) ==> bare(objects.push(object)) == bare(objects),
        is_node(object) && !node_ids(objects).contains(object.id) ==> bare(objects.push(object))
            == bare(objects).push(
            NodeView { id: object.id, props: normalized(object.props), ports: seq![] },
        ),
        forall|at: int|
            is_node(object) && 0 <= at < bare(objects).len() && (#[trigger] bare(objects)[at]).id
                == object.id ==> bare(objects.push(object)) == bare(objects).update(
                at,
                NodeView { id: object.id, props: normalized(object.props), ports: seq![] },
            ),
        forall|i: int|
            0 <= i < bare(objects).len() ==> node_ids(objects).contains(
                (#[trigger] bare(objects)[i]).id,
            ),
        node_ids(objects).contains(object.id) ==> exists|i: int|
            0 <= i < bare(objects).len() && (#[trigger] bare(objects)[i]).id == object.id,
{
    let ids = node_ids(objects);
    let more = objects.push(object);
    lemma_node_ids_push(objects, object);
    crate::routing::law_deduped_ids(ids);
    assert(more.drop_last() =~= objects);
    assert(more.last() == object);
    assert(forall|id: u32|
        !(is_node(object) && object.id == id) ==> node_props(more, id) == node_props(objects, id));
    let kept = deduped(ids);
    if is_node(object) {
        assert(ids.push(object.id).drop_last() =~= ids);
        assert(node_props(more, object.id) == normalized(object.props));
        if ids.contains(object.id) {
            assert(kept.contains(object.id));
            let k = choose|k: int| 0 <= k < kept.len() && kept[k] == object.id;
            assert(bare(objects)[k].id == object.id);
            assert forall|at: int|
                0 <= at < bare(objects).len() && (#[trigger] bare(objects)[at]).id
                    == object.id implies bare(more) == bare(objects).update(
                at,
                NodeView { id: object.id, props: normalized(object.props), ports: seq![] },
            ) by {
                assert(kept[at] == object.id);
                assert(bare(more) =~= bare(objects).update(
                    at,
                    NodeView { id: object.id, props: normalized(object.props), ports: seq![] },
                ));
            }
        } else {
            assert forall|i: int| 0 <= i < kept.len() implies kept[i] != object.id by {
                assert(kept.contains(kept[i]));
            }
            assert(bare(more) =~= bare(objects).push(
                NodeView { id: object.id, props: normalized(object.props), ports: seq![] },
            ));
            assert forall|i: int| 0 <= i < bare(objects).len() implies (#[trigger] bare(
                objects,
            )[i]).id != object.id by {
                assert(bare(objects)[i].id == kept[i]);
            }
        }
    } else {
        assert(bare(more) =~= bare(objects));
        if ids.contains(object.id) {
            assert(kept.contains(object.id));
            let k = choose|k: int| 0 <= k < kept.len() && kept[k] == object.id;
            assert(bare(objects)[k].id == object.id);
        }
    }
    assert forall|i: int| 0 <= i < bare(objects).len() implies ids.contains(
        (#[trigger] bare(objects)[i]).id,
    ) by {
        assert(bare(objects)[i].id == kept[i]);
        assert(kept.contains(kept[i]));
    }
}

/// What handing out one more port does to the nodes.
proof fn lemma_partly_push(
    objects: Seq<ObjectView>,
    ports: Seq<(u32, PortView)>,
    port: (u32, PortView),
)
    ensures
        forall|at: int|
            0 <= at < partly(objects, ports).len() && (#[trigger] partly(objects, ports)[at]).id
                == port.0 ==> partly(objects, ports.push(port)) == partly(objects, ports).update(
                at,
                NodeView {
                    ports: partly(objects, ports)[at].ports.push(
                        completed(partly(objects, ports)[at].props, port.1),
                    ),
                    ..partly(objects, ports)[at]
                },
            ),
        (forall|i: int|
            0 <= i < partly(objects, ports).len() ==> (#[trigger] partly(objects, ports)[i]).id
                != port.0) ==> partly(objects, ports.push(port)) == partly(objects, ports),
{
    let ids = deduped(node_ids(objects));
    crate::routing::law_deduped_ids(node_ids(objects));
    let before = partly(objects, ports);
    let after = partly(objects, ports.push(port));
    assert forall|id: u32| #[trigger] node_view(objects, ports.push(port), id) == if id == port.0 {
        NodeView {
            ports: node_view(objects, ports, id).ports.push(
                completed(node_props(objects, id), port.1),
            ),
            ..node_view(objects, ports, id)
        }
    } else {
        node_view(objects, ports, id)
    } by {
        let props = node_props(objects, id);
        let own = |port: (u32, PortView)| port.0 == id;
        ports.lemma_filter_push(port, own);
        if id == port.0 {
            assert(own_ports(ports.push(port), id, props) =~= own_ports(ports, id, props).push(
                completed(props, port.1),
            ));
        } else {
            assert(own_ports(ports.push(port), id, props) =~= own_ports(ports, id, props));
        }
    }
    assert forall|at: int|
        0 <= at < before.len() && (#[trigger] before[at]).id == port.0 implies after
        == before.update(
        at,
        NodeView {
            ports: before[at].ports.push(completed(before[at].props, port.1)),
            ..before[at]
        },
    ) by {
        assert(ids[at] == port.0);
        assert(after =~= before.update(
            at,
            NodeView {
                ports: before[at].ports.push(completed(before[at].props, port.1)),
                ..before[at]
            },
        ));
    }
    if forall|i: int| 0 <= i < before.len() ==> (#[trigger] before[i]).id != port.0 {
        assert forall|i: int| 0 <= i < ids.len() implies ids[i] != port.0 by {
            assert(before[i].id == ids[i]);
        }
        assert(after =~= before);
    }
}

impl PipeWireSnapshot {
    /// Puts the graph together from the objects of its dump and from the two
    /// port listings.
    pub fn collect(
        objects: Vec<RawPwObject>,
        output_listing: &str,
        input_listing: &str,
    ) -> (snapshot: PipeWireSnapshot)
        ensures
            snapshot@ == collected(
                objects.deep_view(),
                listed_paths(lines_of(output_listing@)),
                listed_paths(lines_of(input_listing@)),
            ),
    {
        let output_paths = parse_link_paths(output_listing);
        let input_paths = parse_link_paths(input_listing);
        let ghost all = objects.deep_view();
        let ghost outs = texts(output_paths@);
        let ghost ins = texts(input_paths@);
        let ghost reading = |object: ObjectView| port_of(object, outs, ins);
        let mut nodes: Vec<NodeRecord> = Vec::new();
        let mut pending: Vec<(u32, PortRecord)> = Vec::new();
        proof {
            assert(all.take(0) =~= seq![]);
            assert(node_ids(all.take(0)) =~= seq![]);
            assert(nodes.deep_view() =~= bare(all.take(0)));
            assert(pending.deep_view() =~= all.take(0).filter_map(reading));
        }
        for object in iter: objects
            invariant
                iter.seq() == objects@,
                all == objects.deep_view(),
                outs == texts(output_paths@),
                ins == texts(input_paths@),
                reading == (|object: ObjectView| port_of(object, outs, ins)),
                nodes.deep_view() == bare(all.take(iter.index())),
                pending.deep_view() == all.take(iter.index()).filter_map(reading),
        {
            let ghost known = nodes.deep_view();
            let ghost waiting = pending.deep_view();
            let ghost seen = all.take(iter.index());
            let ghost current = object@;
            proof {
                assert(all.take(iter.index() + 1) =~= seen.push(current));
                assert(all[iter.index()] == current);
                all.lemma_filter_map_take_succ(reading, iter.index());
                lemma_bare_push(seen, current);
                lemma_kinds_differ();
            }
            if same_text(object.kind.as_str(), "PipeWire:Interface:Node") {
                let node = NodeRecord {
                    id: object.id,
                    props: normalize_props(object.info.props),
                    ports: Vec::new(),
                };
                proof {
                    assert(node@.ports =~= seq![]);
                    assert forall|i: int| 0 <= i < nodes.len() implies (#[trigger] nodes@[i]).id
                        == known[i].id by {}
                }
                match position_of(&nodes, node.id) {
                    Some(at) => {
                        let ghost fresh = node@;
                        nodes.set(at, node);
                        assert(known[at as int].id == current.id);
                        assert(nodes.deep_view() =~= known.update(at as int, fresh));
                    },
                    None => {
                        let ghost fresh = node@;
                        nodes.push(node);
                        assert(nodes.deep_view() =~= known.push(fresh));
                    },
                }
            } else if same_text(object.kind.as_str(), "PipeWire:Interface:Port") {
                if let Some((owner, port)) = read_port(object, &output_paths, &input_paths) {
                    let ghost fresh = (owner, port@);
                    pending.push((owner, port));
                    assert(pending.deep_view() =~= waiting.push(fresh));
                }
            }
        }
        assert(all.take(all.len() as int) =~= all);
        let ghost ports = pending.deep_view();
        proof {
            assert(ports == all_ports(all, outs, ins));
            assert(nodes.deep_view() =~= partly(all, ports.take(0))) by {
                assert forall|id: u32| own_ports(ports.take(0), id, #[trigger] node_props(all, id))
                    == Seq::<PortView>::empty() by {
                    assert(ports.take(0) =~= seq![]);
                    reveal(Seq::filter);
                    assert(own_ports(ports.take(0), id, node_props(all, id)) =~= seq![]);
                }
            }
        }
        for entry in iter: pending
            invariant
                iter.seq() == pending@,
                ports == pending.deep_view(),
                nodes.deep_view() == partly(all, ports.take(iter.index())),
        {
            let (owner, port) = entry;
            let ghost known = nodes.deep_view();
            let ghost told = port@;
            proof {
                assert(ports.take(iter.index() + 1) =~= ports.take(iter.index()).push(
                    (owner, told),
                ));
                lemma_partly_push(all, ports.take(iter.index()), (owner, told));
            }
            match position_of(&nodes, owner) {
                Some(at) => {
                    let mut port = port;
                    if port.path.is_none() {
                        port.path = fallback_port_path(&nodes[at], &port);
                    }
                    assert(port@ == completed(known[at as int].props, told));
                    let ghost ready = port@;
                    let ghost old_ports = nodes@[at as int].ports.deep_view();
                    nodes[at].ports.push(port);
                    proof {
                        assert(nodes@[at as int].ports.deep_view() =~= old_ports.push(ready));
                        assert(nodes.deep_view() =~= known.update(
                            at as int,
                            NodeView { ports: old_ports.push(ready), ..known[at as int] },
                        ));
                    }
                },
                None => {
                    assert forall|i: int| 0 <= i < known.len() implies (#[trigger] known[i]).id
                        != owner by {
                        assert(known[i].id == nodes@[i].id);
                    }
                },
            }
        }
        assert(ports.take(ports.len() as int) =~= ports);
        PipeWireSnapshot { nodes }
    }
}

proof fn lemma_kinds_differ()
    ensures
        "PipeWire:Interface:Node"@ != "PipeWire:Interface:Port"@,
{
    reveal_strlit("PipeWire:Interface:Node");
    reveal_strlit("PipeWire:Interface:Port");
    assert("PipeWire:Interface:Node"@[19] == 'N');
    assert("PipeWire:Interface:Port"@[19] == 'P');
}

/// In a collected graph no id comes twice.
pub proof fn law_collected_ids_are_unique(
    objects: Seq<ObjectView>,
    output_paths: Map<u32, Seq<char>>,
    input_paths: Map<u32, Seq<char>>,
    i: int,
    j: int,
)
    requires
        0 <= i < j < collected(objects, output_paths, input_paths).len(),
    ensures
        collected(objects, output_paths, input_paths)[i].id != collected(
            objects,
            output_paths,
            input_paths,
        )[j].id,
{
    crate::routing::law_deduped_ids(node_ids(objects));
}

/// The first node that satisfies `pred`.
pub open spec fn first_node(nodes: Seq<NodeView>, pred: spec_fn(NodeView) -> bool) -> Option<
    NodeView,
>
    decreases nodes.len(),
{
    if nodes.len() == 0 {
        None
    } else if pred(nodes[0]) {
        Some(nodes[0])
    } else {
        first_node(nodes.drop_first(), pred)
    }
}

/// The first node is found by what stands before it.
pub proof fn lemma_first_node(nodes: Seq<NodeView>, pred: spec_fn(NodeView) -> bool, n: int)
    requires
        0 <= n <= nodes.len(),
        forall|i: int| 0 <= i < n ==> !pred(#[trigger] nodes[i]),
        n < nodes.len() ==> pred(nodes[n]),
    ensures
        first_node(nodes, pred) == if n < nodes.len() {
            Some(nodes[n])
        } else {
            None
        },
    decreases n,
{
    if n > 0 {
        let rest = nodes.drop_first();
        assert(forall|i: int| 0 <= i < n - 1 ==> rest[i] == nodes[i + 1]);
        assert(n < nodes.len() ==> rest[n - 1] == nodes[n]);
        lemma_first_node(rest, pred, n - 1);
    }
}

/// A first node satisfies the predicate and is one of the nodes; there is one
/// as soon as any node satisfies the predicate.
pub proof fn lemma_first_node_found(nodes: Seq<NodeView>, pred: spec_fn(NodeView) -> bool)
    ensures
        match first_node(nodes, pred) {
            Some(node) => pred(node) && nodes.contains(node),
            None => forall|i: int| 0 <= i < nodes.len() ==> !pred(#[trigger] nodes[i]),
        },
    decreases nodes.len(),
{
    if nodes.len() > 0 && !pred(nodes[0]) {
        let rest = nodes.drop_first();
        lemma_first_node_found(rest, pred);
        match first_node(rest, pred) {
            Some(node) => {
                let i = choose|i: int| 0 <= i < rest.len() && rest[i] == node;
                assert(nodes[i + 1] == node);
            },
            None => {
                assert forall|i: int| 0 <= i < nodes.len() implies !pred(#[trigger] nodes[i]) by {
                    if i > 0 {
                        assert(rest[i - 1] == nodes[i]);
                    }
                }
            },
        }
    } else if nodes.len() > 0 {
        assert(nodes.contains(nodes[0]));
    }
}

/// The node with an id.
pub open spec fn node_with_id(nodes: Seq<NodeView>, id: u32) -> Option<NodeView> {
    first_node(nodes, |node: NodeView| node.id == id)
}

impl NodeView {
    /// Whether the node goes by a name.
    pub open spec fn is_named(self, name: Seq<char>) -> bool {
        ||| self.matches_prop("node.name"@, name)
        ||| self.matches_prop("device.name"@, name)
        ||| self.matches_prop("node.nick"@, name)
    }

    /// Whether the node goes by a description.
    pub open spec fn is_described(self, description: Seq<char>) -> bool {
        ||| self.matches_prop("node.description"@, description)
        ||| self.matches_prop("device.description"@, description)
    }
}

/// The virtual sink: the first node that goes by its name, or else the first
/// one that goes by its description.
pub open spec fn sink_in(nodes: Seq<NodeView>, name: Seq<char>, description: Seq<char>) -> Option<
    NodeView,
> {
    match first_node(nodes, |node: NodeView| node.is_named(name)) {
        Some(node) => Some(node),
        None => first_node(nodes, |node: NodeView| node.is_described(description)),
    }
}

impl NodeRecord {
    /// Whether the node goes by `name`.
    pub fn is_named(&self, name: &str) -> (yes: bool)
        ensures
            yes == self@.is_named(name@),
    {
        self.matches_prop("node.name", name) || self.matches_prop("device.name", name)
            || self.matches_prop("node.nick", name)
    }

    /// Whether the node goes by `description`.
    pub fn is_described(&self, description: &str) -> (yes: bool)
        ensures
            yes == self@.is_described(description@),
    {
        self.matches_prop("node.description", description) || self.matches_prop(
            "device.description",
            description,
        )
    }
}

impl PipeWireSnapshot {
    /// The virtual sink, by its name or else by its description.
    pub fn find_virtual_sink(&self, sink_name: &str, sink_description: &str) -> (node: Option<
        &NodeRecord,
    >)
        ensures
            node.deep_view() == sink_in(self@, sink_name@, sink_description@),
    {
        let ghost named = |node: NodeView| node.is_named(sink_name@);
        let ghost described = |node: NodeView| node.is_described(sink_description@);
        let mut i: usize = 0;
        while i < self.nodes.len()
            invariant
                i <= self.nodes.len(),
                named == (|node: NodeView| node.is_named(sink_name@)),
                forall|j: int| 0 <= j < i ==> !named(#[trigger] self@[j]),
            decreases self.nodes.len() - i,
        {
            if self.nodes[i].is_named(sink_name) {
                proof {
                    assert(named(self@[i as int]));
                    lemma_first_node(self@, named, i as int);
                }
                return Some(&self.nodes[i]);
            }
            assert(!named(self@[i as int]));
            i += 1;
        }
        proof {
            lemma_first_node(self@, named, i as int);
        }
        let mut k: usize = 0;
        while k < self.nodes.len()
            invariant
                k <= self.nodes.len(),
                described == (|node: NodeView| node.is_described(sink_description@)),
                first_node(self@, |node: NodeView| node.is_named(sink_name@)) is None,
                forall|j: int| 0 <= j < k ==> !described(#[trigger] self@[j]),
            decreases self.nodes.len() - k,
        {
            if self.nodes[k].is_described(sink_description) {
                proof {
                    assert(described(self@[k as int]));
                    lemma_first_node(self@, described, k as int);
                }
                return Some(&self.nodes[k]);
            }
            assert(!described(self@[k as int]));
            k += 1;
        }
        proof {
            lemma_first_node(self@, described, k as int);
        }
        None
    }

    /// The node with an id.
    pub fn node(&self, id: u32) -> (node: Option<&NodeRecord>)
        ensures
            node.deep_view() == node_with_id(self@, id),
    {
        let ghost wanted = |node: NodeView| node.id == id;
        let mut i: usize = 0;
        while i < self.nodes.len()
            invariant
                i <= self.nodes.len(),
                wanted == (|node: NodeView| node.id == id),
                forall|j: int| 0 <= j < i ==> !wanted(#[trigger] self@[j]),
            decreases self.nodes.len() - i,
        {
            if self.nodes[i].id == id {
                proof {
                    assert(wanted(self@[i as int]));
                    lemma_first_node(self@, wanted, i as int);
                }
                return Some(&self.nodes[i]);
            }
            assert(!wanted(self@[i as int]));
            i += 1;
        }
        proof {
            lemma_first_node(self@, wanted, i as int);
        }
        None
    }
}

/// As long as a node goes by the name of the sink, the sink is such a node,
/// whatever the descriptions say.
pub proof fn law_sink_name_goes_first(
    nodes: Seq<NodeView>,
    name: Seq<char>,
    description: Seq<char>,
    i: int,
)
    requires
        0 <= i < nodes.len(),
        nodes[i].is_named(name),
    ensures
        sink_in(nodes, name, description) matches Some(node) && node.is_named(name)
            && nodes.contains(node),
{
    let named = |node: NodeView| node.is_named(name);
    assert(named(nodes[i]));
    lemma_first_node_found(nodes, named);
}

/// What may stand behind the path in a line of a port listing: white space, and
/// then nothing or a remark that starts with a bracket after a blank.
pub open spec fn is_remark(tail: Seq<char>) -> bool {
    ||| all_white(tail)
    ||| exists|gap: Seq<char>, rest: Seq<char>|
        all_white(gap) && tail == #[trigger] (gap + " ["@ + rest)
}

/// A line of a port listing tells the id and the path that stand in it, whatever
/// the path is made of, whatever white space stands around the two, and whatever
/// remark follows.
pub proof fn law_listed_line(
    front: Seq<char>,
    id: u32,
    gap: Seq<char>,
    path: Seq<char>,
    tail: Seq<char>,
)
    requires
        all_white(front),
        all_white(gap),
        gap.len() > 0,
        path.len() > 0,
        has_tight_ends(path),
        !occurs(path, " ["@),
        is_remark(tail),
    ensures
        listed_port(front + decimal(id as nat) + gap + path + tail) == Some((id, path)),
{
    let digits = decimal(id as nat);
    lemma_decimal(id as nat);
    assert forall|i: int| 0 <= i < digits.len() implies !is_white(#[trigger] digits[i]) by {
        assert(is_digit(digits[i]));
    }
    law_number_reads_back(id);
    law_listed_word(front, digits, id, gap, path, tail);
}

/// The same holds of any word that stands for the id, such as one with zeros ahead.
pub proof fn law_listed_word(
    front: Seq<char>,
    word: Seq<char>,
    id: u32,
    gap: Seq<char>,
    path: Seq<char>,
    tail: Seq<char>,
)
    requires
        word.len() > 0,
        forall|i: int| 0 <= i < word.len() ==> !is_white(#[trigger] word[i]),
        number_of(word) == Some(id),
        all_white(front),
        all_white(gap),
        gap.len() > 0,
        path.len() > 0,
        has_tight_ends(path),
        !occurs(path, " ["@),
        is_remark(tail),
    ensures
        listed_port(front + word + gap + path + tail) == Some((id, path)),
{
    let line = front + word + gap + path + tail;
    if all_white(tail) {
        lemma_listed_entry(front, word, id, gap, path, tail);
        law_before_no_mark(path, " ["@);
        assert(line =~= front + (word + gap + path) + tail);
        law_trimmed(seq![], path, seq![]);
        assert(Seq::<char>::empty() + path + Seq::<char>::empty() =~= path);
    } else {
        reveal_strlit(" [");
        let mark = " ["@;
        let (space, rest) = choose|space: Seq<char>, rest: Seq<char>|
            all_white(space) && tail == #[trigger] (space + mark + rest);
        lemma_trim_end_parts(rest);
        let kept = trim_end(rest);
        let back = rest.skip(kept.len() as int);
        let shown = path + space + mark + kept;
        assert(mark.len() == 2 && mark[0] == ' ' && mark[1] == '[');
        assert(shown[0] == path[0]);
        assert(!is_white('['));
        assert(!is_white(shown.last())) by {
            if kept.len() > 0 {
                assert(shown.last() == kept.last());
            } else {
                assert(shown.last() == mark[1]);
            }
        }
        assert(line =~= front + (word + gap + shown) + back);
        lemma_listed_entry(front, word, id, gap, shown, back);
        let at = path.len() + space.len();
        assert(shown.subrange(at as int, at as int + mark.len()) =~= mark);
        assert forall|j: int|
            0 <= j < at && j + mark.len() <= shown.len() implies #[trigger] shown.subrange(
            j,
            j + mark.len(),
        ) != mark by {
            let part = shown.subrange(j, j + mark.len());
            if part == mark {
                assert(part[0] == shown[j]);
                assert(part[1] == shown[j + 1]);
                if j + 1 < path.len() {
                    assert(path.subrange(j, j + mark.len()) =~= mark);
                } else if j + 1 < at {
                    assert(shown[j + 1] == space[j + 1 - path.len()]);
                } else {
                    assert(shown[j + 1] == mark[0]);
                }
            }
        }
        law_before(shown, mark, at as int);
        assert(shown.take(at as int) =~= Seq::<char>::empty() + path + space);
        law_trimmed(seq![], path, space);
    }
}

/// The parts of a line of a port listing.
proof fn lemma_listed_entry(
    front: Seq<char>,
    word: Seq<char>,
    id: u32,
    gap: Seq<char>,
    shown: Seq<char>,
    back: Seq<char>,
)
    requires
        word.len() > 0,
        forall|i: int| 0 <= i < word.len() ==> !is_white(#[trigger] word[i]),
        number_of(word) == Some(id),
        all_white(front),
        all_white(gap),
        all_white(back),
        gap.len() > 0,
        shown.len() > 0,
        has_tight_ends(shown),
    ensures
        listed_port(front + (word + gap + shown) + back) == {
            let path = trimmed(before(shown, " ["@));
            if path.len() > 0 {
                Some((id, path))
            } else {
                None
            }
        },
{
    let entry = word + gap + shown;
    assert(entry[0] == word[0]);
    assert(entry.last() == shown.last());
    law_trimmed(front, entry, back);
    let blank = |c: char| is_white(c);
    assert forall|i: int| 0 <= i < word.len() implies !blank(#[trigger] entry[i]) by {
        assert(entry[i] == word[i]);
    }
    assert(entry[word.len() as int] == gap[0]);
    lemma_first_index(entry, blank, word.len() as int);
    assert(entry.take(word.len() as int) =~= word);
    assert(entry.skip(word.len() as int) =~= gap + shown + Seq::<char>::empty());
    law_trimmed(gap, shown, seq![]);
    assert(Seq::<char>::empty() + word + Seq::<char>::empty() =~= word);
    law_trimmed(seq![], word, seq![]);
}

/// A line whose first word is no number, or that is one word alone, tells
/// nothing.
pub proof fn law_other_lines_tell_nothing(word: Seq<char>, gap: Seq<char>, rest: Seq<char>)
    requires
        word.len() > 0,
        forall|i: int| 0 <= i < word.len() ==> !is_white(#[trigger] word[i]),
        all_white(gap),
        gap.len() > 0,
        rest.len() > 0,
        has_tight_ends(rest),
    ensures
        number_of(word) is None ==> listed_port(word + gap + rest) is None,
        listed_port(word) is None,
{
    let entry = word + gap + rest;
    let none = Seq::<char>::empty();
    let blank = |c: char| is_white(c);
    assert(entry[0] == word[0]);
    assert(entry.last() == rest.last());
    assert(none + entry + none =~= entry);
    law_trimmed(none, entry, none);
    assert forall|i: int| 0 <= i < word.len() implies !blank(#[trigger] entry[i]) by {
        assert(entry[i] == word[i]);
    }
    assert(entry[word.len() as int] == gap[0]);
    lemma_first_index(entry, blank, word.len() as int);
    assert(entry.take(word.len() as int) =~= word);
    assert(none + word + none =~= word);
    law_trimmed(none, word, none);
    assert forall|i: int| 0 <= i < word.len() implies !blank(#[trigger] word[i]) by {}
    lemma_first_index(word, blank, word.len() as int);
}

/// Whether a line of a port listing tells of a port.
pub open spec fn tells_of(line: Seq<char>, id: u32) -> bool {
    listed_port(line) matches Some(told) && told.0 == id
}

/// The path of a port is the one that the last line of the port tells.
pub proof fn law_last_line_of_a_port_counts(
    lines: Seq<Seq<char>>,
    id: u32,
    path: Seq<char>,
    i: int,
)
    requires
        0 <= i < lines.len(),
        listed_port(lines[i]) == Some((id, path)),
        forall|j: int| i < j < lines.len() ==> !tells_of(#[trigger] lines[j], id),
    ensures
        listed_paths(lines).contains_key(id),
        listed_paths(lines)[id] == path,
    decreases lines.len(),
{
    if i < lines.len() - 1 {
        let front = lines.drop_last();
        assert(front[i] == lines[i]);
        assert forall|j: int| i < j < front.len() implies !tells_of(#[trigger] front[j], id) by {
            assert(front[j] == lines[j]);
        }
        assert(!tells_of(lines[lines.len() - 1], id));
        law_last_line_of_a_port_counts(front, id, path, i);
    }
}

/// A port that no line tells of has no path.
pub proof fn law_unlisted_ports_have_no_path(lines: Seq<Seq<char>>, id: u32)
    requires
        forall|j: int| 0 <= j < lines.len() ==> !tells_of(#[trigger] lines[j], id),
    ensures
        !listed_paths(lines).contains_key(id),
    decreases lines.len(),
{
    if lines.len() > 0 {
        let front = lines.drop_last();
        assert forall|j: int| 0 <= j < front.len() implies !tells_of(#[trigger] front[j], id) by {
            assert(front[j] == lines[j]);
        }
        assert(!tells_of(lines[lines.len() - 1], id));
        law_unlisted_ports_have_no_path(front, id);
    }
}

/// The virtual sink is the first node that has its name in one of the properties
/// that hold a name.
pub proof fn law_sink_is_found_by_name(
    nodes: Seq<NodeView>,
    name: Seq<char>,
    description: Seq<char>,
    i: int,
)
    requires
        0 <= i < nodes.len(),
        goes_by(nodes[i], name),
        forall|j: int| 0 <= j < i ==> !goes_by(#[trigger] nodes[j], name),
    ensures
        sink_in(nodes, name, description) == Some(nodes[i]),
{
    let named = |node: NodeView| node.is_named(name);
    assert forall|j: int| 0 <= j < i implies !named(#[trigger] nodes[j]) by {
        assert(!goes_by(nodes[j], name));
    }
    lemma_first_node(nodes, named, i);
}

/// Where no node has its name, the virtual sink is the first node that has its
/// description in one of the properties that hold one.
pub proof fn law_sink_is_found_by_description(
    nodes: Seq<NodeView>,
    name: Seq<char>,
    description: Seq<char>,
    i: int,
)
    requires
        0 <= i < nodes.len(),
        forall|j: int| 0 <= j < nodes.len() ==> !goes_by(#[trigger] nodes[j], name),
        is_told_as(nodes[i], description),
        forall|j: int| 0 <= j < i ==> !is_told_as(#[trigger] nodes[j], description),
    ensures
        sink_in(nodes, name, description) == Some(nodes[i]),
{
    let named = |node: NodeView| node.is_named(name);
    let described = |node: NodeView| node.is_described(description);
    assert forall|j: int| 0 <= j < nodes.len() implies !named(#[trigger] nodes[j]) by {
        assert(!goes_by(nodes[j], name));
    }
    lemma_first_node(nodes, named, nodes.len() as int);
    assert forall|j: int| 0 <= j < i implies !described(#[trigger] nodes[j]) by {
        assert(!is_told_as(nodes[j], description));
    }
    lemma_first_node(nodes, described, i);
}

/// Where no node has the name or the description, there is no virtual sink.
pub proof fn law_sink_is_missing(nodes: Seq<NodeView>, name: Seq<char>, description: Seq<char>)
    requires
        forall|j: int|
            0 <= j < nodes.len() ==> !goes_by(#[trigger] nodes[j], name) && !is_told_as(
                nodes[j],
                description,
            ),
    ensures
        sink_in(nodes, name, description) is None,
{
    let named = |node: NodeView| node.is_named(name);
    let described = |node: NodeView| node.is_described(description);
    assert forall|j: int| 0 <= j < nodes.len() implies !named(#[trigger] nodes[j]) by {
        assert(!goes_by(nodes[j], name));
    }
    lemma_first_node(nodes, named, nodes.len() as int);
    assert forall|j: int| 0 <= j < nodes.len() implies !described(#[trigger] nodes[j]) by {
        assert(!goes_by(nodes[j], name));
    }
    lemma_first_node(nodes, described, nodes.len() as int);
}

/// A node is found by its id: it is the first one that has it.
pub proof fn law_node_is_found_by_id(nodes: Seq<NodeView>, i: int)
    requires
        0 <= i < nodes.len(),
        forall|j: int| 0 <= j < i ==> (#[trigger] nodes[j]).id != nodes[i].id,
    ensures
        node_with_id(nodes, nodes[i].id) == Some(nodes[i]),
{
    let id = nodes[i].id;
    let wanted = |node: NodeView| node.id == id;
    assert forall|j: int| 0 <= j < i implies !wanted(#[trigger] nodes[j]) by {}
    lemma_first_node(nodes, wanted, i);
}

/// No node is found by an id that none has.
pub proof fn law_node_is_missing(nodes: Seq<NodeView>, id: u32)
    requires
        forall|j: int| 0 <= j < nodes.len() ==> (#[trigger] nodes[j]).id != id,
    ensures
        node_with_id(nodes, id) is None,
{
    let wanted = |node: NodeView| node.id == id;
    assert forall|j: int| 0 <= j < nodes.len() implies !wanted(#[trigger] nodes[j]) by {}
    lemma_first_node(nodes, wanted, nodes.len() as int);
}

/// Whether a text is the one under a key, or there is neither.
pub open spec fn is_entry(
    told: Map<Seq<char>, Seq<char>>,
    key: Seq<char>,
    text: Option<Seq<char>>,
) -> bool {
    match text {
        Some(text) => told.contains_key(key) && told[key] == text,
        None => !told.contains_key(key),
    }
}

/// Whether an object tells a direction: by itself, or else by its properties.
pub open spec fn tells_direction(object: ObjectView, direction: PortDirection) -> bool {
    let told = normalized(object.props);
    if object.direction is Some && direction_of(object.direction->Some_0) is Some {
        direction_of(object.direction->Some_0) == Some(direction)
    } else {
        told.contains_key("port.direction"@) && direction_of(told["port.direction"@]) == Some(
            direction,
        )
    }
}

/// Whether a port has the path that the listing of its direction tells, or else
/// the one that the names of its node and of the port make up, or else none.
pub open spec fn has_told_path(
    id: u32,
    listed: Map<u32, Seq<char>>,
    node: NodeView,
    port: PortView,
) -> bool {
    if listed.contains_key(id) {
        port.path == Some(listed[id])
    } else if node.props.contains_key("node.name"@) && port.port_name is Some {
        port.path == Some(node.props["node.name"@] + ":"@ + port.port_name->Some_0)
    } else if node.props.contains_key("node.name"@) && port.object_path is Some {
        port.path == Some(node.props["node.name"@] + ":"@ + port.object_path->Some_0)
    } else {
        port.path is None
    }
}

/// Whether an object of the dump tells a port of a node.
pub open spec fn tells_port(
    object: ObjectView,
    output_paths: Map<u32, Seq<char>>,
    input_paths: Map<u32, Seq<char>>,
    node: NodeView,
    port: PortView,
) -> bool {
    let told = normalized(object.props);
    &&& object.kind == "PipeWire:Interface:Port"@
    &&& told.contains_key("node.id"@)
    &&& number_of(told["node.id"@]) == Some(node.id)
    &&& tells_direction(object, port.direction)
    &&& is_entry(told, "audio.channel"@, port.channel)
    &&& is_entry(told, "port.id"@, port.port_index)
    &&& is_entry(told, "port.name"@, port.port_name)
    &&& is_entry(told, "object.path"@, port.object_path)
    &&& port.direction == PortDirection::Output ==> has_told_path(
        object.id,
        output_paths,
        node,
        port,
    )
    &&& port.direction == PortDirection::Input ==> has_told_path(object.id, input_paths, node, port)
}

proof fn lemma_told_port(
    object: ObjectView,
    output_paths: Map<u32, Seq<char>>,
    input_paths: Map<u32, Seq<char>>,
    node: NodeView,
    port: PortView,
)
    ensures
        tells_port(object, output_paths, input_paths, node, port) <==> {
            &&& port_of(object, output_paths, input_paths) matches Some(told)
            &&& told.0 == node.id
            &&& completed(node.props, told.1) == port
        },
{
}

proof fn lemma_all_ports_push(
    objects: Seq<ObjectView>,
    object: ObjectView,
    output_paths: Map<u32, Seq<char>>,
    input_paths: Map<u32, Seq<char>>,
)
    ensures
        all_ports(objects.push(object), output_paths, input_paths) == match port_of(
            object,
            output_paths,
            input_paths,
        ) {
            Some(port) => all_ports(objects, output_paths, input_paths).push(port),
            None => all_ports(objects, output_paths, input_paths),
        },
{
    assert(objects.push(object).drop_last() =~= objects);
}

/// The ports of a node are those that the objects of the dump tell, with all that
/// these say of them.
pub proof fn law_collected_ports(
    objects: Seq<ObjectView>,
    output_paths: Map<u32, Seq<char>>,
    input_paths: Map<u32, Seq<char>>,
    k: int,
    port: PortView,
)
    requires
        0 <= k < collected(objects, output_paths, input_paths).len(),
    ensures
        ({
            let node = collected(objects, output_paths, input_paths)[k];
            node.ports.contains(port) <==> exists|i: int|
                0 <= i < objects.len() && tells_port(
                    #[trigger] objects[i],
                    output_paths,
                    input_paths,
                    node,
                    port,
                )
        }),
{
    let node = collected(objects, output_paths, input_paths)[k];
    let ports = all_ports(objects, output_paths, input_paths);
    let reading = |object: ObjectView| port_of(object, output_paths, input_paths);
    lemma_own_ports(ports, node.id, node.props, port);
    if node.ports.contains(port) {
        let j = choose|j: int|
            0 <= j < ports.len() && (#[trigger] ports[j]).0 == node.id && completed(
                node.props,
                ports[j].1,
            ) == port;
        assert(ports.contains(ports[j]));
        objects.lemma_filter_map_contains(reading, ports[j]);
        let object = choose|t: ObjectView| #[trigger]
            objects.contains(t) && reading(t) == Some(ports[j]);
        let i = choose|i: int| 0 <= i < objects.len() && objects[i] == object;
        lemma_told_port(objects[i], output_paths, input_paths, node, port);
        assert(tells_port(objects[i], output_paths, input_paths, node, port));
    }
    if exists|i: int|
        0 <= i < objects.len() && tells_port(
            #[trigger] objects[i],
            output_paths,
            input_paths,
            node,
            port,
        ) {
        let i = choose|i: int|
            0 <= i < objects.len() && tells_port(
                #[trigger] objects[i],
                output_paths,
                input_paths,
                node,
                port,
            );
        lemma_told_port(objects[i], output_paths, input_paths, node, port);
        let told = port_of(objects[i], output_paths, input_paths)->Some_0;
        lemma_read_in(objects, reading, i);
        assert(ports.contains(told));
        let j = choose|j: int| 0 <= j < ports.len() && ports[j] == told;
        assert(ports[j].0 == node.id);
    }
}

proof fn lemma_own_ports_push(
    ports: Seq<(u32, PortView)>,
    port: (u32, PortView),
    id: u32,
    props: Map<Seq<char>, Seq<char>>,
)
    ensures
        own_ports(ports.push(port), id, props) == if port.0 == id {
            own_ports(ports, id, props).push(completed(props, port.1))
        } else {
            own_ports(ports, id, props)
        },
{
    assert forall|id: u32| #[trigger] own_ports(ports.push(port), id, props) == if port.0 == id {
        own_ports(ports, id, props).push(completed(props, port.1))
    } else {
        own_ports(ports, id, props)
    } by {
        let own = |port: (u32, PortView)| port.0 == id;
        ports.lemma_filter_push(port, own);
        if port.0 == id {
            assert(own_ports(ports.push(port), id, props) =~= own_ports(ports, id, props).push(
                completed(props, port.1),
            ));
        } else {
            assert(own_ports(ports.push(port), id, props) =~= own_ports(ports, id, props));
        }
    }
}

proof fn lemma_own_ports(
    ports: Seq<(u32, PortView)>,
    id: u32,
    props: Map<Seq<char>, Seq<char>>,
    port: PortView,
)
    ensures
        own_ports(ports, id, props).contains(port) <==> exists|j: int|
            0 <= j < ports.len() && (#[trigger] ports[j]).0 == id && completed(props, ports[j].1)
                == port,
    decreases ports.len(),
{
    if ports.len() == 0 {
        reveal(Seq::filter);
        assert(own_ports(ports, id, props) =~= seq![]);
    } else {
        let front = ports.drop_last();
        let last = ports.last();
        assert(front.push(last) =~= ports);
        lemma_own_ports(front, id, props, port);
        lemma_own_ports_push(front, last, id, props);
        let less = own_ports(front, id, props);
        let all = own_ports(ports, id, props);
        if all.contains(port) {
            let a = choose|a: int| 0 <= a < all.len() && all[a] == port;
            if a < less.len() {
                assert(less[a] == port);
                let j = choose|j: int|
                    0 <= j < front.len() && (#[trigger] front[j]).0 == id && completed(
                        props,
                        front[j].1,
                    ) == port;
                assert(ports[j] == front[j]);
            } else {
                assert(ports[ports.len() - 1] == last);
            }
        }
        if exists|j: int|
            0 <= j < ports.len() && (#[trigger] ports[j]).0 == id && completed(props, ports[j].1)
                == port {
            let j = choose|j: int|
                0 <= j < ports.len() && (#[trigger] ports[j]).0 == id && completed(
                    props,
                    ports[j].1,
                ) == port;
            if j < front.len() {
                assert(front[j] == ports[j]);
                let a = choose|a: int| 0 <= a < less.len() && less[a] == port;
                assert(all[a] == port);
            } else {
                assert(all.last() == port);
            }
        }
    }
}

proof fn lemma_read_in(
    objects: Seq<ObjectView>,
    reading: spec_fn(ObjectView) -> Option<(u32, PortView)>,
    i: int,
)
    requires
        0 <= i < objects.len(),
        reading(objects[i]) is Some,
    ensures
        objects.filter_map(reading).contains(reading(objects[i])->Some_0),
    decreases objects.len(),
{
    let front = objects.drop_last();
    let told = reading(objects[i])->Some_0;
    let all = objects.filter_map(reading);
    if i < objects.len() - 1 {
        lemma_read_in(front, reading, i);
        assert(front[i] == objects[i]);
        let j = choose|j: int|
            0 <= j < front.filter_map(reading).len() && front.filter_map(reading)[j] == told;
        assert(all[j] == told);
    } else {
        assert(all.last() == told);
    }
}

/// An object that comes last and tells a port of a node puts it behind the other
/// ports of the node. It leaves the other nodes, and all that is told of them, as
/// they are.
pub proof fn law_ports_come_in_order(
    objects: Seq<ObjectView>,
    object: ObjectView,
    output_paths: Map<u32, Seq<char>>,
    input_paths: Map<u32, Seq<char>>,
    k: int,
    port: PortView,
)
    requires
        object.kind != "PipeWire:Interface:Node"@,
        0 <= k < collected(objects, output_paths, input_paths).len(),
    ensures
        ({
            let before = collected(objects, output_paths, input_paths);
            let after = collected(objects.push(object), output_paths, input_paths);
            &&& after.len() == before.len()
            &&& after[k].id == before[k].id
            &&& after[k].props == before[k].props
            &&& tells_port(object, output_paths, input_paths, before[k], port) ==> after[k].ports
                == before[k].ports.push(port)
            &&& after[k].ports == before[k].ports || exists|p: PortView|
                tells_port(object, output_paths, input_paths, before[k], p)
        }),
{
    let before = collected(objects, output_paths, input_paths);
    let more = objects.push(object);
    lemma_node_ids_push(objects, object);
    lemma_all_ports_push(objects, object, output_paths, input_paths);
    let id = before[k].id;
    assert(more.drop_last() =~= objects);
    assert(node_props(more, id) == node_props(objects, id));
    let ports = all_ports(objects, output_paths, input_paths);
    let props = before[k].props;
    lemma_told_port(object, output_paths, input_paths, before[k], port);
    if let Some(told) = port_of(object, output_paths, input_paths) {
        let last = completed(props, told.1);
        lemma_own_ports_push(ports, told, id, props);
        lemma_told_port(object, output_paths, input_paths, before[k], last);
        if told.0 == id {
            assert(tells_port(object, output_paths, input_paths, before[k], last));
        }
    }
}

/// The ids of nodes, in their order.
pub open spec fn ids_of(nodes: Seq<NodeView>) -> Seq<u32> {
    Seq::new(nodes.len(), |k: int| nodes[k].id)
}

/// Whether the dump has a node with an id.
pub open spec fn tells_node(objects: Seq<ObjectView>, id: u32) -> bool {
    exists|i: int|
        0 <= i < objects.len() && (#[trigger] objects[i]).kind == "PipeWire:Interface:Node"@
            && objects[i].id == id
}

proof fn lemma_node_ids(objects: Seq<ObjectView>, id: u32)
    ensures
        node_ids(objects).contains(id) <==> tells_node(objects, id),
    decreases objects.len(),
{
    if objects.len() == 0 {
        reveal(Seq::filter);
        assert(node_ids(objects) =~= seq![]);
    } else {
        let front = objects.drop_last();
        let last = objects.last();
        assert(front.push(last) =~= objects);
        lemma_node_ids_push(front, last);
        lemma_node_ids(front, id);
        let ids = node_ids(front);
        if tells_node(objects, id) {
            let i = choose|i: int|
                0 <= i < objects.len() && (#[trigger] objects[i]).kind
                    == "PipeWire:Interface:Node"@ && objects[i].id == id;
            if i < front.len() {
                assert(front[i] == objects[i]);
                let j = choose|j: int| 0 <= j < ids.len() && ids[j] == id;
                assert(node_ids(objects)[j] == id);
            } else {
                assert(node_ids(objects).last() == id);
            }
        }
        if node_ids(objects).contains(id) {
            let j = choose|j: int| 0 <= j < node_ids(objects).len() && node_ids(objects)[j] == id;
            if j < ids.len() {
                assert(ids[j] == id);
                let i = choose|i: int|
                    0 <= i < front.len() && (#[trigger] front[i]).kind
                        == "PipeWire:Interface:Node"@ && front[i].id == id;
                assert(objects[i] == front[i]);
            } else {
                assert(objects[objects.len() - 1] == last);
            }
        }
    }
}

/// The nodes come in the order in which the dump first tells their ids, each
/// once, and nothing else comes.
pub proof fn law_nodes_come_in_order(
    objects: Seq<ObjectView>,
    object: ObjectView,
    output_paths: Map<u32, Seq<char>>,
    input_paths: Map<u32, Seq<char>>,
)
    ensures
        collected(seq![], output_paths, input_paths).len() == 0,
        ({
            let before = ids_of(collected(objects, output_paths, input_paths));
            let after = ids_of(collected(objects.push(object), output_paths, input_paths));
            after == if object.kind == "PipeWire:Interface:Node"@ && !tells_node(
                objects,
                object.id,
            ) {
                before.push(object.id)
            } else {
                before
            }
        }),
{
    let ids = node_ids(objects);
    lemma_node_ids_push(objects, object);
    lemma_node_ids(objects, object.id);
    assert(ids.push(object.id).drop_last() =~= ids);
    assert(ids_of(collected(objects, output_paths, input_paths)) =~= deduped(ids));
    assert(ids_of(collected(objects.push(object), output_paths, input_paths)) =~= deduped(
        node_ids(objects.push(object)),
    ));
    let none = Seq::<ObjectView>::empty();
    assert(node_ids(none) =~= seq![]) by {
        reveal(Seq::filter);
    }
    assert(deduped(seq![]) =~= seq![]);
}

/// A node has the properties that the last object with its id tells.
pub proof fn law_node_properties(
    objects: Seq<ObjectView>,
    output_paths: Map<u32, Seq<char>>,
    input_paths: Map<u32, Seq<char>>,
    i: int,
    k: int,
)
    requires
        0 <= i < objects.len(),
        objects[i].kind == "PipeWire:Interface:Node"@,
        forall|j: int|
            i < j < objects.len() && (#[trigger] objects[j]).kind == "PipeWire:Interface:Node"@
                ==> objects[j].id != objects[i].id,
        0 <= k < collected(objects, output_paths, input_paths).len(),
        collected(objects, output_paths, input_paths)[k].id == objects[i].id,
    ensures
        collected(objects, output_paths, input_paths)[k].props == normalized(objects[i].props),
{
    lemma_last_props(objects, i);
}

proof fn lemma_last_props(objects: Seq<ObjectView>, i: int)
    requires
        0 <= i < objects.len(),
        objects[i].kind == "PipeWire:Interface:Node"@,
        forall|j: int|
            i < j < objects.len() && (#[trigger] objects[j]).kind == "PipeWire:Interface:Node"@
                ==> objects[j].id != objects[i].id,
    ensures
        node_props(objects, objects[i].id) == normalized(objects[i].props),
    decreases objects.len(),
{
    if i < objects.len() - 1 {
        let front = objects.drop_last();
        assert(front[i] == objects[i]);
        assert(objects[objects.len() - 1] == objects.last());
        assert forall|j: int|
            i < j < front.len() && (#[trigger] front[j]).kind
                == "PipeWire:Interface:Node"@ implies front[j].id != front[i].id by {
            assert(front[j] == objects[j]);
        }
        lemma_last_props(front, i);
    }
}

} // verus!
