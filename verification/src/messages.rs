//! What an operation has to say for the log.
use vstd::prelude::*;

use crate::logger::Level;
use crate::models::{Route, RouteView};
use crate::plan::SkipReason;
use crate::text::{decimal, number_text};

verus! {

/// A message for the log.
#[derive(Debug, PartialEq, Eq)]
pub struct Message {
    pub level: Level,
    pub text: String,
}

/// A [`Message`] with its text as a sequence of characters.
pub struct MessageView {
    pub level: Level,
    pub text: Seq<char>,
}

impl View for Message {
    type V = MessageView;

    open spec fn view(&self) -> MessageView {
        MessageView { level: self.level, text: self.text@ }
    }
}

impl DeepView for Message {
    type V = MessageView;

    open spec fn deep_view(&self) -> MessageView {
        self@
    }
}

/// What is said of a sink that is about to be made.
pub open spec fn creating_view(sink_name: Seq<char>) -> MessageView {
    MessageView { level: Level::Info, text: "[patchbay] creating virtual sink "@ + sink_name }
}

/// What is said of a new sink that has shown up.
pub open spec fn ready_view(sink_name: Seq<char>, node_id: u32) -> MessageView {
    MessageView {
        level: Level::Info,
        text: "[patchbay] virtual sink ready: "@ + sink_name + " ("@ + decimal(node_id as nat)
            + ")"@,
    }
}

/// What is said of a graph that could not be read while a sink is awaited.
pub open spec fn transient_view(error: Seq<char>) -> MessageView {
    MessageView {
        level: Level::Trace,
        text: "[patchbay] transient error while waiting for sink: "@ + error,
    }
}

/// What is said of a link that is about to be made.
pub open spec fn linking_view(route: RouteView) -> MessageView {
    MessageView {
        level: Level::Trace,
        text: "[patchbay] linking "@ + route.output_path + " -> "@ + route.input_path,
    }
}

/// What is said of a link that could not be made or removed.
pub open spec fn link_failure_view(
    head: Seq<char>,
    route: RouteView,
    error: Seq<char>,
) -> MessageView {
    MessageView {
        level: Level::Warn,
        text: head + route.output_path + " -> "@ + route.input_path + ": "@ + error,
    }
}

/// What is said of a module that could not be taken away.
pub open spec fn unload_failure_view(id: u32, error: Seq<char>) -> MessageView {
    MessageView {
        level: Level::Warn,
        text: "[patchbay] failed to unload module "@ + decimal(id as nat) + ": "@ + error,
    }
}

/// What is said of a chosen node that is passed over.
pub open spec fn skip_view(id: u32, reason: SkipReason) -> MessageView {
    match reason {
        SkipReason::Sink => MessageView {
            level: Level::Warn,
            text: "[patchbay] refusing to link the virtual sink to itself"@,
        },
        SkipReason::Missing => MessageView {
            level: Level::Warn,
            text: "[patchbay] node "@ + decimal(id as nat) + " does not exist"@,
        },
        SkipReason::Own => MessageView {
            level: Level::Warn,
            text: "[patchbay] refusing to route helper-owned virtual node "@ + decimal(id as nat),
        },
        SkipReason::NoOutputs => MessageView {
            level: Level::Debug,
            text: "[patchbay] node "@ + decimal(id as nat) + " has no usable output ports"@,
        },
    }
}

/// What is said of the chosen nodes that are passed over.
pub open spec fn skip_views(passed_over: Seq<(u32, SkipReason)>) -> Seq<MessageView> {
    passed_over.map_values(|entry: (u32, SkipReason)| skip_view(entry.0, entry.1))
}

/// Says that a sink is about to be made.
pub fn creating_message(sink_name: &str) -> (message: Message)
    ensures
        message@ == creating_view(sink_name@),
{
    let mut text = "[patchbay] creating virtual sink ".to_string();
    text.append(sink_name);
    Message { level: Level::Info, text }
}

/// Says that a new sink has shown up.
pub fn ready_message(sink_name: &str, node_id: u32) -> (message: Message)
    ensures
        message@ == ready_view(sink_name@, node_id),
{
    let mut text = "[patchbay] virtual sink ready: ".to_string();
    text.append(sink_name);
    text.append(" (");
    text.append(number_text(node_id as u64).as_str());
    text.append(")");
    Message { level: Level::Info, text }
}

/// Says that the graph could not be read while a sink is awaited.
pub fn transient_message(error: &str) -> (message: Message)
    ensures
        message@ == transient_view(error@),
{
    let mut text = "[patchbay] transient error while waiting for sink: ".to_string();
    text.append(error);
    Message { level: Level::Trace, text }
}

/// Says that a link is about to be made.
pub fn linking_message(route: &Route) -> (message: Message)
    ensures
        message@ == linking_view(route@),
{
    let mut text = "[patchbay] linking ".to_string();
    text.append(route.output_path.as_str());
    text.append(" -> ");
    text.append(route.input_path.as_str());
    Message { level: Level::Trace, text }
}

/// Says that a link could not be made or removed.
pub fn link_failure_message(head: &str, route: &Route, error: &str) -> (message: Message)
    ensures
        message@ == link_failure_view(head@, route@, error@),
{
    let mut text = head.to_string();
    text.append(route.output_path.as_str());
    text.append(" -> ");
    text.append(route.input_path.as_str());
    text.append(": ");
    text.append(error);
    Message { level: Level::Warn, text }
}

/// Says that a module could not be taken away.
pub fn unload_failure_message(id: u32, error: &str) -> (message: Message)
    ensures
        message@ == unload_failure_view(id, error@),
{
    let mut text = "[patchbay] failed to unload module ".to_string();
    text.append(number_text(id as u64).as_str());
    text.append(": ");
    text.append(error);
    Message { level: Level::Warn, text }
}

/// Says that a chosen node is passed over.
pub fn skip_message(id: u32, reason: SkipReason) -> (message: Message)
    ensures
        message@ == skip_view(id, reason),
{
    match reason {
        SkipReason::Sink => Message {
            level: Level::Warn,
            text: "[patchbay] refusing to link the virtual sink to itself".to_string(),
        },
        SkipReason::Missing => {
            let mut text = "[patchbay] node ".to_string();
            text.append(number_text(id as u64).as_str());
            text.append(" does not exist");
            Message { level: Level::Warn, text }
        },
        SkipReason::Own => {
            let mut text = "[patchbay] refusing to route helper-owned virtual node ".to_string();
            text.append(number_text(id as u64).as_str());
            Message { level: Level::Warn, text }
        },
        SkipReason::NoOutputs => {
            let mut text = "[patchbay] node ".to_string();
            text.append(number_text(id as u64).as_str());
            text.append(" has no usable output ports");
            Message { level: Level::Debug, text }
        },
    }
}

/// Says which chosen nodes are passed over.
pub fn skip_messages(passed_over: &Vec<(u32, SkipReason)>) -> (messages: Vec<Message>)
    ensures
        messages.deep_view() == skip_views(passed_over@),
{
    let ghost all = skip_views(passed_over@);
    let mut messages: Vec<Message> = Vec::new();
    let mut i: usize = 0;
    assert(messages.deep_view() =~= all.take(0));
    while i < passed_over.len()
        invariant
            i <= passed_over.len(),
            all == skip_views(passed_over@),
            messages.deep_view() == all.take(i as int),
        decreases passed_over.len() - i,
    {
        let ghost before = messages.deep_view();
        let (id, reason) = passed_over[i];
        messages.push(skip_message(id, reason));
        i += 1;
        assert(messages.deep_view() =~= before.push(all[i - 1]));
        assert(all.take(i as int) =~= before.push(all[i - 1]));
    }
    assert(all.take(i as int) =~= all);
    messages
}

/// What is said of the sink.
pub proof fn law_sink_messages(sink_name: Seq<char>, node_id: u32, error: Seq<char>)
    ensures
        creating_view(sink_name).level == Level::Info,
        creating_view(sink_name).text == "[patchbay] creating virtual sink "@ + sink_name,
        ready_view(sink_name, node_id).level == Level::Info,
        ready_view(sink_name, node_id).text == "[patchbay] virtual sink ready: "@ + sink_name
            + " ("@ + decimal(node_id as nat) + ")"@,
        transient_view(error).level == Level::Trace,
        transient_view(error).text == "[patchbay] transient error while waiting for sink: "@
            + error,
{
}

/// What is said of links and modules.
pub proof fn law_link_messages(head: Seq<char>, route: RouteView, id: u32, error: Seq<char>)
    ensures
        linking_view(route).level == Level::Trace,
        linking_view(route).text == "[patchbay] linking "@ + route.output_path + " -> "@
            + route.input_path,
        link_failure_view(head, route, error).level == Level::Warn,
        link_failure_view(head, route, error).text == head + route.output_path + " -> "@
            + route.input_path + ": "@ + error,
        unload_failure_view(id, error).level == Level::Warn,
        unload_failure_view(id, error).text == "[patchbay] failed to unload module "@ + decimal(
            id as nat,
        ) + ": "@ + error,
{
}

/// What is said of a node that is passed over. One that merely has nothing to be
/// heard of is no reason to warn.
pub proof fn law_skip_messages(id: u32, passed_over: Seq<(u32, SkipReason)>, i: int)
    ensures
        skip_view(id, SkipReason::Sink).level == Level::Warn,
        skip_view(id, SkipReason::Sink).text
            == "[patchbay] refusing to link the virtual sink to itself"@,
        skip_view(id, SkipReason::Missing).level == Level::Warn,
        skip_view(id, SkipReason::Missing).text == "[patchbay] node "@ + decimal(id as nat)
            + " does not exist"@,
        skip_view(id, SkipReason::Own).level == Level::Warn,
        skip_view(id, SkipReason::Own).text
            == "[patchbay] refusing to route helper-owned virtual node "@ + decimal(id as nat),
        skip_view(id, SkipReason::NoOutputs).level == Level::Debug,
        skip_view(id, SkipReason::NoOutputs).text == "[patchbay] node "@ + decimal(id as nat)
            + " has no usable output ports"@,
        skip_views(passed_over).len() == passed_over.len(),
        0 <= i < passed_over.len() ==> skip_views(passed_over)[i] == skip_view(
            passed_over[i].0,
            passed_over[i].1,
        ),
{
}

} // verus!
