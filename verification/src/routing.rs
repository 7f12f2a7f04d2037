//! Which ports are linked with which.
use vstd::prelude::*;

use crate::models::{PortRecord, PortView};
use crate::text::{same_optional_text, same_text};

verus! {

/// The channel of a port; `UNK` when it has none.
pub open spec fn channel_of(port: PortView) -> Seq<char> {
    match port.channel {
        Some(channel) => channel,
        None => "UNK"@,
    }
}

/// Whether an output is linked with an input. A mono output goes to every
/// input. Otherwise the channels decide, and where one of them is unknown the
/// port indices.
pub open spec fn ports_match(mono: bool, output: PortView, input: PortView) -> bool {
    if mono {
        true
    } else if channel_of(output) == "UNK"@ || channel_of(input) == "UNK"@ {
        output.port_index == input.port_index
    } else {
        channel_of(output) == channel_of(input)
    }
}

/// The inputs that `output` is linked with, each paired with it.
pub open spec fn mapped_row(mono: bool, output: PortView, inputs: Seq<PortView>) -> Seq<
    (PortView, PortView),
> {
    inputs.filter(|input: PortView| ports_match(mono, output, input)).map_values(
        |input: PortView| (output, input),
    )
}

/// The pairs of ports to link: output by output, and for each output input by
/// input. A single output counts as mono.
pub open spec fn mapped(outputs: Seq<PortView>, inputs: Seq<PortView>) -> Seq<
    (PortView, PortView),
> {
    outputs.flat_map(|output: PortView| mapped_row(outputs.len() == 1, output, inputs))
}

fn channel_name(port: &PortRecord) -> (name: &str)
    ensures
        name@ == channel_of(port@),
{
    match &port.channel {
        Some(channel) => channel.as_str(),
        None => "UNK",
    }
}

fn channels_match(mono: bool, output: &PortRecord, input: &PortRecord) -> (yes: bool)
    ensures
        yes == ports_match(mono, output@, input@),
{
    if mono {
        return true;
    }
    let out_channel = channel_name(output);
    let in_channel = channel_name(input);
    if same_text(out_channel, "UNK") || same_text(in_channel, "UNK") {
        same_optional_text(&output.port_index, &input.port_index)
    } else {
        same_text(out_channel, in_channel)
    }
}

/// Pairs the ports that belong together.
pub fn map_ports(outputs: &[PortRecord], inputs: &[PortRecord]) -> (pairs: Vec<
    (PortRecord, PortRecord),
>)
    ensures
        pairs.deep_view() == mapped(outputs.deep_view(), inputs.deep_view()),
{
    let mono = outputs.len() == 1;
    let ghost outs = outputs.deep_view();
    let ghost ins = inputs.deep_view();
    let ghost row = |output: PortView| mapped_row(mono, output, ins);
    let mut pairs: Vec<(PortRecord, PortRecord)> = Vec::new();
    let mut i: usize = 0;
    proof {
        assert(outs.take(0).map_values(row) =~= seq![]);
        assert(outs.take(0).flat_map(row) =~= seq![]);
        assert(pairs.deep_view() =~= seq![]);
    }
    while i < outputs.len()
        invariant
            i <= outputs.len(),
            mono == (outputs.len() == 1),
            outs == outputs.deep_view(),
            ins == inputs.deep_view(),
            row == (|output: PortView| mapped_row(mono, output, ins)),
            pairs.deep_view() == outs.take(i as int).flat_map(row),
        decreases outputs.len() - i,
    {
        let output = &outputs[i];
        let ghost before = pairs.deep_view();
        let ghost wanted = |input: PortView| ports_match(mono, output@, input);
        let ghost pair = |input: PortView| (output@, input);
        let mut j: usize = 0;
        proof {
            assert(ins.take(0).filter(wanted) =~= seq![]) by {
                reveal(Seq::filter);
            }
            assert(before + ins.take(0).filter(wanted).map_values(pair) =~= before);
        }
        while j < inputs.len()
            invariant
                j <= inputs.len(),
                ins == inputs.deep_view(),
                wanted == (|input: PortView| ports_match(mono, output@, input)),
                pair == (|input: PortView| (output@, input)),
                pairs.deep_view() == before + ins.take(j as int).filter(wanted).map_values(pair),
            decreases inputs.len() - j,
        {
            let input = &inputs[j];
            let ghost current = pairs.deep_view();
            let ghost chosen = ins.take(j as int).filter(wanted);
            if channels_match(mono, output, input) {
                pairs.push((output.clone(), input.clone()));
                assert(pairs.deep_view() =~= current.push((output@, input@)));
                assert(before + chosen.push(input@).map_values(pair) =~= current.push(
                    (output@, input@),
                ));
            }
            j += 1;
            proof {
                ins.take(j - 1).lemma_filter_push(ins[j - 1], wanted);
                assert(ins.take(j as int) =~= ins.take(j - 1).push(ins[j - 1]));
            }
        }
        i += 1;
        proof {
            assert(ins.take(j as int) =~= ins);
            outs.lemma_flat_map_take_append(row, i - 1);
        }
    }
    proof {
        assert(outs.take(i as int) =~= outs);
        assert(row == (|output: PortView| mapped_row(outs.len() == 1, output, ins)));
    }
    pairs
}

/// A single output is linked with every input, in the order of the inputs.
pub proof fn law_mono_reaches_every_input(output: PortView, inputs: Seq<PortView>)
    ensures
        mapped(seq![output], inputs) == inputs.map_values(|input: PortView| (output, input)),
{
    let outputs = seq![output];
    let all = |input: PortView| ports_match(true, output, input);
    outputs.lemma_flat_map_singleton(
        |output: PortView| mapped_row(outputs.len() == 1, output, inputs),
    );
    lemma_filter_keeps_all(inputs, all);
    assert(mapped_row(true, output, inputs) =~= inputs.map_values(
        |input: PortView| (output, input),
    ));
}

/// A filter that refuses nothing changes nothing.
pub proof fn lemma_filter_keeps_all(ports: Seq<PortView>, wanted: spec_fn(PortView) -> bool)
    requires
        forall|i: int| 0 <= i < ports.len() ==> wanted(#[trigger] ports[i]),
    ensures
        ports.filter(wanted) == ports,
    decreases ports.len(),
{
    reveal(Seq::filter);
    if ports.len() > 0 {
        lemma_filter_keeps_all(ports.drop_last(), wanted);
        assert(ports =~= ports.drop_last().push(ports.last()));
    }
}

/// A pair is mapped exactly when its output is one of the outputs, its input
/// is one of the inputs, and the two belong together.
pub proof fn law_mapped_pairs(
    outputs: Seq<PortView>,
    inputs: Seq<PortView>,
    output: PortView,
    input: PortView,
)
    ensures
        mapped(outputs, inputs).contains((output, input)) <==> {
            &&& outputs.contains(output)
            &&& inputs.contains(input)
            &&& ports_match(outputs.len() == 1, output, input)
        },
{
    let mono = outputs.len() == 1;
    let row = |out: PortView| mapped_row(mono, out, inputs);
    lemma_mapped_pairs(outputs, inputs, mono, output, input);
    assert(mapped(outputs, inputs) == outputs.flat_map(row)) by {
        assert(row == (|out: PortView| mapped_row(outputs.len() == 1, out, inputs)));
    }
}

proof fn lemma_mapped_pairs(
    outputs: Seq<PortView>,
    inputs: Seq<PortView>,
    mono: bool,
    output: PortView,
    input: PortView,
)
    ensures
        outputs.flat_map(|out: PortView| mapped_row(mono, out, inputs)).contains((output, input))
            <==> {
            &&& outputs.contains(output)
            &&& inputs.contains(input)
            &&& ports_match(mono, output, input)
        },
    decreases outputs.len(),
{
    let row = |out: PortView| mapped_row(mono, out, inputs);
    if outputs.len() == 0 {
        assert(outputs.map_values(row) =~= seq![]);
        assert(outputs.flat_map(row) =~= seq![]);
    } else {
        let front = outputs.drop_last();
        let last = outputs.last();
        lemma_mapped_pairs(front, inputs, mono, output, input);
        front.lemma_flat_map_push(row, last);
        assert(front.push(last) =~= outputs);
        let tail = mapped_row(mono, last, inputs);
        let all = front.flat_map(row) + tail;
        assert(all.contains((output, input)) <==> front.flat_map(row).contains((output, input))
            || tail.contains((output, input))) by {
            broadcast use vstd::seq_lib::group_seq_properties;
        }
        lemma_row_pairs(mono, last, inputs, output, input);
        assert(outputs.contains(output) <==> front.contains(output) || last == output) by {
            broadcast use vstd::seq_lib::group_seq_properties;
        }
    }
}

proof fn lemma_row_pairs(
    mono: bool,
    last: PortView,
    inputs: Seq<PortView>,
    output: PortView,
    input: PortView,
)
    ensures
        mapped_row(mono, last, inputs).contains((output, input)) <==> {
            &&& last == output
            &&& inputs.contains(input)
            &&& ports_match(mono, output, input)
        },
{
    let wanted = |input: PortView| ports_match(mono, last, input);
    let pair = |input: PortView| (last, input);
    let chosen = inputs.filter(wanted);
    let row = chosen.map_values(pair);
    broadcast use {Seq::lemma_filter_contains_rev, Seq::lemma_filter_contains};
    if row.contains((output, input)) {
        let i = choose|i: int| 0 <= i < row.len() && row[i] == (output, input);
        assert(row[i] == pair(chosen[i]));
        assert(inputs.filter(wanted).contains(chosen[i]));
        assert(inputs.contains(chosen[i]));
    }
    if last == output && inputs.contains(input) && ports_match(mono, output, input) {
        let k = choose|k: int| 0 <= k < inputs.len() && inputs[k] == input;
        assert(wanted(inputs[k]));
        assert(chosen.contains(input));
        let i = choose|i: int| 0 <= i < chosen.len() && chosen[i] == input;
        assert(row[i] == (output, input));
    }
}

/// The ids in the order in which they first come, each once.
pub open spec fn deduped(ids: Seq<u32>) -> Seq<u32>
    decreases ids.len(),
{
    if ids.len() == 0 {
        seq![]
    } else if ids.drop_last().contains(ids.last()) {
        deduped(ids.drop_last())
    } else {
        deduped(ids.drop_last()).push(ids.last())
    }
}

/// Deduping keeps exactly the ids that were there, and each of them once.
pub proof fn law_deduped_ids(ids: Seq<u32>)
    ensures
        deduped(ids).no_duplicates(),
        forall|id: u32| deduped(ids).contains(id) <==> ids.contains(id),
    decreases ids.len(),
{
    broadcast use vstd::seq_lib::group_seq_properties;
    if ids.len() > 0 {
        law_deduped_ids(ids.drop_last());
        assert(ids =~= ids.drop_last().push(ids.last()));
    }
}

/// What has no id twice stays as it is.
pub proof fn law_deduped_is_stable(ids: Seq<u32>)
    requires
        ids.no_duplicates(),
    ensures
        deduped(ids) == ids,
    decreases ids.len(),
{
    if ids.len() > 0 {
        let front = ids.drop_last();
        if front.contains(ids.last()) {
            let i = choose|i: int| 0 <= i < front.len() && front[i] == ids.last();
            assert(ids[i] == ids[ids.len() - 1]);
        }
        law_deduped_is_stable(front);
        assert(ids =~= front.push(ids.last()));
    }
}

/// Whether `id` is one of `ids`.
pub fn has_id(ids: &Vec<u32>, id: u32) -> (yes: bool)
    ensures
        yes == ids@.contains(id),
{
    let mut i: usize = 0;
    while i < ids.len()
        invariant
            i <= ids.len(),
            forall|j: int| 0 <= j < i ==> ids@[j] != id,
        decreases ids.len() - i,
    {
        if ids[i] == id {
            return true;
        }
        i += 1;
    }
    false
}

/// Drops every id that came before.
pub fn dedupe_node_ids(node_ids: Vec<u32>) -> (ids: Vec<u32>)
    ensures
        ids@ == deduped(node_ids@),
{
    let mut ids: Vec<u32> = Vec::new();
    let mut i: usize = 0;
    assert(node_ids@.take(0) =~= seq![]);
    while i < node_ids.len()
        invariant
            i <= node_ids.len(),
            ids@ == deduped(node_ids@.take(i as int)),
        decreases node_ids.len() - i,
    {
        let id = node_ids[i];
        let ghost seen = node_ids@.take(i as int);
        proof {
            assert(node_ids@.take(i + 1).drop_last() =~= seen);
            law_deduped_ids(seen);
        }
        if !has_id(&ids, id) {
            ids.push(id);
        }
        i += 1;
    }
    assert(node_ids@.take(i as int) =~= node_ids@);
    ids
}

/// Where there are several outputs, and the channels of an output and an input
/// are both told, the two are linked exactly when the channels are the same.
/// Nothing else about the ports plays a part.
pub proof fn law_told_channels_decide(outputs: Seq<PortView>, inputs: Seq<PortView>, o: int, i: int)
    requires
        outputs.len() >= 2,
        0 <= o < outputs.len(),
        0 <= i < inputs.len(),
        outputs[o].channel is Some,
        inputs[i].channel is Some,
        outputs[o].channel != Some("UNK"@),
        inputs[i].channel != Some("UNK"@),
    ensures
        mapped(outputs, inputs).contains((outputs[o], inputs[i])) <==> outputs[o].channel
            == inputs[i].channel,
{
    law_mapped_pairs(outputs, inputs, outputs[o], inputs[i]);
}

/// Where there are several outputs, and the channel of an output or of an input
/// is not told or told as unknown, the two are linked exactly when their port
/// indices are the same or both are missing.
pub proof fn law_untold_channels_leave_it_to_the_index(
    outputs: Seq<PortView>,
    inputs: Seq<PortView>,
    o: int,
    i: int,
)
    requires
        outputs.len() >= 2,
        0 <= o < outputs.len(),
        0 <= i < inputs.len(),
        outputs[o].channel is None || outputs[o].channel == Some("UNK"@) || inputs[i].channel is None
            || inputs[i].channel == Some("UNK"@),
    ensures
        mapped(outputs, inputs).contains((outputs[o], inputs[i])) <==> outputs[o].port_index
            == inputs[i].port_index,
{
    law_mapped_pairs(outputs, inputs, outputs[o], inputs[i]);
}

/// A single output is linked with an input whatever the two ports are.
pub proof fn law_single_output_goes_everywhere(output: PortView, inputs: Seq<PortView>, i: int)
    requires
        0 <= i < inputs.len(),
    ensures
        mapped(seq![output], inputs).contains((output, inputs[i])),
{
    assert(seq![output][0] == output);
    law_mapped_pairs(seq![output], inputs, output, inputs[i]);
}

/// Only outputs are linked, and only with inputs.
pub proof fn law_only_given_ports_are_linked(
    outputs: Seq<PortView>,
    inputs: Seq<PortView>,
    output: PortView,
    input: PortView,
)
    requires
        mapped(outputs, inputs).contains((output, input)),
    ensures
        outputs.contains(output),
        inputs.contains(input),
{
    law_mapped_pairs(outputs, inputs, output, input);
}

/// An id that is chosen once more is dropped, and a new one is put at the end.
pub proof fn law_deduping_goes_by_first_choice(ids: Seq<u32>, id: u32)
    ensures
        ids.contains(id) ==> deduped(ids.push(id)) == deduped(ids),
        !ids.contains(id) ==> deduped(ids.push(id)) == deduped(ids).push(id),
{
    assert(ids.push(id).drop_last() =~= ids);
}

/// The pairs of an output that is added come behind those of the others, and each
/// input that is added comes last among those of an output. So the pairs go output
/// by output, and input by input.
pub proof fn law_pairs_come_in_order(
    outputs: Seq<PortView>,
    output: PortView,
    inputs: Seq<PortView>,
    input: PortView,
    mono: bool,
)
    ensures
        outputs.len() >= 2 ==> mapped(outputs.push(output), inputs) == mapped(outputs, inputs)
            + mapped_row(false, output, inputs),
        mapped_row(mono, output, seq![]).len() == 0,
        mapped_row(mono, output, inputs.push(input)) == if ports_match(mono, output, input) {
            mapped_row(mono, output, inputs).push((output, input))
        } else {
            mapped_row(mono, output, inputs)
        },
{
    let row = |out: PortView| mapped_row(false, out, inputs);
    outputs.lemma_flat_map_push(row, output);
    if outputs.len() >= 2 {
        assert(row == (|out: PortView| mapped_row(outputs.len() == 1, out, inputs)));
        let more = outputs.push(output);
        assert(row == (|out: PortView| mapped_row(more.len() == 1, out, inputs)));
    }
    let wanted = |input: PortView| ports_match(mono, output, input);
    inputs.lemma_filter_push(input, wanted);
    assert(Seq::<PortView>::empty().filter(wanted) =~= seq![]) by {
        reveal(Seq::filter);
    }
    if ports_match(mono, output, input) {
        assert(mapped_row(mono, output, inputs.push(input)) =~= mapped_row(
            mono,
            output,
            inputs,
        ).push((output, input)));
    }
}

} // verus!
