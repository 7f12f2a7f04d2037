//! Telling when the graph has changed.
use vstd::prelude::*;

use crate::text::{contains, occurs};

verus! {

/// How long after a change was told the next one is told at the earliest, in
/// milliseconds.
pub const QUIET_MS: u64 = 400;

/// What is told without being asked for.
#[derive(Debug, Clone, Copy, PartialEq, Eq, Structural)]
pub enum Notice {
    GraphChanged,
    MonitorDied,
}

impl Notice {
    /// The name of the notice.
    pub fn name(self) -> (name: &'static str)
        ensures
            name@ == match self {
                Notice::GraphChanged => "graphChanged"@,
                Notice::MonitorDied => "monitorDied"@,
            },
    {
        match self {
            Notice::GraphChanged => "graphChanged",
            Notice::MonitorDied => "monitorDied",
        }
    }
}

/// Whether a line of the graph monitor speaks of a node or a port.
pub open spec fn speaks_of_graph(line: Seq<char>) -> bool {
    occurs(line, "PipeWire:Interface:Node"@) || occurs(line, "PipeWire:Interface:Port"@)
}

/// Reads along with the graph monitor.
#[derive(Debug)]
pub struct GraphMonitor {
    last: Option<u64>,
}

impl View for GraphMonitor {
    type V = Option<u64>;

    /// When the last change was told.
    closed spec fn view(&self) -> Option<u64> {
        self.last
    }
}

/// Whether a change is told for a line that comes at the time `now`.
pub open spec fn told(last: Option<u64>, line: Seq<char>, now: u64) -> bool {
    &&& speaks_of_graph(line)
    &&& match last {
        Some(last) => now > last + QUIET_MS,
        None => true,
    }
}

/// When the last change was told, after a line that comes at the time `now`.
pub open spec fn heard(last: Option<u64>, line: Seq<char>, now: u64) -> Option<u64> {
    if told(last, line, now) {
        Some(now)
    } else {
        last
    }
}

impl GraphMonitor {
    /// No change was told yet.
    pub fn new() -> (monitor: GraphMonitor)
        ensures
            monitor@ is None,
    {
        GraphMonitor { last: None }
    }

    /// Takes a line at the time `now` in milliseconds and says whether to tell
    /// of a change.
    pub fn read_line(&mut self, line: &str, now: u64) -> (yes: bool)
        ensures
            yes == told(old(self)@, line@, now),
            final(self)@ == heard(old(self)@, line@, now),
            final(self)@ == if yes {
                Some(now)
            } else {
                old(self)@
            },
    {
        if contains(line, "PipeWire:Interface:Node") || contains(line, "PipeWire:Interface:Port") {
            let due = match self.last {
                Some(last) => now.saturating_sub(last) > QUIET_MS,
                None => true,
            };
            if due {
                self.last = Some(now);
            }
            due
        } else {
            false
        }
    }
}

/// The times at which changes are told for a row of lines.
pub open spec fn told_times(last: Option<u64>, lines: Seq<(Seq<char>, u64)>) -> Seq<u64>
    decreases lines.len(),
{
    if lines.len() == 0 {
        seq![]
    } else {
        let rest = told_times(heard(last, lines[0].0, lines[0].1), lines.drop_first());
        if told(last, lines[0].0, lines[0].1) {
            seq![lines[0].1] + rest
        } else {
            rest
        }
    }
}

/// Whatever lines come, two changes are never told within the quiet time.
pub proof fn law_changes_are_told_apart(
    last: Option<u64>,
    lines: Seq<(Seq<char>, u64)>,
    i: int,
    j: int,
)
    requires
        0 <= i < j < told_times(last, lines).len(),
    ensures
        told_times(last, lines)[j] > told_times(last, lines)[i] + QUIET_MS,
    decreases lines.len(),
{
    let rest = lines.drop_first();
    if told(last, lines[0].0, lines[0].1) {
        if i > 0 {
            law_changes_are_told_apart(Some(lines[0].1), rest, i - 1, j - 1);
        } else {
            lemma_told_after(Some(lines[0].1), rest, lines[0].1, j - 1);
        }
    } else {
        law_changes_are_told_apart(last, rest, i, j);
    }
}

/// Every change is told after the quiet time that follows the one before.
proof fn lemma_told_after(last: Option<u64>, lines: Seq<(Seq<char>, u64)>, since: u64, k: int)
    requires
        last matches Some(at) && at >= since,
        0 <= k < told_times(last, lines).len(),
    ensures
        told_times(last, lines)[k] > since + QUIET_MS,
    decreases lines.len(),
{
    let rest = lines.drop_first();
    if told(last, lines[0].0, lines[0].1) {
        if k > 0 {
            lemma_told_after(Some(lines[0].1), rest, since, k - 1);
        }
    } else {
        lemma_told_after(last, rest, since, k);
    }
}

/// The first line that speaks of the graph is told of.
pub proof fn law_first_change_is_told(line: Seq<char>, now: u64)
    requires
        speaks_of_graph(line),
    ensures
        told(None, line, now),
{
}

/// The quiet time is two fifths of a second.
pub proof fn law_quiet_time()
    ensures
        5 * QUIET_MS == 2 * 1000,
{
}

/// A line tells of a change exactly when it names a node or a port anywhere, and
/// the quiet time after the last change that was told is over.
pub proof fn law_lines_that_tell(last: u64, line: Seq<char>, now: u64)
    ensures
        ({
            let names_one = occurs(line, "PipeWire:Interface:Node"@) || occurs(
                line,
                "PipeWire:Interface:Port"@,
            );
            &&& told(None, line, now) <==> names_one
            &&& told(Some(last), line, now) <==> names_one && now > last + 400
        }),
{
}

/// Changes are told one by one as the lines come.
pub proof fn law_told_as_they_come(
    last: Option<u64>,
    line: Seq<char>,
    now: u64,
    rest: Seq<(Seq<char>, u64)>,
)
    ensures
        told_times(last, seq![]) == Seq::<u64>::empty(),
        told(last, line, now) ==> told_times(last, seq![(line, now)] + rest) == seq![now]
            + told_times(Some(now), rest),
        !told(last, line, now) ==> told_times(last, seq![(line, now)] + rest) == told_times(
            last,
            rest,
        ),
{
    assert((seq![(line, now)] + rest).drop_first() =~= rest);
}

/// Only a line that is told of starts a new quiet time.
pub proof fn law_quiet_time_starts(last: Option<u64>, line: Seq<char>, now: u64)
    ensures
        told(last, line, now) ==> heard(last, line, now) == Some(now),
        !told(last, line, now) ==> heard(last, line, now) == last,
{
}

/// The names of the notices.
pub proof fn law_notice_names(name: &'static str)
    ensures
        call_ensures(Notice::name, (Notice::GraphChanged,), name) ==> name@ == "graphChanged"@,
        call_ensures(Notice::name, (Notice::MonitorDied,), name) ==> name@ == "monitorDied"@,
{
}

} // verus!
