use patchcord::monitor::{GraphMonitor, Notice, QUIET_MS};

#[test]
fn first_change_is_told() {
    let mut monitor = GraphMonitor::new();
    assert!(monitor.read_line("type: PipeWire:Interface:Node (version 3)", 0));
}

#[test]
fn changes_are_told_apart() {
    let mut monitor = GraphMonitor::new();
    let line = "\ttype: PipeWire:Interface:Port (version 3)";
    assert!(monitor.read_line(line, 1000));
    assert!(!monitor.read_line(line, 1000));
    assert!(!monitor.read_line(line, 1000 + QUIET_MS));
    assert!(monitor.read_line(line, 1001 + QUIET_MS));
    assert!(!monitor.read_line(line, 1002 + QUIET_MS));
    assert!(!monitor.read_line(line, 3));
}

#[test]
fn other_lines_are_passed_over() {
    let mut monitor = GraphMonitor::new();
    assert!(!monitor.read_line("type: PipeWire:Interface:Link", 0));
    assert!(!monitor.read_line("", 0));
    assert!(monitor.read_line("PipeWire:Interface:Node", 1));
}

#[test]
fn notices_are_named() {
    assert_eq!(Notice::GraphChanged.name(), "graphChanged");
    assert_eq!(Notice::MonitorDied.name(), "monitorDied");
}
