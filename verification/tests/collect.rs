use patchcord::collect::{Collector, Gathered, Gathering};
use patchcord::error::BackendError;
use patchcord::props::PropValue;
use patchcord::snapshot::{RawPwInfo, RawPwObject};

fn objects() -> Gathered {
    let object = |id: u32, kind: &str, props: Vec<(&str, &str)>, direction: Option<&str>| RawPwObject {
        id,
        kind: kind.to_string(),
        info: RawPwInfo {
            props: props
                .into_iter()
                .map(|(key, value)| (key.to_string(), PropValue::Text(value.to_string())))
                .collect(),
            direction: direction.map(str::to_string),
        },
    };
    Gathered::Objects(Ok(vec![
        object(1, "PipeWire:Interface:Node", vec![("node.name", "n")], None),
        object(2, "PipeWire:Interface:Port", vec![("node.id", "1")], Some("out")),
        object(3, "PipeWire:Interface:Port", vec![("node.id", "1")], Some("in")),
    ]))
}

fn listing(text: &str) -> Gathered {
    Gathered::Listing(Ok(text.to_string()))
}

fn next(gathering: Gathering, gathered: Gathered) -> Gathering {
    match gathering {
        Gathering::Run { collector, .. } => {
            assert!(collector.accepts(&gathered));
            collector.resume(gathered)
        }
        other => panic!("over: {other:?}"),
    }
}

fn command(gathering: &Gathering) -> String {
    match gathering {
        Gathering::Run { command, .. } => format!("{} {}", command.program, command.args.join(" ")),
        other => panic!("over: {other:?}"),
    }
}

#[test]
fn graph_is_read_in_three_steps() {
    let gathering = Collector::start();
    assert_eq!(command(&gathering), "pw-dump ");
    let gathering = next(gathering, objects());
    assert_eq!(command(&gathering), "pw-link -I -o");
    let gathering = next(gathering, listing("2 n:out\n3 wrong\n"));
    assert_eq!(command(&gathering), "pw-link -I -i");
    match next(gathering, listing("2 wrong\n3 n:in\n")) {
        Gathering::Finished(Ok(snapshot)) => {
            let paths: Vec<Option<&str>> =
                snapshot.nodes[0].ports.iter().map(|port| port.path.as_deref()).collect();
            assert_eq!(paths, vec![Some("n:out"), Some("n:in")]);
        }
        other => panic!("{other:?}"),
    }
}

#[test]
fn first_failure_ends_the_reading() {
    let failure = |gathering: Gathering| match gathering {
        Gathering::Finished(Err(error)) => error.message(),
        other => panic!("{other:?}"),
    };
    let json = || Gathered::Objects(Err(BackendError::Json("Error".to_string())));
    let timeout = || Gathered::Listing(Err(BackendError::Timeout("pw-link")));

    assert_eq!(
        failure(next(Collector::start(), json())),
        "failed to parse PipeWire state: Error"
    );
    let gathering = next(Collector::start(), objects());
    assert_eq!(failure(next(gathering, timeout())), "timed out waiting for pw-link");
    let gathering = next(next(Collector::start(), objects()), listing(""));
    assert_eq!(failure(next(gathering, timeout())), "timed out waiting for pw-link");
}

#[test]
fn results_are_expected_in_turn() {
    assert!(!Collector::Dumping.accepts(&listing("")));
    assert!(Collector::Dumping.accepts(&objects()));
    assert!(!Collector::ListingOutputs { objects: Vec::new() }.accepts(&objects()));
    assert!(Collector::ListingOutputs { objects: Vec::new() }.accepts(&listing("")));
}
