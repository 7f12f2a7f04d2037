use patchcord::models::Route;
use patchcord::routes::{route_comes_before, same_route, RouteSet};

fn route(output: &str, input: &str) -> Route {
    Route { output_path: output.to_string(), input_path: input.to_string() }
}

fn set(routes: &[(&str, &str)]) -> RouteSet {
    let mut set = RouteSet::new();
    for (output, input) in routes {
        set.insert(route(output, input));
    }
    set
}

#[test]
fn routes_are_kept_in_order() {
    let set = set(&[("b", "x"), ("a", "y"), ("b", "a"), ("a", "y")]);
    assert_eq!(set.to_vec(), vec![route("a", "y"), route("b", "a"), route("b", "x")]);
    assert_eq!(set.len(), 3);
    assert!(set.contains(&route("b", "a")));
    assert!(!set.contains(&route("a", "b")));
    assert!(!set.is_empty());
    assert!(RouteSet::new().is_empty());
}

#[test]
fn sets_are_combined() {
    let left = set(&[("a", "1"), ("b", "2"), ("c", "3")]);
    let right = set(&[("b", "2"), ("d", "4")]);
    assert_eq!(left.difference(&right).to_vec(), vec![route("a", "1"), route("c", "3")]);
    assert_eq!(left.intersection(&right).to_vec(), vec![route("b", "2")]);
}

#[test]
fn order_agrees_with_the_derived_one() {
    let routes = [route("a", "b"), route("a", "c"), route("ab", ""), route("", "z"), route("ä", "a")];
    for a in &routes {
        for b in &routes {
            assert_eq!(route_comes_before(a, b), a < b);
            assert_eq!(same_route(a, b), a == b);
        }
    }
}
