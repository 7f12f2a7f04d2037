//! Ordered sets of routes.
use vstd::prelude::*;

use crate::models::{Route, RouteView};
use crate::text::{
    comes_before, lemma_text_less_irreflexive, lemma_text_less_total, lemma_text_less_transitive,
    same_text, text_less,
};

verus! {

/// The order of routes: by output path, and by input path where these agree.
pub open spec fn route_less(a: RouteView, b: RouteView) -> bool {
    ||| text_less(a.output_path, b.output_path)
    ||| a.output_path == b.output_path && text_less(a.input_path, b.input_path)
}

/// Each route comes before all that follow it.
pub open spec fn ascending(routes: Seq<RouteView>) -> bool {
    forall|i: int, j: int|
        0 <= i < j < routes.len() ==> route_less(#[trigger] routes[i], #[trigger] routes[j])
}

/// The routes of a set in ascending order.
pub open spec fn in_order(routes: Set<RouteView>) -> Seq<RouteView> {
    choose|s: Seq<RouteView>| ascending(s) && #[trigger] s.to_set() == routes
}

pub proof fn lemma_route_less_irreflexive(a: RouteView)
    ensures
        !route_less(a, a),
{
    lemma_text_less_irreflexive(a.output_path);
    lemma_text_less_irreflexive(a.input_path);
}

pub proof fn lemma_route_less_transitive(a: RouteView, b: RouteView, c: RouteView)
    requires
        route_less(a, b),
        route_less(b, c),
    ensures
        route_less(a, c),
{
    if text_less(a.output_path, b.output_path) && text_less(b.output_path, c.output_path) {
        lemma_text_less_transitive(a.output_path, b.output_path, c.output_path);
    }
    if text_less(a.input_path, b.input_path) && text_less(b.input_path, c.input_path) {
        lemma_text_less_transitive(a.input_path, b.input_path, c.input_path);
    }
}

pub proof fn lemma_route_less_total(a: RouteView, b: RouteView)
    ensures
        a == b || route_less(a, b) || route_less(b, a),
{
    lemma_text_less_total(a.output_path, b.output_path);
    lemma_text_less_total(a.input_path, b.input_path);
}

/// Two ascending rows of the same routes are the same row.
pub proof fn lemma_ascending_unique(s: Seq<RouteView>, t: Seq<RouteView>)
    requires
        ascending(s),
        ascending(t),
        s.to_set() == t.to_set(),
    ensures
        s == t,
    decreases s.len(),
{
    if s.len() == 0 {
        if t.len() > 0 {
            assert(t.to_set().contains(t[0]));
            assert(s.contains(t[0]));
        }
        assert(s =~= t);
    } else {
        assert(s.to_set().contains(s.last()));
        assert(t.contains(s.last()));
        let j = choose|j: int| 0 <= j < t.len() && t[j] == s.last();
        assert(t.to_set().contains(t.last()));
        assert(s.contains(t.last()));
        let i = choose|i: int| 0 <= i < s.len() && s[i] == t.last();
        if j < t.len() - 1 {
            assert(route_less(t[j], t[t.len() - 1]));
            if i < s.len() - 1 {
                assert(route_less(s[i], s[s.len() - 1]));
                lemma_route_less_transitive(s.last(), t.last(), s.last());
            }
            lemma_route_less_irreflexive(s.last());
        }
        assert(s.last() == t.last());
        let front_s = s.drop_last();
        let front_t = t.drop_last();
        assert forall|r: RouteView| front_s.to_set().contains(r) == front_t.to_set().contains(
            r,
        ) by {
            lemma_front_membership(s, r);
            lemma_front_membership(t, r);
            assert(s.to_set().contains(r) == t.to_set().contains(r));
        }
        assert(front_s.to_set() =~= front_t.to_set());
        lemma_ascending_unique(front_s, front_t);
        assert(s =~= front_s.push(s.last()));
        assert(t =~= front_t.push(t.last()));
    }
}

/// All but the last route of an ascending row are the routes that differ from
/// the last one.
proof fn lemma_front_membership(s: Seq<RouteView>, r: RouteView)
    requires
        ascending(s),
        s.len() > 0,
    ensures
        s.drop_last().to_set().contains(r) <==> s.to_set().contains(r) && r != s.last(),
{
    let front = s.drop_last();
    if front.contains(r) {
        let i = choose|i: int| 0 <= i < front.len() && front[i] == r;
        assert(s[i] == r);
        assert(route_less(s[i], s[s.len() - 1]));
        lemma_route_less_irreflexive(r);
    }
    if s.contains(r) && r != s.last() {
        let i = choose|i: int| 0 <= i < s.len() && s[i] == r;
        assert(front[i] == r);
    }
}

/// An ascending row is the row of its routes in order.
pub proof fn lemma_in_order(s: Seq<RouteView>)
    requires
        ascending(s),
    ensures
        in_order(s.to_set()) == s,
{
    let routes = s.to_set();
    assert(ascending(s) && s.to_set() == routes);
    lemma_ascending_unique(in_order(routes), s);
}

/// A route can be put into an ascending row of others.
proof fn lemma_row_with(s: Seq<RouteView>, r: RouteView) -> (t: Seq<RouteView>)
    requires
        ascending(s),
        !s.contains(r),
    ensures
        ascending(t),
        t.to_set() == s.to_set().insert(r),
    decreases s.len(),
{
    if s.len() == 0 || route_less(s.last(), r) {
        let t = s.push(r);
        assert forall|i: int, j: int| 0 <= i < j < t.len() implies route_less(
            #[trigger] t[i],
            #[trigger] t[j],
        ) by {
            if j == s.len() && i < s.len() - 1 {
                assert(route_less(s[i], s[s.len() - 1]));
                lemma_route_less_transitive(s[i], s.last(), r);
            }
        }
        s.lemma_push_to_set_commute(r);
        t
    } else {
        let front = s.drop_last();
        let last = s.last();
        assert(s[s.len() - 1] == last);
        lemma_route_less_total(last, r);
        assert(!front.contains(r)) by {
            if front.contains(r) {
                let i = choose|i: int| 0 <= i < front.len() && front[i] == r;
                assert(s[i] == r);
            }
        }
        let u = lemma_row_with(front, r);
        let t = u.push(last);
        assert forall|i: int, j: int| 0 <= i < j < t.len() implies route_less(
            #[trigger] t[i],
            #[trigger] t[j],
        ) by {
            if j == u.len() {
                assert(u.to_set().contains(u[i]));
                if u[i] != r {
                    assert(front.contains(u[i]));
                    let k = choose|k: int| 0 <= k < front.len() && front[k] == u[i];
                    assert(route_less(s[k], s[s.len() - 1]));
                }
            } else {
                assert(route_less(u[i], u[j]));
            }
        }
        u.lemma_push_to_set_commute(last);
        front.lemma_push_to_set_commute(last);
        assert(front.push(last) =~= s);
        assert(t.to_set() =~= s.to_set().insert(r));
        t
    }
}

proof fn lemma_row_of(routes: Set<RouteView>) -> (s: Seq<RouteView>)
    requires
        routes.finite(),
    ensures
        ascending(s),
        s.to_set() == routes,
    decreases routes.len(),
{
    if routes.len() == 0 {
        let s = Seq::<RouteView>::empty();
        assert(s.to_set() =~= routes);
        s
    } else {
        let r = routes.choose();
        let s = lemma_row_of(routes.remove(r));
        assert(!s.contains(r)) by {
            assert(s.contains(r) ==> s.to_set().contains(r));
        }
        let t = lemma_row_with(s, r);
        assert(t.to_set() =~= routes);
        t
    }
}

/// The routes of a finite set can be put in order.
pub proof fn lemma_in_order_of_finite(routes: Set<RouteView>)
    requires
        routes.finite(),
    ensures
        ascending(in_order(routes)),
        in_order(routes).to_set() == routes,
{
    let s = lemma_row_of(routes);
    assert(ascending(s) && s.to_set() == routes);
}

/// An ascending row has no route twice.
pub proof fn lemma_ascending_no_duplicates(s: Seq<RouteView>)
    requires
        ascending(s),
    ensures
        s.no_duplicates(),
{
    assert forall|i: int, j: int| 0 <= i < s.len() && 0 <= j < s.len() && i != j implies s[i]
        != s[j] by {
        lemma_route_less_irreflexive(s[i]);
        if i < j {
            assert(route_less(s[i], s[j]));
        } else {
            assert(route_less(s[j], s[i]));
        }
    }
}

/// Whether `a` comes before `b`.
pub fn route_comes_before(a: &Route, b: &Route) -> (yes: bool)
    ensures
        yes == route_less(a@, b@),
{
    comes_before(a.output_path.as_str(), b.output_path.as_str()) || (same_text(
        a.output_path.as_str(),
        b.output_path.as_str(),
    ) && comes_before(a.input_path.as_str(), b.input_path.as_str()))
}

/// Whether two routes are the same.
pub fn same_route(a: &Route, b: &Route) -> (yes: bool)
    ensures
        yes == (a@ == b@),
{
    same_text(a.output_path.as_str(), b.output_path.as_str()) && same_text(
        a.input_path.as_str(),
        b.input_path.as_str(),
    )
}

/// A set of routes that are kept in order.
#[derive(Debug)]
pub struct RouteSet {
    items: Vec<Route>,
}

impl View for RouteSet {
    type V = Set<RouteView>;

    closed spec fn view(&self) -> Set<RouteView> {
        self.items.deep_view().to_set()
    }
}

impl RouteSet {
    /// The routes are in ascending order.
    pub closed spec fn wf(&self) -> bool {
        ascending(self.items.deep_view())
    }

    /// The set is finite.
    pub proof fn lemma_finite(&self)
        ensures
            self@.finite(),
    {
        vstd::seq_lib::seq_to_set_is_finite(self.items.deep_view());
    }

    /// The empty set.
    pub fn new() -> (set: RouteSet)
        ensures
            set.wf(),
            set@ == Set::<RouteView>::empty(),
    {
        let set = RouteSet { items: Vec::new() };
        assert(set@ =~= Set::<RouteView>::empty());
        set
    }

    pub fn len(&self) -> (len: usize)
        requires
            self.wf(),
        ensures
            self@.finite(),
            len == self@.len(),
    {
        proof {
            lemma_ascending_no_duplicates(self.items.deep_view());
            self.items.deep_view().unique_seq_to_set();
            vstd::seq_lib::seq_to_set_is_finite(self.items.deep_view());
        }
        self.items.len()
    }

    pub fn is_empty(&self) -> (yes: bool)
        ensures
            yes == (self@ == Set::<RouteView>::empty()),
    {
        proof {
            if self.items@.len() > 0 {
                assert(self.items.deep_view()[0] == self.items@[0]@);
                assert(self@.contains(self.items@[0]@));
            } else {
                assert(self@ =~= Set::<RouteView>::empty());
            }
        }
        self.items.len() == 0
    }

    pub fn contains(&self, route: &Route) -> (yes: bool)
        ensures
            yes == self@.contains(route@),
    {
        let mut i: usize = 0;
        while i < self.items.len()
            invariant
                i <= self.items.len(),
                forall|j: int| 0 <= j < i ==> self.items.deep_view()[j] != route@,
            decreases self.items.len() - i,
        {
            if same_route(&self.items[i], route) {
                assert(self.items.deep_view()[i as int] == route@);
                return true;
            }
            i += 1;
        }
        false
    }

    /// Adds a route.
    pub fn insert(&mut self, route: Route)
        requires
            old(self).wf(),
        ensures
            final(self).wf(),
            final(self)@ == old(self)@.insert(route@),
    {
        let ghost all = self.items.deep_view();
        let mut at: usize = 0;
        while at < self.items.len() && route_comes_before(&self.items[at], &route)
            invariant
                at <= self.items.len(),
                all == self.items.deep_view(),
                forall|j: int| 0 <= j < at ==> route_less(#[trigger] all[j], route@),
            decreases self.items.len() - at,
        {
            at += 1;
        }
        if at < self.items.len() && same_route(&self.items[at], &route) {
            proof {
                assert(all[at as int] == route@);
                assert(all.to_set().insert(route@) =~= all.to_set());
            }
            return;
        }
        self.items.insert(at, route);
        proof {
            let now = self.items.deep_view();
            assert(now =~= all.insert(at as int, route@));
            if at < all.len() {
                lemma_route_less_total(all[at as int], route@);
            }
            assert forall|i: int, j: int| 0 <= i < j < now.len() implies route_less(
                #[trigger] now[i],
                #[trigger] now[j],
            ) by {
                if i < at && j > at {
                    assert(route_less(all[i], all[j - 1]));
                } else if i == at && j > at {
                    if j - 1 > at {
                        assert(route_less(all[at as int], all[j - 1]));
                        lemma_route_less_transitive(route@, all[at as int], all[j - 1]);
                    }
                } else if i > at {
                    assert(route_less(all[i - 1], all[j - 1]));
                } else if j < at {
                    assert(route_less(all[i], all[j]));
                }
            }
            assert forall|r: RouteView| now.to_set().contains(r) == all.to_set().insert(
                route@,
            ).contains(r) by {
                if now.contains(r) {
                    let i = choose|i: int| 0 <= i < now.len() && now[i] == r;
                    if i < at {
                        assert(all[i] == r);
                    } else if i > at {
                        assert(all[i - 1] == r);
                    }
                }
                if all.contains(r) {
                    let i = choose|i: int| 0 <= i < all.len() && all[i] == r;
                    if i < at {
                        assert(now[i] == r);
                    } else {
                        assert(now[i + 1] == r);
                    }
                }
                if r == route@ {
                    assert(now[at as int] == r);
                }
            }
            assert(now.to_set() =~= all.to_set().insert(route@));
        }
    }

    /// The routes that are in `other` too, or those that are not.
    fn select(&self, other: &RouteSet, common: bool) -> (chosen: RouteSet)
        requires
            self.wf(),
        ensures
            chosen.wf(),
            chosen@ == self@.filter(|r: RouteView| other@.contains(r) == common),
    {
        let ghost all = self.items.deep_view();
        let mut items: Vec<Route> = Vec::new();
        let mut i: usize = 0;
        while i < self.items.len()
            invariant
                i <= self.items.len(),
                all == self.items.deep_view(),
                ascending(all),
                ascending(items.deep_view()),
                forall|k: int, j: int|
                    0 <= k < items.len() && i <= j < all.len() ==> route_less(
                        #[trigger] items.deep_view()[k],
                        #[trigger] all[j],
                    ),
                forall|r: RouteView|
                    items.deep_view().contains(r) <==> other@.contains(r) == common && all.take(
                        i as int,
                    ).contains(r),
            decreases self.items.len() - i,
        {
            let ghost before = items.deep_view();
            let ghost now = all[i as int];
            let wanted = other.contains(&self.items[i]) == common;
            if wanted {
                items.push(self.items[i].clone());
                assert(items.deep_view() =~= before.push(now));
            }
            i += 1;
            proof {
                assert(all.take(i as int) =~= all.take(i - 1).push(now));
                assert forall|r: RouteView|
                    items.deep_view().contains(r) <==> other@.contains(r) == common && all.take(
                        i as int,
                    ).contains(r) by {
                    vstd::seq_lib::lemma_seq_contains_after_push(all.take(i - 1), now, r);
                    vstd::seq_lib::lemma_seq_contains_after_push(before, now, r);
                }
                assert forall|k: int, j: int|
                    0 <= k < items.len() && i <= j < all.len() implies route_less(
                    #[trigger] items.deep_view()[k],
                    #[trigger] all[j],
                ) by {
                    if k < before.len() {
                        assert(items.deep_view()[k] == before[k]);
                    } else {
                        assert(route_less(all[i - 1], all[j]));
                    }
                }
            }
        }
        let chosen = RouteSet { items };
        proof {
            assert(all.take(i as int) =~= all);
            assert(chosen@ =~= self@.filter(|r: RouteView| other@.contains(r) == common));
        }
        chosen
    }

    /// The routes of `self` that are not in `other`.
    pub fn difference(&self, other: &RouteSet) -> (chosen: RouteSet)
        requires
            self.wf(),
        ensures
            chosen.wf(),
            chosen@ == self@.difference(other@),
    {
        let chosen = self.select(other, false);
        assert(chosen@ =~= self@.difference(other@));
        chosen
    }

    /// The routes that are in both sets.
    pub fn intersection(&self, other: &RouteSet) -> (chosen: RouteSet)
        requires
            self.wf(),
        ensures
            chosen.wf(),
            chosen@ == self@.intersect(other@),
    {
        let chosen = self.select(other, true);
        assert(chosen@ =~= self@.intersect(other@));
        chosen
    }

    /// The routes in ascending order.
    pub fn to_vec(&self) -> (routes: Vec<Route>)
        requires
            self.wf(),
        ensures
            routes.deep_view() == in_order(self@),
            ascending(routes.deep_view()),
            routes.deep_view().to_set() == self@,
    {
        let mut routes: Vec<Route> = Vec::new();
        let mut i: usize = 0;
        let ghost all = self.items.deep_view();
        assert(routes.deep_view() =~= all.take(0));
        while i < self.items.len()
            invariant
                i <= self.items.len(),
                all == self.items.deep_view(),
                routes.deep_view() == all.take(i as int),
            decreases self.items.len() - i,
        {
            let ghost before = routes.deep_view();
            routes.push(self.items[i].clone());
            i += 1;
            assert(routes.deep_view() =~= before.push(all[i - 1]));
            assert(all.take(i as int) =~= all.take(i - 1).push(all[i - 1]));
        }
        proof {
            assert(all.take(i as int) =~= all);
            lemma_in_order(all);
        }
        routes
    }
}

/// Routes are ordered by their output paths, and where these are the same by
/// their input paths.
pub proof fn law_order_of_routes(a: RouteView, b: RouteView)
    ensures
        a.output_path != b.output_path ==> (route_less(a, b) <==> text_less(
            a.output_path,
            b.output_path,
        )),
        a.output_path == b.output_path ==> (route_less(a, b) <==> text_less(
            a.input_path,
            b.input_path,
        )),
{
    lemma_text_less_irreflexive(a.output_path);
}

/// A finite set in order has each of its routes once, and each before those that
/// are greater.
pub proof fn law_sets_in_order(routes: Set<RouteView>, i: int, j: int)
    requires
        routes.finite(),
        0 <= i < j < in_order(routes).len(),
    ensures
        in_order(routes).to_set() == routes,
        in_order(routes).no_duplicates(),
        route_less(in_order(routes)[i], in_order(routes)[j]),
{
    lemma_in_order_of_finite(routes);
    lemma_ascending_no_duplicates(in_order(routes));
}

} // verus!
