//! The route table: which route serves which pathname, in the order in which
//! the pathnames were first claimed.

use crate::route::{Route, RouteView};
use vstd::prelude::*;

verus! {

/// The mathematical value of a route table: its pathnames with their routes,
/// in the order in which the pathnames were first claimed.
pub type RoutesView = Seq<(Seq<char>, RouteView)>;

/// Some entry of the table is for `pathname`.
pub open spec fn claims(table: RoutesView, pathname: Seq<char>) -> bool {
    exists|i: int| 0 <= i < table.len() && (#[trigger] table[i]).0 == pathname
}

/// The place of the entry for `pathname`, where the table has one.
pub open spec fn position(table: RoutesView, pathname: Seq<char>) -> int {
    choose|i: int| 0 <= i < table.len() && (#[trigger] table[i]).0 == pathname
}

/// No pathname has two entries.
pub open spec fn distinct(table: RoutesView) -> bool {
    forall|i: int, j: int|
        0 <= i < j < table.len() ==> (#[trigger] table[i]).0 != (#[trigger] table[j]).0
}

/// The route that serves `pathname`, if the table has an entry for it.
pub open spec fn route_of(table: RoutesView, pathname: Seq<char>) -> Option<RouteView> {
    if claims(table, pathname) {
        Some(table[position(table, pathname)].1)
    } else {
        None
    }
}

/// The table after one more route definition claimed `pathname`.
///
/// A pathname that no entry claims yet gets the route, at the end of the
/// table. One that is claimed already is in conflict from then on, whatever
/// the definitions were: its entry keeps its place and holds
/// [`RouteView::Conflict`].
pub open spec fn inserted(table: RoutesView, pathname: Seq<char>, route: RouteView) -> RoutesView {
    if claims(table, pathname) {
        table.update(position(table, pathname), (pathname, RouteView::Conflict))
    } else {
        table.push((pathname, route))
    }
}

/// In a table without double entries, the entry for a pathname is where one
/// finds it.
pub proof fn lemma_position(table: RoutesView, pathname: Seq<char>, i: int)
    requires
        distinct(table),
        0 <= i < table.len(),
        table[i].0 == pathname,
    ensures
        claims(table, pathname),
        position(table, pathname) == i,
        route_of(table, pathname) == Some(table[i].1),
{
    let p = position(table, pathname);
    assert(0 <= p < table.len() && table[p].0 == pathname);
    if p < i {
        assert(table[p].0 != table[i].0);
    } else if i < p {
        assert(table[i].0 != table[p].0);
    }
}

/// A claim keeps the table free of double entries, keeps every other entry
/// and its place, and leaves an entry for the pathname.
pub proof fn lemma_inserted(table: RoutesView, pathname: Seq<char>, route: RouteView)
    requires
        distinct(table),
    ensures
        distinct(inserted(table, pathname, route)),
        claims(inserted(table, pathname, route), pathname),
        route_of(inserted(table, pathname, route), pathname) == Some(
            if claims(table, pathname) {
                RouteView::Conflict
            } else {
                route
            },
        ),
        forall|other: Seq<char>|
            other != pathname ==> route_of(inserted(table, pathname, route), other) == route_of(
                table,
                other,
            ),
        forall|i: int|
            0 <= i < table.len() ==> (#[trigger] inserted(table, pathname, route)[i]).0
                == table[i].0,
{
    let after = inserted(table, pathname, route);
    let at = if claims(table, pathname) {
        position(table, pathname)
    } else {
        table.len() as int
    };
    if claims(table, pathname) {
        assert(0 <= at < table.len() && table[at].0 == pathname);
    }
    assert(after[at].0 == pathname);
    assert forall|i: int, j: int| 0 <= i < j < after.len() implies (#[trigger] after[i]).0 != (
    #[trigger] after[j]).0 by {
        if claims(table, pathname) {
            assert(table[i].0 != table[j].0);
        } else if j == table.len() {
            assert(table[i].0 != pathname);
        } else {
            assert(table[i].0 != table[j].0);
        }
    }
    lemma_position(after, pathname, at);
    assert forall|other: Seq<char>| other != pathname implies route_of(after, other) == route_of(
        table,
        other,
    ) by {
        if claims(table, other) {
            let k = position(table, other);
            assert(0 <= k < table.len() && table[k].0 == other);
            assert(after[k] == table[k]);
            lemma_position(after, other, k);
        } else if claims(after, other) {
            let k = position(after, other);
            assert(0 <= k < after.len() && after[k].0 == other);
            assert(k < table.len() && table[k].0 == other);
        }
    }
}

/// Two route definitions that claim one pathname leave the table with
/// [`RouteView::Conflict`] for it, never with one of the two; and a conflict
/// stays one whatever is claimed later.
pub proof fn lemma_colliding_claims_conflict(
    table: RoutesView,
    pathname: Seq<char>,
    first: RouteView,
    second: RouteView,
)
    requires
        distinct(table),
    ensures
        route_of(inserted(inserted(table, pathname, first), pathname, second), pathname) == Some(
            RouteView::Conflict,
        ),
{
    lemma_inserted(table, pathname, first);
    lemma_inserted(inserted(table, pathname, first), pathname, second);
}

/// The routes as a table from pathname to route. A pathname includes the
/// leading slash.
#[derive(Debug)]
pub struct Routes {
    entries: Vec<(String, Route)>,
}

impl View for Routes {
    type V = RoutesView;

    closed spec fn view(&self) -> RoutesView {
        self.entries@.map_values(|entry: (String, Route)| (entry.0@, entry.1@))
    }
}

impl Routes {
    /// No pathname has two entries. Every table that this module hands out is
    /// well formed.
    pub open spec fn wf(&self) -> bool {
        distinct(self@)
    }

    /// The empty table.
    pub fn new() -> (table: Routes)
        ensures
            table@ == RoutesView::empty(),
            table.wf(),
    {
        let table = Routes { entries: Vec::new() };
        assert(table@ =~= RoutesView::empty());
        table
    }

    /// The number of pathnames in the table.
    pub fn len(&self) -> (len: usize)
        ensures
            len == self@.len(),
    {
        self.entries.len()
    }

    /// The place of the entry for `pathname`.
    fn find(&self, pathname: &String) -> (place: Option<usize>)
        requires
            self.wf(),
        ensures
            match place {
                Some(i) => i < self@.len() && claims(self@, pathname@) && position(
                    self@,
                    pathname@,
                ) == i,
                None => !claims(self@, pathname@),
            },
    {
        let mut i: usize = 0;
        while i < self.entries.len()
            invariant
                i <= self.entries.len(),
                self@.len() == self.entries@.len(),
                distinct(self@),
                forall|j: int| 0 <= j < i ==> (#[trigger] self@[j]).0 != pathname@,
            decreases self.entries.len() - i,
        {
            if self.entries[i].0 == *pathname {
                proof {
                    lemma_position(self@, pathname@, i as int);
                }
                return Some(i);
            }
            i += 1;
        }
        None
    }

    /// The route that serves `pathname`.
    pub fn get(&self, pathname: &String) -> (route: Option<&Route>)
        requires
            self.wf(),
        ensures
            match route {
                Some(found) => route_of(self@, pathname@) == Some(found@),
                None => route_of(self@, pathname@) is None,
            },
    {
        match self.find(pathname) {
            Some(i) => Some(&self.entries[i].1),
            None => None,
        }
    }

    /// The pathname and the route at place `i`, counted in the order in which
    /// the pathnames were first claimed.
    pub fn get_index(&self, i: usize) -> (entry: Option<(&String, &Route)>)
        ensures
            match entry {
                Some((pathname, route)) => i < self@.len() && self@[i as int] == (
                    pathname@,
                    route@,
                ),
                None => i >= self@.len(),
            },
    {
        if i < self.entries.len() {
            let entry = &self.entries[i];
            Some((&entry.0, &entry.1))
        } else {
            None
        }
    }

    /// Takes one more route definition for `pathname`.
    ///
    /// The first definition for a pathname is entered at the end of the table.
    /// Every further one puts the pathname in conflict: its entry holds
    /// [`Route::Conflict`] from then on.
    pub fn insert(&mut self, pathname: String, route: Route)
        requires
            old(self).wf(),
        ensures
            final(self).wf(),
            final(self)@ == inserted(old(self)@, pathname@, route@),
    {
        proof {
            lemma_inserted(self@, pathname@, route@);
        }
        match self.find(&pathname) {
            Some(i) => {
                self.entries.set(i, (pathname, Route::Conflict));
                assert(self@ =~= inserted(old(self)@, pathname@, route@));
            },
            None => {
                self.entries.push((pathname, route));
                assert(self@ =~= inserted(old(self)@, pathname@, route@));
            },
        }
    }
}

} // verus!
