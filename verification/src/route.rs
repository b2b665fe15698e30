//! The route data model: one route per pathname, tagged by route kind.

use crate::reference::{EndpointRef, ResolvedEndpoint};
use vstd::prelude::*;
use vstd::std_specs::cmp::PartialEqSpecImpl;

verus! {

/// One matched route definition that contributes to an app-router page.
///
/// `original_name` labels the definition in diagnostics. It takes no part in
/// equality: two entries are equal when their endpoint references are.
#[derive(Debug)]
pub struct AppPageRoute {
    pub original_name: String,
    pub html_endpoint: EndpointRef,
    pub rsc_endpoint: EndpointRef,
}

/// The mathematical value of an [`AppPageRoute`].
pub struct AppPageRouteView {
    pub original_name: Seq<char>,
    pub html_endpoint: EndpointRef,
    pub rsc_endpoint: EndpointRef,
}

impl AppPageRouteView {
    /// Both endpoint references are canonical.
    pub open spec fn is_resolved(self) -> bool {
        self.html_endpoint is Canonical && self.rsc_endpoint is Canonical
    }

    /// What `==` means on entries: the same endpoint references.
    pub open spec fn same(self, other: AppPageRouteView) -> bool {
        self.html_endpoint == other.html_endpoint && self.rsc_endpoint == other.rsc_endpoint
    }
}

impl View for AppPageRoute {
    type V = AppPageRouteView;

    open spec fn view(&self) -> AppPageRouteView {
        AppPageRouteView {
            original_name: self.original_name@,
            html_endpoint: self.html_endpoint,
            rsc_endpoint: self.rsc_endpoint,
        }
    }
}

impl Clone for AppPageRoute {
    fn clone(&self) -> (copy: Self)
        ensures
            copy@ == self@,
    {
        AppPageRoute {
            original_name: self.original_name.clone(),
            html_endpoint: self.html_endpoint,
            rsc_endpoint: self.rsc_endpoint,
        }
    }
}

impl PartialEq for AppPageRoute {
    fn eq(&self, other: &Self) -> (same: bool) {
        self.html_endpoint.same(&other.html_endpoint) && self.rsc_endpoint.same(
            &other.rsc_endpoint,
        )
    }
}

impl PartialEqSpecImpl for AppPageRoute {
    open spec fn obeys_eq_spec() -> bool {
        true
    }

    open spec fn eq_spec(&self, other: &Self) -> bool {
        self@.same(other@)
    }
}

impl Eq for AppPageRoute {

}

/// Every entry of the list holds canonical references only.
pub open spec fn all_resolved(entries: Seq<AppPageRouteView>) -> bool {
    forall|i: int| 0 <= i < entries.len() ==> (#[trigger] entries[i]).is_resolved()
}

/// The two lists are as long as each other and agree entry by entry on the
/// endpoint references.
pub open spec fn all_same(entries: Seq<AppPageRouteView>, others: Seq<AppPageRouteView>) -> bool {
    &&& entries.len() == others.len()
    &&& forall|i: int| 0 <= i < entries.len() ==> (#[trigger] entries[i]).same(others[i])
}

/// The values of a list of entries, in order.
pub open spec fn entry_views(entries: Seq<AppPageRoute>) -> Seq<AppPageRouteView> {
    entries.map_values(|entry: AppPageRoute| entry@)
}

/// What serves one pathname.
#[derive(Debug)]
pub enum Route {
    /// A conventional page, with separate endpoints for HTML and for data.
    Page { html_endpoint: ResolvedEndpoint, data_endpoint: ResolvedEndpoint },
    /// A conventional API route.
    PageApi { endpoint: ResolvedEndpoint },
    /// An app-router page: its parallel route matches, in the order in which
    /// they were declared. The order matters for rendering.
    AppPage(Vec<AppPageRoute>),
    /// An app-router route handler.
    AppRoute { original_name: String, endpoint: ResolvedEndpoint },
    /// Two or more distinct route definitions claim the pathname.
    Conflict,
}

/// The mathematical value of a [`Route`].
pub enum RouteView {
    Page { html_endpoint: ResolvedEndpoint, data_endpoint: ResolvedEndpoint },
    PageApi { endpoint: ResolvedEndpoint },
    AppPage(Seq<AppPageRouteView>),
    AppRoute { original_name: Seq<char>, endpoint: ResolvedEndpoint },
    Conflict,
}

impl RouteView {
    /// An app-router page holds at least one entry.
    pub open spec fn well_formed(self) -> bool {
        match self {
            RouteView::AppPage(entries) => entries.len() >= 1,
            RouteView::Page { .. } => true,
            RouteView::PageApi { .. } => true,
            RouteView::AppRoute { .. } => true,
            RouteView::Conflict => true,
        }
    }

    /// Every endpoint reference in the route is canonical.
    pub open spec fn is_resolved(self) -> bool {
        match self {
            RouteView::AppPage(entries) => all_resolved(entries),
            RouteView::Page { .. } => true,
            RouteView::PageApi { .. } => true,
            RouteView::AppRoute { .. } => true,
            RouteView::Conflict => true,
        }
    }

    /// What `==` means on routes: the same kind, and the same endpoint
    /// references in the same order. The name of an app-router page entry is
    /// left out.
    pub open spec fn same(self, other: RouteView) -> bool {
        match self {
            RouteView::AppPage(entries) => match other {
                RouteView::AppPage(others) => all_same(entries, others),
                _ => false,
            },
            RouteView::Page { .. } => self == other,
            RouteView::PageApi { .. } => self == other,
            RouteView::AppRoute { .. } => self == other,
            RouteView::Conflict => self == other,
        }
    }
}

impl View for Route {
    type V = RouteView;

    open spec fn view(&self) -> RouteView {
        match *self {
            Route::Page { html_endpoint, data_endpoint } => RouteView::Page {
                html_endpoint,
                data_endpoint,
            },
            Route::PageApi { endpoint } => RouteView::PageApi { endpoint },
            Route::AppPage(entries) => RouteView::AppPage(entry_views(entries@)),
            Route::AppRoute { original_name, endpoint } => RouteView::AppRoute {
                original_name: original_name@,
                endpoint,
            },
            Route::Conflict => RouteView::Conflict,
        }
    }
}

impl Route {
    /// An app-router page of the given entries, which must not be empty.
    pub fn app_page(entries: Vec<AppPageRoute>) -> (route: Option<Route>)
        ensures
            entries@.len() == 0 <==> route is None,
            route matches Some(r) ==> r@ == RouteView::AppPage(entry_views(entries@))
                && r@.well_formed(),
    {
        if entries.len() == 0 {
            None
        } else {
            Some(Route::AppPage(entries))
        }
    }

    /// Whether the route meets the invariant of its kind.
    pub fn is_well_formed(&self) -> (ok: bool)
        ensures
            ok == self@.well_formed(),
    {
        match self {
            Route::AppPage(entries) => entries.len() >= 1,
            Route::Page { .. } => true,
            Route::PageApi { .. } => true,
            Route::AppRoute { .. } => true,
            Route::Conflict => true,
        }
    }

    /// Whether every endpoint reference in the route is canonical.
    pub fn is_resolved(&self) -> (resolved: bool)
        ensures
            resolved == self@.is_resolved(),
    {
        match self {
            Route::AppPage(entries) => entries_resolved(entries),
            Route::Page { .. } => true,
            Route::PageApi { .. } => true,
            Route::AppRoute { .. } => true,
            Route::Conflict => true,
        }
    }
}

fn entries_resolved(entries: &Vec<AppPageRoute>) -> (resolved: bool)
    ensures
        resolved == RouteView::AppPage(entry_views(entries@)).is_resolved(),
{
    let mut i: usize = 0;
    while i < entries.len()
        invariant
            i <= entries.len(),
            forall|j: int| 0 <= j < i ==> (#[trigger] entry_views(entries@)[j]).is_resolved(),
        decreases entries.len() - i,
    {
        let entry = &entries[i];
        if entry.html_endpoint.canonical().is_none() || entry.rsc_endpoint.canonical().is_none() {
            assert(entry_views(entries@).len() == entries@.len());
            assert(!entry_views(entries@)[i as int].is_resolved());
            return false;
        }
        assert(entry_views(entries@)[i as int].is_resolved());
        i += 1;
    }
    true
}

fn entries_same(entries: &Vec<AppPageRoute>, others: &Vec<AppPageRoute>) -> (same: bool)
    ensures
        same == RouteView::AppPage(entry_views(entries@)).same(
            RouteView::AppPage(entry_views(others@)),
        ),
{
    if entries.len() != others.len() {
        return false;
    }
    let mut i: usize = 0;
    while i < entries.len()
        invariant
            i <= entries.len(),
            entries.len() == others.len(),
            forall|j: int|
                0 <= j < i ==> (#[trigger] entry_views(entries@)[j]).same(
                    entry_views(others@)[j],
                ),
        decreases entries.len() - i,
    {
        if !(entries[i] == others[i]) {
            assert(!entry_views(entries@)[i as int].same(entry_views(others@)[i as int]));
            return false;
        }
        assert(entry_views(entries@)[i as int].same(entry_views(others@)[i as int]));
        i += 1;
    }
    true
}

fn entries_clone(entries: &Vec<AppPageRoute>) -> (copies: Vec<AppPageRoute>)
    ensures
        entry_views(copies@) == entry_views(entries@),
{
    let mut copies: Vec<AppPageRoute> = Vec::new();
    let mut i: usize = 0;
    while i < entries.len()
        invariant
            i <= entries.len(),
            copies@.len() == i,
            forall|j: int| 0 <= j < i ==> (#[trigger] copies@[j])@ == entries@[j]@,
        decreases entries.len() - i,
    {
        copies.push(entries[i].clone());
        i += 1;
    }
    assert(entry_views(copies@) =~= entry_views(entries@));
    copies
}

impl Clone for Route {
    fn clone(&self) -> (copy: Self)
        ensures
            copy@ == self@,
    {
        match self {
            Route::Page { html_endpoint, data_endpoint } => Route::Page {
                html_endpoint: *html_endpoint,
                data_endpoint: *data_endpoint,
            },
            Route::PageApi { endpoint } => Route::PageApi { endpoint: *endpoint },
            Route::AppPage(entries) => Route::AppPage(entries_clone(entries)),
            Route::AppRoute { original_name, endpoint } => Route::AppRoute {
                original_name: original_name.clone(),
                endpoint: *endpoint,
            },
            Route::Conflict => Route::Conflict,
        }
    }
}

impl PartialEq for Route {
    fn eq(&self, other: &Self) -> (same: bool) {
        match self {
            Route::Page { html_endpoint, data_endpoint } => match other {
                Route::Page { html_endpoint: other_html, data_endpoint: other_data } => {
                    html_endpoint.id == other_html.id && data_endpoint.id == other_data.id
                },
                _ => false,
            },
            Route::PageApi { endpoint } => match other {
                Route::PageApi { endpoint: other_endpoint } => endpoint.id == other_endpoint.id,
                _ => false,
            },
            Route::AppPage(entries) => match other {
                Route::AppPage(others) => entries_same(entries, others),
                _ => false,
            },
            Route::AppRoute { original_name, endpoint } => match other {
                Route::AppRoute { original_name: other_name, endpoint: other_endpoint } => {
                    *original_name == *other_name && endpoint.id == other_endpoint.id
                },
                _ => false,
            },
            Route::Conflict => match other {
                Route::Conflict => true,
                _ => false,
            },
        }
    }
}

impl PartialEqSpecImpl for Route {
    open spec fn obeys_eq_spec() -> bool {
        true
    }

    open spec fn eq_spec(&self, other: &Self) -> bool {
        self@.same(other@)
    }
}

impl Eq for Route {

}

/// Equality of routes is an equivalence: every route equals itself, and
/// equality can be turned round and chained.
pub proof fn lemma_same_is_equivalence(a: RouteView, b: RouteView, c: RouteView)
    ensures
        a.same(a),
        a.same(b) ==> b.same(a),
        a.same(b) && b.same(c) ==> a.same(c),
{
    match a {
        RouteView::AppPage(entries) => {
            assert(all_same(entries, entries));
            if a.same(b) {
                let others = b->AppPage_0;
                assert forall|i: int| 0 <= i < others.len() implies (#[trigger] others[i]).same(
                    entries[i],
                ) by {
                    assert(entries[i].same(others[i]));
                }
                if b.same(c) {
                    let thirds = c->AppPage_0;
                    assert forall|i: int| 0 <= i < entries.len() implies (
                    #[trigger] entries[i]).same(thirds[i]) by {
                        assert(entries[i].same(others[i]));
                        assert(others[i].same(thirds[i]));
                    }
                }
            }
        },
        _ => {},
    }
}

} // verus!
