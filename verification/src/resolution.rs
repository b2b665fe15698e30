//! The resolution protocol: every pending reference reachable from a route is
//! forced to its canonical identity, and the route changes only if all of them
//! could be forced.
//!
//! Forcing is the engine's work and may suspend, so the protocol is a state
//! machine. [`Route::start_resolve`] and [`Resolution::forced`] say which
//! reference to force next and take the outcome back; whoever drives them does
//! the forcing. [`Route::resolve`] drives them against a forcing function that
//! answers at once.

use crate::reference::{EndpointRef, PendingEndpoint, ResolvedEndpoint};
use crate::route::{entry_views, AppPageRoute, AppPageRouteView, Route, RouteView};
use vstd::prelude::*;

verus! {

/// Forcing a pending reference failed: the reference, and the failure as the
/// engine reported it.
#[derive(Debug)]
pub struct ResolutionError<E> {
    pub reference: PendingEndpoint,
    pub cause: E,
}

/// The endpoint references of a list of entries in the order in which they are
/// forced: for each entry its HTML endpoint, then its RSC endpoint.
pub open spec fn entry_slots(entries: Seq<AppPageRouteView>) -> Seq<EndpointRef> {
    Seq::new(
        2 * entries.len(),
        |k: int|
            if k % 2 == 0 {
                entries[k / 2].html_endpoint
            } else {
                entries[k / 2].rsc_endpoint
            },
    )
}

/// The entries with slot `k` replaced by the canonical reference `ids[k]`, for
/// every `k`.
pub open spec fn entries_settled(
    entries: Seq<AppPageRouteView>,
    ids: Seq<ResolvedEndpoint>,
) -> Seq<AppPageRouteView> {
    Seq::new(
        entries.len(),
        |i: int|
            AppPageRouteView {
                original_name: entries[i].original_name,
                html_endpoint: EndpointRef::Canonical(ids[2 * i]),
                rsc_endpoint: EndpointRef::Canonical(ids[2 * i + 1]),
            },
    )
}

impl RouteView {
    /// The references of the route that resolution looks at, in order. Only an
    /// app-router page has any: the other kinds hold canonical references by
    /// construction.
    pub open spec fn slots(self) -> Seq<EndpointRef> {
        match self {
            RouteView::AppPage(entries) => entry_slots(entries),
            RouteView::Page { .. } => Seq::empty(),
            RouteView::PageApi { .. } => Seq::empty(),
            RouteView::AppRoute { .. } => Seq::empty(),
            RouteView::Conflict => Seq::empty(),
        }
    }

    /// The route with slot `k` replaced by the canonical reference `ids[k]`,
    /// for every `k`.
    pub open spec fn settled(self, ids: Seq<ResolvedEndpoint>) -> RouteView {
        match self {
            RouteView::AppPage(entries) => RouteView::AppPage(entries_settled(entries, ids)),
            RouteView::Page { .. } => self,
            RouteView::PageApi { .. } => self,
            RouteView::AppRoute { .. } => self,
            RouteView::Conflict => self,
        }
    }
}

/// Extends `done`, the canonical references found for the first slots, over
/// the slots that follow for as long as they are canonical already.
pub open spec fn scan(slots: Seq<EndpointRef>, done: Seq<ResolvedEndpoint>) -> Seq<
    ResolvedEndpoint,
>
    decreases slots.len() - done.len(),
{
    if done.len() < slots.len() {
        match slots[done.len() as int] {
            EndpointRef::Canonical(id) => scan(slots, done.push(id)),
            EndpointRef::Pending(_) => done,
        }
    } else {
        done
    }
}

/// `done` assigns to each of the first slots that is canonical already its own
/// identity.
pub open spec fn keeps_canonical(slots: Seq<EndpointRef>, done: Seq<ResolvedEndpoint>) -> bool {
    &&& done.len() <= slots.len()
    &&& forall|j: int|
        0 <= j < done.len() ==> ((#[trigger] slots[j]) matches EndpointRef::Canonical(id)
            ==> done[j] == id)
}

/// What [`scan`] reaches: it keeps what was found, adds only the identities of
/// canonical slots, and stops at the end or in front of a pending slot.
pub proof fn lemma_scan(slots: Seq<EndpointRef>, done: Seq<ResolvedEndpoint>)
    requires
        done.len() <= slots.len(),
    ensures
        done.len() <= scan(slots, done).len() <= slots.len(),
        forall|j: int| 0 <= j < done.len() ==> scan(slots, done)[j] == done[j],
        forall|j: int|
            done.len() <= j < scan(slots, done).len() ==> #[trigger] slots[j]
                == EndpointRef::Canonical(scan(slots, done)[j]),
        scan(slots, done).len() < slots.len() ==> slots[scan(slots, done).len() as int]
            is Pending,
        keeps_canonical(slots, done) ==> keeps_canonical(slots, scan(slots, done)),
    decreases slots.len() - done.len(),
{
    if done.len() < slots.len() {
        match slots[done.len() as int] {
            EndpointRef::Canonical(id) => {
                let next = done.push(id);
                let reached = scan(slots, next);
                lemma_scan(slots, next);
                assert(reached == scan(slots, done));
                assert forall|j: int| 0 <= j < done.len() implies reached[j] == done[j] by {
                    assert(next[j] == done[j]);
                }
                assert forall|j: int| done.len() <= j < reached.len() implies #[trigger] slots[j]
                    == EndpointRef::Canonical(reached[j]) by {
                    if j == done.len() {
                        assert(next[j] == id);
                    }
                }
                if keeps_canonical(slots, done) {
                    assert(keeps_canonical(slots, next)) by {
                        assert forall|j: int| 0 <= j < next.len() implies ((
                        #[trigger] slots[j]) matches EndpointRef::Canonical(c) ==> next[j]
                            == c) by {
                            if j < done.len() {
                                assert(next[j] == done[j]);
                            }
                        }
                    }
                }
            },
            EndpointRef::Pending(_) => {},
        }
    }
}

/// The mathematical value of a [`Resolution`]: the route as it was handed in,
/// and the canonical references found for its first slots.
pub struct ResolutionView {
    pub route: RouteView,
    pub done: Seq<ResolvedEndpoint>,
}

impl ResolutionView {
    /// A resolution in progress waits for the outcome of forcing one pending
    /// slot, and has kept the identity of every canonical slot before it.
    pub open spec fn valid(self) -> bool {
        &&& self.done.len() < self.route.slots().len()
        &&& self.route.slots()[self.done.len() as int] is Pending
        &&& keeps_canonical(self.route.slots(), self.done)
    }

    /// The pending reference whose forcing the resolution waits for.
    pub open spec fn awaiting(self) -> PendingEndpoint {
        self.route.slots()[self.done.len() as int]->Pending_0
    }
}

/// The mathematical value of a [`ResolveStep`].
pub enum ResolveStepView<E> {
    Force(ResolutionView),
    Done(RouteView),
    Failed(RouteView, ResolutionError<E>),
}

/// Where resolution of `route` stands once `done` holds the canonical
/// references of its first slots: in front of the next pending slot, or at the
/// end with the resolved route.
pub open spec fn walk<E>(route: RouteView, done: Seq<ResolvedEndpoint>) -> ResolveStepView<E> {
    let reached = scan(route.slots(), done);
    if reached.len() < route.slots().len() {
        ResolveStepView::Force(ResolutionView { route, done: reached })
    } else {
        ResolveStepView::Done(route.settled(reached))
    }
}

/// Where resolution stands after the engine answered for the slot that
/// `state` waited for. A failure ends it with the route as it was handed in.
pub open spec fn after_forcing<E>(
    state: ResolutionView,
    outcome: Result<ResolvedEndpoint, E>,
) -> ResolveStepView<E> {
    match outcome {
        Ok(id) => walk(state.route, state.done.push(id)),
        Err(cause) => ResolveStepView::Failed(
            state.route,
            ResolutionError { reference: state.awaiting(), cause },
        ),
    }
}

/// A resolution that waits for the engine to force one pending reference.
///
/// It owns the route, which stays as it was handed in until every reference
/// has been forced: nobody can observe a route that is resolved in part.
#[derive(Debug)]
pub struct Resolution {
    entries: Vec<AppPageRoute>,
    done: Vec<ResolvedEndpoint>,
    pending: PendingEndpoint,
}

impl View for Resolution {
    type V = ResolutionView;

    closed spec fn view(&self) -> ResolutionView {
        ResolutionView {
            route: RouteView::AppPage(entry_views(self.entries@)),
            done: self.done@,
        }
    }
}

/// One step of the resolution protocol: what its driver has to do next.
#[derive(Debug)]
pub enum ResolveStep<E> {
    /// Force [`Resolution::pending`] and hand the outcome to
    /// [`Resolution::forced`].
    Force(Resolution),
    /// Every reference is canonical: the resolved route.
    Done(Route),
    /// Forcing failed: the route as it was before resolution began, and the
    /// failure.
    Failed(Route, ResolutionError<E>),
}

impl<E> View for ResolveStep<E> {
    type V = ResolveStepView<E>;

    open spec fn view(&self) -> ResolveStepView<E> {
        match *self {
            ResolveStep::Force(resolution) => ResolveStepView::Force(resolution@),
            ResolveStep::Done(route) => ResolveStepView::Done(route@),
            ResolveStep::Failed(route, error) => ResolveStepView::Failed(route@, error),
        }
    }
}

/// Slot `k` of the entries.
fn slot_at(entries: &Vec<AppPageRoute>, k: usize) -> (slot: EndpointRef)
    requires
        k < 2 * entries@.len(),
    ensures
        slot == entry_slots(entry_views(entries@))[k as int],
{
    let entry = &entries[k / 2];
    if k % 2 == 0 {
        entry.html_endpoint
    } else {
        entry.rsc_endpoint
    }
}

/// The entries with every slot replaced by the canonical reference found for
/// it.
fn settle(entries: &Vec<AppPageRoute>, ids: &Vec<ResolvedEndpoint>) -> (settled: Vec<AppPageRoute>)
    requires
        ids@.len() == 2 * entries@.len(),
    ensures
        entry_views(settled@) == entries_settled(entry_views(entries@), ids@),
{
    let mut settled: Vec<AppPageRoute> = Vec::new();
    let mut i: usize = 0;
    while i < entries.len()
        invariant
            i <= entries.len(),
            ids@.len() == 2 * entries@.len(),
            settled@.len() == i,
            forall|j: int|
                0 <= j < i ==> (#[trigger] settled@[j])@ == entries_settled(
                    entry_views(entries@),
                    ids@,
                )[j],
        decreases entries.len() - i,
    {
        assert(2 * i + 1 < ids.len());
        settled.push(
            AppPageRoute {
                original_name: entries[i].original_name.clone(),
                html_endpoint: EndpointRef::Canonical(ids[2 * i]),
                rsc_endpoint: EndpointRef::Canonical(ids[2 * i + 1]),
            },
        );
        i += 1;
    }
    assert(entry_views(settled@) =~= entries_settled(entry_views(entries@), ids@));
    settled
}

/// Walks on from the slots that `found` covers.
fn advance<E>(entries: Vec<AppPageRoute>, found: Vec<ResolvedEndpoint>) -> (step: ResolveStep<E>)
    requires
        keeps_canonical(entry_slots(entry_views(entries@)), found@),
    ensures
        step@ == walk::<E>(RouteView::AppPage(entry_views(entries@)), found@),
{
    let ghost slots = entry_slots(entry_views(entries@));
    let mut done = found;
    while done.len() / 2 < entries.len()
        invariant
            slots == entry_slots(entry_views(entries@)),
            keeps_canonical(slots, done@),
            scan(slots, done@) == scan(slots, found@),
        decreases slots.len() - done@.len(),
    {
        match slot_at(&entries, done.len()) {
            EndpointRef::Canonical(id) => {
                done.push(id);
            },
            EndpointRef::Pending(pending) => {
                assert(scan(slots, done@) == done@);
                return ResolveStep::Force(Resolution { entries, done, pending });
            },
        }
    }
    assert(scan(slots, done@) == done@);
    ResolveStep::Done(Route::AppPage(settle(&entries, &done)))
}

impl Route {
    /// Begins the resolution of this route.
    ///
    /// The step returned asks for the first pending reference to be forced,
    /// or, where the route holds none, gives the route back as it is.
    pub fn start_resolve<E>(self) -> (step: ResolveStep<E>)
        ensures
            step@ == walk::<E>(self@, Seq::empty()),
    {
        match self {
            Route::AppPage(entries) => advance(entries, Vec::new()),
            Route::Page { html_endpoint, data_endpoint } => ResolveStep::Done(
                Route::Page { html_endpoint, data_endpoint },
            ),
            Route::PageApi { endpoint } => ResolveStep::Done(Route::PageApi { endpoint }),
            Route::AppRoute { original_name, endpoint } => ResolveStep::Done(
                Route::AppRoute { original_name, endpoint },
            ),
            Route::Conflict => ResolveStep::Done(Route::Conflict),
        }
    }
}

impl Resolution {
    #[verifier::type_invariant]
    spec fn inv(&self) -> bool {
        self@.valid() && self.pending == self@.awaiting()
    }

    /// The pending reference that the engine has to force next.
    pub fn pending(&self) -> (pending: PendingEndpoint)
        ensures
            pending == self@.awaiting(),
            self@.valid(),
    {
        proof {
            use_type_invariant(self);
        }
        self.pending
    }

    /// Takes the outcome of forcing [`Resolution::pending`].
    ///
    /// A canonical reference is kept for the slot and the walk goes on to the
    /// next pending reference, or ends with the resolved route. A failure ends
    /// the resolution: the route comes back as it was handed in.
    pub fn forced<E>(self, outcome: Result<ResolvedEndpoint, E>) -> (step: ResolveStep<E>)
        ensures
            step@ == after_forcing(self@, outcome),
    {
        proof {
            use_type_invariant(&self);
        }
        let Resolution { entries, done, pending } = self;
        match outcome {
            Ok(id) => {
                let mut done = done;
                done.push(id);
                advance(entries, done)
            },
            Err(cause) => ResolveStep::Failed(
                Route::AppPage(entries),
                ResolutionError { reference: pending, cause },
            ),
        }
    }
}

/// Forcing with `force` may settle `slot` to the canonical reference `id`: a
/// canonical slot keeps its own identity, a pending one gets what `force`
/// answers for it.
pub open spec fn settles<E, F: Fn(PendingEndpoint) -> Result<ResolvedEndpoint, E>>(
    force: F,
    slot: EndpointRef,
    id: ResolvedEndpoint,
) -> bool {
    match slot {
        EndpointRef::Canonical(own) => id == own,
        EndpointRef::Pending(pending) => call_ensures(
            force,
            (pending,),
            Ok::<ResolvedEndpoint, E>(id),
        ),
    }
}

/// `after` is `before` with both references forced by `force`, and the same
/// name.
pub open spec fn entry_resolved_by<E, F: Fn(PendingEndpoint) -> Result<ResolvedEndpoint, E>>(
    force: F,
    before: AppPageRouteView,
    after: AppPageRouteView,
) -> bool {
    &&& after.original_name == before.original_name
    &&& after.html_endpoint matches EndpointRef::Canonical(html)
    &&& settles(force, before.html_endpoint, html)
    &&& after.rsc_endpoint matches EndpointRef::Canonical(rsc)
    &&& settles(force, before.rsc_endpoint, rsc)
}

/// `after` is `before` with every entry forced by `force`, in the same order.
pub open spec fn entries_resolved_by<E, F: Fn(PendingEndpoint) -> Result<ResolvedEndpoint, E>>(
    force: F,
    before: Seq<AppPageRouteView>,
    after: Seq<AppPageRouteView>,
) -> bool {
    &&& after.len() == before.len()
    &&& forall|i: int|
        0 <= i < before.len() ==> entry_resolved_by(force, before[i], #[trigger] after[i])
}

/// `after` is what resolution with `force` makes of `before`: an app-router
/// page with every reference forced, any other route unchanged.
pub open spec fn resolved_by<E, F: Fn(PendingEndpoint) -> Result<ResolvedEndpoint, E>>(
    force: F,
    before: RouteView,
    after: RouteView,
) -> bool {
    match before {
        RouteView::AppPage(entries) => match after {
            RouteView::AppPage(forced) => entries_resolved_by(force, entries, forced),
            _ => false,
        },
        RouteView::Page { .. } => after == before,
        RouteView::PageApi { .. } => after == before,
        RouteView::AppRoute { .. } => after == before,
        RouteView::Conflict => after == before,
    }
}

/// Forcing with `force` went well for the first slots, with the identities
/// `done`, and failed at the slot after them with `error`.
pub open spec fn fails_after<E, F: Fn(PendingEndpoint) -> Result<ResolvedEndpoint, E>>(
    force: F,
    slots: Seq<EndpointRef>,
    done: Seq<ResolvedEndpoint>,
    error: ResolutionError<E>,
) -> bool {
    &&& done.len() < slots.len()
    &&& slots[done.len() as int] == EndpointRef::Pending(error.reference)
    &&& call_ensures(force, (error.reference,), Err::<ResolvedEndpoint, E>(error.cause))
    &&& forall|k: int| 0 <= k < done.len() ==> settles(force, #[trigger] slots[k], done[k])
}

/// Resolution of `route` with `force` fails with `error`: `error.reference` is
/// the first pending reference of the route for which `force` answered with a
/// failure, and `error.cause` is that failure.
pub open spec fn failed_by<E, F: Fn(PendingEndpoint) -> Result<ResolvedEndpoint, E>>(
    force: F,
    route: RouteView,
    error: ResolutionError<E>,
) -> bool {
    exists|done: Seq<ResolvedEndpoint>| #[trigger] fails_after(force, route.slots(), done, error)
}

impl AppPageRouteView {
    /// The entry holds the pending reference `pending`.
    pub open spec fn holds_pending(self, pending: PendingEndpoint) -> bool {
        self.html_endpoint == EndpointRef::Pending(pending) || self.rsc_endpoint
            == EndpointRef::Pending(pending)
    }
}

/// Resolution of `entry` with `force` fails with `error`: as [`failed_by`], for
/// the HTML endpoint and then the RSC endpoint of the one entry.
pub open spec fn entry_failed_by<E, F: Fn(PendingEndpoint) -> Result<ResolvedEndpoint, E>>(
    force: F,
    entry: AppPageRouteView,
    error: ResolutionError<E>,
) -> bool {
    failed_by(force, RouteView::AppPage(seq![entry]), error)
}

impl RouteView {
    /// The route holds the pending reference `pending`.
    pub open spec fn holds_pending(self, pending: PendingEndpoint) -> bool {
        exists|k: int|
            0 <= k < self.slots().len() && #[trigger] self.slots()[k] == EndpointRef::Pending(
                pending,
            )
    }
}

/// What holds of every step of a resolution of `route` that `force` answers:
/// the route handed in is kept, what was found so far is what `force` may
/// answer, and so is the end.
pub open spec fn driven<E, F: Fn(PendingEndpoint) -> Result<ResolvedEndpoint, E>>(
    force: F,
    route: RouteView,
    step: ResolveStepView<E>,
) -> bool {
    match step {
        ResolveStepView::Force(state) => {
            &&& state.route == route
            &&& state.valid()
            &&& forall|k: int|
                0 <= k < state.done.len() ==> settles(
                    force,
                    #[trigger] route.slots()[k],
                    state.done[k],
                )
        },
        ResolveStepView::Done(resolved) => {
            &&& resolved_by(force, route, resolved)
            &&& resolved.is_resolved()
            &&& route.is_resolved() ==> resolved == route
        },
        ResolveStepView::Failed(kept, error) => kept == route && failed_by(force, route, error),
    }
}

/// The even slots of a list of entries are the HTML endpoints, the odd ones
/// the RSC endpoints.
pub proof fn lemma_entry_slots(entries: Seq<AppPageRouteView>, i: int)
    requires
        0 <= i < entries.len(),
    ensures
        entry_slots(entries).len() == 2 * entries.len(),
        entry_slots(entries)[2 * i] == entries[i].html_endpoint,
        entry_slots(entries)[2 * i + 1] == entries[i].rsc_endpoint,
{
}

/// A walk that starts from identities that `force` may answer ends in a step
/// of which [`driven`] holds.
pub proof fn lemma_walk_driven<E, F: Fn(PendingEndpoint) -> Result<ResolvedEndpoint, E>>(
    force: F,
    route: RouteView,
    done: Seq<ResolvedEndpoint>,
)
    requires
        keeps_canonical(route.slots(), done),
        forall|k: int| 0 <= k < done.len() ==> settles(force, #[trigger] route.slots()[k], done[k]),
    ensures
        driven(force, route, walk::<E>(route, done)),
{
    let slots = route.slots();
    let reached = scan(slots, done);
    lemma_scan(slots, done);
    assert forall|k: int| 0 <= k < reached.len() implies settles(
        force,
        #[trigger] slots[k],
        reached[k],
    ) by {
        if k < done.len() {
            assert(reached[k] == done[k]);
        }
    }
    if reached.len() >= slots.len() {
        match route {
            RouteView::AppPage(entries) => {
                let forced = entries_settled(entries, reached);
                assert forall|i: int| 0 <= i < entries.len() implies entry_resolved_by(
                    force,
                    entries[i],
                    #[trigger] forced[i],
                ) by {
                    lemma_entry_slots(entries, i);
                    assert(settles(force, slots[2 * i], reached[2 * i]));
                    assert(settles(force, slots[2 * i + 1], reached[2 * i + 1]));
                }
                assert forall|i: int| 0 <= i < forced.len() implies (
                #[trigger] forced[i]).is_resolved() by {}
                if route.is_resolved() {
                    assert forall|i: int| 0 <= i < entries.len() implies forced[i]
                        == entries[i] by {
                        lemma_entry_slots(entries, i);
                        assert(entries[i].is_resolved());
                        assert(settles(force, slots[2 * i], reached[2 * i]));
                        assert(settles(force, slots[2 * i + 1], reached[2 * i + 1]));
                    }
                    assert(forced =~= entries);
                }
            },
            _ => {},
        }
    }
}

/// Resolution begins in a step of which [`driven`] holds.
pub proof fn lemma_start_driven<E, F: Fn(PendingEndpoint) -> Result<ResolvedEndpoint, E>>(
    force: F,
    route: RouteView,
)
    ensures
        driven(force, route, walk::<E>(route, Seq::empty())),
{
    lemma_walk_driven::<E, F>(force, route, Seq::empty());
}

/// An answer that `force` may give for the awaited reference leads from a step
/// of which [`driven`] holds to another.
pub proof fn lemma_forced_driven<E, F: Fn(PendingEndpoint) -> Result<ResolvedEndpoint, E>>(
    force: F,
    route: RouteView,
    state: ResolutionView,
    outcome: Result<ResolvedEndpoint, E>,
)
    requires
        driven(force, route, ResolveStepView::<E>::Force(state)),
        call_ensures(force, (state.awaiting(),), outcome),
    ensures
        driven(force, route, after_forcing(state, outcome)),
{
    let slots = route.slots();
    match outcome {
        Ok(id) => {
            let next = state.done.push(id);
            assert forall|k: int| 0 <= k < next.len() implies settles(
                force,
                #[trigger] slots[k],
                next[k],
            ) by {
                if k < state.done.len() {
                    assert(next[k] == state.done[k]);
                }
            }
            assert(keeps_canonical(slots, next)) by {
                assert forall|j: int| 0 <= j < next.len() implies ((
                #[trigger] slots[j]) matches EndpointRef::Canonical(own) ==> next[j] == own) by {
                    if j < state.done.len() {
                        assert(next[j] == state.done[j]);
                    }
                }
            }
            lemma_walk_driven::<E, F>(force, route, next);
        },
        Err(cause) => {
            let error = ResolutionError { reference: state.awaiting(), cause };
            assert(fails_after(force, slots, state.done, error));
        },
    }
}

impl Route {
    /// Resolves the route in place: every pending reference is forced with
    /// `force`, in the declared order of the entries and, within an entry, the
    /// HTML endpoint before the RSC endpoint.
    ///
    /// The call is atomic. It works on a copy and swaps it in at the end; when
    /// `force` fails for a reference, nothing is forced after it and the
    /// route is left as it was. A route that is resolved already stays as it
    /// is, and `force` is not called for it.
    pub fn resolve<E, F: Fn(PendingEndpoint) -> Result<ResolvedEndpoint, E>>(
        &mut self,
        force: F,
    ) -> (result: Result<(), ResolutionError<E>>)
        requires
            forall|pending: PendingEndpoint|
                old(self)@.holds_pending(pending) ==> call_requires(force, (pending,)),
        ensures
            match result {
                Ok(()) => final(self)@.is_resolved() && resolved_by(
                    force,
                    old(self)@,
                    final(self)@,
                ),
                Err(error) => final(self)@ == old(self)@ && failed_by(force, old(self)@, error),
            },
            old(self)@.is_resolved() ==> result is Ok && final(self)@ == old(self)@,
    {
        let ghost route = self@;
        let mut step: ResolveStep<E> = self.clone().start_resolve();
        proof {
            lemma_start_driven::<E, F>(force, route);
        }
        loop
            invariant
                self@ == route,
                route == old(self)@,
                driven(force, route, step@),
                forall|pending: PendingEndpoint|
                    route.holds_pending(pending) ==> call_requires(force, (pending,)),
            decreases
                    (match step@ {
                        ResolveStepView::Force(state) => route.slots().len() - state.done.len(),
                        _ => 0,
                    }),
        {
            match step {
                ResolveStep::Force(resolution) => {
                    let pending = resolution.pending();
                    assert(route.holds_pending(pending)) by {
                        assert(route.slots()[resolution@.done.len() as int]
                            == EndpointRef::Pending(pending));
                    }
                    let outcome = force(pending);
                    proof {
                        lemma_forced_driven(force, route, resolution@, outcome);
                        lemma_scan(route.slots(), resolution@.done.push(outcome->Ok_0));
                    }
                    step = resolution.forced(outcome);
                },
                ResolveStep::Done(resolved) => {
                    *self = resolved;
                    return Ok(());
                },
                ResolveStep::Failed(_, error) => {
                    proof {
                        if route.is_resolved() {
                            lemma_resolved_holds_no_pending(route);
                            let done = choose|done: Seq<ResolvedEndpoint>| #[trigger]
                                fails_after(force, route.slots(), done, error);
                            assert(route.slots()[done.len() as int] is Pending);
                        }
                    }
                    return Err(error);
                },
            }
        }
    }
}

/// A resolved route holds no pending slot.
pub proof fn lemma_resolved_holds_no_pending(route: RouteView)
    requires
        route.is_resolved(),
    ensures
        forall|k: int| 0 <= k < route.slots().len() ==> (#[trigger] route.slots()[k]) is Canonical,
{
    match route {
        RouteView::AppPage(entries) => {
            assert forall|k: int| 0 <= k < route.slots().len() implies (
            #[trigger] route.slots()[k]) is Canonical by {
                assert(entries[k / 2].is_resolved());
            }
        },
        _ => {},
    }
}

impl AppPageRoute {
    /// Resolves the entry in place: the HTML endpoint is forced with `force`,
    /// then the RSC endpoint.
    ///
    /// The entry changes only if both could be forced. A reference that is
    /// canonical already is kept, and `force` is not called for it.
    pub fn resolve<E, F: Fn(PendingEndpoint) -> Result<ResolvedEndpoint, E>>(
        &mut self,
        force: F,
    ) -> (result: Result<(), ResolutionError<E>>)
        requires
            forall|pending: PendingEndpoint|
                old(self)@.holds_pending(pending) ==> call_requires(force, (pending,)),
        ensures
            match result {
                Ok(()) => entry_resolved_by(force, old(self)@, final(self)@),
                Err(error) => final(self)@ == old(self)@ && entry_failed_by(
                    force,
                    old(self)@,
                    error,
                ),
            },
            old(self)@.is_resolved() ==> result is Ok && final(self)@ == old(self)@,
    {
        let ghost route = RouteView::AppPage(seq![self@]);
        proof {
            lemma_entry_slots(seq![self@], 0);
        }
        let html = match self.html_endpoint {
            EndpointRef::Canonical(id) => id,
            EndpointRef::Pending(pending) => {
                assert(route.slots()[0] == EndpointRef::Pending(pending));
                assert(old(self)@.holds_pending(pending));
                match force(pending) {
                    Ok(id) => id,
                    Err(cause) => {
                        let error = ResolutionError { reference: pending, cause };
                        assert(fails_after(force, route.slots(), Seq::empty(), error));
                        return Err(error);
                    },
                }
            },
        };
        let rsc = match self.rsc_endpoint {
            EndpointRef::Canonical(id) => id,
            EndpointRef::Pending(pending) => {
                assert(route.slots()[1] == EndpointRef::Pending(pending));
                assert(old(self)@.holds_pending(pending));
                match force(pending) {
                    Ok(id) => id,
                    Err(cause) => {
                        let error = ResolutionError { reference: pending, cause };
                        assert(fails_after(force, route.slots(), seq![html], error));
                        return Err(error);
                    },
                }
            },
        };
        self.html_endpoint = EndpointRef::Canonical(html);
        self.rsc_endpoint = EndpointRef::Canonical(rsc);
        Ok(())
    }
}

/// Resolution is idempotent: what it makes of a resolved route is that route.
pub proof fn lemma_resolved_is_fixed_point<E, F: Fn(PendingEndpoint) -> Result<ResolvedEndpoint, E>>(
    force: F,
    route: RouteView,
    after: RouteView,
)
    requires
        route.is_resolved(),
        resolved_by(force, route, after),
    ensures
        after == route,
{
    match route {
        RouteView::AppPage(entries) => {
            let forced = after->AppPage_0;
            assert forall|i: int| 0 <= i < entries.len() implies forced[i] == entries[i] by {
                assert(entries[i].is_resolved());
                assert(entry_resolved_by(force, entries[i], forced[i]));
            }
            assert(forced =~= entries);
        },
        _ => {},
    }
}

/// What resolution makes of a route is resolved, so resolving it once more
/// changes nothing.
pub proof fn lemma_resolve_twice<E, F: Fn(PendingEndpoint) -> Result<ResolvedEndpoint, E>>(
    force: F,
    route: RouteView,
    once: RouteView,
    twice: RouteView,
)
    requires
        resolved_by(force, route, once),
        resolved_by(force, once, twice),
    ensures
        once.is_resolved(),
        twice == once,
{
    match route {
        RouteView::AppPage(entries) => {
            let forced = once->AppPage_0;
            assert forall|i: int| 0 <= i < forced.len() implies (#[trigger] forced[i]).is_resolved() by {
                assert(entry_resolved_by(force, entries[i], forced[i]));
            }
            lemma_resolved_is_fixed_point(force, once, twice);
        },
        _ => {},
    }
}

/// A resolved route needs no forcing: its resolution is done when it begins,
/// with the route as it is.
pub proof fn lemma_resolved_needs_no_forcing<E>(route: RouteView)
    requires
        route.is_resolved(),
    ensures
        walk::<E>(route, Seq::empty()) == ResolveStepView::<E>::Done(route),
{
    let slots = route.slots();
    let reached = scan(slots, Seq::empty());
    lemma_scan(slots, Seq::empty());
    lemma_resolved_holds_no_pending(route);
    match route {
        RouteView::AppPage(entries) => {
            let forced = entries_settled(entries, reached);
            assert forall|i: int| 0 <= i < entries.len() implies forced[i] == entries[i] by {
                lemma_entry_slots(entries, i);
                assert(entries[i].is_resolved());
                assert(slots[2 * i] == EndpointRef::Canonical(reached[2 * i]));
                assert(slots[2 * i + 1] == EndpointRef::Canonical(reached[2 * i + 1]));
            }
            assert(forced =~= entries);
        },
        _ => {},
    }
}

/// Where a resolution stands after the engine gave the outcomes `outcomes`,
/// one for each reference it was asked to force. Outcomes that are left when
/// the resolution has ended are not looked at.
pub open spec fn run<E>(
    step: ResolveStepView<E>,
    outcomes: Seq<Result<ResolvedEndpoint, E>>,
) -> ResolveStepView<E>
    decreases outcomes.len(),
{
    if outcomes.len() == 0 {
        step
    } else {
        match step {
            ResolveStepView::Force(state) => run(
                after_forcing(state, outcomes[0]),
                outcomes.drop_first(),
            ),
            _ => step,
        }
    }
}

/// The route that `step` keeps for its observers: the one handed in while the
/// resolution goes on or after it failed, the resolved one at the end.
pub open spec fn observed<E>(step: ResolveStepView<E>) -> RouteView {
    match step {
        ResolveStepView::Force(state) => state.route,
        ResolveStepView::Done(resolved) => resolved,
        ResolveStepView::Failed(kept, _) => kept,
    }
}

/// Resolution is atomic: whatever the engine answers, the route is seen as it
/// was handed in until the resolution is done. A failure leaves it so.
pub proof fn lemma_route_kept_until_done<E>(
    route: RouteView,
    outcomes: Seq<Result<ResolvedEndpoint, E>>,
)
    ensures
        !(run(walk::<E>(route, Seq::empty()), outcomes) is Done) ==> observed(
            run(walk::<E>(route, Seq::empty()), outcomes),
        ) == route,
{
    lemma_run_keeps_route(route, walk::<E>(route, Seq::empty()), outcomes);
}

proof fn lemma_run_keeps_route<E>(
    route: RouteView,
    step: ResolveStepView<E>,
    outcomes: Seq<Result<ResolvedEndpoint, E>>,
)
    requires
        !(step is Done) ==> observed(step) == route,
    ensures
        !(run(step, outcomes) is Done) ==> observed(run(step, outcomes)) == route,
    decreases outcomes.len(),
{
    if outcomes.len() > 0 {
        match step {
            ResolveStepView::Force(state) => {
                lemma_run_keeps_route(
                    route,
                    after_forcing(state, outcomes[0]),
                    outcomes.drop_first(),
                );
            },
            _ => {},
        }
    }
}

/// `force` answers each pending reference in one way only: forcing a
/// reference again gives the same canonical identity.
pub open spec fn deterministic<E, F: Fn(PendingEndpoint) -> Result<ResolvedEndpoint, E>>(
    force: F,
) -> bool {
    forall|pending: PendingEndpoint, a: Result<ResolvedEndpoint, E>, b: Result<ResolvedEndpoint, E>|
        #[trigger] call_ensures(force, (pending,), a) && #[trigger] call_ensures(
            force,
            (pending,),
            b,
        ) ==> a == b
}

/// The two references name the same endpoint once forced with `force`.
pub open spec fn same_endpoint<E, F: Fn(PendingEndpoint) -> Result<ResolvedEndpoint, E>>(
    force: F,
    a: EndpointRef,
    b: EndpointRef,
) -> bool {
    exists|id: ResolvedEndpoint| #[trigger] settles(force, a, id) && settles(force, b, id)
}

/// The two entries name the same endpoints once forced with `force`.
pub open spec fn equivalent_entries<E, F: Fn(PendingEndpoint) -> Result<ResolvedEndpoint, E>>(
    force: F,
    a: AppPageRouteView,
    b: AppPageRouteView,
) -> bool {
    &&& same_endpoint(force, a.html_endpoint, b.html_endpoint)
    &&& same_endpoint(force, a.rsc_endpoint, b.rsc_endpoint)
}

/// The two routes are the same but for the shape of their references: they
/// are of one kind and name, place by place, the same endpoints once forced
/// with `force`.
pub open spec fn equivalent<E, F: Fn(PendingEndpoint) -> Result<ResolvedEndpoint, E>>(
    force: F,
    a: RouteView,
    b: RouteView,
) -> bool {
    match a {
        RouteView::AppPage(entries) => match b {
            RouteView::AppPage(others) => {
                &&& entries.len() == others.len()
                &&& forall|i: int|
                    0 <= i < entries.len() ==> equivalent_entries(
                        force,
                        #[trigger] entries[i],
                        others[i],
                    )
            },
            _ => false,
        },
        _ => a.same(b),
    }
}

/// Equality is stable under resolution: two routes that differ only in the
/// shape of their references are equal once both are resolved.
pub proof fn lemma_equivalent_routes_resolve_equal<
    E,
    F: Fn(PendingEndpoint) -> Result<ResolvedEndpoint, E>,
>(force: F, a: RouteView, b: RouteView, a_resolved: RouteView, b_resolved: RouteView)
    requires
        deterministic(force),
        equivalent(force, a, b),
        resolved_by(force, a, a_resolved),
        resolved_by(force, b, b_resolved),
    ensures
        a_resolved.same(b_resolved),
{
    match a {
        RouteView::AppPage(entries) => {
            let others = b->AppPage_0;
            let left = a_resolved->AppPage_0;
            let right = b_resolved->AppPage_0;
            assert forall|i: int| 0 <= i < left.len() implies (#[trigger] left[i]).same(
                right[i],
            ) by {
                assert(equivalent_entries(force, entries[i], others[i]));
                assert(entry_resolved_by(force, entries[i], left[i]));
                assert(entry_resolved_by(force, others[i], right[i]));
                lemma_same_endpoint_settles_alike(
                    force,
                    entries[i].html_endpoint,
                    others[i].html_endpoint,
                    left[i].html_endpoint->Canonical_0,
                    right[i].html_endpoint->Canonical_0,
                );
                lemma_same_endpoint_settles_alike(
                    force,
                    entries[i].rsc_endpoint,
                    others[i].rsc_endpoint,
                    left[i].rsc_endpoint->Canonical_0,
                    right[i].rsc_endpoint->Canonical_0,
                );
            }
        },
        _ => {},
    }
}

proof fn lemma_same_endpoint_settles_alike<E, F: Fn(PendingEndpoint) -> Result<ResolvedEndpoint, E>>(
    force: F,
    a: EndpointRef,
    b: EndpointRef,
    a_id: ResolvedEndpoint,
    b_id: ResolvedEndpoint,
)
    requires
        deterministic(force),
        same_endpoint(force, a, b),
        settles(force, a, a_id),
        settles(force, b, b_id),
    ensures
        a_id == b_id,
{
    let id = choose|id: ResolvedEndpoint| #[trigger] settles(force, a, id) && settles(force, b, id);
    assert(settles(force, a, id) && settles(force, b, id));
    lemma_settles_once(force, a, a_id, id);
    lemma_settles_once(force, b, b_id, id);
}

proof fn lemma_settles_once<E, F: Fn(PendingEndpoint) -> Result<ResolvedEndpoint, E>>(
    force: F,
    slot: EndpointRef,
    x: ResolvedEndpoint,
    y: ResolvedEndpoint,
)
    requires
        deterministic(force),
        settles(force, slot, x),
        settles(force, slot, y),
    ensures
        x == y,
{
    match slot {
        EndpointRef::Canonical(_) => {},
        EndpointRef::Pending(pending) => {
            assert(Ok::<ResolvedEndpoint, E>(x) == Ok::<ResolvedEndpoint, E>(y));
        },
    }
}

} // verus!
