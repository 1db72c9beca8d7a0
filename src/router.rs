use vstd::prelude::*;
use crate::graph::{
    count_open_braces, matched, pairs_view, params_fit, template_accepted, Graph, RouteId, MAX_PARAMS,
};
use crate::method::Method;
use crate::method_router::{
    fallbacks_commute, lemma_merge_order, merge_views, resolve_in, table_bound, MergeError,
    MethodRouter,
};
use crate::response::{StatusCode, NOT_FOUND};
use crate::handler::HandlerService;
use crate::route::{fallback_bound, route_bound, Fallback, Route};

verus! {

/// What a path is bound to: a method router, or one route for every method.
#[derive(Clone, Debug)]
pub enum Endpoint<H> {
    MethodRouter(MethodRouter<H>),
    Route(Route<H>),
}

/// An endpoint seen as a method table with its fallback, or as one route.
pub enum EndpointView<H> {
    Methods((Map<Method, Route<H>>, Fallback<H>)),
    Route(Route<H>),
}

impl<H> View for Endpoint<H> {
    type V = EndpointView<H>;

    open spec fn view(&self) -> EndpointView<H> {
        match self {
            Endpoint::MethodRouter(m) => EndpointView::Methods(m@),
            Endpoint::Route(r) => EndpointView::Route(*r),
        }
    }
}

impl<H> Endpoint<H> {
    pub open spec fn wf(self) -> bool {
        self matches Endpoint::MethodRouter(m) ==> m.wf()
    }

    /// Binds `state` to every route of the endpoint.
    pub fn with_state<X, S: Clone>(self, state: &S) -> (r: Endpoint<HandlerService<H, X, S>>)
        requires
            self.wf(),
        ensures
            r.wf(),
            endpoint_bound(self@, r@, *state),
    {
        match self {
            Endpoint::MethodRouter(m) => Endpoint::MethodRouter(m.with_state(state)),
            Endpoint::Route(route) => Endpoint::Route(route.with_state(state)),
        }
    }
}

/// `b` is the endpoint `e` with `state` bound to each of its routes.
pub open spec fn endpoint_bound<H, X, S: Clone>(
    e: EndpointView<H>,
    b: EndpointView<HandlerService<H, X, S>>,
    state: S,
) -> bool {
    match (e, b) {
        (EndpointView::Methods(v), EndpointView::Methods(w)) => table_bound(v.0, w.0, state)
            && fallback_bound(v.1, w.1, state),
        (EndpointView::Route(r), EndpointView::Route(q)) => route_bound(r, q, state),
        _ => false,
    }
}

/// A router's paths and endpoints: the matcher's routes in insertion order, and
/// the endpoint of each route id.
pub type RoutesView<H> = (Seq<(Seq<char>, usize)>, Seq<EndpointView<H>>);

/// Whether `path` is among the templates of `entries`.
pub open spec fn has_path(entries: Seq<(Seq<char>, usize)>, path: Seq<char>) -> bool {
    exists|i: int| 0 <= i < entries.len() && (#[trigger] entries[i]).0 == path
}

/// The position of `path` among the templates of `entries`.
pub open spec fn path_index(entries: Seq<(Seq<char>, usize)>, path: Seq<char>) -> int {
    choose|i: int| 0 <= i < entries.len() && (#[trigger] entries[i]).0 == path
}

/// What registering endpoint `ep` under `path` does: on a path that is there,
/// two method routers merge, a method router added to a single route is
/// dropped, and a single route on either side is refused; a new path is added
/// if the matcher accepts it.
pub open spec fn add_endpoint<H>(v: RoutesView<H>, path: Seq<char>, ep: EndpointView<H>) -> Option<
    RoutesView<H>,
> {
    let (entries, eps) = v;
    if has_path(entries, path) {
        let i = path_index(entries, path);
        match (eps[i], ep) {
            (EndpointView::Methods(a), EndpointView::Methods(b)) => match merge_views(a, b) {
                Some(m) => Some((entries, eps.update(i, EndpointView::Methods(m)))),
                None => None,
            },
            _ => None,
        }
    } else if !params_fit(path) {
        None
    } else if template_accepted(entries, path) {
        Some((entries.push((path, entries.len() as usize)), eps.push(ep)))
    } else {
        None
    }
}

/// Registering, in order, each template of `paths` with its endpoint of `eps`.
pub open spec fn add_all<H>(v: RoutesView<H>, paths: Seq<Seq<char>>, eps: Seq<EndpointView<H>>) -> Option<
    RoutesView<H>,
>
    decreases paths.len(),
{
    if paths.len() == 0 {
        Some(v)
    } else {
        match add_all(v, paths.drop_last(), eps.drop_last()) {
            Some(w) => add_endpoint(w, paths.last(), eps.last()),
            None => None,
        }
    }
}

/// Registering `ep` under `p` once the routes `o` hold are in place.
pub open spec fn then_add<H>(o: Option<RoutesView<H>>, p: Seq<char>, ep: EndpointView<H>) -> Option<
    RoutesView<H>,
> {
    match o {
        Some(w) => add_endpoint(w, p, ep),
        None => None,
    }
}

proof fn lemma_new_path_index<H>(v: RoutesView<H>, p: Seq<char>, ep: EndpointView<H>)
    requires
        !has_path(v.0, p),
    ensures
        has_path(v.0.push((p, v.0.len() as usize)), p),
        path_index(v.0.push((p, v.0.len() as usize)), p) == v.0.len(),
{
    let entries = v.0.push((p, v.0.len() as usize));
    assert(entries[v.0.len() as int].0 == p);
    let j = path_index(entries, p);
    if j < v.0.len() {
        assert(v.0[j].0 == p);
    }
}

/// Registering method routers `a` and `b` under one path, one after the other,
/// gives the same routes in either order, when no method is in both and not
/// both have a fallback of their own.
pub proof fn lemma_registration_order<H>(
    v: RoutesView<H>,
    p: Seq<char>,
    a: MethodRouter<H>,
    b: MethodRouter<H>,
)
    requires
        v.0.len() == v.1.len(),
        a.wf(),
        b.wf(),
        !a.overlaps(b),
        !(a.spec_fallback() is Service && b.spec_fallback() is Service),
    ensures
        then_add(add_endpoint(v, p, EndpointView::Methods(a@)), p, EndpointView::Methods(b@))
            == then_add(add_endpoint(v, p, EndpointView::Methods(b@)), p, EndpointView::Methods(a@)),
{
    let (entries, eps) = v;
    a.lemma_default_fallback();
    b.lemma_default_fallback();
    assert(fallbacks_commute(a.spec_fallback(), b.spec_fallback()));
    lemma_merge_order(a@, a@, b@);
    if has_path(entries, p) {
        let i = path_index(entries, p);
        match eps[i] {
            EndpointView::Methods(e) => {
                lemma_merge_order(e, a@, b@);
                match merge_views(e, a@) {
                    Some(x) => {
                        match merge_views(x, b@) {
                            Some(z) => {
                                assert(eps.update(i, EndpointView::Methods(x)).update(
                                    i,
                                    EndpointView::Methods(z),
                                ) =~= eps.update(i, EndpointView::Methods(z)));
                            },
                            None => {},
                        }
                    },
                    None => {},
                }
                match merge_views(e, b@) {
                    Some(y) => {
                        match merge_views(y, a@) {
                            Some(z) => {
                                assert(eps.update(i, EndpointView::Methods(y)).update(
                                    i,
                                    EndpointView::Methods(z),
                                ) =~= eps.update(i, EndpointView::Methods(z)));
                            },
                            None => {},
                        }
                    },
                    None => {},
                }
            },
            EndpointView::Route(_) => {},
        }
    } else if params_fit(p) && template_accepted(entries, p) {
        let n = entries.len();
        lemma_new_path_index(v, p, EndpointView::Methods(a@));
        let z = merge_views(a@, b@)->Some_0;
        assert(eps.push(EndpointView::Methods(a@)).update(n as int, EndpointView::Methods(z))
            =~= eps.push(EndpointView::Methods(z)));
        assert(eps.push(EndpointView::Methods(b@)).update(n as int, EndpointView::Methods(z))
            =~= eps.push(EndpointView::Methods(z)));
    }
}

/// Registering a method twice under one path fails.
pub proof fn lemma_same_method_twice<H>(
    v: RoutesView<H>,
    p: Seq<char>,
    a: MethodRouter<H>,
    b: MethodRouter<H>,
    m: Method,
)
    requires
        v.0.len() == v.1.len(),
        a.table().contains_key(m),
        b.table().contains_key(m),
    ensures
        then_add(add_endpoint(v, p, EndpointView::Methods(a@)), p, EndpointView::Methods(b@)) is None,
{
    let (entries, eps) = v;
    if has_path(entries, p) {
        let i = path_index(entries, p);
        if let EndpointView::Methods(e) = eps[i] {
            if let Some(x) = merge_views(e, a@) {
                assert(x.0.contains_key(m) && b@.0.contains_key(m));
            }
        }
    } else if params_fit(p) && template_accepted(entries, p) {
        lemma_new_path_index(v, p, EndpointView::Methods(a@));
        assert(a@.0.contains_key(m) && b@.0.contains_key(m));
    }
}

/// In a merge of routers, a fallback of its user's own wins over a default
/// one, on either side; two of them cannot be merged.
pub proof fn lemma_fallback_precedence<H>(a: Router<H>, b: Router<H>)
    ensures
        a.spec_fallback() is Default && b.spec_fallback() is Service ==> a.spec_fallback().spec_merge(
            b.spec_fallback(),
        ) == Some(b.spec_fallback()),
        a.spec_fallback() is Service && b.spec_fallback() is Default ==> a.spec_fallback().spec_merge(
            b.spec_fallback(),
        ) == Some(a.spec_fallback()),
        a.spec_fallback() is Service && b.spec_fallback() is Service ==> a.spec_fallback().spec_merge(
            b.spec_fallback(),
        ) is None,
{
}

proof fn lemma_add_all_step<H>(v: RoutesView<H>, paths: Seq<Seq<char>>, eps: Seq<EndpointView<H>>, k: int)
    requires
        0 <= k < paths.len(),
        paths.len() == eps.len(),
    ensures
        add_all(v, paths.take(k + 1), eps.take(k + 1)) == match add_all(v, paths.take(k), eps.take(k)) {
            Some(w) => add_endpoint(w, paths[k], eps[k]),
            None => None,
        },
{
    assert(paths.take(k + 1).drop_last() =~= paths.take(k));
    assert(eps.take(k + 1).drop_last() =~= eps.take(k));
}

proof fn lemma_add_all_fails<H>(v: RoutesView<H>, paths: Seq<Seq<char>>, eps: Seq<EndpointView<H>>, k: int)
    requires
        0 <= k <= paths.len(),
        paths.len() == eps.len(),
        add_all(v, paths.take(k), eps.take(k)) is None,
    ensures
        add_all(v, paths, eps) is None,
    decreases paths.len() - k,
{
    if k < paths.len() {
        lemma_add_all_step(v, paths, eps, k);
        lemma_add_all_fails(v, paths, eps, k + 1);
    } else {
        assert(paths.take(k) =~= paths);
        assert(eps.take(k) =~= eps);
    }
}

/// Why a registration or a merge failed.
#[derive(Debug)]
pub enum RouteError {
    /// The method routers of one path could not be merged.
    Methods(MergeError),
    /// The path is bound already, and one of the two endpoints is a single route.
    PathTaken { path: String },
    /// The template has more than `MAX_PARAMS` parameters.
    TooManyParameters { path: String },
    /// The matcher refused the template.
    InvalidPath { path: String, error: matchit::InsertError },
    /// Both routers of a merge have a fallback of their own.
    FallbackConflict,
}

/// Routes requests by path, then by method.
#[derive(Debug)]
pub struct Router<H> {
    routes: Vec<Endpoint<H>>,
    graph: Graph,
    catch_all_fallback: Fallback<H>,
}

impl<H> Router<H> {
    pub closed spec fn entries(self) -> Seq<(Seq<char>, usize)> {
        self.graph.entries()
    }

    pub closed spec fn endpoints(self) -> Seq<Endpoint<H>> {
        self.routes@
    }

    pub open spec fn routes_view(self) -> RoutesView<H> {
        (self.entries(), self.endpoints().map_values(|e: Endpoint<H>| e@))
    }

    pub closed spec fn spec_fallback(self) -> Fallback<H> {
        self.catch_all_fallback
    }

    /// The path table is well formed and pairs each template with one
    /// endpoint; a default fallback answers 404 Not Found.
    pub closed spec fn wf(self) -> bool {
        &&& self.catch_all_fallback is Default ==> self.catch_all_fallback == Fallback::Default(
            Route::<H>::Status(StatusCode(NOT_FOUND)),
        )
        &&& self.graph.wf()
        &&& self.routes@.len() == self.graph.templates().len()
        &&& forall|i: int| 0 <= i < self.routes@.len() ==> (#[trigger] self.routes@[i]).wf()
    }

    /// The route that a request for `path` is dispatched to when its method is
    /// none of `Method`'s: a method router answers with its fallback.
    pub open spec fn resolve_other(self, path: Seq<char>) -> Route<H> {
        match matched(self.entries(), path) {
            Some((id, _)) => match self.routes_view().1[id as int] {
                EndpointView::Methods(v) => v.1.spec_route(),
                EndpointView::Route(r) => r,
            },
            None => self.spec_fallback().spec_route(),
        }
    }

    /// The endpoint bound to the template `path`, where one is.
    pub open spec fn bound(self, path: Seq<char>) -> EndpointView<H> {
        self.routes_view().1[path_index(self.entries(), path)]
    }

    /// The route that a request for `path` with method `m` is dispatched to.
    pub open spec fn resolve(self, path: Seq<char>, m: Method) -> Route<H> {
        match matched(self.entries(), path) {
            Some((id, _)) => match self.routes_view().1[id as int] {
                EndpointView::Methods(v) => resolve_in(v.0, v.1, m),
                EndpointView::Route(r) => r,
            },
            None => self.spec_fallback().spec_route(),
        }
    }

    proof fn lemma_entries(self)
        requires
            self.wf(),
        ensures
            self.entries().len() == self.endpoints().len(),
            forall|i: int| 0 <= i < self.entries().len() ==> #[trigger] self.entries()[i] == (
                self.graph.templates()[i],
                i as usize,
            ),
            forall|p: Seq<char>| has_path(self.entries(), p) == self.graph.has_template(p),
    {
        self.graph.lemma_wf();
        assert forall|p: Seq<char>| has_path(self.entries(), p) == self.graph.has_template(p) by {
            if has_path(self.entries(), p) {
                let i = choose|i: int| 0 <= i < self.entries().len() && (#[trigger] self.entries()[i]).0 == p;
                assert(self.graph.templates()[i] == p);
            }
            if self.graph.has_template(p) {
                let i = choose|i: int| 0 <= i < self.graph.templates().len() && self.graph.templates()[i] == p;
                assert(self.entries()[i].0 == p);
            }
        }
    }

    /// A router's view pairs each matcher route with one endpoint, holds route
    /// id `i` under template `i`, holds no template twice, and holds each
    /// template accepted after the ones before it; a default fallback answers
    /// 404 Not Found.
    pub proof fn lemma_view(self)
        requires
            self.wf(),
        ensures
            self.routes_view().0.len() == self.routes_view().1.len(),
            forall|i: int|
                0 <= i < self.entries().len() ==> (#[trigger] self.entries()[i]).1 == i as usize,
            forall|i: int, j: int|
                0 <= i < j < self.entries().len() ==> self.entries()[i].0 != self.entries()[j].0,
            forall|i: int|
                0 <= i < self.entries().len() ==> template_accepted(
                    self.entries().take(i),
                    (#[trigger] self.entries()[i]).0,
                ),
            forall|i: int| 0 <= i < self.entries().len() ==> params_fit((#[trigger] self.entries()[i]).0),
            self.spec_fallback() is Default ==> self.spec_fallback() == Fallback::Default(
                Route::<H>::Status(StatusCode(NOT_FOUND)),
            ),
    {
        self.lemma_entries();
        self.graph.lemma_wf();
        assert forall|i: int| 0 <= i < self.entries().len() implies params_fit(
            (#[trigger] self.entries()[i]).0,
        ) by {
            assert(self.entries()[i].0 == self.graph.templates()[i]);
        }
        assert forall|i: int, j: int|
            0 <= i < j < self.entries().len() implies self.entries()[i].0 != self.entries()[j].0 by {
            assert(self.entries()[i].0 == self.graph.templates()[i]);
            assert(self.entries()[j].0 == self.graph.templates()[j]);
        }
        assert forall|i: int| 0 <= i < self.entries().len() implies template_accepted(
            self.entries().take(i),
            (#[trigger] self.entries()[i]).0,
        ) by {
            assert(self.entries()[i].0 == self.graph.templates()[i]);
        }
    }

    /// A router with no route, whose fallback answers 404 Not Found.
    pub fn new() -> (r: Self)
        ensures
            r.wf(),
            r.routes_view() == (Seq::<(Seq<char>, usize)>::empty(), Seq::<EndpointView<H>>::empty()),
            r.spec_fallback() == Fallback::Default(Route::<H>::Status(StatusCode(NOT_FOUND))),
    {
        let r = Router {
            routes: Vec::new(),
            graph: Graph::new(),
            catch_all_fallback: Fallback::Default(Route::not_found()),
        };
        proof {
            r.graph.lemma_wf();
            assert(r.entries() =~= Seq::<(Seq<char>, usize)>::empty());
            assert(r.routes_view().1 =~= Seq::<EndpointView<H>>::empty());
        }
        r
    }

    /// Whether the fallback is still the one the router started with.
    pub fn has_default_fallback(&self) -> (r: bool)
        ensures
            r == self.spec_fallback() is Default,
    {
        self.catch_all_fallback.is_default()
    }

    /// Binds `ep` to `path`, as `add_endpoint` describes.
    fn add(self, path: &str, ep: Endpoint<H>) -> (r: Result<Self, RouteError>)
        requires
            self.wf(),
            ep.wf(),
        ensures
            r is Ok <==> add_endpoint(self.routes_view(), path@, ep@) is Some,
            r matches Ok(nr) ==> nr.wf() && Some(nr.routes_view()) == add_endpoint(
                self.routes_view(),
                path@,
                ep@,
            ) && nr.spec_fallback() == self.spec_fallback(),
            r matches Err(RouteError::Methods(_)) ==> has_path(self.entries(), path@)
                && ep is MethodRouter,
            r matches Err(RouteError::Methods(MergeError::Overlap { method, path: p })) ==> self.bound(
                path@,
            ) is Methods && self.bound(path@)->Methods_0.0.contains_key(method) && ep is MethodRouter
                && ep->MethodRouter_0.table().contains_key(method) && p is Some && p->Some_0@ == path@,
            r matches Err(RouteError::Methods(MergeError::FallbackConflict)) ==> self.bound(
                path@,
            ) is Methods && self.bound(path@)->Methods_0.1 is Service && ep is MethodRouter
                && ep->MethodRouter_0.spec_fallback() is Service,
            has_path(self.entries(), path@) && self.bound(path@) is Methods && ep is MethodRouter && (
            exists|m: Method|
                self.bound(path@)->Methods_0.0.contains_key(m) && ep->MethodRouter_0.table().contains_key(
                    m,
                )) ==> r matches Err(RouteError::Methods(MergeError::Overlap { .. })),
            r matches Err(RouteError::PathTaken { .. }) ==> has_path(self.entries(), path@) && (ep is Route
                || self.bound(path@) is Route),
            r matches Err(RouteError::TooManyParameters { .. }) ==> !has_path(self.entries(), path@)
                && !params_fit(path@),
            r matches Err(RouteError::InvalidPath { .. }) ==> !has_path(self.entries(), path@)
                && params_fit(path@),
            r matches Err(e) ==> !(e is FallbackConflict),
    {
        proof {
            self.lemma_entries();
            self.graph.lemma_wf();
        }
        let ghost v = self.routes_view();
        let mut this = self;
        match this.graph.route_id(path) {
            Some(id) => {
                proof {
                    let i = path_index(v.0, path@);
                    assert(v.0[id.0 as int].0 == path@);
                    assert(has_path(v.0, path@));
                    assert(v.0[i].0 == path@);
                    if i != id.0 as int {
                        if i < id.0 as int {
                            assert(this.graph.templates()[i] != this.graph.templates()[id.0 as int]);
                        } else {
                            assert(this.graph.templates()[id.0 as int] != this.graph.templates()[i]);
                        }
                    }
                    assert(v.1[id.0 as int] == this.routes@[id.0 as int]@);
                }
                let ghost before = this.routes@;
                let prev = this.routes.remove(id.0);
                assert(prev.wf());
                match (prev, ep) {
                    (Endpoint::MethodRouter(a), Endpoint::MethodRouter(b)) => {
                        match a.merge_for_path(Some(path), b) {
                            Ok(m) => {
                                this.routes.insert(id.0, Endpoint::MethodRouter(m));
                                proof {
                                    assert(this.routes@ =~= before.update(id.0 as int, Endpoint::MethodRouter(m)));
                                    assert(this.routes_view().1 =~= v.1.update(
                                        id.0 as int,
                                        EndpointView::Methods(m@),
                                    ));
                                }
                                Ok(this)
                            },
                            Err(e) => Err(RouteError::Methods(e)),
                        }
                    },
                    _ => Err(RouteError::PathTaken { path: path.to_owned() }),
                }
            },
            None => {
                if count_open_braces(path) > MAX_PARAMS {
                    return Err(RouteError::TooManyParameters { path: path.to_owned() });
                }
                let id = RouteId(this.routes.len());
                let ghost before = this.routes@;
                match this.graph.insert(path, id) {
                    Ok(()) => {
                        this.routes.push(ep);
                        proof {
                            this.graph.lemma_wf();
                            assert forall|i: int| 0 <= i < this.routes@.len() implies (
                            #[trigger] this.routes@[i]).wf() by {
                                if i < before.len() {
                                    assert(before[i] == this.routes@[i]);
                                }
                            }
                            assert(this.entries() =~= v.0.push((path@, id.0)));
                            assert(this.routes_view().1 =~= v.1.push(ep@));
                        }
                        Ok(this)
                    },
                    Err(error) => Err(RouteError::InvalidPath { path: path.to_owned(), error }),
                }
            },
        }
    }

    /// Binds `method_router` to `path`: on a path that is bound already the two
    /// method routers merge.
    pub fn route(self, path: &str, method_router: MethodRouter<H>) -> (r: Result<Self, RouteError>)
        requires
            self.wf(),
            method_router.wf(),
        ensures
            r is Ok <==> add_endpoint(
                self.routes_view(),
                path@,
                EndpointView::Methods(method_router@),
            ) is Some,
            r matches Ok(nr) ==> nr.wf() && Some(nr.routes_view()) == add_endpoint(
                self.routes_view(),
                path@,
                EndpointView::Methods(method_router@),
            ) && nr.spec_fallback() == self.spec_fallback(),
            r matches Err(RouteError::Methods(_)) ==> has_path(self.entries(), path@),
            r matches Err(RouteError::Methods(MergeError::Overlap { method, path: p })) ==> self.bound(
                path@,
            ) is Methods && self.bound(path@)->Methods_0.0.contains_key(method)
                && method_router.table().contains_key(method) && p is Some && p->Some_0@ == path@,
            r matches Err(RouteError::Methods(MergeError::FallbackConflict)) ==> self.bound(
                path@,
            ) is Methods && self.bound(path@)->Methods_0.1 is Service
                && method_router.spec_fallback() is Service,
            has_path(self.entries(), path@) && self.bound(path@) is Methods && (exists|m: Method|
                self.bound(path@)->Methods_0.0.contains_key(m) && method_router.table().contains_key(m))
                ==> r matches Err(RouteError::Methods(MergeError::Overlap { .. })),
            r matches Err(RouteError::PathTaken { .. }) ==> has_path(self.entries(), path@) && self.bound(
                path@,
            ) is Route,
            r matches Err(RouteError::TooManyParameters { .. }) ==> !has_path(self.entries(), path@)
                && !params_fit(path@),
            r matches Err(RouteError::InvalidPath { .. }) ==> !has_path(self.entries(), path@)
                && params_fit(path@),
            r matches Err(e) ==> !(e is FallbackConflict),
    {
        self.add(path, Endpoint::MethodRouter(method_router))
    }

    /// Binds `route` to `path` for every method.
    pub fn route_service(self, path: &str, route: Route<H>) -> (r: Result<Self, RouteError>)
        requires
            self.wf(),
        ensures
            r is Ok <==> add_endpoint(self.routes_view(), path@, EndpointView::Route(route)) is Some,
            r matches Ok(nr) ==> nr.wf() && Some(nr.routes_view()) == add_endpoint(
                self.routes_view(),
                path@,
                EndpointView::Route(route),
            ) && nr.spec_fallback() == self.spec_fallback(),
            r matches Err(RouteError::PathTaken { .. }) ==> has_path(self.entries(), path@),
            r matches Err(RouteError::TooManyParameters { .. }) ==> !has_path(self.entries(), path@)
                && !params_fit(path@),
            r matches Err(RouteError::InvalidPath { .. }) ==> !has_path(self.entries(), path@)
                && params_fit(path@),
            r matches Err(e) ==> !(e is FallbackConflict) && !(e is Methods),
    {
        self.add(path, Endpoint::Route(route))
    }

    /// Replaces the fallback for unmatched paths by `handler`.
    pub fn fallback(self, handler: H) -> (r: Self)
        requires
            self.wf(),
        ensures
            r.wf(),
            r.routes_view() == self.routes_view(),
            r.spec_fallback() == Fallback::Service(Route::Service(handler)),
    {
        let mut this = self;
        this.catch_all_fallback = Fallback::Service(Route::new(handler));
        this
    }

    /// The route for a request for `path` with method `m`, and the named
    /// parameters that the path bound.
    pub fn call_with_state(&self, path: &str, m: Method) -> (r: (&Route<H>, Vec<(String, String)>))
        requires
            self.wf(),
        ensures
            *r.0 == self.resolve(path@, m),
            matched(self.entries(), path@) matches Some((id, _)) ==> (id as int) < self.routes_view().1.len(),
            matched(self.entries(), path@) matches Some((_, ps)) ==> pairs_view(r.1@) == ps,
            matched(self.entries(), path@) is None ==> r.1@.len() == 0,
    {
        match self.graph.at(path) {
            Some((id, params)) => {
                assert(self.routes_view().1[id.0 as int] == self.routes@[id.0 as int]@);
                assert(self.routes@[id.0 as int].wf());
                match &self.routes[id.0] {
                    Endpoint::MethodRouter(mr) => (mr.call(m), params),
                    Endpoint::Route(route) => (route, params),
                }
            },
            None => (self.catch_all_fallback.route(), Vec::new()),
        }
    }

    /// The route for a request for `path` whose method is none of `Method`'s,
    /// and the named parameters that the path bound.
    pub fn call_other_method(&self, path: &str) -> (r: (&Route<H>, Vec<(String, String)>))
        requires
            self.wf(),
        ensures
            *r.0 == self.resolve_other(path@),
            matched(self.entries(), path@) matches Some((_, ps)) ==> pairs_view(r.1@) == ps,
            matched(self.entries(), path@) is None ==> r.1@.len() == 0,
    {
        match self.graph.at(path) {
            Some((id, params)) => {
                assert(self.routes_view().1[id.0 as int] == self.routes@[id.0 as int]@);
                match &self.routes[id.0] {
                    Endpoint::MethodRouter(mr) => (mr.fallback_route(), params),
                    Endpoint::Route(route) => (route, params),
                }
            },
            None => (self.catch_all_fallback.route(), Vec::new()),
        }
    }

    /// Binds `state` to every route, the fallback's included; the paths stay.
    pub fn with_state<X, S: Clone>(self, state: &S) -> (r: Router<HandlerService<H, X, S>>)
        requires
            self.wf(),
        ensures
            r.wf(),
            r.entries() == self.entries(),
            r.routes_view().1.len() == self.routes_view().1.len(),
            forall|i: int|
                0 <= i < self.routes_view().1.len() ==> endpoint_bound(
                    #[trigger] self.routes_view().1[i],
                    r.routes_view().1[i],
                    *state,
                ),
            fallback_bound(self.spec_fallback(), r.spec_fallback(), *state),
    {
        let ghost orig = self.routes@;
        let Router { routes: mut rest, graph, catch_all_fallback } = self;
        let mut out: Vec<Endpoint<HandlerService<H, X, S>>> = Vec::new();
        let n = rest.len();
        let mut k: usize = 0;
        while k < n
            invariant
                n == orig.len(),
                k <= n,
                forall|i: int| 0 <= i < n ==> (#[trigger] orig[i]).wf(),
                rest@ == orig.subrange(k as int, n as int),
                out@.len() == k,
                forall|i: int|
                    0 <= i < k ==> (#[trigger] out@[i]).wf() && endpoint_bound(orig[i]@, out@[i]@, *state),
            decreases n - k,
        {
            let ep = rest.remove(0);
            assert(ep == orig[k as int]);
            out.push(ep.with_state(state));
            k = k + 1;
            assert(rest@ =~= orig.subrange(k as int, n as int));
        }
        let r = Router { routes: out, graph, catch_all_fallback: catch_all_fallback.with_state(state) };
        proof {
            assert forall|i: int| 0 <= i < self.routes_view().1.len() implies endpoint_bound(
                #[trigger] self.routes_view().1[i],
                r.routes_view().1[i],
                *state,
            ) by {
                assert(self.routes_view().1[i] == orig[i]@);
                assert(r.routes_view().1[i] == r.routes@[i]@);
            }
        }
        r
    }

    /// Registers every route of `other` in `self`, in `other`'s order, by the
    /// rules of `route`. Of the two fallbacks, a default one gives way to the
    /// other; two of their users' own cannot be merged.
    pub fn merge(self, other: Router<H>) -> (r: Result<Self, RouteError>)
        requires
            self.wf(),
            other.wf(),
        ensures
            r matches Err(RouteError::FallbackConflict) <==> self.spec_fallback() is Service
                && other.spec_fallback() is Service,
            r is Ok <==> self.spec_fallback().spec_merge(other.spec_fallback()) is Some && add_all(
                self.routes_view(),
                other.routes_view().0.map_values(|e: (Seq<char>, usize)| e.0),
                other.routes_view().1,
            ) is Some,
            r matches Ok(nr) ==> nr.wf() && Some(nr.routes_view()) == add_all(
                self.routes_view(),
                other.routes_view().0.map_values(|e: (Seq<char>, usize)| e.0),
                other.routes_view().1,
            ) && Some(nr.spec_fallback()) == self.spec_fallback().spec_merge(other.spec_fallback()),
    {
        let ghost start = self.routes_view();
        let ghost paths = other.routes_view().0.map_values(|e: (Seq<char>, usize)| e.0);
        let ghost eps = other.routes_view().1;
        let ghost f1 = self.spec_fallback();
        let ghost f2 = other.spec_fallback();
        proof {
            other.lemma_entries();
        }
        let Router { routes, graph, catch_all_fallback } = self;
        let Router { routes: mut rest, graph: other_graph, catch_all_fallback: other_fallback } = other;
        let ghost all = rest@;
        let fallback = match catch_all_fallback.merge(other_fallback) {
            Some(f) => f,
            None => {
                return Err(RouteError::FallbackConflict);
            },
        };
        let mut this = Router { routes, graph, catch_all_fallback: fallback };
        let n = rest.len();
        let mut k: usize = 0;
        proof {
            assert(paths.take(0) =~= Seq::<Seq<char>>::empty());
            assert(eps.take(0) =~= Seq::<EndpointView<H>>::empty());
            assert(this.routes_view() == start);
        }
        while k < n
            invariant
                this.wf(),
                other_graph.wf(),
                n == all.len(),
                n == other_graph.templates().len(),
                k <= n,
                paths.len() == n,
                eps.len() == n,
                forall|i: int| 0 <= i < n ==> #[trigger] paths[i] == other_graph.templates()[i],
                forall|i: int| 0 <= i < n ==> #[trigger] eps[i] == all[i]@,
                forall|i: int| 0 <= i < n ==> (#[trigger] all[i]).wf(),
                rest@ == all.subrange(k as int, n as int),
                Some(this.routes_view()) == add_all(start, paths.take(k as int), eps.take(k as int)),
                this.spec_fallback() == fallback,
                f1.spec_merge(f2) == Some(fallback),
                f1 == self.spec_fallback(),
                f2 == other.spec_fallback(),
                start == self.routes_view(),
                paths == other.routes_view().0.map_values(|e: (Seq<char>, usize)| e.0),
                eps == other.routes_view().1,
            decreases n - k,
        {
            let ep = rest.remove(0);
            assert(ep == all[k as int]);
            let path = other_graph.path_of(RouteId(k));
            proof {
                lemma_add_all_step(start, paths, eps, k as int);
            }
            let ghost w = this.routes_view();
            match this.add(path.as_str(), ep) {
                Ok(t) => {
                    this = t;
                },
                Err(e) => {
                    proof {
                        lemma_add_all_fails(start, paths, eps, k + 1);
                    }
                    return Err(e);
                },
            }
            k = k + 1;
            assert(rest@ =~= all.subrange(k as int, n as int));
        }
        proof {
            assert(paths.take(n as int) =~= paths);
            assert(eps.take(n as int) =~= eps);
        }
        Ok(this)
    }
}

proof fn lemma_rebuild<H>(entries: Seq<(Seq<char>, usize)>, eps: Seq<EndpointView<H>>, k: int)
    requires
        0 <= k <= entries.len(),
        entries.len() == eps.len(),
        forall|i: int| 0 <= i < entries.len() ==> (#[trigger] entries[i]).1 == i as usize,
        forall|i: int, j: int| 0 <= i < j < entries.len() ==> entries[i].0 != entries[j].0,
        forall|i: int|
            0 <= i < entries.len() ==> template_accepted(entries.take(i), (#[trigger] entries[i]).0),
        forall|i: int| 0 <= i < entries.len() ==> params_fit((#[trigger] entries[i]).0),
    ensures
        add_all(
            (Seq::<(Seq<char>, usize)>::empty(), Seq::<EndpointView<H>>::empty()),
            entries.map_values(|x: (Seq<char>, usize)| x.0).take(k),
            eps.take(k),
        ) == Some((entries.take(k), eps.take(k))),
    decreases k,
{
    let paths = entries.map_values(|x: (Seq<char>, usize)| x.0);
    let start = (Seq::<(Seq<char>, usize)>::empty(), Seq::<EndpointView<H>>::empty());
    if k == 0 {
        assert(paths.take(0) =~= Seq::<Seq<char>>::empty());
        assert(eps.take(0) =~= Seq::<EndpointView<H>>::empty());
        assert(entries.take(0) =~= Seq::<(Seq<char>, usize)>::empty());
    } else {
        let j = k - 1;
        lemma_rebuild(entries, eps, j);
        lemma_add_all_step(start, paths, eps, j);
        let w = (entries.take(j), eps.take(j));
        if has_path(w.0, paths[j]) {
            let i = choose|i: int| 0 <= i < w.0.len() && (#[trigger] w.0[i]).0 == paths[j];
            assert(entries[i].0 == entries[j].0);
        }
        assert(entries.take(j).push((paths[j], j as usize)) =~= entries.take(k));
        assert(eps.take(j).push(eps[j]) =~= eps.take(k));
    }
}

/// A router with no route and a default fallback is a neutral element of
/// merge: merged into `r`, or `r` merged into it, the result has `r`'s routes
/// and `r`'s fallback.
pub proof fn lemma_merge_with_empty<H>(r: Router<H>, e: Router<H>)
    requires
        r.wf(),
        e.wf(),
        e.routes_view() == (Seq::<(Seq<char>, usize)>::empty(), Seq::<EndpointView<H>>::empty()),
        e.spec_fallback() is Default,
    ensures
        add_all(
            r.routes_view(),
            e.routes_view().0.map_values(|x: (Seq<char>, usize)| x.0),
            e.routes_view().1,
        ) == Some(r.routes_view()),
        add_all(
            e.routes_view(),
            r.routes_view().0.map_values(|x: (Seq<char>, usize)| x.0),
            r.routes_view().1,
        ) == Some(r.routes_view()),
        r.spec_fallback().spec_merge(e.spec_fallback()) == Some(r.spec_fallback()),
        e.spec_fallback().spec_merge(r.spec_fallback()) == Some(r.spec_fallback()),
{
    r.lemma_view();
    e.lemma_view();
    let (entries, eps) = r.routes_view();
    let paths = entries.map_values(|x: (Seq<char>, usize)| x.0);
    assert(e.routes_view().0.map_values(|x: (Seq<char>, usize)| x.0) =~= Seq::<Seq<char>>::empty());
    let n: int = entries.len() as int;
    lemma_rebuild(entries, eps, n);
    assert(paths.take(n) =~= paths);
    assert(eps.take(n) =~= eps);
    assert(entries.take(n) =~= entries);
}

} // verus!
