use vstd::prelude::*;
use crate::handler::HandlerService;
use crate::response::{IntoResponse, Response, StatusCode, METHOD_NOT_ALLOWED, NOT_FOUND};

verus! {

/// The unit a router dispatches to: a service of the caller's choosing, or a
/// fixed status response.
#[derive(Clone, Debug)]
pub enum Route<H> {
    Service(H),
    Status(StatusCode),
}

impl<H> Route<H> {
    pub fn new(svc: H) -> (r: Self)
        ensures
            r == Route::Service(svc),
    {
        Route::Service(svc)
    }

    /// The route that answers 404 Not Found.
    pub fn not_found() -> (r: Self)
        ensures
            r == Route::<H>::Status(StatusCode(NOT_FOUND)),
    {
        Route::Status(StatusCode::not_found())
    }

    /// The route that answers 405 Method Not Allowed.
    pub fn method_not_allowed() -> (r: Self)
        ensures
            r == Route::<H>::Status(StatusCode(METHOD_NOT_ALLOWED)),
    {
        Route::Status(StatusCode::method_not_allowed())
    }

    /// The response of a fixed route; a service route is run by its owner.
    pub fn fixed_response(&self) -> (r: Option<Response>)
        ensures
            r is None <==> self is Service,
            r matches Some(resp) ==> self matches Route::Status(code) && resp@ == code.response_view(),
    {
        match self {
            Route::Service(_) => None,
            Route::Status(code) => Some(code.into_response()),
        }
    }
}

/// `b` is `r` with `state` bound: a service route holds the same handler with
/// a clone of the state; a fixed route stays as it is.
pub open spec fn route_bound<H, X, S: Clone>(r: Route<H>, b: Route<HandlerService<H, X, S>>, state: S) -> bool {
    match (r, b) {
        (Route::Service(h), Route::Service(svc)) => svc.handler == h && vstd::pervasive::cloned(
            state,
            svc.state,
        ),
        (Route::Status(c), Route::Status(d)) => c == d,
        _ => false,
    }
}

impl<H> Route<H> {
    /// Binds `state` to the handler of a service route.
    pub fn with_state<X, S: Clone>(self, state: &S) -> (r: Route<HandlerService<H, X, S>>)
        ensures
            route_bound(self, r, *state),
    {
        match self {
            Route::Service(h) => Route::Service(HandlerService::new(h, state.clone())),
            Route::Status(c) => Route::Status(c),
        }
    }
}

/// `b` is `f` with `state` bound to its route, of the same kind.
pub open spec fn fallback_bound<H, X, S: Clone>(
    f: Fallback<H>,
    b: Fallback<HandlerService<H, X, S>>,
    state: S,
) -> bool {
    &&& (f is Default <==> b is Default)
    &&& route_bound(f.spec_route(), b.spec_route(), state)
}

/// The route taken when nothing more specific matches. `Default` is the one a
/// router starts with; `Service` is one its user set.
#[derive(Clone, Debug)]
pub enum Fallback<H> {
    Default(Route<H>),
    Service(Route<H>),
}

impl<H> Fallback<H> {
    pub open spec fn spec_route(self) -> Route<H> {
        match self {
            Fallback::Default(r) => r,
            Fallback::Service(r) => r,
        }
    }

    /// The fallback that two merged routers share: a `Default` one gives way to
    /// the other side; two `Service` ones cannot be merged.
    pub open spec fn spec_merge(self, other: Self) -> Option<Self> {
        match (self, other) {
            (Fallback::Default(_), pick) => Some(pick),
            (pick, Fallback::Default(_)) => Some(pick),
            _ => None,
        }
    }

    pub fn is_default(&self) -> (r: bool)
        ensures
            r == self is Default,
    {
        match self {
            Fallback::Default(_) => true,
            Fallback::Service(_) => false,
        }
    }

    pub fn route(&self) -> (r: &Route<H>)
        ensures
            *r == self.spec_route(),
    {
        match self {
            Fallback::Default(r) => r,
            Fallback::Service(r) => r,
        }
    }

    pub fn merge(self, other: Self) -> (r: Option<Self>)
        ensures
            r == self.spec_merge(other),
    {
        match (self, other) {
            (Fallback::Default(_), pick) => Some(pick),
            (pick, Fallback::Default(_)) => Some(pick),
            _ => None,
        }
    }

    /// Applies `f` to the route, keeping the kind of fallback.
    pub fn map<F, H2>(self, f: F) -> (r: Fallback<H2>)
        where
            F: FnOnce(Route<H>) -> Route<H2>,
        requires
            call_requires(f, (self.spec_route(),)),
        ensures
            r is Default == self is Default,
            call_ensures(f, (self.spec_route(),), r.spec_route()),
    {
        match self {
            Fallback::Default(route) => Fallback::Default(f(route)),
            Fallback::Service(route) => Fallback::Service(f(route)),
        }
    }

    /// Binds `state` to the fallback's route.
    pub fn with_state<X, S: Clone>(self, state: &S) -> (r: Fallback<HandlerService<H, X, S>>)
        ensures
            fallback_bound(self, r, *state),
    {
        match self {
            Fallback::Default(route) => Fallback::Default(route.with_state(state)),
            Fallback::Service(route) => Fallback::Service(route.with_state(state)),
        }
    }

    pub fn into_route(self) -> (r: Route<H>)
        ensures
            r == self.spec_route(),
    {
        match self {
            Fallback::Default(r) => r,
            Fallback::Service(r) => r,
        }
    }
}

} // verus!
