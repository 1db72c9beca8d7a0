use vstd::prelude::*;
use core::marker::PhantomData;
use crate::extract::{FromRequest, FromRequestParts, Request};
use crate::response::{IntoResponse, Response};

verus! {

/// A function that answers requests. `X` tells apart the argument lists a
/// handler can take; every argument but the last is taken from the request's
/// head, in order, and the last from the whole request.
pub trait Handler<X, S>: Sized {
    /// The handler may be called on any arguments.
    spec fn ready(&self) -> bool;

    /// Whether `resp` is a possible answer of the handler to `req` with `state`.
    spec fn handles(self, req: Request, state: S, resp: Response) -> bool;

    fn call(self, req: Request, state: S) -> (resp: Response)
        requires
            self.ready(),
        ensures
            self.handles(req, state, resp),
    ;

    fn to_service(self, state: S) -> (r: HandlerService<Self, X, S>)
        ensures
            r.handler == self,
            r.state == state,
    {
        HandlerService::new(self, state)
    }
}

/// A handler without arguments: no extraction takes place.
impl<F, Res, S> Handler<((),), S> for F where F: FnOnce() -> Res, Res: IntoResponse {
    open spec fn ready(&self) -> bool {
        call_requires(*self, ())
    }

    open spec fn handles(self, req: Request, state: S, resp: Response) -> bool {
        exists|res: Res| call_ensures(self, (), res) && resp@ == res.response_view()
    }

    fn call(self, req: Request, state: S) -> (resp: Response) {
        let res = (self)();
        res.into_response()
    }
}

/// A handler of one argument, taken from the whole request.
impl<F, Res, S, M, T1> Handler<(M, T1), S> for F where
    F: FnOnce(T1) -> Res,
    Res: IntoResponse,
    T1: FromRequest<S, M>,
 {
    open spec fn ready(&self) -> bool {
        forall|a: T1| call_requires(*self, (a,))
    }

    open spec fn handles(self, req: Request, state: S, resp: Response) -> bool {
        exists|o1: Result<T1, T1::Rejection>|
            #[trigger] T1::request_outcome(req, state, o1) && match o1 {
                Err(r1) => resp@ == r1.response_view(),
                Ok(v1) => exists|res: Res| call_ensures(self, (v1,), res) && resp@ == res.response_view(),
            }
    }

    fn call(self, req: Request, state: S) -> (resp: Response) {
        let o1 = T1::from_request(req, &state);
        match o1 {
            Err(rejection) => rejection.into_response(),
            Ok(v1) => {
                let res = (self)(v1);
                res.into_response()
            },
        }
    }
}

/// A handler of two arguments: the first from the head, the second from the
/// whole request.
impl<F, Res, S, M, T1, T2> Handler<(M, T1, T2), S> for F where
    F: FnOnce(T1, T2) -> Res,
    Res: IntoResponse,
    T1: FromRequestParts<S>,
    T2: FromRequest<S, M>,
 {
    open spec fn ready(&self) -> bool {
        forall|a: T1, b: T2| call_requires(*self, (a, b))
    }

    open spec fn handles(self, req: Request, state: S, resp: Response) -> bool {
        exists|o1: Result<T1, T1::Rejection>|
            #[trigger] T1::parts_outcome(req.parts, state, o1) && match o1 {
                Err(r1) => resp@ == r1.response_view(),
                Ok(v1) => exists|o2: Result<T2, T2::Rejection>|
                    #[trigger] T2::request_outcome(req, state, o2) && match o2 {
                        Err(r2) => resp@ == r2.response_view(),
                        Ok(v2) => exists|res: Res|
                            call_ensures(self, (v1, v2), res) && resp@ == res.response_view(),
                    },
            }
    }

    fn call(self, req: Request, state: S) -> (resp: Response) {
        let ghost whole = req;
        let (parts, body) = req.into_parts();
        let o1 = T1::from_request_parts(&parts, &state);
        match o1 {
            Err(rejection) => rejection.into_response(),
            Ok(v1) => {
                let req = Request::from_parts(parts, body);
                assert(req == whole);
                let o2 = T2::from_request(req, &state);
                match o2 {
                    Err(rejection) => rejection.into_response(),
                    Ok(v2) => {
                        let res = (self)(v1, v2);
                        res.into_response()
                    },
                }
            },
        }
    }
}

/// A handler of three arguments: the first two from the head, in order, the
/// third from the whole request.
impl<F, Res, S, M, T1, T2, T3> Handler<(M, T1, T2, T3), S> for F where
    F: FnOnce(T1, T2, T3) -> Res,
    Res: IntoResponse,
    T1: FromRequestParts<S>,
    T2: FromRequestParts<S>,
    T3: FromRequest<S, M>,
 {
    open spec fn ready(&self) -> bool {
        forall|a: T1, b: T2, c: T3| call_requires(*self, (a, b, c))
    }

    open spec fn handles(self, req: Request, state: S, resp: Response) -> bool {
        exists|o1: Result<T1, T1::Rejection>|
            #[trigger] T1::parts_outcome(req.parts, state, o1) && match o1 {
                Err(r1) => resp@ == r1.response_view(),
                Ok(v1) => exists|o2: Result<T2, T2::Rejection>|
                    #[trigger] T2::parts_outcome(req.parts, state, o2) && match o2 {
                        Err(r2) => resp@ == r2.response_view(),
                        Ok(v2) => exists|o3: Result<T3, T3::Rejection>|
                            #[trigger] T3::request_outcome(req, state, o3) && match o3 {
                                Err(r3) => resp@ == r3.response_view(),
                                Ok(v3) => exists|res: Res|
                                    call_ensures(self, (v1, v2, v3), res) && resp@ == res.response_view(),
                            },
                    },
            }
    }

    fn call(self, req: Request, state: S) -> (resp: Response) {
        let ghost whole = req;
        let (parts, body) = req.into_parts();
        let o1 = T1::from_request_parts(&parts, &state);
        match o1 {
            Err(rejection) => rejection.into_response(),
            Ok(v1) => {
                let o2 = T2::from_request_parts(&parts, &state);
                match o2 {
                    Err(rejection) => rejection.into_response(),
                    Ok(v2) => {
                        let req = Request::from_parts(parts, body);
                        assert(req == whole);
                        let o3 = T3::from_request(req, &state);
                        match o3 {
                            Err(rejection) => rejection.into_response(),
                            Ok(v3) => {
                                let res = (self)(v1, v2, v3);
                                res.into_response()
                            },
                        }
                    },
                }
            },
        }
    }
}

/// With three arguments, when the first extractor cannot fail and the second
/// always rejects, the answer is a rejection of the second: neither the third
/// extractor nor the handler's body has a part in it.
pub proof fn lemma_rejection_short_circuits<F, Res, S, M, T1, T2, T3>(
    f: F,
    req: Request,
    state: S,
    resp: Response,
) where
    F: FnOnce(T1, T2, T3) -> Res,
    Res: IntoResponse,
    T1: FromRequestParts<S>,
    T2: FromRequestParts<S>,
    T3: FromRequest<S, M>,

    requires
        <F as Handler<(M, T1, T2, T3), S>>::handles(f, req, state, resp),
        forall|o: Result<T1, T1::Rejection>| #[trigger] T1::parts_outcome(req.parts, state, o) ==> o is Ok,
        forall|o: Result<T2, T2::Rejection>| #[trigger] T2::parts_outcome(req.parts, state, o) ==> o is Err,
    ensures
        exists|r2: T2::Rejection|
            #[trigger] T2::parts_outcome(req.parts, state, Err(r2)) && resp@ == r2.response_view(),
{
    let o1 = choose|o1: Result<T1, T1::Rejection>|
        #[trigger] T1::parts_outcome(req.parts, state, o1) && match o1 {
            Err(r1) => resp@ == r1.response_view(),
            Ok(v1) => exists|o2: Result<T2, T2::Rejection>|
                #[trigger] T2::parts_outcome(req.parts, state, o2) && match o2 {
                    Err(r2) => resp@ == r2.response_view(),
                    Ok(v2) => exists|o3: Result<T3, T3::Rejection>|
                        #[trigger] T3::request_outcome(req, state, o3) && match o3 {
                            Err(r3) => resp@ == r3.response_view(),
                            Ok(v3) => exists|res: Res|
                                call_ensures(f, (v1, v2, v3), res) && resp@ == res.response_view(),
                        },
                },
        };
    assert(o1 is Ok);
    let v1 = o1->Ok_0;
    let o2 = choose|o2: Result<T2, T2::Rejection>|
        #[trigger] T2::parts_outcome(req.parts, state, o2) && match o2 {
            Err(r2) => resp@ == r2.response_view(),
            Ok(v2) => exists|o3: Result<T3, T3::Rejection>|
                #[trigger] T3::request_outcome(req, state, o3) && match o3 {
                    Err(r3) => resp@ == r3.response_view(),
                    Ok(v3) => exists|res: Res|
                        call_ensures(f, (v1, v2, v3), res) && resp@ == res.response_view(),
                },
        };
    assert(o2 is Err);
    let r2 = o2->Err_0;
    assert(T2::parts_outcome(req.parts, state, Err(r2)) && resp@ == r2.response_view());
}

/// A handler with the state it is called with.
pub struct HandlerService<H, X, S> {
    pub handler: H,
    pub state: S,
    pub _marker: PhantomData<X>,
}

impl<H, X, S> HandlerService<H, X, S> {
    pub fn new(handler: H, state: S) -> (r: Self)
        ensures
            r.handler == handler,
            r.state == state,
    {
        HandlerService { handler, state, _marker: PhantomData }
    }

    pub fn state(&self) -> (r: &S)
        ensures
            *r == self.state,
    {
        &self.state
    }

    /// Answers `req` with the handler and the state.
    pub fn call(self, req: Request) -> (resp: Response)
        where
            H: Handler<X, S>,
        requires
            self.handler.ready(),
        ensures
            self.handler.handles(req, self.state, resp),
    {
        self.handler.call(req, self.state)
    }
}

/// A copy of the handler and of the state, for one more request.
impl<H: Clone, X, S: Clone> Clone for HandlerService<H, X, S> {
    fn clone(&self) -> (r: Self)
        ensures
            vstd::pervasive::cloned(self.handler, r.handler),
            vstd::pervasive::cloned(self.state, r.state),
    {
        HandlerService { handler: self.handler.clone(), state: self.state.clone(), _marker: PhantomData }
    }
}

/// Turning a handler that needs no state into a service.
pub trait HandlerWithoutStateExt<T>: Handler<T, ()> {
    fn into_service(self) -> (r: HandlerService<Self, T, ()>)
        ensures
            r.handler == self,
    ;
}

impl<H, T> HandlerWithoutStateExt<T> for H where H: Handler<T, ()> {
    fn into_service(self) -> (r: HandlerService<Self, T, ()>) {
        self.to_service(())
    }
}

} // verus!
