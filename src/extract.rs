use vstd::prelude::*;
use core::convert::Infallible;
use crate::method::Method;
use crate::graph::pairs_view;
use crate::response::{Body, IntoResponse, Response, StatusCode, BAD_REQUEST};
use vstd::utf8::encode_utf8;

verus! {

/// Marks an extractor that reads the request's head only.
#[derive(Debug, Clone, Copy)]
pub struct ViaParts;

/// Marks an extractor that takes the whole request.
#[derive(Debug, Clone, Copy)]
pub struct ViaRequest;

/// The path and the query of a request's target.
#[derive(Debug)]
pub struct Uri {
    pub path: String,
    pub query: Option<String>,
}

impl Uri {
    pub fn copy(&self) -> (r: Uri)
        ensures
            r == *self,
    {
        let query = match &self.query {
            Some(q) => Some(q.clone()),
            None => None,
        };
        Uri { path: self.path.clone(), query }
    }
}

/// The head of a request: everything but the body.
#[derive(Debug)]
pub struct Parts {
    pub method: Method,
    pub uri: Uri,
    /// The named parameters that the matched path template bound.
    pub params: Vec<(String, String)>,
}

/// A request: head and body.
#[derive(Debug)]
pub struct Request {
    pub parts: Parts,
    pub body: Body,
}

impl Request {
    pub fn new(method: Method, uri: Uri, body: Body) -> (r: Request)
        ensures
            r.parts.method == method,
            r.parts.uri == uri,
            r.parts.params@.len() == 0,
            r.body == body,
    {
        Request { parts: Parts { method, uri, params: Vec::new() }, body }
    }

    /// The request with `params` as the path's named parameters.
    pub fn with_params(self, params: Vec<(String, String)>) -> (r: Request)
        ensures
            r.parts.method == self.parts.method,
            r.parts.uri == self.parts.uri,
            r.parts.params == params,
            r.body == self.body,
    {
        let Request { parts, body } = self;
        Request { parts: Parts { method: parts.method, uri: parts.uri, params }, body }
    }

    pub fn into_parts(self) -> (r: (Parts, Body))
        ensures
            r == (self.parts, self.body),
    {
        (self.parts, self.body)
    }

    pub fn from_parts(parts: Parts, body: Body) -> (r: Request)
        ensures
            r == (Request { parts, body }),
    {
        Request { parts, body }
    }
}

/// A value taken from a request's head and the state; the head is left for
/// the extractors that follow.
pub trait FromRequestParts<S>: Sized {
    /// What the extractor answers with when it fails.
    type Rejection: IntoResponse;

    /// Whether `out` is a possible outcome of extracting from `parts` with
    /// `state`. An extractor that states nothing admits every outcome.
    open spec fn parts_outcome(parts: Parts, state: S, out: Result<Self, Self::Rejection>) -> bool {
        true
    }

    fn from_request_parts(parts: &Parts, state: &S) -> (out: Result<Self, Self::Rejection>)
        ensures
            Self::parts_outcome(*parts, *state, out),
    ;
}

/// A value taken from the whole request, body included.
pub trait FromRequest<S, M = ViaRequest>: Sized {
    /// What the extractor answers with when it fails.
    type Rejection: IntoResponse;

    /// Whether `out` is a possible outcome of extracting from `req` with
    /// `state`. An extractor that states nothing admits every outcome.
    open spec fn request_outcome(req: Request, state: S, out: Result<Self, Self::Rejection>) -> bool {
        true
    }

    fn from_request(req: Request, state: &S) -> (out: Result<Self, Self::Rejection>)
        ensures
            Self::request_outcome(req, *state, out),
    ;
}

/// An extractor of the head serves for the whole request too; the body is dropped.
impl<S, T> FromRequest<S, ViaParts> for T where T: FromRequestParts<S> {
    type Rejection = <T as FromRequestParts<S>>::Rejection;

    open spec fn request_outcome(req: Request, state: S, out: Result<Self, Self::Rejection>) -> bool {
        T::parts_outcome(req.parts, state, out)
    }

    fn from_request(req: Request, state: &S) -> (out: Result<Self, Self::Rejection>) {
        let (parts, _) = req.into_parts();
        T::from_request_parts(&parts, state)
    }
}

/// Extraction that never fails: the outcome of `T`, success or rejection, is
/// handed over as a value.
impl<S, T> FromRequestParts<S> for Result<T, <T as FromRequestParts<S>>::Rejection> where
    T: FromRequestParts<S>,
 {
    type Rejection = Infallible;

    open spec fn parts_outcome(parts: Parts, state: S, out: Result<Self, Infallible>) -> bool {
        out matches Ok(inner) && T::parts_outcome(parts, state, inner)
    }

    fn from_request_parts(parts: &Parts, state: &S) -> (out: Result<Self, Infallible>) {
        Ok(T::from_request_parts(parts, state))
    }
}

/// Wrapping an extractor of the head in `Result` never gives a rejection: every
/// outcome of the wrapped form is a success that carries one of the
/// extractor's own outcomes, a rejection included, and each of those is carried.
pub proof fn lemma_result_parts_never_rejects<S, T: FromRequestParts<S>>(
    parts: Parts,
    state: S,
    out: Result<Result<T, T::Rejection>, Infallible>,
)
    ensures
        <Result<T, T::Rejection> as FromRequestParts<S>>::parts_outcome(parts, state, out) ==> (out matches Ok(
            inner,
        ) && T::parts_outcome(parts, state, inner)),
        forall|inner: Result<T, T::Rejection>|
            #[trigger] T::parts_outcome(parts, state, inner) ==> <Result<
                T,
                T::Rejection,
            > as FromRequestParts<S>>::parts_outcome(parts, state, Ok(inner)),
{
}

/// Extraction from the whole request that never fails.
impl<S, T> FromRequest<S> for Result<T, <T as FromRequest<S>>::Rejection> where T: FromRequest<S> {
    type Rejection = Infallible;

    open spec fn request_outcome(req: Request, state: S, out: Result<Self, Infallible>) -> bool {
        out matches Ok(inner) && T::request_outcome(req, state, inner)
    }

    fn from_request(req: Request, state: &S) -> (out: Result<Self, Infallible>) {
        Ok(T::from_request(req, state))
    }
}

/// Wrapping an extractor of the whole request in `Result` never gives a
/// rejection; the value carries the extractor's own outcome.
pub proof fn lemma_result_request_never_rejects<S, T: FromRequest<S>>(
    req: Request,
    state: S,
    out: Result<Result<T, <T as FromRequest<S>>::Rejection>, Infallible>,
)
    ensures
        <Result<T, <T as FromRequest<S>>::Rejection> as FromRequest<S>>::request_outcome(req, state, out)
            ==> (out matches Ok(inner) && T::request_outcome(req, state, inner)),
        forall|inner: Result<T, <T as FromRequest<S>>::Rejection>|
            #[trigger] T::request_outcome(req, state, inner) ==> <Result<
                T,
                <T as FromRequest<S>>::Rejection,
            > as FromRequest<S>>::request_outcome(req, state, Ok(inner)),
{
}

/// The request's method.
impl<S> FromRequestParts<S> for Method {
    type Rejection = Infallible;

    open spec fn parts_outcome(parts: Parts, state: S, out: Result<Self, Infallible>) -> bool {
        out == Ok::<Method, Infallible>(parts.method)
    }

    fn from_request_parts(parts: &Parts, state: &S) -> (out: Result<Self, Infallible>) {
        Ok(parts.method)
    }
}

/// The request's target.
impl<S> FromRequestParts<S> for Uri {
    type Rejection = Infallible;

    open spec fn parts_outcome(parts: Parts, state: S, out: Result<Self, Infallible>) -> bool {
        out == Ok::<Uri, Infallible>(parts.uri)
    }

    fn from_request_parts(parts: &Parts, state: &S) -> (out: Result<Self, Infallible>) {
        Ok(parts.uri.copy())
    }
}

/// A snapshot of the state that the router was given.
#[derive(Debug, Clone, Copy, Default)]
pub struct State<S>(pub S);

impl<S: Clone> FromRequestParts<S> for State<S> {
    type Rejection = Infallible;

    open spec fn parts_outcome(parts: Parts, state: S, out: Result<Self, Infallible>) -> bool {
        out matches Ok(State(s)) && vstd::pervasive::cloned(state, s)
    }

    fn from_request_parts(parts: &Parts, state: &S) -> (out: Result<Self, Infallible>) {
        Ok(State(state.clone()))
    }
}

/// The name/value pairs that URL-encoded form data decodes to, in order.
pub uninterp spec fn form_pairs(input: Seq<u8>) -> Seq<(Seq<char>, Seq<char>)>;

/// Relies on form_urlencoded::parse: the decoded name/value pairs of `input`, in
/// order; empty input holds none.
#[verifier::external_body]
fn parse_form(input: &[u8]) -> (r: Vec<(String, String)>)
    ensures
        pairs_view(r@) == form_pairs(input@),
        input@.len() == 0 ==> r@.len() == 0,
{
    form_urlencoded::parse(input).map(|(k, v)| (k.into_owned(), v.into_owned())).collect()
}

/// The pairs of a query string; an absent query has none.
pub open spec fn query_pairs(query: Option<String>) -> Seq<(Seq<char>, Seq<char>)> {
    match query {
        Some(q) => form_pairs(encode_utf8(q@)),
        None => form_pairs(Seq::empty()),
    }
}

/// Decodes the query string of a request.
pub fn parse_query(query: &Option<String>) -> (r: Vec<(String, String)>)
    ensures
        pairs_view(r@) == query_pairs(*query),
        query is None ==> r@.len() == 0,
{
    match query {
        Some(q) => parse_form(q.as_str().as_bytes()),
        None => {
            let empty: Vec<u8> = Vec::new();
            parse_form(empty.as_slice())
        },
    }
}

/// A value that is bound from the pairs of a query string.
pub trait FromQuery: Sized {
    /// Whether `out` is a possible outcome of binding `pairs`; an error
    /// carries a message. A binding that states nothing admits every outcome.
    open spec fn query_outcome(pairs: Seq<(Seq<char>, Seq<char>)>, out: Result<Self, String>) -> bool {
        true
    }

    fn from_query(pairs: &Vec<(String, String)>) -> (out: Result<Self, String>)
        ensures
            Self::query_outcome(pairs_view(pairs@), out),
    ;
}

/// All pairs, in order.
impl FromQuery for Vec<(String, String)> {
    open spec fn query_outcome(pairs: Seq<(Seq<char>, Seq<char>)>, out: Result<Self, String>) -> bool {
        out matches Ok(v) && pairs_view(v@) == pairs
    }

    fn from_query(pairs: &Vec<(String, String)>) -> (out: Result<Self, String>) {
        Ok(copy_pairs(pairs))
    }
}

/// A copy of name/value pairs.
pub fn copy_pairs(pairs: &Vec<(String, String)>) -> (r: Vec<(String, String)>)
    ensures
        pairs_view(r@) == pairs_view(pairs@),
{
    let mut v: Vec<(String, String)> = Vec::new();
    let mut i: usize = 0;
    while i < pairs.len()
        invariant
            0 <= i <= pairs@.len(),
            pairs_view(v@) == pairs_view(pairs@).take(i as int),
        decreases pairs@.len() - i,
    {
        let ghost before = v@;
        let name = pairs[i].0.clone();
        let value = pairs[i].1.clone();
        v.push((name, value));
        proof {
            assert(v@ == before.push((name, value)));
            assert(pairs_view(v@) =~= pairs_view(before).push((name@, value@)));
            assert(pairs_view(pairs@)[i as int] == (pairs@[i as int].0@, pairs@[i as int].1@));
            assert(pairs_view(v@) =~= pairs_view(pairs@).take(i + 1));
        }
        i = i + 1;
    }
    proof {
        assert(pairs_view(pairs@).take(pairs@.len() as int) =~= pairs_view(pairs@));
    }
    v
}

/// The named parameters that the matched path template bound, in order.
#[derive(Debug, Clone, Default)]
pub struct PathParams(pub Vec<(String, String)>);

impl<S> FromRequestParts<S> for PathParams {
    type Rejection = Infallible;

    open spec fn parts_outcome(parts: Parts, state: S, out: Result<Self, Infallible>) -> bool {
        out matches Ok(p) && pairs_view(p.0@) == pairs_view(parts.params@)
    }

    fn from_request_parts(parts: &Parts, state: &S) -> (out: Result<Self, Infallible>) {
        Ok(PathParams(copy_pairs(&parts.params)))
    }
}

/// The query string, bound to a value of `T`.
#[derive(Debug, Clone, Copy, Default)]
pub struct Query<T>(pub T);

/// A query string that could not be bound: answered with 400 Bad Request and
/// the message.
#[derive(Debug, Clone)]
pub struct QueryRejection {
    pub message: String,
}

impl IntoResponse for QueryRejection {
    open spec fn response_view(self) -> (u16, Seq<u8>) {
        (BAD_REQUEST, encode_utf8(self.message@))
    }

    fn into_response(self) -> (r: Response) {
        let mut res = Response::new(Body::from_str(self.message.as_str()));
        res.status = StatusCode(BAD_REQUEST);
        res
    }
}

impl<S, T: FromQuery> FromRequestParts<S> for Query<T> {
    type Rejection = QueryRejection;

    open spec fn parts_outcome(parts: Parts, state: S, out: Result<Self, QueryRejection>) -> bool {
        match out {
            Ok(Query(v)) => T::query_outcome(query_pairs(parts.uri.query), Ok(v)),
            Err(rej) => T::query_outcome(query_pairs(parts.uri.query), Err(rej.message)),
        }
    }

    fn from_request_parts(parts: &Parts, state: &S) -> (out: Result<Self, QueryRejection>) {
        let pairs = parse_query(&parts.uri.query);
        match T::from_query(&pairs) {
            Ok(v) => Ok(Query(v)),
            Err(message) => Err(QueryRejection { message }),
        }
    }
}

} // verus!
