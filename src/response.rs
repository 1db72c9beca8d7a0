use vstd::prelude::*;
use vstd::slice::slice_to_vec;
use vstd::utf8::encode_utf8;
use core::convert::Infallible;
use std::borrow::Cow;

verus! {

/// An HTTP status code.
#[derive(Clone, Copy, Debug, PartialEq, Eq, Structural, Hash)]
pub struct StatusCode(pub u16);

pub const OK: u16 = 200;

pub const BAD_REQUEST: u16 = 400;

pub const NOT_FOUND: u16 = 404;

pub const METHOD_NOT_ALLOWED: u16 = 405;

impl StatusCode {
    pub fn ok() -> (r: Self)
        ensures
            r.0 == OK,
    {
        StatusCode(OK)
    }

    pub fn not_found() -> (r: Self)
        ensures
            r.0 == NOT_FOUND,
    {
        StatusCode(NOT_FOUND)
    }

    pub fn method_not_allowed() -> (r: Self)
        ensures
            r.0 == METHOD_NOT_ALLOWED,
    {
        StatusCode(METHOD_NOT_ALLOWED)
    }

    pub fn as_u16(&self) -> (r: u16)
        ensures
            r == self.0,
    {
        self.0
    }
}

/// A response body, held whole.
#[derive(Clone, Debug)]
pub struct Body {
    bytes: Vec<u8>,
}

impl View for Body {
    type V = Seq<u8>;

    closed spec fn view(&self) -> Seq<u8> {
        self.bytes@
    }
}

impl Body {
    pub fn empty() -> (r: Self)
        ensures
            r@ == Seq::<u8>::empty(),
    {
        Body { bytes: Vec::new() }
    }

    pub fn from_bytes(bytes: Vec<u8>) -> (r: Self)
        ensures
            r@ == bytes@,
    {
        Body { bytes }
    }

    /// The UTF-8 encoding of `s`.
    pub fn from_str(s: &str) -> (r: Self)
        ensures
            r@ == encode_utf8(s@),
    {
        Body { bytes: slice_to_vec(s.as_bytes()) }
    }

    pub fn as_bytes(&self) -> (r: &[u8])
        ensures
            r@ == self@,
    {
        self.bytes.as_slice()
    }

    pub fn into_bytes(self) -> (r: Vec<u8>)
        ensures
            r@ == self@,
    {
        self.bytes
    }
}

/// A response: a status and a body.
#[derive(Clone, Debug)]
pub struct Response {
    pub status: StatusCode,
    pub body: Body,
}

impl View for Response {
    type V = (u16, Seq<u8>);

    open spec fn view(&self) -> (u16, Seq<u8>) {
        (self.status.0, self.body@)
    }
}

impl Response {
    /// A response with status 200 and the given body.
    pub fn new(body: Body) -> (r: Self)
        ensures
            r@ == (OK, body@),
    {
        Response { status: StatusCode(OK), body }
    }

    pub fn status(&self) -> (r: StatusCode)
        ensures
            r == self.status,
    {
        self.status
    }
}

/// Conversion of a handler's or a rejection's value into a response.
pub trait IntoResponse: Sized {
    /// The status and body that the value stands for.
    spec fn response_view(self) -> (u16, Seq<u8>);

    fn into_response(self) -> (r: Response)
        ensures
            r@ == self.response_view(),
    ;
}

impl IntoResponse for Response {
    open spec fn response_view(self) -> (u16, Seq<u8>) {
        self@
    }

    fn into_response(self) -> (r: Response) {
        self
    }
}

impl IntoResponse for Body {
    open spec fn response_view(self) -> (u16, Seq<u8>) {
        (OK, self@)
    }

    fn into_response(self) -> (r: Response) {
        Response::new(self)
    }
}

impl IntoResponse for () {
    open spec fn response_view(self) -> (u16, Seq<u8>) {
        (OK, Seq::empty())
    }

    fn into_response(self) -> (r: Response) {
        Body::empty().into_response()
    }
}

impl IntoResponse for StatusCode {
    open spec fn response_view(self) -> (u16, Seq<u8>) {
        (self.0, Seq::empty())
    }

    fn into_response(self) -> (r: Response) {
        let mut res = ().into_response();
        res.status = self;
        res
    }
}

impl IntoResponse for String {
    open spec fn response_view(self) -> (u16, Seq<u8>) {
        (OK, encode_utf8(self@))
    }

    fn into_response(self) -> (r: Response) {
        Body::from_str(self.as_str()).into_response()
    }
}

impl IntoResponse for &'static str {
    open spec fn response_view(self) -> (u16, Seq<u8>) {
        (OK, encode_utf8(self@))
    }

    fn into_response(self) -> (r: Response) {
        Body::from_str(self).into_response()
    }
}

impl IntoResponse for Cow<'static, str> {
    open spec fn response_view(self) -> (u16, Seq<u8>) {
        (OK, encode_utf8(self@))
    }

    fn into_response(self) -> (r: Response) {
        match self {
            Cow::Borrowed(s) => Body::from_str(s).into_response(),
            Cow::Owned(s) => Body::from_str(s.as_str()).into_response(),
        }
    }
}

impl IntoResponse for Box<str> {
    open spec fn response_view(self) -> (u16, Seq<u8>) {
        (OK, encode_utf8(self@))
    }

    fn into_response(self) -> (r: Response) {
        Body::from_str(&*self).into_response()
    }
}

/// No value of `Infallible` exists, so this conversion never runs; it lets an
/// extractor that cannot fail name `Infallible` as its rejection.
impl IntoResponse for Infallible {
    open spec fn response_view(self) -> (u16, Seq<u8>) {
        (OK, Seq::empty())
    }

    fn into_response(self) -> (r: Response) {
        ().into_response()
    }
}

} // verus!
