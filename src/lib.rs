//! The routing and dispatch core of a web framework: requests are matched by
//! path and method to routes, and handlers take their arguments from the
//! request through extractors, in order.

use vstd::prelude::*;

pub mod extract;
pub mod graph;
pub mod handler;
pub mod method;
pub mod method_router;
pub mod response;
pub mod route;
pub mod router;
pub mod serve;

pub use extract::{
    FromQuery, FromRequest, FromRequestParts, Parts, PathParams, Query, QueryRejection, Request, State, Uri,
    ViaParts, ViaRequest,
};
pub use handler::{Handler, HandlerService, HandlerWithoutStateExt};
pub use method::{Method, MethodFilter};
pub use method_router::{get, post, MergeError, MethodRouter};
pub use response::{Body, IntoResponse, Response, StatusCode};
pub use route::{Fallback, Route};
pub use graph::{Graph, RouteId};
pub use router::{Endpoint, RouteError, Router};
pub use serve::{serve, Serve};
