use std::borrow::Cow;
use monet::extract::parse_query;
use monet::{
    Body, FromQuery, FromRequestParts, Handler, HandlerService, HandlerWithoutStateExt,
    IntoResponse, Method, Parts, PathParams, Query, Request, Response, State, StatusCode, Uri, ViaParts,
};

fn request(method: Method, path: &str, query: Option<&str>) -> Request {
    Request::new(
        method,
        Uri { path: path.to_string(), query: query.map(|q| q.to_string()) },
        Body::empty(),
    )
}

#[derive(Debug, Default)]
struct Greet {
    name: String,
}

impl FromQuery for Greet {
    fn from_query(pairs: &Vec<(String, String)>) -> Result<Self, String> {
        let mut g = Greet::default();
        for (k, v) in pairs {
            if k == "name" {
                g.name = v.clone();
            } else {
                return Err(format!("unknown field `{}`", k));
            }
        }
        Ok(g)
    }
}

fn greet(Query(g): Query<Greet>) -> String {
    format!("Hello, {}!", g.name)
}

#[test]
fn query_binds_struct() {
    let resp = Handler::<(ViaParts, Query<Greet>), ()>::call(
        greet,
        request(Method::Get, "/greet", Some("name=Ada")),
        (),
    );
    assert_eq!(resp.status.as_u16(), 200);
    let body = String::from_utf8(resp.body.into_bytes()).unwrap();
    assert!(body.contains("Ada"));
}

#[test]
fn empty_query_binds_default() {
    let resp = Handler::<(ViaParts, Query<Greet>), ()>::call(
        greet,
        request(Method::Get, "/greet", None),
        (),
    );
    assert_eq!(resp.status.as_u16(), 200);
    assert_eq!(resp.body.as_bytes(), b"Hello, !");
}

#[test]
fn bad_query_is_rejected_with_400() {
    let resp = Handler::<(ViaParts, Query<Greet>), ()>::call(
        greet,
        request(Method::Get, "/greet", Some("nom=Ada")),
        (),
    );
    assert_eq!(resp.status.as_u16(), 400);
    assert_eq!(resp.body.as_bytes(), b"unknown field `nom`");
}

#[test]
fn query_pairs_are_decoded() {
    let pairs = parse_query(&Some("name=Ada+Lovelace%21&x=1".to_string()));
    assert_eq!(
        pairs,
        vec![
            ("name".to_string(), "Ada Lovelace!".to_string()),
            ("x".to_string(), "1".to_string())
        ]
    );
    assert!(parse_query(&None).is_empty());
    let all = <Query<Vec<(String, String)>> as FromRequestParts<()>>::from_request_parts(
        &Parts { method: Method::Get, uri: Uri { path: "/".to_string(), query: Some("a=b".to_string()) }, params: vec![] },
        &(),
    )
    .unwrap();
    assert_eq!(all.0, vec![("a".to_string(), "b".to_string())]);
}

struct Refuse;

impl FromRequestParts<()> for Refuse {
    type Rejection = StatusCode;

    fn from_request_parts(_parts: &Parts, _state: &()) -> Result<Self, StatusCode> {
        Err(StatusCode(418))
    }
}

struct Watch;

impl FromRequestParts<()> for Watch {
    type Rejection = StatusCode;

    fn from_request_parts(_parts: &Parts, _state: &()) -> Result<Self, StatusCode> {
        panic!("the third extractor ran")
    }
}

fn three(_m: Method, _r: Refuse, _w: Watch) -> &'static str {
    panic!("the handler body ran")
}

#[test]
fn rejection_stops_extraction() {
    let resp = Handler::<(ViaParts, Method, Refuse, Watch), ()>::call(
        three,
        request(Method::Get, "/", None),
        (),
    );
    assert_eq!(resp.status.as_u16(), 418);
    assert!(resp.body.as_bytes().is_empty());
}

fn two(m: Method, w: Result<Refuse, StatusCode>) -> String {
    match w {
        Ok(_) => format!("{:?} ok", m),
        Err(code) => format!("{:?} refused {}", m, code.as_u16()),
    }
}

#[test]
fn result_wrapper_never_rejects() {
    let out = <Result<Refuse, StatusCode> as FromRequestParts<()>>::from_request_parts(
        &Parts { method: Method::Put, uri: Uri { path: "/".to_string(), query: None }, params: vec![] },
        &(),
    );
    assert!(matches!(out, Ok(Err(StatusCode(418)))));
    let resp = Handler::<(ViaParts, Method, Result<Refuse, StatusCode>), ()>::call(
        two,
        request(Method::Put, "/", None),
        (),
    );
    assert_eq!(resp.status.as_u16(), 200);
    assert_eq!(resp.body.as_bytes(), b"Put refused 418");
}

#[test]
fn zero_argument_handler() {
    let resp = Handler::<((),), ()>::call(|| StatusCode(204), request(Method::Get, "/", None), ());
    assert_eq!(resp.status.as_u16(), 204);
}

#[test]
fn state_and_uri_are_extracted() {
    let h = |State(n): State<u32>, uri: Uri| format!("{} {}", n, uri.path);
    let svc: HandlerService<_, (ViaParts, State<u32>, Uri), u32> = HandlerService::new(h, 7);
    assert_eq!(*svc.state(), 7);
    let resp = svc.call(request(Method::Get, "/here", None));
    assert_eq!(resp.body.as_bytes(), b"7 /here");
}

#[test]
fn handler_without_state_into_service() {
    let svc = HandlerWithoutStateExt::<((),)>::into_service(|| "hi");
    let resp = svc.call(request(Method::Get, "/", None));
    assert_eq!(resp.body.as_bytes(), b"hi");
}

#[test]
fn responses_from_values() {
    let r: Response = ().into_response();
    assert_eq!((r.status.as_u16(), r.body.as_bytes().len()), (200, 0));
    let r = StatusCode::not_found().into_response();
    assert_eq!(r.status.as_u16(), 404);
    let r = "héllo".into_response();
    assert_eq!(r.body.as_bytes(), "héllo".as_bytes());
    let r = String::from("x").into_response();
    assert_eq!(r.body.as_bytes(), b"x");
    let r = Body::from_bytes(vec![1, 2, 3]).into_response();
    assert_eq!(r.body.as_bytes(), &[1, 2, 3]);
}

#[test]
fn cow_and_boxed_str_responses() {
    let r = Cow::<'static, str>::Borrowed("a").into_response();
    assert_eq!(r.body.as_bytes(), b"a");
    let r = Cow::<'static, str>::Owned("bc".to_string()).into_response();
    assert_eq!(r.body.as_bytes(), b"bc");
    let b: Box<str> = "déf".into();
    let r = b.into_response();
    assert_eq!((r.status.as_u16(), r.body.as_bytes()), (200, "déf".as_bytes()));
}

type CountFn = fn(State<u32>) -> String;

fn count(State(n): State<u32>) -> String {
    format!("n={}", n)
}

#[test]
fn router_with_state_binds_every_handler() {
    let r: monet::Router<CountFn> = monet::Router::new()
        .route("/s", monet::get(count as CountFn))
        .unwrap();
    let bound: monet::Router<HandlerService<CountFn, (ViaParts, State<u32>), u32>> = r.with_state(&5u32);
    match bound.call_with_state("/s", Method::Get).0 {
        monet::Route::Service(svc) => {
            assert_eq!(*svc.state(), 5);
            let resp = svc.clone().call(request(Method::Get, "/s", None));
            assert_eq!(resp.body.as_bytes(), b"n=5");
        }
        monet::Route::Status(_) => panic!("expected the handler"),
    }
    assert!(matches!(
        bound.call_with_state("/s", Method::Post).0,
        monet::Route::Status(c) if c.as_u16() == 405
    ));
}

fn item(PathParams(params): PathParams) -> String {
    params.iter().map(|(k, v)| format!("{}={}", k, v)).collect::<Vec<_>>().join(",")
}

#[test]
fn path_params_reach_the_handler() {
    let router: monet::Router<fn(PathParams) -> String> = monet::Router::new()
        .route("/items/{id}/{part}", monet::get(item as fn(PathParams) -> String))
        .unwrap();
    let (route, params) = router.call_with_state("/items/42/x", Method::Get);
    let f = match route {
        monet::Route::Service(f) => *f,
        monet::Route::Status(_) => panic!("expected the handler"),
    };
    let req = request(Method::Get, "/items/42/x", None).with_params(params);
    let resp = Handler::<(ViaParts, PathParams), ()>::call(f, req, ());
    assert_eq!(resp.body.as_bytes(), b"id=42,part=x");
}
