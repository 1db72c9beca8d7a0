use monet::{get, post, Method, MergeError, MethodRouter, Response, Route, RouteError, Router};
use monet::IntoResponse;

type Svc = fn(Vec<(String, String)>) -> Response;

fn echo_id(params: Vec<(String, String)>) -> Response {
    let id = params
        .iter()
        .find(|(k, _)| k == "id")
        .map(|(_, v)| v.clone())
        .unwrap_or_default();
    id.into_response()
}

fn run(router: &Router<Svc>, path: &str, method: Method) -> Response {
    let (route, params) = router.call_with_state(path, method);
    match route {
        Route::Service(f) => f(params),
        Route::Status(code) => code.into_response(),
    }
}

fn status_of(r: &Response) -> u16 {
    r.status.as_u16()
}

#[test]
fn path_parameter_round_trip() {
    let router = Router::new()
        .route("/items/{id}", get(echo_id as Svc))
        .unwrap();
    let ok = run(&router, "/items/42", Method::Get);
    assert_eq!(status_of(&ok), 200);
    assert_eq!(ok.body.as_bytes(), b"42");

    let not_allowed = run(&router, "/items/42", Method::Post);
    assert_eq!(status_of(&not_allowed), 405);
    assert!(not_allowed.body.as_bytes().is_empty());

    let missing = run(&router, "/items", Method::Get);
    assert_eq!(status_of(&missing), 404);
}

#[test]
fn call_with_state_hands_out_params() {
    let router: Router<&str> = Router::new().route("/users/{id}/posts/{post}", get("p")).unwrap();
    let (route, params) = router.call_with_state("/users/7/posts/x1", Method::Get);
    assert!(matches!(route, Route::Service("p")));
    assert_eq!(
        params,
        vec![
            ("id".to_string(), "7".to_string()),
            ("post".to_string(), "x1".to_string())
        ]
    );
    let (route, params) = router.call_with_state("/nowhere", Method::Get);
    assert!(matches!(route, Route::Status(code) if code.as_u16() == 404));
    assert!(params.is_empty());
}

#[test]
fn static_paths_dispatch_exactly() {
    let router: Router<&str> = Router::new()
        .route("/", get("root"))
        .unwrap()
        .route("/about", get("about"))
        .unwrap();
    assert!(matches!(router.call_with_state("/", Method::Get).0, Route::Service("root")));
    assert!(matches!(router.call_with_state("/about", Method::Get).0, Route::Service("about")));
    assert!(matches!(router.call_with_state("/about/", Method::Get).0, Route::Status(_)));
}

#[test]
fn registration_order_does_not_matter() {
    let one: Router<&str> = Router::new()
        .route("/p", get("g"))
        .unwrap()
        .route("/p", post("p"))
        .unwrap();
    let two: Router<&str> = Router::new()
        .route("/p", post("p"))
        .unwrap()
        .route("/p", get("g"))
        .unwrap();
    for m in [Method::Get, Method::Post, Method::Head, Method::Put, Method::Delete] {
        let a = format!("{:?}", one.call_with_state("/p", m).0);
        let b = format!("{:?}", two.call_with_state("/p", m).0);
        assert_eq!(a, b);
    }
    assert!(matches!(one.call_with_state("/p", Method::Post).0, Route::Service("p")));
    assert!(matches!(one.call_with_state("/p", Method::Put).0, Route::Status(c) if c.as_u16() == 405));
}

#[test]
fn same_method_twice_on_one_path_fails() {
    let r = Router::new().route("/p", get("a")).unwrap().route("/p", get("b"));
    match r {
        Err(RouteError::Methods(MergeError::Overlap { method, path })) => {
            assert_eq!(method, Method::Get);
            assert_eq!(path.as_deref(), Some("/p"));
        }
        other => panic!("unexpected: {:?}", other.map(|_| ())),
    }
}

#[test]
fn method_router_knows_registered_methods() {
    let mr: MethodRouter<&str> = MethodRouter::new().get("a");
    assert!(mr.has(Method::Get));
    assert!(!mr.has(Method::Post));
}

#[test]
fn head_falls_back_to_get() {
    let only_get: MethodRouter<&str> = get("g");
    assert!(matches!(only_get.call(Method::Head), Route::Service("g")));
    let both: MethodRouter<&str> = get("g").on(Method::Head, "h");
    assert!(matches!(both.call(Method::Head), Route::Service("h")));
    assert!(matches!(both.call(Method::Get), Route::Service("g")));
    let only_post: MethodRouter<&str> = post("p");
    assert!(matches!(only_post.call(Method::Head), Route::Status(c) if c.as_u16() == 405));
}

#[test]
fn merge_for_path_reports_overlap_and_unions() {
    let a: MethodRouter<&str> = get("a");
    let b: MethodRouter<&str> = post("b");
    let merged = a.merge_for_path(Some("/x"), b).unwrap();
    assert!(matches!(merged.call(Method::Get), Route::Service("a")));
    assert!(matches!(merged.call(Method::Post), Route::Service("b")));

    let err = get("a").merge_for_path(None, get("b")).unwrap_err();
    assert_eq!(err, MergeError::Overlap { method: Method::Get, path: None });
}

#[test]
fn custom_fallback_wins_on_merge() {
    let custom: Router<&str> = Router::new().fallback("custom");
    assert!(!custom.has_default_fallback());
    let plain: Router<&str> = Router::new().route("/a", get("a")).unwrap();
    assert!(plain.has_default_fallback());

    let merged = plain.merge(custom).unwrap();
    assert!(!merged.has_default_fallback());
    assert!(matches!(merged.call_with_state("/zzz", Method::Get).0, Route::Service("custom")));
    assert!(matches!(merged.call_with_state("/a", Method::Get).0, Route::Service("a")));

    let other_way = Router::new()
        .fallback("custom")
        .merge(Router::new().route("/a", get("a")).unwrap())
        .unwrap();
    assert!(matches!(other_way.call_with_state("/zzz", Method::Get).0, Route::Service("custom")));
}

#[test]
fn two_custom_fallbacks_do_not_merge() {
    let a: Router<&str> = Router::new().fallback("a");
    let b: Router<&str> = Router::new().fallback("b");
    assert!(matches!(a.merge(b), Err(RouteError::FallbackConflict)));
}

#[test]
fn merge_combines_paths_and_methods() {
    let a: Router<&str> = Router::new().route("/x", get("xg")).unwrap();
    let b: Router<&str> = Router::new()
        .route("/x", post("xp"))
        .unwrap()
        .route("/y", get("yg"))
        .unwrap();
    let m = a.merge(b).unwrap();
    assert!(matches!(m.call_with_state("/x", Method::Get).0, Route::Service("xg")));
    assert!(matches!(m.call_with_state("/x", Method::Post).0, Route::Service("xp")));
    assert!(matches!(m.call_with_state("/y", Method::Get).0, Route::Service("yg")));
}

#[test]
fn merge_with_overlap_fails() {
    let a: Router<&str> = Router::new().route("/x", get("1")).unwrap();
    let b: Router<&str> = Router::new().route("/x", get("2")).unwrap();
    assert!(matches!(a.merge(b), Err(RouteError::Methods(_))));
}

#[test]
fn invalid_template_is_refused() {
    let r: Result<Router<&str>, _> = Router::new().route("/a/{", get("x"));
    assert!(matches!(r, Err(RouteError::InvalidPath { .. })));
    let r: Result<Router<&str>, _> = Router::new()
        .route("/u/{id}", get("x"))
        .unwrap()
        .route("/u/{name}", get("y"));
    assert!(matches!(r, Err(RouteError::InvalidPath { .. })));
}

#[test]
fn service_route_takes_every_method() {
    let r: Router<&str> = Router::new().route_service("/raw", Route::new("raw")).unwrap();
    assert!(matches!(r.call_with_state("/raw", Method::Delete).0, Route::Service("raw")));
    let again = r.route_service("/raw", Route::new("other"));
    assert!(matches!(again, Err(RouteError::PathTaken { .. })));
    let r: Router<&str> = Router::new().route_service("/raw", Route::new("raw")).unwrap();
    assert!(matches!(r.route("/raw", get("g")), Err(RouteError::PathTaken { .. })));
}

#[test]
fn fixed_routes_answer_their_status() {
    let nf: Route<()> = Route::not_found();
    let resp = nf.fixed_response().unwrap();
    assert_eq!(resp.status.as_u16(), 404);
    let svc: Route<u8> = Route::new(3);
    assert!(svc.fixed_response().is_none());
}

#[test]
fn method_fallbacks_merge_like_router_fallbacks() {
    let custom: MethodRouter<&str> = get("g").fallback("other");
    assert!(matches!(custom.call(Method::Put), Route::Service("other")));
    let merged = post("p").merge_for_path(None, custom).unwrap();
    assert!(matches!(merged.call(Method::Delete), Route::Service("other")));
    assert!(matches!(merged.call(Method::Post), Route::Service("p")));

    let a: MethodRouter<&str> = get("g").fallback("x");
    let b: MethodRouter<&str> = post("p").fallback("y");
    assert_eq!(a.merge_for_path(Some("/m"), b).unwrap_err(), MergeError::FallbackConflict);
}

#[test]
fn other_methods_reach_fallbacks() {
    let r: Router<&str> = Router::new()
        .route("/m", get("g"))
        .unwrap()
        .route_service("/raw", Route::new("raw"))
        .unwrap();
    assert!(matches!(r.call_other_method("/m").0, Route::Status(c) if c.as_u16() == 405));
    assert!(matches!(r.call_other_method("/raw").0, Route::Service("raw")));
    assert!(matches!(r.call_other_method("/none").0, Route::Status(c) if c.as_u16() == 404));
}

#[test]
fn merge_with_empty_router_keeps_everything() {
    let r: Router<&str> = Router::new().route("/a/{x}", get("a")).unwrap().fallback("fb");
    let m = r.merge(Router::new()).unwrap();
    assert!(matches!(m.call_with_state("/a/1", Method::Get).0, Route::Service("a")));
    assert!(matches!(m.call_with_state("/b", Method::Get).0, Route::Service("fb")));
    let plain: Router<&str> = Router::new().route("/a", get("a")).unwrap();
    let m = Router::new().merge(plain).unwrap();
    assert!(m.has_default_fallback());
    assert!(matches!(m.call_with_state("/b", Method::Get).0, Route::Status(c) if c.as_u16() == 404));
}

#[test]
fn too_many_parameters_are_refused() {
    let many: String = (0..26).map(|i| format!("/{{p{}}}", i)).collect();
    let r: Result<Router<&str>, _> = Router::new().route(&many, get("x"));
    assert!(matches!(r, Err(RouteError::TooManyParameters { .. })));
    let fits: String = (0..25).map(|i| format!("/{{p{}}}", i)).collect();
    let r: Router<&str> = Router::new().route(&fits, get("x")).unwrap();
    let path: String = (0..25).map(|i| format!("/{}", i)).collect();
    let (route, params) = r.call_with_state(&path, Method::Get);
    assert!(matches!(route, Route::Service("x")));
    assert_eq!(params.len(), 25);
}

#[test]
fn overlap_wins_over_fallback_conflict() {
    let r: Router<&str> = Router::new().route("/p", get("a").fallback("f1")).unwrap();
    let e = r.route("/p", get("b").fallback("f2"));
    assert!(matches!(e, Err(RouteError::Methods(MergeError::Overlap { method: Method::Get, .. }))));
}
