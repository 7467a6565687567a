use xq::ai::Difficulty;
use xq::bridge::http::{Request, Response, mime_of};
use xq::bridge::routes::{
    ApiRoute, RouteKind, api_route, coach_params, engine_params, route_kind, static_file,
    unknown_route_message,
};

#[test]
fn responses_carry_their_bodies() {
    let r = Response::json("{\"ok\":true}".to_string());
    assert_eq!(r.status, 200);
    assert_eq!(r.content_type, "application/json; charset=utf-8");
    assert_eq!(r.body, b"{\"ok\":true}".to_vec());
    assert!(r.extra_headers.is_empty());
    assert_eq!(r.status_text(), "OK");

    let r = Response::text(404, "未找到\n".to_string());
    assert_eq!(r.status, 404);
    assert_eq!(r.body, "未找到\n".as_bytes().to_vec());
    assert_eq!(r.status_text(), "Not Found");

    let r = Response::bytes("image/png", vec![1, 2, 3]);
    assert_eq!(r.content_type, "image/png");
    assert_eq!(r.body, vec![1, 2, 3]);
    assert_eq!(Response::text(418, String::new()).status_text(), "Unknown");

    let req = Request {
        method: "GET".to_string(),
        path: "/".to_string(),
        body: vec![],
    };
    assert_eq!(req.path, "/");
}

#[test]
fn mime_types_follow_the_extension() {
    assert_eq!(mime_of("index.html"), "text/html; charset=utf-8");
    assert_eq!(mime_of("assets/app.min.js"), "text/javascript; charset=utf-8");
    assert_eq!(mime_of("pieces/red_king.svg"), "image/svg+xml");
    assert_eq!(mime_of("font.woff2"), "font/woff2");
    assert_eq!(mime_of("README"), "application/octet-stream");
    assert_eq!(mime_of("archive.tar.gz"), "application/octet-stream");
    assert_eq!(mime_of("map"), "application/json; charset=utf-8");
}

#[test]
fn api_and_static_paths_are_kept_apart() {
    assert_eq!(route_kind("OPTIONS", "/api/move", false), RouteKind::Preflight);
    assert_eq!(
        route_kind("GET", "/api/undo", false),
        RouteKind::Api(ApiRoute::Unknown),
        "a wrong method never falls through to the static files"
    );
    assert_eq!(route_kind("POST", "/api/undo", true), RouteKind::Api(ApiRoute::Undo));
    assert_eq!(route_kind("GET", "/index.html", true), RouteKind::ApiOnly);
    assert_eq!(route_kind("GET", "/api", false), RouteKind::Static);
    assert_eq!(api_route("GET", "/api/health"), ApiRoute::Health);
    assert_eq!(api_route("GET", "/api/state"), ApiRoute::State);
    assert_eq!(api_route("POST", "/api/new"), ApiRoute::NewGame);
    assert_eq!(api_route("POST", "/api/analyze"), ApiRoute::Analyze);
    assert_eq!(api_route("PUT", "/api/new"), ApiRoute::Unknown);
    assert_eq!(
        unknown_route_message("PUT", "/api/new"),
        "未知接口：PUT /api/new（可用接口见服务启动日志）"
    );
}

#[test]
fn engine_parameters_have_defaults_and_limits() {
    assert_eq!(engine_params(None, None), (Difficulty::L3, 1_200));
    assert_eq!(engine_params(Some("l5"), Some(10)), (Difficulty::L5, 50));
    assert_eq!(engine_params(Some("l9"), Some(99_999)), (Difficulty::L3, 30_000));
    assert_eq!(coach_params(None, None), (Difficulty::L4, 1_200));
    assert_eq!(coach_params(Some("l1"), Some(99_999)), (Difficulty::L1, 10_000));
}

#[test]
fn static_paths_stay_inside_the_served_directory() {
    assert_eq!(static_file("/").as_deref(), Some("index.html"));
    assert_eq!(static_file("").as_deref(), Some("index.html"));
    assert_eq!(static_file("//assets/app.js").as_deref(), Some("assets/app.js"));
    assert_eq!(static_file("/assets/../secret"), None);
    assert_eq!(static_file("/./x"), None);
    assert_eq!(static_file("/a\\b"), None);
    assert_eq!(static_file("/a..b/c").as_deref(), Some("a..b/c"));
}
