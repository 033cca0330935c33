use tags_server::config::Config;
use tags_server::routes::debug;
use tags_server::routes::handle_request;
use tags_server::routes::not_found;
use tags_server::routes::root;

fn config(debug: bool) -> Config {
    Config { address: "0.0.0.0:8888".to_string(), debug }
}

#[test]
fn root_route_serves_greeting() {
    let r = handle_request(&config(false), "GET", "/");
    assert_eq!(r.status, 200);
    assert_eq!(r.body, "Hello, notetakers!");
    assert!(r.html);
}

#[test]
fn debug_route_is_absent_without_debug() {
    let r = handle_request(&config(false), "GET", "/debug");
    assert_eq!(r.status, 404);
    assert_eq!(r.body, "Not found");
}

#[test]
fn debug_route_dumps_config_with_debug() {
    let c = Config { address: "192.168.0.7:8080".to_string(), debug: true };
    let r = handle_request(&c, "GET", "/debug");
    assert_eq!(r.status, 200);
    assert!(r.html);
    assert!(r.body.contains("192.168.0.7:8080"));
}

#[test]
fn unmatched_requests_fall_through() {
    let r = handle_request(&config(true), "GET", "/nope");
    assert_eq!(r.status, 404);
    assert_eq!(r.body, "Not found");
    assert!(!r.html);

    let r = handle_request(&config(true), "POST", "/");
    assert_eq!(r.status, 404);
    assert_eq!(r.body, "Not found");
}

#[test]
fn handler_bodies_are_exact() {
    assert_eq!(root().body, "Hello, notetakers!");
    assert_eq!(not_found().body, "Not found");
    let r = debug(&Config { address: "1.2.3.4:5".to_string(), debug: true });
    assert_eq!(r.body, "<pre>Config { address: 1.2.3.4:5, debug: true }</pre>");
    let r = debug(&Config { address: "1.2.3.4:5".to_string(), debug: false });
    assert_eq!(r.body, "<pre>Config { address: 1.2.3.4:5, debug: false }</pre>");
}
