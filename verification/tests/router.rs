use goldsrc_addons::router::{match_route, param, routes, RouteId};

fn get<'a>(params: &'a Vec<(String, String)>, name: &str) -> Option<&'a str> {
    param(params, name).map(String::as_str)
}

#[test]
fn matches_declared_routes() {
    let (id, params) = match_route("GET", "/servers/3/state").expect("route matches");
    assert_eq!(id, RouteId::State);
    assert_eq!(get(&params, "id"), Some("3"));

    let (id, params) = match_route("post", "/servers/3/amxx/plugins/toggle").expect("route matches");
    assert_eq!(id, RouteId::TogglePlugin);
    assert_eq!(get(&params, "platform"), Some("amxx"));

    let (id, _) = match_route("POST", "/servers/3/metamod/plugins").expect("route matches");
    assert_eq!(id, RouteId::AddPlugin);

    let (id, _) = match_route("DELETE", "servers/3/amxx/plugins").expect("route matches");
    assert_eq!(id, RouteId::RemovePlugin);
}

#[test]
fn rejects_unknown() {
    assert!(match_route("GET", "/servers/3/unknown").is_none());
    assert!(match_route("PUT", "/servers/3/state").is_none());
    assert!(match_route("GET", "/servers/3/state/extra").is_none());
    assert!(match_route("GET", "/").is_none());
}

#[test]
fn attributes_route_and_trailing_slash() {
    let (id, params) = match_route("POST", "/servers/7/metamod/plugins/attributes/").expect("route matches");
    assert_eq!(id, RouteId::SetAttributes);
    assert_eq!(get(&params, "id"), Some("7"));
    assert_eq!(get(&params, "platform"), Some("metamod"));
    assert_eq!(get(&params, "file"), None);
}

#[test]
fn declared_table() {
    let table = routes();
    assert_eq!(table.len(), 5);
    assert_eq!(table[0].id, RouteId::State);
    assert_eq!(table[0].method, "GET");
    assert_eq!(table[0].pattern, "/servers/{id}/state");
    assert_eq!(table[4].id, RouteId::RemovePlugin);
    assert_eq!(table[4].method, "DELETE");
    assert_eq!(table[4].pattern, "/servers/{id}/{platform}/plugins");
}

#[test]
fn param_takes_the_last_binding() {
    let params = vec![
        ("id".to_string(), "1".to_string()),
        ("id".to_string(), "2".to_string()),
    ];
    assert_eq!(get(&params, "id"), Some("2"));
    assert_eq!(get(&params, "x"), None);
}
