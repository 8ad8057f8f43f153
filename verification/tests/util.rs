use respo_route_demo::router::{AppRouterMatch, CounterModuleRoute, CounterQuery, HomeQuery, HomeRoute, RouteState};
use respo_route_demo::router_util::{
    format_route, get_current_pathname, get_current_route, get_current_search, navigate_to, parse_route,
};

#[test]
fn current_route_from_location() {
    assert_eq!(
        get_current_route(Some("/counter"), "?tab=a"),
        AppRouterMatch::Counter(CounterModuleRoute {
            query: CounterQuery { tab: Some("a".to_string()), page: 1 },
            sub_router: RouteState::NoSubRoute,
        })
    );
    assert_eq!(get_current_route(None, "?tab=a"), AppRouterMatch::default());
}

#[test]
fn pathname_and_search_defaults() {
    assert_eq!(get_current_pathname(None), "/");
    assert_eq!(get_current_pathname(Some("/x".to_string())), "/x");
    assert_eq!(get_current_search(None), "");
    assert_eq!(get_current_search(Some("?a=1".to_string())), "?a=1");
}

#[test]
fn util_parse_and_format() {
    let r = parse_route("/?welcome=hey");
    assert_eq!(r, AppRouterMatch::Home(HomeRoute { query: HomeQuery { welcome: Some("hey".to_string()) } }));
    assert_eq!(format_route(&r), "/?welcome=hey");
    assert_eq!(parse_route("nope"), AppRouterMatch::default());
    let n = navigate_to(r);
    assert_eq!(n.path, "/?welcome=hey");
}
