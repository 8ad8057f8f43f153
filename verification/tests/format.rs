use respo_route_demo::router::{
    navigate_counter, navigate_counter_detail, navigate_home, navigate_to, parse_route,
    AppRouterMatch, ClosestMatch, CounterDetailRoute, CounterModuleRoute, CounterQuery,
    CounterSubRouterMatch, HomeQuery, HomeRoute, RouteState,
};
use respo_route_demo::store::ActionOp;

fn q(tab: Option<&str>, page: u32) -> CounterQuery {
    CounterQuery { tab: tab.map(|s| s.to_string()), page }
}

#[test]
fn home_formats() {
    assert_eq!(AppRouterMatch::default().format(), "/");
    let h = |w: &str| AppRouterMatch::Home(HomeRoute { query: HomeQuery { welcome: Some(w.to_string()) } });
    assert_eq!(h("hi there").format(), "/?welcome=hi%20there");
    assert_eq!(h("").format(), "/?welcome");
    assert_eq!(h("a&b=c/é").format(), "/?welcome=a%26b%3Dc%2F%C3%A9");
}

#[test]
fn counter_formats_with_page() {
    let c = AppRouterMatch::Counter(CounterModuleRoute::default());
    assert_eq!(c.format(), "/counter?page=0");
    let c = AppRouterMatch::Counter(CounterModuleRoute { query: q(Some("x y"), 2), sub_router: RouteState::NoSubRoute });
    let s = c.format();
    assert!(s == "/counter?tab=x%20y&page=2" || s == "/counter?page=2&tab=x%20y", "{s}");
}

#[test]
fn counter_detail_formats_with_its_own_query() {
    let c = AppRouterMatch::Counter(CounterModuleRoute {
        query: q(Some("ignored"), 9),
        sub_router: RouteState::SubRoute(CounterSubRouterMatch::Detail(CounterDetailRoute { id: 42, query: q(None, 3) })),
    });
    assert_eq!(c.format(), "/counter/42?page=3");
}

#[test]
fn failed_sub_route_is_not_written() {
    let c = AppRouterMatch::Counter(CounterModuleRoute {
        query: q(None, 1),
        sub_router: RouteState::ParseFailed {
            remaining_path: "/abc".to_string(),
            attempted_patterns: vec![],
            closest_match: Some(ClosestMatch { pattern: "/:id".to_string(), matched_length: 1, failure_reason: "x".to_string() }),
        },
    });
    assert_eq!(c.format(), "/counter?page=1");
}

#[test]
fn format_then_parse_gives_route_back() {
    let routes = vec![
        AppRouterMatch::default(),
        AppRouterMatch::Home(HomeRoute { query: HomeQuery { welcome: Some("x=1&y=?é +".to_string()) } }),
        AppRouterMatch::Home(HomeRoute { query: HomeQuery { welcome: Some(String::new()) } }),
        AppRouterMatch::Counter(CounterModuleRoute { query: q(Some("t&a=b"), 77), sub_router: RouteState::NoSubRoute }),
        AppRouterMatch::Counter(CounterModuleRoute {
            query: q(Some(""), 3),
            sub_router: RouteState::SubRoute(CounterSubRouterMatch::Detail(CounterDetailRoute { id: 7, query: q(Some(""), 3) })),
        }),
    ];
    for r in routes {
        assert_eq!(parse_route(&r.format()), r);
    }
}

#[test]
fn navigation_paths_and_actions() {
    let n = navigate_home();
    assert_eq!(n.path, "/");
    assert!(matches!(n.action, ActionOp::RouteChange(AppRouterMatch::Home(_))));
    let n = navigate_counter();
    assert_eq!(n.path, "/counter?page=0");
    let n = navigate_counter_detail(42);
    assert_eq!(n.path, "/counter/42?page=0");
    match n.action {
        ActionOp::RouteChange(AppRouterMatch::Counter(c)) => {
            assert_eq!(c.sub_router, RouteState::SubRoute(CounterSubRouterMatch::Detail(CounterDetailRoute { id: 42, query: q(None, 0) })));
        }
        other => panic!("unexpected {other:?}"),
    }
    let n = navigate_to(AppRouterMatch::Home(HomeRoute { query: HomeQuery { welcome: Some("w".to_string()) } }));
    assert_eq!(n.path, "/?welcome=w");
}

#[test]
fn stored_counter_route_reads_back() {
    let c = CounterModuleRoute { query: q(Some("a b"), 12), sub_router: RouteState::NoSubRoute };
    assert_eq!(CounterModuleRoute::parse_route(&c.format()), Some(c));
    let with_detail = CounterModuleRoute {
        query: q(None, 1),
        sub_router: RouteState::SubRoute(CounterSubRouterMatch::Detail(CounterDetailRoute { id: 5, query: q(None, 1) })),
    };
    assert_eq!(CounterModuleRoute::parse_route(&with_detail.format()), None);
}

#[test]
fn parse_format_parse_is_stable() {
    for path in ["/counter/9?tab=z&page=4", "/?welcome=%20x", "/counter?page=0", "/counterzz?tab=1"] {
        let r = parse_route(path);
        assert_eq!(parse_route(&r.format()), r, "{path}");
    }
}
