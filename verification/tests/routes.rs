use respo_route_demo::router::{
    parse_route, parse_route_is_defined, AppRouterMatch, CounterDetailRoute, CounterModuleRoute,
    CounterQuery, CounterSubRouterMatch, HomeQuery, HomeRoute, RouteState,
};

fn home(welcome: Option<&str>) -> AppRouterMatch {
    AppRouterMatch::Home(HomeRoute { query: HomeQuery { welcome: welcome.map(|s| s.to_string()) } })
}

fn query(tab: Option<&str>, page: u32) -> CounterQuery {
    CounterQuery { tab: tab.map(|s| s.to_string()), page }
}

fn counter(q: CounterQuery, sub: RouteState<CounterSubRouterMatch>) -> AppRouterMatch {
    AppRouterMatch::Counter(CounterModuleRoute { query: q, sub_router: sub })
}

fn detail(id: u32, q: CounterQuery) -> RouteState<CounterSubRouterMatch> {
    RouteState::SubRoute(CounterSubRouterMatch::Detail(CounterDetailRoute { id, query: q }))
}

fn parse(path: &str) -> AppRouterMatch {
    assert!(parse_route_is_defined(path));
    parse_route(path)
}

#[test]
fn root_is_home() {
    assert_eq!(parse("/"), home(None));
}

#[test]
fn home_reads_decoded_welcome() {
    assert_eq!(parse("/?welcome=hi%20there"), home(Some("hi there")));
    assert_eq!(parse("/?welcome=a+b"), home(Some("a b")));
    assert_eq!(parse("/?welcome"), home(Some("")));
}

#[test]
fn home_takes_any_other_path() {
    assert_eq!(parse("/anything/else?welcome=x"), home(Some("x")));
}

#[test]
fn counter_defaults_page_to_one() {
    assert_eq!(parse("/counter"), counter(query(None, 1), RouteState::NoSubRoute));
}

#[test]
fn counter_reads_tab_and_page() {
    assert_eq!(parse("/counter?tab=a&page=3"), counter(query(Some("a"), 3), RouteState::NoSubRoute));
    assert_eq!(parse("/counter?page=3&tab=a"), counter(query(Some("a"), 3), RouteState::NoSubRoute));
    assert_eq!(parse("/counter?page=%2B7"), counter(query(None, 7), RouteState::NoSubRoute));
    assert_eq!(parse("/counter?page=+7"), home(None));
}

#[test]
fn counter_first_value_wins() {
    assert_eq!(parse("/counter?page=2&page=9"), counter(query(None, 2), RouteState::NoSubRoute));
}

#[test]
fn counter_detail_route() {
    assert_eq!(parse("/counter/42"), counter(query(None, 1), detail(42, query(None, 1))));
    assert_eq!(
        parse("/counter/42?page=2&tab=x"),
        counter(query(Some("x"), 2), detail(42, query(Some("x"), 2)))
    );
}

#[test]
fn counter_detail_ignores_what_follows_the_id() {
    assert_eq!(parse("/counter/42/extra"), counter(query(None, 1), detail(42, query(None, 1))));
}

#[test]
fn counter_detail_after_double_slash_takes_shortened_id() {
    assert_eq!(parse("/counter//42"), counter(query(None, 1), detail(4, query(None, 1))));
}

#[test]
fn counter_detail_not_a_number_fails_sub_route() {
    let failed = RouteState::ParseFailed {
        remaining_path: "/abc".to_string(),
        attempted_patterns: vec![],
        closest_match: None,
    };
    assert_eq!(parse("/counter/abc"), counter(query(None, 1), failed));
    let failed = RouteState::ParseFailed {
        remaining_path: "/%E4%B8%AD".to_string(),
        attempted_patterns: vec![],
        closest_match: None,
    };
    assert_eq!(parse("/counter/%E4%B8%AD"), counter(query(None, 1), failed));
}

#[test]
fn counter_detail_too_large_fails_sub_route() {
    let failed = RouteState::ParseFailed {
        remaining_path: "/4294967296".to_string(),
        attempted_patterns: vec![],
        closest_match: None,
    };
    assert_eq!(parse("/counter/4294967296"), counter(query(None, 1), failed));
    assert_eq!(parse("/counter/4294967295"), counter(query(None, 1), detail(4294967295, query(None, 1))));
}

#[test]
fn counter_prefix_without_counter_segment() {
    assert_eq!(parse("/counterx/1?tab=t"), counter(query(Some("t"), 1), RouteState::NoSubRoute));
}

#[test]
fn counter_with_bad_page_falls_back_to_home() {
    assert_eq!(parse("/counter?page=abc"), home(None));
    assert_eq!(parse("/counter?page=abc&welcome=w"), home(Some("w")));
}

#[test]
fn undecodable_query_gives_default_home() {
    assert_eq!(parse("/counter?tab=%ZZ"), home(None));
    assert_eq!(parse("/?welcome=%4"), home(None));
    assert_eq!(parse("/?welcome=%FF"), home(None));
}

#[test]
fn path_without_leading_slash_gives_default_home() {
    assert_eq!(parse(""), home(None));
    assert_eq!(parse("counter"), home(None));
}

#[test]
fn percent_escape_with_plus_sign() {
    assert_eq!(parse("/?welcome=%+A"), home(Some("\n")));
}

#[test]
fn detail_slice_inside_a_character_is_not_defined() {
    assert!(!parse_route_is_defined("/counter//é"));
    assert!(parse_route_is_defined("/counter/é"));
    assert!(parse_route_is_defined("/é//"));
}

#[test]
fn try_parse_reports_no_match() {
    assert_eq!(AppRouterMatch::try_parse("nothing"), None);
    assert_eq!(AppRouterMatch::try_parse("/"), Some(home(None)));
}

#[test]
fn counter_module_parse_route_exact_path_only() {
    assert_eq!(
        CounterModuleRoute::parse_route("/counter?page=5"),
        Some(CounterModuleRoute { query: query(None, 5), sub_router: RouteState::NoSubRoute })
    );
    assert_eq!(CounterModuleRoute::parse_route("/counter/42?page=5"), None);
    assert_eq!(CounterModuleRoute::parse_route("/counter?page=x"), None);
}

#[test]
fn ascii_paths_are_always_defined() {
    for path in ["/counter//", "/counter///x/y", "/counter//%E4?tab=%", "/counter/?", "///", "/counter?x=%zz"] {
        assert!(parse_route_is_defined(path), "{path}");
        let _ = parse_route(path);
    }
    assert_eq!(parse("/counter///"), counter(query(None, 1), RouteState::ParseFailed {
        remaining_path: "///".to_string(),
        attempted_patterns: vec![],
        closest_match: None,
    }));
}
