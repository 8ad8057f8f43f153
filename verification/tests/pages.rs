use respo_route_demo::pages::{comp_nav_links, comp_route_content, PageContent};
use respo_route_demo::router::{
    parse_route, AppRouterMatch, ClosestMatch, CounterModuleRoute, CounterQuery, RouteState,
};

fn texts(p: PageContent) -> Vec<String> {
    match p {
        PageContent::Home { message } => vec![message],
        PageContent::CounterDetail { heading, tab, page } => vec!["detail".into(), heading, tab, page],
        PageContent::CounterModule { heading, tab, page } => vec!["module".into(), heading, tab, page],
        PageContent::ParseFailed { heading, remaining, patterns, closest } => vec![heading, remaining, patterns, closest],
    }
}

#[test]
fn home_page_message() {
    assert_eq!(texts(comp_route_content(&parse_route("/"))), vec!["🏠 Welcome Home!"]);
    assert_eq!(texts(comp_route_content(&parse_route("/?welcome=Hi"))), vec!["🏠 Hi"]);
}

#[test]
fn counter_pages() {
    assert_eq!(
        texts(comp_route_content(&parse_route("/counter?tab=a%22b&page=4"))),
        vec!["module", "📊 Counter Module", "Tab: Some(\"a\\\"b\")", "Page: 4"]
    );
    assert_eq!(
        texts(comp_route_content(&parse_route("/counter/42"))),
        vec!["detail", "📊 Counter Detail - ID: 42", "Tab: None", "Page: 1"]
    );
}

#[test]
fn parse_failed_page() {
    assert_eq!(
        texts(comp_route_content(&parse_route("/counter/abc"))),
        vec!["⚠️ Route Parse Failed", "Remaining path: /abc", "Attempted patterns: []", "Closest match: None"]
    );
    let r = AppRouterMatch::Counter(CounterModuleRoute {
        query: CounterQuery { tab: None, page: 1 },
        sub_router: RouteState::ParseFailed {
            remaining_path: "/x".to_string(),
            attempted_patterns: vec!["/:id".to_string(), "a\nb".to_string()],
            closest_match: Some(ClosestMatch { pattern: "/:id".to_string(), matched_length: 3, failure_reason: "bad".to_string() }),
        },
    });
    assert_eq!(
        texts(comp_route_content(&r)),
        vec![
            "⚠️ Route Parse Failed",
            "Remaining path: /x",
            "Attempted patterns: [\"/:id\", \"a\\nb\"]",
            "Closest match: Some(ClosestMatch { pattern: \"/:id\", matched_length: 3, failure_reason: \"bad\" })",
        ]
    );
}

#[test]
fn nav_links() {
    let links = comp_nav_links();
    let labels: Vec<&str> = links.iter().map(|l| l.label.as_str()).collect();
    assert_eq!(labels, vec!["Home", "Counter", "Counter Detail (42)"]);
    assert_eq!(links[0].route.format(), "/");
    assert_eq!(links[1].route.format(), "/counter?page=0");
    assert_eq!(links[2].route.format(), "/counter/42?page=0");
}
