//! What each page shows for the current route: the texts of the navigation
//! links and of the page content. Drawing them is left to the view layer.
use vstd::prelude::*;
use crate::router::{
    AppRouterMatch, ClosestMatch, CounterDetailRoute, CounterModuleRoute, CounterQuery,
    CounterSubRouterMatch, HomeQuery, HomeRoute, RouteState, SpecAppRouterMatch,
    SpecClosestMatch, SpecCounterDetailRoute, SpecCounterModuleRoute, SpecCounterSubRouterMatch, SpecHomeRoute,
    SpecRouteState, counter_detail_route, default_counter_route, default_home,
};
use crate::query::{lemma_parse_u32_decimal, spec_parse_u32};
use crate::text::{decimal, decimal_string, has_prefix};

verus! {

/// The `Debug` text of a string (quoted, special characters escaped).
pub uninterp spec fn debug_str(s: Seq<char>) -> Seq<char>;

/// `<str as Debug>::fmt`: the string in double quotes with its special
/// characters escaped; the escaping follows Unicode tables and is not stated.
#[verifier::external_body]
fn debug_quoted(s: &str) -> (r: String)
    ensures
        r@ == debug_str(s@),
{
    format!("{:?}", s)
}

/// The `Debug` text of an optional string.
pub open spec fn debug_option(o: Option<Seq<char>>) -> Seq<char> {
    match o {
        None => "None"@,
        Some(t) => "Some("@ + debug_str(t) + ")"@,
    }
}

/// The `Debug` texts of the strings, separated by `, `.
pub open spec fn debug_items(v: Seq<Seq<char>>) -> Seq<char>
    decreases v.len(),
{
    if v.len() == 0 {
        seq![]
    } else if v.len() == 1 {
        debug_str(v[0])
    } else {
        debug_str(v[0]) + ", "@ + debug_items(v.drop_first())
    }
}

/// The `Debug` text of a list of strings.
pub open spec fn debug_list(v: Seq<Seq<char>>) -> Seq<char> {
    "["@ + debug_items(v) + "]"@
}

/// The `Debug` text of an optional closest match.
pub open spec fn debug_closest(o: Option<SpecClosestMatch>) -> Seq<char> {
    match o {
        None => "None"@,
        Some(c) => "Some(ClosestMatch { pattern: "@ + debug_str(c.pattern) + ", matched_length: "@
            + decimal(c.matched_length as nat) + ", failure_reason: "@ + debug_str(c.failure_reason) + " })"@,
    }
}

/// A navigation link: its label and the route it leads to.
#[derive(Debug)]
pub struct NavLink {
    pub label: String,
    pub route: AppRouterMatch,
}

/// What a page shows.
#[derive(Debug)]
pub enum PageContent {
    /// The home page: a welcome message.
    Home { message: String },
    /// A counter detail: heading with the id, tab and page lines; the counter follows.
    CounterDetail { heading: String, tab: String, page: String },
    /// The counter module: heading, tab and page lines; the counter follows.
    CounterModule { heading: String, tab: String, page: String },
    /// A sub-route that did not parse: what was left and what was tried.
    ParseFailed { heading: String, remaining: String, patterns: String, closest: String },
}

pub enum SpecPageContent {
    Home { message: Seq<char> },
    CounterDetail { heading: Seq<char>, tab: Seq<char>, page: Seq<char> },
    CounterModule { heading: Seq<char>, tab: Seq<char>, page: Seq<char> },
    ParseFailed { heading: Seq<char>, remaining: Seq<char>, patterns: Seq<char>, closest: Seq<char> },
}

impl View for PageContent {
    type V = SpecPageContent;

    open spec fn view(&self) -> SpecPageContent {
        match self {
            PageContent::Home { message } => SpecPageContent::Home { message: message@ },
            PageContent::CounterDetail { heading, tab, page } =>
                SpecPageContent::CounterDetail { heading: heading@, tab: tab@, page: page@ },
            PageContent::CounterModule { heading, tab, page } =>
                SpecPageContent::CounterModule { heading: heading@, tab: tab@, page: page@ },
            PageContent::ParseFailed { heading, remaining, patterns, closest } =>
                SpecPageContent::ParseFailed {
                    heading: heading@,
                    remaining: remaining@,
                    patterns: patterns@,
                    closest: closest@,
                },
        }
    }
}

/// The home page of a home route: the welcome query, or "Welcome Home!".
pub open spec fn spec_home_page(h: SpecHomeRoute) -> SpecPageContent {
    SpecPageContent::Home {
        message: "🏠 "@ + match h.query.welcome {
            Some(w) => w,
            None => "Welcome Home!"@,
        },
    }
}

/// The counter page of a counter route, by the state of its sub-route.
pub open spec fn spec_counter_page(c: SpecCounterModuleRoute) -> SpecPageContent {
    match c.sub_router {
        SpecRouteState::SubRoute(SpecCounterSubRouterMatch::Detail(d)) => SpecPageContent::CounterDetail {
            heading: "📊 Counter Detail - ID: "@ + decimal(d.id as nat),
            tab: "Tab: "@ + debug_option(d.query.tab),
            page: "Page: "@ + decimal(d.query.page as nat),
        },
        SpecRouteState::NoSubRoute => SpecPageContent::CounterModule {
            heading: "📊 Counter Module"@,
            tab: "Tab: "@ + debug_option(c.query.tab),
            page: "Page: "@ + decimal(c.query.page as nat),
        },
        SpecRouteState::ParseFailed { remaining_path, attempted_patterns, closest_match } =>
            SpecPageContent::ParseFailed {
                heading: "⚠️ Route Parse Failed"@,
                remaining: "Remaining path: "@ + remaining_path,
                patterns: "Attempted patterns: "@ + debug_list(attempted_patterns),
                closest: "Closest match: "@ + debug_closest(closest_match),
            },
    }
}

/// The page of a route.
pub open spec fn spec_route_content(r: SpecAppRouterMatch) -> SpecPageContent {
    match r {
        SpecAppRouterMatch::Home(h) => spec_home_page(h),
        SpecAppRouterMatch::Counter(c) => spec_counter_page(c),
    }
}

/// The number a line shows after `prefix`, read as `u32::from_str` reads it;
/// `None` where the line does not start with `prefix` or no number follows.
pub open spec fn number_after(line: Seq<char>, prefix: Seq<char>) -> Option<u32> {
    if has_prefix(line, prefix) {
        spec_parse_u32(line.skip(prefix.len() as int))
    } else {
        None
    }
}

/// The text a line shows after `prefix`; `None` where it does not start so.
pub open spec fn text_after(line: Seq<char>, prefix: Seq<char>) -> Option<Seq<char>> {
    if has_prefix(line, prefix) {
        Some(line.skip(prefix.len() as int))
    } else {
        None
    }
}

proof fn lemma_number_after(prefix: Seq<char>, n: u32)
    ensures
        number_after(prefix + decimal(n as nat), prefix) == Some(n),
{
    let line = prefix + decimal(n as nat);
    assert(line.take(prefix.len() as int) =~= prefix);
    assert(line.skip(prefix.len() as int) =~= decimal(n as nat));
    lemma_parse_u32_decimal(n);
}

proof fn lemma_text_after(prefix: Seq<char>, rest: Seq<char>)
    ensures
        text_after(prefix + rest, prefix) == Some(rest),
{
    let line = prefix + rest;
    assert(line.take(prefix.len() as int) =~= prefix);
    assert(line.skip(prefix.len() as int) =~= rest);
}

/// The page of a counter detail route shows the detail's id in its heading
/// and the detail's page in its page line, each read back as the very number
/// it was (for every `u32`), and the detail's tab in its tab line: `None`, or
/// `Some` with the tab in `Debug` quotes.
pub proof fn lemma_counter_detail_page(c: SpecCounterModuleRoute, d: SpecCounterDetailRoute)
    requires
        c.sub_router == SpecRouteState::SubRoute(SpecCounterSubRouterMatch::Detail(d)),
    ensures
        spec_route_content(SpecAppRouterMatch::Counter(c)) == spec_counter_page(c),
        spec_counter_page(c) matches SpecPageContent::CounterDetail { heading, tab, page }
            && number_after(heading, "📊 Counter Detail - ID: "@) == Some(d.id)
            && number_after(page, "Page: "@) == Some(d.query.page)
            && (d.query.tab is None ==> tab == "Tab: "@ + "None"@)
            && (d.query.tab matches Some(t) ==> tab == "Tab: "@ + ("Some("@ + debug_str(t) + ")"@)),
{
    lemma_number_after("📊 Counter Detail - ID: "@, d.id);
    lemma_number_after("Page: "@, d.query.page);
}

/// The page of a counter route without a sub-route shows the module heading,
/// the route's page in its page line, read back as the very number it was
/// (0 included), and the route's tab: `None`, or `Some` with the tab in
/// `Debug` quotes.
pub proof fn lemma_counter_module_page(c: SpecCounterModuleRoute)
    requires
        c.sub_router is NoSubRoute,
    ensures
        spec_route_content(SpecAppRouterMatch::Counter(c)) == spec_counter_page(c),
        spec_counter_page(c) matches SpecPageContent::CounterModule { heading, tab, page }
            && heading == "📊 Counter Module"@
            && number_after(page, "Page: "@) == Some(c.query.page)
            && (c.query.tab is None ==> tab == "Tab: "@ + "None"@)
            && (c.query.tab matches Some(t) ==> tab == "Tab: "@ + ("Some("@ + debug_str(t) + ")"@)),
{
    lemma_number_after("Page: "@, c.query.page);
}

/// The page of a counter route whose sub-route did not parse shows the path
/// that was left over after "Remaining path: ", the `Debug` list of the
/// patterns tried after "Attempted patterns: ", and the `Debug` text of the
/// closest match after "Closest match: ".
pub proof fn lemma_parse_failed_page(c: SpecCounterModuleRoute)
    requires
        c.sub_router is ParseFailed,
    ensures
        spec_route_content(SpecAppRouterMatch::Counter(c)) == spec_counter_page(c),
        spec_counter_page(c) matches SpecPageContent::ParseFailed { heading, remaining, patterns, closest }
            && heading == "⚠️ Route Parse Failed"@
            && text_after(remaining, "Remaining path: "@) == Some(c.sub_router->remaining_path)
            && text_after(patterns, "Attempted patterns: "@) == Some(debug_list(c.sub_router->attempted_patterns))
            && text_after(closest, "Closest match: "@) == Some(debug_closest(c.sub_router->closest_match)),
{
    lemma_text_after("Remaining path: "@, c.sub_router->remaining_path);
    lemma_text_after("Attempted patterns: "@, debug_list(c.sub_router->attempted_patterns));
    lemma_text_after("Closest match: "@, debug_closest(c.sub_router->closest_match));
}

/// The `Debug` list of no strings is `[]`; of one string, that string's
/// `Debug` text in brackets; and one more string at the end adds `, ` and its
/// `Debug` text before the closing bracket.
pub proof fn lemma_debug_list(v: Seq<Seq<char>>, x: Seq<char>)
    ensures
        debug_list(seq![]) == "["@ + "]"@,
        debug_list(seq![x]) == "["@ + debug_str(x) + "]"@,
        v.len() > 0 ==> debug_items(v.push(x)) == debug_items(v) + ", "@ + debug_str(x),
    decreases v.len(),
{
    assert(debug_items(seq![]) == Seq::<char>::empty());
    assert("["@ + Seq::<char>::empty() =~= "["@);
    if v.len() == 1 {
        assert(v.push(x).drop_first() =~= seq![x]);
    } else if v.len() > 1 {
        lemma_debug_list(v.drop_first(), x);
        assert(v.push(x).drop_first() =~= v.drop_first().push(x));
        assert(debug_str(v[0]) + ", "@ + (debug_items(v.drop_first()) + ", "@ + debug_str(x))
            =~= debug_str(v[0]) + ", "@ + debug_items(v.drop_first()) + ", "@ + debug_str(x));
    }
}

/// The home page shows, after "🏠 ", the route's welcome text, or
/// "Welcome Home!" where the route has none.
pub proof fn lemma_home_page(h: SpecHomeRoute)
    ensures
        spec_route_content(SpecAppRouterMatch::Home(h)) == spec_home_page(h),
        spec_home_page(h) matches SpecPageContent::Home { message }
            && text_after(message, "🏠 "@) == Some(
                match h.query.welcome {
                    Some(w) => w,
                    None => "Welcome Home!"@,
                },
            ),
{
    let w = match h.query.welcome {
        Some(w) => w,
        None => "Welcome Home!"@,
    };
    lemma_text_after("🏠 "@, w);
}

/// `prefix` followed by `rest`.
fn concat(prefix: &str, rest: &str) -> (r: String)
    ensures
        r@ == prefix@ + rest@,
{
    let mut r = String::from_str(prefix);
    r.append(rest);
    r
}

/// `Debug` text of an optional string.
fn debug_option_text(o: &Option<String>) -> (r: String)
    ensures
        r@ == debug_option(o.deep_view()),
{
    match o {
        None => String::from_str("None"),
        Some(t) => {
            let mut r = String::from_str("Some(");
            let q = debug_quoted(t.as_str());
            r.append(q.as_str());
            r.append(")");
            r
        },
    }
}

/// `Debug` text of a list of strings.
fn debug_list_text(v: &Vec<String>) -> (r: String)
    ensures
        r@ == debug_list(v.deep_view()),
{
    let mut items = String::new();
    let n = v.len();
    let mut i = n;
    let ghost dv = v.deep_view();
    assert(dv.skip(n as int) =~= Seq::<Seq<char>>::empty());
    while i > 0
        invariant
            n == v.len(),
            dv == v.deep_view(),
            i <= n,
            items@ == debug_items(dv.skip(i as int)),
        decreases i,
    {
        i = i - 1;
        let q = debug_quoted(v[i].as_str());
        let ghost rest = dv.skip(i as int + 1);
        assert(dv.skip(i as int).drop_first() =~= rest);
        assert(dv.skip(i as int)[0] == v@[i as int]@);
        if i + 1 == n {
            items = q;
        } else {
            assert(rest.len() > 0);
            let mut joined = q;
            joined.append(", ");
            joined.append(items.as_str());
            items = joined;
        }
    }
    assert(dv.skip(0) =~= dv);
    let mut r = String::from_str("[");
    r.append(items.as_str());
    r.append("]");
    r
}

/// `Debug` text of an optional closest match.
fn debug_closest_text(o: &Option<ClosestMatch>) -> (r: String)
    ensures
        r@ == debug_closest(match o { Some(c) => Some(c@), None => None }),
{
    match o {
        None => String::from_str("None"),
        Some(c) => {
            let mut r = String::from_str("Some(ClosestMatch { pattern: ");
            r.append(debug_quoted(c.pattern.as_str()).as_str());
            r.append(", matched_length: ");
            r.append(decimal_string(c.matched_length as u64).as_str());
            r.append(", failure_reason: ");
            r.append(debug_quoted(c.failure_reason.as_str()).as_str());
            r.append(" })");
            r
        },
    }
}

/// The navigation links: home, counter, and the counter detail of 42.
pub fn comp_nav_links() -> (r: Vec<NavLink>)
    ensures
        r@.len() == 3,
        r@[0].label@ == "Home"@,
        r@[0].route@ == SpecAppRouterMatch::Home(default_home()),
        r@[1].label@ == "Counter"@,
        r@[1].route@ == SpecAppRouterMatch::Counter(default_counter_route()),
        r@[2].label@ == "Counter Detail (42)"@,
        r@[2].route@ == SpecAppRouterMatch::Counter(counter_detail_route(42)),
{
    let mut links: Vec<NavLink> = Vec::new();
    links.push(NavLink {
        label: String::from_str("Home"),
        route: AppRouterMatch::Home(HomeRoute { query: HomeQuery { welcome: None } }),
    });
    links.push(NavLink {
        label: String::from_str("Counter"),
        route: AppRouterMatch::Counter(CounterModuleRoute {
            query: CounterQuery { tab: None, page: 0 },
            sub_router: RouteState::NoSubRoute,
        }),
    });
    links.push(NavLink {
        label: String::from_str("Counter Detail (42)"),
        route: AppRouterMatch::Counter(CounterModuleRoute {
            query: CounterQuery { tab: None, page: 0 },
            sub_router: RouteState::SubRoute(CounterSubRouterMatch::Detail(CounterDetailRoute {
                id: 42,
                query: CounterQuery { tab: None, page: 0 },
            })),
        }),
    });
    links
}

/// The home page.
pub fn comp_home_page(home_route: &HomeRoute) -> (r: PageContent)
    ensures
        r@ == spec_home_page(home_route@),
{
    let message = match &home_route.query.welcome {
        Some(w) => concat("🏠 ", w.as_str()),
        None => concat("🏠 ", "Welcome Home!"),
    };
    PageContent::Home { message }
}

/// The counter page, by the state of the sub-route.
pub fn comp_counter_page(counter_module: &CounterModuleRoute) -> (r: PageContent)
    ensures
        r@ == spec_counter_page(counter_module@),
{
    match &counter_module.sub_router {
        RouteState::SubRoute(CounterSubRouterMatch::Detail(detail)) => PageContent::CounterDetail {
            heading: concat("📊 Counter Detail - ID: ", decimal_string(detail.id as u64).as_str()),
            tab: concat("Tab: ", debug_option_text(&detail.query.tab).as_str()),
            page: concat("Page: ", decimal_string(detail.query.page as u64).as_str()),
        },
        RouteState::NoSubRoute => PageContent::CounterModule {
            heading: String::from_str("📊 Counter Module"),
            tab: concat("Tab: ", debug_option_text(&counter_module.query.tab).as_str()),
            page: concat("Page: ", decimal_string(counter_module.query.page as u64).as_str()),
        },
        RouteState::ParseFailed { remaining_path, attempted_patterns, closest_match } => PageContent::ParseFailed {
            heading: String::from_str("⚠️ Route Parse Failed"),
            remaining: concat("Remaining path: ", remaining_path.as_str()),
            patterns: concat("Attempted patterns: ", debug_list_text(attempted_patterns).as_str()),
            closest: concat("Closest match: ", debug_closest_text(closest_match).as_str()),
        },
    }
}

/// The page for the current route.
pub fn comp_route_content(router: &AppRouterMatch) -> (r: PageContent)
    ensures
        r@ == spec_route_content(router@),
{
    match router {
        AppRouterMatch::Home(home_route) => comp_home_page(home_route),
        AppRouterMatch::Counter(counter_module) => comp_counter_page(counter_module),
    }
}

} // verus!
