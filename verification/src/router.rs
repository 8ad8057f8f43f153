//! Routes of the app: their model, how a URL path is matched against them,
//! and how a route is written back as a URL path.
//!
//! Three patterns make up the route grammar: `/` (home, query `welcome`),
//! `/counter` (query `tab`, `page` with default 1) and, below it, `/:id`
//! (the counter detail, same query). Matching tries the counter route first,
//! then the home route.
use vstd::prelude::*;
use crate::query::{
    QueryMap, is_query_format_of, lemma_parse_u32_decimal, lemma_query_format_nonempty,
    lemma_query_roundtrip, parse_query_string, query_first, query_formatter_format,
    query_formatter_new, query_formatter_set, query_parser_get, query_parser_new, single_valued,
    spec_parse_u32, spec_query_map, u32_from_param,
};
use crate::text::{
    chars_for_bytes, chars_in_bytes, decimal, decimal_string, has_prefix, lemma_utf8_len_subrange,
    starts_with, str_eq, utf8_byte_len, utf8_len, utf8_len_fits,
};
use crate::url::{
    lemma_segments_nonempty, lemma_segments_within, lemma_url_decode_encode,
    lemma_url_encode_unreserved, path_segments, spec_split_path_query, spec_url_decode,
    split_path_query, split_path_segments, url_decode, url_encode,
};
use crate::store::ActionOp;

verus! {

// ---------------------------------------------------------------------------
// Route values
// ---------------------------------------------------------------------------

/// Query of the home route: `?welcome=..`.
#[derive(Debug, Clone, PartialEq)]
pub struct HomeQuery {
    pub welcome: Option<String>,
}

/// Home route, pattern `/`.
#[derive(Debug, Clone, PartialEq)]
pub struct HomeRoute {
    pub query: HomeQuery,
}

/// Query of the counter routes: `?tab=..&page=..`.
#[derive(Debug, Clone, PartialEq)]
pub struct CounterQuery {
    pub tab: Option<String>,
    pub page: u32,
}

/// Counter detail route, pattern `/:id` below `/counter`.
#[derive(Debug, Clone, PartialEq)]
pub struct CounterDetailRoute {
    pub id: u32,
    pub query: CounterQuery,
}

/// The routes that may follow `/counter`.
#[derive(Debug, Clone, PartialEq)]
pub enum CounterSubRouterMatch {
    Detail(CounterDetailRoute),
}

/// What matching came closest to, where a sub-route did not match.
#[derive(Debug, Clone, PartialEq)]
pub struct ClosestMatch {
    pub pattern: String,
    pub matched_length: usize,
    pub failure_reason: String,
}

/// State of the sub-route below a route.
#[derive(Debug, Clone, PartialEq)]
pub enum RouteState<T> {
    /// Nothing follows the route.
    NoSubRoute,
    /// A sub-route follows and matched.
    SubRoute(T),
    /// Something follows the route but no sub-route matched it.
    ParseFailed {
        remaining_path: String,
        attempted_patterns: Vec<String>,
        closest_match: Option<ClosestMatch>,
    },
}

/// Counter module route, pattern `/counter`, with its optional sub-route.
#[derive(Debug, Clone, PartialEq)]
pub struct CounterModuleRoute {
    pub query: CounterQuery,
    pub sub_router: RouteState<CounterSubRouterMatch>,
}

/// The top-level routes, in the order matching tries them.
#[derive(Debug, Clone, PartialEq)]
pub enum AppRouterMatch {
    Counter(CounterModuleRoute),
    Home(HomeRoute),
}

// ---------------------------------------------------------------------------
// Mathematical model
// ---------------------------------------------------------------------------

pub struct SpecHomeQuery {
    pub welcome: Option<Seq<char>>,
}

pub struct SpecHomeRoute {
    pub query: SpecHomeQuery,
}

pub struct SpecCounterQuery {
    pub tab: Option<Seq<char>>,
    pub page: u32,
}

pub struct SpecCounterDetailRoute {
    pub id: u32,
    pub query: SpecCounterQuery,
}

pub enum SpecCounterSubRouterMatch {
    Detail(SpecCounterDetailRoute),
}

pub struct SpecClosestMatch {
    pub pattern: Seq<char>,
    pub matched_length: usize,
    pub failure_reason: Seq<char>,
}

pub enum SpecRouteState<T> {
    NoSubRoute,
    SubRoute(T),
    ParseFailed {
        remaining_path: Seq<char>,
        attempted_patterns: Seq<Seq<char>>,
        closest_match: Option<SpecClosestMatch>,
    },
}

pub struct SpecCounterModuleRoute {
    pub query: SpecCounterQuery,
    pub sub_router: SpecRouteState<SpecCounterSubRouterMatch>,
}

pub enum SpecAppRouterMatch {
    Counter(SpecCounterModuleRoute),
    Home(SpecHomeRoute),
}

impl View for HomeQuery {
    type V = SpecHomeQuery;

    open spec fn view(&self) -> SpecHomeQuery {
        SpecHomeQuery { welcome: self.welcome.deep_view() }
    }
}

impl View for HomeRoute {
    type V = SpecHomeRoute;

    open spec fn view(&self) -> SpecHomeRoute {
        SpecHomeRoute { query: self.query@ }
    }
}

impl View for CounterQuery {
    type V = SpecCounterQuery;

    open spec fn view(&self) -> SpecCounterQuery {
        SpecCounterQuery { tab: self.tab.deep_view(), page: self.page }
    }
}

impl View for CounterDetailRoute {
    type V = SpecCounterDetailRoute;

    open spec fn view(&self) -> SpecCounterDetailRoute {
        SpecCounterDetailRoute { id: self.id, query: self.query@ }
    }
}

impl View for CounterSubRouterMatch {
    type V = SpecCounterSubRouterMatch;

    open spec fn view(&self) -> SpecCounterSubRouterMatch {
        match self {
            CounterSubRouterMatch::Detail(d) => SpecCounterSubRouterMatch::Detail(d@),
        }
    }
}

impl View for ClosestMatch {
    type V = SpecClosestMatch;

    open spec fn view(&self) -> SpecClosestMatch {
        SpecClosestMatch {
            pattern: self.pattern@,
            matched_length: self.matched_length,
            failure_reason: self.failure_reason@,
        }
    }
}

impl<T: View> View for RouteState<T> {
    type V = SpecRouteState<T::V>;

    open spec fn view(&self) -> SpecRouteState<T::V> {
        match self {
            RouteState::NoSubRoute => SpecRouteState::NoSubRoute,
            RouteState::SubRoute(t) => SpecRouteState::SubRoute(t@),
            RouteState::ParseFailed { remaining_path, attempted_patterns, closest_match } =>
                SpecRouteState::ParseFailed {
                    remaining_path: remaining_path@,
                    attempted_patterns: attempted_patterns.deep_view(),
                    closest_match: match closest_match {
                        Some(c) => Some(c@),
                        None => None,
                    },
                },
        }
    }
}

impl View for CounterModuleRoute {
    type V = SpecCounterModuleRoute;

    open spec fn view(&self) -> SpecCounterModuleRoute {
        SpecCounterModuleRoute { query: self.query@, sub_router: self.sub_router@ }
    }
}

impl View for AppRouterMatch {
    type V = SpecAppRouterMatch;

    open spec fn view(&self) -> SpecAppRouterMatch {
        match self {
            AppRouterMatch::Counter(c) => SpecAppRouterMatch::Counter(c@),
            AppRouterMatch::Home(h) => SpecAppRouterMatch::Home(h@),
        }
    }
}

// ---------------------------------------------------------------------------
// Defaults
// ---------------------------------------------------------------------------

/// The home route without a welcome message.
pub open spec fn default_home() -> SpecHomeRoute {
    SpecHomeRoute { query: SpecHomeQuery { welcome: None } }
}

/// The counter query with no tab and page 0 (the derived default).
pub open spec fn default_counter_query() -> SpecCounterQuery {
    SpecCounterQuery { tab: None, page: 0 }
}

impl Default for HomeQuery {
    fn default() -> (r: HomeQuery)
        ensures
            r@ == default_home().query,
    {
        HomeQuery { welcome: None }
    }
}

impl Default for HomeRoute {
    fn default() -> (r: HomeRoute)
        ensures
            r@ == default_home(),
    {
        HomeRoute { query: HomeQuery { welcome: None } }
    }
}

impl Default for CounterQuery {
    fn default() -> (r: CounterQuery)
        ensures
            r@ == default_counter_query(),
    {
        CounterQuery { tab: None, page: 0 }
    }
}

impl Default for CounterDetailRoute {
    fn default() -> (r: CounterDetailRoute)
        ensures
            r@ == (SpecCounterDetailRoute { id: 0, query: default_counter_query() }),
    {
        CounterDetailRoute { id: 0, query: CounterQuery { tab: None, page: 0 } }
    }
}

impl Default for CounterModuleRoute {
    fn default() -> (r: CounterModuleRoute)
        ensures
            r@ == (SpecCounterModuleRoute { query: default_counter_query(), sub_router: SpecRouteState::NoSubRoute }),
    {
        CounterModuleRoute { query: CounterQuery { tab: None, page: 0 }, sub_router: RouteState::NoSubRoute }
    }
}

impl Default for AppRouterMatch {
    fn default() -> (r: AppRouterMatch)
        ensures
            r@ == SpecAppRouterMatch::Home(default_home()),
    {
        AppRouterMatch::Home(HomeRoute { query: HomeQuery { welcome: None } })
    }
}

// ---------------------------------------------------------------------------
// Queries
// ---------------------------------------------------------------------------

pub open spec fn welcome_key() -> Seq<char> {
    seq!['w', 'e', 'l', 'c', 'o', 'm', 'e']
}

pub open spec fn tab_key() -> Seq<char> {
    seq!['t', 'a', 'b']
}

pub open spec fn page_key() -> Seq<char> {
    seq!['p', 'a', 'g', 'e']
}

/// The home query read from a decoded query.
pub open spec fn home_query_of(m: QueryMap) -> SpecHomeQuery {
    SpecHomeQuery { welcome: query_first(m, welcome_key()) }
}

/// The counter query read from a decoded query: `page` defaults to 1 and
/// must be a `u32` numeral where present.
pub open spec fn counter_query_of(m: QueryMap) -> Option<SpecCounterQuery> {
    match query_first(m, page_key()) {
        None => Some(SpecCounterQuery { tab: query_first(m, tab_key()), page: 1 }),
        Some(p) => match spec_parse_u32(p) {
            Some(n) => Some(SpecCounterQuery { tab: query_first(m, tab_key()), page: n }),
            None => None,
        },
    }
}

/// Parsing a home query string (without `?`).
pub open spec fn spec_parse_home_query(q: Seq<char>) -> Option<SpecHomeQuery> {
    match spec_query_map(q) {
        Some(m) => Some(home_query_of(m)),
        None => None,
    }
}

/// Parsing a counter query string (without `?`).
pub open spec fn spec_parse_counter_query(q: Seq<char>) -> Option<SpecCounterQuery> {
    match spec_query_map(q) {
        Some(m) => counter_query_of(m),
        None => None,
    }
}

/// The query text, empty where the URL has none.
pub open spec fn query_or_empty(q: Option<Seq<char>>) -> Seq<char> {
    match q {
        Some(s) => s,
        None => seq![],
    }
}

/// `HomeQuery::parse`: reads `welcome` from the query.
pub fn parse_home_query(q: &str) -> (r: Option<HomeQuery>)
    ensures
        r is Some <==> spec_parse_home_query(q@) is Some,
        r matches Some(h) ==> spec_parse_home_query(q@) == Some(h@),
{
    let parser = match query_parser_new(q) {
        Ok(p) => p,
        Err(_) => return None,
    };
    proof {
        reveal_strlit("welcome");
        assert("welcome"@ =~= welcome_key());
    }
    let welcome = match query_parser_get(&parser, "welcome") {
        Some(v) => Some(v.to_owned()),
        None => None,
    };
    Some(HomeQuery { welcome })
}

/// `CounterQuery::parse`: reads `tab`, and `page` as a `u32` with default 1.
pub fn parse_counter_query(q: &str) -> (r: Option<CounterQuery>)
    ensures
        r is Some <==> spec_parse_counter_query(q@) is Some,
        r matches Some(c) ==> spec_parse_counter_query(q@) == Some(c@),
{
    let parser = match query_parser_new(q) {
        Ok(p) => p,
        Err(_) => return None,
    };
    proof {
        reveal_strlit("tab");
        reveal_strlit("page");
        assert("tab"@ =~= tab_key());
        assert("page"@ =~= page_key());
    }
    let tab = match query_parser_get(&parser, "tab") {
        Some(v) => Some(v.to_owned()),
        None => None,
    };
    let page = match query_parser_get(&parser, "page") {
        Some(v) => match u32_from_param(v) {
            Ok(n) => n,
            Err(_) => return None,
        },
        None => 1,
    };
    Some(CounterQuery { tab, page })
}


// ---------------------------------------------------------------------------
// Matching a URL path
// ---------------------------------------------------------------------------

pub open spec fn counter_path() -> Seq<char> {
    seq!['/', 'c', 'o', 'u', 'n', 't', 'e', 'r']
}

pub open spec fn counter_word() -> Seq<char> {
    seq!['c', 'o', 'u', 'n', 't', 'e', 'r']
}

/// The path is short enough that its UTF-8 byte length is a `usize`, as the
/// length of every string in memory is.
pub open spec fn fits_in_memory(s: Seq<char>) -> bool {
    utf8_len(s) < usize::MAX
}

/// The one parameter of a path with exactly one segment, percent-decoded.
pub open spec fn single_param(path: Seq<char>) -> Option<Seq<char>> {
    let segs = path_segments(path);
    if segs.len() == 1 { spec_url_decode(segs[0]) } else { None }
}

/// The bytes of `pp` that the `/:id` pattern takes as its own: the length of
/// the first segment plus one for a `/`, at most all of `pp`.
pub open spec fn detail_consumed(pp: Seq<char>) -> int {
    let segs = path_segments(pp);
    let c = if segs.len() > 0 { utf8_len(segs[0]) + 1 } else { 0 };
    if c <= utf8_len(pp) { c as int } else { utf8_len(pp) as int }
}

/// How many characters those bytes are; `None` where they end inside a
/// character, on which slicing the path there panics.
pub open spec fn detail_prefix_len(pp: Seq<char>) -> Option<nat> {
    chars_in_bytes(pp, detail_consumed(pp))
}

/// Matching the detail route against what follows `/counter` does not panic.
pub open spec fn detail_parse_defined(rem: Seq<char>) -> bool {
    detail_prefix_len(spec_split_path_query(rem).0) is Some
}

/// The detail route matched against what follows `/counter`: the `/:id`
/// pattern is first tried on the prefix it takes as its own, then on the
/// whole path part; the id must be a `u32` numeral and the query must parse.
pub open spec fn spec_parse_detail(rem: Seq<char>) -> Option<SpecCounterDetailRoute> {
    let (pp, qp) = spec_split_path_query(rem);
    let cur = match detail_prefix_len(pp) {
        Some(j) => pp.take(j as int),
        None => seq![],
    };
    let raw = match single_param(cur) {
        Some(r) => Some(r),
        None => single_param(pp),
    };
    match raw {
        None => None,
        Some(r) => match spec_parse_u32(r) {
            None => None,
            Some(id) => match spec_parse_counter_query(query_or_empty(qp)) {
                None => None,
                Some(q) => Some(SpecCounterDetailRoute { id, query: q }),
            },
        },
    }
}

/// The sub-route state for what follows `/counter`.
pub open spec fn spec_counter_sub(rem: Seq<char>) -> SpecRouteState<SpecCounterSubRouterMatch> {
    if rem.len() == 0 || rem[0] == '?' {
        SpecRouteState::NoSubRoute
    } else {
        match spec_parse_detail(rem) {
            Some(d) => SpecRouteState::SubRoute(SpecCounterSubRouterMatch::Detail(d)),
            None => SpecRouteState::ParseFailed {
                remaining_path: rem,
                attempted_patterns: seq![],
                closest_match: None,
            },
        }
    }
}

/// The query, where there is one, decodes.
pub open spec fn query_decodes(q: Option<Seq<char>>) -> bool {
    match q {
        Some(s) => spec_query_map(s) is Some,
        None => true,
    }
}

/// Matching `path` does not panic: where the detail route is tried below
/// `/counter`, the bytes it takes end on a character boundary.
pub open spec fn parse_defined(path: Seq<char>) -> bool {
    let (pp, qp) = spec_split_path_query(path);
    &&& fits_in_memory(path)
    &&& (has_prefix(pp, counter_path()) && path_segments(pp)[0] == counter_word() && query_decodes(qp)
        && path.len() > 8 && path[8] != '?') ==> detail_parse_defined(path.skip(8))
}

/// The counter route, tried where the path part begins with `/counter`.
/// With `counter` as first segment what follows it is matched as a
/// sub-route; otherwise the route is read as plain `/counter` with the query.
pub open spec fn spec_try_counter(path: Seq<char>) -> Option<SpecCounterModuleRoute> {
    let (pp, qp) = spec_split_path_query(path);
    if !has_prefix(pp, counter_path()) {
        None
    } else {
        match spec_parse_counter_query(query_or_empty(qp)) {
            None => None,
            Some(q) => if path_segments(pp)[0] == counter_word() {
                Some(SpecCounterModuleRoute { query: q, sub_router: spec_counter_sub(path.skip(8)) })
            } else {
                Some(SpecCounterModuleRoute { query: q, sub_router: SpecRouteState::NoSubRoute })
            },
        }
    }
}

/// The home route, tried where the path part begins with `/`: it takes any
/// path, and only its query must parse.
pub open spec fn spec_try_home(path: Seq<char>) -> Option<SpecHomeRoute> {
    let (pp, qp) = spec_split_path_query(path);
    if !has_prefix(pp, seq!['/']) {
        None
    } else {
        match spec_parse_home_query(query_or_empty(qp)) {
            Some(q) => Some(SpecHomeRoute { query: q }),
            None => None,
        }
    }
}

/// Matching the top-level routes in order: counter, then home.
pub open spec fn spec_try_parse(path: Seq<char>) -> Option<SpecAppRouterMatch> {
    match spec_try_counter(path) {
        Some(c) => Some(SpecAppRouterMatch::Counter(c)),
        None => match spec_try_home(path) {
            Some(h) => Some(SpecAppRouterMatch::Home(h)),
            None => None,
        },
    }
}

/// The route of a path, the home route where nothing matches.
pub open spec fn spec_parse_route(path: Seq<char>) -> SpecAppRouterMatch {
    match spec_try_parse(path) {
        Some(r) => r,
        None => SpecAppRouterMatch::Home(default_home()),
    }
}

/// `CounterModuleRoute::parse_route`: exactly the path `/counter` with a query, no sub-route.
pub open spec fn spec_counter_module_parse_route(s: Seq<char>) -> Option<SpecCounterModuleRoute> {
    let (pp, qp) = spec_split_path_query(s);
    if path_segments(pp) == seq![counter_word()] {
        match spec_parse_counter_query(query_or_empty(qp)) {
            Some(q) => Some(SpecCounterModuleRoute { query: q, sub_router: SpecRouteState::NoSubRoute }),
            None => None,
        }
    } else {
        None
    }
}

/// The one parameter of a single-segment path, percent-decoded.
fn single_param_of(path: &str) -> (r: Option<String>)
    ensures
        r.deep_view() == single_param(path@),
{
    let segs = split_path_segments(path);
    if segs.len() == 1 {
        match url_decode(segs[0]) {
            Ok(v) => Some(v),
            Err(_) => None,
        }
    } else {
        None
    }
}

/// Whether the query text, where there is one, decodes (`parse_query_string`).
fn query_decodes_exec(q: Option<&str>) -> (r: bool)
    ensures
        r == query_decodes(match q { Some(s) => Some(s@), None => None }),
{
    match q {
        Some(s) => parse_query_string(s).is_ok(),
        None => true,
    }
}

/// How many characters the `/:id` pattern takes as its own from the path part,
/// `None` where its bytes end inside a character.
fn detail_prefix(pp: &str) -> (r: Option<usize>)
    requires
        fits_in_memory(pp@),
    ensures
        r is Some <==> detail_prefix_len(pp@) is Some,
        r matches Some(j) ==> detail_prefix_len(pp@) == Some(j as nat) && j <= pp@.len(),
{
    proof {
        lemma_segments_within(pp@);
    }
    let segs = split_path_segments(pp);
    let total = utf8_byte_len(pp);
    let c = if segs.len() > 0 {
        proof {
            assert(segs@[0]@ == path_segments(pp@)[0]);
        }
        utf8_byte_len(segs[0]) + 1
    } else {
        0
    };
    let end = if c <= total { c } else { total };
    assert(end == detail_consumed(pp@));
    chars_for_bytes(pp, end)
}

/// `CounterDetailRoute::parse_with_sub` on what follows `/counter`.
fn parse_detail(rem: &str) -> (r: Option<CounterDetailRoute>)
    requires
        detail_parse_defined(rem@),
        fits_in_memory(rem@),
    ensures
        r is Some <==> spec_parse_detail(rem@) is Some,
        r matches Some(d) ==> spec_parse_detail(rem@) == Some(d@),
{
    let (pp, qp) = split_path_query(rem);
    let q = qp.unwrap_or("");
    proof {
        reveal_strlit("");
        crate::url::lemma_first_index_of(rem@, '?');
        lemma_utf8_len_subrange(rem@, 0, pp@.len() as int);
        assert(pp@ =~= rem@.subrange(0, pp@.len() as int));
        assert(q@ == query_or_empty(spec_split_path_query(rem@).1));
        assert(spec_split_path_query(rem@).0 == pp@);
    }
    let j = match detail_prefix(pp) {
        Some(j) => j,
        None => {
            return None;
        },
    };
    let cur = pp.substring_char(0, j);
    assert(detail_prefix_len(pp@) == Some(j as nat));
    assert(cur@ == pp@.take(j as int));
    let raw = match single_param_of(cur) {
        Some(v) => v,
        None => match single_param_of(pp) {
            Some(v) => v,
            None => return None,
        },
    };
    if !query_decodes_exec(qp) {
        return None;
    }
    let id = match u32_from_param(raw.as_str()) {
        Ok(n) => n,
        Err(_) => return None,
    };
    match parse_counter_query(q) {
        Some(query) => Some(CounterDetailRoute { id, query }),
        None => None,
    }
}


/// The sub-route state for what follows `/counter`.
fn counter_sub(rem: &str) -> (r: RouteState<CounterSubRouterMatch>)
    requires
        fits_in_memory(rem@),
        rem@.len() > 0 && rem@[0] != '?' ==> detail_parse_defined(rem@),
    ensures
        r@ == spec_counter_sub(rem@),
{
    let n = rem.unicode_len();
    if n == 0 || rem.get_char(0) == '?' {
        return RouteState::NoSubRoute;
    }
    match parse_detail(rem) {
        Some(d) => RouteState::SubRoute(CounterSubRouterMatch::Detail(d)),
        None => {
            let patterns: Vec<String> = Vec::new();
            assert(patterns.deep_view() =~= Seq::<Seq<char>>::empty());
            RouteState::ParseFailed {
                remaining_path: rem.to_owned(),
                attempted_patterns: patterns,
                closest_match: None,
            }
        },
    }
}

/// The path part is a prefix of the path, and the query follows it.
proof fn lemma_split_parts(path: Seq<char>)
    ensures
        spec_split_path_query(path).0.len() <= path.len(),
        spec_split_path_query(path).0 == path.take(spec_split_path_query(path).0.len() as int),
{
    crate::url::lemma_first_index_of(path, '?');
    if spec_split_path_query(path).1 is None {
        assert(path.take(path.len() as int) =~= path);
    }
}

/// The counter route (`CounterModuleRoute::parse_with_sub`, then plain
/// `/counter` with the query), tried where the path part begins with `/counter`.
fn try_counter(path: &str) -> (r: Option<CounterModuleRoute>)
    requires
        parse_defined(path@),
    ensures
        r is Some <==> spec_try_counter(path@) is Some,
        r matches Some(c) ==> spec_try_counter(path@) == Some(c@),
{
    let (pp, qp) = split_path_query(path);
    proof {
        reveal_strlit("/counter");
        reveal_strlit("counter");
        reveal_strlit("");
        assert("/counter"@ =~= counter_path());
        assert("counter"@ =~= counter_word());
        lemma_split_parts(path@);
    }
    if !starts_with(pp, "/counter") {
        return None;
    }
    let q = qp.unwrap_or("");
    assert(q@ == query_or_empty(spec_split_path_query(path@).1));
    let segs = split_path_segments(pp);
    proof {
        assert(pp@.take(8)[1] == 'c');
        lemma_segments_nonempty(pp@, 1);
    }
    if str_eq(segs[0], "counter") {
        if !query_decodes_exec(qp) {
            return None;
        }
        let n = path.unicode_len();
        let rem = path.substring_char(8, n);
        proof {
            lemma_utf8_len_subrange(path@, 8, n as int);
            assert(rem@ =~= path@.skip(8));
            if rem@.len() > 0 {
                assert(rem@[0] == path@[8]);
            }
        }
        let sub = counter_sub(rem);
        match parse_counter_query(q) {
            Some(query) => Some(CounterModuleRoute { query, sub_router: sub }),
            None => None,
        }
    } else {
        match parse_counter_query(q) {
            Some(query) => Some(CounterModuleRoute { query, sub_router: RouteState::NoSubRoute }),
            None => None,
        }
    }
}

/// The home route (`HomeRoute::parse_with_sub`), tried where the path part begins with `/`.
fn try_home(path: &str) -> (r: Option<HomeRoute>)
    ensures
        r is Some <==> spec_try_home(path@) is Some,
        r matches Some(h) ==> spec_try_home(path@) == Some(h@),
{
    let (pp, qp) = split_path_query(path);
    proof {
        reveal_strlit("/");
        reveal_strlit("");
        assert("/"@ =~= seq!['/']);
    }
    if !starts_with(pp, "/") {
        return None;
    }
    let q = qp.unwrap_or("");
    assert(q@ == query_or_empty(spec_split_path_query(path@).1));
    match parse_home_query(q) {
        Some(query) => Some(HomeRoute { query }),
        None => None,
    }
}

impl AppRouterMatch {
    /// `RouteMatcher::try_parse`: the first top-level route that matches `path`.
    pub fn try_parse(path: &str) -> (r: Option<AppRouterMatch>)
        requires
            parse_defined(path@),
        ensures
            r is Some <==> spec_try_parse(path@) is Some,
            r matches Some(m) ==> spec_try_parse(path@) == Some(m@),
    {
        match try_counter(path) {
            Some(c) => Some(AppRouterMatch::Counter(c)),
            None => match try_home(path) {
                Some(h) => Some(AppRouterMatch::Home(h)),
                None => None,
            },
        }
    }
}

impl CounterModuleRoute {
    /// `RouterData::parse_route`: the path `/counter` and nothing else, with a
    /// query; the sub-route is left empty.
    pub fn parse_route(s: &str) -> (r: Option<CounterModuleRoute>)
        ensures
            r is Some <==> spec_counter_module_parse_route(s@) is Some,
            r matches Some(c) ==> spec_counter_module_parse_route(s@) == Some(c@),
    {
        let (pp, qp) = split_path_query(s);
        proof {
            reveal_strlit("counter");
            reveal_strlit("");
            assert("counter"@ =~= counter_word());
        }
        let q = qp.unwrap_or("");
        assert(q@ == query_or_empty(spec_split_path_query(s@).1));
        let segs = split_path_segments(pp);
        if segs.len() == 1 && str_eq(segs[0], "counter") {
            assert(path_segments(pp@) =~= seq![counter_word()]);
            if !query_decodes_exec(qp) {
                return None;
            }
            match parse_counter_query(q) {
                Some(query) => Some(CounterModuleRoute { query, sub_router: RouteState::NoSubRoute }),
                None => None,
            }
        } else {
            proof {
                if path_segments(pp@) == seq![counter_word()] {
                    assert(segs@[0]@ == path_segments(pp@)[0]);
                }
            }
            None
        }
    }
}

/// The route that `path` names, the home route where none matches.
pub fn parse_route(path: &str) -> (r: AppRouterMatch)
    requires
        parse_defined(path@),
    ensures
        r@ == spec_parse_route(path@),
{
    match AppRouterMatch::try_parse(path) {
        Some(m) => m,
        None => AppRouterMatch::Home(HomeRoute { query: HomeQuery { welcome: None } }),
    }
}

/// Whether matching `path` is defined, that is, does not panic: callers test
/// this before `parse_route`.
pub fn parse_route_is_defined(path: &str) -> (r: bool)
    ensures
        r == parse_defined(path@),
{
    if !utf8_len_fits(path) {
        return false;
    }
    let (pp, qp) = split_path_query(path);
    proof {
        reveal_strlit("/counter");
        reveal_strlit("counter");
        assert("/counter"@ =~= counter_path());
        assert("counter"@ =~= counter_word());
        lemma_split_parts(path@);
    }
    if !starts_with(pp, "/counter") {
        return true;
    }
    let segs = split_path_segments(pp);
    proof {
        assert(pp@.take(8)[1] == 'c');
        lemma_segments_nonempty(pp@, 1);
    }
    if !str_eq(segs[0], "counter") || !query_decodes_exec(qp) {
        return true;
    }
    let n = path.unicode_len();
    if n <= 8 || path.get_char(8) == '?' {
        return true;
    }
    let rem = path.substring_char(8, n);
    proof {
        lemma_utf8_len_subrange(path@, 8, n as int);
        assert(rem@ =~= path@.skip(8));
    }
    let (pp2, _) = split_path_query(rem);
    proof {
        lemma_split_parts(rem@);
        lemma_utf8_len_subrange(rem@, 0, pp2@.len() as int);
        assert(pp2@ =~= rem@.subrange(0, pp2@.len() as int));
    }
    detail_prefix(pp2).is_some()
}


// ---------------------------------------------------------------------------
// Writing a route as a URL path
// ---------------------------------------------------------------------------

/// The parameters of a home query.
pub open spec fn home_query_map(q: SpecHomeQuery) -> QueryMap {
    match q.welcome {
        Some(w) => Map::empty().insert(welcome_key(), seq![w]),
        None => Map::empty(),
    }
}

/// The parameters of a counter query: `tab` where set, and always `page`.
pub open spec fn counter_query_map(q: SpecCounterQuery) -> QueryMap {
    let base = match q.tab {
        Some(t) => Map::<Seq<char>, Seq<Seq<char>>>::empty().insert(tab_key(), seq![t]),
        None => Map::<Seq<char>, Seq<Seq<char>>>::empty(),
    };
    base.insert(page_key(), seq![decimal(q.page as nat)])
}

/// A path followed by `?` and the query, where the query is not empty.
pub open spec fn with_query(url: Seq<char>, qs: Seq<char>) -> Seq<char> {
    if qs.len() == 0 { url } else { url + seq!['?'] + qs }
}

/// The path of a detail route below `/counter`: `/` and the id in decimal.
pub open spec fn detail_path(id: u32) -> Seq<char> {
    seq!['/'] + decimal(id as nat)
}

/// `s` is one of the URL paths that writing the route may give; the order of
/// the query parameters is that of a hash map walk, which is left open.
/// A counter route with a detail sub-route is written with the detail's
/// query; otherwise with its own.
pub open spec fn formats_to(r: SpecAppRouterMatch, s: Seq<char>) -> bool {
    match r {
        SpecAppRouterMatch::Home(h) => exists|qs: Seq<char>|
            #[trigger] is_query_format_of(home_query_map(h.query), qs) && s == with_query(seq!['/'], qs),
        SpecAppRouterMatch::Counter(c) => counter_formats_to(c, s),
    }
}

/// `formats_to` for the counter module route.
pub open spec fn counter_formats_to(c: SpecCounterModuleRoute, s: Seq<char>) -> bool {
    match c.sub_router {
        SpecRouteState::SubRoute(SpecCounterSubRouterMatch::Detail(d)) => exists|qs: Seq<char>|
            #[trigger] is_query_format_of(counter_query_map(d.query), qs)
                && s == with_query(counter_path() + detail_path(d.id), qs),
        _ => exists|qs: Seq<char>|
            #[trigger] is_query_format_of(counter_query_map(c.query), qs) && s == with_query(counter_path(), qs),
    }
}

proof fn lemma_counter_query_map(q: SpecCounterQuery)
    ensures
        single_valued(counter_query_map(q)),
        counter_query_map(q).contains_key(page_key()),
{
    let m = counter_query_map(q);
    assert forall|k: Seq<char>| #[trigger] m.contains_key(k) implies m[k].len() == 1 && k.len() > 0 by {
        if k != page_key() {
            assert(k == tab_key());
        }
    }
}

impl HomeQuery {
    /// `Query::format`: the query string of the home query.
    pub fn format(&self) -> (r: String)
        ensures
            is_query_format_of(home_query_map(self@), r@),
    {
        proof {
            reveal_strlit("welcome");
            assert("welcome"@ =~= welcome_key());
        }
        let f = query_formatter_new();
        let f = match &self.welcome {
            Some(w) => query_formatter_set(f, "welcome", w.clone()),
            None => f,
        };
        assert(crate::query::query_formatter_params(f) =~= home_query_map(self@));
        query_formatter_format(&f)
    }
}

impl CounterQuery {
    /// `Query::format`: the query string of the counter query.
    pub fn format(&self) -> (r: String)
        ensures
            is_query_format_of(counter_query_map(self@), r@),
    {
        proof {
            reveal_strlit("tab");
            reveal_strlit("page");
            assert("tab"@ =~= tab_key());
            assert("page"@ =~= page_key());
        }
        let f = query_formatter_new();
        let f = match &self.tab {
            Some(t) => query_formatter_set(f, "tab", t.clone()),
            None => f,
        };
        let f = query_formatter_set(f, "page", decimal_string(self.page as u64));
        assert(crate::query::query_formatter_params(f) =~= counter_query_map(self@));
        query_formatter_format(&f)
    }
}

/// Appends `?` and the query to the path where the query is not empty.
fn append_query(url: String, qs: &str) -> (r: String)
    ensures
        r@ == with_query(url@, qs@),
{
    let ghost start = url@;
    let mut url = url;
    if !qs.is_empty() {
        proof {
            reveal_strlit("?");
        }
        url.append("?");
        url.append(qs);
        assert(url@ =~= start + seq!['?'] + qs@);
    }
    url
}

impl HomeRoute {
    /// `RouterData::format`: `/`, then the query where there is one.
    pub fn format(&self) -> (r: String)
        ensures
            formats_to(SpecAppRouterMatch::Home(self@), r@),
    {
        proof {
            reveal_strlit("/");
        }
        let url = String::from_str("/");
        let qs = self.query.format();
        let r = append_query(url, qs.as_str());
        assert(is_query_format_of(home_query_map(self@.query), qs@) && r@ == with_query(seq!['/'], qs@));
        r
    }
}

proof fn lemma_decimal_digits(n: u32)
    ensures
        forall|i: int| 0 <= i < decimal(n as nat).len() ==> crate::url::is_unreserved(#[trigger] decimal(n as nat)[i])
            && decimal(n as nat)[i] != '?' && decimal(n as nat)[i] != '/',
{
    lemma_parse_u32_decimal(n);
    assert forall|i: int| 0 <= i < decimal(n as nat).len() implies crate::url::is_unreserved(#[trigger] decimal(n as nat)[i])
        && decimal(n as nat)[i] != '?' && decimal(n as nat)[i] != '/' by {
        assert(crate::query::all_digits(decimal(n as nat)));
        assert('0' <= decimal(n as nat)[i] <= '9');
    }
}

impl CounterDetailRoute {
    /// `RouterData::format`: `/` and the id, then the query (never empty, as it holds `page`).
    pub fn format(&self) -> (r: String)
        ensures
            exists|qs: Seq<char>|
                #[trigger] is_query_format_of(counter_query_map(self@.query), qs) && qs.len() > 0
                    && r@ == detail_path(self.id) + seq!['?'] + qs,
    {
        proof {
            reveal_strlit("/");
            lemma_decimal_digits(self.id);
            lemma_url_encode_unreserved(decimal(self.id as nat));
        }
        let mut url = String::from_str("/");
        let id = decimal_string(self.id as u64);
        let enc = url_encode(id.as_str());
        url.append(enc.as_str());
        assert(url@ =~= detail_path(self.id));
        let qs = self.query.format();
        proof {
            lemma_counter_query_map(self@.query);
            lemma_query_format_nonempty(counter_query_map(self@.query), qs@, page_key());
        }
        let r = append_query(url, qs.as_str());
        assert(is_query_format_of(counter_query_map(self@.query), qs@) && qs@.len() > 0
            && r@ == detail_path(self.id) + seq!['?'] + qs@);
        r
    }
}

impl CounterSubRouterMatch {
    /// `RouteMatcher::format`: the path of the matched sub-route.
    pub fn format(&self) -> (r: String)
        ensures
            match self@ {
                SpecCounterSubRouterMatch::Detail(d) => exists|qs: Seq<char>|
                    #[trigger] is_query_format_of(counter_query_map(d.query), qs) && qs.len() > 0
                        && r@ == detail_path(d.id) + seq!['?'] + qs,
            },
    {
        match self {
            CounterSubRouterMatch::Detail(d) => d.format(),
        }
    }
}

impl CounterModuleRoute {
    /// `RouterData::format`: `/counter`; then, for a matched sub-route, its
    /// path and its query; otherwise the route's own query.
    pub fn format(&self) -> (r: String)
        ensures
            counter_formats_to(self@, r@),
    {
        proof {
            reveal_strlit("/counter");
            assert("/counter"@ =~= counter_path());
        }
        let mut url = String::from_str("/counter");
        match &self.sub_router {
            RouteState::SubRoute(sub) => {
                let sub_url = sub.format();
                let ghost d = match sub@ {
                    SpecCounterSubRouterMatch::Detail(d) => d,
                };
                let ghost qs = choose|qs: Seq<char>|
                    #[trigger] is_query_format_of(counter_query_map(d.query), qs) && qs.len() > 0
                        && sub_url@ == detail_path(d.id) + seq!['?'] + qs;
                proof {
                    lemma_decimal_digits(d.id);
                    let p = detail_path(d.id);
                    let su = sub_url@;
                    assert(su[p.len() as int] == '?');
                    assert forall|j: int| 0 <= j < p.len() implies su[j] != '?' by {
                        assert(su[j] == p[j]);
                        if j > 0 {
                            assert(p[j] == decimal(d.id as nat)[j - 1]);
                        }
                    }
                    crate::query::lemma_first_index_is(su, '?', p.len() as int);
                    assert(su.take(p.len() as int) =~= p);
                    assert(su.skip(p.len() as int + 1) =~= qs);
                }
                if !sub_url.as_str().is_empty() {
                    let (sub_path, sub_query) = split_path_query(sub_url.as_str());
                    url.append(sub_path);
                    match sub_query {
                        Some(q) => {
                            if !q.is_empty() {
                                let r = append_query(url, q);
                                assert(r@ =~= with_query(counter_path() + detail_path(d.id), qs));
                                return r;
                            }
                        },
                        None => {},
                    }
                }
                assert(false);
            },
            _ => {},
        }
        let qs = self.query.format();
        let r = append_query(url, qs.as_str());
        assert(is_query_format_of(counter_query_map(self@.query), qs@) && r@ == with_query(counter_path(), qs@));
        r
    }
}

impl AppRouterMatch {
    /// `RouteMatcher::format`: the URL path of the route.
    pub fn format(&self) -> (r: String)
        ensures
            formats_to(self@, r@),
    {
        match self {
            AppRouterMatch::Counter(c) => c.format(),
            AppRouterMatch::Home(h) => h.format(),
        }
    }
}

// ---------------------------------------------------------------------------
// Reading back what was written
// ---------------------------------------------------------------------------

/// The routes that writing and reading back keeps: a counter route whose
/// sub-route did not fail to parse, and whose detail sub-route, if any, has the
/// module's query (both are read from the one query of the URL).
pub open spec fn canonical(r: SpecAppRouterMatch) -> bool {
    match r {
        SpecAppRouterMatch::Home(_) => true,
        SpecAppRouterMatch::Counter(c) => match c.sub_router {
            SpecRouteState::NoSubRoute => true,
            SpecRouteState::SubRoute(SpecCounterSubRouterMatch::Detail(d)) => d.query == c.query,
            SpecRouteState::ParseFailed { .. } => false,
        },
    }
}

proof fn lemma_split_at_question(a: Seq<char>, b: Seq<char>)
    requires
        forall|i: int| 0 <= i < a.len() ==> a[i] != '?',
    ensures
        spec_split_path_query(a + seq!['?'] + b) == (a, Some(b)),
{
    let s = a + seq!['?'] + b;
    assert forall|j: int| 0 <= j < a.len() implies s[j] != '?' by {
        assert(s[j] == a[j]);
    }
    crate::query::lemma_first_index_is(s, '?', a.len() as int);
    assert(s.take(a.len() as int) =~= a);
    assert(s.skip(a.len() as int + 1) =~= b);
}

proof fn lemma_split_no_question(a: Seq<char>)
    requires
        forall|i: int| 0 <= i < a.len() ==> a[i] != '?',
    ensures
        spec_split_path_query(a) == (a, None::<Seq<char>>),
{
    crate::query::lemma_first_index_none(a, '?');
}

/// Splitting `url` with its query appended gives them back.
proof fn lemma_split_with_query(url: Seq<char>, qs: Seq<char>)
    requires
        forall|i: int| 0 <= i < url.len() ==> url[i] != '?',
    ensures
        spec_split_path_query(with_query(url, qs)).0 == url,
        query_or_empty(spec_split_path_query(with_query(url, qs)).1) == qs,
{
    if qs.len() == 0 {
        lemma_split_no_question(url);
    } else {
        lemma_split_at_question(url, qs);
    }
}

/// A `/` followed by a word without `/` starts the segments with that word.
proof fn lemma_segments_slash_word(w: Seq<char>, rest: Seq<char>)
    requires
        w.len() > 0,
        forall|i: int| 0 <= i < w.len() ==> w[i] != '/',
        rest.len() == 0 || rest[0] == '/',
    ensures
        path_segments(seq!['/'] + w + rest) == seq![w] + path_segments(rest),
{
    let s = seq!['/'] + w + rest;
    crate::query::lemma_first_index_is(s, '/', 0);
    assert(s.take(0) =~= Seq::<char>::empty());
    let t = s.skip(1);
    assert(t =~= w + rest);
    assert forall|j: int| 0 <= j < w.len() implies t[j] != '/' by {
        assert(t[j] == w[j]);
    }
    assert(path_segments(s) == path_segments(t));
    if rest.len() == 0 {
        crate::query::lemma_first_index_none(t, '/');
        assert(t =~= w);
        assert(path_segments(t) == seq![t]);
        assert(path_segments(rest) =~= Seq::<Seq<char>>::empty());
        assert(seq![w] + path_segments(rest) =~= seq![w]);
    } else {
        crate::query::lemma_first_index_is(t, '/', w.len() as int);
        assert(t.take(w.len() as int) =~= w);
        assert(t.skip(w.len() as int + 1) =~= rest.skip(1));
        assert(path_segments(t) == seq![w] + path_segments(rest.skip(1)));
        crate::query::lemma_first_index_is(rest, '/', 0);
        assert(rest.take(0) =~= Seq::<char>::empty());
        assert(path_segments(rest) == path_segments(rest.skip(1)));
    }
}

proof fn lemma_counter_segments(tail: Seq<char>)
    requires
        tail.len() == 0 || tail[0] == '/',
    ensures
        path_segments(counter_path() + tail) == seq![counter_word()] + path_segments(tail),
{
    assert(counter_path() + tail =~= seq!['/'] + counter_word() + tail);
    lemma_segments_slash_word(counter_word(), tail);
}

/// Reading back an encoded counter query gives the query.
proof fn lemma_counter_query_roundtrip(q: SpecCounterQuery, qs: Seq<char>)
    requires
        is_query_format_of(counter_query_map(q), qs),
    ensures
        spec_parse_counter_query(qs) == Some(q),
{
    let m = counter_query_map(q);
    lemma_counter_query_map(q);
    lemma_query_roundtrip(m, qs);
    lemma_parse_u32_decimal(q.page);
    assert(tab_key() != page_key()) by {
        assert(tab_key().len() != page_key().len());
    }
    assert(query_first(m, page_key()) == Some(decimal(q.page as nat)));
    assert(query_first(m, tab_key()) == q.tab);
}

/// Reading back an encoded home query gives the query.
proof fn lemma_home_query_roundtrip(h: SpecHomeQuery, qs: Seq<char>)
    requires
        is_query_format_of(home_query_map(h), qs),
    ensures
        spec_parse_home_query(qs) == Some(h),
{
    let m = home_query_map(h);
    assert(single_valued(m));
    lemma_query_roundtrip(m, qs);
}

proof fn lemma_home_roundtrip(h: SpecHomeRoute, s: Seq<char>)
    requires
        formats_to(SpecAppRouterMatch::Home(h), s),
    ensures
        spec_try_counter(s) is None,
        spec_try_home(s) == Some(h),
        !has_prefix(spec_split_path_query(s).0, counter_path()),
{
    let qs = choose|qs: Seq<char>|
        #[trigger] is_query_format_of(home_query_map(h.query), qs) && s == with_query(seq!['/'], qs);
    lemma_split_with_query(seq!['/'], qs);
    let (pp, qp) = spec_split_path_query(s);
    assert(!has_prefix(pp, counter_path()));
    assert(has_prefix(pp, seq!['/'])) by {
        assert(pp.take(1) =~= seq!['/']);
    }
    if qs.len() == 0 {
        if h.query.welcome is Some {
            lemma_query_format_nonempty(home_query_map(h.query), qs, welcome_key());
        }
        assert(home_query_map(h.query) =~= Map::<Seq<char>, Seq<Seq<char>>>::empty());
        assert(spec_query_map(seq![]) == Some(Map::<Seq<char>, Seq<Seq<char>>>::empty()));
        assert(home_query_of(Map::<Seq<char>, Seq<Seq<char>>>::empty()) == h.query);
    } else {
        lemma_home_query_roundtrip(h.query, qs);
    }
}

proof fn lemma_detail_path(id: u32)
    ensures
        path_segments(detail_path(id)) == seq![decimal(id as nat)],
        path_segments(counter_path() + detail_path(id))[0] == counter_word(),
        forall|i: int| 0 <= i < detail_path(id).len() ==> detail_path(id)[i] != '?',
        detail_prefix_len(detail_path(id)) == Some(detail_path(id).len()),
        single_param(detail_path(id)) == Some(decimal(id as nat)),
        detail_path(id)[0] == '/',
{
    lemma_decimal_digits(id);
    let dec = decimal(id as nat);
    let dp = detail_path(id);
    crate::query::lemma_parse_u32_decimal(id);
    assert(forall|i: int| 0 <= i < dec.len() ==> dec[i] != '/');
    assert(dec.len() > 0);
    assert(dp =~= seq!['/'] + dec + Seq::<char>::empty());
    lemma_segments_slash_word(dec, Seq::<char>::empty());
    assert(path_segments(Seq::<char>::empty()) =~= Seq::<Seq<char>>::empty());
    assert(path_segments(dp) =~= seq![dec]);
    lemma_counter_segments(dp);
    assert forall|i: int| 0 <= i < dp.len() implies dp[i] != '?' by {
        if i >= 1 {
            assert(dp[i] == dec[i - 1]);
        }
    }
    crate::text::lemma_utf8_len_concat(seq!['/'], dec);
    assert(utf8_len(seq!['/']) == 1) by {
        assert(seq!['/'].drop_first() =~= Seq::<char>::empty());
        assert(utf8_len(Seq::<char>::empty()) == 0);
    }
    assert(dp == seq!['/'] + dec);
    assert(detail_consumed(dp) == utf8_len(dp));
    crate::text::lemma_chars_in_bytes_prefix(dp, dp.len() as int);
    assert(dp.take(dp.len() as int) =~= dp);
    lemma_url_encode_unreserved(dec);
    lemma_url_decode_encode(dec);
}

proof fn lemma_detail_sub(d: SpecCounterDetailRoute, qs: Seq<char>)
    requires
        spec_parse_counter_query(qs) == Some(d.query),
    ensures
        detail_parse_defined(detail_path(d.id) + seq!['?'] + qs),
        spec_counter_sub(detail_path(d.id) + seq!['?'] + qs)
            == SpecRouteState::SubRoute(SpecCounterSubRouterMatch::Detail(d)),
{
    lemma_detail_path(d.id);
    let dp = detail_path(d.id);
    let rem = dp + seq!['?'] + qs;
    lemma_split_at_question(dp, qs);
    assert(spec_split_path_query(rem).0 == dp);
    assert(spec_split_path_query(rem).1 == Some(qs));
    assert(query_or_empty(spec_split_path_query(rem).1) == qs);
    crate::query::lemma_parse_u32_decimal(d.id);
    assert(dp.take(dp.len() as int) =~= dp);
    assert(single_param(dp.take(dp.len() as int)) == Some(decimal(d.id as nat)));
    assert(spec_parse_u32(decimal(d.id as nat)) == Some(d.id));
    assert(spec_parse_detail(rem) == Some(SpecCounterDetailRoute { id: d.id, query: d.query }));
    assert(rem[0] == '/');
}

proof fn lemma_counter_detail_roundtrip(c: SpecCounterModuleRoute, d: SpecCounterDetailRoute, s: Seq<char>)
    requires
        c.sub_router == SpecRouteState::SubRoute(SpecCounterSubRouterMatch::Detail(d)),
        d.query == c.query,
        counter_formats_to(c, s),
    ensures
        parse_defined(s) <== fits_in_memory(s),
        spec_try_counter(s) == Some(c),
{
    let qs = choose|qs: Seq<char>|
        #[trigger] is_query_format_of(counter_query_map(d.query), qs)
            && s == with_query(counter_path() + detail_path(d.id), qs);
    lemma_counter_query_map(d.query);
    lemma_query_format_nonempty(counter_query_map(d.query), qs, page_key());
    lemma_counter_query_roundtrip(d.query, qs);
    lemma_detail_path(d.id);
    let dp = detail_path(d.id);
    let url = counter_path() + dp;
    assert forall|i: int| 0 <= i < url.len() implies url[i] != '?' by {
        if i >= 8 {
            assert(url[i] == dp[i - 8]);
        }
    }
    lemma_split_with_query(url, qs);
    let (pp, qp) = spec_split_path_query(s);
    assert(pp == url);
    assert(has_prefix(pp, counter_path())) by {
        assert(pp.take(8) =~= counter_path());
    }
    let rem = s.skip(8);
    assert(rem =~= dp + seq!['?'] + qs);
    lemma_detail_sub(d, qs);
    assert(s[8] == '/');
    crate::query::lemma_query_roundtrip(counter_query_map(d.query), qs);
    assert(query_decodes(qp));
}

proof fn lemma_counter_plain_roundtrip(c: SpecCounterModuleRoute, s: Seq<char>)
    requires
        c.sub_router == SpecRouteState::<SpecCounterSubRouterMatch>::NoSubRoute,
        counter_formats_to(c, s),
    ensures
        parse_defined(s) <== fits_in_memory(s),
        spec_try_counter(s) == Some(c),
{
    let qs = choose|qs: Seq<char>|
        #[trigger] is_query_format_of(counter_query_map(c.query), qs) && s == with_query(counter_path(), qs);
    lemma_counter_query_map(c.query);
    lemma_query_format_nonempty(counter_query_map(c.query), qs, page_key());
    lemma_counter_query_roundtrip(c.query, qs);
    lemma_split_with_query(counter_path(), qs);
    let (pp, qp) = spec_split_path_query(s);
    assert(pp == counter_path());
    assert(has_prefix(pp, counter_path())) by {
        assert(pp.take(8) =~= counter_path());
    }
    lemma_counter_segments(Seq::<char>::empty());
    assert(counter_path() + Seq::<char>::empty() =~= counter_path());
    assert(path_segments(Seq::<char>::empty()) =~= Seq::<Seq<char>>::empty());
    assert(path_segments(pp)[0] == counter_word());
    assert(s[8] == '?');
    assert(s.skip(8)[0] == '?');
    assert(spec_counter_sub(s.skip(8)) == c.sub_router);
}

/// Writing a route and reading the path back gives the route, for every
/// order the query parameters may come in, where the route is canonical;
/// reading that path does not panic.
pub proof fn lemma_format_parse_roundtrip(r: SpecAppRouterMatch, s: Seq<char>)
    requires
        canonical(r),
        formats_to(r, s),
        fits_in_memory(s),
    ensures
        parse_defined(s),
        spec_try_parse(s) == Some(r),
        spec_parse_route(s) == r,
{
    match r {
        SpecAppRouterMatch::Home(h) => {
            lemma_home_roundtrip(h, s);
        },
        SpecAppRouterMatch::Counter(c) => {
            match c.sub_router {
                SpecRouteState::SubRoute(SpecCounterSubRouterMatch::Detail(d)) => {
                    lemma_counter_detail_roundtrip(c, d, s);
                },
                _ => {
                    lemma_counter_plain_roundtrip(c, s);
                },
            }
        },
    }
}

/// Reading back the path written for a counter route without sub-route, as
/// the stored form of a counter route is read, gives the route.
pub proof fn lemma_counter_module_roundtrip(c: SpecCounterModuleRoute, s: Seq<char>)
    requires
        c.sub_router == SpecRouteState::<SpecCounterSubRouterMatch>::NoSubRoute,
        counter_formats_to(c, s),
    ensures
        spec_counter_module_parse_route(s) == Some(c),
{
    let qs = choose|qs: Seq<char>|
        #[trigger] is_query_format_of(counter_query_map(c.query), qs) && s == with_query(counter_path(), qs);
    lemma_counter_query_roundtrip(c.query, qs);
    lemma_split_with_query(counter_path(), qs);
    lemma_counter_segments(Seq::<char>::empty());
    assert(counter_path() + Seq::<char>::empty() =~= counter_path());
    assert(path_segments(Seq::<char>::empty()) =~= Seq::<Seq<char>>::empty());
    assert(path_segments(counter_path()) =~= seq![counter_word()]);
}

/// The route has no sub-route that failed to parse.
pub open spec fn no_failed_sub_route(r: SpecAppRouterMatch) -> bool {
    match r {
        SpecAppRouterMatch::Counter(c) => !(c.sub_router is ParseFailed),
        SpecAppRouterMatch::Home(_) => true,
    }
}

/// Below `/counter` the query is the one of the whole path.
proof fn lemma_split_after_counter(path: Seq<char>)
    requires
        has_prefix(spec_split_path_query(path).0, counter_path()),
    ensures
        spec_split_path_query(path.skip(8)).1 == spec_split_path_query(path).1,
{
    crate::url::lemma_first_index_of(path, '?');
    let rem = path.skip(8);
    match crate::url::first_index_of(path, '?') {
        Some(i) => {
            assert(i >= 8);
            assert forall|j: int| 0 <= j < i - 8 implies rem[j] != '?' by {
                assert(rem[j] == path[j + 8]);
            }
            assert(rem[i - 8] == path[i as int]);
            crate::query::lemma_first_index_is(rem, '?', i - 8);
            assert(rem.skip(i - 8 + 1) =~= path.skip(i as int + 1));
        },
        None => {
            assert forall|j: int| 0 <= j < rem.len() implies rem[j] != '?' by {
                assert(rem[j] == path[j + 8]);
            }
            crate::query::lemma_first_index_none(rem, '?');
        },
    }
}

/// Every route that reading a path gives, unless its sub-route failed to
/// parse, is canonical: a detail sub-route carries the module's query.
pub proof fn lemma_parsed_route_canonical(path: Seq<char>, r: SpecAppRouterMatch)
    requires
        spec_try_parse(path) == Some(r),
        no_failed_sub_route(r),
    ensures
        canonical(r),
{
    if let Some(c) = spec_try_counter(path) {
        let (pp, qp) = spec_split_path_query(path);
        if path_segments(pp)[0] == counter_word() {
            let rem = path.skip(8);
            if !(rem.len() == 0 || rem[0] == '?') {
                if let Some(d) = spec_parse_detail(rem) {
                    lemma_split_after_counter(path);
                }
            }
        }
    }
}

/// Reading a path, writing the route and reading it again gives the same
/// route, for every order the query parameters may be written in.
pub proof fn lemma_parse_format_parse(path: Seq<char>, r: SpecAppRouterMatch, s: Seq<char>)
    requires
        spec_try_parse(path) == Some(r),
        no_failed_sub_route(r),
        formats_to(r, s),
        fits_in_memory(s),
    ensures
        spec_try_parse(s) == Some(r),
{
    lemma_parsed_route_canonical(path, r);
    lemma_format_parse_roundtrip(r, s);
}

// ---------------------------------------------------------------------------
// Navigation
// ---------------------------------------------------------------------------

/// What navigating to a route does: the URL path to push to the browser
/// history, then the action to dispatch to the store.
#[derive(Debug)]
pub struct Navigation {
    pub path: String,
    pub action: ActionOp,
}

/// The counter route without sub-route and with the default query.
pub open spec fn default_counter_route() -> SpecCounterModuleRoute {
    SpecCounterModuleRoute { query: default_counter_query(), sub_router: SpecRouteState::NoSubRoute }
}

/// The counter route with the detail sub-route for `id`, default queries.
pub open spec fn counter_detail_route(id: u32) -> SpecCounterModuleRoute {
    SpecCounterModuleRoute {
        query: default_counter_query(),
        sub_router: SpecRouteState::SubRoute(
            SpecCounterSubRouterMatch::Detail(SpecCounterDetailRoute { id, query: default_counter_query() }),
        ),
    }
}

/// Navigate to a route: its URL path, and the route change to dispatch.
pub fn navigate_to(route: AppRouterMatch) -> (n: Navigation)
    ensures
        formats_to(route@, n.path@),
        n.action == ActionOp::RouteChange(route),
{
    let path = route.format();
    Navigation { path, action: ActionOp::RouteChange(route) }
}

/// Navigate to the home page.
pub fn navigate_home() -> (n: Navigation)
    ensures
        formats_to(SpecAppRouterMatch::Home(default_home()), n.path@),
        n.action matches ActionOp::RouteChange(r) && r@ == SpecAppRouterMatch::Home(default_home()),
{
    navigate_to(AppRouterMatch::Home(HomeRoute { query: HomeQuery { welcome: None } }))
}

/// Navigate to the counter page.
pub fn navigate_counter() -> (n: Navigation)
    ensures
        formats_to(SpecAppRouterMatch::Counter(default_counter_route()), n.path@),
        n.action matches ActionOp::RouteChange(r) && r@ == SpecAppRouterMatch::Counter(default_counter_route()),
{
    navigate_to(AppRouterMatch::Counter(CounterModuleRoute {
        query: CounterQuery { tab: None, page: 0 },
        sub_router: RouteState::NoSubRoute,
    }))
}

/// Navigate to the counter detail page of `id`.
pub fn navigate_counter_detail(id: u32) -> (n: Navigation)
    ensures
        formats_to(SpecAppRouterMatch::Counter(counter_detail_route(id)), n.path@),
        n.action matches ActionOp::RouteChange(r) && r@ == SpecAppRouterMatch::Counter(counter_detail_route(id)),
{
    navigate_to(AppRouterMatch::Counter(CounterModuleRoute {
        query: CounterQuery { tab: None, page: 0 },
        sub_router: RouteState::SubRoute(CounterSubRouterMatch::Detail(CounterDetailRoute {
            id,
            query: CounterQuery { tab: None, page: 0 },
        })),
    }))
}

/// The route of the browser location: its path name followed by its search
/// part; the home route where the path name could not be read.
pub fn get_current_route(pathname: Option<&str>, search: &str) -> (r: AppRouterMatch)
    requires
        pathname matches Some(p) ==> parse_defined(p@ + search@),
    ensures
        r@ == match pathname {
            Some(p) => spec_parse_route(p@ + search@),
            None => SpecAppRouterMatch::Home(default_home()),
        },
{
    match pathname {
        Some(p) => {
            let mut full = String::from_str(p);
            full.append(search);
            parse_route(full.as_str())
        },
        None => AppRouterMatch::Home(HomeRoute { query: HomeQuery { welcome: None } }),
    }
}

/// Matching an ASCII path (as a browser's location path, percent-encoded,
/// always is) never panics.
pub proof fn lemma_ascii_parse_defined(path: Seq<char>)
    requires
        crate::text::is_ascii_text(path),
        path.len() < usize::MAX,
    ensures
        parse_defined(path),
{
    crate::text::lemma_ascii_bytes(path, 0);
    if path.len() > 8 {
        let rem = path.skip(8);
        assert forall|i: int| 0 <= i < rem.len() implies (#[trigger] rem[i] as u32) < 0x80 by {
            assert(rem[i] == path[i + 8]);
        }
        lemma_split_parts(rem);
        let pp = spec_split_path_query(rem).0;
        assert forall|i: int| 0 <= i < pp.len() implies (#[trigger] pp[i] as u32) < 0x80 by {
            assert(pp[i] == rem.take(pp.len() as int)[i]);
        }
        crate::text::lemma_ascii_bytes(pp, 0);
        crate::text::lemma_ascii_bytes(pp, detail_consumed(pp));
    }
}

} // verus!
