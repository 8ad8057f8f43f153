//! Router helpers in their standalone form: parsing and formatting route
//! paths, navigation, and the browser location read as a route.
use vstd::prelude::*;
use crate::router::{
    AppRouterMatch, Navigation, SpecAppRouterMatch, default_home, formats_to, parse_defined,
    spec_parse_route,
};
use crate::store::ActionOp;

verus! {

/// Parse the URL path and return the matched route, the home route where none matches.
pub fn parse_route(path: &str) -> (r: AppRouterMatch)
    requires
        parse_defined(path@),
    ensures
        r@ == spec_parse_route(path@),
{
    crate::router::parse_route(path)
}

/// Format a route back to a URL path.
pub fn format_route(route: &AppRouterMatch) -> (r: String)
    ensures
        formats_to(route@, r@),
{
    route.format()
}

/// Navigate to a route: the URL path to push to the history, and the route
/// change to dispatch.
pub fn navigate_to(route: AppRouterMatch) -> (n: Navigation)
    ensures
        formats_to(route@, n.path@),
        n.action == ActionOp::RouteChange(route),
{
    let path = format_route(&route);
    Navigation { path, action: ActionOp::RouteChange(route) }
}

/// The route of the browser location (path name, then search part); the
/// home route where the path name could not be read.
pub fn get_current_route(pathname: Option<&str>, search: &str) -> (r: AppRouterMatch)
    requires
        pathname matches Some(p) ==> parse_defined(p@ + search@),
    ensures
        r@ == match pathname {
            Some(p) => spec_parse_route(p@ + search@),
            None => SpecAppRouterMatch::Home(default_home()),
        },
{
    crate::router::get_current_route(pathname, search)
}

/// The browser's path name, `/` where it could not be read.
pub fn get_current_pathname(pathname: Option<String>) -> (r: String)
    ensures
        r@ == match pathname {
            Some(p) => p@,
            None => seq!['/'],
        },
{
    match pathname {
        Some(p) => p,
        None => {
            proof {
                reveal_strlit("/");
            }
            String::from_str("/")
        },
    }
}

/// The browser's search part, empty where it could not be read.
pub fn get_current_search(search: Option<String>) -> (r: String)
    ensures
        r@ == match search {
            Some(s) => s@,
            None => Seq::<char>::empty(),
        },
{
    match search {
        Some(s) => s,
        None => String::new(),
    }
}

} // verus!
