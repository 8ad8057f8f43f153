//! Application state and how each action changes it.
use vstd::prelude::*;
use respo::states_tree::RespoUpdateState;
use crate::router::{AppRouterMatch, HomeQuery, HomeRoute, SpecAppRouterMatch, default_home};

verus! {

/// A change to Respo's states tree, carried through as an opaque value.
#[verifier::external_type_specification]
#[verifier::external_body]
pub struct ExRespoUpdateState(RespoUpdateState);

/// The application's own part of the store: the count and the current route.
/// Respo's tree of component states lives beside it, in the program that
/// hosts the store, and is written only by Respo's store trait.
#[derive(Debug)]
pub struct Store {
    pub counted: i32,
    /// Current matched route
    pub router: AppRouterMatch,
}

/// Application actions.
#[derive(Debug)]
pub enum ActionOp {
    Increment,
    Decrement,
    StatesChange(RespoUpdateState),
    /// Route change: navigates and pushes a history entry.
    RouteChange(AppRouterMatch),
    /// Route restore: from browser back/forward, no history entry.
    RouteRestore(AppRouterMatch),
    Noop,
}

impl Default for ActionOp {
    fn default() -> (r: ActionOp)
        ensures
            r is Noop,
    {
        ActionOp::Noop
    }
}

impl Default for Store {
    /// Count 0, the home route.
    fn default() -> (r: Store)
        ensures
            r.counted == 0,
            r.router@ == SpecAppRouterMatch::Home(default_home()),
    {
        Store {
            counted: 0,
            router: AppRouterMatch::Home(HomeRoute { query: HomeQuery { welcome: None } }),
        }
    }
}

/// The action does not overflow the count.
pub open spec fn update_in_range(counted: i32, op: ActionOp) -> bool {
    &&& op is Increment ==> counted < i32::MAX
    &&& op is Decrement ==> counted > i32::MIN
}

/// The store after an action: the count goes up or down by one, a route
/// change or restore sets the route; a states change and a no-op leave count
/// and route as they are.
pub open spec fn updated(s: Store, op: ActionOp) -> Store {
    match op {
        ActionOp::Increment => Store { counted: (s.counted + 1) as i32, ..s },
        ActionOp::Decrement => Store { counted: (s.counted - 1) as i32, ..s },
        ActionOp::RouteChange(route) => Store { router: route, ..s },
        ActionOp::RouteRestore(route) => Store { router: route, ..s },
        ActionOp::StatesChange(_) => s,
        ActionOp::Noop => s,
    }
}

/// The states change that an action carries, if any: the caller writes it
/// into Respo's states tree.
pub open spec fn pending_states(op: ActionOp) -> Option<RespoUpdateState> {
    match op {
        ActionOp::StatesChange(a) => Some(a),
        _ => None,
    }
}

impl Store {
    /// The store's reducer: applies an action to count and route. A states
    /// change touches neither and is handed back; applying it to Respo's
    /// states tree is left to the caller.
    pub fn update(&mut self, op: ActionOp) -> (pending: Option<RespoUpdateState>)
        requires
            update_in_range(old(self).counted, op),
        ensures
            *final(self) == updated(*old(self), op),
            pending == pending_states(op),
    {
        match op {
            ActionOp::Noop => None,
            ActionOp::Increment => {
                self.counted = self.counted + 1;
                None
            },
            ActionOp::Decrement => {
                self.counted = self.counted - 1;
                None
            },
            ActionOp::StatesChange(a) => Some(a),
            ActionOp::RouteChange(route) => {
                self.router = route;
                None
            },
            ActionOp::RouteRestore(route) => {
                self.router = route;
                None
            },
        }
    }
}

/// Restoring a route from the browser history changes the store exactly as
/// navigating to it does; only the history handling differs.
pub proof fn lemma_route_restore_is_route_change(s: Store, route: AppRouterMatch)
    ensures
        updated(s, ActionOp::RouteRestore(route)) == updated(s, ActionOp::RouteChange(route)),
        updated(s, ActionOp::RouteChange(route)).router == route,
        updated(s, ActionOp::RouteChange(route)).counted == s.counted,
{
}

/// Incrementing and then decrementing gives the store back, and so does the
/// other order; the route is untouched by either.
pub proof fn lemma_increment_decrement(s: Store)
    ensures
        update_in_range(s.counted, ActionOp::Increment)
            ==> updated(updated(s, ActionOp::Increment), ActionOp::Decrement) == s,
        update_in_range(s.counted, ActionOp::Decrement)
            ==> updated(updated(s, ActionOp::Decrement), ActionOp::Increment) == s,
{
}

} // verus!
