use respo::states_tree::RespoUpdateState;
use respo_route_demo::router::{AppRouterMatch, CounterModuleRoute};
use respo_route_demo::store::{ActionOp, Store};

#[test]
fn default_store() {
    let s = Store::default();
    assert_eq!(s.counted, 0);
    assert_eq!(s.router, AppRouterMatch::default());
    assert!(matches!(ActionOp::default(), ActionOp::Noop));
}

#[test]
fn increment_and_decrement() {
    let mut s = Store::default();
    assert!(s.update(ActionOp::Increment).is_none());
    assert!(s.update(ActionOp::Increment).is_none());
    assert_eq!(s.counted, 2);
    assert!(s.update(ActionOp::Decrement).is_none());
    assert_eq!(s.counted, 1);
    s.update(ActionOp::Decrement);
    s.update(ActionOp::Decrement);
    assert_eq!(s.counted, -1);
}

#[test]
fn route_change_and_restore_set_router() {
    let mut s = Store::default();
    let c = AppRouterMatch::Counter(CounterModuleRoute::default());
    assert!(s.update(ActionOp::RouteChange(c.clone())).is_none());
    assert_eq!(s.router, c);
    assert!(s.update(ActionOp::RouteRestore(AppRouterMatch::default())).is_none());
    assert_eq!(s.router, AppRouterMatch::default());
    assert_eq!(s.counted, 0);
}

#[test]
fn noop_changes_nothing() {
    let mut s = Store::default();
    s.update(ActionOp::Increment);
    assert!(s.update(ActionOp::Noop).is_none());
    assert_eq!(s.counted, 1);
    assert_eq!(s.router, AppRouterMatch::default());
}

#[test]
fn states_change_is_handed_back() {
    let mut s = Store::default();
    s.update(ActionOp::Increment);
    let change = RespoUpdateState { cursor: vec!["counter".into()], data: None, backup: None };
    let pending = s.update(ActionOp::StatesChange(change));
    match pending {
        Some(a) => assert_eq!(a.cursor.len(), 1),
        None => panic!("states change not handed back"),
    }
    assert_eq!(s.counted, 1);
    assert_eq!(s.router, AppRouterMatch::default());
}

#[test]
fn restore_after_change_keeps_count() {
    let mut s = Store::default();
    s.update(ActionOp::Increment);
    s.update(ActionOp::RouteChange(AppRouterMatch::Counter(CounterModuleRoute::default())));
    s.update(ActionOp::RouteRestore(AppRouterMatch::default()));
    assert_eq!(s.counted, 1);
    assert_eq!(s.router, AppRouterMatch::default());
}
