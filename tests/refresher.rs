use tunnel_session::bridge::BridgeDescriptor;
use tunnel_session::refresher::{
    refresher_step, select_fresh_bridges, RefreshAction, RefreshEvent, RefresherState,
};

fn addr(d: u8) -> String {
    format!("198.51.100.{}:443", d)
}

fn bridges(ds: &[u8]) -> Vec<BridgeDescriptor> {
    ds.iter()
        .map(|&d| BridgeDescriptor {
            endpoint: addr(d),
            protocol: "sosistab2-obfsudp".to_string(),
            key_blob: vec![0; 64],
            is_direct: false,
        })
        .collect()
}

fn connect_targets(action: RefreshAction) -> Vec<String> {
    match action {
        RefreshAction::Connect(v) => v.iter().map(|b| b.endpoint.clone()).collect(),
        _ => panic!("expected connection attempts"),
    }
}

#[test]
fn fresh_bridges_skip_attached_endpoints() {
    let fresh = select_fresh_bridges(bridges(&[1, 2, 3, 4]), &vec![addr(2), addr(4)]);
    let eps: Vec<String> = fresh.iter().map(|b| b.endpoint.clone()).collect();
    assert_eq!(eps, vec![addr(1), addr(3)]);
}

#[test]
fn unchanged_bridge_list_gives_no_attempts_on_second_cycle() {
    let (s, a) = refresher_step(RefresherState::Idle, RefreshEvent::TimerFired { session_alive: true });
    assert_eq!(s, RefresherState::Refreshing);
    assert!(matches!(a, RefreshAction::FetchBridges));
    let (s, a) = refresher_step(
        s,
        RefreshEvent::BridgesFetched { bridges: bridges(&[1, 2, 3]), attached: Some(vec![addr(1)]) },
    );
    assert_eq!(s, RefresherState::Idle);
    let first = connect_targets(a);
    assert_eq!(first, vec![addr(2), addr(3)]);
    let mut attached = vec![addr(1)];
    attached.extend(first);
    let (s, _) = refresher_step(s, RefreshEvent::TimerFired { session_alive: true });
    let (s, a) = refresher_step(
        s,
        RefreshEvent::BridgesFetched { bridges: bridges(&[1, 2, 3]), attached: Some(attached) },
    );
    assert_eq!(s, RefresherState::Idle);
    assert!(connect_targets(a).is_empty());
}

#[test]
fn released_session_stops_refresher() {
    let (s, a) = refresher_step(RefresherState::Idle, RefreshEvent::TimerFired { session_alive: false });
    assert_eq!(s, RefresherState::Stopped);
    assert!(matches!(a, RefreshAction::Wait));
    let (s, a) = refresher_step(s, RefreshEvent::TimerFired { session_alive: true });
    assert_eq!(s, RefresherState::Stopped);
    assert!(matches!(a, RefreshAction::Wait));
}

#[test]
fn release_during_refresh_stops_after_in_flight_fetch() {
    let (s, _) = refresher_step(RefresherState::Idle, RefreshEvent::TimerFired { session_alive: true });
    let (s, a) = refresher_step(s, RefreshEvent::BridgesFetched { bridges: bridges(&[1]), attached: None });
    assert_eq!(s, RefresherState::Stopped);
    assert!(matches!(a, RefreshAction::Wait));
}

#[test]
fn failed_fetch_returns_to_idle() {
    let (s, _) = refresher_step(RefresherState::Idle, RefreshEvent::TimerFired { session_alive: true });
    let (s, a) = refresher_step(s, RefreshEvent::FetchFailed);
    assert_eq!(s, RefresherState::Idle);
    assert!(matches!(a, RefreshAction::Wait));
    let (s, a) = refresher_step(s, RefreshEvent::TimerFired { session_alive: true });
    assert_eq!(s, RefresherState::Refreshing);
    assert!(matches!(a, RefreshAction::FetchBridges));
}
