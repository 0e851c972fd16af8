use peer_discovery::address::{Address, Subnet};
use peer_discovery::discovery::{candidate_hosts, scan_candidates, select_flagged};
use peer_discovery::listing::{ListingFormat, ResolutionError};
use peer_discovery::protocol::{reply_for, request_message, ClientEvent, ClientState};

fn subnet(a: u8, b: u8, c: u8) -> Subnet {
    Address::new(a, b, c, 1).subnet()
}

#[test]
fn candidates_exclude_own_address() {
    let own = Address::new(10, 1, 2, 42);
    let hosts = candidate_hosts(own.subnet(), own);
    assert_eq!(hosts.len(), 253);
    assert!(!hosts.contains(&own));
    assert_eq!(hosts[0], Address::new(10, 1, 2, 1));
    assert_eq!(hosts[40], Address::new(10, 1, 2, 41));
    assert_eq!(hosts[41], Address::new(10, 1, 2, 43));
    assert_eq!(hosts[252], Address::new(10, 1, 2, 254));
}

#[test]
fn candidates_of_foreign_subnet_are_all_hosts() {
    let hosts = candidate_hosts(subnet(192, 168, 5), Address::new(192, 168, 1, 10));
    assert_eq!(hosts.len(), 254);
    assert_eq!(hosts[0], Address::new(192, 168, 5, 1));
    assert_eq!(hosts[253], Address::new(192, 168, 5, 254));
    let edge = Address::new(192, 168, 5, 255);
    assert_eq!(candidate_hosts(edge.subnet(), edge).len(), 254);
}

#[test]
fn scan_candidates_resolve_first() {
    assert_eq!(
        scan_candidates(None, ListingFormat::AddressList),
        Err(ResolutionError::PlatformQueryFailed)
    );
    assert_eq!(
        scan_candidates(Some(b"8.8.4.4"), ListingFormat::AddressList),
        Err(ResolutionError::NoPrivateAddressFound)
    );
    let hosts = scan_candidates(Some(b"192.168.1.10 \n"), ListingFormat::AddressList).unwrap();
    assert_eq!(hosts.len(), 253);
    assert!(!hosts.contains(&Address::new(192, 168, 1, 10)));
    assert!(hosts.contains(&Address::new(192, 168, 1, 20)));
}

#[test]
fn probe_keeps_only_reachable_candidates() {
    let hosts = candidate_hosts(subnet(10, 0, 0), Address::new(10, 0, 0, 1));
    let up: Vec<bool> = hosts.iter().map(|h| h.d % 50 == 0).collect();
    let reachable = select_flagged(&hosts, &up);
    assert_eq!(
        reachable,
        vec![
            Address::new(10, 0, 0, 50),
            Address::new(10, 0, 0, 100),
            Address::new(10, 0, 0, 150),
            Address::new(10, 0, 0, 200),
            Address::new(10, 0, 0, 250),
        ]
    );
    assert!(reachable.iter().all(|r| hosts.contains(r)));
}

#[test]
fn probe_of_no_candidates_is_empty() {
    assert_eq!(select_flagged(&Vec::new(), &Vec::new()), Vec::<Address>::new());
    let hosts = vec![Address::new(192, 168, 0, 7)];
    assert_eq!(select_flagged(&hosts, &vec![false]), Vec::<Address>::new());
}

fn handshake(peer_is_listening: bool) -> bool {
    let mut state = ClientState::start();
    if !peer_is_listening {
        state = state.step(&ClientEvent::ConnectFailed);
        return state.outcome().unwrap();
    }
    state = state.step(&ClientEvent::Connected);
    let request = request_message();
    state = state.step(&ClientEvent::Sent);
    let reply = reply_for(&request).unwrap_or_default();
    state = state.step(&ClientEvent::Received(reply));
    state.outcome().unwrap()
}

fn discover(listing: &[u8], live: &[Address], running: &[Address]) -> Vec<Vec<u8>> {
    let hosts = scan_candidates(Some(listing), ListingFormat::AddressList).unwrap();
    let up: Vec<bool> = hosts.iter().map(|h| live.contains(h)).collect();
    let reachable = select_flagged(&hosts, &up);
    let here: Vec<bool> = reachable.iter().map(|h| handshake(running.contains(h))).collect();
    select_flagged(&reachable, &here).iter().map(|p| p.to_text()).collect()
}

#[test]
fn discovery_finds_single_listener() {
    let peer = Address::new(192, 168, 1, 20);
    let report = discover(b"192.168.1.10\n", &[peer], &[peer]);
    assert_eq!(report, vec![b"192.168.1.20".to_vec()]);
    assert!(handshake(true));
    assert!(!handshake(false));
}

#[test]
fn discovery_skips_hosts_without_application() {
    let peer = Address::new(192, 168, 1, 20);
    let other = Address::new(192, 168, 1, 30);
    let report = discover(b"192.168.1.10\n", &[peer, other], &[peer]);
    assert_eq!(report, vec![b"192.168.1.20".to_vec()]);
}

#[test]
fn discovery_is_repeatable() {
    let live = [Address::new(10, 9, 8, 3), Address::new(10, 9, 8, 77), Address::new(10, 9, 8, 200)];
    let running = [Address::new(10, 9, 8, 200), Address::new(10, 9, 8, 3)];
    let first = discover(b"10.9.8.7", &live, &running);
    let second = discover(b"10.9.8.7", &live, &running);
    assert_eq!(first, second);
    assert_eq!(first, vec![b"10.9.8.3".to_vec(), b"10.9.8.200".to_vec()]);
}
