use dawn::blockchain::chain::Chain;
use dawn::config::Config;
use dawn::p2p::{Peer, P2P_PORT};
use dawn::settings::InternalConfig;
use dawn::state::{State, MAX_PEERS};
use dawn::util::key::generate_pk_and_sk;
use dawn::util::vdf::VDF_DIFFICULTY;

fn empty_state() -> State {
    let (_, sk) = generate_pk_and_sk(512).unwrap();
    State::new(sk, Chain::new()).unwrap()
}

#[test]
fn peer_url_names_address_and_port() {
    let peer = Peer::from_octets(192, 168, 0, 1);
    assert_eq!(peer.get_url(P2P_PORT), "http://192.168.0.1:62697/");
    assert_eq!(Peer::from_octets(10, 0, 0, 255).get_url(80), "http://10.0.0.255:80/");
    assert_eq!(Peer::new(0).get_url(0), "http://0.0.0.0:0/");
}

#[test]
fn peer_octets_come_back_as_given() {
    let peer = Peer::from_octets(1, 2, 3, 4);
    assert_eq!(peer.ip, 0x01020304);
    assert_eq!(peer.octets(), (1, 2, 3, 4));
}

#[test]
fn peer_list_never_grows_past_its_bound() {
    let state = empty_state();
    let peers: Vec<Peer> = (0..100u32).map(Peer::new).collect();
    let (state, changed) = state.add_peers(&peers);
    assert!(changed);
    assert_eq!(state.peers.len(), MAX_PEERS + 1);
    let (same, changed) = state.add_peer(&Peer::new(1000));
    assert!(!changed);
    assert_eq!(same, state);
}

#[test]
fn adding_known_peers_again_changes_nothing() {
    let state = empty_state();
    let peers = vec![Peer::new(1), Peer::new(2), Peer::new(1)];
    let (state, changed) = state.add_peers(&peers);
    assert!(changed);
    assert_eq!(state.peers, vec![Peer::new(1), Peer::new(2)]);
    let (again, changed) = state.add_peers(&peers);
    assert!(!changed);
    assert_eq!(again, state);
}

#[test]
fn removing_an_added_peer_restores_the_list() {
    let (state, _) = empty_state().add_peers(&[Peer::new(1), Peer::new(2)]);
    let (with_new, added) = state.add_peer(&Peer::new(3));
    assert!(added);
    let (back, removed) = with_new.remove_peer(&Peer::new(3));
    assert!(removed);
    assert_eq!(back, state);
}

#[test]
fn removing_an_unknown_peer_changes_nothing() {
    let (state, _) = empty_state().add_peer(&Peer::new(1));
    let (same, removed) = state.remove_peer(&Peer::new(2));
    assert!(!removed);
    assert_eq!(same, state);
    let (none_left, removed) = state.remove_peers(&[Peer::new(2), Peer::new(1)]);
    assert!(removed);
    assert!(none_left.peers.is_empty());
}

#[test]
fn ports_fall_back_to_defaults() {
    assert_eq!(Config::from_ports(None, None), Config { api_port: 8080, cors_allow_port: 3000 });
    assert_eq!(Config::from_ports(Some(9000), None), Config { api_port: 9000, cors_allow_port: 3000 });
    assert_eq!(Config::from_ports(None, Some(4000)), Config { api_port: 8080, cors_allow_port: 4000 });
}

#[test]
fn shared_settings_fall_back_to_the_network_values() {
    let config = InternalConfig::fallback();
    assert_eq!(config.p2p_port, 62697);
    assert_eq!(config.vdf_difficulty, VDF_DIFFICULTY);
    assert_eq!(VDF_DIFFICULTY, 5295676);
}
