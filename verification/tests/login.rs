use wow_srp::normalized_string::NormalizedString;
use wow_srp::server::SrpServer;
use wow_srp::vanilla_header::ProofSeed;
use wow_vanilla_server::auth::{
    challenge_client, check_proof, enter_world, get_proof, login_name, realm_list, reconnect_challenge, reconnect_verify, route,
    world_server_address, Accounts, AuthRoute, Dialect, EntryError, UserCacheInner,
};
use wow_vanilla_server::loadtest::handshake::prove;
use wow_vanilla_server::loadtest::login::{accept_server, LoginError};

const MS: u64 = 1_000_000;

fn cache(idle_ms: u64, prune_ms: u64) -> UserCacheInner<&'static str> {
    UserCacheInner::with_policy(idle_ms * MS, prune_ms * MS, 0)
}

#[test]
fn insert_and_get_roundtrips() {
    let mut c = cache(60_000, 60_000);
    c.insert("alice".into(), "session-A", 0);
    assert_eq!(c.get("alice", 0).copied(), Some("session-A"));
    assert_eq!(c.len(), 1);
}

#[test]
fn insert_replaces_existing_entry() {
    let mut c = cache(60_000, 60_000);
    c.insert("alice".into(), "old", 0);
    c.insert("alice".into(), "new", 0);
    assert_eq!(c.len(), 1);
    assert_eq!(c.get("alice", 0).copied(), Some("new"));
}

#[test]
fn prune_evicts_idle_entries() {
    let mut c = cache(50, 0);
    c.insert("alice".into(), "A", 0);
    c.insert("bob".into(), "B", 0);
    assert_eq!(c.len(), 2);
    let later = 80 * MS;
    c.insert("carol".into(), "C", later);
    assert_eq!(c.len(), 1);
    assert!(c.get("alice", later).is_none());
    assert!(c.get("bob", later).is_none());
    assert_eq!(c.get("carol", later).copied(), Some("C"));
}

#[test]
fn get_refreshes_last_seen() {
    let mut c = cache(50, 0);
    c.insert("alice".into(), "A", 0);
    let _ = c.get("alice", 30 * MS);
    c.insert("bob".into(), "B", 60 * MS);
    assert_eq!(c.len(), 2);
    assert!(c.get("alice", 60 * MS).is_some(), "recently-read entry must survive prune");
}

#[test]
fn prune_interval_throttles_passes() {
    let mut c = cache(10, 10_000);
    c.insert("alice".into(), "A", 0);
    c.insert("bob".into(), "B", 30 * MS);
    assert_eq!(c.len(), 2);
}

#[test]
fn names_that_cannot_be_logged_in_with_are_replaced() {
    let is = |name: &str, hashed: &str| login_name(name) == NormalizedString::new(hashed).unwrap();
    assert!(is("alice", "alice"));
    assert!(is("sixteen letters!", "sixteen letters!"));
    assert!(is("", "invalid"));
    assert!(is("a name that is far too long", "invalid"));
    assert!(is("zo\u{eb}", "invalid"));
    assert!(is("tab\there", "invalid"));
    assert!(is("del\u{7f}", "invalid"));
    assert!(!is("alice", "invalid"));
}

fn both_ends(name: &str) -> (SrpServer, wow_srp::client::SrpClient) {
    let proof = get_proof(name);
    let norm = NormalizedString::new(name).unwrap();
    let client = wow_srp::client::SrpClientChallenge::new(
        norm.clone(),
        norm,
        wow_srp::GENERATOR,
        wow_srp::LARGE_SAFE_PRIME_LITTLE_ENDIAN,
        wow_srp::PublicKey::from_le_bytes(*proof.server_public_key()).unwrap(),
        *proof.salt(),
    );
    let (server, server_proof) =
        check_proof(proof, *client.client_public_key(), *client.client_proof()).expect("the proof is right");
    let client = client.verify_server_proof(server_proof).expect("the server knows the password");
    assert_eq!(server.session_key(), client.session_key());
    (server, client)
}

fn logged_in(name: &str) -> (SrpServer, [u8; 40]) {
    let (server, client) = both_ends(name);
    (server, *client.session_key())
}

#[test]
fn a_bot_trusts_a_server_with_the_right_proof() {
    let waiting = || {
        let proof = get_proof("bot7");
        let norm = NormalizedString::new("bot7").unwrap();
        let client = wow_srp::client::SrpClientChallenge::new(
            norm.clone(),
            norm,
            wow_srp::GENERATOR,
            wow_srp::LARGE_SAFE_PRIME_LITTLE_ENDIAN,
            wow_srp::PublicKey::from_le_bytes(*proof.server_public_key()).unwrap(),
            *proof.salt(),
        );
        let (server, server_proof) =
            check_proof(proof, *client.client_public_key(), *client.client_proof()).expect("the proof is right");
        (client, server, server_proof)
    };
    let (client, server, server_proof) = waiting();
    assert_eq!(accept_server(client, server_proof), Ok(*server.session_key()));
    let (client, _, mut server_proof) = waiting();
    server_proof[0] ^= 1;
    assert_eq!(accept_server(client, server_proof), Err(LoginError::BadServerProof));
    assert_eq!(LoginError::BadServerProof.text(), "auth: server proof mismatch");
}

#[test]
fn only_known_accounts_log_in() {
    let mut accounts = Accounts::new(false);
    assert!(accounts.begin_login("alice").is_none());
    accounts.add_account("alice".to_string());
    assert!(accounts.begin_login("alice").is_some());
    assert!(accounts.begin_login("bob").is_none());
    assert!(accounts.begin_login("bob").is_none());
    let mut open = Accounts::new(true);
    assert!(open.begin_login("bob").is_some());
    assert!(open.begin_login("bob").is_some());
}

#[test]
fn the_key_is_that_of_the_login() {
    let (a, key_of_a) = logged_in("alice");
    let (b, key_of_b) = logged_in("alice");
    assert_eq!(*a.session_key(), key_of_a);
    assert_eq!(*b.session_key(), key_of_b);
    assert_ne!(key_of_a, key_of_b);
}

#[test]
fn the_right_proof_logs_in() {
    logged_in("alice");
}

#[test]
fn a_wrong_proof_does_not_log_in() {
    let mut key = [0u8; 32];
    key[0] = 5;
    assert!(check_proof(get_proof("alice"), key, [0; 20]).is_none());
}

#[test]
fn without_a_public_key_nobody_logs_in() {
    assert!(check_proof(get_proof("alice"), [0; 32], [0; 20]).is_none());
}

#[test]
fn only_the_remembered_come_back() {
    let mut users: UserCacheInner<SrpServer> = UserCacheInner::new(0);
    assert!(reconnect_challenge(&mut users, "alice", 0).is_none());
    assert!(!reconnect_verify(&mut users, "alice", [0; 16], [0; 20], 0));
    let (server, _) = logged_in("alice");
    users.insert("alice".to_string(), server, 0);
    assert!(reconnect_challenge(&mut users, "alice", 1).is_some());
    assert!(!reconnect_verify(&mut users, "alice", [0; 16], [0; 20], 2));
}

#[test]
fn who_logged_in_enters_the_world() {
    let mut users: UserCacheInner<SrpServer> = UserCacheInner::new(0);
    let (server, key) = logged_in("alice");
    users.insert("alice".to_string(), server, 0);
    let server_seed = ProofSeed::new();
    let client_seed = ProofSeed::new();
    let client_number = client_seed.seed();
    let (proof, _) = client_seed.into_client_header_crypto(
        &NormalizedString::new("alice").unwrap(),
        key,
        server_seed.seed(),
    );
    assert!(enter_world(&mut users, "alice", server_seed, proof, client_number, 1).is_ok());
}

#[test]
fn a_bot_that_logged_in_enters_the_world() {
    let mut users: UserCacheInner<SrpServer> = UserCacheInner::new(0);
    let (server, key) = logged_in("bot7");
    users.insert("bot7".to_string(), server, 0);
    let (seed, number) = challenge_client();
    assert_eq!(seed.seed(), number);
    let p = prove("bot7", key, number).expect("the name can be logged in with");
    let mut theirs = enter_world(&mut users, "bot7", seed, p.client_proof, p.client_seed, 1).expect("the proof is right");
    let mut own = p.crypto;
    let sealed = theirs.encrypt_server_header(12, 0x1ee);
    let header = own.decrypt_server_header(sealed);
    assert_eq!((header.size, header.opcode), (12, 0x1ee));
    assert!(prove("zo\u{eb}", key, number).is_none());
}

#[test]
fn who_was_there_comes_back_with_the_right_proof() {
    let mut users: UserCacheInner<SrpServer> = UserCacheInner::new(0);
    let (server, client) = both_ends("alice");
    users.insert("alice".to_string(), server, 0);
    let challenge = reconnect_challenge(&mut users, "alice", 1).unwrap();
    let answer = client.calculate_reconnect_values(challenge);
    assert!(reconnect_verify(&mut users, "alice", answer.challenge_data, answer.proof, 2));
    assert!(!reconnect_verify(&mut users, "alice", answer.challenge_data, answer.proof, 3));
}

#[test]
fn strangers_do_not_enter_the_world() {
    let mut users: UserCacheInner<SrpServer> = UserCacheInner::new(0);
    let r = enter_world(&mut users, "mallory", ProofSeed::new(), [0; 20], 0, 1);
    assert_eq!(r.err(), Some(EntryError::UnknownAccount));
    let (server, _) = logged_in("alice");
    users.insert("alice".to_string(), server, 0);
    let r = enter_world(&mut users, "alice", ProofSeed::new(), [0; 20], 0, 1);
    assert_eq!(r.err(), Some(EntryError::BadProof));
    let (server, _) = logged_in("alice");
    users.insert("zo\u{eb}".to_string(), server, 0);
    let r = enter_world(&mut users, "zo\u{eb}", ProofSeed::new(), [0; 20], 0, 1);
    assert_eq!(r.err(), Some(EntryError::BadName));
}

#[test]
fn logins_are_routed_by_version() {
    assert_eq!(route(false, 3), AuthRoute::Login(Dialect::Three));
    assert_eq!(route(false, 8), AuthRoute::Login(Dialect::Eight));
    assert_eq!(route(true, 2), AuthRoute::Reconnect(Dialect::Two));
    assert_eq!(route(false, 77), AuthRoute::Ignore);
}

#[test]
fn the_realm_list_leads_to_the_world() {
    let r = realm_list(Dialect::Eight, "example.com:8085");
    assert!(!r.is_empty());
    assert_eq!(r[0].address, "example.com:8085");
    assert_eq!(world_server_address(None), "localhost:8085");
    assert_eq!(world_server_address(Some("1.2.3.4:9".to_string())), "1.2.3.4:9");
}
