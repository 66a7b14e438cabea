use rdvault::client::Client;
use rdvault::encryption::{encrypt, generate_key_from_password, KEY_SIZE};
use rdvault::codec::encode;
use rdvault::session::{KeyStatus, VaultSession};
use rdvault::VaultError;

fn client(name: &str, ip: &str, password: &str) -> Client {
    Client::new(name.to_string(), ip.to_string(), password.to_string())
}

#[test]
fn first_run_unlocks_with_empty_list_and_creates_container() {
    let mut session = VaultSession::new(false);
    assert!(matches!(session.status, KeyStatus::FirstRun));
    let created = session.submit_passphrase(b"hunter2", None).unwrap();
    let container = created.expect("a fresh container to persist");
    assert!(matches!(session.status, KeyStatus::Submitted));
    assert!(session.clients.is_empty());

    // The created container opens again under the same passphrase.
    let mut reload = VaultSession::new(true);
    reload.submit_passphrase(b"hunter2", Some(&container)).unwrap();
    assert!(matches!(reload.status, KeyStatus::Submitted));
    assert!(reload.clients.is_empty());
}

#[test]
fn correct_key_restores_profiles_wrong_key_is_rejected() {
    let list = vec![client("work", "192.168.1.5", "pw"), client("lab", "192.168.1.9", "s3cret")];
    let key = generate_key_from_password(b"correct");
    let container = encrypt(&encode(&list), &key).unwrap();

    let mut session = VaultSession::new(true);
    assert!(matches!(session.status, KeyStatus::Missing));
    session.submit_passphrase(b"correct", Some(&container)).unwrap();
    assert!(matches!(session.status, KeyStatus::Submitted));
    assert_eq!(session.clients, list);

    let mut other = VaultSession::new(true);
    other.submit_passphrase(b"wrong", Some(&container)).unwrap();
    assert!(matches!(other.status, KeyStatus::Incorrect));
    assert!(other.clients.is_empty());

    other.acknowledge();
    assert!(matches!(other.status, KeyStatus::Missing));

    // The session can try again after acknowledging.
    other.submit_passphrase(b"correct", Some(&container)).unwrap();
    assert!(matches!(other.status, KeyStatus::Submitted));
    assert_eq!(other.clients, list);
}

#[test]
fn remove_then_reload_from_disk_yields_the_rest() {
    let mut session = VaultSession::new(false);
    session.submit_passphrase(b"pass", None).unwrap();
    session.add_client(client("A", "10.0.0.1", "a")).unwrap();
    let _ = session.add_client(client("B", "10.0.0.2", "b")).unwrap();

    let container = session.remove_client(0).unwrap();
    assert_eq!(session.clients.len(), 1);

    let mut reload = VaultSession::new(true);
    reload.submit_passphrase(b"pass", Some(&container)).unwrap();
    assert!(matches!(reload.status, KeyStatus::Submitted));
    assert_eq!(reload.clients, vec![client("B", "10.0.0.2", "b")]);
}

#[test]
fn edit_replaces_the_record_in_place() {
    let mut session = VaultSession::new(false);
    session.submit_passphrase(b"pass", None).unwrap();
    session.add_client(client("A", "10.0.0.1", "a")).unwrap();
    session.add_client(client("B", "10.0.0.2", "b")).unwrap();
    let container = session.edit_client(0, client("A2", "10.0.0.7", "a2")).unwrap();
    assert_eq!(
        session.clients,
        vec![client("A2", "10.0.0.7", "a2"), client("B", "10.0.0.2", "b")]
    );

    let mut reload = VaultSession::new(true);
    reload.submit_passphrase(b"pass", Some(&container)).unwrap();
    assert_eq!(reload.clients, session.clients);
}

#[test]
fn import_under_zero_key_appends_and_reseals_under_session_key() {
    let legacy = vec![client("old", "172.16.0.1", "legacy-pw")];
    let zero_key = [0u8; KEY_SIZE];
    let legacy_container = encrypt(&encode(&legacy), &zero_key).unwrap();

    let mut session = VaultSession::new(false);
    session.submit_passphrase(b"new master", None).unwrap();
    session.add_client(client("current", "10.1.1.1", "cur")).unwrap();

    let container = session.import_sealed(&legacy_container).unwrap();
    assert_eq!(
        session.clients,
        vec![client("current", "10.1.1.1", "cur"), client("old", "172.16.0.1", "legacy-pw")]
    );

    // Everything, imported records included, now opens under the session key.
    let mut reload = VaultSession::new(true);
    reload.submit_passphrase(b"new master", Some(&container)).unwrap();
    assert_eq!(reload.clients, session.clients);

    // The re-sealed container is no longer under the zero key.
    let mut zeroed = VaultSession::new(false);
    zeroed.submit_passphrase(b"z", None).unwrap();
    assert_eq!(
        zeroed.import_sealed(&container).unwrap_err(),
        VaultError::Authentication
    );
}

#[test]
fn import_of_undecodable_payload_is_a_format_fault() {
    let zero_key = [0u8; KEY_SIZE];
    let junk_container = encrypt(b"not an encoding", &zero_key).unwrap();
    let mut session = VaultSession::new(false);
    session.submit_passphrase(b"m", None).unwrap();
    session.add_client(client("keep", "10.0.0.3", "k")).unwrap();
    assert_eq!(
        session.import_sealed(&junk_container).unwrap_err(),
        VaultError::Format
    );
    assert_eq!(session.clients, vec![client("keep", "10.0.0.3", "k")]);
}

#[test]
fn authenticated_but_undecodable_container_surfaces_format_without_state_change() {
    let key = generate_key_from_password(b"mkey");
    let container = encrypt(b"garbage payload", &key).unwrap();
    let mut session = VaultSession::new(true);
    assert_eq!(
        session.submit_passphrase(b"mkey", Some(&container)).unwrap_err(),
        VaultError::Format
    );
    assert!(matches!(session.status, KeyStatus::Missing));
    assert!(session.clients.is_empty());
}

#[test]
fn container_sealed_under_other_key_is_rejected_not_accepted() {
    let other_key = generate_key_from_password(b"somebody else");
    let container = encrypt(&encode(&Vec::new()), &other_key).unwrap();
    let mut session = VaultSession::new(true);
    session.submit_passphrase(b"mine", Some(&container)).unwrap();
    assert!(matches!(session.status, KeyStatus::Incorrect));
    assert!(session.clients.is_empty());
}
