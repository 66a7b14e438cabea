use rdvault::app::AppState;
use rdvault::client::{AppMode, Client};
use rdvault::session::KeyStatus;

#[test]
fn new_state_starts_clean() {
    let state = AppState::new(false);
    assert!(matches!(state.session.status, KeyStatus::FirstRun));
    assert!(matches!(AppState::new(true).session.status, KeyStatus::Missing));
    assert!(state.session.clients.is_empty());
    assert!(state.selected_client.is_none());
    assert!(state.new_client_name.is_empty());
    assert!(state.new_client_ip.is_empty());
    assert!(state.new_client_password.is_empty());
    assert!(matches!(state.mode, AppMode::Normal));
    assert!(!state.show_password);
    assert!(state.error_message.is_none());
    assert!(state.master_key_input.is_empty());
    assert!(state.confirm_master_key_input.is_empty());
}

#[test]
fn clear_new_client_fields_empties_the_editor() {
    let mut state = AppState::new(false);
    state.new_client_name = "name".to_string();
    state.new_client_ip = "10.0.0.1".to_string();
    state.new_client_password = "pw".to_string();
    state.show_password = true;
    state.clear_new_client_fields();
    assert!(state.new_client_name.is_empty());
    assert!(state.new_client_ip.is_empty());
    assert!(state.new_client_password.is_empty());
    assert!(state.show_password);
}

#[test]
fn load_selected_client_copies_the_record() {
    let mut state = AppState::new(false);
    state.session.submit_passphrase(b"m", None).unwrap();
    state
        .session
        .add_client(Client::new("A".to_string(), "10.0.0.1".to_string(), "a".to_string()))
        .unwrap();
    state
        .session
        .add_client(Client::new("B".to_string(), "10.0.0.2".to_string(), "b".to_string()))
        .unwrap();

    state.selected_client = Some(1);
    state.load_selected_client();
    assert_eq!(state.new_client_name, "B");
    assert_eq!(state.new_client_ip, "10.0.0.2");
    assert_eq!(state.new_client_password, "b");

    state.selected_client = Some(9);
    state.load_selected_client();
    assert_eq!(state.new_client_name, "B");

    state.selected_client = None;
    state.new_client_name.clear();
    state.load_selected_client();
    assert!(state.new_client_name.is_empty());
}
