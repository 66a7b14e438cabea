//! Presentation state around the session.
//!
//! The session owns the key and the list; everything here is what an editing
//! surface needs besides them — form text buffers, the selection, a
//! visibility toggle and a transient error line.  Nothing in this module
//! touches the key material or the container format.
use vstd::prelude::*;
use crate::client::AppMode;
use crate::session::{KeyStatus, VaultSession};

verus! {

/// The whole caller-facing state: the vault session plus the editor fields.
pub struct AppState {
    pub session: VaultSession,
    pub selected_client: Option<usize>,
    pub new_client_name: String,
    pub new_client_ip: String,
    pub new_client_password: String,
    pub mode: AppMode,
    pub show_password: bool,
    pub error_message: Option<String>,
    pub master_key_input: String,
    pub confirm_master_key_input: String,
}

impl AppState {
    /// Fresh state over a new session.  The caller, which owns the
    /// filesystem, says whether a container already exists at the
    /// well-known path.
    pub fn new(container_exists: bool) -> (r: AppState)
        ensures
            r.session.wf(),
            r.session.status == (if container_exists {
                KeyStatus::Missing
            } else {
                KeyStatus::FirstRun
            }),
            r.session.clients@.len() == 0,
            r.selected_client is None,
            r.new_client_name@.len() == 0,
            r.new_client_ip@.len() == 0,
            r.new_client_password@.len() == 0,
            r.mode == AppMode::Normal,
            !r.show_password,
            r.error_message is None,
            r.master_key_input@.len() == 0,
            r.confirm_master_key_input@.len() == 0,
    {
        AppState {
            session: VaultSession::new(container_exists),
            selected_client: None,
            new_client_name: String::new(),
            new_client_ip: String::new(),
            new_client_password: String::new(),
            mode: AppMode::Normal,
            show_password: false,
            error_message: None,
            master_key_input: String::new(),
            confirm_master_key_input: String::new(),
        }
    }

    /// Empties the three editor fields; everything else stays as it was.
    pub fn clear_new_client_fields(&mut self)
        ensures
            final(self).new_client_name@.len() == 0,
            final(self).new_client_ip@.len() == 0,
            final(self).new_client_password@.len() == 0,
            final(self).session == old(self).session,
            final(self).selected_client == old(self).selected_client,
            final(self).mode == old(self).mode,
            final(self).show_password == old(self).show_password,
            final(self).error_message == old(self).error_message,
            final(self).master_key_input == old(self).master_key_input,
            final(self).confirm_master_key_input == old(self).confirm_master_key_input,
    {
        self.new_client_name = String::new();
        self.new_client_ip = String::new();
        self.new_client_password = String::new();
    }

    /// Copies the selected record, if there is one and it is in range, into
    /// the editor fields; otherwise nothing changes.
    pub fn load_selected_client(&mut self)
        ensures
            (old(self).selected_client matches Some(index) && index
                < old(self).session.clients@.len()) ==> {
                let picked = old(self).session.clients@[old(
                    self,
                ).selected_client->Some_0 as int]@;
                &&& final(self).new_client_name@ == picked.name
                &&& final(self).new_client_ip@ == picked.ip
                &&& final(self).new_client_password@ == picked.password
                &&& final(self).session == old(self).session
                &&& final(self).selected_client == old(self).selected_client
                &&& final(self).mode == old(self).mode
                &&& final(self).show_password == old(self).show_password
                &&& final(self).error_message == old(self).error_message
                &&& final(self).master_key_input == old(self).master_key_input
                &&& final(self).confirm_master_key_input == old(self).confirm_master_key_input
            },
            !(old(self).selected_client matches Some(index) && index
                < old(self).session.clients@.len()) ==> *final(self) == *old(self),
    {
        if let Some(index) = self.selected_client {
            if index < self.session.clients.len() {
                let client = &self.session.clients[index];
                self.new_client_name = client.name.clone();
                self.new_client_ip = client.ip.clone();
                self.new_client_password = client.password.clone();
            }
        }
    }
}

} // verus!
