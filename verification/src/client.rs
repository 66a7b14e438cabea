//! The connection profile record and the modes a caller's editor can be in.
use vstd::prelude::*;

verus! {

/// One stored connection record: a display name, the address to connect to,
/// and the password handed to the remote-access client.  Names and addresses
/// need not be unique; the position in the list identifies a record.
#[derive(Debug)]
pub struct Client {
    pub name: String,
    pub ip: String,
    pub password: String,
}

/// The mathematical value of a [`Client`]: its three fields as character
/// sequences.
#[verifier::ext_equal]
pub ghost struct ClientView {
    pub name: Seq<char>,
    pub ip: Seq<char>,
    pub password: Seq<char>,
}

impl View for Client {
    type V = ClientView;

    open spec fn view(&self) -> ClientView {
        ClientView { name: self.name@, ip: self.ip@, password: self.password@ }
    }
}

impl DeepView for Client {
    type V = ClientView;

    open spec fn deep_view(&self) -> ClientView {
        self.view()
    }
}

impl Client {
    /// Builds a record from its three fields.
    pub fn new(name: String, ip: String, password: String) -> (r: Client)
        ensures
            r@.name == name@,
            r@.ip == ip@,
            r@.password == password@,
    {
        Client { name, ip, password }
    }
}

impl PartialEq for Client {
    fn eq(&self, other: &Self) -> bool {
        let r = self.name == other.name && self.ip == other.ip && self.password
            == other.password;
        proof {
            if r {
                assert(self@ =~= other@);
            }
        }
        r
    }
}

impl Eq for Client {

}

impl vstd::std_specs::cmp::PartialEqSpecImpl for Client {
    open spec fn obeys_eq_spec() -> bool {
        true
    }

    open spec fn eq_spec(&self, other: &Self) -> bool {
        self@ == other@
    }
}

impl Clone for Client {
    /// A clone carries the same three fields.
    fn clone(&self) -> (r: Self)
        ensures
            r@ == self@,
    {
        Client {
            name: self.name.clone(),
            ip: self.ip.clone(),
            password: self.password.clone(),
        }
    }
}

/// What the caller's editing surface is doing right now.  The store itself
/// does not change behaviour with the mode; it is carried for the caller.
#[derive(Clone, Copy, Debug, PartialEq, Eq, Structural)]
pub enum AppMode {
    Normal,
    Adding,
    Editing,
    Removing,
    About,
}

} // verus!
