//! The key-lifecycle state machine that owns the store.
//!
//! A session starts either with no container on disk or with one that is
//! still locked.  Submitting a passphrase derives a key and either creates a
//! fresh container, opens the existing one, or marks the key as rejected.
//! Once open, every mutation of the list yields the re-sealed container
//! bytes, so the caller can replace the file whole and the on-disk state
//! never lags the in-memory list by more than one write.
use vstd::prelude::*;
use crate::client::{Client, ClientView};
use crate::codec::{decode, encode, encode_list_spec, list_encodable, parse_list};
use crate::encryption::{
    decrypt, derived_key, encrypt, generate_key_from_password, sealed_container, KEY_SIZE,
    MAX_PLAINTEXT_LEN, NONCE_SIZE,
};
use crate::VaultError;

verus! {

/// Where the session stands in the key lifecycle.
#[derive(Clone, Copy, Debug, PartialEq, Eq, Structural)]
pub enum KeyStatus {
    /// A container exists but no passphrase has been accepted yet.
    Missing,
    /// A key has been accepted; the store is open for reading and mutation.
    Submitted,
    /// The last submitted passphrase failed authentication.
    Incorrect,
    /// No container exists yet; the first submitted passphrase creates one.
    FirstRun,
}

/// The all-zero key, used only by the legacy import path.
pub open spec fn zero_key() -> Seq<u8> {
    Seq::new(KEY_SIZE as nat, |i: int| 0u8)
}

/// The session: the current key, the profile list, and the lifecycle state.
/// The key and the list are meaningful only while the status is
/// [`KeyStatus::Submitted`]; in every other state the list is empty, and
/// outside `Submitted` and `Incorrect` the key is held zeroed.
pub struct VaultSession {
    pub status: KeyStatus,
    pub key: [u8; KEY_SIZE],
    pub clients: Vec<Client>,
}

impl VaultSession {
    /// The session invariant: no profile data outside the unlocked state,
    /// and no key material before one has been submitted.
    pub open spec fn wf(self) -> bool {
        &&& self.status != KeyStatus::Submitted ==> self.clients@.len() == 0
        &&& (self.status == KeyStatus::FirstRun || self.status == KeyStatus::Missing)
            ==> self.key@ == zero_key()
    }

    /// A fresh session: locked if a container already exists at the
    /// caller's well-known path, first-run otherwise.
    pub fn new(container_exists: bool) -> (r: VaultSession)
        ensures
            r.wf(),
            r.status == (if container_exists {
                KeyStatus::Missing
            } else {
                KeyStatus::FirstRun
            }),
            r.clients@.len() == 0,
            r.key@ == zero_key(),
    {
        let r = VaultSession {
            status: if container_exists {
                KeyStatus::Missing
            } else {
                KeyStatus::FirstRun
            },
            key: [0u8; KEY_SIZE],
            clients: Vec::new(),
        };
        proof {
            assert(r.key@ =~= zero_key());
        }
        r
    }

    /// Encodes and seals the current list under the session key: the
    /// container bytes the caller writes to disk whole.  Refused only when
    /// the encoded list outgrows what the cipher accepts.
    pub fn sealed_clients(&self) -> (r: Result<Vec<u8>, VaultError>)
        requires
            self.status == KeyStatus::Submitted,
        ensures
            r matches Ok(c) ==> c@ == sealed_container(
                self.key@,
                c@.subrange(0, NONCE_SIZE as int),
                encode_list_spec(self.clients.deep_view()),
            ) && c@.len() == NONCE_SIZE + 16 + encode_list_spec(self.clients.deep_view()).len(),
            r is Ok ==> encode_list_spec(self.clients.deep_view()).len() <= MAX_PLAINTEXT_LEN
                && list_encodable(self.clients.deep_view()),
            encode_list_spec(self.clients.deep_view()).len() <= MAX_PLAINTEXT_LEN ==> r is Ok,
            r is Err ==> r == Err::<Vec<u8>, VaultError>(VaultError::Format),
    {
        let payload = encode(&self.clients);
        match encrypt(payload.as_slice(), &self.key) {
            Ok(c) => Ok(c),
            Err(_) => Err(VaultError::Format),
        }
    }

    /// Submits a passphrase.  On a first run the store becomes an empty
    /// unlocked list and the returned container must be written to create
    /// the vault.  Against an existing container the key either opens it,
    /// or is rejected and the session waits to be acknowledged.  A container
    /// that authenticates but does not decode leaves the session unchanged
    /// and surfaces a format fault.
    pub fn submit_passphrase(&mut self, passphrase: &[u8], container: Option<&[u8]>) -> (r: Result<
        Option<Vec<u8>>,
        VaultError,
    >)
        requires
            old(self).wf(),
            old(self).status == KeyStatus::FirstRun || old(self).status == KeyStatus::Missing,
            old(self).status == KeyStatus::FirstRun ==> container is None,
            old(self).status == KeyStatus::Missing ==> container is Some,
        ensures
            final(self).wf(),
            final(self).status == KeyStatus::Submitted || final(self).status
                == KeyStatus::Incorrect || *final(self) == *old(self),
            old(self).status == KeyStatus::FirstRun ==> final(self).status == KeyStatus::Submitted
                && final(self).key@ == derived_key(passphrase@) && final(self).clients@.len() == 0
                && (r matches Ok(out) && out matches Some(c) && c@ == sealed_container(
                derived_key(passphrase@),
                c@.subrange(0, NONCE_SIZE as int),
                encode_list_spec(Seq::<ClientView>::empty()),
            ) && c@.len() == NONCE_SIZE + 16 + encode_list_spec(Seq::<ClientView>::empty()).len()),
            forall|n: Seq<u8>, p: Seq<u8>|
                #![trigger sealed_container(derived_key(passphrase@), n, p)]
                old(self).status == KeyStatus::Missing && (container matches Some(data)
                    && n.len() == NONCE_SIZE && p.len() <= MAX_PLAINTEXT_LEN + 16 && data@
                    == sealed_container(derived_key(passphrase@), n, p) && parse_list(p) is Some)
                    ==> (final(self).status == KeyStatus::Submitted && final(self).clients.deep_view() == parse_list(p)->Some_0 && final(self).key@ == derived_key(
                    passphrase@,
                ) && r == Ok::<Option<Vec<u8>>, VaultError>(None)),
            forall|n: Seq<u8>, p: Seq<u8>|
                #![trigger sealed_container(derived_key(passphrase@), n, p)]
                old(self).status == KeyStatus::Missing && (container matches Some(data)
                    && n.len() == NONCE_SIZE && p.len() <= MAX_PLAINTEXT_LEN + 16 && data@
                    == sealed_container(derived_key(passphrase@), n, p) && parse_list(p) is None)
                    ==> (r == Err::<Option<Vec<u8>>, VaultError>(VaultError::Format)
                    && *final(self) == *old(self)),
            (old(self).status == KeyStatus::Missing && (forall|n: Seq<u8>, p: Seq<u8>|
                #![trigger sealed_container(derived_key(passphrase@), n, p)]
                n.len() == NONCE_SIZE && p.len() <= MAX_PLAINTEXT_LEN + 16 ==> (
                container matches Some(data) && data@ != sealed_container(
                    derived_key(passphrase@),
                    n,
                    p,
                )))) ==> (final(self).status == KeyStatus::Incorrect && final(self).key@
                == derived_key(passphrase@) && final(self).clients@.len() == 0 && r == Ok::<
                Option<Vec<u8>>,
                VaultError,
            >(None)),
            final(self).status == KeyStatus::Incorrect ==> old(self).status == KeyStatus::Missing
                && final(self).key@ == derived_key(passphrase@) && final(self).clients@.len() == 0
                && r == Ok::<Option<Vec<u8>>, VaultError>(None),
            r is Err ==> r == Err::<Option<Vec<u8>>, VaultError>(VaultError::Format)
                && *final(self) == *old(self),
    {
        let key = generate_key_from_password(passphrase);
        match self.status {
            KeyStatus::FirstRun => {
                self.key = key;
                self.clients = Vec::new();
                self.status = KeyStatus::Submitted;
                proof {
                    assert(self.clients.deep_view() =~= Seq::<ClientView>::empty());
                    crate::codec::lemma_encode_empty();
                }
                match self.sealed_clients() {
                    Ok(c) => Ok(Some(c)),
                    Err(_) => {
                        proof {
                            assert(false);
                        }
                        Err(VaultError::Format)
                    },
                }
            },
            KeyStatus::Missing => {
                match container {
                    None => {
                        proof {
                            assert(false);
                        }
                        Err(VaultError::Format)
                    },
                    Some(data) => {
                        match decrypt(data, &key) {
                            Ok(payload) => {
                                proof {
                                    let n0 = data@.subrange(0, NONCE_SIZE as int);
                                    assert(data@ == sealed_container(
                                        derived_key(passphrase@),
                                        n0,
                                        payload@,
                                    ));
                                    assert(n0.len() == NONCE_SIZE);
                                    assert(payload@.len() <= MAX_PLAINTEXT_LEN + 16);
                                }
                                match decode(payload.as_slice()) {
                                    Ok(list) => {
                                        self.key = key;
                                        self.clients = list;
                                        self.status = KeyStatus::Submitted;
                                        Ok(None)
                                    },
                                    Err(_) => {
                                        proof {
                                            assert forall|n: Seq<u8>, p: Seq<u8>|
                                                n.len() == NONCE_SIZE && p.len()
                                                    <= MAX_PLAINTEXT_LEN + 16 && data@
                                                    == sealed_container(
                                                    derived_key(passphrase@),
                                                    n,
                                                    p,
                                                ) implies parse_list(p) is None by {
                                                assert(payload@ == p);
                                            }
                                        }
                                        Err(VaultError::Format)
                                    },
                                }
                            },
                            Err(_) => {
                                self.key = key;
                                self.status = KeyStatus::Incorrect;
                                Ok(None)
                            },
                        }
                    },
                }
            },
            _ => {
                proof {
                    assert(false);
                }
                Err(VaultError::Format)
            },
        }
    }

    /// Acknowledges a rejected key: the attempted key is wiped and the
    /// session returns to waiting for a passphrase.
    pub fn acknowledge(&mut self)
        requires
            old(self).wf(),
            old(self).status == KeyStatus::Incorrect,
        ensures
            final(self).wf(),
            final(self).status == KeyStatus::Missing,
            final(self).key@ == zero_key(),
            final(self).clients@ == old(self).clients@,
    {
        self.status = KeyStatus::Missing;
        self.key = [0u8; KEY_SIZE];
        proof {
            assert(self.key@ =~= zero_key());
        }
    }

    /// Appends a record and returns the re-sealed container to persist.
    pub fn add_client(&mut self, c: Client) -> (r: Result<Vec<u8>, VaultError>)
        requires
            old(self).wf(),
            old(self).status == KeyStatus::Submitted,
        ensures
            final(self).wf(),
            final(self).status == KeyStatus::Submitted,
            final(self).key@ == old(self).key@,
            final(self).clients.deep_view() == old(self).clients.deep_view().push(c@),
            r matches Ok(ct) ==> ct@ == sealed_container(
                old(self).key@,
                ct@.subrange(0, NONCE_SIZE as int),
                encode_list_spec(final(self).clients.deep_view()),
            ) && ct@.len() == NONCE_SIZE + 16 + encode_list_spec(
                final(self).clients.deep_view(),
            ).len(),
            r is Ok ==> encode_list_spec(final(self).clients.deep_view()).len()
                <= MAX_PLAINTEXT_LEN && list_encodable(final(self).clients.deep_view()),
            encode_list_spec(final(self).clients.deep_view()).len() <= MAX_PLAINTEXT_LEN
                ==> r is Ok,
            r is Err ==> r == Err::<Vec<u8>, VaultError>(VaultError::Format),
    {
        let ghost before = self.clients.deep_view();
        self.clients.push(c);
        proof {
            assert(self.clients.deep_view() =~= before.push(c@));
        }
        self.sealed_clients()
    }

    /// Replaces the record at `index` and returns the re-sealed container.
    /// An index past the end is a caller bug, ruled out up front.
    pub fn edit_client(&mut self, index: usize, c: Client) -> (r: Result<Vec<u8>, VaultError>)
        requires
            old(self).wf(),
            old(self).status == KeyStatus::Submitted,
            index < old(self).clients@.len(),
        ensures
            final(self).wf(),
            final(self).status == KeyStatus::Submitted,
            final(self).key@ == old(self).key@,
            final(self).clients.deep_view() == old(self).clients.deep_view().update(
                index as int,
                c@,
            ),
            r matches Ok(ct) ==> ct@ == sealed_container(
                old(self).key@,
                ct@.subrange(0, NONCE_SIZE as int),
                encode_list_spec(final(self).clients.deep_view()),
            ) && ct@.len() == NONCE_SIZE + 16 + encode_list_spec(
                final(self).clients.deep_view(),
            ).len(),
            r is Ok ==> encode_list_spec(final(self).clients.deep_view()).len()
                <= MAX_PLAINTEXT_LEN && list_encodable(final(self).clients.deep_view()),
            encode_list_spec(final(self).clients.deep_view()).len() <= MAX_PLAINTEXT_LEN
                ==> r is Ok,
            r is Err ==> r == Err::<Vec<u8>, VaultError>(VaultError::Format),
    {
        let ghost before = self.clients.deep_view();
        self.clients[index] = c;
        proof {
            assert(self.clients.deep_view() =~= before.update(index as int, c@));
        }
        self.sealed_clients()
    }

    /// Removes the record at `index` and returns the re-sealed container.
    /// An index past the end is a caller bug, ruled out up front.
    pub fn remove_client(&mut self, index: usize) -> (r: Result<Vec<u8>, VaultError>)
        requires
            old(self).wf(),
            old(self).status == KeyStatus::Submitted,
            index < old(self).clients@.len(),
        ensures
            final(self).wf(),
            final(self).status == KeyStatus::Submitted,
            final(self).key@ == old(self).key@,
            final(self).clients.deep_view() == old(self).clients.deep_view().remove(index as int),
            r matches Ok(ct) ==> ct@ == sealed_container(
                old(self).key@,
                ct@.subrange(0, NONCE_SIZE as int),
                encode_list_spec(final(self).clients.deep_view()),
            ) && ct@.len() == NONCE_SIZE + 16 + encode_list_spec(
                final(self).clients.deep_view(),
            ).len(),
            r is Ok ==> encode_list_spec(final(self).clients.deep_view()).len()
                <= MAX_PLAINTEXT_LEN && list_encodable(final(self).clients.deep_view()),
            encode_list_spec(final(self).clients.deep_view()).len() <= MAX_PLAINTEXT_LEN
                ==> r is Ok,
            r is Err ==> r == Err::<Vec<u8>, VaultError>(VaultError::Format),
    {
        let ghost before = self.clients.deep_view();
        let _ = self.clients.remove(index);
        proof {
            assert(self.clients.deep_view() =~= before.remove(index as int));
        }
        self.sealed_clients()
    }

    /// Opens a container sealed under the well-known all-zero legacy key,
    /// appends its records to the current list, and reseals everything —
    /// imported records included — under the session key.  A container the
    /// legacy key does not open reports an authentication fault and changes
    /// nothing; one that opens but does not decode reports a format fault
    /// and changes nothing.
    pub fn import_sealed(&mut self, data: &[u8]) -> (r: Result<Vec<u8>, VaultError>)
        requires
            old(self).wf(),
            old(self).status == KeyStatus::Submitted,
        ensures
            final(self).wf(),
            final(self).status == KeyStatus::Submitted,
            final(self).key@ == old(self).key@,
            forall|n: Seq<u8>, p: Seq<u8>|
                #![trigger sealed_container(zero_key(), n, p)]
                (n.len() == NONCE_SIZE && p.len() <= MAX_PLAINTEXT_LEN && data@
                    == sealed_container(zero_key(), n, p) && parse_list(p) is Some) ==> (final(self).clients.deep_view() == old(self).clients.deep_view() + parse_list(p)->Some_0 && (
                encode_list_spec(final(self).clients.deep_view()).len() <= MAX_PLAINTEXT_LEN
                    ==> r is Ok)),
            r matches Ok(ct) ==> ct@ == sealed_container(
                old(self).key@,
                ct@.subrange(0, NONCE_SIZE as int),
                encode_list_spec(final(self).clients.deep_view()),
            ) && ct@.len() == NONCE_SIZE + 16 + encode_list_spec(
                final(self).clients.deep_view(),
            ).len(),
            r is Ok ==> encode_list_spec(final(self).clients.deep_view()).len()
                <= MAX_PLAINTEXT_LEN && list_encodable(final(self).clients.deep_view()),
            r == Err::<Vec<u8>, VaultError>(VaultError::Authentication) ==> final(self).clients@
                == old(self).clients@,
    {
        let legacy_key = [0u8; KEY_SIZE];
        proof {
            assert(legacy_key@ =~= zero_key());
        }
        match decrypt(data, &legacy_key) {
            Err(_) => Err(VaultError::Authentication),
            Ok(payload) => {
                match decode(payload.as_slice()) {
                    Err(_) => {
                        proof {
                            assert forall|n: Seq<u8>, p: Seq<u8>|
                                n.len() == NONCE_SIZE && p.len() <= MAX_PLAINTEXT_LEN && data@
                                    == sealed_container(zero_key(), n, p) implies parse_list(
                                p,
                            ) is None by {
                                assert(payload@ == p);
                            }
                        }
                        Err(VaultError::Format)
                    },
                    Ok(mut imported) => {
                        let ghost before = self.clients.deep_view();
                        let ghost added = imported.deep_view();
                        self.clients.append(&mut imported);
                        proof {
                            assert(self.clients.deep_view() =~= before + added);
                        }
                        self.sealed_clients()
                    },
                }
            },
        }
    }
}

} // verus!
