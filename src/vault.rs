//! The vault: service names mapped to encrypted records, with upsert and
//! lookup by name, and the save and retrieve operations built on them.
use vstd::prelude::*;

use crate::cipher::{
    decrypt_password, decrypts_to, encrypt_password, is_blob_for, lemma_round_trip, CipherError,
};
use crate::key::MasterKey;
use crate::primitives::MAX_PLAINTEXT_LEN;

verus! {

/// One stored secret: the service it belongs to and its encrypted blob.
pub struct PasswordEntry {
    pub service: String,
    pub encrypted_password: Vec<u8>,
}

/// Encrypted records, at most one per service name. Its view maps each
/// service name to the blob stored for it.
pub struct Vault {
    entries: Vec<PasswordEntry>,
    model: Ghost<Map<Seq<char>, Seq<u8>>>,
}

impl View for Vault {
    type V = Map<Seq<char>, Seq<u8>>;

    closed spec fn view(&self) -> Map<Seq<char>, Seq<u8>> {
        self.model@
    }
}

impl Vault {
    /// Service names are distinct, and the entries list exactly the view.
    pub closed spec fn wf(&self) -> bool {
        &&& forall|i: int, j: int|
            0 <= i < j < self.entries@.len() ==> #[trigger] self.entries@[i].service@
                != #[trigger] self.entries@[j].service@
        &&& forall|i: int|
            0 <= i < self.entries@.len() ==> self.model@.contains_key(
                #[trigger] self.entries@[i].service@,
            ) && self.model@[self.entries@[i].service@] == self.entries@[i].encrypted_password@
        &&& forall|k: Seq<char>|
            #[trigger] self.model@.contains_key(k) ==> exists|i: int|
                0 <= i < self.entries@.len() && #[trigger] self.entries@[i].service@ == k
    }

    /// An empty vault.
    pub fn new() -> (r: Vault)
        ensures
            r.wf(),
            r@ == Map::<Seq<char>, Seq<u8>>::empty(),
    {
        Vault { entries: Vec::new(), model: Ghost(Map::empty()) }
    }

    /// Position of the entry for `service`, if there is one.
    fn find(&self, service: &String) -> (r: Option<usize>)
        requires
            self.wf(),
        ensures
            match r {
                Some(i) => i < self.entries@.len() && self.entries@[i as int].service@ == service@,
                None => !self@.contains_key(service@),
            },
    {
        let mut i: usize = 0;
        while i < self.entries.len()
            invariant
                self.wf(),
                i <= self.entries@.len(),
                forall|j: int| 0 <= j < i ==> #[trigger] self.entries@[j].service@ != service@,
            decreases self.entries@.len() - i,
        {
            if self.entries[i].service == *service {
                return Some(i);
            }
            i = i + 1;
        }
        None
    }

    /// The blob stored for `service`, if any.
    pub fn get(&self, service: &str) -> (r: Option<&Vec<u8>>)
        requires
            self.wf(),
        ensures
            r is Some <==> self@.contains_key(service@),
            r is Some ==> r->Some_0@ == self@[service@],
    {
        let name = service.to_owned();
        match self.find(&name) {
            Some(i) => Some(&self.entries[i].encrypted_password),
            None => None,
        }
    }

    /// Stores `encrypted_password` for `service`, replacing what was there.
    pub fn upsert(&mut self, service: &str, encrypted_password: Vec<u8>)
        requires
            old(self).wf(),
        ensures
            final(self).wf(),
            final(self)@ == old(self)@.insert(service@, encrypted_password@),
    {
        let name = service.to_owned();
        let ghost blob = encrypted_password@;
        let ghost before = self.entries@;
        match self.find(&name) {
            Some(i) => {
                self.entries.set(i, PasswordEntry { service: name, encrypted_password });
                self.model = Ghost(self.model@.insert(service@, blob));
                assert forall|k: Seq<char>| #[trigger] self.model@.contains_key(k) implies exists|
                    j: int,
                | 0 <= j < self.entries@.len() && #[trigger] self.entries@[j].service@ == k by {
                    if k != service@ {
                        let j = choose|j: int| 0 <= j < before.len() && #[trigger] before[j].service@ == k;
                        assert(self.entries@[j].service@ == k);
                    } else {
                        assert(self.entries@[i as int].service@ == k);
                    }
                }
            },
            None => {
                self.entries.push(PasswordEntry { service: name, encrypted_password });
                self.model = Ghost(self.model@.insert(service@, blob));
                let ghost n = before.len() as int;
                assert(self.entries@[n].service@ == service@);
                assert forall|k: Seq<char>| #[trigger] self.model@.contains_key(k) implies exists|
                    j: int,
                | 0 <= j < self.entries@.len() && #[trigger] self.entries@[j].service@ == k by {
                    if k != service@ {
                        let j = choose|j: int| 0 <= j < before.len() && #[trigger] before[j].service@ == k;
                        assert(self.entries@[j].service@ == k);
                    } else {
                        assert(self.entries@[n].service@ == k);
                    }
                }
            },
        }
    }

    /// The entries, one per service name in the view, each with its blob.
    pub fn entries(&self) -> (r: &Vec<PasswordEntry>)
        requires
            self.wf(),
        ensures
            forall|i: int, j: int|
                0 <= i < j < r@.len() ==> #[trigger] r@[i].service@ != #[trigger] r@[j].service@,
            forall|i: int|
                0 <= i < r@.len() ==> self@.contains_key(#[trigger] r@[i].service@) && self@[r@[i].service@]
                    == r@[i].encrypted_password@,
            forall|k: Seq<char>|
                #[trigger] self@.contains_key(k) ==> exists|i: int|
                    0 <= i < r@.len() && #[trigger] r@[i].service@ == k,
    {
        &self.entries
    }
}

/// `after` is `before` with `service` holding an encryption of `password`
/// under `key`, and nothing else changed.
pub open spec fn saved(
    before: Map<Seq<char>, Seq<u8>>,
    after: Map<Seq<char>, Seq<u8>>,
    key: Seq<u8>,
    service: Seq<char>,
    password: Seq<char>,
) -> bool {
    &&& after.contains_key(service)
    &&& is_blob_for(key, after[service], password)
    &&& after == before.insert(service, after[service])
}

/// What retrieving `service` may give (`None`: not found): a service
/// without a record is not found, and one with a record gives what
/// decrypting its blob under `key` gives.
pub open spec fn retrieves(
    vault: Map<Seq<char>, Seq<u8>>,
    key: Seq<u8>,
    service: Seq<char>,
    out: Option<Result<Seq<char>, CipherError>>,
) -> bool {
    if vault.contains_key(service) {
        out is Some && decrypts_to(key, vault[service], out->Some_0)
    } else {
        out is None
    }
}

/// The view of a retrieval result: `None` when the service was not found.
pub open spec fn lookup_outcome(r: Result<Option<String>, CipherError>) -> Option<
    Result<Seq<char>, CipherError>,
> {
    match r {
        Ok(None) => None,
        Ok(Some(s)) => Some(Ok(s@)),
        Err(e) => Some(Err(e)),
    }
}

/// Encrypts `password` under `key` and stores it for `service`, replacing
/// any earlier record of that service. Service names are non-empty. Fails,
/// leaving the vault as it was, only when no random nonce can be drawn.
pub fn save_password(vault: &mut Vault, service: &str, password: &str, key: &MasterKey) -> (r:
    Result<(), CipherError>)
    requires
        old(vault).wf(),
        service@.len() > 0,
        password.len() <= MAX_PLAINTEXT_LEN,
    ensures
        final(vault).wf(),
        r is Ok ==> saved(old(vault)@, final(vault)@, key@, service@, password@),
        r is Err ==> r == Err::<(), CipherError>(CipherError::RandomSourceFailed),
        r is Err ==> final(vault)@ == old(vault)@,
{
    match encrypt_password(password, key) {
        Ok(encrypted_password) => {
            vault.upsert(service, encrypted_password);
            Ok(())
        },
        Err(e) => Err(e),
    }
}

/// Looks up `service` and decrypts its record under `key`. `Ok(None)` means
/// that no record of the service exists; errors come from decryption only.
pub fn retrieve_password(vault: &Vault, service: &str, key: &MasterKey) -> (r: Result<
    Option<String>,
    CipherError,
>)
    requires
        vault.wf(),
    ensures
        retrieves(vault@, key@, service@, lookup_outcome(r)),
        !vault@.contains_key(service@) ==> r == Ok::<Option<String>, CipherError>(None),
{
    match vault.get(service) {
        None => Ok(None),
        Some(blob) => match decrypt_password(blob.as_slice(), key) {
            Ok(text) => Ok(Some(text)),
            Err(e) => Err(e),
        },
    }
}

/// Retrieving a service right after saving a password for it gives that
/// password back.
pub proof fn lemma_retrieve_after_save(
    before: Map<Seq<char>, Seq<u8>>,
    after: Map<Seq<char>, Seq<u8>>,
    key: Seq<u8>,
    service: Seq<char>,
    password: Seq<char>,
    out: Option<Result<Seq<char>, CipherError>>,
)
    requires
        saved(before, after, key, service, password),
        retrieves(after, key, service, out),
    ensures
        out == Some(Ok::<Seq<char>, CipherError>(password)),
{
    lemma_round_trip(key, after[service], password, out->Some_0);
}

/// Saving a service twice leaves the second password retrievable, and every
/// other service exactly as it was before both saves.
pub proof fn lemma_overwrite(
    v0: Map<Seq<char>, Seq<u8>>,
    v1: Map<Seq<char>, Seq<u8>>,
    v2: Map<Seq<char>, Seq<u8>>,
    key: Seq<u8>,
    service: Seq<char>,
    first: Seq<char>,
    second: Seq<char>,
    out: Option<Result<Seq<char>, CipherError>>,
)
    requires
        saved(v0, v1, key, service, first),
        saved(v1, v2, key, service, second),
        retrieves(v2, key, service, out),
    ensures
        out == Some(Ok::<Seq<char>, CipherError>(second)),
        forall|other: Seq<char>|
            other != service ==> (#[trigger] v2.contains_key(other) <==> v0.contains_key(other)),
        forall|other: Seq<char>|
            other != service && #[trigger] v0.contains_key(other) ==> v2[other] == v0[other],
        forall|other: Seq<char>, o: Option<Result<Seq<char>, CipherError>>|
            other != service ==> (#[trigger] retrieves(v2, key, other, o) <==> retrieves(
                v0,
                key,
                other,
                o,
            )),
{
    lemma_retrieve_after_save(v1, v2, key, service, second, out);
    assert forall|other: Seq<char>, o: Option<Result<Seq<char>, CipherError>>|
        other != service implies (#[trigger] retrieves(v2, key, other, o) <==> retrieves(
        v0,
        key,
        other,
        o,
    )) by {
        assert(v2.contains_key(other) == v0.contains_key(other));
        if v0.contains_key(other) {
            assert(v2[other] == v0[other]);
        }
    }
}

} // verus!
