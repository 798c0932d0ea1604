//! The master key and its provisioning.
use vstd::prelude::*;

use crate::primitives::{fresh_key_bytes, KEY_LEN};

verus! {

/// Why stored key material was refused.
#[derive(Debug, Clone, Copy, PartialEq, Eq, Structural)]
pub enum KeyError {
    /// The stored key is not exactly 32 bytes long.
    WrongLength,
    /// The operating system's random source failed while making a new key.
    RandomSourceFailed,
}

/// A 256-bit symmetric key.
pub struct MasterKey {
    bytes: Vec<u8>,
}

impl View for MasterKey {
    type V = Seq<u8>;

    closed spec fn view(&self) -> Seq<u8> {
        self.bytes@
    }
}

impl MasterKey {
    #[verifier::type_invariant]
    spec fn inv(&self) -> bool {
        self.bytes@.len() == KEY_LEN
    }

    /// Takes stored key material as it is, provided it is 32 bytes long.
    pub fn from_bytes(bytes: Vec<u8>) -> (r: Result<MasterKey, KeyError>)
        ensures
            r is Ok <==> bytes@.len() == KEY_LEN,
            r is Ok ==> r->Ok_0@ == bytes@,
            r is Err ==> r == Err::<MasterKey, KeyError>(KeyError::WrongLength),
    {
        if bytes.len() == KEY_LEN {
            Ok(MasterKey { bytes })
        } else {
            Err(KeyError::WrongLength)
        }
    }

    /// A new key drawn from the operating system's secure random source;
    /// fails only when that source does.
    pub fn generate() -> (r: Result<MasterKey, KeyError>)
        ensures
            r is Ok ==> r->Ok_0@.len() == KEY_LEN,
            r is Err ==> r == Err::<MasterKey, KeyError>(KeyError::RandomSourceFailed),
    {
        match fresh_key_bytes() {
            Some(bytes) => Ok(MasterKey { bytes }),
            None => Err(KeyError::RandomSourceFailed),
        }
    }

    /// The key's bytes, as they are to be stored.
    pub fn as_bytes(&self) -> (r: &[u8])
        ensures
            r@ == self@,
            r@.len() == KEY_LEN,
    {
        proof {
            use_type_invariant(self);
        }
        self.bytes.as_slice()
    }
}

/// The outcome of provisioning, as a key and whether it was newly created.
pub open spec fn provision_view(r: Result<(MasterKey, bool), KeyError>) -> Result<
    (Seq<u8>, bool),
    KeyError,
> {
    match r {
        Ok((k, created)) => Ok((k@, created)),
        Err(e) => Err(e),
    }
}

/// What provisioning may return given what the key file holds (`None`: no
/// key file): a stored key is returned verbatim when it is 32 bytes long and
/// refused otherwise; with none stored a fresh 32-byte key is created, unless
/// the random source fails.
pub open spec fn provisions(
    stored: Option<Seq<u8>>,
    out: Result<(Seq<u8>, bool), KeyError>,
) -> bool {
    match stored {
        Some(b) => if b.len() == KEY_LEN {
            out == Ok::<(Seq<u8>, bool), KeyError>((b, false))
        } else {
            out == Err::<(Seq<u8>, bool), KeyError>(KeyError::WrongLength)
        },
        None => (out is Ok && out->Ok_0.1 && out->Ok_0.0.len() == KEY_LEN) || out == Err::<
            (Seq<u8>, bool),
            KeyError,
        >(KeyError::RandomSourceFailed),
    }
}

/// What the key file holds after provisioning: a newly created key is
/// written, anything else leaves the file as it was.
pub open spec fn stored_after(
    stored: Option<Seq<u8>>,
    out: Result<(Seq<u8>, bool), KeyError>,
) -> Option<Seq<u8>> {
    match out {
        Ok((k, true)) => Some(k),
        _ => stored,
    }
}

/// Returns the master key given the key file's contents, if there is one.
/// The flag is true when the key was just generated and must be written.
pub fn provision_key(stored: Option<Vec<u8>>) -> (r: Result<(MasterKey, bool), KeyError>)
    ensures
        provisions(
            match stored {
                Some(b) => Some(b@),
                None => None,
            },
            provision_view(r),
        ),
{
    match stored {
        Some(bytes) => match MasterKey::from_bytes(bytes) {
            Ok(key) => Ok((key, false)),
            Err(e) => Err(e),
        },
        None => match MasterKey::generate() {
            Ok(key) => Ok((key, true)),
            Err(e) => Err(e),
        },
    }
}

/// Provisioning twice on the same key file gives the same key the second
/// time as the first, and the second time creates nothing.
pub proof fn lemma_key_stable(
    stored: Option<Seq<u8>>,
    first: Result<(Seq<u8>, bool), KeyError>,
    second: Result<(Seq<u8>, bool), KeyError>,
)
    requires
        provisions(stored, first),
        first is Ok,
        provisions(stored_after(stored, first), second),
    ensures
        second == Ok::<(Seq<u8>, bool), KeyError>((first->Ok_0.0, false)),
{
}

} // verus!
