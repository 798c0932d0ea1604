//! A local secret vault: service names mapped to passwords encrypted at rest
//! under a single locally generated AES-256-GCM master key.
pub mod cipher;
pub mod key;
pub mod primitives;
pub mod vault;

pub use cipher::{
    decrypt_password, encrypt_bytes, encrypt_bytes_with_nonce, encrypt_password, CipherError,
};
pub use key::{provision_key, KeyError, MasterKey};
pub use vault::{retrieve_password, save_password, PasswordEntry, Vault};
