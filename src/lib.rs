//! Fixed-layout byte codecs for the two pool account records: the pool header
//! (a 32-byte signal provider key and an initialization flag, 33 bytes) and the
//! pool account entry (a 32-byte mint key and a little-endian `u64` amount,
//! 40 bytes).

pub mod account;
pub mod error;
pub mod header;
pub mod key;

pub use account::{PoolAccount, ACCOUNT_LEN};
pub use error::PackError;
pub use header::{PoolHeader, HEADER_LEN};
pub use key::{Key, KEY_LEN};
