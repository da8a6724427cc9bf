//! An identity directory: `passwd`, `group` and `shadow` records kept in
//! colon-delimited text files, a reloading store over them, and the
//! per-connection session state machine that drives password-authenticated
//! login and admin registration.
pub mod text;
pub mod types;
pub mod files;
pub mod apake;
pub mod session;
pub mod nss;

pub use apake::DefaultCipherSuite;
pub use nss::ToNSS;
pub use files::{FileSnapshot, FileTime, Files, Reloadable, StoreError, Table};
pub use session::{AuthdSession, Envelope, RpcError};
pub use types::{Group, Passwd, Shadow};
