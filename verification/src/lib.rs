//! An exclusive-access guard for a single shared resource.
//!
//! The guard owns one resource value and grants callers temporary,
//! serialized access to it through a caller-supplied action. A binary
//! access token (available / held) controls entry: the token is consumed
//! when an action starts and released when it finishes, on every exit
//! path, so no caller is ever starved by an earlier failure.

pub mod driver;
pub mod guard;
pub mod lines;
pub mod protocol;

pub use guard::ResourceGuard;
pub use lines::hello_line;
