//! The logic of a read-only filesystem that shows the public keys held by an
//! SSH agent as files.
//!
//! - [`text`]: characters and decimal numbers.
//! - [`names`]: the file name that a comment or a fingerprint gives.
//! - [`keys`]: what the agent says of a key, and what its file shows.
//! - [`time`]: how long a listing of the agent's keys stays fresh.
//! - [`table`]: the tables of files and names, as mathematics.
//! - [`fs`]: the filesystem's state and what it answers.
//! - [`request`]: the requests of the kernel and the steps that answer them.
//! - [`mount`]: where to mount if the user does not say.
//! - [`safe_dir`]: making sure that a directory is safe to mount on.
//! - [`cli`]: the command line.

pub mod cli;
pub mod fs;
pub mod keys;
pub mod mount;
pub mod names;
pub mod request;
pub mod safe_dir;
pub mod table;
pub mod text;
pub mod time;
