//! A declarative command-line option parser.
//!
//! Options are registered on a session, a single pass over the tokens
//! fills their values and the positional tokens, and handlers run once
//! the pass has succeeded.
pub mod error;
pub mod opt;
pub mod laws;
pub mod optz;

pub use error::OptzError;
pub use opt::{Arg, Callback, Form, Handler, Opt, SessionView};
pub use optz::Optz;
