//! What the library promises, said of what goes in and what comes out.
//!
//! The laws speak in words of their own: the texts that matter stand in them as
//! they are written, and what they need to say is said here, apart from the
//! functions that the code is held to.

pub mod calls;
pub mod install;
pub mod npm;
pub mod proxy;
pub mod pypi;
pub mod run;
pub mod sandbox;
pub mod values;
pub mod words;
