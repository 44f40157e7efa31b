//! What the library promises, said apart from how it is computed.
//!
//! A law here speaks of what goes in and what comes out. Where a rule is a list, a
//! number or a text, the law writes it out.
pub mod bootstrap;
pub mod checksum;
pub mod clone;
pub mod descriptor;
pub mod engine;
pub mod equality;
pub mod external;
pub mod health;
pub mod launch;
pub mod manifest;
pub mod path;
pub mod recovery;
pub mod search;
pub mod state;
pub mod text;
pub mod token;
