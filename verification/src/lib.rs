//! KairoHub's rules: which projects can be opened, what is written for them, and
//! when the tools of the engine are run on them.
//!
//! Nothing here touches a disk or starts a program. What is known of the outside
//! is handed in as plain values; what is to be written or run comes back as a
//! plan. A path is text, its names separated by `/`.
pub mod bootstrap;
pub mod checksum;
pub mod clone;
pub mod descriptor;
pub mod engine;
pub mod external;
pub mod generate;
pub mod health;
pub mod launch;
pub mod laws;
pub mod layout;
pub mod listing;
pub mod manifest;
pub mod path;
pub mod process;
pub mod recovery;
pub mod search;
pub mod state;
pub mod text;
pub mod token;
