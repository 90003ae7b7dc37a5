//! Task queue core of the Zephost beta backend: the models, the text rules,
//! the in-memory queue state machine and the listing and export rules.

pub mod text;
pub mod models;
pub mod strmap;
pub mod credentials;
pub mod state;
pub mod listing;
pub mod settings;
pub mod clock;
pub mod encryption;
pub mod worker;
pub mod laws;
