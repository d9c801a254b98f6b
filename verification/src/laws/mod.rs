//! What holds of the library as a whole.
pub mod announcements;
pub mod catalogue;
pub mod chains;
pub mod edits;
pub mod effects;
pub mod fingerprint;
pub mod importing;
pub mod offered;
pub mod refreshing;
pub mod selection;
pub mod settings;
pub mod state;
pub mod views;
