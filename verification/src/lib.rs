//! Track selection, mkvmerge command construction and merge-session rules
//! for combining two encodes of the same video into one synced file.

pub mod mux;
pub mod offset;
pub mod paths;
pub mod probe;
pub mod state;
pub mod text;
pub mod theme;
