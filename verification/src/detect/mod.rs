//! Finding projects on disk: which directories are skipped or descended
//! into, what a directory's manifest says about launching it, and the
//! candidates offered to the user.
pub mod candidates;
pub mod manifest;
pub mod names;
