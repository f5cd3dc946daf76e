//! A `cat`-like line streamer: sources are read line by line and written out,
//! optionally numbered, with one numbering counter for the whole run and with
//! sources that cannot be opened reported and skipped.

pub mod numbering;
pub mod stream;
pub mod replay;
