//! Disc recovery: the decisions and the bookkeeping behind turning a damaged
//! optical disc into an image file. Nothing here reads a drive or writes a
//! file; the owner of the library does, and is told what to do.

pub mod copy;
pub mod disc;
pub mod entries;
pub mod entry_laws;
pub mod files;
pub mod geometry;
pub mod handlers;
pub mod handoff;
pub mod identity;
pub mod keys;
pub mod language;
pub mod language_laws;
pub mod mapfile;
pub mod mapfile_lines;
pub mod mapfile_round_trip;
pub mod mapfile_text;
pub mod patch;
pub mod patch_laws;
pub mod patch_pass;
pub mod progress;
pub mod read_error;
pub mod read_error_laws;
pub mod read_error_rules;
pub mod run;
pub mod sections;
pub mod sink;
pub mod speed;
pub mod speed_laws;
pub mod status;
pub mod stream_laws;
pub mod streams;
pub mod sweep;
pub mod sweep_laws;
pub mod sweep_outcomes;
pub mod sweep_rules;
pub mod tallies;
pub mod text;
pub mod text_laws;
