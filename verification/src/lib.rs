//! Skeleton declarations recovered from compiled class output.
//!
//! A bundle holds the source files of one version of a script code base. A
//! catalog, kept by hand, says which definitions to look for in which file.
//! For each class definition this crate locates the text of the class, takes
//! it apart into constructor, fields and methods, and drafts a declaration
//! for it: an artifact, stamped with the version and marked wherever a human
//! still has to look. An artifact that carries the stamp of the version at
//! hand and no marker is finished work, and is never written again.
//!
//! Nothing here reads or writes a file: what stands on disk comes in as text,
//! and what is to be written goes out as text.
//!
//! - `utility` locates a definition by its anchor and its braces.
//! - `extract` takes a class apart; `pattern` and `casing` hold the searches
//!   and conversions that are made outside this crate.
//! - `gate` decides whether an artifact is kept or written anew.
//! - `emit` writes the draft of a class.
//! - `gen_class` and `generate` deal with one class and with one definition;
//!   `unpack` runs over a whole bundle, `repeat` says what holds of every run.
//! - `latest` picks the newest bundle, `deserialize` holds the bundle and the
//!   catalog, and `text` the helpers on characters that all of them share.

pub mod casing;
pub mod deserialize;
pub mod emit;
pub mod extract;
pub mod gate;
pub mod gen_class;
pub mod generate;
pub mod latest;
pub mod pattern;
pub mod repeat;
pub mod text;
pub mod unpack;
pub mod utility;
