//! Acquire a media file with an extractor tool, tag it with cover art and a
//! title through a tagging tool, and put the tagged file in its place.
//!
//! The library holds the rules of that pipeline: how an instruction is read,
//! which paths are derived from it, which commands are run and what follows
//! from each outcome. Input and output stay with the caller, who performs the
//! actions that the library asks for and reports what came of them.
//!
//! - [`command`] reads an instruction; [`words`] cuts its arguments into
//!   words and finds the output file among them.
//! - [`paths`] derives the paths of a request; [`tagging`] writes the
//!   commands for the tagging tool; [`pipeline`] carries a request from its
//!   instruction to the tagged file.
//! - [`release`] picks the file to download from a release listing;
//!   [`fetch`] gets a tool that is missing; [`archive`] unpacks it.
//! - [`config`], [`console`], [`endpoint`] and [`process`] hold what the
//!   program around the pipeline decides; [`catalog`] lists collected tracks.
//! - [`text`] holds what the others share about text.
//!
//! Paths are texts whose parts are divided by `/`, and by `/` only; see
//! [`paths`].

pub mod archive;
pub mod catalog;
pub mod command;
pub mod config;
pub mod console;
pub mod endpoint;
pub mod fetch;
pub mod paths;
pub mod pipeline;
pub mod process;
pub mod release;
pub mod tagging;
pub mod text;
pub mod words;
