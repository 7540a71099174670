//! The decisions of a batch downloader, without its input and output.
//!
//! A run reads a list of addresses, one to a line ([`urls`]), gives each a
//! destination in one directory ([`filename`]), and fetches them a bounded
//! number at a time ([`schedule`], [`batch`]). Each fetch is a short sequence
//! of steps whose order and reports are laid down in [`fetch`] and
//! [`notice`]; [`progress`] says what a progress display has counted when
//! the run is over.
//!
//! Nothing here touches the network, the disk or the terminal. The caller
//! does that work and tells this crate how it went.

pub mod batch;
pub mod fetch;
pub mod filename;
pub mod notice;
pub mod progress;
pub mod resource;
pub mod schedule;
pub mod startup;
pub mod text;
pub mod urls;
