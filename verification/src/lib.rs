//! Sorting of files into folders, with the help of a language model.
//!
//! The library decides; it touches neither the disk nor the network. What has to be done
//! there is said by state machines, which hear how it went:
//!
//! - [`scan`] turns what is found in a folder into a plan, with [`previews`],
//!   [`categories`] and [`names`];
//! - [`refinement`] has the model asked about the files of the plan, in [`batches`] and
//!   with [`requests`], reads its [`replies`] and applies its [`decisions`]; [`runs`]
//!   states what holds of every run;
//! - [`planning`] finds a place for each file, [`execution`] moves all files or none, and
//!   [`history`] keeps what is needed to undo it; [`disks`] states what that does to the
//!   files.
//!
//! [`endpoints`], [`addresses`] and [`models`] are about the service that runs the model,
//! [`diagnostics`] and [`extensions`] about what may be told of all this. [`laws`] states
//! what the operations are for, and [`outside`] holds what is taken from other crates on
//! trust.

pub mod addresses;
pub mod batches;
pub mod categories;
pub mod decisions;
pub mod diagnostics;
pub mod disks;
pub mod endpoints;
pub mod execution;
pub mod extensions;
pub mod failures;
pub mod history;
pub mod json;
pub mod laws;
pub mod models;
pub mod moves;
pub mod names;
pub mod outside;
pub mod paths;
pub mod planning;
pub mod previews;
pub mod records;
pub mod refinement;
pub mod replies;
pub mod requests;
pub mod runs;
pub mod scan;
pub mod text;
